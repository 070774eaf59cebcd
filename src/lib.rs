//! Linux Pressure Stall Information (PSI): parsing of the kernel's pressure
//! files, encoding of pressure triggers, and the registry that attributes
//! trigger events to their triggers.

pub mod error;
pub mod monitor;
pub mod psi;
pub mod text;
pub mod trigger;

pub use crate::error::{ParseError, PsiError};
pub use crate::psi::{AllPsiStats, Psi, PsiKind, PsiLine};
pub use crate::text::Decimal;
pub use crate::monitor::{PsiEvent, TriggerId, TriggerRegistry};
pub use crate::trigger::{MemoryTrigger, Trigger, TriggerThreshold};
