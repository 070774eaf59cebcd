//! Pressure triggers: what is watched, and the text that arms the kernel.

use vstd::prelude::*;

use crate::psi::{kind_name, line_word, pressure_path, PsiKind, PsiLine, MEMORY_PRESSURE_FILEPATH};
use crate::text::{ascii_bytes, decimal_text, push_ascii, push_decimal, push_decimal_bytes};

verus! {

/// The stall time, in microseconds, that must build up within a window of
/// time, in microseconds, for a trigger to fire.
#[derive(Debug, Clone, Copy, PartialEq, Eq, Structural)]
pub struct TriggerThreshold {
    pub stall: u64,
    pub window: u64,
}

/// A pressure trigger: a resource, one of its lines, the pressure file that
/// arms it, and the threshold.
#[derive(Debug, Clone, Copy, PartialEq, Eq)]
pub struct Trigger {
    pub kind: PsiKind,
    pub line: PsiLine,
    pub target_file_path: &'static str,
    pub threshold: TriggerThreshold,
}

/// The text that arms a trigger: `<some|full> <stall> <window>`.
pub open spec fn trigger_text(line: PsiLine, threshold: TriggerThreshold) -> Seq<char> {
    line_word(line) + seq![' '] + decimal_text(threshold.stall as nat) + seq![' '] + decimal_text(
        threshold.window as nat,
    )
}

/// The bytes written to the pressure file to arm a trigger: its text in
/// ASCII, ended by a NUL.
pub open spec fn trigger_bytes(line: PsiLine, threshold: TriggerThreshold) -> Seq<u8> {
    ascii_bytes(trigger_text(line, threshold)).push(0u8)
}

/// A trigger of the given resource, line and threshold, on that resource's
/// pressure file.
pub open spec fn is_trigger_for(
    t: Trigger,
    kind: PsiKind,
    line: PsiLine,
    threshold: TriggerThreshold,
) -> bool {
    &&& t.kind == kind
    &&& t.line == line
    &&& t.target_file_path@ == pressure_path(kind)
    &&& t.threshold == threshold
}

impl Trigger {
    /// Start building a trigger
    pub fn new_builder() -> (r: TriggerBuilder) {
        TriggerBuilder
    }

    /// The bytes that arm this trigger when written to its pressure file.
    pub fn generate_trigger(&self) -> (r: Vec<u8>)
        ensures
            r@ == trigger_bytes(self.line, self.threshold),
    {
        let mut buf: Vec<u8> = Vec::new();
        push_ascii(&mut buf, self.line.as_str());
        buf.push(32u8);
        push_decimal_bytes(&mut buf, self.threshold.stall);
        buf.push(32u8);
        push_decimal_bytes(&mut buf, self.threshold.window);
        buf.push(0u8);
        assert(buf@ =~= trigger_bytes(self.line, self.threshold));
        buf
    }
}

/// First step of building a trigger: the resource.
pub struct TriggerBuilder;

impl TriggerBuilder {
    pub fn kind(self, kind: PsiKind) -> (r: TriggerBuilderKind)
        ensures
            r.kind_spec() == kind,
            r.path_spec() == pressure_path(kind),
    {
        match kind {
            PsiKind::CPU => self.cpu(),
            PsiKind::IO => self.io(),
            PsiKind::Memory => self.memory(),
        }
    }

    pub fn cpu(self) -> (r: TriggerBuilderKind)
        ensures
            r.kind_spec() == PsiKind::CPU,
            r.path_spec() == pressure_path(PsiKind::CPU),
    {
        let kind = PsiKind::CPU;
        TriggerBuilderKind { kind, target_file_path: kind.file_path() }
    }

    pub fn io(self) -> (r: TriggerBuilderKind)
        ensures
            r.kind_spec() == PsiKind::IO,
            r.path_spec() == pressure_path(PsiKind::IO),
    {
        let kind = PsiKind::IO;
        TriggerBuilderKind { kind, target_file_path: kind.file_path() }
    }

    pub fn memory(self) -> (r: TriggerBuilderKind)
        ensures
            r.kind_spec() == PsiKind::Memory,
            r.path_spec() == pressure_path(PsiKind::Memory),
    {
        let kind = PsiKind::Memory;
        TriggerBuilderKind { kind, target_file_path: kind.file_path() }
    }
}

/// Second step: the line.
pub struct TriggerBuilderKind {
    kind: PsiKind,
    target_file_path: &'static str,
}

impl TriggerBuilderKind {
    pub closed spec fn kind_spec(&self) -> PsiKind {
        self.kind
    }

    pub closed spec fn path_spec(&self) -> Seq<char> {
        self.target_file_path@
    }

    pub fn line(self, line: PsiLine) -> (r: TriggerBuilderLine)
        ensures
            r.kind_spec() == self.kind_spec(),
            r.path_spec() == self.path_spec(),
            r.line_spec() == line,
    {
        TriggerBuilderLine { line, kind: self.kind, target_file_path: self.target_file_path }
    }

    pub fn some(self) -> (r: TriggerBuilderLine)
        ensures
            r.kind_spec() == self.kind_spec(),
            r.path_spec() == self.path_spec(),
            r.line_spec() == PsiLine::Partial,
    {
        self.line(PsiLine::Partial)
    }

    pub fn full(self) -> (r: TriggerBuilderLine)
        ensures
            r.kind_spec() == self.kind_spec(),
            r.path_spec() == self.path_spec(),
            r.line_spec() == PsiLine::Full,
    {
        self.line(PsiLine::Full)
    }
}

/// Third step: the stall time, or the whole threshold.
pub struct TriggerBuilderLine {
    kind: PsiKind,
    target_file_path: &'static str,
    line: PsiLine,
}

impl TriggerBuilderLine {
    pub closed spec fn kind_spec(&self) -> PsiKind {
        self.kind
    }

    pub closed spec fn path_spec(&self) -> Seq<char> {
        self.target_file_path@
    }

    pub closed spec fn line_spec(&self) -> PsiLine {
        self.line
    }

    /// The stall time in microseconds.
    pub fn stall(self, stall: u64) -> (r: TriggerBuilderStall)
        ensures
            r.kind_spec() == self.kind_spec(),
            r.path_spec() == self.path_spec(),
            r.line_spec() == self.line_spec(),
            r.stall_spec() == stall,
    {
        TriggerBuilderStall {
            stall,
            kind: self.kind,
            target_file_path: self.target_file_path,
            line: self.line,
        }
    }

    pub fn threshold(self, threshold: TriggerThreshold) -> (r: TriggerBuilderStaging)
        ensures
            r.kind_spec() == self.kind_spec(),
            r.path_spec() == self.path_spec(),
            r.line_spec() == self.line_spec(),
            r.threshold_spec() == threshold,
    {
        TriggerBuilderStaging {
            threshold,
            kind: self.kind,
            target_file_path: self.target_file_path,
            line: self.line,
        }
    }
}

/// Fourth step: the window.
pub struct TriggerBuilderStall {
    kind: PsiKind,
    target_file_path: &'static str,
    line: PsiLine,
    stall: u64,
}

impl TriggerBuilderStall {
    pub closed spec fn kind_spec(&self) -> PsiKind {
        self.kind
    }

    pub closed spec fn path_spec(&self) -> Seq<char> {
        self.target_file_path@
    }

    pub closed spec fn line_spec(&self) -> PsiLine {
        self.line
    }

    pub closed spec fn stall_spec(&self) -> u64 {
        self.stall
    }

    /// The window in microseconds.
    pub fn window(self, window: u64) -> (r: TriggerBuilderStaging)
        ensures
            r.kind_spec() == self.kind_spec(),
            r.path_spec() == self.path_spec(),
            r.line_spec() == self.line_spec(),
            r.threshold_spec() == (TriggerThreshold { stall: self.stall_spec(), window }),
    {
        TriggerBuilderStaging {
            kind: self.kind,
            target_file_path: self.target_file_path,
            line: self.line,
            threshold: TriggerThreshold { window, stall: self.stall },
        }
    }
}

/// Last step: every part is given.
pub struct TriggerBuilderStaging {
    kind: PsiKind,
    target_file_path: &'static str,
    line: PsiLine,
    threshold: TriggerThreshold,
}

impl TriggerBuilderStaging {
    pub closed spec fn kind_spec(&self) -> PsiKind {
        self.kind
    }

    pub closed spec fn path_spec(&self) -> Seq<char> {
        self.target_file_path@
    }

    pub closed spec fn line_spec(&self) -> PsiLine {
        self.line
    }

    pub closed spec fn threshold_spec(&self) -> TriggerThreshold {
        self.threshold
    }

    pub fn build(self) -> (r: Trigger)
        ensures
            r.kind == self.kind_spec(),
            r.target_file_path@ == self.path_spec(),
            r.line == self.line_spec(),
            r.threshold == self.threshold_spec(),
    {
        Trigger {
            kind: self.kind,
            target_file_path: self.target_file_path,
            line: self.line,
            threshold: self.threshold,
        }
    }
}

/// Triggers on memory pressure, made in one call.
pub struct MemoryTrigger;

impl MemoryTrigger {
    /// A trigger on the `some` line; times in microseconds.
    pub fn some(stall: u64, window: u64) -> (r: Trigger)
        ensures
            is_trigger_for(r, PsiKind::Memory, PsiLine::Partial, TriggerThreshold { stall, window }),
    {
        Self::new(PsiLine::Partial, stall, window)
    }

    /// A trigger on the `full` line; times in microseconds.
    pub fn full(stall: u64, window: u64) -> (r: Trigger)
        ensures
            is_trigger_for(r, PsiKind::Memory, PsiLine::Full, TriggerThreshold { stall, window }),
    {
        Self::new(PsiLine::Full, stall, window)
    }

    /// A trigger on the given line; times in microseconds.
    pub fn new(line: PsiLine, stall: u64, window: u64) -> (r: Trigger)
        ensures
            is_trigger_for(r, PsiKind::Memory, line, TriggerThreshold { stall, window }),
    {
        Trigger {
            line,
            kind: PsiKind::Memory,
            target_file_path: MEMORY_PRESSURE_FILEPATH,
            threshold: TriggerThreshold { stall, window },
        }
    }
}

/// How a threshold reads: `<stall>us stall in <window>us window`.
pub open spec fn threshold_text(t: TriggerThreshold) -> Seq<char> {
    decimal_text(t.stall as nat) + "us stall in "@ + decimal_text(t.window as nat) + "us window"@
}

/// How a trigger reads: `psi <kind> trigger on '<line>' line with threshold: <threshold>`.
pub open spec fn trigger_description(t: Trigger) -> Seq<char> {
    "psi "@ + kind_name(t.kind) + " trigger on '"@ + line_word(t.line) + "' line with threshold: "@
        + threshold_text(t.threshold)
}

impl TriggerThreshold {
    /// A description for people.
    pub fn to_text(&self) -> (r: String)
        ensures
            r@ == threshold_text(*self),
    {
        let mut out = String::new();
        push_decimal(&mut out, self.stall);
        out.append("us stall in ");
        push_decimal(&mut out, self.window);
        out.append("us window");
        out
    }
}

impl Trigger {
    /// A description for people.
    pub fn to_text(&self) -> (r: String)
        ensures
            r@ == trigger_description(*self),
    {
        let mut out = String::from_str("psi ");
        out.append(self.kind.as_str());
        out.append(" trigger on '");
        out.append(self.line.as_str());
        out.append("' line with threshold: ");
        out.append(self.threshold.to_text().as_str());
        out
    }
}

} // verus!
