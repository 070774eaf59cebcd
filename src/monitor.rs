//! The registry of armed triggers, and the attribution of the kernel's
//! readiness notifications to them.

use vstd::prelude::*;

use crate::error::PsiError;
use crate::psi::{line_text, parse_all_spec, AllPsiStats, Psi};
use crate::trigger::{trigger_description, Trigger};

verus! {

/// epoll's readiness notification: the events that occurred and the datum
/// the watch was registered with.
#[verifier::external_type_specification]
pub struct ExEvent(epoll::Event);

/// The flag of urgent-data readiness, which the kernel raises when a
/// pressure trigger fires (epoll's `EPOLLPRI`, libc's 0x2).
pub open spec fn priority_flag() -> u32 {
    2
}

/// The flag of an error condition on the watched file (epoll's `EPOLLERR`,
/// libc's 0x8).
pub open spec fn error_flag() -> u32 {
    8
}

/// Relies on `epoll::Event::new` and `epoll::Events::EPOLLPRI`: the event
/// holds the flags' bits and the datum as given.
#[verifier::external_body]
fn priority_event(data: u64) -> (r: epoll::Event)
    ensures
        r.events == priority_flag(),
        r.data == data,
{
    epoll::Event::new(epoll::Events::EPOLLPRI, data)
}

/// Relies on `epoll::Events::EPOLLERR` and `bits`: the error flag's bits.
#[verifier::external_body]
fn error_bits() -> (r: u32)
    ensures
        r == error_flag(),
{
    epoll::Events::EPOLLERR.bits()
}

/// The opaque identity of a registered trigger.
#[derive(Debug, Clone, Copy, PartialEq, Eq, Hash, Structural)]
pub struct TriggerId {
    slot: u64,
}

impl TriggerId {
    /// The registry slot that the identity names.
    pub closed spec fn index(&self) -> u64 {
        self.slot
    }

    /// The watch to register with epoll for this trigger: urgent-data
    /// readiness, carrying the identity as its datum. Ordinary readability
    /// does not signal pressure triggers.
    pub fn watch_event(&self) -> (r: epoll::Event)
        ensures
            r.events == priority_flag(),
            r.data == self.index(),
    {
        priority_event(self.slot)
    }
}

/// Identities are told apart by their slot alone: two identities of the
/// same slot are the same identity.
pub proof fn lemma_index_determines_id(a: TriggerId, b: TriggerId)
    requires
        a.index() == b.index(),
    ensures
        a == b,
{
}

/// A fired trigger: the pressure read after it fired, the trigger, and its
/// identity.
#[derive(Debug, Clone, Copy)]
pub struct PsiEvent {
    /// PSI stats as read after the event fired
    pub stats: Psi,
    /// The trigger this event fired for
    pub trigger: Trigger,
    /// Opaque ID of the trigger this event fired for
    pub id: TriggerId,
}

impl PsiEvent {
    /// A description for people: `event triggered, stats: <line>, trigger: <trigger>`.
    pub fn to_text(&self) -> (r: String)
        ensures
            r@ == "event triggered, stats: "@ + line_text(self.stats) + ", trigger: "@
                + trigger_description(self.trigger),
    {
        let mut out = String::from_str("event triggered, stats: ");
        out.append(self.stats.to_line().as_str());
        out.append(", trigger: ");
        out.append(self.trigger.to_text().as_str());
        out
    }
}

/// An armed trigger and the open pressure file that keeps it armed.
pub struct RegisteredTrigger<H> {
    trigger: Trigger,
    handle: H,
}

/// The slot that a notification `(events, data)` signals, if any: `None`
/// when no trigger holds the slot or the file reports an error.
pub open spec fn signaled_slot(triggers: Seq<Trigger>, events: u32, data: u64) -> Option<u64> {
    if data < triggers.len() && events & error_flag() == 0 {
        Some(data)
    } else {
        None
    }
}

/// The event of the trigger in `slot` once its pressure file reads `text`,
/// if the slot is held and the text parses.
pub open spec fn event_of(triggers: Seq<Trigger>, slot: u64, text: Seq<char>) -> Option<(Psi, Trigger)> {
    if slot < triggers.len() {
        match parse_all_spec(text) {
            Ok(all) => Some(
                (
                    if triggers[slot as int].line == crate::psi::PsiLine::Partial {
                        all.some
                    } else {
                        all.full
                    },
                    triggers[slot as int],
                ),
            ),
            Err(_) => None,
        }
    } else {
        None
    }
}

/// The triggers of a monitor, each with the open file `H` that arms it.
/// A trigger's identity is the slot it was registered in; slots are never
/// reused, as no trigger is ever removed.
pub struct TriggerRegistry<H> {
    targets: Vec<RegisteredTrigger<H>>,
}

impl<H> TriggerRegistry<H> {
    /// The registered triggers, by slot.
    pub closed spec fn triggers(&self) -> Seq<Trigger> {
        self.targets@.map_values(|t: RegisteredTrigger<H>| t.trigger)
    }

    /// The open files, by slot.
    pub closed spec fn handles(&self) -> Seq<H> {
        self.targets@.map_values(|t: RegisteredTrigger<H>| t.handle)
    }

    pub fn new() -> (r: Self)
        ensures
            r.triggers() == Seq::<Trigger>::empty(),
            r.handles() == Seq::<H>::empty(),
    {
        let r = TriggerRegistry { targets: Vec::new() };
        assert(r.triggers() =~= Seq::<Trigger>::empty());
        assert(r.handles() =~= Seq::<H>::empty());
        r
    }

    pub fn len(&self) -> (r: usize)
        ensures
            r == self.triggers().len(),
    {
        self.targets.len()
    }

    /// The identity that the next registration will get.
    pub fn next_id(&self) -> (r: TriggerId)
        ensures
            r.index() == self.triggers().len(),
    {
        TriggerId { slot: self.targets.len() as u64 }
    }

    /// Registers an armed trigger with its open file, in the next slot.
    pub fn register(&mut self, trigger: Trigger, handle: H) -> (r: TriggerId)
        ensures
            final(self).triggers() == old(self).triggers().push(trigger),
            final(self).handles() == old(self).handles().push(handle),
            r.index() == old(self).triggers().len(),
    {
        let r = self.next_id();
        self.targets.push(RegisteredTrigger { trigger, handle });
        assert(final(self).triggers() =~= old(self).triggers().push(trigger));
        assert(final(self).handles() =~= old(self).handles().push(handle));
        r
    }

    /// The open file of a registered trigger.
    pub fn handle(&self, id: TriggerId) -> (r: Option<&H>)
        ensures
            id.index() < self.triggers().len() ==> r == Some(&self.handles()[id.index() as int]),
            id.index() >= self.triggers().len() ==> r is None,
    {
        if id.slot < self.targets.len() as u64 {
            Some(&self.targets[id.slot as usize].handle)
        } else {
            None
        }
    }

    /// The trigger that a readiness notification signals: an error when
    /// its datum names no registered trigger, or when it reports an error
    /// condition on the watched file.
    pub fn dispatch(&self, event: epoll::Event) -> (r: Result<TriggerId, PsiError>)
        ensures
            event.data >= self.triggers().len() ==> r matches Err(PsiError::UnregisteredEvent),
            event.data < self.triggers().len() && event.events & error_flag() != 0 ==> r matches Err(
                PsiError::PsiTriggerFileError,
            ),
            r is Ok <==> signaled_slot(self.triggers(), event.events, event.data) is Some,
            r matches Ok(id) ==> id.index() == event.data,
            r matches Ok(id) ==> Some(id.index()) == signaled_slot(
                self.triggers(),
                event.events,
                event.data,
            ),
    {
        let data = event.data;
        let events = event.events;
        if data >= self.targets.len() as u64 {
            return Err(PsiError::UnregisteredEvent);
        }
        if events & error_bits() != 0 {
            return Err(PsiError::PsiTriggerFileError);
        }
        Ok(TriggerId { slot: data })
    }

    /// The event of a signaled trigger, from the text its pressure file
    /// reads after it fired: the line that the trigger watches.
    pub fn complete(&self, id: TriggerId, text: &str) -> (r: Result<PsiEvent, PsiError>)
        ensures
            id.index() >= self.triggers().len() ==> r matches Err(PsiError::UnregisteredEvent),
            id.index() < self.triggers().len() ==> match parse_all_spec(text@) {
                Ok(_) => r matches Ok(ev) && ev.id == id && Some((ev.stats, ev.trigger)) == event_of(
                    self.triggers(),
                    id.index(),
                    text@,
                ),
                Err(e) => r matches Err(PsiError::PsiParseError(pe)) && pe@ == e,
            },
    {
        if id.slot >= self.targets.len() as u64 {
            return Err(PsiError::UnregisteredEvent);
        }
        let trigger = self.targets[id.slot as usize].trigger;
        match AllPsiStats::parse_all(text) {
            Ok(all) => Ok(PsiEvent { stats: all.line(trigger.line), trigger, id }),
            Err(e) => Err(PsiError::PsiParseError(e)),
        }
    }
}

/// An event keeps the identity of the trigger that fired: once two
/// triggers are registered one after the other, a notification that
/// carries the first one's identity signals the first slot and completes
/// with the first trigger, one that carries the second's signals the
/// second slot and completes with the second trigger, and the two
/// identities differ.
pub proof fn lemma_event_identity(
    before: Seq<Trigger>,
    t1: Trigger,
    t2: Trigger,
    id1: TriggerId,
    id2: TriggerId,
    events: u32,
    text: Seq<char>,
)
    requires
        id1.index() == before.len(),
        id2.index() == before.len() + 1,
        events & error_flag() == 0,
        parse_all_spec(text) is Ok,
    ensures
        id1 != id2,
        signaled_slot(before.push(t1).push(t2), events, id1.index()) == Some(id1.index()),
        signaled_slot(before.push(t1).push(t2), events, id2.index()) == Some(id2.index()),
        event_of(before.push(t1).push(t2), id1.index(), text) matches Some((_, t)) && t == t1,
        event_of(before.push(t1).push(t2), id2.index(), text) matches Some((_, t)) && t == t2,
{
    let reg = before.push(t1).push(t2);
    assert(reg[before.len() as int] == t1);
    assert(reg[before.len() as int + 1] == t2);
}

} // verus!
