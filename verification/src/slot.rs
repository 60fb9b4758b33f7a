//! Rewriting one pointer slot of a loaded module.
//!
//! A slot address that was worked out against another build still holds a
//! valid pointer, only one of another class. So a vtable slot is rewritten only
//! where it holds the pointer that the module file has there, and a slot of
//! the global offset table only where it holds a pointer to code.
use vstd::prelude::*;

use crate::procfs::{in_code, in_writable, is_code, is_writable, mapping_views, Mapping};
use crate::text::{hex_text, outcome_view, push_hex, with_hex};

verus! {

/// What is wrong with a vtable slot, if anything.
pub open spec fn vtable_fault(current: int, expect: int) -> Result<(), Seq<char>> {
    if current == expect {
        Ok(())
    } else {
        Err(
            "holds 0x"@ + hex_text(current) + ", expected 0x"@ + hex_text(expect)
                + " (game updated?)"@,
        )
    }
}

/// A vtable slot may be rewritten: it holds the expected pointer.
pub fn vtable_hook(current: u64, expect: u64) -> (r: Result<(), String>)
    ensures
        outcome_view(r) == vtable_fault(current as int, expect as int),
{
    if current != expect {
        let mut text: String = with_hex("holds 0x", current, ", expected 0x");
        push_hex(&mut text, expect);
        text.append(" (game updated?)");
        return Err(text);
    }
    Ok(())
}

/// A slot of the global offset table may be rewritten: it holds a pointer to
/// code.
pub fn got_hook(current: u64, maps: &[Mapping]) -> (r: Result<(), String>)
    ensures
        outcome_view(r) == if in_code(mapping_views(maps@), current as int) {
            Ok::<(), Seq<char>>(())
        } else {
            Err("holds 0x"@ + hex_text(current as int) + ", which is not code"@)
        },
{
    if !is_code(maps, current) {
        return Err(with_hex("holds 0x", current, ", which is not code"));
    }
    Ok(())
}

/// One write of a pointer into a slot that may be read-only.
#[derive(Clone, Copy, Debug, Eq, PartialEq, Structural)]
pub struct SlotWrite {
    /// The slot's address.
    pub slot: u64,
    /// The pointer to write.
    pub ours: u64,
    /// The pointer that stood there.
    pub previous: u64,
    /// Whether the page was writable before.
    pub writable: bool,
}

/// The protection of a slot's page.
#[derive(Clone, Copy, Debug, Eq, PartialEq, Structural)]
pub enum SlotAccess {
    ReadOnly,
    ReadWrite,
}

/// Where a slot write stands.
pub enum SlotPhase {
    /// The page is to become writable.
    Unlock,
    /// The pointer is to be written.
    Put,
    /// The page is to become what it was.
    Lock,
    /// The slot is to be read.
    Check,
    /// The pointer that stood there before, or what went wrong.
    Finished(Result<u64, String>),
}

/// The value of a `SlotPhase`.
pub enum SlotPhaseView {
    Unlock,
    Put,
    Lock,
    Check,
    Finished(Result<u64, Seq<char>>),
}

impl View for SlotPhase {
    type V = SlotPhaseView;

    open spec fn view(&self) -> SlotPhaseView {
        match self {
            SlotPhase::Unlock => SlotPhaseView::Unlock,
            SlotPhase::Put => SlotPhaseView::Put,
            SlotPhase::Lock => SlotPhaseView::Lock,
            SlotPhase::Check => SlotPhaseView::Check,
            SlotPhase::Finished(Ok(p)) => SlotPhaseView::Finished(Ok(*p)),
            SlotPhase::Finished(Err(e)) => SlotPhaseView::Finished(Err(e@)),
        }
    }
}

/// What a slot write waits for.
#[derive(Clone, Copy, Debug, Eq, PartialEq, Structural)]
pub enum SlotAction {
    /// Set the protection of the page that starts here.
    Protect(u64, SlotAccess),
    Write,
    Read,
    Done,
}

/// What came of an action.
#[derive(Clone, Copy, Debug, Eq, PartialEq, Structural)]
pub enum SlotReply {
    /// Whether the protection was set.
    Protected(bool),
    Wrote,
    Value(u64),
}

/// The page that an address lies in.
pub open spec fn page_of(addr: int) -> int {
    addr - addr % 4096
}

impl SlotWrite {
    /// What the write waits for.
    pub open spec fn wants(self, phase: SlotPhaseView) -> SlotAction {
        let page = page_of(self.slot as int) as u64;
        match phase {
            SlotPhaseView::Unlock => SlotAction::Protect(page, SlotAccess::ReadWrite),
            SlotPhaseView::Put => SlotAction::Write,
            SlotPhaseView::Lock => SlotAction::Protect(
                page,
                if self.writable {
                    SlotAccess::ReadWrite
                } else {
                    SlotAccess::ReadOnly
                },
            ),
            SlotPhaseView::Check => SlotAction::Read,
            SlotPhaseView::Finished(_) => SlotAction::Done,
        }
    }

    /// After a reply. One that was not waited for changes nothing.
    pub open spec fn next(self, phase: SlotPhaseView, reply: SlotReply) -> SlotPhaseView {
        match (phase, reply) {
            (SlotPhaseView::Unlock, SlotReply::Protected(ok)) => if ok {
                SlotPhaseView::Put
            } else {
                SlotPhaseView::Finished(
                    Err("mprotect of 0x"@ + hex_text(page_of(self.slot as int)) + " failed"@),
                )
            },
            (SlotPhaseView::Put, SlotReply::Wrote) => SlotPhaseView::Lock,
            (SlotPhaseView::Lock, SlotReply::Protected(_)) => SlotPhaseView::Check,
            (SlotPhaseView::Check, SlotReply::Value(v)) => SlotPhaseView::Finished(
                if v == self.ours {
                    Ok(self.previous)
                } else {
                    Err("write to 0x"@ + hex_text(self.slot as int) + " did not stick"@)
                },
            ),
            _ => phase,
        }
    }

    /// A write of `ours` into a slot that holds `previous`.
    pub fn new(slot: u64, ours: u64, previous: u64, maps: &[Mapping]) -> (r: SlotWrite)
        ensures
            r == (SlotWrite {
                slot,
                ours,
                previous,
                writable: in_writable(mapping_views(maps@), slot as int),
            }),
    {
        SlotWrite { slot, ours, previous, writable: is_writable(maps, slot) }
    }

    /// What the write waits for.
    pub fn action(&self, phase: &SlotPhase) -> (r: SlotAction)
        ensures
            r == self.wants(phase@),
    {
        let page: u64 = self.slot - self.slot % 4096;
        match phase {
            SlotPhase::Unlock => SlotAction::Protect(page, SlotAccess::ReadWrite),
            SlotPhase::Put => SlotAction::Write,
            SlotPhase::Lock => SlotAction::Protect(
                page,
                if self.writable {
                    SlotAccess::ReadWrite
                } else {
                    SlotAccess::ReadOnly
                },
            ),
            SlotPhase::Check => SlotAction::Read,
            SlotPhase::Finished(_) => SlotAction::Done,
        }
    }

    /// Takes the reply to an action. One that was not waited for changes
    /// nothing.
    pub fn step(&self, phase: SlotPhase, reply: SlotReply) -> (r: SlotPhase)
        ensures
            r@ == self.next(phase@, reply),
    {
        match (phase, reply) {
            (SlotPhase::Unlock, SlotReply::Protected(ok)) => if ok {
                SlotPhase::Put
            } else {
                SlotPhase::Finished(
                    Err(with_hex("mprotect of 0x", self.slot - self.slot % 4096, " failed")),
                )
            },
            (SlotPhase::Put, SlotReply::Wrote) => SlotPhase::Lock,
            (SlotPhase::Lock, SlotReply::Protected(_)) => SlotPhase::Check,
            (SlotPhase::Check, SlotReply::Value(v)) => if v == self.ours {
                SlotPhase::Finished(Ok(self.previous))
            } else {
                SlotPhase::Finished(
                    Err(with_hex("write to 0x", self.slot, " did not stick")),
                )
            },
            (phase, _) => phase,
        }
    }
}

/// One moment of a slot write: the pointer in the slot, whether its page is
/// writable, and the phase.
pub struct SlotMoment {
    pub value: u64,
    pub writable: bool,
    pub phase: SlotPhaseView,
}

/// An honest reply of the system.
pub open spec fn honest_slot(
    w: SlotWrite,
    m: SlotMoment,
    reply: SlotReply,
    after: SlotMoment,
) -> bool {
    match (w.wants(m.phase), reply) {
        (SlotAction::Protect(_, access), SlotReply::Protected(ok)) => after.value == m.value
            && after.writable == (if ok {
            access == SlotAccess::ReadWrite
        } else {
            m.writable
        }),
        (SlotAction::Write, SlotReply::Wrote) => after.writable == m.writable,
        (SlotAction::Read, SlotReply::Value(v)) => v == m.value && after.value == m.value
            && after.writable == m.writable,
        _ => false,
    }
}

/// Moments of a slot write, each reached from the one before by an honest
/// reply.
pub open spec fn honest_slots(w: SlotWrite, ms: Seq<SlotMoment>, rs: Seq<SlotReply>) -> bool {
    &&& ms.len() == rs.len() + 1
    &&& ms[0].phase == SlotPhaseView::Unlock
    &&& ms[0].value == w.previous
    &&& ms[0].writable == w.writable
    &&& forall|i: int|
        #![trigger ms[i + 1]]
        0 <= i < rs.len() ==> honest_slot(w, ms[i], rs[i], ms[i + 1]) && ms[i + 1].phase == w.next(
            ms[i].phase,
            rs[i],
        )
}

spec fn slot_sound(w: SlotWrite, m: SlotMoment) -> bool {
    match m.phase {
        SlotPhaseView::Unlock => m.value == w.previous && m.writable == w.writable,
        SlotPhaseView::Put => m.value == w.previous,
        SlotPhaseView::Finished(Ok(p)) => m.value == w.ours && p == w.previous,
        _ => true,
    }
}

proof fn slot_run(w: SlotWrite, ms: Seq<SlotMoment>, rs: Seq<SlotReply>, n: int)
    requires
        honest_slots(w, ms, rs),
        0 <= n <= rs.len(),
    ensures
        slot_sound(w, ms[n]),
        n >= 1 && !rs[0]->Protected_0 ==> ms[n].value == w.previous && ms[n].writable
            == w.writable && ms[n].phase is Finished,
    decreases n,
{
    if n > 0 {
        slot_run(w, ms, rs, n - 1);
        assert(ms[n - 1 + 1] == ms[n]);
        assert(ms[0int + 1] == ms[1]);
        if n > 1 && !rs[0]->Protected_0 {
            assert(ms[n - 1].phase is Finished);
        }
    }
}

/// A slot write that ends well has left its pointer in the slot and gives the
/// one that stood there before. One whose page could not be made writable has
/// changed nothing.
pub proof fn slot_write_is_exact(w: SlotWrite, ms: Seq<SlotMoment>, rs: Seq<SlotReply>)
    requires
        honest_slots(w, ms, rs),
        ms.last().phase is Finished,
    ensures
        ms.last().phase->Finished_0 matches Ok(p) ==> ms.last().value == w.ours && p == ms[0].value,
        !rs[0]->Protected_0 ==> ms.last().value == ms[0].value && ms.last().writable
            == ms[0].writable,
{
    slot_run(w, ms, rs, rs.len() as int);
}

/// A slot gets rewritten: its page is made writable, the pointer written, the
/// page made what it was, and the slot read; where it holds the new pointer the
/// old one is given back.
pub proof fn a_slot_gets_rewritten(w: SlotWrite, locked: bool)
    ensures
        w.wants(SlotPhaseView::Unlock) == SlotAction::Protect(
            (w.slot / 4096 * 4096) as u64,
            SlotAccess::ReadWrite,
        ),
        w.next(SlotPhaseView::Unlock, SlotReply::Protected(true)) == SlotPhaseView::Put,
        w.wants(SlotPhaseView::Put) == SlotAction::Write,
        w.next(SlotPhaseView::Put, SlotReply::Wrote) == SlotPhaseView::Lock,
        !w.writable ==> w.wants(SlotPhaseView::Lock) == SlotAction::Protect(
            (w.slot / 4096 * 4096) as u64,
            SlotAccess::ReadOnly,
        ),
        w.writable ==> w.wants(SlotPhaseView::Lock) == SlotAction::Protect(
            (w.slot / 4096 * 4096) as u64,
            SlotAccess::ReadWrite,
        ),
        w.next(SlotPhaseView::Lock, SlotReply::Protected(locked)) == SlotPhaseView::Check,
        w.wants(SlotPhaseView::Check) == SlotAction::Read,
        w.next(SlotPhaseView::Check, SlotReply::Value(w.ours)) == SlotPhaseView::Finished(
            Ok::<u64, Seq<char>>(w.previous),
        ),
        w.next(SlotPhaseView::Unlock, SlotReply::Protected(false)) matches SlotPhaseView::Finished(
            Err(_),
        ),
{
}

/// A slot that holds the expected pointer may be rewritten, and no other.
pub proof fn only_the_expected_pointer_is_replaced(current: int, expect: int)
    ensures
        vtable_fault(current, expect) is Ok <==> current == expect,
{
}

} // verus!
