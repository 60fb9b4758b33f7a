//! Reversible, byte-validated hooks for the current process.
//!
//! A patch rewrites a stretch of code, or one pointer slot, and can put back
//! exactly what stood there. It never writes over bytes that it does not
//! know, and it remembers (`tainted`) when a write may have left the memory in
//! between. The caller performs each action that an operation asks for and
//! hands back what came of it.
use vstd::prelude::*;

use crate::bytes::{le64, le_bytes64, le_bytes64_read_back, push_u64, same_bytes};
use crate::code::{
    abs_jump, absolute_jump, filled, nops, trampoline, ABS_JUMP_LEN,
};
use crate::text::{
    dec_text, hex_text, join, joined, outcome_view, push_hex, string_views, with_dec, with_hex,
};

verus! {

/// What the system said while code was rewritten.
pub struct WriteSteps {
    /// Making the page writable: its protection before, or the error.
    pub protect: Result<u32, u32>,
    /// The error of flushing the instruction cache.
    pub flush: Option<u32>,
    /// The error of putting the protection back.
    pub restore: Option<u32>,
    /// Whether the bytes read back as written.
    pub verified: bool,
}

/// The faults of a write, in order.
pub open spec fn write_faults(s: WriteSteps) -> Seq<Seq<char>> {
    (match s.flush {
        Some(e) => seq!["FlushInstructionCache failed ("@ + dec_text(e as int) + ")"@],
        None => Seq::empty(),
    }) + (match s.restore {
        Some(e) => seq!["VirtualProtect restore failed ("@ + dec_text(e as int) + ")"@],
        None => Seq::empty(),
    }) + (if s.verified {
        Seq::empty()
    } else {
        seq!["code write did not verify"@]
    })
}

/// What came of a write.
pub open spec fn write_outcome(s: WriteSteps) -> Result<(), Seq<char>> {
    match s.protect {
        Err(e) => Err("VirtualProtect failed ("@ + dec_text(e as int) + ")"@),
        Ok(_) => if write_faults(s).len() == 0 {
            Ok(())
        } else {
            Err(joined(write_faults(s)))
        },
    }
}

/// The protection to put back: the one that the page had before the first
/// write, which is remembered from then on.
pub fn page_protection(original: &mut Option<u32>, old_protection: u32) -> (r: u32)
    ensures
        *final(original) == Some(r),
        *old(original) matches Some(p) ==> r == p,
        *old(original) is None ==> r == old_protection,
{
    match *original {
        Some(p) => p,
        None => {
            *original = Some(old_protection);
            old_protection
        },
    }
}

/// What came of a write: every fault on the way, joined.
pub fn write_code(s: &WriteSteps) -> (r: Result<(), String>)
    ensures
        outcome_view(r) == write_outcome(*s),
{
    match s.protect {
        Err(e) => {
            return Err(with_dec("VirtualProtect failed (", e as u64, ")"));
        },
        Ok(_) => {},
    }
    let mut errors: Vec<String> = Vec::new();
    match s.flush {
        Some(e) => {
            errors.push(with_dec("FlushInstructionCache failed (", e as u64, ")"));
        },
        None => {},
    }
    match s.restore {
        Some(e) => {
            errors.push(with_dec("VirtualProtect restore failed (", e as u64, ")"));
        },
        None => {},
    }
    if !s.verified {
        errors.push("code write did not verify".to_owned());
    }
    assert(string_views(errors@) =~= write_faults(*s));
    if errors.len() == 0 {
        Ok(())
    } else {
        Err(join(errors.as_slice()))
    }
}

/// What a patch rewrites.
#[derive(Clone, Copy, Debug, Eq, PartialEq, Structural)]
pub enum Kind {
    /// A stretch of code.
    Code,
    /// One pointer slot.
    Pointer,
}

/// What stands where a patch goes.
#[derive(Clone, Copy, Debug, Eq, PartialEq, Structural)]
pub enum PatchState {
    Original,
    Replacement,
    Unknown,
}

/// A reversible rewrite of the bytes at an address.
pub struct Patch {
    kind: Kind,
    address: u64,
    original: Vec<u8>,
    replacement: Vec<u8>,
    tainted: bool,
}

/// The value of a `Patch`.
#[verifier::ext_equal]
pub struct PatchView {
    pub kind: Kind,
    pub address: int,
    pub original: Seq<u8>,
    pub replacement: Seq<u8>,
    pub tainted: bool,
}

impl View for Patch {
    type V = PatchView;

    closed spec fn view(&self) -> PatchView {
        PatchView {
            kind: self.kind,
            address: self.address as int,
            original: self.original@,
            replacement: self.replacement@,
            tainted: self.tainted,
        }
    }
}

/// What forcing the original bytes back leads to.
pub enum After {
    /// The restoration is done.
    Restored,
    /// The patch is applied anew.
    ThenApply,
    /// The application failed with this error.
    Failed(String),
}

/// The value of an `After`.
pub enum AfterView {
    Restored,
    ThenApply,
    Failed(Seq<char>),
}

impl View for After {
    type V = AfterView;

    open spec fn view(&self) -> AfterView {
        match self {
            After::Restored => AfterView::Restored,
            After::ThenApply => AfterView::ThenApply,
            After::Failed(e) => AfterView::Failed(e@),
        }
    }
}

/// Where an operation on a patch stands.
pub enum Phase {
    /// Restoring: the bytes are wanted. Then to apply, if so.
    LookRestore(bool),
    /// Restoring: the other threads are to be stopped.
    StopRestore(bool),
    /// The original bytes are to be written.
    Force(After),
    /// They were written with this outcome; the bytes are wanted.
    LookForced(After, Result<(), String>),
    /// Applying: the bytes are wanted.
    LookApply,
    /// Applying: the other threads are to be stopped.
    StopApply,
    /// The replacement bytes are to be written.
    Replace,
    Finished(Result<(), String>),
}

/// The value of a `Phase`.
pub enum PhaseView {
    LookRestore(bool),
    StopRestore(bool),
    Force(AfterView),
    LookForced(AfterView, Result<(), Seq<char>>),
    LookApply,
    StopApply,
    Replace,
    Finished(Result<(), Seq<char>>),
}

impl View for Phase {
    type V = PhaseView;

    open spec fn view(&self) -> PhaseView {
        match self {
            Phase::LookRestore(b) => PhaseView::LookRestore(*b),
            Phase::StopRestore(b) => PhaseView::StopRestore(*b),
            Phase::Force(a) => PhaseView::Force(a@),
            Phase::LookForced(a, r) => PhaseView::LookForced(a@, outcome_view(*r)),
            Phase::LookApply => PhaseView::LookApply,
            Phase::StopApply => PhaseView::StopApply,
            Phase::Replace => PhaseView::Replace,
            Phase::Finished(r) => PhaseView::Finished(outcome_view(*r)),
        }
    }
}

/// What an operation waits for.
#[derive(Clone, Copy, Debug, Eq, PartialEq, Structural)]
pub enum Action {
    /// Read the bytes at the patch's address.
    Observe,
    /// Stop every other thread.
    Stop,
    /// Write the original bytes.
    WriteOriginal,
    /// Write the replacement bytes.
    WriteReplacement,
    /// Nothing: it is done.
    Done,
}

/// What came of an action.
pub enum Reply {
    Bytes(Vec<u8>),
    Stopped(Result<(), String>),
    Wrote(Result<(), String>),
}

/// The value of a `Reply`.
pub enum ReplyView {
    Bytes(Seq<u8>),
    Stopped(Result<(), Seq<char>>),
    Wrote(Result<(), Seq<char>>),
}

impl View for Reply {
    type V = ReplyView;

    open spec fn view(&self) -> ReplyView {
        match self {
            Reply::Bytes(b) => ReplyView::Bytes(b@),
            Reply::Stopped(r) => ReplyView::Stopped(outcome_view(*r)),
            Reply::Wrote(r) => ReplyView::Wrote(outcome_view(*r)),
        }
    }
}

impl PhaseView {
    /// What the operation waits for.
    pub open spec fn action(self) -> Action {
        match self {
            PhaseView::LookRestore(_) => Action::Observe,
            PhaseView::StopRestore(_) => Action::Stop,
            PhaseView::Force(_) => Action::WriteOriginal,
            PhaseView::LookForced(_, _) => Action::Observe,
            PhaseView::LookApply => Action::Observe,
            PhaseView::StopApply => Action::Stop,
            PhaseView::Replace => Action::WriteReplacement,
            PhaseView::Finished(_) => Action::Done,
        }
    }

    /// The other threads stay stopped.
    pub open spec fn keeps_threads(self) -> bool {
        self is Force || self is LookForced || self is Replace
    }
}

impl PatchView {
    /// What bytes at the patch's address mean.
    pub open spec fn state(self, current: Seq<u8>) -> PatchState {
        if current == self.original {
            PatchState::Original
        } else if current == self.replacement {
            PatchState::Replacement
        } else {
            PatchState::Unknown
        }
    }

    /// Where applying starts: a tainted code patch is restored first.
    pub open spec fn apply(self) -> PhaseView {
        if self.tainted && self.kind == Kind::Code {
            PhaseView::LookRestore(true)
        } else {
            PhaseView::LookApply
        }
    }

    /// Where restoring starts.
    pub open spec fn restore(self) -> PhaseView {
        PhaseView::LookRestore(false)
    }

    /// Said of bytes that nobody here wrote.
    pub open spec fn changed_text(self) -> Seq<char> {
        match self.kind {
            Kind::Code => "bytes at 0x"@ + hex_text(self.address)
                + " changed externally; refusing blind restore"@,
            Kind::Pointer => "hooked slot 0x"@ + hex_text(self.address)
                + " changed externally; refusing blind restore"@,
        }
    }

    /// Said of a place where nothing more is written.
    pub open spec fn uncertain_text(self) -> Seq<char> {
        match self.kind {
            Kind::Code => "patch state at 0x"@ + hex_text(self.address)
                + " is uncertain; refusing another write"@,
            Kind::Pointer => "pointer-hook state at 0x"@ + hex_text(self.address)
                + " is uncertain; refusing another write"@,
        }
    }

    /// Said of original bytes that did not come back.
    pub open spec fn unverified_text(self) -> Seq<char> {
        match self.kind {
            Kind::Code => "original bytes did not verify"@,
            Kind::Pointer => "original pointer did not verify"@,
        }
    }

    /// After the bytes were seen, restoring.
    pub open spec fn look_restore(self, current: Seq<u8>, then_apply: bool) -> PhaseView {
        if !self.tainted && self.state(current) == PatchState::Original {
            if then_apply {
                PhaseView::LookApply
            } else {
                PhaseView::Finished(Ok(()))
            }
        } else if !self.tainted && self.state(current) == PatchState::Unknown {
            PhaseView::Finished(Err(self.changed_text()))
        } else {
            PhaseView::StopRestore(then_apply)
        }
    }

    /// After the bytes were seen, applying.
    pub open spec fn look_apply(self, current: Seq<u8>) -> PhaseView {
        match self.kind {
            Kind::Code => match self.state(current) {
                PatchState::Replacement => PhaseView::Finished(Ok(())),
                PatchState::Original => PhaseView::StopApply,
                PatchState::Unknown => PhaseView::Finished(Err(self.uncertain_text())),
            },
            Kind::Pointer => if current == self.replacement && !self.tainted {
                PhaseView::Finished(Ok(()))
            } else if current != self.original || self.tainted {
                PhaseView::Finished(Err(self.uncertain_text()))
            } else {
                PhaseView::StopApply
            },
        }
    }

    /// After the original bytes were written with outcome `wrote` and
    /// `current` was seen.
    pub open spec fn look_forced(
        self,
        after: AfterView,
        wrote: Result<(), Seq<char>>,
        current: Seq<u8>,
    ) -> (PatchView, PhaseView) {
        if wrote is Ok && self.state(current) == PatchState::Original {
            (
                PatchView { tainted: false, ..self },
                match after {
                    AfterView::Restored => PhaseView::Finished(Ok(())),
                    AfterView::ThenApply => PhaseView::LookApply,
                    AfterView::Failed(e) => PhaseView::Finished(Err(e)),
                },
            )
        } else {
            let fault = match wrote {
                Err(e) => e,
                Ok(_) => self.unverified_text(),
            };
            (
                self,
                match after {
                    AfterView::Failed(e) => PhaseView::Finished(
                        Err(e + "; rollback failed: "@ + fault),
                    ),
                    _ => PhaseView::Finished(Err(fault)),
                },
            )
        }
    }

    /// Patch and operation after a reply. A reply that was not waited for
    /// changes nothing.
    pub open spec fn step(self, phase: PhaseView, reply: ReplyView) -> (PatchView, PhaseView) {
        match (phase, reply) {
            (PhaseView::LookRestore(then_apply), ReplyView::Bytes(b)) => (
                self,
                self.look_restore(b, then_apply),
            ),
            (PhaseView::StopRestore(then_apply), ReplyView::Stopped(Ok(_))) => (
                PatchView { tainted: true, ..self },
                PhaseView::Force(
                    if then_apply {
                        AfterView::ThenApply
                    } else {
                        AfterView::Restored
                    },
                ),
            ),
            (PhaseView::StopRestore(_), ReplyView::Stopped(Err(e))) => (
                self,
                PhaseView::Finished(Err(e)),
            ),
            (PhaseView::Force(after), ReplyView::Wrote(r)) => (
                self,
                PhaseView::LookForced(after, r),
            ),
            (PhaseView::LookForced(after, wrote), ReplyView::Bytes(b)) => self.look_forced(
                after,
                wrote,
                b,
            ),
            (PhaseView::LookApply, ReplyView::Bytes(b)) => (self, self.look_apply(b)),
            (PhaseView::StopApply, ReplyView::Stopped(Ok(_))) => (
                PatchView { tainted: true, ..self },
                PhaseView::Replace,
            ),
            (PhaseView::StopApply, ReplyView::Stopped(Err(e))) => (
                self,
                PhaseView::Finished(Err(e)),
            ),
            (PhaseView::Replace, ReplyView::Wrote(Ok(_))) => (
                PatchView { tainted: false, ..self },
                PhaseView::Finished(Ok(())),
            ),
            (PhaseView::Replace, ReplyView::Wrote(Err(e))) => (
                self,
                PhaseView::Force(AfterView::Failed(e)),
            ),
            _ => (self, phase),
        }
    }
}

/// Why a hook was not installed, and whether the memory is as it was before.
pub struct InstallError {
    message: String,
    clean: bool,
}

/// The value of an `InstallError`.
#[verifier::ext_equal]
pub struct InstallFault {
    pub message: Seq<char>,
    pub clean: bool,
}

impl View for InstallError {
    type V = InstallFault;

    closed spec fn view(&self) -> InstallFault {
        InstallFault { message: self.message@, clean: self.clean }
    }
}

impl InstallError {
    /// Nothing was changed, or all of it was put back.
    pub fn clean(message: String) -> (r: InstallError)
        ensures
            r@ == (InstallFault { message: message@, clean: true }),
    {
        InstallError { message, clean: true }
    }

    /// The memory may hold part of the hook.
    pub fn dirty(message: String) -> (r: InstallError)
        ensures
            r@ == (InstallFault { message: message@, clean: false }),
    {
        InstallError { message, clean: false }
    }

    /// Whether the memory is as it was before.
    pub fn is_clean(&self) -> (r: bool)
        ensures
            r == self@.clean,
    {
        self.clean
    }

    /// What to tell the user.
    pub fn message(&self) -> (r: &str)
        ensures
            r@ == self@.message,
    {
        self.message.as_str()
    }
}

/// A code patch may be prepared: it replaces as many bytes as it expects, and
/// the expected ones are there.
pub open spec fn prepared(
    address: int,
    expected: Seq<u8>,
    replacement: Seq<u8>,
    current: Seq<u8>,
) -> Result<PatchView, Seq<char>> {
    if expected.len() != replacement.len() || expected.len() == 0 {
        Err("patch lengths are invalid"@)
    } else if current != expected {
        Err("original bytes at 0x"@ + hex_text(address) + " changed; refusing blind patch"@)
    } else {
        Ok(
            PatchView {
                kind: Kind::Code,
                address,
                original: expected,
                replacement,
                tainted: false,
            },
        )
    }
}

/// A pointer hook may be prepared: its slot is aligned and holds the expected
/// pointer.
pub open spec fn prepared_pointer(
    slot: int,
    expected: int,
    replacement: int,
    current: int,
) -> Result<PatchView, Seq<char>> {
    if slot % 8 != 0 {
        Err("pointer slot is not aligned"@)
    } else if current != expected {
        Err(
            "slot 0x"@ + hex_text(slot) + " holds 0x"@ + hex_text(current) + ", expected 0x"@
                + hex_text(expected),
        )
    } else {
        Ok(
            PatchView {
                kind: Kind::Pointer,
                address: slot,
                original: le_bytes64(expected),
                replacement: le_bytes64(replacement),
                tainted: false,
            },
        )
    }
}

/// A copy of an `After`'s successor after the original bytes came back.
fn forced(after: After) -> (r: Phase)
    ensures
        r@ == (match after@ {
            AfterView::Restored => PhaseView::Finished(Ok(())),
            AfterView::ThenApply => PhaseView::LookApply,
            AfterView::Failed(e) => PhaseView::Finished(Err(e)),
        }),
{
    match after {
        After::Restored => Phase::Finished(Ok(())),
        After::ThenApply => Phase::LookApply,
        After::Failed(e) => Phase::Finished(Err(e)),
    }
}

impl Patch {
    /// Prepares a code patch over the bytes that stand there.
    pub fn prepare(
        address: u64,
        expected: &[u8],
        replacement: Vec<u8>,
        current: &[u8],
    ) -> (r: Result<Patch, String>)
        ensures
            match r {
                Ok(p) => prepared(address as int, expected@, replacement@, current@) == Ok::<
                    PatchView,
                    Seq<char>,
                >(p@),
                Err(e) => prepared(address as int, expected@, replacement@, current@) == Err::<
                    PatchView,
                    Seq<char>,
                >(e@),
            },
    {
        if expected.len() != replacement.len() || expected.len() == 0 {
            return Err("patch lengths are invalid".to_owned());
        }
        if !same_bytes(current, expected) {
            return Err(
                with_hex("original bytes at 0x", address, " changed; refusing blind patch"),
            );
        }
        let p: Patch = Patch {
            kind: Kind::Code,
            address,
            original: vstd::slice::slice_to_vec(expected),
            replacement,
            tainted: false,
        };
        Ok(p)
    }

    /// Prepares a pointer hook over the pointer that stands there.
    pub fn prepare_pointer(slot: u64, expected: u64, replacement: u64, current: u64) -> (r: Result<
        Patch,
        String,
    >)
        ensures
            match r {
                Ok(p) => prepared_pointer(
                    slot as int,
                    expected as int,
                    replacement as int,
                    current as int,
                ) == Ok::<PatchView, Seq<char>>(p@),
                Err(e) => prepared_pointer(
                    slot as int,
                    expected as int,
                    replacement as int,
                    current as int,
                ) == Err::<PatchView, Seq<char>>(e@),
            },
    {
        if slot % 8 != 0 {
            return Err("pointer slot is not aligned".to_owned());
        }
        if current != expected {
            let mut text: String = with_hex("slot 0x", slot, " holds 0x");
            push_hex(&mut text, current);
            text.append(", expected 0x");
            push_hex(&mut text, expected);
            return Err(text);
        }
        let mut original: Vec<u8> = Vec::new();
        push_u64(&mut original, expected);
        let mut bytes: Vec<u8> = Vec::new();
        push_u64(&mut bytes, replacement);
        assert(original@ =~= le_bytes64(expected as int));
        assert(bytes@ =~= le_bytes64(replacement as int));
        Ok(Patch { kind: Kind::Pointer, address: slot, original, replacement: bytes, tainted: false })
    }

    /// Where the patch goes.
    pub fn address(&self) -> (r: u64)
        ensures
            r == self@.address,
    {
        self.address
    }

    /// The bytes that stood there.
    pub fn original(&self) -> (r: &[u8])
        ensures
            r@ == self@.original,
    {
        self.original.as_slice()
    }

    /// The bytes that the patch writes.
    pub fn replacement(&self) -> (r: &[u8])
        ensures
            r@ == self@.replacement,
    {
        self.replacement.as_slice()
    }

    /// Whether a write may have left the memory in between.
    pub fn tainted(&self) -> (r: bool)
        ensures
            r == self@.tainted,
    {
        self.tainted
    }

    /// What bytes at the patch's address mean.
    pub fn state(&self, current: &[u8]) -> (r: PatchState)
        ensures
            r == self@.state(current@),
    {
        if same_bytes(current, self.original.as_slice()) {
            PatchState::Original
        } else if same_bytes(current, self.replacement.as_slice()) {
            PatchState::Replacement
        } else {
            PatchState::Unknown
        }
    }

    /// Starts applying.
    pub fn apply(&self) -> (r: Phase)
        ensures
            r@ == self@.apply(),
    {
        if self.tainted && self.kind == Kind::Code {
            Phase::LookRestore(true)
        } else {
            Phase::LookApply
        }
    }

    /// Starts restoring.
    pub fn restore(&self) -> (r: Phase)
        ensures
            r@ == self@.restore(),
    {
        Phase::LookRestore(false)
    }

    fn look_restore(&self, current: &[u8], then_apply: bool) -> (r: Phase)
        ensures
            r@ == self@.look_restore(current@, then_apply),
    {
        let state: PatchState = self.state(current);
        if !self.tainted && state == PatchState::Original {
            if then_apply {
                Phase::LookApply
            } else {
                Phase::Finished(Ok(()))
            }
        } else if !self.tainted && state == PatchState::Unknown {
            let text: String = match self.kind {
                Kind::Code => with_hex(
                    "bytes at 0x",
                    self.address,
                    " changed externally; refusing blind restore",
                ),
                Kind::Pointer => with_hex(
                    "hooked slot 0x",
                    self.address,
                    " changed externally; refusing blind restore",
                ),
            };
            Phase::Finished(Err(text))
        } else {
            Phase::StopRestore(then_apply)
        }
    }

    fn look_apply(&self, current: &[u8]) -> (r: Phase)
        ensures
            r@ == self@.look_apply(current@),
    {
        match self.kind {
            Kind::Code => match self.state(current) {
                PatchState::Replacement => Phase::Finished(Ok(())),
                PatchState::Original => Phase::StopApply,
                PatchState::Unknown => Phase::Finished(
                    Err(
                        with_hex(
                            "patch state at 0x",
                            self.address,
                            " is uncertain; refusing another write",
                        ),
                    ),
                ),
            },
            Kind::Pointer => {
                if same_bytes(current, self.replacement.as_slice()) && !self.tainted {
                    Phase::Finished(Ok(()))
                } else if !same_bytes(current, self.original.as_slice()) || self.tainted {
                    Phase::Finished(
                        Err(
                            with_hex(
                                "pointer-hook state at 0x",
                                self.address,
                                " is uncertain; refusing another write",
                            ),
                        ),
                    )
                } else {
                    Phase::StopApply
                }
            },
        }
    }

    /// Takes the reply to an operation's action. One that was not waited for
    /// changes nothing.
    pub fn step(&mut self, phase: Phase, reply: Reply) -> (r: Phase)
        ensures
            (final(self)@, r@) == old(self)@.step(phase@, reply@),
    {
        match phase {
            Phase::LookRestore(then_apply) => match reply {
                Reply::Bytes(b) => self.look_restore(b.as_slice(), then_apply),
                _ => Phase::LookRestore(then_apply),
            },
            Phase::StopRestore(then_apply) => match reply {
                Reply::Stopped(Ok(_)) => {
                    self.tainted = true;
                    if then_apply {
                        Phase::Force(After::ThenApply)
                    } else {
                        Phase::Force(After::Restored)
                    }
                },
                Reply::Stopped(Err(e)) => Phase::Finished(Err(e)),
                _ => Phase::StopRestore(then_apply),
            },
            Phase::Force(after) => match reply {
                Reply::Wrote(r) => Phase::LookForced(after, r),
                _ => Phase::Force(after),
            },
            Phase::LookForced(after, wrote) => match reply {
                Reply::Bytes(b) => self.look_forced(after, wrote, b.as_slice()),
                _ => Phase::LookForced(after, wrote),
            },
            Phase::LookApply => match reply {
                Reply::Bytes(b) => self.look_apply(b.as_slice()),
                _ => Phase::LookApply,
            },
            Phase::StopApply => match reply {
                Reply::Stopped(Ok(_)) => {
                    self.tainted = true;
                    Phase::Replace
                },
                Reply::Stopped(Err(e)) => Phase::Finished(Err(e)),
                _ => Phase::StopApply,
            },
            Phase::Replace => match reply {
                Reply::Wrote(Ok(_)) => {
                    self.tainted = false;
                    Phase::Finished(Ok(()))
                },
                Reply::Wrote(Err(e)) => Phase::Force(After::Failed(e)),
                _ => Phase::Replace,
            },
            Phase::Finished(r) => Phase::Finished(r),
        }
    }

    fn look_forced(&mut self, after: After, wrote: Result<(), String>, current: &[u8]) -> (r: Phase)
        ensures
            (final(self)@, r@) == old(self)@.look_forced(after@, outcome_view(wrote), current@),
    {
        let back: bool = self.state(current) == PatchState::Original;
        match wrote {
            Ok(_) => {
                if back {
                    self.tainted = false;
                    return forced(after);
                }
                let fault: String = match self.kind {
                    Kind::Code => "original bytes did not verify".to_owned(),
                    Kind::Pointer => "original pointer did not verify".to_owned(),
                };
                Phase::Finished(Err(rollback_text(after, fault)))
            },
            Err(e) => Phase::Finished(Err(rollback_text(after, e))),
        }
    }
}

/// What to say when the original bytes could not be put back.
fn rollback_text(after: After, fault: String) -> (r: String)
    ensures
        r@ == (match after@ {
            AfterView::Failed(e) => e + "; rollback failed: "@ + fault@,
            _ => fault@,
        }),
{
    match after {
        After::Failed(e) => {
            let mut text: String = e;
            text.append("; rollback failed: ");
            text.append(fault.as_str());
            text
        },
        _ => fault,
    }
}

impl Phase {
    /// What the operation waits for.
    pub fn action(&self) -> (r: Action)
        ensures
            r == self@.action(),
    {
        match self {
            Phase::LookRestore(_) => Action::Observe,
            Phase::StopRestore(_) => Action::Stop,
            Phase::Force(_) => Action::WriteOriginal,
            Phase::LookForced(_, _) => Action::Observe,
            Phase::LookApply => Action::Observe,
            Phase::StopApply => Action::Stop,
            Phase::Replace => Action::WriteReplacement,
            Phase::Finished(_) => Action::Done,
        }
    }

    /// Whether the other threads stay stopped.
    pub fn keeps_threads(&self) -> (r: bool)
        ensures
            r == self@.keeps_threads(),
    {
        match self {
            Phase::Force(_) => true,
            Phase::LookForced(_, _) => true,
            Phase::Replace => true,
            _ => false,
        }
    }
}

/// Where the installation of a prepared hook stands.
pub enum Install {
    /// The patch is applied.
    Applying(Phase),
    /// Applying failed with this error; the patch is restored.
    Cleaning(String, Phase),
    /// Restoring ended so; the bytes are wanted.
    Verifying(String, Result<(), String>),
    Finished(Result<(), InstallError>),
}

/// The value of an `Install`.
pub enum InstallView {
    Applying(PhaseView),
    Cleaning(Seq<char>, PhaseView),
    Verifying(Seq<char>, Result<(), Seq<char>>),
    Finished(Result<(), InstallFault>),
}

impl View for Install {
    type V = InstallView;

    open spec fn view(&self) -> InstallView {
        match self {
            Install::Applying(p) => InstallView::Applying(p@),
            Install::Cleaning(e, p) => InstallView::Cleaning(e@, p@),
            Install::Verifying(e, r) => InstallView::Verifying(e@, outcome_view(*r)),
            Install::Finished(Ok(_)) => InstallView::Finished(Ok(())),
            Install::Finished(Err(e)) => InstallView::Finished(Err(e@)),
        }
    }
}

impl InstallView {
    /// What the installation waits for.
    pub open spec fn action(self) -> Action {
        match self {
            InstallView::Applying(p) => p.action(),
            InstallView::Cleaning(_, p) => p.action(),
            InstallView::Verifying(_, _) => Action::Observe,
            InstallView::Finished(_) => Action::Done,
        }
    }

    /// After applying has come to a phase.
    pub open spec fn applied(p: PatchView, phase: PhaseView) -> InstallView {
        match phase {
            PhaseView::Finished(Ok(_)) => InstallView::Finished(Ok(())),
            PhaseView::Finished(Err(e)) => InstallView::Cleaning(e, p.restore()),
            _ => InstallView::Applying(phase),
        }
    }

    /// After cleaning up has come to a phase.
    pub open spec fn cleaned(error: Seq<char>, phase: PhaseView) -> InstallView {
        match phase {
            PhaseView::Finished(r) => InstallView::Verifying(error, r),
            _ => InstallView::Cleaning(error, phase),
        }
    }

    /// Where the installation of a prepared patch starts.
    pub open spec fn start(p: PatchView) -> InstallView {
        InstallView::Applying(p.apply())
    }
}

impl PatchView {
    /// Said of a hook that may still be there.
    pub open spec fn remains_text(self) -> Seq<char> {
        match self.kind {
            Kind::Code => "patch state remains uncertain"@,
            Kind::Pointer => "pointer-hook state remains uncertain"@,
        }
    }

    /// How a failed installation ends: clean only if the patch was restored,
    /// no write is in doubt, and the original bytes stand there.
    pub open spec fn verified(
        self,
        error: Seq<char>,
        cleanup: Result<(), Seq<char>>,
        current: Seq<u8>,
    ) -> InstallFault {
        if cleanup is Ok && !self.tainted && self.state(current) == PatchState::Original {
            InstallFault { message: error, clean: true }
        } else {
            InstallFault {
                message: error + "; rollback failed: "@ + (match cleanup {
                    Err(e) => e,
                    Ok(_) => self.remains_text(),
                }),
                clean: false,
            }
        }
    }

    /// Patch and installation after a reply.
    pub open spec fn install_step(self, at: InstallView, reply: ReplyView) -> (
        PatchView,
        InstallView,
    ) {
        match at {
            InstallView::Applying(phase) => {
                let (p, next) = self.step(phase, reply);
                (p, InstallView::applied(p, next))
            },
            InstallView::Cleaning(error, phase) => {
                let (p, next) = self.step(phase, reply);
                (p, InstallView::cleaned(error, next))
            },
            InstallView::Verifying(error, cleanup) => match reply {
                ReplyView::Bytes(b) => (
                    self,
                    InstallView::Finished(Err(self.verified(error, cleanup, b))),
                ),
                _ => (self, at),
            },
            InstallView::Finished(_) => (self, at),
        }
    }
}

impl Install {
    /// What the installation waits for.
    pub fn action(&self) -> (r: Action)
        ensures
            r == self@.action(),
    {
        match self {
            Install::Applying(p) => p.action(),
            Install::Cleaning(_, p) => p.action(),
            Install::Verifying(_, _) => Action::Observe,
            Install::Finished(_) => Action::Done,
        }
    }

    /// Whether the other threads stay stopped.
    pub fn keeps_threads(&self) -> (r: bool)
        ensures
            r == (match self@ {
                InstallView::Applying(p) => p.keeps_threads(),
                InstallView::Cleaning(_, p) => p.keeps_threads(),
                _ => false,
            }),
    {
        match self {
            Install::Applying(p) => p.keeps_threads(),
            Install::Cleaning(_, p) => p.keeps_threads(),
            _ => false,
        }
    }
}

impl Patch {
    /// Starts installing a prepared patch.
    pub fn install(&self) -> (r: Install)
        ensures
            r@ == InstallView::start(self@),
    {
        Install::Applying(self.apply())
    }

    /// Takes the reply to an installation's action.
    pub fn install_step(&mut self, at: Install, reply: Reply) -> (r: Install)
        ensures
            (final(self)@, r@) == old(self)@.install_step(at@, reply@),
    {
        match at {
            Install::Applying(phase) => {
                let next: Phase = self.step(phase, reply);
                match next {
                    Phase::Finished(Ok(_)) => Install::Finished(Ok(())),
                    Phase::Finished(Err(e)) => Install::Cleaning(e, self.restore()),
                    next => Install::Applying(next),
                }
            },
            Install::Cleaning(error, phase) => {
                let next: Phase = self.step(phase, reply);
                match next {
                    Phase::Finished(r) => Install::Verifying(error, r),
                    next => Install::Cleaning(error, next),
                }
            },
            Install::Verifying(error, cleanup) => match reply {
                Reply::Bytes(b) => {
                    let clean: bool = !self.tainted && self.state(b.as_slice())
                        == PatchState::Original;
                    let mut message: String = error;
                    match cleanup {
                        Ok(_) => {
                            if clean {
                                return Install::Finished(Err(InstallError::clean(message)));
                            }
                            message.append("; rollback failed: ");
                            match self.kind {
                                Kind::Code => message.append("patch state remains uncertain"),
                                Kind::Pointer => message.append(
                                    "pointer-hook state remains uncertain",
                                ),
                            }
                        },
                        Err(e) => {
                            message.append("; rollback failed: ");
                            message.append(e.as_str());
                        },
                    }
                    Install::Finished(Err(InstallError::dirty(message)))
                },
                _ => Install::Verifying(error, cleanup),
            },
            Install::Finished(r) => Install::Finished(r),
        }
    }
}

/// An honest reply to an action, with the memory at the patch's address before
/// and after: what is observed is what stands there, stopping threads changes
/// nothing, and a write that succeeds has left the written bytes.
pub open spec fn honest(
    p: PatchView,
    action: Action,
    reply: ReplyView,
    before: Seq<u8>,
    after: Seq<u8>,
) -> bool {
    match action {
        Action::Observe => reply == ReplyView::Bytes(before) && after == before,
        Action::Stop => reply is Stopped && after == before,
        Action::WriteOriginal => reply is Wrote && (reply->Wrote_0 is Ok ==> after == p.original),
        Action::WriteReplacement => reply is Wrote && (reply->Wrote_0 is Ok ==> after
            == p.replacement),
        Action::Done => false,
    }
}

/// One moment of an operation: the patch, its phase, the memory.
pub struct Moment {
    pub patch: PatchView,
    pub phase: PhaseView,
    pub memory: Seq<u8>,
}

/// Moments of an operation, each reached from the one before by an honest
/// reply.
pub open spec fn honest_run(ms: Seq<Moment>, replies: Seq<ReplyView>) -> bool {
    &&& ms.len() == replies.len() + 1
    &&& forall|i: int|
        #![trigger ms[i + 1]]
        0 <= i < replies.len() ==> {
            &&& honest(
                ms[i].patch,
                ms[i].phase.action(),
                replies[i],
                ms[i].memory,
                ms[i + 1].memory,
            )
            &&& (ms[i + 1].patch, ms[i + 1].phase) == ms[i].patch.step(ms[i].phase, replies[i])
        }
}

/// What holds of every moment of applying.
spec fn applying(m: Moment) -> bool {
    match m.phase {
        PhaseView::LookRestore(then_apply) => then_apply,
        PhaseView::StopRestore(then_apply) => then_apply,
        PhaseView::Force(a) => a !is Restored && m.patch.tainted,
        PhaseView::LookForced(a, w) => a !is Restored && m.patch.tainted && (w is Ok ==> m.memory
            == m.patch.original),
        PhaseView::LookApply => m.patch.kind == Kind::Code ==> !m.patch.tainted,
        PhaseView::StopApply => !m.patch.tainted && m.memory == m.patch.original,
        PhaseView::Replace => m.patch.tainted,
        PhaseView::Finished(r) => r is Ok ==> !m.patch.tainted && m.memory == m.patch.replacement,
    }
}

/// What holds of every moment of restoring.
spec fn restoring(m: Moment) -> bool {
    match m.phase {
        PhaseView::LookRestore(then_apply) => !then_apply,
        PhaseView::StopRestore(then_apply) => !then_apply,
        PhaseView::Force(a) => a is Restored && m.patch.tainted,
        PhaseView::LookForced(a, w) => a is Restored && m.patch.tainted && (w is Ok ==> m.memory
            == m.patch.original),
        PhaseView::Finished(r) => r is Ok ==> !m.patch.tainted && m.memory == m.patch.original,
        _ => false,
    }
}

/// While no write is in doubt and the replacement is not in place, the
/// original bytes are.
spec fn undisturbed(m: Moment) -> bool {
    m.patch.tainted || m.memory == m.patch.original || m.phase == PhaseView::Finished(
        Ok::<(), Seq<char>>(()),
    )
}

proof fn run_keeps(ms: Seq<Moment>, replies: Seq<ReplyView>, n: int)
    requires
        honest_run(ms, replies),
        0 <= n <= replies.len(),
    ensures
        applying(ms[0]) ==> applying(ms[n]),
        restoring(ms[0]) ==> restoring(ms[n]),
        applying(ms[0]) && undisturbed(ms[0]) ==> undisturbed(ms[n]),
        ms[n].patch.original == ms[0].patch.original,
        ms[n].patch.replacement == ms[0].patch.replacement,
        ms[n].patch.kind == ms[0].patch.kind,
    decreases n,
{
    if n > 0 {
        run_keeps(ms, replies, n - 1);
        assert(ms[n - 1 + 1] == ms[n]);
    }
}

/// A patch that was applied is in place: however the system answered on the
/// way, an application that ends well leaves exactly the replacement bytes and
/// no write in doubt.
pub proof fn applied_is_in_place(ms: Seq<Moment>, replies: Seq<ReplyView>)
    requires
        honest_run(ms, replies),
        ms[0].phase == ms[0].patch.apply(),
        ms.last().phase == PhaseView::Finished(Ok::<(), Seq<char>>(())),
    ensures
        ms.last().memory == ms[0].patch.replacement,
        !ms.last().patch.tainted,
{
    run_keeps(ms, replies, replies.len() as int);
}

/// A patch that was restored is gone: a restoration that ends well leaves
/// exactly the original bytes and no write in doubt.
pub proof fn restored_is_exact(ms: Seq<Moment>, replies: Seq<ReplyView>)
    requires
        honest_run(ms, replies),
        ms[0].phase == ms[0].patch.restore(),
        ms.last().phase == PhaseView::Finished(Ok::<(), Seq<char>>(())),
    ensures
        ms.last().memory == ms[0].patch.original,
        !ms.last().patch.tainted,
{
    run_keeps(ms, replies, replies.len() as int);
}

/// A failed application is rolled back: applying a patch over its original
/// bytes either ends well, or puts the original bytes back, or says that a
/// write is in doubt.
pub proof fn failed_apply_is_rolled_back(ms: Seq<Moment>, replies: Seq<ReplyView>)
    requires
        honest_run(ms, replies),
        ms[0].phase == ms[0].patch.apply(),
        !ms[0].patch.tainted,
        ms[0].memory == ms[0].patch.original,
        ms.last().phase is Finished,
        ms.last().phase->Finished_0 is Err,
        !ms.last().patch.tainted,
    ensures
        ms.last().memory == ms[0].patch.original,
{
    run_keeps(ms, replies, replies.len() as int);
}

/// Foreign bytes are never written over: where no write is in doubt and the
/// bytes are neither the original nor the replacement ones, applying and
/// restoring both end at once, with an error.
pub proof fn foreign_bytes_are_left_alone(p: PatchView, current: Seq<u8>)
    requires
        !p.tainted,
        current != p.original,
        current != p.replacement,
    ensures
        p.step(p.apply(), ReplyView::Bytes(current)).1 == PhaseView::Finished(
            Err::<(), Seq<char>>(p.uncertain_text()),
        ),
        p.step(p.restore(), ReplyView::Bytes(current)).1 == PhaseView::Finished(
            Err::<(), Seq<char>>(p.changed_text()),
        ),
{
}

/// An installation that failed cleanly has left the original bytes: what was
/// seen last is what stands there, and no write is in doubt.
pub proof fn clean_failure_left_the_original(
    p: PatchView,
    at: InstallView,
    reply: ReplyView,
    memory: Seq<u8>,
)
    requires
        at !is Finished,
        honest(p, at.action(), reply, memory, memory),
        p.install_step(at, reply).1 is Finished,
        p.install_step(at, reply).1->Finished_0 matches Err(e) && e.clean,
    ensures
        memory == p.original,
        !p.install_step(at, reply).0.tainted,
{
}

/// A pointer slot's bytes tell its pointer: two pointers with the same bytes
/// are the same.
pub proof fn pointer_bytes_tell_the_pointer(a: u64, b: u64)
    requires
        le_bytes64(a as int) == le_bytes64(b as int),
    ensures
        a == b,
{
    le_bytes64_read_back(a);
    le_bytes64_read_back(b);
}

/// What an inline hook writes: the trampoline, and the bytes over the entry.
pub struct InlinePlan {
    pub trampoline: Vec<u8>,
    pub entry: Vec<u8>,
}

/// Plans an inline hook: the displaced instructions followed by a jump back
/// behind them, and a jump to `replacement` that fills their place. Refused
/// where too few bytes are known to be safe.
pub fn plan_inline(address: u64, expected: &[u8], replacement: u64) -> (r: Result<
    InlinePlan,
    InstallError,
>)
    requires
        address + expected@.len() <= u64::MAX,
    ensures
        match r {
            Ok(plan) => {
                &&& expected@.len() >= ABS_JUMP_LEN
                &&& plan.trampoline@ == expected@ + abs_jump(address + expected@.len())
                &&& plan.entry@ == abs_jump(replacement as int) + nops(
                    (expected@.len() - ABS_JUMP_LEN) as nat,
                )
                &&& plan.entry@.len() == expected@.len()
            },
            Err(e) => expected@.len() < ABS_JUMP_LEN && e@ == (InstallFault {
                message: "inline hook needs at least 14 safe bytes"@,
                clean: true,
            }),
        },
{
    if expected.len() < ABS_JUMP_LEN {
        return Err(
            InstallError::clean("inline hook needs at least 14 safe bytes".to_owned()),
        );
    }
    let back: Vec<u8> = absolute_jump(address + expected.len() as u64);
    let code: Vec<u8> = trampoline(expected, back);
    let entry: Vec<u8> = filled(absolute_jump(replacement), expected.len());
    Ok(InlinePlan { trampoline: code, entry })
}

/// What came of allocating a trampoline: its address, or the error.
pub fn allocated(r: Result<u64, u32>) -> (o: Result<u64, InstallError>)
    ensures
        match (r, o) {
            (Ok(a), Ok(b)) => a == b,
            (Err(code), Err(e)) => e@ == (InstallFault {
                message: "VirtualAlloc failed ("@ + dec_text(code as int) + ")"@,
                clean: true,
            }),
            _ => false,
        },
{
    match r {
        Ok(a) => Ok(a),
        Err(code) => Err(InstallError::clean(with_dec("VirtualAlloc failed (", code as u64, ")"))),
    }
}

/// What came of making a trampoline executable: both steps must succeed.
pub fn finalized(flushed: bool, protected: bool, code: u32) -> (r: Result<(), InstallError>)
    ensures
        match r {
            Ok(_) => flushed && protected,
            Err(e) => !(flushed && protected) && e@ == (InstallFault {
                message: "finalizing the trampoline failed ("@ + dec_text(code as int) + ")"@,
                clean: true,
            }),
        },
{
    if flushed && protected {
        Ok(())
    } else {
        Err(
            InstallError::clean(with_dec("finalizing the trampoline failed (", code as u64, ")")),
        )
    }
}

/// Whether a trampoline may be freed: only where no code can still jump to it.
pub fn release_trampoline(patch: &Patch, current: &[u8]) -> (r: Result<(), String>)
    ensures
        match r {
            Ok(_) => !patch@.tainted && patch@.state(current@) == PatchState::Original,
            Err(e) => (patch@.tainted || patch@.state(current@) != PatchState::Original) && e@
                == "cannot free a trampoline while its inline patch may execute"@,
        },
{
    if patch.tainted || patch.state(current) != PatchState::Original {
        Err("cannot free a trampoline while its inline patch may execute".to_owned())
    } else {
        Ok(())
    }
}

/// A patch over its original bytes gets applied: the bytes are looked at, the
/// threads stopped, the replacement written, and that is the end of it; and one
/// that is in place already stays.
pub proof fn a_patch_gets_applied(p: PatchView)
    requires
        !p.tainted,
        p.original != p.replacement,
    ensures
        ({
            let a = p.step(p.apply(), ReplyView::Bytes(p.original));
            let b = a.0.step(a.1, ReplyView::Stopped(Ok(())));
            let c = b.0.step(b.1, ReplyView::Wrote(Ok(())));
            &&& p.apply().action() == Action::Observe
            &&& a.1.action() == Action::Stop
            &&& b.1.action() == Action::WriteReplacement
            &&& b.1.keeps_threads()
            &&& c == (p, PhaseView::Finished(Ok::<(), Seq<char>>(())))
        }),
        p.step(p.apply(), ReplyView::Bytes(p.replacement)) == (
            p,
            PhaseView::Finished(Ok::<(), Seq<char>>(())),
        ),
{
}

/// A patch that is in place gets restored: the bytes are looked at, the threads
/// stopped, the original written and seen again; and one that is not in place
/// is left.
pub proof fn a_patch_gets_restored(p: PatchView)
    requires
        !p.tainted,
        p.original != p.replacement,
    ensures
        ({
            let a = p.step(p.restore(), ReplyView::Bytes(p.replacement));
            let b = a.0.step(a.1, ReplyView::Stopped(Ok(())));
            let c = b.0.step(b.1, ReplyView::Wrote(Ok(())));
            let d = c.0.step(c.1, ReplyView::Bytes(p.original));
            &&& p.restore().action() == Action::Observe
            &&& a.1.action() == Action::Stop
            &&& b.1.action() == Action::WriteOriginal
            &&& b.1.keeps_threads()
            &&& c.1.action() == Action::Observe
            &&& d == (p, PhaseView::Finished(Ok::<(), Seq<char>>(())))
        }),
        p.step(p.restore(), ReplyView::Bytes(p.original)) == (
            p,
            PhaseView::Finished(Ok::<(), Seq<char>>(())),
        ),
{
}

/// A write that failed is taken back: the original bytes are written and seen
/// again, and the failure is told; and a write that is in doubt is tried again,
/// whatever stands there.
pub proof fn a_failed_write_is_taken_back(p: PatchView, e: Seq<char>, current: Seq<u8>)
    requires
        p.tainted,
    ensures
        ({
            let a = p.step(PhaseView::Replace, ReplyView::Wrote(Err(e)));
            let b = a.0.step(a.1, ReplyView::Wrote(Ok(())));
            let c = b.0.step(b.1, ReplyView::Bytes(p.original));
            &&& a.1.action() == Action::WriteOriginal
            &&& b.1.action() == Action::Observe
            &&& c == (
                PatchView { tainted: false, ..p },
                PhaseView::Finished(Err::<(), Seq<char>>(e)),
            )
        }),
        ({
            let a = p.step(p.restore(), ReplyView::Bytes(current));
            let b = a.0.step(a.1, ReplyView::Stopped(Ok(())));
            let c = b.0.step(b.1, ReplyView::Wrote(Ok(())));
            let d = c.0.step(c.1, ReplyView::Bytes(p.original));
            d == (
                PatchView { tainted: false, ..p },
                PhaseView::Finished(Ok::<(), Seq<char>>(())),
            )
        }),
{
}

/// An installation of a patch over its original bytes ends well where every
/// action does; where the threads cannot be stopped it ends clean.
pub proof fn an_installation_ends_well(p: PatchView, e: Seq<char>)
    requires
        !p.tainted,
        p.original != p.replacement,
    ensures
        ({
            let a = p.install_step(InstallView::start(p), ReplyView::Bytes(p.original));
            let b = a.0.install_step(a.1, ReplyView::Stopped(Ok(())));
            let c = b.0.install_step(b.1, ReplyView::Wrote(Ok(())));
            c == (p, InstallView::Finished(Ok::<(), InstallFault>(())))
        }),
        ({
            let a = p.install_step(InstallView::start(p), ReplyView::Bytes(p.original));
            let b = a.0.install_step(a.1, ReplyView::Stopped(Err(e)));
            let c = b.0.install_step(b.1, ReplyView::Bytes(p.original));
            let d = c.0.install_step(c.1, ReplyView::Bytes(p.original));
            d == (
                p,
                InstallView::Finished(
                    Err::<(), InstallFault>(InstallFault { message: e, clean: true }),
                ),
            )
        }),
{
}

/// A code write without a fault went well, and one with a fault did not.
pub proof fn faultless_writes_went_well(s: WriteSteps)
    ensures
        write_outcome(s) is Ok <==> s.protect is Ok && s.flush is None && s.restore is None
            && s.verified,
{
}

/// A patch is prepared where the bytes are the expected ones, and no shorter or
/// longer than their replacement; it starts out of doubt.
pub proof fn a_patch_is_prepared(
    address: int,
    expected: Seq<u8>,
    replacement: Seq<u8>,
    current: Seq<u8>,
)
    ensures
        prepared(address, expected, replacement, current) is Ok <==> expected.len() > 0
            && expected.len() == replacement.len() && current == expected,
        prepared(address, expected, replacement, current) matches Ok(p) ==> p.address == address
            && p.original == expected && p.replacement == replacement && !p.tainted && p.kind
            == Kind::Code,
{
}

/// A pointer is replaced where the slot is aligned and holds the expected one.
pub proof fn a_pointer_is_prepared(slot: int, expected: u64, replacement: u64, current: int)
    ensures
        prepared_pointer(slot, expected as int, replacement as int, current) is Ok <==> slot % 8
            == 0 && current == expected,
        prepared_pointer(slot, expected as int, replacement as int, current) matches Ok(p)
            ==> p.address == slot && le64(p.original, 0) == expected && le64(p.replacement, 0)
            == replacement && p.original.len() == 8 && p.replacement.len() == 8 && !p.tainted,
{
    le_bytes64_read_back(expected);
    le_bytes64_read_back(replacement);
}

} // verus!
