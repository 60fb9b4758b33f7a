//! The prediction patch as one reversible transaction on another process.
//!
//! `WriteCall` is one verified write into executable memory. `Transaction`
//! checks every site first, writes them in order, and takes back what it wrote
//! when a write fails. The caller performs each action that is asked for and
//! hands back what came of it.
use vstd::prelude::*;

use crate::bytes::same_bytes;
use crate::code::nops;
use crate::predict::{
    bytes_view, is_branch, matches_fit, protection_view, sig_pattern, site_of, site_views, sites_of,
    windows_sigs, windows_sites, PatchSite, ProbeView, SiteView, PAGE_EXECUTE_READWRITE,
};
use crate::sig::matches_of;
use crate::text::{
    dec_text, hex_text, join, joined, outcome_view, push_dec, push_hex, string_views, with_dec,
    with_hex,
};

verus! {

/// One write of bytes into executable memory.
pub struct WriteCall {
    addr: u64,
    data: Vec<u8>,
    /// The protection that the page had and is to have afterwards.
    protection: u32,
    /// Whether another protection found there is simply overwritten.
    repair: bool,
}

/// The value of a `WriteCall`.
#[verifier::ext_equal]
pub struct WriteView {
    pub addr: int,
    pub data: Seq<u8>,
    pub protection: u32,
    pub repair: bool,
}

impl View for WriteCall {
    type V = WriteView;

    closed spec fn view(&self) -> WriteView {
        WriteView {
            addr: self.addr as int,
            data: self.data@,
            protection: self.protection,
            repair: self.repair,
        }
    }
}

/// Where a write stands.
pub enum WritePhase {
    /// The page is to become writable.
    Unlock,
    /// It had this other protection, which is to be put back.
    Refuse(u32),
    /// The bytes are to be written.
    Put,
    /// The instruction cache is to be flushed. So far these faults.
    Flush(Vec<String>),
    /// The protection is to be put back.
    Lock(Vec<String>),
    /// The bytes are to be read back.
    Check(Vec<String>),
    Finished(Result<(), String>),
}

/// The value of a `WritePhase`.
pub enum WritePhaseView {
    Unlock,
    Refuse(u32),
    Put,
    Flush(Seq<Seq<char>>),
    Lock(Seq<Seq<char>>),
    Check(Seq<Seq<char>>),
    Finished(Result<(), Seq<char>>),
}

impl View for WritePhase {
    type V = WritePhaseView;

    open spec fn view(&self) -> WritePhaseView {
        match self {
            WritePhase::Unlock => WritePhaseView::Unlock,
            WritePhase::Refuse(old) => WritePhaseView::Refuse(*old),
            WritePhase::Put => WritePhaseView::Put,
            WritePhase::Flush(es) => WritePhaseView::Flush(string_views(es@)),
            WritePhase::Lock(es) => WritePhaseView::Lock(string_views(es@)),
            WritePhase::Check(es) => WritePhaseView::Check(string_views(es@)),
            WritePhase::Finished(r) => WritePhaseView::Finished(outcome_view(*r)),
        }
    }
}

/// What a write waits for.
#[derive(Clone, Copy, Debug, Eq, PartialEq, Structural)]
pub enum WriteAction {
    /// Set the page's protection to this.
    Protect(u32),
    /// Write the bytes.
    Write,
    /// Flush the instruction cache.
    Flush,
    /// Read the bytes.
    Read,
    Done,
}

/// What came of an action.
pub enum WriteReply {
    /// The protection before, or the system's error.
    Protected(Result<u32, u32>),
    /// Whether the system reported success, how many bytes it wrote, and its
    /// error.
    Wrote(bool, usize, u32),
    Flushed(Result<(), u32>),
    Read(Option<Vec<u8>>),
}

/// The value of a `WriteReply`.
pub enum WriteReplyView {
    Protected(Result<u32, u32>),
    Wrote(bool, usize, u32),
    Flushed(Result<(), u32>),
    Read(Option<Seq<u8>>),
}

impl View for WriteReply {
    type V = WriteReplyView;

    open spec fn view(&self) -> WriteReplyView {
        match self {
            WriteReply::Protected(r) => WriteReplyView::Protected(*r),
            WriteReply::Wrote(ok, put, e) => WriteReplyView::Wrote(*ok, *put, *e),
            WriteReply::Flushed(r) => WriteReplyView::Flushed(*r),
            WriteReply::Read(b) => WriteReplyView::Read(bytes_view(*b)),
        }
    }
}

/// Errors with one more, if there is one.
pub open spec fn with_fault(errors: Seq<Seq<char>>, fault: Option<Seq<char>>) -> Seq<Seq<char>> {
    match fault {
        Some(e) => errors.push(e),
        None => errors,
    }
}

impl WriteView {
    /// Where a write starts. One of no bytes is refused.
    pub open spec fn start(self) -> WritePhaseView {
        if self.data.len() == 0 {
            WritePhaseView::Finished(Err("refusing an empty executable-memory write"@))
        } else {
            WritePhaseView::Unlock
        }
    }

    /// What the write waits for.
    pub open spec fn action(self, phase: WritePhaseView) -> WriteAction {
        match phase {
            WritePhaseView::Unlock => WriteAction::Protect(PAGE_EXECUTE_READWRITE),
            WritePhaseView::Refuse(old) => WriteAction::Protect(old),
            WritePhaseView::Put => WriteAction::Write,
            WritePhaseView::Flush(_) => WriteAction::Flush,
            WritePhaseView::Lock(_) => WriteAction::Protect(self.protection),
            WritePhaseView::Check(_) => WriteAction::Read,
            WritePhaseView::Finished(_) => WriteAction::Done,
        }
    }

    /// Said of a page whose protection is not the one that was found before.
    pub open spec fn changed_text(self, old: u32) -> Seq<char> {
        "page protection changed from 0x"@ + hex_text(self.protection as int) + " to 0x"@
            + hex_text(old as int)
    }

    /// After a reply. One that was not waited for changes nothing.
    pub open spec fn step(self, phase: WritePhaseView, reply: WriteReplyView) -> WritePhaseView {
        match (phase, reply) {
            (WritePhaseView::Unlock, WriteReplyView::Protected(Err(e))) => WritePhaseView::Finished(
                Err("VirtualProtectEx failed ("@ + dec_text(e as int) + ")"@),
            ),
            (WritePhaseView::Unlock, WriteReplyView::Protected(Ok(old))) => if old
                != self.protection && !self.repair {
                WritePhaseView::Refuse(old)
            } else {
                WritePhaseView::Put
            },
            (WritePhaseView::Refuse(old), WriteReplyView::Protected(r)) => WritePhaseView::Finished(
                Err(
                    match r {
                        Ok(_) => self.changed_text(old),
                        Err(e) => self.changed_text(old) + "; restoring it also failed ("@
                            + dec_text(e as int) + ")"@,
                    },
                ),
            ),
            (WritePhaseView::Put, WriteReplyView::Wrote(ok, put, e)) => WritePhaseView::Flush(
                with_fault(
                    Seq::empty(),
                    if !ok || put != self.data.len() {
                        Some(
                            "WriteProcessMemory wrote "@ + dec_text(put as int) + "/"@ + dec_text(
                                self.data.len() as int,
                            ) + " bytes ("@ + dec_text(e as int) + ")"@,
                        )
                    } else {
                        None
                    },
                ),
            ),
            (WritePhaseView::Flush(es), WriteReplyView::Flushed(r)) => WritePhaseView::Lock(
                with_fault(
                    es,
                    match r {
                        Ok(_) => None,
                        Err(e) => Some(
                            "FlushInstructionCache failed ("@ + dec_text(e as int) + ")"@,
                        ),
                    },
                ),
            ),
            (WritePhaseView::Lock(es), WriteReplyView::Protected(r)) => WritePhaseView::Check(
                with_fault(
                    es,
                    match r {
                        Ok(_) => None,
                        Err(e) => Some(
                            "VirtualProtectEx restore failed ("@ + dec_text(e as int) + ")"@,
                        ),
                    },
                ),
            ),
            (WritePhaseView::Check(es), WriteReplyView::Read(b)) => {
                let all = with_fault(
                    es,
                    if b == Some(self.data) {
                        None
                    } else {
                        Some("executable-memory write did not verify"@)
                    },
                );
                WritePhaseView::Finished(
                    if all.len() == 0 {
                        Ok(())
                    } else {
                        Err(joined(all))
                    },
                )
            },
            _ => phase,
        }
    }
}

/// Adds a fault, if there is one.
fn note_fault(errors: Vec<String>, fault: Option<String>) -> (r: Vec<String>)
    ensures
        string_views(r@) == with_fault(
            string_views(errors@),
            match fault {
                Some(e) => Some(e@),
                None => None,
            },
        ),
{
    let ghost before = string_views(errors@);
    let mut out: Vec<String> = errors;
    match fault {
        Some(e) => {
            out.push(e);
            assert(string_views(out@) =~= before.push(e@));
        },
        None => {},
    }
    out
}

impl WriteCall {
    /// A write of `data` at `addr`.
    pub fn new(addr: u64, data: Vec<u8>, protection: u32, repair: bool) -> (r: WriteCall)
        ensures
            r@ == (WriteView { addr: addr as int, data: data@, protection, repair }),
    {
        WriteCall { addr, data, protection, repair }
    }

    /// Where the bytes go.
    pub fn addr(&self) -> (r: u64)
        ensures
            r == self@.addr,
    {
        self.addr
    }

    /// The bytes.
    pub fn data(&self) -> (r: &[u8])
        ensures
            r@ == self@.data,
    {
        self.data.as_slice()
    }

    /// Starts the write.
    pub fn start(&self) -> (r: WritePhase)
        ensures
            r@ == self@.start(),
    {
        if self.data.len() == 0 {
            WritePhase::Finished(Err("refusing an empty executable-memory write".to_owned()))
        } else {
            WritePhase::Unlock
        }
    }

    /// What the write waits for.
    pub fn action(&self, phase: &WritePhase) -> (r: WriteAction)
        ensures
            r == self@.action(phase@),
    {
        match phase {
            WritePhase::Unlock => WriteAction::Protect(PAGE_EXECUTE_READWRITE),
            WritePhase::Refuse(old) => WriteAction::Protect(*old),
            WritePhase::Put => WriteAction::Write,
            WritePhase::Flush(_) => WriteAction::Flush,
            WritePhase::Lock(_) => WriteAction::Protect(self.protection),
            WritePhase::Check(_) => WriteAction::Read,
            WritePhase::Finished(_) => WriteAction::Done,
        }
    }

    /// Takes the reply to an action. One that was not waited for changes
    /// nothing.
    pub fn step(&self, phase: WritePhase, reply: WriteReply) -> (r: WritePhase)
        ensures
            r@ == self@.step(phase@, reply@),
    {
        match (phase, reply) {
            (WritePhase::Unlock, WriteReply::Protected(r)) => match r {
                Err(e) => WritePhase::Finished(
                    Err(with_dec("VirtualProtectEx failed (", e as u64, ")")),
                ),
                Ok(old) => if old != self.protection && !self.repair {
                    WritePhase::Refuse(old)
                } else {
                    WritePhase::Put
                },
            },
            (WritePhase::Refuse(old), WriteReply::Protected(r)) => {
                let mut text: String = with_hex(
                    "page protection changed from 0x",
                    self.protection as u64,
                    " to 0x",
                );
                push_hex(&mut text, old as u64);
                match r {
                    Ok(_) => {},
                    Err(e) => {
                        text.append("; restoring it also failed (");
                        push_dec(&mut text, e as u64);
                        text.append(")");
                    },
                }
                WritePhase::Finished(Err(text))
            },
            (WritePhase::Put, WriteReply::Wrote(ok, put, e)) => {
                let errors: Vec<String> = Vec::new();
                assert(string_views(errors@) =~= Seq::empty());
                let fault: Option<String> = if !ok || put != self.data.len() {
                    let mut text: String = with_dec("WriteProcessMemory wrote ", put as u64, "/");
                    push_dec(&mut text, self.data.len() as u64);
                    text.append(" bytes (");
                    push_dec(&mut text, e as u64);
                    text.append(")");
                    Some(text)
                } else {
                    None
                };
                WritePhase::Flush(note_fault(errors, fault))
            },
            (WritePhase::Flush(es), WriteReply::Flushed(r)) => {
                let fault: Option<String> = match r {
                    Ok(_) => None,
                    Err(e) => Some(with_dec("FlushInstructionCache failed (", e as u64, ")")),
                };
                WritePhase::Lock(note_fault(es, fault))
            },
            (WritePhase::Lock(es), WriteReply::Protected(r)) => {
                let fault: Option<String> = match r {
                    Ok(_) => None,
                    Err(e) => Some(with_dec("VirtualProtectEx restore failed (", e as u64, ")")),
                };
                WritePhase::Check(note_fault(es, fault))
            },
            (WritePhase::Check(es), WriteReply::Read(b)) => {
                let same: bool = match &b {
                    Some(b) => same_bytes(b.as_slice(), self.data.as_slice()),
                    None => false,
                };
                let fault: Option<String> = if same {
                    None
                } else {
                    Some("executable-memory write did not verify".to_owned())
                };
                let all: Vec<String> = note_fault(es, fault);
                if all.len() == 0 {
                    WritePhase::Finished(Ok(()))
                } else {
                    WritePhase::Finished(Err(join(all.as_slice())))
                }
            },
            (phase, _) => phase,
        }
    }
}

/// The memory of the other process, byte by byte.
pub type Memory = spec_fn(int) -> u8;

/// `bytes` stand at `addr`.
pub open spec fn stands(mem: Memory, addr: int, bytes: Seq<u8>) -> bool {
    forall|i: int| 0 <= i < bytes.len() ==> mem(addr + i) == #[trigger] bytes[i]
}

/// The memories agree but for `len` bytes at `addr`.
pub open spec fn agree_outside(a: Memory, b: Memory, addr: int, len: int) -> bool {
    forall|i: int| i < addr || addr + len <= i ==> #[trigger] a(i) == b(i)
}

/// The bytes at `addr`.
pub open spec fn bytes_at(mem: Memory, addr: int, len: nat) -> Seq<u8> {
    Seq::new(len, |i: int| mem(addr + i))
}

/// One moment of a write: the memory, the page's protection, and the phase.
pub struct WriteMoment {
    pub mem: Memory,
    pub protection: u32,
    pub phase: WritePhaseView,
}

/// An honest reply of the system: what it reports done is done, and nothing
/// else changes.
pub open spec fn honest_write(
    w: WriteView,
    m: WriteMoment,
    reply: WriteReplyView,
    after: WriteMoment,
) -> bool {
    match (w.action(m.phase), reply) {
        (WriteAction::Protect(p), WriteReplyView::Protected(Ok(old))) => old == m.protection
            && after.protection == p && after.mem == m.mem,
        (WriteAction::Protect(_), WriteReplyView::Protected(Err(_))) => after.protection
            == m.protection && after.mem == m.mem,
        (WriteAction::Write, WriteReplyView::Wrote(_, _, _)) => after.protection == m.protection
            && agree_outside(after.mem, m.mem, w.addr, w.data.len() as int),
        (WriteAction::Flush, WriteReplyView::Flushed(_)) => after.protection == m.protection
            && after.mem == m.mem,
        (WriteAction::Read, WriteReplyView::Read(b)) => after.protection == m.protection
            && after.mem == m.mem && (b is Some ==> b->0 == bytes_at(
            m.mem,
            w.addr,
            w.data.len(),
        )),
        _ => false,
    }
}

/// Moments of a write, each reached from the one before by an honest reply.
pub open spec fn honest_writes(
    w: WriteView,
    ms: Seq<WriteMoment>,
    rs: Seq<WriteReplyView>,
) -> bool {
    &&& ms.len() == rs.len() + 1
    &&& ms[0].phase == w.start()
    &&& forall|i: int|
        #![trigger ms[i + 1]]
        0 <= i < rs.len() ==> honest_write(w, ms[i], rs[i], ms[i + 1]) && ms[i + 1].phase
            == w.step(ms[i].phase, rs[i])
}

spec fn writing(w: WriteView, first: WriteMoment, m: WriteMoment) -> bool {
    &&& agree_outside(m.mem, first.mem, w.addr, w.data.len() as int)
    &&& match m.phase {
        WritePhaseView::Unlock => m == first && w.data.len() > 0,
        WritePhaseView::Refuse(old) => m.mem == first.mem && old == first.protection && old
            != w.protection && !w.repair,
        WritePhaseView::Put => m.mem == first.mem,
        WritePhaseView::Flush(_) => true,
        WritePhaseView::Lock(_) => true,
        WritePhaseView::Check(es) => es.len() == 0 ==> m.protection == w.protection,
        WritePhaseView::Finished(r) => {
            &&& r is Ok ==> stands(m.mem, w.addr, w.data) && m.protection == w.protection
            &&& first.protection != w.protection && !w.repair ==> r is Err && m.mem == first.mem
        },
    }
}

proof fn writing_keeps(w: WriteView, ms: Seq<WriteMoment>, rs: Seq<WriteReplyView>, n: int)
    requires
        honest_writes(w, ms, rs),
        0 <= n <= rs.len(),
    ensures
        writing(w, ms[0], ms[n]),
        first_phases(w, ms[0], ms[n]),
    decreases n,
{
    if n > 0 {
        writing_keeps(w, ms, rs, n - 1);
        assert(ms[n - 1 + 1] == ms[n]);
        let b = ms[n - 1];
        if let (WritePhaseView::Check(_), WriteReplyView::Read(Some(read))) = (b.phase, rs[n - 1]) {
            assert(read == bytes_at(b.mem, w.addr, w.data.len()));
            if read == w.data {
                assert forall|i: int| 0 <= i < w.data.len() implies (b.mem)(w.addr + i)
                    == #[trigger] w.data[i] by {
                    assert(read[i] == w.data[i]);
                }
            }
        }
    }
}

/// Only a page with the expected protection, or a repair, is written to.
spec fn first_phases(w: WriteView, first: WriteMoment, m: WriteMoment) -> bool {
    (m.phase is Put || m.phase is Flush || m.phase is Lock || m.phase is Check) ==> (
    first.protection == w.protection || w.repair)
}

/// A write that ends well has left its bytes where they belong, under the
/// protection that the page is to have. Whatever came of it, no byte beside
/// them has changed. A page whose protection is not the expected one is left
/// alone, but for a repair.
pub proof fn write_is_exact(w: WriteView, ms: Seq<WriteMoment>, rs: Seq<WriteReplyView>)
    requires
        honest_writes(w, ms, rs),
        ms.last().phase is Finished,
    ensures
        agree_outside(ms.last().mem, ms[0].mem, w.addr, w.data.len() as int),
        ms.last().phase->Finished_0 is Ok ==> stands(ms.last().mem, w.addr, w.data)
            && ms.last().protection == w.protection,
        ms[0].protection != w.protection && !w.repair ==> ms.last().phase->Finished_0 is Err
            && ms.last().mem == ms[0].mem,
{
    writing_keeps(w, ms, rs, rs.len() as int);
}

/// Both ways of the patch over its sites.
pub struct Transaction {
    sites: Vec<PatchSite>,
    enabled: bool,
}

/// The value of a `Transaction`.
#[verifier::ext_equal]
pub struct TransactionView {
    pub sites: Seq<SiteView>,
    /// Whether the branches are to be overwritten, or put back.
    pub enabled: bool,
}

impl View for Transaction {
    type V = TransactionView;

    closed spec fn view(&self) -> TransactionView {
        TransactionView { sites: site_views(self.sites@), enabled: self.enabled }
    }
}

/// How a transaction ended.
pub enum End {
    /// Every site holds what it is to hold.
    Done,
    /// Nothing was written.
    Refused(String),
    /// A write failed, and what had been written was taken back.
    RolledBack(String),
    /// A write failed, and so did taking it back.
    Broken(String),
}

/// The value of an `End`.
pub enum EndView {
    Done,
    Refused(Seq<char>),
    RolledBack(Seq<char>),
    Broken(Seq<char>),
}

impl View for End {
    type V = EndView;

    open spec fn view(&self) -> EndView {
        match self {
            End::Done => EndView::Done,
            End::Refused(e) => EndView::Refused(e@),
            End::RolledBack(e) => EndView::RolledBack(e@),
            End::Broken(e) => EndView::Broken(e@),
        }
    }
}

impl EndView {
    /// What to report.
    pub open spec fn outcome(self) -> Result<(), Seq<char>> {
        match self {
            EndView::Done => Ok(()),
            EndView::Refused(e) => Err(e),
            EndView::RolledBack(e) => Err(e),
            EndView::Broken(e) => Err(e),
        }
    }
}

impl End {
    /// What to report.
    pub fn outcome(self) -> (r: Result<(), String>)
        ensures
            outcome_view(r) == self@.outcome(),
    {
        match self {
            End::Done => Ok(()),
            End::Refused(e) => Err(e),
            End::RolledBack(e) => Err(e),
            End::Broken(e) => Err(e),
        }
    }
}

/// Where a transaction stands.
pub enum Stage {
    /// The threads of the process are to be suspended.
    Suspend,
    /// The bytes of this site are wanted.
    Look(usize),
    /// The protection of this site is wanted.
    Query(usize),
    /// This site is to be written.
    Write(usize),
    /// Writing this site failed so; the sites before the second one are still
    /// to be taken back. So far these faults.
    Undo(usize, usize, String, Vec<String>),
    Finished(End),
}

/// The value of a `Stage`.
pub enum StageView {
    Suspend,
    Look(int),
    Query(int),
    Write(int),
    Undo(int, int, Seq<char>, Seq<Seq<char>>),
    Finished(EndView),
}

impl View for Stage {
    type V = StageView;

    open spec fn view(&self) -> StageView {
        match self {
            Stage::Suspend => StageView::Suspend,
            Stage::Look(i) => StageView::Look(*i as int),
            Stage::Query(i) => StageView::Query(*i as int),
            Stage::Write(i) => StageView::Write(*i as int),
            Stage::Undo(i, j, e, es) => StageView::Undo(
                *i as int,
                *j as int,
                e@,
                string_views(es@),
            ),
            Stage::Finished(end) => StageView::Finished(end@),
        }
    }
}

/// What a transaction waits for.
#[derive(Clone, Copy, Debug, Eq, PartialEq, Structural)]
pub enum StageAction {
    /// Suspend every thread of the process, until the end.
    Suspend,
    /// Read as many bytes at this site as it has.
    Read(usize),
    /// Query the protection at this site.
    Query(usize),
    /// Write what this site is to hold.
    Write(usize),
    /// Write what this site held before, repairing its protection.
    Undo(usize),
    Done,
}

/// What came of an action.
pub enum StageReply {
    Suspended(Result<(), String>),
    Read(Option<Vec<u8>>),
    Protection(Result<u32, String>),
    Wrote(Result<(), String>),
}

/// The value of a `StageReply`.
pub enum StageReplyView {
    Suspended(Result<(), Seq<char>>),
    Read(Option<Seq<u8>>),
    Protection(Result<u32, Seq<char>>),
    Wrote(Result<(), Seq<char>>),
}

impl View for StageReply {
    type V = StageReplyView;

    open spec fn view(&self) -> StageReplyView {
        match self {
            StageReply::Suspended(r) => StageReplyView::Suspended(outcome_view(*r)),
            StageReply::Read(b) => StageReplyView::Read(bytes_view(*b)),
            StageReply::Protection(r) => StageReplyView::Protection(protection_view(*r)),
            StageReply::Wrote(r) => StageReplyView::Wrote(outcome_view(*r)),
        }
    }
}

impl StageView {
    /// The sites that a stage names are there.
    pub open spec fn wf(self, count: int) -> bool {
        match self {
            StageView::Look(i) => 0 <= i < count,
            StageView::Query(i) => 0 <= i < count,
            StageView::Write(i) => 0 <= i < count,
            StageView::Undo(i, j, _, _) => 0 < j <= i + 1 <= count,
            _ => true,
        }
    }

    /// What the transaction waits for.
    pub open spec fn action(self) -> StageAction {
        match self {
            StageView::Suspend => StageAction::Suspend,
            StageView::Look(i) => StageAction::Read(i as usize),
            StageView::Query(i) => StageAction::Query(i as usize),
            StageView::Write(i) => StageAction::Write(i as usize),
            StageView::Undo(_, j, _, _) => StageAction::Undo((j - 1) as usize),
            StageView::Finished(_) => StageAction::Done,
        }
    }
}

/// A site, for messages.
pub open spec fn site_text(s: SiteView) -> Seq<char> {
    s.name + " @ 0x"@ + hex_text(s.addr)
}

impl TransactionView {
    /// What a site is to hold.
    pub open spec fn desired(self, i: int) -> Seq<u8> {
        if self.enabled {
            self.sites[i].replacement
        } else {
            self.sites[i].original
        }
    }

    /// What a site is expected to hold before.
    pub open spec fn prior(self, i: int) -> Seq<u8> {
        if self.enabled {
            self.sites[i].original
        } else {
            self.sites[i].replacement
        }
    }

    /// After the checks of the sites before `i` went well.
    pub open spec fn checked(self, i: int) -> StageView {
        if i < self.sites.len() {
            StageView::Look(i)
        } else if self.sites.len() > 0 {
            StageView::Write(0)
        } else {
            StageView::Finished(EndView::Done)
        }
    }

    /// The end after writing site `i` failed and everything was taken back but
    /// for these faults.
    pub open spec fn undone(self, i: int, error: Seq<char>, faults: Seq<Seq<char>>) -> EndView {
        let head = "writing "@ + site_text(self.sites[i]) + ": "@ + error + "; "@;
        if faults.len() == 0 {
            EndView::RolledBack(head + "transaction rolled back"@)
        } else {
            EndView::Broken(head + "rollback failed: "@ + joined(faults))
        }
    }

    /// After a reply. One that was not waited for changes nothing.
    pub open spec fn step(self, stage: StageView, reply: StageReplyView) -> StageView {
        match (stage, reply) {
            (StageView::Suspend, StageReplyView::Suspended(r)) => match r {
                Err(e) => StageView::Finished(EndView::Refused(e)),
                Ok(_) => self.checked(0),
            },
            (StageView::Look(i), StageReplyView::Read(b)) => if b == Some(self.prior(i)) {
                StageView::Query(i)
            } else {
                StageView::Finished(
                    EndView::Refused(
                        site_text(self.sites[i]) + " is not in the expected prior state"@,
                    ),
                )
            },
            (StageView::Query(i), StageReplyView::Protection(r)) => match r {
                Err(e) => StageView::Finished(EndView::Refused(e)),
                Ok(p) => if p == self.sites[i].protection {
                    self.checked(i + 1)
                } else {
                    StageView::Finished(
                        EndView::Refused(
                            site_text(self.sites[i]) + " protection changed from 0x"@ + hex_text(
                                self.sites[i].protection as int,
                            ) + " to 0x"@ + hex_text(p as int),
                        ),
                    )
                },
            },
            (StageView::Write(i), StageReplyView::Wrote(r)) => match r {
                Ok(_) => if i + 1 < self.sites.len() {
                    StageView::Write(i + 1)
                } else {
                    StageView::Finished(EndView::Done)
                },
                Err(e) => StageView::Undo(i, i + 1, e, Seq::empty()),
            },
            (StageView::Undo(i, j, error, faults), StageReplyView::Wrote(r)) => {
                let all = with_fault(
                    faults,
                    match r {
                        Ok(_) => None,
                        Err(e) => Some(self.sites[j - 1].name + ": "@ + e),
                    },
                );
                if j > 1 {
                    StageView::Undo(i, j - 1, error, all)
                } else {
                    StageView::Finished(self.undone(i, error, all))
                }
            },
            _ => stage,
        }
    }
}

/// A site, for messages.
fn site_string(s: &PatchSite) -> (r: String)
    ensures
        r@ == site_text(s@),
{
    let mut text: String = s.name.to_owned();
    text.append(" @ 0x");
    push_hex(&mut text, s.addr);
    text
}

impl Transaction {
    /// A transaction over sites.
    pub fn new(sites: Vec<PatchSite>, enabled: bool) -> (r: Transaction)
        ensures
            r@ == (TransactionView { sites: site_views(sites@), enabled }),
    {
        Transaction { sites, enabled }
    }

    /// The sites.
    pub fn sites(&self) -> (r: &Vec<PatchSite>)
        ensures
            site_views(r@) == self@.sites,
    {
        &self.sites
    }

    /// Gives the sites back.
    pub fn into_sites(self) -> (r: Vec<PatchSite>)
        ensures
            site_views(r@) == self@.sites,
    {
        self.sites
    }

    /// What a site is to hold.
    pub fn desired(&self, i: usize) -> (r: &[u8])
        requires
            i < self@.sites.len(),
        ensures
            r@ == self@.desired(i as int),
    {
        assert(self@.sites[i as int] == self.sites@[i as int]@);
        if self.enabled {
            self.sites[i].replacement.as_slice()
        } else {
            self.sites[i].original.as_slice()
        }
    }

    /// What a site is expected to hold before.
    pub fn prior(&self, i: usize) -> (r: &[u8])
        requires
            i < self@.sites.len(),
        ensures
            r@ == self@.prior(i as int),
    {
        assert(self@.sites[i as int] == self.sites@[i as int]@);
        if self.enabled {
            self.sites[i].original.as_slice()
        } else {
            self.sites[i].replacement.as_slice()
        }
    }

    fn checked(&self, i: usize) -> (r: Stage)
        ensures
            r@ == self@.checked(i as int),
    {
        if i < self.sites.len() {
            Stage::Look(i)
        } else if self.sites.len() > 0 {
            Stage::Write(0)
        } else {
            Stage::Finished(End::Done)
        }
    }

    fn undone(&self, i: usize, error: String, faults: Vec<String>) -> (r: End)
        requires
            i < self@.sites.len(),
        ensures
            r@ == self@.undone(i as int, error@, string_views(faults@)),
    {
        assert(self@.sites[i as int] == self.sites@[i as int]@);
        let mut text: String = "writing ".to_owned();
        let site: String = site_string(&self.sites[i]);
        text.append(site.as_str());
        text.append(": ");
        text.append(error.as_str());
        text.append("; ");
        if faults.len() == 0 {
            text.append("transaction rolled back");
            End::RolledBack(text)
        } else {
            text.append("rollback failed: ");
            let why: String = join(faults.as_slice());
            text.append(why.as_str());
            End::Broken(text)
        }
    }

    /// Takes the reply to an action. One that was not waited for changes
    /// nothing.
    pub fn step(&self, stage: Stage, reply: StageReply) -> (r: Stage)
        requires
            stage@.wf(self@.sites.len() as int),
        ensures
            r@ == self@.step(stage@, reply@),
            r@.wf(self@.sites.len() as int),
    {
        let count: usize = self.sites.len();
        match (stage, reply) {
            (Stage::Suspend, StageReply::Suspended(r)) => match r {
                Err(e) => Stage::Finished(End::Refused(e)),
                Ok(_) => self.checked(0),
            },
            (Stage::Look(i), StageReply::Read(b)) => {
                assert(self@.sites[i as int] == self.sites@[i as int]@);
                let same: bool = match &b {
                    Some(b) => same_bytes(b.as_slice(), self.prior(i)),
                    None => false,
                };
                if same {
                    Stage::Query(i)
                } else {
                    let mut text: String = site_string(&self.sites[i]);
                    text.append(" is not in the expected prior state");
                    Stage::Finished(End::Refused(text))
                }
            },
            (Stage::Query(i), StageReply::Protection(r)) => {
                assert(self@.sites[i as int] == self.sites@[i as int]@);
                match r {
                    Err(e) => Stage::Finished(End::Refused(e)),
                    Ok(p) => if p == self.sites[i].protection {
                        self.checked(i + 1)
                    } else {
                        let mut text: String = site_string(&self.sites[i]);
                        text.append(" protection changed from 0x");
                        push_hex(&mut text, self.sites[i].protection as u64);
                        text.append(" to 0x");
                        push_hex(&mut text, p as u64);
                        Stage::Finished(End::Refused(text))
                    },
                }
            },
            (Stage::Write(i), StageReply::Wrote(r)) => match r {
                Ok(_) => if i + 1 < count {
                    Stage::Write(i + 1)
                } else {
                    Stage::Finished(End::Done)
                },
                Err(e) => {
                    let faults: Vec<String> = Vec::new();
                    assert(string_views(faults@) =~= Seq::empty());
                    Stage::Undo(i, i + 1, e, faults)
                },
            },
            (Stage::Undo(i, j, error, faults), StageReply::Wrote(r)) => {
                assert(self@.sites[j - 1] == self.sites@[j - 1]@);
                let fault: Option<String> = match r {
                    Ok(_) => None,
                    Err(e) => {
                        let mut text: String = self.sites[j - 1].name.to_owned();
                        text.append(": ");
                        text.append(e.as_str());
                        Some(text)
                    },
                };
                let all: Vec<String> = note_fault(faults, fault);
                if j > 1 {
                    Stage::Undo(i, j - 1, error, all)
                } else {
                    Stage::Finished(self.undone(i, error, all))
                }
            },
            (stage, _) => stage,
        }
    }
}

impl Stage {
    /// What the transaction waits for.
    pub fn action(&self) -> (r: StageAction)
        requires
            exists|count: int| self@.wf(count),
        ensures
            r == self@.action(),
    {
        match self {
            Stage::Suspend => StageAction::Suspend,
            Stage::Look(i) => StageAction::Read(*i),
            Stage::Query(i) => StageAction::Query(*i),
            Stage::Write(i) => StageAction::Write(*i),
            Stage::Undo(_, j, _, _) => StageAction::Undo(*j - 1),
            Stage::Finished(_) => StageAction::Done,
        }
    }
}

/// The protection of every page, by its number.
pub type Pages = spec_fn(int) -> u32;

/// The number of the page that holds an address.
pub open spec fn page_of(addr: int) -> int {
    addr / 4096
}

/// A write to the site reaches this page.
pub open spec fn touches(s: SiteView, page: int) -> bool {
    page == page_of(s.addr) || page_of(s.addr) <= page <= page_of(
        s.addr + s.original.len() - 1,
    )
}

/// One moment of a transaction: the memory, the protection of its pages, and
/// the stage.
pub struct Moment {
    pub mem: Memory,
    pub pages: Pages,
    pub stage: StageView,
}

/// An honest reply: what was read stands there, what was written stands there
/// if the write went well, and nothing beside it has changed.
pub open spec fn honest(t: TransactionView, m: Moment, reply: StageReplyView, after: Memory) -> bool {
    match (m.stage, reply) {
        (StageView::Suspend, StageReplyView::Suspended(_)) => after == m.mem,
        (StageView::Look(i), StageReplyView::Read(b)) => after == m.mem && (b is Some ==> b->0
            == bytes_at(m.mem, t.sites[i].addr, t.prior(i).len())),
        (StageView::Query(_), StageReplyView::Protection(_)) => after == m.mem,
        (StageView::Write(i), StageReplyView::Wrote(r)) => agree_outside(
            after,
            m.mem,
            t.sites[i].addr,
            t.desired(i).len() as int,
        ) && (r is Ok ==> stands(after, t.sites[i].addr, t.desired(i))),
        (StageView::Undo(_, j, _, _), StageReplyView::Wrote(r)) => agree_outside(
            after,
            m.mem,
            t.sites[j - 1].addr,
            t.prior(j - 1).len() as int,
        ) && (r is Ok ==> stands(after, t.sites[j - 1].addr, t.prior(j - 1))),
        _ => false,
    }
}

/// A write to a site, and what became of the pages: those that it does not
/// reach are as they were, and where it went well those that it reaches have
/// the protection of the site.
pub open spec fn pages_written(s: SiteView, before: Pages, after: Pages, well: bool) -> bool {
    forall|p: int|
        #![trigger after(p)]
        if touches(s, p) {
            well ==> after(p) == s.protection
        } else {
            after(p) == before(p)
        }
}

/// An honest reply, as to the pages: what was asked is the protection of the
/// page, and only writes change it.
pub open spec fn honest_pages(
    t: TransactionView,
    m: Moment,
    reply: StageReplyView,
    after: Pages,
) -> bool {
    match (m.stage, reply) {
        (StageView::Query(i), StageReplyView::Protection(r)) => after == m.pages && (r matches Ok(
            p,
        ) ==> p == (m.pages)(page_of(t.sites[i].addr))),
        (StageView::Write(i), StageReplyView::Wrote(r)) => pages_written(
            t.sites[i],
            m.pages,
            after,
            r is Ok,
        ),
        (StageView::Undo(_, j, _, _), StageReplyView::Wrote(r)) => pages_written(
            t.sites[j - 1],
            m.pages,
            after,
            r is Ok,
        ),
        _ => after == m.pages,
    }
}

/// Moments of a transaction, each reached from the one before by an honest
/// reply.
pub open spec fn honest_run(t: TransactionView, ms: Seq<Moment>, rs: Seq<StageReplyView>) -> bool {
    &&& ms.len() == rs.len() + 1
    &&& ms[0].stage is Suspend
    &&& forall|i: int|
        #![trigger ms[i + 1]]
        0 <= i < rs.len() ==> honest(t, ms[i], rs[i], ms[i + 1].mem) && honest_pages(
            t,
            ms[i],
            rs[i],
            ms[i + 1].pages,
        ) && ms[i + 1].stage == t.step(ms[i].stage, rs[i])
}

/// The address lies in this site.
pub open spec fn in_site(s: SiteView, a: int) -> bool {
    s.addr <= a < s.addr + s.original.len()
}

/// The memories differ in the first `n` sites at most.
pub open spec fn differ_within(a: Memory, b: Memory, sites: Seq<SiteView>, n: int) -> bool {
    forall|i: int|
        #![trigger a(i)]
        #![trigger b(i)]
        a(i) != b(i) ==> exists|k: int| 0 <= k < n && in_site(#[trigger] sites[k], i)
}

/// Sites that make one patch: each replacement is as long as its original, and
/// where two sites overlap they want the same bytes, both ways.
pub open spec fn coherent(sites: Seq<SiteView>) -> bool {
    &&& forall|k: int|
        0 <= k < sites.len() ==> (#[trigger] sites[k]).original.len()
            == sites[k].replacement.len()
    &&& forall|k: int, l: int, a: int|
        #![trigger in_site(sites[k], a), in_site(sites[l], a)]
        0 <= k < sites.len() && 0 <= l < sites.len() && in_site(sites[k], a) && in_site(
            sites[l],
            a,
        ) ==> sites[k].original[a - sites[k].addr] == sites[l].original[a - sites[l].addr]
            && sites[k].replacement[a - sites[k].addr] == sites[l].replacement[a - sites[l].addr]
}

/// The first `n` sites hold what they held before.
pub open spec fn all_prior(t: TransactionView, mem: Memory, n: int) -> bool {
    forall|k: int|
        0 <= k < n ==> stands(mem, (#[trigger] t.sites[k]).addr, t.prior(k))
}

/// The first `n` sites hold what they are to hold.
pub open spec fn all_desired(t: TransactionView, mem: Memory, n: int) -> bool {
    forall|k: int|
        0 <= k < n ==> stands(mem, (#[trigger] t.sites[k]).addr, t.desired(k))
}

/// The memories are the same.
pub open spec fn same_memory(a: Memory, b: Memory) -> bool {
    forall|i: int| #[trigger] a(i) == b(i)
}

spec fn sound(t: TransactionView, first: Memory, m: Moment) -> bool {
    let n = t.sites.len() as int;
    &&& m.stage.wf(n)
    &&& match m.stage {
        StageView::Suspend => same_memory(m.mem, first),
        StageView::Look(i) => same_memory(m.mem, first) && all_prior(t, first, i),
        StageView::Query(i) => same_memory(m.mem, first) && all_prior(t, first, i + 1),
        StageView::Write(i) => all_prior(t, first, n) && all_desired(t, m.mem, i) && differ_within(
            m.mem,
            first,
            t.sites,
            i,
        ),
        StageView::Undo(i, j, _, faults) => all_prior(t, first, n) && differ_within(
            m.mem,
            first,
            t.sites,
            i + 1,
        ) && (faults.len() == 0 ==> differ_within(m.mem, first, t.sites, j)),
        StageView::Finished(end) => match end {
            EndView::Done => all_prior(t, first, n) && all_desired(t, m.mem, n) && differ_within(
                m.mem,
                first,
                t.sites,
                n,
            ),
            EndView::Refused(_) => same_memory(m.mem, first),
            EndView::RolledBack(_) => all_prior(t, first, n) && same_memory(m.mem, first),
            EndView::Broken(_) => all_prior(t, first, n) && differ_within(m.mem, first, t.sites, n),
        },
    }
}

proof fn write_keeps(
    t: TransactionView,
    first: Memory,
    m: Moment,
    i: int,
    r: Result<(), Seq<char>>,
    after: Memory,
)
    requires
        coherent(t.sites),
        sound(t, first, m),
        m.stage == StageView::Write(i),
        honest(t, m, StageReplyView::Wrote(r), after),
    ensures
        differ_within(after, first, t.sites, i + 1),
        r is Ok ==> all_desired(t, after, i + 1),
{
    assert(t.sites[i].original.len() == t.sites[i].replacement.len());
    assert forall|a: int|
        #![trigger after(a)]
        #![trigger first(a)]
        after(a) != first(a) implies exists|k: int|
        0 <= k < i + 1 && in_site(#[trigger] t.sites[k], a) by {
        if in_site(t.sites[i], a) {
        } else {
            assert(after(a) == (m.mem)(a));
            assert((m.mem)(a) != first(a));
            let k = choose|k: int| 0 <= k < i && in_site(#[trigger] t.sites[k], a);
            assert(in_site(t.sites[k], a));
        }
    }
    if r is Ok {
        assert forall|k: int| 0 <= k < i + 1 implies stands(
            after,
            (#[trigger] t.sites[k]).addr,
            t.desired(k),
        ) by {
            if k < i {
                let s = t.sites[k];
                let d = t.desired(k);
                assert forall|x: int| 0 <= x < d.len() implies after(s.addr + x)
                    == #[trigger] d[x] by {
                    let a = s.addr + x;
                    assert(stands(m.mem, s.addr, d));
                    assert(s.original.len() == s.replacement.len());
                    if in_site(t.sites[i], a) {
                        assert(in_site(s, a));
                        let y = a - t.sites[i].addr;
                        assert(after(t.sites[i].addr + y) == t.desired(i)[y]);
                    } else {
                        assert(after(a) == (m.mem)(a));
                    }
                }
            }
        }
    }
}

proof fn undo_keeps(
    t: TransactionView,
    first: Memory,
    m: Moment,
    i: int,
    j: int,
    error: Seq<char>,
    faults: Seq<Seq<char>>,
    r: Result<(), Seq<char>>,
    after: Memory,
)
    requires
        coherent(t.sites),
        sound(t, first, m),
        m.stage == StageView::Undo(i, j, error, faults),
        honest(t, m, StageReplyView::Wrote(r), after),
    ensures
        differ_within(after, first, t.sites, i + 1),
        faults.len() == 0 && r is Ok ==> differ_within(after, first, t.sites, j - 1),
{
    let s = t.sites[j - 1];
    assert(s.original.len() == s.replacement.len());
    assert forall|a: int|
        #![trigger after(a)]
        #![trigger first(a)]
        after(a) != first(a) implies exists|k: int|
        0 <= k < i + 1 && in_site(#[trigger] t.sites[k], a) by {
        if in_site(s, a) {
        } else {
            assert(after(a) == (m.mem)(a));
            let k = choose|k: int| 0 <= k < i + 1 && in_site(#[trigger] t.sites[k], a);
            assert(in_site(t.sites[k], a));
        }
    }
    if faults.len() == 0 && r is Ok {
        assert forall|a: int|
            #![trigger after(a)]
            #![trigger first(a)]
            after(a) != first(a) implies exists|k: int|
            0 <= k < j - 1 && in_site(#[trigger] t.sites[k], a) by {
            if in_site(s, a) {
                let y = a - s.addr;
                assert(stands(first, s.addr, t.prior(j - 1)));
                assert(first(s.addr + y) == t.prior(j - 1)[y]);
                assert(after(s.addr + y) == t.prior(j - 1)[y]);
            } else {
                assert(after(a) == (m.mem)(a));
                let k = choose|k: int| 0 <= k < j && in_site(#[trigger] t.sites[k], a);
                assert(in_site(t.sites[k], a));
            }
        }
    }
}

proof fn run_keeps(t: TransactionView, ms: Seq<Moment>, rs: Seq<StageReplyView>, n: int)
    requires
        coherent(t.sites),
        honest_run(t, ms, rs),
        0 <= n <= rs.len(),
    ensures
        sound(t, ms[0].mem, ms[n]),
    decreases n,
{
    if n > 0 {
        run_keeps(t, ms, rs, n - 1);
        assert(ms[n - 1 + 1] == ms[n]);
        let first = ms[0].mem;
        let b = ms[n - 1];
        let after = ms[n].mem;
        match (b.stage, rs[n - 1]) {
            (StageView::Look(i), StageReplyView::Read(r)) => {
                if r == Some(t.prior(i)) {
                    let s = t.sites[i];
                    let p = t.prior(i);
                    assert forall|x: int| 0 <= x < p.len() implies first(s.addr + x)
                        == #[trigger] p[x] by {
                        assert((b.mem)(s.addr + x) == first(s.addr + x));
                        assert(bytes_at(b.mem, s.addr, p.len())[x] == p[x]);
                    }
                    assert(stands(first, s.addr, p));
                }
            },
            (StageView::Write(i), StageReplyView::Wrote(r)) => {
                write_keeps(t, first, b, i, r, after);
            },
            (StageView::Undo(i, j, error, faults), StageReplyView::Wrote(r)) => {
                undo_keeps(t, first, b, i, j, error, faults, r, after);
            },
            _ => {},
        }
    }
}

/// The transaction is all or nothing. One that came to write, whether it is
/// done, was rolled back or broke, found every site as it was expected before
/// the first write. One that is done has left every site as it is to be. One
/// that was refused, or rolled back, has left every byte as it was. Whatever
/// came of it, no byte outside the sites has changed.
pub proof fn transaction_is_all_or_nothing(
    t: TransactionView,
    ms: Seq<Moment>,
    rs: Seq<StageReplyView>,
)
    requires
        coherent(t.sites),
        honest_run(t, ms, rs),
        ms.last().stage is Finished,
    ensures
        !(ms.last().stage->Finished_0 is Refused) ==> all_prior(
            t,
            ms[0].mem,
            t.sites.len() as int,
        ),
        ms.last().stage->Finished_0 is Done ==> all_desired(
            t,
            ms.last().mem,
            t.sites.len() as int,
        ),
        ms.last().stage->Finished_0 is Refused || ms.last().stage->Finished_0 is RolledBack
            ==> same_memory(ms.last().mem, ms[0].mem),
        differ_within(ms.last().mem, ms[0].mem, t.sites, t.sites.len() as int),
{
    run_keeps(t, ms, rs, rs.len() as int);
}

/// Each of the first `n` sites stands on a page of its recorded protection.
pub open spec fn all_protected(sites: Seq<SiteView>, pages: Pages, n: int) -> bool {
    forall|k: int|
        0 <= k < n ==> pages(page_of((#[trigger] sites[k]).addr)) == sites[k].protection
}

/// A site that runs over into the page on which another one begins has the
/// protection of that one.
pub open spec fn pages_agree(sites: Seq<SiteView>) -> bool {
    forall|k: int, l: int|
        #![trigger sites[k], sites[l]]
        0 <= k < sites.len() && 0 <= l < sites.len() && touches(sites[l], page_of(sites[k].addr))
            && page_of(sites[l].addr) != page_of(sites[k].addr) ==> sites[l].protection
            == sites[k].protection
}

/// The pages differ where a site is at most.
pub open spec fn pages_within(a: Pages, b: Pages, sites: Seq<SiteView>) -> bool {
    forall|p: int|
        #![trigger a(p)]
        a(p) != b(p) ==> exists|k: int| 0 <= k < sites.len() && touches(#[trigger] sites[k], p)
}

/// The page of every site has its protection, but for the pages that a write
/// to one of the first `j` sites has still to put back.
spec fn protected_but(sites: Seq<SiteView>, pages: Pages, j: int) -> bool {
    forall|k: int|
        0 <= k < sites.len() ==> pages(page_of((#[trigger] sites[k]).addr)) == sites[k].protection
            || exists|l: int| 0 <= l < j && touches(#[trigger] sites[l], page_of(sites[k].addr))
}

spec fn pages_sound(t: TransactionView, first: Pages, m: Moment) -> bool {
    let n = t.sites.len() as int;
    &&& m.stage.wf(n)
    &&& pages_within(m.pages, first, t.sites)
    &&& match m.stage {
        StageView::Suspend => m.pages == first,
        StageView::Look(i) => m.pages == first && all_protected(t.sites, first, i),
        StageView::Query(i) => m.pages == first && all_protected(t.sites, first, i),
        StageView::Write(_) => all_protected(t.sites, first, n) && all_protected(
            t.sites,
            m.pages,
            n,
        ),
        StageView::Undo(_, j, _, faults) => all_protected(t.sites, first, n) && (faults.len() == 0
            ==> protected_but(t.sites, m.pages, j)),
        StageView::Finished(end) => match end {
            EndView::Refused(_) => m.pages == first,
            EndView::Broken(_) => all_protected(t.sites, first, n),
            _ => all_protected(t.sites, first, n) && all_protected(t.sites, m.pages, n),
        },
    }
}

proof fn write_keeps_pages(
    sites: Seq<SiteView>,
    first: Pages,
    before: Pages,
    after: Pages,
    i: int,
    well: bool,
)
    requires
        pages_agree(sites),
        all_protected(sites, first, sites.len() as int),
        pages_within(before, first, sites),
        0 <= i < sites.len(),
        pages_written(sites[i], before, after, well),
    ensures
        pages_within(after, first, sites),
        all_protected(sites, before, sites.len() as int) ==> protected_but(sites, after, i + 1),
        well && all_protected(sites, before, sites.len() as int) ==> all_protected(
            sites,
            after,
            sites.len() as int,
        ),
        well && protected_but(sites, before, i + 1) ==> protected_but(sites, after, i),
{
    assert forall|p: int| #![trigger after(p)] after(p) != first(p) implies exists|k: int|
        0 <= k < sites.len() && touches(#[trigger] sites[k], p) by {
        if !touches(sites[i], p) {
            assert(after(p) == before(p));
        }
    }
    assert forall|k: int| 0 <= k < sites.len() && touches(sites[i], page_of(sites[k].addr))
        implies #[trigger] sites[k].protection == sites[i].protection by {
        if page_of(sites[i].addr) == page_of(sites[k].addr) {
            assert(first(page_of(sites[i].addr)) == sites[i].protection);
            assert(first(page_of(sites[k].addr)) == sites[k].protection);
        }
    }
}

proof fn run_keeps_pages(t: TransactionView, ms: Seq<Moment>, rs: Seq<StageReplyView>, n: int)
    requires
        pages_agree(t.sites),
        honest_run(t, ms, rs),
        0 <= n <= rs.len(),
    ensures
        pages_sound(t, ms[0].pages, ms[n]),
    decreases n,
{
    if n > 0 {
        run_keeps_pages(t, ms, rs, n - 1);
        assert(ms[n - 1 + 1] == ms[n]);
        let first = ms[0].pages;
        let b = ms[n - 1];
        let after = ms[n].pages;
        match (b.stage, rs[n - 1]) {
            (StageView::Write(i), StageReplyView::Wrote(r)) => {
                write_keeps_pages(t.sites, first, b.pages, after, i, r is Ok);
            },
            (StageView::Undo(_, j, _, _), StageReplyView::Wrote(r)) => {
                write_keeps_pages(t.sites, first, b.pages, after, j - 1, r is Ok);
            },
            _ => {},
        }
    }
}

/// The transaction keeps the protection of the pages. One that came to write
/// found every site on a page of its recorded protection before the first
/// write. One that is done, or rolled back, has left every site on a page of
/// that protection. One that was refused has changed no page. Whatever came of
/// it, no page that no site reaches has changed.
pub proof fn transaction_keeps_protections(
    t: TransactionView,
    ms: Seq<Moment>,
    rs: Seq<StageReplyView>,
)
    requires
        pages_agree(t.sites),
        honest_run(t, ms, rs),
        ms.last().stage is Finished,
    ensures
        !(ms.last().stage->Finished_0 is Refused) ==> all_protected(
            t.sites,
            ms[0].pages,
            t.sites.len() as int,
        ),
        ms.last().stage->Finished_0 is Done || ms.last().stage->Finished_0 is RolledBack
            ==> all_protected(t.sites, ms.last().pages, t.sites.len() as int),
        ms.last().stage->Finished_0 is Refused ==> ms.last().pages == ms[0].pages,
        pages_within(ms.last().pages, ms[0].pages, t.sites),
{
    run_keeps_pages(t, ms, rs, rs.len() as int);
}

/// Switching the patch on and off again, with nothing else in between, leaves
/// every byte as it was before.
pub proof fn on_and_off_is_nothing(
    sites: Seq<SiteView>,
    on: Seq<Moment>,
    on_replies: Seq<StageReplyView>,
    off: Seq<Moment>,
    off_replies: Seq<StageReplyView>,
)
    requires
        coherent(sites),
        honest_run(TransactionView { sites, enabled: true }, on, on_replies),
        on.last().stage == StageView::Finished(EndView::Done),
        honest_run(TransactionView { sites, enabled: false }, off, off_replies),
        off.last().stage == StageView::Finished(EndView::Done),
        off[0].mem == on.last().mem,
    ensures
        same_memory(off.last().mem, on[0].mem),
{
    let t1 = TransactionView { sites, enabled: true };
    let t2 = TransactionView { sites, enabled: false };
    run_keeps(t1, on, on_replies, on_replies.len() as int);
    run_keeps(t2, off, off_replies, off_replies.len() as int);
    let first = on[0].mem;
    let mid = off[0].mem;
    let last = off.last().mem;
    assert forall|a: int| #[trigger] last(a) == first(a) by {
        if exists|k: int| 0 <= k < sites.len() && in_site(#[trigger] sites[k], a) {
            let k = choose|k: int| 0 <= k < sites.len() && in_site(#[trigger] sites[k], a);
            let x = a - sites[k].addr;
            assert(stands(first, t1.sites[k].addr, t1.prior(k)));
            assert(stands(last, t2.sites[k].addr, t2.desired(k)));
            assert(first(sites[k].addr + x) == sites[k].original[x]);
            assert(last(sites[k].addr + x) == sites[k].original[x]);
        } else {
            assert(last(a) == mid(a));
            assert(mid(a) == first(a));
        }
    }
}

/// A site that was found in an image.
pub open spec fn lies_in(s: SiteView, code: Seq<u8>, base: int) -> bool {
    let at = s.addr - base;
    &&& 0 <= at
    &&& at + s.original.len() <= code.len()
    &&& s.original == code.subrange(at, at + s.original.len())
    &&& is_branch(s.original)
    &&& s.replacement == nops(s.original.len())
}

/// The sites that discovery finds lie in the image, are branches, and make one
/// patch.
pub proof fn found_sites_are_coherent(code: Seq<u8>, base: int, probes: Seq<ProbeView>)
    requires
        windows_sites(code, base, probes) is Ok,
    ensures
        windows_sites(code, base, probes)->Ok_0.len() == 2,
        forall|k: int|
            0 <= k < 2 ==> lies_in(
                #[trigger] windows_sites(code, base, probes)->Ok_0[k],
                code,
                base,
            ),
        coherent(windows_sites(code, base, probes)->Ok_0),
{
    reveal_with_fuel(sites_of, 3);
    let sites = windows_sites(code, base, probes)->Ok_0;
    assert forall|k: int| 0 <= k < 2 implies lies_in(#[trigger] sites[k], code, base) by {
        let s = windows_sigs()[k];
        assert(site_of(s, code, base, probes[k]) == Ok::<SiteView, Seq<char>>(
            sites[k],
        ));
        let p = sig_pattern(s)->0;
        matches_fit(p, code, code.len() as int);
        let ms = matches_of(p, code);
        assert(0 <= ms[0] && ms[0] + p.len() <= code.len());
    }
    assert forall|k: int, l: int, a: int|
        #![trigger in_site(sites[k], a), in_site(sites[l], a)]
        0 <= k < sites.len() && 0 <= l < sites.len() && in_site(sites[k], a) && in_site(
            sites[l],
            a,
        ) implies sites[k].original[a - sites[k].addr] == sites[l].original[a - sites[l].addr]
        && sites[k].replacement[a - sites[k].addr] == sites[l].replacement[a - sites[l].addr] by {
        assert(lies_in(sites[k], code, base) && lies_in(sites[l], code, base));
        assert(sites[k].original[a - sites[k].addr] == code[a - base]);
        assert(sites[l].original[a - sites[l].addr] == code[a - base]);
    }
}

/// A transaction goes through: every site is looked at and its page asked for,
/// in order, then every site is written in order, and that is the end.
pub proof fn a_transaction_goes_through(t: TransactionView, i: int)
    requires
        0 <= i < t.sites.len(),
    ensures
        t.step(StageView::Suspend, StageReplyView::Suspended(Ok(()))) == StageView::Look(0),
        t.step(StageView::Look(i), StageReplyView::Read(Some(t.prior(i)))) == StageView::Query(i),
        i + 1 < t.sites.len() ==> t.step(
            StageView::Query(i),
            StageReplyView::Protection(Ok(t.sites[i].protection)),
        ) == StageView::Look(i + 1),
        i + 1 == t.sites.len() ==> t.step(
            StageView::Query(i),
            StageReplyView::Protection(Ok(t.sites[i].protection)),
        ) == StageView::Write(0),
        i + 1 < t.sites.len() ==> t.step(StageView::Write(i), StageReplyView::Wrote(Ok(())))
            == StageView::Write(i + 1),
        i + 1 == t.sites.len() ==> t.step(StageView::Write(i), StageReplyView::Wrote(Ok(())))
            == StageView::Finished(EndView::Done),
        t.enabled ==> t.prior(i) == t.sites[i].original && t.desired(i) == t.sites[i].replacement,
        !t.enabled ==> t.prior(i) == t.sites[i].replacement && t.desired(i) == t.sites[i].original,
        i < 0x1_0000 ==> StageView::Look(i).action() == StageAction::Read(i as usize)
            && StageView::Query(i).action() == StageAction::Query(i as usize) && StageView::Write(
            i,
        ).action() == StageAction::Write(i as usize),
{
}

/// A transaction is refused before the first write where a site or its page is
/// not as expected; and where a write fails, that site and those before it are
/// taken back, from last to first.
pub proof fn a_transaction_is_taken_back(
    t: TransactionView,
    i: int,
    j: int,
    b: Option<Seq<u8>>,
    p: u32,
    e: Seq<char>,
)
    requires
        0 <= i < t.sites.len(),
        1 < j <= i + 1,
        b != Some(t.prior(i)),
        p != t.sites[i].protection,
    ensures
        t.step(StageView::Suspend, StageReplyView::Suspended(Err(e))) == StageView::Finished(
            EndView::Refused(e),
        ),
        t.step(StageView::Look(i), StageReplyView::Read(b)) matches StageView::Finished(
            EndView::Refused(_),
        ),
        t.step(StageView::Query(i), StageReplyView::Protection(Ok(p))) matches StageView::Finished(
            EndView::Refused(_),
        ),
        t.step(StageView::Write(i), StageReplyView::Wrote(Err(e))) == StageView::Undo(
            i,
            i + 1,
            e,
            Seq::empty(),
        ),
        t.step(StageView::Undo(i, j, e, Seq::empty()), StageReplyView::Wrote(Ok(())))
            == StageView::Undo(i, j - 1, e, Seq::empty()),
        t.step(StageView::Undo(i, 1, e, Seq::empty()), StageReplyView::Wrote(Ok(()))) matches
            StageView::Finished(EndView::RolledBack(_)),
        t.step(StageView::Undo(i, 1, e, Seq::empty()), StageReplyView::Wrote(Err(e))) matches
            StageView::Finished(EndView::Broken(_)),
        j < 0x1_0000 ==> StageView::Undo(i, j, e, Seq::empty()).action() == StageAction::Undo(
            (j - 1) as usize,
        ),
{
}

/// A write goes through: the page is made writable, the bytes written, the
/// cache flushed, the protection put back and the bytes read; and where each
/// goes well that is the end.
pub proof fn a_write_goes_through(w: WriteView, put: usize, old_protection: u32)
    requires
        w.data.len() > 0,
        put == w.data.len(),
    ensures
        w.start() == WritePhaseView::Unlock,
        w.action(WritePhaseView::Unlock) == WriteAction::Protect(0x40),
        w.step(WritePhaseView::Unlock, WriteReplyView::Protected(Ok(w.protection)))
            == WritePhaseView::Put,
        w.repair ==> w.step(WritePhaseView::Unlock, WriteReplyView::Protected(Ok(old_protection)))
            == WritePhaseView::Put,
        !w.repair && old_protection != w.protection ==> w.step(
            WritePhaseView::Unlock,
            WriteReplyView::Protected(Ok(old_protection)),
        ) == WritePhaseView::Refuse(old_protection),
        w.action(WritePhaseView::Refuse(old_protection)) == WriteAction::Protect(old_protection),
        w.action(WritePhaseView::Put) == WriteAction::Write,
        w.step(WritePhaseView::Put, WriteReplyView::Wrote(true, put, 0)) == WritePhaseView::Flush(
            Seq::empty(),
        ),
        w.step(WritePhaseView::Flush(Seq::empty()), WriteReplyView::Flushed(Ok(())))
            == WritePhaseView::Lock(Seq::empty()),
        w.action(WritePhaseView::Lock(Seq::empty())) == WriteAction::Protect(w.protection),
        w.step(
            WritePhaseView::Lock(Seq::empty()),
            WriteReplyView::Protected(Ok(old_protection)),
        ) == WritePhaseView::Check(Seq::empty()),
        w.step(WritePhaseView::Check(Seq::empty()), WriteReplyView::Read(Some(w.data)))
            == WritePhaseView::Finished(Ok::<(), Seq<char>>(())),
{
}

/// Whatever goes wrong in a write, the protection is still put back and the
/// bytes are still read; and it does not end well.
pub proof fn a_faulty_write_is_finished(
    w: WriteView,
    es: Seq<Seq<char>>,
    put: usize,
    code: u32,
    b: Option<Seq<u8>>,
)
    requires
        put != w.data.len(),
        es.len() > 0,
    ensures
        w.step(WritePhaseView::Put, WriteReplyView::Wrote(true, put, code)) matches
            WritePhaseView::Flush(faults) && faults.len() == 1,
        w.step(WritePhaseView::Put, WriteReplyView::Wrote(false, put, code)) matches
            WritePhaseView::Flush(faults) && faults.len() == 1,
        w.step(WritePhaseView::Flush(es), WriteReplyView::Flushed(Ok(())))
            == WritePhaseView::Lock(es),
        w.step(WritePhaseView::Flush(es), WriteReplyView::Flushed(Err(code))) matches
            WritePhaseView::Lock(faults) && faults.len() == es.len() + 1,
        w.step(WritePhaseView::Lock(es), WriteReplyView::Protected(Err(code))) matches
            WritePhaseView::Check(faults) && faults.len() == es.len() + 1,
        w.step(WritePhaseView::Check(es), WriteReplyView::Read(b)) matches
            WritePhaseView::Finished(Err(_)),
        b != Some(w.data) ==> (w.step(
            WritePhaseView::Check(Seq::empty()),
            WriteReplyView::Read(b),
        ) matches WritePhaseView::Finished(Err(_))),
{
}

} // verus!
