//! Stopping every other thread of a process before its code is rewritten.
//!
//! Threads come and go while the set is collected: the collection asks for the
//! list, opens and suspends each thread it does not hold yet, and is done only
//! when a fresh list holds no thread that still runs. The caller performs each
//! action and hands back what came of it.
use vstd::prelude::*;

use crate::text::{dec_text, push_dec, with_dec};

verus! {

pub const ERROR_ACCESS_DENIED: u32 = 5;

pub const ERROR_NO_MORE_FILES: u32 = 18;

pub const ERROR_INVALID_PARAMETER: u32 = 87;

/// How long a set of threads that cannot be suspended yet is tried again.
pub const RETRY_MILLIS: u64 = 2000;

/// How many lists are walked before the collection gives up.
pub const ROUNDS: usize = 16;

/// What a thread that could not be opened or suspended means.
#[derive(Clone, Copy, Debug, Eq, PartialEq, Structural)]
pub enum ThreadFailure {
    Gone,
    Retry,
    Fatal,
}

/// What a failure to open or suspend a thread means: a thread that ended is
/// skipped, a denied one is tried again, anything else ends the attempt.
pub open spec fn failure_of(error: u32, terminated: bool) -> ThreadFailure {
    if terminated || error == ERROR_INVALID_PARAMETER {
        ThreadFailure::Gone
    } else if error == ERROR_ACCESS_DENIED {
        ThreadFailure::Retry
    } else {
        ThreadFailure::Fatal
    }
}

/// What a failure to open or suspend a thread means.
pub fn classify_thread_failure(error: u32, terminated: bool) -> (r: ThreadFailure)
    ensures
        r == failure_of(error, terminated),
{
    if terminated || error == ERROR_INVALID_PARAMETER {
        ThreadFailure::Gone
    } else if error == ERROR_ACCESS_DENIED {
        ThreadFailure::Retry
    } else {
        ThreadFailure::Fatal
    }
}

/// A thread of the process, other than the excluded one, is in the snapshot.
pub open spec fn is_other_thread(
    entries: Seq<(u32, u32)>,
    process: u32,
    current: Option<u32>,
    tid: u32,
) -> bool {
    entries.contains((process, tid)) && current != Some(tid)
}

/// Strictly increasing order of thread ids.
pub open spec fn ids_in_order(s: Seq<u32>) -> bool {
    forall|i: int, j: int| 0 <= i < j < s.len() ==> s[i] < s[j]
}

/// Adds an id in order, once.
fn insert_id(v: &mut Vec<u32>, x: u32)
    requires
        ids_in_order(old(v)@),
    ensures
        ids_in_order(final(v)@),
        forall|y: u32| final(v)@.contains(y) <==> old(v)@.contains(y) || y == x,
{
    let mut i: usize = v.len();
    while i > 0 && v[i - 1] > x
        invariant
            i <= v@.len(),
            v@ == old(v)@,
            ids_in_order(v@),
            forall|j: int| i <= j < v@.len() ==> v@[j] > x,
        decreases i,
    {
        i = i - 1;
    }
    if i > 0 && v[i - 1] == x {
        assert(old(v)@[i - 1] == x);
        return;
    }
    v.insert(i, x);
    proof {
        let o = old(v)@;
        let n = v@;
        assert(n == o.insert(i as int, x));
        assert forall|y: u32| n.contains(y) <==> o.contains(y) || y == x by {
            if n.contains(y) {
                let k = choose|k: int| 0 <= k < n.len() && n[k] == y;
                if k < i {
                    assert(o[k] == y);
                } else if k > i {
                    assert(o[k - 1] == y);
                }
            }
            if o.contains(y) {
                let k = choose|k: int| 0 <= k < o.len() && o[k] == y;
                if k < i {
                    assert(n[k] == y);
                } else {
                    assert(n[k + 1] == y);
                }
            }
            if y == x {
                assert(n[i as int] == x);
            }
        }
    }
}

/// The process's threads out of a system snapshot, in order and each once.
/// `entries` are (owner process, thread) pairs up to the call that ended the
/// walk with `stop`; any end but the plain one is an error.
pub fn thread_ids(
    entries: &Vec<(u32, u32)>,
    stop: u32,
    process: u32,
    current: Option<u32>,
) -> (r: Result<Vec<u32>, String>)
    ensures
        match r {
            Ok(ids) => stop == ERROR_NO_MORE_FILES && ids_in_order(ids@) && forall|tid: u32|
                ids@.contains(tid) <==> is_other_thread(entries@, process, current, tid),
            Err(e) => stop != ERROR_NO_MORE_FILES && e@ == (if entries@.len() == 0 {
                "Thread32First failed ("@
            } else {
                "Thread32Next failed ("@
            }) + dec_text(stop as int) + ")"@,
        },
{
    if stop != ERROR_NO_MORE_FILES {
        if entries.len() == 0 {
            return Err(with_dec("Thread32First failed (", stop as u64, ")"));
        }
        return Err(with_dec("Thread32Next failed (", stop as u64, ")"));
    }
    let mut out: Vec<u32> = Vec::new();
    let mut i: usize = 0;
    while i < entries.len()
        invariant
            i <= entries@.len(),
            ids_in_order(out@),
            forall|tid: u32|
                out@.contains(tid) <==> is_other_thread(
                    entries@.take(i as int),
                    process,
                    current,
                    tid,
                ),
        decreases entries@.len() - i,
    {
        let (owner, tid): (u32, u32) = entries[i];
        let excluded: bool = match current {
            Some(c) => c == tid,
            None => false,
        };
        if owner == process && !excluded {
            insert_id(&mut out, tid);
        }
        proof {
            assert(entries@.take(i + 1) =~= entries@.take(i as int).push((owner, tid)));
            assert forall|t: u32|
                out@.contains(t) <==> is_other_thread(entries@.take(i + 1), process, current, t) by {
                vstd::seq_lib::lemma_seq_contains_after_push(
                    entries@.take(i as int),
                    (owner, tid),
                    (process, t),
                );
            }
        }
        i = i + 1;
    }
    assert(entries@.take(entries@.len() as int) =~= entries@);
    Ok(out)
}

/// Whose threads are stopped: those of the caller's own process, or those of
/// another one.
#[derive(Clone, Copy, Debug, Eq, PartialEq, Structural)]
pub enum Scope {
    Own,
    Remote,
}

/// Why an attempt to stop the threads ended.
pub enum SuspendError {
    /// It may be tried again.
    Retry(String),
    Fatal(String),
}

/// The value of a `SuspendError`.
pub enum SuspendFault {
    Retry(Seq<char>),
    Fatal(Seq<char>),
}

impl View for SuspendError {
    type V = SuspendFault;

    open spec fn view(&self) -> SuspendFault {
        match self {
            SuspendError::Retry(e) => SuspendFault::Retry(e@),
            SuspendError::Fatal(e) => SuspendFault::Fatal(e@),
        }
    }
}

/// What the collection waits for.
#[derive(Clone, Copy, Debug, Eq, PartialEq, Structural)]
pub enum SuspendAction {
    /// List the threads.
    List,
    /// Open this thread.
    Open(u32),
    /// Suspend this opened thread.
    Suspend(u32),
    /// Nothing: it is done.
    Done,
}

/// What came of an action.
pub enum SuspendReply {
    Listed(Result<Vec<u32>, String>),
    Opened,
    OpenFailed(u32),
    Suspended,
    /// The error, and whether the thread has ended.
    SuspendFailed(u32, bool),
}

/// Where a collection stands.
#[derive(Clone, Copy, Debug, Eq, PartialEq, Structural)]
pub enum SuspendPhase {
    /// A list is wanted whose threads will be stopped.
    Listing,
    /// The queued thread at this index is next.
    Visiting,
    /// The queued thread at this index is open.
    Opened,
    /// A list is wanted that shows whether any thread still runs.
    Checking,
    Stopped,
    Failed,
}

/// A collection of stopped threads.
pub struct Suspension {
    scope: Scope,
    phase: SuspendPhase,
    round: usize,
    queue: Vec<u32>,
    at: usize,
    held: Vec<u32>,
    error: Option<SuspendError>,
}

/// The value of a `Suspension`.
#[verifier::ext_equal]
pub struct SuspensionView {
    pub scope: Scope,
    pub phase: SuspendPhase,
    pub round: int,
    pub queue: Seq<u32>,
    pub at: int,
    pub held: Seq<u32>,
    pub error: Option<SuspendFault>,
}

impl View for Suspension {
    type V = SuspensionView;

    closed spec fn view(&self) -> SuspensionView {
        SuspensionView {
            scope: self.scope,
            phase: self.phase,
            round: self.round as int,
            queue: self.queue@,
            at: self.at as int,
            held: self.held@,
            error: match self.error {
                Some(e) => Some(e@),
                None => None,
            },
        }
    }
}

/// The value of a reply.
pub enum ReplyView {
    Listed(Result<Seq<u32>, Seq<char>>),
    Opened,
    OpenFailed(u32),
    Suspended,
    SuspendFailed(u32, bool),
}

impl View for SuspendReply {
    type V = ReplyView;

    open spec fn view(&self) -> ReplyView {
        match self {
            SuspendReply::Listed(Ok(ids)) => ReplyView::Listed(Ok(ids@)),
            SuspendReply::Listed(Err(e)) => ReplyView::Listed(Err(e@)),
            SuspendReply::Opened => ReplyView::Opened,
            SuspendReply::OpenFailed(e) => ReplyView::OpenFailed(*e),
            SuspendReply::Suspended => ReplyView::Suspended,
            SuspendReply::SuspendFailed(e, t) => ReplyView::SuspendFailed(*e, *t),
        }
    }
}

/// How a failure to open or suspend a thread counts: another process's thread
/// is skipped only if it is plainly gone, and never tried again.
pub open spec fn scoped_failure(scope: Scope, error: u32, terminated: bool) -> ThreadFailure {
    match scope {
        Scope::Own => failure_of(error, terminated),
        Scope::Remote => if error == ERROR_INVALID_PARAMETER {
            ThreadFailure::Gone
        } else {
            ThreadFailure::Fatal
        },
    }
}

/// What to say of a set of threads that never stood still.
pub open spec fn churn_text(scope: Scope) -> Seq<char> {
    match scope {
        Scope::Own => "process kept creating threads while entering patch stop"@,
        Scope::Remote => "target kept creating threads while entering patch stop"@,
    }
}

/// Index of the first queued thread from `at` on that is not held yet.
pub open spec fn next_unheld(queue: Seq<u32>, held: Seq<u32>, at: int) -> int
    decreases queue.len() - at,
{
    if at < 0 || at >= queue.len() || !held.contains(queue[at]) {
        at
    } else {
        next_unheld(queue, held, at + 1)
    }
}

impl SuspensionView {
    /// Before the first list.
    pub open spec fn start(scope: Scope) -> SuspensionView {
        SuspensionView {
            scope,
            phase: SuspendPhase::Listing,
            round: 0,
            queue: Seq::empty(),
            at: 0,
            held: Seq::empty(),
            error: None,
        }
    }

    /// What it waits for.
    pub open spec fn action(self) -> SuspendAction {
        match self.phase {
            SuspendPhase::Listing => SuspendAction::List,
            SuspendPhase::Checking => SuspendAction::List,
            SuspendPhase::Visiting => SuspendAction::Open(self.queue[self.at]),
            SuspendPhase::Opened => SuspendAction::Suspend(self.queue[self.at]),
            SuspendPhase::Stopped => SuspendAction::Done,
            SuspendPhase::Failed => SuspendAction::Done,
        }
    }

    /// Ended by an error.
    pub open spec fn fail(self, error: SuspendFault) -> SuspensionView {
        SuspensionView { phase: SuspendPhase::Failed, error: Some(error), ..self }
    }

    /// At the first thread of the queue, from `at` on, that is not held; at
    /// the check once there is none.
    pub open spec fn visit(self, at: int) -> SuspensionView {
        let k = next_unheld(self.queue, self.held, at);
        SuspensionView {
            phase: if k < self.queue.len() {
                SuspendPhase::Visiting
            } else {
                SuspendPhase::Checking
            },
            at: k,
            ..self
        }
    }

    /// After a thread could not be opened or suspended.
    pub open spec fn lose(self, verb: Seq<char>, error: u32, terminated: bool) -> SuspensionView {
        let text = verb + dec_text(self.queue[self.at] as int) + ") failed ("@ + dec_text(
            error as int,
        ) + ")"@;
        match scoped_failure(self.scope, error, terminated) {
            ThreadFailure::Gone => self.visit(self.at + 1),
            ThreadFailure::Retry => self.fail(SuspendFault::Retry(text)),
            ThreadFailure::Fatal => self.fail(SuspendFault::Fatal(text)),
        }
    }

    /// After a reply. A reply that was not waited for changes nothing.
    pub open spec fn step(self, reply: ReplyView) -> SuspensionView {
        match (self.phase, reply) {
            (SuspendPhase::Listing, ReplyView::Listed(Ok(ids))) => SuspensionView {
                queue: ids,
                ..self
            }.visit(0),
            (SuspendPhase::Listing, ReplyView::Listed(Err(e))) => self.fail(
                SuspendFault::Fatal(e),
            ),
            (SuspendPhase::Visiting, ReplyView::Opened) => SuspensionView {
                phase: SuspendPhase::Opened,
                ..self
            },
            (SuspendPhase::Visiting, ReplyView::OpenFailed(error)) => self.lose(
                "OpenThread("@,
                error,
                false,
            ),
            (SuspendPhase::Opened, ReplyView::Suspended) => SuspensionView {
                held: self.held.push(self.queue[self.at]),
                ..self
            }.visit(self.at + 1),
            (SuspendPhase::Opened, ReplyView::SuspendFailed(error, terminated)) => self.lose(
                "SuspendThread("@,
                error,
                terminated,
            ),
            (SuspendPhase::Checking, ReplyView::Listed(Ok(ids))) => if all_held(ids, self.held) {
                SuspensionView { phase: SuspendPhase::Stopped, ..self }
            } else if self.round + 1 < ROUNDS {
                SuspensionView { phase: SuspendPhase::Listing, round: self.round + 1, ..self }
            } else {
                self.fail(SuspendFault::Retry(churn_text(self.scope)))
            },
            (SuspendPhase::Checking, ReplyView::Listed(Err(e))) => self.fail(
                SuspendFault::Fatal(e),
            ),
            _ => self,
        }
    }

    /// After a run of replies.
    pub open spec fn run(self, replies: Seq<ReplyView>) -> SuspensionView
        decreases replies.len(),
    {
        if replies.len() == 0 {
            self
        } else {
            self.run(replies.drop_last()).step(replies.last())
        }
    }

    /// A thread that is visited is in the queue.
    pub open spec fn wf(self) -> bool {
        &&& 0 <= self.round < ROUNDS
        &&& self.phase == SuspendPhase::Visiting || self.phase == SuspendPhase::Opened ==> 0
            <= self.at < self.queue.len()
    }
}

/// Every listed thread is held.
pub open spec fn all_held(ids: Seq<u32>, held: Seq<u32>) -> bool {
    forall|i: int| 0 <= i < ids.len() ==> held.contains(#[trigger] ids[i])
}

/// Whether an id is in a list.
fn has_id(v: &Vec<u32>, x: u32) -> (r: bool)
    ensures
        r == v@.contains(x),
{
    let mut i: usize = 0;
    while i < v.len()
        invariant
            i <= v@.len(),
            forall|j: int| 0 <= j < i ==> v@[j] != x,
        decreases v@.len() - i,
    {
        if v[i] == x {
            return true;
        }
        i = i + 1;
    }
    false
}

proof fn next_unheld_bound(queue: Seq<u32>, held: Seq<u32>, at: int)
    requires
        0 <= at <= queue.len(),
    ensures
        at <= next_unheld(queue, held, at) <= queue.len(),
    decreases queue.len() - at,
{
    if at < queue.len() && held.contains(queue[at]) {
        next_unheld_bound(queue, held, at + 1);
    }
}

impl Suspension {
    #[verifier::type_invariant]
    spec fn inv(self) -> bool {
        self@.wf() && self.at <= self.queue@.len()
    }

    /// Starts a collection.
    pub fn start(scope: Scope) -> (r: Suspension)
        ensures
            r@ == SuspensionView::start(scope),
    {
        let r: Suspension = Suspension {
            scope,
            phase: SuspendPhase::Listing,
            round: 0,
            queue: Vec::new(),
            at: 0,
            held: Vec::new(),
            error: None,
        };
        assert(r@ =~= SuspensionView::start(scope));
        r
    }

    /// What it waits for.
    pub fn action(&self) -> (r: SuspendAction)
        ensures
            r == self@.action(),
    {
        proof {
            use_type_invariant(self);
        }
        match self.phase {
            SuspendPhase::Listing => SuspendAction::List,
            SuspendPhase::Checking => SuspendAction::List,
            SuspendPhase::Visiting => SuspendAction::Open(self.queue[self.at]),
            SuspendPhase::Opened => SuspendAction::Suspend(self.queue[self.at]),
            SuspendPhase::Stopped => SuspendAction::Done,
            SuspendPhase::Failed => SuspendAction::Done,
        }
    }

    /// How it ended: the threads it stopped, or why it failed. `None` while it
    /// runs.
    pub fn outcome(self) -> (r: Option<Result<Vec<u32>, SuspendError>>)
        ensures
            match r {
                Some(Ok(held)) => self@.phase == SuspendPhase::Stopped && held@ == self@.held,
                Some(Err(e)) => self@.phase == SuspendPhase::Failed && self@.error == Some(e@),
                None => self@.phase != SuspendPhase::Stopped && (self@.phase
                    != SuspendPhase::Failed || self@.error is None),
            },
    {
        let phase: SuspendPhase = self.phase;
        match phase {
            SuspendPhase::Stopped => Some(Ok(self.held)),
            SuspendPhase::Failed => match self.error {
                Some(e) => Some(Err(e)),
                None => None,
            },
            _ => None,
        }
    }

    /// Moves to the first thread of the queue, from `at` on, that is not held.
    fn visit(&mut self, at: usize)
        requires
            at <= old(self)@.queue.len(),
        ensures
            final(self)@ == old(self)@.visit(at as int),
    {
        let mut k: usize = at;
        proof {
            use_type_invariant(&*self);
        }
        while k < self.queue.len() && has_id(&self.held, self.queue[k])
            invariant
                at <= k <= self.queue@.len(),
                *self == *old(self),
                next_unheld(self.queue@, self.held@, at as int) == next_unheld(
                    self.queue@,
                    self.held@,
                    k as int,
                ),
            decreases self.queue@.len() - k,
        {
            k = k + 1;
        }
        let phase: SuspendPhase = if k < self.queue.len() {
            SuspendPhase::Visiting
        } else {
            SuspendPhase::Checking
        };
        self.phase = SuspendPhase::Checking;
        self.at = k;
        self.phase = phase;
        assert(self@ =~= old(self)@.visit(at as int));
    }

    /// Ends by an error.
    fn fail(&mut self, error: SuspendError)
        ensures
            final(self)@ == old(self)@.fail(error@),
    {
        proof {
            use_type_invariant(&*self);
        }
        self.phase = SuspendPhase::Failed;
        self.error = Some(error);
        assert(self@ =~= old(self)@.fail(error@));
    }

    /// A thread could not be opened or suspended.
    fn lose(&mut self, verb: &str, error: u32, terminated: bool)
        requires
            old(self)@.phase == SuspendPhase::Visiting || old(self)@.phase == SuspendPhase::Opened,
        ensures
            final(self)@ == old(self)@.lose(verb@, error, terminated),
    {
        proof {
            use_type_invariant(&*self);
        }
        let kind: ThreadFailure = match self.scope {
            Scope::Own => classify_thread_failure(error, terminated),
            Scope::Remote => if error == ERROR_INVALID_PARAMETER {
                ThreadFailure::Gone
            } else {
                ThreadFailure::Fatal
            },
        };
        let mut text: String = with_dec(verb, self.queue[self.at] as u64, ") failed (");
        push_dec(&mut text, error as u64);
        text.append(")");
        assert(self.at < self.queue.len());
        let next: usize = self.at + 1;
        match kind {
            ThreadFailure::Gone => self.visit(next),
            ThreadFailure::Retry => self.fail(SuspendError::Retry(text)),
            ThreadFailure::Fatal => self.fail(SuspendError::Fatal(text)),
        }
    }

    /// Takes a reply. One that was not waited for changes nothing.
    pub fn step(&mut self, reply: SuspendReply)
        ensures
            final(self)@ == old(self)@.step(reply@),
    {
        proof {
            use_type_invariant(&*self);
        }
        match self.phase {
            SuspendPhase::Listing => match reply {
                SuspendReply::Listed(Ok(ids)) => {
                    self.at = 0;
                    self.queue = ids;
                    let ghost mid = self@;
                    self.visit(0);
                    assert(mid.visit(0) =~= (SuspensionView {
                        queue: ids@,
                        ..old(self)@
                    }).visit(0));
                },
                SuspendReply::Listed(Err(e)) => {
                    self.fail(SuspendError::Fatal(e));
                },
                _ => {},
            },
            SuspendPhase::Visiting => match reply {
                SuspendReply::Opened => {
                    self.phase = SuspendPhase::Opened;
                    assert(self@ =~= old(self)@.step(reply@));
                },
                SuspendReply::OpenFailed(error) => {
                    self.lose("OpenThread(", error, false);
                },
                _ => {},
            },
            SuspendPhase::Opened => match reply {
                SuspendReply::Suspended => {
                    assert(self.at < self.queue.len());
                    let next: usize = self.at + 1;
                    let tid: u32 = self.queue[self.at];
                    let mut held: Vec<u32> = vstd::slice::slice_to_vec(self.held.as_slice());
                    held.push(tid);
                    self.held = held;
                    self.visit(next);
                    assert(self@ =~= old(self)@.step(reply@));
                },
                SuspendReply::SuspendFailed(error, terminated) => {
                    self.lose("SuspendThread(", error, terminated);
                },
                _ => {},
            },
            SuspendPhase::Checking => match reply {
                SuspendReply::Listed(Ok(ids)) => {
                    let mut i: usize = 0;
                    while i < ids.len() && has_id(&self.held, ids[i])
                        invariant
                            i <= ids@.len(),
                            forall|j: int|
                                0 <= j < i ==> self.held@.contains(#[trigger] ids@[j]),
                        decreases ids@.len() - i,
                    {
                        i = i + 1;
                    }
                    assert((i == ids@.len()) == all_held(ids@, self.held@));
                    if i == ids.len() {
                        self.phase = SuspendPhase::Stopped;
                        assert(self@ =~= old(self)@.step(reply@));
                    } else if self.round + 1 < ROUNDS {
                        self.round = self.round + 1;
                        self.phase = SuspendPhase::Listing;
                        assert(self@ =~= old(self)@.step(reply@));
                    } else {
                        let text: String = match self.scope {
                            Scope::Own =>
                                "process kept creating threads while entering patch stop".to_owned(),
                            Scope::Remote =>
                                "target kept creating threads while entering patch stop".to_owned(),
                        };
                        self.fail(SuspendError::Retry(text));
                    }
                },
                SuspendReply::Listed(Err(e)) => {
                    self.fail(SuspendError::Fatal(e));
                },
                _ => {},
            },
            SuspendPhase::Stopped => {},
            SuspendPhase::Failed => {},
        }
    }
}

/// A collection is done only when a fresh list holds no running thread: if a
/// reply makes it `Stopped`, that reply listed held threads only.
pub proof fn stopped_means_all_held(s: SuspensionView, reply: ReplyView)
    requires
        s.phase != SuspendPhase::Stopped,
        s.step(reply).phase == SuspendPhase::Stopped,
    ensures
        reply matches ReplyView::Listed(Ok(ids)) && all_held(ids, s.step(reply).held),
        s.step(reply).held == s.held,
{
}

/// A collection holds a thread only after a reply that this very thread was
/// suspended.
pub proof fn held_were_suspended(s: SuspensionView, reply: ReplyView)
    ensures
        s.step(reply).held == s.held || (reply == ReplyView::Suspended && s.action()
            == SuspendAction::Suspend(s.queue[s.at]) && s.step(reply).held == s.held.push(
            s.queue[s.at],
        )),
{
}

/// What becomes of an attempt to stop the threads of the own process.
pub enum Retry {
    /// Wait a millisecond and try again.
    Again,
    GiveUp(String),
}

/// Whether an attempt that failed is made again: only while the time for it
/// has not run out, and only if it may succeed.
pub fn after_failure(error: SuspendError, elapsed_millis: u64) -> (r: Retry)
    ensures
        match (error@, r) {
            (SuspendFault::Fatal(e), Retry::GiveUp(text)) => text@ == e,
            (SuspendFault::Fatal(_), Retry::Again) => false,
            (SuspendFault::Retry(_), Retry::Again) => elapsed_millis < RETRY_MILLIS,
            (SuspendFault::Retry(e), Retry::GiveUp(text)) => elapsed_millis >= RETRY_MILLIS
                && text@ == e + "; thread set did not become suspendable within "@ + dec_text(
                RETRY_MILLIS as int,
            ) + " ms"@,
        },
{
    match error {
        SuspendError::Fatal(e) => Retry::GiveUp(e),
        SuspendError::Retry(e) => {
            if elapsed_millis < RETRY_MILLIS {
                Retry::Again
            } else {
                let mut text: String = e;
                text.append("; thread set did not become suspendable within ");
                push_dec(&mut text, RETRY_MILLIS);
                text.append(" ms");
                Retry::GiveUp(text)
            }
        },
    }
}

/// The next thread is the first from there on that is not held, and none is
/// passed over.
pub proof fn no_thread_is_passed_over(queue: Seq<u32>, held: Seq<u32>, at: int)
    requires
        0 <= at <= queue.len(),
    ensures
        at <= next_unheld(queue, held, at) <= queue.len(),
        next_unheld(queue, held, at) < queue.len() ==> !held.contains(
            queue[next_unheld(queue, held, at)],
        ),
        forall|j: int|
            at <= j < next_unheld(queue, held, at) ==> held.contains(#[trigger] queue[j]),
    decreases queue.len() - at,
{
    if at < queue.len() && held.contains(queue[at]) {
        no_thread_is_passed_over(queue, held, at + 1);
    }
}

/// Every listed thread is stopped: the next that is not held is opened, then
/// suspended and held, and then the next one; once none is left a fresh list is
/// asked for, and where that holds no other the threads are stopped.
pub proof fn threads_get_stopped(s: SuspensionView, ids: Seq<u32>)
    requires
        0 <= s.at < s.queue.len(),
    ensures
        ({
            let first = next_unheld(ids, s.held, 0);
            let listed = (SuspensionView { phase: SuspendPhase::Listing, ..s }).step(
                ReplyView::Listed(Ok(ids)),
            );
            &&& listed.queue == ids
            &&& listed.held == s.held
            &&& first < ids.len() ==> listed.phase == SuspendPhase::Visiting && listed.action()
                == SuspendAction::Open(ids[first])
            &&& first >= ids.len() ==> listed.phase == SuspendPhase::Checking
        }),
        (SuspensionView { phase: SuspendPhase::Visiting, ..s }).step(ReplyView::Opened) == (
        SuspensionView { phase: SuspendPhase::Opened, ..s }),
        (SuspensionView { phase: SuspendPhase::Opened, ..s }).action() == SuspendAction::Suspend(
            s.queue[s.at],
        ),
        ({
            let more = s.held.push(s.queue[s.at]);
            let k = next_unheld(s.queue, more, s.at + 1);
            let held = (SuspensionView { phase: SuspendPhase::Opened, ..s }).step(
                ReplyView::Suspended,
            );
            &&& held.held == more
            &&& held.queue == s.queue
            &&& k < s.queue.len() ==> held.phase == SuspendPhase::Visiting && held.action()
                == SuspendAction::Open(s.queue[k])
            &&& k >= s.queue.len() ==> held.phase == SuspendPhase::Checking
        }),
        (forall|i: int| 0 <= i < ids.len() ==> s.held.contains(#[trigger] ids[i])) ==> (
        SuspensionView { phase: SuspendPhase::Checking, ..s }).step(
            ReplyView::Listed(Ok(ids)),
        ).phase == SuspendPhase::Stopped,
{
}

/// New threads have another round made, sixteen at most; then it may be tried
/// again.
pub proof fn new_threads_have_another_round(s: SuspensionView, ids: Seq<u32>, i: int)
    requires
        0 <= i < ids.len(),
        !s.held.contains(ids[i]),
    ensures
        s.round < 15 ==> (SuspensionView { phase: SuspendPhase::Checking, ..s }).step(
            ReplyView::Listed(Ok(ids)),
        ) == (SuspensionView { phase: SuspendPhase::Listing, round: s.round + 1, ..s }),
        s.round >= 15 ==> (SuspensionView { phase: SuspendPhase::Checking, ..s }).step(
            ReplyView::Listed(Ok(ids)),
        ).error matches Some(SuspendFault::Retry(_)),
{
}

/// A thread that has ended is passed over; one that is protected may be tried
/// again, but in another process; anything else is final.
pub proof fn failures_are_told_apart(error: u32, terminated: bool)
    ensures
        scoped_failure(Scope::Own, error, true) == ThreadFailure::Gone,
        scoped_failure(Scope::Own, 87, terminated) == ThreadFailure::Gone,
        scoped_failure(Scope::Remote, 87, terminated) == ThreadFailure::Gone,
        scoped_failure(Scope::Own, 5, false) == ThreadFailure::Retry,
        scoped_failure(Scope::Remote, 5, terminated) == ThreadFailure::Fatal,
        error != 5 && error != 87 ==> scoped_failure(Scope::Own, error, false)
            == ThreadFailure::Fatal,
        error != 87 ==> scoped_failure(Scope::Remote, error, terminated) == ThreadFailure::Fatal,
{
}

/// Every thread of the process is to be stopped, but for the caller's own, and
/// none of another process.
pub proof fn other_threads_are_told(
    entries: Seq<(u32, u32)>,
    process: u32,
    current: u32,
    owner: u32,
    tid: u32,
    i: int,
)
    requires
        0 <= i < entries.len(),
        entries[i] == (owner, tid),
    ensures
        owner == process && tid != current ==> is_other_thread(
            entries,
            process,
            Some(current),
            tid,
        ),
        owner == process ==> is_other_thread(entries, process, None, tid),
        !is_other_thread(entries, process, Some(current), current),
{
    assert(entries.contains(entries[i]));
}

/// Stopping is tried for two seconds, and a snapshot ends with its own error.
pub proof fn stopping_is_tried_for_two_seconds()
    ensures
        RETRY_MILLIS == 2000,
        ERROR_NO_MORE_FILES == 18,
{
}

} // verus!
