//! The controller's side of a hook session: reading the worker's log, waiting
//! for it to become ready, and taking the hook out of the game again.
//!
//! The hook library is unloaded only when the worker has said that nothing in
//! the process points into it any more. In every other case it stays, and the
//! game has to be restarted.
use vstd::prelude::*;

use crate::control::{
    readable, slot_len, slot_of, ControlBlock, LogLevel, LOG_SLOTS, MAGIC, STATE_FAILED,
    STATE_READY, STATE_STOPPED, VERSION,
};
use crate::text::{dec_text, outcome_view, push_dec, with_dec};

verus! {

/// A block that belongs to this version of the hook.
pub fn is_our_block(block: &ControlBlock) -> (r: bool)
    ensures
        r == (block.magic == MAGIC && block.version == VERSION),
{
    block.magic == MAGIC && block.version == VERSION
}

/// Whether the worker is to stop: it was told to, or the controller is gone.
pub fn should_stop(block: &ControlBlock, controller_gone: bool) -> (r: bool)
    ensures
        r == (block.stop != 0 || controller_gone),
{
    block.stop != 0 || controller_gone
}

/// The name of the block that belongs to a game process.
pub fn block_name(pid: u32) -> (r: String)
    ensures
        r@ == "Local\\bunnyhopfix-"@ + dec_text(pid as int),
{
    let mut out: String = "Local\\bunnyhopfix-".to_owned();
    push_dec(&mut out, pid as u64);
    out
}

/// The first record to read: records that the ring no longer holds are
/// skipped.
pub open spec fn flush_start(next: int, latest: int) -> int {
    if latest - next >= LOG_SLOTS {
        latest - LOG_SLOTS + 1
    } else {
        next
    }
}

/// The records that can be read, from one sequence number to before another.
pub open spec fn delivered(b: ControlBlock, from: int, to: int) -> Seq<(LogLevel, Seq<u8>)>
    decreases to - from,
{
    if to <= from {
        Seq::empty()
    } else {
        let before = delivered(b, from, to - 1);
        let sequence = (to - 1) as u32;
        if readable(b, sequence) {
            let slot = b.logs@[slot_of(sequence)];
            before.push((LogLevel::of_code(slot.level)->0, slot.data@.take(slot_len(slot))))
        } else {
            before
        }
    }
}

/// Records as values.
pub open spec fn record_views(v: Seq<(LogLevel, Vec<u8>)>) -> Seq<(LogLevel, Seq<u8>)> {
    Seq::new(v.len(), |i: int| (v[i].0, v[i].1@))
}

/// Reads the records from `next` on, and moves `next` behind them. Gives how
/// many were overrun, if any, and the records.
pub fn flush_logs(block: &ControlBlock, next: &mut u32) -> (r: (
    Option<u32>,
    Vec<(LogLevel, Vec<u8>)>,
))
    requires
        block.log_write < u32::MAX,
    ensures
        ({
            let latest = block.log_write as int;
            let start = flush_start(*old(next) as int, latest);
            &&& r.0 == if start > *old(next) {
                Some((start - *old(next)) as u32)
            } else {
                None
            }
            &&& record_views(r.1@) == delivered(*block, start, latest + 1)
            &&& *final(next) == if start <= latest {
                latest + 1
            } else {
                start
            }
        }),
{
    let latest: u32 = block.latest_log_sequence();
    let mut dropped: Option<u32> = None;
    if latest >= *next && latest - *next >= LOG_SLOTS as u32 {
        let oldest: u32 = latest - LOG_SLOTS as u32 + 1;
        dropped = Some(oldest - *next);
        *next = oldest;
    }
    let ghost start = *next;
    let mut out: Vec<(LogLevel, Vec<u8>)> = Vec::new();
    assert(record_views(out@) =~= Seq::empty());
    while *next <= latest
        invariant
            latest == block.log_write,
            latest < u32::MAX,
            start <= *next,
            *next <= latest + 1 || *next == start,
            record_views(out@) == delivered(*block, start as int, *next as int),
        decreases latest + 1 - *next,
    {
        let ghost before = record_views(out@);
        let mut bytes: [u8; 240] = [0u8;240];
        match block.read_log(*next, &mut bytes) {
            Some((level, len)) => {
                let text: &[u8] = vstd::slice::slice_subrange(
                    vstd::array::array_as_slice(&bytes),
                    0,
                    len,
                );
                assert(text@ =~= bytes@.take(len as int));
                let copy: Vec<u8> = vstd::slice::slice_to_vec(text);
                out.push((level, copy));
                assert(record_views(out@) =~= before.push((level, copy@)));
            },
            None => {},
        }
        *next = *next + 1;
    }
    (dropped, out)
}

/// What waiting for a thread means. `wait` is the system's code, `exit` the
/// thread's exit code or the error of asking for it, `error` the error of
/// waiting.
pub open spec fn waited(wait: u32, exit: Result<u32, u32>, error: u32) -> Result<u32, Seq<char>> {
    if wait == WAIT_OBJECT {
        match exit {
            Ok(code) => Ok(code),
            Err(e) => Err("GetExitCodeThread failed ("@ + dec_text(e as int) + ")"@),
        }
    } else if wait == WAIT_TIMEOUT {
        Err("remote thread timed out"@)
    } else {
        Err("WaitForSingleObject failed ("@ + dec_text(error as int) + ")"@)
    }
}

/// The thread has ended.
pub const WAIT_OBJECT: u32 = 0;

/// It has not.
pub const WAIT_TIMEOUT: u32 = 258;

/// A code or an error, as a value.
pub open spec fn code_view(r: Result<u32, String>) -> Result<u32, Seq<char>> {
    match r {
        Ok(c) => Ok(c),
        Err(e) => Err(e@),
    }
}

/// What waiting for a thread means.
pub fn wait_thread(wait: u32, exit: Result<u32, u32>, error: u32) -> (r: Result<u32, String>)
    ensures
        code_view(r) == waited(wait, exit, error),
{
    if wait == WAIT_OBJECT {
        match exit {
            Ok(code) => Ok(code),
            Err(e) => Err(with_dec("GetExitCodeThread failed (", e as u64, ")")),
        }
    } else if wait == WAIT_TIMEOUT {
        Err("remote thread timed out".to_owned())
    } else {
        Err(with_dec("WaitForSingleObject failed (", error as u64, ")"))
    }
}

/// How often the worker is asked whether it is ready.
pub const READY_ROUNDS: u32 = 3_000;

/// Where a session stands.
pub enum SessionPhase {
    /// The worker's state is wanted, after so many rounds.
    State(u32),
    /// Whether the worker has ended is wanted.
    Alive(u32),
    /// A pause is due.
    Pause(u32),
    Ready,
    /// Startup failed so: the worker is told to stop and waited for.
    Failing(String),
    /// Startup failed so: the library is to be unloaded.
    Unloading(String),
    /// Startup failed; whether the library is gone.
    Failed(String, bool),
    /// Shutting down: the worker is told to stop and waited for.
    Stopping,
    /// Shutting down: the library is to be unloaded.
    Freeing,
    /// Shut down, or not.
    Finished(Result<(), String>),
}

/// The value of a `SessionPhase`.
pub enum SessionView {
    State(int),
    Alive(int),
    Pause(int),
    Ready,
    Failing(Seq<char>),
    Unloading(Seq<char>),
    Failed(Seq<char>, bool),
    Stopping,
    Freeing,
    Finished(Result<(), Seq<char>>),
}

impl View for SessionPhase {
    type V = SessionView;

    open spec fn view(&self) -> SessionView {
        match self {
            SessionPhase::State(n) => SessionView::State(*n as int),
            SessionPhase::Alive(n) => SessionView::Alive(*n as int),
            SessionPhase::Pause(n) => SessionView::Pause(*n as int),
            SessionPhase::Ready => SessionView::Ready,
            SessionPhase::Failing(e) => SessionView::Failing(e@),
            SessionPhase::Unloading(e) => SessionView::Unloading(e@),
            SessionPhase::Failed(e, gone) => SessionView::Failed(e@, *gone),
            SessionPhase::Stopping => SessionView::Stopping,
            SessionPhase::Freeing => SessionView::Freeing,
            SessionPhase::Finished(r) => SessionView::Finished(outcome_view(*r)),
        }
    }
}

/// What a session waits for.
#[derive(Clone, Copy, Debug, Eq, PartialEq, Structural)]
pub enum SessionAction {
    /// Look at the block.
    Look,
    /// See whether the worker has ended.
    CheckWorker,
    Sleep,
    /// Tell the worker to stop and wait for it, for a short or a long while.
    StopWorker(bool),
    /// Unload the library.
    Unload,
    Done,
}

/// What came of an action.
pub enum SessionReply {
    /// The worker's state and error.
    State(u32, u32),
    /// Whether the worker has ended.
    Ended(bool),
    Slept,
    /// The worker's exit code; its state; and whether it may be unloaded.
    Waited(Result<u32, String>, u32, u32),
    Unloaded(Result<(), String>),
}

/// The value of a `SessionReply`.
pub enum SessionReplyView {
    State(u32, u32),
    Ended(bool),
    Slept,
    Waited(Result<u32, Seq<char>>, u32, u32),
    Unloaded(Result<(), Seq<char>>),
}

impl View for SessionReply {
    type V = SessionReplyView;

    open spec fn view(&self) -> SessionReplyView {
        match self {
            SessionReply::State(s, e) => SessionReplyView::State(*s, *e),
            SessionReply::Ended(b) => SessionReplyView::Ended(*b),
            SessionReply::Slept => SessionReplyView::Slept,
            SessionReply::Waited(r, s, u) => SessionReplyView::Waited(code_view(*r), *s, *u),
            SessionReply::Unloaded(r) => SessionReplyView::Unloaded(outcome_view(*r)),
        }
    }
}

impl SessionView {
    /// What the session waits for.
    pub open spec fn action(self) -> SessionAction {
        match self {
            SessionView::State(_) => SessionAction::Look,
            SessionView::Alive(_) => SessionAction::CheckWorker,
            SessionView::Pause(_) => SessionAction::Sleep,
            SessionView::Failing(_) => SessionAction::StopWorker(false),
            SessionView::Unloading(_) => SessionAction::Unload,
            SessionView::Stopping => SessionAction::StopWorker(true),
            SessionView::Freeing => SessionAction::Unload,
            SessionView::Ready => SessionAction::Done,
            SessionView::Failed(_, _) => SessionAction::Done,
            SessionView::Finished(_) => SessionAction::Done,
        }
    }

    /// Said of a worker that did not restore everything.
    pub open spec fn unclean_text(state: u32, code: u32, unload_safe: u32) -> Seq<char> {
        "hook did not restore cleanly (state "@ + dec_text(state as int) + ", worker code "@
            + dec_text(code as int) + ", unload-safe "@ + dec_text(unload_safe as int)
            + "); DLL remains loaded"@
    }

    /// After a reply. One that was not waited for changes nothing.
    pub open spec fn next(self, reply: SessionReplyView) -> SessionView {
        match (self, reply) {
            (SessionView::State(n), SessionReplyView::State(state, error)) => if state
                == STATE_READY {
                SessionView::Ready
            } else if state == STATE_FAILED {
                SessionView::Failing(
                    "hook worker failed (code "@ + dec_text(error as int) + ")"@,
                )
            } else {
                SessionView::Alive(n)
            },
            (SessionView::Alive(n), SessionReplyView::Ended(ended)) => if ended {
                SessionView::Failing("hook worker exited before publishing ready state"@)
            } else {
                SessionView::Pause(n)
            },
            (SessionView::Pause(n), SessionReplyView::Slept) => if n + 1 < READY_ROUNDS {
                SessionView::State(n + 1)
            } else {
                SessionView::Failing("hook worker did not become ready within 30 seconds"@)
            },
            (SessionView::Failing(reason), SessionReplyView::Waited(r, _, unload_safe)) => match r {
                Err(e) => SessionView::Failed(
                    reason + "; "@ + e + "; DLL remains loaded"@,
                    false,
                ),
                Ok(_) => if unload_safe == 0 {
                    SessionView::Failed(
                        reason + "; hook cleanup was not proven safe; DLL remains loaded"@,
                        false,
                    )
                } else {
                    SessionView::Unloading(reason)
                },
            },
            (SessionView::Unloading(reason), SessionReplyView::Unloaded(r)) => match r {
                Ok(_) => SessionView::Failed(
                    reason + "; startup changes were restored and the DLL was unloaded"@,
                    true,
                ),
                Err(e) => SessionView::Failed(
                    reason + "; unloading the clean DLL failed: "@ + e,
                    false,
                ),
            },
            (SessionView::Stopping, SessionReplyView::Waited(r, state, unload_safe)) => match r {
                Err(e) => SessionView::Finished(Err(e)),
                Ok(code) => if state != STATE_STOPPED || code != 0 || unload_safe == 0 {
                    SessionView::Finished(
                        Err(SessionView::unclean_text(state, code, unload_safe)),
                    )
                } else {
                    SessionView::Freeing
                },
            },
            (SessionView::Freeing, SessionReplyView::Unloaded(r)) => SessionView::Finished(r),
            _ => self,
        }
    }

    /// The rounds have not run out.
    pub open spec fn wf(self) -> bool {
        match self {
            SessionView::State(n) => 0 <= n < READY_ROUNDS,
            SessionView::Alive(n) => 0 <= n < READY_ROUNDS,
            SessionView::Pause(n) => 0 <= n < READY_ROUNDS,
            _ => true,
        }
    }
}

impl SessionPhase {
    /// Starts waiting for the worker to become ready.
    pub fn wait_ready() -> (r: SessionPhase)
        ensures
            r@ == SessionView::State(0),
            r@.wf(),
    {
        SessionPhase::State(0)
    }

    /// Starts shutting down. A library that is gone needs nothing more.
    pub fn shutdown(unloaded: bool) -> (r: SessionPhase)
        ensures
            r@ == if unloaded {
                SessionView::Finished(Ok(()))
            } else {
                SessionView::Stopping
            },
            r@.wf(),
    {
        if unloaded {
            SessionPhase::Finished(Ok(()))
        } else {
            SessionPhase::Stopping
        }
    }

    /// What the session waits for.
    pub fn action(&self) -> (r: SessionAction)
        ensures
            r == self@.action(),
    {
        match self {
            SessionPhase::State(_) => SessionAction::Look,
            SessionPhase::Alive(_) => SessionAction::CheckWorker,
            SessionPhase::Pause(_) => SessionAction::Sleep,
            SessionPhase::Failing(_) => SessionAction::StopWorker(false),
            SessionPhase::Unloading(_) => SessionAction::Unload,
            SessionPhase::Stopping => SessionAction::StopWorker(true),
            SessionPhase::Freeing => SessionAction::Unload,
            SessionPhase::Ready => SessionAction::Done,
            SessionPhase::Failed(_, _) => SessionAction::Done,
            SessionPhase::Finished(_) => SessionAction::Done,
        }
    }

    /// Takes the reply to an action. One that was not waited for changes
    /// nothing.
    pub fn step(self, reply: SessionReply) -> (r: SessionPhase)
        requires
            self@.wf(),
        ensures
            r@ == self@.next(reply@),
            r@.wf(),
    {
        match (self, reply) {
            (SessionPhase::State(n), SessionReply::State(state, error)) => if state
                == STATE_READY {
                SessionPhase::Ready
            } else if state == STATE_FAILED {
                SessionPhase::Failing(with_dec("hook worker failed (code ", error as u64, ")"))
            } else {
                SessionPhase::Alive(n)
            },
            (SessionPhase::Alive(n), SessionReply::Ended(ended)) => if ended {
                SessionPhase::Failing(
                    "hook worker exited before publishing ready state".to_owned(),
                )
            } else {
                SessionPhase::Pause(n)
            },
            (SessionPhase::Pause(n), SessionReply::Slept) => if n + 1 < READY_ROUNDS {
                SessionPhase::State(n + 1)
            } else {
                SessionPhase::Failing(
                    "hook worker did not become ready within 30 seconds".to_owned(),
                )
            },
            (SessionPhase::Failing(reason), SessionReply::Waited(r, _, unload_safe)) => {
                let mut text: String = reason;
                match r {
                    Err(e) => {
                        text.append("; ");
                        text.append(e.as_str());
                        text.append("; DLL remains loaded");
                        SessionPhase::Failed(text, false)
                    },
                    Ok(_) => if unload_safe == 0 {
                        text.append("; hook cleanup was not proven safe; DLL remains loaded");
                        SessionPhase::Failed(text, false)
                    } else {
                        SessionPhase::Unloading(text)
                    },
                }
            },
            (SessionPhase::Unloading(reason), SessionReply::Unloaded(r)) => {
                let mut text: String = reason;
                match r {
                    Ok(_) => {
                        text.append("; startup changes were restored and the DLL was unloaded");
                        SessionPhase::Failed(text, true)
                    },
                    Err(e) => {
                        text.append("; unloading the clean DLL failed: ");
                        text.append(e.as_str());
                        SessionPhase::Failed(text, false)
                    },
                }
            },
            (SessionPhase::Stopping, SessionReply::Waited(r, state, unload_safe)) => match r {
                Err(e) => SessionPhase::Finished(Err(e)),
                Ok(code) => if state != STATE_STOPPED || code != 0 || unload_safe == 0 {
                    let mut text: String = with_dec(
                        "hook did not restore cleanly (state ",
                        state as u64,
                        ", worker code ",
                    );
                    push_dec(&mut text, code as u64);
                    text.append(", unload-safe ");
                    push_dec(&mut text, unload_safe as u64);
                    text.append("); DLL remains loaded");
                    SessionPhase::Finished(Err(text))
                } else {
                    SessionPhase::Freeing
                },
            },
            (SessionPhase::Freeing, SessionReply::Unloaded(r)) => SessionPhase::Finished(r),
            (phase, _) => phase,
        }
    }
}

/// The library is unloaded only where the worker has ended and has said that it
/// may be. At the end of a session that went well it has also stopped, with no
/// error.
pub proof fn unloaded_only_when_safe(s: SessionView, reply: SessionReplyView)
    requires
        s.action() != SessionAction::Unload,
        s.next(reply).action() == SessionAction::Unload,
    ensures
        reply is Waited,
        reply->Waited_0 is Ok,
        reply->Waited_2 != 0,
        s.next(reply) is Freeing ==> reply->Waited_1 == STATE_STOPPED && reply->Waited_0
            == Ok::<u32, Seq<char>>(0u32),
{
}

/// Waiting for the worker ends: after as many rounds as are allowed it has
/// become ready, or startup has failed.
pub open spec fn rounds_left(s: SessionView) -> int {
    match s {
        SessionView::State(n) => 3 * (READY_ROUNDS - n) + 3,
        SessionView::Alive(n) => 3 * (READY_ROUNDS - n) + 2,
        SessionView::Pause(n) => 3 * (READY_ROUNDS - n) + 1,
        SessionView::Failing(_) => 2,
        SessionView::Unloading(_) => 1,
        SessionView::Stopping => 2,
        SessionView::Freeing => 1,
        _ => 0,
    }
}

/// Every reply that was waited for brings a session closer to its end.
pub proof fn session_ends(s: SessionView, reply: SessionReplyView)
    requires
        s.wf(),
        s.next(reply) != s,
    ensures
        rounds_left(s.next(reply)) < rounds_left(s),
        rounds_left(s.next(reply)) >= 0,
{
}

/// A session becomes ready as soon as the worker says so; until then the worker
/// is looked at for 3,000 rounds, as long as it lives.
pub proof fn a_session_becomes_ready(n: int, state: u32, error: u32)
    requires
        0 <= n,
        state != STATE_READY,
        state != STATE_FAILED,
    ensures
        SessionView::State(n).next(SessionReplyView::State(STATE_READY, error))
            == SessionView::Ready,
        SessionView::State(n).next(SessionReplyView::State(STATE_FAILED, error)) is Failing,
        SessionView::State(n).next(SessionReplyView::State(state, error)) == SessionView::Alive(n),
        SessionView::Alive(n).next(SessionReplyView::Ended(false)) == SessionView::Pause(n),
        SessionView::Alive(n).next(SessionReplyView::Ended(true)) is Failing,
        n < 2_999 ==> SessionView::Pause(n).next(SessionReplyView::Slept) == SessionView::State(
            n + 1,
        ),
        n >= 2_999 ==> SessionView::Pause(n).next(SessionReplyView::Slept) is Failing,
{
}

/// A session ends well: the worker stops with code zero and says that it may be
/// unloaded, and the library is unloaded. A start that failed cleanly has the
/// library unloaded too.
pub proof fn a_session_ends_well(reason: Seq<char>, state: u32, code: u32, safe: u32)
    requires
        safe != 0,
    ensures
        SessionView::Stopping.action() == SessionAction::StopWorker(true),
        SessionView::Stopping.next(SessionReplyView::Waited(Ok(0), STATE_STOPPED, safe))
            == SessionView::Freeing,
        SessionView::Freeing.action() == SessionAction::Unload,
        SessionView::Freeing.next(SessionReplyView::Unloaded(Ok(()))) == SessionView::Finished(
            Ok::<(), Seq<char>>(()),
        ),
        SessionView::Failing(reason).action() == SessionAction::StopWorker(false),
        SessionView::Failing(reason).next(SessionReplyView::Waited(Ok(code), state, safe))
            == SessionView::Unloading(reason),
        SessionView::Unloading(reason).action() == SessionAction::Unload,
        SessionView::Unloading(reason).next(SessionReplyView::Unloaded(Ok(()))) matches
            SessionView::Failed(_, gone) && gone,
{
}

/// What a worker did not say is safe stays loaded, and the end is not well.
pub proof fn an_unsafe_library_stays(reason: Seq<char>, e: Seq<char>, state: u32, code: u32)
    ensures
        SessionView::Failing(reason).next(SessionReplyView::Waited(Ok(code), state, 0)) matches
            SessionView::Failed(_, gone) && !gone,
        SessionView::Failing(reason).next(SessionReplyView::Waited(Err(e), state, 1)) matches
            SessionView::Failed(_, gone) && !gone,
        SessionView::Stopping.next(SessionReplyView::Waited(Ok(code), state, 0)) matches
            SessionView::Finished(Err(_)),
        code != 0 || state != STATE_STOPPED ==> (SessionView::Stopping.next(
            SessionReplyView::Waited(Ok(code), state, 1),
        ) matches SessionView::Finished(Err(_))),
        SessionView::Freeing.next(SessionReplyView::Unloaded(Err(e))) == SessionView::Finished(
            Err::<(), Seq<char>>(e),
        ),
{
}

/// What a wait for a thread says: the code of one that ended, or that it has
/// not.
pub proof fn ended_threads_give_their_code(code: u32, error: u32)
    ensures
        waited(0, Ok(code), error) == Ok::<u32, Seq<char>>(code),
        waited(0, Err(code), error) is Err,
        waited(258, Ok(code), error) is Err,
{
}

/// Every record that is still there is delivered, in order: those from where
/// the reader stands, or, where it was overrun, the latest 64.
pub proof fn every_record_is_delivered(b: ControlBlock, from: int, to: int, i: int)
    requires
        1 <= from <= i < to <= u32::MAX,
        forall|s: u32| from <= s < to ==> #[trigger] readable(b, s),
    ensures
        delivered(b, from, to).len() == to - from,
        delivered(b, from, to)[i - from].1 == b.logs@[slot_of(i as u32)].data@.take(
            slot_len(b.logs@[slot_of(i as u32)]),
        ),
        LogLevel::of_code(b.logs@[slot_of(i as u32)].level) == Some(
            delivered(b, from, to)[i - from].0,
        ),
    decreases to - from,
{
    assert(readable(b, (to - 1) as u32));
    if i < to - 1 {
        every_record_is_delivered(b, from, to - 1, i);
    } else if from < to - 1 {
        every_record_is_delivered(b, from, to - 1, from);
    } else {
        assert(delivered(b, from, to - 1) =~= Seq::empty());
    }
}

/// A reader that kept up loses nothing; one that was overrun goes on with the
/// oldest of the latest 64.
pub proof fn readers_go_on_where_they_can(next: int, latest: int)
    ensures
        latest - next < 64 ==> flush_start(next, latest) == next,
        latest - next >= 64 ==> flush_start(next, latest) == latest - 63,
{
}

} // verus!
