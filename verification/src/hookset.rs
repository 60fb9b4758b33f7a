//! Hooks of one feature, installed in order and taken back in reverse.
//!
//! The raw-input feature has four hooks: the window procedure, the accumulator
//! and two sample-time slots. The map interceptor has one. When a later hook
//! cannot be installed, the earlier ones are taken back. A feature is clean
//! again only when no hook of it is in place and no callback of it is running.
use vstd::prelude::*;

use crate::hook::{InstallError, InstallFault};
use crate::text::outcome_view;

verus! {

/// Whose hooks they are.
#[derive(Clone, Copy, Debug, Eq, PartialEq, Structural)]
pub enum Feature {
    Rawinput,
    Fastdl,
}

impl Feature {
    /// How many hooks the feature has.
    pub open spec fn count_of(self) -> int {
        match self {
            Feature::Rawinput => 4,
            Feature::Fastdl => 1,
        }
    }

    /// How often running callbacks are waited for.
    pub open spec fn rounds_of(self) -> int {
        match self {
            Feature::Rawinput => 10_000,
            Feature::Fastdl => 45_000,
        }
    }

    /// Said when callbacks keep running.
    pub open spec fn busy_text(self) -> Seq<char> {
        match self {
            Feature::Rawinput => "rawinput callbacks did not quiesce within 10 seconds"@,
            Feature::Fastdl => "fastdl callback did not quiesce within 45 seconds"@,
        }
    }

    /// How many hooks the feature has.
    pub fn count(self) -> (r: usize)
        ensures
            r == self.count_of(),
    {
        match self {
            Feature::Rawinput => 4,
            Feature::Fastdl => 1,
        }
    }

    /// How often running callbacks are waited for.
    pub fn rounds(self) -> (r: u32)
        ensures
            r == self.rounds_of(),
    {
        match self {
            Feature::Rawinput => 10_000,
            Feature::Fastdl => 45_000,
        }
    }
}

/// The hooks of one feature.
#[derive(Clone, Copy, Debug, Eq, PartialEq, Structural)]
pub struct HookSet {
    pub feature: Feature,
    /// Whether some hook may be in place.
    pub dirty: bool,
}

/// Where work on a feature's hooks stands.
pub enum Task {
    /// This hook is to be installed.
    Install(usize),
    /// The hooks before this one are still to be restored. The first error so
    /// far, and why they are taken back.
    Restore(usize, Option<String>, Option<String>),
    /// Whether a callback is running is wanted; after so many rounds.
    Quiesce(u32, Option<String>),
    /// One is; a pause is due.
    Wait(u32, Option<String>),
    /// The trampoline is to be released.
    Release(Option<String>),
    Finished(Result<(), String>),
}

/// The value of a text that may be missing.
pub open spec fn text_view(t: Option<String>) -> Option<Seq<char>> {
    match t {
        Some(s) => Some(s@),
        None => None,
    }
}

/// The value of a `Task`.
pub enum TaskView {
    Install(int),
    Restore(int, Option<Seq<char>>, Option<Seq<char>>),
    Quiesce(int, Option<Seq<char>>),
    Wait(int, Option<Seq<char>>),
    Release(Option<Seq<char>>),
    Finished(Result<(), Seq<char>>),
}

impl View for Task {
    type V = TaskView;

    open spec fn view(&self) -> TaskView {
        match self {
            Task::Install(i) => TaskView::Install(*i as int),
            Task::Restore(i, first, cause) => TaskView::Restore(
                *i as int,
                text_view(*first),
                text_view(*cause),
            ),
            Task::Quiesce(n, cause) => TaskView::Quiesce(*n as int, text_view(*cause)),
            Task::Wait(n, cause) => TaskView::Wait(*n as int, text_view(*cause)),
            Task::Release(cause) => TaskView::Release(text_view(*cause)),
            Task::Finished(r) => TaskView::Finished(outcome_view(*r)),
        }
    }
}

/// What a task waits for.
#[derive(Clone, Copy, Debug, Eq, PartialEq, Structural)]
pub enum TaskAction {
    /// Install this hook.
    Install(usize),
    /// Restore this hook.
    Restore(usize),
    /// See whether no callback is running.
    CheckQuiet,
    Sleep,
    /// Release the trampoline of the first hook.
    Release,
    Done,
}

/// What came of an action.
pub enum TaskReply {
    Installed(Result<(), InstallError>),
    Restored(Result<(), String>),
    /// Whether no callback is running.
    Quiet(bool),
    Slept,
    Released(Result<(), String>),
}

/// The value of a `TaskReply`.
pub enum TaskReplyView {
    Installed(Result<(), InstallFault>),
    Restored(Result<(), Seq<char>>),
    Quiet(bool),
    Slept,
    Released(Result<(), Seq<char>>),
}

impl View for TaskReply {
    type V = TaskReplyView;

    open spec fn view(&self) -> TaskReplyView {
        match self {
            TaskReply::Installed(Ok(_)) => TaskReplyView::Installed(Ok(())),
            TaskReply::Installed(Err(e)) => TaskReplyView::Installed(Err(e@)),
            TaskReply::Restored(r) => TaskReplyView::Restored(outcome_view(*r)),
            TaskReply::Quiet(q) => TaskReplyView::Quiet(*q),
            TaskReply::Slept => TaskReplyView::Slept,
            TaskReply::Released(r) => TaskReplyView::Released(outcome_view(*r)),
        }
    }
}

/// What to report after cleaning up, given why it was done.
pub open spec fn with_cleanup(
    cause: Option<Seq<char>>,
    cleanup: Result<(), Seq<char>>,
) -> Result<(), Seq<char>> {
    match cause {
        None => cleanup,
        Some(e) => Err(
            match cleanup {
                Ok(_) => e,
                Err(c) => e + "; partial-hook cleanup failed: "@ + c,
            },
        ),
    }
}

impl TaskView {
    /// The hook that a task names is one of the feature's, and the rounds have
    /// not run out.
    pub open spec fn wf(self, f: Feature) -> bool {
        match self {
            TaskView::Install(i) => 0 <= i < f.count_of(),
            TaskView::Restore(i, _, _) => 0 < i <= f.count_of(),
            TaskView::Quiesce(n, _) => 0 <= n < f.rounds_of(),
            TaskView::Wait(n, _) => 0 <= n < f.rounds_of(),
            _ => true,
        }
    }

    /// What the task waits for.
    pub open spec fn action(self) -> TaskAction {
        match self {
            TaskView::Install(i) => TaskAction::Install(i as usize),
            TaskView::Restore(i, _, _) => TaskAction::Restore((i - 1) as usize),
            TaskView::Quiesce(_, _) => TaskAction::CheckQuiet,
            TaskView::Wait(_, _) => TaskAction::Sleep,
            TaskView::Release(_) => TaskAction::Release,
            TaskView::Finished(_) => TaskAction::Done,
        }
    }
}

impl HookSet {
    /// Installing starts with the first hook, and the feature is dirty from
    /// then on.
    pub open spec fn installing(self) -> (HookSet, TaskView) {
        (HookSet { dirty: true, ..self }, TaskView::Install(0))
    }

    /// Taking every hook back.
    pub open spec fn restoring(self) -> TaskView {
        TaskView::Restore(self.feature.count_of(), None, None)
    }

    /// Everything is gone.
    pub open spec fn cleaned(self, cause: Option<Seq<char>>) -> (HookSet, TaskView) {
        (HookSet { dirty: false, ..self }, TaskView::Finished(with_cleanup(cause, Ok(()))))
    }

    /// After a reply. One that was not waited for changes nothing.
    pub open spec fn next(self, at: TaskView, reply: TaskReplyView) -> (HookSet, TaskView) {
        match (at, reply) {
            (TaskView::Install(i), TaskReplyView::Installed(Ok(_))) => (
                self,
                if i + 1 < self.feature.count_of() {
                    TaskView::Install(i + 1)
                } else {
                    TaskView::Finished(Ok(()))
                },
            ),
            (TaskView::Install(i), TaskReplyView::Installed(Err(e))) => if !e.clean {
                (self, TaskView::Finished(Err(e.message)))
            } else if i == 0 {
                (HookSet { dirty: false, ..self }, TaskView::Finished(Err(e.message)))
            } else {
                (self, TaskView::Restore(i, None, Some(e.message)))
            },
            (TaskView::Restore(i, first, cause), TaskReplyView::Restored(r)) => {
                let error = match (first, r) {
                    (None, Err(e)) => Some(e),
                    _ => first,
                };
                (
                    self,
                    if i > 1 {
                        TaskView::Restore(i - 1, error, cause)
                    } else {
                        match error {
                            Some(e) => TaskView::Finished(with_cleanup(cause, Err(e))),
                            None => TaskView::Quiesce(0, cause),
                        }
                    },
                )
            },
            (TaskView::Quiesce(n, cause), TaskReplyView::Quiet(quiet)) => if !quiet {
                (self, TaskView::Wait(n, cause))
            } else if self.feature == Feature::Rawinput {
                (self, TaskView::Release(cause))
            } else {
                self.cleaned(cause)
            },
            (TaskView::Wait(n, cause), TaskReplyView::Slept) => (
                self,
                if n + 1 < self.feature.rounds_of() {
                    TaskView::Quiesce(n + 1, cause)
                } else {
                    TaskView::Finished(with_cleanup(cause, Err(self.feature.busy_text())))
                },
            ),
            (TaskView::Release(cause), TaskReplyView::Released(r)) => match r {
                Ok(_) => self.cleaned(cause),
                Err(e) => (self, TaskView::Finished(with_cleanup(cause, Err(e)))),
            },
            _ => (self, at),
        }
    }

    /// A feature without hooks.
    pub fn new(feature: Feature) -> (r: HookSet)
        ensures
            r == (HookSet { feature, dirty: false }),
    {
        HookSet { feature, dirty: false }
    }

    /// Whether no hook can be in place and no callback is running.
    pub fn is_quiescent(&self, active_callbacks: usize) -> (r: bool)
        ensures
            r == (!self.dirty && active_callbacks == 0),
    {
        !self.dirty && active_callbacks == 0
    }

    /// Starts installing.
    pub fn install(&mut self) -> (r: Task)
        ensures
            (*final(self), r@) == old(self).installing(),
            r@.wf(final(self).feature),
    {
        self.dirty = true;
        Task::Install(0)
    }

    /// Starts taking every hook back.
    pub fn restore(&self) -> (r: Task)
        ensures
            r@ == self.restoring(),
            r@.wf(self.feature),
    {
        Task::Restore(self.feature.count(), None, None)
    }

    fn clean(&mut self, cause: Option<String>) -> (r: Task)
        ensures
            (*final(self), r@) == old(self).cleaned(text_view(cause)),
    {
        self.dirty = false;
        Task::Finished(after_cleanup(cause, Ok(())))
    }

    /// Takes the reply to an action. One that was not waited for changes
    /// nothing.
    pub fn step(&mut self, at: Task, reply: TaskReply) -> (r: Task)
        requires
            at@.wf(old(self).feature),
        ensures
            (*final(self), r@) == old(self).next(at@, reply@),
            r@.wf(final(self).feature),
    {
        let count: usize = self.feature.count();
        match (at, reply) {
            (Task::Install(i), TaskReply::Installed(r)) => match r {
                Ok(_) => if i + 1 < count {
                    Task::Install(i + 1)
                } else {
                    Task::Finished(Ok(()))
                },
                Err(e) => {
                    let message: String = e.message().to_owned();
                    if !e.is_clean() {
                        Task::Finished(Err(message))
                    } else if i == 0 {
                        self.dirty = false;
                        Task::Finished(Err(message))
                    } else {
                        Task::Restore(i, None, Some(message))
                    }
                },
            },
            (Task::Restore(i, first, cause), TaskReply::Restored(r)) => {
                let error: Option<String> = match (first, r) {
                    (None, Err(e)) => Some(e),
                    (first, _) => first,
                };
                if i > 1 {
                    Task::Restore(i - 1, error, cause)
                } else {
                    match error {
                        Some(e) => Task::Finished(after_cleanup(cause, Err(e))),
                        None => Task::Quiesce(0, cause),
                    }
                }
            },
            (Task::Quiesce(n, cause), TaskReply::Quiet(quiet)) => if !quiet {
                Task::Wait(n, cause)
            } else if self.feature == Feature::Rawinput {
                Task::Release(cause)
            } else {
                self.clean(cause)
            },
            (Task::Wait(n, cause), TaskReply::Slept) => if n + 1 < self.feature.rounds() {
                Task::Quiesce(n + 1, cause)
            } else {
                let busy: String = match self.feature {
                    Feature::Rawinput => "rawinput callbacks did not quiesce within 10 seconds".to_owned(),
                    Feature::Fastdl => "fastdl callback did not quiesce within 45 seconds".to_owned(),
                };
                Task::Finished(after_cleanup(cause, Err(busy)))
            },
            (Task::Release(cause), TaskReply::Released(r)) => match r {
                Ok(_) => self.clean(cause),
                Err(e) => Task::Finished(after_cleanup(cause, Err(e))),
            },
            (at, _) => at,
        }
    }
}

/// What to report after cleaning up, given why it was done.
fn after_cleanup(cause: Option<String>, cleanup: Result<(), String>) -> (r: Result<(), String>)
    ensures
        outcome_view(r) == with_cleanup(text_view(cause), outcome_view(cleanup)),
{
    match cause {
        None => cleanup,
        Some(e) => {
            let mut text: String = e;
            match cleanup {
                Ok(_) => {},
                Err(c) => {
                    text.append("; partial-hook cleanup failed: ");
                    text.append(c.as_str());
                },
            }
            Err(text)
        },
    }
}

impl Task {
    /// What the task waits for.
    pub fn action(&self) -> (r: TaskAction)
        requires
            exists|f: Feature| self@.wf(f),
        ensures
            r == self@.action(),
    {
        match self {
            Task::Install(i) => TaskAction::Install(*i),
            Task::Restore(i, _, _) => TaskAction::Restore(*i - 1),
            Task::Quiesce(_, _) => TaskAction::CheckQuiet,
            Task::Wait(_, _) => TaskAction::Sleep,
            Task::Release(_) => TaskAction::Release,
            Task::Finished(_) => TaskAction::Done,
        }
    }
}

/// One moment of a task: the feature, the task, which hooks are in place, and
/// whether a callback may be running.
pub struct HookMoment {
    pub set: HookSet,
    pub at: TaskView,
    pub on: Seq<bool>,
    pub running: bool,
}

/// An honest reply. A hook that was installed is in place. One whose
/// installation failed cleanly, or that was restored, is not. A callback can
/// start only while a hook is in place.
pub open spec fn honest(m: HookMoment, reply: TaskReplyView, after: HookMoment) -> bool {
    &&& after.on.len() == m.on.len()
    &&& (forall|k: int| 0 <= k < m.on.len() ==> !#[trigger] m.on[k]) && !m.running
        && m.at !is Install ==> !after.running
    &&& match (m.at.action(), reply) {
        (TaskAction::Install(i), TaskReplyView::Installed(r)) => {
            &&& forall|k: int| 0 <= k < m.on.len() && k != i ==> after.on[k] == m.on[k]
            &&& r is Ok ==> after.on[i as int]
            &&& r is Err && r->Err_0.clean ==> !after.on[i as int]
            &&& i == 0 && r is Err && !m.running ==> !after.running
        },
        (TaskAction::Restore(i), TaskReplyView::Restored(r)) => {
            &&& forall|k: int| 0 <= k < m.on.len() && k != i ==> after.on[k] == m.on[k]
            &&& r is Ok ==> !after.on[i as int]
        },
        (TaskAction::CheckQuiet, TaskReplyView::Quiet(q)) => after.on == m.on && (q
            ==> !m.running),
        (TaskAction::Sleep, TaskReplyView::Slept) => after.on == m.on,
        (TaskAction::Release, TaskReplyView::Released(_)) => after.on == m.on,
        _ => false,
    }
}

/// Moments of a task, each reached from the one before by an honest reply.
pub open spec fn honest_run(ms: Seq<HookMoment>, rs: Seq<TaskReplyView>) -> bool {
    &&& ms.len() == rs.len() + 1
    &&& forall|i: int|
        #![trigger ms[i + 1]]
        0 <= i < rs.len() ==> honest(ms[i], rs[i], ms[i + 1]) && (ms[i + 1].set, ms[i + 1].at)
            == ms[i].set.next(ms[i].at, rs[i])
}

/// The hooks from `from` on are not in place.
pub open spec fn none_from(on: Seq<bool>, from: int) -> bool {
    forall|k: int| from <= k < on.len() ==> !#[trigger] on[k]
}

/// The hooks before `to` are in place.
pub open spec fn all_before(on: Seq<bool>, to: int) -> bool {
    forall|k: int| 0 <= k < to ==> #[trigger] on[k]
}

spec fn sound(m: HookMoment, installing: bool) -> bool {
    let n = m.set.feature.count_of();
    &&& m.on.len() == n
    &&& m.at.wf(m.set.feature)
    &&& m.at !is Finished ==> m.set.dirty
    &&& !m.set.dirty ==> none_from(m.on, 0) && !m.running
    &&& match m.at {
        TaskView::Install(i) => installing && all_before(m.on, i) && none_from(m.on, i) && (i == 0
            ==> !m.running),
        TaskView::Restore(i, first, cause) => (cause is Some <==> installing) && (first is None
            ==> none_from(m.on, i)),
        TaskView::Quiesce(_, cause) => (cause is Some <==> installing) && none_from(m.on, 0),
        TaskView::Wait(_, cause) => (cause is Some <==> installing) && none_from(m.on, 0),
        TaskView::Release(cause) => (cause is Some <==> installing) && none_from(m.on, 0)
            && !m.running,
        TaskView::Finished(r) => r is Ok ==> if installing {
            all_before(m.on, n) && m.set.dirty
        } else {
            !m.set.dirty
        },
    }
}

proof fn run_keeps(ms: Seq<HookMoment>, rs: Seq<TaskReplyView>, n: int, installing: bool)
    requires
        honest_run(ms, rs),
        0 <= n <= rs.len(),
        sound(ms[0], installing),
    ensures
        sound(ms[n], installing),
        ms[n].set.feature == ms[0].set.feature,
    decreases n,
{
    if n > 0 {
        run_keeps(ms, rs, n - 1, installing);
        assert(ms[n - 1 + 1] == ms[n]);
        let b = ms[n - 1];
        let a = ms[n];
        assert(a.on.len() == b.on.len());
        match (b.at, rs[n - 1]) {
            (TaskView::Install(i), TaskReplyView::Installed(r)) => {
                assert forall|k: int| i < k < a.on.len() implies !#[trigger] a.on[k] by {
                    assert(a.on[k] == b.on[k]);
                }
                assert forall|k: int| 0 <= k < i implies #[trigger] a.on[k] by {
                    assert(a.on[k] == b.on[k]);
                }
            },
            (TaskView::Restore(i, first, cause), TaskReplyView::Restored(r)) => {
                if first is None && r is Ok {
                    assert forall|k: int| i - 1 <= k < a.on.len() implies !#[trigger] a.on[k] by {
                        if k != i - 1 {
                            assert(a.on[k] == b.on[k]);
                        }
                    }
                }
            },
            _ => {},
        }
    }
}

/// Installing a feature is all or nothing, as far as it can be known. One that
/// ends well has every hook in place. One that leaves the feature clean has no
/// hook in place and no callback running.
pub proof fn install_is_all_or_nothing(set: HookSet, ms: Seq<HookMoment>, rs: Seq<TaskReplyView>)
    requires
        honest_run(ms, rs),
        (ms[0].set, ms[0].at) == set.installing(),
        ms[0].on.len() == set.feature.count_of(),
        none_from(ms[0].on, 0),
        !ms[0].running,
        ms.last().at is Finished,
    ensures
        ms.last().at->Finished_0 is Ok ==> all_before(ms.last().on, set.feature.count_of()),
        !ms.last().set.dirty ==> none_from(ms.last().on, 0) && !ms.last().running,
{
    run_keeps(ms, rs, rs.len() as int, true);
}

/// Taking a feature's hooks back ends well only when none is in place and no
/// callback is running, and then the feature is clean.
pub proof fn restored_means_gone(set: HookSet, ms: Seq<HookMoment>, rs: Seq<TaskReplyView>)
    requires
        honest_run(ms, rs),
        set.dirty,
        ms[0].set == set,
        ms[0].at == set.restoring(),
        ms[0].on.len() == set.feature.count_of(),
        ms.last().at is Finished,
    ensures
        ms.last().at->Finished_0 is Ok ==> !ms.last().set.dirty,
        !ms.last().set.dirty ==> none_from(ms.last().on, 0) && !ms.last().running,
{
    run_keeps(ms, rs, rs.len() as int, false);
}

/// A feature gets installed: its hooks in order, the four of raw input or the
/// one of the map interceptor, and where each is in place that is the end.
pub proof fn a_feature_gets_installed(s: HookSet, i: int)
    requires
        0 <= i,
    ensures
        s.installing().1 == TaskView::Install(0),
        s.feature == Feature::Rawinput && i < 3 ==> s.next(
            TaskView::Install(i),
            TaskReplyView::Installed(Ok(())),
        ) == (s, TaskView::Install(i + 1)),
        s.feature == Feature::Rawinput ==> s.next(
            TaskView::Install(3),
            TaskReplyView::Installed(Ok(())),
        ) == (s, TaskView::Finished(Ok::<(), Seq<char>>(()))),
        s.feature == Feature::Fastdl ==> s.next(
            TaskView::Install(0),
            TaskReplyView::Installed(Ok(())),
        ) == (s, TaskView::Finished(Ok::<(), Seq<char>>(()))),
        i < 0x1_0000 ==> TaskView::Install(i).action() == TaskAction::Install(i as usize),
{
}

/// A feature gets taken back: its hooks from last to first, each of them even
/// where another fails, and then, once no callback runs, it is clean.
pub proof fn a_feature_gets_taken_back(
    s: HookSet,
    i: int,
    first: Option<Seq<char>>,
    cause: Option<Seq<char>>,
    r: Result<(), Seq<char>>,
    n: int,
)
    requires
        1 < i < 0x1_0000,
    ensures
        s.feature == Feature::Rawinput ==> s.restoring() == TaskView::Restore(4, None, None),
        s.feature == Feature::Fastdl ==> s.restoring() == TaskView::Restore(1, None, None),
        TaskView::Restore(i, first, cause).action() == TaskAction::Restore((i - 1) as usize),
        s.next(TaskView::Restore(i, first, cause), TaskReplyView::Restored(r)).1 matches
            TaskView::Restore(j, _, _) && j == i - 1,
        s.next(TaskView::Restore(1, None, cause), TaskReplyView::Restored(Ok(()))).1
            == TaskView::Quiesce(0, cause),
        s.feature == Feature::Rawinput ==> s.next(
            TaskView::Quiesce(n, cause),
            TaskReplyView::Quiet(true),
        ).1 == TaskView::Release(cause),
        s.feature == Feature::Fastdl ==> s.next(
            TaskView::Quiesce(n, None),
            TaskReplyView::Quiet(true),
        ) == (HookSet { dirty: false, ..s }, TaskView::Finished(Ok::<(), Seq<char>>(()))),
        s.next(TaskView::Release(None), TaskReplyView::Released(Ok(()))) == (
            HookSet { dirty: false, ..s },
            TaskView::Finished(Ok::<(), Seq<char>>(())),
        ),
{
}

/// Callbacks that run are waited for, round by round, as long as the feature
/// allows: 10,000 rounds for raw input and 45,000 for the map interceptor.
pub proof fn callbacks_are_waited_for(s: HookSet, n: int, cause: Option<Seq<char>>)
    requires
        0 <= n,
    ensures
        s.next(TaskView::Quiesce(n, cause), TaskReplyView::Quiet(false)) == (
            s,
            TaskView::Wait(n, cause),
        ),
        s.feature == Feature::Rawinput && n < 9_999 || s.feature == Feature::Fastdl && n < 44_999
            ==> s.next(TaskView::Wait(n, cause), TaskReplyView::Slept) == (
            s,
            TaskView::Quiesce(n + 1, cause),
        ),
        s.feature == Feature::Rawinput && n >= 9_999 || s.feature == Feature::Fastdl && n >= 44_999
            ==> s.next(TaskView::Wait(n, cause), TaskReplyView::Slept).1 matches
            TaskView::Finished(Err(_)),
{
}

/// A hook that fails cleanly has those before it taken back, and the failure is
/// told; one that may be half in place leaves the feature dirty.
pub proof fn a_failed_hook_takes_the_others_back(s: HookSet, i: int, message: Seq<char>)
    requires
        0 < i,
        s.dirty,
    ensures
        s.next(
            TaskView::Install(i),
            TaskReplyView::Installed(Err(InstallFault { message, clean: true })),
        ).1 == TaskView::Restore(i, None, Some(message)),
        s.next(
            TaskView::Install(0),
            TaskReplyView::Installed(Err(InstallFault { message, clean: true })),
        ) == (
            HookSet { dirty: false, ..s },
            TaskView::Finished(Err::<(), Seq<char>>(message)),
        ),
        s.next(
            TaskView::Install(i),
            TaskReplyView::Installed(Err(InstallFault { message, clean: false })),
        ) == (s, TaskView::Finished(Err::<(), Seq<char>>(message))),
        with_cleanup(Some(message), Ok(())) == Err::<(), Seq<char>>(message),
{
}

} // verus!
