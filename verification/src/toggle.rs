//! Switching a group of patches on and off as one.
//!
//! Switching on applies the patches in order, and puts all of them back, last
//! first, if one fails. Switching off restores them last first, and applies
//! them again if one cannot be restored. Either way a failure leaves the
//! switch where it was.
use vstd::prelude::*;

use crate::text::{join, joined, outcome_view, string_views};

verus! {

/// Which group of patches.
#[derive(Clone, Copy, Debug, Eq, PartialEq, Structural)]
pub enum Group {
    /// Exclusive-fullscreen preservation: the video release, then the window.
    Fullscreen,
    /// The instructions that apply the view kick.
    Viewpunch,
}

impl Group {
    /// Joins an error and what failed when the patches were put back.
    pub open spec fn rollback_text(self) -> Seq<char> {
        match self {
            Group::Fullscreen => "; fullscreen rollback failed: "@,
            Group::Viewpunch => "; viewpunch rollback failed: "@,
        }
    }

    /// Joins an error and what failed when the patches were applied again.
    pub open spec fn reapply_text(self) -> Seq<char> {
        match self {
            Group::Fullscreen => "; restoring the prior fullscreen patch state failed: "@,
            Group::Viewpunch => "; restoring the prior patch state failed: "@,
        }
    }

    /// What to say of a switch that was thrown.
    pub open spec fn said(self, enabled: bool) -> Seq<char> {
        match (self, enabled) {
            (Group::Fullscreen, true) => "fullscreen preservation enabled"@,
            (Group::Fullscreen, false) => "fullscreen preservation disabled"@,
            (Group::Viewpunch, true) => "viewpunch remover enabled"@,
            (Group::Viewpunch, false) => "viewpunch restored"@,
        }
    }

    /// What to say of a switch that was thrown.
    pub fn message(self, enabled: bool) -> (r: String)
        ensures
            r@ == self.said(enabled),
    {
        match self {
            Group::Fullscreen => if enabled {
                "fullscreen preservation enabled".to_owned()
            } else {
                "fullscreen preservation disabled".to_owned()
            },
            Group::Viewpunch => if enabled {
                "viewpunch remover enabled".to_owned()
            } else {
                "viewpunch restored".to_owned()
            },
        }
    }
}

/// A switch over `count` patches.
pub struct Switch {
    group: Group,
    count: usize,
    enabled: bool,
    dirty: bool,
}

/// The value of a `Switch`.
#[verifier::ext_equal]
pub struct SwitchView {
    pub group: Group,
    pub count: int,
    pub enabled: bool,
    pub dirty: bool,
}

impl View for Switch {
    type V = SwitchView;

    closed spec fn view(&self) -> SwitchView {
        SwitchView {
            group: self.group,
            count: self.count as int,
            enabled: self.enabled,
            dirty: self.dirty,
        }
    }
}

/// Where throwing a switch stands.
pub enum Throw {
    /// Switching on: the patch at this index is to be applied.
    Applying(usize),
    /// Switching on failed: the patches before this index are to be restored,
    /// last first.
    Undoing(usize, String, Vec<String>),
    /// Switching off: the patches before this index are to be restored, last
    /// first.
    Restoring(usize, Vec<String>),
    /// Switching off failed: the patch at this index is to be applied again.
    Reapplying(usize, String),
    Finished(Result<(), String>),
}

/// The value of a `Throw`.
pub enum ThrowView {
    Applying(int),
    Undoing(int, Seq<char>, Seq<Seq<char>>),
    Restoring(int, Seq<Seq<char>>),
    Reapplying(int, Seq<char>),
    Finished(Result<(), Seq<char>>),
}

impl View for Throw {
    type V = ThrowView;

    open spec fn view(&self) -> ThrowView {
        match self {
            Throw::Applying(i) => ThrowView::Applying(*i as int),
            Throw::Undoing(i, e, es) => ThrowView::Undoing(*i as int, e@, string_views(es@)),
            Throw::Restoring(i, es) => ThrowView::Restoring(*i as int, string_views(es@)),
            Throw::Reapplying(i, e) => ThrowView::Reapplying(*i as int, e@),
            Throw::Finished(r) => ThrowView::Finished(outcome_view(*r)),
        }
    }
}

/// What throwing a switch waits for.
#[derive(Clone, Copy, Debug, Eq, PartialEq, Structural)]
pub enum SwitchAction {
    Apply(usize),
    Restore(usize),
    Done,
}

impl ThrowView {
    /// What it waits for.
    pub open spec fn action(self) -> SwitchAction {
        match self {
            ThrowView::Applying(i) => SwitchAction::Apply(i as usize),
            ThrowView::Undoing(i, _, _) => SwitchAction::Restore((i - 1) as usize),
            ThrowView::Restoring(i, _) => SwitchAction::Restore((i - 1) as usize),
            ThrowView::Reapplying(i, _) => SwitchAction::Apply(i as usize),
            ThrowView::Finished(_) => SwitchAction::Done,
        }
    }

    /// The indices are those of patches.
    pub open spec fn wf(self, count: int) -> bool {
        match self {
            ThrowView::Applying(i) => 0 <= i < count,
            ThrowView::Undoing(i, _, _) => 0 < i <= count,
            ThrowView::Restoring(i, _) => 0 < i <= count,
            ThrowView::Reapplying(i, _) => 0 <= i < count,
            ThrowView::Finished(_) => true,
        }
    }
}

/// Errors with one more, if there is one.
pub open spec fn noted(errors: Seq<Seq<char>>, r: Result<(), Seq<char>>) -> Seq<Seq<char>> {
    match r {
        Ok(_) => errors,
        Err(e) => errors.push(e),
    }
}

impl SwitchView {
    /// Switch and throw at the start.
    pub open spec fn throw(self, enabled: bool) -> (SwitchView, ThrowView) {
        if enabled == self.enabled {
            (self, ThrowView::Finished(Ok(())))
        } else if enabled {
            (SwitchView { dirty: true, ..self }, ThrowView::Applying(0))
        } else {
            (self, ThrowView::Restoring(self.count, Seq::empty()))
        }
    }

    /// After the patches were put back, with these errors.
    pub open spec fn undone(self, error: Seq<char>, errors: Seq<Seq<char>>) -> (
        SwitchView,
        ThrowView,
    ) {
        if errors.len() == 0 {
            (SwitchView { dirty: false, ..self }, ThrowView::Finished(Err(error)))
        } else {
            (
                self,
                ThrowView::Finished(Err(error + self.group.rollback_text() + joined(errors))),
            )
        }
    }

    /// After the patches were restored, with these errors.
    pub open spec fn restored(self, errors: Seq<Seq<char>>) -> (SwitchView, ThrowView) {
        if errors.len() == 0 {
            (
                SwitchView { dirty: false, enabled: false, ..self },
                ThrowView::Finished(Ok(())),
            )
        } else {
            (self, ThrowView::Reapplying(0, joined(errors)))
        }
    }

    /// Switch and throw after a patch was applied or restored.
    pub open spec fn step(self, at: ThrowView, r: Result<(), Seq<char>>) -> (
        SwitchView,
        ThrowView,
    ) {
        match at {
            ThrowView::Applying(i) => match r {
                Ok(_) => if i + 1 < self.count {
                    (self, ThrowView::Applying(i + 1))
                } else {
                    (SwitchView { enabled: true, ..self }, ThrowView::Finished(Ok(())))
                },
                Err(e) => (self, ThrowView::Undoing(self.count, e, Seq::empty())),
            },
            ThrowView::Undoing(i, error, errors) => if i > 1 {
                (self, ThrowView::Undoing(i - 1, error, noted(errors, r)))
            } else {
                self.undone(error, noted(errors, r))
            },
            ThrowView::Restoring(i, errors) => if i > 1 {
                (self, ThrowView::Restoring(i - 1, noted(errors, r)))
            } else {
                self.restored(noted(errors, r))
            },
            ThrowView::Reapplying(i, error) => match r {
                Ok(_) => if i + 1 < self.count {
                    (self, ThrowView::Reapplying(i + 1, error))
                } else {
                    (self, ThrowView::Finished(Err(error)))
                },
                Err(e) => (
                    self,
                    ThrowView::Finished(Err(error + self.group.reapply_text() + e)),
                ),
            },
            ThrowView::Finished(_) => (self, at),
        }
    }
}

/// Adds an error to a list, if there is one.
fn note(errors: Vec<String>, r: Result<(), String>) -> (o: Vec<String>)
    ensures
        string_views(o@) == noted(string_views(errors@), outcome_view(r)),
{
    let ghost before = string_views(errors@);
    let mut out: Vec<String> = errors;
    match r {
        Ok(_) => {},
        Err(e) => {
            out.push(e);
            assert(string_views(out@) =~= before.push(e@));
        },
    }
    out
}

impl Switch {
    #[verifier::type_invariant]
    spec fn some_patches(self) -> bool {
        self.count > 0
    }

    /// A switch that is off.
    pub fn new(group: Group, count: usize) -> (r: Switch)
        requires
            count > 0,
        ensures
            r@ == (SwitchView { group, count: count as int, enabled: false, dirty: false }),
    {
        Switch { group, count, enabled: false, dirty: false }
    }

    /// Whether it is on.
    pub fn enabled(&self) -> (r: bool)
        ensures
            r == self@.enabled,
    {
        self.enabled
    }

    /// Whether no patch of the group can be in place.
    pub fn is_quiescent(&self) -> (r: bool)
        ensures
            r == !self@.dirty,
    {
        !self.dirty
    }

    /// Starts throwing the switch to the other side.
    pub fn toggle(&mut self) -> (r: Throw)
        ensures
            (final(self)@, r@) == old(self)@.throw(!old(self)@.enabled),
            r@.wf(final(self)@.count),
    {
        let to: bool = !self.enabled;
        self.set_enabled(to)
    }

    /// Starts switching off.
    pub fn restore(&mut self) -> (r: Throw)
        ensures
            (final(self)@, r@) == old(self)@.throw(false),
            r@.wf(final(self)@.count),
    {
        self.set_enabled(false)
    }

    /// Starts throwing the switch to one side.
    pub fn set_enabled(&mut self, enabled: bool) -> (r: Throw)
        ensures
            (final(self)@, r@) == old(self)@.throw(enabled),
            r@.wf(final(self)@.count),
    {
        proof {
            use_type_invariant(&*self);
        }
        if enabled == self.enabled {
            return Throw::Finished(Ok(()));
        }
        if enabled {
            self.dirty = true;
            Throw::Applying(0)
        } else {
            let errors: Vec<String> = Vec::new();
            assert(string_views(errors@) =~= Seq::empty());
            Throw::Restoring(self.count, errors)
        }
    }

    /// Takes what came of applying or restoring the patch that was waited for.
    pub fn step(&mut self, at: Throw, r: Result<(), String>) -> (o: Throw)
        requires
            at@.wf(old(self)@.count),
        ensures
            (final(self)@, o@) == old(self)@.step(at@, outcome_view(r)),
            o@.wf(final(self)@.count),
    {
        proof {
            use_type_invariant(&*self);
        }
        match at {
            Throw::Applying(i) => match r {
                Ok(_) => {
                    if i + 1 < self.count {
                        Throw::Applying(i + 1)
                    } else {
                        self.enabled = true;
                        Throw::Finished(Ok(()))
                    }
                },
                Err(e) => {
                    let errors: Vec<String> = Vec::new();
                    assert(string_views(errors@) =~= Seq::empty());
                    Throw::Undoing(self.count, e, errors)
                },
            },
            Throw::Undoing(i, error, errors) => {
                let errors: Vec<String> = note(errors, r);
                if i > 1 {
                    return Throw::Undoing(i - 1, error, errors);
                }
                if errors.len() == 0 {
                    self.dirty = false;
                    return Throw::Finished(Err(error));
                }
                let mut text: String = error;
                match self.group {
                    Group::Fullscreen => text.append("; fullscreen rollback failed: "),
                    Group::Viewpunch => text.append("; viewpunch rollback failed: "),
                }
                let why: String = join(errors.as_slice());
                text.append(why.as_str());
                Throw::Finished(Err(text))
            },
            Throw::Restoring(i, errors) => {
                let errors: Vec<String> = note(errors, r);
                if i > 1 {
                    return Throw::Restoring(i - 1, errors);
                }
                if errors.len() == 0 {
                    self.dirty = false;
                    self.enabled = false;
                    return Throw::Finished(Ok(()));
                }
                Throw::Reapplying(0, join(errors.as_slice()))
            },
            Throw::Reapplying(i, error) => match r {
                Ok(_) => {
                    if i + 1 < self.count {
                        Throw::Reapplying(i + 1, error)
                    } else {
                        Throw::Finished(Err(error))
                    }
                },
                Err(e) => {
                    let mut text: String = error;
                    match self.group {
                        Group::Fullscreen => text.append(
                            "; restoring the prior fullscreen patch state failed: ",
                        ),
                        Group::Viewpunch => text.append("; restoring the prior patch state failed: "),
                    }
                    text.append(e.as_str());
                    Throw::Finished(Err(text))
                },
            },
            Throw::Finished(f) => Throw::Finished(f),
        }
    }
}

impl Throw {
    /// What it waits for.
    pub fn action(&self) -> (r: SwitchAction)
        requires
            exists|count: int| self@.wf(count),
        ensures
            r == self@.action(),
    {
        match self {
            Throw::Applying(i) => SwitchAction::Apply(*i),
            Throw::Undoing(i, _, _) => SwitchAction::Restore(*i - 1),
            Throw::Restoring(i, _) => SwitchAction::Restore(*i - 1),
            Throw::Reapplying(i, _) => SwitchAction::Apply(*i),
            Throw::Finished(_) => SwitchAction::Done,
        }
    }
}

/// One moment of throwing a switch: the switch, the throw, and which patches
/// are in place.
pub struct SwitchMoment {
    pub switch: SwitchView,
    pub at: ThrowView,
    pub on: Seq<bool>,
}

/// An honest answer: a patch that was applied is in place, one that was
/// restored is not, and the others are as they were.
pub open spec fn honest(m: SwitchMoment, r: Result<(), Seq<char>>, after: Seq<bool>) -> bool {
    &&& after.len() == m.on.len()
    &&& match m.at.action() {
        SwitchAction::Apply(i) => (r is Ok ==> after[i as int]) && forall|k: int|
            0 <= k < after.len() && k != i ==> after[k] == m.on[k],
        SwitchAction::Restore(i) => (r is Ok ==> !after[i as int]) && forall|k: int|
            0 <= k < after.len() && k != i ==> after[k] == m.on[k],
        SwitchAction::Done => false,
    }
}

/// Moments of a throw, each reached from the one before by an honest answer.
pub open spec fn honest_run(ms: Seq<SwitchMoment>, rs: Seq<Result<(), Seq<char>>>) -> bool {
    &&& ms.len() == rs.len() + 1
    &&& forall|i: int|
        #![trigger ms[i + 1]]
        0 <= i < rs.len() ==> {
            &&& honest(ms[i], rs[i], ms[i + 1].on)
            &&& (ms[i + 1].switch, ms[i + 1].at) == ms[i].switch.step(ms[i].at, rs[i])
        }
}

/// All patches from `i` on are in place, or not.
pub open spec fn all_are(on: Seq<bool>, from: int, to: int, v: bool) -> bool {
    forall|k: int| from <= k < to ==> on[k] == v
}

spec fn thrown(m: SwitchMoment, to: bool) -> bool {
    let n = m.switch.count;
    &&& 0 < n <= usize::MAX
    &&& m.on.len() == n
    &&& m.at.wf(n)
    &&& match m.at {
        ThrowView::Applying(i) => to && !m.switch.enabled && m.switch.dirty && all_are(
            m.on,
            0,
            i,
            true,
        ),
        ThrowView::Undoing(i, _, errors) => to && !m.switch.enabled && m.switch.dirty && (
        errors.len() == 0 ==> all_are(m.on, i, n, false)),
        ThrowView::Restoring(i, errors) => !to && m.switch.enabled && (errors.len() == 0
            ==> all_are(m.on, i, n, false)),
        ThrowView::Reapplying(i, _) => !to && m.switch.enabled && all_are(m.on, 0, i, true),
        ThrowView::Finished(r) => match r {
            Ok(_) => m.switch.enabled == to && all_are(m.on, 0, n, to) && (!to
                ==> !m.switch.dirty),
            Err(_) => m.switch.enabled == !to && (to && !m.switch.dirty ==> all_are(
                m.on,
                0,
                n,
                false,
            )),
        },
    }
}

proof fn run_keeps(ms: Seq<SwitchMoment>, rs: Seq<Result<(), Seq<char>>>, n: int, to: bool)
    requires
        honest_run(ms, rs),
        0 <= n <= rs.len(),
        thrown(ms[0], to),
    ensures
        thrown(ms[n], to),
        ms[n].switch.count == ms[0].switch.count,
    decreases n,
{
    if n > 0 {
        run_keeps(ms, rs, n - 1, to);
        assert(ms[n - 1 + 1] == ms[n]);
    }
}

/// Throwing a switch is all or nothing. One that ends well has every patch in
/// place, or none, as was asked. One that fails leaves the switch where it was;
/// and if switching on failed without the group staying dirty, no patch is in
/// place.
pub proof fn throw_is_all_or_nothing(
    s: SwitchView,
    to: bool,
    ms: Seq<SwitchMoment>,
    rs: Seq<Result<(), Seq<char>>>,
)
    requires
        honest_run(ms, rs),
        0 < s.count <= usize::MAX,
        s.enabled != to,
        (ms[0].switch, ms[0].at) == s.throw(to),
        ms[0].on.len() == s.count,
        ms.last().at is Finished,
    ensures
        ms.last().at->Finished_0 is Ok ==> ms.last().switch.enabled == to && all_are(
            ms.last().on,
            0,
            s.count,
            to,
        ),
        ms.last().at->Finished_0 is Err ==> ms.last().switch.enabled == s.enabled,
        ms.last().at->Finished_0 is Err && to && !ms.last().switch.dirty ==> all_are(
            ms.last().on,
            0,
            s.count,
            false,
        ),
{
    run_keeps(ms, rs, rs.len() as int, to);
}

/// A switch gets thrown: on, every patch is applied in order; off, every patch
/// is restored from last to first; and where each goes well the switch counts
/// as thrown. One that stands there already is not thrown again.
pub proof fn a_switch_gets_thrown(s: SwitchView, i: int)
    requires
        0 < s.count,
    ensures
        s.throw(s.enabled) == (s, ThrowView::Finished(Ok::<(), Seq<char>>(()))),
        !s.enabled ==> s.throw(true).1 == ThrowView::Applying(0),
        s.enabled ==> s.throw(false).1 == ThrowView::Restoring(s.count, Seq::empty()),
        0 <= i < s.count - 1 ==> s.step(ThrowView::Applying(i), Ok(())) == (
            s,
            ThrowView::Applying(i + 1),
        ),
        s.step(ThrowView::Applying(s.count - 1), Ok(())) == (
            SwitchView { enabled: true, ..s },
            ThrowView::Finished(Ok::<(), Seq<char>>(())),
        ),
        1 < i ==> s.step(ThrowView::Restoring(i, Seq::empty()), Ok(())) == (
            s,
            ThrowView::Restoring(i - 1, Seq::empty()),
        ),
        s.step(ThrowView::Restoring(1, Seq::empty()), Ok(())) == (
            SwitchView { enabled: false, dirty: false, ..s },
            ThrowView::Finished(Ok::<(), Seq<char>>(())),
        ),
        0 <= i < 0x1_0000 ==> ThrowView::Applying(i).action() == SwitchAction::Apply(i as usize),
        0 < i < 0x1_0000 ==> ThrowView::Restoring(i, Seq::empty()).action()
            == SwitchAction::Restore((i - 1) as usize),
{
}

/// A patch that cannot be applied has all of them restored, and the switch
/// stays off; one that cannot be restored has all of them applied again, and
/// the switch stays on. The failure is told.
pub proof fn a_failed_throw_is_taken_back(
    s: SwitchView,
    i: int,
    e: Seq<char>,
    errors: Seq<Seq<char>>,
)
    requires
        0 < s.count,
        0 <= i,
        errors.len() > 0,
    ensures
        s.step(ThrowView::Applying(i), Err(e)) == (
            s,
            ThrowView::Undoing(s.count, e, Seq::empty()),
        ),
        1 < i ==> s.step(ThrowView::Undoing(i, e, Seq::empty()), Ok(())) == (
            s,
            ThrowView::Undoing(i - 1, e, Seq::empty()),
        ),
        s.step(ThrowView::Undoing(1, e, Seq::empty()), Ok(())) == (
            SwitchView { dirty: false, ..s },
            ThrowView::Finished(Err::<(), Seq<char>>(e)),
        ),
        1 < i ==> s.step(ThrowView::Restoring(i, Seq::empty()), Err(e)) == (
            s,
            ThrowView::Restoring(i - 1, seq![e]),
        ),
        s.step(ThrowView::Restoring(1, errors), Ok(())).1 matches ThrowView::Reapplying(j, _) && j
            == 0,
        0 <= i < s.count - 1 ==> s.step(ThrowView::Reapplying(i, e), Ok(())) == (
            s,
            ThrowView::Reapplying(i + 1, e),
        ),
        s.step(ThrowView::Reapplying(s.count - 1, e), Ok(())) == (
            s,
            ThrowView::Finished(Err::<(), Seq<char>>(e)),
        ),
{
    assert(Seq::<Seq<char>>::empty().push(e) =~= seq![e]);
}

} // verus!
