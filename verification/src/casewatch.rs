//! Waiting for the game's own downloader to finish a map, so that its packed
//! files can be unpacked.
//!
//! A file is taken as finished when its size is the same in two looks. Waiting
//! is given up after a while without progress; a growing file starts the
//! while anew.
use vstd::prelude::*;

use crate::text::{copy_str, same_str, string_views};

verus! {

/// How many maps are waited for at a time.
pub const MAX_WATCHED: usize = 8;

/// How many looks without progress are enough.
pub const PATIENCE: u32 = 240;

/// The maps that are waited for.
pub struct WatchList {
    names: Vec<String>,
}

/// No name occurs twice.
pub open spec fn distinct(s: Seq<Seq<char>>) -> bool {
    forall|i: int, j: int| 0 <= i < j < s.len() ==> s[i] != s[j]
}

impl View for WatchList {
    type V = Seq<Seq<char>>;

    closed spec fn view(&self) -> Seq<Seq<char>> {
        string_views(self.names@)
    }
}

/// The names other than `name`, in order.
pub open spec fn without(s: Seq<Seq<char>>, name: Seq<char>) -> Seq<Seq<char>>
    decreases s.len(),
{
    if s.len() == 0 {
        Seq::empty()
    } else if s.last() == name {
        without(s.drop_last(), name)
    } else {
        without(s.drop_last(), name).push(s.last())
    }
}

proof fn without_members(s: Seq<Seq<char>>, name: Seq<char>)
    ensures
        without(s, name).len() <= s.len(),
        forall|x: Seq<char>| #[trigger]
            without(s, name).contains(x) <==> s.contains(x) && x != name,
        distinct(s) ==> distinct(without(s, name)),
    decreases s.len(),
{
    if s.len() > 0 {
        let t = s.drop_last();
        let w = without(t, name);
        without_members(t, name);
        assert forall|x: Seq<char>| s.contains(x) <==> t.contains(x) || x == s.last() by {
            if s.contains(x) {
                let i = choose|i: int| 0 <= i < s.len() && s[i] == x;
                if i < t.len() {
                    assert(t[i] == x);
                }
            }
            if t.contains(x) {
                let i = choose|i: int| 0 <= i < t.len() && t[i] == x;
                assert(s[i] == x);
            }
            assert(s[s.len() - 1] == s.last());
        }
        let all = without(s, name);
        assert forall|x: Seq<char>| #[trigger] all.contains(x) <==> s.contains(x) && x != name by {
            if s.last() != name {
                if all.contains(x) {
                    let i = choose|i: int| 0 <= i < all.len() && all[i] == x;
                    if i < w.len() {
                        assert(w[i] == x);
                        assert(w.contains(x));
                    }
                }
                if w.contains(x) {
                    let i = choose|i: int| 0 <= i < w.len() && w[i] == x;
                    assert(all[i] == x);
                }
                assert(all[w.len() as int] == s.last());
            }
        }
        if distinct(s) {
            assert(distinct(t)) by {
                assert forall|i: int, j: int| 0 <= i < j < t.len() implies t[i] != t[j] by {
                    assert(s[i] != s[j]);
                }
            }
            if s.last() != name {
                assert forall|i: int, j: int| 0 <= i < j < all.len() implies all[i] != all[j] by {
                    if j < w.len() {
                        assert(w[i] != w[j]);
                    } else {
                        assert(w.contains(w[i]));
                        assert(t.contains(w[i]));
                        let k = choose|k: int| 0 <= k < t.len() && t[k] == w[i];
                        assert(s[k] != s[s.len() - 1]);
                    }
                }
            }
        }
    }
}

impl WatchList {
    #[verifier::type_invariant]
    spec fn inv(self) -> bool {
        self@.len() <= MAX_WATCHED && distinct(self@)
    }

    /// No map is waited for.
    pub fn new() -> (r: WatchList)
        ensures
            r@ == Seq::<Seq<char>>::empty(),
    {
        let r: WatchList = WatchList { names: Vec::new() };
        assert(r@ =~= Seq::<Seq<char>>::empty());
        r
    }

    /// How many maps are waited for: a few at most, and none twice.
    pub fn len(&self) -> (r: usize)
        ensures
            r == self@.len(),
            r <= MAX_WATCHED,
            distinct(self@),
    {
        proof {
            use_type_invariant(self);
        }
        self.names.len()
    }

    /// Adds a map, if it is not waited for already and there is room. Says
    /// whether it was added.
    pub fn add_map(&mut self, name: &str) -> (r: bool)
        ensures
            r == (!old(self)@.contains(name@) && old(self)@.len() < MAX_WATCHED),
            final(self)@ == if r {
                old(self)@.push(name@)
            } else {
                old(self)@
            },
    {
        proof {
            use_type_invariant(&*self);
        }
        let ghost before = self@;
        let mut out: Vec<String> = Vec::new();
        let mut i: usize = 0;
        assert(string_views(out@) =~= before.take(0));
        while i < self.names.len()
            invariant
                i <= self.names.len(),
                before == self@,
                before == string_views(self.names@),
                string_views(out@) == before.take(i as int),
                forall|j: int| 0 <= j < i ==> #[trigger] before[j] != name@,
            decreases self.names.len() - i,
        {
            assert(before[i as int] == self.names@[i as int]@);
            if same_str(self.names[i].as_str(), name) {
                assert(before.contains(name@));
                return false;
            }
            let ghost so_far = string_views(out@);
            let copy: String = copy_str(&self.names[i]);
            out.push(copy);
            assert(string_views(out@) =~= so_far.push(copy@));
            assert(before.take(i + 1) =~= before.take(i as int).push(before[i as int]));
            i = i + 1;
        }
        assert(!before.contains(name@));
        if self.names.len() >= MAX_WATCHED {
            return false;
        }
        assert(before.take(before.len() as int) =~= before);
        let copy: String = name.to_owned();
        out.push(copy);
        assert(string_views(out@) =~= before.push(name@));
        self.names = out;
        true
    }

    /// Takes a map off the list.
    pub fn remove(&mut self, name: &str)
        ensures
            final(self)@ == without(old(self)@, name@),
    {
        proof {
            use_type_invariant(&*self);
        }
        let ghost before = self@;
        let mut out: Vec<String> = Vec::new();
        let mut i: usize = 0;
        assert(before.take(0) =~= Seq::empty());
        assert(string_views(out@) =~= Seq::empty());
        while i < self.names.len()
            invariant
                i <= self.names.len(),
                before == string_views(self.names@),
                string_views(out@) == without(before.take(i as int), name@),
            decreases self.names.len() - i,
        {
            let ghost so_far = string_views(out@);
            assert(before[i as int] == self.names@[i as int]@);
            assert(before.take(i + 1).drop_last() =~= before.take(i as int));
            assert(before.take(i + 1).last() == before[i as int]);
            if !same_str(self.names[i].as_str(), name) {
                let copy: String = copy_str(&self.names[i]);
                out.push(copy);
                assert(string_views(out@) =~= so_far.push(copy@));
            }
            i = i + 1;
        }
        proof {
            assert(before.take(before.len() as int) =~= before);
            without_members(before, name@);
        }
        self.names = out;
    }
}

/// A map that was added and then taken off is not waited for, and every other
/// one is as before.
pub proof fn added_and_removed_is_gone(s: Seq<Seq<char>>, name: Seq<char>)
    requires
        !s.contains(name),
    ensures
        without(s.push(name), name) == s,
{
    assert(s.push(name).drop_last() =~= s);
    without_absent(s, name);
}

proof fn without_absent(s: Seq<Seq<char>>, name: Seq<char>)
    requires
        !s.contains(name),
    ensures
        without(s, name) == s,
    decreases s.len(),
{
    if s.len() > 0 {
        let t = s.drop_last();
        assert(!t.contains(name)) by {
            if t.contains(name) {
                let i = choose|i: int| 0 <= i < t.len() && t[i] == name;
                assert(s[i] == name);
            }
        }
        assert(s[s.len() - 1] != name);
        without_absent(t, name);
        assert(s =~= t.push(s.last()));
    }
}

/// What a wait remembers: the looks without progress, and the size of each
/// candidate at the last look.
#[derive(Clone, Copy, Debug, Eq, PartialEq, Structural)]
pub struct Watcher {
    pub idle: u32,
    pub first: Option<u64>,
    pub second: Option<u64>,
}

/// Where a wait stands.
#[derive(Clone, Copy, Debug, Eq, PartialEq, Structural)]
pub enum WatchPhase {
    /// A pause is due.
    Sleep,
    /// The size of this candidate is wanted.
    Look(bool),
    /// This candidate has not changed: it is to be fixed.
    Fix(bool),
    /// It was, with so many files; or waiting was given up.
    Finished(Option<u64>),
}

/// What came of an action. A candidate is the second one, or the first.
#[derive(Clone, Copy, Debug, Eq, PartialEq, Structural)]
pub enum WatchReply {
    Slept,
    /// The size of the candidate, if it is there.
    Size(Option<u64>),
    /// How many files were unpacked, if the candidate could be read.
    Fixed(Option<u64>),
}

impl Watcher {
    /// The last size of a candidate.
    pub open spec fn last(self, second: bool) -> Option<u64> {
        if second {
            self.second
        } else {
            self.first
        }
    }

    /// After a candidate has another size.
    pub open spec fn grown(self, second: bool, size: u64) -> Watcher {
        if second {
            Watcher { idle: 0, second: Some(size), ..self }
        } else {
            Watcher { idle: 0, first: Some(size), ..self }
        }
    }

    /// After one candidate comes the other; after both comes a pause, unless
    /// patience has run out.
    pub open spec fn after(self, second: bool) -> WatchPhase {
        if !second {
            WatchPhase::Look(true)
        } else if self.idle < PATIENCE {
            WatchPhase::Sleep
        } else {
            WatchPhase::Finished(None)
        }
    }

    /// After a reply. One that was not waited for changes nothing.
    pub open spec fn next(self, phase: WatchPhase, reply: WatchReply) -> (Watcher, WatchPhase) {
        match (phase, reply) {
            (WatchPhase::Sleep, WatchReply::Slept) => (
                Watcher { idle: (self.idle + 1) as u32, ..self },
                WatchPhase::Look(false),
            ),
            (WatchPhase::Look(second), WatchReply::Size(size)) => match size {
                None => (self, self.after(second)),
                Some(n) => if self.last(second) == Some(n) {
                    (self, WatchPhase::Fix(second))
                } else {
                    (self.grown(second, n), self.grown(second, n).after(second))
                },
            },
            (WatchPhase::Fix(second), WatchReply::Fixed(done)) => match done {
                Some(n) => (self, WatchPhase::Finished(Some(n))),
                None => (self, self.after(second)),
            },
            _ => (self, phase),
        }
    }

    /// The watcher's count is in range for its phase.
    pub open spec fn wf(self, phase: WatchPhase) -> bool {
        self.idle <= PATIENCE && (phase == WatchPhase::Sleep ==> self.idle < PATIENCE)
    }

    /// Starts a wait.
    pub fn new() -> (r: Watcher)
        ensures
            r == (Watcher { idle: 0, first: None, second: None }),
            r.wf(WatchPhase::Sleep),
    {
        Watcher { idle: 0, first: None, second: None }
    }

    fn go_on(&self, second: bool) -> (r: WatchPhase)
        ensures
            r == self.after(second),
    {
        if !second {
            WatchPhase::Look(true)
        } else if self.idle < PATIENCE {
            WatchPhase::Sleep
        } else {
            WatchPhase::Finished(None)
        }
    }

    /// Takes the reply to an action. One that was not waited for changes
    /// nothing.
    pub fn step(&mut self, phase: WatchPhase, reply: WatchReply) -> (r: WatchPhase)
        requires
            old(self).wf(phase),
        ensures
            (*final(self), r) == old(self).next(phase, reply),
            final(self).wf(r),
    {
        match (phase, reply) {
            (WatchPhase::Sleep, WatchReply::Slept) => {
                self.idle = self.idle + 1;
                WatchPhase::Look(false)
            },
            (WatchPhase::Look(second), WatchReply::Size(size)) => match size {
                None => self.go_on(second),
                Some(n) => {
                    let last: Option<u64> = if second {
                        self.second
                    } else {
                        self.first
                    };
                    let same: bool = match last {
                        Some(m) => m == n,
                        None => false,
                    };
                    if same {
                        WatchPhase::Fix(second)
                    } else {
                        self.idle = 0;
                        if second {
                            self.second = Some(n);
                        } else {
                            self.first = Some(n);
                        }
                        self.go_on(second)
                    }
                },
            },
            (WatchPhase::Fix(second), WatchReply::Fixed(done)) => match done {
                Some(n) => WatchPhase::Finished(Some(n)),
                None => self.go_on(second),
            },
            (phase, _) => phase,
        }
    }
}

/// Only a file whose size has not changed since the last look is fixed.
pub proof fn only_stable_files_are_fixed(
    w: Watcher,
    phase: WatchPhase,
    reply: WatchReply,
    second: bool,
)
    requires
        phase != WatchPhase::Fix(second),
        w.next(phase, reply).1 == WatchPhase::Fix(second),
    ensures
        phase == WatchPhase::Look(second),
        reply is Size && reply->Size_0 is Some && reply->Size_0 == w.last(second),
{
}

/// Waiting is given up only after as many looks without progress as patience
/// allows.
pub proof fn patience_is_kept(w: Watcher, phase: WatchPhase, reply: WatchReply)
    requires
        w.wf(phase),
        phase != WatchPhase::Finished(None),
        w.next(phase, reply).1 == WatchPhase::Finished(None),
    ensures
        w.next(phase, reply).0.idle == PATIENCE,
{
}

/// A file that grows starts the count anew.
pub proof fn growth_renews_patience(w: Watcher, second: bool, size: u64)
    requires
        w.last(second) != Some(size),
    ensures
        w.next(WatchPhase::Look(second), WatchReply::Size(Some(size))).0.idle == 0,
{
}

/// A file that is complete is fixed: one that has the same size in two looks is
/// unpacked, and what was unpacked ends the wait.
pub proof fn a_complete_file_is_fixed(w: Watcher, second: bool, size: u64, files: u64)
    ensures
        ({
            let seen = w.next(WatchPhase::Look(second), WatchReply::Size(Some(size))).0;
            &&& seen.last(second) == Some(size)
            &&& seen.last(!second) == w.last(!second)
            &&& seen.next(WatchPhase::Look(second), WatchReply::Size(Some(size))).1
                == WatchPhase::Fix(second)
        }),
        w.next(WatchPhase::Fix(second), WatchReply::Fixed(Some(files))).1 == WatchPhase::Finished(
            Some(files),
        ),
{
}

/// Both candidates are looked at in turn, after every pause, and an unreadable
/// or missing one does not end the wait.
pub proof fn both_candidates_are_looked_at(w: Watcher)
    requires
        w.idle < 239,
    ensures
        w.next(WatchPhase::Sleep, WatchReply::Slept).1 == WatchPhase::Look(false),
        w.next(WatchPhase::Look(false), WatchReply::Size(None)).1 == WatchPhase::Look(true),
        w.next(WatchPhase::Fix(false), WatchReply::Fixed(None)).1 == WatchPhase::Look(true),
        w.next(WatchPhase::Look(true), WatchReply::Size(None)).1 == WatchPhase::Sleep,
        w.next(WatchPhase::Fix(true), WatchReply::Fixed(None)).1 == WatchPhase::Sleep,
{
}

/// A file that has grown is looked at again.
pub proof fn a_growing_file_is_waited_for(w: Watcher, size: u64)
    requires
        w.last(true) != Some(size),
        w.last(false) != Some(size),
    ensures
        w.next(WatchPhase::Look(false), WatchReply::Size(Some(size))).1 == WatchPhase::Look(true),
        w.next(WatchPhase::Look(true), WatchReply::Size(Some(size))).1 == WatchPhase::Sleep,
        w.next(WatchPhase::Look(true), WatchReply::Size(Some(size))).0.last(true) == Some(size),
{
}

/// A round without any file counts one look; after 240 of them in a row waiting
/// is given up, and not before.
pub proof fn patience_lasts_240_looks(w: Watcher)
    requires
        w.idle < 240,
    ensures
        ({
            let a = w.next(WatchPhase::Sleep, WatchReply::Slept);
            let b = a.0.next(WatchPhase::Look(false), WatchReply::Size(None));
            let c = b.0.next(WatchPhase::Look(true), WatchReply::Size(None));
            &&& c.0.idle == w.idle + 1
            &&& c.0.first == w.first
            &&& c.0.second == w.second
            &&& w.idle < 239 ==> c.1 == WatchPhase::Sleep
            &&& w.idle == 239 ==> c.1 == WatchPhase::Finished(None)
        }),
{
}

/// Taking a map off the list takes that one, and leaves every other one on it.
pub proof fn only_the_named_map_is_removed(s: Seq<Seq<char>>, name: Seq<char>, x: Seq<char>)
    ensures
        !without(s, name).contains(name),
        x != name ==> (without(s, name).contains(x) <==> s.contains(x)),
{
    without_members(s, name);
}

/// Eight maps are waited for at a time.
pub proof fn eight_maps_are_waited_for()
    ensures
        MAX_WATCHED == 8,
{
}

} // verus!
