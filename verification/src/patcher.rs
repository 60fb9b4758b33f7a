//! Switching the prediction patch on and off on Linux.
//!
//! The branches are overwritten one after the other; what stood there was read
//! before the first write, and is what is put back.
use vstd::prelude::*;

use crate::code::{nop_fill, nops};
use crate::predict::LinuxSite;
use crate::transaction::{agree_outside, same_memory, stands, Memory};

verus! {

/// A branch and the bytes that it holds.
pub struct Branch {
    pub site: LinuxSite,
    pub original: Vec<u8>,
}

/// The value of a `Branch`.
#[verifier::ext_equal]
pub struct BranchView {
    pub name: Seq<char>,
    pub addr: int,
    pub len: int,
    pub original: Seq<u8>,
}

impl View for Branch {
    type V = BranchView;

    open spec fn view(&self) -> BranchView {
        BranchView {
            name: self.site.name@,
            addr: self.site.addr as int,
            len: self.site.len as int,
            original: self.original@,
        }
    }
}

impl BranchView {
    /// What is written, for a patch that is on or off.
    pub open spec fn bytes(self, on: bool) -> Seq<u8> {
        if on {
            nops(self.original.len())
        } else {
            self.original
        }
    }
}

/// The branches of a game, and whether they are overwritten.
pub struct Patcher {
    pub branches: Vec<Branch>,
    pub enabled: bool,
}

/// Where a switch stands.
pub enum Switch {
    /// Whether the process is still the game is asked.
    Check,
    /// Branch `0` is written.
    Write(usize),
    /// All are written, or why not.
    Done(Result<(), String>),
}

/// The value of a `Switch`.
#[verifier::ext_equal]
pub enum SwitchView {
    Check,
    Write(int),
    Done(Result<(), Seq<char>>),
}

impl View for Switch {
    type V = SwitchView;

    open spec fn view(&self) -> SwitchView {
        match *self {
            Switch::Check => SwitchView::Check,
            Switch::Write(i) => SwitchView::Write(i as int),
            Switch::Done(Ok(_)) => SwitchView::Done(Ok(())),
            Switch::Done(Err(e)) => SwitchView::Done(Err(e@)),
        }
    }
}

/// What came of the last request.
pub enum SwitchReply {
    /// Whether the process is the game.
    Game(bool),
    /// What the write gave.
    Wrote(Result<(), String>),
}

/// The value of a `SwitchReply`.
#[verifier::ext_equal]
pub enum SwitchReplyView {
    Game(bool),
    Wrote(Result<(), Seq<char>>),
}

impl View for SwitchReply {
    type V = SwitchReplyView;

    open spec fn view(&self) -> SwitchReplyView {
        match *self {
            SwitchReply::Game(b) => SwitchReplyView::Game(b),
            SwitchReply::Wrote(Ok(_)) => SwitchReplyView::Wrote(Ok(())),
            SwitchReply::Wrote(Err(e)) => SwitchReplyView::Wrote(Err(e@)),
        }
    }
}

impl SwitchView {
    /// The branch from `i` on that is written next, among `count`.
    pub open spec fn from(i: int, count: int) -> SwitchView {
        if i < count {
            SwitchView::Write(i)
        } else {
            SwitchView::Done(Ok(()))
        }
    }

    /// What comes after a reply. A process that is no longer the game is not
    /// written to, and the first write that fails ends the switch.
    pub open spec fn next(self, count: int, reply: SwitchReplyView) -> SwitchView {
        match (self, reply) {
            (SwitchView::Check, SwitchReplyView::Game(game)) => if game {
                SwitchView::from(0, count)
            } else {
                SwitchView::Done(Err("target pid is no longer a CS:S process"@))
            },
            (SwitchView::Write(i), SwitchReplyView::Wrote(r)) => match r {
                Ok(_) => SwitchView::from(i + 1, count),
                Err(e) => SwitchView::Done(Err(e)),
            },
            (at, _) => at,
        }
    }
}

impl Patcher {
    /// The branches of a game that is not patched.
    pub fn new(branches: Vec<Branch>) -> (r: Patcher)
        ensures
            r.branches@ == branches@,
            !r.enabled,
    {
        Patcher { branches, enabled: false }
    }

    /// What is written at branch `i`.
    pub fn bytes(&self, i: usize, on: bool) -> (r: Vec<u8>)
        requires
            i < self.branches@.len(),
        ensures
            r@ == self.branches@[i as int]@.bytes(on),
    {
        let b: &Branch = &self.branches[i];
        if on {
            nop_fill(b.original.len())
        } else {
            vstd::slice::slice_to_vec(b.original.as_slice())
        }
    }

    /// Takes a reply.
    pub fn step(&self, at: Switch, reply: SwitchReply) -> (r: Switch)
        requires
            at is Write ==> at->Write_0 < self.branches@.len(),
        ensures
            r@ == at@.next(self.branches@.len() as int, reply@),
            r is Write ==> r->Write_0 < self.branches@.len(),
    {
        let count: usize = self.branches.len();
        match (at, reply) {
            (Switch::Check, SwitchReply::Game(game)) => if !game {
                Switch::Done(Err("target pid is no longer a CS:S process".to_owned()))
            } else if count > 0 {
                Switch::Write(0)
            } else {
                Switch::Done(Ok(()))
            },
            (Switch::Write(i), SwitchReply::Wrote(r)) => match r {
                Ok(_) => if i + 1 < count {
                    Switch::Write(i + 1)
                } else {
                    Switch::Done(Ok(()))
                },
                Err(e) => Switch::Done(Err(e)),
            },
            (at, _) => at,
        }
    }

    /// Takes the outcome of a switch: only one that went through changes what
    /// the patch counts as. Gives what is said where it did not.
    pub fn settle(&mut self, on: bool, outcome: &Result<(), String>) -> (r: Option<String>)
        ensures
            final(self).branches@ == old(self).branches@,
            final(self).enabled == (if outcome is Ok {
                on
            } else {
                old(self).enabled
            }),
            match (*outcome, r) {
                (Ok(_), None) => true,
                (Err(e), Some(t)) => t@ == (if on {
                    "[!] failed to patch: "@
                } else {
                    "[!] failed to restore: "@
                }) + e@,
                _ => false,
            },
    {
        match outcome {
            Ok(_) => {
                self.enabled = on;
                None
            },
            Err(e) => {
                let mut text: String = if on {
                    "[!] failed to patch: ".to_owned()
                } else {
                    "[!] failed to restore: ".to_owned()
                };
                text.append(e.as_str());
                Some(text)
            },
        }
    }
}

/// The head line above the branches.
pub fn status_head(on: bool) -> (r: String)
    ensures
        r@ == "\n=== Autobhop prediction: "@ + (if on {
            "ON"@
        } else {
            "OFF"@
        }) + " ==="@,
{
    let mut text: String = "\n=== Autobhop prediction: ".to_owned();
    text.append(
        if on {
            "ON"
        } else {
            "OFF"
        },
    );
    text.append(" ===");
    text
}

/// One moment of a switch: the game's memory, and where the switch stands.
pub struct SwitchMoment {
    pub mem: Memory,
    pub at: SwitchView,
}

/// The reply, and the memory after it, are what a kernel gives that does as it
/// is asked: a write that succeeds puts the bytes there, and none touches
/// anything else.
pub open spec fn honest_switch(
    branches: Seq<BranchView>,
    on: bool,
    m: SwitchMoment,
    reply: SwitchReplyView,
    after: Memory,
) -> bool {
    match (m.at, reply) {
        (SwitchView::Write(i), SwitchReplyView::Wrote(r)) => {
            let b = branches[i];
            &&& agree_outside(m.mem, after, b.addr, b.original.len() as int)
            &&& r is Ok ==> stands(after, b.addr, b.bytes(on))
        },
        _ => same_memory(m.mem, after),
    }
}

/// The moments are a run of a switch.
pub open spec fn switch_run(
    branches: Seq<BranchView>,
    on: bool,
    ms: Seq<SwitchMoment>,
    rs: Seq<SwitchReplyView>,
) -> bool {
    &&& ms.len() == rs.len() + 1
    &&& ms[0].at == SwitchView::Check
    &&& forall|i: int|
        #![trigger ms[i]]
        0 <= i < rs.len() ==> {
            &&& ms[i + 1].at == ms[i].at.next(branches.len() as int, rs[i])
            &&& honest_switch(branches, on, ms[i], rs[i], ms[i + 1].mem)
        }
}

/// The address lies in a branch.
pub open spec fn in_branch(b: BranchView, a: int) -> bool {
    b.addr <= a < b.addr + b.original.len()
}

/// The memories agree outside the branches.
pub open spec fn agree_elsewhere(a: Memory, b: Memory, branches: Seq<BranchView>) -> bool {
    forall|x: int|
        (forall|k: int| 0 <= k < branches.len() ==> !in_branch(#[trigger] branches[k], x))
            ==> #[trigger] a(x) == b(x)
}

/// The branches hold what they held in `mem`.
pub open spec fn read_from(mem: Memory, branches: Seq<BranchView>) -> bool {
    forall|k: int|
        0 <= k < branches.len() ==> stands(
            mem,
            (#[trigger] branches[k]).addr,
            branches[k].original,
        )
}

/// What byte the patch leaves at an address, given what the game had there.
spec fn wanted(on: bool, game: Memory, x: int) -> u8 {
    if on {
        0x90
    } else {
        game(x)
    }
}

spec fn written_to(
    branches: Seq<BranchView>,
    on: bool,
    game: Memory,
    mem: Memory,
    n: int,
) -> bool {
    forall|k: int, x: int|
        0 <= k < n && in_branch(#[trigger] branches[k], x) ==> #[trigger] mem(x) == wanted(
            on,
            game,
            x,
        )
}

spec fn sound(
    branches: Seq<BranchView>,
    on: bool,
    game: Memory,
    first: Memory,
    m: SwitchMoment,
) -> bool {
    &&& agree_elsewhere(first, m.mem, branches)
    &&& match m.at {
        SwitchView::Check => same_memory(first, m.mem),
        SwitchView::Write(i) => 0 <= i < branches.len() && written_to(
            branches,
            on,
            game,
            m.mem,
            i,
        ),
        SwitchView::Done(Ok(_)) => written_to(
            branches,
            on,
            game,
            m.mem,
            branches.len() as int,
        ),
        SwitchView::Done(Err(_)) => true,
    }
}

proof fn step_is_sound(
    branches: Seq<BranchView>,
    on: bool,
    game: Memory,
    first: Memory,
    m: SwitchMoment,
    reply: SwitchReplyView,
    after: Memory,
)
    requires
        read_from(game, branches),
        sound(branches, on, game, first, m),
        honest_switch(branches, on, m, reply, after),
    ensures
        sound(
            branches,
            on,
            game,
            first,
            SwitchMoment { mem: after, at: m.at.next(branches.len() as int, reply) },
        ),
{
    match (m.at, reply) {
        (SwitchView::Write(i), SwitchReplyView::Wrote(r)) => {
            let b = branches[i];
            assert forall|x: int|
                (forall|k: int|
                    0 <= k < branches.len() ==> !in_branch(
                        #[trigger] branches[k],
                        x,
                    )) implies #[trigger] first(x) == after(x) by {
                assert(!in_branch(branches[i], x));
                assert((m.mem)(x) == after(x));
            }
            if r is Ok {
                assert forall|k: int, x: int|
                    0 <= k < i + 1 && in_branch(
                        #[trigger] branches[k],
                        x,
                    ) implies #[trigger] after(x) == wanted(on, game, x) by {
                    if in_branch(b, x) {
                        assert(after(b.addr + (x - b.addr)) == b.bytes(on)[x - b.addr]);
                        assert(game(b.addr + (x - b.addr)) == b.original[x - b.addr]);
                    } else {
                        assert((m.mem)(x) == after(x));
                    }
                }
            }
        },
        _ => {
            assert forall|x: int|
                (forall|k: int|
                    0 <= k < branches.len() ==> !in_branch(
                        #[trigger] branches[k],
                        x,
                    )) implies #[trigger] first(x) == after(x) by {
                assert((m.mem)(x) == after(x));
            }
            if m.at is Check {
                assert forall|x: int| #[trigger] first(x) == after(x) by {
                    assert((m.mem)(x) == after(x));
                }
            } else {
                assert forall|k: int, x: int|
                    0 <= k < branches.len() && in_branch(#[trigger] branches[k], x) && (m.mem)(x)
                        == wanted(on, game, x) implies #[trigger] after(x) == wanted(
                    on,
                    game,
                    x,
                ) by {
                    assert((m.mem)(x) == after(x));
                }
            }
        },
    }
}

proof fn run_is_sound(
    branches: Seq<BranchView>,
    on: bool,
    game: Memory,
    ms: Seq<SwitchMoment>,
    rs: Seq<SwitchReplyView>,
    n: int,
)
    requires
        read_from(game, branches),
        switch_run(branches, on, ms, rs),
        0 <= n < ms.len(),
    ensures
        sound(branches, on, game, ms[0].mem, ms[n]),
    decreases n,
{
    if n > 0 {
        run_is_sound(branches, on, game, ms, rs, n - 1);
        assert(ms[n - 1 + 1] == ms[n]);
        assert(ms[n - 1].at == ms[n - 1].at);
        step_is_sound(branches, on, game, ms[0].mem, ms[n - 1], rs[n - 1], ms[n].mem);
        assert(ms[n] == (SwitchMoment {
            mem: ms[n].mem,
            at: ms[n - 1].at.next(branches.len() as int, rs[n - 1]),
        }));
    }
}

/// A switch, however it ends, touches nothing but the branches; one that goes
/// through and is on leaves a NOP in every byte of every branch, also where
/// branches overlap.
pub proof fn switched_on_means_all_nops(
    branches: Seq<BranchView>,
    game: Memory,
    ms: Seq<SwitchMoment>,
    rs: Seq<SwitchReplyView>,
    k: int,
    x: int,
)
    requires
        read_from(game, branches),
        switch_run(branches, true, ms, rs),
    ensures
        agree_elsewhere(ms[0].mem, ms.last().mem, branches),
        ms.last().at == SwitchView::Done(Ok(())) && 0 <= k < branches.len() && in_branch(
            branches[k],
            x,
        ) ==> (ms.last().mem)(x) == 0x90,
{
    run_is_sound(branches, true, game, ms, rs, ms.len() - 1);
    assert(branches[k] == branches[k]);
}

/// Switching off gives back the game's memory as it was when the branches were
/// read, byte for byte, wherever nobody else wrote in between.
pub proof fn switched_off_gives_the_game_back(
    branches: Seq<BranchView>,
    game: Memory,
    ms: Seq<SwitchMoment>,
    rs: Seq<SwitchReplyView>,
)
    requires
        read_from(game, branches),
        switch_run(branches, false, ms, rs),
        agree_elsewhere(game, ms[0].mem, branches),
    ensures
        ms.last().at == SwitchView::Done(Ok(())) ==> same_memory(game, ms.last().mem),
{
    run_is_sound(branches, false, game, ms, rs, ms.len() - 1);
    if ms.last().at == SwitchView::Done(Ok(())) {
        let last = ms.last().mem;
        assert forall|x: int| #[trigger] game(x) == last(x) by {
            if forall|k: int| 0 <= k < branches.len() ==> !in_branch(#[trigger] branches[k], x) {
                assert(game(x) == (ms[0].mem)(x));
                assert((ms[0].mem)(x) == last(x));
            } else {
                let k = choose|k: int|
                    0 <= k < branches.len() && in_branch(#[trigger] branches[k], x);
                assert(in_branch(branches[k], x));
                assert(last(x) == wanted(false, game, x));
            }
        }
    }
}

/// A switch goes through: the process is seen to be the game, every branch is
/// written in order, and that is the end. A process that is another one is not
/// written to, and a write that fails ends it.
pub proof fn a_switch_goes_through(count: int, i: int, e: Seq<char>)
    requires
        0 < count,
        0 <= i < count,
    ensures
        SwitchView::Check.next(count, SwitchReplyView::Game(true)) == SwitchView::Write(0),
        i + 1 < count ==> SwitchView::Write(i).next(count, SwitchReplyView::Wrote(Ok(())))
            == SwitchView::Write(i + 1),
        SwitchView::Write(count - 1).next(count, SwitchReplyView::Wrote(Ok(()))) == SwitchView::Done(
            Ok::<(), Seq<char>>(()),
        ),
        SwitchView::Check.next(count, SwitchReplyView::Game(false)) matches SwitchView::Done(Err(_)),
        SwitchView::Write(i).next(count, SwitchReplyView::Wrote(Err(e))) == SwitchView::Done(
            Err::<(), Seq<char>>(e),
        ),
{
}

/// What is written: NOPs over the whole branch, or its own bytes again.
pub proof fn branches_are_filled_or_put_back(b: BranchView, i: int)
    requires
        0 <= i < b.original.len(),
    ensures
        b.bytes(true).len() == b.original.len(),
        b.bytes(true)[i] == 0x90,
        b.bytes(false) == b.original,
{
}

} // verus!
