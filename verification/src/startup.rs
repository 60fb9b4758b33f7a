//! Starting the work on a game: everything that has to hold before its first
//! byte is changed.
use vstd::prelude::*;

use crate::procfs::{has_argument, has_insecure, insecure_flag};
use crate::target::Verdict;

verus! {

/// Said of a game on Linux that does not run insecurely.
pub open spec fn secure_text() -> Seq<char> {
    "[!] the game was NOT started with -insecure.\n[!] refusing to patch.\n[!] restart the game through this tool instead."@
}

/// Whether a game that runs on Linux may be patched, or what to say instead.
/// `cmdline` is its command line, if that can be read.
pub fn admit_attach(cmdline: Option<&[u8]>) -> (r: Result<(), String>)
    ensures
        match r {
            Ok(_) => cmdline is Some && has_argument(cmdline->0@, insecure_flag()),
            Err(e) => !(cmdline is Some && has_argument(cmdline->0@, insecure_flag())) && e@
                == secure_text(),
        },
{
    let insecure: bool = match cmdline {
        Some(line) => has_insecure(line),
        None => false,
    };
    if insecure {
        Ok(())
    } else {
        Err(
            "[!] the game was NOT started with -insecure.\n[!] refusing to patch.\n[!] restart the game through this tool instead.".to_owned(),
        )
    }
}

/// What the Windows controller does next.
#[derive(Clone, Copy, Debug, PartialEq, Eq, Structural)]
pub enum Startup {
    /// The process is opened.
    Open,
    /// What runs there is judged.
    Judge,
    /// The game's client is waited for.
    Client,
    /// The branches are looked for.
    Discover,
    /// The library is looked for beside the program.
    Library,
    /// The library is loaded into the game.
    Inject,
    /// The library is waited for until it serves.
    Ready,
    /// The branches are patched.
    Patch,
    /// They could not be: the library is taken out again.
    Withdraw,
    /// Everything is in: the keys are served.
    Serve,
    /// The program ends with this code.
    Exit(u32),
}

/// What came of the last action.
#[derive(Clone, Copy, Debug, PartialEq, Eq, Structural)]
pub enum StartupReply {
    Opened(bool),
    Judged(Verdict),
    /// Whether the client came, before the user or the game ended.
    Client(bool),
    Discovered(bool),
    Library(bool),
    Injected(bool),
    Ready(bool),
    Patched(bool),
    /// Whether the library is out again.
    Withdrawn(bool),
}

impl Startup {
    /// On, or the end with code 1.
    pub open spec fn onward(self, ok: bool) -> Startup {
        if ok {
            self
        } else {
            Startup::Exit(1)
        }
    }

    /// What follows a reply. One that was not waited for changes nothing.
    pub open spec fn next(self, reply: StartupReply) -> Startup {
        match (self, reply) {
            (Startup::Open, StartupReply::Opened(ok)) => Startup::Judge.onward(ok),
            (Startup::Judge, StartupReply::Judged(v)) => Startup::Client.onward(
                v == Verdict::Admitted,
            ),
            (Startup::Client, StartupReply::Client(came)) => if came {
                Startup::Discover
            } else {
                Startup::Exit(0)
            },
            (Startup::Discover, StartupReply::Discovered(ok)) => Startup::Library.onward(ok),
            (Startup::Library, StartupReply::Library(ok)) => Startup::Inject.onward(ok),
            (Startup::Inject, StartupReply::Injected(ok)) => Startup::Ready.onward(ok),
            (Startup::Ready, StartupReply::Ready(ok)) => Startup::Patch.onward(ok),
            (Startup::Patch, StartupReply::Patched(ok)) => if ok {
                Startup::Serve
            } else {
                Startup::Withdraw
            },
            (Startup::Withdraw, StartupReply::Withdrawn(_)) => Startup::Exit(1),
            _ => self,
        }
    }

    /// Takes a reply.
    pub fn step(self, reply: StartupReply) -> (r: Startup)
        ensures
            r == self.next(reply),
    {
        let (next, ok): (Startup, bool) = match (self, reply) {
            (Startup::Open, StartupReply::Opened(ok)) => (Startup::Judge, ok),
            (Startup::Judge, StartupReply::Judged(v)) => (Startup::Client, v == Verdict::Admitted),
            (Startup::Client, StartupReply::Client(came)) => {
                return if came {
                    Startup::Discover
                } else {
                    Startup::Exit(0)
                };
            },
            (Startup::Discover, StartupReply::Discovered(ok)) => (Startup::Library, ok),
            (Startup::Library, StartupReply::Library(ok)) => (Startup::Inject, ok),
            (Startup::Inject, StartupReply::Injected(ok)) => (Startup::Ready, ok),
            (Startup::Ready, StartupReply::Ready(ok)) => (Startup::Patch, ok),
            (Startup::Patch, StartupReply::Patched(ok)) => {
                return if ok {
                    Startup::Serve
                } else {
                    Startup::Withdraw
                };
            },
            (Startup::Withdraw, StartupReply::Withdrawn(_)) => (Startup::Open, false),
            (at, _) => (at, true),
        };
        if ok {
            next
        } else {
            Startup::Exit(1)
        }
    }
}

/// A start, and what it has done to the game.
pub struct StartupMoment {
    pub at: Startup,
    /// The target was judged, and admitted.
    pub admitted: bool,
    /// Both branches are known.
    pub found: bool,
    /// Whether the library is in the game, and serves there.
    pub loaded: bool,
    pub serving: bool,
    pub patched: bool,
}

/// One step of a caller that does what it is asked and says what came of it. A
/// patch that fails changes nothing; a library that does not come to serve may
/// stay in the game.
pub open spec fn honest_start(m: StartupMoment, reply: StartupReply, n: StartupMoment) -> bool {
    &&& n.at == m.at.next(reply)
    &&& n.admitted == (m.admitted || m.at == Startup::Judge && reply == StartupReply::Judged(
        Verdict::Admitted,
    ))
    &&& n.found == (m.found || m.at == Startup::Discover && reply == StartupReply::Discovered(true))
    &&& match (m.at, reply) {
        (Startup::Inject, StartupReply::Injected(ok)) => n.loaded == ok && n.serving == m.serving,
        (Startup::Ready, StartupReply::Ready(ok)) => if ok {
            n.loaded == m.loaded && n.serving == m.loaded
        } else {
            n.loaded ==> m.loaded
        },
        (Startup::Withdraw, StartupReply::Withdrawn(gone)) => n.loaded == (m.loaded && !gone)
            && n.serving == (m.serving && !gone),
        _ => n.loaded == m.loaded && n.serving == m.serving,
    }
    &&& n.patched == (m.patched || m.at == Startup::Patch && reply == StartupReply::Patched(true))
}

/// A start on a game that nothing was done to.
pub open spec fn is_start(ms: Seq<StartupMoment>, rs: Seq<StartupReply>) -> bool {
    &&& ms.len() == rs.len() + 1
    &&& ms[0] == (StartupMoment {
        at: Startup::Open,
        admitted: false,
        found: false,
        loaded: false,
        serving: false,
        patched: false,
    })
    &&& forall|i: int| 0 <= i < rs.len() ==> honest_start(ms[i], #[trigger] rs[i], ms[i + 1])
}

/// What holds on the way.
spec fn prepared(m: StartupMoment) -> bool {
    &&& m.loaded ==> m.admitted && m.found
    &&& m.patched ==> m.admitted && m.found && m.at == Startup::Serve
    &&& match m.at {
        Startup::Open | Startup::Judge => !m.loaded,
        Startup::Client | Startup::Discover => m.admitted && !m.loaded,
        Startup::Library | Startup::Inject => m.admitted && m.found && !m.loaded,
        Startup::Ready => m.admitted && m.found && m.loaded,
        Startup::Patch | Startup::Withdraw => m.admitted && m.found && m.loaded && m.serving,
        Startup::Serve => m.admitted && m.found && m.loaded && m.serving && m.patched,
        Startup::Exit(code) => code == 0 ==> !m.loaded,
    }
}

proof fn a_start_is_prepared(ms: Seq<StartupMoment>, rs: Seq<StartupReply>, n: int)
    requires
        is_start(ms, rs),
        0 <= n < ms.len(),
    ensures
        prepared(ms[n]),
    decreases n,
{
    if n > 0 {
        a_start_is_prepared(ms, rs, n - 1);
        assert(honest_start(ms[n - 1], rs[n - 1], ms[n - 1 + 1]));
    }
}

/// Nothing is loaded into a target that was not admitted, or before both
/// branches are known; nothing is patched before the library serves; and a
/// start that ends, ends without a patch.
pub proof fn nothing_is_touched_too_early(ms: Seq<StartupMoment>, rs: Seq<StartupReply>)
    requires
        is_start(ms, rs),
    ensures
        ms.last().loaded ==> ms.last().admitted && ms.last().found,
        ms.last().patched ==> ms.last().admitted && ms.last().found && ms.last().loaded
            && ms.last().serving,
        ms.last().patched <==> ms.last().at == Startup::Serve,
        ms.last().at is Exit ==> !ms.last().patched,
        ms.last().at == Startup::Exit(0) ==> !ms.last().loaded,
{
    a_start_is_prepared(ms, rs, ms.len() - 1);
}

/// A start goes through: each step that went well leads to the next, down to
/// serving the keys.
pub proof fn a_start_goes_through()
    ensures
        Startup::Open.next(StartupReply::Opened(true)) == Startup::Judge,
        Startup::Judge.next(StartupReply::Judged(Verdict::Admitted)) == Startup::Client,
        Startup::Client.next(StartupReply::Client(true)) == Startup::Discover,
        Startup::Discover.next(StartupReply::Discovered(true)) == Startup::Library,
        Startup::Library.next(StartupReply::Library(true)) == Startup::Inject,
        Startup::Inject.next(StartupReply::Injected(true)) == Startup::Ready,
        Startup::Ready.next(StartupReply::Ready(true)) == Startup::Patch,
        Startup::Patch.next(StartupReply::Patched(true)) == Startup::Serve,
{
}

/// A start that does not go through ends: without the client as if nothing had
/// been, at any other step with code 1, and a patch that failed has the library
/// taken out first.
pub proof fn a_failed_start_ends(v: Verdict, gone: bool)
    requires
        v != Verdict::Admitted,
    ensures
        Startup::Open.next(StartupReply::Opened(false)) == Startup::Exit(1),
        Startup::Judge.next(StartupReply::Judged(v)) == Startup::Exit(1),
        Startup::Client.next(StartupReply::Client(false)) == Startup::Exit(0),
        Startup::Discover.next(StartupReply::Discovered(false)) == Startup::Exit(1),
        Startup::Library.next(StartupReply::Library(false)) == Startup::Exit(1),
        Startup::Inject.next(StartupReply::Injected(false)) == Startup::Exit(1),
        Startup::Ready.next(StartupReply::Ready(false)) == Startup::Exit(1),
        Startup::Patch.next(StartupReply::Patched(false)) == Startup::Withdraw,
        Startup::Withdraw.next(StartupReply::Withdrawn(gone)) == Startup::Exit(1),
{
}

} // verus!
