//! The controller's loops: waiting for the game, toggling the patch, and
//! putting everything back at the end.
use vstd::prelude::*;

verus! {

/// What waiting for a module on Windows comes to.
#[derive(Clone, Copy, Debug, PartialEq, Eq, Structural)]
pub enum Wait {
    /// Sleep, and look again.
    Again,
    /// The module is there.
    Found,
    /// The user ended the program.
    Quit,
    /// The game ended.
    Gone,
}

/// What one look for a module comes to.
pub open spec fn looked(slept: bool, quitting: bool, found: bool, alive: bool) -> Wait {
    if found {
        Wait::Found
    } else if slept && !alive {
        Wait::Gone
    } else if quitting {
        Wait::Quit
    } else {
        Wait::Again
    }
}

/// A module that is there is found, whatever else; one that is not is waited
/// for as long as the game lives and the user does not end the program.
pub proof fn a_module_is_waited_for(slept: bool, quitting: bool, found: bool, alive: bool)
    ensures
        looked(slept, quitting, true, alive) == Wait::Found,
        looked(slept, false, false, true) == Wait::Again,
        looked(false, false, false, alive) == Wait::Again,
        looked(true, quitting, false, false) == Wait::Gone,
        looked(slept, true, false, true) == Wait::Quit,
{
}

/// One look for a module. Whether the game is alive counts after a sleep only.
pub fn wait_for_module(slept: bool, quitting: bool, found: bool, alive: bool) -> (r: Wait)
    ensures
        r == (if found {
            Wait::Found
        } else if slept && !alive {
            Wait::Gone
        } else if quitting {
            Wait::Quit
        } else {
            Wait::Again
        }),
        r == looked(slept, quitting, found, alive),
{
    if found {
        Wait::Found
    } else if slept && !alive {
        Wait::Gone
    } else if quitting {
        Wait::Quit
    } else {
        Wait::Again
    }
}

/// Where the Windows loop stands.
#[derive(Clone, Copy, Debug, PartialEq, Eq, Structural)]
pub enum WatchPhase {
    /// The keys and the game are looked at.
    Watching,
    /// The patch is being switched.
    Toggling(bool),
    /// The patch is being taken out for good.
    Restoring,
    /// The library is being unloaded; whether the patch is still in.
    Unloading { failed: bool },
    /// The program ends with this code.
    Done(u32),
}

/// The Windows loop.
#[derive(Clone, Copy, Debug, PartialEq, Eq, Structural)]
pub struct Watch {
    /// Whether Scroll Lock toggles too.
    pub scroll_lock: bool,
    /// Whether the keys were down at the last look.
    pub f5_down: bool,
    pub scroll_down: bool,
    /// Whether the patch is in.
    pub on: bool,
    pub phase: WatchPhase,
}

/// What the loop is told.
#[derive(Clone, Copy, Debug, PartialEq, Eq, Structural)]
pub enum WatchEvent {
    /// A look: whether the program ends, whether the game can be read, and
    /// which keys are down.
    Look { quitting: bool, readable: bool, f5: bool, scroll: bool },
    /// Whether the switch went through.
    Switched(bool),
    /// Whether the library was unloaded.
    Unloaded(bool),
}

impl Watch {
    /// The key went down since the last look.
    pub open spec fn pressed(self, f5: bool, scroll: bool) -> bool {
        f5 && !self.f5_down || self.scroll_lock && scroll && !self.scroll_down
    }

    /// What comes after an event.
    pub open spec fn next(self, event: WatchEvent) -> Watch {
        match (self.phase, event) {
            (WatchPhase::Watching, WatchEvent::Look { quitting, readable, f5, scroll }) => {
                if quitting {
                    Watch {
                        phase: if self.on {
                            WatchPhase::Restoring
                        } else {
                            WatchPhase::Unloading { failed: false }
                        },
                        ..self
                    }
                } else if !readable {
                    Watch { phase: WatchPhase::Done(0), ..self }
                } else {
                    Watch {
                        phase: if self.pressed(f5, scroll) {
                            WatchPhase::Toggling(!self.on)
                        } else {
                            WatchPhase::Watching
                        },
                        f5_down: f5,
                        scroll_down: self.scroll_lock && scroll,
                        ..self
                    }
                }
            },
            (WatchPhase::Toggling(requested), WatchEvent::Switched(ok)) => Watch {
                phase: WatchPhase::Watching,
                on: if ok {
                    requested
                } else {
                    self.on
                },
                ..self
            },
            (WatchPhase::Restoring, WatchEvent::Switched(ok)) => Watch {
                phase: WatchPhase::Unloading { failed: !ok },
                on: !ok,
                ..self
            },
            (WatchPhase::Unloading { failed }, WatchEvent::Unloaded(ok)) => Watch {
                phase: WatchPhase::Done(
                    if failed || !ok {
                        1
                    } else {
                        0
                    },
                ),
                ..self
            },
            _ => self,
        }
    }

    /// The loop behind a patch that went in.
    pub fn new(scroll_lock: bool, f5_down: bool, scroll_down: bool) -> (r: Watch)
        ensures
            r == (Watch {
                scroll_lock,
                f5_down,
                scroll_down,
                on: true,
                phase: WatchPhase::Watching,
            }),
    {
        Watch { scroll_lock, f5_down, scroll_down, on: true, phase: WatchPhase::Watching }
    }

    /// Takes an event.
    pub fn step(self, event: WatchEvent) -> (r: Watch)
        ensures
            r == self.next(event),
    {
        let mut w: Watch = self;
        match (self.phase, event) {
            (WatchPhase::Watching, WatchEvent::Look { quitting, readable, f5, scroll }) => {
                if quitting {
                    w.phase = if self.on {
                        WatchPhase::Restoring
                    } else {
                        WatchPhase::Unloading { failed: false }
                    };
                } else if !readable {
                    w.phase = WatchPhase::Done(0);
                } else {
                    if f5 && !self.f5_down || self.scroll_lock && scroll && !self.scroll_down {
                        w.phase = WatchPhase::Toggling(!self.on);
                    }
                    w.f5_down = f5;
                    w.scroll_down = self.scroll_lock && scroll;
                }
            },
            (WatchPhase::Toggling(requested), WatchEvent::Switched(ok)) => {
                w.phase = WatchPhase::Watching;
                if ok {
                    w.on = requested;
                }
            },
            (WatchPhase::Restoring, WatchEvent::Switched(ok)) => {
                w.phase = WatchPhase::Unloading { failed: !ok };
                w.on = !ok;
            },
            (WatchPhase::Unloading { failed }, WatchEvent::Unloaded(ok)) => {
                w.phase = WatchPhase::Done(
                    if failed || !ok {
                        1
                    } else {
                        0
                    },
                );
            },
            _ => {},
        }
        w
    }
}

/// A key that stays down switches nothing: one press, one switch.
pub proof fn a_held_key_switches_once(w: Watch, f5: bool, scroll: bool)
    requires
        w.phase == WatchPhase::Watching,
    ensures
        ({
            let look = WatchEvent::Look { quitting: false, readable: true, f5, scroll };
            let first = w.next(look);
            let settled = Watch { phase: WatchPhase::Watching, ..first };
            settled.next(look) == settled
        }),
{
}

/// One moment of the Windows loop: the loop, and whether the patch is in and
/// the library loaded in the game.
pub struct WatchMoment {
    pub watch: Watch,
    pub patched: bool,
    pub loaded: bool,
}

/// What an event leaves, if a switch either goes through or leaves things as
/// they were, and an unload tells what it did.
pub open spec fn honest_watch(m: WatchMoment, event: WatchEvent, after: WatchMoment) -> bool {
    &&& after.watch == m.watch.next(event)
    &&& match (m.watch.phase, event) {
        (WatchPhase::Toggling(requested), WatchEvent::Switched(ok)) => after.loaded == m.loaded
            && after.patched == (if ok {
            requested
        } else {
            m.patched
        }),
        (WatchPhase::Restoring, WatchEvent::Switched(ok)) => after.loaded == m.loaded
            && after.patched == (if ok {
            false
        } else {
            m.patched
        }),
        (WatchPhase::Unloading { .. }, WatchEvent::Unloaded(ok)) => after.patched == m.patched
            && after.loaded == !ok,
        (_, WatchEvent::Look { readable, quitting, .. }) => after.patched == m.patched
            && after.loaded == m.loaded,
        _ => after.patched == m.patched && after.loaded == m.loaded,
    }
}

/// The moments are a run of the loop behind a patch that went in.
pub open spec fn watch_run(ms: Seq<WatchMoment>, es: Seq<WatchEvent>) -> bool {
    &&& ms.len() == es.len() + 1
    &&& ms[0].watch.phase == WatchPhase::Watching
    &&& ms[0].watch.on && ms[0].patched && ms[0].loaded
    &&& forall|i: int|
        0 <= i < es.len() ==> honest_watch(#[trigger] ms[i], es[i], ms[i + 1])
}

/// Some look found that the game could not be read.
pub open spec fn game_vanished(es: Seq<WatchEvent>) -> bool {
    exists|i: int|
        0 <= i < es.len() && match #[trigger] es[i] {
            WatchEvent::Look { readable, .. } => !readable,
            _ => false,
        }
}

spec fn watched(m: WatchMoment) -> bool {
    &&& m.patched == m.watch.on
    &&& match m.watch.phase {
        WatchPhase::Watching => m.loaded,
        WatchPhase::Toggling(requested) => m.loaded && requested == !m.watch.on,
        WatchPhase::Restoring => m.loaded && m.watch.on,
        WatchPhase::Unloading { failed } => m.loaded && failed == m.watch.on,
        WatchPhase::Done(_) => true,
    }
}

spec fn ended_well(m: WatchMoment) -> bool {
    m.watch.phase is Done ==> (m.watch.phase == WatchPhase::Done(0) <==> !m.patched && !m.loaded)
}

proof fn watch_run_is_watched(ms: Seq<WatchMoment>, es: Seq<WatchEvent>, n: int)
    requires
        watch_run(ms, es),
        0 <= n < ms.len(),
    ensures
        watched(ms[n]),
        !game_vanished(es) ==> ended_well(ms[n]),
    decreases n,
{
    if n > 0 {
        watch_run_is_watched(ms, es, n - 1);
        assert(honest_watch(ms[n - 1], es[n - 1], ms[n - 1 + 1]));
        if !game_vanished(es) {
            assert(match es[n - 1] {
                WatchEvent::Look { readable, .. } => readable,
                _ => true,
            });
        }
    }
}

/// The loop always knows whether the patch is in. If the game lives to the end,
/// the program reports success exactly when the patch is out and the library
/// unloaded.
pub proof fn success_means_restored(ms: Seq<WatchMoment>, es: Seq<WatchEvent>)
    requires
        watch_run(ms, es),
    ensures
        ms.last().patched == ms.last().watch.on,
        !game_vanished(es) && ms.last().watch.phase is Done ==> (ms.last().watch.phase
            == WatchPhase::Done(0) <==> !ms.last().patched && !ms.last().loaded),
{
    watch_run_is_watched(ms, es, ms.len() - 1);
}

/// Where the search for the game on Linux stands.
#[derive(Clone, Copy, Debug, PartialEq, Eq, Structural)]
pub enum Seek {
    /// Whether to stop is asked.
    Poll(Option<u32>),
    /// The game is looked for below the launcher.
    Find,
    /// Whether the game has loaded its client is asked.
    Loaded(u32),
    /// The branches are looked for, once the loader has had a moment.
    Discover(u32),
    /// Sleep this many milliseconds, and look again.
    Sleep(Option<u32>, u64),
    /// The branches are known.
    Ready(u32),
    /// Told to end.
    Terminated,
    /// The launcher ended before the game had loaded.
    LauncherExited,
}

/// What the search is told.
#[derive(Clone, Copy, Debug, PartialEq, Eq, Structural)]
pub enum SeekEvent {
    Polled { term: bool, launcher_exited: bool },
    Game(Option<u32>),
    Client(bool),
    Discovered(bool),
    Slept,
}

impl Seek {
    /// What comes after an event.
    pub open spec fn next(self, event: SeekEvent) -> Seek {
        match (self, event) {
            (Seek::Poll(pid), SeekEvent::Polled { term, launcher_exited }) => if term {
                Seek::Terminated
            } else if launcher_exited {
                Seek::LauncherExited
            } else {
                match pid {
                    Some(p) => Seek::Loaded(p),
                    None => Seek::Find,
                }
            },
            (Seek::Find, SeekEvent::Game(found)) => match found {
                Some(p) => Seek::Loaded(p),
                None => Seek::Sleep(None, 250),
            },
            (Seek::Loaded(p), SeekEvent::Client(there)) => if there {
                Seek::Discover(p)
            } else {
                Seek::Sleep(Some(p), 250)
            },
            (Seek::Discover(p), SeekEvent::Discovered(ok)) => if ok {
                Seek::Ready(p)
            } else {
                Seek::Sleep(Some(p), 1000)
            },
            (Seek::Sleep(pid, _), SeekEvent::Slept) => Seek::Poll(pid),
            (at, _) => at,
        }
    }

    /// Takes an event.
    pub fn step(self, event: SeekEvent) -> (r: Seek)
        ensures
            r == self.next(event),
    {
        match (self, event) {
            (Seek::Poll(pid), SeekEvent::Polled { term, launcher_exited }) => if term {
                Seek::Terminated
            } else if launcher_exited {
                Seek::LauncherExited
            } else {
                match pid {
                    Some(p) => Seek::Loaded(p),
                    None => Seek::Find,
                }
            },
            (Seek::Find, SeekEvent::Game(found)) => match found {
                Some(p) => Seek::Loaded(p),
                None => Seek::Sleep(None, 250),
            },
            (Seek::Loaded(p), SeekEvent::Client(there)) => if there {
                Seek::Discover(p)
            } else {
                Seek::Sleep(Some(p), 250)
            },
            (Seek::Discover(p), SeekEvent::Discovered(ok)) => if ok {
                Seek::Ready(p)
            } else {
                Seek::Sleep(Some(p), 1000)
            },
            (Seek::Sleep(pid, _), SeekEvent::Slept) => Seek::Poll(pid),
            (at, _) => at,
        }
    }
}

/// Where the Linux loop stands.
#[derive(Clone, Copy, Debug, PartialEq, Eq, Structural)]
pub enum GuardPhase {
    /// The signals are looked at, after a sleep.
    Signals,
    /// The patch is being switched because of a signal.
    Signalled(bool),
    /// Scroll Lock is looked at.
    Scroll,
    /// The patch is being switched because of Scroll Lock.
    Scrolled(bool),
    /// Whether the game is still there is asked.
    Presence,
    /// The patch is being taken out because the program ends.
    Restoring,
    /// The patch counts as in although the loop is over: it is taken out once
    /// more, whatever comes of it.
    Closing,
    Done,
}

/// The Linux loop.
#[derive(Clone, Copy, Debug, PartialEq, Eq, Structural)]
pub struct Guard {
    /// Whether Scroll Lock toggles.
    pub scroll_toggle: bool,
    /// Scroll Lock at the last look.
    pub last_scroll: bool,
    /// Whether the patch counts as in.
    pub enabled: bool,
    pub phase: GuardPhase,
}

/// What the Linux loop is told.
#[derive(Clone, Copy, Debug, PartialEq, Eq, Structural)]
pub enum GuardEvent {
    Signals { term: bool, toggle: bool },
    Scroll(bool),
    Switched(bool),
    Presence { client: bool, launcher_exited: bool },
}

impl Guard {
    /// The loop is over.
    pub open spec fn closing(self) -> Guard {
        Guard {
            phase: if self.enabled {
                GuardPhase::Closing
            } else {
                GuardPhase::Done
            },
            ..self
        }
    }

    /// What the patch counts as after a switch.
    pub open spec fn settled(self, on: bool, ok: bool, phase: GuardPhase) -> Guard {
        Guard {
            enabled: if ok {
                on
            } else {
                self.enabled
            },
            phase,
            ..self
        }
    }

    /// What comes after an event.
    pub open spec fn next(self, event: GuardEvent) -> Guard {
        match (self.phase, event) {
            (GuardPhase::Signals, GuardEvent::Signals { term, toggle }) => if term {
                if self.enabled {
                    Guard { phase: GuardPhase::Restoring, ..self }
                } else {
                    self.closing()
                }
            } else if toggle {
                Guard { phase: GuardPhase::Signalled(!self.enabled), ..self }
            } else {
                Guard { phase: GuardPhase::Scroll, ..self }
            },
            (GuardPhase::Signalled(on), GuardEvent::Switched(ok)) => self.settled(
                on,
                ok,
                GuardPhase::Scroll,
            ),
            (GuardPhase::Scroll, GuardEvent::Scroll(lit)) => if self.scroll_toggle && lit
                != self.last_scroll {
                Guard {
                    last_scroll: lit,
                    phase: GuardPhase::Scrolled(!self.enabled),
                    ..self
                }
            } else {
                Guard { phase: GuardPhase::Presence, ..self }
            },
            (GuardPhase::Scrolled(on), GuardEvent::Switched(ok)) => self.settled(
                on,
                ok,
                GuardPhase::Presence,
            ),
            (GuardPhase::Presence, GuardEvent::Presence { client, launcher_exited }) => if !client
                || launcher_exited {
                self.closing()
            } else {
                Guard { phase: GuardPhase::Signals, ..self }
            },
            (GuardPhase::Restoring, GuardEvent::Switched(ok)) => self.settled(
                false,
                ok,
                GuardPhase::Done,
            ).closing(),
            (GuardPhase::Closing, GuardEvent::Switched(ok)) => self.settled(
                false,
                ok,
                GuardPhase::Done,
            ),
            _ => self,
        }
    }

    /// The loop behind a patch that `enabled` tells to be in.
    pub fn new(scroll_toggle: bool, last_scroll: bool, enabled: bool) -> (r: Guard)
        ensures
            r == (Guard { scroll_toggle, last_scroll, enabled, phase: GuardPhase::Signals }),
    {
        Guard { scroll_toggle, last_scroll, enabled, phase: GuardPhase::Signals }
    }

    /// The loop is over.
    fn close(self) -> (r: Guard)
        ensures
            r == self.closing(),
    {
        let mut g: Guard = self;
        g.phase = if self.enabled {
            GuardPhase::Closing
        } else {
            GuardPhase::Done
        };
        g
    }

    /// Takes the outcome of a switch.
    fn settle(self, on: bool, ok: bool, phase: GuardPhase) -> (r: Guard)
        ensures
            r == self.settled(on, ok, phase),
    {
        let mut g: Guard = self;
        if ok {
            g.enabled = on;
        }
        g.phase = phase;
        g
    }

    /// Takes an event.
    pub fn step(self, event: GuardEvent) -> (r: Guard)
        ensures
            r == self.next(event),
    {
        let mut g: Guard = self;
        match (self.phase, event) {
            (GuardPhase::Signals, GuardEvent::Signals { term, toggle }) => {
                if term {
                    if !self.enabled {
                        return self.close();
                    }
                    g.phase = GuardPhase::Restoring;
                } else if toggle {
                    g.phase = GuardPhase::Signalled(!self.enabled);
                } else {
                    g.phase = GuardPhase::Scroll;
                }
                g
            },
            (GuardPhase::Signalled(on), GuardEvent::Switched(ok)) => self.settle(
                on,
                ok,
                GuardPhase::Scroll,
            ),
            (GuardPhase::Scroll, GuardEvent::Scroll(lit)) => {
                if self.scroll_toggle && lit != self.last_scroll {
                    g.last_scroll = lit;
                    g.phase = GuardPhase::Scrolled(!self.enabled);
                } else {
                    g.phase = GuardPhase::Presence;
                }
                g
            },
            (GuardPhase::Scrolled(on), GuardEvent::Switched(ok)) => self.settle(
                on,
                ok,
                GuardPhase::Presence,
            ),
            (GuardPhase::Presence, GuardEvent::Presence { client, launcher_exited }) => {
                if !client || launcher_exited {
                    return self.close();
                }
                g.phase = GuardPhase::Signals;
                g
            },
            (GuardPhase::Restoring, GuardEvent::Switched(ok)) => {
                let settled: Guard = self.settle(false, ok, GuardPhase::Done);
                settled.close()
            },
            (GuardPhase::Closing, GuardEvent::Switched(ok)) => self.settle(
                false,
                ok,
                GuardPhase::Done,
            ),
            _ => g,
        }
    }
}

/// Without the option for it, Scroll Lock switches nothing.
pub proof fn scroll_lock_is_opt_in(g: Guard, lit: bool)
    requires
        g.phase == GuardPhase::Scroll,
        !g.scroll_toggle,
    ensures
        g.next(GuardEvent::Scroll(lit)) == (Guard { phase: GuardPhase::Presence, ..g }),
{
}

/// The loop does not end while the patch counts as in without a last attempt
/// to take it out: the step that ends it either comes from such an attempt, or
/// finds the patch out.
pub proof fn a_patch_is_not_left_behind(g: Guard, event: GuardEvent)
    requires
        g.phase != GuardPhase::Done,
        g.next(event).phase == GuardPhase::Done,
    ensures
        g.next(event).enabled ==> g.phase == GuardPhase::Closing && event == GuardEvent::Switched(
            false,
        ),
{
}

/// A press switches the patch: F5, and Scroll Lock where it is wanted, puts it
/// the other way, and a switch that went through is remembered.
pub proof fn a_press_switches_the_patch(w: Watch, scroll: bool, f5: bool)
    requires
        w.phase == WatchPhase::Watching,
    ensures
        !w.f5_down ==> w.next(
            WatchEvent::Look { quitting: false, readable: true, f5: true, scroll },
        ).phase == WatchPhase::Toggling(!w.on),
        w.scroll_lock && !w.scroll_down ==> w.next(
            WatchEvent::Look { quitting: false, readable: true, f5, scroll: true },
        ).phase == WatchPhase::Toggling(!w.on),
        !w.scroll_lock ==> w.next(
            WatchEvent::Look { quitting: false, readable: true, f5: false, scroll },
        ).phase == WatchPhase::Watching,
        (Watch { phase: WatchPhase::Toggling(!w.on), ..w }).next(WatchEvent::Switched(true))
            == (Watch { on: !w.on, ..w }),
        (Watch { phase: WatchPhase::Toggling(!w.on), ..w }).next(WatchEvent::Switched(false)) == w,
        w.next(WatchEvent::Look { quitting: false, readable: true, f5, scroll }).f5_down == f5,
{
}

/// At the end everything is put back: a patch that is in is taken out, then the
/// library is unloaded, and both together make the code.
pub proof fn the_end_puts_everything_back(w: Watch, f5: bool, scroll: bool, failed: bool, ok: bool)
    requires
        w.phase == WatchPhase::Watching,
    ensures
        w.on ==> w.next(
            WatchEvent::Look { quitting: true, readable: true, f5, scroll },
        ).phase == WatchPhase::Restoring,
        !w.on ==> w.next(
            WatchEvent::Look { quitting: true, readable: true, f5, scroll },
        ).phase == (WatchPhase::Unloading { failed: false }),
        w.next(WatchEvent::Look { quitting: false, readable: false, f5, scroll }).phase
            == WatchPhase::Done(0),
        (Watch { phase: WatchPhase::Restoring, ..w }).next(WatchEvent::Switched(ok)).phase == (
        WatchPhase::Unloading { failed: !ok }),
        (Watch { phase: WatchPhase::Unloading { failed }, ..w }).next(
            WatchEvent::Unloaded(ok),
        ).phase == if ok && !failed {
            WatchPhase::Done(0)
        } else {
            WatchPhase::Done(1)
        },
{
}

/// The game is found: it is looked for until it is there, then until its client
/// is loaded, then until the branches are known; and a wish to end, or the end
/// of the launcher, ends the search.
pub proof fn the_game_is_found(p: u32, pid: Option<u32>, ms: u64, exited: bool)
    ensures
        Seek::Poll(None).next(SeekEvent::Polled { term: false, launcher_exited: false })
            == Seek::Find,
        Seek::Poll(Some(p)).next(SeekEvent::Polled { term: false, launcher_exited: false })
            == Seek::Loaded(p),
        Seek::Poll(pid).next(SeekEvent::Polled { term: true, launcher_exited: exited })
            == Seek::Terminated,
        Seek::Poll(pid).next(SeekEvent::Polled { term: false, launcher_exited: true })
            == Seek::LauncherExited,
        Seek::Find.next(SeekEvent::Game(Some(p))) == Seek::Loaded(p),
        Seek::Find.next(SeekEvent::Game(None)) == Seek::Sleep(None, 250),
        Seek::Loaded(p).next(SeekEvent::Client(true)) == Seek::Discover(p),
        Seek::Loaded(p).next(SeekEvent::Client(false)) == Seek::Sleep(Some(p), 250),
        Seek::Discover(p).next(SeekEvent::Discovered(true)) == Seek::Ready(p),
        Seek::Discover(p).next(SeekEvent::Discovered(false)) == Seek::Sleep(Some(p), 1000),
        Seek::Sleep(pid, ms).next(SeekEvent::Slept) == Seek::Poll(pid),
{
}

/// A signal or Scroll Lock switches the patch on Linux, and the loop goes on as
/// long as the game and its launcher are there.
pub proof fn a_signal_switches_the_patch(g: Guard, lit: bool)
    ensures
        (Guard { phase: GuardPhase::Signals, ..g }).next(
            GuardEvent::Signals { term: false, toggle: true },
        ).phase == GuardPhase::Signalled(!g.enabled),
        (Guard { phase: GuardPhase::Signals, ..g }).next(
            GuardEvent::Signals { term: false, toggle: false },
        ).phase == GuardPhase::Scroll,
        (Guard { phase: GuardPhase::Signalled(!g.enabled), ..g }).next(GuardEvent::Switched(true))
            == (Guard { phase: GuardPhase::Scroll, enabled: !g.enabled, ..g }),
        (Guard { phase: GuardPhase::Signalled(!g.enabled), ..g }).next(GuardEvent::Switched(false))
            == (Guard { phase: GuardPhase::Scroll, ..g }),
        g.scroll_toggle && lit != g.last_scroll ==> (Guard { phase: GuardPhase::Scroll, ..g }).next(
            GuardEvent::Scroll(lit),
        ) == (Guard { phase: GuardPhase::Scrolled(!g.enabled), last_scroll: lit, ..g }),
        lit == g.last_scroll ==> (Guard { phase: GuardPhase::Scroll, ..g }).next(
            GuardEvent::Scroll(lit),
        ) == (Guard { phase: GuardPhase::Presence, ..g }),
        (Guard { phase: GuardPhase::Scrolled(!g.enabled), ..g }).next(GuardEvent::Switched(true))
            == (Guard { phase: GuardPhase::Presence, enabled: !g.enabled, ..g }),
        (Guard { phase: GuardPhase::Presence, ..g }).next(
            GuardEvent::Presence { client: true, launcher_exited: false },
        ) == (Guard { phase: GuardPhase::Signals, ..g }),
{
}

/// The end of the Linux loop takes the patch out, and tries once more where
/// that did not go through.
pub proof fn the_end_takes_the_patch_out(g: Guard, toggle: bool, client: bool)
    ensures
        g.enabled ==> (Guard { phase: GuardPhase::Signals, ..g }).next(
            GuardEvent::Signals { term: true, toggle },
        ).phase == GuardPhase::Restoring,
        !g.enabled ==> (Guard { phase: GuardPhase::Signals, ..g }).next(
            GuardEvent::Signals { term: true, toggle },
        ).phase == GuardPhase::Done,
        (Guard { phase: GuardPhase::Restoring, enabled: true, ..g }).next(
            GuardEvent::Switched(true),
        ) == (Guard { phase: GuardPhase::Done, enabled: false, ..g }),
        (Guard { phase: GuardPhase::Restoring, enabled: true, ..g }).next(
            GuardEvent::Switched(false),
        ).phase == GuardPhase::Closing,
        (Guard { phase: GuardPhase::Closing, ..g }).next(GuardEvent::Switched(true)) == (Guard {
            phase: GuardPhase::Done,
            enabled: false,
            ..g
        }),
        g.enabled ==> (Guard { phase: GuardPhase::Presence, ..g }).next(
            GuardEvent::Presence { client, launcher_exited: true },
        ).phase == GuardPhase::Closing,
        g.enabled ==> (Guard { phase: GuardPhase::Presence, ..g }).next(
            GuardEvent::Presence { client: false, launcher_exited: false },
        ).phase == GuardPhase::Closing,
{
}

} // verus!
