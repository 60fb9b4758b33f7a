//! Arming the library that the Linux game preloads: waiting for the game's
//! modules, and then every feature in order.
//!
//! The caller performs each action and hands back what came of it. A feature
//! that cannot be armed is left out and told of; the others go on.
use vstd::prelude::*;

use crate::text::{
    cat, dec_text, hex_text, push_dec, push_hex, string_views, with_hex,
};
use crate::vtable::LAUNCHER_MGR_CLASS;

verus! {

/// How often the modules are looked for.
pub const MODULE_LOOKS: u32 = 240;

/// What is done next.
#[derive(Clone, Copy, Debug, PartialEq, Eq, Structural)]
pub enum InitPhase {
    /// Whether the game runs insecurely is asked.
    Insecure,
    /// The modules are looked for, this time after so many looks.
    Modules(u32),
    /// The client and the launcher are parsed.
    Parse,
    /// The SDL library and its event poll are looked up.
    Sdl,
    /// The raw-input variable is looked for.
    Convar,
    /// The launcher's slot for the event poll is hooked.
    Poll,
    /// The accumulator is hooked.
    Accumulator,
    /// `CreateMove` and its slots are looked for.
    CreateMove,
    /// The address of `CreateMove` is published to the hook.
    Publish,
    /// A slot of `CreateMove` is hooked.
    Slot { index: usize, hooked: usize },
    /// The address of `CreateMove` is withdrawn.
    Withdraw,
    /// The view kick is taken out.
    Viewpunch,
    /// The engine is parsed.
    EngineParse,
    /// The map interceptor is armed.
    Fastdl,
    /// The console, demos and download progress are armed.
    Engine,
    Done,
}

/// The arming of the library.
pub struct Init {
    pub keep_viewpunch: bool,
    /// Whether the engine was found.
    pub engine: bool,
    /// Where `CreateMove` stands in the client, and the slots that hold it.
    pub create_move: u64,
    pub slots: Vec<u64>,
    pub phase: InitPhase,
}

/// The value of an `Init`.
#[verifier::ext_equal]
pub struct InitView {
    pub keep_viewpunch: bool,
    pub engine: bool,
    pub create_move: u64,
    pub slots: Seq<u64>,
    pub phase: InitPhase,
}

impl View for Init {
    type V = InitView;

    open spec fn view(&self) -> InitView {
        InitView {
            keep_viewpunch: self.keep_viewpunch,
            engine: self.engine,
            create_move: self.create_move,
            slots: self.slots@,
            phase: self.phase,
        }
    }
}

/// What came of the last action.
pub enum InitReply {
    /// Whether the game runs insecurely.
    Insecure(bool),
    /// Where the modules are loaded.
    Modules { client: Option<u64>, launcher: Option<u64>, engine: bool },
    /// Whether the modules, or the engine, could be parsed.
    Parsed(bool),
    /// Whether the library and its event poll were found.
    Sdl { library: bool, poll: bool },
    /// Done.
    Finished,
    /// The slot of the event poll, and whether it was hooked.
    Poll(Option<(u64, Result<(), String>)>),
    /// Slot and code of the accumulator, and whether it was hooked.
    Accumulator(Option<(u64, u64, Result<(), String>)>),
    /// `CreateMove` and the slots that hold it.
    CreateMove(Option<(u64, Vec<u64>)>),
    /// Whether a slot was hooked.
    Slot(Result<(), String>),
    /// Whether the map interceptor was armed.
    Fastdl(bool),
}

/// The value of an `InitReply`.
#[verifier::ext_equal]
pub enum InitReplyView {
    Insecure(bool),
    Modules { client: Option<u64>, launcher: Option<u64>, engine: bool },
    Parsed(bool),
    Sdl { library: bool, poll: bool },
    Finished,
    Poll(Option<(u64, Option<Seq<char>>)>),
    Accumulator(Option<(u64, u64, Option<Seq<char>>)>),
    CreateMove(Option<(u64, Seq<u64>)>),
    Slot(Option<Seq<char>>),
    Fastdl(bool),
}

/// What went wrong, if anything did.
pub open spec fn fault(r: Result<(), String>) -> Option<Seq<char>> {
    match r {
        Ok(_) => None,
        Err(e) => Some(e@),
    }
}

impl View for InitReply {
    type V = InitReplyView;

    open spec fn view(&self) -> InitReplyView {
        match *self {
            InitReply::Insecure(b) => InitReplyView::Insecure(b),
            InitReply::Modules { client, launcher, engine } => InitReplyView::Modules {
                client,
                launcher,
                engine,
            },
            InitReply::Parsed(b) => InitReplyView::Parsed(b),
            InitReply::Sdl { library, poll } => InitReplyView::Sdl { library, poll },
            InitReply::Finished => InitReplyView::Finished,
            InitReply::Poll(None) => InitReplyView::Poll(None),
            InitReply::Poll(Some((slot, r))) => InitReplyView::Poll(Some((slot, fault(r)))),
            InitReply::Accumulator(None) => InitReplyView::Accumulator(None),
            InitReply::Accumulator(Some((slot, f, r))) => InitReplyView::Accumulator(
                Some((slot, f, fault(r))),
            ),
            InitReply::CreateMove(None) => InitReplyView::CreateMove(None),
            InitReply::CreateMove(Some((f, slots))) => InitReplyView::CreateMove(
                Some((f, slots@)),
            ),
            InitReply::Slot(r) => InitReplyView::Slot(fault(r)),
            InitReply::Fastdl(b) => InitReplyView::Fastdl(b),
        }
    }
}

/// The line that tells where the modules are.
pub open spec fn modules_line(client: u64, launcher: u64) -> Seq<char> {
    "modules found: client 0x"@ + hex_text(client as int) + " launcher 0x"@ + hex_text(
        launcher as int,
    )
}

/// The line that tells what came of the event poll.
pub open spec fn poll_line(r: Option<(u64, Option<Seq<char>>)>) -> Seq<char> {
    match r {
        None => "FAILED to hook SDL_PollEvent: launcher.so has no relocation for it"@,
        Some((slot, None)) => "hooked SDL_PollEvent (GOT +0x"@ + hex_text(slot as int) + ")"@,
        Some((_, Some(e))) => "FAILED to hook SDL_PollEvent: "@ + e,
    }
}

/// The line that tells what came of the accumulator.
pub open spec fn accumulator_line(r: Option<(u64, u64, Option<Seq<char>>)>) -> Seq<char> {
    match r {
        None => "FAILED to hook GetRawMouseAccumulators: not found in "@ + LAUNCHER_MGR_CLASS@
            + "'s vtable (game updated?)"@,
        Some((slot, f, None)) => "hooked GetRawMouseAccumulators ("@ + LAUNCHER_MGR_CLASS@
            + " slot +0x"@ + hex_text(slot as int) + ", fn +0x"@ + hex_text(f as int) + ")"@,
        Some((_, _, Some(e))) => "FAILED to hook GetRawMouseAccumulators: "@ + e,
    }
}

impl InitView {
    /// The same, at another phase.
    pub open spec fn at(self, phase: InitPhase) -> InitView {
        InitView { phase, ..self }
    }

    /// What follows `CreateMove`.
    pub open spec fn after_create_move(self) -> InitPhase {
        if self.keep_viewpunch {
            self.after_viewpunch()
        } else {
            InitPhase::Viewpunch
        }
    }

    /// What follows the view kick.
    pub open spec fn after_viewpunch(self) -> InitPhase {
        if self.engine {
            InitPhase::EngineParse
        } else {
            InitPhase::Done
        }
    }

    /// The line that ends the arming, where it is over.
    pub open spec fn farewell(self) -> Seq<Seq<char>> {
        if self.phase == InitPhase::Done {
            seq!["ready. set `m_rawinput 2` in game for tick-aligned sampling"@]
        } else {
            Seq::empty()
        }
    }

    /// At a later phase, with lines, and the last line where it is over.
    pub open spec fn went(self, phase: InitPhase, lines: Seq<Seq<char>>) -> (
        InitView,
        Seq<Seq<char>>,
    ) {
        (self.at(phase), lines + self.at(phase).farewell())
    }

    /// Given up.
    pub open spec fn gave_up(self, line: Seq<char>) -> (InitView, Seq<Seq<char>>) {
        (self.at(InitPhase::Done), seq![line])
    }

    /// What comes after a slot of `CreateMove`, with `hooked` of them hooked.
    pub open spec fn after_slot(self, index: int, hooked: int, lines: Seq<Seq<char>>) -> (
        InitView,
        Seq<Seq<char>>,
    ) {
        if index < self.slots.len() {
            (
                self.at(InitPhase::Slot { index: index as usize, hooked: hooked as usize }),
                lines,
            )
        } else if hooked == 0 {
            (
                self.at(InitPhase::Withdraw),
                lines.push("FAILED to hook CreateMove (no slot validated)"@),
            )
        } else {
            self.went(
                self.after_create_move(),
                lines.push(
                    "hooked CreateMove ("@ + dec_text(hooked) + "/"@ + dec_text(
                        self.slots.len() as int,
                    ) + " input vtables, fn +0x"@ + hex_text(self.create_move as int) + ")"@,
                ),
            )
        }
    }

    /// What comes after a reply, and the lines that are told.
    pub open spec fn next(self, reply: InitReplyView) -> (InitView, Seq<Seq<char>>) {
        match (self.phase, reply) {
            (InitPhase::Insecure, InitReplyView::Insecure(insecure)) => if insecure {
                (self.at(InitPhase::Modules(0)), Seq::empty())
            } else {
                self.gave_up("game was not started with -insecure; NOT installing hooks"@)
            },
            (
                InitPhase::Modules(looks),
                InitReplyView::Modules { client, launcher, engine },
            ) => match (client, launcher) {
                (Some(c), Some(l)) if engine || looks + 1 >= MODULE_LOOKS => (
                    InitView { engine, ..self.at(InitPhase::Parse) },
                    seq![modules_line(c, l)],
                ),
                _ => if looks + 1 < MODULE_LOOKS {
                    (self.at(InitPhase::Modules((looks + 1) as u32)), Seq::empty())
                } else {
                    self.gave_up("timed out waiting for client.so/launcher.so"@)
                },
            },
            (InitPhase::Parse, InitReplyView::Parsed(ok)) => if ok {
                (self.at(InitPhase::Sdl), Seq::empty())
            } else {
                self.gave_up(
                    "cannot parse client.so/launcher.so as ELF; NOT installing hooks"@,
                )
            },
            (InitPhase::Sdl, InitReplyView::Sdl { library, poll }) => if !library {
                self.gave_up("could not get libSDL2 handle"@)
            } else if !poll {
                self.gave_up("SDL_PollEvent not found"@)
            } else {
                (self.at(InitPhase::Convar), seq!["SDL symbols resolved"@])
            },
            (InitPhase::Convar, InitReplyView::Finished) => (
                self.at(InitPhase::Poll),
                Seq::empty(),
            ),
            (InitPhase::Poll, InitReplyView::Poll(r)) => match r {
                Some((_, None)) => (self.at(InitPhase::Accumulator), seq![poll_line(r)]),
                _ => (
                    self.at(InitPhase::CreateMove),
                    seq![
                        poll_line(r),
                        "NOT hooking GetRawMouseAccumulators without the SDL hook (mouse would stop)"@,
                    ],
                ),
            },
            (InitPhase::Accumulator, InitReplyView::Accumulator(r)) => (
                self.at(InitPhase::CreateMove),
                seq![accumulator_line(r)],
            ),
            (InitPhase::CreateMove, InitReplyView::CreateMove(r)) => match r {
                None => self.went(
                    self.after_create_move(),
                    seq![
                        "FAILED to hook CreateMove: no CInput vtable in client.so (game updated?)"@,
                    ],
                ),
                Some((f, slots)) => (
                    InitView { create_move: f, slots, ..self.at(InitPhase::Publish) },
                    Seq::empty(),
                ),
            },
            (InitPhase::Publish, InitReplyView::Finished) => self.after_slot(0, 0, Seq::empty()),
            (InitPhase::Slot { index, hooked }, InitReplyView::Slot(r)) => match r {
                None => self.after_slot(index + 1, hooked + 1, Seq::empty()),
                Some(e) => self.after_slot(
                    index + 1,
                    hooked as int,
                    seq![
                        "CreateMove slot +0x"@ + hex_text(self.slots[index as int] as int)
                            + " NOT hooked: "@ + e,
                    ],
                ),
            },
            (InitPhase::Withdraw, InitReplyView::Finished) => self.went(
                self.after_create_move(),
                Seq::empty(),
            ),
            (InitPhase::Viewpunch, InitReplyView::Finished) => self.went(
                self.after_viewpunch(),
                Seq::empty(),
            ),
            (InitPhase::EngineParse, InitReplyView::Parsed(ok)) => if ok {
                (self.at(InitPhase::Fastdl), Seq::empty())
            } else {
                self.went(
                    InitPhase::Done,
                    seq!["cannot parse engine.so; fastdl + console features off"@],
                )
            },
            (InitPhase::Fastdl, InitReplyView::Fastdl(armed)) => (
                self.at(InitPhase::Engine),
                seq![
                    if armed {
                        "hooked ProcessServerInfo (fastdl.me map hijack armed)"@
                    } else {
                        "fastdl hook NOT installed (see above)"@
                    },
                ],
            ),
            (InitPhase::Engine, InitReplyView::Finished) => self.went(
                InitPhase::Done,
                Seq::empty(),
            ),
            _ => (self, Seq::empty()),
        }
    }

    /// The phase fits the rest.
    pub open spec fn wf(self) -> bool {
        match self.phase {
            InitPhase::Slot { index, hooked } => hooked <= index < self.slots.len(),
            InitPhase::Modules(looks) => looks < MODULE_LOOKS,
            _ => true,
        }
    }
}

/// Adds a line.
fn tell(out: &mut Vec<String>, line: String)
    ensures
        string_views(final(out)@) == string_views(old(out)@).push(line@),
{
    out.push(line);
    assert(string_views(out@) =~= string_views(old(out)@).push(line@));
}

fn one(line: String) -> (r: Vec<String>)
    ensures
        string_views(r@) == seq![line@],
{
    let mut out: Vec<String> = Vec::new();
    out.push(line);
    assert(string_views(out@) =~= seq![line@]);
    out
}

fn none() -> (r: Vec<String>)
    ensures
        string_views(r@) == Seq::<Seq<char>>::empty(),
{
    let out: Vec<String> = Vec::new();
    assert(string_views(out@) =~= Seq::<Seq<char>>::empty());
    out
}

impl Init {
    /// Nothing is armed yet.
    pub fn new(keep_viewpunch: bool) -> (r: Init)
        ensures
            r@ == (InitView {
                keep_viewpunch,
                engine: false,
                create_move: 0,
                slots: Seq::empty(),
                phase: InitPhase::Insecure,
            }),
            r@.wf(),
    {
        Init {
            keep_viewpunch,
            engine: false,
            create_move: 0,
            slots: Vec::new(),
            phase: InitPhase::Insecure,
        }
    }

    fn give_up(&mut self, line: &str) -> (r: Vec<String>)
        ensures
            (final(self)@, string_views(r@)) == old(self)@.gave_up(line@),
    {
        self.phase = InitPhase::Done;
        one(line.to_owned())
    }

    fn go(&mut self, phase: InitPhase, lines: Vec<String>) -> (r: Vec<String>)
        ensures
            (final(self)@, string_views(r@)) == old(self)@.went(phase, string_views(lines@)),
    {
        let mut out: Vec<String> = lines;
        self.phase = phase;
        match phase {
            InitPhase::Done => {
                tell(
                    &mut out,
                    "ready. set `m_rawinput 2` in game for tick-aligned sampling".to_owned(),
                );
                assert(string_views(out@) =~= string_views(lines@) + seq![
                    "ready. set `m_rawinput 2` in game for tick-aligned sampling"@,
                ]);
            },
            _ => {
                assert(string_views(out@) =~= string_views(lines@) + Seq::<Seq<char>>::empty());
            },
        }
        out
    }

    fn past_viewpunch(&self) -> (r: InitPhase)
        ensures
            r == self@.after_viewpunch(),
    {
        if self.engine {
            InitPhase::EngineParse
        } else {
            InitPhase::Done
        }
    }

    fn past_create_move(&self) -> (r: InitPhase)
        ensures
            r == self@.after_create_move(),
    {
        if self.keep_viewpunch {
            self.past_viewpunch()
        } else {
            InitPhase::Viewpunch
        }
    }

    fn past_slot(&mut self, index: usize, hooked: usize, lines: Vec<String>) -> (r: Vec<String>)
        requires
            hooked <= index <= old(self)@.slots.len(),
        ensures
            (final(self)@, string_views(r@)) == old(self)@.after_slot(
                index as int,
                hooked as int,
                string_views(lines@),
            ),
            final(self)@.wf(),
    {
        let mut out: Vec<String> = lines;
        let count: usize = self.slots.len();
        if index < count {
            self.phase = InitPhase::Slot { index, hooked };
            out
        } else if hooked == 0 {
            self.phase = InitPhase::Withdraw;
            tell(&mut out, "FAILED to hook CreateMove (no slot validated)".to_owned());
            out
        } else {
            let mut line: String = "hooked CreateMove (".to_owned();
            push_dec(&mut line, hooked as u64);
            line.append("/");
            push_dec(&mut line, count as u64);
            line.append(" input vtables, fn +0x");
            push_hex(&mut line, self.create_move);
            line.append(")");
            tell(&mut out, line);
            let phase: InitPhase = self.past_create_move();
            self.go(phase, out)
        }
    }

    /// Takes a reply; gives the lines to tell.
    pub fn step(&mut self, reply: InitReply) -> (r: Vec<String>)
        requires
            old(self)@.wf(),
        ensures
            (final(self)@, string_views(r@)) == old(self)@.next(reply@),
            final(self)@.wf(),
    {
        match (self.phase, reply) {
            (InitPhase::Insecure, InitReply::Insecure(insecure)) => {
                if !insecure {
                    return self.give_up(
                        "game was not started with -insecure; NOT installing hooks",
                    );
                }
                self.phase = InitPhase::Modules(0);
                none()
            },
            (InitPhase::Modules(looks), InitReply::Modules { client, launcher, engine }) => {
                match (client, launcher) {
                    (Some(c), Some(l)) => {
                        if engine || looks + 1 >= MODULE_LOOKS {
                            self.engine = engine;
                            self.phase = InitPhase::Parse;
                            let mut line: String = with_hex(
                                "modules found: client 0x",
                                c,
                                " launcher 0x",
                            );
                            push_hex(&mut line, l);
                            return one(line);
                        }
                    },
                    _ => {},
                }
                if looks + 1 < MODULE_LOOKS {
                    self.phase = InitPhase::Modules(looks + 1);
                    none()
                } else {
                    self.give_up("timed out waiting for client.so/launcher.so")
                }
            },
            (InitPhase::Parse, InitReply::Parsed(ok)) => {
                if !ok {
                    return self.give_up(
                        "cannot parse client.so/launcher.so as ELF; NOT installing hooks",
                    );
                }
                self.phase = InitPhase::Sdl;
                none()
            },
            (InitPhase::Sdl, InitReply::Sdl { library, poll }) => {
                if !library {
                    return self.give_up("could not get libSDL2 handle");
                }
                if !poll {
                    return self.give_up("SDL_PollEvent not found");
                }
                self.phase = InitPhase::Convar;
                one("SDL symbols resolved".to_owned())
            },
            (InitPhase::Convar, InitReply::Finished) => {
                self.phase = InitPhase::Poll;
                none()
            },
            (InitPhase::Poll, InitReply::Poll(r)) => {
                let line: String = match r {
                    Some((slot, Ok(_))) => {
                        self.phase = InitPhase::Accumulator;
                        return one(with_hex("hooked SDL_PollEvent (GOT +0x", slot, ")"));
                    },
                    Some((_, Err(e))) => cat("FAILED to hook SDL_PollEvent: ", e.as_str()),
                    None =>
                    "FAILED to hook SDL_PollEvent: launcher.so has no relocation for it".to_owned(),
                };
                self.phase = InitPhase::CreateMove;
                let mut out: Vec<String> = one(line);
                tell(
                    &mut out,
                    "NOT hooking GetRawMouseAccumulators without the SDL hook (mouse would stop)".to_owned(),
                );
                assert(string_views(out@) =~= old(self)@.next(reply@).1);
                out
            },
            (InitPhase::Accumulator, InitReply::Accumulator(r)) => {
                self.phase = InitPhase::CreateMove;
                let line: String = match r {
                    Some((slot, f, Ok(_))) => {
                        let mut line: String = "hooked GetRawMouseAccumulators (".to_owned();
                        line.append(LAUNCHER_MGR_CLASS);
                        line.append(" slot +0x");
                        push_hex(&mut line, slot);
                        line.append(", fn +0x");
                        push_hex(&mut line, f);
                        line.append(")");
                        line
                    },
                    Some((_, _, Err(e))) => cat(
                        "FAILED to hook GetRawMouseAccumulators: ",
                        e.as_str(),
                    ),
                    None => {
                        let mut line: String =
                            "FAILED to hook GetRawMouseAccumulators: not found in ".to_owned();
                        line.append(LAUNCHER_MGR_CLASS);
                        line.append("'s vtable (game updated?)");
                        line
                    },
                };
                one(line)
            },
            (InitPhase::CreateMove, InitReply::CreateMove(r)) => match r {
                None => {
                    let phase: InitPhase = self.past_create_move();
                    self.go(
                        phase,
                        one(
                            "FAILED to hook CreateMove: no CInput vtable in client.so (game updated?)".to_owned(),
                        ),
                    )
                },
                Some((f, slots)) => {
                    self.create_move = f;
                    self.slots = slots;
                    self.phase = InitPhase::Publish;
                    none()
                },
            },
            (InitPhase::Publish, InitReply::Finished) => self.past_slot(0, 0, none()),
            (InitPhase::Slot { index, hooked }, InitReply::Slot(r)) => match r {
                Ok(_) => {
                    let count: usize = self.slots.len();
                    assert(index < count);
                    self.past_slot(index + 1, hooked + 1, none())
                },
                Err(e) => {
                    let count: usize = self.slots.len();
                    assert(index < count);
                    let mut line: String = with_hex(
                        "CreateMove slot +0x",
                        self.slots[index],
                        " NOT hooked: ",
                    );
                    line.append(e.as_str());
                    self.past_slot(index + 1, hooked, one(line))
                },
            },
            (InitPhase::Withdraw, InitReply::Finished) => {
                let phase: InitPhase = self.past_create_move();
                self.go(phase, none())
            },
            (InitPhase::Viewpunch, InitReply::Finished) => {
                let phase: InitPhase = self.past_viewpunch();
                self.go(phase, none())
            },
            (InitPhase::EngineParse, InitReply::Parsed(ok)) => {
                if ok {
                    self.phase = InitPhase::Fastdl;
                    none()
                } else {
                    self.go(
                        InitPhase::Done,
                        one("cannot parse engine.so; fastdl + console features off".to_owned()),
                    )
                }
            },
            (InitPhase::Fastdl, InitReply::Fastdl(armed)) => {
                self.phase = InitPhase::Engine;
                one(
                    if armed {
                        "hooked ProcessServerInfo (fastdl.me map hijack armed)".to_owned()
                    } else {
                        "fastdl hook NOT installed (see above)".to_owned()
                    },
                )
            },
            (InitPhase::Engine, InitReply::Finished) => self.go(InitPhase::Done, none()),
            _ => none(),
        }
    }
}

/// One moment of the arming: what is hooked in the game, and how far it got.
pub struct InitMoment {
    pub init: InitView,
    /// The event poll fills the ring.
    pub poll: bool,
    /// The accumulator is served from the ring.
    pub accumulator: bool,
    /// The hook of `CreateMove` knows what to call.
    pub published: bool,
    /// The slots of `CreateMove` that lead to the hook.
    pub moves: nat,
}

/// The game after a reply, if the reply tells what was done.
pub open spec fn honest_init(m: InitMoment, reply: InitReplyView, after: InitMoment) -> bool {
    &&& after.init == m.init.next(reply).0
    &&& after.poll == (m.poll || (m.init.phase == InitPhase::Poll && reply matches
        InitReplyView::Poll(Some((_, None)))))
    &&& after.accumulator == (m.accumulator || (m.init.phase == InitPhase::Accumulator
        && reply matches InitReplyView::Accumulator(Some((_, _, None)))))
    &&& after.published == (if m.init.phase == InitPhase::Publish && reply
        == InitReplyView::Finished {
        true
    } else if m.init.phase == InitPhase::Withdraw && reply == InitReplyView::Finished {
        false
    } else {
        m.published
    })
    &&& after.moves == m.moves + (if m.init.phase is Slot && reply == InitReplyView::Slot(None) {
        1nat
    } else {
        0nat
    })
}

/// The moments are a run of the arming, from the start, in an untouched game.
pub open spec fn init_run(ms: Seq<InitMoment>, rs: Seq<InitReplyView>) -> bool {
    &&& ms.len() == rs.len() + 1
    &&& ms[0].init.phase == InitPhase::Insecure
    &&& !ms[0].poll && !ms[0].accumulator && !ms[0].published && ms[0].moves == 0
    &&& forall|i: int| 0 <= i < rs.len() ==> honest_init(#[trigger] ms[i], rs[i], ms[i + 1])
}

spec fn armed(m: InitMoment) -> bool {
    &&& m.init.wf()
    &&& m.accumulator ==> m.poll
    &&& match m.init.phase {
        InitPhase::Insecure | InitPhase::Modules(_) | InitPhase::Parse | InitPhase::Sdl
        | InitPhase::Convar | InitPhase::Poll => !m.poll && !m.accumulator && !m.published
            && m.moves == 0,
        InitPhase::Accumulator => m.poll && !m.published && m.moves == 0,
        InitPhase::CreateMove | InitPhase::Publish => !m.published && m.moves == 0,
        InitPhase::Slot { hooked, .. } => m.published && m.moves == hooked,
        InitPhase::Withdraw => m.published && m.moves == 0,
        _ => m.published <==> m.moves > 0,
    }
}

proof fn run_is_armed(ms: Seq<InitMoment>, rs: Seq<InitReplyView>, n: int)
    requires
        init_run(ms, rs),
        0 <= n < ms.len(),
        forall|i: int| 0 <= i < ms.len() ==> (#[trigger] ms[i]).init.slots.len() <= usize::MAX,
    ensures
        armed(ms[n]),
    decreases n,
{
    if n > 0 {
        run_is_armed(ms, rs, n - 1);
        assert(honest_init(ms[n - 1], rs[n - 1], ms[n - 1 + 1]));
        assert(ms[n - 1].init.slots.len() <= usize::MAX);
    }
}

/// The mouse never stops: the accumulator is taken over only where the event
/// poll fills the ring. And a hooked `CreateMove` always knows what to call:
/// its address is published before the first slot is hooked, and withdrawn
/// only where none is.
pub proof fn hooks_are_never_half_armed(ms: Seq<InitMoment>, rs: Seq<InitReplyView>)
    requires
        init_run(ms, rs),
        forall|i: int| 0 <= i < ms.len() ==> (#[trigger] ms[i]).init.slots.len() <= usize::MAX,
    ensures
        ms.last().accumulator ==> ms.last().poll,
        ms.last().moves > 0 ==> ms.last().published,
{
    run_is_armed(ms, rs, ms.len() - 1);
}

/// A game that does not run insecurely is left alone.
pub proof fn secure_games_stay_untouched(ms: Seq<InitMoment>, rs: Seq<InitReplyView>, n: int)
    requires
        init_run(ms, rs),
        rs.len() > 0,
        rs[0] == InitReplyView::Insecure(false),
        1 <= n < ms.len(),
    ensures
        ms[n].init.phase == InitPhase::Done,
        !ms[n].poll && !ms[n].accumulator && !ms[n].published && ms[n].moves == 0,
    decreases n,
{
    assert(honest_init(ms[n - 1], rs[n - 1], ms[n - 1 + 1]));
    if n > 1 {
        secure_games_stay_untouched(ms, rs, n - 1);
    }
}

/// The library gets armed: in an insecure game whose modules are there, each
/// step that went well leads to the next feature, down to the last.
pub proof fn the_library_gets_armed(
    s: InitView,
    looks: u32,
    client: u64,
    launcher: u64,
    slot: u64,
    f: u64,
    slots: Seq<u64>,
)
    requires
        slots.len() > 0,
        looks < 240,
    ensures
        s.at(InitPhase::Insecure).next(InitReplyView::Insecure(true)).0.phase == InitPhase::Modules(
            0,
        ),
        s.at(InitPhase::Modules(looks)).next(
            InitReplyView::Modules {
                client: Some(client),
                launcher: Some(launcher),
                engine: true,
            },
        ).0 == (InitView { engine: true, ..s.at(InitPhase::Parse) }),
        s.at(InitPhase::Parse).next(InitReplyView::Parsed(true)).0.phase == InitPhase::Sdl,
        s.at(InitPhase::Sdl).next(InitReplyView::Sdl { library: true, poll: true }).0.phase
            == InitPhase::Convar,
        s.at(InitPhase::Convar).next(InitReplyView::Finished).0.phase == InitPhase::Poll,
        s.at(InitPhase::Poll).next(InitReplyView::Poll(Some((slot, None)))).0.phase
            == InitPhase::Accumulator,
        s.at(InitPhase::Accumulator).next(
            InitReplyView::Accumulator(Some((slot, f, None))),
        ).0.phase == InitPhase::CreateMove,
        s.at(InitPhase::CreateMove).next(InitReplyView::CreateMove(Some((f, slots)))).0 == (
        InitView { create_move: f, slots, ..s.at(InitPhase::Publish) }),
        s.slots.len() > 0 ==> s.at(InitPhase::Publish).next(InitReplyView::Finished).0.phase == (
        InitPhase::Slot { index: 0, hooked: 0 }),
        s.at(InitPhase::EngineParse).next(InitReplyView::Parsed(true)).0.phase == InitPhase::Fastdl,
        s.at(InitPhase::Fastdl).next(InitReplyView::Fastdl(true)).0.phase == InitPhase::Engine,
        s.at(InitPhase::Engine).next(InitReplyView::Finished).0.phase == InitPhase::Done,
        s.at(InitPhase::Engine).next(InitReplyView::Finished).1.len() == 1,
{
}

/// Every slot of `CreateMove` gets its turn, whatever came of those before it;
/// with at least one hooked the arming goes on, with none the address is
/// withdrawn.
pub proof fn every_slot_gets_its_turn(
    s: InitView,
    index: usize,
    hooked: usize,
    e: Option<Seq<char>>,
)
    requires
        hooked <= index < s.slots.len(),
        s.slots.len() <= usize::MAX,
    ensures
        ({
            let now = s.at(InitPhase::Slot { index, hooked });
            let count: int = if e is None {
                hooked + 1
            } else {
                hooked as int
            };
            let after = now.next(InitReplyView::Slot(e)).0;
            &&& index + 1 < s.slots.len() ==> after.phase == (InitPhase::Slot {
                index: (index + 1) as usize,
                hooked: count as usize,
            })
            &&& index + 1 == s.slots.len() && count == 0 ==> after.phase == InitPhase::Withdraw
            &&& index + 1 == s.slots.len() && count > 0 ==> after.phase == s.after_create_move()
            &&& after.slots == s.slots
        }),
{
}

/// What follows: the view kick is taken out unless it is to stay, and the
/// engine's features are armed where the engine was found.
pub proof fn features_follow_the_options(s: InitView)
    ensures
        !s.keep_viewpunch ==> s.after_create_move() == InitPhase::Viewpunch,
        s.keep_viewpunch && s.engine ==> s.after_create_move() == InitPhase::EngineParse,
        s.keep_viewpunch && !s.engine ==> s.after_create_move() == InitPhase::Done,
        s.engine ==> s.at(InitPhase::Viewpunch).next(InitReplyView::Finished).0.phase
            == InitPhase::EngineParse,
        !s.engine ==> s.at(InitPhase::Viewpunch).next(InitReplyView::Finished).0.phase
            == InitPhase::Done,
        s.at(InitPhase::Withdraw).next(InitReplyView::Finished).0.phase == s.after_create_move(),
{
}

/// A feature that cannot be armed does not stop the others.
pub proof fn a_missing_feature_is_left_out(s: InitView, e: Seq<char>, slot: u64, f: u64)
    ensures
        s.at(InitPhase::Poll).next(InitReplyView::Poll(None)).0.phase == InitPhase::CreateMove,
        s.at(InitPhase::Poll).next(InitReplyView::Poll(Some((slot, Some(e))))).0.phase
            == InitPhase::CreateMove,
        s.at(InitPhase::Accumulator).next(InitReplyView::Accumulator(None)).0.phase
            == InitPhase::CreateMove,
        s.at(InitPhase::Accumulator).next(
            InitReplyView::Accumulator(Some((slot, f, Some(e)))),
        ).0.phase == InitPhase::CreateMove,
        s.at(InitPhase::CreateMove).next(InitReplyView::CreateMove(None)).0.phase
            == s.after_create_move(),
        s.at(InitPhase::Fastdl).next(InitReplyView::Fastdl(false)).0.phase == InitPhase::Engine,
{
}

/// The modules are looked for up to 240 times; the engine is waited for as long
/// and then done without.
pub proof fn modules_are_waited_for(
    s: InitView,
    looks: u32,
    client: Option<u64>,
    launcher: Option<u64>,
    engine: bool,
)
    requires
        looks < 240,
    ensures
        ({
            let after = s.at(InitPhase::Modules(looks)).next(
                InitReplyView::Modules { client, launcher, engine },
            ).0;
            let both = client is Some && launcher is Some;
            &&& !(both && engine) && looks < 239 ==> after.phase == InitPhase::Modules(
                (looks + 1) as u32,
            )
            &&& both && looks == 239 ==> after.phase == InitPhase::Parse && after.engine == engine
            &&& !both && looks == 239 ==> after.phase == InitPhase::Done
        }),
{
}

} // verus!
