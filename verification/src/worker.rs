//! The life of the Windows hook worker: installing every feature in order,
//! serving until it is told to stop, and taking everything back.
//!
//! The worker says of itself that it may be unloaded only where no process
//! memory can still point into it. The caller performs each action and hands
//! back what came of it.
use vstd::prelude::*;
use vstd::utf8::encode_utf8;

use crate::control::{
    published, ControlBlock, LogLevel, FEATURE_CONSOLE, FEATURE_DOWNLOADS, FEATURE_FASTDL,
    FEATURE_FULLSCREEN, FEATURE_RAWINPUT2, FEATURE_SOURCEJUMP, FEATURE_VIEWPUNCH,
    FLAG_KEEP_VIEWPUNCH, FLAG_NO_SOURCEJUMP, STATE_CREATED, STATE_FAILED, STATE_READY,
    STATE_STARTING, STATE_STOPPED, STATE_STOPPING,
};
use crate::text::{cat, join, joined, outcome_view, string_views};

verus! {

/// Where a hook worker stands.
pub enum Phase {
    /// Whether the game runs with -insecure is wanted.
    Args,
    /// Looking for the game's modules, after this many rounds: whether to stop
    /// is wanted.
    Modules(u32),
    /// Whether all of them are loaded is wanted.
    Loaded(u32),
    /// They are not; a pause is due.
    NotLoaded(u32),
    /// The search is over; whether to stop is wanted.
    ModulesMissing,
    /// The engine integration is to be installed.
    Engine,
    /// The fullscreen patches are to be resolved.
    Fullscreen,
    /// They were not; the engine integration is to be shut down.
    FullscreenFailed(String),
    /// The raw-input hooks are to be installed.
    Rawinput,
    /// They were not; the engine integration is to be shut down.
    RawinputFailed(String),
    /// It was; whether every hook is gone is wanted.
    RawinputQuiet(String),
    /// The viewpunch patches are to be installed.
    Viewpunch,
    /// They were not; the raw-input hooks are to be restored.
    ViewpunchFailed(String),
    /// They were, with this outcome; the engine integration is to be shut
    /// down.
    ViewpunchCleaned(String, Result<(), String>),
    /// It was; whether every hook is gone is wanted.
    ViewpunchQuiet(String, Result<(), String>),
    /// Record lookups are to be started.
    Lookups,
    /// The map-version interceptor is to be installed.
    Fastdl,
    /// It was not; record lookups are to be stopped.
    FastdlFailed(String),
    /// They were; the viewpunch patches are to be restored.
    FastdlViewpunch(String),
    /// They were; the raw-input hooks are to be restored.
    FastdlRawinput(String, Vec<String>),
    /// They were; the engine integration is to be shut down.
    FastdlEngine(String, Vec<String>),
    /// It was; whether every hook is gone is wanted.
    FastdlQuiet(String, Vec<String>),
    /// All is installed; F6 and F7 were last seen so. Whether to stop is
    /// wanted.
    Serving(bool, bool),
    /// The state of F6 is wanted.
    KeyF6(bool, bool),
    /// F6 went down: the fullscreen switch is to be thrown.
    FlipFullscreen(bool, bool),
    /// The state of F7 is wanted.
    KeyF7(bool, bool),
    /// F7 went down: the viewpunch switch is to be thrown.
    FlipViewpunch(bool, bool),
    /// A pause is due.
    Pause(bool, bool),
    /// Stopping: the map-version interceptor is to be restored.
    StopFastdl,
    /// Record lookups are to be stopped.
    StopLookups(Vec<String>),
    /// The fullscreen patches are to be restored.
    StopFullscreen(Vec<String>),
    /// The viewpunch patches are to be restored.
    StopViewpunch(Vec<String>),
    /// The raw-input hooks are to be restored.
    StopRawinput(Vec<String>),
    /// The engine integration is to be shut down.
    StopEngine(Vec<String>),
    /// Whether every hook is gone is wanted.
    StopQuiet(Vec<String>),
    /// The worker is to exit with this code.
    Exited(u32),
}

/// The value of a `Phase`.
pub enum PhaseView {
    Args,
    Modules(u32),
    Loaded(u32),
    NotLoaded(u32),
    ModulesMissing,
    Engine,
    Fullscreen,
    FullscreenFailed(Seq<char>),
    Rawinput,
    RawinputFailed(Seq<char>),
    RawinputQuiet(Seq<char>),
    Viewpunch,
    ViewpunchFailed(Seq<char>),
    ViewpunchCleaned(Seq<char>, Result<(), Seq<char>>),
    ViewpunchQuiet(Seq<char>, Result<(), Seq<char>>),
    Lookups,
    Fastdl,
    FastdlFailed(Seq<char>),
    FastdlViewpunch(Seq<char>),
    FastdlRawinput(Seq<char>, Seq<Seq<char>>),
    FastdlEngine(Seq<char>, Seq<Seq<char>>),
    FastdlQuiet(Seq<char>, Seq<Seq<char>>),
    Serving(bool, bool),
    KeyF6(bool, bool),
    FlipFullscreen(bool, bool),
    KeyF7(bool, bool),
    FlipViewpunch(bool, bool),
    Pause(bool, bool),
    StopFastdl,
    StopLookups(Seq<Seq<char>>),
    StopFullscreen(Seq<Seq<char>>),
    StopViewpunch(Seq<Seq<char>>),
    StopRawinput(Seq<Seq<char>>),
    StopEngine(Seq<Seq<char>>),
    StopQuiet(Seq<Seq<char>>),
    Exited(u32),
}

impl View for Phase {
    type V = PhaseView;

    open spec fn view(&self) -> PhaseView {
        match self {
            Phase::Args => PhaseView::Args,
            Phase::Modules(a) => PhaseView::Modules(*a),
            Phase::Loaded(a) => PhaseView::Loaded(*a),
            Phase::NotLoaded(a) => PhaseView::NotLoaded(*a),
            Phase::ModulesMissing => PhaseView::ModulesMissing,
            Phase::Engine => PhaseView::Engine,
            Phase::Fullscreen => PhaseView::Fullscreen,
            Phase::FullscreenFailed(a) => PhaseView::FullscreenFailed(a@),
            Phase::Rawinput => PhaseView::Rawinput,
            Phase::RawinputFailed(a) => PhaseView::RawinputFailed(a@),
            Phase::RawinputQuiet(a) => PhaseView::RawinputQuiet(a@),
            Phase::Viewpunch => PhaseView::Viewpunch,
            Phase::ViewpunchFailed(a) => PhaseView::ViewpunchFailed(a@),
            Phase::ViewpunchCleaned(a, b) => PhaseView::ViewpunchCleaned(a@, outcome_view(*b)),
            Phase::ViewpunchQuiet(a, b) => PhaseView::ViewpunchQuiet(a@, outcome_view(*b)),
            Phase::Lookups => PhaseView::Lookups,
            Phase::Fastdl => PhaseView::Fastdl,
            Phase::FastdlFailed(a) => PhaseView::FastdlFailed(a@),
            Phase::FastdlViewpunch(a) => PhaseView::FastdlViewpunch(a@),
            Phase::FastdlRawinput(a, b) => PhaseView::FastdlRawinput(a@, string_views(b@)),
            Phase::FastdlEngine(a, b) => PhaseView::FastdlEngine(a@, string_views(b@)),
            Phase::FastdlQuiet(a, b) => PhaseView::FastdlQuiet(a@, string_views(b@)),
            Phase::Serving(a, b) => PhaseView::Serving(*a, *b),
            Phase::KeyF6(a, b) => PhaseView::KeyF6(*a, *b),
            Phase::FlipFullscreen(a, b) => PhaseView::FlipFullscreen(*a, *b),
            Phase::KeyF7(a, b) => PhaseView::KeyF7(*a, *b),
            Phase::FlipViewpunch(a, b) => PhaseView::FlipViewpunch(*a, *b),
            Phase::Pause(a, b) => PhaseView::Pause(*a, *b),
            Phase::StopFastdl => PhaseView::StopFastdl,
            Phase::StopLookups(a) => PhaseView::StopLookups(string_views(a@)),
            Phase::StopFullscreen(a) => PhaseView::StopFullscreen(string_views(a@)),
            Phase::StopViewpunch(a) => PhaseView::StopViewpunch(string_views(a@)),
            Phase::StopRawinput(a) => PhaseView::StopRawinput(string_views(a@)),
            Phase::StopEngine(a) => PhaseView::StopEngine(string_views(a@)),
            Phase::StopQuiet(a) => PhaseView::StopQuiet(string_views(a@)),
            Phase::Exited(a) => PhaseView::Exited(*a),
        }
    }
}

/// What a worker waits for.
#[derive(Clone, Copy, Debug, Eq, PartialEq, Structural)]
pub enum Action {
    CheckInsecure,
    CheckStop,
    FindModules,
    SleepModules,
    InstallEngine,
    InstallFullscreen,
    ShutdownEngine,
    InstallRawinput,
    AskQuiet,
    InstallViewpunch,
    RestoreRawinput,
    StartLookups,
    InstallFastdl,
    StopLookups,
    RestoreViewpunch,
    ReadF6,
    ToggleFullscreen,
    ReadF7,
    ToggleViewpunch,
    Sleep,
    RestoreFastdl,
    RestoreFullscreen,
    Exit,
}

impl PhaseView {
    /// What the worker waits for.
    pub open spec fn action(self) -> Action {
        match self {
            PhaseView::Args => Action::CheckInsecure,
            PhaseView::Modules(_) => Action::CheckStop,
            PhaseView::Loaded(_) => Action::FindModules,
            PhaseView::NotLoaded(_) => Action::SleepModules,
            PhaseView::ModulesMissing => Action::CheckStop,
            PhaseView::Engine => Action::InstallEngine,
            PhaseView::Fullscreen => Action::InstallFullscreen,
            PhaseView::FullscreenFailed(_) => Action::ShutdownEngine,
            PhaseView::Rawinput => Action::InstallRawinput,
            PhaseView::RawinputFailed(_) => Action::ShutdownEngine,
            PhaseView::RawinputQuiet(_) => Action::AskQuiet,
            PhaseView::Viewpunch => Action::InstallViewpunch,
            PhaseView::ViewpunchFailed(_) => Action::RestoreRawinput,
            PhaseView::ViewpunchCleaned(_, _) => Action::ShutdownEngine,
            PhaseView::ViewpunchQuiet(_, _) => Action::AskQuiet,
            PhaseView::Lookups => Action::StartLookups,
            PhaseView::Fastdl => Action::InstallFastdl,
            PhaseView::FastdlFailed(_) => Action::StopLookups,
            PhaseView::FastdlViewpunch(_) => Action::RestoreViewpunch,
            PhaseView::FastdlRawinput(_, _) => Action::RestoreRawinput,
            PhaseView::FastdlEngine(_, _) => Action::ShutdownEngine,
            PhaseView::FastdlQuiet(_, _) => Action::AskQuiet,
            PhaseView::Serving(_, _) => Action::CheckStop,
            PhaseView::KeyF6(_, _) => Action::ReadF6,
            PhaseView::FlipFullscreen(_, _) => Action::ToggleFullscreen,
            PhaseView::KeyF7(_, _) => Action::ReadF7,
            PhaseView::FlipViewpunch(_, _) => Action::ToggleViewpunch,
            PhaseView::Pause(_, _) => Action::Sleep,
            PhaseView::StopFastdl => Action::RestoreFastdl,
            PhaseView::StopLookups(_) => Action::StopLookups,
            PhaseView::StopFullscreen(_) => Action::RestoreFullscreen,
            PhaseView::StopViewpunch(_) => Action::RestoreViewpunch,
            PhaseView::StopRawinput(_) => Action::RestoreRawinput,
            PhaseView::StopEngine(_) => Action::ShutdownEngine,
            PhaseView::StopQuiet(_) => Action::AskQuiet,
            PhaseView::Exited(_) => Action::Exit,
        }
    }
}

impl Phase {
    /// What the worker waits for.
    pub fn action(&self) -> (r: Action)
        ensures
            r == self@.action(),
    {
        match self {
            Phase::Args => Action::CheckInsecure,
            Phase::Modules(_) => Action::CheckStop,
            Phase::Loaded(_) => Action::FindModules,
            Phase::NotLoaded(_) => Action::SleepModules,
            Phase::ModulesMissing => Action::CheckStop,
            Phase::Engine => Action::InstallEngine,
            Phase::Fullscreen => Action::InstallFullscreen,
            Phase::FullscreenFailed(_) => Action::ShutdownEngine,
            Phase::Rawinput => Action::InstallRawinput,
            Phase::RawinputFailed(_) => Action::ShutdownEngine,
            Phase::RawinputQuiet(_) => Action::AskQuiet,
            Phase::Viewpunch => Action::InstallViewpunch,
            Phase::ViewpunchFailed(_) => Action::RestoreRawinput,
            Phase::ViewpunchCleaned(_, _) => Action::ShutdownEngine,
            Phase::ViewpunchQuiet(_, _) => Action::AskQuiet,
            Phase::Lookups => Action::StartLookups,
            Phase::Fastdl => Action::InstallFastdl,
            Phase::FastdlFailed(_) => Action::StopLookups,
            Phase::FastdlViewpunch(_) => Action::RestoreViewpunch,
            Phase::FastdlRawinput(_, _) => Action::RestoreRawinput,
            Phase::FastdlEngine(_, _) => Action::ShutdownEngine,
            Phase::FastdlQuiet(_, _) => Action::AskQuiet,
            Phase::Serving(_, _) => Action::CheckStop,
            Phase::KeyF6(_, _) => Action::ReadF6,
            Phase::FlipFullscreen(_, _) => Action::ToggleFullscreen,
            Phase::KeyF7(_, _) => Action::ReadF7,
            Phase::FlipViewpunch(_, _) => Action::ToggleViewpunch,
            Phase::Pause(_, _) => Action::Sleep,
            Phase::StopFastdl => Action::RestoreFastdl,
            Phase::StopLookups(_) => Action::StopLookups,
            Phase::StopFullscreen(_) => Action::RestoreFullscreen,
            Phase::StopViewpunch(_) => Action::RestoreViewpunch,
            Phase::StopRawinput(_) => Action::RestoreRawinput,
            Phase::StopEngine(_) => Action::ShutdownEngine,
            Phase::StopQuiet(_) => Action::AskQuiet,
            Phase::Exited(_) => Action::Exit,
        }
    }
}

/// How often the game's modules are looked for.
pub const MODULE_ROUNDS: u32 = 600;

/// Which features have no hook left in the process.
#[derive(Clone, Copy, Debug, Eq, PartialEq, Structural)]
pub struct Quiet {
    pub rawinput: bool,
    pub viewpunch: bool,
    pub fullscreen: bool,
    pub fastdl: bool,
}

/// What came of an action.
pub enum Reply {
    /// The answer to a question.
    Flag(bool),
    /// What came of installing, restoring or throwing a switch.
    Outcome(Result<(), String>),
    Quiet(Quiet),
    /// It was done.
    Done,
}

/// The value of a `Reply`.
pub enum ReplyView {
    Flag(bool),
    Outcome(Result<(), Seq<char>>),
    Quiet(Quiet),
    Done,
}

impl View for Reply {
    type V = ReplyView;

    open spec fn view(&self) -> ReplyView {
        match self {
            Reply::Flag(b) => ReplyView::Flag(*b),
            Reply::Outcome(r) => ReplyView::Outcome(outcome_view(*r)),
            Reply::Quiet(q) => ReplyView::Quiet(*q),
            Reply::Done => ReplyView::Done,
        }
    }
}

/// What a block says of its worker.
#[derive(Clone, Copy, Debug, Eq, PartialEq, Structural)]
pub struct Status {
    pub state: u32,
    pub error: u32,
    pub unload_safe: u32,
    pub features: u64,
}

/// What a block says of its worker.
pub open spec fn status_of(b: ControlBlock) -> Status {
    Status {
        state: b.state,
        error: b.error,
        unload_safe: b.unload_safe,
        features: b.features,
    }
}

/// The block after a record was published and its status changed. Everything
/// else is as it was.
pub open spec fn told(
    before: ControlBlock,
    after: ControlBlock,
    status: Status,
    level: LogLevel,
    text: Seq<char>,
) -> bool {
    exists|mid: ControlBlock| #[trigger]
        published(before, mid, level, encode_utf8(text)) && after == (ControlBlock {
            state: status.state,
            error: status.error,
            unload_safe: status.unload_safe,
            features: status.features,
            ..mid
        })
}

/// The block after its status changed and, where there is one, a log record
/// was published. Everything else is as it was.
pub open spec fn moved(
    before: ControlBlock,
    after: ControlBlock,
    status: Status,
    log: Option<(LogLevel, Seq<char>)>,
) -> bool {
    match log {
        None => after == (ControlBlock {
            state: status.state,
            error: status.error,
            unload_safe: status.unload_safe,
            features: status.features,
            ..before
        }),
        Some((level, text)) => told(before, after, status, level, text),
    }
}

/// What a reply leads to: the status, a log record, and the phase.
pub struct Turn {
    pub status: Status,
    pub log: Option<(LogLevel, Seq<char>)>,
    pub phase: PhaseView,
}

/// On to another phase, and nothing else.
pub open spec fn onward(status: Status, phase: PhaseView) -> Turn {
    Turn { status, log: None, phase }
}

/// A failure: logged, marked in the block, and the worker's exit code. A block
/// that is safe to unload has no feature left.
pub open spec fn failing(status: Status, code: u32, text: Seq<char>, unload_safe: bool) -> Turn {
    Turn {
        status: Status {
            state: STATE_FAILED,
            error: code,
            unload_safe: if unload_safe {
                1
            } else {
                status.unload_safe
            },
            features: if unload_safe {
                0
            } else {
                status.features
            },
        },
        log: Some((LogLevel::Error, text)),
        phase: PhaseView::Exited(code),
    }
}

/// The worker is gone without a trace.
pub open spec fn stopped(status: Status) -> Status {
    Status { state: STATE_STOPPED, unload_safe: 1, features: 0, ..status }
}

/// The features of a ready worker.
pub open spec fn ready_features(flags: u32) -> u64 {
    FEATURE_RAWINPUT2 | FEATURE_VIEWPUNCH | FEATURE_FASTDL | FEATURE_FULLSCREEN | FEATURE_CONSOLE
        | FEATURE_DOWNLOADS | (if flags & FLAG_NO_SOURCEJUMP == 0 {
        FEATURE_SOURCEJUMP
    } else {
        0
    })
}

/// No feature has a hook left.
pub open spec fn all_quiet(q: Quiet) -> bool {
    q.rawinput && q.viewpunch && q.fullscreen && q.fastdl
}

/// Errors with one more under a label, if there is one.
pub open spec fn labelled(
    errors: Seq<Seq<char>>,
    label: Seq<char>,
    r: Result<(), Seq<char>>,
) -> Seq<Seq<char>> {
    match r {
        Ok(_) => errors,
        Err(e) => errors.push(label + e),
    }
}

/// Before the first action: only a new block is served.
pub open spec fn begun(status: Status) -> Turn {
    if status.state == STATE_CREATED {
        onward(Status { state: STATE_STARTING, ..status }, PhaseView::Args)
    } else {
        failing(status, 2, "hook start rejected: control block is not new"@, true)
    }
}

/// What a reply leads to. One that was not waited for changes nothing.
pub open spec fn turn(flags: u32, status: Status, phase: PhaseView, reply: ReplyView) -> Turn {
    match (phase, reply) {
        (PhaseView::Args, ReplyView::Flag(insecure)) => if insecure {
            onward(status, PhaseView::Modules(0))
        } else {
            failing(
                status,
                3,
                "hook start rejected: game was not launched with -insecure"@,
                true,
            )
        },
        (PhaseView::Modules(n), ReplyView::Flag(stop)) => if stop {
            onward(status, PhaseView::ModulesMissing)
        } else {
            onward(status, PhaseView::Loaded(n))
        },
        (PhaseView::Loaded(n), ReplyView::Flag(found)) => if found {
            onward(status, PhaseView::Engine)
        } else {
            onward(status, PhaseView::NotLoaded(n))
        },
        (PhaseView::NotLoaded(n), ReplyView::Done) => if n + 1 < MODULE_ROUNDS {
            onward(status, PhaseView::Modules((n + 1) as u32))
        } else {
            onward(status, PhaseView::ModulesMissing)
        },
        (PhaseView::ModulesMissing, ReplyView::Flag(stop)) => if stop {
            onward(
                Status { state: STATE_STOPPED, unload_safe: 1, ..status },
                PhaseView::Exited(0),
            )
        } else {
            failing(
                status,
                4,
                "hook start failed: client.dll, inputsystem.dll, engine.dll, or d3d9.dll did not load"@,
                true,
            )
        },
        (PhaseView::Engine, ReplyView::Outcome(r)) => match r {
            Ok(_) => onward(status, PhaseView::Fullscreen),
            Err(e) => failing(status, 5, "engine integration failed: "@ + e, true),
        },
        (PhaseView::Fullscreen, ReplyView::Outcome(r)) => match r {
            Ok(_) => onward(status, PhaseView::Rawinput),
            Err(e) => onward(status, PhaseView::FullscreenFailed(e)),
        },
        (PhaseView::FullscreenFailed(e), ReplyView::Done) => failing(
            status,
            6,
            "fullscreen integration failed: "@ + e,
            true,
        ),
        (PhaseView::Rawinput, ReplyView::Outcome(r)) => match r {
            Ok(_) => onward(status, PhaseView::Viewpunch),
            Err(e) => onward(status, PhaseView::RawinputFailed(e)),
        },
        (PhaseView::RawinputFailed(e), ReplyView::Done) => onward(
            status,
            PhaseView::RawinputQuiet(e),
        ),
        (PhaseView::RawinputQuiet(e), ReplyView::Quiet(q)) => failing(
            status,
            7,
            "rawinput2 install failed: "@ + e,
            q.rawinput && q.fullscreen,
        ),
        (PhaseView::Viewpunch, ReplyView::Outcome(r)) => match r {
            Ok(_) => onward(status, PhaseView::Lookups),
            Err(e) => onward(status, PhaseView::ViewpunchFailed(e)),
        },
        (PhaseView::ViewpunchFailed(e), ReplyView::Outcome(r)) => onward(
            status,
            PhaseView::ViewpunchCleaned(e, r),
        ),
        (PhaseView::ViewpunchCleaned(e, r), ReplyView::Done) => onward(
            status,
            PhaseView::ViewpunchQuiet(e, r),
        ),
        (PhaseView::ViewpunchQuiet(e, r), ReplyView::Quiet(q)) => failing(
            status,
            8,
            "viewpunch install failed: "@ + (match r {
                Ok(_) => e,
                Err(c) => e + "; rawinput cleanup failed: "@ + c,
            }),
            r is Ok && q.rawinput && q.viewpunch && q.fullscreen,
        ),
        (PhaseView::Lookups, ReplyView::Done) => onward(status, PhaseView::Fastdl),
        (PhaseView::Fastdl, ReplyView::Outcome(r)) => match r {
            Ok(_) => Turn {
                status: Status { state: STATE_READY, features: ready_features(flags), ..status },
                log: Some((LogLevel::Info, "Windows x64 hook ready"@)),
                phase: PhaseView::Serving(false, false),
            },
            Err(e) => onward(status, PhaseView::FastdlFailed(e)),
        },
        (PhaseView::FastdlFailed(e), ReplyView::Done) => onward(
            status,
            PhaseView::FastdlViewpunch(e),
        ),
        (PhaseView::FastdlViewpunch(e), ReplyView::Outcome(r)) => onward(
            status,
            PhaseView::FastdlRawinput(e, labelled(Seq::empty(), "viewpunch: "@, r)),
        ),
        (PhaseView::FastdlRawinput(e, es), ReplyView::Outcome(r)) => onward(
            status,
            PhaseView::FastdlEngine(e, labelled(es, "rawinput2: "@, r)),
        ),
        (PhaseView::FastdlEngine(e, es), ReplyView::Done) => onward(
            status,
            PhaseView::FastdlQuiet(e, es),
        ),
        (PhaseView::FastdlQuiet(e, es), ReplyView::Quiet(q)) => failing(
            status,
            9,
            "fastdl install failed: "@ + (if es.len() == 0 {
                e
            } else {
                e + "; cleanup failed: "@ + joined(es)
            }),
            es.len() == 0 && all_quiet(q),
        ),
        (PhaseView::Serving(f6, f7), ReplyView::Flag(stop)) => if stop {
            onward(Status { state: STATE_STOPPING, ..status }, PhaseView::StopFastdl)
        } else {
            onward(status, PhaseView::KeyF6(f6, f7))
        },
        (PhaseView::KeyF6(f6, f7), ReplyView::Flag(down)) => if down && !f6 {
            onward(status, PhaseView::FlipFullscreen(down, f7))
        } else {
            onward(status, PhaseView::KeyF7(down, f7))
        },
        (PhaseView::FlipFullscreen(f6, f7), ReplyView::Outcome(r)) => Turn {
            status,
            log: match r {
                Ok(_) => None,
                Err(e) => Some((LogLevel::Warn, "fullscreen toggle rejected: "@ + e)),
            },
            phase: PhaseView::KeyF7(f6, f7),
        },
        (PhaseView::KeyF7(f6, f7), ReplyView::Flag(down)) => if down && !f7 {
            onward(status, PhaseView::FlipViewpunch(f6, down))
        } else {
            onward(status, PhaseView::Pause(f6, down))
        },
        (PhaseView::FlipViewpunch(f6, f7), ReplyView::Outcome(r)) => Turn {
            status,
            log: match r {
                Ok(_) => None,
                Err(e) => Some((LogLevel::Warn, "viewpunch toggle rejected: "@ + e)),
            },
            phase: PhaseView::Pause(f6, f7),
        },
        (PhaseView::Pause(f6, f7), ReplyView::Done) => onward(status, PhaseView::Serving(f6, f7)),
        (PhaseView::StopFastdl, ReplyView::Outcome(r)) => onward(
            status,
            PhaseView::StopLookups(labelled(Seq::empty(), "fastdl: "@, r)),
        ),
        (PhaseView::StopLookups(es), ReplyView::Done) => onward(
            status,
            PhaseView::StopFullscreen(es),
        ),
        (PhaseView::StopFullscreen(es), ReplyView::Outcome(r)) => onward(
            status,
            PhaseView::StopViewpunch(labelled(es, "fullscreen: "@, r)),
        ),
        (PhaseView::StopViewpunch(es), ReplyView::Outcome(r)) => onward(
            status,
            PhaseView::StopRawinput(labelled(es, "viewpunch: "@, r)),
        ),
        (PhaseView::StopRawinput(es), ReplyView::Outcome(r)) => onward(
            status,
            PhaseView::StopEngine(labelled(es, "rawinput2: "@, r)),
        ),
        (PhaseView::StopEngine(es), ReplyView::Done) => onward(status, PhaseView::StopQuiet(es)),
        (PhaseView::StopQuiet(es), ReplyView::Quiet(q)) => if es.len() == 0 && all_quiet(q) {
            Turn {
                status: stopped(status),
                log: Some((LogLevel::Info, "Windows x64 hooks restored"@)),
                phase: PhaseView::Exited(0),
            }
        } else {
            failing(status, 10, "hook restoration failed: "@ + joined(es), false)
        },
        _ => onward(status, phase),
    }
}

/// What a published record and a changed status add up to.
proof fn logged(
    before: ControlBlock,
    mid: ControlBlock,
    after: ControlBlock,
    status: Status,
    level: LogLevel,
    text: Seq<char>,
)
    requires
        published(before, mid, level, encode_utf8(text)),
        after == (ControlBlock {
            state: status.state,
            error: status.error,
            unload_safe: status.unload_safe,
            features: status.features,
            ..mid
        }),
    ensures
        moved(before, after, status, Some((level, text))),
{
    assert(told(before, after, status, level, text));
}

/// Marks a failure in the block and gives the exit code.
pub fn fail(block: &mut ControlBlock, code: u32, message: &str, unload_safe: bool) -> (r: u32)
    ensures
        r == code,
        ({
            let t = failing(status_of(*old(block)), code, message@, unload_safe);
            moved(*old(block), *final(block), t.status, t.log)
        }),
{
    block.push_log(LogLevel::Error, message);
    let ghost mid = *block;
    block.error = code;
    if unload_safe {
        block.features = 0;
        block.unload_safe = 1;
    }
    block.state = STATE_FAILED;
    proof {
        let t = failing(status_of(*old(block)), code, message@, unload_safe);
        logged(*old(block), mid, *block, t.status, LogLevel::Error, message@);
    }
    code
}

/// Adds an error under a label, if there is one.
fn with_label(errors: Vec<String>, label: &str, r: Result<(), String>) -> (o: Vec<String>)
    ensures
        string_views(o@) == labelled(string_views(errors@), label@, outcome_view(r)),
{
    let ghost before = string_views(errors@);
    let mut out: Vec<String> = errors;
    match r {
        Ok(_) => {},
        Err(e) => {
            let text: String = cat(label, e.as_str());
            out.push(text);
            assert(string_views(out@) =~= before.push(text@));
        },
    }
    out
}

/// A list without errors.
fn no_errors() -> (r: Vec<String>)
    ensures
        string_views(r@) == Seq::<Seq<char>>::empty(),
{
    let r: Vec<String> = Vec::new();
    assert(string_views(r@) =~= Seq::empty());
    r
}

/// Whether the viewpunch patches start applied.
pub fn initial_viewpunch(block: &ControlBlock) -> (r: bool)
    ensures
        r == (block.flags & FLAG_KEEP_VIEWPUNCH == 0),
{
    block.flags & FLAG_KEEP_VIEWPUNCH == 0
}

/// Starts a worker over a block.
pub fn begin(block: &mut ControlBlock) -> (r: Phase)
    ensures
        ({
            let t = begun(status_of(*old(block)));
            moved(*old(block), *final(block), t.status, t.log) && r@ == t.phase
        }),
{
    if block.state == STATE_CREATED {
        block.state = STATE_STARTING;
        Phase::Args
    } else {
        Phase::Exited(fail(block, 2, "hook start rejected: control block is not new", true))
    }
}

/// Fails with a text that ends with an error.
fn fail_with(block: &mut ControlBlock, code: u32, left: &str, error: &str, unload_safe: bool) -> (r:
    Phase)
    ensures
        ({
            let t = failing(status_of(*old(block)), code, left@ + error@, unload_safe);
            moved(*old(block), *final(block), t.status, t.log) && r@ == t.phase
        }),
{
    let text: String = cat(left, error);
    Phase::Exited(fail(block, code, text.as_str(), unload_safe))
}

/// Publishes a warning about a switch that could not be thrown.
fn warn(block: &mut ControlBlock, left: &str, r: Result<(), String>)
    ensures
        moved(
            *old(block),
            *final(block),
            status_of(*old(block)),
            match outcome_view(r) {
                Ok(_) => None,
                Err(e) => Some((LogLevel::Warn, left@ + e)),
            },
        ),
{
    match r {
        Ok(_) => {},
        Err(e) => {
            let text: String = cat(left, e.as_str());
            block.push_log(LogLevel::Warn, text.as_str());
            proof {
                let status = status_of(*old(block));
                logged(*old(block), *block, *block, status, LogLevel::Warn, text@);
            }
        },
    }
}

/// The last turn: everything was taken back, or not.
fn finish(block: &mut ControlBlock, errors: Vec<String>, q: Quiet) -> (r: Phase)
    ensures
        ({
            let t = turn(
                old(block).flags,
                status_of(*old(block)),
                PhaseView::StopQuiet(string_views(errors@)),
                ReplyView::Quiet(q),
            );
            moved(*old(block), *final(block), t.status, t.log) && r@ == t.phase
        }),
{
    if errors.len() == 0 && q.rawinput && q.viewpunch && q.fullscreen && q.fastdl {
        block.push_log(LogLevel::Info, "Windows x64 hooks restored");
        let ghost mid = *block;
        block.features = 0;
        block.unload_safe = 1;
        block.state = STATE_STOPPED;
        proof {
            logged(*old(block), mid, *block, status_of(*block), LogLevel::Info, "Windows x64 hooks restored"@);
        }
        Phase::Exited(0)
    } else {
        let text: String = join(errors.as_slice());
        fail_with(block, 10, "hook restoration failed: ", text.as_str(), false)
    }
}

/// Everything is installed.
fn ready(block: &mut ControlBlock) -> (r: Phase)
    ensures
        ({
            let t = turn(
                old(block).flags,
                status_of(*old(block)),
                PhaseView::Fastdl,
                ReplyView::Outcome(Ok(())),
            );
            moved(*old(block), *final(block), t.status, t.log) && r@ == t.phase
        }),
{
    block.push_log(LogLevel::Info, "Windows x64 hook ready");
    let ghost mid = *block;
    let lookups: u64 = if block.flags & FLAG_NO_SOURCEJUMP == 0 {
        FEATURE_SOURCEJUMP
    } else {
        0
    };
    block.features =
    FEATURE_RAWINPUT2 | FEATURE_VIEWPUNCH | FEATURE_FASTDL | FEATURE_FULLSCREEN | FEATURE_CONSOLE
        | FEATURE_DOWNLOADS | lookups;
    block.state = STATE_READY;
    proof {
        logged(*old(block), mid, *block, status_of(*block), LogLevel::Info, "Windows x64 hook ready"@);
    }
    Phase::Serving(false, false)
}

/// Takes the reply to a worker's action. One that was not waited for changes
/// nothing.
#[verifier::rlimit(40)]
pub fn step(block: &mut ControlBlock, phase: Phase, reply: Reply) -> (r: Phase)
    ensures
        ({
            let t = turn(old(block).flags, status_of(*old(block)), phase@, reply@);
            moved(*old(block), *final(block), t.status, t.log) && r@ == t.phase
        }),
{
    match (phase, reply) {
        (Phase::Args, Reply::Flag(insecure)) => if insecure {
            Phase::Modules(0)
        } else {
            Phase::Exited(
                fail(
                    block,
                    3,
                    "hook start rejected: game was not launched with -insecure",
                    true,
                ),
            )
        },
        (Phase::Modules(n), Reply::Flag(stop)) => if stop {
            Phase::ModulesMissing
        } else {
            Phase::Loaded(n)
        },
        (Phase::Loaded(n), Reply::Flag(found)) => if found {
            Phase::Engine
        } else {
            Phase::NotLoaded(n)
        },
        (Phase::NotLoaded(n), Reply::Done) => if n < MODULE_ROUNDS - 1 {
            Phase::Modules(n + 1)
        } else {
            Phase::ModulesMissing
        },
        (Phase::ModulesMissing, Reply::Flag(stop)) => if stop {
            block.unload_safe = 1;
            block.state = STATE_STOPPED;
            Phase::Exited(0)
        } else {
            Phase::Exited(
                fail(
                    block,
                    4,
                    "hook start failed: client.dll, inputsystem.dll, engine.dll, or d3d9.dll did not load",
                    true,
                ),
            )
        },
        (Phase::Engine, Reply::Outcome(r)) => match r {
            Ok(_) => Phase::Fullscreen,
            Err(e) => fail_with(block, 5, "engine integration failed: ", e.as_str(), true),
        },
        (Phase::Fullscreen, Reply::Outcome(r)) => match r {
            Ok(_) => Phase::Rawinput,
            Err(e) => Phase::FullscreenFailed(e),
        },
        (Phase::FullscreenFailed(e), Reply::Done) => fail_with(
            block,
            6,
            "fullscreen integration failed: ",
            e.as_str(),
            true,
        ),
        (Phase::Rawinput, Reply::Outcome(r)) => match r {
            Ok(_) => Phase::Viewpunch,
            Err(e) => Phase::RawinputFailed(e),
        },
        (Phase::RawinputFailed(e), Reply::Done) => Phase::RawinputQuiet(e),
        (Phase::RawinputQuiet(e), Reply::Quiet(q)) => fail_with(
            block,
            7,
            "rawinput2 install failed: ",
            e.as_str(),
            q.rawinput && q.fullscreen,
        ),
        (Phase::Viewpunch, Reply::Outcome(r)) => match r {
            Ok(_) => Phase::Lookups,
            Err(e) => Phase::ViewpunchFailed(e),
        },
        (Phase::ViewpunchFailed(e), Reply::Outcome(r)) => Phase::ViewpunchCleaned(e, r),
        (Phase::ViewpunchCleaned(e, r), Reply::Done) => Phase::ViewpunchQuiet(e, r),
        (Phase::ViewpunchQuiet(e, r), Reply::Quiet(q)) => {
            let mut text: String = e;
            match r {
                Ok(_) => fail_with(
                    block,
                    8,
                    "viewpunch install failed: ",
                    text.as_str(),
                    q.rawinput && q.viewpunch && q.fullscreen,
                ),
                Err(c) => {
                    text.append("; rawinput cleanup failed: ");
                    text.append(c.as_str());
                    fail_with(block, 8, "viewpunch install failed: ", text.as_str(), false)
                },
            }
        },
        (Phase::Lookups, Reply::Done) => Phase::Fastdl,
        (Phase::Fastdl, Reply::Outcome(r)) => match r {
            Ok(_) => ready(block),
            Err(e) => Phase::FastdlFailed(e),
        },
        (Phase::FastdlFailed(e), Reply::Done) => Phase::FastdlViewpunch(e),
        (Phase::FastdlViewpunch(e), Reply::Outcome(r)) => Phase::FastdlRawinput(
            e,
            with_label(no_errors(), "viewpunch: ", r),
        ),
        (Phase::FastdlRawinput(e, es), Reply::Outcome(r)) => Phase::FastdlEngine(
            e,
            with_label(es, "rawinput2: ", r),
        ),
        (Phase::FastdlEngine(e, es), Reply::Done) => Phase::FastdlQuiet(e, es),
        (Phase::FastdlQuiet(e, es), Reply::Quiet(q)) => {
            let mut text: String = e;
            let mut clean: bool = q.rawinput && q.viewpunch && q.fullscreen && q.fastdl;
            if es.len() > 0 {
                text.append("; cleanup failed: ");
                let why: String = join(es.as_slice());
                text.append(why.as_str());
                clean = false;
            }
            fail_with(block, 9, "fastdl install failed: ", text.as_str(), clean)
        },
        (Phase::Serving(f6, f7), Reply::Flag(stop)) => if stop {
            block.state = STATE_STOPPING;
            Phase::StopFastdl
        } else {
            Phase::KeyF6(f6, f7)
        },
        (Phase::KeyF6(f6, f7), Reply::Flag(down)) => if down && !f6 {
            Phase::FlipFullscreen(down, f7)
        } else {
            Phase::KeyF7(down, f7)
        },
        (Phase::FlipFullscreen(f6, f7), Reply::Outcome(r)) => {
            warn(block, "fullscreen toggle rejected: ", r);
            Phase::KeyF7(f6, f7)
        },
        (Phase::KeyF7(f6, f7), Reply::Flag(down)) => if down && !f7 {
            Phase::FlipViewpunch(f6, down)
        } else {
            Phase::Pause(f6, down)
        },
        (Phase::FlipViewpunch(f6, f7), Reply::Outcome(r)) => {
            warn(block, "viewpunch toggle rejected: ", r);
            Phase::Pause(f6, f7)
        },
        (Phase::Pause(f6, f7), Reply::Done) => Phase::Serving(f6, f7),
        (Phase::StopFastdl, Reply::Outcome(r)) => Phase::StopLookups(
            with_label(no_errors(), "fastdl: ", r),
        ),
        (Phase::StopLookups(es), Reply::Done) => Phase::StopFullscreen(es),
        (Phase::StopFullscreen(es), Reply::Outcome(r)) => Phase::StopViewpunch(
            with_label(es, "fullscreen: ", r),
        ),
        (Phase::StopViewpunch(es), Reply::Outcome(r)) => Phase::StopRawinput(
            with_label(es, "viewpunch: ", r),
        ),
        (Phase::StopRawinput(es), Reply::Outcome(r)) => Phase::StopEngine(
            with_label(es, "rawinput2: ", r),
        ),
        (Phase::StopEngine(es), Reply::Done) => Phase::StopQuiet(es),
        (Phase::StopQuiet(es), Reply::Quiet(q)) => finish(block, es, q),
        (phase, _) => phase,
    }
}

/// A phase in which no feature has written into the process yet.
pub open spec fn before_hooks(phase: PhaseView) -> bool {
    phase is Args || phase is ModulesMissing || phase is Engine || phase is FullscreenFailed
}

/// A block becomes safe to unload only where it is earned: before the first
/// hook is installed, or on the word that every hook that was installed is
/// gone, with nothing left that failed to restore.
pub proof fn unload_safe_is_earned(
    flags: u32,
    status: Status,
    phase: PhaseView,
    reply: ReplyView,
)
    requires
        status.unload_safe == 0,
        turn(flags, status, phase, reply).status.unload_safe != 0,
    ensures
        before_hooks(phase) || (reply matches ReplyView::Quiet(q) && q.rawinput && q.fullscreen
            && (phase is RawinputQuiet || (q.viewpunch && (phase is ViewpunchQuiet || q.fastdl)))),
        turn(flags, status, phase, reply).phase is Exited,
        turn(flags, status, phase, reply).status.features == 0 || phase is ModulesMissing,
{
}

/// A worker that exits has said so in its block: with code zero it has
/// stopped and may be unloaded, with any other it has failed with that code.
pub proof fn exit_codes_match_the_block(
    flags: u32,
    status: Status,
    phase: PhaseView,
    reply: ReplyView,
)
    requires
        phase !is Exited,
        turn(flags, status, phase, reply).phase is Exited,
    ensures
        turn(flags, status, phase, reply).phase == PhaseView::Exited(0) ==> turn(
            flags,
            status,
            phase,
            reply,
        ).status.state == STATE_STOPPED && turn(flags, status, phase, reply).status.unload_safe
            == 1,
        turn(flags, status, phase, reply).phase matches PhaseView::Exited(code) && (code != 0
            ==> turn(flags, status, phase, reply).status.state == STATE_FAILED && turn(
            flags,
            status,
            phase,
            reply,
        ).status.error == code),
{
}

/// Nothing is installed where `-insecure` is missing: the refusal is the
/// worker's end.
pub proof fn secure_games_are_left_alone(flags: u32, status: Status)
    ensures
        turn(flags, status, PhaseView::Args, ReplyView::Flag(false)).phase == PhaseView::Exited(3),
        turn(flags, status, PhaseView::Args, ReplyView::Flag(false)).status.unload_safe == 1,
{
}

/// A worker becomes ready: in an insecure game whose modules are there, each
/// feature that went in leads to the next, and after the last the block says
/// ready and names the features.
pub proof fn a_worker_becomes_ready(flags: u32, status: Status, n: u32)
    ensures
        status.state == STATE_CREATED ==> begun(status).phase == PhaseView::Args && begun(
            status,
        ).status.state == STATE_STARTING,
        turn(flags, status, PhaseView::Args, ReplyView::Flag(true)).phase == PhaseView::Modules(0),
        turn(flags, status, PhaseView::Modules(n), ReplyView::Flag(false)).phase
            == PhaseView::Loaded(n),
        turn(flags, status, PhaseView::Loaded(n), ReplyView::Flag(true)).phase == PhaseView::Engine,
        turn(flags, status, PhaseView::Engine, ReplyView::Outcome(Ok(()))).phase
            == PhaseView::Fullscreen,
        turn(flags, status, PhaseView::Fullscreen, ReplyView::Outcome(Ok(()))).phase
            == PhaseView::Rawinput,
        turn(flags, status, PhaseView::Rawinput, ReplyView::Outcome(Ok(()))).phase
            == PhaseView::Viewpunch,
        turn(flags, status, PhaseView::Viewpunch, ReplyView::Outcome(Ok(()))).phase
            == PhaseView::Lookups,
        turn(flags, status, PhaseView::Lookups, ReplyView::Done).phase == PhaseView::Fastdl,
        turn(flags, status, PhaseView::Fastdl, ReplyView::Outcome(Ok(()))).phase
            == PhaseView::Serving(false, false),
        turn(flags, status, PhaseView::Fastdl, ReplyView::Outcome(Ok(()))).status.state
            == STATE_READY,
        turn(flags, status, PhaseView::Fastdl, ReplyView::Outcome(Ok(()))).status.features
            == ready_features(flags),
        turn(flags, status, PhaseView::Fastdl, ReplyView::Outcome(Ok(()))).log is Some,
{
}

/// The modules are looked for 600 times, and a wish to stop ends the search.
pub proof fn modules_are_waited_for(flags: u32, status: Status, n: u32)
    ensures
        turn(flags, status, PhaseView::Loaded(n), ReplyView::Flag(false)).phase
            == PhaseView::NotLoaded(n),
        n < 599 ==> turn(flags, status, PhaseView::NotLoaded(n), ReplyView::Done).phase
            == PhaseView::Modules((n + 1) as u32),
        n >= 599 ==> turn(flags, status, PhaseView::NotLoaded(n), ReplyView::Done).phase
            == PhaseView::ModulesMissing,
        turn(flags, status, PhaseView::Modules(n), ReplyView::Flag(true)).phase
            == PhaseView::ModulesMissing,
        turn(flags, status, PhaseView::ModulesMissing, ReplyView::Flag(true)).phase
            == PhaseView::Exited(0),
        turn(flags, status, PhaseView::ModulesMissing, ReplyView::Flag(false)).phase
            == PhaseView::Exited(4),
{
}

/// While it serves, a worker throws the fullscreen switch when F6 goes down and
/// the viewpunch switch when F7 does, once for each press, and looks again.
pub proof fn a_key_throws_its_switch(
    flags: u32,
    status: Status,
    f6: bool,
    f7: bool,
    down: bool,
    r: Result<(), Seq<char>>,
)
    ensures
        turn(flags, status, PhaseView::Serving(f6, f7), ReplyView::Flag(false)).phase
            == PhaseView::KeyF6(f6, f7),
        turn(flags, status, PhaseView::KeyF6(false, f7), ReplyView::Flag(true)).phase
            == PhaseView::FlipFullscreen(true, f7),
        turn(flags, status, PhaseView::KeyF6(true, f7), ReplyView::Flag(down)).phase
            == PhaseView::KeyF7(down, f7),
        turn(flags, status, PhaseView::KeyF6(f6, f7), ReplyView::Flag(false)).phase
            == PhaseView::KeyF7(false, f7),
        turn(flags, status, PhaseView::FlipFullscreen(f6, f7), ReplyView::Outcome(r)).phase
            == PhaseView::KeyF7(f6, f7),
        turn(flags, status, PhaseView::KeyF7(f6, false), ReplyView::Flag(true)).phase
            == PhaseView::FlipViewpunch(f6, true),
        turn(flags, status, PhaseView::KeyF7(f6, true), ReplyView::Flag(down)).phase
            == PhaseView::Pause(f6, down),
        turn(flags, status, PhaseView::KeyF7(f6, f7), ReplyView::Flag(false)).phase
            == PhaseView::Pause(f6, false),
        turn(flags, status, PhaseView::FlipViewpunch(f6, f7), ReplyView::Outcome(r)).phase
            == PhaseView::Pause(f6, f7),
        turn(flags, status, PhaseView::Pause(f6, f7), ReplyView::Done).phase == PhaseView::Serving(
            f6,
            f7,
        ),
        PhaseView::FlipFullscreen(f6, f7).action() == Action::ToggleFullscreen,
        PhaseView::FlipViewpunch(f6, f7).action() == Action::ToggleViewpunch,
{
}

/// Told to stop, a worker takes everything back, one after the other and
/// whatever fails on the way; where nothing failed and every hook is gone, it
/// ends well and may be unloaded.
pub proof fn a_worker_takes_everything_back(
    flags: u32,
    status: Status,
    f6: bool,
    f7: bool,
    es: Seq<Seq<char>>,
    r: Result<(), Seq<char>>,
    q: Quiet,
)
    ensures
        turn(flags, status, PhaseView::Serving(f6, f7), ReplyView::Flag(true)).phase
            == PhaseView::StopFastdl,
        turn(flags, status, PhaseView::StopFastdl, ReplyView::Outcome(Ok(()))).phase
            == PhaseView::StopLookups(Seq::empty()),
        turn(flags, status, PhaseView::StopFastdl, ReplyView::Outcome(r)).phase is StopLookups,
        turn(flags, status, PhaseView::StopLookups(es), ReplyView::Done).phase
            == PhaseView::StopFullscreen(es),
        turn(flags, status, PhaseView::StopFullscreen(es), ReplyView::Outcome(Ok(()))).phase
            == PhaseView::StopViewpunch(es),
        turn(flags, status, PhaseView::StopFullscreen(es), ReplyView::Outcome(r)).phase
            is StopViewpunch,
        turn(flags, status, PhaseView::StopViewpunch(es), ReplyView::Outcome(Ok(()))).phase
            == PhaseView::StopRawinput(es),
        turn(flags, status, PhaseView::StopViewpunch(es), ReplyView::Outcome(r)).phase
            is StopRawinput,
        turn(flags, status, PhaseView::StopRawinput(es), ReplyView::Outcome(Ok(()))).phase
            == PhaseView::StopEngine(es),
        turn(flags, status, PhaseView::StopRawinput(es), ReplyView::Outcome(r)).phase
            is StopEngine,
        turn(flags, status, PhaseView::StopEngine(es), ReplyView::Done).phase
            == PhaseView::StopQuiet(es),
        q.rawinput && q.viewpunch && q.fullscreen && q.fastdl ==> turn(
            flags,
            status,
            PhaseView::StopQuiet(Seq::empty()),
            ReplyView::Quiet(q),
        ).phase == PhaseView::Exited(0),
        es.len() > 0 || !(q.rawinput && q.viewpunch && q.fullscreen && q.fastdl) ==> turn(
            flags,
            status,
            PhaseView::StopQuiet(es),
            ReplyView::Quiet(q),
        ).phase == PhaseView::Exited(10),
        PhaseView::StopFastdl.action() == Action::RestoreFastdl,
        PhaseView::StopFullscreen(es).action() == Action::RestoreFullscreen,
        PhaseView::StopViewpunch(es).action() == Action::RestoreViewpunch,
        PhaseView::StopRawinput(es).action() == Action::RestoreRawinput,
{
}

/// A feature that does not go in has those before it taken back, and the worker
/// ends with a code of its own.
pub proof fn a_failed_feature_takes_the_others_back(
    flags: u32,
    status: Status,
    e: Seq<char>,
    es: Seq<Seq<char>>,
    r: Result<(), Seq<char>>,
    q: Quiet,
)
    ensures
        turn(flags, status, PhaseView::Engine, ReplyView::Outcome(Err(e))).phase
            == PhaseView::Exited(5),
        turn(flags, status, PhaseView::Fullscreen, ReplyView::Outcome(Err(e))).phase.action()
            == Action::ShutdownEngine,
        turn(flags, status, PhaseView::FullscreenFailed(e), ReplyView::Done).phase
            == PhaseView::Exited(6),
        turn(flags, status, PhaseView::Rawinput, ReplyView::Outcome(Err(e))).phase.action()
            == Action::ShutdownEngine,
        turn(flags, status, PhaseView::RawinputQuiet(e), ReplyView::Quiet(q)).phase
            == PhaseView::Exited(7),
        turn(flags, status, PhaseView::Viewpunch, ReplyView::Outcome(Err(e))).phase.action()
            == Action::RestoreRawinput,
        turn(flags, status, PhaseView::ViewpunchFailed(e), ReplyView::Outcome(r)).phase.action()
            == Action::ShutdownEngine,
        turn(flags, status, PhaseView::ViewpunchQuiet(e, r), ReplyView::Quiet(q)).phase
            == PhaseView::Exited(8),
        turn(flags, status, PhaseView::Fastdl, ReplyView::Outcome(Err(e))).phase.action()
            == Action::StopLookups,
        turn(flags, status, PhaseView::FastdlFailed(e), ReplyView::Done).phase.action()
            == Action::RestoreViewpunch,
        turn(flags, status, PhaseView::FastdlViewpunch(e), ReplyView::Outcome(r)).phase.action()
            == Action::RestoreRawinput,
        turn(flags, status, PhaseView::FastdlRawinput(e, es), ReplyView::Outcome(r)).phase.action()
            == Action::ShutdownEngine,
        turn(flags, status, PhaseView::FastdlQuiet(e, es), ReplyView::Quiet(q)).phase
            == PhaseView::Exited(9),
{
}

/// A ready worker names all features, but for records where they are not
/// wanted.
pub proof fn a_ready_worker_names_its_features(flags: u32)
    ensures
        flags & 16 == 0 ==> ready_features(flags) == 127,
        flags & 16 != 0 ==> ready_features(flags) == 63,
{
    assert(1u64 | 2u64 | 4u64 | 32u64 | 8u64 | 16u64 | 64u64 == 127u64) by (bit_vector);
    assert(1u64 | 2u64 | 4u64 | 32u64 | 8u64 | 16u64 | 0u64 == 63u64) by (bit_vector);
}

/// A block that is not new is not served.
pub proof fn only_a_new_block_is_served(status: Status)
    ensures
        status.state != 0 ==> begun(status).phase == PhaseView::Exited(2),
        status.state == 0 ==> begun(status).phase == PhaseView::Args,
{
}

} // verus!
