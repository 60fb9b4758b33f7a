//! Loading the hook library into the game, and unloading it.
//!
//! The caller performs each action on the game process and hands back what
//! came of it. Whatever was set up before a step fails is taken back, but for
//! memory that a thread of the game may still be reading.
use vstd::prelude::*;
use vstd::utf8::encode_utf8;

use crate::pe::{parse_pe, Module};
use crate::text::{cat, outcome_view};

verus! {

/// The place in the game of a system function: the function lies in the same
/// place of the module that owns it, wherever that module is loaded.
pub open spec fn transferred(
    function: int,
    owner: int,
    name: Seq<char>,
    base: int,
    size: int,
) -> Result<int, Seq<char>> {
    if function < owner {
        Err("resolved system function precedes its module"@)
    } else if function - owner >= size {
        Err("resolved "@ + name + " function RVA is outside the target module"@)
    } else {
        Ok(base + (function - owner))
    }
}

/// An address or what is wrong with it, as a value.
pub open spec fn address_view(r: Result<u64, String>) -> Result<int, Seq<char>> {
    match r {
        Ok(a) => Ok(a as int),
        Err(e) => Err(e@),
    }
}

/// A name between two texts.
fn around(left: &str, name: &str, right: &str) -> (r: String)
    ensures
        r@ == left@ + name@ + right@,
{
    let mut out: String = left.to_owned();
    out.append(name);
    out.append(right);
    out
}

/// The place in the game of a system function.
pub fn remote_system_function(function: u64, owner: u64, name: &str, base: u64, size: u64) -> (r:
    Result<u64, String>)
    requires
        base + size <= u64::MAX,
    ensures
        address_view(r) == transferred(
            function as int,
            owner as int,
            name@,
            base as int,
            size as int,
        ),
{
    if function < owner {
        return Err("resolved system function precedes its module".to_owned());
    }
    let rva: u64 = function - owner;
    if rva >= size {
        return Err(around("resolved ", name, " function RVA is outside the target module"));
    }
    Ok(base + rva)
}

/// A transferred function lies in its module, at the same distance from the
/// start.
pub proof fn transferred_keeps_its_place(
    function: int,
    owner: int,
    name: Seq<char>,
    base: int,
    size: int,
)
    requires
        transferred(function, owner, name, base, size) is Ok,
    ensures
        base <= transferred(function, owner, name, base, size)->Ok_0 < base + size,
        transferred(function, owner, name, base, size)->Ok_0 - base == function - owner,
{
}

/// How often the game's modules are looked at.
pub const MODULE_ROUNDS: u32 = 100;

/// Where unloading stands.
pub enum Unload {
    /// The game is to unload the library.
    Call,
    /// Whether the library is still there is wanted, after so many rounds.
    Look(u32),
    /// It is; a pause is due.
    Pause(u32),
    Finished(Result<(), String>),
}

/// The value of an `Unload`.
pub enum UnloadView {
    Call,
    Look(int),
    Pause(int),
    Finished(Result<(), Seq<char>>),
}

impl View for Unload {
    type V = UnloadView;

    open spec fn view(&self) -> UnloadView {
        match self {
            Unload::Call => UnloadView::Call,
            Unload::Look(n) => UnloadView::Look(*n as int),
            Unload::Pause(n) => UnloadView::Pause(*n as int),
            Unload::Finished(r) => UnloadView::Finished(outcome_view(*r)),
        }
    }
}

/// What came of an action.
pub enum UnloadReply {
    /// What the call returned, or why it could not be made.
    Called(Result<u32, String>),
    /// Whether the library is still there, or why that cannot be told.
    Present(Result<bool, String>),
    Slept,
}

/// The value of an `UnloadReply`.
pub enum UnloadReplyView {
    Called(Result<u32, Seq<char>>),
    Present(Result<bool, Seq<char>>),
    Slept,
}

impl View for UnloadReply {
    type V = UnloadReplyView;

    open spec fn view(&self) -> UnloadReplyView {
        match self {
            UnloadReply::Called(Ok(c)) => UnloadReplyView::Called(Ok(*c)),
            UnloadReply::Called(Err(e)) => UnloadReplyView::Called(Err(e@)),
            UnloadReply::Present(Ok(b)) => UnloadReplyView::Present(Ok(*b)),
            UnloadReply::Present(Err(e)) => UnloadReplyView::Present(Err(e@)),
            UnloadReply::Slept => UnloadReplyView::Slept,
        }
    }
}

impl UnloadView {
    /// The rounds have not run out.
    pub open spec fn wf(self) -> bool {
        match self {
            UnloadView::Look(n) => 0 <= n < MODULE_ROUNDS,
            UnloadView::Pause(n) => 0 <= n < MODULE_ROUNDS,
            _ => true,
        }
    }

    /// After a reply, unloading the library `name`. One that was not waited for
    /// changes nothing.
    pub open spec fn next(self, name: Seq<char>, reply: UnloadReplyView) -> UnloadView {
        match (self, reply) {
            (UnloadView::Call, UnloadReplyView::Called(r)) => match r {
                Err(e) => UnloadView::Finished(Err(e)),
                Ok(code) => if code == 0 {
                    UnloadView::Finished(Err("remote FreeLibrary returned false"@))
                } else {
                    UnloadView::Look(0)
                },
            },
            (UnloadView::Look(n), UnloadReplyView::Present(r)) => match r {
                Err(e) => UnloadView::Finished(Err(e)),
                Ok(present) => if present {
                    UnloadView::Pause(n)
                } else {
                    UnloadView::Finished(Ok(()))
                },
            },
            (UnloadView::Pause(n), UnloadReplyView::Slept) => if n + 1 < MODULE_ROUNDS {
                UnloadView::Look(n + 1)
            } else {
                UnloadView::Finished(
                    Err("remote FreeLibrary returned true but "@ + name + " remains loaded"@),
                )
            },
            _ => self,
        }
    }
}

impl Unload {
    /// Takes the reply to an action. One that was not waited for changes
    /// nothing.
    pub fn step(self, name: &str, reply: UnloadReply) -> (r: Unload)
        requires
            self@.wf(),
        ensures
            r@ == self@.next(name@, reply@),
            r@.wf(),
    {
        match (self, reply) {
            (Unload::Call, UnloadReply::Called(r)) => match r {
                Err(e) => Unload::Finished(Err(e)),
                Ok(code) => if code == 0 {
                    Unload::Finished(Err("remote FreeLibrary returned false".to_owned()))
                } else {
                    Unload::Look(0)
                },
            },
            (Unload::Look(n), UnloadReply::Present(r)) => match r {
                Err(e) => Unload::Finished(Err(e)),
                Ok(present) => if present {
                    Unload::Pause(n)
                } else {
                    Unload::Finished(Ok(()))
                },
            },
            (Unload::Pause(n), UnloadReply::Slept) => if n + 1 < MODULE_ROUNDS {
                Unload::Look(n + 1)
            } else {
                Unload::Finished(
                    Err(
                        around(
                            "remote FreeLibrary returned true but ",
                            name,
                            " remains loaded",
                        ),
                    ),
                )
            },
            (phase, _) => phase,
        }
    }
}

/// Unloading ends well only on the word that the library is gone.
pub proof fn unloaded_means_gone(u: UnloadView, name: Seq<char>, reply: UnloadReplyView)
    requires
        u !is Finished,
        u.next(name, reply) is Finished,
        u.next(name, reply)->Finished_0 is Ok,
    ensures
        reply == UnloadReplyView::Present(Ok(false)),
{
}

/// The library to load: its file name, and the place of its entry.
pub struct Library {
    pub name: String,
    pub start_rva: u64,
}

/// The value of a `Library`.
#[verifier::ext_equal]
pub struct LibraryView {
    pub name: Seq<char>,
    pub start_rva: int,
}

impl View for Library {
    type V = LibraryView;

    open spec fn view(&self) -> LibraryView {
        LibraryView { name: self.name@, start_rva: self.start_rva as int }
    }
}

/// The library of a file, or what is wrong with the file. `path` is how it is
/// shown.
pub fn open_library(name: String, path: &str, file: Vec<u8>) -> (r: Result<Library, String>)
    ensures
        ({
            let parsed = parse_pe(file@);
            match r {
                Ok(l) => parsed matches Some(m) && m.export(
                    encode_utf8("bhopfix_start"@),
                ) == Some(l.start_rva as int) && l.name@ == name@,
                Err(e) => match parsed {
                    None => e@ == path@ + " is not a valid x64 PE DLL"@,
                    Some(m) => m.export(encode_utf8("bhopfix_start"@)) is None && e@
                        == path@ + " does not export bhopfix_start"@,
                },
            }
        }),
{
    match Module::open(file) {
        None => Err(cat(path, " is not a valid x64 PE DLL")),
        Some(m) => match m.export("bhopfix_start") {
            None => Err(cat(path, " does not export bhopfix_start")),
            Some(start_rva) => Ok(Library { name, start_rva }),
        },
    }
}

/// Where loading stands.
pub enum Inject {
    /// Whether the library is loaded already is wanted.
    Look,
    /// The shared block is to be made.
    Share,
    /// The library's path is to be written into the game.
    WritePath,
    /// The system's loader is to be found in the game.
    FindLoader,
    /// A thread that runs the loader is to be started.
    StartLoader,
    /// That thread is to be waited for.
    WaitLoader,
    /// The library is to be found in the game, after so many rounds.
    Find(u32),
    /// It was not found; a pause is due.
    Pause(u32),
    /// The worker is to be started here; the library is loaded there.
    StartWorker(u64, u64),
    /// The worker was not started, for this reason: the library that is loaded
    /// there is to be unloaded.
    Undo(u64, String),
    /// The worker runs, in the library that is loaded there; or why not.
    Finished(Result<u64, String>),
}

/// The value of an `Inject`.
pub enum InjectView {
    Look,
    Share,
    WritePath,
    FindLoader,
    StartLoader,
    WaitLoader,
    Find(int),
    Pause(int),
    StartWorker(int, int),
    Undo(int, Seq<char>),
    Finished(Result<int, Seq<char>>),
}

impl View for Inject {
    type V = InjectView;

    open spec fn view(&self) -> InjectView {
        match self {
            Inject::Look => InjectView::Look,
            Inject::Share => InjectView::Share,
            Inject::WritePath => InjectView::WritePath,
            Inject::FindLoader => InjectView::FindLoader,
            Inject::StartLoader => InjectView::StartLoader,
            Inject::WaitLoader => InjectView::WaitLoader,
            Inject::Find(n) => InjectView::Find(*n as int),
            Inject::Pause(n) => InjectView::Pause(*n as int),
            Inject::StartWorker(a, m) => InjectView::StartWorker(*a as int, *m as int),
            Inject::Undo(m, e) => InjectView::Undo(*m as int, e@),
            Inject::Finished(r) => InjectView::Finished(address_view(*r)),
        }
    }
}

/// What came of an action.
pub enum InjectReply {
    /// Where the library is loaded, if it is.
    Module(Option<u64>),
    /// It was done, or not.
    Outcome(Result<(), String>),
    Slept,
}

/// The value of an `InjectReply`.
pub enum InjectReplyView {
    Module(Option<u64>),
    Outcome(Result<(), Seq<char>>),
    Slept,
}

impl View for InjectReply {
    type V = InjectReplyView;

    open spec fn view(&self) -> InjectReplyView {
        match self {
            InjectReply::Module(m) => InjectReplyView::Module(*m),
            InjectReply::Outcome(r) => InjectReplyView::Outcome(outcome_view(*r)),
            InjectReply::Slept => InjectReplyView::Slept,
        }
    }
}

/// What becomes of the memory that holds the library's path, once a phase is
/// reached.
#[derive(Clone, Copy, Debug, Eq, PartialEq, Structural)]
pub enum PathMemory {
    /// There is none yet, or it is in use.
    Keep,
    /// It is to be freed, if there is some.
    Free,
    /// It stays: a thread of the game may be reading it.
    Leak,
}

impl LibraryView {
    /// On to another phase, or the end with an error.
    pub open spec fn onward(self, r: Result<(), Seq<char>>, phase: InjectView) -> InjectView {
        match r {
            Ok(_) => phase,
            Err(e) => InjectView::Finished(Err(e)),
        }
    }

    /// After a reply. One that was not waited for changes nothing.
    pub open spec fn next(self, phase: InjectView, reply: InjectReplyView) -> InjectView {
        match (phase, reply) {
            (InjectView::Look, InjectReplyView::Module(m)) => if m is Some {
                InjectView::Finished(
                    Err(self.name + " is already loaded in the target; restart the game"@),
                )
            } else {
                InjectView::Share
            },
            (InjectView::Share, InjectReplyView::Outcome(r)) => self.onward(
                r,
                InjectView::WritePath,
            ),
            (InjectView::WritePath, InjectReplyView::Outcome(r)) => self.onward(
                r,
                InjectView::FindLoader,
            ),
            (InjectView::FindLoader, InjectReplyView::Outcome(r)) => self.onward(
                r,
                InjectView::StartLoader,
            ),
            (InjectView::StartLoader, InjectReplyView::Outcome(r)) => self.onward(
                r,
                InjectView::WaitLoader,
            ),
            (InjectView::WaitLoader, InjectReplyView::Outcome(r)) => match r {
                Ok(_) => InjectView::Find(0),
                Err(e) => InjectView::Finished(
                    Err(
                        e
                            + " while loading the hook DLL; remote loader state is unknown, restart the game"@,
                    ),
                ),
            },
            (InjectView::Find(n), InjectReplyView::Module(m)) => match m {
                Some(module) => if module + self.start_rva <= u64::MAX {
                    InjectView::StartWorker(module + self.start_rva, module as int)
                } else {
                    InjectView::Undo(module as int, "remote hook entry address overflowed"@)
                },
                None => InjectView::Pause(n),
            },
            (InjectView::Pause(n), InjectReplyView::Slept) => if n + 1 < MODULE_ROUNDS {
                InjectView::Find(n + 1)
            } else {
                InjectView::Finished(
                    Err(
                        "LoadLibraryW completed but "@ + self.name
                            + " is absent from the target module list"@,
                    ),
                )
            },
            (InjectView::StartWorker(_, module), InjectReplyView::Outcome(r)) => match r {
                Ok(_) => InjectView::Finished(Ok(module)),
                Err(e) => InjectView::Undo(module, e),
            },
            (InjectView::Undo(_, error), InjectReplyView::Outcome(r)) => InjectView::Finished(
                Err(
                    match r {
                        Ok(_) => error,
                        Err(c) => error + "; DLL cleanup failed: "@ + c,
                    },
                ),
            ),
            _ => phase,
        }
    }

    /// What becomes of the memory that holds the path when a reply is taken.
    pub open spec fn path_memory(self, phase: InjectView, reply: InjectReplyView) -> PathMemory {
        match (phase, reply) {
            (InjectView::FindLoader, InjectReplyView::Outcome(Err(_))) => PathMemory::Free,
            (InjectView::StartLoader, InjectReplyView::Outcome(Err(_))) => PathMemory::Free,
            (InjectView::WaitLoader, InjectReplyView::Outcome(Ok(_))) => PathMemory::Free,
            (InjectView::WaitLoader, InjectReplyView::Outcome(Err(_))) => PathMemory::Leak,
            _ => PathMemory::Keep,
        }
    }
}

impl InjectView {
    /// The rounds have not run out.
    pub open spec fn wf(self) -> bool {
        match self {
            InjectView::Find(n) => 0 <= n < MODULE_ROUNDS,
            InjectView::Pause(n) => 0 <= n < MODULE_ROUNDS,
            _ => true,
        }
    }
}

fn onward(r: Result<(), String>, phase: Inject) -> (o: Inject)
    ensures
        o@ == (match outcome_view(r) {
            Ok(_) => phase@,
            Err(e) => InjectView::Finished(Err(e)),
        }),
{
    match r {
        Ok(_) => phase,
        Err(e) => Inject::Finished(Err(e)),
    }
}

impl Library {
    /// What becomes of the memory that holds the path when a reply is taken.
    pub fn path_memory(&self, phase: &Inject, reply: &InjectReply) -> (r: PathMemory)
        ensures
            r == self@.path_memory(phase@, reply@),
    {
        match (phase, reply) {
            (Inject::FindLoader, InjectReply::Outcome(Err(_))) => PathMemory::Free,
            (Inject::StartLoader, InjectReply::Outcome(Err(_))) => PathMemory::Free,
            (Inject::WaitLoader, InjectReply::Outcome(Ok(_))) => PathMemory::Free,
            (Inject::WaitLoader, InjectReply::Outcome(Err(_))) => PathMemory::Leak,
            _ => PathMemory::Keep,
        }
    }

    /// Takes the reply to an action. One that was not waited for changes
    /// nothing.
    pub fn step(&self, phase: Inject, reply: InjectReply) -> (r: Inject)
        requires
            phase@.wf(),
        ensures
            r@ == self@.next(phase@, reply@),
            r@.wf(),
    {
        match (phase, reply) {
            (Inject::Look, InjectReply::Module(m)) => match m {
                Some(_) => Inject::Finished(
                    Err(
                        cat(
                            self.name.as_str(),
                            " is already loaded in the target; restart the game",
                        ),
                    ),
                ),
                None => Inject::Share,
            },
            (Inject::Share, InjectReply::Outcome(r)) => onward(r, Inject::WritePath),
            (Inject::WritePath, InjectReply::Outcome(r)) => onward(r, Inject::FindLoader),
            (Inject::FindLoader, InjectReply::Outcome(r)) => onward(r, Inject::StartLoader),
            (Inject::StartLoader, InjectReply::Outcome(r)) => onward(r, Inject::WaitLoader),
            (Inject::WaitLoader, InjectReply::Outcome(r)) => match r {
                Ok(_) => Inject::Find(0),
                Err(e) => Inject::Finished(
                    Err(
                        cat(
                            e.as_str(),
                            " while loading the hook DLL; remote loader state is unknown, restart the game",
                        ),
                    ),
                ),
            },
            (Inject::Find(n), InjectReply::Module(m)) => match m {
                Some(module) => match module.checked_add(self.start_rva) {
                    Some(start) => Inject::StartWorker(start, module),
                    None => Inject::Undo(
                        module,
                        "remote hook entry address overflowed".to_owned(),
                    ),
                },
                None => Inject::Pause(n),
            },
            (Inject::Pause(n), InjectReply::Slept) => if n + 1 < MODULE_ROUNDS {
                Inject::Find(n + 1)
            } else {
                Inject::Finished(
                    Err(
                        around(
                            "LoadLibraryW completed but ",
                            self.name.as_str(),
                            " is absent from the target module list",
                        ),
                    ),
                )
            },
            (Inject::StartWorker(_, module), InjectReply::Outcome(r)) => match r {
                Ok(_) => Inject::Finished(Ok(module)),
                Err(e) => Inject::Undo(module, e),
            },
            (Inject::Undo(_, error), InjectReply::Outcome(r)) => {
                let mut text: String = error;
                match r {
                    Ok(_) => {},
                    Err(c) => {
                        text.append("; DLL cleanup failed: ");
                        text.append(c.as_str());
                    },
                }
                Inject::Finished(Err(text))
            },
            (phase, _) => phase,
        }
    }
}

/// The memory that holds the path is freed only where no thread of the game can
/// be reading it: none was started, or it was waited for.
pub proof fn path_is_freed_only_when_unread(
    l: LibraryView,
    phase: InjectView,
    reply: InjectReplyView,
)
    requires
        l.path_memory(phase, reply) == PathMemory::Free,
    ensures
        phase is FindLoader || phase is StartLoader || (phase is WaitLoader && reply
            is Outcome && reply->Outcome_0 is Ok),
        phase is WaitLoader ==> l.next(phase, reply) == InjectView::Find(0),
        phase !is WaitLoader ==> l.next(phase, reply) is Finished,
{
}

/// Loading ends well only when the worker was started in a library that was
/// found in the game. A failure after the library was found unloads it first.
pub proof fn found_library_is_not_left_behind(
    l: LibraryView,
    phase: InjectView,
    reply: InjectReplyView,
)
    requires
        phase !is Finished,
        l.next(phase, reply) is Finished,
    ensures
        l.next(phase, reply)->Finished_0 is Ok ==> phase is StartWorker && reply
            is Outcome && reply->Outcome_0 is Ok,
        phase is StartWorker || phase is Undo ==> phase is Undo || l.next(
            phase,
            reply,
        )->Finished_0 is Ok,
{
}

/// The library gets loaded: where it is not there yet, the block is shared, the
/// path written, the loader found, run and waited for, the library found, and
/// the worker started at its entry.
pub proof fn the_library_gets_loaded(l: LibraryView, module: u64, n: int)
    requires
        0 <= n,
        0 <= l.start_rva,
        module + l.start_rva <= u64::MAX,
    ensures
        l.next(InjectView::Look, InjectReplyView::Module(None)) == InjectView::Share,
        l.next(InjectView::Share, InjectReplyView::Outcome(Ok(()))) == InjectView::WritePath,
        l.next(InjectView::WritePath, InjectReplyView::Outcome(Ok(()))) == InjectView::FindLoader,
        l.next(InjectView::FindLoader, InjectReplyView::Outcome(Ok(()))) == InjectView::StartLoader,
        l.next(InjectView::StartLoader, InjectReplyView::Outcome(Ok(()))) == InjectView::WaitLoader,
        l.next(InjectView::WaitLoader, InjectReplyView::Outcome(Ok(()))) == InjectView::Find(0),
        l.next(InjectView::Find(n), InjectReplyView::Module(Some(module)))
            == InjectView::StartWorker(module + l.start_rva, module as int),
        l.next(
            InjectView::StartWorker(module + l.start_rva, module as int),
            InjectReplyView::Outcome(Ok(())),
        ) == InjectView::Finished(Ok::<int, Seq<char>>(module as int)),
{
}

/// The library is looked for up to 100 times; what fails ends the loading, and
/// a worker that was not started has the library unloaded.
pub proof fn a_failed_loading_ends(
    l: LibraryView,
    module: u64,
    e: Seq<char>,
    n: int,
    entry: int,
    r: Result<(), Seq<char>>,
)
    requires
        0 <= n,
    ensures
        l.next(InjectView::Look, InjectReplyView::Module(Some(module))) matches
            InjectView::Finished(Err(_)),
        l.next(InjectView::Share, InjectReplyView::Outcome(Err(e))) == InjectView::Finished(
            Err::<int, Seq<char>>(e),
        ),
        l.next(InjectView::WritePath, InjectReplyView::Outcome(Err(e))) == InjectView::Finished(
            Err::<int, Seq<char>>(e),
        ),
        l.next(InjectView::Find(n), InjectReplyView::Module(None)) == InjectView::Pause(n),
        n < 99 ==> l.next(InjectView::Pause(n), InjectReplyView::Slept) == InjectView::Find(n + 1),
        n >= 99 ==> l.next(InjectView::Pause(n), InjectReplyView::Slept) matches
            InjectView::Finished(Err(_)),
        l.next(
            InjectView::StartWorker(entry, module as int),
            InjectReplyView::Outcome(Err(e)),
        ) == InjectView::Undo(module as int, e),
        l.next(InjectView::Undo(module as int, e), InjectReplyView::Outcome(r)) matches
            InjectView::Finished(Err(_)),
{
}

/// The memory that holds the path is not forgotten: it is freed where it is no
/// longer read, and given up only where a thread may still read it.
pub proof fn the_path_is_freed_in_time(l: LibraryView, e: Seq<char>)
    ensures
        l.path_memory(InjectView::FindLoader, InjectReplyView::Outcome(Err(e)))
            == PathMemory::Free,
        l.path_memory(InjectView::StartLoader, InjectReplyView::Outcome(Err(e)))
            == PathMemory::Free,
        l.path_memory(InjectView::WaitLoader, InjectReplyView::Outcome(Ok(())))
            == PathMemory::Free,
        l.path_memory(InjectView::WaitLoader, InjectReplyView::Outcome(Err(e)))
            == PathMemory::Leak,
        l.path_memory(InjectView::FindLoader, InjectReplyView::Outcome(Ok(())))
            == PathMemory::Keep,
        l.path_memory(InjectView::StartLoader, InjectReplyView::Outcome(Ok(())))
            == PathMemory::Keep,
{
}

/// The library gets unloaded: the call goes through, and within 100 looks it is
/// gone.
pub proof fn the_library_gets_unloaded(name: Seq<char>, code: u32, n: int, e: Seq<char>)
    requires
        code != 0,
        0 <= n,
    ensures
        UnloadView::Call.next(name, UnloadReplyView::Called(Ok(code))) == UnloadView::Look(0),
        UnloadView::Call.next(name, UnloadReplyView::Called(Ok(0))) matches UnloadView::Finished(
            Err(_),
        ),
        UnloadView::Call.next(name, UnloadReplyView::Called(Err(e))) == UnloadView::Finished(
            Err::<(), Seq<char>>(e),
        ),
        UnloadView::Look(n).next(name, UnloadReplyView::Present(Ok(false)))
            == UnloadView::Finished(Ok::<(), Seq<char>>(())),
        UnloadView::Look(n).next(name, UnloadReplyView::Present(Ok(true))) == UnloadView::Pause(n),
        n < 99 ==> UnloadView::Pause(n).next(name, UnloadReplyView::Slept) == UnloadView::Look(
            n + 1,
        ),
        n >= 99 ==> UnloadView::Pause(n).next(name, UnloadReplyView::Slept) matches
            UnloadView::Finished(Err(_)),
{
}

/// A system function is found in the game wherever it lies in its module.
pub proof fn functions_are_transferred(
    rva: int,
    owner: int,
    name: Seq<char>,
    base: int,
    size: int,
)
    ensures
        0 <= rva < size ==> transferred(owner + rva, owner, name, base, size) == Ok::<
            int,
            Seq<char>,
        >(base + rva),
        rva < 0 || rva >= size ==> transferred(owner + rva, owner, name, base, size) is Err,
{
}

} // verus!
