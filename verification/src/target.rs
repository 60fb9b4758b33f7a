//! Which process is patched on Windows: the game, native x86-64, and started
//! with `-insecure`. Whatever cannot be established counts against it.
use vstd::prelude::*;

use crate::phrase::{eq_ignore_case, has_char, same_but_case};
use crate::text::{chars, dec_text, push_dec, with_dec};
use crate::wide::{
    a_field_ends_at_its_zero, before_nul, from_utf16_lossy, utf16_text, wide_to_string,
};

verus! {

/// The game's executable.
pub const GAME_EXE: &'static str = "cstrike_win64.exe";

/// The argument that keeps the game off secured servers.
pub const INSECURE: &'static str = "-insecure";

/// A process under no emulation.
pub const IMAGE_FILE_MACHINE_UNKNOWN: u16 = 0;

/// An x86-64 machine.
pub const IMAGE_FILE_MACHINE_AMD64: u16 = 0x8664;

/// The error that ends an enumeration.
pub const ERROR_NO_MORE_FILES: u32 = 18;

/// The exit code of a process that runs.
pub const STILL_ACTIVE: u32 = 259;

/// No argument is longer than this, in units.
pub const ARGUMENT_LIMIT: usize = 32_768;

/// Whether a process is a native x86-64 one, by the machines it reports.
pub fn is_native_x64(process_machine: u16, native_machine: u16) -> (r: bool)
    ensures
        r == (process_machine == IMAGE_FILE_MACHINE_UNKNOWN && native_machine
            == IMAGE_FILE_MACHINE_AMD64),
{
    process_machine == IMAGE_FILE_MACHINE_UNKNOWN && native_machine == IMAGE_FILE_MACHINE_AMD64
}

/// Whether a process runs, by its exit code, where that could be asked.
pub fn is_alive(exit_code: Option<u32>) -> (r: bool)
    ensures
        r == (exit_code == Some(STILL_ACTIVE)),
{
    match exit_code {
        Some(code) => code == STILL_ACTIVE,
        None => false,
    }
}

/// The name in a fixed field is `want`, whatever the case.
pub open spec fn is_named(field: Seq<u16>, want: Seq<char>) -> bool {
    same_but_case(want, utf16_text(before_nul(field)))
}

/// Whether the name in a fixed field is `want`.
fn named(field: &[u16], want: &[char]) -> (r: bool)
    ensures
        r == is_named(field@, want@),
{
    let name: Vec<char> = wide_to_string(field);
    eq_ignore_case(want, name.as_slice())
}

/// Whether an image name is the game's.
pub fn is_game_exe(image: &[u16]) -> (r: bool)
    ensures
        r == is_named(image@, GAME_EXE@),
{
    let want: Vec<char> = chars(GAME_EXE);
    named(image, want.as_slice())
}

/// The first field that names `want`.
pub open spec fn is_first_named(fields: Seq<Seq<u16>>, want: Seq<char>, i: int) -> bool {
    0 <= i < fields.len() && is_named(fields[i], want) && forall|j: int|
        0 <= j < i ==> !is_named(#[trigger] fields[j], want)
}

/// The values of a list of fields.
pub open spec fn field_views(v: Seq<Vec<u16>>) -> Seq<Seq<u16>> {
    Seq::new(v.len(), |i: int| v[i]@)
}

/// Where in a list of modules the one called `want` stands.
pub fn find_module(fields: &[Vec<u16>], want: &str) -> (r: Option<usize>)
    ensures
        match r {
            Some(i) => is_first_named(field_views(fields@), want@, i as int),
            None => forall|j: int|
                0 <= j < fields@.len() ==> !is_named(#[trigger] field_views(fields@)[j], want@),
        },
{
    let name: Vec<char> = chars(want);
    let ghost views = field_views(fields@);
    let mut i: usize = 0;
    while i < fields.len()
        invariant
            i <= fields.len(),
            name@ == want@,
            views == field_views(fields@),
            forall|j: int| 0 <= j < i ==> !is_named(#[trigger] views[j], want@),
        decreases fields.len() - i,
    {
        assert(views[i as int] == fields@[i as int]@);
        if named(fields[i].as_slice(), name.as_slice()) {
            return Some(i);
        }
        i = i + 1;
    }
    None
}

/// Whether an enumeration ended as it should; otherwise what failed.
pub fn enumeration_end(call: &str, error: u32) -> (r: Result<(), String>)
    ensures
        match r {
            Ok(_) => error == ERROR_NO_MORE_FILES,
            Err(e) => error != ERROR_NO_MORE_FILES && e@ == call@ + " failed ("@ + dec_text(
                error as int,
            ) + ")"@,
        },
{
    if error == ERROR_NO_MORE_FILES {
        Ok(())
    } else {
        let mut text: String = call.to_owned();
        text.append(" failed (");
        push_dec(&mut text, error as u64);
        text.append(")");
        Err(text)
    }
}

/// An argument is `wanted`, whatever the case.
pub open spec fn is_wanted(argument: Seq<u16>, wanted: Seq<char>) -> bool {
    argument.len() < ARGUMENT_LIMIT && same_but_case(utf16_text(argument), wanted)
}

/// Some argument is `wanted`: one whole argument, not a part of one.
pub open spec fn has_exact(arguments: Seq<Seq<u16>>, wanted: Seq<char>) -> bool {
    exists|i: int| 0 <= i < arguments.len() && is_wanted(#[trigger] arguments[i], wanted)
}

/// Whether some argument is `wanted`.
pub fn has_exact_arg(arguments: &[Vec<u16>], wanted: &str) -> (r: bool)
    ensures
        r == has_exact(field_views(arguments@), wanted@),
{
    let want: Vec<char> = chars(wanted);
    let ghost views = field_views(arguments@);
    let mut i: usize = 0;
    while i < arguments.len()
        invariant
            i <= arguments.len(),
            want@ == wanted@,
            views == field_views(arguments@),
            forall|j: int| 0 <= j < i ==> !is_wanted(#[trigger] views[j], wanted@),
        decreases arguments.len() - i,
    {
        assert(views[i as int] == arguments@[i as int]@);
        if arguments[i].len() < ARGUMENT_LIMIT {
            let text: Vec<char> = from_utf16_lossy(arguments[i].as_slice());
            if eq_ignore_case(text.as_slice(), want.as_slice()) {
                return true;
            }
        }
        i = i + 1;
    }
    false
}

/// Whether a target is patched, and why not.
#[derive(Clone, Copy, Debug, PartialEq, Eq, Structural)]
pub enum Verdict {
    Admitted,
    /// The machine could not be asked for.
    Unchecked(u32),
    /// Not a native x86-64 process.
    Foreign,
    /// The command line could not be read.
    Unreadable,
    /// The command line holds a NUL.
    EmbeddedNul,
    /// The command line could not be split into arguments.
    Unsplit(u32),
    /// The game may join secured servers.
    Secure,
}

/// The verdict on a target: the machines it reports, its command line, and the
/// arguments in that.
pub open spec fn verdict_of(
    machines: Result<(u16, u16), u32>,
    line: Option<Seq<char>>,
    arguments: Result<Seq<Seq<u16>>, u32>,
) -> Verdict {
    match machines {
        Err(e) => Verdict::Unchecked(e),
        Ok((process, native)) => if process != IMAGE_FILE_MACHINE_UNKNOWN || native
            != IMAGE_FILE_MACHINE_AMD64 {
            Verdict::Foreign
        } else {
            match (line, arguments) {
                (None, _) => Verdict::Unreadable,
                (Some(text), _) if text.contains('\0') => Verdict::EmbeddedNul,
                (_, Err(e)) => Verdict::Unsplit(e),
                (_, Ok(list)) => if has_exact(list, INSECURE@) {
                    Verdict::Admitted
                } else {
                    Verdict::Secure
                },
            }
        },
    }
}

/// The value of an optional text.
pub open spec fn line_view(line: Option<&[char]>) -> Option<Seq<char>> {
    match line {
        Some(s) => Some(s@),
        None => None,
    }
}

/// The value of a list of arguments.
pub open spec fn arguments_view(v: Result<&[Vec<u16>], u32>) -> Result<Seq<Seq<u16>>, u32> {
    match v {
        Ok(list) => Ok(field_views(list@)),
        Err(e) => Err(e),
    }
}

/// The verdict on a target.
pub fn judge_target(
    machines: Result<(u16, u16), u32>,
    line: Option<&[char]>,
    arguments: Result<&[Vec<u16>], u32>,
) -> (r: Verdict)
    ensures
        r == verdict_of(machines, line_view(line), arguments_view(arguments)),
{
    match machines {
        Err(e) => {
            return Verdict::Unchecked(e);
        },
        Ok((process, native)) => {
            if !is_native_x64(process, native) {
                return Verdict::Foreign;
            }
        },
    }
    match line {
        None => Verdict::Unreadable,
        Some(text) => {
            if has_char(text, '\0') {
                return Verdict::EmbeddedNul;
            }
            match arguments {
                Err(e) => Verdict::Unsplit(e),
                Ok(list) => if has_exact_arg(list, INSECURE) {
                    Verdict::Admitted
                } else {
                    Verdict::Secure
                },
            }
        },
    }
}

impl Verdict {
    /// What is said of it.
    pub open spec fn text(self) -> Seq<char> {
        match self {
            Verdict::Admitted => "confirmed exact -insecure command-line argument"@,
            Verdict::Unchecked(e) => "IsWow64Process2 failed ("@ + dec_text(e as int) + ")"@,
            Verdict::Foreign => "target is not a native x86-64 process; refusing to patch"@,
            Verdict::Unreadable =>
            "could not read the game's command line; refusing to patch or inject; verify the target is native x86-64"@,
            Verdict::EmbeddedNul => "target command line contains an embedded NUL"@,
            Verdict::Unsplit(e) => "CommandLineToArgvW failed ("@ + dec_text(e as int) + ")"@,
            Verdict::Secure =>
            "game was not started with -insecure; refusing to patch or inject; add -insecure to the CS:S launch options and restart it"@,
        }
    }

    /// What is said of it.
    pub fn message(self) -> (r: String)
        ensures
            r@ == self.text(),
    {
        match self {
            Verdict::Admitted => "confirmed exact -insecure command-line argument".to_owned(),
            Verdict::Unchecked(e) => with_dec("IsWow64Process2 failed (", e as u64, ")"),
            Verdict::Foreign =>
            "target is not a native x86-64 process; refusing to patch".to_owned(),
            Verdict::Unreadable =>
            "could not read the game's command line; refusing to patch or inject; verify the target is native x86-64".to_owned(),
            Verdict::EmbeddedNul => "target command line contains an embedded NUL".to_owned(),
            Verdict::Unsplit(e) => with_dec("CommandLineToArgvW failed (", e as u64, ")"),
            Verdict::Secure =>
            "game was not started with -insecure; refusing to patch or inject; add -insecure to the CS:S launch options and restart it".to_owned(),
        }
    }
}

/// Nothing is patched unless the process is native x86-64 and one of its
/// arguments, as read from it, is `-insecure`; what is unknown admits nothing.
pub proof fn admitted_means_insecure(
    machines: Result<(u16, u16), u32>,
    line: Option<Seq<char>>,
    arguments: Result<Seq<Seq<u16>>, u32>,
)
    ensures
        verdict_of(machines, line, arguments) == Verdict::Admitted ==> {
            &&& machines == Ok::<(u16, u16), u32>(
                (IMAGE_FILE_MACHINE_UNKNOWN, IMAGE_FILE_MACHINE_AMD64),
            )
            &&& line is Some
            &&& arguments is Ok
            &&& has_exact(arguments->Ok_0, INSECURE@)
        },
{
}

/// The game is admitted: a native x86-64 process whose command line can be read
/// and split, with `-insecure` among its arguments, in whatever case.
pub proof fn an_insecure_game_is_admitted(
    line: Seq<char>,
    arguments: Seq<Seq<u16>>,
    i: int,
)
    requires
        !line.contains('\0'),
        0 <= i < arguments.len(),
        arguments[i].len() < 32_768,
        same_but_case(utf16_text(arguments[i]), "-insecure"@),
    ensures
        verdict_of(Ok((0u16, 0x8664u16)), Some(line), Ok(arguments)) == Verdict::Admitted,
{
    assert(is_wanted(arguments[i], INSECURE@));
}

/// What is not known to be the insecure game is refused, each for its reason.
pub proof fn anything_else_is_refused(
    process: u16,
    native: u16,
    line: Option<Seq<char>>,
    arguments: Result<Seq<Seq<u16>>, u32>,
    e: u32,
)
    ensures
        verdict_of(Err(e), line, arguments) == Verdict::Unchecked(e),
        process != 0 || native != 0x8664 ==> verdict_of(Ok((process, native)), line, arguments)
            == Verdict::Foreign,
        verdict_of(Ok((0u16, 0x8664u16)), None, arguments) == Verdict::Unreadable,
        line is Some && (line->0).contains('\0') ==> verdict_of(
            Ok((0u16, 0x8664u16)),
            line,
            arguments,
        ) == Verdict::EmbeddedNul,
        line is Some && !(line->0).contains('\0') && arguments is Err ==> verdict_of(
            Ok((0u16, 0x8664u16)),
            line,
            arguments,
        ) == Verdict::Unsplit(arguments->Err_0),
        line is Some && !(line->0).contains('\0') && arguments is Ok && !(exists|i: int|
            0 <= i < arguments->Ok_0.len() && same_but_case(
                utf16_text(#[trigger] arguments->Ok_0[i]),
                "-insecure"@,
            )) ==> verdict_of(Ok((0u16, 0x8664u16)), line, arguments) == Verdict::Secure,
{
    if arguments is Ok && has_exact(arguments->Ok_0, INSECURE@) {
        let list = arguments->Ok_0;
        let i = choose|i: int| 0 <= i < list.len() && is_wanted(#[trigger] list[i], INSECURE@);
        assert(same_but_case(utf16_text(list[i]), "-insecure"@));
    }
}

/// The game is known by its executable, and the numbers of the system by their
/// meaning.
pub proof fn the_game_is_known()
    ensures
        GAME_EXE@ == "cstrike_win64.exe"@,
        INSECURE@ == "-insecure"@,
        STILL_ACTIVE == 259,
        ERROR_NO_MORE_FILES == 18,
{
}

/// A module is found by its name, in whatever case, behind others.
pub proof fn a_module_is_found(
    fields: Seq<Seq<u16>>,
    want: Seq<char>,
    name: Seq<u16>,
    rest: Seq<u16>,
    i: int,
)
    requires
        0 <= i < fields.len(),
        fields[i] == name + seq![0u16] + rest,
        !name.contains(0u16),
        same_but_case(want, utf16_text(name)),
        forall|j: int| 0 <= j < i ==> !is_named(#[trigger] fields[j], want),
    ensures
        is_named(fields[i], want),
        is_first_named(fields, want, i),
{
    a_field_ends_at_its_zero(name, rest);
}

} // verus!
