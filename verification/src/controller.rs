//! The controller's command line on both systems, the flags that it hands to
//! the library in the game, and the lines that it prints.
use vstd::prelude::*;

use crate::control::{
    FEATURE_CONSOLE, FEATURE_DOWNLOADS, FEATURE_FASTDL, FEATURE_FULLSCREEN, FEATURE_RAWINPUT2,
    FEATURE_SOURCEJUMP, FEATURE_VIEWPUNCH, FLAG_DEBUG, FLAG_DEMOS, FLAG_FORCE_RAWINPUT2,
    FLAG_KEEP_VIEWPUNCH, FLAG_NO_SOURCEJUMP,
};
use crate::text::{
    chars, dec_text, has_prefix, hex_text, number_of, number_text, numbers_are_digits,
    numbers_are_read_back, padded, parse_number, push_dec, push_hex, push_padded, same_str,
    starts_with, string_views,
};

verus! {

/// The first argument that is `want`, from argument `i` on.
pub open spec fn position_from(args: Seq<Seq<char>>, want: Seq<char>, i: int) -> Option<int>
    decreases args.len() - i,
{
    if i < 0 || i >= args.len() {
        None
    } else if args[i] == want {
        Some(i)
    } else {
        position_from(args, want, i + 1)
    }
}

/// Where the first argument that is `want` stands.
fn position(args: &[String], want: &str) -> (r: Option<usize>)
    ensures
        match r {
            Some(i) => position_from(string_views(args@), want@, 0) == Some(i as int) && i
                < args@.len(),
            None => position_from(string_views(args@), want@, 0) is None,
        },
{
    let ghost views = string_views(args@);
    let mut i: usize = 0;
    while i < args.len()
        invariant
            i <= args.len(),
            views == string_views(args@),
            position_from(views, want@, 0) == position_from(views, want@, i as int),
        decreases args.len() - i,
    {
        assert(views[i as int] == args@[i as int]@);
        if same_str(args[i].as_str(), want) {
            return Some(i);
        }
        i = i + 1;
    }
    None
}

/// A process number.
pub open spec fn pid_number(s: Seq<char>) -> Option<int> {
    match number_of(s, 10, u32::MAX as nat) {
        Some(n) => Some(n as int),
        None => None,
    }
}

fn parse_pid_number(s: &str) -> (r: Option<u32>)
    ensures
        match r {
            Some(n) => pid_number(s@) == Some(n as int),
            None => pid_number(s@) is None,
        },
{
    let cs: Vec<char> = chars(s);
    match parse_number(cs.as_slice(), 10, u32::MAX as u64) {
        Some(n) => Some(n as u32),
        None => None,
    }
}

/// What is asked of the Windows controller.
#[derive(Clone, Copy, Debug, PartialEq, Eq, Structural)]
pub enum WindowsRequest {
    Help,
    Version,
    /// Wrong use: the help is printed, and the program ends with code 2.
    Misuse,
    /// Patch this process.
    Attach(u32),
    /// Wait for the game.
    Find,
}

/// What the arguments ask of the Windows controller, and whether Scroll Lock
/// toggles too.
pub open spec fn windows_request(args: Seq<Seq<char>>) -> (WindowsRequest, bool) {
    let scroll = args.contains("--scroll-lock"@);
    let request = if args.contains("--help"@) || args.contains("-h"@) {
        WindowsRequest::Help
    } else if args.contains("--version"@) || args.contains("-V"@) {
        WindowsRequest::Version
    } else {
        match position_from(args, "--attach"@, 0) {
            None => WindowsRequest::Find,
            Some(i) => if i + 1 < args.len() && pid_number(args[i + 1]) is Some {
                WindowsRequest::Attach((pid_number(args[i + 1])->0) as u32)
            } else {
                WindowsRequest::Misuse
            },
        }
    };
    (request, scroll)
}

proof fn position_is_membership(args: Seq<Seq<char>>, want: Seq<char>, i: int)
    requires
        0 <= i <= args.len(),
    ensures
        position_from(args, want, i) is Some <==> args.skip(i).contains(want),
    decreases args.len() - i,
{
    if i < args.len() {
        position_is_membership(args, want, i + 1);
        let rest = args.skip(i);
        let later = args.skip(i + 1);
        assert(rest[0] == args[i]);
        if rest.contains(want) {
            let k = choose|k: int| 0 <= k < rest.len() && rest[k] == want;
            if k > 0 {
                assert(later[k - 1] == want);
            }
        }
        if later.contains(want) {
            let k = choose|k: int| 0 <= k < later.len() && later[k] == want;
            assert(rest[k + 1] == want);
        }
    }
}

/// Whether some argument is `want`.
fn has_arg(args: &[String], want: &str) -> (r: bool)
    ensures
        r == string_views(args@).contains(want@),
{
    proof {
        position_is_membership(string_views(args@), want@, 0);
        assert(string_views(args@).skip(0) =~= string_views(args@));
    }
    position(args, want).is_some()
}

/// What the arguments ask of the Windows controller.
pub fn parse_windows(args: &[String]) -> (r: (WindowsRequest, bool))
    ensures
        r == windows_request(string_views(args@)),
{
    let scroll: bool = has_arg(args, "--scroll-lock");
    if has_arg(args, "--help") || has_arg(args, "-h") {
        return (WindowsRequest::Help, scroll);
    }
    if has_arg(args, "--version") || has_arg(args, "-V") {
        return (WindowsRequest::Version, scroll);
    }
    let request: WindowsRequest = match position(args, "--attach") {
        None => WindowsRequest::Find,
        Some(i) => {
            let count: usize = args.len();
            if i + 1 < count {
                assert(string_views(args@)[i + 1] == args@[i + 1]@);
                match parse_pid_number(args[i + 1].as_str()) {
                    Some(pid) => WindowsRequest::Attach(pid),
                    None => WindowsRequest::Misuse,
                }
            } else {
                WindowsRequest::Misuse
            }
        },
    };
    (request, scroll)
}

/// What is asked of the Linux controller. A place in the arguments stands for
/// the argument there.
#[derive(Clone, Copy, Debug, PartialEq, Eq, Structural)]
pub enum LinuxRequest {
    Help,
    Version,
    /// Wrong use: the help is printed, and the program ends with code 2.
    Misuse,
    /// Look for the signatures in the file that an argument names.
    ScanFile(usize),
    /// Fix the maps below the directory that an argument names.
    FixMapsIn(usize),
    /// Fix the maps of the installed game.
    FixMaps,
    /// Patch this process.
    Attach(u32),
    /// Patch the game that runs.
    AttachFound,
    /// No process number: the program ends with code 2.
    BadPid(usize),
    /// Start the game, with the arguments from this place on.
    Launch(usize),
}

/// What the arguments ask of the Linux controller.
pub open spec fn linux_request(args: Seq<Seq<char>>) -> LinuxRequest {
    let first = if args.len() > 0 {
        Some(args[0])
    } else {
        None
    };
    if first == Some("--help"@) || first == Some("-h"@) {
        LinuxRequest::Help
    } else if first == Some("--version"@) || first == Some("-V"@) {
        LinuxRequest::Version
    } else if first == Some("--scan-file"@) {
        if args.len() > 1 {
            LinuxRequest::ScanFile(1)
        } else {
            LinuxRequest::Misuse
        }
    } else if first == Some("--fix-maps"@) {
        if args.len() == 1 {
            LinuxRequest::FixMaps
        } else if args.len() == 2 && !starts_with(args[1], "-"@) {
            LinuxRequest::FixMapsIn(1)
        } else {
            LinuxRequest::Misuse
        }
    } else if first == Some("--attach"@) {
        if args.len() == 1 {
            LinuxRequest::AttachFound
        } else {
            match pid_number(args[1]) {
                Some(pid) => LinuxRequest::Attach(pid as u32),
                None => LinuxRequest::BadPid(1),
            }
        }
    } else {
        match position_from(args, "--"@, 0) {
            Some(i) => LinuxRequest::Launch((i + 1) as usize),
            None => LinuxRequest::Launch(args.len() as usize),
        }
    }
}

/// What the arguments ask of the Linux controller.
pub fn parse_linux(args: &[String]) -> (r: LinuxRequest)
    ensures
        r == linux_request(string_views(args@)),
{
    let ghost views = string_views(args@);
    let count: usize = args.len();
    if count > 0 {
        assert(views[0] == args@[0]@);
        let first: &str = args[0].as_str();
        if same_str(first, "--help") || same_str(first, "-h") {
            return LinuxRequest::Help;
        }
        if same_str(first, "--version") || same_str(first, "-V") {
            return LinuxRequest::Version;
        }
        if same_str(first, "--scan-file") {
            return if count > 1 {
                LinuxRequest::ScanFile(1)
            } else {
                LinuxRequest::Misuse
            };
        }
        if same_str(first, "--fix-maps") {
            if count == 1 {
                return LinuxRequest::FixMaps;
            }
            assert(views[1] == args@[1]@);
            return if count == 2 && !has_prefix(args[1].as_str(), "-") {
                LinuxRequest::FixMapsIn(1)
            } else {
                LinuxRequest::Misuse
            };
        }
        if same_str(first, "--attach") {
            if count == 1 {
                return LinuxRequest::AttachFound;
            }
            assert(views[1] == args@[1]@);
            return match parse_pid_number(args[1].as_str()) {
                Some(pid) => LinuxRequest::Attach(pid),
                None => LinuxRequest::BadPid(1),
            };
        }
    }
    match position(args, "--") {
        Some(i) => LinuxRequest::Launch(i + 1),
        None => LinuxRequest::Launch(count),
    }
}

/// Whether Scroll Lock toggles the patch on Linux.
pub fn linux_scroll_lock(args: &[String]) -> (r: bool)
    ensures
        r == string_views(args@).contains("--scroll-lock"@),
{
    has_arg(args, "--scroll-lock")
}

/// An unknown option never starts anything but the game, and the game gets
/// only what stands behind `--`.
pub proof fn only_marked_arguments_reach_the_game(args: Seq<Seq<char>>, k: int)
    requires
        linux_request(args) is Launch,
        args.len() <= usize::MAX,
        linux_request(args)->Launch_0 <= k < args.len(),
    ensures
        args.take(k).contains("--"@),
{
    position_found(args, "--"@, 0);
    let i = position_from(args, "--"@, 0)->0;
    assert(args.take(k)[i] == "--"@);
}

proof fn position_found(args: Seq<Seq<char>>, want: Seq<char>, i: int)
    requires
        0 <= i,
    ensures
        position_from(args, want, i) matches Some(k) ==> i <= k < args.len() && args[k] == want,
    decreases args.len() - i,
{
    if i < args.len() {
        position_found(args, want, i + 1);
    }
}

/// The options that the environment sets.
#[derive(Clone, Copy, Debug, PartialEq, Eq, Structural)]
pub struct Options {
    pub debug: bool,
    pub no_force: bool,
    pub demos: bool,
    pub keep_viewpunch: bool,
    pub no_sourcejump: bool,
}

/// A flag, or none.
pub open spec fn flag_if(on: bool, flag: u32) -> u32 {
    if on {
        flag
    } else {
        0
    }
}

/// The flags that the options come to.
pub open spec fn flags_of(o: Options) -> u32 {
    flag_if(o.debug, FLAG_DEBUG) | flag_if(!o.no_force, FLAG_FORCE_RAWINPUT2) | flag_if(
        o.demos,
        FLAG_DEMOS,
    ) | flag_if(o.keep_viewpunch, FLAG_KEEP_VIEWPUNCH) | flag_if(
        o.no_sourcejump,
        FLAG_NO_SOURCEJUMP,
    )
}

fn pick(on: bool, flag: u32) -> (r: u32)
    ensures
        r == flag_if(on, flag),
{
    if on {
        flag
    } else {
        0
    }
}

/// The flags for the library in the game.
pub fn hook_flags(o: Options) -> (r: u32)
    ensures
        r == flags_of(o),
{
    pick(o.debug, FLAG_DEBUG) | pick(!o.no_force, FLAG_FORCE_RAWINPUT2) | pick(
        o.demos,
        FLAG_DEMOS,
    ) | pick(o.keep_viewpunch, FLAG_KEEP_VIEWPUNCH) | pick(o.no_sourcejump, FLAG_NO_SOURCEJUMP)
}

proof fn five_flags(a: u32, b: u32, c: u32, d: u32, e: u32)
    by (bit_vector)
    requires
        a == 0 || a == 1,
        b == 0 || b == 2,
        c == 0 || c == 4,
        d == 0 || d == 8,
        e == 0 || e == 16,
    ensures
        (a | b | c | d | e) & 1 == a,
        (a | b | c | d | e) & 2 == b,
        (a | b | c | d | e) & 4 == c,
        (a | b | c | d | e) & 8 == d,
        (a | b | c | d | e) & 16 == e,
        (a | b | c | d | e) < 32,
{
}

/// Each option is one flag: it is set exactly when the option asks for it, and
/// no other bit is.
pub proof fn flags_tell_the_options(o: Options)
    ensures
        (flags_of(o) & FLAG_DEBUG != 0) == o.debug,
        (flags_of(o) & FLAG_FORCE_RAWINPUT2 != 0) == !o.no_force,
        (flags_of(o) & FLAG_DEMOS != 0) == o.demos,
        (flags_of(o) & FLAG_KEEP_VIEWPUNCH != 0) == o.keep_viewpunch,
        (flags_of(o) & FLAG_NO_SOURCEJUMP != 0) == o.no_sourcejump,
        flags_of(o) < 32,
{
    five_flags(
        flag_if(o.debug, FLAG_DEBUG),
        flag_if(!o.no_force, FLAG_FORCE_RAWINPUT2),
        flag_if(o.demos, FLAG_DEMOS),
        flag_if(o.keep_viewpunch, FLAG_KEEP_VIEWPUNCH),
        flag_if(o.no_sourcejump, FLAG_NO_SOURCEJUMP),
    );
}

/// The features, in the order in which they are listed.
pub open spec fn feature_list() -> Seq<(Seq<char>, u64)> {
    seq![
        ("rawinput2"@, FEATURE_RAWINPUT2),
        ("viewpunch remover"@, FEATURE_VIEWPUNCH),
        ("fastdl map interception"@, FEATURE_FASTDL),
        ("engine console"@, FEATURE_CONSOLE),
        ("download progress/flash"@, FEATURE_DOWNLOADS),
        ("fullscreen preservation"@, FEATURE_FULLSCREEN),
        ("SourceJump records"@, FEATURE_SOURCEJUMP),
    ]
}

/// The line of a feature.
pub open spec fn feature_text(name: Seq<char>, on: bool) -> Seq<char> {
    "    "@ + padded(name, 27) + " "@ + (if on {
        "ready"@
    } else {
        "disabled"@
    })
}

/// The line of a feature.
fn feature_line(name: &str, on: bool) -> (r: String)
    ensures
        r@ == feature_text(name@, on),
{
    let mut out: String = "    ".to_owned();
    push_padded(&mut out, name, 27);
    out.append(" ");
    out.append(
        if on {
            "ready"
        } else {
            "disabled"
        },
    );
    out
}

/// Which features work, one line each.
pub fn feature_matrix(features: u64) -> (r: Vec<String>)
    ensures
        string_views(r@) == Seq::new(
            feature_list().len(),
            |i: int| feature_text(feature_list()[i].0, features & feature_list()[i].1 != 0),
        ),
{
    let mut out: Vec<String> = Vec::new();
    out.push(feature_line("rawinput2", features & FEATURE_RAWINPUT2 != 0));
    out.push(feature_line("viewpunch remover", features & FEATURE_VIEWPUNCH != 0));
    out.push(feature_line("fastdl map interception", features & FEATURE_FASTDL != 0));
    out.push(feature_line("engine console", features & FEATURE_CONSOLE != 0));
    out.push(feature_line("download progress/flash", features & FEATURE_DOWNLOADS != 0));
    out.push(feature_line("fullscreen preservation", features & FEATURE_FULLSCREEN != 0));
    out.push(feature_line("SourceJump records", features & FEATURE_SOURCEJUMP != 0));
    assert(string_views(out@) =~= Seq::new(
        feature_list().len(),
        |i: int| feature_text(feature_list()[i].0, features & feature_list()[i].1 != 0),
    ));
    out
}

/// The line that names the build.
pub fn version_line(version: &str, debug: bool) -> (r: String)
    ensures
        r@ == "bunnyhopfix "@ + version@ + " ("@ + (if debug {
            "debug"@
        } else {
            "release"@
        }) + ")"@,
{
    let mut out: String = "bunnyhopfix ".to_owned();
    out.append(version);
    out.append(" (");
    out.append(
        if debug {
            "debug"
        } else {
            "release"
        },
    );
    out.append(")");
    out
}

/// The line of a patched branch.
pub fn site_line(name: &str, addr: u64) -> (r: String)
    ensures
        r@ == "    "@ + padded(name@, 28) + " @ 0x"@ + hex_text(addr as int),
{
    let mut out: String = "    ".to_owned();
    push_padded(&mut out, name, 28);
    out.append(" @ 0x");
    push_hex(&mut out, addr);
    out
}

/// The line of a signature that a file holds at `offset`.
pub fn match_line(name: &str, offset: u64, at: u64, len: u64) -> (r: String)
    requires
        offset + at <= u64::MAX,
    ensures
        r@ == "MATCH "@ + padded(name@, 28) + " file offset 0x"@ + hex_text(offset as int)
            + " (patch at 0x"@ + hex_text(offset + at) + ", "@ + dec_text(len as int)
            + " bytes)"@,
{
    let mut out: String = "MATCH ".to_owned();
    push_padded(&mut out, name, 28);
    out.append(" file offset 0x");
    push_hex(&mut out, offset);
    out.append(" (patch at 0x");
    push_hex(&mut out, offset + at);
    out.append(", ");
    push_dec(&mut out, len);
    out.append(" bytes)");
    out
}

/// The first argument of that name is found.
pub proof fn the_first_argument_is_found(args: Seq<Seq<char>>, want: Seq<char>, i: int)
    requires
        0 <= i <= args.len(),
        forall|j: int| 0 <= j < i ==> #[trigger] args[j] != want,
    ensures
        i < args.len() && args[i] == want ==> position_from(args, want, 0) == Some(i),
        i == args.len() ==> position_from(args, want, 0) is None,
{
    position_is(args, want, 0, i);
}

proof fn position_is(args: Seq<Seq<char>>, want: Seq<char>, from: int, i: int)
    requires
        0 <= from <= i <= args.len(),
        forall|j: int| 0 <= j < i ==> #[trigger] args[j] != want,
    ensures
        i < args.len() && args[i] == want ==> position_from(args, want, from) == Some(i),
        i == args.len() ==> position_from(args, want, from) is None,
    decreases i - from,
{
    if from < i {
        assert(args[from] != want);
        position_is(args, want, from + 1, i);
    }
}

proof fn options_differ()
    ensures
        "--attach"@ != "--help"@,
        "--attach"@ != "-h"@,
        "--attach"@ != "--version"@,
        "--attach"@ != "-V"@,
        "--attach"@ != "--scan-file"@,
        "--attach"@ != "--fix-maps"@,
        "--fix-maps"@ != "--help"@,
        "--fix-maps"@ != "-h"@,
        "--fix-maps"@ != "--version"@,
        "--fix-maps"@ != "-V"@,
        "--fix-maps"@ != "--scan-file"@,
        "--scan-file"@ != "--help"@,
        "--scan-file"@ != "-h"@,
        "--scan-file"@ != "--version"@,
        "--scan-file"@ != "-V"@,
        "--"@ != "--help"@,
        "--"@ != "-h"@,
        "--"@ != "--version"@,
        "--"@ != "-V"@,
        "--"@ != "--scan-file"@,
        "--"@ != "--fix-maps"@,
        "--"@ != "--attach"@,
        "--scroll-lock"@ != "--help"@,
        "--scroll-lock"@ != "-h"@,
        "--scroll-lock"@ != "--version"@,
        "--scroll-lock"@ != "-V"@,
        "--scroll-lock"@ != "--attach"@,
{
    reveal_strlit("--attach");
    reveal_strlit("--help");
    reveal_strlit("-h");
    reveal_strlit("--version");
    reveal_strlit("-V");
    reveal_strlit("--scan-file");
    reveal_strlit("--fix-maps");
    reveal_strlit("--");
    reveal_strlit("--scroll-lock");
    assert("--attach"@[2] == 'a');
    assert("--help"@[2] == 'h');
    assert("--version"@[2] == 'v');
    assert("--scan-file"@[2] == 's');
    assert("--scan-file"@[3] == 'c');
    assert("--scan-file"@[4] == 'a');
    assert("--fix-maps"@[2] == 'f');
    assert("-h"@.len() == 2 && "-h"@[1] == 'h');
    assert("-V"@.len() == 2 && "-V"@[1] == 'V');
    assert("--"@.len() == 2 && "--"@[1] == '-');
    assert("--scroll-lock"@[2] == 's');
}

/// A process is attached to by its number, on both systems, and only a number
/// will do; without one Linux looks for the game.
pub proof fn attach_takes_a_number(pid: u32, bad: Seq<char>)
    requires
        pid_number(bad) is None,
    ensures
        linux_request(seq!["--attach"@, dec_text(pid as int)]) == LinuxRequest::Attach(pid),
        windows_request(seq!["--attach"@, dec_text(pid as int)]) == (
            WindowsRequest::Attach(pid),
            false,
        ),
        linux_request(seq!["--attach"@, bad]) == LinuxRequest::BadPid(1),
        linux_request(seq!["--attach"@]) == LinuxRequest::AttachFound,
        windows_request(seq!["--attach"@]) == (WindowsRequest::Misuse, false),
{
    options_differ();
    numbers_are_read_back(pid as nat, 10);
    let t = dec_text(pid as int);
    let a = seq!["--attach"@, t];
    assert(a[0] == "--attach"@ && a[1] == t);
    assert(pid_number(t) == Some(pid as int));
    the_first_argument_is_found(a, "--attach"@, 0);
    digits_are_no_option(pid as nat);
    no_option(a, "--help"@);
    no_option(a, "-h"@);
    no_option(a, "--version"@);
    no_option(a, "-V"@);
    no_option(a, "--scroll-lock"@);
    let b = seq!["--attach"@];
    assert(b[0] == "--attach"@);
    the_first_argument_is_found(b, "--attach"@, 0);
    lone_option(b, "--help"@);
    lone_option(b, "-h"@);
    lone_option(b, "--version"@);
    lone_option(b, "-V"@);
    lone_option(b, "--scroll-lock"@);
    let c = seq!["--attach"@, bad];
    assert(c[0] == "--attach"@ && c[1] == bad);
}

proof fn no_option(a: Seq<Seq<char>>, want: Seq<char>)
    requires
        a.len() == 2,
        a[0] != want,
        a[1] != want,
    ensures
        !a.contains(want),
{
    if a.contains(want) {
        let k = choose|k: int| 0 <= k < a.len() && a[k] == want;
    }
}

proof fn lone_option(a: Seq<Seq<char>>, want: Seq<char>)
    requires
        a.len() == 1,
        a[0] != want,
    ensures
        !a.contains(want),
{
    if a.contains(want) {
        let k = choose|k: int| 0 <= k < a.len() && a[k] == want;
    }
}

proof fn digits_are_no_option(n: nat)
    ensures
        number_text(n, 10) != "--help"@,
        number_text(n, 10) != "-h"@,
        number_text(n, 10) != "--version"@,
        number_text(n, 10) != "-V"@,
        number_text(n, 10) != "--scroll-lock"@,
{
    reveal_strlit("--help");
    reveal_strlit("-h");
    reveal_strlit("--version");
    reveal_strlit("-V");
    reveal_strlit("--scroll-lock");
    let t = number_text(n, 10);
    numbers_are_read_back(n, 10);
    numbers_are_digits(t, 10, n, 0);
    assert(t[0] != '-');
}

/// The help, the version, a file to scan and maps to fix are asked for by the
/// first argument; everything else starts the game.
pub proof fn the_first_argument_decides(arg: Seq<char>, rest: Seq<Seq<char>>)
    requires
        rest.len() < 0x1_0000,
    ensures
        linux_request(seq!["--help"@] + rest) == LinuxRequest::Help,
        linux_request(seq!["-h"@] + rest) == LinuxRequest::Help,
        linux_request(seq!["--version"@] + rest) == LinuxRequest::Version,
        linux_request(seq!["-V"@] + rest) == LinuxRequest::Version,
        linux_request(seq!["--scan-file"@, arg]) == LinuxRequest::ScanFile(1),
        linux_request(seq!["--scan-file"@]) == LinuxRequest::Misuse,
        linux_request(seq!["--fix-maps"@]) == LinuxRequest::FixMaps,
        arg.len() > 0 && arg[0] != '-' ==> linux_request(seq!["--fix-maps"@, arg])
            == LinuxRequest::FixMapsIn(1),
        linux_request(Seq::empty()) == LinuxRequest::Launch(0),
        linux_request(seq!["--"@] + rest) == LinuxRequest::Launch(1),
        windows_request(Seq::empty()) == (WindowsRequest::Find, false),
        windows_request(seq!["--scroll-lock"@]) == (WindowsRequest::Find, true),
{
    options_differ();
    reveal_strlit("--help");
    reveal_strlit("-h");
    reveal_strlit("--version");
    reveal_strlit("-V");
    assert((seq!["--help"@] + rest)[0] == "--help"@);
    assert((seq!["-h"@] + rest)[0] == "-h"@);
    assert((seq!["--version"@] + rest)[0] == "--version"@);
    assert((seq!["-V"@] + rest)[0] == "-V"@);
    assert("--version"@[2] == 'v' && "--help"@[2] == 'h' && "-h"@.len() == 2 && "-V"@.len() == 2
        && "-V"@[1] == 'V' && "-h"@[1] == 'h');
    let s = seq!["--scan-file"@, arg];
    assert(s[0] == "--scan-file"@);
    let f = seq!["--fix-maps"@, arg];
    assert(f[0] == "--fix-maps"@ && f[1] == arg);
    reveal_strlit("-");
    if arg.len() > 0 && arg[0] != '-' {
        if starts_with(arg, "-"@) {
            assert(arg.take(1)[0] == arg[0]);
            assert("-"@[0] == '-');
        }
    }
    let none = Seq::<Seq<char>>::empty();
    the_first_argument_is_found(none, "--"@, 0);
    the_first_argument_is_found(none, "--attach"@, 0);
    let dashes = seq!["--"@] + rest;
    assert(dashes[0] == "--"@);
    the_first_argument_is_found(dashes, "--"@, 0);
    let l = seq!["--scroll-lock"@];
    assert(l[0] == "--scroll-lock"@);
    assert(l.contains("--scroll-lock"@));
    lone_option(l, "--help"@);
    lone_option(l, "-h"@);
    lone_option(l, "--version"@);
    lone_option(l, "-V"@);
    assert(l[0] != "--attach"@);
    the_first_argument_is_found(l, "--attach"@, 1);
}

/// The options are the flags that the library knows: 1 for debugging, 2 for the
/// raw-input default, 4 for demos, 8 for the view kick and 16 against records.
pub proof fn flags_have_their_values(o: Options)
    ensures
        (flags_of(o) & 1 != 0) == o.debug,
        (flags_of(o) & 2 != 0) == !o.no_force,
        (flags_of(o) & 4 != 0) == o.demos,
        (flags_of(o) & 8 != 0) == o.keep_viewpunch,
        (flags_of(o) & 16 != 0) == o.no_sourcejump,
{
    flags_tell_the_options(o);
}

/// The features are listed each with its own bit.
pub proof fn features_are_listed_with_their_bits()
    ensures
        feature_list().len() == 7,
        feature_list()[0] == ("rawinput2"@, 1u64),
        feature_list()[1] == ("viewpunch remover"@, 2u64),
        feature_list()[2] == ("fastdl map interception"@, 4u64),
        feature_list()[3] == ("engine console"@, 8u64),
        feature_list()[4] == ("download progress/flash"@, 16u64),
        feature_list()[5] == ("fullscreen preservation"@, 32u64),
        feature_list()[6] == ("SourceJump records"@, 64u64),
{
}

} // verus!
