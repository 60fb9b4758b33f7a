//! Starting the game on Linux: where it is installed, its arguments, its
//! environment, and the display modes to put back afterwards.
use vstd::prelude::*;

use crate::phrase::{
    extend_chars, find_text, has_char, has_text, holds_text, piece_len, pieces,
    pieces_are_split_off, split, text_at, trim_end,
};
use crate::text::{
    char_views, chars, dec_string, dec_text, ends_with, first_character_is_found, index_from, index_of,
    lines, lines_of, number_of, number_text, numbers_are_read_back, parse_number, same_chars, same_str,
    string_of, string_views, white, words, words_of,
};

verus! {

/// Where the game lies in a library of Steam.
pub const GAME_DIR: &'static str = "/steamapps/common/Counter-Strike Source";

/// The key of a library's path.
pub const PATH_KEY: &'static str = "\"path\"";

/// How many characters stand before the first `c`.
pub open spec fn run_before(s: Seq<char>, c: char) -> int {
    match index_from(s, c, 0) {
        Some(i) => i,
        None => s.len() as int,
    }
}

/// The text between the first two quotes, or up to the end.
pub open spec fn quoted(s: Seq<char>) -> Seq<char> {
    let open = run_before(s, '"');
    if open >= s.len() {
        Seq::empty()
    } else {
        let rest = s.skip(open + 1);
        rest.take(run_before(rest, '"'))
    }
}

/// A text with a slash for every pair of backslashes.
pub open spec fn slashed(s: Seq<char>) -> Seq<char>
    decreases s.len(),
{
    if s.len() >= 2 && s[0] == '\\' && s[1] == '\\' {
        seq!['/'] + slashed(s.skip(2))
    } else if s.len() > 0 {
        seq![s[0]] + slashed(s.skip(1))
    } else {
        Seq::empty()
    }
}

/// The game directory in the library that a line names, if it names one.
pub open spec fn library_of(line: Seq<char>) -> Option<Seq<char>> {
    if exists|i: int| text_at(line, PATH_KEY@, i) {
        let at = choose|i: int|
            text_at(line, PATH_KEY@, i) && forall|j: int| 0 <= j < i ==> !text_at(line, PATH_KEY@, j);
        let value = quoted(line.skip(at + 6));
        if value.len() > 0 {
            Some(slashed(value) + GAME_DIR@)
        } else {
            None
        }
    } else {
        None
    }
}

/// The game directories in the libraries that the first `n` lines name.
pub open spec fn libraries_in(ls: Seq<Seq<char>>, n: int) -> Seq<Seq<char>>
    decreases n,
{
    if n <= 0 {
        Seq::empty()
    } else {
        match library_of(ls[n - 1]) {
            Some(p) => libraries_in(ls, n - 1).push(p),
            None => libraries_in(ls, n - 1),
        }
    }
}

/// How many characters stand before the first `c`.
fn count_before(s: &[char], c: char) -> (r: usize)
    ensures
        r == run_before(s@, c),
        r <= s@.len(),
{
    match index_of(s, c, 0) {
        Some(i) => i,
        None => s.len(),
    }
}

/// A text with a slash for every pair of backslashes.
fn to_slashes(s: &[char]) -> (r: Vec<char>)
    ensures
        r@ == slashed(s@),
{
    let mut out: Vec<char> = Vec::new();
    let mut i: usize = 0;
    let size: usize = s.len();
    assert(s@.skip(0) =~= s@);
    assert(out@ + slashed(s@) =~= slashed(s@));
    while i < size
        invariant
            i <= size,
            size == s@.len(),
            out@ + slashed(s@.skip(i as int)) == slashed(s@),
        decreases size - i,
    {
        let ghost rest = s@.skip(i as int);
        let ghost before = out@;
        assert(rest[0] == s@[i as int]);
        if i + 1 < size && s[i] == '\\' && s[i + 1] == '\\' {
            assert(rest[1] == s@[i + 1]);
            assert(rest.skip(2) =~= s@.skip(i + 2));
            out.push('/');
            assert(before + (seq!['/'] + slashed(s@.skip(i + 2))) =~= out@ + slashed(
                s@.skip(i + 2),
            ));
            i = i + 2;
        } else {
            if i + 1 < size {
                assert(rest[1] == s@[i + 1]);
            }
            assert(rest.skip(1) =~= s@.skip(i + 1));
            out.push(s[i]);
            assert(before + (seq![s@[i as int]] + slashed(s@.skip(i + 1))) =~= out@ + slashed(
                s@.skip(i + 1),
            ));
            i = i + 1;
        }
    }
    assert(s@.skip(size as int) =~= Seq::empty());
    assert(out@ =~= slashed(s@));
    out
}

/// The game directory in the library that a line names.
fn parse_library(line: &[char]) -> (r: Option<Vec<char>>)
    ensures
        match r {
            Some(p) => library_of(line@) == Some(p@),
            None => library_of(line@) is None,
        },
{
    let key: Vec<char> = chars(PATH_KEY);
    proof {
        reveal_strlit("\"path\"");
        assert(PATH_KEY@.len() == 6);
    }
    let at: usize = match find_text(line, key.as_slice()) {
        None => {
            return None;
        },
        Some(at) => at,
    };
    proof {
        let c = choose|i: int|
            text_at(line@, PATH_KEY@, i) && forall|j: int|
                0 <= j < i ==> !text_at(line@, PATH_KEY@, j);
        assert(text_at(line@, PATH_KEY@, at as int) && forall|j: int|
            0 <= j < at ==> !text_at(line@, PATH_KEY@, j));
        assert(c == at) by {
            if c < at {
                assert(!text_at(line@, PATH_KEY@, c));
            }
            if at < c {
                assert(!text_at(line@, PATH_KEY@, at as int));
            }
        }
    }
    let size: usize = line.len();
    let rest: &[char] = vstd::slice::slice_subrange(line, at + 6, size);
    assert(rest@ =~= line@.skip(at + 6));
    let open: usize = count_before(rest, '"');
    if open >= rest.len() {
        return None;
    }
    let body: &[char] = vstd::slice::slice_subrange(rest, open + 1, rest.len());
    assert(body@ =~= rest@.skip(open + 1));
    let len: usize = count_before(body, '"');
    let value: &[char] = vstd::slice::slice_subrange(body, 0, len);
    assert(value@ =~= body@.take(len as int));
    if value.len() == 0 {
        return None;
    }
    let mut out: Vec<char> = to_slashes(value);
    let dir: Vec<char> = chars(GAME_DIR);
    extend_chars(&mut out, dir.as_slice());
    Some(out)
}

/// The game directories in the libraries that Steam's list names.
pub fn library_dirs(vdf: &str) -> (r: Vec<String>)
    ensures
        string_views(r@) == libraries_in(lines_of(vdf@), lines_of(vdf@).len() as int),
{
    let cs: Vec<char> = chars(vdf);
    let ls: Vec<Vec<char>> = lines(cs.as_slice());
    let ghost views = char_views(ls@);
    let mut out: Vec<String> = Vec::new();
    let mut i: usize = 0;
    assert(string_views(out@) =~= Seq::empty());
    while i < ls.len()
        invariant
            i <= ls.len(),
            views == char_views(ls@),
            string_views(out@) == libraries_in(views, i as int),
        decreases ls.len() - i,
    {
        let ghost before = string_views(out@);
        assert(views[i as int] == ls@[i as int]@);
        match parse_library(ls[i].as_slice()) {
            Some(p) => {
                let text: String = string_of(p.as_slice());
                out.push(text);
                assert(string_views(out@) =~= before.push(text@));
            },
            None => {},
        }
        i = i + 1;
    }
    out
}

/// The game directories in the libraries of the first `n` lists.
pub open spec fn listed_dirs(vdfs: Seq<Seq<char>>, n: int) -> Seq<Seq<char>>
    decreases n,
{
    if n <= 0 {
        Seq::empty()
    } else {
        listed_dirs(vdfs, n - 1) + libraries_in(
            lines_of(vdfs[n - 1]),
            lines_of(vdfs[n - 1]).len() as int,
        )
    }
}

/// Where the game may be installed: where Steam itself is, in this order, and
/// then the libraries of its lists.
pub open spec fn dirs_of(home: Seq<char>, vdfs: Seq<Seq<char>>) -> Seq<Seq<char>> {
    seq![
        home + "/.local/share/Steam"@ + GAME_DIR@,
        home + "/.steam/steam"@ + GAME_DIR@,
        home + "/.steam/root"@ + GAME_DIR@,
    ] + listed_dirs(vdfs, vdfs.len() as int)
}

/// The game directory of a Steam directory.
fn steam_dir(home: &str, steam: &str) -> (r: String)
    ensures
        r@ == home@ + steam@ + GAME_DIR@,
{
    let mut out: String = home.to_owned();
    out.append(steam);
    out.append(GAME_DIR);
    out
}

/// Where the game may be installed.
pub fn css_dirs(home: &str, vdfs: &[String]) -> (r: Vec<String>)
    ensures
        string_views(r@) == dirs_of(home@, string_views(vdfs@)),
{
    let ghost views = string_views(vdfs@);
    let mut out: Vec<String> = Vec::new();
    out.push(steam_dir(home, "/.local/share/Steam"));
    out.push(steam_dir(home, "/.steam/steam"));
    out.push(steam_dir(home, "/.steam/root"));
    let ghost fixed = string_views(out@);
    assert(dirs_of(home@, views) =~= fixed + listed_dirs(views, views.len() as int));
    assert(fixed + listed_dirs(views, 0) =~= fixed);
    let mut i: usize = 0;
    while i < vdfs.len()
        invariant
            i <= vdfs.len(),
            views == string_views(vdfs@),
            string_views(out@) == fixed + listed_dirs(views, i as int),
        decreases vdfs.len() - i,
    {
        let ghost before = string_views(out@);
        assert(views[i as int] == vdfs@[i as int]@);
        let mut more: Vec<String> = library_dirs(vdfs[i].as_str());
        let ghost added = more@;
        out.append(&mut more);
        assert(string_views(out@) =~= before + string_views(added));
        assert(string_views(out@) =~= fixed + listed_dirs(views, i + 1));
        i = i + 1;
    }
    out
}

/// A current mode: output, mode and rate.
pub struct DisplayMode {
    pub output: String,
    pub mode: String,
    pub rate: String,
}

/// The value of a `DisplayMode`.
#[verifier::ext_equal]
pub struct ModeView {
    pub output: Seq<char>,
    pub mode: Seq<char>,
    pub rate: Seq<char>,
}

impl View for DisplayMode {
    type V = ModeView;

    open spec fn view(&self) -> ModeView {
        ModeView { output: self.output@, mode: self.mode@, rate: self.rate@ }
    }
}

/// The values of a list of modes.
pub open spec fn mode_views(v: Seq<DisplayMode>) -> Seq<ModeView> {
    Seq::new(v.len(), |i: int| v[i]@)
}

/// A rate without the marks behind it.
pub open spec fn unmarked(s: Seq<char>) -> Seq<char>
    decreases s.len(),
{
    if s.len() > 0 && (s.last() == '*' || s.last() == '+') {
        unmarked(s.drop_last())
    } else {
        s
    }
}

/// The first word with a star, from word `i` on.
pub open spec fn starred(ws: Seq<Seq<char>>, i: int) -> Option<Seq<char>>
    decreases ws.len() - i,
{
    if i < 0 || i >= ws.len() {
        None
    } else if ws[i].contains('*') {
        Some(ws[i])
    } else {
        starred(ws, i + 1)
    }
}

/// A line that names an output.
pub open spec fn names_output(line: Seq<char>) -> bool {
    holds_text(line, " connected"@)
}

/// The output that the first `n` lines end with.
pub open spec fn output_after(ls: Seq<Seq<char>>, n: int) -> Option<Seq<char>>
    decreases n,
{
    if n <= 0 {
        None
    } else if names_output(ls[n - 1]) {
        let ws = words_of(ls[n - 1]);
        if ws.len() > 0 {
            Some(ws[0])
        } else {
            None
        }
    } else {
        output_after(ls, n - 1)
    }
}

/// The mode that a line below an output shows, if it is the current one.
pub open spec fn mode_of(output: Option<Seq<char>>, line: Seq<char>) -> Option<ModeView> {
    match output {
        Some(o) if line.len() > 0 && line[0] == ' ' => {
            let ws = words_of(line);
            match starred(ws, 1) {
                Some(rate) => Some(ModeView { output: o, mode: ws[0], rate: unmarked(rate) }),
                None => None,
            }
        },
        _ => None,
    }
}

/// The current modes that the first `n` lines show.
pub open spec fn modes_in(ls: Seq<Seq<char>>, n: int) -> Seq<ModeView>
    decreases n,
{
    if n <= 0 {
        Seq::empty()
    } else if names_output(ls[n - 1]) {
        modes_in(ls, n - 1)
    } else {
        match mode_of(output_after(ls, n - 1), ls[n - 1]) {
            Some(m) => modes_in(ls, n - 1).push(m),
            None => modes_in(ls, n - 1),
        }
    }
}

/// A rate without the marks behind it.
fn drop_marks(s: &[char]) -> (r: &[char])
    ensures
        r@ == unmarked(s@),
{
    let mut n: usize = s.len();
    assert(s@.take(n as int) =~= s@);
    while n > 0 && (s[n - 1] == '*' || s[n - 1] == '+')
        invariant
            n <= s.len(),
            unmarked(s@) == unmarked(s@.take(n as int)),
        decreases n,
    {
        assert(s@.take(n as int).last() == s@[n - 1]);
        assert(s@.take(n as int).drop_last() =~= s@.take(n - 1));
        n = n - 1;
    }
    assert(n > 0 ==> s@.take(n as int).last() == s@[n - 1]);
    let r: &[char] = vstd::slice::slice_subrange(s, 0, n);
    assert(r@ =~= s@.take(n as int));
    r
}

/// The mode that a line below an output shows.
fn parse_mode(output: &Vec<char>, line: &[char]) -> (r: Option<DisplayMode>)
    ensures
        match r {
            Some(m) => mode_of(Some(output@), line@) == Some(m@),
            None => mode_of(Some(output@), line@) is None,
        },
{
    if line.len() == 0 || line[0] != ' ' {
        return None;
    }
    let ws: Vec<Vec<char>> = words(line);
    let ghost views = char_views(ws@);
    let mut i: usize = 1;
    while i < ws.len()
        invariant
            1 <= i,
            views == char_views(ws@),
            views == words_of(line@),
            line@.len() > 0 && line@[0] == ' ',
            starred(views, 1) == starred(views, i as int),
            i <= ws.len() || ws.len() == 0,
        decreases ws.len() - i,
    {
        assert(views[i as int] == ws@[i as int]@);
        if has_char(ws[i].as_slice(), '*') {
            assert(views[0] == ws@[0]@);
            let mode: DisplayMode = DisplayMode {
                output: string_of(output.as_slice()),
                mode: string_of(ws[0].as_slice()),
                rate: string_of(drop_marks(ws[i].as_slice())),
            };
            return Some(mode);
        }
        i = i + 1;
    }
    None
}

/// The current mode of every connected output, out of what the display tool
/// prints.
pub fn save_display_modes(text: &str) -> (r: Vec<DisplayMode>)
    ensures
        mode_views(r@) == modes_in(lines_of(text@), lines_of(text@).len() as int),
{
    let cs: Vec<char> = chars(text);
    let ls: Vec<Vec<char>> = lines(cs.as_slice());
    let ghost views = char_views(ls@);
    let mut out: Vec<DisplayMode> = Vec::new();
    let mut current: Option<Vec<char>> = None;
    let mut i: usize = 0;
    assert(mode_views(out@) =~= Seq::empty());
    while i < ls.len()
        invariant
            i <= ls.len(),
            views == char_views(ls@),
            mode_views(out@) == modes_in(views, i as int),
            output_after(views, i as int) == (match current {
                Some(o) => Some(o@),
                None => None,
            }),
        decreases ls.len() - i,
    {
        let ghost before = mode_views(out@);
        assert(views[i as int] == ls@[i as int]@);
        let line: &[char] = ls[i].as_slice();
        if has_text(line, " connected") {
            let ws: Vec<Vec<char>> = words(line);
            current =
            if ws.len() > 0 {
                assert(char_views(ws@)[0] == ws@[0]@);
                Some(vstd::slice::slice_to_vec(ws[0].as_slice()))
            } else {
                None
            };
        } else {
            match &current {
                Some(output) => match parse_mode(output, line) {
                    Some(m) => {
                        out.push(m);
                        assert(mode_views(out@) =~= before.push(m@));
                    },
                    None => {},
                },
                None => {},
            }
        }
        i = i + 1;
    }
    out
}

/// The first word that looks like a geometry, from word `i` on.
pub open spec fn geometry(ws: Seq<Seq<char>>, i: int) -> Option<Seq<char>>
    decreases ws.len() - i,
{
    if i < 0 || i >= ws.len() {
        None
    } else if ws[i].contains('x') && ws[i].contains('+') {
        Some(ws[i])
    } else {
        geometry(ws, i + 1)
    }
}

/// Width and height of a geometry: two numbers around an `x`, before the first
/// plus sign.
pub open spec fn size_of_geometry(geo: Seq<char>) -> Option<(int, int)> {
    let dims = geo.take(run_before(geo, '+'));
    match index_from(dims, 'x', 0) {
        None => None,
        Some(x) => match (
            number_of(dims.take(x), 10, u32::MAX as nat),
            number_of(dims.skip(x + 1), 10, u32::MAX as nat),
        ) {
            (Some(w), Some(h)) => Some((w as int, h as int)),
            _ => None,
        },
    }
}

/// Width and height that a line shows, if it is the primary output's.
pub open spec fn primary_of(line: Seq<char>) -> Option<(int, int)> {
    if names_output(line) && holds_text(line, " primary "@) {
        match geometry(words_of(line), 0) {
            Some(geo) => size_of_geometry(geo),
            None => None,
        }
    } else {
        None
    }
}

/// Width and height that the lines from `i` on show.
pub open spec fn primary_from(ls: Seq<Seq<char>>, i: int) -> Option<(int, int)>
    decreases ls.len() - i,
{
    if i < 0 || i >= ls.len() {
        None
    } else {
        match primary_of(ls[i]) {
            Some(x) => Some(x),
            None => primary_from(ls, i + 1),
        }
    }
}

/// Width and height of a geometry.
fn parse_geometry(geo: &[char]) -> (r: Option<(u32, u32)>)
    ensures
        match r {
            Some((w, h)) => size_of_geometry(geo@) == Some((w as int, h as int)),
            None => size_of_geometry(geo@) is None,
        },
{
    let n: usize = count_before(geo, '+');
    let dims: &[char] = vstd::slice::slice_subrange(geo, 0, n);
    assert(dims@ =~= geo@.take(n as int));
    let x: usize = match index_of(dims, 'x', 0) {
        None => {
            return None;
        },
        Some(x) => x,
    };
    let left: &[char] = vstd::slice::slice_subrange(dims, 0, x);
    let right: &[char] = vstd::slice::slice_subrange(dims, x + 1, n);
    assert(left@ =~= dims@.take(x as int));
    assert(right@ =~= dims@.skip(x + 1));
    match (
        parse_number(left, 10, u32::MAX as u64),
        parse_number(right, 10, u32::MAX as u64),
    ) {
        (Some(w), Some(h)) => Some((w as u32, h as u32)),
        _ => None,
    }
}

/// The size of the primary output, out of what the display tool prints.
pub fn primary_resolution(text: &str) -> (r: Option<(u32, u32)>)
    ensures
        match r {
            Some((w, h)) => primary_from(lines_of(text@), 0) == Some((w as int, h as int)),
            None => primary_from(lines_of(text@), 0) is None,
        },
{
    let cs: Vec<char> = chars(text);
    let ls: Vec<Vec<char>> = lines(cs.as_slice());
    let ghost views = char_views(ls@);
    let mut i: usize = 0;
    while i < ls.len()
        invariant
            i <= ls.len(),
            views == char_views(ls@),
            primary_from(lines_of(text@), 0) == primary_from(views, i as int),
        decreases ls.len() - i,
    {
        assert(views[i as int] == ls@[i as int]@);
        let line: &[char] = ls[i].as_slice();
        if has_text(line, " connected") && has_text(line, " primary ") {
            let ws: Vec<Vec<char>> = words(line);
            let ghost wv = char_views(ws@);
            let mut k: usize = 0;
            let mut size: Option<(u32, u32)> = None;
            let mut more: bool = true;
            while more && k < ws.len()
                invariant
                    k <= ws.len(),
                    wv == char_views(ws@),
                    wv == words_of(line@),
                    more ==> geometry(wv, 0) == geometry(wv, k as int) && size is None,
                    !more ==> match geometry(wv, 0) {
                        Some(geo) => match size {
                            Some((w, h)) => size_of_geometry(geo) == Some((w as int, h as int)),
                            None => size_of_geometry(geo) is None,
                        },
                        None => false,
                    },
                decreases
                        (if more {
                            ws.len() - k + 1
                        } else {
                            0
                        }),
            {
                assert(wv[k as int] == ws@[k as int]@);
                if has_char(ws[k].as_slice(), 'x') && has_char(ws[k].as_slice(), '+') {
                    size = parse_geometry(ws[k].as_slice());
                    more = false;
                } else {
                    k = k + 1;
                }
            }
            if size.is_some() {
                return size;
            }
        }
        i = i + 1;
    }
    None
}

/// How the game is started.
pub struct LaunchOptions {
    /// Exclusive fullscreen, in place of a borderless window.
    pub fullscreen: bool,
    /// The refresh rate in fullscreen; `off` asks for none.
    pub freq: Option<String>,
    /// The size of the primary output.
    pub size: Option<(u32, u32)>,
    /// Whether raw-input mode 2 is not asked for.
    pub keep_rawinput: bool,
}

/// The arguments of the display mode.
pub open spec fn display_args(o: LaunchOptions) -> Seq<Seq<char>> {
    if o.fullscreen {
        match o.freq {
            Some(rate) => if rate@ == "off"@ {
                Seq::empty()
            } else {
                seq!["-freq"@, rate@]
            },
            None => seq!["-freq"@, "144"@],
        }
    } else {
        seq!["-windowed"@, "-noborder"@] + (match o.size {
            Some((w, h)) => seq!["-w"@, dec_text(w as int), "-h"@, dec_text(h as int)],
            None => Seq::empty(),
        })
    }
}

/// The arguments that the game is started with: it is always started with
/// `-insecure`.
pub open spec fn launch_args(o: LaunchOptions) -> Seq<Seq<char>> {
    seq!["-game"@, "cstrike"@, "-insecure"@, "-novid"@] + display_args(o) + (if o.keep_rawinput {
        Seq::empty()
    } else {
        seq!["+m_rawinput"@, "2"@]
    })
}

/// Adds a text to a list.
fn add_arg(out: &mut Vec<String>, text: &str)
    ensures
        string_views(final(out)@) == string_views(old(out)@).push(text@),
{
    let copy: String = text.to_owned();
    out.push(copy);
    assert(string_views(out@) =~= string_views(old(out)@).push(text@));
}

/// The arguments that the game is started with.
pub fn launch_css(o: &LaunchOptions) -> (r: Vec<String>)
    ensures
        string_views(r@) == launch_args(*o),
{
    let mut out: Vec<String> = Vec::new();
    assert(string_views(out@) =~= Seq::empty());
    add_arg(&mut out, "-game");
    add_arg(&mut out, "cstrike");
    add_arg(&mut out, "-insecure");
    add_arg(&mut out, "-novid");
    let ghost base = string_views(out@);
    assert(base =~= seq!["-game"@, "cstrike"@, "-insecure"@, "-novid"@]);
    if o.fullscreen {
        match &o.freq {
            Some(rate) => {
                if !same_str(rate.as_str(), "off") {
                    add_arg(&mut out, "-freq");
                    add_arg(&mut out, rate.as_str());
                }
            },
            None => {
                add_arg(&mut out, "-freq");
                add_arg(&mut out, "144");
            },
        }
    } else {
        add_arg(&mut out, "-windowed");
        add_arg(&mut out, "-noborder");
        match o.size {
            Some((w, h)) => {
                let width: String = dec_string(w as u64);
                let height: String = dec_string(h as u64);
                add_arg(&mut out, "-w");
                add_arg(&mut out, width.as_str());
                add_arg(&mut out, "-h");
                add_arg(&mut out, height.as_str());
            },
            None => {},
        }
    }
    assert(string_views(out@) =~= base + display_args(*o));
    if !o.keep_rawinput {
        add_arg(&mut out, "+m_rawinput");
        add_arg(&mut out, "2");
    }
    assert(string_views(out@) =~= launch_args(*o));
    out
}

/// However it is started, the game gets `-insecure`.
pub proof fn always_launched_insecure(o: LaunchOptions)
    ensures
        launch_args(o).contains("-insecure"@),
{
    assert(launch_args(o)[2] == "-insecure"@);
}

/// The library of the Steam overlay.
pub const OVERLAY: &'static str = "gameoverlayrenderer.so";

/// The file name of a path: its last piece that is neither empty nor a dot.
pub open spec fn file_name(ps: Seq<Seq<char>>, n: int) -> Option<Seq<char>>
    decreases n,
{
    if n <= 0 {
        None
    } else if ps[n - 1].len() == 0 || ps[n - 1] == seq!['.'] {
        file_name(ps, n - 1)
    } else {
        Some(ps[n - 1])
    }
}

/// The path is the overlay's: its file name is, whatever the directory.
pub open spec fn is_overlay(path: Seq<char>) -> bool {
    let ps = pieces(path, seq!['/']);
    file_name(ps, ps.len() as int) == Some(OVERLAY@)
}

/// The separators of a preload list.
pub open spec fn preload_separators() -> Seq<char> {
    seq![':', ' ', '\t']
}

/// The entries of a preload list that are kept, among the first `n`: all that
/// are not empty, but for the overlay, unless that is kept too.
pub open spec fn kept_entries(ps: Seq<Seq<char>>, keep_overlay: bool, n: int) -> Seq<Seq<char>>
    decreases n,
{
    if n <= 0 {
        Seq::empty()
    } else if ps[n - 1].len() == 0 || (!keep_overlay && is_overlay(ps[n - 1])) {
        kept_entries(ps, keep_overlay, n - 1)
    } else {
        kept_entries(ps, keep_overlay, n - 1).push(ps[n - 1])
    }
}

/// The entries of an inherited preload list that are kept.
pub open spec fn kept_preload(list: Seq<char>, keep_overlay: bool) -> Seq<Seq<char>> {
    let ps = pieces(list, preload_separators());
    kept_entries(ps, keep_overlay, ps.len() as int)
}

/// Whether a path is the overlay's.
fn overlay_path(path: &[char]) -> (r: bool)
    ensures
        r == is_overlay(path@),
{
    let seps: [char; 1] = ['/'];
    assert(seps@ =~= seq!['/']);
    let ps: Vec<Vec<char>> = split(path, &seps);
    let ghost views = char_views(ps@);
    let want: Vec<char> = chars(OVERLAY);
    let mut n: usize = ps.len();
    while n > 0
        invariant
            n <= ps.len(),
            want@ == OVERLAY@,
            views == char_views(ps@),
            views == pieces(path@, seq!['/']),
            file_name(views, views.len() as int) == file_name(views, n as int),
        decreases n,
    {
        assert(views[n - 1] == ps@[n - 1]@);
        let p: &Vec<char> = &ps[n - 1];
        let dot: bool = p.len() == 1 && p[0] == '.';
        assert(dot == (p@ == seq!['.'])) by {
            if p@.len() == 1 {
                assert(p@ =~= seq![p@[0]]);
            }
            if p@ == seq!['.'] {
                assert(p@[0] == '.');
            }
        }
        if p.len() != 0 && !dot {
            return same_chars(p.as_slice(), want.as_slice());
        }
        n = n - 1;
    }
    false
}

/// The entries of an inherited preload list that are kept.
pub fn keep_preload(list: &str, keep_overlay: bool) -> (r: Vec<String>)
    ensures
        string_views(r@) == kept_preload(list@, keep_overlay),
{
    let cs: Vec<char> = chars(list);
    let seps: [char; 3] = [':', ' ', '\t'];
    assert(seps@ =~= preload_separators());
    let ps: Vec<Vec<char>> = split(cs.as_slice(), &seps);
    let ghost views = char_views(ps@);
    let mut out: Vec<String> = Vec::new();
    let mut i: usize = 0;
    assert(string_views(out@) =~= Seq::empty());
    while i < ps.len()
        invariant
            i <= ps.len(),
            views == char_views(ps@),
            string_views(out@) == kept_entries(views, keep_overlay, i as int),
        decreases ps.len() - i,
    {
        let ghost before = string_views(out@);
        assert(views[i as int] == ps@[i as int]@);
        if ps[i].len() != 0 && (keep_overlay || !overlay_path(ps[i].as_slice())) {
            let text: String = string_of(ps[i].as_slice());
            out.push(text);
            assert(string_views(out@) =~= before.push(text@));
        }
        i = i + 1;
    }
    out
}

proof fn kept_entries_members(ps: Seq<Seq<char>>, keep_overlay: bool, n: int, x: Seq<char>)
    requires
        0 <= n <= ps.len(),
    ensures
        kept_entries(ps, keep_overlay, n).contains(x) <==> (exists|i: int|
            0 <= i < n && #[trigger] ps[i] == x) && x.len() > 0 && (keep_overlay || !is_overlay(
            x,
        )),
    decreases n,
{
    if n > 0 {
        kept_entries_members(ps, keep_overlay, n - 1, x);
        let all = kept_entries(ps, keep_overlay, n);
        let before = kept_entries(ps, keep_overlay, n - 1);
        if all.contains(x) {
            let i = choose|i: int| 0 <= i < all.len() && all[i] == x;
            if i < before.len() {
                assert(before[i] == x);
            } else {
                assert(ps[n - 1] == x);
            }
        }
        if before.contains(x) {
            let i = choose|i: int| 0 <= i < before.len() && before[i] == x;
            assert(all[i] == x);
        }
        if (exists|i: int| 0 <= i < n && #[trigger] ps[i] == x) && x.len() > 0 && (keep_overlay
            || !is_overlay(x)) {
            let i = choose|i: int| 0 <= i < n && #[trigger] ps[i] == x;
            if i == n - 1 {
                assert(all[before.len() as int] == x);
            } else {
                assert(ps[i] == x);
            }
        }
    }
}

/// Of an inherited preload list only the overlay is dropped: every other entry
/// stays, and with the option to keep it the overlay stays too.
pub proof fn only_the_overlay_is_dropped(list: Seq<char>, keep_overlay: bool, entry: Seq<char>)
    requires
        pieces(list, preload_separators()).contains(entry),
        entry.len() > 0,
    ensures
        kept_preload(list, keep_overlay).contains(entry) <==> keep_overlay || !is_overlay(entry),
{
    let ps = pieces(list, preload_separators());
    let i = choose|i: int| 0 <= i < ps.len() && ps[i] == entry;
    kept_entries_members(ps, keep_overlay, ps.len() as int, entry);
    assert(ps[i] == entry);
}

/// An entry that the loader would cut in pieces.
pub open spec fn is_cut(entry: Seq<char>) -> bool {
    entry.contains(' ') || entry.contains('\t')
}

/// The first entry that the loader would cut in pieces: it has a blank or a
/// tab, and the list knows no quotes.
pub fn cut_entry(parts: &[String]) -> (r: Option<usize>)
    ensures
        match r {
            Some(i) => i < parts@.len() && is_cut(parts@[i as int]@) && forall|j: int|
                0 <= j < i ==> !is_cut((#[trigger] parts@[j])@),
            None => forall|j: int| 0 <= j < parts@.len() ==> !is_cut((#[trigger] parts@[j])@),
        },
{
    let mut i: usize = 0;
    while i < parts.len()
        invariant
            i <= parts.len(),
            forall|j: int| 0 <= j < i ==> !is_cut((#[trigger] parts@[j])@),
        decreases parts.len() - i,
    {
        let cs: Vec<char> = chars(parts[i].as_str());
        if has_char(cs.as_slice(), ' ') || has_char(cs.as_slice(), '\t') {
            return Some(i);
        }
        i = i + 1;
    }
    None
}

/// The setting that keeps the frame queue short.
pub const DXVK_KEY: &'static str = "d3d9.maxFrameLatency";

pub const DXVK_SETTING: &'static str = "d3d9.maxFrameLatency = 1";

/// The configuration with the setting, unless it has the key already.
pub open spec fn with_setting(base: Seq<char>) -> Option<Seq<char>> {
    if holds_text(base, DXVK_KEY@) {
        None
    } else if base.len() > 0 && !ends_with(trim_end(base), seq![';']) {
        Some(base + "; "@ + DXVK_SETTING@)
    } else {
        Some(base + DXVK_SETTING@)
    }
}

/// The configuration with the setting, unless it has the key already.
pub fn dxvk_config(base: &str) -> (r: Option<String>)
    ensures
        match r {
            Some(s) => with_setting(base@) == Some(s@),
            None => with_setting(base@) is None,
        },
{
    let cs: Vec<char> = chars(base);
    if has_text(cs.as_slice(), DXVK_KEY) {
        return None;
    }
    let mut n: usize = cs.len();
    assert(cs@.take(n as int) =~= cs@);
    while n > 0 && white(cs[n - 1])
        invariant
            n <= cs.len(),
            trim_end(cs@) == trim_end(cs@.take(n as int)),
        decreases n,
    {
        assert(cs@.take(n as int).last() == cs@[n - 1]);
        assert(cs@.take(n as int).drop_last() =~= cs@.take(n - 1));
        n = n - 1;
    }
    let closed: bool = n > 0 && cs[n - 1] == ';';
    proof {
        let t = cs@.take(n as int);
        if n > 0 {
            assert(t.last() == cs@[n - 1]);
            assert(t.skip(n - 1) =~= seq![cs@[n - 1]]);
            assert(t.skip(n - 1)[0] == cs@[n - 1]);
            assert(seq![';'][0] == ';');
        }
        assert(closed == ends_with(t, seq![';']));
    }
    let mut out: String = base.to_owned();
    if cs.len() > 0 && !closed {
        out.append("; ");
    }
    out.append(DXVK_SETTING);
    Some(out)
}

/// What the user configured stays: the setting is only added behind it.
pub proof fn users_configuration_stays(base: Seq<char>)
    ensures
        with_setting(base) matches Some(s) ==> s.take(base.len() as int) == base,
        with_setting(base) is None <==> holds_text(base, DXVK_KEY@),
{
    if with_setting(base) is Some {
        assert((with_setting(base)->0).take(base.len() as int) =~= base);
    }
}

/// Whether the audio driver is pinned: nothing speaks against it, and its
/// server is there.
pub fn pin_audio(opted_out: bool, driver_set: bool, server_present: bool) -> (r: bool)
    ensures
        r == (!opted_out && !driver_set && server_present),
{
    !opted_out && !driver_set && server_present
}

proof fn run_before_is(s: Seq<char>, c: char, n: int)
    requires
        0 <= n <= s.len(),
        forall|i: int| 0 <= i < n ==> s[i] != c,
        n < s.len() ==> s[n] == c,
    ensures
        run_before(s, c) == n,
{
    if n < s.len() {
        first_character_is_found(s, c, 0, n);
    } else {
        absent_from(s, c, 0);
    }
}

proof fn absent_from(s: Seq<char>, c: char, i: int)
    requires
        0 <= i,
        forall|j: int| 0 <= j < s.len() ==> s[j] != c,
    ensures
        index_from(s, c, i) is None,
    decreases s.len() - i,
{
    if i < s.len() {
        absent_from(s, c, i + 1);
    }
}

/// What stands between the first two quotes is read.
pub proof fn quoted_text_is_read(before: Seq<char>, value: Seq<char>, rest: Seq<char>)
    requires
        !before.contains('"'),
        !value.contains('"'),
    ensures
        quoted(before + seq!['"'] + value + seq!['"'] + rest) == value,
        quoted(before + seq!['"'] + value) == value,
        quoted(before) == Seq::<char>::empty(),
{
    let s = before + seq!['"'] + value + seq!['"'] + rest;
    let t = before + seq!['"'] + value;
    let n = before.len() as int;
    assert forall|i: int| 0 <= i < n implies before[i] != '"' by {
        assert(before.contains(before[i]));
    }
    assert forall|i: int| 0 <= i < value.len() implies value[i] != '"' by {
        assert(value.contains(value[i]));
    }
    assert forall|i: int| 0 <= i < n implies s[i] != '"' && t[i] != '"' by {
        assert(s[i] == before[i] && t[i] == before[i]);
    }
    run_before_is(s, '"', n);
    run_before_is(t, '"', n);
    run_before_is(before, '"', n);
    let a = s.skip(n + 1);
    let b = t.skip(n + 1);
    assert(a =~= value + seq!['"'] + rest);
    assert(b =~= value);
    assert forall|i: int| 0 <= i < value.len() implies a[i] != '"' by {
        assert(a[i] == value[i]);
    }
    run_before_is(a, '"', value.len() as int);
    run_before_is(b, '"', value.len() as int);
    assert(a.take(value.len() as int) =~= value);
    assert(b.take(value.len() as int) =~= value);
}

/// Doubled backslashes become slashes, and nothing else changes.
pub proof fn backslashes_become_slashes(c: char, rest: Seq<char>)
    requires
        c != '\\',
    ensures
        slashed(seq![c] + rest) == seq![c] + slashed(rest),
        slashed(seq!['\\', '\\'] + rest) == seq!['/'] + slashed(rest),
        slashed(Seq::empty()) == Seq::<char>::empty(),
{
    let s = seq![c] + rest;
    assert(s[0] == c);
    assert(s.skip(1) =~= rest);
    let t = seq!['\\', '\\'] + rest;
    assert(t[0] == '\\' && t[1] == '\\');
    assert(t.skip(2) =~= rest);
}

/// A path without backslashes stays.
pub proof fn plain_paths_stay(s: Seq<char>)
    requires
        !s.contains('\\'),
    ensures
        slashed(s) == s,
    decreases s.len(),
{
    if s.len() > 0 {
        assert(s.contains(s[0]));
        let rest = s.skip(1);
        assert forall|c: char| rest.contains(c) implies s.contains(c) by {
            let i = choose|i: int| 0 <= i < rest.len() && rest[i] == c;
            assert(s[i + 1] == c);
        }
        plain_paths_stay(rest);
        assert(seq![s[0]] + rest =~= s);
    } else {
        assert(slashed(s) =~= s);
    }
}

/// A line that names a library gives the game's directory in it.
pub proof fn a_library_is_read(before: Seq<char>, gap: Seq<char>, value: Seq<char>, rest: Seq<char>)
    requires
        !before.contains('"'),
        !gap.contains('"'),
        !value.contains('"'),
        value.len() > 0,
    ensures
        library_of(
            before + "\"path\""@ + gap + seq!['"'] + value + seq!['"'] + rest,
        ) == Some(slashed(value) + "/steamapps/common/Counter-Strike Source"@),
        library_of(before) is None,
{
    reveal_strlit("\"path\"");
    let key = "\"path\""@;
    let s = before + key + gap + seq!['"'] + value + seq!['"'] + rest;
    let n = before.len() as int;
    assert(s.subrange(n, n + 6) =~= key);
    assert(text_at(s, key, n));
    assert forall|i: int| 0 <= i < n implies before[i] != '"' by {
        assert(before.contains(before[i]));
    }
    assert forall|j: int| 0 <= j < n implies !text_at(s, key, j) by {
        if text_at(s, key, j) {
            assert(s.subrange(j, j + 6)[0] == key[0]);
            assert(s[j] == before[j]);
        }
    }
    let at = choose|i: int|
        text_at(s, PATH_KEY@, i) && forall|j: int| 0 <= j < i ==> !text_at(s, PATH_KEY@, j);
    assert(at == n) by {
        if at < n {
            assert(!text_at(s, key, at));
        }
        if n < at {
            assert(!text_at(s, PATH_KEY@, n));
        }
    }
    assert(s.skip(n + 6) =~= gap + seq!['"'] + value + seq!['"'] + rest);
    quoted_text_is_read(gap, value, rest);
    if exists|i: int| text_at(before, PATH_KEY@, i) {
        let i = choose|i: int| text_at(before, PATH_KEY@, i);
        assert(before.subrange(i, i + 6)[0] == key[0]);
        assert(before[i] == '"');
    }
}

/// Every line that names a library counts, in order.
pub proof fn every_library_counts(ls: Seq<Seq<char>>, n: int)
    requires
        0 < n <= ls.len(),
    ensures
        library_of(ls[n - 1]) matches Some(p) ==> libraries_in(ls, n) == libraries_in(
            ls,
            n - 1,
        ).push(p),
        library_of(ls[n - 1]) is None ==> libraries_in(ls, n) == libraries_in(ls, n - 1),
{
}

/// The marks behind a rate are not part of it.
pub proof fn marks_are_dropped(rate: Seq<char>, marks: Seq<char>)
    requires
        rate.len() > 0 ==> rate.last() != '*' && rate.last() != '+',
        forall|i: int| 0 <= i < marks.len() ==> #[trigger] marks[i] == '*' || marks[i] == '+',
    ensures
        unmarked(rate + marks) == rate,
    decreases marks.len(),
{
    if marks.len() == 0 {
        assert(rate + marks =~= rate);
    } else {
        assert((rate + marks).last() == marks.last());
        assert(marks[marks.len() - 1] == marks.last());
        assert((rate + marks).drop_last() =~= rate + marks.drop_last());
        marks_are_dropped(rate, marks.drop_last());
    }
}

/// The current mode of an output is the line's first word, with the first rate
/// behind it that has a star.
pub proof fn the_current_mode_is_shown(output: Seq<char>, line: Seq<char>, k: int)
    requires
        line.len() > 0,
        line[0] == ' ',
        1 <= k < words_of(line).len(),
        words_of(line)[k].contains('*'),
        forall|j: int| 1 <= j < k ==> !(#[trigger] words_of(line)[j]).contains('*'),
    ensures
        mode_of(Some(output), line) == Some(
            ModeView {
                output,
                mode: words_of(line)[0],
                rate: unmarked(words_of(line)[k]),
            },
        ),
        mode_of(None, line) is None,
{
    starred_is(words_of(line), 1, k);
}

proof fn starred_is(ws: Seq<Seq<char>>, i: int, k: int)
    requires
        1 <= i <= k < ws.len(),
        ws[k].contains('*'),
        forall|j: int| 1 <= j < k ==> !(#[trigger] ws[j]).contains('*'),
    ensures
        starred(ws, i) == Some(ws[k]),
    decreases k - i,
{
    if i < k {
        assert(!ws[i].contains('*'));
        starred_is(ws, i + 1, k);
    }
}

/// A geometry gives its width and its height.
pub proof fn a_geometry_gives_its_size(w: u32, h: u32, rest: Seq<char>)
    ensures
        size_of_geometry(
            dec_text(w as int) + seq!['x'] + dec_text(h as int) + seq!['+'] + rest,
        ) == Some((w as int, h as int)),
{
    let a = dec_text(w as int);
    let b = dec_text(h as int);
    let s = a + seq!['x'] + b + seq!['+'] + rest;
    numbers_are_read_back(w as nat, 10);
    numbers_are_read_back(h as nat, 10);
    plain_digits(w as nat);
    plain_digits(h as nat);
    let n = (a.len() + 1 + b.len()) as int;
    let dims = a + seq!['x'] + b;
    assert forall|i: int| 0 <= i < n implies s[i] != '+' by {
        if i < a.len() {
            assert(s[i] == a[i]);
        } else if i > a.len() {
            assert(s[i] == b[i - a.len() - 1]);
        }
    }
    assert(s[n] == '+');
    run_before_is(s, '+', n);
    assert(s.take(n) =~= dims);
    assert forall|i: int| 0 <= i < a.len() implies dims[i] != 'x' by {
        assert(dims[i] == a[i]);
    }
    assert(dims[a.len() as int] == 'x');
    first_character_is_found(dims, 'x', 0, a.len() as int);
    assert(dims.take(a.len() as int) =~= a);
    assert(dims.skip(a.len() as int + 1) =~= b);
}

proof fn plain_digits(n: nat)
    ensures
        forall|i: int|
            0 <= i < number_text(n, 10).len() ==> '0' <= #[trigger] number_text(n, 10)[i] <= '9',
    decreases n,
{
    if n >= 10 {
        plain_digits(n / 10);
        let t = number_text(n, 10);
        let u = number_text(n / 10, 10);
        assert forall|i: int| 0 <= i < t.len() implies '0' <= #[trigger] t[i] <= '9' by {
            if i < u.len() {
                assert(t[i] == u[i]);
            }
        }
    }
}

/// The first line that shows the primary output's size counts.
pub proof fn the_primary_output_counts(ls: Seq<Seq<char>>, i: int)
    requires
        0 <= i < ls.len(),
        primary_of(ls[i]) is Some,
        forall|j: int| 0 <= j < i ==> primary_of(#[trigger] ls[j]) is None,
    ensures
        primary_from(ls, 0) == primary_of(ls[i]),
{
    primary_is(ls, 0, i);
}

proof fn primary_is(ls: Seq<Seq<char>>, from: int, i: int)
    requires
        0 <= from <= i < ls.len(),
        primary_of(ls[i]) is Some,
        forall|j: int| 0 <= j < i ==> primary_of(#[trigger] ls[j]) is None,
    ensures
        primary_from(ls, from) == primary_of(ls[i]),
    decreases i - from,
{
    if from < i {
        assert(primary_of(ls[from]) is None);
        primary_is(ls, from + 1, i);
    }
}

/// What the options ask for stands in the arguments, an option and its value
/// side by side.
pub open spec fn asks(args: Seq<Seq<char>>, name: Seq<char>, value: Seq<char>) -> bool {
    exists|i: int|
        0 <= i && i + 1 < args.len() && #[trigger] args[i] == name && args[i + 1] == value
}

/// The game is started as Counter-Strike, in raw-input mode 2 unless that is
/// left alone, in a borderless window of the output's size, or in fullscreen at
/// the rate that was chosen or at 144.
pub proof fn the_game_starts_as_asked(o: LaunchOptions)
    ensures
        asks(launch_args(o), "-game"@, "cstrike"@),
        !o.keep_rawinput ==> asks(launch_args(o), "+m_rawinput"@, "2"@),
        o.keep_rawinput ==> launch_args(o).len() == 4 + display_args(o).len(),
        !o.fullscreen ==> asks(launch_args(o), "-windowed"@, "-noborder"@),
        !o.fullscreen && o.size is Some ==> asks(
            launch_args(o),
            "-w"@,
            dec_text((o.size->0).0 as int),
        ) && asks(launch_args(o), "-h"@, dec_text((o.size->0).1 as int)),
        o.fullscreen && o.freq is None ==> asks(launch_args(o), "-freq"@, "144"@),
        o.fullscreen && o.freq is Some && o.freq->0@ != "off"@ ==> asks(
            launch_args(o),
            "-freq"@,
            o.freq->0@,
        ),
        o.fullscreen && o.freq is Some && o.freq->0@ == "off"@ ==> display_args(o).len() == 0,
{
    let a = launch_args(o);
    let d = display_args(o);
    assert(a[0] == "-game"@ && a[1] == "cstrike"@);
    assert forall|i: int| 0 <= i < d.len() implies a[4 + i] == #[trigger] d[i] by {}
    if !o.keep_rawinput {
        let n = 4 + d.len() as int;
        assert(a[n] == "+m_rawinput"@ && a[n + 1] == "2"@);
    }
    if !o.fullscreen {
        assert(d[0] == "-windowed"@ && d[1] == "-noborder"@);
        assert(a[4] == d[0] && a[5] == d[1]);
        if o.size is Some {
            assert(d[2] == "-w"@ && d[4] == "-h"@);
            assert(a[6] == d[2] && a[7] == d[3] && a[8] == d[4] && a[9] == d[5]);
        }
    } else if d.len() > 0 {
        assert(a[4] == d[0] && a[5] == d[1]);
    }
}

/// The overlay is known by its file name in any directory.
pub proof fn the_overlay_is_known(dir: Seq<char>)
    ensures
        is_overlay("gameoverlayrenderer.so"@),
        is_overlay(dir + seq!['/'] + "gameoverlayrenderer.so"@),
{
    let name = "gameoverlayrenderer.so"@;
    reveal_strlit("gameoverlayrenderer.so");
    let seps = seq!['/'];
    assert(seps.contains('/')) by {
        assert(seps[0] == '/');
    }
    assert forall|i: int| 0 <= i < name.len() implies !seps.contains(#[trigger] name[i]) by {
        assert(name[i] != '/');
    }
    pieces_are_split_off(name, '/', Seq::empty(), seps);
    let ps = pieces(name, seps);
    assert(ps[0] == name);
    last_piece(dir, name, seps);
}

proof fn last_piece(dir: Seq<char>, name: Seq<char>, seps: Seq<char>)
    requires
        seps == seq!['/'],
        seps.contains('/'),
        name.len() > 1,
        forall|i: int| 0 <= i < name.len() ==> !seps.contains(#[trigger] name[i]),
    ensures
        pieces(dir + seq!['/'] + name, seps).len() > 0,
        pieces(dir + seq!['/'] + name, seps).last() == name,
        file_name(
            pieces(dir + seq!['/'] + name, seps),
            pieces(dir + seq!['/'] + name, seps).len() as int,
        ) == Some(name),
    decreases dir.len(),
{
    let s = dir + seq!['/'] + name;
    let n = piece_len(dir, seps) as int;
    piece_len_bound(dir, seps);
    let first = dir.take(n);
    assert forall|i: int| 0 <= i < first.len() implies !seps.contains(#[trigger] first[i]) by {
        assert(first[i] == dir[i]);
    }
    if n == dir.len() {
        assert(first =~= dir);
        pieces_are_split_off(dir, '/', name, seps);
        pieces_are_split_off(name, '/', Seq::empty(), seps);
        assert(pieces(s, seps).last() == name);
    } else {
        let rest = dir.skip(n + 1);
        assert(dir[n] == '/') by {
            let k = choose|k: int| 0 <= k < seps.len() && seps[k] == dir[n];
        }
        assert(s =~= first + seq!['/'] + (rest + seq!['/'] + name));
        pieces_are_split_off(first, '/', rest + seq!['/'] + name, seps);
        last_piece(rest, name, seps);
        assert(pieces(s, seps).last() == pieces(rest + seq!['/'] + name, seps).last());
    }
    let ps = pieces(s, seps);
    assert(ps[ps.len() - 1] == name);
}

proof fn piece_len_bound(s: Seq<char>, seps: Seq<char>)
    ensures
        piece_len(s, seps) <= s.len(),
        forall|i: int| 0 <= i < piece_len(s, seps) ==> !seps.contains(#[trigger] s[i]),
        piece_len(s, seps) < s.len() ==> seps.contains(s[piece_len(s, seps) as int]),
    decreases s.len(),
{
    if s.len() > 0 && !seps.contains(s[0]) {
        piece_len_bound(s.drop_first(), seps);
        assert forall|i: int| 0 <= i < piece_len(s, seps) implies !seps.contains(
            #[trigger] s[i],
        ) by {
            if i > 0 {
                assert(s[i] == s.drop_first()[i - 1]);
            }
        }
    }
}

/// The setting is added where the user has none, behind what they have.
pub proof fn the_setting_is_added(base: Seq<char>)
    requires
        !holds_text(base, "d3d9.maxFrameLatency"@),
    ensures
        with_setting(base) matches Some(s) && ends_with(s, "d3d9.maxFrameLatency = 1"@),
        with_setting(Seq::empty()) == Some("d3d9.maxFrameLatency = 1"@),
{
    let t = DXVK_SETTING@;
    assert((base + t).skip((base + t).len() - t.len()) =~= t);
    let sep = "; "@;
    assert((base + sep + t).skip((base + sep + t).len() - t.len()) =~= t);
    assert(Seq::<char>::empty() + t =~= t);
    reveal_strlit("d3d9.maxFrameLatency");
    let none = Seq::<char>::empty();
    assert forall|i: int| !text_at(none, DXVK_KEY@, i) by {}
}

/// Every current mode is remembered, in order, with the output above it.
pub proof fn every_mode_is_remembered(ls: Seq<Seq<char>>, n: int)
    requires
        0 < n <= ls.len(),
    ensures
        names_output(ls[n - 1]) && words_of(ls[n - 1]).len() > 0 ==> output_after(ls, n) == Some(
            words_of(ls[n - 1])[0],
        ) && modes_in(ls, n) == modes_in(ls, n - 1),
        !names_output(ls[n - 1]) ==> output_after(ls, n) == output_after(ls, n - 1),
        !names_output(ls[n - 1]) && mode_of(output_after(ls, n - 1), ls[n - 1]) is Some ==> modes_in(
            ls,
            n,
        ) == modes_in(ls, n - 1).push(mode_of(output_after(ls, n - 1), ls[n - 1])->0),
        !names_output(ls[n - 1]) && mode_of(output_after(ls, n - 1), ls[n - 1]) is None ==> modes_in(
            ls,
            n,
        ) == modes_in(ls, n - 1),
{
}

/// The game is looked for where Steam itself is, and then in its libraries.
pub proof fn steam_is_looked_at_first(home: Seq<char>, vdfs: Seq<Seq<char>>, n: int)
    requires
        0 < n <= vdfs.len(),
    ensures
        dirs_of(home, vdfs)[0] == home + "/.local/share/Steam"@
            + "/steamapps/common/Counter-Strike Source"@,
        dirs_of(home, vdfs)[1] == home + "/.steam/steam"@
            + "/steamapps/common/Counter-Strike Source"@,
        dirs_of(home, vdfs)[2] == home + "/.steam/root"@
            + "/steamapps/common/Counter-Strike Source"@,
        dirs_of(home, vdfs).skip(3) == listed_dirs(vdfs, vdfs.len() as int),
        listed_dirs(vdfs, n) == listed_dirs(vdfs, n - 1) + libraries_in(
            lines_of(vdfs[n - 1]),
            lines_of(vdfs[n - 1]).len() as int,
        ),
{
    assert(dirs_of(home, vdfs).skip(3) =~= listed_dirs(vdfs, vdfs.len() as int));
}

} // verus!
