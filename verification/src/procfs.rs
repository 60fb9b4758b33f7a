//! What the proc file system says of a process: its mappings, its arguments,
//! its name and its parent.
use vstd::prelude::*;
use vstd::utf8::{encode_utf8, is_ascii_chars_encode_utf8};

use crate::bytes::same_bytes;
use crate::phrase::{
    case_is_ignored, eq_ignore_case, has_char, has_text, holds_text, join_by, joined_by, lower_char,
    only_capitals_are_lowered, pieces, pieces_are_split_off, same_but_case, split, trim, trimmed,
    trimming_takes_the_space_around,
};
use crate::text::{
    char_views, chars, dec_text, ends_with, first_character_is_found, hex_text, index_from, index_of,
    is_white, lines, lines_of, number_of, number_text, numbers_are_read_back, parse_number, same_chars,
    string_of, words, words_of,
};

verus! {

/// One mapping of a process.
pub struct Mapping {
    pub start: u64,
    pub end: u64,
    pub offset: u64,
    pub perms: Vec<char>,
    pub path: Vec<char>,
}

/// The value of a `Mapping`.
#[verifier::ext_equal]
pub struct MappingView {
    pub start: int,
    pub end: int,
    pub offset: int,
    pub perms: Seq<char>,
    pub path: Seq<char>,
}

impl View for Mapping {
    type V = MappingView;

    open spec fn view(&self) -> MappingView {
        MappingView {
            start: self.start as int,
            end: self.end as int,
            offset: self.offset as int,
            perms: self.perms@,
            path: self.path@,
        }
    }
}

/// The values of a list of mappings.
pub open spec fn mapping_views(v: Seq<Mapping>) -> Seq<MappingView> {
    Seq::new(v.len(), |i: int| v[i]@)
}

/// The two hexadecimal numbers around the first dash.
pub open spec fn range_of(word: Seq<char>) -> Option<(int, int)> {
    match index_from(word, '-', 0) {
        None => None,
        Some(d) => match (
            number_of(word.take(d), 16, u64::MAX as nat),
            number_of(word.skip(d + 1), 16, u64::MAX as nat),
        ) {
            (Some(s), Some(e)) => Some((s as int, e as int)),
            _ => None,
        },
    }
}

/// The mapping that a line describes: range, permissions, offset, device,
/// inode, and a path that may hold spaces.
pub open spec fn mapping_of(line: Seq<char>) -> Option<MappingView> {
    let ws = words_of(line);
    if ws.len() < 5 {
        None
    } else {
        match (number_of(ws[2], 16, u64::MAX as nat), range_of(ws[0])) {
            (Some(offset), Some((start, end))) => Some(
                MappingView {
                    start,
                    end,
                    offset: offset as int,
                    perms: ws[1],
                    path: joined_by(ws.skip(5), seq![' ']),
                },
            ),
            _ => None,
        }
    }
}

/// The mappings that the first `n` lines describe. Other lines are passed
/// over.
pub open spec fn mappings_in(ls: Seq<Seq<char>>, n: int) -> Seq<MappingView>
    decreases n,
{
    if n <= 0 {
        Seq::empty()
    } else {
        match mapping_of(ls[n - 1]) {
            Some(m) => mappings_in(ls, n - 1).push(m),
            None => mappings_in(ls, n - 1),
        }
    }
}

/// Reads the two hexadecimal numbers around the first dash.
fn parse_range(word: &[char]) -> (r: Option<(u64, u64)>)
    ensures
        match r {
            Some((s, e)) => range_of(word@) == Some((s as int, e as int)),
            None => range_of(word@) is None,
        },
{
    let size: usize = word.len();
    let d: usize = match index_of(word, '-', 0) {
        None => {
            return None;
        },
        Some(d) => d,
    };
    let left: &[char] = vstd::slice::slice_subrange(word, 0, d);
    let right: &[char] = vstd::slice::slice_subrange(word, d + 1, size);
    assert(left@ =~= word@.take(d as int));
    assert(right@ =~= word@.skip(d + 1));
    match (parse_number(left, 16, u64::MAX), parse_number(right, 16, u64::MAX)) {
        (Some(s), Some(e)) => Some((s, e)),
        _ => None,
    }
}

/// Reads one line of the mappings.
fn parse_mapping(line: &[char]) -> (r: Option<Mapping>)
    ensures
        match r {
            Some(m) => mapping_of(line@) == Some(m@),
            None => mapping_of(line@) is None,
        },
{
    let ws: Vec<Vec<char>> = words(line);
    let ghost views = char_views(ws@);
    if ws.len() < 5 {
        return None;
    }
    assert(views[0] == ws@[0]@ && views[1] == ws@[1]@ && views[2] == ws@[2]@);
    let offset: u64 = match parse_number(ws[2].as_slice(), 16, u64::MAX) {
        None => {
            return None;
        },
        Some(o) => o,
    };
    let (start, end) = match parse_range(ws[0].as_slice()) {
        None => {
            return None;
        },
        Some(x) => x,
    };
    let tail: &[Vec<char>] = vstd::slice::slice_subrange(ws.as_slice(), 5, ws.len());
    assert(char_views(tail@) =~= views.skip(5));
    proof {
        reveal_strlit(" ");
        assert(" "@ =~= seq![' ']);
    }
    let path: Vec<char> = join_by(tail, " ");
    let perms: Vec<char> = vstd::slice::slice_to_vec(ws[1].as_slice());
    Some(Mapping { start, end, offset, perms, path })
}

/// Reads the mappings of a process. Lines that do not describe one are passed
/// over.
pub fn parse_maps(text: &str) -> (r: Vec<Mapping>)
    ensures
        mapping_views(r@) == mappings_in(lines_of(text@), lines_of(text@).len() as int),
{
    let cs: Vec<char> = chars(text);
    let ls: Vec<Vec<char>> = lines(cs.as_slice());
    let ghost views = char_views(ls@);
    let mut out: Vec<Mapping> = Vec::new();
    let mut i: usize = 0;
    assert(mapping_views(out@) =~= Seq::empty());
    while i < ls.len()
        invariant
            i <= ls.len(),
            views == char_views(ls@),
            mapping_views(out@) == mappings_in(views, i as int),
        decreases ls.len() - i,
    {
        let ghost before = mapping_views(out@);
        assert(views[i as int] == ls@[i as int]@);
        match parse_mapping(ls[i].as_slice()) {
            Some(m) => {
                out.push(m);
                assert(mapping_views(out@) =~= before.push(m@));
            },
            None => {},
        }
        i = i + 1;
    }
    out
}

/// The mapping starts a file with this ending.
pub open spec fn is_base(m: MappingView, needle: Seq<char>) -> bool {
    ends_with(m.path, needle) && m.offset == 0
}

/// Whether characters end with others.
fn chars_end_with(s: &[char], tail: &[char]) -> (r: bool)
    ensures
        r == ends_with(s@, tail@),
{
    if tail.len() > s.len() {
        return false;
    }
    let part: &[char] = vstd::slice::slice_subrange(s, s.len() - tail.len(), s.len());
    assert(part@ =~= s@.skip(s@.len() - tail@.len()));
    same_chars(part, tail)
}

/// Where a loaded module starts, and its file: the first mapping at offset
/// zero whose path has this ending.
pub fn module_base(maps: &[Mapping], needle: &str) -> (r: Option<(u64, String)>)
    ensures
        match r {
            Some((start, path)) => exists|i: int|
                0 <= i < maps@.len() && is_base((#[trigger] maps@[i])@, needle@) && start
                    == maps@[i].start && path@ == maps@[i].path@ && forall|j: int|
                    0 <= j < i ==> !is_base((#[trigger] maps@[j])@, needle@),
            None => forall|j: int|
                0 <= j < maps@.len() ==> !is_base((#[trigger] maps@[j])@, needle@),
        },
{
    let tail: Vec<char> = chars(needle);
    let mut i: usize = 0;
    while i < maps.len()
        invariant
            i <= maps.len(),
            tail@ == needle@,
            forall|j: int| 0 <= j < i ==> !is_base((#[trigger] maps@[j])@, needle@),
        decreases maps.len() - i,
    {
        if chars_end_with(maps[i].path.as_slice(), tail.as_slice()) && maps[i].offset == 0 {
            return Some((maps[i].start, string_of(maps[i].path.as_slice())));
        }
        i = i + 1;
    }
    None
}

/// The address lies in the mapping.
pub open spec fn maps_addr(m: MappingView, addr: int) -> bool {
    m.start <= addr < m.end
}

/// An address that is mapped as code.
pub open spec fn in_code(maps: Seq<MappingView>, addr: int) -> bool {
    exists|i: int|
        0 <= i < maps.len() && (#[trigger] maps[i]).perms.contains('x') && maps_addr(maps[i], addr)
}

/// An address that is mapped writable.
pub open spec fn in_writable(maps: Seq<MappingView>, addr: int) -> bool {
    exists|i: int|
        0 <= i < maps.len() && (#[trigger] maps[i]).perms.contains('w') && maps_addr(maps[i], addr)
}

/// Whether an address lies in a mapping with this permission.
fn permitted(maps: &[Mapping], c: char, addr: u64) -> (r: bool)
    ensures
        r == exists|i: int|
            0 <= i < mapping_views(maps@).len() && (#[trigger] mapping_views(
                maps@,
            )[i]).perms.contains(c) && maps_addr(mapping_views(maps@)[i], addr as int),
{
    let ghost views = mapping_views(maps@);
    let mut i: usize = 0;
    while i < maps.len()
        invariant
            i <= maps.len(),
            views == mapping_views(maps@),
            forall|j: int|
                0 <= j < i ==> !((#[trigger] views[j]).perms.contains(c) && maps_addr(
                    views[j],
                    addr as int,
                )),
        decreases maps.len() - i,
    {
        assert(views[i as int] == maps@[i as int]@);
        if has_char(maps[i].perms.as_slice(), c) && maps[i].start <= addr && addr < maps[i].end {
            return true;
        }
        i = i + 1;
    }
    false
}

/// Whether an address is mapped as code.
pub fn is_code(maps: &[Mapping], addr: u64) -> (r: bool)
    ensures
        r == in_code(mapping_views(maps@), addr as int),
{
    permitted(maps, 'x', addr)
}

/// Whether an address is mapped writable.
pub fn is_writable(maps: &[Mapping], addr: u64) -> (r: bool)
    ensures
        r == in_writable(mapping_views(maps@), addr as int),
{
    permitted(maps, 'w', addr)
}

/// An executable mapping of the client, by its line.
pub open spec fn is_client_line(line: Seq<char>) -> bool {
    holds_text(line, "/client.so"@) && holds_text(line, "r-xp"@)
}

/// The union of the client's executable mappings in the first `n` lines. An
/// outer `None` says that such a line could not be read, an inner one that
/// there is none.
pub open spec fn client_span(ls: Seq<Seq<char>>, n: int) -> Option<Option<(int, int)>>
    decreases n,
{
    if n <= 0 {
        Some(None)
    } else {
        let before = client_span(ls, n - 1);
        let line = ls[n - 1];
        if !is_client_line(line) || before is None {
            before
        } else {
            let ws = words_of(line);
            if ws.len() == 0 {
                None
            } else {
                match range_of(ws[0]) {
                    None => None,
                    Some((s, e)) => match before->0 {
                        None => Some(Some((s, e))),
                        Some((lo, hi)) => Some(
                            Some(
                                (
                                    if s < lo {
                                        s
                                    } else {
                                        lo
                                    },
                                    if e > hi {
                                        e
                                    } else {
                                        hi
                                    },
                                ),
                            ),
                        ),
                    },
                }
            }
        }
    }
}

proof fn client_span_stays_lost(ls: Seq<Seq<char>>, i: int, n: int)
    requires
        i <= n,
        client_span(ls, i) is None,
    ensures
        client_span(ls, n) is None,
    decreases n - i,
{
    if i < n {
        client_span_stays_lost(ls, i, n - 1);
    }
}

/// The executable span of the client: from the first byte of its executable
/// mappings to behind the last. Patches split the mapping into fragments, so
/// the union counts.
pub fn client_so_region(text: &str) -> (r: Option<(u64, u64)>)
    ensures
        ({
            let ls = lines_of(text@);
            match client_span(ls, ls.len() as int) {
                Some(Some((lo, hi))) => r == Some((lo as u64, hi as u64)) && 0 <= lo <= u64::MAX
                    && 0 <= hi <= u64::MAX,
                _ => r is None,
            }
        }),
{
    let cs: Vec<char> = chars(text);
    let ls: Vec<Vec<char>> = lines(cs.as_slice());
    let ghost views = char_views(ls@);
    let mut found: Option<(u64, u64)> = None;
    let mut i: usize = 0;
    while i < ls.len()
        invariant
            i <= ls.len(),
            views == char_views(ls@),
            views == lines_of(text@),
            client_span(views, i as int) == Some(
                match found {
                    Some((lo, hi)) => Some((lo as int, hi as int)),
                    None => None,
                },
            ),
        decreases ls.len() - i,
    {
        assert(views[i as int] == ls@[i as int]@);
        let line: &[char] = ls[i].as_slice();
        if has_text(line, "/client.so") && has_text(line, "r-xp") {
            let ws: Vec<Vec<char>> = words(line);
            if ws.len() == 0 {
                proof {
                    assert(client_span(views, i + 1) is None);
                    client_span_stays_lost(views, i + 1, views.len() as int);
                }
                return None;
            }
            assert(char_views(ws@)[0] == ws@[0]@);
            match parse_range(ws[0].as_slice()) {
                None => {
                    proof {
                        assert(client_span(views, i + 1) is None);
                        client_span_stays_lost(views, i + 1, views.len() as int);
                    }
                    return None;
                },
                Some((s, e)) => {
                    found =
                    match found {
                        None => Some((s, e)),
                        Some((lo, hi)) => Some(
                            (
                                if s < lo {
                                    s
                                } else {
                                    lo
                                },
                                if e > hi {
                                    e
                                } else {
                                    hi
                                },
                            ),
                        ),
                    };
                },
            }
        }
        i = i + 1;
    }
    found
}

/// A NUL-separated argument list holds exactly `wanted`.
pub open spec fn has_argument(list: Seq<u8>, wanted: Seq<u8>) -> bool {
    exists|from: int, to: int| #[trigger] is_argument(list, from, to) && list.subrange(from, to)
        == wanted
}

/// One argument stands between these two places.
pub open spec fn is_argument(list: Seq<u8>, from: int, to: int) -> bool {
    &&& 0 <= from <= to <= list.len()
    &&& from == 0 || list[from - 1] == 0
    &&& to == list.len() || list[to] == 0
    &&& forall|i: int| from <= i < to ==> list[i] != 0
}

/// Whether a NUL-separated argument list holds exactly `wanted`.
fn argument_given(list: &[u8], wanted: &[u8]) -> (r: bool)
    ensures
        r == has_argument(list@, wanted@),
{
    let mut from: usize = 0;
    loop
        invariant
            from <= list.len(),
            from == 0 || list@[from - 1] == 0,
            forall|f: int, t: int| #[trigger]
                is_argument(list@, f, t) && f < from ==> list@.subrange(f, t) != wanted@,
        decreases list.len() - from,
    {
        let mut to: usize = from;
        while to < list.len() && list[to] != 0
            invariant
                from <= to <= list.len(),
                forall|i: int| from <= i < to ==> list@[i] != 0,
            decreases list.len() - to,
        {
            to = to + 1;
        }
        assert(is_argument(list@, from as int, to as int));
        if same_bytes(vstd::slice::slice_subrange(list, from, to), wanted) {
            return true;
        }
        assert forall|f: int, t: int| #[trigger] is_argument(list@, f, t) && f < to + 1 implies list@.subrange(
            f, t,
        ) != wanted@ by {
            if f == from {
                if t < to {
                    assert(list@[t] != 0);
                } else if t > to {
                    assert(list@[to as int] != 0);
                }
            } else if f > from {
                assert(list@[f - 1] != 0);
            }
        }
        if to == list.len() {
            return false;
        }
        from = to + 1;
    }
}

/// The argument that the game has to be started with.
pub open spec fn insecure_flag() -> Seq<u8> {
    seq![45u8, 105, 110, 115, 101, 99, 117, 114, 101]
}

/// Whether a command line, as the proc file system shows it, holds exactly
/// `-insecure`.
pub fn has_insecure(cmdline: &[u8]) -> (r: bool)
    ensures
        r == has_argument(cmdline@, insecure_flag()),
{
    let flag: [u8; 9] = [45, 105, 110, 115, 101, 99, 117, 114, 101];
    assert(flag@ =~= insecure_flag());
    argument_given(cmdline, &flag)
}

/// The place of the last `c` at or before `i`, if there is one.
pub open spec fn last_index(s: Seq<char>, c: char, n: int) -> Option<int>
    decreases n,
{
    if n <= 0 {
        None
    } else if s[n - 1] == c {
        Some(n - 1)
    } else {
        last_index(s, c, n - 1)
    }
}

/// The parent that a stat line names: the second field after the last closing
/// bracket, since the name in front may hold anything.
pub open spec fn parent_of(stat: Seq<char>) -> Option<int> {
    match last_index(stat, ')', stat.len() as int) {
        None => None,
        Some(i) => {
            let ws = words_of(stat.skip(i + 1));
            if ws.len() < 2 {
                None
            } else {
                match number_of(ws[1], 10, u32::MAX as nat) {
                    Some(v) => Some(v as int),
                    None => None,
                }
            }
        },
    }
}

/// The parent that a stat line names.
pub fn parent_pid(stat: &str) -> (r: Option<u32>)
    ensures
        match r {
            Some(p) => parent_of(stat@) == Some(p as int),
            None => parent_of(stat@) is None,
        },
{
    let cs: Vec<char> = chars(stat);
    let mut n: usize = cs.len();
    while n > 0 && cs[n - 1] != ')'
        invariant
            n <= cs.len(),
            last_index(cs@, ')', cs@.len() as int) == last_index(cs@, ')', n as int),
        decreases n,
    {
        n = n - 1;
    }
    if n == 0 {
        return None;
    }
    let rest: &[char] = vstd::slice::slice_subrange(cs.as_slice(), n, cs.len());
    assert(rest@ =~= cs@.skip(n as int));
    let ws: Vec<Vec<char>> = words(rest);
    if ws.len() < 2 {
        return None;
    }
    assert(char_views(ws@)[1] == ws@[1]@);
    match parse_number(ws[1].as_slice(), 10, u32::MAX as u64) {
        Some(v) => Some(v as u32),
        None => None,
    }
}

/// How far up a process is followed.
pub const LINEAGE: u32 = 24;

/// A walk from a process up to an ancestor.
#[derive(Clone, Copy, Debug, Eq, PartialEq, Structural)]
pub enum Lineage {
    /// The parent of this process is wanted; so many more may be looked at.
    Asking(u32, u32),
    Known(bool),
}

impl Lineage {
    /// Looking at a process with `left` more to look at.
    pub open spec fn at(pid: u32, ancestor: u32, left: int) -> Lineage {
        if pid == ancestor {
            Lineage::Known(true)
        } else if left <= 0 {
            Lineage::Known(false)
        } else {
            Lineage::Asking(pid, left as u32)
        }
    }

    /// After the parent was read.
    pub open spec fn next(self, ancestor: u32, parent: Option<u32>) -> Lineage {
        match self {
            Lineage::Asking(_, left) => match parent {
                Some(p) => if p > 1 {
                    Lineage::at(p, ancestor, left - 1)
                } else {
                    Lineage::Known(false)
                },
                None => Lineage::Known(false),
            },
            Lineage::Known(_) => self,
        }
    }

    /// Starts the walk.
    pub fn start(pid: u32, ancestor: u32) -> (r: Lineage)
        ensures
            r == Lineage::at(pid, ancestor, LINEAGE - 1),
    {
        if pid == ancestor {
            Lineage::Known(true)
        } else {
            Lineage::Asking(pid, LINEAGE - 1)
        }
    }

    /// Takes the parent that was asked for.
    pub fn step(self, ancestor: u32, parent: Option<u32>) -> (r: Lineage)
        ensures
            r == self.next(ancestor, parent),
    {
        match self {
            Lineage::Asking(_, left) => match parent {
                Some(p) => if p > 1 {
                    if p == ancestor {
                        Lineage::Known(true)
                    } else if left <= 1 {
                        Lineage::Known(false)
                    } else {
                        Lineage::Asking(p, left - 1)
                    }
                } else {
                    Lineage::Known(false)
                },
                None => Lineage::Known(false),
            },
            Lineage::Known(b) => Lineage::Known(b),
        }
    }
}

/// `pid` is `ancestor` or descends from it, looking at `n` processes at most.
pub open spec fn descends(
    parents: spec_fn(u32) -> Option<u32>,
    pid: u32,
    ancestor: u32,
    n: int,
) -> bool
    decreases n,
{
    n > 0 && (pid == ancestor || (match parents(pid) {
        Some(p) => p > 1 && descends(parents, p, ancestor, n - 1),
        None => false,
    }))
}

/// Where a walk ends when every question is answered from `parents`.
pub open spec fn walked(
    parents: spec_fn(u32) -> Option<u32>,
    ancestor: u32,
    at: Lineage,
    fuel: int,
) -> Lineage
    decreases fuel,
{
    match at {
        Lineage::Asking(pid, _) => if fuel <= 0 {
            at
        } else {
            walked(parents, ancestor, at.next(ancestor, parents(pid)), fuel - 1)
        },
        Lineage::Known(_) => at,
    }
}

proof fn walk_from(parents: spec_fn(u32) -> Option<u32>, pid: u32, ancestor: u32, left: int, fuel: int)
    requires
        0 <= left < LINEAGE,
        fuel >= left,
    ensures
        walked(parents, ancestor, Lineage::at(pid, ancestor, left), fuel) == Lineage::Known(
            descends(parents, pid, ancestor, left + 1),
        ),
    decreases left,
{
    reveal_with_fuel(descends, 2);
    reveal_with_fuel(walked, 2);
    if pid != ancestor && left > 0 {
        match parents(pid) {
            Some(p) => if p > 1 {
                walk_from(parents, p, ancestor, left - 1, fuel - 1);
            },
            None => {},
        }
    }
}

/// The walk ends after at most as many questions as it may ask, and says
/// whether the process descends from the ancestor.
pub proof fn walk_tells_descent(parents: spec_fn(u32) -> Option<u32>, pid: u32, ancestor: u32)
    ensures
        walked(parents, ancestor, Lineage::at(pid, ancestor, LINEAGE - 1), LINEAGE - 1)
            == Lineage::Known(descends(parents, pid, ancestor, LINEAGE as int)),
{
    walk_from(parents, pid, ancestor, LINEAGE - 1, LINEAGE - 1);
}

/// The name of a game process, as its comm file shows it.
pub open spec fn is_game(comm: Seq<char>) -> bool {
    let name = trimmed(comm);
    name == "cstrike_linux64"@ || name == "cstrike_linux"@ || name == "hl2_linux"@
}

/// Whether a comm file names a game process.
pub fn is_game_comm(comm: &str) -> (r: bool)
    ensures
        r == is_game(comm@),
{
    let cs: Vec<char> = chars(comm);
    let name: &[char] = trim(cs.as_slice());
    let a: Vec<char> = chars("cstrike_linux64");
    let b: Vec<char> = chars("cstrike_linux");
    let c: Vec<char> = chars("hl2_linux");
    same_chars(name, a.as_slice()) || same_chars(name, b.as_slice()) || same_chars(
        name,
        c.as_slice(),
    )
}

/// A process directory has a name of digits only.
pub open spec fn all_digits(name: Seq<char>) -> bool {
    forall|i: int| 0 <= i < name.len() ==> '0' <= #[trigger] name[i] <= '9'
}

/// The number of a process directory.
pub open spec fn pid_of(name: Seq<char>) -> Option<int> {
    match number_of(name, 10, u32::MAX as nat) {
        Some(v) => Some(v as int),
        None => None,
    }
}

/// Whether an entry of the proc file system is a process directory.
pub fn is_pid_name(name: &str) -> (r: bool)
    ensures
        r == all_digits(name@),
{
    let cs: Vec<char> = chars(name);
    let mut i: usize = 0;
    while i < cs.len()
        invariant
            i <= cs.len(),
            cs@ == name@,
            forall|j: int| 0 <= j < i ==> '0' <= #[trigger] cs@[j] <= '9',
        decreases cs.len() - i,
    {
        if !('0' <= cs[i] && cs[i] <= '9') {
            assert(!('0' <= cs@[i as int] <= '9'));
            return false;
        }
        i = i + 1;
    }
    true
}

/// The number of a process directory.
pub fn parse_pid(name: &str) -> (r: Option<u32>)
    ensures
        match r {
            Some(p) => pid_of(name@) == Some(p as int),
            None => pid_of(name@) is None,
        },
{
    let cs: Vec<char> = chars(name);
    match parse_number(cs.as_slice(), 10, u32::MAX as u64) {
        Some(v) => Some(v as u32),
        None => None,
    }
}

/// Some desktop in a colon-separated list is i3.
pub open spec fn names_i3(list: Seq<char>) -> bool {
    let ps = pieces(list, seq![':']);
    exists|i: int| 0 <= i < ps.len() && same_but_case(#[trigger] ps[i], "i3"@)
}

/// Whether a desktop list names i3.
pub fn running_i3(list: &str) -> (r: bool)
    ensures
        r == names_i3(list@),
{
    let cs: Vec<char> = chars(list);
    let seps: [char; 1] = [':'];
    assert(seps@ =~= seq![':']);
    let ps: Vec<Vec<char>> = split(cs.as_slice(), &seps);
    let want: Vec<char> = chars("i3");
    let ghost views = char_views(ps@);
    let mut i: usize = 0;
    while i < ps.len()
        invariant
            i <= ps.len(),
            want@ == "i3"@,
            views == char_views(ps@),
            views == pieces(list@, seq![':']),
            forall|j: int| 0 <= j < i ==> !same_but_case(#[trigger] views[j], "i3"@),
        decreases ps.len() - i,
    {
        assert(views[i as int] == ps@[i as int]@);
        if eq_ignore_case(ps[i].as_slice(), want.as_slice()) {
            return true;
        }
        i = i + 1;
    }
    false
}

/// The state that a lock LED's brightness shows.
pub fn led_is_on(brightness: &str) -> (r: bool)
    ensures
        r == (trimmed(brightness@) != "0"@),
{
    let cs: Vec<char> = chars(brightness);
    let off: Vec<char> = chars("0");
    !same_chars(trim(cs.as_slice()), off.as_slice())
}

/// One byte of a span that was read part by part, each of at most `chunk`
/// bytes: what could not be read is zero.
pub open spec fn span_byte(parts: Seq<Option<Seq<u8>>>, chunk: int, i: int) -> u8 {
    match parts[i / chunk] {
        Some(p) => if i % chunk < p.len() {
            p[i % chunk]
        } else {
            0
        },
        None => 0,
    }
}

/// The values of parts that may be missing.
pub open spec fn part_views(v: Seq<Option<Vec<u8>>>) -> Seq<Option<Seq<u8>>> {
    Seq::new(
        v.len(),
        |i: int|
            match v[i] {
                Some(b) => Some(b@),
                None => None,
            },
    )
}

/// Puts a span together from parts of `chunk` bytes, the last of which may be
/// shorter. A part that could not be read, or only in part, leaves zeros.
pub fn read_span(len: usize, chunk: usize, parts: &[Option<Vec<u8>>]) -> (r: Vec<u8>)
    requires
        chunk > 0,
        parts.len() * chunk >= len,
    ensures
        r@.len() == len,
        forall|i: int|
            0 <= i < len ==> #[trigger] r@[i] == span_byte(part_views(parts@), chunk as int, i),
{
    let ghost views = part_views(parts@);
    let mut out: Vec<u8> = Vec::new();
    let mut part: usize = 0;
    let mut at: usize = 0;
    while out.len() < len
        invariant
            chunk > 0,
            at < chunk,
            out@.len() == part * chunk + at,
            out@.len() <= len,
            parts.len() * chunk >= len,
            views == part_views(parts@),
            forall|i: int|
                0 <= i < out@.len() ==> #[trigger] out@[i] == span_byte(views, chunk as int, i),
        decreases len - out@.len(),
    {
        let n: usize = out.len();
        proof {
            assert(part < parts.len()) by (nonlinear_arith)
                requires
                    part * chunk + at < len,
                    parts.len() * chunk >= len,
                    at >= 0,
                    chunk > 0,
            ;
            assert(n as int / chunk as int == part && n as int % chunk as int == at)
                by (nonlinear_arith)
                requires
                    n == part * chunk + at,
                    0 <= at < chunk,
            ;
            assert(views[part as int] == (match parts@[part as int] {
                Some(b) => Some(b@),
                None => None,
            }));
        }
        let b: u8 = match &parts[part] {
            Some(p) => if at < p.len() {
                p[at]
            } else {
                0
            },
            None => 0,
        };
        out.push(b);
        at = at + 1;
        if at == chunk {
            assert((part + 1) * chunk == part * chunk + chunk) by (nonlinear_arith);
            at = 0;
            part = part + 1;
        }
    }
    out
}

proof fn hex_has_no_dash(n: nat)
    ensures
        !number_text(n, 16).contains('-'),
    decreases n,
{
    let t = number_text(n, 16);
    if n >= 16 {
        hex_has_no_dash(n / 16);
    }
    if t.contains('-') {
        let i = choose|i: int| 0 <= i < t.len() && t[i] == '-';
        if n >= 16 && i < t.len() - 1 {
            assert(number_text(n / 16, 16)[i] == '-');
            assert(number_text(n / 16, 16).contains('-'));
        }
    }
}

/// A range is read from its two hexadecimal numbers.
pub proof fn a_range_is_read(start: u64, end: u64)
    ensures
        range_of(hex_text(start as int) + seq!['-'] + hex_text(end as int)) == Some(
            (start as int, end as int),
        ),
{
    let a = hex_text(start as int);
    let b = hex_text(end as int);
    let s = a + seq!['-'] + b;
    numbers_are_read_back(start as nat, 16);
    numbers_are_read_back(end as nat, 16);
    hex_has_no_dash(start as nat);
    assert forall|i: int| 0 <= i < a.len() implies s[i] != '-' by {
        assert(a.contains(a[i]));
    }
    assert(s[a.len() as int] == '-');
    first_character_is_found(s, '-', 0, a.len() as int);
    assert(s.take(a.len() as int) =~= a);
    assert(s.skip(a.len() as int + 1) =~= b);
}

/// A line of the mappings is read: range, permissions and offset, and the path
/// behind device and inode.
pub proof fn a_mapping_is_read(line: Seq<char>, start: u64, end: u64, offset: u64)
    requires
        words_of(line).len() >= 5,
        words_of(line)[0] == hex_text(start as int) + seq!['-'] + hex_text(end as int),
        words_of(line)[2] == hex_text(offset as int),
    ensures
        mapping_of(line) matches Some(m) && m.start == start && m.end == end && m.offset == offset
            && m.perms == words_of(line)[1],
        words_of(line).len() == 5 ==> (mapping_of(line)->0).path == Seq::<char>::empty(),
        words_of(line).len() == 6 ==> (mapping_of(line)->0).path == words_of(line)[5],
        words_of(line).len() == 7 ==> (mapping_of(line)->0).path == words_of(line)[5] + seq![' ']
            + words_of(line)[6],
{
    a_range_is_read(start, end);
    numbers_are_read_back(offset as nat, 16);
    let tail = words_of(line).skip(5);
    reveal_with_fuel(joined_by, 3);
    if words_of(line).len() == 7 {
        assert(tail.drop_last().len() == 1);
        assert(tail.drop_last()[0] == words_of(line)[5]);
        assert(tail.last() == words_of(line)[6]);
    }
}

/// Every line that is one counts, in order.
pub proof fn every_mapping_counts(ls: Seq<Seq<char>>, n: int)
    requires
        0 < n <= ls.len(),
    ensures
        mapping_of(ls[n - 1]) matches Some(m) ==> mappings_in(ls, n) == mappings_in(
            ls,
            n - 1,
        ).push(m),
        mapping_of(ls[n - 1]) is None ==> mappings_in(ls, n) == mappings_in(ls, n - 1),
{
}

/// The span of the client holds the range of each of its executable mappings.
pub proof fn the_span_holds_every_range(ls: Seq<Seq<char>>, n: int, i: int)
    requires
        0 <= i < n <= ls.len(),
        client_span(ls, n) matches Some(Some(_)),
        is_client_line(ls[i]),
    ensures
        range_of(words_of(ls[i])[0]) matches Some((s, e)) && ((client_span(ls, n)->0)->0).0 <= s
            && e <= ((client_span(ls, n)->0)->0).1,
    decreases n,
{
    if i < n - 1 {
        span_is_whole(ls, n - 1, i);
        the_span_holds_every_range(ls, n - 1, i);
    }
}

proof fn span_is_whole(ls: Seq<Seq<char>>, n: int, i: int)
    requires
        0 <= i < n <= ls.len(),
        client_span(ls, n) is Some,
        is_client_line(ls[i]),
    ensures
        client_span(ls, n) matches Some(Some(_)),
    decreases n,
{
    if i < n - 1 {
        span_is_whole(ls, n - 1, i);
    }
}

/// An argument is found wherever it stands whole in the list, and a longer one
/// is another.
pub proof fn an_argument_is_found(before: Seq<u8>, wanted: Seq<u8>, after: Seq<u8>)
    requires
        !wanted.contains(0u8),
        before.len() > 0 ==> before.last() == 0,
        after.len() > 0 ==> after[0] == 0,
    ensures
        has_argument(before + wanted + after, wanted),
{
    let list = before + wanted + after;
    let from = before.len() as int;
    let to = from + wanted.len();
    assert(list.subrange(from, to) =~= wanted);
    assert forall|i: int| from <= i < to implies list[i] != 0 by {
        assert(list[i] == wanted[i - from]);
        assert(wanted.contains(wanted[i - from]));
    }
    if from > 0 {
        assert(list[from - 1] == before.last());
    }
    if to < list.len() {
        assert(list[to] == after[0]);
    }
    assert(is_argument(list, from, to));
}

/// A list of one argument holds that one, and no other.
pub proof fn a_lone_argument_is_itself(list: Seq<u8>, wanted: Seq<u8>)
    requires
        !list.contains(0u8),
    ensures
        has_argument(list, wanted) <==> list == wanted,
{
    let n = list.len() as int;
    assert forall|i: int| 0 <= i < n implies list[i] != 0 by {
        assert(list.contains(list[i]));
    }
    assert(list.subrange(0, n) =~= list);
    assert(is_argument(list, 0, n));
    if has_argument(list, wanted) {
        let (from, to) = choose|from: int, to: int| #[trigger]
            is_argument(list, from, to) && list.subrange(from, to) == wanted;
        assert(from == 0 && to == n);
    }
}

/// The argument that the game has to be started with is `-insecure`.
pub proof fn the_flag_is_insecure()
    ensures
        insecure_flag() == encode_utf8("-insecure"@),
{
    reveal_strlit("-insecure");
    is_ascii_chars_encode_utf8("-insecure"@);
    assert(insecure_flag() =~= encode_utf8("-insecure"@));
}

/// The parent is the second word behind the last bracket, whatever the name in
/// front of it holds.
pub proof fn the_parent_is_read(before: Seq<char>, rest: Seq<char>, parent: u32)
    requires
        !rest.contains(')'),
        words_of(rest).len() >= 2,
        words_of(rest)[1] == dec_text(parent as int),
    ensures
        parent_of(before + seq![')'] + rest) == Some(parent as int),
{
    let s = before + seq![')'] + rest;
    let n = before.len() as int;
    assert(s[n] == ')');
    assert forall|i: int| n < i < s.len() implies s[i] != ')' by {
        assert(rest.contains(rest[i - n - 1]));
    }
    last_is(s, ')', s.len() as int, n);
    assert(s.skip(n + 1) =~= rest);
    numbers_are_read_back(parent as nat, 10);
}

proof fn last_is(s: Seq<char>, c: char, n: int, at: int)
    requires
        0 <= at < n <= s.len(),
        s[at] == c,
        forall|i: int| at < i < n ==> s[i] != c,
    ensures
        last_index(s, c, n) == Some(at),
    decreases n,
{
    if n - 1 > at {
        last_is(s, c, n - 1, at);
    }
}

/// The game is known by its name, whatever white space follows.
pub proof fn the_game_is_known(space: Seq<char>)
    requires
        forall|i: int| 0 <= i < space.len() ==> is_white(#[trigger] space[i]),
    ensures
        is_game("cstrike_linux64"@ + space),
        is_game("cstrike_linux"@ + space),
        is_game("hl2_linux"@ + space),
{
    reveal_strlit("cstrike_linux64");
    reveal_strlit("cstrike_linux");
    reveal_strlit("hl2_linux");
    let none = Seq::<char>::empty();
    trimming_takes_the_space_around(none, "cstrike_linux64"@, space);
    trimming_takes_the_space_around(none, "cstrike_linux"@, space);
    trimming_takes_the_space_around(none, "hl2_linux"@, space);
    assert(none + "cstrike_linux64"@ + space =~= "cstrike_linux64"@ + space);
    assert(none + "cstrike_linux"@ + space =~= "cstrike_linux"@ + space);
    assert(none + "hl2_linux"@ + space =~= "hl2_linux"@ + space);
}

/// A process directory gives its number.
pub proof fn a_process_gives_its_number(pid: u32)
    ensures
        pid_of(dec_text(pid as int)) == Some(pid as int),
{
    numbers_are_read_back(pid as nat, 10);
}

/// The desktop is known among others, in whatever case.
pub proof fn the_desktop_is_known(before: Seq<char>)
    requires
        forall|i: int| 0 <= i < before.len() ==> #[trigger] before[i] != ':',
    ensures
        names_i3(seq!['i', '3']),
        names_i3(seq!['I', '3']),
        names_i3(before + seq![':'] + seq!['i', '3']),
{
    reveal_strlit("i3");
    let seps = seq![':'];
    assert(seps[0] == ':');
    assert(seps.contains(':'));
    let a = seq!['i', '3'];
    let b = seq!['I', '3'];
    assert forall|i: int| 0 <= i < 2 implies !seps.contains(#[trigger] a[i]) by {}
    assert forall|i: int| 0 <= i < 2 implies !seps.contains(#[trigger] b[i]) by {}
    assert forall|i: int| 0 <= i < before.len() implies !seps.contains(#[trigger] before[i]) by {
        assert(before[i] != ':');
    }
    pieces_are_split_off(a, ':', Seq::empty(), seps);
    pieces_are_split_off(b, ':', Seq::empty(), seps);
    pieces_are_split_off(before, ':', a, seps);
    assert(a =~= "i3"@);
    case_is_ignored(a, a);
    assert(same_but_case(b, "i3"@)) by {
        only_capitals_are_lowered('I');
        assert(lower_char('I') as int == 'i' as int);
    }
    assert(pieces(a, seps)[0] == a);
    assert(pieces(b, seps)[0] == b);
    assert(pieces(before + seq![':'] + a, seps)[1] == a);
}

/// An address is code, or writable, where a mapping with that permission holds
/// it: from its start to before its end.
pub proof fn permissions_are_told(maps: Seq<MappingView>, i: int, addr: int)
    requires
        0 <= i < maps.len(),
        maps[i].start <= addr < maps[i].end,
    ensures
        maps[i].perms.contains('x') ==> in_code(maps, addr),
        maps[i].perms.contains('w') ==> in_writable(maps, addr),
        maps.len() == 1 && !maps[i].perms.contains('x') ==> !in_code(maps, addr),
        maps.len() == 1 && !maps[i].perms.contains('w') ==> !in_writable(maps, addr),
        maps.len() == 1 ==> !in_code(maps, maps[i].end) && !in_writable(maps, maps[i].end),
{
    assert(maps_addr(maps[i], addr));
    if maps.len() == 1 {
        assert(!maps_addr(maps[0], maps[0].end));
    }
}

/// A module starts where its file does.
pub proof fn a_module_starts_its_file(m: MappingView, dir: Seq<char>, needle: Seq<char>)
    requires
        m.path == dir + needle,
    ensures
        is_base(m, needle) <==> m.offset == 0,
{
    assert(m.path.skip(m.path.len() - needle.len()) =~= needle);
}

/// A span is put together part by part; what could not be read is zero.
pub proof fn spans_are_put_together(parts: Seq<Option<Seq<u8>>>, chunk: int, k: int, i: int)
    requires
        0 < chunk,
        0 <= k < parts.len(),
        0 <= i < chunk,
    ensures
        parts[k] matches Some(p) ==> (i < p.len() ==> span_byte(parts, chunk, k * chunk + i)
            == p[i]),
        parts[k] is None ==> span_byte(parts, chunk, k * chunk + i) == 0,
{
    assert((k * chunk + i) / chunk == k && (k * chunk + i) % chunk == i) by (nonlinear_arith)
        requires
            0 < chunk,
            0 <= i < chunk,
            0 <= k,
    ;
}

/// A process descends from its parent and from whoever its parent descends
/// from, as far as 24 processes reach.
pub proof fn children_descend_from_their_parents(
    parents: spec_fn(u32) -> Option<u32>,
    pid: u32,
    parent: u32,
    ancestor: u32,
    n: int,
)
    requires
        n > 1,
        parents(pid) == Some(parent),
        parent > 1,
    ensures
        descends(parents, pid, pid, n),
        descends(parents, pid, parent, n),
        descends(parents, parent, ancestor, n - 1) ==> descends(parents, pid, ancestor, n),
        LINEAGE == 24,
{
    reveal_with_fuel(descends, 3);
}

} // verus!
