//! World records of a map: which map to look up, and what the answer says.
//!
//! The answer comes over the network and holds names that other players chose.
//! It is read tolerantly, and nothing of it reaches a terminal or the game's
//! console before it is made harmless.
use vstd::prelude::*;

use crate::mapname::{is_name_char, text_view};
use crate::phrase::{
    extend_chars, find_text, text_at, trim, trim_end, trim_start, trimmed,
    trimming_takes_the_space_around,
};
use crate::text::{
    cat, char_views, chars, copy_str, is_white, padded, push_padded, same_str, string_of,
    string_views, white,
};

verus! {

/// Where records are looked up.
pub const API_BASE: &'static str = "https://sourcejump.net/api/records/";

/// How many records are shown.
pub const SHOW_ROWS: usize = 3;

/// How much of an answer is read, in bytes.
pub const MAX_BODY: usize = 524_288;

/// How many objects of an answer are looked at.
pub const MAX_OBJECTS: usize = 64;

/// How long a name may be.
pub const MAX_NAME: usize = 24;

/// A map name that may become part of an address.
pub open spec fn is_lookup_name(s: Seq<char>) -> bool {
    &&& 0 < s.len() <= 64
    &&& forall|i: int| 0 <= i < s.len() ==> is_name_char(#[trigger] s[i])
}

/// Whether a map name may become part of an address.
fn lookup_name(s: &str) -> (r: bool)
    ensures
        r == is_lookup_name(s@),
{
    let cs: Vec<char> = chars(s);
    if cs.len() == 0 || cs.len() > 64 {
        return false;
    }
    let mut i: usize = 0;
    while i < cs.len()
        invariant
            i <= cs.len(),
            cs@ == s@,
            forall|j: int| 0 <= j < i ==> is_name_char(#[trigger] cs@[j]),
        decreases cs.len() - i,
    {
        let c: char = cs[i];
        let good: bool = ('a' <= c && c <= 'z') || ('A' <= c && c <= 'Z') || ('0' <= c && c <= '9')
            || c == '_' || c == '-';
        if !good {
            assert(!is_name_char(s@[i as int]));
            return false;
        }
        i = i + 1;
    }
    true
}

/// Which maps are looked up. There is one worker at most, and of maps that are
/// named while it works the last one counts.
pub struct Lookups {
    shown: String,
    inflight: bool,
    pending: Option<String>,
    stopped: bool,
}

/// The value of a `Lookups`.
#[verifier::ext_equal]
pub struct LookupsView {
    /// The map that was shown last.
    pub shown: Seq<char>,
    /// Whether a worker is running.
    pub inflight: bool,
    /// The map that was named last and is not handled yet.
    pub pending: Option<Seq<char>>,
    /// Whether lookups are over.
    pub stopped: bool,
}

impl View for Lookups {
    type V = LookupsView;

    closed spec fn view(&self) -> LookupsView {
        LookupsView {
            shown: self.shown@,
            inflight: self.inflight,
            pending: text_view(self.pending),
            stopped: self.stopped,
        }
    }
}

impl LookupsView {
    /// After a map was named, and whether a worker is to be started.
    pub open spec fn named(self, map: Seq<char>) -> (LookupsView, bool) {
        if self.stopped || !is_lookup_name(map) || self.shown == map {
            (self, false)
        } else {
            (LookupsView { pending: Some(map), inflight: true, ..self }, !self.inflight)
        }
    }

    /// After the worker asked for the next map, and that map.
    pub open spec fn taken(self) -> (LookupsView, Option<Seq<char>>) {
        if self.stopped {
            (self, None)
        } else {
            match self.pending {
                Some(m) if m != self.shown => (
                    LookupsView { shown: m, pending: None, ..self },
                    Some(m),
                ),
                _ => (LookupsView { pending: None, inflight: false, ..self }, None),
            }
        }
    }
}

impl Lookups {
    /// Nothing was looked up.
    pub fn new() -> (r: Lookups)
        ensures
            r@ == (LookupsView {
                shown: Seq::empty(),
                inflight: false,
                pending: None,
                stopped: false,
            }),
    {
        let r: Lookups = Lookups {
            shown: String::new(),
            inflight: false,
            pending: None,
            stopped: false,
        };
        assert(r@.shown =~= Seq::empty());
        r
    }

    /// Wants the records of a map. Says whether a worker is to be started. A
    /// name that is not plain, or that was shown last, is passed over.
    pub fn show_wr(&mut self, mapname: &str) -> (r: bool)
        ensures
            (final(self)@, r) == old(self)@.named(mapname@),
    {
        if self.stopped || !lookup_name(mapname) || same_str(self.shown.as_str(), mapname) {
            return false;
        }
        self.pending = Some(mapname.to_owned());
        if self.inflight {
            return false;
        }
        self.inflight = true;
        true
    }

    /// The worker could not be started.
    pub fn reset_inflight(&mut self)
        ensures
            final(self)@ == (LookupsView { inflight: false, ..old(self)@ }),
    {
        self.inflight = false;
    }

    /// Lookups may begin.
    pub fn start(&mut self)
        ensures
            final(self)@ == (LookupsView { stopped: false, ..old(self)@ }),
    {
        self.stopped = false;
    }

    /// Lookups are over; the worker is still to be waited for.
    pub fn stop(&mut self)
        ensures
            final(self)@ == (LookupsView { stopped: true, pending: None, ..old(self)@ }),
    {
        self.stopped = true;
        self.pending = None;
    }

    /// The worker is gone.
    pub fn stopped(&mut self)
        ensures
            final(self)@ == (LookupsView { inflight: false, pending: None, ..old(self)@ }),
    {
        self.inflight = false;
        self.pending = None;
    }

    /// The map that the worker is to look up next. `None` ends the worker.
    pub fn next_map(&mut self) -> (r: Option<String>)
        ensures
            (final(self)@, text_view(r)) == old(self)@.taken(),
    {
        if self.stopped {
            return None;
        }
        let next: Option<String> = match &self.pending {
            Some(m) => if same_str(m.as_str(), self.shown.as_str()) {
                None
            } else {
                Some(copy_str(m))
            },
            None => None,
        };
        self.pending = None;
        match next {
            Some(m) => {
                self.shown = copy_str(&m);
                Some(m)
            },
            None => {
                self.inflight = false;
                None
            },
        }
    }
}

/// A worker is started only where none is running, and from then on one is.
pub proof fn one_worker_at_most(l: LookupsView, map: Seq<char>)
    ensures
        l.named(map).1 ==> !l.inflight && l.named(map).0.inflight,
        l.inflight ==> !l.named(map).1 && l.named(map).0.inflight,
{
}

/// Of maps that are named while a worker works, the last one is looked up next,
/// unless it is the one that is shown.
pub proof fn last_named_wins(l: LookupsView, first: Seq<char>, last: Seq<char>)
    requires
        !l.stopped,
        is_lookup_name(last),
        last != l.shown,
    ensures
        l.named(first).0.named(last).0.taken().1 == Some(last),
{
}

/// A map is not looked up twice in a row.
pub proof fn shown_is_not_looked_up(l: LookupsView)
    ensures
        l.taken().1 matches Some(m) ==> m != l.shown && l.taken().0.shown == m,
        l.taken().1 is None && !l.stopped ==> !l.taken().0.inflight,
{
}

/// Whatever is looked up is a plain name.
pub proof fn lookups_are_plain(l: LookupsView, map: Seq<char>)
    requires
        l.pending matches Some(m) ==> is_lookup_name(m),
    ensures
        l.named(map).0.pending matches Some(m) ==> is_lookup_name(m),
        l.taken().1 matches Some(m) ==> is_lookup_name(m),
{
}

/// The address of a map's records.
pub fn record_url(map: &str) -> (r: String)
    ensures
        r@ == API_BASE@ + map@,
{
    let mut out: String = API_BASE.to_owned();
    out.append(map);
    out
}

/// As much of an answer as is read.
pub fn bounded_body(body: &[u8]) -> (r: &[u8])
    ensures
        r@ == if body@.len() > MAX_BODY {
            body@.take(MAX_BODY as int)
        } else {
            body@
        },
{
    if body.len() > MAX_BODY {
        let r: &[u8] = vstd::slice::slice_subrange(body, 0, MAX_BODY);
        assert(r@ =~= body@.take(MAX_BODY as int));
        r
    } else {
        body
    }
}

/// Where a reader of objects stands: how deep, where the object began, and
/// whether in a string, behind a backslash.
#[derive(Clone, Copy, Debug, Eq, PartialEq, Structural)]
pub struct Cursor {
    pub depth: usize,
    pub start: usize,
    pub in_str: bool,
    pub esc: bool,
}

/// The reader after the character at `i`.
pub open spec fn advanced(k: Cursor, c: char, i: int) -> Cursor {
    if k.in_str {
        if k.esc {
            Cursor { esc: false, ..k }
        } else if c == '\\' {
            Cursor { esc: true, ..k }
        } else if c == '"' {
            Cursor { in_str: false, ..k }
        } else {
            k
        }
    } else if c == '"' {
        Cursor { in_str: true, ..k }
    } else if c == '{' {
        Cursor {
            start: if k.depth == 0 {
                i as usize
            } else {
                k.start
            },
            depth: (k.depth + 1) as usize,
            ..k
        }
    } else if c == '}' {
        Cursor {
            depth: if k.depth == 0 {
                0
            } else {
                (k.depth - 1) as usize
            },
            ..k
        }
    } else {
        k
    }
}

/// The character closes an outermost object. A brace that closes nothing does
/// not.
pub open spec fn closes(k: Cursor, c: char) -> bool {
    !k.in_str && c == '}' && k.depth == 1
}

/// The objects that close at or after `i`, `left` at most.
pub open spec fn objects_from(s: Seq<char>, i: int, k: Cursor, left: int) -> Seq<Seq<char>>
    decreases s.len() - i,
{
    if i < 0 || i >= s.len() || left <= 0 {
        Seq::empty()
    } else {
        let next = advanced(k, s[i], i);
        if closes(k, s[i]) {
            seq![s.subrange(next.start as int, i + 1)] + objects_from(s, i + 1, next, left - 1)
        } else {
            objects_from(s, i + 1, next, left)
        }
    }
}

/// The objects of an answer: outermost braces outside strings.
pub open spec fn objects_of(s: Seq<char>) -> Seq<Seq<char>> {
    objects_from(
        s,
        0,
        Cursor { depth: 0, start: 0, in_str: false, esc: false },
        MAX_OBJECTS as int,
    )
}

/// The objects of an answer.
fn split_chars(s: &[char]) -> (r: Vec<Vec<char>>)
    ensures
        char_views(r@) == objects_of(s@),
{
    let mut out: Vec<Vec<char>> = Vec::new();
    let mut k: Cursor = Cursor { depth: 0, start: 0, in_str: false, esc: false };
    let mut i: usize = 0;
    let ghost goal = objects_of(s@);
    assert(char_views(out@) + objects_of(s@) =~= goal);
    while i < s.len() && out.len() < MAX_OBJECTS
        invariant
            i <= s.len(),
            out@.len() <= MAX_OBJECTS,
            k.start <= i,
            k.depth <= i,
            char_views(out@) + objects_from(s@, i as int, k, MAX_OBJECTS - out@.len())
                == goal,
        decreases s.len() - i,
    {
        let c: char = s[i];
        let ghost old_k = k;
        let ghost before = char_views(out@);
        let closed: bool = !k.in_str && c == '}' && k.depth == 1;
        if k.in_str {
            if k.esc {
                k.esc = false;
            } else if c == '\\' {
                k.esc = true;
            } else if c == '"' {
                k.in_str = false;
            }
        } else if c == '"' {
            k.in_str = true;
        } else if c == '{' {
            if k.depth == 0 {
                k.start = i;
            }
            k.depth = k.depth + 1;
        } else if c == '}' {
            if k.depth > 0 {
                k.depth = k.depth - 1;
            }
        }
        assert(k == advanced(old_k, c, i as int));
        if closed {
            let object: Vec<char> = vstd::slice::slice_to_vec(
                vstd::slice::slice_subrange(s, k.start, i + 1),
            );
            out.push(object);
            proof {
                assert(char_views(out@) =~= before.push(object@));
                let rest = objects_from(s@, i + 1, k, MAX_OBJECTS - out@.len());
                assert(before + (seq![object@] + rest) =~= before.push(object@) + rest);
            }
        }
        i = i + 1;
    }
    assert(char_views(out@) =~= goal);
    out
}

/// The objects of an answer.
pub fn split_objects(json: &str) -> (r: Vec<String>)
    ensures
        string_views(r@) == objects_of(json@),
{
    let cs: Vec<char> = chars(json);
    let objects: Vec<Vec<char>> = split_chars(cs.as_slice());
    let ghost all = char_views(objects@);
    let mut out: Vec<String> = Vec::new();
    let mut i: usize = 0;
    assert(string_views(out@) =~= all.take(0));
    while i < objects.len()
        invariant
            i <= objects.len(),
            all == char_views(objects@),
            string_views(out@) == all.take(i as int),
        decreases objects.len() - i,
    {
        let ghost so_far = string_views(out@);
        let text: String = string_of(objects[i].as_slice());
        out.push(text);
        assert(string_views(out@) =~= so_far.push(text@));
        assert(all.take(i + 1) =~= all.take(i as int).push(all[i as int]));
        i = i + 1;
    }
    assert(all.take(all.len() as int) =~= all);
    out
}

/// The first place of a text in another.
pub open spec fn first_at(s: Seq<char>, needle: Seq<char>, i: int) -> Option<int>
    decreases s.len() + 1 - i,
{
    if i < 0 || i > s.len() {
        None
    } else if text_at(s, needle, i) {
        Some(i)
    } else {
        first_at(s, needle, i + 1)
    }
}

proof fn first_at_is(s: Seq<char>, needle: Seq<char>, i: int, at: int)
    requires
        0 <= i <= at,
        text_at(s, needle, at),
        forall|j: int| 0 <= j < at ==> !text_at(s, needle, j),
    ensures
        first_at(s, needle, i) == Some(at),
    decreases at - i,
{
    if i < at {
        first_at_is(s, needle, i + 1, at);
    }
}

proof fn first_at_none(s: Seq<char>, needle: Seq<char>, i: int)
    requires
        0 <= i,
        forall|j: int| !text_at(s, needle, j),
    ensures
        first_at(s, needle, i) is None,
    decreases s.len() + 1 - i,
{
    if i <= s.len() {
        first_at_none(s, needle, i + 1);
    }
}

/// What stands behind `"key":`, without the white space around the colon.
pub open spec fn value_of(object: Seq<char>, key: Seq<char>) -> Option<Seq<char>> {
    let needle = seq!['"'] + key + seq!['"'];
    match first_at(object, needle, 0) {
        None => None,
        Some(at) => {
            let rest = trim_start(object.skip(at + needle.len()));
            if rest.len() > 0 && rest[0] == ':' {
                Some(trim_start(rest.skip(1)))
            } else {
                None
            }
        },
    }
}

/// Where a string ends: at the next quote that no backslash precedes.
pub open spec fn string_end(s: Seq<char>, i: int, esc: bool) -> int
    decreases s.len() - i,
{
    if i < 0 || i >= s.len() {
        s.len() as int
    } else if esc {
        string_end(s, i + 1, false)
    } else if s[i] == '\\' {
        string_end(s, i + 1, true)
    } else if s[i] == '"' {
        i
    } else {
        string_end(s, i + 1, false)
    }
}

/// The text of a string field.
pub open spec fn string_of_field(object: Seq<char>, key: Seq<char>) -> Option<Seq<char>> {
    match value_of(object, key) {
        Some(v) if v.len() > 0 && v[0] == '"' => Some(
            v.skip(1).take(string_end(v.skip(1), 0, false)),
        ),
        _ => None,
    }
}

/// A character of a number.
pub open spec fn is_number_char(c: char) -> bool {
    '0' <= c <= '9' || c == '.' || c == '-' || c == '+' || c == 'e' || c == 'E'
}

/// How many characters of a number a text starts with.
pub open spec fn number_len(s: Seq<char>) -> nat
    decreases s.len(),
{
    if s.len() == 0 || !is_number_char(s[0]) {
        0
    } else {
        1 + number_len(s.drop_first())
    }
}

/// The text of a number field.
pub open spec fn number_of_field(object: Seq<char>, key: Seq<char>) -> Option<Seq<char>> {
    match value_of(object, key) {
        Some(v) => Some(v.take(number_len(v) as int)),
        None => None,
    }
}

/// A text without the white space before it.
fn skip_white(s: &[char]) -> (r: &[char])
    ensures
        r@ == trim_start(s@),
{
    let mut i: usize = 0;
    assert(s@.skip(0) =~= s@);
    while i < s.len() && white(s[i])
        invariant
            i <= s.len(),
            trim_start(s@) == trim_start(s@.skip(i as int)),
        decreases s.len() - i,
    {
        assert(s@.skip(i as int).drop_first() =~= s@.skip(i + 1));
        i = i + 1;
    }
    let r: &[char] = vstd::slice::slice_subrange(s, i, s.len());
    assert(r@ =~= s@.skip(i as int));
    r
}

/// A text without its first character.
fn rest(s: &[char]) -> (r: &[char])
    requires
        s.len() > 0,
    ensures
        r@ == s@.skip(1),
{
    let r: &[char] = vstd::slice::slice_subrange(s, 1, s.len());
    assert(r@ =~= s@.skip(1));
    r
}

/// What stands behind `"key":`.
fn find_value<'a>(object: &'a [char], key: &str) -> (r: Option<&'a [char]>)
    ensures
        match r {
            Some(v) => value_of(object@, key@) == Some(v@),
            None => value_of(object@, key@) is None,
        },
{
    let mut needle: Vec<char> = Vec::new();
    needle.push('"');
    let k: Vec<char> = chars(key);
    extend_chars(&mut needle, k.as_slice());
    needle.push('"');
    assert(needle@ =~= seq!['"'] + key@ + seq!['"']);
    let size: usize = object.len();
    let at: usize = match find_text(object, needle.as_slice()) {
        None => {
            proof {
                first_at_none(object@, needle@, 0);
            }
            return None;
        },
        Some(at) => at,
    };
    proof {
        first_at_is(object@, needle@, 0, at as int);
    }
    let behind: &[char] = vstd::slice::slice_subrange(object, at + needle.len(), size);
    assert(behind@ =~= object@.skip(at + needle@.len()));
    let colon: &[char] = skip_white(behind);
    if colon.len() == 0 || colon[0] != ':' {
        return None;
    }
    Some(skip_white(rest(colon)))
}

/// The text of a string field of an object.
pub fn str_field(obj: &str, key: &str) -> (r: Option<String>)
    ensures
        text_view(r) == string_of_field(obj@, key@),
{
    let cs: Vec<char> = chars(obj);
    let v: &[char] = match find_value(cs.as_slice(), key) {
        None => {
            return None;
        },
        Some(v) => v,
    };
    if v.len() == 0 || v[0] != '"' {
        return None;
    }
    let body: &[char] = rest(v);
    let mut end: usize = 0;
    let mut esc: bool = false;
    let mut more: bool = true;
    while more
        invariant
            end <= body.len(),
            more ==> string_end(body@, 0, false) == string_end(body@, end as int, esc),
            !more ==> string_end(body@, 0, false) == end,
        decreases
                (if more {
                    body.len() - end + 1
                } else {
                    0
                }),
    {
        if end == body.len() {
            more = false;
        } else if esc {
            esc = false;
            end = end + 1;
        } else if body[end] == '\\' {
            esc = true;
            end = end + 1;
        } else if body[end] == '"' {
            more = false;
        } else {
            end = end + 1;
        }
    }
    let text: &[char] = vstd::slice::slice_subrange(body, 0, end);
    assert(text@ =~= body@.take(end as int));
    Some(string_of(text))
}

/// The text of a number field of an object.
pub fn num_field(obj: &str, key: &str) -> (r: Option<String>)
    ensures
        text_view(r) == number_of_field(obj@, key@),
{
    let cs: Vec<char> = chars(obj);
    let v: &[char] = match find_value(cs.as_slice(), key) {
        None => {
            return None;
        },
        Some(v) => v,
    };
    let mut n: usize = 0;
    assert(v@.skip(0) =~= v@);
    while n < v.len() && (('0' <= v[n] && v[n] <= '9') || v[n] == '.' || v[n] == '-' || v[n] == '+'
        || v[n] == 'e' || v[n] == 'E')
        invariant
            n <= v.len(),
            number_len(v@) == n + number_len(v@.skip(n as int)),
        decreases v.len() - n,
    {
        assert(v@.skip(n as int).drop_first() =~= v@.skip(n + 1));
        n = n + 1;
    }
    assert(number_len(v@.skip(n as int)) == 0);
    let text: &[char] = vstd::slice::slice_subrange(v, 0, n);
    assert(text@ =~= v@.take(n as int));
    Some(string_of(text))
}

/// A control character.
pub open spec fn is_control(c: char) -> bool {
    c <= '\u{1f}' || '\u{7f}' <= c <= '\u{9f}'
}

/// The characters that are no control characters, in order.
pub open spec fn printable(s: Seq<char>) -> Seq<char>
    decreases s.len(),
{
    if s.len() == 0 {
        Seq::empty()
    } else if is_control(s.last()) {
        printable(s.drop_last())
    } else {
        printable(s.drop_last()).push(s.last())
    }
}

/// A text that is safe to show: without control characters, short, and not
/// empty.
pub open spec fn sanitized(s: Seq<char>) -> Seq<char> {
    let clean = printable(s);
    let short = if clean.len() > MAX_NAME {
        clean.take(MAX_NAME as int)
    } else {
        clean
    };
    if short.len() == 0 {
        "?"@
    } else {
        short
    }
}

proof fn printable_is_clean(s: Seq<char>)
    ensures
        forall|i: int| 0 <= i < printable(s).len() ==> !is_control(#[trigger] printable(s)[i]),
        printable(s).len() <= s.len(),
    decreases s.len(),
{
    if s.len() > 0 {
        printable_is_clean(s.drop_last());
        let p = printable(s);
        let q = printable(s.drop_last());
        assert forall|i: int| 0 <= i < p.len() implies !is_control(#[trigger] p[i]) by {
            if i < q.len() {
                assert(p[i] == q[i]);
            }
        }
    }
}

/// A sanitised text is never empty, never long, and holds no control character.
pub proof fn sanitized_is_harmless(s: Seq<char>)
    ensures
        0 < sanitized(s).len() <= MAX_NAME,
        forall|i: int| 0 <= i < sanitized(s).len() ==> !is_control(#[trigger] sanitized(s)[i]),
{
    printable_is_clean(s);
    reveal_strlit("?");
    let r = sanitized(s);
    let clean = printable(s);
    assert forall|i: int| 0 <= i < r.len() implies !is_control(#[trigger] r[i]) by {
        if clean.len() > 0 {
            assert(r[i] == clean[i]);
        }
    }
}

/// Makes a text safe to show.
pub fn sanitize(s: &str) -> (r: String)
    ensures
        r@ == sanitized(s@),
{
    let cs: Vec<char> = chars(s);
    let mut clean: Vec<char> = Vec::new();
    let mut i: usize = 0;
    assert(cs@.take(0) =~= Seq::empty());
    while i < cs.len()
        invariant
            i <= cs.len(),
            clean@ == printable(cs@.take(i as int)),
        decreases cs.len() - i,
    {
        assert(cs@.take(i + 1).drop_last() =~= cs@.take(i as int));
        assert(cs@.take(i + 1).last() == cs@[i as int]);
        let c: char = cs[i];
        let control: bool = c <= '\u{1f}' || ('\u{7f}' <= c && c <= '\u{9f}');
        if !control {
            clean.push(c);
        }
        i = i + 1;
    }
    assert(cs@.take(cs@.len() as int) =~= cs@);
    if clean.len() == 0 {
        return "?".to_owned();
    }
    let n: usize = if clean.len() > MAX_NAME {
        MAX_NAME
    } else {
        clean.len()
    };
    let short: &[char] = vstd::slice::slice_subrange(clean.as_slice(), 0, n);
    assert(short@ =~= clean@.take(n as int));
    assert(clean@.take(clean@.len() as int) =~= clean@);
    string_of(short)
}

/// One record. The numbers are kept as the answer writes them.
pub struct Record {
    pub time: String,
    pub name: String,
    pub sync: Option<String>,
    pub strafes: Option<String>,
}

/// The value of a `Record`.
#[verifier::ext_equal]
pub struct RecordView {
    pub time: Seq<char>,
    pub name: Seq<char>,
    pub sync: Option<Seq<char>>,
    pub strafes: Option<Seq<char>>,
}

impl View for Record {
    type V = RecordView;

    open spec fn view(&self) -> RecordView {
        RecordView {
            time: self.time@,
            name: self.name@,
            sync: text_view(self.sync),
            strafes: text_view(self.strafes),
        }
    }
}

/// The values of a list of records.
pub open spec fn record_views(v: Seq<Record>) -> Seq<RecordView> {
    Seq::new(v.len(), |i: int| v[i]@)
}

/// A text, or a question mark.
pub open spec fn or_unknown(t: Option<Seq<char>>) -> Seq<char> {
    match t {
        Some(s) => s,
        None => "?"@,
    }
}

/// The record of an object that has a time or a name.
pub open spec fn record_of(object: Seq<char>) -> Option<RecordView> {
    let time = string_of_field(object, "time"@);
    let name = string_of_field(object, "name"@);
    if time is None && name is None {
        None
    } else {
        Some(
            RecordView {
                time: sanitized(or_unknown(time)),
                name: sanitized(or_unknown(name)),
                sync: number_of_field(object, "sync"@),
                strafes: number_of_field(object, "strafes"@),
            },
        )
    }
}

/// The records of the first `n` objects.
pub open spec fn records_in(objects: Seq<Seq<char>>, n: int) -> Seq<RecordView>
    decreases n,
{
    if n <= 0 {
        Seq::empty()
    } else {
        match record_of(objects[n - 1]) {
            Some(r) => records_in(objects, n - 1).push(r),
            None => records_in(objects, n - 1),
        }
    }
}

/// The first `limit` records of an answer, or all of them where there are fewer.
pub open spec fn first_records(json: Seq<char>, limit: int) -> Seq<RecordView> {
    let all = records_in(objects_of(json), objects_of(json).len() as int);
    if all.len() > limit {
        all.take(limit)
    } else {
        all
    }
}

fn known_or(t: Option<String>) -> (r: String)
    ensures
        r@ == or_unknown(text_view(t)),
{
    match t {
        Some(s) => s,
        None => "?".to_owned(),
    }
}

/// The record of an object.
fn parse_record(object: &str) -> (r: Option<Record>)
    ensures
        match r {
            Some(x) => record_of(object@) == Some(x@),
            None => record_of(object@) is None,
        },
{
    let time: Option<String> = str_field(object, "time");
    let name: Option<String> = str_field(object, "name");
    if time.is_none() && name.is_none() {
        return None;
    }
    let time_text: String = known_or(time);
    let name_text: String = known_or(name);
    let record: Record = Record {
        time: sanitize(time_text.as_str()),
        name: sanitize(name_text.as_str()),
        sync: num_field(object, "sync"),
        strafes: num_field(object, "strafes"),
    };
    Some(record)
}

proof fn records_grow(objects: Seq<Seq<char>>, a: int, b: int)
    requires
        a <= b,
    ensures
        records_in(objects, a).len() <= records_in(objects, b).len(),
        records_in(objects, b).take(records_in(objects, a).len() as int) == records_in(objects, a),
    decreases b - a,
{
    if a < b {
        records_grow(objects, a, b - 1);
        let n = records_in(objects, a).len() as int;
        assert(records_in(objects, b).take(n) =~= records_in(objects, b - 1).take(n));
    } else {
        assert(records_in(objects, b).take(records_in(objects, a).len() as int) =~= records_in(
            objects,
            a,
        ));
    }
}

/// Reads the first records of an answer, in its order.
pub fn parse_records(json: &str, limit: usize) -> (r: Vec<Record>)
    ensures
        record_views(r@) == first_records(json@, limit as int),
{
    let objects: Vec<String> = split_objects(json);
    let ghost all = string_views(objects@);
    let mut out: Vec<Record> = Vec::new();
    let mut i: usize = 0;
    assert(record_views(out@) =~= Seq::empty());
    if limit == 0 {
        assert(record_views(out@) =~= first_records(json@, 0));
        return out;
    }
    while i < objects.len()
        invariant
            i <= objects.len(),
            all == string_views(objects@),
            all == objects_of(json@),
            record_views(out@) == records_in(all, i as int),
            out@.len() < limit,
        decreases objects.len() - i,
    {
        let ghost before = record_views(out@);
        assert(all[i as int] == objects@[i as int]@);
        match parse_record(objects[i].as_str()) {
            Some(record) => {
                out.push(record);
                assert(record_views(out@) =~= before.push(record@));
                assert(record_views(out@) == records_in(all, i + 1));
                if out.len() >= limit {
                    proof {
                        records_grow(all, i + 1, all.len() as int);
                        let n = record_views(out@).len() as int;
                        assert(records_in(all, all.len() as int).take(n) == record_views(out@));
                        if records_in(all, all.len() as int).len() == n {
                            assert(records_in(all, all.len() as int).take(n) =~= records_in(
                                all,
                                all.len() as int,
                            ));
                        }
                    }
                    return out;
                }
            },
            None => {},
        }
        i = i + 1;
    }
    out
}

/// A character that the game's console takes as it is.
pub open spec fn is_echo_char(c: char) -> bool {
    'a' <= c <= 'z' || 'A' <= c <= 'Z' || '0' <= c <= '9' || c == ' ' || c == '.' || c == ':' || c
        == '%' || c == '(' || c == ')' || c == '-' || c == '_'
}

/// A line with blanks for all other characters.
pub open spec fn echo_chars(line: Seq<char>) -> Seq<char> {
    Seq::new(
        line.len(),
        |i: int|
            if is_echo_char(line[i]) {
                line[i]
            } else {
                ' '
            },
    )
}

/// The console command that shows a line.
pub open spec fn echo_command(line: Seq<char>) -> Seq<char> {
    "echo "@ + trimmed(echo_chars(line))
}

/// The console command that shows a line.
pub fn echo_line(line: &str) -> (r: String)
    ensures
        r@ == echo_command(line@),
{
    let cs: Vec<char> = chars(line);
    let mut safe: Vec<char> = Vec::new();
    let mut i: usize = 0;
    while i < cs.len()
        invariant
            i <= cs.len(),
            safe@.len() == i,
            forall|j: int| 0 <= j < i ==> #[trigger] safe@[j] == echo_chars(cs@)[j],
        decreases cs.len() - i,
    {
        let c: char = cs[i];
        let good: bool = ('a' <= c && c <= 'z') || ('A' <= c && c <= 'Z') || ('0' <= c && c <= '9')
            || c == ' ' || c == '.' || c == ':' || c == '%' || c == '(' || c == ')' || c == '-' || c
            == '_';
        safe.push(
            if good {
                c
            } else {
                ' '
            },
        );
        i = i + 1;
    }
    assert(safe@ =~= echo_chars(cs@));
    let text: String = string_of(trim(safe.as_slice()));
    let mut out: String = "echo ".to_owned();
    out.append(text.as_str());
    out
}

proof fn trimmed_is_part(s: Seq<char>)
    ensures
        forall|c: char| trimmed(s).contains(c) ==> s.contains(c),
{
    start_is_part(s);
    end_is_part(trim_start(s));
}

proof fn start_is_part(s: Seq<char>)
    ensures
        forall|c: char| trim_start(s).contains(c) ==> s.contains(c),
    decreases s.len(),
{
    if s.len() > 0 && is_white(s[0]) {
        let t = s.drop_first();
        start_is_part(t);
        assert forall|c: char| t.contains(c) implies s.contains(c) by {
            let i = choose|i: int| 0 <= i < t.len() && t[i] == c;
            assert(s[i + 1] == c);
        }
    }
}

proof fn end_is_part(s: Seq<char>)
    ensures
        forall|c: char| trim_end(s).contains(c) ==> s.contains(c),
    decreases s.len(),
{
    if s.len() > 0 && is_white(s.last()) {
        let t = s.drop_last();
        end_is_part(t);
        assert forall|c: char| t.contains(c) implies s.contains(c) by {
            let i = choose|i: int| 0 <= i < t.len() && t[i] == c;
            assert(s[i] == c);
        }
    }
}

/// Whatever a line holds, the command that shows it is one plain command: no
/// quote, no semicolon, no line end and no control character is left.
pub proof fn echo_is_one_command(line: Seq<char>)
    ensures
        forall|c: char| echo_command(line).contains(c) ==> is_echo_char(c),
{
    let body = trimmed(echo_chars(line));
    trimmed_is_part(echo_chars(line));
    reveal_strlit("echo ");
    assert forall|c: char| echo_command(line).contains(c) implies is_echo_char(c) by {
        let all = echo_command(line);
        let i = choose|i: int| 0 <= i < all.len() && all[i] == c;
        if i >= 5 {
            assert(body[i - 5] == c);
            assert(body.contains(c));
            assert(echo_chars(line).contains(c));
            let j = choose|j: int| 0 <= j < echo_chars(line).len() && echo_chars(line)[j] == c;
        } else {
            assert("echo "@[i] == c);
        }
    }
}

/// One row of the list of records. The first is the world record. `sync` and
/// `strafes` are the numbers as they are shown.
pub fn record_row(first: bool, time: &str, name: &str, sync: &str, strafes: &str) -> (r: String)
    ensures
        r@ == "  "@ + (if first {
            "WR"@
        } else {
            "  "@
        }) + " "@ + padded(time@, 10) + " "@ + name@ + "  (sync "@ + sync@ + "%, "@ + strafes@
            + " strafes)"@,
{
    let mut out: String = "  ".to_owned();
    out.append(
        if first {
            "WR"
        } else {
            "  "
        },
    );
    out.append(" ");
    push_padded(&mut out, time, 10);
    out.append(" ");
    out.append(name);
    out.append("  (sync ");
    out.append(sync);
    out.append("%, ");
    out.append(strafes);
    out.append(" strafes)");
    out
}

/// A record as it is shown: its numbers are texts.
pub struct Row {
    pub time: String,
    pub name: String,
    pub sync: String,
    pub strafes: String,
}

/// One row of the list of records.
pub open spec fn row_text(first: bool, r: Row) -> Seq<char> {
    "  "@ + (if first {
        "WR"@
    } else {
        "  "@
    }) + " "@ + padded(r.time@, 10) + " "@ + r.name@ + "  (sync "@ + r.sync@ + "%, "@
        + r.strafes@ + " strafes)"@
}

/// The lines that the log gets.
pub open spec fn report_lines(map: Seq<char>, rows: Seq<Row>) -> Seq<Seq<char>> {
    if rows.len() == 0 {
        seq!["sourcejump: no records for "@ + map]
    } else {
        seq!["sourcejump WRs for "@ + map + ":"@] + Seq::new(
            rows.len(),
            |i: int| row_text(i == 0, rows[i]),
        )
    }
}

/// The commands that the game's console gets.
pub open spec fn report_commands(map: Seq<char>, rows: Seq<Row>) -> Seq<Seq<char>> {
    if rows.len() == 0 {
        Seq::empty()
    } else {
        seq!["echo [SourceJump] "@ + map + ":"@] + Seq::new(
            rows.len(),
            |i: int| echo_command(row_text(i == 0, rows[i])),
        )
    }
}

/// What is told of a map's records: lines for the log, and commands for the
/// game's console.
pub fn report(map: &str, rows: &[Row]) -> (r: (Vec<String>, Vec<String>))
    ensures
        string_views(r.0@) == report_lines(map@, rows@),
        string_views(r.1@) == report_commands(map@, rows@),
{
    let mut log: Vec<String> = Vec::new();
    let mut commands: Vec<String> = Vec::new();
    if rows.len() == 0 {
        log.push(cat("sourcejump: no records for ", map));
        assert(string_views(log@) =~= report_lines(map@, rows@));
        assert(string_views(commands@) =~= report_commands(map@, rows@));
        return (log, commands);
    }
    let mut head: String = cat("sourcejump WRs for ", map);
    head.append(":");
    log.push(head);
    let mut command: String = cat("echo [SourceJump] ", map);
    command.append(":");
    commands.push(command);
    let ghost heads = (head@, command@);
    let mut i: usize = 0;
    assert(string_views(log@) =~= seq![heads.0] + Seq::new(
        0,
        |k: int| row_text(k == 0, rows@[k]),
    ));
    assert(string_views(commands@) =~= seq![heads.1] + Seq::new(
        0,
        |k: int| echo_command(row_text(k == 0, rows@[k])),
    ));
    while i < rows.len()
        invariant
            i <= rows.len(),
            string_views(log@) == seq![heads.0] + Seq::new(
                i as nat,
                |k: int| row_text(k == 0, rows@[k]),
            ),
            string_views(commands@) == seq![heads.1] + Seq::new(
                i as nat,
                |k: int| echo_command(row_text(k == 0, rows@[k])),
            ),
        decreases rows.len() - i,
    {
        let ghost before = (string_views(log@), string_views(commands@));
        let r: &Row = &rows[i];
        let line: String = record_row(
            i == 0,
            r.time.as_str(),
            r.name.as_str(),
            r.sync.as_str(),
            r.strafes.as_str(),
        );
        let echo: String = echo_line(line.as_str());
        let ghost added = (line@, echo@);
        log.push(line);
        commands.push(echo);
        assert(string_views(log@) =~= before.0.push(added.0));
        assert(string_views(commands@) =~= before.1.push(added.1));
        i = i + 1;
        assert(string_views(log@) =~= seq![heads.0] + Seq::new(
            i as nat,
            |k: int| row_text(k == 0, rows@[k]),
        ));
        assert(string_views(commands@) =~= seq![heads.1] + Seq::new(
            i as nat,
            |k: int| echo_command(row_text(k == 0, rows@[k])),
        ));
    }
    (log, commands)
}

/// A map that is named is looked up, unless it was shown last: it is what the
/// worker takes next, and where no worker runs one is started. Then it counts
/// as shown, and the worker ends where no other map is named.
pub proof fn a_named_map_is_looked_up(l: LookupsView, map: Seq<char>)
    requires
        !l.stopped,
        1 <= map.len() <= 64,
        forall|i: int| 0 <= i < map.len() ==> is_name_char(#[trigger] map[i]),
        map != l.shown,
    ensures
        l.named(map).1 == !l.inflight,
        l.named(map).0.taken().1 == Some(map),
        l.named(map).0.taken().0.shown == map,
        l.named(map).0.taken().0.named(map) == (l.named(map).0.taken().0, false),
        l.named(map).0.taken().0.taken().1 is None,
        !l.named(map).0.taken().0.taken().0.inflight,
{
}

/// Once lookups are over nothing is looked up.
pub proof fn stopped_looks_nothing_up(l: LookupsView, map: Seq<char>)
    requires
        l.stopped,
    ensures
        l.named(map) == (l, false),
        l.taken().1 is None,
{
}

proof fn skips_white(w: Seq<char>, rest: Seq<char>)
    requires
        forall|i: int| 0 <= i < w.len() ==> is_white(#[trigger] w[i]),
        rest.len() > 0 ==> !is_white(rest[0]),
    ensures
        trim_start(w + rest) == rest,
    decreases w.len(),
{
    if w.len() == 0 {
        assert(w + rest =~= rest);
    } else {
        assert((w + rest)[0] == w[0]);
        assert((w + rest).drop_first() =~= w.drop_first() + rest);
        skips_white(w.drop_first(), rest);
    }
}

/// A field is found behind its quoted key and the colon, whatever white space
/// stands around that.
pub proof fn fields_are_found(
    before: Seq<char>,
    key: Seq<char>,
    a: Seq<char>,
    b: Seq<char>,
    value: Seq<char>,
)
    requires
        forall|j: int|
            0 <= j < before.len() ==> !text_at(
                before + (seq!['"'] + key + seq!['"']) + a + seq![':'] + b + value,
                seq!['"'] + key + seq!['"'],
                j,
            ),
        forall|i: int| 0 <= i < a.len() ==> is_white(#[trigger] a[i]),
        forall|i: int| 0 <= i < b.len() ==> is_white(#[trigger] b[i]),
        value.len() > 0 ==> !is_white(value[0]),
    ensures
        value_of(
            before + (seq!['"'] + key + seq!['"']) + a + seq![':'] + b + value,
            key,
        ) == Some(value),
{
    let needle = seq!['"'] + key + seq!['"'];
    let s = before + needle + a + seq![':'] + b + value;
    let n = before.len() as int;
    assert(s.subrange(n, n + needle.len()) =~= needle);
    assert(text_at(s, needle, n));
    first_at_is(s, needle, 0, n);
    let rest = seq![':'] + b + value;
    assert(s.skip(n + needle.len()) =~= a + rest);
    assert(rest[0] == ':');
    skips_white(a, rest);
    assert(rest.skip(1) =~= b + value);
    skips_white(b, value);
}

/// A string is read up to its closing quote, and an escaped quote closes none;
/// a number up to the first character that is none of a number.
pub proof fn values_are_read(
    object: Seq<char>,
    key: Seq<char>,
    text: Seq<char>,
    number: Seq<char>,
    rest: Seq<char>,
)
    requires
        !text.contains('"'),
        !text.contains('\\'),
        forall|i: int| 0 <= i < number.len() ==> is_number_char(#[trigger] number[i]),
        rest.len() > 0 ==> !is_number_char(rest[0]),
    ensures
        value_of(object, key) == Some(seq!['"'] + text + seq!['"'] + rest) ==> string_of_field(
            object,
            key,
        ) == Some(text),
        value_of(object, key) == Some(number + rest) ==> number_of_field(object, key) == Some(
            number,
        ),
        value_of(object, key) is None ==> string_of_field(object, key) is None && number_of_field(
            object,
            key,
        ) is None,
{
    let v = seq!['"'] + text + seq!['"'] + rest;
    let body = v.skip(1);
    assert(v[0] == '"');
    assert(body =~= text + seq!['"'] + rest);
    assert forall|i: int| 0 <= i < text.len() implies body[i] != '"' && body[i] != '\\' by {
        assert(body[i] == text[i]);
        assert(text.contains(text[i]));
    }
    assert(body[text.len() as int] == '"');
    string_end_is(body, 0, text.len() as int);
    assert(body.take(text.len() as int) =~= text);
    number_len_is(number, rest);
    assert((number + rest).take(number.len() as int) =~= number);
}

proof fn string_end_is(s: Seq<char>, i: int, end: int)
    requires
        0 <= i <= end < s.len(),
        forall|j: int| 0 <= j < end ==> s[j] != '"' && s[j] != '\\',
        s[end] == '"',
    ensures
        string_end(s, i, false) == end,
    decreases end - i,
{
    if i < end {
        string_end_is(s, i + 1, end);
    }
}

/// A quote behind a backslash does not end a string.
pub proof fn escaped_quotes_end_no_string(s: Seq<char>, i: int)
    requires
        0 <= i,
        i + 1 < s.len(),
        s[i] == '\\',
    ensures
        string_end(s, i, false) == string_end(s, i + 2, false),
{
    reveal_with_fuel(string_end, 3);
}

proof fn number_len_is(number: Seq<char>, rest: Seq<char>)
    requires
        forall|i: int| 0 <= i < number.len() ==> is_number_char(#[trigger] number[i]),
        rest.len() > 0 ==> !is_number_char(rest[0]),
    ensures
        number_len(number + rest) == number.len(),
    decreases number.len(),
{
    if number.len() == 0 {
        assert(number + rest =~= rest);
    } else {
        assert((number + rest)[0] == number[0]);
        assert((number + rest).drop_first() =~= number.drop_first() + rest);
        number_len_is(number.drop_first(), rest);
    }
}

/// A name that is harmless already is shown as it is; a longer one with its
/// first 24 characters, and each control character is left out.
pub proof fn harmless_names_are_shown(s: Seq<char>, c: char)
    ensures
        (forall|i: int| 0 <= i < s.len() ==> !is_control(#[trigger] s[i])) ==> printable(s) == s,
        (forall|i: int| 0 <= i < s.len() ==> !is_control(#[trigger] s[i])) && 0 < s.len() <= 24
            ==> sanitized(s) == s,
        (forall|i: int| 0 <= i < s.len() ==> !is_control(#[trigger] s[i])) && s.len() > 24
            ==> sanitized(s) == s.take(24),
        is_control(c) ==> printable(s.push(c)) == printable(s) && sanitized(s.push(c))
            == sanitized(s),
        !is_control(c) ==> printable(s.push(c)) == printable(s).push(c),
        is_control(c) <==> (c as int) < 32 || 127 <= c as int <= 159,
    decreases s.len(),
{
    assert(s.push(c).drop_last() =~= s);
    if s.len() > 0 {
        harmless_names_are_shown(s.drop_last(), c);
        if forall|i: int| 0 <= i < s.len() ==> !is_control(#[trigger] s[i]) {
            assert forall|i: int| 0 <= i < s.drop_last().len() implies !is_control(
                #[trigger] s.drop_last()[i],
            ) by {
                assert(!is_control(s[i]));
            }
            assert(!is_control(s[s.len() - 1]));
            assert(s =~= s.drop_last().push(s.last()));
        }
    } else {
        assert(printable(s) =~= s);
    }
}

/// Every object that has a time or a name is a record, in the order of the
/// answer, and no other is.
pub proof fn records_follow_the_answer(json: Seq<char>, limit: int, i: int)
    requires
        0 <= i < objects_of(json).len(),
        i < limit,
        forall|j: int|
            0 <= j < objects_of(json).len() ==> record_of(#[trigger] objects_of(json)[j]) is Some,
    ensures
        i < first_records(json, limit).len(),
        first_records(json, limit)[i] == record_of(objects_of(json)[i])->0,
        first_records(json, limit).len() == if objects_of(json).len() > limit {
            limit
        } else {
            objects_of(json).len() as int
        },
{
    let objects = objects_of(json);
    all_are_records(objects, objects.len() as int, i);
}

proof fn all_are_records(objects: Seq<Seq<char>>, n: int, i: int)
    requires
        0 <= n <= objects.len(),
        forall|j: int| 0 <= j < objects.len() ==> record_of(#[trigger] objects[j]) is Some,
    ensures
        records_in(objects, n).len() == n,
        0 <= i < n ==> records_in(objects, n)[i] == record_of(objects[i])->0,
    decreases n,
{
    if n > 0 {
        all_are_records(objects, n - 1, i);
        assert(record_of(objects[n - 1]) is Some);
    }
}

/// An object without a time and a name is passed over, and the others stay.
pub proof fn other_objects_are_passed_over(objects: Seq<Seq<char>>, n: int)
    requires
        0 < n <= objects.len(),
    ensures
        string_of_field(objects[n - 1], "time"@) is None && string_of_field(
            objects[n - 1],
            "name"@,
        ) is None ==> records_in(objects, n) == records_in(objects, n - 1),
        string_of_field(objects[n - 1], "time"@) is Some || string_of_field(
            objects[n - 1],
            "name"@,
        ) is Some ==> records_in(objects, n).len() == records_in(objects, n - 1).len() + 1
            && records_in(objects, n).drop_last() == records_in(objects, n - 1),
{
    if record_of(objects[n - 1]) is Some {
        assert(records_in(objects, n).drop_last() =~= records_in(objects, n - 1));
    }
}

/// What a record says of a run: the time and the name of the object, made
/// harmless, with a question mark for what is missing, and its numbers.
pub proof fn a_record_is_what_the_object_says(object: Seq<char>)
    requires
        record_of(object) is Some,
    ensures
        ({
            let r = record_of(object)->0;
            &&& string_of_field(object, "time"@) matches Some(t) ==> r.time == sanitized(t)
            &&& string_of_field(object, "name"@) matches Some(t) ==> r.name == sanitized(t)
            &&& string_of_field(object, "time"@) is None ==> r.time == "?"@
            &&& string_of_field(object, "name"@) is None ==> r.name == "?"@
            &&& r.sync == number_of_field(object, "sync"@)
            &&& r.strafes == number_of_field(object, "strafes"@)
        }),
{
    reveal_strlit("?");
    harmless_names_are_shown("?"@, '?');
}

/// A plain line is shown as it is.
pub proof fn plain_lines_are_echoed(line: Seq<char>)
    requires
        forall|i: int| 0 <= i < line.len() ==> is_echo_char(#[trigger] line[i]),
        line.len() > 0 ==> line[0] != ' ' && line.last() != ' ',
    ensures
        echo_command(line) == "echo "@ + line,
{
    assert(echo_chars(line) =~= line);
    if line.len() > 0 {
        assert(is_echo_char(line[0]));
        assert(is_echo_char(line[line.len() - 1]));
    }
    trimming_takes_the_space_around(Seq::empty(), line, Seq::empty());
    assert(Seq::<char>::empty() + line + Seq::empty() =~= line);
}

/// The report has a line for each row, in order, behind its head, and the
/// console gets as many; the first row and no other is marked.
pub proof fn the_report_shows_every_row(map: Seq<char>, rows: Seq<Row>, i: int)
    requires
        0 <= i < rows.len(),
    ensures
        report_lines(map, rows).len() == rows.len() + 1,
        report_commands(map, rows).len() == rows.len() + 1,
        report_commands(map, rows)[i + 1] == echo_command(report_lines(map, rows)[i + 1]),
        report_lines(map, rows)[i + 1] == "  "@ + (if i == 0 {
            "WR"@
        } else {
            "  "@
        }) + " "@ + padded(rows[i].time@, 10) + " "@ + rows[i].name@ + "  (sync "@ + rows[i].sync@
            + "%, "@ + rows[i].strafes@ + " strafes)"@,
        report_lines(map, Seq::empty()).len() == 1,
        report_commands(map, Seq::empty()).len() == 0,
{
}

/// Whether a string is open behind the first `n` characters of a text.
pub open spec fn in_string(s: Seq<char>, n: int) -> bool
    decreases n,
{
    if n <= 0 {
        false
    } else if in_string(s, n - 1) {
        escaped(s, n - 1) || s[n - 1] != '"'
    } else {
        s[n - 1] == '"'
    }
}

/// Whether the character behind the first `n` is escaped: a backslash stands
/// before it in a string, which is not escaped itself.
pub open spec fn escaped(s: Seq<char>, n: int) -> bool
    decreases n,
{
    n > 0 && in_string(s, n - 1) && s[n - 1] == '\\' && !escaped(s, n - 1)
}

/// A text with no brace outside its strings, all of which are closed.
pub open spec fn flat(s: Seq<char>) -> bool {
    &&& !in_string(s, s.len() as int)
    &&& forall|i: int|
        0 <= i < s.len() && !in_string(s, i) ==> #[trigger] s[i] != '{' && s[i] != '}'
}

/// The reader over a flat text.
proof fn flat_keeps_the_cursor(
    s: Seq<char>,
    at: int,
    part: Seq<char>,
    n: int,
    k: Cursor,
    left: int,
)
    requires
        0 <= at,
        at + part.len() <= s.len(),
        part == s.subrange(at, at + part.len()),
        forall|i: int|
            0 <= i < part.len() && !in_string(part, i) ==> #[trigger] part[i] != '{' && part[i]
                != '}',
        0 <= n <= part.len(),
        !k.in_str,
        !k.esc,
        left > 0,
    ensures
        objects_from(s, at, k, left) == objects_from(
            s,
            at + n,
            Cursor { in_str: in_string(part, n), esc: escaped(part, n), ..k },
            left,
        ),
    decreases n,
{
    if n > 0 {
        flat_keeps_the_cursor(s, at, part, n - 1, k, left);
        assert(s[at + n - 1] == part[n - 1]);
        let c = Cursor { in_str: in_string(part, n - 1), esc: escaped(part, n - 1), ..k };
        let d = Cursor { in_str: in_string(part, n), esc: escaped(part, n), ..k };
        if !in_string(part, n - 1) {
            assert(part[n - 1] != '{' && part[n - 1] != '}');
            assert(!escaped(part, n - 1)) by {
                escaped_is_in_string(part, n - 1);
            }
        }
        assert(advanced(c, part[n - 1], at + n - 1) == d);
        assert(at + n == (at + n - 1) + 1);
    } else {
        assert(Cursor { in_str: in_string(part, 0), esc: escaped(part, 0), ..k } == k);
    }
}

proof fn escaped_is_in_string(s: Seq<char>, n: int)
    ensures
        escaped(s, n) ==> in_string(s, n),
{
}

proof fn objects_shift(a: Seq<char>, b: Seq<char>, i: int, k: Cursor, left: int)
    requires
        0 <= i,
        a.len() + b.len() <= usize::MAX,
        k.start <= i,
        k.depth <= i,
        i <= b.len(),
    ensures
        objects_from(
            a + b,
            a.len() + i,
            Cursor { start: (k.start + a.len()) as usize, ..k },
            left,
        ) == objects_from(b, i, k, left),
    decreases b.len() - i,
{
    if i < b.len() && left > 0 {
        let s = a + b;
        let n = a.len() as int;
        let j = Cursor { start: (k.start + a.len()) as usize, ..k };
        assert(s[n + i] == b[i]);
        let next = advanced(k, b[i], i);
        let moved = advanced(j, b[i], n + i);
        assert(moved == (Cursor { start: (next.start + a.len()) as usize, ..next }));
        assert(next.start <= i && next.depth <= i + 1);
        assert(n + (i + 1) == (n + i) + 1);
        if closes(k, b[i]) {
            objects_shift(a, b, i + 1, next, left - 1);
            assert(s.subrange(n + next.start, n + i + 1) =~= b.subrange(next.start as int, i + 1));
        } else {
            objects_shift(a, b, i + 1, next, left);
        }
    }
}

proof fn start_is_no_matter(s: Seq<char>, i: int, a: Cursor, b: Cursor, left: int)
    requires
        a.depth == 0,
        b == (Cursor { start: b.start, ..a }),
    ensures
        objects_from(s, i, a, left) == objects_from(s, i, b, left),
    decreases s.len() - i,
{
    if 0 <= i < s.len() && left > 0 {
        let x = advanced(a, s[i], i);
        let y = advanced(b, s[i], i);
        if x.depth == 0 {
            start_is_no_matter(s, i + 1, x, y, left);
        } else {
            assert(x == y);
        }
    }
}

/// Every object of an answer is split off whole: behind a text without braces
/// outside strings, an object from its opening brace to its closing one, and
/// then those of the rest.
pub proof fn objects_are_split_off(gap: Seq<char>, body: Seq<char>, rest: Seq<char>, left: int)
    requires
        flat(gap),
        flat(body),
        left > 0,
        gap.len() + body.len() + 2 + rest.len() <= usize::MAX,
    ensures
        ({
            let start = Cursor { depth: 0, start: 0, in_str: false, esc: false };
            objects_from(gap + seq!['{'] + body + seq!['}'] + rest, 0, start, left) == seq![
                seq!['{'] + body + seq!['}'],
            ] + objects_from(rest, 0, start, left - 1)
        }),
{
    let k = Cursor { depth: 0, start: 0, in_str: false, esc: false };
    let head = gap + seq!['{'] + body + seq!['}'];
    let s = head + rest;
    assert(gap + seq!['{'] + body + seq!['}'] + rest =~= s);
    let g = gap.len() as int;
    let e = g + 1 + body.len();
    assert(gap =~= s.subrange(0, g));
    escaped_is_in_string(gap, g);
    flat_keeps_the_cursor(s, 0, gap, g, k, left);
    assert(s[g] == '{');
    let k1 = Cursor { depth: 1, start: g as usize, in_str: false, esc: false };
    assert(advanced(k, '{', g) == k1);
    assert(objects_from(s, g, k, left) == objects_from(s, g + 1, k1, left));
    assert(body =~= s.subrange(g + 1, g + 1 + body.len()));
    escaped_is_in_string(body, body.len() as int);
    flat_keeps_the_cursor(s, g + 1, body, body.len() as int, k1, left);
    assert(s[e] == '}');
    let k2 = Cursor { depth: 0, start: g as usize, in_str: false, esc: false };
    assert(advanced(k1, '}', e) == k2);
    assert(s.subrange(g, e + 1) =~= seq!['{'] + body + seq!['}']);
    assert(objects_from(s, e, k1, left) == seq![s.subrange(g, e + 1)] + objects_from(
        s,
        e + 1,
        k2,
        left - 1,
    ));
    let k3 = Cursor { depth: 0, start: (0 + head.len()) as usize, in_str: false, esc: false };
    start_is_no_matter(s, e + 1, k2, k3, left - 1);
    objects_shift(head, rest, 0, k, left - 1);
}

/// Of an answer at most 64 objects are looked at, and the first are.
pub proof fn few_objects_are_looked_at(s: Seq<char>, i: int, k: Cursor, left: int)
    requires
        0 <= left,
    ensures
        objects_from(s, i, k, left).len() <= left,
        MAX_OBJECTS == 64,
    decreases s.len() - i,
{
    if 0 <= i < s.len() && left > 0 {
        let next = advanced(k, s[i], i);
        if closes(k, s[i]) {
            few_objects_are_looked_at(s, i + 1, next, left - 1);
        } else {
            few_objects_are_looked_at(s, i + 1, next, left);
        }
    }
}

/// Three records are shown, of at most half a megabyte of answer, from the
/// address of the map's records.
pub proof fn few_records_are_shown()
    ensures
        SHOW_ROWS == 3,
        MAX_BODY == 512 * 1024,
        API_BASE@ == "https://sourcejump.net/api/records/"@,
{
}

} // verus!
