//! Byte patterns with wildcards, as disassemblers print them.
use vstd::prelude::*;

use crate::bytes::ascending;
use crate::text::{
    char_views, chars, hex_digit, hex_value, is_white, word_len_is, words, words_of,
};

verus! {

/// A byte pattern with wildcards, written the way every disassembler prints
/// it: `"F3 0F 58 ?? 74 12 00 00"`. `??` (or `?`) matches any byte.
#[derive(Debug, PartialEq)]
pub struct Pattern(Vec<Option<u8>>);

/// What one word of a pattern stands for: `Some(None)` is a wildcard,
/// `Some(Some(b))` the byte `b`, `None` a malformed word. A byte is two
/// hexadecimal digits.
pub open spec fn word_byte(w: Seq<char>) -> Option<Option<u8>> {
    if w == seq!['?'] || w == seq!['?', '?'] {
        Some(None)
    } else if w.len() == 2 && hex_value(w[0]) is Some && hex_value(w[1]) is Some {
        Some(Some((hex_value(w[0])->0 * 16 + hex_value(w[1])->0) as u8))
    } else {
        None
    }
}

/// The pattern that a spec describes: one byte or wildcard per word, and
/// nothing if a word is malformed or there is none.
pub open spec fn pattern_of(spec: Seq<char>) -> Option<Seq<Option<u8>>> {
    let ws = words_of(spec);
    if ws.len() == 0 || exists|i: int| 0 <= i < ws.len() && word_byte(#[trigger] ws[i]) is None {
        None
    } else {
        Some(Seq::new(ws.len(), |i: int| word_byte(ws[i])->0))
    }
}

/// A pattern matches the bytes of `hay` from `at` on.
pub open spec fn pattern_at(p: Seq<Option<u8>>, hay: Seq<u8>, at: int) -> bool {
    &&& 0 <= at
    &&& at + p.len() <= hay.len()
    &&& forall|i: int|
        0 <= i < p.len() ==> (#[trigger] p[i] is None || p[i] == Some(hay[at + i]))
}

/// `i` is the first match of `p` in `hay` at or after `from`.
pub open spec fn first_match(p: Seq<Option<u8>>, hay: Seq<u8>, from: int, i: int) -> bool {
    &&& from <= i
    &&& pattern_at(p, hay, i)
    &&& forall|j: int| from <= j < i ==> !pattern_at(p, hay, j)
}

/// The matches of `p` in `hay` before position `n`, in order.
pub open spec fn matches_before(p: Seq<Option<u8>>, hay: Seq<u8>, n: int) -> Seq<int>
    decreases n,
{
    if n <= 0 {
        Seq::empty()
    } else if pattern_at(p, hay, n - 1) {
        matches_before(p, hay, n - 1).push(n - 1)
    } else {
        matches_before(p, hay, n - 1)
    }
}

/// Every match of `p` in `hay`, in order.
pub open spec fn matches_of(p: Seq<Option<u8>>, hay: Seq<u8>) -> Seq<int> {
    matches_before(p, hay, hay.len() as int)
}

/// Indices as integers.
pub open spec fn index_views(v: Seq<usize>) -> Seq<int> {
    Seq::new(v.len(), |i: int| v[i] as int)
}

/// An ascending list of the matches before `n` is the list of them.
proof fn ascending_matches(p: Seq<Option<u8>>, hay: Seq<u8>, n: int, r: Seq<usize>)
    requires
        0 <= n <= usize::MAX,
        ascending(r),
        forall|i: usize| r.contains(i) <==> i < n && pattern_at(p, hay, i as int),
    ensures
        index_views(r) == matches_before(p, hay, n),
    decreases n,
{
    if n == 0 {
        if r.len() > 0 {
            assert(r.contains(r[0]));
        }
        assert(index_views(r) =~= Seq::empty());
    } else {
        let last = (n - 1) as usize;
        if pattern_at(p, hay, n - 1) {
            assert(r.contains(last));
            let k = choose|k: int| 0 <= k < r.len() && r[k] == last;
            assert(r.contains(r.last()));
            assert(k == r.len() - 1);
            let s = r.drop_last();
            assert forall|i: usize| s.contains(i) <==> i < n - 1 && pattern_at(
                p,
                hay,
                i as int,
            ) by {
                if s.contains(i) {
                    let j = choose|j: int| 0 <= j < s.len() && s[j] == i;
                    assert(r[j] == i);
                    assert(r.contains(i));
                }
                if i < n - 1 && pattern_at(p, hay, i as int) {
                    assert(r.contains(i));
                    let j = choose|j: int| 0 <= j < r.len() && r[j] == i;
                    assert(s[j] == i);
                }
            }
            ascending_matches(p, hay, n - 1, s);
            assert(index_views(r) =~= index_views(s).push(n - 1));
        } else {
            assert forall|i: usize| r.contains(i) <==> i < n - 1 && pattern_at(
                p,
                hay,
                i as int,
            ) by {}
            ascending_matches(p, hay, n - 1, r);
        }
    }
}

/// `p` matches somewhere in `hay`.
pub open spec fn pattern_in(p: Seq<Option<u8>>, hay: Seq<u8>) -> bool {
    exists|i: int| pattern_at(p, hay, i)
}

/// Reads one word of a pattern.
fn parse_word(w: &[char]) -> (r: Option<Option<u8>>)
    ensures
        r == word_byte(w@),
{
    if w.len() == 1 {
        if w[0] == '?' {
            assert(w@ =~= seq!['?']);
            return Some(None);
        }
        return None;
    }
    if w.len() != 2 {
        return None;
    }
    if w[0] == '?' && w[1] == '?' {
        assert(w@ =~= seq!['?', '?']);
        return Some(None);
    }
    match hex_digit(w[0]) {
        None => None,
        Some(high) => match hex_digit(w[1]) {
            None => None,
            Some(low) => Some(Some(high * 16 + low)),
        },
    }
}

impl View for Pattern {
    type V = Seq<Option<u8>>;

    closed spec fn view(&self) -> Seq<Option<u8>> {
        self.0@
    }
}

impl Clone for Pattern {
    fn clone(&self) -> (r: Self)
        ensures
            r@ == self@,
    {
        proof {
            use_type_invariant(self);
        }
        let mut out: Vec<Option<u8>> = Vec::new();
        let mut i: usize = 0;
        while i < self.0.len()
            invariant
                i <= self@.len(),
                out@ == self@.take(i as int),
            decreases self@.len() - i,
        {
            out.push(self.0[i]);
            i = i + 1;
            assert(out@ =~= self@.take(i as int));
        }
        assert(out@ =~= self@);
        Pattern(out)
    }
}

impl Pattern {
    /// A pattern is never empty.
    #[verifier::type_invariant]
    spec fn nonempty(self) -> bool {
        self.0@.len() > 0
    }

    /// Parses a pattern spec. Returns `None` if it is malformed or empty, so a
    /// typo in a literal fails at the call site instead of silently matching
    /// nothing.
    pub fn parse(spec: &str) -> (r: Option<Pattern>)
        ensures
            match r {
                Some(p) => pattern_of(spec@) == Some(p@) && p@.len() > 0,
                None => pattern_of(spec@) is None,
            },
    {
        let cs: Vec<char> = chars(spec);
        let ws: Vec<Vec<char>> = words(cs.as_slice());
        let mut out: Vec<Option<u8>> = Vec::new();
        let mut i: usize = 0;
        while i < ws.len()
            invariant
                i <= ws@.len(),
                char_views(ws@) == words_of(spec@),
                out@.len() == i,
                forall|j: int|
                    0 <= j < i ==> word_byte(#[trigger] words_of(spec@)[j]) == Some(out@[j]),
            decreases ws@.len() - i,
        {
            assert(words_of(spec@)[i as int] == ws@[i as int]@);
            match parse_word(ws[i].as_slice()) {
                Some(b) => {
                    out.push(b);
                },
                None => {
                    return None;
                },
            }
            i = i + 1;
        }
        if out.len() == 0 {
            return None;
        }
        assert(out@ =~= pattern_of(spec@)->0);
        Some(Pattern(out))
    }

    /// How many bytes a match covers.
    pub fn len(&self) -> (n: usize)
        ensures
            n == self@.len(),
            n > 0,
    {
        proof {
            use_type_invariant(self);
        }
        self.0.len()
    }

    /// Byte index of each wildcard, in order. Used to pull a struct offset out
    /// of a matched instruction's displacement field.
    pub fn wildcards(&self) -> (r: Vec<usize>)
        ensures
            ascending(r@),
            forall|i: usize|
                r@.contains(i) <==> i < self@.len() && self@[i as int] is None,
    {
        let mut out: Vec<usize> = Vec::new();
        let mut i: usize = 0;
        while i < self.0.len()
            invariant
                i <= self@.len(),
                ascending(out@),
                forall|k: int| 0 <= k < out@.len() ==> out@[k] < i,
                forall|j: usize|
                    out@.contains(j) <==> j < i && self@[j as int] is None,
            decreases self@.len() - i,
        {
            if self.0[i].is_none() {
                let ghost before = out@;
                out.push(i);
                assert forall|j: usize|
                    out@.contains(j) <==> j < i + 1 && self@[j as int] is None by {
                    if out@.contains(j) && j != i {
                        let k = choose|k: int| 0 <= k < out@.len() && out@[k] == j;
                        assert(before[k] == j);
                    }
                    if before.contains(j) {
                        let k = choose|k: int| 0 <= k < before.len() && before[k] == j;
                        assert(out@[k] == j);
                    }
                    assert(out@[before.len() as int] == i);
                }
            }
            i = i + 1;
        }
        out
    }

    /// Whether the bytes of `hay` from `at` on match.
    pub fn matches_at(&self, hay: &[u8], at: usize) -> (r: bool)
        ensures
            r == pattern_at(self@, hay@, at as int),
    {
        if self.0.len() > hay.len() || at > hay.len() - self.0.len() {
            return false;
        }
        let mut i: usize = 0;
        while i < self.0.len()
            invariant
                i <= self@.len(),
                at + self@.len() <= hay.len(),
                forall|j: int|
                    0 <= j < i ==> (#[trigger] self@[j] is None || self@[j] == Some(hay@[at + j])),
            decreases self@.len() - i,
        {
            match self.0[i] {
                Some(want) => {
                    if want != hay[at + i] {
                        assert(self@[i as int] == Some(want));
                        return false;
                    }
                },
                None => {},
            }
            i = i + 1;
        }
        true
    }

    /// The first match at or after `from`.
    pub fn find_from(&self, hay: &[u8], from: usize) -> (r: Option<usize>)
        ensures
            match r {
                Some(i) => first_match(self@, hay@, from as int, i as int),
                None => forall|i: int| from <= i ==> !pattern_at(self@, hay@, i),
            },
    {
        if self.0.len() > hay.len() {
            return None;
        }
        let last: usize = hay.len() - self.0.len();
        let mut i: usize = from;
        while i <= last
            invariant
                from <= i,
                last == hay@.len() - self@.len(),
                forall|j: int| from <= j < i ==> !pattern_at(self@, hay@, j),
            decreases last + 1 - i,
        {
            if self.matches_at(hay, i) {
                return Some(i);
            }
            if i == usize::MAX {
                return None;
            }
            i = i + 1;
        }
        None
    }

    /// The first match.
    pub fn find(&self, hay: &[u8]) -> (r: Option<usize>)
        ensures
            match r {
                Some(i) => first_match(self@, hay@, 0, i as int),
                None => !pattern_in(self@, hay@),
            },
    {
        self.find_from(hay, 0)
    }

    /// Every match, overlapping ones too, from first to last.
    pub fn find_all(&self, hay: &[u8]) -> (r: Vec<usize>)
        ensures
            ascending(r@),
            forall|i: usize| r@.contains(i) <==> pattern_at(self@, hay@, i as int),
            index_views(r@) == matches_of(self@, hay@),
    {
        proof {
            use_type_invariant(self);
        }
        let mut out: Vec<usize> = Vec::new();
        let mut at: usize = 0;
        let mut more: bool = true;
        while more
            invariant
                ascending(out@),
                self@.len() > 0,
                forall|k: int| 0 <= k < out@.len() ==> out@[k] < at,
                forall|i: usize|
                    out@.contains(i) <==> i < at && pattern_at(self@, hay@, i as int),
                !more ==> forall|i: int| at <= i ==> !pattern_at(self@, hay@, i),
                at <= hay.len(),
            decreases (if more { hay@.len() + 2 - at } else { 0 }),
        {
            match self.find_from(hay, at) {
                Some(i) => {
                    let ghost before = out@;
                    out.push(i);
                    assert forall|j: usize|
                        out@.contains(j) <==> j < i + 1 && pattern_at(self@, hay@, j as int) by {
                        if out@.contains(j) && j != i {
                            let k = choose|k: int| 0 <= k < out@.len() && out@[k] == j;
                            assert(before[k] == j);
                            assert(before.contains(j));
                        }
                        if before.contains(j) {
                            let k = choose|k: int| 0 <= k < before.len() && before[k] == j;
                            assert(out@[k] == j);
                        }
                        assert(out@[before.len() as int] == i);
                    }
                    at = i + 1;
                },
                None => {
                    more = false;
                },
            }
        }
        let size: usize = hay.len();
        proof {
            assert forall|i: usize| out@.contains(i) <==> i < size && pattern_at(
                self@,
                hay@,
                i as int,
            ) by {
                assert(!(at <= i && pattern_at(self@, hay@, i as int)));
            }
            ascending_matches(self@, hay@, size as int, out@);
        }
        out
    }
}

/// A patchable code signature: locate `pat`, then rewrite `len` bytes at `at`
/// bytes into the match.
#[derive(Clone, Copy)]
pub struct Sig {
    /// Human name, printed in status output.
    pub name: &'static str,
    /// Pattern for `Pattern::parse`.
    pub pat: &'static str,
    /// Offset into the match of the bytes to rewrite.
    pub at: usize,
    /// How many bytes to rewrite.
    pub len: usize,
}

impl Sig {
    /// Parses the pattern. A malformed literal gives `None`, and so does a
    /// patch window that falls outside its own match.
    pub fn pattern(&self) -> (r: Option<Pattern>)
        ensures
            match r {
                Some(p) => pattern_of(self.pat@) == Some(p@) && self.at + self.len <= p@.len(),
                None => match pattern_of(self.pat@) {
                    Some(p) => self.at + self.len > p.len(),
                    None => true,
                },
            },
    {
        match Pattern::parse(self.pat) {
            None => None,
            Some(p) => {
                if self.at <= p.len() && self.len <= p.len() - self.at {
                    Some(p)
                } else {
                    None
                }
            },
        }
    }
}

/// The patterns that a list of specs describes, if none is malformed.
pub open spec fn patterns_of(specs: Seq<&str>) -> Option<Seq<Seq<Option<u8>>>> {
    if exists|i: int| 0 <= i < specs.len() && pattern_of((#[trigger] specs[i])@) is None {
        None
    } else {
        Some(Seq::new(specs.len(), |i: int| pattern_of(specs[i]@)->0))
    }
}

/// The views of a list of patterns.
pub open spec fn pattern_views(ps: Seq<Pattern>) -> Seq<Seq<Option<u8>>> {
    Seq::new(ps.len(), |i: int| ps[i]@)
}

/// Parses every spec of a list, or none.
pub fn parse_all(specs: &[&str]) -> (r: Option<Vec<Pattern>>)
    ensures
        match r {
            Some(ps) => patterns_of(specs@) == Some(pattern_views(ps@)),
            None => patterns_of(specs@) is None,
        },
{
    let mut out: Vec<Pattern> = Vec::new();
    let mut i: usize = 0;
    while i < specs.len()
        invariant
            i <= specs.len(),
            out@.len() == i,
            forall|j: int|
                0 <= j < i ==> pattern_of((#[trigger] specs@[j])@) == Some(out@[j]@),
        decreases specs.len() - i,
    {
        match Pattern::parse(specs[i]) {
            Some(p) => {
                out.push(p);
            },
            None => {
                assert(pattern_of(specs@[i as int]@) is None);
                return None;
            },
        }
        i = i + 1;
    }
    assert(pattern_views(out@) =~= patterns_of(specs@)->0);
    Some(out)
}

/// Every pattern matches somewhere in `body`.
pub open spec fn all_in(ps: Seq<Seq<Option<u8>>>, body: Seq<u8>) -> bool {
    forall|i: int| 0 <= i < ps.len() ==> pattern_in(#[trigger] ps[i], body)
}

/// Whether every pattern matches somewhere in `body`.
pub fn all_found(ps: &[Pattern], body: &[u8]) -> (r: bool)
    ensures
        r == all_in(pattern_views(ps@), body@),
{
    let mut i: usize = 0;
    while i < ps.len()
        invariant
            i <= ps.len(),
            forall|j: int|
                0 <= j < i ==> pattern_in(#[trigger] pattern_views(ps@)[j], body@),
        decreases ps.len() - i,
    {
        match ps[i].find(body) {
            Some(at) => {
                assert(pattern_at(ps@[i as int]@, body@, at as int));
                assert(pattern_in(pattern_views(ps@)[i as int], body@));
            },
            None => {
                assert(!pattern_in(pattern_views(ps@)[i as int], body@));
                return false;
            },
        }
        i = i + 1;
    }
    true
}

/// Some pattern matches the start of `body`.
pub open spec fn any_start(ps: Seq<Seq<Option<u8>>>, body: Seq<u8>) -> bool {
    exists|i: int| 0 <= i < ps.len() && pattern_at(#[trigger] ps[i], body, 0)
}

/// Whether some pattern matches the start of `body`.
pub fn any_at_start(ps: &[Pattern], body: &[u8]) -> (r: bool)
    ensures
        r == any_start(pattern_views(ps@), body@),
{
    let mut i: usize = 0;
    while i < ps.len()
        invariant
            i <= ps.len(),
            forall|j: int|
                0 <= j < i ==> !pattern_at(#[trigger] pattern_views(ps@)[j], body@, 0),
        decreases ps.len() - i,
    {
        if ps[i].matches_at(body, 0) {
            assert(pattern_at(pattern_views(ps@)[i as int], body@, 0));
            return true;
        }
        i = i + 1;
    }
    false
}

/// Word `k` of a spec begins at character `at`, and every word before it is
/// well-formed.
#[verifier::opaque]
pub(crate) open spec fn word_begins(spec: Seq<char>, k: int, at: int) -> bool {
    &&& 0 <= k
    &&& 0 <= at <= spec.len()
    &&& words_of(spec).len() == k + words_of(spec.skip(at)).len()
    &&& forall|j: int|
        k <= j < words_of(spec).len() ==> #[trigger] words_of(spec)[j] == words_of(
            spec.skip(at),
        )[j - k]
    &&& forall|j: int| 0 <= j < k ==> word_byte(#[trigger] words_of(spec)[j]) is Some
}

pub(crate) proof fn first_word(spec: Seq<char>)
    ensures
        word_begins(spec, 0, 0),
{
    reveal(word_begins);
    assert(spec.skip(0) =~= spec);
}

/// A word of two characters, and the white space behind it.
pub(crate) proof fn next_word(spec: Seq<char>, k: int, at: int, next: int, b: Option<u8>)
    requires
        word_begins(spec, k, at),
        at + 2 <= next <= at + 4,
        next <= spec.len(),
        spec.len() == at + 2 || next > at + 2,
        match b {
            None => spec[at] == '?' && spec[at + 1] == '?',
            Some(v) => hex_value(spec[at]) == Some(v as int / 16) && hex_value(spec[at + 1])
                == Some(v as int % 16),
        },
        next > at + 2 ==> spec[at + 2] == ' ',
        next > at + 3 ==> spec[at + 3] == ' ',
    ensures
        word_begins(spec, k + 1, next),
        k < words_of(spec).len(),
        word_byte(words_of(spec)[k]) == Some(b),
{
    reveal(word_begins);
    let rest = spec.skip(at);
    assert(rest[0] == spec[at] && rest[1] == spec[at + 1]);
    if rest.len() > 2 {
        assert(rest[2] == spec[at + 2]);
    }
    word_len_is(rest, 2);
    let w = rest.take(2);
    assert(w[0] == spec[at] && w[1] == spec[at + 1]);
    if b is None {
        assert(w =~= seq!['?', '?']);
    }
    assert(word_byte(w) == Some(b));
    let tail = rest.skip(2);
    assert(tail =~= spec.skip(at + 2));
    assert(words_of(rest) == seq![rest.take(2)] + words_of(tail));
    if next > at + 2 {
        assert(tail[0] == spec[at + 2]);
        assert(tail.drop_first() =~= spec.skip(at + 3));
        assert(words_of(tail) == words_of(spec.skip(at + 3)));
    }
    if next > at + 3 {
        let more = spec.skip(at + 3);
        assert(more[0] == spec[at + 3]);
        assert(more.drop_first() =~= spec.skip(at + 4));
        assert(words_of(more) == words_of(spec.skip(at + 4)));
    }
    assert(words_of(spec.skip(next)) == words_of(tail));
    assert(words_of(spec)[k] == words_of(rest)[0]);
    assert forall|j: int| k + 1 <= j < words_of(spec).len() implies #[trigger] words_of(spec)[j]
        == words_of(spec.skip(next))[j - (k + 1)] by {
        assert(words_of(spec)[j] == words_of(rest)[j - k]);
    }
}

/// All words were read.
pub(crate) proof fn last_word(spec: Seq<char>, k: int)
    requires
        word_begins(spec, k, spec.len() as int),
        k > 0,
    ensures
        pattern_of(spec) is Some,
        pattern_of(spec)->0.len() == k,
        forall|j: int|
            0 <= j < k ==> #[trigger] (pattern_of(spec)->0)[j] == word_byte(words_of(spec)[j])->0,
{
    reveal(word_begins);
    assert(spec.skip(spec.len() as int) =~= Seq::empty());
}

/// The matches of a pattern are the places where it matches: every one of them,
/// each once, from first to last, and no other place.
pub proof fn matches_are_all_places(p: Seq<Option<u8>>, hay: Seq<u8>, i: int)
    requires
        p.len() > 0,
    ensures
        matches_of(p, hay).contains(i) <==> pattern_at(p, hay, i),
        forall|a: int, b: int|
            0 <= a < b < matches_of(p, hay).len() ==> matches_of(p, hay)[a] < matches_of(p, hay)[b],
{
    places_before(p, hay, hay.len() as int, i);
}

proof fn places_before(p: Seq<Option<u8>>, hay: Seq<u8>, n: int, i: int)
    ensures
        matches_before(p, hay, n).contains(i) <==> i < n && pattern_at(p, hay, i),
        forall|a: int|
            0 <= a < matches_before(p, hay, n).len() ==> #[trigger] matches_before(p, hay, n)[a]
                < n,
        forall|a: int, b: int|
            0 <= a < b < matches_before(p, hay, n).len() ==> matches_before(p, hay, n)[a]
                < matches_before(p, hay, n)[b],
    decreases n,
{
    if n > 0 {
        places_before(p, hay, n - 1, i);
        let fewer = matches_before(p, hay, n - 1);
        let all = matches_before(p, hay, n);
        if pattern_at(p, hay, n - 1) {
            assert(all == fewer.push(n - 1));
            assert(all[fewer.len() as int] == n - 1);
            if fewer.contains(i) {
                let k = choose|k: int| 0 <= k < fewer.len() && fewer[k] == i;
                assert(all[k] == i);
            }
            if all.contains(i) && i != n - 1 {
                let k = choose|k: int| 0 <= k < all.len() && all[k] == i;
                assert(fewer[k] == i);
            }
        }
    }
}

/// A pattern that matches at one place only has that match.
pub proof fn only_place_is_the_match(p: Seq<Option<u8>>, hay: Seq<u8>, at: int)
    requires
        p.len() > 0,
        pattern_at(p, hay, at),
        forall|j: int| pattern_at(p, hay, j) ==> j == at,
    ensures
        matches_of(p, hay) == seq![at],
{
    let all = matches_of(p, hay);
    matches_are_all_places(p, hay, at);
    let k = choose|k: int| 0 <= k < all.len() && all[k] == at;
    assert forall|j: int| 0 <= j < all.len() implies all[j] == at by {
        matches_are_all_places(p, hay, all[j]);
        assert(all.contains(all[j]));
    }
    if all.len() > 1 {
        assert(all[0] < all[1]);
    }
    assert(all =~= seq![at]);
}

/// The pattern is made of these bytes, with a wildcard for each that is
/// negative.
pub open spec fn spells(p: Seq<Option<u8>>, bytes: Seq<int>) -> bool {
    &&& p.len() == bytes.len()
    &&& forall|j: int|
        0 <= j < bytes.len() ==> if bytes[j] < 0 {
            #[trigger] p[j] is None
        } else {
            p[j] == Some(bytes[j] as u8)
        }
}

} // verus!
