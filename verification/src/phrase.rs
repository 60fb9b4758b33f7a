//! Searching, trimming, splitting and joining texts.
use vstd::prelude::*;

use crate::text::{char_views, chars, is_white, same_chars, white};

verus! {

/// `needle` stands at `i` in `s`.
pub open spec fn text_at(s: Seq<char>, needle: Seq<char>, i: int) -> bool {
    &&& 0 <= i
    &&& i + needle.len() <= s.len()
    &&& s.subrange(i, i + needle.len()) == needle
}

/// `s` holds `needle`.
pub open spec fn holds_text(s: Seq<char>, needle: Seq<char>) -> bool {
    exists|i: int| text_at(s, needle, i)
}

/// The first place of `needle` in `s`.
pub fn find_text(s: &[char], needle: &[char]) -> (r: Option<usize>)
    ensures
        match r {
            Some(i) => text_at(s@, needle@, i as int) && forall|j: int|
                0 <= j < i ==> !text_at(s@, needle@, j),
            None => !holds_text(s@, needle@),
        },
{
    if needle.len() > s.len() {
        return None;
    }
    let last: usize = s.len() - needle.len();
    let mut i: usize = 0;
    let mut more: bool = true;
    while more
        invariant
            last + needle.len() == s.len(),
            i <= last,
            more ==> forall|j: int| 0 <= j < i ==> !text_at(s@, needle@, j),
            !more ==> forall|j: int| 0 <= j <= last ==> !text_at(s@, needle@, j),
        decreases
                (if more {
                    last + 1 - i
                } else {
                    0
                }),
    {
        let part: &[char] = vstd::slice::slice_subrange(s, i, i + needle.len());
        if same_chars(part, needle) {
            return Some(i);
        }
        if i == last {
            more = false;
        } else {
            i = i + 1;
        }
    }
    None
}

/// Whether `s` holds `needle`.
pub fn has_text(s: &[char], needle: &str) -> (r: bool)
    ensures
        r == holds_text(s@, needle@),
{
    let n: Vec<char> = chars(needle);
    match find_text(s, n.as_slice()) {
        Some(_) => true,
        None => false,
    }
}

/// Whether `s` holds the character `c`.
pub fn has_char(s: &[char], c: char) -> (r: bool)
    ensures
        r == s@.contains(c),
{
    let mut i: usize = 0;
    while i < s.len()
        invariant
            i <= s.len(),
            forall|j: int| 0 <= j < i ==> s@[j] != c,
        decreases s.len() - i,
    {
        if s[i] == c {
            return true;
        }
        i = i + 1;
    }
    false
}

/// An ASCII capital as a small letter, any other character as it is.
pub open spec fn lower_char(c: char) -> char {
    if 'A' <= c <= 'Z' {
        (c as u32 + 32) as char
    } else {
        c
    }
}

/// An ASCII capital as a small letter, any other character as it is.
pub fn to_lower_char(c: char) -> (r: char)
    ensures
        r == lower_char(c),
{
    if 'A' <= c && c <= 'Z' {
        (c as u8 + 32) as char
    } else {
        c
    }
}

/// The texts are the same but for the case of ASCII letters.
pub open spec fn same_but_case(a: Seq<char>, b: Seq<char>) -> bool {
    &&& a.len() == b.len()
    &&& forall|i: int| 0 <= i < a.len() ==> lower_char(#[trigger] a[i]) == lower_char(b[i])
}

/// Whether the texts are the same but for the case of ASCII letters.
pub fn eq_ignore_case(a: &[char], b: &[char]) -> (r: bool)
    ensures
        r == same_but_case(a@, b@),
{
    if a.len() != b.len() {
        return false;
    }
    let mut i: usize = 0;
    while i < a.len()
        invariant
            i <= a.len(),
            a.len() == b.len(),
            forall|j: int| 0 <= j < i ==> lower_char(#[trigger] a@[j]) == lower_char(b@[j]),
        decreases a.len() - i,
    {
        if to_lower_char(a[i]) != to_lower_char(b[i]) {
            assert(lower_char(a@[i as int]) != lower_char(b@[i as int]));
            return false;
        }
        i = i + 1;
    }
    true
}

/// A text without the white space before it.
pub open spec fn trim_start(s: Seq<char>) -> Seq<char>
    decreases s.len(),
{
    if s.len() > 0 && is_white(s[0]) {
        trim_start(s.drop_first())
    } else {
        s
    }
}

/// A text without the white space behind it.
pub open spec fn trim_end(s: Seq<char>) -> Seq<char>
    decreases s.len(),
{
    if s.len() > 0 && is_white(s.last()) {
        trim_end(s.drop_last())
    } else {
        s
    }
}

/// A text without the white space around it.
pub open spec fn trimmed(s: Seq<char>) -> Seq<char> {
    trim_end(trim_start(s))
}

/// A text without the white space around it.
pub fn trim(s: &[char]) -> (r: &[char])
    ensures
        r@ == trimmed(s@),
{
    let mut from: usize = 0;
    assert(s@.skip(0) =~= s@);
    while from < s.len() && white(s[from])
        invariant
            from <= s.len(),
            trim_start(s@) == trim_start(s@.skip(from as int)),
        decreases s.len() - from,
    {
        assert(s@.skip(from as int).drop_first() =~= s@.skip(from + 1));
        from = from + 1;
    }
    let ghost rest = s@.skip(from as int);
    let mut to: usize = s.len();
    assert(s@.subrange(from as int, to as int) =~= rest);
    while to > from && white(s[to - 1])
        invariant
            from <= to <= s.len(),
            trim_end(rest) == trim_end(s@.subrange(from as int, to as int)),
        decreases to,
    {
        let ghost cur = s@.subrange(from as int, to as int);
        assert(cur.last() == s@[to - 1]);
        assert(cur.drop_last() =~= s@.subrange(from as int, to - 1));
        to = to - 1;
    }
    let ghost cur = s@.subrange(from as int, to as int);
    assert(cur.len() > 0 ==> cur.last() == s@[to - 1]);
    vstd::slice::slice_subrange(s, from, to)
}

/// How many characters stand before the first separator.
pub open spec fn piece_len(s: Seq<char>, seps: Seq<char>) -> nat
    decreases s.len(),
{
    if s.len() == 0 || seps.contains(s[0]) {
        0
    } else {
        1 + piece_len(s.drop_first(), seps)
    }
}

/// The pieces of a text between separators; there is always one.
pub open spec fn pieces(s: Seq<char>, seps: Seq<char>) -> Seq<Seq<char>>
    decreases s.len(),
{
    let n = piece_len(s, seps) as int;
    if n >= s.len() {
        seq![s]
    } else {
        seq![s.take(n)] + pieces(s.skip(n + 1), seps)
    }
}

proof fn piece_len_is(s: Seq<char>, seps: Seq<char>, n: int)
    requires
        0 <= n <= s.len(),
        forall|i: int| 0 <= i < n ==> !seps.contains(s[i]),
        n < s.len() ==> seps.contains(s[n]),
    ensures
        piece_len(s, seps) == n,
    decreases s.len(),
{
    if n > 0 {
        assert(!seps.contains(s[0]));
        piece_len_is(s.drop_first(), seps, n - 1);
    }
}

/// Splits a text at separators.
pub fn split(s: &[char], seps: &[char]) -> (r: Vec<Vec<char>>)
    ensures
        char_views(r@) == pieces(s@, seps@),
{
    let mut out: Vec<Vec<char>> = Vec::new();
    let mut from: usize = 0;
    let ghost goal = pieces(s@, seps@);
    assert(s@.skip(0) =~= s@);
    assert(char_views(out@) + pieces(s@.skip(0), seps@) =~= goal);
    loop
        invariant
            from <= s.len(),
            char_views(out@) + pieces(s@.skip(from as int), seps@) == goal,
            goal == pieces(s@, seps@),
        decreases s.len() - from,
    {
        let mut to: usize = from;
        while to < s.len() && !has_char(seps, s[to])
            invariant
                from <= to <= s.len(),
                forall|i: int| from <= i < to ==> !seps@.contains(#[trigger] s@[i]),
            decreases s.len() - to,
        {
            to = to + 1;
        }
        let ghost rest = s@.skip(from as int);
        let ghost before = char_views(out@);
        proof {
            assert forall|i: int| 0 <= i < to - from implies !seps@.contains(rest[i]) by {
                assert(rest[i] == s@[from + i]);
            }
            if to < s.len() {
                assert(rest[to - from] == s@[to as int]);
            }
            piece_len_is(rest, seps@, to - from);
        }
        let piece: Vec<char> = vstd::slice::slice_to_vec(
            vstd::slice::slice_subrange(s, from, to),
        );
        assert(piece@ =~= rest.take(to - from));
        out.push(piece);
        assert(char_views(out@) =~= before.push(piece@));
        if to == s.len() {
            assert(rest.take(to - from) =~= rest);
            assert(char_views(out@) =~= goal);
            return out;
        }
        proof {
            assert(rest.skip(to - from + 1) =~= s@.skip(to + 1));
            assert(before + (seq![piece@] + pieces(s@.skip(to + 1), seps@)) =~= before.push(piece@)
                + pieces(s@.skip(to + 1), seps@));
        }
        from = to + 1;
    }
}

/// Texts with a separator between them.
pub open spec fn joined_by(parts: Seq<Seq<char>>, sep: Seq<char>) -> Seq<char>
    decreases parts.len(),
{
    if parts.len() == 0 {
        Seq::empty()
    } else if parts.len() == 1 {
        parts[0]
    } else {
        joined_by(parts.drop_last(), sep) + sep + parts.last()
    }
}

/// Joins texts with a separator between them.
pub fn join_by(parts: &[Vec<char>], sep: &str) -> (r: Vec<char>)
    ensures
        r@ == joined_by(char_views(parts@), sep@),
{
    let between: Vec<char> = chars(sep);
    let mut out: Vec<char> = Vec::new();
    let mut i: usize = 0;
    let ghost all = char_views(parts@);
    assert(all.take(0) =~= Seq::empty());
    while i < parts.len()
        invariant
            i <= parts.len(),
            between@ == sep@,
            all == char_views(parts@),
            out@ == joined_by(all.take(i as int), sep@),
        decreases parts.len() - i,
    {
        if i > 0 {
            extend_chars(&mut out, between.as_slice());
        }
        extend_chars(&mut out, parts[i].as_slice());
        proof {
            let t = all.take(i + 1);
            assert(t.drop_last() =~= all.take(i as int));
            assert(t.last() == parts@[i as int]@);
            if i == 0 {
                assert(out@ =~= parts@[0]@);
            }
        }
        i = i + 1;
    }
    assert(all.take(parts@.len() as int) =~= all);
    out
}

/// Appends characters.
pub fn extend_chars(out: &mut Vec<char>, more: &[char])
    ensures
        final(out)@ == old(out)@ + more@,
{
    let mut i: usize = 0;
    let ghost before = out@;
    while i < more.len()
        invariant
            i <= more.len(),
            out@ =~= before + more@.take(i as int),
        decreases more.len() - i,
    {
        out.push(more[i]);
        i = i + 1;
    }
    assert(more@.take(more@.len() as int) =~= more@);
}

/// Capitals become the small letters that stand 32 places behind them; nothing
/// else changes, and a small letter stays.
pub proof fn only_capitals_are_lowered(c: char)
    ensures
        65 <= c as int <= 90 ==> lower_char(c) as int == c as int + 32,
        !(65 <= c as int <= 90) ==> lower_char(c) == c,
        lower_char(lower_char(c)) == lower_char(c),
{
}

/// Comparing without case is fair: a text is the same as itself, and as itself
/// in small letters, and two are the same both ways.
pub proof fn case_is_ignored(a: Seq<char>, b: Seq<char>)
    ensures
        same_but_case(a, a),
        same_but_case(a, a.map_values(|c: char| lower_char(c))),
        same_but_case(a, b) ==> same_but_case(b, a),
        same_but_case(a, b) ==> a.len() == b.len(),
        same_but_case(a, b) <==> a.map_values(|c: char| lower_char(c)) == b.map_values(
            |c: char| lower_char(c),
        ),
{
    let x = a.map_values(|c: char| lower_char(c));
    let y = b.map_values(|c: char| lower_char(c));
    assert forall|i: int| 0 <= i < a.len() implies lower_char(#[trigger] a[i]) == lower_char(
        x[i],
    ) by {
        only_capitals_are_lowered(a[i]);
    }
    if same_but_case(a, b) {
        assert forall|i: int| 0 <= i < b.len() implies lower_char(#[trigger] b[i]) == lower_char(
            a[i],
        ) by {
            assert(lower_char(a[i]) == lower_char(b[i]));
        }
        assert(x =~= y);
    }
    if x == y {
        assert(a.len() == x.len() && b.len() == y.len());
        assert forall|i: int| 0 <= i < a.len() implies lower_char(#[trigger] a[i]) == lower_char(
            b[i],
        ) by {
            assert(x[i] == y[i]);
        }
    }
}

/// Trimming takes the white space around a text, all of it, and nothing else.
pub proof fn trimming_takes_the_space_around(before: Seq<char>, body: Seq<char>, after: Seq<char>)
    requires
        forall|i: int| 0 <= i < before.len() ==> is_white(#[trigger] before[i]),
        forall|i: int| 0 <= i < after.len() ==> is_white(#[trigger] after[i]),
        body.len() > 0 ==> !is_white(body[0]) && !is_white(body.last()),
    ensures
        trimmed(before + body + after) == body,
{
    let s = before + body + after;
    if body.len() == 0 {
        assert(s =~= before + after);
        white_start(before + after, Seq::empty());
        assert(before + after + Seq::empty() =~= s);
    } else {
        white_start(before, body + after);
        assert(before + (body + after) =~= s);
        assert((body + after)[0] == body[0]);
        white_end(body, after);
    }
}

proof fn white_start(before: Seq<char>, rest: Seq<char>)
    requires
        forall|i: int| 0 <= i < before.len() ==> is_white(#[trigger] before[i]),
        rest.len() > 0 ==> !is_white(rest[0]),
    ensures
        trim_start(before + rest) == rest,
    decreases before.len(),
{
    if before.len() == 0 {
        assert(before + rest =~= rest);
    } else {
        assert((before + rest)[0] == before[0]);
        assert((before + rest).drop_first() =~= before.drop_first() + rest);
        white_start(before.drop_first(), rest);
    }
}

proof fn white_end(rest: Seq<char>, after: Seq<char>)
    requires
        forall|i: int| 0 <= i < after.len() ==> is_white(#[trigger] after[i]),
        rest.len() > 0 ==> !is_white(rest.last()),
    ensures
        trim_end(rest + after) == rest,
    decreases after.len(),
{
    if after.len() == 0 {
        assert(rest + after =~= rest);
    } else {
        assert((rest + after).last() == after.last());
        assert((rest + after).drop_last() =~= rest + after.drop_last());
        white_end(rest, after.drop_last());
    }
}

/// A text falls into the pieces between its separators: every piece is there,
/// an empty one too.
pub proof fn pieces_are_split_off(piece: Seq<char>, sep: char, rest: Seq<char>, seps: Seq<char>)
    requires
        forall|i: int| 0 <= i < piece.len() ==> !seps.contains(#[trigger] piece[i]),
        seps.contains(sep),
    ensures
        pieces(piece + seq![sep] + rest, seps) == seq![piece] + pieces(rest, seps),
        pieces(piece, seps) == seq![piece],
{
    let n = piece.len() as int;
    let s = piece + seq![sep] + rest;
    assert forall|i: int| 0 <= i < n implies !seps.contains(s[i]) by {
        assert(s[i] == piece[i]);
    }
    assert(s[n] == sep);
    piece_len_is(s, seps, n);
    assert(s.take(n) =~= piece);
    assert(s.skip(n + 1) =~= rest);
    piece_len_is(piece, seps, n);
}

/// Texts are joined in order, with the separator between each two.
pub proof fn texts_are_joined(parts: Seq<Seq<char>>, last: Seq<char>, sep: Seq<char>)
    ensures
        joined_by(Seq::empty(), sep) == Seq::<char>::empty(),
        parts.len() == 0 ==> joined_by(parts.push(last), sep) == last,
        parts.len() > 0 ==> joined_by(parts.push(last), sep) == joined_by(parts, sep) + sep + last,
{
    assert(parts.push(last).drop_last() =~= parts);
}

} // verus!
