//! Strings as character sequences: words, digits and UTF-8.
use vstd::prelude::*;
use vstd::utf8::{encode_utf8, valid_utf8};

verus! {

/// `String::push` appends one character.
pub assume_specification[ String::push ](s: &mut String, c: char)
    ensures
        final(s)@ == old(s)@.push(c),
;

/// `String::from_utf8` accepts exactly the well-formed UTF-8 byte vectors, and
/// the string it returns has those bytes.
#[verifier::external_body]
pub(crate) fn utf8_string(bytes: Vec<u8>) -> (r: Option<String>)
    ensures
        match r {
            Some(s) => valid_utf8(bytes@) && encode_utf8(s@) == bytes@,
            None => !valid_utf8(bytes@),
        },
{
    String::from_utf8(bytes).ok()
}

/// The characters of a string.
pub fn chars(s: &str) -> (v: Vec<char>)
    ensures
        v@ == s@,
{
    let mut v: Vec<char> = Vec::new();
    for c in it: s.chars()
        invariant
            v@ == it.seq().take(it.index()),
    {
        v.push(c);
    }
    assert(v@ =~= s@);
    v
}

/// The string made of the given characters.
pub fn string_of(cs: &[char]) -> (s: String)
    ensures
        s@ == cs@,
{
    let mut s: String = String::new();
    let mut i: usize = 0;
    while i < cs.len()
        invariant
            i <= cs@.len(),
            s@ == cs@.take(i as int),
        decreases cs@.len() - i,
    {
        s.push(cs[i]);
        i = i + 1;
        assert(s@ =~= cs@.take(i as int));
    }
    assert(cs@.take(cs@.len() as int) =~= cs@);
    s
}

/// The characters with Unicode's `White_Space` property.
pub open spec fn is_white(c: char) -> bool {
    ||| '\u{9}' <= c <= '\u{d}'
    ||| c == ' '
    ||| c == '\u{85}'
    ||| c == '\u{a0}'
    ||| c == '\u{1680}'
    ||| '\u{2000}' <= c <= '\u{200a}'
    ||| c == '\u{2028}'
    ||| c == '\u{2029}'
    ||| c == '\u{202f}'
    ||| c == '\u{205f}'
    ||| c == '\u{3000}'
}

/// Whether a character separates words.
pub fn white(c: char) -> (r: bool)
    ensures
        r == is_white(c),
{
    ('\u{9}' <= c && c <= '\u{d}') || c == ' ' || c == '\u{85}' || c == '\u{a0}' || c == '\u{1680}'
        || ('\u{2000}' <= c && c <= '\u{200a}') || c == '\u{2028}' || c == '\u{2029}'
        || c == '\u{202f}' || c == '\u{205f}' || c == '\u{3000}'
}

/// How many characters of `s` stand before its first white space.
pub open spec fn word_len(s: Seq<char>) -> nat
    decreases s.len(),
{
    if s.len() == 0 || is_white(s[0]) {
        0
    } else {
        1 + word_len(s.drop_first())
    }
}

/// The words of `s`: its longest runs free of white space, in order.
pub open spec fn words_of(s: Seq<char>) -> Seq<Seq<char>>
    decreases s.len(),
{
    if s.len() == 0 {
        Seq::empty()
    } else if is_white(s[0]) {
        words_of(s.drop_first())
    } else {
        let n = word_len(s) as int;
        if 0 < n <= s.len() {
            seq![s.take(n)] + words_of(s.skip(n))
        } else {
            Seq::empty()
        }
    }
}

proof fn word_len_bound(s: Seq<char>)
    ensures
        word_len(s) <= s.len(),
        forall|i: int| 0 <= i < word_len(s) ==> !is_white(s[i]),
        word_len(s) < s.len() ==> is_white(s[word_len(s) as int]),
    decreases s.len(),
{
    if s.len() > 0 && !is_white(s[0]) {
        word_len_bound(s.drop_first());
        assert forall|i: int| 0 <= i < word_len(s) implies !is_white(s[i]) by {
            if i > 0 {
                assert(s[i] == s.drop_first()[i - 1]);
            }
        }
    }
}

/// The length of the first word is where the first white space stands.
pub(crate) proof fn word_len_is(s: Seq<char>, n: int)
    requires
        0 <= n <= s.len(),
        forall|i: int| 0 <= i < n ==> !is_white(s[i]),
        n < s.len() ==> is_white(s[n]),
    ensures
        word_len(s) == n,
    decreases s.len(),
{
    if n > 0 {
        assert(!is_white(s[0]));
        word_len_is(s.drop_first(), n - 1);
    }
}

/// The view of a vector of character vectors.
pub open spec fn char_views(v: Seq<Vec<char>>) -> Seq<Seq<char>> {
    Seq::new(v.len(), |i: int| v[i]@)
}

/// Splits on white space.
pub fn words(s: &[char]) -> (r: Vec<Vec<char>>)
    ensures
        char_views(r@) == words_of(s@),
{
    let mut out: Vec<Vec<char>> = Vec::new();
    let mut i: usize = 0;
    assert(s@.skip(0) =~= s@);
    assert(char_views(out@) + words_of(s@) =~= words_of(s@));
    while i < s.len()
        invariant
            i <= s@.len(),
            char_views(out@) + words_of(s@.skip(i as int)) == words_of(s@),
        decreases s@.len() - i,
    {
        let ghost rest = s@.skip(i as int);
        if white(s[i]) {
            assert(rest.drop_first() =~= s@.skip(i + 1));
            i = i + 1;
        } else {
            let start: usize = i;
            let mut word: Vec<char> = Vec::new();
            while i < s.len() && !white(s[i])
                invariant
                    start <= i <= s@.len(),
                    word@ == s@.subrange(start as int, i as int),
                    forall|j: int| start <= j < i ==> !is_white(s@[j]),
                decreases s@.len() - i,
            {
                word.push(s[i]);
                i = i + 1;
                assert(word@ =~= s@.subrange(start as int, i as int));
            }
            proof {
                let n = i - start;
                assert(!is_white(rest[0]));
                if n == 0 {
                    assert(false);
                }
                assert forall|j: int| 0 <= j < n implies !is_white(rest[j]) by {
                    assert(rest[j] == s@[start + j]);
                }
                if n < rest.len() {
                    assert(rest[n] == s@[i as int]);
                }
                word_len_is(rest, n);
                assert(rest.take(n) =~= word@);
                assert(rest.skip(n) =~= s@.skip(i as int));
                assert(words_of(rest) == seq![word@] + words_of(s@.skip(i as int)));
            }
            let ghost before = char_views(out@);
            out.push(word);
            proof {
                assert(char_views(out@) =~= before.push(word@));
                assert(char_views(out@) + words_of(s@.skip(i as int)) =~= before + (seq![word@]
                    + words_of(s@.skip(i as int))));
            }
        }
    }
    assert(s@.skip(i as int) =~= Seq::empty());
    assert(char_views(out@) + words_of(s@.skip(i as int)) =~= char_views(out@));
    out
}

/// The value of an ASCII hexadecimal digit.
pub open spec fn hex_value(c: char) -> Option<int> {
    if '0' <= c <= '9' {
        Some(c as int - '0' as int)
    } else if 'a' <= c <= 'f' {
        Some(c as int - 'a' as int + 10)
    } else if 'A' <= c <= 'F' {
        Some(c as int - 'A' as int + 10)
    } else {
        None
    }
}

/// Reads one hexadecimal digit.
pub fn hex_digit(c: char) -> (r: Option<u8>)
    ensures
        match r {
            Some(d) => hex_value(c) == Some(d as int) && d < 16,
            None => hex_value(c) is None,
        },
{
    if '0' <= c && c <= '9' {
        Some((c as u32 - '0' as u32) as u8)
    } else if 'a' <= c && c <= 'f' {
        Some((c as u32 - 'a' as u32 + 10) as u8)
    } else if 'A' <= c && c <= 'F' {
        Some((c as u32 - 'A' as u32 + 10) as u8)
    } else {
        None
    }
}

/// The digit that stands for a value below 16.
pub open spec fn digit_of(d: int) -> char {
    if d == 0 {
        '0'
    } else if d == 1 {
        '1'
    } else if d == 2 {
        '2'
    } else if d == 3 {
        '3'
    } else if d == 4 {
        '4'
    } else if d == 5 {
        '5'
    } else if d == 6 {
        '6'
    } else if d == 7 {
        '7'
    } else if d == 8 {
        '8'
    } else if d == 9 {
        '9'
    } else if d == 10 {
        'a'
    } else if d == 11 {
        'b'
    } else if d == 12 {
        'c'
    } else if d == 13 {
        'd'
    } else if d == 14 {
        'e'
    } else {
        'f'
    }
}

/// The digit that stands for a value below 16.
pub fn digit(d: u64) -> (r: char)
    requires
        d < 16,
    ensures
        r == digit_of(d as int),
{
    if d == 0 {
        '0'
    } else if d == 1 {
        '1'
    } else if d == 2 {
        '2'
    } else if d == 3 {
        '3'
    } else if d == 4 {
        '4'
    } else if d == 5 {
        '5'
    } else if d == 6 {
        '6'
    } else if d == 7 {
        '7'
    } else if d == 8 {
        '8'
    } else if d == 9 {
        '9'
    } else if d == 10 {
        'a'
    } else if d == 11 {
        'b'
    } else if d == 12 {
        'c'
    } else if d == 13 {
        'd'
    } else if d == 14 {
        'e'
    } else {
        'f'
    }
}

/// A number written out in a base of at most 16, without leading zeros.
pub open spec fn number_text(n: nat, base: nat) -> Seq<char>
    decreases n,
{
    if base < 2 || n < base {
        seq![digit_of(n as int)]
    } else {
        proof {
            assert(n / base < n) by (nonlinear_arith)
                requires
                    n >= base >= 2,
            ;
        }
        number_text(n / base, base).push(digit_of((n % base) as int))
    }
}

/// A number in lowercase hexadecimal.
pub open spec fn hex_text(n: int) -> Seq<char> {
    number_text(n as nat, 16)
}

/// A number in decimal.
pub open spec fn dec_text(n: int) -> Seq<char> {
    number_text(n as nat, 10)
}

/// Appends a number in a base of at most 16.
fn push_number(out: &mut String, n: u64, base: u64)
    requires
        2 <= base <= 16,
    ensures
        final(out)@ == old(out)@ + number_text(n as nat, base as nat),
    decreases n,
{
    if n < base {
        out.push(digit(n));
        assert(out@ =~= old(out)@ + number_text(n as nat, base as nat));
    } else {
        assert(n / base < n) by (nonlinear_arith)
            requires
                n >= base >= 2,
        ;
        push_number(out, n / base, base);
        out.push(digit(n % base));
        assert(out@ =~= old(out)@ + number_text(n as nat, base as nat));
    }
}

/// Appends a number in lowercase hexadecimal.
pub fn push_hex(out: &mut String, n: u64)
    ensures
        final(out)@ == old(out)@ + hex_text(n as int),
{
    push_number(out, n, 16);
}

/// Appends a number in decimal.
pub fn push_dec(out: &mut String, n: u64)
    ensures
        final(out)@ == old(out)@ + dec_text(n as int),
{
    push_number(out, n, 10);
}

/// A number in decimal.
pub fn dec_string(n: u64) -> (r: String)
    ensures
        r@ == dec_text(n as int),
{
    let mut out: String = String::new();
    push_dec(&mut out, n);
    assert(out@ =~= dec_text(n as int));
    out
}

/// The texts joined with `; `.
pub open spec fn joined(parts: Seq<Seq<char>>) -> Seq<char>
    decreases parts.len(),
{
    if parts.len() == 0 {
        Seq::empty()
    } else if parts.len() == 1 {
        parts[0]
    } else {
        joined(parts.drop_last()) + "; "@ + parts.last()
    }
}

/// The views of a list of strings.
pub open spec fn string_views(v: Seq<String>) -> Seq<Seq<char>> {
    Seq::new(v.len(), |i: int| v[i]@)
}

/// Joins texts with `; `.
pub fn join(parts: &[String]) -> (r: String)
    ensures
        r@ == joined(string_views(parts@)),
{
    let mut out: String = String::new();
    let mut i: usize = 0;
    assert(string_views(parts@).take(0) =~= Seq::empty());
    while i < parts.len()
        invariant
            i <= parts.len(),
            out@ == joined(string_views(parts@).take(i as int)),
        decreases parts.len() - i,
    {
        let ghost all = string_views(parts@);
        assert(all.take(i + 1).drop_last() =~= all.take(i as int));
        if i > 0 {
            out.append("; ");
        }
        out.append(parts[i].as_str());
        proof {
            assert(all.take(i + 1).last() == parts@[i as int]@);
            if i == 0 {
                assert(out@ =~= parts@[0]@);
            }
        }
        i = i + 1;
    }
    assert(string_views(parts@).take(parts@.len() as int) =~= string_views(parts@));
    out
}

/// A left text, then a right one.
pub fn cat(left: &str, right: &str) -> (r: String)
    ensures
        r@ == left@ + right@,
{
    let mut out: String = left.to_owned();
    out.append(right);
    out
}

/// Whether two strings are the same.
pub fn same_str(a: &str, b: &str) -> (r: bool)
    ensures
        r == (a@ == b@),
{
    let x: Vec<char> = chars(a);
    let y: Vec<char> = chars(b);
    same_chars(x.as_slice(), y.as_slice())
}

/// Whether two character slices are the same.
pub fn same_chars(a: &[char], b: &[char]) -> (r: bool)
    ensures
        r == (a@ == b@),
{
    if a.len() != b.len() {
        return false;
    }
    let mut i: usize = 0;
    while i < a.len()
        invariant
            i <= a.len(),
            a.len() == b.len(),
            forall|j: int| 0 <= j < i ==> a@[j] == b@[j],
        decreases a.len() - i,
    {
        if a[i] != b[i] {
            return false;
        }
        i = i + 1;
    }
    assert(a@ =~= b@);
    true
}

/// `s` ends with `tail`.
pub open spec fn ends_with(s: Seq<char>, tail: Seq<char>) -> bool {
    tail.len() <= s.len() && s.skip(s.len() - tail.len()) == tail
}

/// `s` starts with `head`.
pub open spec fn starts_with(s: Seq<char>, head: Seq<char>) -> bool {
    head.len() <= s.len() && s.take(head.len() as int) == head
}

/// Whether a string ends with another.
pub fn has_suffix(s: &str, tail: &str) -> (r: bool)
    ensures
        r == ends_with(s@, tail@),
{
    let a: Vec<char> = chars(s);
    let b: Vec<char> = chars(tail);
    if b.len() > a.len() {
        return false;
    }
    let from: usize = a.len() - b.len();
    let part: &[char] = vstd::slice::slice_subrange(a.as_slice(), from, a.len());
    assert(part@ =~= s@.skip(from as int));
    same_chars(part, b.as_slice())
}

/// Whether a string starts with another.
pub fn has_prefix(s: &str, head: &str) -> (r: bool)
    ensures
        r == starts_with(s@, head@),
{
    let a: Vec<char> = chars(s);
    let b: Vec<char> = chars(head);
    if b.len() > a.len() {
        return false;
    }
    let part: &[char] = vstd::slice::slice_subrange(a.as_slice(), 0, b.len());
    assert(part@ =~= s@.take(b@.len() as int));
    same_chars(part, b.as_slice())
}

/// Index of the first `c` at or after `i`.
pub open spec fn index_from(s: Seq<char>, c: char, i: int) -> Option<int>
    decreases s.len() - i,
{
    if i < 0 || i >= s.len() {
        None
    } else if s[i] == c {
        Some(i)
    } else {
        index_from(s, c, i + 1)
    }
}

/// Index of the first `c` at or after `from`.
pub fn index_of(s: &[char], c: char, from: usize) -> (r: Option<usize>)
    requires
        from <= s.len(),
    ensures
        match r {
            Some(i) => index_from(s@, c, from as int) == Some(i as int) && from <= i < s@.len(),
            None => index_from(s@, c, from as int) is None,
        },
{
    let mut i: usize = from;
    while i < s.len()
        invariant
            from <= i <= s.len(),
            index_from(s@, c, from as int) == index_from(s@, c, i as int),
        decreases s.len() - i,
    {
        if s[i] == c {
            return Some(i);
        }
        i = i + 1;
    }
    None
}

/// Where the line that starts at `i` ends: at its line feed or the text's end.
pub open spec fn line_end(s: Seq<char>, i: int) -> int {
    match index_from(s, '\n', i) {
        Some(j) => j,
        None => s.len() as int,
    }
}

/// A line without the carriage return before its line feed.
pub open spec fn line_text(s: Seq<char>, i: int) -> Seq<char> {
    let end = line_end(s, i);
    if end < s.len() && end > i && s[end - 1] == '\r' {
        s.subrange(i, end - 1)
    } else {
        s.subrange(i, end)
    }
}

/// The lines of `s` from `i` on. A final line feed starts no further line.
pub open spec fn lines_from(s: Seq<char>, i: int) -> Seq<Seq<char>>
    decreases
            (if i < s.len() {
                s.len() - i
            } else {
                0
            }),
{
    if i < 0 || i >= s.len() {
        Seq::empty()
    } else {
        let end = line_end(s, i);
        if end < i {
            Seq::empty()
        } else {
            seq![line_text(s, i)] + lines_from(s, end + 1)
        }
    }
}

/// The lines of a text.
pub open spec fn lines_of(s: Seq<char>) -> Seq<Seq<char>> {
    lines_from(s, 0)
}

/// Splits a text into lines.
pub fn lines(s: &[char]) -> (r: Vec<Vec<char>>)
    ensures
        char_views(r@) == lines_of(s@),
{
    let mut out: Vec<Vec<char>> = Vec::new();
    let mut i: usize = 0;
    let ghost goal = lines_of(s@);
    assert(char_views(out@) + lines_from(s@, 0) =~= goal);
    while i < s.len()
        invariant
            i <= s.len(),
            char_views(out@) + lines_from(s@, i as int) == goal,
        decreases s.len() - i,
    {
        let ghost before = char_views(out@);
        let end: usize = match index_of(s, '\n', i) {
            Some(j) => j,
            None => s.len(),
        };
        let stop: usize = if end < s.len() && end > i && s[end - 1] == '\r' {
            end - 1
        } else {
            end
        };
        let line: Vec<char> = vstd::slice::slice_to_vec(vstd::slice::slice_subrange(s, i, stop));
        let ghost text = line@;
        let ghost rest = lines_from(s@, end + 1);
        assert(lines_from(s@, i as int) == seq![text] + rest);
        out.push(line);
        assert(char_views(out@) =~= before.push(text));
        assert(before + (seq![text] + rest) =~= before.push(text) + rest);
        if end < s.len() {
            i = end + 1;
        } else {
            assert(rest =~= Seq::empty());
            assert(lines_from(s@, s@.len() as int) =~= Seq::empty());
            i = end;
        }
    }
    assert(char_views(out@) + Seq::empty() =~= char_views(out@));
    out
}

/// The value of a number in a base of 10 or 16, digit by digit from the left.
pub open spec fn digits_value(s: Seq<char>, base: nat) -> Option<nat>
    decreases s.len(),
{
    if s.len() == 0 {
        Some(0)
    } else {
        match (digits_value(s.drop_last(), base), hex_value(s.last())) {
            (Some(high), Some(d)) => if 0 <= d < base {
                Some((high * base + d) as nat)
            } else {
                None
            },
            _ => None,
        }
    }
}

/// What a text says in a base of 10 or 16: digits after an optional plus sign,
/// at least one of them, with a value of at most `max`.
pub open spec fn number_of(s: Seq<char>, base: nat, max: nat) -> Option<nat> {
    let body = if s.len() > 0 && s[0] == '+' {
        s.skip(1)
    } else {
        s
    };
    if body.len() == 0 {
        None
    } else {
        match digits_value(body, base) {
            Some(v) => if v <= max {
                Some(v)
            } else {
                None
            },
            None => None,
        }
    }
}

/// The digits before a prefix never say more than the whole.
proof fn digits_grow(s: Seq<char>, base: nat, n: int)
    requires
        0 <= n <= s.len(),
        base >= 1,
    ensures
        digits_value(s.take(n), base) is None ==> digits_value(s, base) is None,
        digits_value(s, base) is Some ==> digits_value(s.take(n), base) is Some && digits_value(
            s.take(n),
            base,
        )->0 <= digits_value(s, base)->0,
    decreases s.len() - n,
{
    if n < s.len() {
        digits_grow(s, base, n + 1);
        assert(s.take(n + 1).drop_last() =~= s.take(n));
        if digits_value(s.take(n + 1), base) is Some {
            let high = digits_value(s.take(n), base)->0;
            let d = hex_value(s[n])->0;
            assert(s.take(n + 1).last() == s[n]);
            assert(high <= high * base + d) by (nonlinear_arith)
                requires
                    base >= 1,
                    d >= 0,
            ;
        }
    } else {
        assert(s.take(n) =~= s);
    }
}

/// Reads a number in base 10 or 16 with a value of at most `max`.
pub fn parse_number(s: &[char], base: u64, max: u64) -> (r: Option<u64>)
    requires
        base == 10 || base == 16,
    ensures
        match r {
            Some(v) => number_of(s@, base as nat, max as nat) == Some(v as nat),
            None => number_of(s@, base as nat, max as nat) is None,
        },
{
    let start: usize = if s.len() > 0 && s[0] == '+' {
        1
    } else {
        0
    };
    let ghost body = s@.skip(start as int);
    assert(s@.skip(0) =~= s@);
    if start == s.len() {
        return None;
    }
    let mut v: u64 = 0;
    let mut i: usize = start;
    assert(body.take(0) =~= Seq::empty());
    while i < s.len()
        invariant
            start <= i <= s.len(),
            base == 10 || base == 16,
            body == s@.skip(start as int),
            body.len() > 0,
            number_of(s@, base as nat, max as nat) == (match digits_value(body, base as nat) {
                Some(v) => if v <= max {
                    Some(v)
                } else {
                    None
                },
                None => None,
            }),
            digits_value(body.take(i - start), base as nat) == Some(v as nat),
            v <= max,
        decreases s.len() - i,
    {
        proof {
            digits_grow(body, base as nat, i - start + 1);
            assert(body.take(i - start + 1).drop_last() =~= body.take(i - start));
            assert(body.take(i - start + 1).last() == s@[i as int]);
        }
        let d: u64 = match hex_digit(s[i]) {
            Some(d) => d as u64,
            None => {
                return None;
            },
        };
        if d >= base {
            return None;
        }
        let next: u128 = v as u128 * base as u128 + d as u128;
        if next > max as u128 {
            return None;
        }
        v = next as u64;
        i = i + 1;
    }
    assert(body.take(i - start) =~= body);
    Some(v)
}

/// A hexadecimal number between two texts.
pub fn with_hex(left: &str, n: u64, right: &str) -> (r: String)
    ensures
        r@ == left@ + hex_text(n as int) + right@,
{
    let mut out: String = left.to_owned();
    push_hex(&mut out, n);
    out.append(right);
    out
}

/// A decimal number between two texts.
pub fn with_dec(left: &str, n: u64, right: &str) -> (r: String)
    ensures
        r@ == left@ + dec_text(n as int) + right@,
{
    let mut out: String = left.to_owned();
    push_dec(&mut out, n);
    out.append(right);
    out
}

/// A signed number in decimal.
pub open spec fn signed_text(n: int) -> Seq<char> {
    if n < 0 {
        seq!['-'] + dec_text(-n)
    } else {
        dec_text(n)
    }
}

/// Appends a signed number in decimal.
pub fn push_signed(out: &mut String, n: i32)
    ensures
        final(out)@ == old(out)@ + signed_text(n as int),
{
    if n < 0 {
        out.push('-');
        push_dec(out, (0 - (n as i64)) as u64);
        assert(out@ =~= old(out)@ + (seq!['-'] + dec_text(-n)));
    } else {
        push_dec(out, n as u64);
    }
}

/// The value of an outcome whose error is a text.
pub open spec fn outcome_view(r: Result<(), String>) -> Result<(), Seq<char>> {
    match r {
        Ok(_) => Ok(()),
        Err(e) => Err(e@),
    }
}

/// A copy of a text.
pub fn copy_str(s: &String) -> (r: String)
    ensures
        r@ == s@,
{
    s.as_str().to_owned()
}

/// A text filled up with blanks to a width.
pub open spec fn padded(s: Seq<char>, width: nat) -> Seq<char> {
    if s.len() < width {
        s + Seq::new((width - s.len()) as nat, |i: int| ' ')
    } else {
        s
    }
}

/// Adds a text, filled up with blanks to a width.
pub fn push_padded(out: &mut String, s: &str, width: usize)
    ensures
        final(out)@ == old(out)@ + padded(s@, width as nat),
{
    let size: usize = chars(s).len();
    out.append(s);
    let ghost head = old(out)@ + s@;
    let mut n: usize = size;
    while n < width
        invariant
            size == s@.len(),
            n == size || size <= n <= width,
            head == old(out)@ + s@,
            out@ == head + Seq::new((n - size) as nat, |i: int| ' '),
        decreases width - n,
    {
        out.push(' ');
        n = n + 1;
        assert(out@ =~= head + Seq::new((n - size) as nat, |i: int| ' '));
    }
    assert(out@ =~= old(out)@ + padded(s@, width as nat));
}

/// Hexadecimal digits have their values, and no other character has one.
pub proof fn hex_digits_have_their_values(c: char)
    ensures
        48 <= c as int <= 57 ==> hex_value(c) == Some(c as int - 48),
        65 <= c as int <= 70 ==> hex_value(c) == Some(c as int - 55),
        97 <= c as int <= 102 ==> hex_value(c) == Some(c as int - 87),
        hex_value(c) is Some ==> 48 <= c as int <= 57 || 65 <= c as int <= 70 || 97 <= c as int
            <= 102,
{
}

/// The digit that is written for a value is the one that is read as it.
pub proof fn digits_are_read_back(d: int)
    requires
        0 <= d < 16,
    ensures
        hex_value(digit_of(d)) == Some(d),
        d < 10 ==> digit_of(d) as int == 48 + d,
        d >= 10 ==> digit_of(d) as int == 87 + d,
{
}

/// A number that is written out reads back as itself, in both bases, and has
/// no zero before it.
pub proof fn numbers_are_read_back(n: nat, base: nat)
    requires
        base == 10 || base == 16,
    ensures
        digits_value(number_text(n, base), base) == Some(n),
        number_text(n, base).len() > 0,
        forall|max: nat| n <= max ==> number_of(number_text(n, base), base, max) == Some(n),
        forall|max: nat| n > max ==> number_of(number_text(n, base), base, max) is None,
        number_text(n, base)[0] == '0' ==> n == 0,
        n < base ==> number_text(n, base).len() == 1,
    decreases n,
{
    let t = number_text(n, base);
    if n < base {
        digits_are_read_back(n as int);
        assert(t.drop_last() =~= Seq::empty());
    } else {
        assert(0 < n / base < n) by (nonlinear_arith)
            requires
                n >= base >= 2,
        ;
        numbers_are_read_back(n / base, base);
        digits_are_read_back((n % base) as int);
        assert(t.drop_last() =~= number_text(n / base, base));
        assert(t[0] == number_text(n / base, base)[0]);
        assert(n == (n / base) * base + n % base) by (nonlinear_arith)
            requires
                base >= 2,
        ;
    }
    starts_with_digit(n, base);
}

proof fn starts_with_digit(n: nat, base: nat)
    requires
        base == 10 || base == 16,
    ensures
        number_text(n, base).len() > 0,
        number_text(n, base)[0] != '+',
    decreases n,
{
    if n >= base {
        assert(n / base < n) by (nonlinear_arith)
            requires
                n >= base >= 2,
        ;
        starts_with_digit(n / base, base);
    }
}

/// A plus sign before a number changes nothing; a character that is no digit
/// makes it none.
pub proof fn numbers_are_digits(s: Seq<char>, base: nat, max: nat, i: int)
    requires
        base == 10 || base == 16,
    ensures
        s.len() > 0 && s[0] != '+' ==> number_of(seq!['+'] + s, base, max) == number_of(
            s,
            base,
            max,
        ),
        s.len() == 0 ==> number_of(s, base, max) is None,
        0 <= i < s.len() && hex_value(s[i]) is None && !(i == 0 && s[i] == '+') ==> number_of(
            s,
            base,
            max,
        ) is None,
        base == 10 && 0 <= i < s.len() && (hex_value(s[i]) matches Some(d) && d >= 10)
            ==> number_of(s, base, max) is None,
{
    assert((seq!['+'] + s).skip(1) =~= s);
    if 0 <= i < s.len() {
        if s[0] == '+' {
            if i > 0 {
                assert(s.skip(1)[i - 1] == s[i]);
                bad_digit(s.skip(1), base, i - 1);
            }
        } else {
            bad_digit(s, base, i);
        }
    }
}

proof fn bad_digit(s: Seq<char>, base: nat, i: int)
    requires
        0 <= i < s.len(),
    ensures
        (hex_value(s[i]) is None || hex_value(s[i])->0 >= base) ==> digits_value(s, base) is None,
    decreases s.len(),
{
    if i < s.len() - 1 {
        bad_digit(s.drop_last(), base, i);
    }
}

proof fn index_from_is(s: Seq<char>, c: char, i: int, at: int)
    requires
        0 <= i <= at <= s.len(),
        forall|j: int| i <= j < at ==> s[j] != c,
        at < s.len() ==> s[at] == c,
    ensures
        index_from(s, c, i) == if at < s.len() {
            Some(at)
        } else {
            None
        },
    decreases at - i,
{
    if i < at {
        index_from_is(s, c, i + 1, at);
    }
}

/// The first of a character is found: no earlier one stands there, and none is
/// overlooked.
pub proof fn first_character_is_found(s: Seq<char>, c: char, from: int, at: int)
    requires
        0 <= from <= at < s.len(),
        s[at] == c,
        forall|j: int| from <= j < at ==> s[j] != c,
    ensures
        index_from(s, c, from) == Some(at),
{
    index_from_is(s, c, from, at);
}

proof fn lines_shift(a: Seq<char>, b: Seq<char>, i: int)
    requires
        0 <= i,
    ensures
        lines_from(a + b, a.len() + i) == lines_from(b, i),
    decreases
            (if i < b.len() {
                b.len() - i
            } else {
                0
            }),
{
    if i < b.len() {
        let s = a + b;
        index_shift(a, b, '\n', i);
        index_bound(b, '\n', i);
        let end = line_end(b, i);
        assert(line_end(s, a.len() + i) == a.len() + end);
        assert(s.subrange(a.len() + i, a.len() + end) =~= b.subrange(i, end));
        if end > i {
            assert(s[a.len() + end - 1] == b[end - 1]);
            assert(s.subrange(a.len() + i, a.len() + end - 1) =~= b.subrange(i, end - 1));
        }
        lines_shift(a, b, end + 1);
        assert(a.len() + (end + 1) == (a.len() + end) + 1);
    }
}

proof fn index_bound(s: Seq<char>, c: char, i: int)
    ensures
        index_from(s, c, i) matches Some(j) ==> i <= j < s.len() && s[j] == c,
    decreases s.len() - i,
{
    if 0 <= i < s.len() && s[i] != c {
        index_bound(s, c, i + 1);
    }
}

proof fn index_shift(a: Seq<char>, b: Seq<char>, c: char, i: int)
    requires
        0 <= i,
    ensures
        index_from(a + b, c, a.len() + i) == (match index_from(b, c, i) {
            Some(j) => Some(a.len() + j),
            None => None,
        }),
    decreases b.len() - i,
{
    if i < b.len() {
        assert((a + b)[a.len() + i] == b[i]);
        index_shift(a, b, c, i + 1);
        assert(a.len() + (i + 1) == (a.len() + i) + 1);
    }
}

/// Every line of a text is listed: what stands before a line feed, without a
/// carriage return at its end, and then the lines of the rest.
pub proof fn lines_are_split_off(line: Seq<char>, rest: Seq<char>)
    requires
        !line.contains('\n'),
        line.len() > 0 ==> line.last() != '\r',
    ensures
        lines_of(line + seq!['\n'] + rest) == seq![line] + lines_of(rest),
        lines_of(line + seq!['\r', '\n'] + rest) == seq![line] + lines_of(rest),
        line.len() > 0 ==> lines_of(line) == seq![line],
        lines_of(Seq::empty()) == Seq::<Seq<char>>::empty(),
{
    let n = line.len() as int;
    assert forall|j: int| 0 <= j < n implies line[j] != '\n' by {
        assert(line.contains(line[j]));
    }
    let s = line + seq!['\n'] + rest;
    assert forall|j: int| 0 <= j < n implies s[j] != '\n' by {
        assert(s[j] == line[j]);
    }
    index_from_is(s, '\n', 0, n);
    assert(s.subrange(0, n) =~= line);
    lines_shift(line + seq!['\n'], rest, 0);
    if n > 0 {
        assert(s[n - 1] == line.last());
    }
    let t = line + seq!['\r', '\n'] + rest;
    assert forall|j: int| 0 <= j < n + 1 implies t[j] != '\n' by {
        if j < n {
            assert(t[j] == line[j]);
        }
    }
    index_from_is(t, '\n', 0, n + 1);
    assert(t.subrange(0, n) =~= line);
    lines_shift(line + seq!['\r', '\n'], rest, 0);
    if n > 0 {
        index_from_is(line, '\n', 0, n);
        assert(line.subrange(0, n) =~= line);
        assert(lines_from(line, n + 1) =~= Seq::empty());
        assert(lines_of(line) =~= seq![line]);
    }
}

/// Every word of a text is listed: white space separates words and is part of
/// none.
pub proof fn words_are_split_off(word: Seq<char>, space: char, rest: Seq<char>)
    requires
        word.len() > 0,
        forall|i: int| 0 <= i < word.len() ==> !is_white(#[trigger] word[i]),
        is_white(space),
    ensures
        words_of(word + seq![space] + rest) == seq![word] + words_of(rest),
        words_of(seq![space] + rest) == words_of(rest),
        words_of(word) == seq![word],
{
    let n = word.len() as int;
    let s = word + seq![space] + rest;
    assert forall|i: int| 0 <= i < n implies !is_white(s[i]) by {
        assert(s[i] == word[i]);
    }
    assert(s[n] == space);
    assert(!is_white(word[0]));
    assert(s[0] == word[0]);
    word_len_is(s, n);
    assert(s.take(n) =~= word);
    assert(s.skip(n) =~= seq![space] + rest);
    assert(words_of(s) == seq![s.take(n)] + words_of(s.skip(n)));
    assert((seq![space] + rest)[0] == space);
    assert((seq![space] + rest).drop_first() =~= rest);
    assert(words_of(seq![space] + rest) == words_of(rest));
    word_len_is(word, n);
    assert(word.take(n) =~= word);
    assert(word.skip(n) =~= Seq::empty());
    assert(words_of(word) == seq![word.take(n)] + words_of(word.skip(n)));
    assert(words_of(Seq::<char>::empty()) =~= Seq::empty());
    assert(words_of(word) =~= seq![word]);
}

/// What separates words is what Unicode calls white space; of ASCII the blank
/// and the characters from tab to carriage return.
pub proof fn ascii_white_space(c: char)
    requires
        (c as int) < 128,
    ensures
        is_white(c) <==> c as int == 32 || 9 <= c as int <= 13,
{
}

/// Faults are joined in order, with a semicolon between each two.
pub proof fn faults_are_joined(parts: Seq<Seq<char>>, last: Seq<char>)
    ensures
        joined(Seq::empty()) == Seq::<char>::empty(),
        parts.len() == 0 ==> joined(parts.push(last)) == last,
        parts.len() > 0 ==> joined(parts.push(last)) == joined(parts) + seq![';', ' '] + last,
{
    reveal_strlit("; ");
    assert("; "@ =~= seq![';', ' ']);
    assert(parts.push(last).drop_last() =~= parts);
}

/// A signed number is written with its sign.
pub proof fn signed_numbers_are_written(n: int)
    ensures
        n >= 0 ==> signed_text(n) == dec_text(n),
        n < 0 ==> signed_text(n)[0] == '-' && signed_text(n).skip(1) == dec_text(-n),
{
    if n < 0 {
        assert(signed_text(n).skip(1) =~= dec_text(-n));
    }
}

/// A text is filled up behind, and a longer one stays.
pub proof fn texts_are_filled_up(s: Seq<char>, width: nat)
    ensures
        padded(s, width).len() >= width,
        padded(s, width).take(s.len() as int) == s,
        s.len() >= width ==> padded(s, width) == s,
        s.len() < width ==> padded(s, width).len() == width,
        forall|i: int| s.len() <= i < padded(s, width).len() ==> padded(s, width)[i] == ' ',
{
    assert(padded(s, width).take(s.len() as int) =~= s);
}

} // verus!
