//! The list of map versions: one row of `sha1,md5` per line, both in
//! hexadecimal.
//!
//! The list comes over the network, so a row counts only if both hashes are
//! what they should be: a hash becomes part of a file's address.
use vstd::prelude::*;
use vstd::utf8::{encode_utf8, is_ascii_chars_encode_utf8};

use crate::phrase::{eq_ignore_case, lower_char, same_but_case};
use crate::text::{
    char_views, chars, digit, digit_of, first_character_is_found, hex_digit, hex_value, index_from, index_of, lines, lines_of,
    string_of,
};

verus! {

/// Digits of a SHA-1.
pub const SHA1_DIGITS: usize = 40;

/// Digits of an MD5.
pub const MD5_DIGITS: usize = 32;

/// How long the list is used before it is fetched again, in seconds.
pub const CSV_MAX_AGE: u64 = 129_600;

/// Smallest and greatest size of a list that Windows takes.
pub const MIN_CSV_BYTES: u64 = 1_024;

pub const MAX_CSV_BYTES: u64 = 33_554_432;

/// A text of hexadecimal digits.
pub open spec fn all_hex(s: Seq<char>) -> bool {
    forall|i: int| 0 <= i < s.len() ==> hex_value(#[trigger] s[i]) is Some
}

/// Whether a text is made of hexadecimal digits.
pub fn is_hex(s: &[char]) -> (r: bool)
    ensures
        r == all_hex(s@),
{
    let mut i: usize = 0;
    while i < s.len()
        invariant
            i <= s.len(),
            forall|j: int| 0 <= j < i ==> hex_value(#[trigger] s@[j]) is Some,
        decreases s.len() - i,
    {
        match hex_digit(s[i]) {
            Some(_) => {},
            None => {
                assert(hex_value(s@[i as int]) is None);
                return false;
            },
        }
        i = i + 1;
    }
    true
}

/// A line without the carriage returns behind it.
pub open spec fn without_returns(s: Seq<char>) -> Seq<char>
    decreases s.len(),
{
    if s.len() > 0 && s.last() == '\r' {
        without_returns(s.drop_last())
    } else {
        s
    }
}

/// A line without the carriage returns behind it.
fn drop_returns(s: &[char]) -> (r: &[char])
    ensures
        r@ == without_returns(s@),
{
    let mut n: usize = s.len();
    assert(s@.take(n as int) =~= s@);
    while n > 0 && s[n - 1] == '\r'
        invariant
            n <= s.len(),
            without_returns(s@) == without_returns(s@.take(n as int)),
        decreases n,
    {
        assert(s@.take(n as int).last() == s@[n - 1]);
        assert(s@.take(n as int).drop_last() =~= s@.take(n - 1));
        n = n - 1;
    }
    assert(n > 0 ==> s@.take(n as int).last() == s@[n - 1]);
    let r: &[char] = vstd::slice::slice_subrange(s, 0, n);
    assert(r@ =~= s@.take(n as int));
    r
}

/// What stands before and behind the first comma.
pub open spec fn comma_split(s: Seq<char>) -> Option<(Seq<char>, Seq<char>)> {
    match index_from(s, ',', 0) {
        Some(i) => Some((s.take(i), s.skip(i + 1))),
        None => None,
    }
}

/// Splits at the first comma.
fn split_comma(s: &[char]) -> (r: Option<(&[char], &[char])>)
    ensures
        match r {
            Some((a, b)) => comma_split(s@) == Some((a@, b@)),
            None => comma_split(s@) is None,
        },
{
    let size: usize = s.len();
    match index_of(s, ',', 0) {
        None => None,
        Some(i) => {
            let a: &[char] = vstd::slice::slice_subrange(s, 0, i);
            let b: &[char] = vstd::slice::slice_subrange(s, i + 1, size);
            assert(a@ =~= s@.take(i as int));
            assert(b@ =~= s@.skip(i + 1));
            Some((a, b))
        },
    }
}

/// The hashes of a row: 40 and 32 hexadecimal digits around a comma.
pub open spec fn row_of(line: Seq<char>) -> Option<(Seq<char>, Seq<char>)> {
    match comma_split(without_returns(line)) {
        None => None,
        Some((sha1, md5)) => if sha1.len() == SHA1_DIGITS && md5.len() == MD5_DIGITS && all_hex(
            sha1,
        ) && all_hex(md5) {
            Some((sha1, md5))
        } else {
            None
        },
    }
}

/// Reads the hashes of a row.
fn parse_row(line: &[char]) -> (r: Option<(Vec<char>, Vec<char>)>)
    ensures
        match r {
            Some((a, b)) => row_of(line@) == Some((a@, b@)),
            None => row_of(line@) is None,
        },
{
    match split_comma(drop_returns(line)) {
        None => None,
        Some((sha1, md5)) => if sha1.len() == SHA1_DIGITS && md5.len() == MD5_DIGITS && is_hex(sha1)
            && is_hex(md5) {
            Some((vstd::slice::slice_to_vec(sha1), vstd::slice::slice_to_vec(md5)))
        } else {
            None
        },
    }
}

/// Reads the hashes of a row.
pub fn checksum_row(line: &str) -> (r: Option<(String, String)>)
    ensures
        match r {
            Some((a, b)) => row_of(line@) == Some((a@, b@)),
            None => row_of(line@) is None,
        },
{
    let cs: Vec<char> = chars(line);
    match parse_row(cs.as_slice()) {
        None => None,
        Some((a, b)) => Some((string_of(a.as_slice()), string_of(b.as_slice()))),
    }
}

/// Some line of the list is a row.
pub open spec fn has_row(csv: Seq<char>) -> bool {
    exists|i: int| 0 <= i < lines_of(csv).len() && row_of(#[trigger] lines_of(csv)[i]) is Some
}

/// Whether a fetched list is worth keeping: some line of it is a row.
pub fn valid_csv(csv: &str) -> (r: bool)
    ensures
        r == has_row(csv@),
{
    let cs: Vec<char> = chars(csv);
    let ls: Vec<Vec<char>> = lines(cs.as_slice());
    let ghost views = char_views(ls@);
    let mut i: usize = 0;
    while i < ls.len()
        invariant
            i <= ls.len(),
            views == char_views(ls@),
            views == lines_of(csv@),
            forall|j: int| 0 <= j < i ==> row_of(#[trigger] views[j]) is None,
        decreases ls.len() - i,
    {
        assert(views[i as int] == ls@[i as int]@);
        if parse_row(ls[i].as_slice()).is_some() {
            assert(row_of(lines_of(csv@)[i as int]) is Some);
            return true;
        }
        i = i + 1;
    }
    assert forall|j: int| 0 <= j < lines_of(csv@).len() implies row_of(
        #[trigger] lines_of(csv@)[j],
    ) is None by {
        assert(row_of(views[j]) is None);
    }
    false
}

/// The SHA-1 of the first row with this MD5, whatever the case of its letters,
/// among the lines from `i` on.
pub open spec fn sha1_from(ls: Seq<Seq<char>>, md5: Seq<char>, i: int) -> Option<Seq<char>>
    decreases ls.len() - i,
{
    if i < 0 || i >= ls.len() {
        None
    } else {
        match row_of(ls[i]) {
            Some((sha1, m)) => if same_but_case(m, md5) {
                Some(sha1)
            } else {
                sha1_from(ls, md5, i + 1)
            },
            None => sha1_from(ls, md5, i + 1),
        }
    }
}

/// The SHA-1 that the list gives for an MD5.
pub open spec fn sha1_for(csv: Seq<char>, md5: Seq<char>) -> Option<Seq<char>> {
    if md5.len() == MD5_DIGITS && all_hex(md5) {
        sha1_from(lines_of(csv), md5, 0)
    } else {
        None
    }
}

/// Looks up the SHA-1 that the list gives for an MD5.
pub fn lookup_md5(csv: &str, md5hex: &str) -> (r: Option<String>)
    ensures
        match r {
            Some(s) => sha1_for(csv@, md5hex@) == Some(s@),
            None => sha1_for(csv@, md5hex@) is None,
        },
{
    let md5: Vec<char> = chars(md5hex);
    if md5.len() != MD5_DIGITS || !is_hex(md5.as_slice()) {
        return None;
    }
    let cs: Vec<char> = chars(csv);
    let ls: Vec<Vec<char>> = lines(cs.as_slice());
    let ghost views = char_views(ls@);
    let mut i: usize = 0;
    while i < ls.len()
        invariant
            i <= ls.len(),
            views == char_views(ls@),
            sha1_for(csv@, md5hex@) == sha1_from(views, md5@, i as int),
        decreases ls.len() - i,
    {
        assert(views[i as int] == ls@[i as int]@);
        match parse_row(ls[i].as_slice()) {
            Some((sha1, m)) => {
                if eq_ignore_case(m.as_slice(), md5.as_slice()) {
                    return Some(string_of(sha1.as_slice()));
                }
            },
            None => {},
        }
        i = i + 1;
    }
    None
}

/// The SHA-1 of a row, where only the SHA-1 has to be a hash.
pub open spec fn loose_sha1(line: Seq<char>, md5: Seq<char>) -> Option<Seq<char>> {
    match comma_split(without_returns(line)) {
        None => None,
        Some((sha1, m)) => if same_but_case(m, md5) && sha1.len() == SHA1_DIGITS && all_hex(sha1) {
            Some(sha1)
        } else {
            None
        },
    }
}

/// The first such SHA-1 among the lines from `i` on.
pub open spec fn loose_from(ls: Seq<Seq<char>>, md5: Seq<char>, i: int) -> Option<Seq<char>>
    decreases ls.len() - i,
{
    if i < 0 || i >= ls.len() {
        None
    } else {
        match loose_sha1(ls[i], md5) {
            Some(s) => Some(s),
            None => loose_from(ls, md5, i + 1),
        }
    }
}

/// Looks up the SHA-1 that the list gives for an MD5, on Windows, where the MD5
/// comes from the message and is a hash already.
pub fn lookup_md5_windows(csv: &str, md5hex: &str) -> (r: Option<String>)
    ensures
        match r {
            Some(s) => loose_from(lines_of(csv@), md5hex@, 0) == Some(s@),
            None => loose_from(lines_of(csv@), md5hex@, 0) is None,
        },
{
    let md5: Vec<char> = chars(md5hex);
    let cs: Vec<char> = chars(csv);
    let ls: Vec<Vec<char>> = lines(cs.as_slice());
    let ghost views = char_views(ls@);
    let mut i: usize = 0;
    while i < ls.len()
        invariant
            i <= ls.len(),
            md5@ == md5hex@,
            views == char_views(ls@),
            loose_from(lines_of(csv@), md5hex@, 0) == loose_from(views, md5@, i as int),
        decreases ls.len() - i,
    {
        assert(views[i as int] == ls@[i as int]@);
        match split_comma(drop_returns(ls[i].as_slice())) {
            Some((sha1, m)) => {
                if eq_ignore_case(m, md5.as_slice()) && sha1.len() == SHA1_DIGITS && is_hex(sha1) {
                    return Some(string_of(sha1));
                }
            },
            None => {},
        }
        i = i + 1;
    }
    None
}

/// Both lookups give the same answer for an MD5 that is a hash.
pub proof fn lookups_agree(csv: Seq<char>, md5: Seq<char>)
    requires
        md5.len() == MD5_DIGITS,
        all_hex(md5),
    ensures
        sha1_for(csv, md5) == loose_from(lines_of(csv), md5, 0),
{
    agree_from(lines_of(csv), md5, 0);
}

proof fn same_case_hex(a: Seq<char>, b: Seq<char>)
    requires
        same_but_case(a, b),
        all_hex(b),
    ensures
        all_hex(a),
{
    assert forall|i: int| 0 <= i < a.len() implies hex_value(#[trigger] a[i]) is Some by {
        assert(hex_value(b[i]) is Some);
    }
}

proof fn agree_from(ls: Seq<Seq<char>>, md5: Seq<char>, i: int)
    requires
        md5.len() == MD5_DIGITS,
        all_hex(md5),
        0 <= i <= ls.len(),
    ensures
        sha1_from(ls, md5, i) == loose_from(ls, md5, i),
    decreases ls.len() - i,
{
    if i < ls.len() {
        agree_from(ls, md5, i + 1);
        match comma_split(without_returns(ls[i])) {
            Some((sha1, m)) => {
                if same_but_case(m, md5) {
                    same_case_hex(m, md5);
                }
            },
            None => {},
        }
    }
}

/// Whatever the list says, a SHA-1 that is looked up is 40 hexadecimal digits:
/// nothing in it can lead out of the address it becomes a part of.
pub proof fn looked_up_hash_is_a_hash(csv: Seq<char>, md5: Seq<char>)
    ensures
        sha1_for(csv, md5) matches Some(s) ==> s.len() == SHA1_DIGITS && all_hex(s),
        loose_from(lines_of(csv), md5, 0) matches Some(s) ==> s.len() == SHA1_DIGITS && all_hex(s),
{
    hash_from(lines_of(csv), md5, 0);
}

proof fn hash_from(ls: Seq<Seq<char>>, md5: Seq<char>, i: int)
    ensures
        sha1_from(ls, md5, i) matches Some(s) ==> s.len() == SHA1_DIGITS && all_hex(s),
        loose_from(ls, md5, i) matches Some(s) ==> s.len() == SHA1_DIGITS && all_hex(s),
    decreases ls.len() - i,
{
    if 0 <= i < ls.len() {
        hash_from(ls, md5, i + 1);
    }
}

/// A line that makes Windows keep a fetched list: a SHA-1, and behind the comma
/// as many bytes as an MD5 has digits.
pub open spec fn is_loose_row(line: Seq<char>) -> bool {
    match comma_split(line) {
        None => false,
        Some((sha1, md5)) => sha1.len() == SHA1_DIGITS && encode_utf8(without_returns(md5)).len()
            == MD5_DIGITS && all_hex(sha1),
    }
}

/// Whether Windows takes a list: its size in bytes is plausible, and some line
/// has a SHA-1.
pub open spec fn is_list(csv: Seq<char>) -> bool {
    &&& MIN_CSV_BYTES <= encode_utf8(csv).len() <= MAX_CSV_BYTES
    &&& exists|i: int| 0 <= i < lines_of(csv).len() && is_loose_row(#[trigger] lines_of(csv)[i])
}

/// Whether Windows takes a list.
pub fn load_csv(csv: &str) -> (r: bool)
    ensures
        r == is_list(csv@),
{
    let size: usize = csv.as_bytes().len();
    if (size as u64) < MIN_CSV_BYTES || size as u64 > MAX_CSV_BYTES {
        return false;
    }
    let cs: Vec<char> = chars(csv);
    let ls: Vec<Vec<char>> = lines(cs.as_slice());
    let ghost views = char_views(ls@);
    let mut i: usize = 0;
    while i < ls.len()
        invariant
            i <= ls.len(),
            views == char_views(ls@),
            views == lines_of(csv@),
            MIN_CSV_BYTES <= encode_utf8(csv@).len() <= MAX_CSV_BYTES,
            forall|j: int| 0 <= j < i ==> !is_loose_row(#[trigger] views[j]),
        decreases ls.len() - i,
    {
        assert(views[i as int] == ls@[i as int]@);
        match split_comma(ls[i].as_slice()) {
            Some((sha1, md5)) => {
                if sha1.len() == SHA1_DIGITS {
                    let rest: String = string_of(drop_returns(md5));
                    if rest.as_str().as_bytes().len() == MD5_DIGITS && is_hex(sha1) {
                        assert(is_loose_row(lines_of(csv@)[i as int]));
                        return true;
                    }
                }
            },
            None => {},
        }
        i = i + 1;
    }
    assert forall|j: int| 0 <= j < lines_of(csv@).len() implies !is_loose_row(
        #[trigger] lines_of(csv@)[j],
    ) by {
        assert(!is_loose_row(views[j]));
    }
    false
}

/// Whether the list has to be fetched again. `age` is how many whole seconds
/// ago it was fetched, if that can be told; Linux rounds a part of a second
/// down, Windows up.
pub fn is_stale(age: Option<u64>) -> (r: bool)
    ensures
        r == (match age {
            Some(a) => a > CSV_MAX_AGE,
            None => true,
        }),
{
    match age {
        Some(a) => a > CSV_MAX_AGE,
        None => true,
    }
}

/// Bytes in hexadecimal, two small digits each.
pub open spec fn hex_of(b: Seq<u8>) -> Seq<char>
    decreases b.len(),
{
    if b.len() == 0 {
        Seq::empty()
    } else {
        hex_of(b.drop_last()).push(digit_of(b.last() as int / 16)).push(
            digit_of(b.last() as int % 16),
        )
    }
}

proof fn hex_of_shape(b: Seq<u8>)
    ensures
        hex_of(b).len() == 2 * b.len(),
        all_hex(hex_of(b)),
    decreases b.len(),
{
    if b.len() > 0 {
        hex_of_shape(b.drop_last());
    }
}

/// An MD5 in hexadecimal is one that can be looked up.
pub proof fn md5_hex_can_be_looked_up(md5: Seq<u8>)
    requires
        md5.len() == 16,
    ensures
        hex_of(md5).len() == MD5_DIGITS,
        all_hex(hex_of(md5)),
{
    hex_of_shape(md5);
}

/// Bytes in hexadecimal, two small digits each.
pub fn hex_bytes(b: &[u8]) -> (r: String)
    ensures
        r@ == hex_of(b@),
{
    let mut out: String = String::new();
    let mut i: usize = 0;
    assert(b@.take(0) =~= Seq::empty());
    assert(out@ =~= Seq::empty());
    while i < b.len()
        invariant
            i <= b.len(),
            out@ == hex_of(b@.take(i as int)),
        decreases b.len() - i,
    {
        let v: u64 = b[i] as u64;
        out.push(digit(v / 16));
        out.push(digit(v % 16));
        assert(b@.take(i + 1).drop_last() =~= b@.take(i as int));
        assert(b@.take(i + 1).last() == b@[i as int]);
        i = i + 1;
    }
    assert(b@.take(b@.len() as int) =~= b@);
    out
}

/// A character that a hash is made of.
pub open spec fn hash_char(c: char) -> bool {
    48 <= c as int <= 57 || 65 <= c as int <= 70 || 97 <= c as int <= 102
}

/// A SHA-1 and an MD5 around a comma, with any number of carriage returns
/// behind them.
pub open spec fn is_row_text(line: Seq<char>, sha1: Seq<char>, md5: Seq<char>) -> bool {
    &&& sha1.len() == 40
    &&& md5.len() == 32
    &&& forall|i: int| 0 <= i < 40 ==> hash_char(#[trigger] sha1[i])
    &&& forall|i: int| 0 <= i < 32 ==> hash_char(#[trigger] md5[i])
    &&& line.len() >= 73
    &&& line.take(73) == sha1 + seq![','] + md5
    &&& forall|i: int| 73 <= i < line.len() ==> line[i] == '\r'
}

proof fn returns_are_dropped(line: Seq<char>, n: int)
    requires
        0 <= n <= line.len(),
        forall|i: int| n <= i < line.len() ==> line[i] == '\r',
        n > 0 ==> line[n - 1] != '\r',
    ensures
        without_returns(line) == line.take(n),
    decreases line.len(),
{
    if line.len() > n {
        assert(line.last() == '\r');
        returns_are_dropped(line.drop_last(), n);
        assert(line.drop_last().take(n) =~= line.take(n));
    } else {
        assert(line.take(n) =~= line);
    }
}

/// A row is read as what it says, and nothing else is a row.
pub proof fn rows_are_read(line: Seq<char>, sha1: Seq<char>, md5: Seq<char>)
    ensures
        row_of(line) == Some((sha1, md5)) <==> is_row_text(line, sha1, md5),
{
    if is_row_text(line, sha1, md5) {
        let head = sha1 + seq![','] + md5;
        assert(line.take(73)[72] == md5[31]);
        assert(line[72] == md5[31]);
        returns_are_dropped(line, 73);
        assert forall|j: int| 0 <= j < 40 implies head[j] != ',' by {
            assert(head[j] == sha1[j]);
        }
        first_character_is_found(head, ',', 0, 40);
        assert(head.take(40) =~= sha1);
        assert(head.skip(41) =~= md5);
        assert(all_hex(sha1)) by {
            assert forall|i: int| 0 <= i < 40 implies hex_value(#[trigger] sha1[i]) is Some by {
                assert(hash_char(sha1[i]));
            }
        }
        assert(all_hex(md5)) by {
            assert forall|i: int| 0 <= i < 32 implies hex_value(#[trigger] md5[i]) is Some by {
                assert(hash_char(md5[i]));
            }
        }
    }
    if row_of(line) == Some((sha1, md5)) {
        let head = without_returns(line);
        without_returns_is(line);
        index_holds(head, ',', 0);
        assert(head =~= sha1 + seq![','] + md5);
        assert(line.take(73) =~= head);
        assert forall|i: int| 0 <= i < 40 implies hash_char(#[trigger] sha1[i]) by {
            assert(hex_value(sha1[i]) is Some);
        }
        assert forall|i: int| 0 <= i < 32 implies hash_char(#[trigger] md5[i]) by {
            assert(hex_value(md5[i]) is Some);
        }
    }
}

proof fn without_returns_is(line: Seq<char>)
    ensures
        without_returns(line).len() <= line.len(),
        without_returns(line) == line.take(without_returns(line).len() as int),
        forall|i: int| without_returns(line).len() <= i < line.len() ==> line[i] == '\r',
    decreases line.len(),
{
    if line.len() > 0 && line.last() == '\r' {
        let rest = line.drop_last();
        without_returns_is(rest);
        let n = without_returns(line).len() as int;
        assert(line.take(n) =~= rest.take(n));
        assert forall|i: int| n <= i < line.len() implies line[i] == '\r' by {
            if i < rest.len() {
                assert(rest[i] == line[i]);
            }
        }
    } else {
        assert(line.take(line.len() as int) =~= line);
    }
}

proof fn index_holds(s: Seq<char>, c: char, i: int)
    ensures
        index_from(s, c, i) matches Some(j) ==> i <= j < s.len() && s[j] == c,
    decreases s.len() - i,
{
    if 0 <= i < s.len() && s[i] != c {
        index_holds(s, c, i + 1);
    }
}

/// The lookup finds what is there: the SHA-1 in the first row of the MD5,
/// whatever the case of its letters and whatever other lines stand before it.
pub proof fn first_row_of_the_md5_is_found(
    csv: Seq<char>,
    md5: Seq<char>,
    i: int,
    sha1: Seq<char>,
    m: Seq<char>,
)
    requires
        0 <= i < lines_of(csv).len(),
        is_row_text(lines_of(csv)[i], sha1, m),
        same_but_case(m, md5),
        forall|j: int, s: Seq<char>, x: Seq<char>|
            0 <= j < i && #[trigger] is_row_text(lines_of(csv)[j], s, x) ==> !same_but_case(x, md5),
    ensures
        sha1_for(csv, md5) == Some(sha1),
        loose_from(lines_of(csv), md5, 0) == Some(sha1),
{
    let ls = lines_of(csv);
    rows_are_read(ls[i], sha1, m);
    assert forall|k: int| 0 <= k < md5.len() implies hex_value(#[trigger] md5[k]) is Some by {
        assert(lower_char(m[k]) == lower_char(md5[k]));
        assert(hash_char(m[k]));
    }
    assert forall|j: int| 0 <= j < i implies (row_of(#[trigger] ls[j]) matches Some((s, x))
        ==> !same_but_case(x, md5)) by {
        if row_of(ls[j]) is Some {
            let (s, x) = row_of(ls[j])->0;
            rows_are_read(ls[j], s, x);
            assert(is_row_text(ls[j], s, x));
        }
    }
    found_from(ls, md5, 0, i);
    lookups_agree(csv, md5);
}

proof fn found_from(ls: Seq<Seq<char>>, md5: Seq<char>, j: int, i: int)
    requires
        0 <= j <= i < ls.len(),
        row_of(ls[i]) is Some,
        same_but_case((row_of(ls[i])->0).1, md5),
        forall|k: int|
            0 <= k < i ==> (row_of(#[trigger] ls[k]) matches Some((s, x)) ==> !same_but_case(
                x,
                md5,
            )),
    ensures
        sha1_from(ls, md5, j) == Some((row_of(ls[i])->0).0),
    decreases i - j,
{
    if j < i {
        assert(row_of(ls[j]) matches Some((s, x)) ==> !same_but_case(x, md5));
        found_from(ls, md5, j + 1, i);
    }
}

/// A row of the list has this SHA-1 beside the MD5.
pub open spec fn stands_in_a_row(ls: Seq<Seq<char>>, sha1: Seq<char>, md5: Seq<char>) -> bool {
    exists|k: int, m: Seq<char>|
        0 <= k < ls.len() && #[trigger] is_row_text(ls[k], sha1, m) && same_but_case(m, md5)
}

/// The lookup invents nothing: a SHA-1 that it gives stands in a row of the
/// list, beside the MD5.
pub proof fn found_row_is_in_the_list(csv: Seq<char>, md5: Seq<char>)
    ensures
        sha1_for(csv, md5) is Some ==> stands_in_a_row(
            lines_of(csv),
            sha1_for(csv, md5)->0,
            md5,
        ),
{
    row_from(lines_of(csv), md5, 0);
}

proof fn row_from(ls: Seq<Seq<char>>, md5: Seq<char>, i: int)
    ensures
        sha1_from(ls, md5, i) is Some ==> stands_in_a_row(ls, sha1_from(ls, md5, i)->0, md5),
    decreases ls.len() - i,
{
    if 0 <= i < ls.len() {
        row_from(ls, md5, i + 1);
        if row_of(ls[i]) is Some {
            let (s, m) = row_of(ls[i])->0;
            rows_are_read(ls[i], s, m);
            if same_but_case(m, md5) {
                assert(is_row_text(ls[i], s, m));
                assert(stands_in_a_row(ls, s, md5));
            }
        }
    }
}

/// A list with a row is kept, one without is not. Windows asks for its size
/// besides, which a list of that many rows has.
pub proof fn lists_with_rows_are_kept(csv: Seq<char>, i: int, sha1: Seq<char>, md5: Seq<char>)
    requires
        0 <= i < lines_of(csv).len(),
        is_row_text(lines_of(csv)[i], sha1, md5),
    ensures
        has_row(csv),
        1_024 <= encode_utf8(csv).len() <= 33_554_432 ==> is_list(csv),
{
    let line = lines_of(csv)[i];
    rows_are_read(line, sha1, md5);
    assert forall|j: int| 0 <= j < 40 implies line[j] != ',' by {
        assert(line.take(73)[j] == sha1[j]);
    }
    assert(line.take(73)[40] == ',');
    first_character_is_found(line, ',', 0, 40);
    assert(line.take(40) =~= sha1) by {
        assert forall|j: int| 0 <= j < 40 implies line[j] == sha1[j] by {
            assert(line.take(73)[j] == sha1[j]);
        }
    }
    let behind = line.skip(41);
    assert(behind.take(32) =~= md5) by {
        assert forall|j: int| 0 <= j < 32 implies behind[j] == md5[j] by {
            assert(line.take(73)[41 + j] == md5[j]);
        }
    }
    assert(behind[31] == md5[31]);
    returns_are_dropped(behind, 32);
    assert(all_hex(sha1));
    assert forall|j: int| 0 <= j < 32 implies (#[trigger] md5[j] as int) < 128 by {
        assert(hash_char(md5[j]));
    }
    is_ascii_chars_encode_utf8(md5);
    assert(is_loose_row(line));
}

/// Hexadecimal digits give the bytes back: two for each byte, the high half
/// first.
pub proof fn hex_tells_the_bytes(b: Seq<u8>, i: int)
    requires
        0 <= i < b.len(),
    ensures
        hex_of(b).len() == 2 * b.len(),
        hex_value(hex_of(b)[2 * i]) == Some(b[i] as int / 16),
        hex_value(hex_of(b)[2 * i + 1]) == Some(b[i] as int % 16),
        !(65 <= hex_of(b)[2 * i] as int <= 90),
        !(65 <= hex_of(b)[2 * i + 1] as int <= 90),
    decreases b.len(),
{
    hex_of_shape(b.drop_last());
    hex_of_shape(b);
    if i < b.len() - 1 {
        hex_tells_the_bytes(b.drop_last(), i);
    }
}


} // verus!
