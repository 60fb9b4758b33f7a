//! Little-endian reads and byte searches over plain slices.
use vstd::prelude::*;

verus! {

/// The unsigned 16-bit little-endian number at `at`.
pub open spec fn le16(b: Seq<u8>, at: int) -> int {
    b[at] + 0x100 * b[at + 1]
}

/// The unsigned 32-bit little-endian number at `at`.
pub open spec fn le32(b: Seq<u8>, at: int) -> int {
    le16(b, at) + 0x1_0000 * le16(b, at + 2)
}

/// The unsigned 64-bit little-endian number at `at`.
pub open spec fn le64(b: Seq<u8>, at: int) -> int {
    le32(b, at) + 0x1_0000_0000 * le32(b, at + 4)
}

/// The two's-complement reading of an unsigned 32-bit number.
pub open spec fn signed32(v: int) -> int {
    if v < 0x8000_0000 {
        v
    } else {
        v - 0x1_0000_0000
    }
}

/// The two's-complement reading of an unsigned 64-bit number.
pub open spec fn signed64(v: int) -> int {
    if v < 0x8000_0000_0000_0000 {
        v
    } else {
        v - 0x1_0000_0000_0000_0000
    }
}

/// Reads the little-endian `u16` at `at`.
pub fn rd_u16(b: &[u8], at: usize) -> (r: u16)
    requires
        at + 2 <= b.len(),
    ensures
        r == le16(b@, at as int),
{
    b[at] as u16 + 0x100 * (b[at + 1] as u16)
}

/// Reads the little-endian `u32` at `at`.
pub fn rd_u32(b: &[u8], at: usize) -> (r: u32)
    requires
        at + 4 <= b.len(),
    ensures
        r == le32(b@, at as int),
{
    rd_u16(b, at) as u32 + 0x1_0000 * (rd_u16(b, at + 2) as u32)
}

/// Reads the little-endian `u64` at `at`.
pub fn rd_u64(b: &[u8], at: usize) -> (r: u64)
    requires
        at + 8 <= b.len(),
    ensures
        r == le64(b@, at as int),
{
    rd_u32(b, at) as u64 + 0x1_0000_0000 * (rd_u32(b, at + 4) as u64)
}

/// Reads the little-endian `i32` at `at`.
pub fn rd_i32(b: &[u8], at: usize) -> (r: i32)
    requires
        at + 4 <= b.len(),
    ensures
        r == signed32(le32(b@, at as int)),
{
    let v: u32 = rd_u32(b, at);
    if v < 0x8000_0000 {
        v as i32
    } else {
        -((u32::MAX - v) as i32) - 1
    }
}

/// Reads the little-endian `i64` at `at`.
pub fn rd_i64(b: &[u8], at: usize) -> (r: i64)
    requires
        at + 8 <= b.len(),
    ensures
        r == signed64(le64(b@, at as int)),
{
    let v: u64 = rd_u64(b, at);
    if v < 0x8000_0000_0000_0000 {
        v as i64
    } else {
        -((u64::MAX - v) as i64) - 1
    }
}

/// Byte `i` of `v`, counted from the low end.
pub open spec fn byte_of(v: int, i: nat) -> u8
    decreases i,
{
    if i == 0 {
        (v % 0x100) as u8
    } else {
        byte_of(v / 0x100, (i - 1) as nat)
    }
}

/// The eight little-endian bytes of a 64-bit number.
pub open spec fn le_bytes64(v: int) -> Seq<u8> {
    Seq::new(8, |i: int| byte_of(v, i as nat))
}

/// Writing a 64-bit number out and reading it back gives the number.
pub proof fn le_bytes64_read_back(v: u64)
    ensures
        le_bytes64(v as int).len() == 8,
        le64(le_bytes64(v as int), 0) == v,
{
    reveal_with_fuel(byte_of, 9);
    let v0 = v as int;
    let v1 = v0 / 0x100;
    let v2 = v1 / 0x100;
    let v3 = v2 / 0x100;
    let v4 = v3 / 0x100;
    let v5 = v4 / 0x100;
    let v6 = v5 / 0x100;
    let v7 = v6 / 0x100;
    let b = le_bytes64(v0);
    assert(v0 == 0x100 * v1 + b[0]);
    assert(v1 == 0x100 * v2 + b[1]);
    assert(v2 == 0x100 * v3 + b[2]);
    assert(v3 == 0x100 * v4 + b[3]);
    assert(v4 == 0x100 * v5 + b[4]);
    assert(v5 == 0x100 * v6 + b[5]);
    assert(v6 == 0x100 * v7 + b[6]);
    assert(v7 == b[7]);
}

/// The little-endian bytes of `v`, appended to `out`.
pub fn push_u64(out: &mut Vec<u8>, v: u64)
    ensures
        final(out)@ == old(out)@ + le_bytes64(v as int),
{
    let mut rest: u64 = v;
    let mut i: usize = 0;
    while i < 8
        invariant
            i <= 8,
            out@ == old(out)@ + le_bytes64(v as int).take(i as int),
            forall|k: nat| byte_of(rest as int, k) == #[trigger] byte_of(v as int, k + i as nat),
        decreases 8 - i,
    {
        assert(byte_of(rest as int, 0) == byte_of(v as int, 0 + i as nat));
        out.push((rest % 0x100) as u8);
        assert(le_bytes64(v as int).take(i + 1) =~= le_bytes64(v as int).take(i as int).push(
            byte_of(v as int, i as nat),
        ));
        assert forall|k: nat|
            byte_of(rest as int / 0x100, k) == #[trigger] byte_of(v as int, k + (i + 1) as nat) by {
            assert(byte_of(rest as int, k + 1) == byte_of(v as int, (k + 1) + i as nat));
            assert((k + 1) + i as nat == k + (i + 1) as nat);
        }
        rest = rest / 0x100;
        i = i + 1;
    }
    assert(le_bytes64(v as int).take(8) =~= le_bytes64(v as int));
}

/// `needle` occurs in `hay` at `at`.
pub open spec fn occurs_at(hay: Seq<u8>, needle: Seq<u8>, at: int) -> bool {
    &&& 0 <= at
    &&& at + needle.len() <= hay.len()
    &&& hay.subrange(at, at + needle.len()) == needle
}

/// Whether `needle` stands in `hay` at `at`.
pub fn matches_bytes(hay: &[u8], needle: &[u8], at: usize) -> (r: bool)
    ensures
        r == occurs_at(hay@, needle@, at as int),
{
    if needle.len() > hay.len() || at > hay.len() - needle.len() {
        return false;
    }
    let mut i: usize = 0;
    while i < needle.len()
        invariant
            i <= needle@.len(),
            at + needle.len() <= hay.len(),
            forall|j: int| 0 <= j < i ==> hay@[at + j] == needle@[j],
        decreases needle@.len() - i,
    {
        if hay[at + i] != needle[i] {
            assert(hay@.subrange(at as int, at + needle@.len())[i as int] != needle@[i as int]);
            return false;
        }
        i = i + 1;
    }
    assert(hay@.subrange(at as int, at + needle@.len()) =~= needle@);
    true
}

/// Whether two slices hold the same bytes.
pub fn same_bytes(a: &[u8], b: &[u8]) -> (r: bool)
    ensures
        r == (a@ == b@),
{
    if a.len() != b.len() {
        return false;
    }
    let r: bool = matches_bytes(a, b, 0);
    assert(a@.subrange(0, b@.len() as int) =~= a@);
    r
}

/// Offset of the first occurrence of `needle` in `haystack`.
pub fn find_subslice(haystack: &[u8], needle: &[u8]) -> (r: Option<usize>)
    requires
        needle@.len() > 0,
    ensures
        match r {
            Some(p) => occurs_at(haystack@, needle@, p as int) && forall|q: int|
                0 <= q < p ==> !occurs_at(haystack@, needle@, q),
            None => forall|q: int| !occurs_at(haystack@, needle@, q),
        },
{
    if haystack.len() < needle.len() {
        return None;
    }
    let last: usize = haystack.len() - needle.len();
    let mut i: usize = 0;
    while i <= last
        invariant
            last == haystack.len() - needle.len(),
            i <= last + 1,
            needle.len() > 0,
            forall|q: int| 0 <= q < i ==> !occurs_at(haystack@, needle@, q),
        decreases last + 1 - i,
    {
        if matches_bytes(haystack, needle, i) {
            return Some(i);
        }
        i = i + 1;
    }
    None
}

/// Strictly increasing order of indices.
pub open spec fn ascending(s: Seq<usize>) -> bool {
    forall|i: int, j: int| 0 <= i < j < s.len() ==> s[i] < s[j]
}

/// Strictly increasing order.
pub open spec fn increasing(s: Seq<u64>) -> bool {
    forall|i: int, j: int| 0 <= i < j < s.len() ==> s[i] < s[j]
}

/// Adds `x` to a strictly increasing vector, keeping the order and holding
/// each value once.
pub fn insert_sorted(v: &mut Vec<u64>, x: u64)
    requires
        increasing(old(v)@),
    ensures
        increasing(final(v)@),
        forall|y: u64| final(v)@.contains(y) <==> old(v)@.contains(y) || y == x,
{
    let mut i: usize = v.len();
    while i > 0 && v[i - 1] > x
        invariant
            i <= v@.len(),
            v@ == old(v)@,
            increasing(v@),
            forall|j: int| i <= j < v@.len() ==> v@[j] > x,
        decreases i,
    {
        i = i - 1;
    }
    if i > 0 && v[i - 1] == x {
        assert(old(v)@.contains(x));
        return;
    }
    v.insert(i, x);
    proof {
        let o = old(v)@;
        let n = v@;
        assert(n == o.insert(i as int, x));
        assert forall|y: u64| n.contains(y) <==> o.contains(y) || y == x by {
            if n.contains(y) {
                let k = choose|k: int| 0 <= k < n.len() && n[k] == y;
                if k < i {
                    assert(o[k] == y);
                } else if k > i {
                    assert(o[k - 1] == y);
                }
            }
            if o.contains(y) {
                let k = choose|k: int| 0 <= k < o.len() && o[k] == y;
                if k < i {
                    assert(n[k] == y);
                } else {
                    assert(n[k + 1] == y);
                }
            }
            if y == x {
                assert(n[i as int] == x);
            }
        }
    }
}

/// Two strictly increasing sequences with the same members are the same.
pub proof fn increasing_unique(a: Seq<u64>, b: Seq<u64>)
    requires
        increasing(a),
        increasing(b),
        forall|y: u64| a.contains(y) <==> b.contains(y),
    ensures
        a == b,
    decreases a.len(),
{
    if a.len() == 0 {
        if b.len() > 0 {
            assert(b.contains(b[0]));
        }
        assert(a =~= b);
    } else {
        assert(a.contains(a.last()));
        assert(b.contains(a.last()));
        assert(b.len() > 0);
        assert(b.contains(b.last()));
        assert(a.contains(b.last()));
        let i = choose|i: int| 0 <= i < b.len() && b[i] == a.last();
        let j = choose|j: int| 0 <= j < a.len() && a[j] == b.last();
        assert(a.last() == b.last());
        let a1 = a.drop_last();
        let b1 = b.drop_last();
        assert forall|y: u64| a1.contains(y) <==> b1.contains(y) by {
            if a1.contains(y) {
                let k = choose|k: int| 0 <= k < a1.len() && a1[k] == y;
                assert(a[k] == y && y < a.last());
                assert(a.contains(y));
                assert(b.contains(y));
                let l = choose|l: int| 0 <= l < b.len() && b[l] == y;
                assert(l < b.len() - 1);
                assert(b1[l] == y);
            }
            if b1.contains(y) {
                let k = choose|k: int| 0 <= k < b1.len() && b1[k] == y;
                assert(b[k] == y && y < b.last());
                assert(b.contains(y));
                assert(a.contains(y));
                let l = choose|l: int| 0 <= l < a.len() && a[l] == y;
                assert(l < a.len() - 1);
                assert(a1[l] == y);
            }
        }
        increasing_unique(a1, b1);
        assert(a =~= a1.push(a.last()));
        assert(b =~= b1.push(b.last()));
    }
}

/// The bytes before the first NUL at or after `i`, if there is one.
pub open spec fn c_prefix(buf: Seq<u8>, i: int) -> Option<Seq<u8>>
    decreases buf.len() - i,
{
    if i < 0 || i >= buf.len() {
        None
    } else if buf[i] == 0 {
        Some(buf.take(i))
    } else {
        c_prefix(buf, i + 1)
    }
}

/// The bytes before the first NUL, if there is one.
pub fn c_string(buf: &[u8]) -> (r: Option<Vec<u8>>)
    ensures
        match r {
            Some(s) => c_prefix(buf@, 0) == Some(s@),
            None => c_prefix(buf@, 0) is None,
        },
{
    let mut i: usize = 0;
    while i < buf.len()
        invariant
            i <= buf.len(),
            c_prefix(buf@, 0) == c_prefix(buf@, i as int),
        decreases buf@.len() - i,
    {
        if buf[i] == 0 {
            let name: &[u8] = vstd::slice::slice_subrange(buf, 0, i);
            assert(buf@.subrange(0, i as int) =~= buf@.take(i as int));
            return Some(vstd::slice::slice_to_vec(name));
        }
        i = i + 1;
    }
    None
}

/// Whether a vector holds a value.
pub fn holds(v: &[u64], x: u64) -> (r: bool)
    ensures
        r == v@.contains(x),
{
    let mut i: usize = 0;
    while i < v.len()
        invariant
            i <= v@.len(),
            forall|j: int| 0 <= j < i ==> v@[j] != x,
        decreases v@.len() - i,
    {
        if v[i] == x {
            return true;
        }
        i = i + 1;
    }
    false
}

/// A number is read from its bytes, the lowest first.
pub proof fn numbers_are_little_endian(b: Seq<u8>, at: int)
    ensures
        le16(b, at) == b[at] + 256 * b[at + 1],
        le32(b, at) == b[at] + 256 * b[at + 1] + 65_536 * b[at + 2] + 16_777_216 * b[at + 3],
        le64(b, at) == le32(b, at) + 4_294_967_296 * le32(b, at + 4),
{
}

/// A signed number is the unsigned one, or that less the whole range where its
/// highest bit is set.
pub proof fn signed_numbers_wrap(v: int)
    ensures
        0 <= v <= 0x7fff_ffff ==> signed32(v) == v,
        0x8000_0000 <= v <= 0xffff_ffff ==> signed32(v) == v - 0x1_0000_0000,
        signed32(0xffff_ffff) == -1,
        0 <= v <= 0x7fff_ffff_ffff_ffff ==> signed64(v) == v,
        0x8000_0000_0000_0000 <= v <= 0xffff_ffff_ffff_ffff ==> signed64(v) == v
            - 0x1_0000_0000_0000_0000,
{
}

/// A text ends at its first NUL, and what has none is no text.
pub proof fn texts_end_at_the_first_nul(text: Seq<u8>, rest: Seq<u8>)
    requires
        !text.contains(0u8),
    ensures
        c_prefix(text + seq![0u8] + rest, 0) == Some(text),
        c_prefix(text, 0) is None,
{
    let n = text.len() as int;
    let s = text + seq![0u8] + rest;
    assert forall|i: int| 0 <= i < n implies text[i] != 0 by {
        assert(text.contains(text[i]));
    }
    assert forall|i: int| 0 <= i < n implies s[i] != 0 by {
        assert(s[i] == text[i]);
    }
    prefix_is(s, 0, n);
    assert(s.take(n) =~= text);
    prefix_is(text, 0, n);
}

proof fn prefix_is(s: Seq<u8>, i: int, n: int)
    requires
        0 <= i <= n <= s.len(),
        forall|j: int| 0 <= j < n ==> s[j] != 0,
        n < s.len() ==> s[n] == 0,
    ensures
        n < s.len() ==> c_prefix(s, i) == Some(s.take(n)),
        n == s.len() ==> c_prefix(s, i) is None,
    decreases n - i,
{
    if i < n {
        prefix_is(s, i + 1, n);
    }
}

} // verus!
