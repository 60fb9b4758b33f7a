//! Scanning stretches of a file in overlapping windows.
use vstd::prelude::*;

use crate::bytes::{increasing, insert_sorted, matches_bytes, occurs_at};

verus! {

/// How many bytes of an extent one scan window advances by.
pub const CHUNK: u64 = 0x10_0000;

/// A stretch of a file that is mapped at an address.
#[derive(Copy, Clone)]
pub struct Extent {
    pub off: u64,
    pub va: u64,
    pub len: u64,
}

/// The file bytes from `off` on, if the file holds `len` of them.
pub open spec fn file_bytes(file: Seq<u8>, off: int, len: int) -> Option<Seq<u8>> {
    if 0 <= off && 0 <= len && off + len <= file.len() {
        Some(file.subrange(off, off + len))
    } else {
        None
    }
}

/// The scan windows of one extent from `pos` on: `CHUNK` bytes and an
/// overlap each, until the extent, the file or the address space
/// ends.
pub open spec fn extent_windows(file: Seq<u8>, s: Extent, overlap: nat, pos: int) -> Seq<(u64, Seq<u8>)>
    decreases s.len - pos,
{
    if pos >= s.len {
        Seq::empty()
    } else {
        let len = window_len(s, overlap, pos);
        if s.off + pos + len > file.len() || s.va + pos > u64::MAX {
            Seq::empty()
        } else {
            let w = ((s.va + pos) as u64, file.subrange(s.off + pos, s.off + pos + len));
            if len <= overlap {
                seq![w]
            } else {
                seq![w] + extent_windows(file, s, overlap, pos + len - overlap)
            }
        }
    }
}

/// Length of the scan window at `pos`.
pub open spec fn window_len(s: Extent, overlap: nat, pos: int) -> int {
    if s.len - pos < CHUNK + overlap {
        s.len - pos
    } else {
        CHUNK + overlap
    }
}

/// The scan windows of the extents from `i` on.
pub open spec fn windows_from(
    file: Seq<u8>,
    all: Seq<Extent>,
    overlap: nat,
    i: int,
) -> Seq<(u64, Seq<u8>)>
    decreases all.len() - i,
{
    if i < 0 || i >= all.len() {
        Seq::empty()
    } else {
        extent_windows(file, all[i], overlap, 0) + windows_from(file, all, overlap, i + 1)
    }
}

/// `needle` stands at address `v` in one of the windows.
pub open spec fn in_windows(ws: Seq<(u64, Seq<u8>)>, needle: Seq<u8>, v: int) -> bool {
    exists|w: int, i: int|
        0 <= w < ws.len() && #[trigger] occurs_at(ws[w].1, needle, i) && v == ws[w].0 + i
}

/// `needle` stands at address `v` in the extents, within reach of a scan.
pub open spec fn hit(file: Seq<u8>, all: Seq<Extent>, needle: Seq<u8>, v: int) -> bool {
    needle.len() > 0 && in_windows(
        windows_from(file, all, (needle.len() - 1) as nat, 0),
        needle,
        v,
    )
}

/// The windows that a scan hands out, as addresses and bytes.
pub open spec fn window_views(ws: Seq<(u64, &[u8])>) -> Seq<(u64, Seq<u8>)> {
    Seq::new(ws.len(), |i: int| (ws[i].0, ws[i].1@))
}

/// Reads `len` bytes of a file at an offset, if it holds them.
pub fn slice_at(file: &[u8], off: u64, len: usize) -> (r: Option<&[u8]>)
    ensures
        match r {
            Some(b) => file_bytes(file@, off as int, len as int) == Some(b@),
            None => file_bytes(file@, off as int, len as int) is None,
        },
{
    if off > file.len() as u64 {
        return None;
    }
    let at: usize = off as usize;
    if len > file.len() - at {
        return None;
    }
    Some(vstd::slice::slice_subrange(file, at, at + len))
}

/// The extents in overlapping windows, each with the address of its first
/// byte. An extent is walked until it, the file or the address space ends.
pub fn windows<'a>(file: &'a [u8], all: &[Extent], overlap: usize) -> (r: Vec<(u64, &'a [u8])>)
    ensures
        window_views(r@) == windows_from(file@, all@, overlap as nat, 0),
{
    let mut out: Vec<(u64, &'a [u8])> = Vec::new();
    let ghost goal = windows_from(file@, all@, overlap as nat, 0);
    let mut i: usize = 0;
    let n: u64 = file.len() as u64;
    let limit: u64 = if overlap as u64 > u64::MAX - CHUNK {
        u64::MAX
    } else {
        CHUNK + overlap as u64
    };
    assert(window_views(out@) + goal =~= goal);
    while i < all.len()
        invariant
            i <= all@.len(),
            n == file.len(),
            limit == (if CHUNK + overlap > u64::MAX {
                u64::MAX as int
            } else {
                CHUNK + overlap
            }),
            window_views(out@) + windows_from(file@, all@, overlap as nat, i as int)
                == goal,
        decreases all@.len() - i,
    {
        let s: Extent = all[i];
        let ghost rest = windows_from(file@, all@, overlap as nat, i + 1);
        let mut pos: u64 = 0;
        let mut more: bool = true;
        assert(window_views(out@) + (extent_windows(file@, s, overlap as nat, 0) + rest)
            =~= window_views(out@) + extent_windows(file@, s, overlap as nat, 0) + rest);
        while more && pos < s.len
            invariant
                pos <= s.len,
                n == file.len(),
                limit == (if CHUNK + overlap > u64::MAX {
                    u64::MAX as int
                } else {
                    CHUNK + overlap
                }),
                window_views(out@) + (if more {
                    extent_windows(file@, s, overlap as nat, pos as int)
                } else {
                    Seq::empty()
                }) + rest == goal,
            decreases s.len - pos, (if more { 1int } else { 0int }),
        {
            let left: u64 = s.len - pos;
            let len: u64 = if left < limit {
                left
            } else {
                limit
            };
            assert(len == window_len(s, overlap as nat, pos as int));
            let ghost before = window_views(out@);
            let ghost tail = extent_windows(file@, s, overlap as nat, pos as int);
            if pos > u64::MAX - s.off || s.off + pos > n || len > n - (s.off + pos) || pos > u64::MAX - s.va {
                assert(tail =~= Seq::empty());
                assert(before + tail + rest =~= before + Seq::empty() + rest);
                more = false;
            } else {
                let at: usize = (s.off + pos) as usize;
                let w: &[u8] = vstd::slice::slice_subrange(file, at, at + len as usize);
                out.push((s.va + pos, w));
                let ghost item = ((s.va + pos) as u64, w@);
                assert(window_views(out@) =~= before.push(item));
                if len <= overlap as u64 {
                    assert(tail =~= seq![item]);
                    assert(before + tail + rest =~= before.push(item) + Seq::empty()
                        + rest);
                    more = false;
                } else {
                    let ghost next = extent_windows(
                        file@,
                        s,
                        overlap as nat,
                        pos + len - overlap,
                    );
                    assert(tail =~= seq![item] + next);
                    assert(before + tail + rest =~= before.push(item) + next + rest);
                    pos = pos + (len - overlap as u64);
                }
            }
        }
        assert(window_views(out@) + rest == goal) by {
            assert(window_views(out@) + Seq::empty() + rest =~= window_views(out@) + rest);
            if more {
                assert(extent_windows(file@, s, overlap as nat, pos as int) =~= Seq::empty());
            }
        }
        i = i + 1;
    }
    assert(window_views(out@) + Seq::empty() =~= window_views(out@));
    out
}

/// Every address in the extents where `needle` occurs.
pub fn find_all(file: &[u8], all: &[Extent], needle: &[u8]) -> (r: Vec<u64>)
    ensures
        increasing(r@),
        forall|v: u64| r@.contains(v) <==> hit(file@, all@, needle@, v as int),
{
    let mut out: Vec<u64> = Vec::new();
    if needle.len() == 0 {
        return out;
    }
    let ws: Vec<(u64, &[u8])> = windows(file, all, needle.len() - 1);
    let ghost seen = window_views(ws@);
    let mut k: usize = 0;
    while k < ws.len()
        invariant
            k <= ws@.len(),
            seen == window_views(ws@),
            increasing(out@),
            needle@.len() > 0,
            forall|v: u64|
                out@.contains(v) <==> in_windows(seen.take(k as int), needle@, v as int),
        decreases ws@.len() - k,
    {
        let va: u64 = ws[k].0;
        let buf: &[u8] = ws[k].1;
        let mut i: usize = 0;
        proof {
            assert forall|v: u64|
                out@.contains(v) <==> in_windows(seen.take(k as int), needle@, v as int)
                    || in_prefix(va, buf@, needle@, 0, v as int) by {}
        }
        while needle.len() <= buf.len() && i <= buf.len() - needle.len()
            invariant
                k < ws@.len(),
                seen == window_views(ws@),
                increasing(out@),
                needle@.len() > 0,
                i <= buf.len(),
                forall|v: u64|
                    out@.contains(v) <==> in_windows(seen.take(k as int), needle@, v as int)
                        || in_prefix(va, buf@, needle@, i as int, v as int),
            decreases buf@.len() - i,
        {
            let ghost before = out@;
            let hit: bool = matches_bytes(buf, needle, i);
            if hit && i as u64 <= u64::MAX - va {
                insert_sorted(&mut out, va + i as u64);
            }
            proof {
                assert forall|v: u64|
                    out@.contains(v) <==> in_windows(seen.take(k as int), needle@, v as int)
                        || in_prefix(va, buf@, needle@, i + 1, v as int) by {
                    if in_prefix(va, buf@, needle@, i + 1, v as int) && !in_prefix(
                        va,
                        buf@,
                        needle@,
                        i as int,
                        v as int,
                    ) {
                        assert(v == va + i);
                        assert(hit);
                    }
                    if hit && v == va + i {
                        assert(occurs_at(buf@, needle@, i as int));
                        assert(in_prefix(va, buf@, needle@, i + 1, v as int));
                    }
                    if in_prefix(va, buf@, needle@, i as int, v as int) {
                        assert(in_prefix(va, buf@, needle@, i + 1, v as int));
                    }
                }
            }
            i = i + 1;
        }
        proof {
            let one = (va, buf@);
            assert(seen.take(k + 1) =~= seen.take(k as int).push(one));
            assert forall|v: u64|
                out@.contains(v) <==> in_windows(seen.take(k + 1), needle@, v as int) by {
                windows_push(seen.take(k as int), one, needle@, v as int);
                if exists|j: int|
                    #[trigger] occurs_at(buf@, needle@, j) && v == va + j {
                    let j = choose|j: int|
                        #[trigger] occurs_at(buf@, needle@, j) && v == va + j;
                    assert(j < i);
                    assert(in_prefix(va, buf@, needle@, i as int, v as int));
                }
                if in_prefix(va, buf@, needle@, i as int, v as int) {
                    let j = choose|j: int|
                        j < i && #[trigger] occurs_at(buf@, needle@, j) && v == va + j;
                    assert(occurs_at(one.1, needle@, j) && v == one.0 + j);
                }
                assert(out@.contains(v) <==> in_windows(seen.take(k as int), needle@, v as int)
                    || in_prefix(va, buf@, needle@, i as int, v as int));
            }
        }
        k = k + 1;
    }
    assert(seen.take(seen.len() as int) =~= seen);
    out
}

/// `needle` stands at address `v` in a window, before index `i`.
spec fn in_prefix(va: u64, buf: Seq<u8>, needle: Seq<u8>, i: int, v: int) -> bool {
    exists|j: int| j < i && #[trigger] occurs_at(buf, needle, j) && v == va + j
}

proof fn windows_push(ws: Seq<(u64, Seq<u8>)>, w: (u64, Seq<u8>), needle: Seq<u8>, v: int)
    ensures
        in_windows(ws.push(w), needle, v) <==> in_windows(ws, needle, v) || exists|j: int|
            #[trigger] occurs_at(w.1, needle, j) && v == w.0 + j,
{
    let all = ws.push(w);
    if in_windows(all, needle, v) {
        let (k, i) = choose|k: int, i: int|
            0 <= k < all.len() && #[trigger] occurs_at(all[k].1, needle, i) && v == all[k].0 + i;
        if k < ws.len() {
            assert(occurs_at(ws[k].1, needle, i));
        } else {
            assert(occurs_at(w.1, needle, i));
        }
    }
    if in_windows(ws, needle, v) {
        let (k, i) = choose|k: int, i: int|
            0 <= k < ws.len() && #[trigger] occurs_at(ws[k].1, needle, i) && v == ws[k].0 + i;
        assert(occurs_at(all[k].1, needle, i));
    }
    if exists|j: int| #[trigger] occurs_at(w.1, needle, j) && v == w.0 + j {
        let j = choose|j: int| #[trigger] occurs_at(w.1, needle, j) && v == w.0 + j;
        assert(occurs_at(all[ws.len() as int].1, needle, j));
    }
}

/// Every window of a segment is a stretch of its file contents.
proof fn window_shape(file: Seq<u8>, s: Extent, overlap: nat, pos: int, w: int)
    requires
        0 <= pos,
        0 <= w < extent_windows(file, s, overlap, pos).len(),
    ensures
        ({
            let win = extent_windows(file, s, overlap, pos)[w];
            let p = win.0 - s.va;
            &&& pos <= p
            &&& p + win.1.len() <= s.len
            &&& s.off + p + win.1.len() <= file.len()
            &&& win.1 == file.subrange(s.off + p, s.off + p + win.1.len())
        }),
    decreases s.len - pos,
{
    let len = window_len(s, overlap, pos);
    if w > 0 {
        let next = extent_windows(file, s, overlap, pos + len - overlap);
        assert(extent_windows(file, s, overlap, pos)[w] == next[w - 1]);
        window_shape(file, s, overlap, pos + len - overlap, w - 1);
    }
}

/// Every stretch of a segment one longer than the overlap lies in a window.
proof fn window_covers(file: Seq<u8>, s: Extent, overlap: nat, pos: int, k: int) -> (w: int)
    requires
        0 <= pos <= k,
        k + overlap + 1 <= s.len,
        s.off + s.len <= file.len(),
        s.va + s.len <= u64::MAX,
    ensures
        0 <= w < extent_windows(file, s, overlap, pos).len(),
        ({
            let win = extent_windows(file, s, overlap, pos)[w];
            &&& win.0 <= s.va + k
            &&& s.va + k + overlap + 1 <= win.0 + win.1.len()
        }),
    decreases s.len - pos,
{
    let len = window_len(s, overlap, pos);
    if k + overlap + 1 <= pos + len {
        0
    } else {
        let next = pos + len - overlap;
        let w = window_covers(file, s, overlap, next, k);
        assert(extent_windows(file, s, overlap, pos)[w + 1] == extent_windows(
            file,
            s,
            overlap,
            next,
        )[w]);
        w + 1
    }
}

/// The windows of a wanted segment are among those of the module.
proof fn windows_hold(
    file: Seq<u8>,
    all: Seq<Extent>,
    overlap: nat,
    from: int,
    i: int,
    w: int,
) -> (k: int)
    requires
        0 <= from <= i < all.len(),
        0 <= w < extent_windows(file, all[i], overlap, 0).len(),
    ensures
        0 <= k < windows_from(file, all, overlap, from).len(),
        windows_from(file, all, overlap, from)[k] == extent_windows(
            file,
            all[i],
            overlap,
            0,
        )[w],
    decreases all.len() - from,
{
    let head = extent_windows(file, all[from], overlap, 0);
    if from == i {
        w
    } else {
        let k = windows_hold(file, all, overlap, from + 1, i, w);
        head.len() + k
    }
}

/// Every window of the module is one of a wanted segment.
proof fn window_source(
    file: Seq<u8>,
    all: Seq<Extent>,
    overlap: nat,
    from: int,
    k: int,
) -> (r: (int, int))
    requires
        0 <= from,
        0 <= k < windows_from(file, all, overlap, from).len(),
    ensures
        from <= r.0 < all.len(),
        0 <= r.1 < extent_windows(file, all[r.0], overlap, 0).len(),
        windows_from(file, all, overlap, from)[k] == extent_windows(
            file,
            all[r.0],
            overlap,
            0,
        )[r.1],
    decreases all.len() - from,
{
    let head = extent_windows(file, all[from], overlap, 0);
    if k < head.len() {
        (from, k)
    } else {
        window_source(file, all, overlap, from + 1, k - head.len())
    }
}

/// The chunked scan misses nothing: wherever a needle stands in an extent that
/// the file holds in full, across window borders too, the scan reports its
/// address.
pub proof fn scan_misses_nothing(file: Seq<u8>, all: Seq<Extent>, i: int, needle: Seq<u8>, k: int)
    requires
        0 <= i < all.len(),
        all[i].off + all[i].len <= file.len(),
        all[i].va + all[i].len <= u64::MAX,
        needle.len() > 0,
        occurs_at(file.subrange(all[i].off as int, all[i].off + all[i].len), needle, k),
    ensures
        hit(file, all, needle, all[i].va + k),
{
    let s = all[i];
    let overlap = (needle.len() - 1) as nat;
    let w = window_covers(file, s, overlap, 0, k);
    window_shape(file, s, overlap, 0, w);
    let win = extent_windows(file, s, overlap, 0)[w];
    let at = s.va + k - win.0;
    assert(win.1.subrange(at, at + needle.len()) =~= file.subrange(
        s.off as int,
        s.off + s.len,
    ).subrange(k, k + needle.len()));
    let j = windows_hold(file, all, overlap, 0, i, w);
    assert(occurs_at(windows_from(file, all, overlap, 0)[j].1, needle, at));
}

/// The chunked scan invents nothing: every address it reports is one at which
/// the file contents of an extent hold the needle.
pub proof fn scan_invents_nothing(file: Seq<u8>, all: Seq<Extent>, needle: Seq<u8>, v: int)
    requires
        hit(file, all, needle, v),
    ensures
        exists|i: int|
            0 <= i < all.len() && (#[trigger] all[i]).va <= v && v + needle.len() <= all[i].va
                + all[i].len && occurs_at(file, needle, all[i].off + (v - all[i].va)),
{
    let overlap = (needle.len() - 1) as nat;
    let ws = windows_from(file, all, overlap, 0);
    let (w, at) = choose|w: int, at: int|
        0 <= w < ws.len() && #[trigger] occurs_at(ws[w].1, needle, at) && v == ws[w].0 + at;
    let (i, j) = window_source(file, all, overlap, 0, w);
    let s = all[i];
    window_shape(file, s, overlap, 0, j);
    let win = ws[w];
    let off = s.off + (v - s.va);
    assert(file.subrange(off, off + needle.len()) =~= win.1.subrange(at, at + needle.len()));
}

proof fn short_is_covered(file: Seq<u8>, s: Extent, overlap: nat, pos: int, k: int, n: int) -> (w:
    int)
    requires
        0 <= pos <= k,
        1 <= n <= overlap + 1,
        k + n <= s.len,
        s.off + s.len <= file.len(),
        s.va + s.len <= u64::MAX,
    ensures
        0 <= w < extent_windows(file, s, overlap, pos).len(),
        ({
            let win = extent_windows(file, s, overlap, pos)[w];
            &&& win.0 <= s.va + k
            &&& s.va + k + n <= win.0 + win.1.len()
            &&& (win.0 - s.va - pos) % 0x10_0000 == 0
        }),
    decreases s.len - pos,
{
    let len = window_len(s, overlap, pos);
    if k + n <= pos + len {
        0
    } else {
        let next = pos + len - overlap;
        let w = short_is_covered(file, s, overlap, next, k, n);
        assert(extent_windows(file, s, overlap, pos)[w + 1] == extent_windows(
            file,
            s,
            overlap,
            next,
        )[w]);
        w + 1
    }
}

/// A window holds these bytes of an extent: the `n` from `k` on, at `at`. It
/// starts a whole number of chunks into the extent.
pub open spec fn window_has(
    file: Seq<u8>,
    s: Extent,
    win: (u64, Seq<u8>),
    at: int,
    k: int,
    n: int,
) -> bool {
    &&& 0 <= at
    &&& at + n <= win.1.len()
    &&& win.0 + at == s.va + k
    &&& (win.0 - s.va) % 0x10_0000 == 0
    &&& win.1.subrange(at, at + n) == file.subrange(s.off + k, s.off + k + n)
}

/// Every stretch of an extent that is at most one longer than the overlap lies
/// whole in a window, under its address.
pub proof fn windows_hold_every_stretch(
    file: Seq<u8>,
    all: Seq<Extent>,
    overlap: nat,
    i: int,
    k: int,
    n: int,
)
    requires
        0 <= i < all.len(),
        all[i].off + all[i].len <= file.len(),
        all[i].va + all[i].len <= u64::MAX,
        0 <= k,
        1 <= n <= overlap + 1,
        k + n <= all[i].len,
    ensures
        exists|w: int, at: int|
            0 <= w < windows_from(file, all, overlap, 0).len() && #[trigger] window_has(
                file,
                all[i],
                windows_from(file, all, overlap, 0)[w],
                at,
                k,
                n,
            ),
{
    let s = all[i];
    let w = short_is_covered(file, s, overlap, 0, k, n);
    window_shape(file, s, overlap, 0, w);
    let win = extent_windows(file, s, overlap, 0)[w];
    let at = s.va + k - win.0;
    assert(win.1.subrange(at, at + n) =~= file.subrange(s.off + k, s.off + k + n));
    let j = windows_hold(file, all, overlap, 0, i, w);
    assert(window_has(file, s, windows_from(file, all, overlap, 0)[j], at, k, n));
}

/// Every window is a stretch of one of the extents, under its address.
pub proof fn windows_are_stretches(file: Seq<u8>, all: Seq<Extent>, overlap: nat, w: int)
    requires
        0 <= w < windows_from(file, all, overlap, 0).len(),
    ensures
        exists|i: int|
            0 <= i < all.len() && #[trigger] is_stretch(
                file,
                all[i],
                windows_from(file, all, overlap, 0)[w],
            ),
{
    let (i, j) = window_source(file, all, overlap, 0, w);
    window_shape(file, all[i], overlap, 0, j);
    assert(is_stretch(file, all[i], windows_from(file, all, overlap, 0)[w]));
}

/// The window is a stretch of the extent.
pub open spec fn is_stretch(file: Seq<u8>, s: Extent, win: (u64, Seq<u8>)) -> bool {
    let p = win.0 - s.va;
    &&& 0 <= p
    &&& p + win.1.len() <= s.len
    &&& s.off + p + win.1.len() <= file.len()
    &&& win.1 == file.subrange(s.off + p, s.off + p + win.1.len())
}

} // verus!
