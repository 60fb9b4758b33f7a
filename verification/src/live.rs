//! Loaded-module access paired with the on-disk PE resolver.
use vstd::prelude::*;
use vstd::utf8::encode_utf8;

use crate::bytes::ascending;
use crate::pe::{offset_is_small, virtuals_of, Access, Module, PeImage, Vtable};
use crate::scan::{
    is_stretch, window_has, window_views, windows_are_stretches, windows_from,
    windows_hold_every_stretch, Extent,
};
use crate::sig::{
    any_at_start, any_start, parse_all, pattern_at, pattern_views, patterns_of, Pattern,
};

verus! {

/// Upper bound when walking a vtable of unknown size.
pub const VTABLE_MAX: usize = 256;

/// A loaded module: its load address, its file, and a copy of its image as it
/// stands in memory.
pub struct LiveModule {
    base: u64,
    path: String,
    pe: Module,
    live: Vec<u8>,
}

/// The value of a `LiveModule`.
pub struct LiveView {
    pub base: int,
    pub path: Seq<char>,
    pub pe: PeImage,
    pub live: Seq<u8>,
}

impl View for LiveModule {
    type V = LiveView;

    closed spec fn view(&self) -> LiveView {
        LiveView {
            base: self.base as int,
            path: self.path@,
            pe: self.pe@,
            live: self.live@,
        }
    }
}

impl LiveView {
    /// The image copy is whole and lies below the last address.
    pub open spec fn whole(self) -> bool {
        &&& self.live.len() == self.pe.image_size
        &&& 0 <= self.base
        &&& self.base + self.pe.image_size <= u64::MAX
    }

    /// The runtime address of an RVA of the image.
    pub open spec fn address(self, rva: int) -> Option<int> {
        if 0 <= rva < self.pe.image_size {
            Some(self.base + rva)
        } else {
            None
        }
    }

    /// A runtime address lies in the image.
    pub open spec fn contains(self, address: int) -> bool {
        self.base <= address < self.base + self.pe.image_size
    }

    /// A runtime address lies in executable code of the image.
    pub open spec fn contains_exec(self, address: int) -> bool {
        self.base <= address && self.pe.is_exec(address - self.base)
    }

    /// `len` bytes of the loaded image.
    pub open spec fn live_bytes(self, rva: int, len: int) -> Option<Seq<u8>> {
        if 0 <= rva < self.pe.image_size && 0 <= len && rva + len <= self.pe.image_size {
            Some(self.live.subrange(rva, rva + len))
        } else {
            None
        }
    }

    /// Pattern `p` matches at `at` in scan window `w` of the wanted sections.
    pub open spec fn site(
        self,
        ps: Seq<Seq<Option<u8>>>,
        access: Access,
        w: int,
        p: int,
        at: int,
    ) -> bool {
        let ws = windows_from(self.pe.data, self.pe.extents(access), overlap_of(ps), 0);
        0 <= w < ws.len() && 0 <= p < ps.len() && pattern_at(ps[p], ws[w].1, at)
    }

    /// The RVA of a match.
    pub open spec fn site_rva(
        self,
        ps: Seq<Seq<Option<u8>>>,
        access: Access,
        w: int,
        at: int,
    ) -> int {
        windows_from(self.pe.data, self.pe.extents(access), overlap_of(ps), 0)[w].0 + at
    }

    /// The bytes of a match.
    pub open spec fn site_bytes(
        self,
        ps: Seq<Seq<Option<u8>>>,
        access: Access,
        w: int,
        p: int,
        at: int,
    ) -> Seq<u8> {
        windows_from(
            self.pe.data,
            self.pe.extents(access),
            overlap_of(ps),
            0,
        )[w].1.subrange(at, at + ps[p].len())
    }

    /// All matches of the patterns have this RVA, there is one, and these are
    /// the bytes of the last of them in scan order.
    pub open spec fn unique_site(
        self,
        ps: Seq<Seq<Option<u8>>>,
        access: Access,
        rva: int,
        bytes: Seq<u8>,
    ) -> bool {
        exists|w: int, p: int, at: int| #[trigger]
            self.site(ps, access, w, p, at) && self.site_rva(ps, access, w, at) == rva
                && self.site_bytes(ps, access, w, p, at) == bytes && (forall|
                w1: int,
                p1: int,
                at1: int,
            | #[trigger]
                self.site(ps, access, w1, p1, at1) ==> self.site_rva(ps, access, w1, at1) == rva
                    && (w1 < w || (w1 == w && p1 <= p)))
    }

    /// The one place where a pattern matches and the bytes there, if there is
    /// one and no pattern is malformed.
    pub open spec fn unique_of(
        self,
        patterns: Option<Seq<Seq<Option<u8>>>>,
        access: Access,
    ) -> Option<(u64, Seq<u8>)> {
        match patterns {
            None => None,
            Some(ps) => if exists|x: (u64, Seq<u8>)| self.is_unique(ps, access, x) {
                Some(choose|x: (u64, Seq<u8>)| self.is_unique(ps, access, x))
            } else {
                None
            },
        }
    }

    /// This is the one place where a pattern matches, with the bytes there.
    pub open spec fn is_unique(
        self,
        ps: Seq<Seq<Option<u8>>>,
        access: Access,
        x: (u64, Seq<u8>),
    ) -> bool {
        self.unique_site(ps, access, x.0 as int, x.1)
    }

    /// Slot and code of the only candidate, if there is one and no pattern is
    /// malformed.
    pub open spec fn virtual_of(
        self,
        class: Seq<u8>,
        patterns: Option<Seq<Seq<Option<u8>>>>,
        window: int,
    ) -> Option<(int, int)> {
        match patterns {
            None => None,
            Some(ps) => if exists|x: (int, int)| self.is_slot(class, ps, window, x) {
                Some(choose|x: (int, int)| self.is_slot(class, ps, window, x))
            } else {
                None
            },
        }
    }

    /// This is the only candidate.
    pub open spec fn is_slot(
        self,
        class: Seq<u8>,
        ps: Seq<Seq<Option<u8>>>,
        window: int,
        x: (int, int),
    ) -> bool {
        self.is_virtual(class, ps, window, x.0, x.1)
    }

    /// Slot and code of a virtual of the class whose body starts with one of
    /// the patterns.
    pub open spec fn candidate(
        self,
        class: Seq<u8>,
        ps: Seq<Seq<Option<u8>>>,
        window: int,
        slot: int,
        f: int,
    ) -> bool {
        exists|table: Vtable, k: int|
            #![trigger self.pe.vfn(table.rva as int, k)]
            self.pe.is_vtable(class, table.rva as int, table.object_offset as int) && in_walk(
                self.pe,
                table.rva as int,
                k,
            ) && self.pe.vfn(table.rva as int, k) == Some(f) && slot == table.rva + 8 * k
                && body_starts(self.pe, f, ps, window)
    }

    /// `slot` and `f` are the only candidate.
    pub open spec fn is_virtual(
        self,
        class: Seq<u8>,
        ps: Seq<Seq<Option<u8>>>,
        window: int,
        slot: int,
        f: int,
    ) -> bool {
        self.candidate(class, ps, window, slot, f) && forall|s: int, g: int|
            self.candidate(class, ps, window, s, g) ==> s == slot && g == f
    }
}

/// The code at `f` can be read for `window` bytes and starts with a pattern.
pub open spec fn body_starts(m: PeImage, f: int, ps: Seq<Seq<Option<u8>>>, window: int) -> bool {
    m.read_rva(f, window) matches Some(body) && any_start(ps, body)
}

/// Virtual `k` of a vtable is within the walk: it and all before it hold code.
pub open spec fn in_walk(m: PeImage, table: int, k: int) -> bool {
    0 <= k < VTABLE_MAX && forall|j: int| 0 <= j <= k ==> (#[trigger] m.vfn(table, j)) is Some
}

/// One less than the length of the longest pattern.
pub open spec fn overlap_of(ps: Seq<Seq<Option<u8>>>) -> nat {
    (longest(ps, ps.len() as int) - 1) as nat
}

/// Length of the longest of the first `n` patterns, at least one.
pub open spec fn longest(ps: Seq<Seq<Option<u8>>>, n: int) -> int
    decreases n,
{
    if n <= 0 {
        1
    } else {
        let rest = longest(ps, n - 1);
        if ps[n - 1].len() > rest {
            ps[n - 1].len() as int
        } else {
            rest
        }
    }
}

impl LiveModule {
    #[verifier::type_invariant]
    spec fn is_whole(self) -> bool {
        self@.whole()
    }

    /// Pairs a parsed module with its loaded image. Refused unless the copy has
    /// the image's size and the image ends below the last address.
    pub fn open(base: u64, path: String, pe: Module, live: Vec<u8>) -> (r: Option<LiveModule>)
        ensures
            ({
                let v = LiveView { base: base as int, path: path@, pe: pe@, live: live@ };
                match r {
                    Some(m) => m@ == v && v.whole(),
                    None => !v.whole(),
                }
            }),
    {
        if live.len() as u64 != pe.image_size() || base > u64::MAX - pe.image_size() {
            return None;
        }
        Some(LiveModule { base, path, pe, live })
    }

    /// The module file.
    pub fn pe(&self) -> (r: &Module)
        ensures
            r@ == self@.pe,
    {
        &self.pe
    }

    /// The load address.
    pub fn base(&self) -> (r: u64)
        ensures
            r == self@.base,
            self@.whole(),
    {
        proof {
            use_type_invariant(self);
        }
        self.base
    }

    /// Where the file lies.
    pub fn path(&self) -> (r: &str)
        ensures
            r@ == self@.path,
    {
        self.path.as_str()
    }

    /// The runtime address of an RVA.
    pub fn address(&self, rva: u64) -> (r: Option<u64>)
        ensures
            match r {
                Some(a) => self@.address(rva as int) == Some(a as int),
                None => self@.address(rva as int) is None,
            },
    {
        proof {
            use_type_invariant(self);
        }
        if rva < self.pe.image_size() {
            Some(self.base + rva)
        } else {
            None
        }
    }

    /// Whether a runtime address lies in the image.
    pub fn contains(&self, address: u64) -> (r: bool)
        ensures
            r == self@.contains(address as int),
    {
        proof {
            use_type_invariant(self);
        }
        address >= self.base && address - self.base < self.pe.image_size()
    }

    /// Whether a runtime address lies in executable code of the image.
    pub fn contains_exec(&self, address: u64) -> (r: bool)
        ensures
            r == self@.contains_exec(address as int),
    {
        if address < self.base {
            false
        } else {
            self.pe.is_exec(address - self.base)
        }
    }

    /// Bytes of the loaded image.
    pub fn live_bytes(&self, rva: u64, len: usize) -> (r: Option<&[u8]>)
        ensures
            match r {
                Some(b) => self@.live_bytes(rva as int, len as int) == Some(b@) && b@.len() == len,
                None => self@.live_bytes(rva as int, len as int) is None,
            },
    {
        proof {
            use_type_invariant(self);
        }
        if rva >= self.pe.image_size() || len as u64 > self.pe.image_size() - rva {
            return None;
        }
        let at: usize = rva as usize;
        Some(vstd::slice::slice_subrange(self.live.as_slice(), at, at + len))
    }

    /// The one place in the wanted sections where a pattern matches, and the
    /// bytes there. `None` if there is no match, or there are two places.
    pub fn find_unique(&self, specs: &[&str], access: Access) -> (r: Option<(u64, Vec<u8>)>)
        ensures
            match r {
                Some((rva, bytes)) => self@.unique_of(patterns_of(specs@), access) == Some(
                    (rva, bytes@),
                ),
                None => self@.unique_of(patterns_of(specs@), access) is None,
            },
    {
        let r: Option<(u64, Vec<u8>)> = self.search_unique(specs, access);
        proof {
            if patterns_of(specs@) is Some {
                let ps = patterns_of(specs@)->0;
                if r is Some {
                    let x = ((r->0).0, (r->0).1@);
                    assert(self@.is_unique(ps, access, x));
                    let y = choose|y: (u64, Seq<u8>)| self@.is_unique(ps, access, y);
                    unique_site_is_unique(self@, ps, access, x, y);
                } else {
                    assert forall|x: (u64, Seq<u8>)| !self@.is_unique(ps, access, x) by {
                        assert(!self@.unique_site(ps, access, x.0 as int, x.1));
                    }
                }
            }
        }
        r
    }

    fn search_unique(&self, specs: &[&str], access: Access) -> (r: Option<(u64, Vec<u8>)>)
        ensures
            match r {
                Some((rva, bytes)) => patterns_of(specs@) matches Some(ps) && self@.unique_site(
                    ps,
                    access,
                    rva as int,
                    bytes@,
                ),
                None => patterns_of(specs@) matches Some(ps) ==> forall|rva: u64, bytes: Seq<u8>|
                    !self@.unique_site(ps, access, rva as int, bytes),
            },
    {
        let pats: Vec<Pattern> = match parse_all(specs) {
            Some(pats) => pats,
            None => {
                return None;
            },
        };
        let ghost ps = pattern_views(pats@);
        let ghost me = self@;
        let mut long: usize = 1;
        let mut i: usize = 0;
        while i < pats.len()
            invariant
                i <= pats@.len(),
                ps == pattern_views(pats@),
                long == longest(ps, i as int),
                long >= 1,
            decreases pats@.len() - i,
        {
            if pats[i].len() > long {
                long = pats[i].len();
            }
            i = i + 1;
        }
        let ws: Vec<(u64, &[u8])> = self.pe.scan(access, long - 1);
        let ghost all = windows_from(me.pe.data, me.pe.extents(access), overlap_of(ps), 0);
        let mut found: Option<(u64, Vec<u8>)> = None;
        let ghost mut last: (int, int, int) = (0, 0, 0);
        let mut w: usize = 0;
        while w < ws.len()
            invariant
                w <= ws@.len(),
                me == self@,
                ps == pattern_views(pats@),
                patterns_of(specs@) == Some(ps),
                all == window_views(ws@),
                all == windows_from(me.pe.data, me.pe.extents(access), overlap_of(ps), 0),
                seen(me, ps, access, found, last, w as int, 0, 0),
            decreases ws@.len() - w,
        {
            let base: u64 = ws[w].0;
            let b: &[u8] = ws[w].1;
            let size: usize = b.len();
            assert(all[w as int] == (base, b@));
            let mut p: usize = 0;
            while p < pats.len()
                invariant
                    w < ws@.len(),
                    p <= pats@.len(),
                    size == b@.len(),
                    me == self@,
                    ps == pattern_views(pats@),
                    patterns_of(specs@) == Some(ps),
                    all[w as int] == (base, b@),
                    all == windows_from(me.pe.data, me.pe.extents(access), overlap_of(ps), 0),
                    all.len() == ws@.len(),
                    seen(me, ps, access, found, last, w as int, p as int, 0),
                decreases pats@.len() - p,
            {
                let hits: Vec<usize> = pats[p].find_all(b);
                let n: usize = pats[p].len();
                let mut h: usize = 0;
                proof {
                    assert forall|at: int| at < 0 implies !me.site(
                        ps,
                        access,
                        w as int,
                        p as int,
                        at,
                    ) by {}
                }
                let ghost mut reach: int = 0;
                while h < hits.len()
                    invariant
                        w < ws@.len(),
                        p < pats@.len(),
                        h <= hits@.len(),
                        size == b@.len(),
                        me == self@,
                        ps == pattern_views(pats@),
                        patterns_of(specs@) == Some(ps),
                        n == ps[p as int].len(),
                        all[w as int] == (base, b@),
                        all == windows_from(
                            me.pe.data,
                            me.pe.extents(access),
                            overlap_of(ps),
                            0,
                        ),
                        all.len() == ws@.len(),
                        ascending(hits@),
                        forall|at: usize|
                            hits@.contains(at) <==> pattern_at(ps[p as int], b@, at as int),
                        reach == (if h == 0 {
                            0
                        } else {
                            hits@[h - 1] + 1
                        }),
                        seen(me, ps, access, found, last, w as int, p as int, reach),
                    decreases hits@.len() - h,
                {
                    let at: usize = hits[h];
                    assert(hits@.contains(at));
                    assert(me.site(ps, access, w as int, p as int, at as int));
                    assert forall|x: int|
                        reach <= x < at implies !me.site(
                        ps,
                        access,
                        w as int,
                        p as int,
                        x,
                    ) by {
                        if me.site(ps, access, w as int, p as int, x) {
                            assert(hits@.contains(x as usize));
                            let j = choose|j: int| 0 <= j < hits@.len() && hits@[j] == x as usize;
                            if j < h {
                                assert(j == h - 1 || hits@[j] < hits@[h - 1]);
                            } else if j > h {
                                assert(hits@[h as int] < hits@[j]);
                            }
                        }
                    }
                    if at as u64 > u64::MAX - base {
                        proof {
                            assert forall|rva: u64, bytes: Seq<u8>|
                                !me.unique_site(ps, access, rva as int, bytes) by {
                                if me.unique_site(ps, access, rva as int, bytes) {
                                    assert(me.site_rva(ps, access, w as int, at as int) == rva);
                                }
                            }
                        }
                        return None;
                    }
                    let rva: u64 = base + at as u64;
                    match &found {
                        Some((prior, _)) => {
                            if *prior != rva {
                                proof {
                                    assert forall|v: u64, bytes: Seq<u8>|
                                        !me.unique_site(ps, access, v as int, bytes) by {
                                        if me.unique_site(ps, access, v as int, bytes) {
                                            assert(me.site(ps, access, last.0, last.1, last.2));
                                            assert(me.site_rva(ps, access, w as int, at as int)
                                                == v);
                                        }
                                    }
                                }
                                return None;
                            }
                        },
                        None => {},
                    }
                    let bytes: Vec<u8> = vstd::slice::slice_to_vec(
                        vstd::slice::slice_subrange(b, at, at + n),
                    );
                    let ghost prior_found = found;
                    let ghost prior_last = last;
                    found = Some((rva, bytes));
                    proof {
                        last = (w as int, p as int, at as int);
                        seen_next(
                            me,
                            ps,
                            access,
                            prior_found,
                            prior_last,
                            w as int,
                            p as int,
                            reach,
                            at as int,
                            rva,
                            bytes,
                        );
                        reach = at + 1;
                    }
                    h = h + 1;
                }
                proof {
                    assert forall|x: int| reach <= x implies !me.site(
                        ps,
                        access,
                        w as int,
                        p as int,
                        x,
                    ) by {
                        if me.site(ps, access, w as int, p as int, x) {
                            assert(hits@.contains(x as usize));
                            let j = choose|j: int| 0 <= j < hits@.len() && hits@[j] == x as usize;
                            assert(j == h - 1 || hits@[j] < hits@[h - 1]);
                        }
                    }
                    seen_pattern(me, ps, access, found, last, w as int, p as int, reach);
                }
                p = p + 1;
            }
            proof {
                seen_window(me, ps, access, found, last, w as int, p as int);
            }
            w = w + 1;
        }
        proof {
            if found is Some {
                assert(me.site(ps, access, last.0, last.1, last.2));
                assert(me.unique_site(ps, access, (found->0).0 as int, (found->0).1@));
            } else {
                assert forall|rva: u64, bytes: Seq<u8>|
                    !me.unique_site(ps, access, rva as int, bytes) by {}
            }
        }
        found
    }

    /// Slot RVA and function RVA of the one virtual of the class, over all of
    /// its vtables, whose body of `window` bytes starts with one of the
    /// patterns.
    pub fn resolve_virtual(&self, class: &str, specs: &[&str], window: usize) -> (r: Option<
        (u64, u64),
    >)
        ensures
            match r {
                Some((slot, f)) => self@.virtual_of(
                    encode_utf8(class@),
                    patterns_of(specs@),
                    window as int,
                ) == Some((slot as int, f as int)),
                None => self@.virtual_of(
                    encode_utf8(class@),
                    patterns_of(specs@),
                    window as int,
                ) is None,
            },
    {
        let r: Option<(u64, u64)> = self.search_virtual(class, specs, window);
        proof {
            if patterns_of(specs@) is Some {
                let ps = patterns_of(specs@)->0;
                let name = encode_utf8(class@);
                if r is Some {
                    let x = ((r->0).0 as int, (r->0).1 as int);
                    assert(self@.is_slot(name, ps, window as int, x));
                    let y = choose|y: (int, int)| self@.is_slot(name, ps, window as int, y);
                    assert(self@.is_slot(name, ps, window as int, y));
                    assert(self@.candidate(name, ps, window as int, y.0, y.1));
                } else {
                    assert forall|x: (int, int)| !self@.is_slot(name, ps, window as int, x) by {
                        assert(!self@.is_virtual(name, ps, window as int, x.0, x.1));
                    }
                }
            }
        }
        r
    }

    fn search_virtual(&self, class: &str, specs: &[&str], window: usize) -> (r: Option<
        (u64, u64),
    >)
        ensures
            match r {
                Some((slot, f)) => patterns_of(specs@) matches Some(ps) && self@.is_virtual(
                    encode_utf8(class@),
                    ps,
                    window as int,
                    slot as int,
                    f as int,
                ),
                None => patterns_of(specs@) matches Some(ps) ==> forall|slot: int, f: int|
                    !self@.is_virtual(encode_utf8(class@), ps, window as int, slot, f),
            },
    {
        let pats: Vec<Pattern> = match parse_all(specs) {
            Some(pats) => pats,
            None => {
                return None;
            },
        };
        let ghost ps = pattern_views(pats@);
        let ghost me = self@;
        let ghost name = encode_utf8(class@);
        let tables: Vec<Vtable> = self.pe.vtables(class);
        let size: usize = self.pe.file_len();
        let mut found: Option<(u64, u64)> = None;
        let mut i: usize = 0;
        while i < tables.len()
            invariant
                i <= tables@.len(),
                size == me.pe.data.len(),
                me == self@,
                ps == pattern_views(pats@),
                patterns_of(specs@) == Some(ps),
                name == encode_utf8(class@),
                forall|v: Vtable| #[trigger]
                    tables@.contains(v) <==> me.pe.is_vtable(
                        name,
                        v.rva as int,
                        v.object_offset as int,
                    ),
                match found {
                    Some((slot, f)) => me.candidate(
                        name,
                        ps,
                        window as int,
                        slot as int,
                        f as int,
                    ) && forall|a: int, k: int|
                        0 <= a < i && #[trigger] serves(me, tables@[a], ps, window as int, k)
                            ==> slot == tables@[a].rva + 8 * k && me.pe.vfn(
                            tables@[a].rva as int,
                            k,
                        ) == Some(f as int),
                    None => forall|a: int, k: int|
                        0 <= a < i ==> !#[trigger] serves(me, tables@[a], ps, window as int, k),
                },
            decreases tables@.len() - i,
        {
            let table: u64 = tables[i].rva;
            let ghost entry = tables@[i as int];
            assert(tables@.contains(entry));
            let all: Vec<(usize, u64)> = self.pe.virtuals(table, VTABLE_MAX);
            assert forall|k: int| in_walk(me.pe, table as int, k) <==> 0 <= k < all@.len() by {
                walk_is_listed(me.pe, table as int, all@, k);
            }
            let mut j: usize = 0;
            while j < all.len()
                invariant
                    i < tables@.len(),
                    j <= all@.len(),
                    size == me.pe.data.len(),
                    me == self@,
                    ps == pattern_views(pats@),
                    patterns_of(specs@) == Some(ps),
                    name == encode_utf8(class@),
                    entry == tables@[i as int],
                    entry.rva == table,
                    me.pe.is_vtable(name, entry.rva as int, entry.object_offset as int),
                    virtuals_of(me.pe, table as int, VTABLE_MAX as int, all@),
                    forall|k: int| in_walk(me.pe, table as int, k) <==> 0 <= k < all@.len(),
                    match found {
                        Some((slot, f)) => me.candidate(
                            name,
                            ps,
                            window as int,
                            slot as int,
                            f as int,
                        ) && (forall|a: int, k: int|
                            0 <= a < i && #[trigger] serves(me, tables@[a], ps, window as int, k)
                                ==> slot == tables@[a].rva + 8 * k && me.pe.vfn(
                                tables@[a].rva as int,
                                k,
                            ) == Some(f as int)) && (forall|k: int|
                            k < j && #[trigger] serves(me, entry, ps, window as int, k) ==> slot
                                == entry.rva + 8 * k && me.pe.vfn(entry.rva as int, k) == Some(
                                f as int,
                            )),
                        None => (forall|a: int, k: int|
                            0 <= a < i ==> !#[trigger] serves(
                                me,
                                tables@[a],
                                ps,
                                window as int,
                                k,
                            )) && (forall|k: int|
                            k < j ==> !#[trigger] serves(me, entry, ps, window as int, k)),
                    },
                decreases all@.len() - j,
            {
                let f: u64 = all[j].1;
                assert(all@[j as int].0 == j);
                assert(me.pe.vfn(table as int, j as int) == Some(f as int));
                let starts: bool = match self.pe.read_rva(f, window) {
                    Some(body) => any_at_start(pats.as_slice(), body),
                    None => false,
                };
                assert(starts == serves(me, entry, ps, window as int, j as int));
                if starts {
                    proof {
                        slot_is_word(me.pe, table as int, j as int);
                    }
                    let slot: u64 = table + 8 * (j as u64);
                    assert(me.candidate(name, ps, window as int, slot as int, f as int));
                    match found {
                        Some((s, g)) => {
                            if s != slot || g != f {
                                assert forall|a: int, b: int|
                                    !me.is_virtual(name, ps, window as int, a, b) by {}
                                return None;
                            }
                        },
                        None => {},
                    }
                    found = Some((slot, f));
                }
                j = j + 1;
            }
            assert forall|k: int| serves(me, entry, ps, window as int, k) implies k < j by {}
            i = i + 1;
        }
        proof {
            assert forall|slot: int, f: int|
                me.candidate(name, ps, window as int, slot, f) implies exists|a: int, k: int|
                0 <= a < tables@.len() && #[trigger] serves(me, tables@[a], ps, window as int, k)
                    && slot == tables@[a].rva + 8 * k && me.pe.vfn(tables@[a].rva as int, k)
                    == Some(f) by {
                let (table, k) = choose|table: Vtable, k: int|
                    #![trigger me.pe.vfn(table.rva as int, k)]
                    me.pe.is_vtable(name, table.rva as int, table.object_offset as int) && in_walk(
                        me.pe,
                        table.rva as int,
                        k,
                    ) && me.pe.vfn(table.rva as int, k) == Some(f) && slot == table.rva + 8 * k
                        && body_starts(me.pe, f, ps, window as int);
                assert(tables@.contains(table));
                let a = choose|a: int| 0 <= a < tables@.len() && tables@[a] == table;
                assert(serves(me, tables@[a], ps, window as int, k));
            }
        }
        found
    }
}

/// Virtual `k` of a vtable is within the walk and its body starts with one of
/// the patterns.
spec fn serves(
    me: LiveView,
    table: Vtable,
    ps: Seq<Seq<Option<u8>>>,
    window: int,
    k: int,
) -> bool {
    in_walk(me.pe, table.rva as int, k) && body_starts(
        me.pe,
        me.pe.vfn(table.rva as int, k)->0,
        ps,
        window,
    )
}

pub(crate) proof fn slot_is_word(m: PeImage, table: int, k: int)
    requires
        m.vfn(table, k) is Some,
        m.data.len() <= u64::MAX,
        0 <= table,
        0 <= k,
    ensures
        table + 8 * k <= u64::MAX,
{
    if table + 8 * k > u64::MAX {
        offset_is_small(m, table + 8 * k);
    }
}

pub(crate) proof fn walk_is_listed(m: PeImage, table: int, all: Seq<(usize, u64)>, k: int)
    requires
        virtuals_of(m, table, VTABLE_MAX as int, all),
    ensures
        in_walk(m, table, k) <==> 0 <= k < all.len(),
{
    if 0 <= k < all.len() {
        assert forall|j: int| 0 <= j <= k implies (#[trigger] m.vfn(table, j)) is Some by {
            assert(all[j].0 == j);
        }
    } else if in_walk(m, table, k) {
        assert(m.vfn(table, all.len() as int) is Some);
    }
}

/// A match before window `w`, pattern `p`, offset `at` in scan order.
spec fn earlier(w: int, p: int, at: int, w1: int, p1: int, at1: int) -> bool {
    w1 < w || (w1 == w && (p1 < p || (p1 == p && at1 < at)))
}

/// There is only one such place, and only one such match.
proof fn unique_site_is_unique(
    me: LiveView,
    ps: Seq<Seq<Option<u8>>>,
    access: Access,
    x: (u64, Seq<u8>),
    y: (u64, Seq<u8>),
)
    requires
        me.is_unique(ps, access, x),
        me.is_unique(ps, access, y),
    ensures
        x == y,
{
    let (w, p, at) = choose|w: int, p: int, at: int| #[trigger]
        me.site(ps, access, w, p, at) && me.site_rva(ps, access, w, at) == x.0
            && me.site_bytes(ps, access, w, p, at) == x.1 && (forall|w1: int, p1: int, at1: int|
            #[trigger]
            me.site(ps, access, w1, p1, at1) ==> me.site_rva(ps, access, w1, at1) == x.0 && (w1 < w
                || (w1 == w && p1 <= p)));
    let (v, q, bt) = choose|v: int, q: int, bt: int| #[trigger]
        me.site(ps, access, v, q, bt) && me.site_rva(ps, access, v, bt) == y.0 && me.site_bytes(
            ps,
            access,
            v,
            q,
            bt,
        ) == y.1 && (forall|w1: int, p1: int, at1: int| #[trigger]
            me.site(ps, access, w1, p1, at1) ==> me.site_rva(ps, access, w1, at1) == y.0 && (w1 < v
                || (w1 == v && p1 <= q)));
    assert(me.site(ps, access, w, p, at));
    assert(me.site(ps, access, v, q, bt));
}

/// What the search knows of the matches before a point of the scan: they all
/// have the found RVA, and the last of them gave the found bytes.
spec fn seen(
    me: LiveView,
    ps: Seq<Seq<Option<u8>>>,
    access: Access,
    found: Option<(u64, Vec<u8>)>,
    last: (int, int, int),
    w: int,
    p: int,
    at: int,
) -> bool {
    match found {
        Some((rva, bytes)) => {
            &&& me.site(ps, access, last.0, last.1, last.2)
            &&& earlier(w, p, at, last.0, last.1, last.2)
            &&& me.site_rva(ps, access, last.0, last.2) == rva
            &&& me.site_bytes(ps, access, last.0, last.1, last.2) == bytes@
            &&& forall|w1: int, p1: int, at1: int| #[trigger]
                me.site(ps, access, w1, p1, at1) && earlier(w, p, at, w1, p1, at1) ==> me.site_rva(
                    ps,
                    access,
                    w1,
                    at1,
                ) == rva && (w1 < last.0 || (w1 == last.0 && p1 <= last.1))
        },
        None => forall|w1: int, p1: int, at1: int| #[trigger]
            me.site(ps, access, w1, p1, at1) ==> !earlier(w, p, at, w1, p1, at1),
    }
}

proof fn seen_next(
    me: LiveView,
    ps: Seq<Seq<Option<u8>>>,
    access: Access,
    found: Option<(u64, Vec<u8>)>,
    last: (int, int, int),
    w: int,
    p: int,
    reach: int,
    at: int,
    rva: u64,
    bytes: Vec<u8>,
)
    requires
        seen(me, ps, access, found, last, w, p, reach),
        reach <= at,
        forall|x: int| reach <= x < at ==> !me.site(ps, access, w, p, x),
        me.site(ps, access, w, p, at),
        me.site_rva(ps, access, w, at) == rva,
        me.site_bytes(ps, access, w, p, at) == bytes@,
        found matches Some((prior, _)) ==> prior == rva,
    ensures
        seen(me, ps, access, Some((rva, bytes)), (w, p, at), w, p, at + 1),
{
}

proof fn seen_pattern(
    me: LiveView,
    ps: Seq<Seq<Option<u8>>>,
    access: Access,
    found: Option<(u64, Vec<u8>)>,
    last: (int, int, int),
    w: int,
    p: int,
    reach: int,
)
    requires
        seen(me, ps, access, found, last, w, p, reach),
        forall|x: int| reach <= x ==> !me.site(ps, access, w, p, x),
    ensures
        seen(me, ps, access, found, last, w, p + 1, 0),
{
}

proof fn seen_window(
    me: LiveView,
    ps: Seq<Seq<Option<u8>>>,
    access: Access,
    found: Option<(u64, Vec<u8>)>,
    last: (int, int, int),
    w: int,
    p: int,
)
    requires
        seen(me, ps, access, found, last, w, p, 0),
        p == ps.len(),
    ensures
        seen(me, ps, access, found, last, w + 1, 0, 0),
{
}

/// Addresses of the image are told from others; its bytes are read where it is
/// loaded.
pub proof fn addresses_are_those_of_the_image(v: LiveView, rva: int, len: int)
    ensures
        0 <= rva < v.pe.image_size ==> v.address(rva) == Some(v.base + rva) && v.contains(
            v.base + rva,
        ),
        rva < 0 || rva >= v.pe.image_size ==> v.address(rva) is None && !v.contains(v.base + rva),
        0 <= rva && 0 < len && rva + len <= v.pe.image_size ==> v.live_bytes(rva, len) == Some(
            v.live.subrange(rva, rva + len),
        ),
        0 <= rva && 0 < len && rva + len > v.pe.image_size ==> v.live_bytes(rva, len) is None,
        0 <= rva ==> (v.contains_exec(v.base + rva) <==> v.pe.is_exec(rva)),
{
}

/// A pattern stands at `k` in a stretch of the file.
pub open spec fn stands_in(file: Seq<u8>, s: Extent, p: Seq<Option<u8>>, k: int) -> bool {
    pattern_at(p, file.subrange(s.off as int, s.off + s.len), k)
}

proof fn last_site(v: LiveView, ps: Seq<Seq<Option<u8>>>, access: Access, w: int, at: int) -> (r: (
    int,
    int,
))
    requires
        ps.len() == 1,
        v.site(ps, access, w, 0, at),
    ensures
        v.site(ps, access, r.0, 0, r.1),
        forall|w1: int, p1: int, at1: int| #[trigger]
            v.site(ps, access, w1, p1, at1) ==> w1 <= r.0,
    decreases
            windows_from(v.pe.data, v.pe.extents(access), overlap_of(ps), 0).len() - w,
{
    if exists|w1: int, p1: int, at1: int| #[trigger]
        v.site(ps, access, w1, p1, at1) && w1 > w {
        let (w1, p1, at1) = choose|w1: int, p1: int, at1: int| #[trigger]
            v.site(ps, access, w1, p1, at1) && w1 > w;
        assert(p1 == 0);
        last_site(v, ps, access, w1, at1)
    } else {
        (w, at)
    }
}

/// A pattern that stands at one place of the wanted sections is found there,
/// wherever a scan window may end.
pub proof fn a_lone_match_is_found(
    v: LiveView,
    p: Seq<Option<u8>>,
    access: Access,
    e: int,
    k: int,
)
    requires
        p.len() > 0,
        0 <= e < v.pe.extents(access).len(),
        forall|i: int|
            0 <= i < v.pe.extents(access).len() ==> (#[trigger] v.pe.extents(access)[i]).off
                + v.pe.extents(access)[i].len <= v.pe.data.len() && v.pe.extents(access)[i].va
                + v.pe.extents(access)[i].len <= u64::MAX,
        stands_in(v.pe.data, v.pe.extents(access)[e], p, k),
        forall|i: int, j: int|
            0 <= i < v.pe.extents(access).len() && #[trigger] stands_in(
                v.pe.data,
                v.pe.extents(access)[i],
                p,
                j,
            ) ==> i == e && j == k,
    ensures
        v.unique_of(Some(seq![p]), access) == Some(
            (
                (v.pe.extents(access)[e].va + k) as u64,
                v.pe.data.subrange(
                    v.pe.extents(access)[e].off + k,
                    v.pe.extents(access)[e].off + k + p.len(),
                ),
            ),
        ),
{
    let ps = seq![p];
    let all = v.pe.extents(access);
    let file = v.pe.data;
    let s = all[e];
    assert(s.off + s.len <= file.len());
    reveal_with_fuel(longest, 2);
    assert(overlap_of(ps) == p.len() - 1);
    let ws = windows_from(file, all, overlap_of(ps), 0);
    let n = p.len() as int;
    let rva = s.va + k;
    let bytes = file.subrange(s.off + k, s.off + k + n);
    windows_hold_every_stretch(file, all, overlap_of(ps), e, k, n);
    let (w, at) = choose|w: int, at: int|
        0 <= w < ws.len() && #[trigger] window_has(file, s, ws[w], at, k, n);
    let body = file.subrange(s.off as int, s.off + s.len);
    assert forall|i: int| 0 <= i < n implies #[trigger] p[i] is None || p[i] == Some(
        ws[w].1[at + i],
    ) by {
        assert(ws[w].1.subrange(at, at + n)[i] == file.subrange(s.off + k, s.off + k + n)[i]);
        assert(body[k + i] == file[s.off + k + i]);
    }
    assert(pattern_at(ps[0], ws[w].1, at));
    assert(v.site(ps, access, w, 0, at));
    assert forall|w1: int, p1: int, at1: int| #[trigger] v.site(ps, access, w1, p1, at1) implies
        p1 == 0 && v.site_rva(ps, access, w1, at1) == rva && v.site_bytes(
        ps,
        access,
        w1,
        p1,
        at1,
    ) == bytes by {
        windows_are_stretches(file, all, overlap_of(ps), w1);
        let i = choose|i: int| 0 <= i < all.len() && #[trigger] is_stretch(file, all[i], ws[w1]);
        assert(all[i].off + all[i].len <= file.len());
        let q = ws[w1].0 - all[i].va;
        let whole = file.subrange(all[i].off as int, all[i].off + all[i].len);
        assert(ps[p1] == p);
        assert forall|x: int| 0 <= x < n implies #[trigger] p[x] is None || p[x] == Some(
            whole[q + at1 + x],
        ) by {
            assert(whole[q + at1 + x] == ws[w1].1[at1 + x]);
        }
        assert(stands_in(file, all[i], p, q + at1));
        assert(v.site_bytes(ps, access, w1, p1, at1) =~= bytes);
    }
    let (wl, al) = last_site(v, ps, access, w, at);
    assert(v.site(ps, access, wl, 0, al));
    assert(v.unique_site(ps, access, rva, bytes));
    assert(v.is_unique(ps, access, (rva as u64, bytes)));
    let x = choose|x: (u64, Seq<u8>)| v.is_unique(ps, access, x);
    assert(v.is_unique(ps, access, x));
    let (w2, p2, at2) = choose|w2: int, p2: int, at2: int| #[trigger]
        v.site(ps, access, w2, p2, at2) && v.site_rva(ps, access, w2, at2) == x.0
            && v.site_bytes(ps, access, w2, p2, at2) == x.1;
    assert(v.site(ps, access, w2, p2, at2));
}

/// The only virtual of a class whose body starts with a pattern is found.
pub proof fn a_lone_virtual_is_found(
    v: LiveView,
    class: Seq<u8>,
    ps: Seq<Seq<Option<u8>>>,
    window: int,
    table: Vtable,
    k: int,
    f: int,
)
    requires
        v.pe.is_vtable(class, table.rva as int, table.object_offset as int),
        0 <= k < 256,
        forall|j: int| 0 <= j <= k ==> (#[trigger] v.pe.vfn(table.rva as int, j)) is Some,
        v.pe.vfn(table.rva as int, k) == Some(f),
        body_starts(v.pe, f, ps, window),
        forall|s: int, g: int|
            v.candidate(class, ps, window, s, g) ==> s == table.rva + 8 * k && g == f,
    ensures
        v.virtual_of(class, Some(ps), window) == Some((table.rva + 8 * k, f)),
        v.virtual_of(class, None, window) is None,
{
    let slot = table.rva + 8 * k;
    assert(in_walk(v.pe, table.rva as int, k));
    assert(v.candidate(class, ps, window, slot, f));
    assert(v.is_slot(class, ps, window, (slot, f)));
    let x = choose|x: (int, int)| v.is_slot(class, ps, window, x);
    assert(v.is_slot(class, ps, window, x));
}

} // verus!
