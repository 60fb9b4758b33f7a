//! Viewpunch remover: which instructions apply the view kick.
//!
//! C_BasePlayer's view code ADDs m_vecPunchAngle onto the rendered eye angles
//! with three `addss <punch+0/4/8>(reg),%xmm0` in a row (pitch, yaw, roll).
//! NOPing those adds removes the visual kick whatever the punch value is.
//!
//! The sites are decoded out of the code: an `addss disp32(reg),%xmm0` that
//! belongs to a (D, D+4, D+8) triple within a tight span is a Vector add, and
//! the punch field is the D shared by the most triples.
use vstd::prelude::*;

use crate::bytes::{ascending, le32, rd_u32};
use crate::elf;
use crate::live::LiveModule;
use crate::pe;
use crate::scan::{window_has, window_views, windows_from, windows_hold_every_stretch, Extent};

verus! {

/// Plausible range for m_vecPunchAngle's offset in the Linux client.
pub const DISP_MIN: u32 = 0x1000;

pub const DISP_MAX: u32 = 0x1400;

/// Plausible range for m_vecPunchAngle's offset in the Windows client.
pub const WIN_DISP_MIN: u32 = 0x500;

pub const WIN_DISP_MAX: u32 = 0x1000;

/// A pitch/yaw/roll triple is emitted within a few dozen bytes.
pub const TRIPLE_SPAN: u64 = 0x100;

/// Longest x86 instruction: how far scan windows overlap.
pub const OVERLAP: usize = 15;

/// A one-byte instruction that does nothing.
pub const NOP: u8 = 0x90;

/// A decoded `addss disp32(base),%xmm0`.
pub struct Site {
    pub va: u64,
    pub disp: u32,
    pub bytes: Vec<u8>,
}

/// The value of a `Site`.
#[verifier::ext_equal]
pub struct SiteView {
    pub va: int,
    pub disp: int,
    pub bytes: Seq<u8>,
}

impl View for Site {
    type V = SiteView;

    open spec fn view(&self) -> SiteView {
        SiteView { va: self.va as int, disp: self.disp as int, bytes: self.bytes@ }
    }
}

/// The views of a list of sites.
pub open spec fn site_views(s: Seq<Site>) -> Seq<SiteView> {
    Seq::new(s.len(), |i: int| s[i]@)
}

/// Where the opcode of an `addss` at `i` starts: after its REX prefix, if it
/// has one.
pub open spec fn opcode_at(b: Seq<u8>, i: int) -> int {
    if b[i + 1] & 0xf0 == 0x40 {
        i + 2
    } else {
        i + 1
    }
}

/// Where the displacement of an `addss` at `i` starts: after its SIB byte, if
/// it has one.
pub open spec fn disp_at(b: Seq<u8>, i: int) -> int {
    if b[opcode_at(b, i) + 2] & 7 == 4 {
        opcode_at(b, i) + 4
    } else {
        opcode_at(b, i) + 3
    }
}

/// An `addss disp32(base),%xmm0` stands at `i`: F3, an optional REX prefix
/// without the R bit, 0F 58, and a ModRM byte with a 32-bit displacement and
/// xmm0 as destination. Twelve bytes must be left.
pub open spec fn is_addss(b: Seq<u8>, i: int) -> bool {
    let p = opcode_at(b, i);
    &&& 0 <= i
    &&& i + 12 <= b.len()
    &&& b[i] == 0xf3
    &&& b[i + 1] & 0xf0 == 0x40 ==> b[i + 1] & 0x04 == 0
    &&& b[p] == 0x0f
    &&& b[p + 1] == 0x58
    &&& b[p + 2] >> 6 == 2
    &&& (b[p + 2] >> 3) & 7 == 0
}

/// The site that an `addss` at `i` of a window makes.
pub open spec fn site_at(base: u64, b: Seq<u8>, i: int) -> SiteView {
    SiteView {
        va: base + i,
        disp: le32(b, disp_at(b, i)),
        bytes: b.subrange(i, disp_at(b, i) + 4),
    }
}

/// A window holds this site, with a displacement in the range.
pub open spec fn window_site(base: u64, b: Seq<u8>, lo: int, hi: int, i: int, s: SiteView) -> bool {
    is_addss(b, i) && s == site_at(base, b, i) && lo <= s.disp < hi
}

/// One of the windows holds this site.
pub open spec fn is_site(ws: Seq<(u64, Seq<u8>)>, lo: int, hi: int, s: SiteView) -> bool {
    exists|w: int, i: int|
        0 <= w < ws.len() && #[trigger] window_site(ws[w].0, ws[w].1, lo, hi, i, s)
}

/// `sites` lists the sites of the windows in address order, one for each
/// address that has one.
pub open spec fn lists_sites(
    ws: Seq<(u64, Seq<u8>)>,
    lo: int,
    hi: int,
    sites: Seq<SiteView>,
) -> bool {
    &&& forall|i: int, j: int| 0 <= i < j < sites.len() ==> sites[i].va < sites[j].va
    &&& forall|i: int| 0 <= i < sites.len() ==> is_site(ws, lo, hi, #[trigger] sites[i])
    &&& forall|s: SiteView|
        #[trigger] is_site(ws, lo, hi, s) && s.va <= u64::MAX ==> has_va(sites, s.va)
}

/// Some site stands at this address.
pub open spec fn has_va(sites: Seq<SiteView>, va: int) -> bool {
    exists|i: int| 0 <= i < sites.len() && (#[trigger] sites[i]).va == va
}

/// Decodes the `addss disp32(base),%xmm0` at `i`.
fn decode(b: &[u8], i: usize) -> (r: Option<usize>)
    requires
        i + 12 <= b.len(),
    ensures
        match r {
            Some(d) => is_addss(b@, i as int) && d == disp_at(b@, i as int) && d + 4 <= i + 12,
            None => !is_addss(b@, i as int),
        },
{
    if b[i] != 0xf3 {
        return None;
    }
    let mut p: usize = i + 1;
    if b[p] & 0xf0 == 0x40 {
        if b[p] & 0x04 != 0 {
            // destination is not xmm0
            return None;
        }
        p = p + 1;
    }
    if b[p] != 0x0f || b[p + 1] != 0x58 {
        return None;
    }
    let modrm: u8 = b[p + 2];
    if modrm >> 6 != 2 || (modrm >> 3) & 7 != 0 {
        return None;
    }
    if modrm & 7 == 4 {
        Some(p + 4)
    } else {
        Some(p + 3)
    }
}

/// Adds a site in address order, unless its address is there already.
fn insert_site(v: &mut Vec<Site>, s: Site)
    requires
        forall|i: int, j: int| 0 <= i < j < old(v)@.len() ==> old(v)@[i].va < old(v)@[j].va,
    ensures
        forall|i: int, j: int| 0 <= i < j < final(v)@.len() ==> final(v)@[i].va < final(v)@[j].va,
        forall|i: int|
            0 <= i < final(v)@.len() ==> (#[trigger] final(v)@[i])@ == s@ || exists|j: int|
                0 <= j < old(v)@.len() && final(v)@[i] == #[trigger] old(v)@[j],
        has_va(site_views(final(v)@), s.va as int),
        forall|va: int|
            has_va(site_views(old(v)@), va) ==> #[trigger] has_va(site_views(final(v)@), va),
{
    let mut i: usize = v.len();
    while i > 0 && v[i - 1].va > s.va
        invariant
            i <= v@.len(),
            v@ == old(v)@,
            forall|a: int, b: int| 0 <= a < b < v@.len() ==> v@[a].va < v@[b].va,
            forall|j: int| i <= j < v@.len() ==> v@[j].va > s.va,
        decreases i,
    {
        i = i - 1;
    }
    if i > 0 && v[i - 1].va == s.va {
        assert(site_views(v@)[i - 1].va == s.va);
        return;
    }
    v.insert(i, s);
    proof {
        let o = old(v)@;
        let n = v@;
        assert(n == o.insert(i as int, s));
        assert(site_views(n)[i as int].va == s.va);
        assert forall|k: int| 0 <= k < n.len() implies (#[trigger] n[k])@ == s@ || exists|j: int|
            0 <= j < o.len() && n[k] == #[trigger] o[j] by {
            if k < i {
                assert(n[k] == o[k]);
            } else if k > i {
                assert(n[k] == o[k - 1]);
            }
        }
        assert forall|va: int| has_va(site_views(o), va) implies #[trigger] has_va(
            site_views(n),
            va,
        ) by {
            let j = choose|j: int|
                0 <= j < site_views(o).len() && (#[trigger] site_views(o)[j]).va == va;
            if j < i {
                assert(site_views(n)[j].va == va);
            } else {
                assert(site_views(n)[j + 1].va == va);
            }
        }
    }
}

/// Decodes every site of the windows with a displacement in the range.
pub fn find_sites(ws: &Vec<(u64, &[u8])>, lo: u32, hi: u32) -> (r: Vec<Site>)
    ensures
        lists_sites(window_views(ws@), lo as int, hi as int, site_views(r@)),
{
    let ghost all = window_views(ws@);
    let mut out: Vec<Site> = Vec::new();
    let mut w: usize = 0;
    while w < ws.len()
        invariant
            w <= ws@.len(),
            all == window_views(ws@),
            forall|i: int, j: int| 0 <= i < j < out@.len() ==> out@[i].va < out@[j].va,
            forall|i: int|
                0 <= i < out@.len() ==> is_site(all, lo as int, hi as int, (#[trigger] out@[i])@),
            forall|w1: int, i: int, s: SiteView|
                0 <= w1 < w && #[trigger] window_site(
                    all[w1].0,
                    all[w1].1,
                    lo as int,
                    hi as int,
                    i,
                    s,
                ) && s.va <= u64::MAX ==> has_va(site_views(out@), s.va),
        decreases ws@.len() - w,
    {
        let base: u64 = ws[w].0;
        let b: &[u8] = ws[w].1;
        let size: usize = b.len();
        assert(all[w as int] == (base, b@));
        let mut i: usize = 0;
        while size >= 12 && i <= size - 12
            invariant
                w < ws@.len(),
                all == window_views(ws@),
                all[w as int] == (base, b@),
                size == b.len(),
                i <= size,
                forall|a: int, c: int| 0 <= a < c < out@.len() ==> out@[a].va < out@[c].va,
                forall|a: int|
                    0 <= a < out@.len() ==> is_site(
                        all,
                        lo as int,
                        hi as int,
                        (#[trigger] out@[a])@,
                    ),
                forall|w1: int, k: int, s: SiteView|
                    0 <= w1 < w && #[trigger] window_site(
                        all[w1].0,
                        all[w1].1,
                        lo as int,
                        hi as int,
                        k,
                        s,
                    ) && s.va <= u64::MAX ==> has_va(site_views(out@), s.va),
                forall|k: int, s: SiteView|
                    k < i && #[trigger] window_site(base, b@, lo as int, hi as int, k, s) && s.va
                        <= u64::MAX ==> has_va(site_views(out@), s.va),
            decreases size - i,
        {
            let ghost before = out@;
            match decode(b, i) {
                Some(d) => {
                    let disp: u32 = rd_u32(b, d);
                    if lo <= disp && disp < hi && i as u64 <= u64::MAX - base {
                        let bytes: Vec<u8> = vstd::slice::slice_to_vec(
                            vstd::slice::slice_subrange(b, i, d + 4),
                        );
                        let site: Site = Site { va: base + i as u64, disp, bytes };
                        let ghost sv = site@;
                        assert(sv =~= site_at(base, b@, i as int));
                        assert(window_site(
                            all[w as int].0,
                            all[w as int].1,
                            lo as int,
                            hi as int,
                            i as int,
                            sv,
                        ));
                        insert_site(&mut out, site);
                        assert forall|a: int| 0 <= a < out@.len() implies is_site(
                            all,
                            lo as int,
                            hi as int,
                            (#[trigger] out@[a])@,
                        ) by {
                            if out@[a]@ != sv {
                                let j = choose|j: int|
                                    0 <= j < before.len() && out@[a] == #[trigger] before[j];
                                assert(is_site(all, lo as int, hi as int, before[j]@));
                            }
                        }
                    }
                },
                None => {},
            }
            i = i + 1;
        }
        assert forall|w1: int, k: int, s: SiteView|
            0 <= w1 < w + 1 && #[trigger] window_site(
                all[w1].0,
                all[w1].1,
                lo as int,
                hi as int,
                k,
                s,
            ) && s.va <= u64::MAX implies has_va(site_views(out@), s.va) by {
            if w1 == w {
                assert(k < i);
                assert(window_site(base, b@, lo as int, hi as int, k, s));
            }
        }
        w = w + 1;
    }
    let ghost views = site_views(out@);
    assert forall|i: int| 0 <= i < views.len() implies is_site(
        all,
        lo as int,
        hi as int,
        #[trigger] views[i],
    ) by {
        assert(views[i] == out@[i]@);
    }
    out
}

/// Decodes every `addss disp32(base),%xmm0` in client.so's code whose
/// displacement could be a C_BasePlayer field.
pub fn find_addss(client: &elf::Module) -> (r: Vec<Site>)
    ensures
        lists_sites(
            client@.windows(elf::Access::Code, OVERLAP as nat),
            DISP_MIN as int,
            DISP_MAX as int,
            site_views(r@),
        ),
{
    let ws: Vec<(u64, &[u8])> = client.scan(elf::Access::Code, OVERLAP);
    find_sites(&ws, DISP_MIN, DISP_MAX)
}

/// The same in client.dll's code.
pub fn find_addss_pe(client: &LiveModule) -> (r: Vec<Site>)
    ensures
        lists_sites(
            windows_from(
                client@.pe.data,
                client@.pe.extents(pe::Access::Code),
                OVERLAP as nat,
                0,
            ),
            WIN_DISP_MIN as int,
            WIN_DISP_MAX as int,
            site_views(r@),
        ),
{
    let ws: Vec<(u64, &[u8])> = client.pe().scan(pe::Access::Code, OVERLAP);
    find_sites(&ws, WIN_DISP_MIN, WIN_DISP_MAX)
}

/// Sites in address order.
pub open spec fn in_order(s: Seq<SiteView>) -> bool {
    forall|i: int, j: int| 0 <= i < j < s.len() ==> s[i].va < s[j].va
}

/// The sites `i`, `i + 1` and `i + 2` add the three components of one vector,
/// within a tight span.
pub open spec fn is_triple(s: Seq<SiteView>, i: int) -> bool {
    &&& 0 <= i
    &&& i + 2 < s.len()
    &&& s[i + 1].disp == s[i].disp + 4
    &&& s[i + 2].disp == s[i].disp + 8
    &&& s[i + 2].va - s[i].va < TRIPLE_SPAN
}

/// A triple of the vector at displacement `d` starts at site `i`.
pub open spec fn triple_of(s: Seq<SiteView>, d: int, i: int) -> bool {
    is_triple(s, i) && s[i].disp == d
}

/// How many triples of the vector at `d` start before site `n`.
pub open spec fn triples_before(s: Seq<SiteView>, d: int, n: int) -> int
    decreases n,
{
    if n <= 0 {
        0
    } else {
        triples_before(s, d, n - 1) + (if triple_of(s, d, n - 1) {
            1int
        } else {
            0
        })
    }
}

/// How many triples the vector at `d` has.
pub open spec fn triples(s: Seq<SiteView>, d: int) -> int {
    triples_before(s, d, s.len() as int)
}

/// `d` is the displacement shared by the most triples; of several, the lowest.
pub open spec fn is_punch_field(s: Seq<SiteView>, d: int) -> bool {
    &&& exists|i: int| triple_of(s, d, i)
    &&& forall|i: int|
        #![trigger is_triple(s, i)]
        is_triple(s, i) ==> triples(s, s[i].disp) < triples(s, d) || (triples(s, s[i].disp)
            == triples(s, d) && d <= s[i].disp)
}

/// Site `k` belongs to a triple of the vector at `d`.
pub open spec fn in_triple(s: Seq<SiteView>, d: int, k: int) -> bool {
    triple_of(s, d, k) || triple_of(s, d, k - 1) || triple_of(s, d, k - 2)
}

/// `chosen` lists the sites of the triples of the vector at `d`, in order.
pub open spec fn chooses(s: Seq<SiteView>, d: int, chosen: Seq<usize>) -> bool {
    &&& ascending(chosen)
    &&& forall|k: usize| chosen.contains(k) <==> in_triple(s, d, k as int)
    &&& chosen.len() == 3 * triples(s, d)
}

/// Whether a triple starts at site `i`.
fn triple(sites: &Vec<Site>, i: usize) -> (r: bool)
    requires
        in_order(site_views(sites@)),
        i < sites@.len(),
    ensures
        r == is_triple(site_views(sites@), i as int),
{
    if sites.len() < 3 || i > sites.len() - 3 {
        return false;
    }
    let ghost s = site_views(sites@);
    assert(s[i as int].va < s[i + 2].va);
    let a: u64 = sites[i].disp as u64;
    sites[i + 1].disp as u64 == a + 4 && sites[i + 2].disp as u64 == a + 8 && sites[i + 2].va
        - sites[i].va < TRIPLE_SPAN
}

/// How many triples the vector at `d` has.
fn count_triples(sites: &Vec<Site>, d: u32) -> (r: usize)
    requires
        in_order(site_views(sites@)),
    ensures
        r == triples(site_views(sites@), d as int),
{
    let ghost s = site_views(sites@);
    let mut n: usize = 0;
    let mut i: usize = 0;
    while i < sites.len()
        invariant
            i <= sites@.len(),
            s == site_views(sites@),
            in_order(s),
            n == triples_before(s, d as int, i as int),
            n <= i,
        decreases sites@.len() - i,
    {
        if triple(sites, i) && sites[i].disp == d {
            n = n + 1;
        }
        i = i + 1;
    }
    n
}

/// No triple before site `n` has a displacement with more triples than `d`, or
/// with as many and lower.
spec fn leads(s: Seq<SiteView>, d: int, n: int) -> bool {
    &&& exists|i: int| triple_of(s, d, i)
    &&& forall|i: int|
        #![trigger is_triple(s, i)]
        i < n && is_triple(s, i) ==> triples(s, s[i].disp) < triples(s, d) || (triples(
            s,
            s[i].disp,
        ) == triples(s, d) && d <= s[i].disp)
}

/// The displacement shared by the most triples, if there is a triple.
fn punch_field(sites: &Vec<Site>) -> (r: Option<u32>)
    requires
        in_order(site_views(sites@)),
    ensures
        match r {
            Some(d) => is_punch_field(site_views(sites@), d as int),
            None => forall|i: int| !is_triple(site_views(sites@), i),
        },
{
    let ghost s = site_views(sites@);
    let mut best: Option<(u32, usize)> = None;
    let mut i: usize = 0;
    while i < sites.len()
        invariant
            i <= sites@.len(),
            s == site_views(sites@),
            in_order(s),
            match best {
                Some((d, n)) => n == triples(s, d as int) && leads(s, d as int, i as int),
                None => forall|j: int| j < i ==> !is_triple(s, j),
            },
        decreases sites@.len() - i,
    {
        if triple(sites, i) {
            let d: u32 = sites[i].disp;
            let n: usize = count_triples(sites, d);
            assert(s[i as int].disp == d);
            assert(triple_of(s, d as int, i as int));
            let better: bool = match best {
                None => true,
                Some((bd, bn)) => n > bn || (n == bn && d < bd),
            };
            if better {
                best = Some((d, n));
            }
            proof {
                let (e, m) = best->0;
                assert(exists|j: int| triple_of(s, e as int, j));
                assert forall|j: int|
                    #![trigger is_triple(s, j)]
                    j < i + 1 && is_triple(s, j) implies triples(s, s[j].disp) < m || (triples(
                    s,
                    s[j].disp,
                ) == m && e <= s[j].disp) by {
                    if j < i {
                        assert(is_triple(s, j));
                    } else {
                        assert(j == i);
                    }
                }
            }
        }
        i = i + 1;
    }
    match best {
        Some((d, _)) => {
            assert(forall|j: int| is_triple(s, j) ==> j < i);
            Some(d)
        },
        None => {
            assert(forall|j: int| is_triple(s, j) ==> j < i);
            None
        },
    }
}

/// The sites of the triples of the vector at `d`, in order.
fn choose_sites(sites: &Vec<Site>, d: u32) -> (r: Vec<usize>)
    requires
        in_order(site_views(sites@)),
    ensures
        chooses(site_views(sites@), d as int, r@),
{
    let ghost s = site_views(sites@);
    let mut out: Vec<usize> = Vec::new();
    let mut i: usize = 0;
    while i < sites.len()
        invariant
            i <= sites@.len(),
            s == site_views(sites@),
            in_order(s),
            ascending(out@),
            forall|k: int| 0 <= k < out@.len() ==> out@[k] < i,
            forall|k: usize|
                out@.contains(k) <==> k < i && in_triple(s, d as int, k as int),
            forall|j: int| i - 2 <= j < i ==> !triple_of(s, d as int, j),
            out@.len() == 3 * triples_before(s, d as int, i as int),
        decreases sites@.len() - i,
    {
        let ghost before = out@;
        if triple(sites, i) && sites[i].disp == d {
            assert(triple_of(s, d as int, i as int));
            assert(!triple_of(s, d as int, i + 1));
            assert(!triple_of(s, d as int, i + 2));
            out.push(i);
            out.push(i + 1);
            out.push(i + 2);
            proof {
                assert(out@ =~= before + seq![i, (i + 1) as usize, (i + 2) as usize]);
                assert forall|k: usize|
                    out@.contains(k) <==> k < i + 3 && in_triple(s, d as int, k as int) by {
                    if before.contains(k) {
                        let j = choose|j: int| 0 <= j < before.len() && before[j] == k;
                        assert(out@[j] == k);
                    }
                    if out@.contains(k) {
                        let j = choose|j: int| 0 <= j < out@.len() && out@[j] == k;
                        if j < before.len() {
                            assert(before[j] == k);
                            assert(before.contains(k));
                        }
                    }
                    assert(out@[before.len() as int] == i);
                    assert(out@[before.len() as int + 1] == i + 1);
                    assert(out@[before.len() as int + 2] == i + 2);
                }
                reveal_with_fuel(triples_before, 4);
            }
            i = i + 3;
        } else {
            assert(!triple_of(s, d as int, i as int));
            assert forall|k: usize|
                out@.contains(k) <==> k < i + 1 && in_triple(s, d as int, k as int) by {
                if k == i {
                    assert(!in_triple(s, d as int, k as int));
                }
            }
            i = i + 1;
        }
    }
    assert forall|k: usize| out@.contains(k) <==> in_triple(s, d as int, k as int) by {
        if in_triple(s, d as int, k as int) {
            assert(k < i);
        }
    }
    out
}

/// The punch field and the sites that add its components: of the displacements
/// that form (D, D+4, D+8) triples, the one used by the most. `(0, [])` if
/// there is no triple.
pub fn punch_sites(sites: &Vec<Site>) -> (r: (u32, Vec<usize>))
    requires
        in_order(site_views(sites@)),
    ensures
        ({
            let s = site_views(sites@);
            ||| is_punch_field(s, r.0 as int) && chooses(s, r.0 as int, r.1@)
            ||| r.0 == 0 && r.1@.len() == 0 && forall|i: int| !is_triple(s, i)
        }),
{
    match punch_field(sites) {
        Some(d) => (d, choose_sites(sites, d)),
        None => (0, Vec::new()),
    }
}

/// Another field than `d` has as many triples.
pub open spec fn is_tied(s: Seq<SiteView>, d: int) -> bool {
    exists|i: int|
        #![trigger is_triple(s, i)]
        is_triple(s, i) && s[i].disp != d && triples(s, s[i].disp) == triples(s, d)
}

/// The punch field and the sites that add its components, where one field has
/// more triples than every other; refused otherwise.
pub fn select_punch_sites(sites: &Vec<Site>) -> (r: Result<(u32, Vec<usize>), String>)
    requires
        in_order(site_views(sites@)),
    ensures
        ({
            let s = site_views(sites@);
            match r {
                Ok((d, chosen)) => is_punch_field(s, d as int) && !is_tied(s, d as int) && chooses(
                    s,
                    d as int,
                    chosen@,
                ),
                Err(e) => {
                    ||| e@ == "no pitch/yaw/roll addss triple found"@ && forall|i: int|
                        !is_triple(s, i)
                    ||| e@ == "multiple equally likely viewpunch fields found"@ && exists|d: int|
                        #[trigger] is_punch_field(s, d) && is_tied(s, d)
                },
            }
        }),
{
    let ghost s = site_views(sites@);
    let d: u32 = match punch_field(sites) {
        Some(d) => d,
        None => {
            return Err("no pitch/yaw/roll addss triple found".to_owned());
        },
    };
    let most: usize = count_triples(sites, d);
    let mut i: usize = 0;
    while i < sites.len()
        invariant
            i <= sites@.len(),
            s == site_views(sites@),
            in_order(s),
            is_punch_field(s, d as int),
            most == triples(s, d as int),
            forall|j: int|
                #![trigger is_triple(s, j)]
                j < i && is_triple(s, j) && s[j].disp != d ==> triples(s, s[j].disp) != most,
        decreases sites@.len() - i,
    {
        if triple(sites, i) && sites[i].disp != d && count_triples(sites, sites[i].disp) == most {
            assert(is_triple(s, i as int) && s[i as int].disp != d);
            return Err("multiple equally likely viewpunch fields found".to_owned());
        }
        i = i + 1;
    }
    assert(!is_tied(s, d as int)) by {
        assert(forall|j: int| is_triple(s, j) ==> j < i);
    }
    Ok((d, choose_sites(sites, d)))
}

/// Triples of one vector never overlap: a site belongs to at most one of them,
/// so the chosen sites are a whole number of triples.
pub proof fn triples_are_disjoint(s: Seq<SiteView>, d: int, i: int, j: int)
    requires
        triple_of(s, d, i),
        triple_of(s, d, j),
        i < j,
    ensures
        i + 3 <= j,
{
}

/// Every chosen site adds one of the three components of the punch vector.
pub proof fn chosen_sites_add_the_vector(s: Seq<SiteView>, d: int, chosen: Seq<usize>, k: int)
    requires
        chooses(s, d, chosen),
        0 <= k < chosen.len(),
    ensures
        chosen[k] < s.len(),
        s[chosen[k] as int].disp == d || s[chosen[k] as int].disp == d + 4
            || s[chosen[k] as int].disp == d + 8,
        chosen.len() % 3 == 0,
{
    assert(chosen.contains(chosen[k]));
    assert(in_triple(s, d, chosen[k] as int));
    assert(chosen.len() % 3 == 0) by {
        assert(chosen.len() == 3 * triples(s, d));
    }
}

/// The bytes from `p` on are those of `addss disp32(base),%xmm0` behind its
/// F3: 0F 58, a ModRM byte for xmm0 with any base register, a SIB byte where
/// that byte calls for one, and the displacement `d`, which starts at `at`.
pub open spec fn adds_to_xmm0(b: Seq<u8>, p: int, at: int, d: int) -> bool {
    &&& b[p] == 0x0f
    &&& b[p + 1] == 0x58
    &&& 0x80 <= b[p + 2] <= 0x87
    &&& at == if b[p + 2] == 0x84 {
        p + 4
    } else {
        p + 3
    }
    &&& d == b[at] + 0x100 * b[at + 1] + 0x1_0000 * b[at + 2] + 0x100_0000 * b[at + 3]
}

/// A REX prefix that leaves the destination at xmm0: the R bit is clear.
pub open spec fn rex_without_r(x: u8) -> bool {
    0x40 <= x <= 0x43 || 0x48 <= x <= 0x4b
}

proof fn modrm_is(x: u8)
    ensures
        x >> 6 == 2 && (x >> 3) & 7 == 0 <==> 0x80 <= x <= 0x87,
        0x80 <= x <= 0x87 ==> (x & 7 == 4 <==> x == 0x84),
        x & 0xf0 == 0x40 <==> 0x40 <= x <= 0x4f,
        0x40 <= x <= 0x4f ==> (x & 4 == 0 <==> rex_without_r(x)),
{
    assert((x >> 6 == 2 && (x >> 3) & 7 == 0) == (0x80 <= x && x <= 0x87)) by (bit_vector);
    assert(0x80 <= x && x <= 0x87 ==> ((x & 7 == 4) == (x == 0x84))) by (bit_vector);
    assert((x & 0xf0 == 0x40) == (0x40 <= x && x <= 0x4f)) by (bit_vector);
    assert(0x40 <= x && x <= 0x4f ==> ((x & 4 == 0) == ((0x40 <= x && x <= 0x43) || (0x48 <= x && x
        <= 0x4b)))) by (bit_vector);
}

/// The decoder recognises every `addss disp32(base),%xmm0`, whatever its base
/// register, with a SIB byte or a REX prefix or without, and no other
/// instruction; and it reads the displacement and the length right.
pub proof fn every_add_is_decoded(base: u64, b: Seq<u8>, i: int, at: int, d: int)
    requires
        0 <= i,
        i + 12 <= b.len(),
    ensures
        is_addss(b, i) && disp_at(b, i) == at && site_at(base, b, i).disp == d <==> b[i] == 0xf3 && (
        adds_to_xmm0(b, i + 1, at, d) || (rex_without_r(b[i + 1]) && adds_to_xmm0(
            b,
            i + 2,
            at,
            d,
        ))),
        is_addss(b, i) ==> site_at(base, b, i).va == base + i && site_at(base, b, i).bytes
            == b.subrange(i, disp_at(b, i) + 4) && 8 <= site_at(base, b, i).bytes.len() <= 10,
{
    modrm_is(b[i + 1]);
    modrm_is(b[i + 3]);
    modrm_is(b[i + 4]);
}

/// The code of a module is searched in full: an add that stands in a stretch of
/// code with twelve bytes left, with a displacement in the range, is listed
/// under its address, wherever a scan window may end.
pub proof fn every_add_is_listed(
    file: Seq<u8>,
    all: Seq<Extent>,
    lo: int,
    hi: int,
    sites: Seq<SiteView>,
    e: int,
    k: int,
)
    requires
        lists_sites(windows_from(file, all, OVERLAP as nat, 0), lo, hi, sites),
        0 <= e < all.len(),
        all[e].off + all[e].len <= file.len(),
        all[e].va + all[e].len <= u64::MAX,
        0 <= k,
        k + 12 <= all[e].len,
        is_addss(file, all[e].off + k),
        lo <= le32(file, disp_at(file, all[e].off + k)) < hi,
    ensures
        has_va(sites, all[e].va + k),
{
    let ws = windows_from(file, all, OVERLAP as nat, 0);
    windows_hold_every_stretch(file, all, OVERLAP as nat, e, k, 12);
    let (w, at) = choose|w: int, at: int|
        0 <= w < ws.len() && #[trigger] window_has(file, all[e], ws[w], at, k, 12);
    let b = ws[w].1;
    let o = all[e].off + k;
    let x = b.subrange(at, at + 12);
    let y = file.subrange(o, o + 12);
    assert(x == y);
    assert(x[0] == y[0]);
    assert(x[1] == y[1]);
    assert(x[2] == y[2]);
    assert(x[3] == y[3]);
    assert(x[4] == y[4]);
    assert(x[5] == y[5]);
    assert(x[6] == y[6]);
    assert(x[7] == y[7]);
    assert(x[8] == y[8]);
    assert(x[9] == y[9]);
    assert(is_addss(b, at));
    let s = site_at(ws[w].0, b, at);
    assert(disp_at(b, at) - at == disp_at(file, o) - o);
    assert(window_site(ws[w].0, ws[w].1, lo, hi, at, s));
    assert(is_site(ws, lo, hi, s));
}

/// Where the punch angle is looked for: on Linux from 1000h to below 1400h, on
/// Windows from 500h to below 1000h.
pub proof fn punch_offsets_are_looked_for(d: int)
    ensures
        DISP_MIN <= d < DISP_MAX <==> 0x1000 <= d < 0x1400,
        WIN_DISP_MIN <= d < WIN_DISP_MAX <==> 0x500 <= d < 0x1000,
{
}

/// Three adds in a row, to pitch, yaw and roll of one vector, within less than
/// 256 bytes, make the punch field, wherever there is no other vector: it is
/// found, with these sites among the chosen, and it is not tied.
pub proof fn a_lone_vector_is_the_punch(s: Seq<SiteView>, i: int, chosen: Seq<usize>)
    requires
        0 <= i,
        i + 2 < s.len() <= usize::MAX,
        s[i + 1].disp == s[i].disp + 4,
        s[i + 2].disp == s[i].disp + 8,
        s[i + 2].va - s[i].va < 0x100,
        forall|j: int|
            #![trigger is_triple(s, j)]
            is_triple(s, j) ==> s[j].disp == s[i].disp,
        chooses(s, s[i].disp, chosen),
    ensures
        is_punch_field(s, s[i].disp),
        !is_tied(s, s[i].disp),
        chosen.contains(i as usize),
        chosen.contains((i + 1) as usize),
        chosen.contains((i + 2) as usize),
{
    assert(is_triple(s, i));
    assert(triple_of(s, s[i].disp, i));
    assert(in_triple(s, s[i].disp, i));
    assert(in_triple(s, s[i].disp, i + 1));
    assert(in_triple(s, s[i].disp, i + 2));
    assert(((i + 1) as usize) as int == i + 1);
    assert(((i + 2) as usize) as int == i + 2);
}

/// Of several vectors the one with the most triples is the punch field, and
/// never one with fewer.
pub proof fn the_most_used_vector_wins(s: Seq<SiteView>, d: int, e: int, i: int)
    requires
        is_punch_field(s, d),
        triple_of(s, e, i),
    ensures
        triples(s, e) <= triples(s, d),
        triples(s, e) == triples(s, d) ==> d <= e,
        triples(s, e) >= 1,
{
    assert(is_triple(s, i));
    triples_count(s, e, s.len() as int, i);
}

proof fn triples_count(s: Seq<SiteView>, d: int, n: int, i: int)
    requires
        0 <= i < n,
        triple_of(s, d, i),
    ensures
        triples_before(s, d, n) >= 1,
    decreases n,
{
    if n - 1 > i {
        triples_count(s, d, n - 1, i);
    } else {
        triples_grow(s, d, n - 1);
    }
}

proof fn triples_grow(s: Seq<SiteView>, d: int, n: int)
    ensures
        triples_before(s, d, n) >= 0,
    decreases n,
{
    if n > 0 {
        triples_grow(s, d, n - 1);
    }
}

} // verus!
