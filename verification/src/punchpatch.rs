//! Taking the view kick out: which bytes are overwritten once the sites are
//! known.
//!
//! The sites come from the module file. Nothing is written unless the loaded
//! code is the same at every one of them.
use vstd::prelude::*;

use crate::bytes::same_bytes;
use crate::code::{nop_fill, nops, page_span, pages_of};
use crate::elf;
use crate::hook::{prepared, Patch, PatchView};
use crate::live::{LiveModule, LiveView};
use crate::pe;
use crate::scan::windows_from;
use crate::text::{dec_text, hex_text, push_dec, push_hex, with_hex};
use crate::viewpunch::{
    chooses, find_addss, find_addss_pe, is_punch_field, is_tied, is_triple, lists_sites,
    punch_sites, select_punch_sites, site_views, Site, SiteView, DISP_MAX, DISP_MIN, OVERLAP,
    WIN_DISP_MAX, WIN_DISP_MIN,
};

verus! {

/// One overwrite in the Linux client: NOPs over an instruction, and the pages
/// that have to be writable for it.
#[derive(Clone, Copy)]
pub struct PunchWrite {
    pub addr: u64,
    pub len: usize,
    pub page: u64,
    pub page_len: u64,
}

/// The value of a `PunchWrite`.
#[verifier::ext_equal]
pub struct PunchWriteView {
    pub addr: int,
    pub len: int,
    pub page: int,
    pub page_len: int,
}

impl View for PunchWrite {
    type V = PunchWriteView;

    open spec fn view(&self) -> PunchWriteView {
        PunchWriteView {
            addr: self.addr as int,
            len: self.len as int,
            page: self.page as int,
            page_len: self.page_len as int,
        }
    }
}

/// The values of a list of overwrites.
pub open spec fn write_views(v: Seq<PunchWrite>) -> Seq<PunchWriteView> {
    Seq::new(v.len(), |i: int| v[i]@)
}

/// The overwrite of a site in a client loaded at `base`.
pub open spec fn write_of(base: int, s: SiteView) -> PunchWriteView {
    let addr = base + s.va;
    let len = s.bytes.len() as int;
    PunchWriteView { addr, len, page: pages_of(addr, len).0, page_len: pages_of(addr, len).1 }
}

/// The loaded bytes at a site are those of the file.
pub open spec fn is_confirmed(client: elf::ElfImage, s: SiteView, live: Seq<u8>) -> bool {
    client.read_va(s.va, s.bytes.len() as int) == Some(live)
}

/// The first chosen site from `i` on whose loaded bytes are not the file's.
pub open spec fn first_unconfirmed(
    client: elf::ElfImage,
    sites: Seq<SiteView>,
    chosen: Seq<usize>,
    live: Seq<Seq<u8>>,
    i: int,
) -> Option<int>
    decreases chosen.len() - i,
{
    if i < 0 || i >= chosen.len() {
        None
    } else if is_confirmed(client, sites[chosen[i] as int], live[i]) {
        first_unconfirmed(client, sites, chosen, live, i + 1)
    } else {
        Some(i)
    }
}

/// The overwrites of the chosen sites, or why there are none.
pub open spec fn punch_plan(
    client: elf::ElfImage,
    base: int,
    sites: Seq<SiteView>,
    chosen: Seq<usize>,
    live: Seq<Seq<u8>>,
) -> Result<Seq<PunchWriteView>, Seq<char>> {
    if chosen.len() == 0 {
        Err(
            "viewpunch: no punch-angle add triples found in client.so (game updated?); NOT patching"@,
        )
    } else {
        match first_unconfirmed(client, sites, chosen, live, 0) {
            Some(i) => Err(
                "viewpunch: code at 0x"@ + hex_text(base + sites[chosen[i] as int].va)
                    + " differs from client.so; NOT patching"@,
            ),
            None => Ok(
                Seq::new(chosen.len(), |i: int| write_of(base, sites[chosen[i] as int])),
            ),
        }
    }
}

/// The loaded bytes, as values.
pub open spec fn live_views(v: Seq<Vec<u8>>) -> Seq<Seq<u8>> {
    Seq::new(v.len(), |i: int| v[i]@)
}

/// The overwrites of the chosen sites, given the bytes that are loaded there.
pub fn plan_punch(
    client: &elf::Module,
    base: u64,
    sites: &Vec<Site>,
    chosen: &[usize],
    live: &[Vec<u8>],
) -> (r: Result<Vec<PunchWrite>, String>)
    requires
        live@.len() == chosen@.len(),
        forall|i: int| 0 <= i < chosen@.len() ==> (#[trigger] chosen@[i]) < sites@.len(),
        forall|k: int|
            0 <= k < sites@.len() ==> base + (#[trigger] sites@[k]).va + sites@[k].bytes@.len()
                + 0xfff <= u64::MAX,
    ensures
        ({
            let plan = punch_plan(
                client@,
                base as int,
                site_views(sites@),
                chosen@,
                live_views(live@),
            );
            match r {
                Ok(ws) => plan == Ok::<Seq<PunchWriteView>, Seq<char>>(write_views(ws@)),
                Err(e) => plan == Err::<Seq<PunchWriteView>, Seq<char>>(e@),
            }
        }),
{
    let ghost s = site_views(sites@);
    let ghost bytes = live_views(live@);
    if chosen.len() == 0 {
        return Err(
            "viewpunch: no punch-angle add triples found in client.so (game updated?); NOT patching".to_owned(),
        );
    }
    let mut out: Vec<PunchWrite> = Vec::new();
    let mut i: usize = 0;
    while i < chosen.len()
        invariant
            i <= chosen.len(),
            live@.len() == chosen@.len(),
            s == site_views(sites@),
            bytes == live_views(live@),
            forall|k: int| 0 <= k < chosen@.len() ==> (#[trigger] chosen@[k]) < sites@.len(),
            forall|k: int|
                0 <= k < sites@.len() ==> base + (#[trigger] sites@[k]).va
                    + sites@[k].bytes@.len() + 0xfff <= u64::MAX,
            first_unconfirmed(client@, s, chosen@, bytes, 0) == first_unconfirmed(
                client@,
                s,
                chosen@,
                bytes,
                i as int,
            ),
            chosen@.len() > 0,
            write_views(out@) == Seq::new(
                i as nat,
                |k: int| write_of(base as int, s[chosen@[k] as int]),
            ),
        decreases chosen.len() - i,
    {
        let ghost before = write_views(out@);
        let k: usize = chosen[i];
        let site: &Site = &sites[k];
        assert(s[k as int] == site@);
        assert(bytes[i as int] == live@[i as int]@);
        assert(sites@[k as int] == *site);
        let addr: u64 = base + site.va;
        let len: usize = site.bytes.len();
        let same: bool = match client.read_va(site.va, len) {
            Some(b) => same_bytes(b.as_slice(), live[i].as_slice()),
            None => false,
        };
        assert(same == is_confirmed(client@, s[k as int], bytes[i as int]));
        if !same {
            return Err(
                with_hex("viewpunch: code at 0x", addr, " differs from client.so; NOT patching"),
            );
        }
        let (page, page_len) = page_span(addr, len as u64);
        let w: PunchWrite = PunchWrite { addr, len, page, page_len };
        out.push(w);
        assert(write_views(out@) =~= before.push(w@));
        i = i + 1;
        assert(write_views(out@) =~= Seq::new(
            i as nat,
            |k: int| write_of(base as int, s[chosen@[k] as int]),
        ));
    }
    Ok(out)
}

/// The line that tells how many adds were overwritten.
pub fn armed_line(done: usize, count: usize, disp: u32) -> (r: String)
    ensures
        r@ == "viewpunch remover armed: NOP'd "@ + dec_text(done as int) + "/"@ + dec_text(
            count as int,
        ) + " punch adds (m_vecPunchAngle @ +0x"@ + hex_text(disp as int) + ", "@ + dec_text(
            (count / 3) as int,
        ) + " view paths)"@,
{
    let mut out: String = "viewpunch remover armed: NOP'd ".to_owned();
    push_dec(&mut out, done as u64);
    out.append("/");
    push_dec(&mut out, count as u64);
    out.append(" punch adds (m_vecPunchAngle @ +0x");
    push_hex(&mut out, disp as u64);
    out.append(", ");
    push_dec(&mut out, (count / 3) as u64);
    out.append(" view paths)");
    out
}

proof fn unconfirmed_found(
    client: elf::ElfImage,
    sites: Seq<SiteView>,
    chosen: Seq<usize>,
    live: Seq<Seq<u8>>,
    i: int,
    k: int,
)
    requires
        0 <= i <= k < chosen.len(),
        first_unconfirmed(client, sites, chosen, live, i) is None,
    ensures
        is_confirmed(client, sites[chosen[k] as int], live[k]),
    decreases k - i,
{
    if i < k {
        unconfirmed_found(client, sites, chosen, live, i + 1, k);
    }
}

/// Anything is overwritten only if the loaded code is the file's at every
/// chosen site, and then nothing but those instructions is.
pub proof fn only_confirmed_code_is_patched(
    client: elf::ElfImage,
    base: int,
    sites: Seq<SiteView>,
    chosen: Seq<usize>,
    live: Seq<Seq<u8>>,
    k: int,
)
    requires
        punch_plan(client, base, sites, chosen, live) is Ok,
        0 <= k < chosen.len(),
    ensures
        is_confirmed(client, sites[chosen[k] as int], live[k]),
        (punch_plan(client, base, sites, chosen, live)->Ok_0)[k] == write_of(
            base,
            sites[chosen[k] as int],
        ),
{
    unconfirmed_found(client, sites, chosen, live, 0, k);
}

/// What is chosen in the Linux client: its sites, the field, and which sites
/// add it.
pub fn find_punch(client: &elf::Module) -> (r: (Vec<Site>, u32, Vec<usize>))
    ensures
        ({
            let s = site_views(r.0@);
            &&& lists_sites(
                client@.windows(elf::Access::Code, OVERLAP as nat),
                DISP_MIN as int,
                DISP_MAX as int,
                s,
            )
            &&& {
                ||| is_punch_field(s, r.1 as int) && chooses(s, r.1 as int, r.2@)
                ||| r.1 == 0 && r.2@.len() == 0 && forall|i: int| !is_triple(s, i)
            }
        }),
{
    let sites: Vec<Site> = find_addss(client);
    let (disp, chosen) = punch_sites(&sites);
    (sites, disp, chosen)
}

/// The patch of a site in the Windows client.
pub open spec fn punch_patch(client: LiveView, s: SiteView) -> Result<PatchView, Seq<char>> {
    match client.address(s.va) {
        None => Err("viewpunch site RVA is outside client.dll"@),
        Some(a) => match client.live_bytes(s.va, s.bytes.len() as int) {
            None => Err("viewpunch live bytes are unavailable"@),
            Some(live) => if live != s.bytes {
                Err("viewpunch bytes at 0x"@ + hex_text(a) + " differ from client.dll"@)
            } else {
                prepared(a, s.bytes, nops(s.bytes.len()), live)
            },
        },
    }
}

/// The patches of the first `n` chosen sites, or what is wrong with the first
/// that cannot be patched.
pub open spec fn punch_patches(
    client: LiveView,
    sites: Seq<SiteView>,
    chosen: Seq<usize>,
    n: int,
) -> Result<Seq<PatchView>, Seq<char>>
    decreases n,
{
    if n <= 0 {
        Ok(Seq::empty())
    } else {
        match punch_patches(client, sites, chosen, n - 1) {
            Err(e) => Err(e),
            Ok(ps) => match punch_patch(client, sites[chosen[n - 1] as int]) {
                Ok(p) => Ok(ps.push(p)),
                Err(e) => Err(e),
            },
        }
    }
}

proof fn patches_stop(
    client: LiveView,
    sites: Seq<SiteView>,
    chosen: Seq<usize>,
    a: int,
    b: int,
)
    requires
        a <= b,
        punch_patches(client, sites, chosen, a) is Err,
    ensures
        punch_patches(client, sites, chosen, b) == punch_patches(client, sites, chosen, a),
    decreases b - a,
{
    if a < b {
        patches_stop(client, sites, chosen, a, b - 1);
    }
}

/// The patch of a site in the Windows client.
fn prepare_punch(client: &LiveModule, site: &Site) -> (r: Result<Patch, String>)
    ensures
        match r {
            Ok(p) => punch_patch(client@, site@) == Ok::<PatchView, Seq<char>>(p@),
            Err(e) => punch_patch(client@, site@) == Err::<PatchView, Seq<char>>(e@),
        },
{
    let a: u64 = match client.address(site.va) {
        None => {
            return Err("viewpunch site RVA is outside client.dll".to_owned());
        },
        Some(a) => a,
    };
    let live: &[u8] = match client.live_bytes(site.va, site.bytes.len()) {
        None => {
            return Err("viewpunch live bytes are unavailable".to_owned());
        },
        Some(b) => b,
    };
    if !same_bytes(live, site.bytes.as_slice()) {
        return Err(with_hex("viewpunch bytes at 0x", a, " differ from client.dll"));
    }
    Patch::prepare(a, site.bytes.as_slice(), nop_fill(site.bytes.len()), live)
}

/// The values of a list of patches.
pub open spec fn patch_views(v: Seq<Patch>) -> Seq<PatchView> {
    Seq::new(v.len(), |i: int| v[i]@)
}

/// What the Windows client's sites come to: the field and the patches, or what
/// is wrong.
pub open spec fn is_punch_install(
    client: LiveView,
    s: Seq<SiteView>,
    r: Result<(int, Seq<PatchView>), Seq<char>>,
) -> bool {
    &&& lists_sites(
        windows_from(client.pe.data, client.pe.extents(pe::Access::Code), OVERLAP as nat, 0),
        WIN_DISP_MIN as int,
        WIN_DISP_MAX as int,
        s,
    )
    &&& match r {
        Ok((d, ps)) => is_punch_field(s, d) && !is_tied(s, d) && exists|chosen: Seq<usize>|
            #[trigger] chooses(s, d, chosen) && punch_patches(
                client,
                s,
                chosen,
                chosen.len() as int,
            ) == Ok::<Seq<PatchView>, Seq<char>>(ps),
        Err(e) => {
            ||| e == "no pitch/yaw/roll addss triple found"@ && forall|i: int| !is_triple(s, i)
            ||| e == "multiple equally likely viewpunch fields found"@ && exists|d: int|
                #[trigger] is_punch_field(s, d) && is_tied(s, d)
            ||| exists|d: int, chosen: Seq<usize>|
                #[trigger] chooses(s, d, chosen) && is_punch_field(s, d) && !is_tied(s, d)
                    && punch_patches(client, s, chosen, chosen.len() as int) == Err::<
                    Seq<PatchView>,
                    Seq<char>,
                >(e)
        },
    }
}

/// The field and the patches, or what is wrong, as a value.
pub open spec fn install_view(r: Result<(u32, Vec<Patch>), String>) -> Result<
    (int, Seq<PatchView>),
    Seq<char>,
> {
    match r {
        Ok((d, ps)) => Ok((d as int, patch_views(ps@))),
        Err(e) => Err(e@),
    }
}

/// Finds the punch field in the Windows client and prepares a patch for each
/// instruction that adds it. Nothing is applied.
pub fn install_punch(client: &LiveModule) -> (r: Result<(u32, Vec<Patch>), String>)
    ensures
        exists|s: Seq<SiteView>| is_punch_install(client@, s, install_view(r)),
{
    let sites: Vec<Site> = find_addss_pe(client);
    let ghost s = site_views(sites@);
    let (d, chosen) = match select_punch_sites(&sites) {
        Err(e) => {
            assert(is_punch_install(client@, s, Err::<(int, Seq<PatchView>), Seq<char>>(e@)));
            return Err(e);
        },
        Ok(x) => x,
    };
    let mut out: Vec<Patch> = Vec::new();
    let mut i: usize = 0;
    assert(patch_views(out@) =~= Seq::empty());
    while i < chosen.len()
        invariant
            i <= chosen.len(),
            s == site_views(sites@),
            lists_sites(
                windows_from(
                    client@.pe.data,
                    client@.pe.extents(pe::Access::Code),
                    OVERLAP as nat,
                    0,
                ),
                WIN_DISP_MIN as int,
                WIN_DISP_MAX as int,
                s,
            ),
            is_punch_field(s, d as int),
            !is_tied(s, d as int),
            chooses(s, d as int, chosen@),
            punch_patches(client@, s, chosen@, i as int) == Ok::<Seq<PatchView>, Seq<char>>(
                patch_views(out@),
            ),
        decreases chosen.len() - i,
    {
        let ghost before = patch_views(out@);
        let k: usize = chosen[i];
        assert(chosen@.contains(k));
        assert(k < sites@.len());
        assert(s[k as int] == sites@[k as int]@);
        match prepare_punch(client, &sites[k]) {
            Ok(p) => {
                let ghost view = p@;
                out.push(p);
                assert(patch_views(out@) =~= before.push(view));
            },
            Err(e) => {
                proof {
                    patches_stop(client@, s, chosen@, i + 1, chosen@.len() as int);
                    assert(chooses(s, d as int, chosen@));
                    assert(is_punch_install(
                        client@,
                        s,
                        Err::<(int, Seq<PatchView>), Seq<char>>(e@),
                    ));
                }
                return Err(e);
            },
        }
        i = i + 1;
    }
    assert(i == chosen@.len());
    assert(chooses(s, d as int, chosen@));
    assert(is_punch_install(
        client@,
        s,
        Ok::<(int, Seq<PatchView>), Seq<char>>((d as int, patch_views(out@))),
    ));
    Ok((d, out))
}

/// The line that tells what was found.
pub fn resolved_line(count: usize, disp: u32, removed: bool) -> (r: String)
    ensures
        r@ == "viewpunch: resolved "@ + dec_text(count as int) + " adds at m_vecPunchAngle +0x"@
            + hex_text(disp as int) + " ("@ + (if removed {
            "removed"@
        } else {
            "preserved"@
        }) + ")"@,
{
    let mut out: String = "viewpunch: resolved ".to_owned();
    push_dec(&mut out, count as u64);
    out.append(" adds at m_vecPunchAngle +0x");
    push_hex(&mut out, disp as u64);
    out.append(" (");
    out.append(
        if removed {
            "removed"
        } else {
            "preserved"
        },
    );
    out.append(")");
    out
}

/// Where the loaded code is the file's at every chosen site, each is
/// overwritten, and none is left out.
pub proof fn confirmed_code_is_patched(
    client: elf::ElfImage,
    base: int,
    sites: Seq<SiteView>,
    chosen: Seq<usize>,
    live: Seq<Seq<u8>>,
    k: int,
)
    requires
        0 <= k < chosen.len(),
        forall|i: int|
            0 <= i < chosen.len() ==> is_confirmed(
                client,
                sites[(#[trigger] chosen[i]) as int],
                live[i],
            ),
    ensures
        punch_plan(client, base, sites, chosen, live) matches Ok(ws) && ws.len() == chosen.len()
            && ws[k].addr == base + sites[chosen[k] as int].va && ws[k].len
            == sites[chosen[k] as int].bytes.len(),
{
    none_unconfirmed(client, sites, chosen, live, 0);
}

proof fn none_unconfirmed(
    client: elf::ElfImage,
    sites: Seq<SiteView>,
    chosen: Seq<usize>,
    live: Seq<Seq<u8>>,
    i: int,
)
    requires
        0 <= i,
        forall|j: int|
            0 <= j < chosen.len() ==> is_confirmed(
                client,
                sites[(#[trigger] chosen[j]) as int],
                live[j],
            ),
    ensures
        first_unconfirmed(client, sites, chosen, live, i) is None,
    decreases chosen.len() - i,
{
    if i < chosen.len() {
        assert(is_confirmed(client, sites[chosen[i] as int], live[i]));
        none_unconfirmed(client, sites, chosen, live, i + 1);
    }
}

/// A site of the loaded client that holds the file's bytes gets a patch of as
/// many NOPs.
pub proof fn a_site_gets_its_patch(client: LiveView, s: SiteView)
    requires
        s.bytes.len() > 0,
        0 <= s.va,
        s.va + s.bytes.len() <= client.pe.image_size,
        client.live_bytes(s.va, s.bytes.len() as int) == Some(s.bytes),
    ensures
        punch_patch(client, s) matches Ok(p) && p.address == client.base + s.va && p.original
            == s.bytes && p.replacement.len() == s.bytes.len() && !p.tainted && forall|i: int|
            0 <= i < s.bytes.len() ==> #[trigger] p.replacement[i] == 0x90,
{
}

/// Every chosen site gets one, in order.
pub proof fn every_site_gets_its_patch(
    client: LiveView,
    sites: Seq<SiteView>,
    chosen: Seq<usize>,
    n: int,
    k: int,
)
    requires
        0 <= k < n <= chosen.len(),
        forall|i: int|
            0 <= i < n ==> punch_patch(client, sites[(#[trigger] chosen[i]) as int]) is Ok,
    ensures
        punch_patches(client, sites, chosen, n) matches Ok(ps) && ps.len() == n && ps[k]
            == punch_patch(client, sites[chosen[k] as int])->Ok_0,
    decreases n,
{
    assert(punch_patch(client, sites[chosen[n - 1] as int]) is Ok);
    if n > 1 {
        if k < n - 1 {
            every_site_gets_its_patch(client, sites, chosen, n - 1, k);
        } else {
            every_site_gets_its_patch(client, sites, chosen, n - 1, 0);
        }
    } else {
        assert(punch_patches(client, sites, chosen, 0) == Ok::<Seq<PatchView>, Seq<char>>(
            Seq::empty(),
        ));
    }
}

} // verus!
