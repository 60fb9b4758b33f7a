//! The jump-prediction patch: where the branches stand that both
//! `CheckJumpButton` implementations take when jump was held before.
//!
//! `if (mv->m_nOldButtons & IN_JUMP) return false;` appears in the base class
//! and in its override. A signature finds each test and the branch behind it;
//! overwriting the branch with NOPs makes the client predict the jump. A
//! patch of only one copy would be a silent half-fix, so both have to be found,
//! once each.
use vstd::prelude::*;

use crate::bytes::same_bytes;
use crate::code::{nop_fill, nops};
use crate::sig::{
    first_word, index_views, last_word, matches_are_all_places, matches_before, matches_of, next_word,
    only_place_is_the_match, pattern_at, pattern_of, Sig,
};
use crate::text::{dec_text, hex_text, push_dec, push_hex, with_hex};

verus! {

/// The Windows x64 signatures.
pub open spec fn windows_sigs() -> Seq<Sig> {
    seq![
        Sig {
            name: "win64 CheckJumpButton #1",
            pat: "80 B9 50 14 00 00 00  0F 85 ?? ?? ?? ??  48 8B 43 10  F6 40 28 02  0F 85 ?? ?? ?? ??",
            at: 21,
            len: 6,
        },
        Sig {
            name: "win64 CheckJumpButton #2",
            pat: "48 8B 05 ?? ?? ?? ??  48 8D 73 10  83 78 58 00  75 ??  48 8B 06  F6 40 28 02  75 ??",
            at: 24,
            len: 2,
        },
    ]
}

/// The Linux signatures: two for each word size.
pub open spec fn linux_sigs() -> Seq<Sig> {
    seq![
        Sig {
            name: "linux64 CheckJumpButton #1",
            pat: "80 B8 48 14 00 00 00  0F 85 ?? FF FF FF  48 8B 53 10  F6 42 28 02  0F 85 ?? FF FF FF",
            at: 21,
            len: 6,
        },
        Sig {
            name: "linux64 CheckJumpButton #2",
            pat: "8B 50 58  85 D2  75 ??  49 8B 44 24 10  F6 40 28 02  0F 85 ?? FF FF FF",
            at: 16,
            len: 6,
        },
        Sig {
            name: "linux32 CheckJumpButton #1",
            pat: "80 B8 A4 0F 00 00 00  0F 85 ?? FF FF FF  8B 53 08  F6 42 28 02  0F 85 ?? FF FF FF",
            at: 20,
            len: 6,
        },
        Sig {
            name: "linux32 CheckJumpButton #2",
            pat: "8B 50 30  85 D2  75 ??  8B 43 08  F6 40 28 02  0F 85 ?? FF FF FF",
            at: 14,
            len: 6,
        },
    ]
}

/// The Windows x64 signatures.
pub fn windows_signatures() -> (r: Vec<Sig>)
    ensures
        r@ == windows_sigs(),
{
    let mut r: Vec<Sig> = Vec::new();
    r.push(
        Sig {
            name: "win64 CheckJumpButton #1",
            pat: "80 B9 50 14 00 00 00  0F 85 ?? ?? ?? ??  48 8B 43 10  F6 40 28 02  0F 85 ?? ?? ?? ??",
            at: 21,
            len: 6,
        },
    );
    r.push(
        Sig {
            name: "win64 CheckJumpButton #2",
            pat: "48 8B 05 ?? ?? ?? ??  48 8D 73 10  83 78 58 00  75 ??  48 8B 06  F6 40 28 02  75 ??",
            at: 24,
            len: 2,
        },
    );
    assert(r@ =~= windows_sigs());
    r
}

/// The Linux signatures.
pub fn linux_signatures() -> (r: Vec<Sig>)
    ensures
        r@ == linux_sigs(),
{
    let mut r: Vec<Sig> = Vec::new();
    r.push(
        Sig {
            name: "linux64 CheckJumpButton #1",
            pat: "80 B8 48 14 00 00 00  0F 85 ?? FF FF FF  48 8B 53 10  F6 42 28 02  0F 85 ?? FF FF FF",
            at: 21,
            len: 6,
        },
    );
    r.push(
        Sig {
            name: "linux64 CheckJumpButton #2",
            pat: "8B 50 58  85 D2  75 ??  49 8B 44 24 10  F6 40 28 02  0F 85 ?? FF FF FF",
            at: 16,
            len: 6,
        },
    );
    r.push(
        Sig {
            name: "linux32 CheckJumpButton #1",
            pat: "80 B8 A4 0F 00 00 00  0F 85 ?? FF FF FF  8B 53 08  F6 42 28 02  0F 85 ?? FF FF FF",
            at: 20,
            len: 6,
        },
    );
    r.push(
        Sig {
            name: "linux32 CheckJumpButton #2",
            pat: "8B 50 30  85 D2  75 ??  8B 43 08  F6 40 28 02  0F 85 ?? FF FF FF",
            at: 14,
            len: 6,
        },
    );
    assert(r@ =~= linux_sigs());
    r
}

/// The pattern of a signature whose patch window lies inside its match.
pub open spec fn sig_pattern(s: Sig) -> Option<Seq<Option<u8>>> {
    match pattern_of(s.pat@) {
        Some(p) => if s.at + s.len <= p.len() {
            Some(p)
        } else {
            None
        },
        None => None,
    }
}

/// The matches of one signature, each with the signature's index.
pub open spec fn sig_hits(s: Sig, index: int, buf: Seq<u8>) -> Seq<(int, int)> {
    match sig_pattern(s) {
        Some(p) => Seq::new(
            matches_of(p, buf).len(),
            |i: int| (index, matches_of(p, buf)[i]),
        ),
        None => Seq::empty(),
    }
}

/// The matches of the first `n` signatures. A malformed one has none.
pub open spec fn scanned(sigs: Seq<Sig>, buf: Seq<u8>, n: int) -> Seq<(int, int)>
    decreases n,
{
    if n <= 0 {
        Seq::empty()
    } else {
        scanned(sigs, buf, n - 1) + sig_hits(sigs[n - 1], n - 1, buf)
    }
}

/// Hits as integers.
pub open spec fn hit_views(v: Seq<(usize, usize)>) -> Seq<(int, int)> {
    Seq::new(v.len(), |i: int| (v[i].0 as int, v[i].1 as int))
}

/// Every hit of a scan names a signature and a place where its patch window
/// fits.
pub open spec fn hits_fit(sigs: Seq<Sig>, buf: Seq<u8>, hits: Seq<(int, int)>) -> bool {
    forall|i: int|
        0 <= i < hits.len() ==> 0 <= (#[trigger] hits[i]).0 < sigs.len() && 0 <= hits[i].1
            && hits[i].1 + sigs[hits[i].0].at + sigs[hits[i].0].len <= buf.len()
}

/// Every match lies in the buffer.
pub proof fn matches_fit(p: Seq<Option<u8>>, buf: Seq<u8>, n: int)
    ensures
        forall|i: int|
            0 <= i < matches_before(p, buf, n).len() ==> 0
                <= #[trigger] matches_before(p, buf, n)[i]
                && matches_before(p, buf, n)[i] + p.len() <= buf.len(),
    decreases n,
{
    if n > 0 {
        matches_fit(p, buf, n - 1);
        let all = matches_before(p, buf, n);
        assert forall|i: int| 0 <= i < all.len() implies 0 <= #[trigger] all[i] && all[i]
            + p.len() <= buf.len() by {
            if i < matches_before(p, buf, n - 1).len() {
                assert(all[i] == matches_before(p, buf, n - 1)[i]);
            }
        }
    }
}

/// Scans for every signature: the index of the signature and the offset of the
/// match, signature by signature.
fn scan_for(sigs: &[Sig], buf: &[u8]) -> (r: Vec<(usize, usize)>)
    ensures
        hit_views(r@) == scanned(sigs@, buf@, sigs@.len() as int),
        hits_fit(sigs@, buf@, hit_views(r@)),
{
    let mut out: Vec<(usize, usize)> = Vec::new();
    let mut i: usize = 0;
    assert(hit_views(out@) =~= Seq::empty());
    while i < sigs.len()
        invariant
            i <= sigs.len(),
            hit_views(out@) == scanned(sigs@, buf@, i as int),
            hits_fit(sigs@, buf@, hit_views(out@)),
        decreases sigs.len() - i,
    {
        let ghost before = hit_views(out@);
        let s: Sig = sigs[i];
        match s.pattern() {
            Some(p) => {
                let found: Vec<usize> = p.find_all(buf);
                proof {
                    matches_fit(p@, buf@, buf@.len() as int);
                }
                let mut k: usize = 0;
                assert(before + sig_hits(s, i as int, buf@).take(0) =~= before);
                while k < found.len()
                    invariant
                        k <= found.len(),
                        i < sigs.len(),
                        s == sigs@[i as int],
                        sig_pattern(s) == Some(p@),
                        s.at + s.len <= p@.len(),
                        index_views(found@) == matches_of(p@, buf@),
                        hit_views(out@) == before + sig_hits(s, i as int, buf@).take(k as int),
                        hits_fit(sigs@, buf@, hit_views(out@)),
                        forall|j: int|
                            0 <= j < matches_of(p@, buf@).len() ==> 0 <= #[trigger] matches_of(
                                p@,
                                buf@,
                            )[j] && matches_of(p@, buf@)[j] + p@.len() <= buf@.len(),
                    decreases found.len() - k,
                {
                    let ghost so_far = hit_views(out@);
                    out.push((i, found[k]));
                    proof {
                        let hs = sig_hits(s, i as int, buf@);
                        assert(index_views(found@)[k as int] == found@[k as int]);
                        assert(hs[k as int] == (i as int, found@[k as int] as int));
                        assert(hs.take(k + 1) =~= hs.take(k as int).push(hs[k as int]));
                        assert(hit_views(out@) =~= so_far.push((i as int, found@[k as int] as int)));
                        assert(hit_views(out@) =~= before + hs.take(k + 1));
                        let views = hit_views(out@);
                        assert forall|j: int| 0 <= j < views.len() implies 0 <= (
                        #[trigger] views[j]).0 < sigs@.len() && 0 <= views[j].1 && views[j].1
                            + sigs@[views[j].0].at + sigs@[views[j].0].len <= buf@.len() by {
                            if j < before.len() + k {
                                assert(views[j] == (before + hs.take(k as int))[j]);
                            } else {
                                assert(matches_of(p@, buf@)[k as int] == found@[k as int]);
                            }
                        }
                    }
                    k = k + 1;
                }
                proof {
                    let hs = sig_hits(s, i as int, buf@);
                    assert(hs.take(found@.len() as int) =~= hs);
                }
            },
            None => {
                assert(sig_pattern(s) is None);
                assert(hit_views(out@) =~= before + sig_hits(s, i as int, buf@));
            },
        }
        i = i + 1;
    }
    out
}

/// Scans for every Linux signature: the index of the signature and the offset
/// of the match, signature by signature.
pub fn scan(buf: &[u8]) -> (r: Vec<(usize, usize)>)
    ensures
        hit_views(r@) == scanned(linux_sigs(), buf@, 4),
        hits_fit(linux_sigs(), buf@, hit_views(r@)),
{
    let sigs: Vec<Sig> = linux_signatures();
    scan_for(sigs.as_slice(), buf)
}

/// A branch to patch in the Linux client.
#[derive(Clone, Copy)]
pub struct LinuxSite {
    pub name: &'static str,
    pub addr: u64,
    pub len: usize,
}

/// The places where a signature matches. A malformed one has none.
pub open spec fn sig_places(s: Sig, buf: Seq<u8>) -> Seq<int> {
    match sig_pattern(s) {
        Some(p) => matches_of(p, buf),
        None => Seq::empty(),
    }
}

/// The branch behind a match in an image loaded at `base`.
pub open spec fn site_at(base: int, s: Sig, place: int) -> LinuxSite {
    LinuxSite { name: s.name, addr: (base + place + s.at) as u64, len: s.len }
}

/// Said of a signature that does not match exactly once.
pub open spec fn count_text(s: Sig, count: int) -> Seq<char> {
    s.name@ + " matched "@ + dec_text(count) + " times; expected exactly one"@
}

/// The branches to patch in an image read at `base`: that behind each x86-64
/// signature, which has to match exactly once.
pub open spec fn discovered(base: int, buf: Seq<u8>) -> Result<Seq<LinuxSite>, Seq<char>> {
    let first = linux_sigs()[0];
    let second = linux_sigs()[1];
    let a = sig_places(first, buf);
    let b = sig_places(second, buf);
    if a.len() == 0 && b.len() == 0 {
        Err("no signatures matched (game updated? already patched?)"@)
    } else if a.len() != 1 {
        Err(count_text(first, a.len() as int))
    } else if b.len() != 1 {
        Err(count_text(second, b.len() as int))
    } else {
        Ok(seq![site_at(base, first, a[0]), site_at(base, second, b[0])])
    }
}

/// The places where a signature matches.
fn places(s: &Sig, buf: &[u8]) -> (r: Vec<usize>)
    ensures
        index_views(r@) == sig_places(*s, buf@),
        forall|i: int|
            0 <= i < r@.len() ==> (#[trigger] r@[i]) + s.at + s.len <= buf@.len(),
{
    match s.pattern() {
        Some(p) => {
            let found: Vec<usize> = p.find_all(buf);
            proof {
                matches_fit(p@, buf@, buf@.len() as int);
                assert forall|i: int| 0 <= i < found@.len() implies (#[trigger] found@[i]) + s.at
                    + s.len <= buf@.len() by {
                    assert(index_views(found@)[i] == found@[i]);
                    assert(matches_of(p@, buf@)[i] == found@[i]);
                }
            }
            found
        },
        None => {
            let none: Vec<usize> = Vec::new();
            assert(index_views(none@) =~= Seq::empty());
            none
        },
    }
}

/// Says that a signature does not match exactly once.
fn count_fault(s: &Sig, count: usize) -> (r: String)
    ensures
        r@ == count_text(*s, count as int),
{
    let mut text: String = s.name.to_owned();
    text.append(" matched ");
    push_dec(&mut text, count as u64);
    text.append(" times; expected exactly one");
    text
}

/// The branches to patch in an image read at `base`: both, or none.
pub fn discover(base: u64, buf: &[u8]) -> (r: Result<Vec<LinuxSite>, String>)
    requires
        base + buf.len() <= u64::MAX,
    ensures
        match r {
            Ok(sites) => discovered(base as int, buf@) == Ok::<Seq<LinuxSite>, Seq<char>>(sites@)
                && (forall|i: int|
                0 <= i < sites@.len() ==> base <= (#[trigger] sites@[i]).addr && sites@[i].addr
                    + sites@[i].len <= base + buf@.len()),
            Err(e) => discovered(base as int, buf@) == Err::<Seq<LinuxSite>, Seq<char>>(e@),
        },
{
    let sigs: Vec<Sig> = linux_signatures();
    let first: Sig = sigs[0];
    let second: Sig = sigs[1];
    let a: Vec<usize> = places(&first, buf);
    let b: Vec<usize> = places(&second, buf);
    assert(index_views(a@).len() == a@.len());
    assert(index_views(b@).len() == b@.len());
    if a.len() == 0 && b.len() == 0 {
        return Err("no signatures matched (game updated? already patched?)".to_owned());
    }
    if a.len() != 1 {
        return Err(count_fault(&first, a.len()));
    }
    if b.len() != 1 {
        return Err(count_fault(&second, b.len()));
    }
    assert(index_views(a@)[0] == a@[0] && index_views(b@)[0] == b@[0]);
    let mut sites: Vec<LinuxSite> = Vec::new();
    sites.push(
        LinuxSite { name: first.name, addr: base + a[0] as u64 + first.at as u64, len: first.len },
    );
    sites.push(
        LinuxSite {
            name: second.name,
            addr: base + b[0] as u64 + second.at as u64,
            len: second.len,
        },
    );
    assert(sites@ =~= discovered(base as int, buf@)->Ok_0);
    Ok(sites)
}

/// Executable page protections.
pub const PAGE_EXECUTE: u32 = 0x10;

pub const PAGE_EXECUTE_READ: u32 = 0x20;

pub const PAGE_EXECUTE_READWRITE: u32 = 0x40;

pub const PAGE_EXECUTE_WRITECOPY: u32 = 0x80;

/// A page protection that allows execution.
pub open spec fn is_executable(protect: u32) -> bool {
    let low = protect & 0xff;
    low == PAGE_EXECUTE || low == PAGE_EXECUTE_READ || low == PAGE_EXECUTE_READWRITE || low
        == PAGE_EXECUTE_WRITECOPY
}

/// What a query of the page at `addr` means: its protection, if it is
/// executable. `queried` is what the system said, or its error.
pub open spec fn executable(addr: int, queried: Result<u32, u32>) -> Result<u32, Seq<char>> {
    match queried {
        Err(e) => Err(
            "VirtualQueryEx failed at 0x"@ + hex_text(addr) + " ("@ + dec_text(e as int) + ")"@,
        ),
        Ok(p) => if is_executable(p) {
            Ok(p)
        } else {
            Err(
                "0x"@ + hex_text(addr) + " is not in executable memory (protection 0x"@
                    + hex_text(p as int) + ")"@,
            )
        },
    }
}

/// A protection or what is wrong with it, as a value.
pub open spec fn protection_view(r: Result<u32, String>) -> Result<u32, Seq<char>> {
    match r {
        Ok(p) => Ok(p),
        Err(e) => Err(e@),
    }
}

/// What a query of the page at `addr` means: its protection, if it is
/// executable.
pub fn protection(addr: u64, queried: Result<u32, u32>) -> (r: Result<u32, String>)
    ensures
        protection_view(r) == executable(addr as int, queried),
{
    match queried {
        Err(e) => {
            let mut text: String = with_hex("VirtualQueryEx failed at 0x", addr, " (");
            push_dec(&mut text, e as u64);
            text.append(")");
            Err(text)
        },
        Ok(p) => {
            let low: u32 = p & 0xff;
            if low == PAGE_EXECUTE || low == PAGE_EXECUTE_READ || low == PAGE_EXECUTE_READWRITE
                || low == PAGE_EXECUTE_WRITECOPY {
                Ok(p)
            } else {
                let mut text: String = with_hex(
                    "0x",
                    addr,
                    " is not in executable memory (protection 0x",
                );
                push_hex(&mut text, p as u64);
                text.append(")");
                Err(text)
            }
        },
    }
}

/// A branch to patch, what stands there, what is to stand there, and the
/// protection of its page.
pub struct PatchSite {
    pub name: &'static str,
    pub addr: u64,
    pub original: Vec<u8>,
    pub replacement: Vec<u8>,
    pub protection: u32,
}

/// The value of a `PatchSite`.
#[verifier::ext_equal]
pub struct SiteView {
    pub name: Seq<char>,
    pub addr: int,
    pub original: Seq<u8>,
    pub replacement: Seq<u8>,
    pub protection: u32,
}

impl View for PatchSite {
    type V = SiteView;

    open spec fn view(&self) -> SiteView {
        SiteView {
            name: self.name@,
            addr: self.addr as int,
            original: self.original@,
            replacement: self.replacement@,
            protection: self.protection,
        }
    }
}

/// The values of a list of sites.
pub open spec fn site_views(v: Seq<PatchSite>) -> Seq<SiteView> {
    Seq::new(v.len(), |i: int| v[i]@)
}

/// The branch at these bytes is one that the patch may overwrite: a near or a
/// short `jne`.
pub open spec fn is_branch(b: Seq<u8>) -> bool {
    ||| b.len() >= 2 && b[0] == 0x0f && b[1] == 0x85
    ||| b.len() == 2 && b[0] == 0x75
}

/// Where a signature's branch stands in an image read at `base`, and its
/// bytes: the signature has to match once, on a branch.
pub open spec fn branch_of(s: Sig, code: Seq<u8>, base: int) -> Result<(int, Seq<u8>), Seq<char>> {
    match sig_pattern(s) {
        None => Err("signature \""@ + s.name@ + "\" is malformed"@),
        Some(p) => {
            let ms = matches_of(p, code);
            let at = ms[0] + s.at;
            if ms.len() != 1 {
                Err(
                    s.name@ + " matched "@ + dec_text(ms.len() as int)
                        + " times; expected exactly one"@,
                )
            } else if !is_branch(code.subrange(at, at + s.len)) {
                Err(s.name@ + " branch opcode changed"@)
            } else if base + at > u64::MAX {
                Err(s.name@ + " address overflowed"@)
            } else {
                Ok((base + at, code.subrange(at, at + s.len)))
            }
        },
    }
}

/// A branch or what is wrong with it, as a value.
pub open spec fn branch_view(r: Result<(u64, Vec<u8>), String>) -> Result<
    (int, Seq<u8>),
    Seq<char>,
> {
    match r {
        Ok((addr, b)) => Ok((addr as int, b@)),
        Err(e) => Err(e@),
    }
}

/// A name and what is said of it.
fn about(name: &str, text: &str) -> (r: String)
    ensures
        r@ == name@ + text@,
{
    let mut out: String = name.to_owned();
    out.append(text);
    out
}

/// Where a signature's branch stands in an image read at `base`, and its
/// bytes.
pub fn find_branch(s: &Sig, code: &[u8], base: u64) -> (r: Result<(u64, Vec<u8>), String>)
    ensures
        branch_view(r) == branch_of(*s, code@, base as int),
{
    match s.pattern() {
        None => {
            let mut text: String = about("signature \"", s.name);
            text.append("\" is malformed");
            Err(text)
        },
        Some(p) => {
            let found: Vec<usize> = p.find_all(code);
            assert(index_views(found@).len() == found@.len());
            if found.len() != 1 {
                let mut text: String = about(s.name, " matched ");
                push_dec(&mut text, found.len() as u64);
                text.append(" times; expected exactly one");
                return Err(text);
            }
            assert(index_views(found@)[0] == found@[0]);
            assert(found@.contains(found@[0]));
            // The length of the code is a machine word.
            let size: usize = code.len();
            let at: usize = found[0] + s.at;
            let original: &[u8] = vstd::slice::slice_subrange(code, at, at + s.len);
            let near: bool = original.len() >= 2 && original[0] == 0x0f && original[1] == 0x85;
            let short: bool = original.len() == 2 && original[0] == 0x75;
            if !near && !short {
                return Err(about(s.name, " branch opcode changed"));
            }
            match base.checked_add(at as u64) {
                None => Err(about(s.name, " address overflowed")),
                Some(addr) => Ok((addr, vstd::slice::slice_to_vec(original))),
            }
        },
    }
}

/// What was learnt of a found branch: its live bytes, and its page's
/// protection.
pub struct Probe {
    pub live: Option<Vec<u8>>,
    pub protection: Result<u32, String>,
}

/// The value of a `Probe`.
pub struct ProbeView {
    pub live: Option<Seq<u8>>,
    pub protection: Result<u32, Seq<char>>,
}

/// Bytes that may be missing, as a value.
pub open spec fn bytes_view(v: Option<Vec<u8>>) -> Option<Seq<u8>> {
    match v {
        Some(b) => Some(b@),
        None => None,
    }
}

impl View for Probe {
    type V = ProbeView;

    open spec fn view(&self) -> ProbeView {
        ProbeView {
            live: bytes_view(self.live),
            protection: protection_view(self.protection),
        }
    }
}

/// The values of a list of probes.
pub open spec fn probe_views(v: Seq<Probe>) -> Seq<ProbeView> {
    Seq::new(v.len(), |i: int| v[i]@)
}

/// The site of a signature: its branch, if the live bytes are still those that
/// were read, on an executable page.
pub open spec fn site_of(s: Sig, code: Seq<u8>, base: int, probe: ProbeView) -> Result<
    SiteView,
    Seq<char>,
> {
    match branch_of(s, code, base) {
        Err(e) => Err(e),
        Ok((addr, original)) => if probe.live != Some(original) {
            Err(s.name@ + " live bytes changed during discovery"@)
        } else {
            match probe.protection {
                Err(e) => Err(e),
                Ok(protection) => Ok(
                    SiteView {
                        name: s.name@,
                        addr,
                        original,
                        replacement: nops(original.len()),
                        protection,
                    },
                ),
            }
        },
    }
}

/// The sites of the first `n` signatures, or the first error.
pub open spec fn sites_of(
    sigs: Seq<Sig>,
    code: Seq<u8>,
    base: int,
    probes: Seq<ProbeView>,
    n: int,
) -> Result<Seq<SiteView>, Seq<char>>
    decreases n,
{
    if n <= 0 {
        Ok(Seq::empty())
    } else {
        match sites_of(sigs, code, base, probes, n - 1) {
            Err(e) => Err(e),
            Ok(sites) => match site_of(sigs[n - 1], code, base, probes[n - 1]) {
                Err(e) => Err(e),
                Ok(site) => Ok(sites.push(site)),
            },
        }
    }
}

/// Both Windows sites, or the first thing that is wrong.
pub open spec fn windows_sites(code: Seq<u8>, base: int, probes: Seq<ProbeView>) -> Result<
    Seq<SiteView>,
    Seq<char>,
> {
    match sites_of(windows_sigs(), code, base, probes, 2) {
        Err(e) => Err(e),
        Ok(sites) => if sites[0].addr == sites[1].addr {
            Err("CheckJumpButton signatures resolved to the same branch"@)
        } else {
            Ok(sites)
        },
    }
}

/// Sites or what is wrong with them, as a value.
pub open spec fn found_view(r: Result<Vec<PatchSite>, String>) -> Result<
    Seq<SiteView>,
    Seq<char>,
> {
    match r {
        Ok(v) => Ok(site_views(v@)),
        Err(e) => Err(e@),
    }
}

/// The site of a signature.
fn find_site(s: &Sig, code: &[u8], base: u64, probe: &Probe) -> (r: Result<PatchSite, String>)
    ensures
        match r {
            Ok(site) => site_of(*s, code@, base as int, probe@) == Ok::<SiteView, Seq<char>>(
                site@,
            ),
            Err(e) => site_of(*s, code@, base as int, probe@) == Err::<SiteView, Seq<char>>(e@),
        },
{
    match find_branch(s, code, base) {
        Err(e) => Err(e),
        Ok((addr, original)) => {
            let same: bool = match &probe.live {
                Some(live) => same_bytes(live.as_slice(), original.as_slice()),
                None => false,
            };
            if !same {
                return Err(about(s.name, " live bytes changed during discovery"));
            }
            match &probe.protection {
                Err(e) => Err(e.clone()),
                Ok(protection) => {
                    let replacement: Vec<u8> = nop_fill(original.len());
                    Ok(
                        PatchSite {
                            name: s.name,
                            addr,
                            original,
                            replacement,
                            protection: *protection,
                        },
                    )
                },
            }
        },
    }
}

/// Finds both branches of the Windows client in an image read at `base`.
/// `probes` holds what was learnt of each branch that `find_branch` found.
pub fn find_sites(code: &[u8], base: u64, probes: &[Probe]) -> (r: Result<Vec<PatchSite>, String>)
    requires
        probes.len() == 2,
    ensures
        found_view(r) == windows_sites(code@, base as int, probe_views(probes@)),
{
    let sigs: Vec<Sig> = windows_signatures();
    let mut sites: Vec<PatchSite> = Vec::new();
    let mut i: usize = 0;
    let ghost goal = sites_of(windows_sigs(), code@, base as int, probe_views(probes@), 2);
    assert(site_views(sites@) =~= Seq::empty());
    proof {
        reveal_with_fuel(sites_of, 3);
    }
    while i < 2
        invariant
            i <= 2,
            probes.len() == 2,
            sigs@ == windows_sigs(),
            sites@.len() == i,
            goal == sites_of(windows_sigs(), code@, base as int, probe_views(probes@), 2),
            sites_of(windows_sigs(), code@, base as int, probe_views(probes@), i as int) == Ok::<
                Seq<SiteView>,
                Seq<char>,
            >(site_views(sites@)),
        decreases 2 - i,
    {
        let ghost before = site_views(sites@);
        proof {
            reveal_with_fuel(sites_of, 3);
            assert(probe_views(probes@)[i as int] == probes@[i as int]@);
        }
        match find_site(&sigs[i], code, base, &probes[i]) {
            Err(e) => {
                return Err(e);
            },
            Ok(site) => {
                sites.push(site);
                assert(site_views(sites@) =~= before.push(site@));
            },
        }
        i = i + 1;
    }
    assert(site_views(sites@)[0] == sites@[0]@);
    assert(site_views(sites@)[1] == sites@[1]@);
    if sites[0].addr == sites[1].addr {
        return Err("CheckJumpButton signatures resolved to the same branch".to_owned());
    }
    Ok(sites)
}

/// A byte test of bit 2 at displacement 28h of a register ends at `k`: the test
/// of `m_nOldButtons & IN_JUMP`.
pub open spec fn held_jump_test(code: Seq<u8>, k: int) -> bool {
    &&& 4 <= k <= code.len()
    &&& code[k - 4] == 0xf6
    &&& code[k - 3] == 0x40 || code[k - 3] == 0x42
    &&& code[k - 2] == 0x28
    &&& code[k - 1] == 0x02
}

/// A whole `jne` of `len` bytes stands at `k`: a near one has six, a short one
/// two.
pub open spec fn whole_jne(code: Seq<u8>, k: int, len: int) -> bool {
    &&& 0 <= k
    &&& k + len <= code.len()
    &&& (len == 6 && code[k] == 0x0f && code[k + 1] == 0x85) || (len == 2 && code[k] == 0x75)
}

/// At `i` stands `cmp byte [rcx+1450h], 0`, `jne`, `mov rax, [rbx+10h]`,
/// `test byte [rax+28h], 2`, `jne`.
pub open spec fn first_windows_copy(code: Seq<u8>, i: int) -> bool {
    &&& 0 <= i
    &&& i + 27 <= code.len()
    &&& code[i] == 0x80
    &&& code[i + 1] == 0xb9
    &&& code[i + 2] == 0x50
    &&& code[i + 3] == 0x14
    &&& code[i + 4] == 0x00
    &&& code[i + 5] == 0x00
    &&& code[i + 6] == 0x00
    &&& code[i + 7] == 0x0f
    &&& code[i + 8] == 0x85
    &&& code[i + 13] == 0x48
    &&& code[i + 14] == 0x8b
    &&& code[i + 15] == 0x43
    &&& code[i + 16] == 0x10
    &&& code[i + 17] == 0xf6
    &&& code[i + 18] == 0x40
    &&& code[i + 19] == 0x28
    &&& code[i + 20] == 0x02
    &&& code[i + 21] == 0x0f
    &&& code[i + 22] == 0x85
}

proof fn first_windows_copy_is(code: Seq<u8>, i: int)
    ensures
        sig_pattern(windows_sigs()[0]) is Some,
        sig_pattern(windows_sigs()[0])->0.len() == 27,
        pattern_at(sig_pattern(windows_sigs()[0])->0, code, i) <==> first_windows_copy(code, i),
{
    reveal_strlit("80 B9 50 14 00 00 00  0F 85 ?? ?? ?? ??  48 8B 43 10  F6 40 28 02  0F 85 ?? ?? ?? ??");
    let text = "80 B9 50 14 00 00 00  0F 85 ?? ?? ?? ??  48 8B 43 10  F6 40 28 02  0F 85 ?? ?? ?? ??"@;
    first_word(text);
    next_word(text, 0, 0, 3, Some(0x80));
    next_word(text, 1, 3, 6, Some(0xb9));
    next_word(text, 2, 6, 9, Some(0x50));
    next_word(text, 3, 9, 12, Some(0x14));
    next_word(text, 4, 12, 15, Some(0x00));
    next_word(text, 5, 15, 18, Some(0x00));
    next_word(text, 6, 18, 22, Some(0x00));
    next_word(text, 7, 22, 25, Some(0x0f));
    next_word(text, 8, 25, 28, Some(0x85));
    next_word(text, 9, 28, 31, None);
    next_word(text, 10, 31, 34, None);
    next_word(text, 11, 34, 37, None);
    next_word(text, 12, 37, 41, None);
    next_word(text, 13, 41, 44, Some(0x48));
    next_word(text, 14, 44, 47, Some(0x8b));
    next_word(text, 15, 47, 50, Some(0x43));
    next_word(text, 16, 50, 54, Some(0x10));
    next_word(text, 17, 54, 57, Some(0xf6));
    next_word(text, 18, 57, 60, Some(0x40));
    next_word(text, 19, 60, 63, Some(0x28));
    next_word(text, 20, 63, 67, Some(0x02));
    next_word(text, 21, 67, 70, Some(0x0f));
    next_word(text, 22, 70, 73, Some(0x85));
    next_word(text, 23, 73, 76, None);
    next_word(text, 24, 76, 79, None);
    next_word(text, 25, 79, 82, None);
    next_word(text, 26, 82, 84, None);
    last_word(text, 27);
    assert(windows_sigs()[0].pat@ == text);
    let p = sig_pattern(windows_sigs()[0])->0;
    assert(p == pattern_of(text)->0);
    assert(p[0] == Some(0x80u8));
    assert(p[1] == Some(0xb9u8));
    assert(p[2] == Some(0x50u8));
    assert(p[3] == Some(0x14u8));
    assert(p[4] == Some(0x00u8));
    assert(p[5] == Some(0x00u8));
    assert(p[6] == Some(0x00u8));
    assert(p[7] == Some(0x0fu8));
    assert(p[8] == Some(0x85u8));
    assert(p[9] is None);
    assert(p[10] is None);
    assert(p[11] is None);
    assert(p[12] is None);
    assert(p[13] == Some(0x48u8));
    assert(p[14] == Some(0x8bu8));
    assert(p[15] == Some(0x43u8));
    assert(p[16] == Some(0x10u8));
    assert(p[17] == Some(0xf6u8));
    assert(p[18] == Some(0x40u8));
    assert(p[19] == Some(0x28u8));
    assert(p[20] == Some(0x02u8));
    assert(p[21] == Some(0x0fu8));
    assert(p[22] == Some(0x85u8));
    assert(p[23] is None);
    assert(p[24] is None);
    assert(p[25] is None);
    assert(p[26] is None);
    if first_windows_copy(code, i) {
        assert forall|j: int| 0 <= j < 27 implies #[trigger] p[j] is None || p[j] == Some(
            code[i + j],
        ) by {
            assert(j == 0 || j == 1 || j == 2 || j == 3 || j == 4 || j == 5 || j == 6 || j == 7 || j == 8 || j == 9 || j == 10 || j == 11 || j == 12 || j == 13 || j == 14 || j == 15 || j == 16 || j == 17 || j == 18 || j == 19 || j == 20 || j == 21 || j == 22 || j == 23 || j == 24 || j == 25 || j == 26);
        }
    }
}

/// At `i` stands `mov rax, [..]`, `lea rsi, [rbx+10h]`, `cmp dword [rax+58h], 0`, a short
/// `jne`, `mov rax, [rsi]`, `test byte [rax+28h], 2`, a short `jne`.
pub open spec fn second_windows_copy(code: Seq<u8>, i: int) -> bool {
    &&& 0 <= i
    &&& i + 26 <= code.len()
    &&& code[i] == 0x48
    &&& code[i + 1] == 0x8b
    &&& code[i + 2] == 0x05
    &&& code[i + 7] == 0x48
    &&& code[i + 8] == 0x8d
    &&& code[i + 9] == 0x73
    &&& code[i + 10] == 0x10
    &&& code[i + 11] == 0x83
    &&& code[i + 12] == 0x78
    &&& code[i + 13] == 0x58
    &&& code[i + 14] == 0x00
    &&& code[i + 15] == 0x75
    &&& code[i + 17] == 0x48
    &&& code[i + 18] == 0x8b
    &&& code[i + 19] == 0x06
    &&& code[i + 20] == 0xf6
    &&& code[i + 21] == 0x40
    &&& code[i + 22] == 0x28
    &&& code[i + 23] == 0x02
    &&& code[i + 24] == 0x75
}

proof fn second_windows_copy_is(code: Seq<u8>, i: int)
    ensures
        sig_pattern(windows_sigs()[1]) is Some,
        sig_pattern(windows_sigs()[1])->0.len() == 26,
        pattern_at(sig_pattern(windows_sigs()[1])->0, code, i) <==> second_windows_copy(code, i),
{
    reveal_strlit("48 8B 05 ?? ?? ?? ??  48 8D 73 10  83 78 58 00  75 ??  48 8B 06  F6 40 28 02  75 ??");
    let text = "48 8B 05 ?? ?? ?? ??  48 8D 73 10  83 78 58 00  75 ??  48 8B 06  F6 40 28 02  75 ??"@;
    first_word(text);
    next_word(text, 0, 0, 3, Some(0x48));
    next_word(text, 1, 3, 6, Some(0x8b));
    next_word(text, 2, 6, 9, Some(0x05));
    next_word(text, 3, 9, 12, None);
    next_word(text, 4, 12, 15, None);
    next_word(text, 5, 15, 18, None);
    next_word(text, 6, 18, 22, None);
    next_word(text, 7, 22, 25, Some(0x48));
    next_word(text, 8, 25, 28, Some(0x8d));
    next_word(text, 9, 28, 31, Some(0x73));
    next_word(text, 10, 31, 35, Some(0x10));
    next_word(text, 11, 35, 38, Some(0x83));
    next_word(text, 12, 38, 41, Some(0x78));
    next_word(text, 13, 41, 44, Some(0x58));
    next_word(text, 14, 44, 48, Some(0x00));
    next_word(text, 15, 48, 51, Some(0x75));
    next_word(text, 16, 51, 55, None);
    next_word(text, 17, 55, 58, Some(0x48));
    next_word(text, 18, 58, 61, Some(0x8b));
    next_word(text, 19, 61, 65, Some(0x06));
    next_word(text, 20, 65, 68, Some(0xf6));
    next_word(text, 21, 68, 71, Some(0x40));
    next_word(text, 22, 71, 74, Some(0x28));
    next_word(text, 23, 74, 78, Some(0x02));
    next_word(text, 24, 78, 81, Some(0x75));
    next_word(text, 25, 81, 83, None);
    last_word(text, 26);
    assert(windows_sigs()[1].pat@ == text);
    let p = sig_pattern(windows_sigs()[1])->0;
    assert(p == pattern_of(text)->0);
    assert(p[0] == Some(0x48u8));
    assert(p[1] == Some(0x8bu8));
    assert(p[2] == Some(0x05u8));
    assert(p[3] is None);
    assert(p[4] is None);
    assert(p[5] is None);
    assert(p[6] is None);
    assert(p[7] == Some(0x48u8));
    assert(p[8] == Some(0x8du8));
    assert(p[9] == Some(0x73u8));
    assert(p[10] == Some(0x10u8));
    assert(p[11] == Some(0x83u8));
    assert(p[12] == Some(0x78u8));
    assert(p[13] == Some(0x58u8));
    assert(p[14] == Some(0x00u8));
    assert(p[15] == Some(0x75u8));
    assert(p[16] is None);
    assert(p[17] == Some(0x48u8));
    assert(p[18] == Some(0x8bu8));
    assert(p[19] == Some(0x06u8));
    assert(p[20] == Some(0xf6u8));
    assert(p[21] == Some(0x40u8));
    assert(p[22] == Some(0x28u8));
    assert(p[23] == Some(0x02u8));
    assert(p[24] == Some(0x75u8));
    assert(p[25] is None);
    if second_windows_copy(code, i) {
        assert forall|j: int| 0 <= j < 26 implies #[trigger] p[j] is None || p[j] == Some(
            code[i + j],
        ) by {
            assert(j == 0 || j == 1 || j == 2 || j == 3 || j == 4 || j == 5 || j == 6 || j == 7 || j == 8 || j == 9 || j == 10 || j == 11 || j == 12 || j == 13 || j == 14 || j == 15 || j == 16 || j == 17 || j == 18 || j == 19 || j == 20 || j == 21 || j == 22 || j == 23 || j == 24 || j == 25);
        }
    }
}

/// At `i` stands `cmpb $0, 0x1448(%rax)`, `jne` backwards, `mov 0x10(%rbx), %rdx`,
/// `testb $2, 0x28(%rdx)`, `jne` backwards.
pub open spec fn first_linux_copy(code: Seq<u8>, i: int) -> bool {
    &&& 0 <= i
    &&& i + 27 <= code.len()
    &&& code[i] == 0x80
    &&& code[i + 1] == 0xb8
    &&& code[i + 2] == 0x48
    &&& code[i + 3] == 0x14
    &&& code[i + 4] == 0x00
    &&& code[i + 5] == 0x00
    &&& code[i + 6] == 0x00
    &&& code[i + 7] == 0x0f
    &&& code[i + 8] == 0x85
    &&& code[i + 10] == 0xff
    &&& code[i + 11] == 0xff
    &&& code[i + 12] == 0xff
    &&& code[i + 13] == 0x48
    &&& code[i + 14] == 0x8b
    &&& code[i + 15] == 0x53
    &&& code[i + 16] == 0x10
    &&& code[i + 17] == 0xf6
    &&& code[i + 18] == 0x42
    &&& code[i + 19] == 0x28
    &&& code[i + 20] == 0x02
    &&& code[i + 21] == 0x0f
    &&& code[i + 22] == 0x85
    &&& code[i + 24] == 0xff
    &&& code[i + 25] == 0xff
    &&& code[i + 26] == 0xff
}

proof fn first_linux_copy_is(code: Seq<u8>, i: int)
    ensures
        sig_pattern(linux_sigs()[0]) is Some,
        sig_pattern(linux_sigs()[0])->0.len() == 27,
        pattern_at(sig_pattern(linux_sigs()[0])->0, code, i) <==> first_linux_copy(code, i),
{
    reveal_strlit("80 B8 48 14 00 00 00  0F 85 ?? FF FF FF  48 8B 53 10  F6 42 28 02  0F 85 ?? FF FF FF");
    let text = "80 B8 48 14 00 00 00  0F 85 ?? FF FF FF  48 8B 53 10  F6 42 28 02  0F 85 ?? FF FF FF"@;
    first_word(text);
    next_word(text, 0, 0, 3, Some(0x80));
    next_word(text, 1, 3, 6, Some(0xb8));
    next_word(text, 2, 6, 9, Some(0x48));
    next_word(text, 3, 9, 12, Some(0x14));
    next_word(text, 4, 12, 15, Some(0x00));
    next_word(text, 5, 15, 18, Some(0x00));
    next_word(text, 6, 18, 22, Some(0x00));
    next_word(text, 7, 22, 25, Some(0x0f));
    next_word(text, 8, 25, 28, Some(0x85));
    next_word(text, 9, 28, 31, None);
    next_word(text, 10, 31, 34, Some(0xff));
    next_word(text, 11, 34, 37, Some(0xff));
    next_word(text, 12, 37, 41, Some(0xff));
    next_word(text, 13, 41, 44, Some(0x48));
    next_word(text, 14, 44, 47, Some(0x8b));
    next_word(text, 15, 47, 50, Some(0x53));
    next_word(text, 16, 50, 54, Some(0x10));
    next_word(text, 17, 54, 57, Some(0xf6));
    next_word(text, 18, 57, 60, Some(0x42));
    next_word(text, 19, 60, 63, Some(0x28));
    next_word(text, 20, 63, 67, Some(0x02));
    next_word(text, 21, 67, 70, Some(0x0f));
    next_word(text, 22, 70, 73, Some(0x85));
    next_word(text, 23, 73, 76, None);
    next_word(text, 24, 76, 79, Some(0xff));
    next_word(text, 25, 79, 82, Some(0xff));
    next_word(text, 26, 82, 84, Some(0xff));
    last_word(text, 27);
    assert(linux_sigs()[0].pat@ == text);
    let p = sig_pattern(linux_sigs()[0])->0;
    assert(p == pattern_of(text)->0);
    assert(p[0] == Some(0x80u8));
    assert(p[1] == Some(0xb8u8));
    assert(p[2] == Some(0x48u8));
    assert(p[3] == Some(0x14u8));
    assert(p[4] == Some(0x00u8));
    assert(p[5] == Some(0x00u8));
    assert(p[6] == Some(0x00u8));
    assert(p[7] == Some(0x0fu8));
    assert(p[8] == Some(0x85u8));
    assert(p[9] is None);
    assert(p[10] == Some(0xffu8));
    assert(p[11] == Some(0xffu8));
    assert(p[12] == Some(0xffu8));
    assert(p[13] == Some(0x48u8));
    assert(p[14] == Some(0x8bu8));
    assert(p[15] == Some(0x53u8));
    assert(p[16] == Some(0x10u8));
    assert(p[17] == Some(0xf6u8));
    assert(p[18] == Some(0x42u8));
    assert(p[19] == Some(0x28u8));
    assert(p[20] == Some(0x02u8));
    assert(p[21] == Some(0x0fu8));
    assert(p[22] == Some(0x85u8));
    assert(p[23] is None);
    assert(p[24] == Some(0xffu8));
    assert(p[25] == Some(0xffu8));
    assert(p[26] == Some(0xffu8));
    if first_linux_copy(code, i) {
        assert forall|j: int| 0 <= j < 27 implies #[trigger] p[j] is None || p[j] == Some(
            code[i + j],
        ) by {
            assert(j == 0 || j == 1 || j == 2 || j == 3 || j == 4 || j == 5 || j == 6 || j == 7 || j == 8 || j == 9 || j == 10 || j == 11 || j == 12 || j == 13 || j == 14 || j == 15 || j == 16 || j == 17 || j == 18 || j == 19 || j == 20 || j == 21 || j == 22 || j == 23 || j == 24 || j == 25 || j == 26);
        }
    }
}

/// At `i` stands `mov 0x58(%rax), %edx`, `test %edx, %edx`, a short `jne`,
/// `mov 0x10(%r12), %rax`, `testb $2, 0x28(%rax)`, `jne` backwards.
pub open spec fn second_linux_copy(code: Seq<u8>, i: int) -> bool {
    &&& 0 <= i
    &&& i + 22 <= code.len()
    &&& code[i] == 0x8b
    &&& code[i + 1] == 0x50
    &&& code[i + 2] == 0x58
    &&& code[i + 3] == 0x85
    &&& code[i + 4] == 0xd2
    &&& code[i + 5] == 0x75
    &&& code[i + 7] == 0x49
    &&& code[i + 8] == 0x8b
    &&& code[i + 9] == 0x44
    &&& code[i + 10] == 0x24
    &&& code[i + 11] == 0x10
    &&& code[i + 12] == 0xf6
    &&& code[i + 13] == 0x40
    &&& code[i + 14] == 0x28
    &&& code[i + 15] == 0x02
    &&& code[i + 16] == 0x0f
    &&& code[i + 17] == 0x85
    &&& code[i + 19] == 0xff
    &&& code[i + 20] == 0xff
    &&& code[i + 21] == 0xff
}

proof fn second_linux_copy_is(code: Seq<u8>, i: int)
    ensures
        sig_pattern(linux_sigs()[1]) is Some,
        sig_pattern(linux_sigs()[1])->0.len() == 22,
        pattern_at(sig_pattern(linux_sigs()[1])->0, code, i) <==> second_linux_copy(code, i),
{
    reveal_strlit("8B 50 58  85 D2  75 ??  49 8B 44 24 10  F6 40 28 02  0F 85 ?? FF FF FF");
    let text = "8B 50 58  85 D2  75 ??  49 8B 44 24 10  F6 40 28 02  0F 85 ?? FF FF FF"@;
    first_word(text);
    next_word(text, 0, 0, 3, Some(0x8b));
    next_word(text, 1, 3, 6, Some(0x50));
    next_word(text, 2, 6, 10, Some(0x58));
    next_word(text, 3, 10, 13, Some(0x85));
    next_word(text, 4, 13, 17, Some(0xd2));
    next_word(text, 5, 17, 20, Some(0x75));
    next_word(text, 6, 20, 24, None);
    next_word(text, 7, 24, 27, Some(0x49));
    next_word(text, 8, 27, 30, Some(0x8b));
    next_word(text, 9, 30, 33, Some(0x44));
    next_word(text, 10, 33, 36, Some(0x24));
    next_word(text, 11, 36, 40, Some(0x10));
    next_word(text, 12, 40, 43, Some(0xf6));
    next_word(text, 13, 43, 46, Some(0x40));
    next_word(text, 14, 46, 49, Some(0x28));
    next_word(text, 15, 49, 53, Some(0x02));
    next_word(text, 16, 53, 56, Some(0x0f));
    next_word(text, 17, 56, 59, Some(0x85));
    next_word(text, 18, 59, 62, None);
    next_word(text, 19, 62, 65, Some(0xff));
    next_word(text, 20, 65, 68, Some(0xff));
    next_word(text, 21, 68, 70, Some(0xff));
    last_word(text, 22);
    assert(linux_sigs()[1].pat@ == text);
    let p = sig_pattern(linux_sigs()[1])->0;
    assert(p == pattern_of(text)->0);
    assert(p[0] == Some(0x8bu8));
    assert(p[1] == Some(0x50u8));
    assert(p[2] == Some(0x58u8));
    assert(p[3] == Some(0x85u8));
    assert(p[4] == Some(0xd2u8));
    assert(p[5] == Some(0x75u8));
    assert(p[6] is None);
    assert(p[7] == Some(0x49u8));
    assert(p[8] == Some(0x8bu8));
    assert(p[9] == Some(0x44u8));
    assert(p[10] == Some(0x24u8));
    assert(p[11] == Some(0x10u8));
    assert(p[12] == Some(0xf6u8));
    assert(p[13] == Some(0x40u8));
    assert(p[14] == Some(0x28u8));
    assert(p[15] == Some(0x02u8));
    assert(p[16] == Some(0x0fu8));
    assert(p[17] == Some(0x85u8));
    assert(p[18] is None);
    assert(p[19] == Some(0xffu8));
    assert(p[20] == Some(0xffu8));
    assert(p[21] == Some(0xffu8));
    if second_linux_copy(code, i) {
        assert forall|j: int| 0 <= j < 22 implies #[trigger] p[j] is None || p[j] == Some(
            code[i + j],
        ) by {
            assert(j == 0 || j == 1 || j == 2 || j == 3 || j == 4 || j == 5 || j == 6 || j == 7 || j == 8 || j == 9 || j == 10 || j == 11 || j == 12 || j == 13 || j == 14 || j == 15 || j == 16 || j == 17 || j == 18 || j == 19 || j == 20 || j == 21);
        }
    }
}

/// At `i` stands `cmpb $0, 0xfa4(%eax)`, `jne` backwards, `mov 8(%ebx), %edx`,
/// `testb $2, 0x28(%edx)`, `jne` backwards.
pub open spec fn first_linux32_copy(code: Seq<u8>, i: int) -> bool {
    &&& 0 <= i
    &&& i + 26 <= code.len()
    &&& code[i] == 0x80
    &&& code[i + 1] == 0xb8
    &&& code[i + 2] == 0xa4
    &&& code[i + 3] == 0x0f
    &&& code[i + 4] == 0x00
    &&& code[i + 5] == 0x00
    &&& code[i + 6] == 0x00
    &&& code[i + 7] == 0x0f
    &&& code[i + 8] == 0x85
    &&& code[i + 10] == 0xff
    &&& code[i + 11] == 0xff
    &&& code[i + 12] == 0xff
    &&& code[i + 13] == 0x8b
    &&& code[i + 14] == 0x53
    &&& code[i + 15] == 0x08
    &&& code[i + 16] == 0xf6
    &&& code[i + 17] == 0x42
    &&& code[i + 18] == 0x28
    &&& code[i + 19] == 0x02
    &&& code[i + 20] == 0x0f
    &&& code[i + 21] == 0x85
    &&& code[i + 23] == 0xff
    &&& code[i + 24] == 0xff
    &&& code[i + 25] == 0xff
}

proof fn first_linux32_copy_is(code: Seq<u8>, i: int)
    ensures
        sig_pattern(linux_sigs()[2]) is Some,
        sig_pattern(linux_sigs()[2])->0.len() == 26,
        pattern_at(sig_pattern(linux_sigs()[2])->0, code, i) <==> first_linux32_copy(code, i),
{
    reveal_strlit("80 B8 A4 0F 00 00 00  0F 85 ?? FF FF FF  8B 53 08  F6 42 28 02  0F 85 ?? FF FF FF");
    let text = "80 B8 A4 0F 00 00 00  0F 85 ?? FF FF FF  8B 53 08  F6 42 28 02  0F 85 ?? FF FF FF"@;
    first_word(text);
    next_word(text, 0, 0, 3, Some(0x80));
    next_word(text, 1, 3, 6, Some(0xb8));
    next_word(text, 2, 6, 9, Some(0xa4));
    next_word(text, 3, 9, 12, Some(0x0f));
    next_word(text, 4, 12, 15, Some(0x00));
    next_word(text, 5, 15, 18, Some(0x00));
    next_word(text, 6, 18, 22, Some(0x00));
    next_word(text, 7, 22, 25, Some(0x0f));
    next_word(text, 8, 25, 28, Some(0x85));
    next_word(text, 9, 28, 31, None);
    next_word(text, 10, 31, 34, Some(0xff));
    next_word(text, 11, 34, 37, Some(0xff));
    next_word(text, 12, 37, 41, Some(0xff));
    next_word(text, 13, 41, 44, Some(0x8b));
    next_word(text, 14, 44, 47, Some(0x53));
    next_word(text, 15, 47, 51, Some(0x08));
    next_word(text, 16, 51, 54, Some(0xf6));
    next_word(text, 17, 54, 57, Some(0x42));
    next_word(text, 18, 57, 60, Some(0x28));
    next_word(text, 19, 60, 64, Some(0x02));
    next_word(text, 20, 64, 67, Some(0x0f));
    next_word(text, 21, 67, 70, Some(0x85));
    next_word(text, 22, 70, 73, None);
    next_word(text, 23, 73, 76, Some(0xff));
    next_word(text, 24, 76, 79, Some(0xff));
    next_word(text, 25, 79, 81, Some(0xff));
    last_word(text, 26);
    assert(linux_sigs()[2].pat@ == text);
    let p = sig_pattern(linux_sigs()[2])->0;
    assert(p == pattern_of(text)->0);
    assert(p[0] == Some(0x80u8));
    assert(p[1] == Some(0xb8u8));
    assert(p[2] == Some(0xa4u8));
    assert(p[3] == Some(0x0fu8));
    assert(p[4] == Some(0x00u8));
    assert(p[5] == Some(0x00u8));
    assert(p[6] == Some(0x00u8));
    assert(p[7] == Some(0x0fu8));
    assert(p[8] == Some(0x85u8));
    assert(p[9] is None);
    assert(p[10] == Some(0xffu8));
    assert(p[11] == Some(0xffu8));
    assert(p[12] == Some(0xffu8));
    assert(p[13] == Some(0x8bu8));
    assert(p[14] == Some(0x53u8));
    assert(p[15] == Some(0x08u8));
    assert(p[16] == Some(0xf6u8));
    assert(p[17] == Some(0x42u8));
    assert(p[18] == Some(0x28u8));
    assert(p[19] == Some(0x02u8));
    assert(p[20] == Some(0x0fu8));
    assert(p[21] == Some(0x85u8));
    assert(p[22] is None);
    assert(p[23] == Some(0xffu8));
    assert(p[24] == Some(0xffu8));
    assert(p[25] == Some(0xffu8));
    if first_linux32_copy(code, i) {
        assert forall|j: int| 0 <= j < 26 implies #[trigger] p[j] is None || p[j] == Some(
            code[i + j],
        ) by {
            assert(j == 0 || j == 1 || j == 2 || j == 3 || j == 4 || j == 5 || j == 6 || j == 7 || j == 8 || j == 9 || j == 10 || j == 11 || j == 12 || j == 13 || j == 14 || j == 15 || j == 16 || j == 17 || j == 18 || j == 19 || j == 20 || j == 21 || j == 22 || j == 23 || j == 24 || j == 25);
        }
    }
}

/// At `i` stands `mov 0x30(%eax), %edx`, `test %edx, %edx`, a short `jne`,
/// `mov 8(%ebx), %eax`, `testb $2, 0x28(%eax)`, `jne` backwards.
pub open spec fn second_linux32_copy(code: Seq<u8>, i: int) -> bool {
    &&& 0 <= i
    &&& i + 20 <= code.len()
    &&& code[i] == 0x8b
    &&& code[i + 1] == 0x50
    &&& code[i + 2] == 0x30
    &&& code[i + 3] == 0x85
    &&& code[i + 4] == 0xd2
    &&& code[i + 5] == 0x75
    &&& code[i + 7] == 0x8b
    &&& code[i + 8] == 0x43
    &&& code[i + 9] == 0x08
    &&& code[i + 10] == 0xf6
    &&& code[i + 11] == 0x40
    &&& code[i + 12] == 0x28
    &&& code[i + 13] == 0x02
    &&& code[i + 14] == 0x0f
    &&& code[i + 15] == 0x85
    &&& code[i + 17] == 0xff
    &&& code[i + 18] == 0xff
    &&& code[i + 19] == 0xff
}

proof fn second_linux32_copy_is(code: Seq<u8>, i: int)
    ensures
        sig_pattern(linux_sigs()[3]) is Some,
        sig_pattern(linux_sigs()[3])->0.len() == 20,
        pattern_at(sig_pattern(linux_sigs()[3])->0, code, i) <==> second_linux32_copy(code, i),
{
    reveal_strlit("8B 50 30  85 D2  75 ??  8B 43 08  F6 40 28 02  0F 85 ?? FF FF FF");
    let text = "8B 50 30  85 D2  75 ??  8B 43 08  F6 40 28 02  0F 85 ?? FF FF FF"@;
    first_word(text);
    next_word(text, 0, 0, 3, Some(0x8b));
    next_word(text, 1, 3, 6, Some(0x50));
    next_word(text, 2, 6, 10, Some(0x30));
    next_word(text, 3, 10, 13, Some(0x85));
    next_word(text, 4, 13, 17, Some(0xd2));
    next_word(text, 5, 17, 20, Some(0x75));
    next_word(text, 6, 20, 24, None);
    next_word(text, 7, 24, 27, Some(0x8b));
    next_word(text, 8, 27, 30, Some(0x43));
    next_word(text, 9, 30, 34, Some(0x08));
    next_word(text, 10, 34, 37, Some(0xf6));
    next_word(text, 11, 37, 40, Some(0x40));
    next_word(text, 12, 40, 43, Some(0x28));
    next_word(text, 13, 43, 47, Some(0x02));
    next_word(text, 14, 47, 50, Some(0x0f));
    next_word(text, 15, 50, 53, Some(0x85));
    next_word(text, 16, 53, 56, None);
    next_word(text, 17, 56, 59, Some(0xff));
    next_word(text, 18, 59, 62, Some(0xff));
    next_word(text, 19, 62, 64, Some(0xff));
    last_word(text, 20);
    assert(linux_sigs()[3].pat@ == text);
    let p = sig_pattern(linux_sigs()[3])->0;
    assert(p == pattern_of(text)->0);
    assert(p[0] == Some(0x8bu8));
    assert(p[1] == Some(0x50u8));
    assert(p[2] == Some(0x30u8));
    assert(p[3] == Some(0x85u8));
    assert(p[4] == Some(0xd2u8));
    assert(p[5] == Some(0x75u8));
    assert(p[6] is None);
    assert(p[7] == Some(0x8bu8));
    assert(p[8] == Some(0x43u8));
    assert(p[9] == Some(0x08u8));
    assert(p[10] == Some(0xf6u8));
    assert(p[11] == Some(0x40u8));
    assert(p[12] == Some(0x28u8));
    assert(p[13] == Some(0x02u8));
    assert(p[14] == Some(0x0fu8));
    assert(p[15] == Some(0x85u8));
    assert(p[16] is None);
    assert(p[17] == Some(0xffu8));
    assert(p[18] == Some(0xffu8));
    assert(p[19] == Some(0xffu8));
    if second_linux32_copy(code, i) {
        assert forall|j: int| 0 <= j < 20 implies #[trigger] p[j] is None || p[j] == Some(
            code[i + j],
        ) by {
            assert(j == 0 || j == 1 || j == 2 || j == 3 || j == 4 || j == 5 || j == 6 || j == 7 || j == 8 || j == 9 || j == 10 || j == 11 || j == 12 || j == 13 || j == 14 || j == 15 || j == 16 || j == 17 || j == 18 || j == 19);
        }
    }
}

proof fn first_match_is_place(p: Seq<Option<u8>>, code: Seq<u8>)
    requires
        p.len() > 0,
        matches_of(p, code).len() > 0,
    ensures
        pattern_at(p, code, matches_of(p, code)[0]),
{
    assert(matches_of(p, code).contains(matches_of(p, code)[0]));
    matches_are_all_places(p, code, matches_of(p, code)[0]);
}

/// What the patch overwrites on Windows: every site is a whole `jne` that
/// stands right behind the test of the held jump, its bytes are those of the
/// image, and as many NOPs are to replace them.
pub proof fn windows_sites_follow_the_test(
    code: Seq<u8>,
    base: int,
    probes: Seq<ProbeView>,
    k: int,
)
    requires
        windows_sites(code, base, probes) is Ok,
        0 <= k < windows_sites(code, base, probes)->Ok_0.len(),
    ensures
        windows_sites(code, base, probes)->Ok_0.len() == 2,
        windows_sites(code, base, probes)->Ok_0[0].addr != windows_sites(
            code,
            base,
            probes,
        )->Ok_0[1].addr,
        ({
            let site = windows_sites(code, base, probes)->Ok_0[k];
            let at = site.addr - base;
            let len = site.original.len() as int;
            &&& held_jump_test(code, at)
            &&& whole_jne(code, at, len)
            &&& site.original == code.subrange(at, at + len)
            &&& site.replacement.len() == len
            &&& forall|j: int| 0 <= j < len ==> #[trigger] site.replacement[j] == 0x90
        }),
{
    reveal_with_fuel(sites_of, 3);
    let s = windows_sigs()[k];
    let p = sig_pattern(s)->0;
    first_windows_copy_is(code, 0);
    second_windows_copy_is(code, 0);
    first_match_is_place(p, code);
    let at = matches_of(p, code)[0];
    first_windows_copy_is(code, at);
    second_windows_copy_is(code, at);
}

/// Where each copy of the test stands once in the image, on a page that may be
/// executed, with the bytes still in place, both branches are found: the first
/// 21 bytes into its copy, the second 24.
pub proof fn windows_copies_are_found(
    code: Seq<u8>,
    base: int,
    probes: Seq<ProbeView>,
    i: int,
    j: int,
)
    requires
        first_windows_copy(code, i),
        forall|x: int| first_windows_copy(code, x) ==> x == i,
        second_windows_copy(code, j),
        forall|x: int| second_windows_copy(code, x) ==> x == j,
        i + 21 != j + 24,
        0 <= base,
        base + code.len() <= u64::MAX,
        probes.len() == 2,
        probes[0].live == Some(code.subrange(i + 21, i + 27)),
        probes[1].live == Some(code.subrange(j + 24, j + 26)),
        probes[0].protection is Ok,
        probes[1].protection is Ok,
    ensures
        windows_sites(code, base, probes) matches Ok(sites) && sites.len() == 2 && sites[0].addr
            == base + i + 21 && sites[1].addr == base + j + 24 && sites[0].original.len() == 6
            && sites[1].original.len() == 2 && sites[0].protection == probes[0].protection->Ok_0
            && sites[1].protection == probes[1].protection->Ok_0,
{
    reveal_with_fuel(sites_of, 3);
    let p = sig_pattern(windows_sigs()[0])->0;
    let q = sig_pattern(windows_sigs()[1])->0;
    first_windows_copy_is(code, i);
    second_windows_copy_is(code, j);
    assert forall|x: int| pattern_at(p, code, x) implies x == i by {
        first_windows_copy_is(code, x);
    }
    assert forall|x: int| pattern_at(q, code, x) implies x == j by {
        second_windows_copy_is(code, x);
    }
    only_place_is_the_match(p, code, i);
    only_place_is_the_match(q, code, j);
    assert(code.subrange(i + 21, i + 27)[0] == code[i + 21]);
    assert(code.subrange(i + 21, i + 27)[1] == code[i + 22]);
    assert(code.subrange(j + 24, j + 26)[0] == code[j + 24]);
}

/// What the patch overwrites on Linux: every site is a whole `jne` that stands
/// right behind the test of the held jump.
pub proof fn linux_sites_follow_the_test(base: int, buf: Seq<u8>, k: int)
    requires
        0 <= base,
        base + buf.len() <= u64::MAX,
        discovered(base, buf) is Ok,
        0 <= k < discovered(base, buf)->Ok_0.len(),
    ensures
        discovered(base, buf)->Ok_0.len() == 2,
        ({
            let site = discovered(base, buf)->Ok_0[k];
            let at = site.addr - base;
            held_jump_test(buf, at) && whole_jne(buf, at, site.len as int)
        }),
{
    let s = linux_sigs()[k];
    let p = sig_pattern(s)->0;
    first_linux_copy_is(buf, 0);
    second_linux_copy_is(buf, 0);
    first_match_is_place(p, buf);
    let at = matches_of(p, buf)[0];
    first_linux_copy_is(buf, at);
    second_linux_copy_is(buf, at);
}

/// Where each copy of the test stands once in the image both branches are
/// found: the first 21 bytes into its copy, the second 16.
pub proof fn linux_copies_are_found(base: int, buf: Seq<u8>, i: int, j: int)
    requires
        0 <= base,
        base + buf.len() <= u64::MAX,
        first_linux_copy(buf, i),
        forall|x: int| first_linux_copy(buf, x) ==> x == i,
        second_linux_copy(buf, j),
        forall|x: int| second_linux_copy(buf, x) ==> x == j,
    ensures
        discovered(base, buf) matches Ok(sites) && sites.len() == 2 && sites[0].addr == base + i
            + 21 && sites[1].addr == base + j + 16 && sites[0].len == 6 && sites[1].len == 6,
{
    let p = sig_pattern(linux_sigs()[0])->0;
    let q = sig_pattern(linux_sigs()[1])->0;
    first_linux_copy_is(buf, i);
    second_linux_copy_is(buf, j);
    assert forall|x: int| pattern_at(p, buf, x) implies x == i by {
        first_linux_copy_is(buf, x);
    }
    assert forall|x: int| pattern_at(q, buf, x) implies x == j by {
        second_linux_copy_is(buf, x);
    }
    only_place_is_the_match(p, buf, i);
    only_place_is_the_match(q, buf, j);
}

/// Both or neither: where a copy of the test is missing, or stands twice, no
/// branch is found at all.
pub proof fn half_a_patch_is_none(base: int, buf: Seq<u8>, probes: Seq<ProbeView>, a: int, b: int)
    requires
        a != b,
    ensures
        (forall|x: int| !first_linux_copy(buf, x)) || (forall|x: int| !second_linux_copy(buf, x))
            ==> discovered(base, buf) is Err,
        first_linux_copy(buf, a) && first_linux_copy(buf, b) ==> discovered(base, buf) is Err,
        second_linux_copy(buf, a) && second_linux_copy(buf, b) ==> discovered(base, buf) is Err,
        (forall|x: int| !first_windows_copy(buf, x)) || (forall|x: int|
            !second_windows_copy(buf, x)) ==> windows_sites(buf, base, probes) is Err,
        first_windows_copy(buf, a) && first_windows_copy(buf, b) ==> windows_sites(
            buf,
            base,
            probes,
        ) is Err,
        second_windows_copy(buf, a) && second_windows_copy(buf, b) ==> windows_sites(
            buf,
            base,
            probes,
        ) is Err,
{
    reveal_with_fuel(sites_of, 3);
    first_linux_copy_is(buf, a);
    first_linux_copy_is(buf, b);
    second_linux_copy_is(buf, a);
    second_linux_copy_is(buf, b);
    first_windows_copy_is(buf, a);
    first_windows_copy_is(buf, b);
    second_windows_copy_is(buf, a);
    second_windows_copy_is(buf, b);
    let p1 = sig_pattern(linux_sigs()[0])->0;
    let p2 = sig_pattern(linux_sigs()[1])->0;
    let p3 = sig_pattern(windows_sigs()[0])->0;
    let p4 = sig_pattern(windows_sigs()[1])->0;
    two_places(p1, buf, a, b);
    two_places(p2, buf, a, b);
    two_places(p3, buf, a, b);
    two_places(p4, buf, a, b);
    if matches_of(p1, buf).len() > 0 {
        first_match_is_place(p1, buf);
        first_linux_copy_is(buf, matches_of(p1, buf)[0]);
    }
    if matches_of(p2, buf).len() > 0 {
        first_match_is_place(p2, buf);
        second_linux_copy_is(buf, matches_of(p2, buf)[0]);
    }
    if matches_of(p3, buf).len() > 0 {
        first_match_is_place(p3, buf);
        first_windows_copy_is(buf, matches_of(p3, buf)[0]);
    }
    if matches_of(p4, buf).len() > 0 {
        first_match_is_place(p4, buf);
        second_windows_copy_is(buf, matches_of(p4, buf)[0]);
    }
}

proof fn two_places(p: Seq<Option<u8>>, code: Seq<u8>, a: int, b: int)
    requires
        p.len() > 0,
        a != b,
    ensures
        pattern_at(p, code, a) && pattern_at(p, code, b) ==> matches_of(p, code).len() > 1,
{
    matches_are_all_places(p, code, a);
    matches_are_all_places(p, code, b);
}

/// What the scan of the Linux client lists: each hit names the copy that stands
/// there, and every copy of either word size is listed.
pub proof fn scan_lists_the_copies(buf: Seq<u8>, x: int)
    ensures
        scanned(linux_sigs(), buf, 4).contains((0, x)) <==> first_linux_copy(buf, x),
        scanned(linux_sigs(), buf, 4).contains((1, x)) <==> second_linux_copy(buf, x),
        scanned(linux_sigs(), buf, 4).contains((2, x)) <==> first_linux32_copy(buf, x),
        scanned(linux_sigs(), buf, 4).contains((3, x)) <==> second_linux32_copy(buf, x),
{
    first_linux_copy_is(buf, x);
    second_linux_copy_is(buf, x);
    first_linux32_copy_is(buf, x);
    second_linux32_copy_is(buf, x);
    scanned_holds(linux_sigs(), buf, 4, 0, x);
    scanned_holds(linux_sigs(), buf, 4, 1, x);
    scanned_holds(linux_sigs(), buf, 4, 2, x);
    scanned_holds(linux_sigs(), buf, 4, 3, x);
}

proof fn scanned_holds(sigs: Seq<Sig>, buf: Seq<u8>, n: int, k: int, x: int)
    requires
        0 <= k < sigs.len(),
        n <= sigs.len(),
        sig_pattern(sigs[k]) is Some,
        sig_pattern(sigs[k])->0.len() > 0,
    ensures
        scanned(sigs, buf, n).contains((k, x)) <==> k < n && pattern_at(
            sig_pattern(sigs[k])->0,
            buf,
            x,
        ),
    decreases n,
{
    if n > 0 {
        scanned_holds(sigs, buf, n - 1, k, x);
        let a = scanned(sigs, buf, n - 1);
        let b = sig_hits(sigs[n - 1], n - 1, buf);
        let ms = matches_of(sig_pattern(sigs[k])->0, buf);
        matches_are_all_places(sig_pattern(sigs[k])->0, buf, x);
        if (a + b).contains((k, x)) {
            let i = choose|i: int| 0 <= i < (a + b).len() && (a + b)[i] == (k, x);
            if i < a.len() {
                assert(a[i] == (k, x));
            } else {
                assert(b[i - a.len()] == (k, x));
                if k == n - 1 {
                    assert(ms[i - a.len()] == x);
                }
            }
        }
        if a.contains((k, x)) {
            let i = choose|i: int| 0 <= i < a.len() && a[i] == (k, x);
            assert((a + b)[i] == (k, x));
        }
        if k == n - 1 && ms.contains(x) {
            let i = choose|i: int| 0 <= i < ms.len() && ms[i] == x;
            assert(b[i] == (k, x));
            assert((a + b)[a.len() + i] == (k, x));
        }
    } else {
        assert(!scanned(sigs, buf, n).contains((k, x)));
    }
}

/// A page may be executed where its protection, but for modifiers, is one of
/// the four that allow it; then that protection is taken, and else refused.
pub proof fn executable_pages_are_told(addr: int, p: u32)
    ensures
        executable(addr, Ok(p)) == Ok::<u32, Seq<char>>(p) <==> p % 256 == 0x10 || p % 256 == 0x20
            || p % 256 == 0x40 || p % 256 == 0x80,
        executable(addr, Ok(p)) is Ok ==> executable(addr, Ok(p)) == Ok::<u32, Seq<char>>(p),
        executable(addr, Err(p)) is Err,
{
    assert(p & 0xff == p % 256) by (bit_vector);
}

} // verus!
