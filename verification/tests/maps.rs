//! Map versions, map names, fetching maps, and unpacking what a map packs.
use std::io::Write;

use bunnyhopfix::casewatch::{WatchList, WatchPhase, WatchReply, Watcher, MAX_WATCHED, PATIENCE};
use bunnyhopfix::checksums::{
    checksum_row, hex_bytes, is_stale, load_csv, lookup_md5, lookup_md5_windows, valid_csv,
};
use bunnyhopfix::join::on_serverinfo;
use bunnyhopfix::mapfetch::{
    check_map, decompress_bz2, file_matches_sha1, judge, Fetch, FetchPhase, FetchReply, MapFault,
    Platform,
};
use bunnyhopfix::mapname::{
    detect_mapname, game_dir, map_name, plausible_map_name, rd_cstr, read_cstring, Field,
};
use bunnyhopfix::pakfix::{
    bsp_magic, extract_stored, find_eocd, fix_bsp, map_file, pak_lump, sane_name, sweep,
    EntryError, MapReport, Outcome, PakError,
};
use bunnyhopfix::procfs::parse_maps;
use bunnyhopfix::refresh::{curl_to, good, record_options, Refresh, RefreshReply};

const CSV: &str = "sha1,lump_md5_checksum\r\n\
    0123456789abcdef0123456789abcdef01234567,ABCDEF0123456789ABCDEF0123456789\r\n\
    ../map,abcdef0123456789abcdef0123456789\n";

#[test]
fn checksum_rows_reject_untrusted_hashes() {
    assert_eq!(
        lookup_md5(CSV, "abcdef0123456789abcdef0123456789").as_deref(),
        Some("0123456789abcdef0123456789abcdef01234567")
    );
    assert!(checksum_row("../map,abcdef0123456789abcdef0123456789").is_none());
}

#[test]
fn checksum_lookup_accepts_crlf_and_matches_case_insensitively() {
    let csv = "sha1,lump_md5_checksum\r\n\
        0123456789abcdef0123456789abcdef01234567,ABCDEF0123456789ABCDEF0123456789\r\n";
    assert_eq!(
        lookup_md5_windows(csv, "abcdef0123456789abcdef0123456789").as_deref(),
        Some("0123456789abcdef0123456789abcdef01234567")
    );
    assert_eq!(
        lookup_md5_windows(csv, "00000000000000000000000000000000"),
        None
    );
}

#[test]
fn pure_rust_bzip2_path_produces_a_valid_bsp() {
    let mut encoder = bzip2::write::BzEncoder::new(Vec::new(), bzip2::Compression::best());
    encoder.write_all(b"VBSPtest payload").unwrap();
    let packed = encoder.finish().unwrap();

    let data = decompress_bz2(&packed).unwrap();
    assert!(bsp_magic(&data));
    assert_eq!(data, b"VBSPtest payload");
    assert!(file_matches_sha1(
        &data,
        "b97b83cb9447e881cb70994d2cc9d6052082c849"
    ));
    assert!(!file_matches_sha1(
        &data,
        "0000000000000000000000000000000000000000"
    ));
}

#[test]
fn damaged_archives_are_not_unpacked() {
    assert_eq!(decompress_bz2(b"VBSPtest payload"), None);
    let mut encoder = bzip2::write::BzEncoder::new(Vec::new(), bzip2::Compression::best());
    encoder.write_all(b"VBSPtest payload").unwrap();
    let packed = encoder.finish().unwrap();
    assert_eq!(decompress_bz2(&packed[..packed.len() - 8]), None);
}

#[test]
fn a_map_is_judged_by_its_kind_and_its_hash() {
    let sha1 = "b97b83cb9447e881cb70994d2cc9d6052082c849";
    assert_eq!(check_map(b"VBSPtest payload", sha1), None);
    assert_eq!(check_map(b"VBSPtest payloads", sha1), Some(MapFault::WrongHash));
    assert_eq!(check_map(b"XBSPtest payload", sha1), Some(MapFault::NotBsp));
    assert_eq!(judge(b"VBSP", &[0xab; 20], &"ab".repeat(20)), None);
    assert_eq!(judge(b"VBSP", &[0xab; 20], &"AB".repeat(20)), None);
    assert_eq!(
        judge(b"VBSP", &[0xab; 20], &"ac".repeat(20)),
        Some(MapFault::WrongHash)
    );
}

#[test]
fn the_sha1_of_nothing_is_the_known_one() {
    assert!(file_matches_sha1(b"", "da39a3ee5e6b4b0d3255bfef95601890afd80709"));
    assert_eq!(hex_bytes(&[0x00, 0x0f, 0xa5, 0xff]), "000fa5ff");
}

#[test]
fn lists_are_checked_before_use() {
    assert!(valid_csv(CSV));
    assert!(!valid_csv("sha1,lump_md5_checksum\n"));
    assert!(!load_csv(CSV), "too short for Windows");
    let mut long = CSV.to_string();
    while long.len() < 1024 {
        long.push_str("x,y\n");
    }
    assert!(load_csv(&long));
    assert!(good(Platform::Linux, CSV) && !good(Platform::Windows, CSV));
    assert!(!is_stale(Some(129_600)));
    assert!(is_stale(Some(129_601)));
    assert!(is_stale(None));
}

fn told(r: (Refresh, Option<String>)) -> (Refresh, String) {
    (r.0, r.1.unwrap_or_default())
}

#[test]
fn a_fresh_list_is_only_read() {
    let (at, line) = told(Refresh::Age.step(Platform::Linux, RefreshReply::Age(Some(5))));
    assert!(matches!(at, Refresh::Read) && line.is_empty());
    let (at, _) = at.step(Platform::Linux, RefreshReply::Content(Some(CSV.to_string())));
    match at {
        Refresh::Done(Some(csv)) => assert_eq!(csv, CSV),
        _ => panic!("the list is good"),
    }
}

#[test]
fn a_bad_download_never_replaces_the_list() {
    let (at, line) = told(Refresh::Age.step(Platform::Linux, RefreshReply::Age(None)));
    assert_eq!(line, "downloading lump_checksums.csv from fastdl.me (~4MB)...");
    let (at, _) = at.step(Platform::Linux, RefreshReply::Fetched(true));
    let (at, line) = told(at.step(
        Platform::Linux,
        RefreshReply::Content(Some("<html>".to_string())),
    ));
    assert!(matches!(at, Refresh::Discard));
    assert_eq!(line, "fastdl.me csv download failed or returned invalid data");
    let (at, _) = at.step(Platform::Linux, RefreshReply::Finished(None));
    let (at, _) = at.step(Platform::Linux, RefreshReply::Content(None));
    assert!(matches!(at, Refresh::Done(None)));
}

#[test]
fn a_good_download_replaces_the_list() {
    let at = Refresh::Judge;
    let (at, _) = at.step(
        Platform::Linux,
        RefreshReply::Content(Some(CSV.to_string())),
    );
    assert!(matches!(at, Refresh::Install));
    let (at, _) = at.step(
        Platform::Linux,
        RefreshReply::Finished(Some("denied".to_string())),
    );
    assert!(matches!(at, Refresh::Read));
    let (at, line) = told(Refresh::Install.step(
        Platform::Windows,
        RefreshReply::Finished(Some("denied".to_string())),
    ));
    assert!(matches!(at, Refresh::Discard));
    assert_eq!(line, "fastdl: installing checksum cache failed: denied");
    let (at, line) = told(Refresh::Fetch.step(Platform::Windows, RefreshReply::Fetched(false)));
    assert!(matches!(at, Refresh::Discard));
    assert_eq!(
        line,
        "fastdl: checksum refresh failed; using any valid cached copy"
    );
}

#[test]
fn fetches_are_encrypted_and_bounded() {
    assert_eq!(
        curl_to(Platform::Linux, 30, 33_554_432).join(" "),
        "-fsSL --proto =https --tlsv1.2 --max-time 30 --max-filesize 33554432 -o"
    );
    assert_eq!(
        curl_to(Platform::Windows, 8, 7).join(" "),
        "--fail --silent --show-error --location --proto =https --tlsv1.2 --max-time 8 \
         --max-filesize 7 --output"
    );
    assert_eq!(
        record_options("key").join(" "),
        "-fsS --proto =https --tlsv1.2 --max-time 10 --max-filesize 4194304 -H api-key: key"
    );
}

#[test]
fn joining_a_server_looks_its_map_up() {
    let md5: Vec<u8> = (0..16)
        .map(|i| u8::from_str_radix(&"abcdef0123456789abcdef0123456789"[2 * i..2 * i + 2], 16))
        .map(|b| b.unwrap())
        .collect();
    let plan = on_serverinfo(Platform::Linux, "bhop_x", &md5, Some(CSV));
    assert_eq!(
        plan.fetch.as_deref(),
        Some("0123456789abcdef0123456789abcdef01234567")
    );
    assert_eq!(
        plan.log,
        Some((
            "server map: bhop_x (sha1 0123456789abcdef0123456789abcdef01234567)".to_string(),
            false
        ))
    );
    let plan = on_serverinfo(Platform::Windows, "bhop_x", &[0; 16], Some(CSV));
    assert_eq!(plan.fetch, None);
    assert_eq!(
        plan.log,
        Some((
            "fastdl: server map MD5 00000000000000000000000000000000 is not indexed".to_string(),
            true
        ))
    );
    let plan = on_serverinfo(Platform::Linux, "bhop_x", &md5, None);
    assert!(plan.fetch.is_none() && plan.log.is_none());
}

#[test]
fn map_names_are_plausible() {
    for good in ["bhop_x", "de_dust2", "surf-1_a"] {
        assert!(plausible_map_name(good), "{good}");
    }
    for bad in ["", "a", "../x", "de dust", "ab/cd", "de_dust2\n"] {
        assert!(!plausible_map_name(bad), "{bad:?}");
    }
    assert!(game_dir("cstrike") && game_dir("hl2") && !game_dir("de_dust2"));
}

#[test]
fn texts_in_the_message_end_at_a_zero() {
    assert_eq!(rd_cstr(b"de_dust2\0junk").as_deref(), Some("de_dust2"));
    assert_eq!(rd_cstr(b""), None);
    assert_eq!(rd_cstr(&[0xff, 0]), None);
    assert_eq!(
        read_cstring(0x20000, b"de_dust2\0").as_deref(),
        Some("de_dust2")
    );
    assert_eq!(read_cstring(0xffff, b"de_dust2\0"), None);
    assert_eq!(read_cstring(0x20000, b"de_dust2"), None);
}

fn field(pointer: u64, text: &str) -> Field {
    Field {
        pointer: Some(pointer),
        text: Some(text.to_string()),
    }
}

fn fields(texts: &[&str]) -> Vec<Field> {
    let mut v: Vec<Field> = texts.iter().map(|t| field(0x7f00_0000_0100, t)).collect();
    while v.len() < 12 {
        v.push(Field {
            pointer: None,
            text: None,
        });
    }
    v
}

#[test]
fn the_map_name_follows_the_game_directory() {
    let maps = parse_maps("7f0000000000-7f0000001000 rw-p 00000000 00:00 0\n");
    assert_eq!(
        detect_mapname(0, None, &fields(&["cstrike", "bhop_x", "sky_day"]), &maps),
        (Some("bhop_x".to_string()), 0x48)
    );
    // without a directory, the second text
    assert_eq!(
        detect_mapname(0, None, &fields(&["aaa", "bhop_x", "sky_day"]), &maps),
        (Some("bhop_x".to_string()), 0x48)
    );
    // a known place is trusted while it holds a name
    assert_eq!(
        detect_mapname(
            0x50,
            Some("bhop_y".to_string()),
            &fields(&["cstrike", "bhop_x"]),
            &maps
        ),
        (Some("bhop_y".to_string()), 0x50)
    );
    assert_eq!(
        detect_mapname(
            0x50,
            Some("cstrike".to_string()),
            &fields(&["cstrike", "bhop_x"]),
            &maps
        ),
        (Some("bhop_x".to_string()), 0x48)
    );
    // unmapped pointers are not followed
    assert_eq!(
        detect_mapname(0, None, &fields(&["cstrike", "bhop_x"]), &[]),
        (None, 0)
    );
    assert_eq!(
        map_name(Some("bhop_x".to_string()), Some("cstrike".to_string())).as_deref(),
        Some("bhop_x")
    );
    assert_eq!(
        map_name(Some("bhop_x".to_string()), Some("tf".to_string())),
        None
    );
}

fn fetch(platform: Platform) -> Fetch {
    Fetch {
        platform,
        map: "bhop_x".to_string(),
        sha1: "ab".repeat(20),
        place: "/maps/bhop_x.bsp".to_string(),
    }
}

#[test]
fn a_map_is_fetched_checked_and_installed() {
    let f = fetch(Platform::Linux);
    assert_eq!(
        f.packed_url(),
        format!("https://mainr2.fastdl.me/hashed/{}.bsp.bz2", "ab".repeat(20))
    );
    assert_eq!(
        f.plain_url(),
        format!("https://main.fastdl.me/hashed/{}.bsp", "ab".repeat(20))
    );
    let t = f.step(FetchPhase::Look, FetchReply::Noted(None));
    assert_eq!(t.phase, FetchPhase::Packed);
    let t = f.step(t.phase, FetchReply::Downloaded(true));
    assert_eq!(t.phase, FetchPhase::Unpack);
    let t = f.step(t.phase, FetchReply::Unpacked(Some(9)));
    assert_eq!(t.phase, FetchPhase::Check);
    let t = f.step(t.phase, FetchReply::Checked(None));
    assert_eq!(t.phase, FetchPhase::Install);
    let t = f.step(t.phase, FetchReply::Installed(Ok(())));
    assert_eq!(t.phase, FetchPhase::Finished(true));
    assert_eq!(t.log.as_deref(), Some("installed bhop_x.bsp from fastdl.me"));
}

#[test]
fn a_current_map_is_not_fetched() {
    let f = fetch(Platform::Linux);
    let note = format!("{}\n", "ab".repeat(20));
    let t = f.step(FetchPhase::Look, FetchReply::Noted(Some(note)));
    assert!(matches!(t.phase, FetchPhase::Finished(_)));
    let upper = "AB".repeat(20);
    let t = f.step(FetchPhase::Look, FetchReply::Noted(Some(upper.clone())));
    assert_eq!(t.phase, FetchPhase::Packed);
    let w = fetch(Platform::Windows);
    let t = w.step(FetchPhase::Look, FetchReply::Noted(Some(upper)));
    assert!(matches!(t.phase, FetchPhase::Finished(_)));
}

#[test]
fn the_plain_map_is_the_fallback() {
    let f = fetch(Platform::Linux);
    let t = f.step(FetchPhase::Packed, FetchReply::Downloaded(false));
    assert_eq!(t.phase, FetchPhase::Plain);
    let t = f.step(FetchPhase::Plain, FetchReply::Downloaded(false));
    assert_eq!(t.phase, FetchPhase::Finished(false));
    assert_eq!(
        t.log.as_deref(),
        Some("fastdl.me download failed; stock behavior applies")
    );
    assert!(t.drop_part);
}

#[test]
fn nothing_unpacked_is_no_map_on_linux() {
    let f = fetch(Platform::Linux);
    for n in [None, Some(0)] {
        let t = f.step(FetchPhase::Unpack, FetchReply::Unpacked(n));
        assert_eq!(t.phase, FetchPhase::Plain);
        assert_eq!(
            t.log.as_deref(),
            Some("bzip2 decompression failed (is `bzip2` installed?)")
        );
        assert!(t.drop_packed && t.drop_part);
    }
    let w = fetch(Platform::Windows);
    let t = w.step(FetchPhase::Unpack, FetchReply::Unpacked(Some(0)));
    assert_eq!(t.phase, FetchPhase::Check);
    let t = w.step(FetchPhase::Unpack, FetchReply::Unpacked(None));
    assert_eq!(t.phase, FetchPhase::Plain);
    assert_eq!(
        t.log.as_deref(),
        Some("fastdl: bzip2 decompression failed; trying legacy endpoint")
    );
}

#[test]
fn a_faulty_map_is_not_installed() {
    let f = fetch(Platform::Linux);
    for (fault, text) in [
        (
            MapFault::NotBsp,
            "downloaded file is not a BSP; refusing to install",
        ),
        (
            MapFault::WrongHash,
            "downloaded BSP SHA-1 differs from fastdl.me; refusing to install",
        ),
    ] {
        let t = f.step(FetchPhase::Check, FetchReply::Checked(Some(fault)));
        assert_eq!(t.phase, FetchPhase::Finished(false));
        assert_eq!(t.log.as_deref(), Some(text));
        assert!(t.drop_part);
    }
}

#[test]
fn few_maps_are_waited_for_and_none_twice() {
    let mut list = WatchList::new();
    for i in 0..MAX_WATCHED {
        assert!(list.add_map(&format!("map{i}")));
        assert!(!list.add_map(&format!("map{i}")));
    }
    assert!(!list.add_map("one_more"));
    list.remove("map3");
    assert_eq!(list.len(), MAX_WATCHED - 1);
    assert!(list.add_map("one_more"));
}

#[test]
fn a_file_that_stays_the_same_is_fixed() {
    let mut w = Watcher::new();
    let mut at = w.step(WatchPhase::Sleep, WatchReply::Slept);
    assert_eq!(at, WatchPhase::Look(false));
    at = w.step(at, WatchReply::Size(Some(10)));
    at = w.step(at, WatchReply::Size(None));
    assert_eq!(at, WatchPhase::Sleep);
    at = w.step(at, WatchReply::Slept);
    at = w.step(at, WatchReply::Size(Some(20)));
    assert_eq!(at, WatchPhase::Look(true), "it grew");
    at = w.step(at, WatchReply::Size(None));
    at = w.step(at, WatchReply::Slept);
    at = w.step(at, WatchReply::Size(Some(20)));
    assert_eq!(at, WatchPhase::Fix(false));
    at = w.step(at, WatchReply::Fixed(Some(3)));
    assert_eq!(at, WatchPhase::Finished(Some(3)));
}

#[test]
fn patience_runs_out() {
    let mut w = Watcher::new();
    let mut at = WatchPhase::Sleep;
    let mut looks = 0;
    while !matches!(at, WatchPhase::Finished(_)) {
        at = match at {
            WatchPhase::Sleep => {
                looks += 1;
                w.step(at, WatchReply::Slept)
            }
            _ => w.step(at, WatchReply::Size(None)),
        };
    }
    assert_eq!(at, WatchPhase::Finished(None));
    assert_eq!(looks, PATIENCE);
}

struct Entry<'a> {
    name: &'a str,
    method: u16,
    data: &'a [u8],
}

fn zip(entries: &[Entry]) -> Vec<u8> {
    let mut z = Vec::new();
    let mut dir = Vec::new();
    for e in entries {
        let at = z.len() as u32;
        let len = e.data.len() as u32;
        z.extend_from_slice(&0x0403_4b50u32.to_le_bytes());
        z.extend_from_slice(&[0; 22]);
        z.extend_from_slice(&(e.name.len() as u16).to_le_bytes());
        z.extend_from_slice(&0u16.to_le_bytes());
        z.extend_from_slice(e.name.as_bytes());
        z.extend_from_slice(e.data);
        dir.extend_from_slice(&0x0201_4b50u32.to_le_bytes());
        dir.extend_from_slice(&[0; 6]);
        dir.extend_from_slice(&e.method.to_le_bytes());
        dir.extend_from_slice(&[0; 8]);
        dir.extend_from_slice(&len.to_le_bytes());
        dir.extend_from_slice(&len.to_le_bytes());
        dir.extend_from_slice(&(e.name.len() as u16).to_le_bytes());
        dir.extend_from_slice(&[0; 12]);
        dir.extend_from_slice(&at.to_le_bytes());
        dir.extend_from_slice(e.name.as_bytes());
    }
    let cd = z.len() as u32;
    z.extend_from_slice(&dir);
    z.extend_from_slice(&0x0605_4b50u32.to_le_bytes());
    z.extend_from_slice(&[0; 6]);
    z.extend_from_slice(&(entries.len() as u16).to_le_bytes());
    z.extend_from_slice(&(dir.len() as u32).to_le_bytes());
    z.extend_from_slice(&cd.to_le_bytes());
    z.extend_from_slice(&[0; 2]);
    z
}

fn bsp(pak: &[u8]) -> Vec<u8> {
    let mut b = vec![0u8; 1036];
    b[..4].copy_from_slice(b"VBSP");
    b[648..652].copy_from_slice(&1036u32.to_le_bytes());
    b[652..656].copy_from_slice(&(pak.len() as u32).to_le_bytes());
    b.extend_from_slice(pak);
    b
}

#[test]
fn broken_entries_are_unpacked_in_lowercase() {
    let file = bsp(&zip(&[
        Entry {
            name: "materials/Maps/Wall.vmt",
            method: 0,
            data: b"wall",
        },
        Entry {
            name: "materials/ok.vmt",
            method: 0,
            data: b"fine already",
        },
        Entry {
            name: "scripts/Other.txt",
            method: 0,
            data: b"no asset",
        },
        Entry {
            name: "sound/..\\Evil.wav",
            method: 0,
            data: b"escapes",
        },
        Entry {
            name: "models/Big.mdl",
            method: 8,
            data: b"packed",
        },
    ]));
    let mut x = match fix_bsp(&file) {
        Ok(x) => x,
        Err(e) => panic!("{e:?}"),
    };
    let e = x.next().unwrap();
    assert_eq!(e.lower, b"materials/maps/wall.vmt");
    assert_eq!(
        extract_stored(x.blob(), e, false),
        Ok(Some(&b"wall"[..]))
    );
    assert_eq!(extract_stored(x.blob(), e, true), Ok(None));
    x.settle(Outcome::Written);
    let e = x.next().unwrap();
    assert_eq!(e.lower, b"models/big.mdl");
    assert_eq!(
        extract_stored(x.blob(), e, false),
        Err(EntryError::Compressed)
    );
    x.settle(Outcome::Failed);
    assert!(x.next().is_none());
    assert_eq!(x.extracted(), 1);
}

#[test]
fn paks_are_bounded() {
    let fails = |file: &[u8]| fix_bsp(file).map(|_| ()).unwrap_err();
    assert_eq!(fails(&[0; 100]), PakError::Truncated);
    assert_eq!(fails(&[0; 2000]), PakError::NotBsp);
    let mut file = bsp(b"no zip here, but long enough to hold a record");
    assert_eq!(fails(&file), PakError::NoDirectory);
    assert_eq!(PakError::NoDirectory.message(), "pak lump has no zip directory");
    file[652..656].copy_from_slice(&0x1000u32.to_le_bytes());
    assert_eq!(fails(&file), PakError::OutOfBounds);
    file[652..656].copy_from_slice(&0x1000_0001u32.to_le_bytes());
    assert_eq!(fails(&file), PakError::TooLarge);
    file[652..656].copy_from_slice(&0u32.to_le_bytes());
    assert!(fix_bsp(&file).unwrap().next().is_none());
    assert_eq!(pak_lump(&file), Ok(&[][..]));
    assert_eq!(EntryError::OutOfBounds.message(), "entry data out of bounds");
    let z = zip(&[]);
    assert_eq!(find_eocd(&z), Some((0, 0)));
    assert_eq!(find_eocd(b"PK"), None);
}

#[test]
fn writes_stay_within_the_size_of_the_pak() {
    // Many entries over the same bytes: only as many are written as the pak is
    // long.
    let names: Vec<String> = (0..8).map(|i| format!("sound/A{i}.wav")).collect();
    let data = [7u8; 300];
    let entries: Vec<Entry> = names
        .iter()
        .map(|name| Entry {
            name,
            method: 0,
            data: &data,
        })
        .collect();
    let mut pak = zip(&entries);
    let record = pak.len() - 22;
    let directory = u32::from_le_bytes(pak[record + 16..record + 20].try_into().unwrap());
    // Every entry now claims 1000 bytes.
    let mut at = directory as usize;
    for name in &names {
        pak[at + 20..at + 24].copy_from_slice(&1000u32.to_le_bytes());
        pak[at + 24..at + 28].copy_from_slice(&1000u32.to_le_bytes());
        at += 46 + name.len();
    }
    let fits = pak.len() / 1000;
    let mut x = fix_bsp(&bsp(&pak)).unwrap();
    while x.next().is_some() {
        assert!(!x.overdrawn());
        x.settle(Outcome::Written);
    }
    assert!(fits < names.len() && x.overdrawn());
    assert_eq!(x.extracted(), fits);
}

#[test]
fn names_that_leave_the_directory_are_refused() {
    assert_eq!(
        sane_name(b"materials\\A\\b.vmt"),
        Some(b"materials/A/b.vmt".to_vec())
    );
    for bad in [
        &b"/etc/passwd"[..],
        b"a/../b",
        b"..",
        b"a//b",
        b"",
        b"a\0b",
    ] {
        assert_eq!(sane_name(bad), None, "{bad:?}");
    }
    assert_eq!(sane_name(&[b'a'; 513]), None);
}

#[test]
fn a_sweep_counts_and_tells() {
    assert!(map_file("bhop_x.bsp") && map_file("a.b.bsp"));
    assert!(!map_file(".bsp") && !map_file("bhop_x.BSP") && !map_file("bhop_x.bsp.bz2"));
    let report = |name: &str, outcome| MapReport {
        name: name.to_string(),
        outcome,
    };
    let (total, lines) = sweep(&[
        report("a.bsp", Ok(0)),
        report("b.bsp", Ok(3)),
        report("c.bsp", Err("not a VBSP file".to_string())),
        report("d.bsp", Ok(2)),
    ]);
    assert_eq!(total, 5);
    assert_eq!(
        lines,
        vec![
            "[pakfix] b.bsp: extracted 3 case-broken file(s)",
            "[pakfix] c.bsp: skipped: not a VBSP file",
            "[pakfix] d.bsp: extracted 2 case-broken file(s)",
        ]
    );
}
