use bunnyhopfix::sig::{Pattern, Sig};

#[test]
fn parses_hex_and_wildcards() {
    let p = Pattern::parse("F3 0F 58 ?? 74 ?").unwrap();
    assert_eq!(p.len(), 6);
    assert_eq!(p.wildcards(), vec![3, 5]);
}

#[test]
fn rejects_malformed_specs() {
    for bad in ["", "   ", "F", "FFF", "ZZ", "F3 0F 5"] {
        assert!(Pattern::parse(bad).is_none(), "accepted {bad:?}");
    }
}

#[test]
fn wildcards_match_any_byte_but_length_is_exact() {
    let p = Pattern::parse("AA ?? CC").unwrap();
    assert!(p.matches_at(&[0xAA, 0x00, 0xCC], 0));
    assert!(p.matches_at(&[0xAA, 0xFF, 0xCC], 0));
    assert!(!p.matches_at(&[0xAA, 0xFF, 0xCD], 0));
    assert!(
        !p.matches_at(&[0xAA, 0xFF], 0),
        "must not match past the end"
    );
}

#[test]
fn finds_every_occurrence() {
    let hay = [0x90, 0xAA, 0x01, 0xCC, 0x90, 0xAA, 0x02, 0xCC];
    let p = Pattern::parse("AA ?? CC").unwrap();
    assert_eq!(p.find_all(&hay), vec![1, 5]);
    assert_eq!(p.find(&hay), Some(1));
}

#[test]
fn rejects_a_signature_whose_patch_window_escapes_its_match() {
    // 4-byte pattern, but the table claims to rewrite 6 bytes at +2
    let bad = Sig {
        name: "bad",
        pat: "AA BB CC DD",
        at: 2,
        len: 6,
    };
    assert!(bad.pattern().is_none());
    let ok = Sig {
        name: "ok",
        pat: "AA BB CC DD",
        at: 2,
        len: 2,
    };
    assert!(ok.pattern().is_some());
}

#[test]
fn pulls_a_displacement_out_of_a_match() {
    // movdqu 0x38(%rbx),%xmm2  ->  F3 0F 6F 53 38 ; disp8 at index 4
    let hay = [0xF3, 0x0F, 0x6F, 0x53, 0x38];
    let p = Pattern::parse("F3 0F 6F 53 ??").unwrap();
    let at = p.find(&hay).unwrap();
    let disp = p.wildcards()[0];
    assert_eq!(hay[at + disp], 0x38);
}

#[test]
fn overlapping_matches_are_all_found() {
    let p = Pattern::parse("AA AA").unwrap();
    assert_eq!(p.find_all(&[0xAA, 0xAA, 0xAA]), vec![0, 1]);
    assert_eq!(p.find_from(&[0xAA, 0xAA, 0xAA], 1), Some(1));
    assert_eq!(p.find_from(&[0xAA, 0xAA, 0xAA], 2), None);
    assert_eq!(p.find_from(&[0xAA], usize::MAX), None);
}

#[test]
fn words_are_two_hex_digits_apart_by_any_white_space() {
    let p = Pattern::parse("0F\u{a0}0a\t?\n").unwrap();
    assert_eq!(p.len(), 3);
    assert!(p.matches_at(&[0x0f, 0x0a, 0x77], 0));
    assert!(Pattern::parse("+F").is_none());
    assert!(Pattern::parse("F+").is_none());
    assert!(Pattern::parse("++").is_none());
    assert!(Pattern::parse("-1").is_none());
    assert!(p.clone().matches_at(&[0x0f, 0x0a, 0x77], 0));
}

#[test]
fn huge_patch_windows_do_not_wrap() {
    let bad = Sig {
        name: "bad",
        pat: "AA BB",
        at: usize::MAX,
        len: 2,
    };
    assert!(bad.pattern().is_none());
    let malformed = Sig {
        name: "malformed",
        pat: "AA B",
        at: 0,
        len: 0,
    };
    assert!(malformed.pattern().is_none());
}
