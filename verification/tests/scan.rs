use nestcli::addr2line::{Candidate, Registry};
use nestcli::scan::{scan_bytes, ScanOutcome, Scanner};

fn scan(data: &[u8], chunk_size: usize) -> ScanOutcome {
    let registry = Registry::standard();
    scan_bytes(&registry, data, chunk_size).expect("automaton construction failed")
}

#[test]
fn clean_bytes_give_no_match() {
    let data = b"this binary holds no toolchain marker at all, just filler bytes";
    assert_eq!(scan(data, 8), ScanOutcome::NoMatch);
    assert_eq!(scan(data, 1), ScanOutcome::NoMatch);
    assert_eq!(scan(data, 4096), ScanOutcome::NoMatch);
}

#[test]
fn empty_input_gives_no_match() {
    assert_eq!(scan(b"", 16), ScanOutcome::NoMatch);
}

#[test]
fn marker_is_found_with_its_offset() {
    let mut data = Vec::new();
    data.extend_from_slice(b"padpadpad");
    data.extend_from_slice(b"3dsx_crt0.o");
    data.extend_from_slice(b"tail");
    assert_eq!(scan(&data, 4096), ScanOutcome::Found { index: 0, offset: 9 });
}

#[test]
fn marker_split_at_chunk_boundary_is_still_found() {
    // With a chunk size of 4 the marker starting at offset 2 straddles
    // the first chunk boundary (and several later ones).
    let mut data = Vec::new();
    data.extend_from_slice(b"xx");
    data.extend_from_slice(b"switch_crt0.o");
    assert_eq!(scan(&data, 4), ScanOutcome::Found { index: 1, offset: 2 });
}

#[test]
fn every_chunk_size_gives_the_same_verdict() {
    let mut data = Vec::new();
    data.extend_from_slice(b"some leading bytes ");
    data.extend_from_slice(b"crt0_rpx.o");
    data.extend_from_slice(b" and trailing bytes");
    let expected = ScanOutcome::Found { index: 2, offset: 19 };
    for chunk_size in [1, 2, 3, 5, 7, 10, 13, 64, 4096] {
        assert_eq!(scan(&data, chunk_size), expected);
    }
}

#[test]
fn lowest_offset_marker_wins() {
    let mut data = Vec::new();
    data.extend_from_slice(b"abcde");
    data.extend_from_slice(b"crt0_rpx.o");
    data.extend_from_slice(b"fillerfiller");
    data.extend_from_slice(b"3dsx_crt0.o");
    assert_eq!(scan(&data, 4096), ScanOutcome::Found { index: 2, offset: 5 });
    // The verdict does not depend on how the bytes are chunked.
    assert_eq!(scan(&data, 3), ScanOutcome::Found { index: 2, offset: 5 });
}

#[test]
fn feeding_chunks_by_hand_matches_the_marker() {
    let registry = Registry::standard();
    let mut scanner = Scanner::new(&registry).expect("automaton construction failed");
    scanner.feed(b"prefix 3dsx_");
    scanner.feed(b"crt0.o suffix");
    assert_eq!(scanner.outcome(), ScanOutcome::Found { index: 0, offset: 7 });
}

#[test]
fn feeding_clean_chunks_gives_no_match() {
    let registry = Registry::standard();
    let mut scanner = Scanner::new(&registry).expect("automaton construction failed");
    scanner.feed(b"nothing here");
    scanner.feed(b"");
    scanner.feed(b"still nothing");
    assert_eq!(scanner.outcome(), ScanOutcome::NoMatch);
}

fn custom_registry(markers: &[&[u8]]) -> Registry {
    let candidates = markers
        .iter()
        .enumerate()
        .map(|(i, m)| Candidate {
            binary: format!("tool-{i}"),
            magic: m.to_vec(),
            args: Vec::new(),
            search_path: "bin".to_string(),
            device: format!("Console {i}"),
        })
        .collect();
    Registry { candidates }
}

#[test]
fn same_offset_tie_goes_to_the_earlier_entry() {
    // Both markers match at offset 1; the one registered first wins.
    let registry = custom_registry(&[b"ab", b"abc"]);
    let out = scan_bytes(&registry, b"zabcz", 4096).unwrap();
    assert_eq!(out, ScanOutcome::Found { index: 0, offset: 1 });

    let registry = custom_registry(&[b"abc", b"ab"]);
    let out = scan_bytes(&registry, b"zabcz", 4096).unwrap();
    assert_eq!(out, ScanOutcome::Found { index: 0, offset: 1 });
}

#[test]
fn overlapping_markers_agree_for_every_chunk_size() {
    let registry = custom_registry(&[b"aab", b"ab", b"ba"]);
    let data = b"xaabay";
    let mut verdicts = Vec::new();
    for chunk_size in [1, 2, 3, 4, 6, 100] {
        verdicts.push(scan_bytes(&registry, data, chunk_size).unwrap());
    }
    for v in &verdicts {
        assert_eq!(*v, ScanOutcome::Found { index: 0, offset: 1 });
    }
}

#[test]
fn registry_markers_are_the_devkit_object_names() {
    let registry = Registry::standard();
    assert_eq!(registry.candidates.len(), 3);
    assert_eq!(registry.candidates[0].magic, b"3dsx_crt0.o".to_vec());
    assert_eq!(registry.candidates[1].magic, b"switch_crt0.o".to_vec());
    assert_eq!(registry.candidates[2].magic, b"crt0_rpx.o".to_vec());
    assert_eq!(registry.candidates[0].binary, "arm-none-eabi-addr2line");
    assert_eq!(registry.candidates[1].binary, "aarch64-none-elf-addr2line");
    assert_eq!(registry.candidates[2].binary, "powerpc-eabi-addr2line");
    assert_eq!(registry.candidates[0].device, "Nintendo 3DS");
    assert_eq!(registry.candidates[1].device, "Nintendo Switch");
    assert_eq!(registry.candidates[2].device, "Nintendo Wii\u{1d58}");
}
