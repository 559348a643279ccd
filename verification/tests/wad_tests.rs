//! Loader, directory and cache behavior over in-memory archive files.

use wadcore::wad::{add_container, add_loose, by_index, cache_lump_name, cache_lump_num,
    check_num_for_name, init, InputFile, LoadError, State};

/// Build a container file: tag, record count, directory-table offset, the
/// 16-byte directory entries, then every record's payload.
fn container(tag: &[u8; 4], entries: &[(&[u8], &[u8])]) -> Vec<u8> {
    let count = entries.len();
    let table_off: usize = 12;
    let payload_start = table_off + 16 * count;
    let mut out = Vec::new();
    out.extend_from_slice(tag);
    out.extend_from_slice(&(count as i32).to_le_bytes());
    out.extend_from_slice(&(table_off as i32).to_le_bytes());
    let mut pos = payload_start;
    for (name, data) in entries {
        out.extend_from_slice(&(pos as i32).to_le_bytes());
        out.extend_from_slice(&(data.len() as i32).to_le_bytes());
        let mut field = [0u8; 8];
        field[..name.len()].copy_from_slice(name);
        out.extend_from_slice(&field);
        pos += data.len();
    }
    for (_, data) in entries {
        out.extend_from_slice(data);
    }
    out
}

fn input(name: &[u8], bytes: Option<Vec<u8>>) -> InputFile {
    InputFile { name: name.to_vec(), bytes }
}

#[test]
fn loads_containers_and_loose_files_in_order() {
    let wad = container(b"IWAD", &[(b"FIRST", b"aa"), (b"SECOND\0\0", b"bbb")]);
    let mut state = State::new();
    let files = vec![
        input(b"base.wad", Some(wad)),
        input(b"extra.bin", Some(b"xyz".to_vec())),
    ];
    assert!(init(&mut state, files).is_ok());
    assert_eq!(state.num_lumps, 3);
    assert_eq!(state.lump_info[0].name, b"FIRST".to_vec());
    assert_eq!(state.lump_info[1].name, b"SECOND".to_vec());
    assert_eq!(state.lump_info[2].name, b"extra".to_vec());
    assert_eq!(state.lump_info[2].position, 0);
    assert_eq!(state.lump_info[2].size, 3);
}

#[test]
fn loose_file_name_drops_extension_and_caps_at_eight_bytes() {
    let mut state = State::new();
    let files = vec![input(b"averylongname.bin", Some(b"d".to_vec()))];
    assert!(init(&mut state, files).is_ok());
    assert_eq!(state.lump_info[0].name, b"averylon".to_vec());
}

#[test]
fn unopened_files_are_skipped() {
    let mut state = State::new();
    let files = vec![
        input(b"missing.wad", None),
        input(b"present.lmp", Some(b"ok".to_vec())),
    ];
    assert!(init(&mut state, files).is_ok());
    assert_eq!(state.num_lumps, 1);
    assert_eq!(state.lump_info[0].name, b"present".to_vec());
}

#[test]
fn cache_reads_source_exactly_once() {
    let mut state = State::new();
    let wad = container(b"PWAD", &[(b"DATA", b"hello")]);
    assert!(add_container(&mut state, wad).is_ok());
    assert_eq!(state.sources[0].reads, 0);
    let first = cache_lump_num(&mut state, 0);
    assert_eq!(first, b"hello".to_vec());
    assert_eq!(state.sources[0].reads, 1);
    let second = cache_lump_num(&mut state, 0);
    assert_eq!(second, first);
    assert_eq!(state.sources[0].reads, 1);
}

#[test]
fn find_by_name_is_case_insensitive_and_first_loaded_wins() {
    let mut state = State::new();
    let first = container(b"IWAD", &[(b"THING", b"one")]);
    let second = container(b"PWAD", &[(b"thing", b"two")]);
    assert!(add_container(&mut state, first).is_ok());
    assert!(add_container(&mut state, second).is_ok());
    assert_eq!(check_num_for_name(&state, b"Thing"), Some(0));
    assert_eq!(cache_lump_name(&mut state, b"THING"), Some(b"one".to_vec()));
    assert_eq!(check_num_for_name(&state, b"absent"), None);
    assert_eq!(cache_lump_name(&mut state, b"absent"), None);
}

#[test]
fn empty_load_fails_with_empty_error() {
    let mut state = State::new();
    assert_eq!(init(&mut state, Vec::new()), Err(LoadError::Empty));

    let mut state = State::new();
    let files = vec![input(b"gone.wad", None), input(b"also_gone.lmp", None)];
    assert_eq!(init(&mut state, files), Err(LoadError::Empty));

    let mut state = State::new();
    let empty_wad = container(b"IWAD", &[]);
    let files = vec![input(b"empty.wad", Some(empty_wad))];
    assert_eq!(init(&mut state, files), Err(LoadError::Empty));
}

#[test]
fn unknown_tag_aborts_the_load() {
    let mut state = State::new();
    let mut bad = container(b"IWAD", &[(b"GOOD", b"data")]);
    bad[0..4].copy_from_slice(b"ZWAD");
    let files = vec![
        input(b"ok.lmp", Some(b"fine".to_vec())),
        input(b"bad.wad", Some(bad)),
        input(b"never.lmp", Some(b"unreached".to_vec())),
    ];
    assert_eq!(init(&mut state, files), Err(LoadError::UnknownTag));
    // the file before the bad container was adopted, the one after never was
    assert_eq!(state.num_lumps, 1);
}

#[test]
fn truncated_and_bad_directory_containers_are_rejected() {
    let mut state = State::new();
    assert_eq!(add_container(&mut state, b"IW".to_vec()), Err(LoadError::Truncated));
    assert_eq!(add_container(&mut state, b"IWAD\x01\x00".to_vec()), Err(LoadError::Truncated));

    // table runs past the end of the file
    let mut short = container(b"IWAD", &[(b"A", b"x")]);
    short.truncate(20);
    assert_eq!(add_container(&mut state, short), Err(LoadError::Truncated));

    // negative record count
    let mut neg = container(b"IWAD", &[]);
    neg[4..8].copy_from_slice(&(-1i32).to_le_bytes());
    assert_eq!(add_container(&mut state, neg), Err(LoadError::BadDirectory));

    // an entry whose byte range leaves the file
    let mut out_of_range = container(b"IWAD", &[(b"A", b"x")]);
    let len = out_of_range.len();
    out_of_range[12..16].copy_from_slice(&(len as i32).to_le_bytes());
    out_of_range[16..20].copy_from_slice(&4i32.to_le_bytes());
    assert_eq!(add_container(&mut state, out_of_range), Err(LoadError::BadDirectory));

    assert_eq!(state.num_lumps, 0);
}

#[test]
fn by_index_returns_the_descriptor_at_that_slot() {
    let mut state = State::new();
    let wad = container(b"IWAD", &[(b"ONE", b"a"), (b"TWO", b"bc")]);
    assert!(add_container(&mut state, wad).is_ok());
    let second = by_index(&state, 1);
    assert_eq!(second.name, b"TWO".to_vec());
    assert_eq!(second.size, 2);
}

#[test]
fn loose_records_read_back_their_whole_file() {
    let mut state = State::new();
    add_loose(&mut state, b"music", b"notes".to_vec());
    assert_eq!(state.num_lumps, 1);
    assert_eq!(cache_lump_name(&mut state, b"MUSIC"), Some(b"notes".to_vec()));
}
