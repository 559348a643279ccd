//! Argument scanning, banner centering, game-mode detection, the screen,
//! and the status-bar client.

use wadcore::args::{check_parm, parm_exists};
use wadcore::banner::centered_fill_line;
use wadcore::screen::{Screen, SCREENSIZE, SCREENWIDTH};
use wadcore::state::{identify_version, GameMode, State, WadCandidates};
use wadcore::status_bar;
use wadcore::wad::{add_container, InputFile};

#[test]
fn check_parm_finds_the_first_occurrence() {
    let args: Vec<String> = ["game", "-turbo", "255", "-turbo"]
        .iter()
        .map(|s| s.to_string())
        .collect();
    assert_eq!(check_parm(&args, "-turbo"), Some(1));
    assert_eq!(check_parm(&args, "-nomonsters"), None);
    assert!(parm_exists(&args, "255"));
    assert!(!parm_exists(&args, "-respawn"));
}

#[test]
fn banner_lines_are_centered_and_filled() {
    assert_eq!(centered_fill_line(8, b"hi", b'='), b"===hi===".to_vec());
    // odd free space: the right pad is one longer
    assert_eq!(centered_fill_line(7, b"hi", b'-'), b"--hi---".to_vec());
    assert_eq!(centered_fill_line(4, b"", b'='), b"====".to_vec());
    assert_eq!(centered_fill_line(2, b"hi", b'='), b"hi".to_vec());
}

#[test]
fn startup_state_defaults_match_the_classic_setup() {
    let s = State::new();
    assert_eq!(s.game_mode, GameMode::Undetermined);
    assert!(!s.modified_game);
    assert!(!s.no_monsters);
    assert!(!s.respawn);
    assert!(!s.fast);
    assert!(!s.dev_parm);
    assert_eq!(s.wad.num_lumps, 0);
    assert!(s.status_bar.sbar.is_none());
    assert_eq!(s.screens.len(), 1);
    assert!(s.screens[0].buffer.iter().all(|&b| b == 0));
    assert_eq!(s.forward_move, [0x19, 0x32]);
    assert_eq!(s.side_move, [0x18, 0x28]);
}

#[test]
fn game_mode_follows_probe_order() {
    let mut c = WadCandidates {
        doom2: false,
        plutonia: false,
        doomu: false,
        doom: false,
        doom1: false,
        tnt: false,
    };
    assert_eq!(identify_version(&c), (GameMode::Undetermined, None));
    c.tnt = true;
    assert_eq!(identify_version(&c), (GameMode::Shareware, Some(5)));
    c.doom = true;
    assert_eq!(identify_version(&c), (GameMode::Registered, Some(3)));
    c.doom2 = true;
    assert_eq!(identify_version(&c), (GameMode::Commercial, Some(0)));
}

#[test]
fn screen_draw_writes_three_bytes_and_ignores_out_of_range() {
    let mut s = Screen::new();
    assert_eq!(s.buffer.len(), SCREENSIZE);
    s.draw(1, 0, [10, 20, 30]);
    assert_eq!(&s.buffer[3..6], &[10, 20, 30]);
    let before = s.buffer.clone();
    s.draw(SCREENWIDTH, 0, [1, 2, 3]);
    assert_eq!(s.buffer, before);
}

/// Build a container holding one record named STBAR whose payload is a
/// one-column patch that writes byte 0x2A at the screen's top-left cell.
fn stbar_container() -> Vec<u8> {
    let mut patch = Vec::new();
    patch.extend_from_slice(&1i16.to_le_bytes());
    patch.extend_from_slice(&1i16.to_le_bytes());
    patch.extend_from_slice(&0i16.to_le_bytes());
    patch.extend_from_slice(&0i16.to_le_bytes());
    patch.extend_from_slice(&12i32.to_le_bytes());
    patch.extend_from_slice(&[0, 1, 0x2A, 0, 0xFF]);

    let mut out = Vec::new();
    out.extend_from_slice(b"IWAD");
    out.extend_from_slice(&1i32.to_le_bytes());
    out.extend_from_slice(&12i32.to_le_bytes());
    out.extend_from_slice(&28i32.to_le_bytes());
    out.extend_from_slice(&(patch.len() as i32).to_le_bytes());
    out.extend_from_slice(b"STBAR\0\0\0");
    out.extend_from_slice(&patch);
    out
}

#[test]
fn status_bar_init_decodes_the_bar_and_drawer_composites_it() {
    let mut state = State::new();
    assert!(add_container(&mut state.wad, stbar_container()).is_ok());
    assert!(status_bar::init(&mut state).is_ok());
    let patch = state.status_bar.sbar.as_ref().unwrap();
    assert_eq!(patch.width, 1);
    status_bar::drawer(&mut state);
    assert_eq!(state.screens[0].buffer[0], 0x2A);
    assert!(state.screens[0].buffer[1..].iter().all(|&b| b == 0));
}

#[test]
fn status_bar_init_fails_when_the_record_is_absent_or_malformed() {
    let mut state = State::new();
    let other = InputFile { name: b"note.lmp".to_vec(), bytes: Some(b"zz".to_vec()) };
    assert!(wadcore::wad::init(&mut state.wad, vec![other]).is_ok());
    assert_eq!(status_bar::init(&mut state), Err(status_bar::StatusBarError::PatchMissing));

    // an STBAR record too short to hold a patch header
    let mut bad = Vec::new();
    bad.extend_from_slice(b"IWAD");
    bad.extend_from_slice(&1i32.to_le_bytes());
    bad.extend_from_slice(&12i32.to_le_bytes());
    bad.extend_from_slice(&28i32.to_le_bytes());
    bad.extend_from_slice(&2i32.to_le_bytes());
    bad.extend_from_slice(b"STBAR\0\0\0");
    bad.extend_from_slice(&[1, 2]);
    let mut state = State::new();
    assert!(add_container(&mut state.wad, bad).is_ok());
    assert_eq!(status_bar::init(&mut state), Err(status_bar::StatusBarError::PatchInvalid));
}
