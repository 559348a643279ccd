//! Patch decoding and blitting over hand-built image records.

use wadcore::video::{try_draw_patch, BlitError, DecodeError, Patch};

/// Build a raw patch record: the four header fields, the column offset
/// table, then the column run data.
fn patch_record(width: i16, height: i16, left: i16, top: i16, offsets: &[i32], runs: &[u8]) -> Vec<
    u8,
> {
    let mut out = Vec::new();
    out.extend_from_slice(&width.to_le_bytes());
    out.extend_from_slice(&height.to_le_bytes());
    out.extend_from_slice(&left.to_le_bytes());
    out.extend_from_slice(&top.to_le_bytes());
    for off in offsets {
        out.extend_from_slice(&off.to_le_bytes());
    }
    out.extend_from_slice(runs);
    out
}

#[test]
fn decode_reads_header_fields_and_payload() {
    // two columns: the first with one single-pixel run, the second empty
    let raw = patch_record(2, 1, 3, -2, &[16, 21], &[0, 1, 0x41, 0, 0xFF, 0xFF]);
    let p = Patch::new(&raw).unwrap();
    assert_eq!(p.width, 2);
    assert_eq!(p.height, 1);
    assert_eq!(p.left_offset, 3);
    assert_eq!(p.top_offset, -2);
    assert_eq!(p.hdr_size, 16);
    assert_eq!(p.column_offset, vec![16, 21]);
    assert_eq!(p.data, vec![0, 1, 0x41, 0, 0xFF, 0xFF]);
}

#[test]
fn header_fields_decode_little_endian() {
    let raw = patch_record(1, -300, -2, 0x1234, &[0x0102_0304], &[]);
    let p = Patch::new(&raw).unwrap();
    assert_eq!(p.width, 1);
    assert_eq!(p.height, -300);
    assert_eq!(p.left_offset, -2);
    assert_eq!(p.top_offset, 0x1234);
    assert_eq!(p.column_offset, vec![0x0102_0304]);
    assert!(p.data.is_empty());
}

#[test]
fn decoded_column_table_length_equals_width() {
    let raw = patch_record(3, 5, 0, 0, &[20, 21, 22], &[0xFF, 0xFF, 0xFF]);
    let p = Patch::new(&raw).unwrap();
    assert_eq!(p.column_offset.len(), p.width as usize);
}

#[test]
fn truncated_records_fail_to_decode() {
    assert_eq!(Patch::new(&[1, 2, 3]).unwrap_err(), DecodeError::Truncated);
    // header says two columns but only one table entry is present
    let raw = patch_record(2, 1, 0, 0, &[12], &[]);
    assert_eq!(Patch::new(&raw).unwrap_err(), DecodeError::Truncated);
}

#[test]
fn negative_width_fails_to_decode() {
    let raw = patch_record(-1, 1, 0, 0, &[], &[0xFF]);
    assert_eq!(Patch::new(&raw).unwrap_err(), DecodeError::NegativeWidth);
}

#[test]
fn single_run_blits_one_pixel_onto_a_blank_framebuffer() {
    // width 2, header {2,1,0,0}; column 0 holds one run: row 0 = 0x41;
    // column 1 holds no runs
    let raw = patch_record(2, 1, 0, 0, &[16, 21], &[0, 1, 0x41, 0, 0xFF, 0xFF]);
    let p = Patch::new(&raw).unwrap();
    let mut fb = vec![0u8; 16];
    assert!(try_draw_patch(&mut fb, 4, 0, 0, &p).is_ok());
    assert_eq!(fb[0], 0x41);
    assert!(fb[1..].iter().all(|&b| b == 0));
}

#[test]
fn runs_land_at_their_rows_and_offsets_shift_the_anchor() {
    // one column with two runs: rows 1..3 = {7, 8}, then row 4 = {9}
    let raw = patch_record(
        1,
        8,
        1,
        0,
        &[12],
        &[1, 2, 7, 8, 0, 4, 1, 9, 0, 0xFF],
    );
    let p = Patch::new(&raw).unwrap();
    let mut fb = vec![0u8; 20];
    // anchor (2, 0) with left_offset 1 puts the column at x = 1
    assert!(try_draw_patch(&mut fb, 4, 2, 0, &p).is_ok());
    let mut expect = vec![0u8; 20];
    expect[1 * 4 + 1] = 7;
    expect[2 * 4 + 1] = 8;
    expect[4 * 4 + 1] = 9;
    assert_eq!(fb, expect);
}

#[test]
fn blits_that_leave_the_framebuffer_are_refused_unchanged() {
    // the single pixel would land at cell 2 * 4 + 0 = 8, one past the end
    let raw = patch_record(1, 1, 0, 0, &[12], &[0, 1, 0x41, 0, 0xFF]);
    let p = Patch::new(&raw).unwrap();
    let mut fb = vec![0u8; 8];
    assert_eq!(try_draw_patch(&mut fb, 4, 0, 2, &p), Err(BlitError::DoesNotFit));
    assert!(fb.iter().all(|&b| b == 0));
    // a negative write origin is refused too
    assert_eq!(try_draw_patch(&mut fb, 4, -1, 0, &p), Err(BlitError::DoesNotFit));
}

#[test]
fn column_offsets_inside_the_header_are_refused() {
    // offset 12 points into the offset table itself: before the payload
    let raw = patch_record(2, 1, 0, 0, &[12, 16], &[0, 1, 0x41, 0, 0xFF, 0xFF]);
    let p = Patch::new(&raw).unwrap();
    let mut fb = vec![0u8; 16];
    assert_eq!(try_draw_patch(&mut fb, 4, 0, 0, &p), Err(BlitError::DoesNotFit));
    assert!(fb.iter().all(|&b| b == 0));
}

#[test]
fn unterminated_column_data_is_refused() {
    // the column's run data never reaches a 0xFF terminator
    let raw = patch_record(1, 1, 0, 0, &[12], &[0, 1, 0x41, 0]);
    let p = Patch::new(&raw).unwrap();
    let mut fb = vec![0u8; 8];
    assert_eq!(try_draw_patch(&mut fb, 4, 0, 0, &p), Err(BlitError::DoesNotFit));
}
