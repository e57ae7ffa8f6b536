use dst_reader::header::HEADER_SIZE;
use dst_reader::{parse_dst, parse_header, Bounds, DstError, Pattern, Stitch, StitchCommand};

fn file_with_body(body: &[u8]) -> Vec<u8> {
    let mut data = vec![0u8; HEADER_SIZE];
    data.extend_from_slice(body);
    data
}

fn header_with(label: &[u8], stitches: &[u8], colors: &[u8]) -> Vec<u8> {
    let mut data = vec![0u8; HEADER_SIZE];
    data[0..3].copy_from_slice(b"LA:");
    data[3..3 + label.len()].copy_from_slice(label);
    data[23..23 + stitches.len()].copy_from_slice(stitches);
    data[31..31 + colors.len()].copy_from_slice(colors);
    data
}

#[test]
fn short_buffer_is_insufficient_data() {
    assert!(matches!(parse_dst(&[]), Err(DstError::InsufficientData)));
    assert!(matches!(parse_dst(&vec![0u8; 511]), Err(DstError::InsufficientData)));
}

#[test]
fn header_only_decodes_to_empty_pattern() {
    let p = parse_dst(&vec![0u8; 512]).unwrap();
    assert!(p.stitches.is_empty());
    assert!(p.bounds.is_none());
    assert_eq!(p.statistics.real_stitch_count, 0);
    assert_eq!(p.statistics.estimated_time_units, 0);
}

#[test]
fn single_plain_stitch() {
    let p = parse_dst(&file_with_body(&[0x00, 0x00, 0x03])).unwrap();
    assert_eq!(p.stitches, vec![Stitch { x: 0, y: 0, command: StitchCommand::Stitch }]);
    assert_eq!(p.statistics.real_stitch_count, 1);
    assert_eq!(p.statistics.estimated_time_units, 1);
}

#[test]
fn end_stops_decoding() {
    let p = parse_dst(&file_with_body(&[0x00, 0x00, 0xF3, 0x01, 0x00, 0x03, 0x00])).unwrap();
    assert_eq!(p.stitches, vec![Stitch { x: 0, y: 0, command: StitchCommand::End }]);
    assert_eq!(p.stitches.len(), 1);
}

#[test]
fn color_change_then_stitch() {
    let p = parse_dst(&file_with_body(&[0x00, 0x00, 0xC3, 0x00, 0x00, 0x03])).unwrap();
    assert_eq!(
        p.stitches,
        vec![
            Stitch { x: 0, y: 0, command: StitchCommand::ColorChange },
            Stitch { x: 0, y: 0, command: StitchCommand::Stitch },
        ]
    );
    assert_eq!(p.statistics.color_change_count, 1);
    assert_eq!(p.color_changes, 1);
    assert_eq!(p.statistics.real_stitch_count, 1);
    assert_eq!(p.statistics.estimated_time_units, 201);
}

#[test]
fn coordinates_accumulate_and_truncated_tail_is_dropped() {
    // +1 x; +9 x and raw -1 y (flipped: +1); a jump of -3 x; two stray bytes.
    let body = [0x01, 0x00, 0x03, 0x44, 0x00, 0x03, 0x00, 0x02, 0x83, 0x01, 0x00];
    let p = parse_dst(&file_with_body(&body)).unwrap();
    assert_eq!(
        p.stitches,
        vec![
            Stitch { x: 1, y: 0, command: StitchCommand::Stitch },
            Stitch { x: 10, y: 1, command: StitchCommand::Stitch },
            Stitch { x: 7, y: 1, command: StitchCommand::Move },
        ]
    );
    assert_eq!(p.statistics.jump_count, 1);
    assert_eq!(p.statistics.real_stitch_count, 2);
    assert_eq!(p.bounds, Some(Bounds { min_x: 1, min_y: 0, max_x: 10, max_y: 1 }));
}

#[test]
fn sequin_mode_turns_jumps_into_ejects() {
    let body = [
        0x00, 0x00, 0x83, // jump
        0x00, 0x00, 0x43, // sequin mode on
        0x00, 0x00, 0x83, // eject
        0x00, 0x00, 0x43, // sequin mode off
        0x00, 0x00, 0x83, // jump
    ];
    let p = parse_dst(&file_with_body(&body)).unwrap();
    let commands: Vec<StitchCommand> = p.stitches.iter().map(|s| s.command).collect();
    assert_eq!(
        commands,
        vec![
            StitchCommand::Move,
            StitchCommand::SequinMode,
            StitchCommand::SequinEject,
            StitchCommand::SequinMode,
            StitchCommand::Move,
        ]
    );
    assert_eq!(p.statistics.jump_count, 2);
    assert_eq!(p.statistics.real_stitch_count, 0);
}

#[test]
fn header_fields_are_read_and_trimmed() {
    let data = header_with(b"  Rose\0\0", b" 1234\0", b"  5");
    let m = parse_header(&data);
    assert_eq!(m.label.as_deref(), Some("Rose"));
    assert_eq!(m.stitch_count, Some(1234));
    assert_eq!(m.color_count, Some(5));
}

#[test]
fn unreadable_header_fields_are_absent() {
    let data = header_with(b"\xff\xfe", b"12a", b"+");
    let m = parse_header(&data);
    assert_eq!(m.label, None);
    assert_eq!(m.stitch_count, None);
    assert_eq!(m.color_count, None);
    let blank = header_with(b"   ", b"", b"");
    let m = parse_header(&blank);
    assert_eq!(m.label, None);
    assert_eq!(m.stitch_count, None);
}

#[test]
fn count_with_plus_sign_is_read() {
    let m = parse_header(&header_with(b"A", b"+42", b"7"));
    assert_eq!(m.label.as_deref(), Some("A"));
    assert_eq!(m.stitch_count, Some(42));
    assert_eq!(m.color_count, Some(7));
}

#[test]
fn short_header_gives_no_fields() {
    let m = parse_header(&[b'L', b'A', b':', b'X']);
    assert_eq!(m.label, None);
}

#[test]
fn bounds_are_recomputed() {
    let mut p = Pattern::new();
    p.calculate_bounds();
    assert!(p.bounds.is_none());
    p.add_stitch(3, -2, StitchCommand::Stitch);
    p.add_stitch(-5, 4, StitchCommand::Move);
    p.add_stitch(0, 0, StitchCommand::ColorChange);
    p.calculate_bounds();
    let b = p.bounds.unwrap();
    assert_eq!(b, Bounds { min_x: -5, min_y: -2, max_x: 3, max_y: 4 });
    assert_eq!(b.width(), 8);
    assert_eq!(b.height(), 6);
    assert_eq!(p.color_changes, 1);
    p.calculate_bounds();
    assert_eq!(p.bounds, Some(b));
}

#[test]
fn bounds_update_grows_box() {
    let mut b = Bounds::new();
    b.update(2, 7);
    assert_eq!(b, Bounds { min_x: 2, min_y: 7, max_x: 2, max_y: 7 });
    b.update(-1, 9);
    assert_eq!(b, Bounds { min_x: -1, min_y: 7, max_x: 2, max_y: 9 });
}

#[test]
fn estimated_time_matches_minutes_formula() {
    // 800 stitches and 4 color changes: 1 + 1 = 2 minutes = 1600 units.
    let mut body = Vec::new();
    for _ in 0..800 {
        body.extend_from_slice(&[0x00, 0x00, 0x03]);
    }
    for _ in 0..4 {
        body.extend_from_slice(&[0x00, 0x00, 0xC3]);
    }
    let p = parse_dst(&file_with_body(&body)).unwrap();
    assert_eq!(p.statistics.estimated_time_units, 1600);
    let minutes = p.statistics.real_stitch_count as f64 / 800.0
        + p.statistics.color_change_count as f64 * 15.0 / 60.0;
    assert_eq!(minutes, p.statistics.estimated_time_units as f64 / 800.0);
}
