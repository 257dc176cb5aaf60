use division_helper::tm1638::{convert_to_bin, frame_bits, glyph, Frame, Target, TM1638, EMPTY, POINT};

#[test]
fn bits_most_significant_first() {
    assert_eq!(convert_to_bin(0xA5), [1, 0, 1, 0, 0, 1, 0, 1]);
    assert_eq!(convert_to_bin(0x01), [0, 0, 0, 0, 0, 0, 0, 1]);
    assert_eq!(convert_to_bin(0xFF), [1; 8]);
}

#[test]
fn frame_bits_least_significant_first() {
    assert_eq!(frame_bits(0x88), [false, false, false, true, false, false, false, true]);
    assert_eq!(frame_bits(0x01), [true, false, false, false, false, false, false, false]);
    assert_eq!(frame_bits(0x00), [false; 8]);
}

#[test]
fn glyphs_ignore_case_and_blank_unknown() {
    assert_eq!(glyph('a'), glyph('A'));
    assert_eq!(glyph('8'), 0x7f);
    assert_eq!(glyph('0'), 0x3f);
    assert_eq!(glyph('o'), glyph('0'));
    assert_eq!(glyph(' '), EMPTY);
    assert_eq!(glyph('%'), EMPTY);
}

#[test]
fn new_driver_is_blank() {
    let d = TM1638::new(2);
    assert_eq!(d.modules(), 2);
    for p in 0..32 {
        assert_eq!(d.segment(p), Some(EMPTY));
    }
    assert_eq!(d.segment(32), None);
}

#[test]
fn display_on_and_off_opcodes() {
    let mut d = TM1638::new(2);
    d.display_on(7);
    d.display_on(0);
    d.display_off();
    let f = d.take_frames();
    assert_eq!(
        f,
        vec![
            Frame { target: Target::All, byte: 0x8f, opens: true },
            Frame { target: Target::All, byte: 0x88, opens: true },
            Frame { target: Target::All, byte: 0x80, opens: true },
        ]
    );
    assert!(d.take_frames().is_empty());
}

#[test]
fn select_address_targets_one_module() {
    let mut d = TM1638::new(2);
    d.select_address(3);
    d.select_address(21);
    d.select_address(32);
    let f = d.take_frames();
    assert_eq!(
        f,
        vec![
            Frame { target: Target::Module(0), byte: 0xc3, opens: true },
            Frame { target: Target::Module(1), byte: 0xc5, opens: true },
        ]
    );
}

#[test]
fn clean_sends_sixteen_blank_frames_per_module() {
    let mut d = TM1638::new(2);
    d.set_segment(4, '7', true);
    d.take_frames();
    d.clean();
    let f = d.take_frames();
    assert_eq!(f.len(), 32);
    assert_eq!(f[0], Frame { target: Target::All, byte: 0, opens: true });
    assert!(f[1..].iter().all(|x| *x == Frame { target: Target::All, byte: 0, opens: false }));
    for p in 0..32 {
        assert_eq!(d.segment(p), Some(EMPTY));
    }
}

#[test]
fn set_segment_writes_glyph_and_point() {
    let mut d = TM1638::new(2);
    d.set_segment(18, '3', true);
    assert_eq!(d.segment(18), Some(0x4f | POINT));
    assert_eq!(
        d.take_frames(),
        vec![
            Frame { target: Target::Module(1), byte: 0xc2, opens: true },
            Frame { target: Target::Module(1), byte: 0xcf, opens: false },
        ]
    );
}

#[test]
fn set_segment_out_of_range_is_ignored() {
    let mut d = TM1638::new(1);
    d.set_segment(16, '3', false);
    assert!(d.take_frames().is_empty());
    for p in 0..16 {
        assert_eq!(d.segment(p), Some(EMPTY));
    }
}

#[test]
fn clean_then_segment_leaves_rest_blank() {
    let mut d = TM1638::new(2);
    d.write(0, "insert");
    d.clean();
    d.set_segment(9, 'e', false);
    for p in 0..32 {
        let want = if p == 9 { 0x79 } else { EMPTY };
        assert_eq!(d.segment(p), Some(want));
    }
}

#[test]
fn write_uses_every_second_position() {
    let mut d = TM1638::new(2);
    d.write(0, "128");
    assert_eq!(d.segment(0), Some(glyph('1')));
    assert_eq!(d.segment(1), Some(EMPTY));
    assert_eq!(d.segment(2), Some(glyph('2')));
    assert_eq!(d.segment(4), Some(glyph('8')));
    let f = d.take_frames();
    assert_eq!(f.len(), 7);
    assert_eq!(f[0], Frame { target: Target::Module(0), byte: 0xc0, opens: true });
    assert_eq!(f[1], Frame { target: Target::Module(0), byte: 0xc0, opens: true });
    assert_eq!(f[2], Frame { target: Target::Module(0), byte: 0x06, opens: false });
}

#[test]
fn write_of_empty_text_sends_the_address() {
    let mut d = TM1638::new(2);
    d.write(20, "");
    assert_eq!(d.take_frames(), vec![Frame { target: Target::Module(1), byte: 0xc4, opens: true }]);
    d.write(40, "ab");
    assert!(d.take_frames().is_empty());
}

#[test]
fn write_wraps_at_last_position() {
    let mut d = TM1638::new(1);
    d.write(14, "ab");
    assert_eq!(d.segment(14), Some(glyph('a')));
    assert_eq!(d.segment(0), Some(glyph('b')));
}

#[test]
fn strobe_levels_are_active_low() {
    let d = TM1638::new(3);
    assert_eq!(d.strobe_levels(Target::All), vec![false, false, false]);
    assert_eq!(d.strobe_levels(Target::Module(1)), vec![true, false, true]);
}
