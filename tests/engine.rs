use division_helper::tm1638::{Frame, Target};
use division_helper::division::{convert_to_char, press_any_key, DivisionHelper, Entry, Phase, BLANK};

const FONTS: [u8; 20] = [10, 11, 12, 13, 1, 2, 3, 16, 4, 5, 6, 17, 7, 8, 9, 18, 14, 0, 15, 19];

fn engine() -> DivisionHelper {
    DivisionHelper::new(2, 4, 5, FONTS.to_vec())
}

fn enter(h: &mut DivisionHelper, digits: &[u8]) {
    for d in digits {
        assert_eq!(h.insert_number(*d), Entry::Waiting);
    }
}

fn register(tail: &[u8]) -> [u8; 16] {
    let mut r = [BLANK; 16];
    let start = 16 - tail.len();
    r[start..].copy_from_slice(tail);
    r
}

fn right_aligned(d: &[u8; 16]) -> bool {
    (0..16).all(|i| d[i] != BLANK || (0..i).all(|j| d[j] == BLANK))
}

#[test]
fn new_engine_is_blank() {
    let h = engine();
    assert_eq!(h.digits(), [BLANK; 16]);
    assert_eq!(h.position(), 15);
    assert_eq!(h.points(), [false; 16]);
    assert!(h.is_empty());
    assert!(h.is_finished());
}

#[test]
fn entering_one_two_eight() {
    let mut h = engine();
    enter(&mut h, &[1, 2, 8]);
    assert_eq!(h.digits(), register(&[1, 2, 8]));
    assert_eq!(h.position(), 12);
    assert_eq!(h.displays().segment(30), Some(0x7f));
    assert_eq!(h.displays().segment(28), Some(0x5b));
    assert_eq!(h.displays().segment(26), Some(0x06));
}

#[test]
fn backspace_undoes_last_digit() {
    let mut h = engine();
    enter(&mut h, &[4, 7]);
    let before = h.digits();
    assert_eq!(h.insert_number(9), Entry::Waiting);
    assert_eq!(h.insert_number(13), Entry::Waiting);
    assert_eq!(h.digits(), before);
    assert_eq!(h.position(), 13);
    assert_eq!(h.insert_number(13), Entry::Waiting);
    assert_eq!(h.insert_number(13), Entry::Waiting);
    assert_eq!(h.digits(), [BLANK; 16]);
    assert_eq!(h.position(), 15);
    assert_eq!(h.insert_number(13), Entry::Waiting);
    assert_eq!(h.position(), 15);
}

#[test]
fn entry_stays_right_aligned() {
    let mut h = engine();
    let keys = [3, 13, 5, 5, 13, 9, 0, 14, 13, 13, 13, 13, 1, 2, 16, 3];
    for k in keys {
        h.insert_number(k);
        assert!(right_aligned(&h.digits()));
    }
    assert_eq!(h.digits(), register(&[1, 2, 3]));
}

#[test]
fn entry_stops_at_fifteen_digits() {
    let mut h = engine();
    for _ in 0..20 {
        assert_eq!(h.insert_number(7), Entry::Waiting);
    }
    assert_eq!(h.position(), 0);
    let d = h.digits();
    assert_eq!(d[0], BLANK);
    assert!(d[1..].iter().all(|x| *x == 7));
}

#[test]
fn submit_needs_a_digit() {
    let mut h = engine();
    assert_eq!(h.insert_number(19), Entry::Waiting);
    assert_eq!(h.position(), 15);
    enter(&mut h, &[6]);
    assert_eq!(h.insert_number(19), Entry::Submitted);
    assert_eq!(h.position(), 0);
    assert_eq!(h.digits(), register(&[6]));
}

#[test]
fn reset_keys_blank_the_run() {
    for key in [12u8, 18] {
        let mut h = engine();
        enter(&mut h, &[5, 2]);
        assert_eq!(h.insert_number(key), Entry::Prompt);
        assert_eq!(h.digits(), [BLANK; 16]);
        assert_eq!(h.position(), 15);
        assert_eq!(h.displays().segment(0), Some(0x30));
        h.dismiss_prompt();
        assert_eq!(h.displays().segment(0), Some(0));
    }
}

#[test]
fn carries_of_one_two_eight() {
    let mut h = engine();
    enter(&mut h, &[1, 2, 8]);
    assert_eq!(h.insert_number(19), Entry::Submitted);
    h.first_step();
    let c = h.carries();
    assert!(c[14]);
    assert!(!c[15]);
    assert!(!c[13]);
    assert_eq!(h.displays().segment(29), Some(0x7f));
    assert_eq!(h.displays().segment(31), Some(0));
}

#[test]
fn marking_carries_twice_changes_nothing() {
    let mut h = engine();
    enter(&mut h, &[9, 3, 4, 7]);
    h.insert_number(19);
    h.first_step();
    let once = h.carries();
    h.first_step();
    assert_eq!(h.carries(), once);
}

#[test]
fn halving_one_two_eight() {
    let mut h = engine();
    enter(&mut h, &[1, 2, 8]);
    h.insert_number(19);
    h.first_step();
    h.second_step();
    let p = h.points();
    assert!(p[14]);
    assert!(!p[13]);
    assert!(!p[15]);
    h.third_step();
    assert_eq!(h.position(), 1);
    h.forth_step();
    assert_eq!(h.digits(), register(&[1, 2, 4]));
    assert!(!h.is_finished());
    h.third_step();
    assert_eq!(h.position(), 3);
    let w = h.window();
    assert!(w[13] && w[14] && !w[15]);
    h.forth_step();
    assert_eq!(h.digits(), register(&[6, 4]));
    assert_eq!(h.displays().segment(28), Some(0x7d | 0x80));
    assert_eq!(h.displays().segment(30), Some(0x66));
    assert!(h.points()[14]);
    h.third_step();
    assert!(h.is_finished());
    assert_eq!(h.digits(), [BLANK; 16]);
}

#[test]
fn halving_fifty_two() {
    let mut h = engine();
    enter(&mut h, &[5, 2]);
    h.insert_number(19);
    h.first_step();
    h.second_step();
    h.third_step();
    assert_eq!(h.position(), 2);
    h.forth_step();
    assert_eq!(h.digits(), register(&[2, 6]));
}

#[test]
fn halving_two_zero_two() {
    let mut h = engine();
    enter(&mut h, &[2, 0, 2]);
    h.insert_number(19);
    h.first_step();
    h.second_step();
    let mut rounds = 0;
    while !h.is_finished() {
        h.third_step();
        h.forth_step();
        rounds += 1;
        if rounds == 3 {
            assert_eq!(h.digits(), [BLANK, BLANK, BLANK, BLANK, BLANK, BLANK, BLANK, BLANK, BLANK, BLANK, BLANK, BLANK, BLANK, 1, BLANK, 1]);
        }
    }
    assert_eq!(rounds, 4);
}

#[test]
fn points_stay_until_reset() {
    let mut h = engine();
    enter(&mut h, &[4, 8, 6]);
    h.insert_number(19);
    h.first_step();
    h.second_step();
    let set = h.points();
    assert!(set[13] && set[14]);
    h.third_step();
    h.forth_step();
    let now = h.points();
    for i in 0..16 {
        assert!(!set[i] || now[i]);
    }
}

#[test]
fn used_up_register_ends_run() {
    let mut h = engine();
    enter(&mut h, &[3]);
    h.insert_number(19);
    h.third_step();
    h.forth_step();
    assert_eq!(h.digits(), register(&[1]));
    assert_eq!(h.position(), 1);
    h.third_step();
    assert!(h.is_finished());
    assert_eq!(h.digits(), [BLANK; 16]);
    assert_eq!(h.window(), [false; 16]);
}

#[test]
fn finished_only_at_fifteen() {
    let mut h = engine();
    assert!(h.is_finished());
    enter(&mut h, &[1]);
    assert_eq!(h.position(), 14);
    assert!(!h.is_finished());
    h.insert_number(19);
    assert_eq!(h.position(), 0);
    assert!(!h.is_finished());
}

#[test]
fn continue_keys() {
    assert_eq!(press_any_key(10), 1);
    assert_eq!(press_any_key(11), 2);
    assert_eq!(press_any_key(3), 0);
    assert_eq!(press_any_key(19), 0);
}

#[test]
fn digit_characters() {
    assert_eq!(convert_to_char(0), '0');
    assert_eq!(convert_to_char(9), '9');
    assert_eq!(convert_to_char(BLANK), ' ');
}

#[test]
fn read_key_maps_through_fonts() {
    let mut h = engine();
    let n = h.scan_size();
    assert_eq!(n, 20);
    let mut keys = vec![false; n];
    keys[17] = true;
    assert_eq!(h.read_key(&keys), None);
    assert_eq!(h.read_key(&vec![false; n]), Some(0));
    keys[17] = false;
    keys[19] = true;
    assert_eq!(h.read_key(&keys), None);
    assert_eq!(h.read_key(&vec![false; n]), Some(19));
}

#[test]
fn reset_shows_prompt() {
    let mut h = engine();
    h.reset();
    let f = h.take_frames();
    assert_eq!(f[0].byte, 0x8f);
    assert_eq!(h.displays().segment(0), Some(0x30));
    assert_eq!(h.displays().segment(20), Some(0x54));
    assert!(h.take_frames().is_empty());
}

#[test]
fn phases_follow_continue_keys() {
    let mut h = engine();
    h.reset();
    assert_eq!(h.phase(), Phase::Prompt);
    assert_eq!(h.handle_key(5), Phase::Entering);
    assert_eq!(h.displays().segment(0), Some(0));
    for k in [1u8, 2, 8] {
        assert_eq!(h.handle_key(k), Phase::Entering);
    }
    assert_eq!(h.handle_key(19), Phase::Carries);
    assert_eq!(h.position(), 0);
    assert!(h.carries()[14]);
    assert_eq!(h.handle_key(4), Phase::Carries);
    assert_eq!(h.handle_key(10), Phase::Remainders);
    assert!(h.points()[14]);
    assert_eq!(h.handle_key(11), Phase::Window);
    assert_eq!(h.handle_key(3), Phase::Window);
    assert_eq!(h.handle_key(10), Phase::Quotient);
    assert_eq!(h.digits(), register(&[1, 2, 4]));
    assert_eq!(h.handle_key(10), Phase::Window);
    assert_eq!(h.handle_key(10), Phase::Quotient);
    assert_eq!(h.digits(), register(&[6, 4]));
    assert_eq!(h.handle_key(10), Phase::Prompt);
    assert!(h.is_finished());
    assert_eq!(h.digits(), [BLANK; 16]);
    assert_eq!(h.displays().segment(0), Some(0x30));
}

#[test]
fn reset_key_during_entry_returns_to_prompt() {
    let mut h = engine();
    h.handle_key(0);
    h.handle_key(7);
    assert_eq!(h.handle_key(18), Phase::Prompt);
    assert_eq!(h.digits(), [BLANK; 16]);
}

#[test]
fn remainder_of_one_two_eight_sends_one_pointed_write() {
    let mut h = engine();
    enter(&mut h, &[1, 2, 8]);
    h.insert_number(19);
    h.first_step();
    h.take_frames();
    h.second_step();
    assert_eq!(
        h.take_frames(),
        vec![
            Frame { target: Target::Module(1), byte: 0xcc, opens: true },
            Frame { target: Target::Module(1), byte: 0x5b | 0x80, opens: false },
        ]
    );
}

#[test]
fn first_halving_sends_one_write_of_four() {
    let mut h = engine();
    enter(&mut h, &[1, 2, 8]);
    h.insert_number(19);
    h.first_step();
    h.second_step();
    h.third_step();
    h.take_frames();
    h.forth_step();
    assert_eq!(
        h.take_frames(),
        vec![
            Frame { target: Target::Module(1), byte: 0xce, opens: true },
            Frame { target: Target::Module(1), byte: 0x66, opens: false },
        ]
    );
}

#[test]
fn ignored_entry_keys_send_nothing() {
    let mut h = engine();
    enter(&mut h, &[4]);
    h.take_frames();
    for k in [10u8, 11, 14, 15, 16, 17, 200] {
        assert_eq!(h.insert_number(k), Entry::Waiting);
    }
    assert!(h.take_frames().is_empty());
    assert_eq!(h.digits(), register(&[4]));
}
