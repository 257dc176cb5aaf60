use division_helper::keyboard::Keyboard;

fn only(size: usize, k: usize) -> Vec<bool> {
    (0..size).map(|i| i == k).collect()
}

#[test]
fn first_pressed_is_row_major() {
    let mut keys = vec![false; 20];
    assert_eq!(Keyboard::get_first_pressed(&keys), None);
    keys[13] = true;
    keys[6] = true;
    assert_eq!(Keyboard::get_first_pressed(&keys), Some(6));
    keys[0] = true;
    assert_eq!(Keyboard::get_first_pressed(&keys), Some(0));
}

#[test]
fn press_and_release_reports_the_key() {
    let mut kb = Keyboard::new(4, 5);
    assert_eq!(kb.size(), 20);
    for _ in 0..3 {
        assert_eq!(kb.get_key(&only(20, 9)), None);
    }
    assert_eq!(kb.get_key(&vec![false; 20]), Some(9));
    assert_eq!(kb.get_key(&vec![false; 20]), None);
}

#[test]
fn key_zero_is_reported() {
    let mut kb = Keyboard::new(4, 5);
    assert_eq!(kb.get_key(&only(20, 0)), None);
    assert_eq!(kb.get_key(&vec![false; 20]), Some(0));
}

#[test]
fn nothing_pressed_reports_nothing() {
    let mut kb = Keyboard::new(2, 2);
    assert_eq!(kb.get_key(&vec![false; 4]), None);
}

#[test]
fn last_held_before_release_wins() {
    let mut kb = Keyboard::new(4, 5);
    let mut both = vec![false; 20];
    both[2] = true;
    both[7] = true;
    assert_eq!(kb.get_key(&both), None);
    assert_eq!(kb.get_key(&only(20, 7)), None);
    assert_eq!(kb.get_key(&vec![false; 20]), Some(7));
}
