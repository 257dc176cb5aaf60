//! Press/release resolution for a row/column key matrix.
//!
//! A scan of the matrix is a row-major grid of booleans (`true` = pressed).
//! Whoever owns the pins drives each row in turn, samples the columns, and
//! hands each completed scan to [`Keyboard::get_key`], which reports a key
//! once a press has been followed by a scan with nothing pressed.
use vstd::prelude::*;

verus! {

/// Row-major index of the first pressed key of a scan, if any.
pub open spec fn first_set(keys: Seq<bool>) -> Option<nat>
    decreases keys.len(),
{
    if keys.len() == 0 {
        None
    } else {
        match first_set(keys.drop_last()) {
            Some(i) => Some(i),
            None => if keys.last() {
                Some((keys.len() - 1) as nat)
            } else {
                None
            },
        }
    }
}

/// One scan fed to the resolver: the key now held (if any), and the key
/// reported (the one held on the scan before a full release).
pub open spec fn scan_step(held: Option<u8>, keys: Seq<bool>) -> (Option<u8>, Option<u8>) {
    match first_set(keys) {
        Some(i) => (Some(i as u8), None),
        None => (None, held),
    }
}

/// A run of scans fed in order from `held`: the key held after the last one,
/// and what the last one reported.
pub open spec fn scan_run(held: Option<u8>, scans: Seq<Seq<bool>>) -> (Option<u8>, Option<u8>)
    decreases scans.len(),
{
    if scans.len() == 0 {
        (held, None)
    } else {
        scan_step(scan_run(held, scans.drop_last()).0, scans.last())
    }
}

/// A scan of `size` keys with only key `k` pressed.
pub open spec fn only_pressed(size: nat, k: nat) -> Seq<bool> {
    Seq::new(size, |i: int| i == k)
}

/// `n` scans with only key `k` pressed, then one with nothing pressed.
pub open spec fn press_then_release(size: nat, k: nat, n: nat) -> Seq<Seq<bool>> {
    Seq::new(n + 1, |i: int| if i < n { only_pressed(size, k) } else { Seq::new(size, |j: int| false) })
}

/// What [`first_set`] finds: the least pressed index, or none pressed.
pub proof fn lemma_first_set(keys: Seq<bool>)
    ensures
        match first_set(keys) {
            Some(i) => i < keys.len() && keys[i as int] && forall|j: int| 0 <= j < i ==> !keys[j],
            None => forall|j: int| 0 <= j < keys.len() ==> !keys[j],
        },
    decreases keys.len(),
{
    if keys.len() > 0 {
        lemma_first_set(keys.drop_last());
        assert forall|j: int| 0 <= j < keys.len() - 1 implies keys.drop_last()[j] == keys[j] by {}
    }
}

/// A key pressed alone, held for any number of scans and then released with
/// nothing else touched, is reported exactly once: on the release scan.
pub proof fn lemma_single_press(size: nat, k: nat, n: nat)
    requires
        k < size <= 256,
        n >= 1,
    ensures
        forall|m: int| 0 <= m <= n ==> #[trigger] scan_run(None, press_then_release(size, k, n).take(m)).1.is_none(),
        scan_run(None, press_then_release(size, k, n)) == (None::<u8>, Some(k as u8)),
{
    let scans = press_then_release(size, k, n);
    lemma_first_set(only_pressed(size, k));
    lemma_first_set(Seq::new(size, |j: int| false));
    assert(only_pressed(size, k)[k as int]);
    if let Some(i) = first_set(only_pressed(size, k)) {
        assert(only_pressed(size, k)[i as int]);
    }
    assert(first_set(only_pressed(size, k)) == Some(k));
    assert(first_set(Seq::new(size, |j: int| false)).is_none());
    assert forall|m: int| 0 <= m <= n implies #[trigger] scan_run(None, scans.take(m))
        == (if m == 0 { None::<u8> } else { Some(k as u8) }, None::<u8>) by {
        lemma_press_prefix(size, k, n, m as nat);
    }
    lemma_press_prefix(size, k, n, n);
    assert(scans.drop_last() =~= scans.take(n as int));
}

proof fn lemma_press_prefix(size: nat, k: nat, n: nat, m: nat)
    requires
        k < size <= 256,
        m <= n,
        first_set(only_pressed(size, k)) == Some(k),
    ensures
        scan_run(None, press_then_release(size, k, n).take(m as int))
            == (if m == 0 { None::<u8> } else { Some(k as u8) }, None::<u8>),
    decreases m,
{
    let scans = press_then_release(size, k, n);
    if m > 0 {
        lemma_press_prefix(size, k, n, (m - 1) as nat);
        assert(scans.take(m as int).drop_last() =~= scans.take(m - 1));
        assert(scans.take(m as int).last() == only_pressed(size, k));
    } else {
        assert(scans.take(0) =~= Seq::<Seq<bool>>::empty());
    }
}

/// Abstract state of the resolver.
pub struct KeyboardModel {
    pub rows: nat,
    pub columns: nat,
    /// Key seen pressed on the latest scan, if any.
    pub held: Option<u8>,
}

/// Press/release resolver for a `rows` x `columns` key matrix.
pub struct Keyboard {
    rows: usize,
    columns: usize,
    held: Option<u8>,
}

impl View for Keyboard {
    type V = KeyboardModel;

    closed spec fn view(&self) -> KeyboardModel {
        KeyboardModel { rows: self.rows as nat, columns: self.columns as nat, held: self.held }
    }
}

impl Keyboard {
    /// A resolver for a matrix of `columns` column lines and `rows` row
    /// lines, with no key held.
    pub fn new(columns: usize, rows: usize) -> (r: Self)
        requires
            rows * columns <= 256,
        ensures
            r@.rows == rows,
            r@.columns == columns,
            r@.held.is_none(),
    {
        Keyboard { rows, columns, held: None }
    }

    /// Number of keys of a scan.
    pub fn size(&self) -> (r: usize)
        requires
            self@.rows * self@.columns <= 256,
        ensures
            r == self@.rows * self@.columns,
    {
        self.rows * self.columns
    }

    /// Row-major index of the first pressed key of `keys`, if any.
    pub fn get_first_pressed(keys: &Vec<bool>) -> (r: Option<u8>)
        requires
            keys@.len() <= 256,
        ensures
            match first_set(keys@) {
                Some(i) => r == Some(i as u8),
                None => r.is_none(),
            },
    {
        let mut i: usize = 0;
        while i < keys.len()
            invariant
                i <= keys@.len() <= 256,
                first_set(keys@.take(i as int)).is_none(),
            decreases keys.len() - i,
        {
            assert(keys@.take(i + 1).drop_last() =~= keys@.take(i as int));
            if keys[i] {
                proof {
                    assert(first_set(keys@.take(i + 1)) == Some(i as nat));
                    lemma_first_set_extends(keys@, (i + 1) as nat);
                }
                return Some(i as u8);
            }
            i = i + 1;
        }
        assert(keys@.take(i as int) =~= keys@);
        None
    }

    /// Feeds one scan. Returns the key held on the previous scan when nothing
    /// is pressed on this one (a press followed by a full release), and
    /// `None` otherwise. Of keys pressed together, the one held is the lowest
    /// row-major index pressed on the latest scan.
    pub fn get_key(&mut self, keys: &Vec<bool>) -> (r: Option<u8>)
        requires
            keys@.len() == old(self)@.rows * old(self)@.columns,
            old(self)@.rows * old(self)@.columns <= 256,
        ensures
            (final(self)@.held, r) == scan_step(old(self)@.held, keys@),
            final(self)@.rows == old(self)@.rows,
            final(self)@.columns == old(self)@.columns,
    {
        let pressed = Keyboard::get_first_pressed(keys);
        match pressed {
            Some(k) => {
                self.held = Some(k);
                None
            },
            None => {
                let last = self.held;
                self.held = None;
                last
            },
        }
    }
}

/// A pressed key found in a prefix is the first pressed key of the whole scan.
proof fn lemma_first_set_extends(keys: Seq<bool>, m: nat)
    requires
        m <= keys.len(),
        first_set(keys.take(m as int)).is_some(),
    ensures
        first_set(keys) == first_set(keys.take(m as int)),
    decreases keys.len() - m,
{
    if m < keys.len() {
        assert(keys.take(m + 1 as int).drop_last() =~= keys.take(m as int));
        lemma_first_set_extends(keys, (m + 1) as nat);
    } else {
        assert(keys.take(m as int) =~= keys);
    }
}

} // verus!
