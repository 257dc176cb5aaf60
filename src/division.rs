//! The halving engine: a 16-slot decimal register entered digit by digit, then
//! divided by two window by window, with carry, window and remainder marks
//! rendered beside each digit.
//!
//! Slot 15 is the least significant digit. The cursor counts slots from the
//! right: during entry the filled digits are the slots after it; during
//! halving the slots `16 - cursor ..= 15` have been processed.
use vstd::prelude::*;
use crate::tm1638::{TM1638, DisplayModel, Frame, Target, MAX_MODULES, OPCODE_DISPLAY_ON, EMPTY, glyph_of, glyph_byte, lemma_write_text_keeps};
use crate::keyboard::{Keyboard, KeyboardModel, scan_step};

verus! {

/// Number of digit slots of the register.
pub const SLOTS: usize = 16;

/// Register value of an empty slot.
pub const BLANK: u8 = 10;

/// Display position where a newly entered digit appears.
pub const INPUT_ADDRESS: u8 = 30;

/// Key codes of the control functions.
pub const KEY_CONTINUE: u8 = 10;
pub const KEY_CONTINUE_ALT: u8 = 11;
pub const KEY_RESET: u8 = 12;
pub const KEY_BACKSPACE: u8 = 13;
pub const KEY_RESET_ALT: u8 = 18;
pub const KEY_SUBMIT: u8 = 19;

/// What a key did during entry.
#[derive(Clone, Copy, Debug, PartialEq, Eq, Structural)]
pub enum Entry {
    /// Entry goes on.
    Waiting,
    /// The run was reset and the prompt shown: wait for any key, then
    /// call [`DivisionHelper::dismiss_prompt`].
    Prompt,
    /// The number was accepted: halving starts.
    Submitted,
}

/// What the engine shows while it waits for the next key.
#[derive(Clone, Copy, Debug, PartialEq, Eq, Structural)]
pub enum Phase {
    /// The prompt: any key starts entry.
    Prompt,
    /// Digit entry.
    Entering,
    /// Carry marks: continue marks remainders.
    Carries,
    /// Remainder points: continue advances the first window.
    Remainders,
    /// The window: continue halves it.
    Window,
    /// The quotient of the window: continue advances the next one.
    Quotient,
}

/// Whether a key code is one of the two continue keys.
pub open spec fn is_continue(key: u8) -> bool {
    key == KEY_CONTINUE || key == KEY_CONTINUE_ALT
}

/// The phase that follows `phase` when `key` comes in state `m`.
pub open spec fn next_phase(phase: Phase, key: u8, m: EngineModel) -> Phase {
    match phase {
        Phase::Prompt => Phase::Entering,
        Phase::Entering => if key == KEY_RESET || key == KEY_RESET_ALT {
            Phase::Prompt
        } else if key == KEY_SUBMIT && !m.is_empty() {
            Phase::Carries
        } else {
            Phase::Entering
        },
        Phase::Carries => if is_continue(key) { Phase::Remainders } else { Phase::Carries },
        Phase::Remainders | Phase::Quotient => if !is_continue(key) {
            phase
        } else if m.position == 15 || !joins_window(m.digits, m.points, m.position, 0) {
            Phase::Prompt
        } else {
            Phase::Window
        },
        Phase::Window => if is_continue(key) { Phase::Quotient } else { Phase::Window },
    }
}

/// Abstract state of the engine.
pub struct EngineModel {
    pub digits: Seq<u8>,
    pub position: nat,
    /// Carry-out marks: parity of the next more significant digit.
    pub carries: Seq<bool>,
    /// Slots of the window being halved.
    pub window: Seq<bool>,
    /// Remainder points, kept for the whole run.
    pub points: Seq<bool>,
    pub display: DisplayModel,
    pub keyboard: KeyboardModel,
    /// Key code of each physical key.
    pub fonts: Seq<u8>,
    pub phase: Phase,
}

/// The character shown for a register value: its digit, or a space.
pub open spec fn digit_char(n: u8) -> char {
    match n {
        0 => '0',
        1 => '1',
        2 => '2',
        3 => '3',
        4 => '4',
        5 => '5',
        6 => '6',
        7 => '7',
        8 => '8',
        9 => '9',
        _ => ' ',
    }
}

/// Blank slots only ever stand to the left of digits.
pub open spec fn right_aligned(d: Seq<u8>) -> bool {
    forall|i: int, j: int| 0 <= j < i < d.len() && d[i] == BLANK ==> d[j] == BLANK
}

/// The register after entering `key` with the cursor at `p`: the digits move
/// one slot left and `key` takes the last slot.
pub open spec fn entered(d: Seq<u8>, p: nat, key: u8) -> Seq<u8> {
    Seq::new(16, |i: int| if i < p { d[i] } else if i < 15 { d[i + 1] } else { key })
}

/// The register after removing the last entered digit with the cursor at `p`.
pub open spec fn backspaced(d: Seq<u8>, p: nat) -> Seq<u8> {
    Seq::new(16, |i: int| if i <= p { d[i] } else if i == p + 1 { BLANK } else { d[i - 1] })
}

/// Carry marks: each digit slot gets the parity of the digit before it.
pub open spec fn marked_carries(d: Seq<u8>, c: Seq<bool>) -> Seq<bool> {
    Seq::new(16, |i: int| if 1 <= i && d[i] != BLANK { d[i - 1] % 2 == 1 } else { c[i] })
}

/// Remainder points: each digit whose successor gets no carry is marked,
/// and marks already set stay.
pub open spec fn marked_points(d: Seq<u8>, c: Seq<bool>, p: Seq<bool>) -> Seq<bool> {
    Seq::new(16, |i: int| p[i] || (i < 15 && d[i] != BLANK && !c[i + 1]))
}

/// Whether the `j`-th slot left of the cursor joins the window: it exists,
/// holds a digit, and (past the first) carries no remainder point.
pub open spec fn joins_window(d: Seq<u8>, pts: Seq<bool>, cursor: nat, j: nat) -> bool {
    &&& cursor + j <= 15
    &&& d[15 - cursor - j] != BLANK
    &&& (j == 0 || !pts[15 - cursor - j])
}

/// Half of a digit, plus five when a carry comes in; blank when zero.
pub open spec fn halved(v: u8, carry: bool) -> u8 {
    let x: int = v + if carry { 10int } else { 0int };
    if x / 2 == 0 {
        BLANK
    } else {
        (x / 2) as u8
    }
}

/// The register after halving the window `w`: every window slot but the
/// most significant one receives a carry.
pub open spec fn quotient(d: Seq<u8>, w: Seq<bool>) -> Seq<u8> {
    Seq::new(16, |i: int| if w[i] { halved(d[i], exists|j: int| 0 <= j < i && w[j]) } else { d[i] })
}

/// Display memory after a mark is rendered beside each digit slot `i`, at
/// position `2i + 1`: an `8` when set, blank otherwise.
pub open spec fn marks_rendered(ram: Seq<u8>, marks: Seq<bool>) -> Seq<u8> {
    Seq::new(ram.len(), |q: int| if q % 2 == 1 && q < 32 {
        if marks[q / 2] { glyph_of('8') } else { EMPTY }
    } else {
        ram[q]
    })
}

/// Display memory after each slot `i` picked by `w` is rendered at
/// position `2i`: its digit, with its remainder point.
pub open spec fn digits_rendered(ram: Seq<u8>, d: Seq<u8>, pts: Seq<bool>, w: Seq<bool>) -> Seq<u8> {
    Seq::new(ram.len(), |q: int| if q % 2 == 0 && q < 32 && w[q / 2] {
        glyph_byte(digit_char(d[q / 2]), pts[q / 2])
    } else {
        ram[q]
    })
}

/// The character shown beside a slot for a mark.
pub open spec fn mark_char(mark: bool) -> char {
    if mark { '8' } else { ' ' }
}

/// Display after the marks of slots `0..n` are rendered, in that order, each
/// at position `2i + 1`.
pub open spec fn marks_shown(m: DisplayModel, marks: Seq<bool>, n: nat) -> DisplayModel
    decreases n,
{
    if n == 0 {
        m
    } else {
        marks_shown(m, marks, (n - 1) as nat).put((2 * (n - 1) + 1) as nat, mark_char(marks[n - 1]), false)
    }
}

/// Display after each slot `i < n` picked by `sel` is rendered at position
/// `2i` with its digit of `d` and its point of `pts`, slot 0 first.
pub open spec fn slots_shown_up(m: DisplayModel, d: Seq<u8>, pts: Seq<bool>, sel: Seq<bool>, n: nat) -> DisplayModel
    decreases n,
{
    if n == 0 {
        m
    } else {
        let before = slots_shown_up(m, d, pts, sel, (n - 1) as nat);
        if sel[n - 1] {
            before.put((2 * (n - 1)) as nat, digit_char(d[n - 1]), pts[n - 1])
        } else {
            before
        }
    }
}

/// Display after each slot `i` from 15 down to `lo` picked by `sel` is
/// rendered at position `2i` with its digit of `d` and its point of `pts`.
pub open spec fn slots_shown_down(m: DisplayModel, d: Seq<u8>, pts: Seq<bool>, sel: Seq<bool>, lo: nat) -> DisplayModel
    decreases 16 - lo,
{
    if lo >= 16 {
        m
    } else {
        let before = slots_shown_down(m, d, pts, sel, lo + 1);
        if sel[lo as int] {
            before.put(2 * lo, digit_char(d[lo as int]), pts[lo as int])
        } else {
            before
        }
    }
}

/// Rendering picks nothing among slots that no selection picks.
pub proof fn lemma_up_unselected(m: DisplayModel, d: Seq<u8>, pts: Seq<bool>, sel: Seq<bool>, n: nat)
    requires
        forall|j: int| 0 <= j < n ==> !sel[j],
    ensures
        slots_shown_up(m, d, pts, sel, n) == m,
    decreases n,
{
    if n > 0 {
        lemma_up_unselected(m, d, pts, sel, (n - 1) as nat);
    }
}

/// Rendering slots below `n` reads only their digits.
pub proof fn lemma_up_same_digits(m: DisplayModel, d1: Seq<u8>, d2: Seq<u8>, pts: Seq<bool>, sel: Seq<bool>, n: nat)
    requires
        forall|j: int| 0 <= j < n ==> d1[j] == d2[j],
    ensures
        slots_shown_up(m, d1, pts, sel, n) == slots_shown_up(m, d2, pts, sel, n),
    decreases n,
{
    if n > 0 {
        lemma_up_same_digits(m, d1, d2, pts, sel, (n - 1) as nat);
    }
}

/// No slot, or every slot.
pub open spec fn none_of() -> Seq<bool> {
    Seq::new(16, |i: int| false)
}

pub open spec fn all_of() -> Seq<bool> {
    Seq::new(16, |i: int| true)
}

/// Display after a new run is prompted for: switched on at full brightness,
/// blanked, then "insert" from position 0 and "number" from position 20.
pub open spec fn prompted(m: DisplayModel) -> DisplayModel {
    m.sent(seq![Frame { target: Target::All, byte: (OPCODE_DISPLAY_ON + 7) as u8, opens: true }])
        .cleaned()
        .write_text(0, "insert"@)
        .write_text(20, "number"@)
}

/// The slots that gain a remainder point.
pub open spec fn new_points(d: Seq<u8>, c: Seq<bool>) -> Seq<bool> {
    Seq::new(16, |i: int| i < 15 && d[i] != BLANK && !c[i + 1])
}

impl EngineModel {
    pub open spec fn wf(self) -> bool {
        &&& self.digits.len() == 16
        &&& self.carries.len() == 16
        &&& self.window.len() == 16
        &&& self.points.len() == 16
        &&& self.position <= 16
        &&& forall|i: int| 0 <= i < 16 ==> self.digits[i] <= BLANK
        &&& self.display.wf()
        &&& self.keyboard.rows * self.keyboard.columns <= 256
    }

    /// The state entry starts from: every slot blank, no marks, cursor 15.
    pub open spec fn is_blank_run(self) -> bool {
        &&& self.digits == Seq::new(16, |i: int| BLANK)
        &&& self.position == 15
        &&& self.carries == Seq::new(16, |i: int| false)
        &&& self.window == Seq::new(16, |i: int| false)
        &&& self.points == Seq::new(16, |i: int| false)
    }

    /// During entry: the slots up to the cursor are blank, the rest digits.
    pub open spec fn entry_ok(self) -> bool {
        &&& self.position <= 15
        &&& forall|i: int| 0 <= i <= self.position ==> self.digits[i] == BLANK
        &&& forall|i: int| self.position < i < 16 ==> self.digits[i] <= 9
    }

    pub open spec fn is_empty(self) -> bool {
        forall|i: int| 0 <= i < 16 ==> self.digits[i] == BLANK
    }

    /// Same display size, keyboard, key codes and phase.
    pub open spec fn same_setup(self, other: EngineModel) -> bool {
        &&& self.display.modules == other.display.modules
        &&& self.keyboard == other.keyboard
        &&& self.fonts == other.fonts
        &&& self.phase == other.phase
    }

    /// Same register, cursor and marks.
    pub open spec fn same_run(self, other: EngineModel) -> bool {
        &&& self.digits == other.digits
        &&& self.position == other.position
        &&& self.carries == other.carries
        &&& self.window == other.window
        &&& self.points == other.points
    }

    /// Effect of marking carries: `next` follows `self`.
    pub open spec fn carries_effect(self, next: EngineModel) -> bool {
        &&& next.carries == marked_carries(self.digits, self.carries)
        &&& next.display.ram == marks_rendered(self.display.ram, next.carries)
        &&& next.display == marks_shown(self.display, next.carries, 16)
        &&& next.keeps_points(self)
        &&& next.digits == self.digits
        &&& next.position == self.position
        &&& next.window == self.window
        &&& next.points == self.points
    }

    /// Effect of marking remainders: `next` follows `self`.
    pub open spec fn points_effect(self, next: EngineModel) -> bool {
        &&& next.points == marked_points(self.digits, self.carries, self.points)
        &&& next.display.ram == digits_rendered(self.display.ram, self.digits, next.points, new_points(self.digits, self.carries))
        &&& next.display == slots_shown_up(self.display, self.digits, all_of(), new_points(self.digits, self.carries), 15)
        &&& next.keeps_points(self)
        &&& next.digits == self.digits
        &&& next.position == self.position
        &&& next.carries == self.carries
        &&& next.window == self.window
    }

    /// Effect of one key during entry, answered with `r`: `next` follows `self`.
    pub open spec fn entry_effect(self, key: u8, next: EngineModel, r: Entry) -> bool {
        &&& right_aligned(next.digits)
        &&& r != Entry::Submitted ==> next.entry_ok()
        &&& next.keeps_points(self) || next.is_blank_run()
        &&& (key <= 9 && self.position > 0 ==> r == Entry::Waiting
            && next.digits == entered(self.digits, self.position, key)
            && next.display.ram == digits_rendered(
                self.display.ram,
                next.digits,
                Seq::new(16, |i: int| false),
                Seq::new(16, |i: int| i >= self.position),
            )
            && next.display == slots_shown_up(
                self.display.put(INPUT_ADDRESS as nat, digit_char(key), false),
                next.digits,
                none_of(),
                Seq::new(16, |i: int| i >= self.position),
                15,
            )
            && next.position == self.position - 1
            && next.carries == self.carries
            && next.window == self.window
            && next.points == self.points)
        &&& (key == KEY_BACKSPACE && self.position < 15 ==> r == Entry::Waiting
            && next.digits == backspaced(self.digits, self.position)
            && next.display.ram == digits_rendered(
                self.display.ram,
                next.digits,
                Seq::new(16, |i: int| false),
                Seq::new(16, |i: int| i > self.position),
            )
            && next.display == slots_shown_down(self.display, next.digits, none_of(), all_of(), self.position + 1)
            && next.position == self.position + 1
            && next.carries == self.carries
            && next.window == self.window
            && next.points == self.points)
        &&& key == KEY_RESET || key == KEY_RESET_ALT ==> r == Entry::Prompt && next.is_blank_run()
            && next.display == prompted(self.display)
        &&& (key == KEY_SUBMIT && !self.is_empty() ==> r == Entry::Submitted
            && next.display == self.display
            && next.position == 0
            && next.digits == self.digits
            && next.carries == self.carries
            && next.window == self.window
            && next.points == self.points)
        &&& ((key <= 9 && self.position == 0)
            || (key == KEY_BACKSPACE && self.position == 15)
            || (key == KEY_SUBMIT && self.is_empty())
            || (9 < key && key != KEY_BACKSPACE && key != KEY_RESET && key != KEY_RESET_ALT && key != KEY_SUBMIT)
            ==> r == Entry::Waiting && next.same_run(self) && next.display == self.display)
    }

    /// Effect of advancing the window: `next` follows `self`.
    pub open spec fn window_effect(self, next: EngineModel) -> bool {
        &&& !joins_window(self.digits, self.points, self.position, 0) ==> next.is_blank_run()
            && next.display == self.display.cleaned()
        &&& (joins_window(self.digits, self.points, self.position, 0) ==> ({
            let w = (next.position - self.position) as nat;
            &&& self.position < next.position <= 16
            &&& forall|j: nat| j < w ==> joins_window(self.digits, self.points, self.position, j)
            &&& !joins_window(self.digits, self.points, self.position, w)
            &&& next.window == Seq::new(16, |i: int| 16 - next.position <= i <= 15 - self.position)
            &&& next.display.ram == marks_rendered(self.display.ram, next.window)
            &&& next.display == marks_shown(self.display, next.window, 16)
            &&& next.digits == self.digits
            &&& next.carries == self.carries
            &&& next.points == self.points
        }))
        &&& next.keeps_points(self) || next.is_blank_run()
    }

    /// Effect of halving the window: `next` follows `self`.
    pub open spec fn quotient_effect(self, next: EngineModel) -> bool {
        &&& (exists|i: int| 0 <= i < 16 && self.window[i] && self.digits[i] == BLANK) ==> next.is_blank_run()
            && next.display == self.display.cleaned()
        &&& (!(exists|i: int| 0 <= i < 16 && self.window[i] && self.digits[i] == BLANK) ==> {
            &&& next.digits == quotient(self.digits, self.window)
            &&& next.display.ram == digits_rendered(self.display.ram, next.digits, self.points, self.window)
            &&& next.display == slots_shown_down(self.display, next.digits, self.points, self.window, 0)
            &&& next.position == self.position
            &&& next.carries == self.carries
            &&& next.window == self.window
            &&& next.points == self.points
        })
        &&& next.keeps_points(self) || next.is_blank_run()
    }

    /// No remainder point of `other` is missing here.
    pub open spec fn keeps_points(self, other: EngineModel) -> bool {
        forall|i: int| 0 <= i < 16 && other.points[i] ==> self.points[i]
    }
}

/// Every register that entry leaves is right-aligned.
pub proof fn lemma_entry_ok_aligned(m: EngineModel)
    requires
        m.digits.len() == 16,
        m.entry_ok(),
    ensures
        right_aligned(m.digits),
{
}

/// Removing the last entered digit gives back the register as it was
/// before that digit was entered.
pub proof fn lemma_backspace_undoes_entry(d: Seq<u8>, p: nat, key: u8)
    requires
        d.len() == 16,
        1 <= p <= 15,
        key <= 9,
        forall|i: int| 0 <= i <= p ==> d[i] == BLANK,
    ensures
        backspaced(entered(d, p, key), (p - 1) as nat) == d,
{
    assert(backspaced(entered(d, p, key), (p - 1) as nat) =~= d);
}

/// Marking carries twice over the same register marks the same as once.
pub proof fn lemma_carries_idempotent(d: Seq<u8>, c: Seq<bool>)
    requires
        d.len() == 16,
        c.len() == 16,
    ensures
        marked_carries(d, marked_carries(d, c)) == marked_carries(d, c),
{
    assert(marked_carries(d, marked_carries(d, c)) =~= marked_carries(d, c));
}

/// The character shown for a register value.
pub fn convert_to_char(number: u8) -> (r: char)
    ensures
        r == digit_char(number),
{
    match number {
        0 => '0',
        1 => '1',
        2 => '2',
        3 => '3',
        4 => '4',
        5 => '5',
        6 => '6',
        7 => '7',
        8 => '8',
        9 => '9',
        _ => ' ',
    }
}

/// Which continue key a key code is: 1 or 2, or 0 for any other key.
pub fn press_any_key(key: u8) -> (r: u8)
    ensures
        r == if key == KEY_CONTINUE { 1u8 } else if key == KEY_CONTINUE_ALT { 2u8 } else { 0u8 },
{
    match key {
        KEY_CONTINUE => 1,
        KEY_CONTINUE_ALT => 2,
        _ => 0,
    }
}

/// Renders a mark beside each digit slot: the odd positions.
fn show(displays: &mut TM1638, marks: [bool; 16])
    requires
        old(displays)@.wf(),
    ensures
        final(displays)@.wf(),
        final(displays)@.modules == old(displays)@.modules,
        final(displays)@.ram == marks_rendered(old(displays)@.ram, marks@),
        final(displays)@ == marks_shown(old(displays)@, marks@, 16),
{
    let ghost ram0 = displays@.ram;
    let ghost d0 = displays@;
    let mut i: usize = 0;
    while i < SLOTS
        invariant
            i <= SLOTS,
            displays@.wf(),
            displays@.modules == old(displays)@.modules,
            ram0 == old(displays)@.ram,
            d0 == old(displays)@,
            displays@ == marks_shown(d0, marks@, i as nat),
            displays@.ram == Seq::new(ram0.len(), |q: int| if q % 2 == 1 && q < 2 * i {
                if marks[q / 2] { glyph_of('8') } else { EMPTY }
            } else {
                ram0[q]
            }),
        decreases SLOTS - i,
    {
        let ghost before = displays@.ram;
        let c: char = if marks[i] { '8' } else { ' ' };
        displays.set_segment((2 * i + 1) as u8, c, false);
        i = i + 1;
        assert(displays@.ram =~= Seq::new(ram0.len(), |q: int| if q % 2 == 1 && q < 2 * i {
            if marks[q / 2] { glyph_of('8') } else { EMPTY }
        } else {
            ram0[q]
        }));
    }
    assert(displays@.ram =~= marks_rendered(ram0, marks@));
}

/// The engine: register, marks and cursor, the display it renders on, and
/// the keypad it reads.
pub struct DivisionHelper {
    displays: TM1638,
    keyboard: Keyboard,
    keyboard_fonts: Vec<u8>,
    digits: [u8; 16],
    position: usize,
    carries: [bool; 16],
    window: [bool; 16],
    points: [bool; 16],
    phase: Phase,
}

impl View for DivisionHelper {
    type V = EngineModel;

    closed spec fn view(&self) -> EngineModel {
        EngineModel {
            digits: self.digits@,
            position: self.position as nat,
            carries: self.carries@,
            window: self.window@,
            points: self.points@,
            display: self.displays@,
            keyboard: self.keyboard@,
            fonts: self.keyboard_fonts@,
            phase: self.phase,
        }
    }
}

impl DivisionHelper {
    /// An engine with a blank run, rendering on `modules` chained display
    /// modules and reading a keypad of `columns` columns and `rows` rows whose
    /// physical key `k` (row-major) has the code `fonts[k]`.
    pub fn new(modules: usize, columns: usize, rows: usize, fonts: Vec<u8>) -> (r: Self)
        requires
            1 <= modules <= MAX_MODULES,
            rows * columns <= 256,
        ensures
            r@.wf(),
            r@.is_blank_run(),
            r@.display.modules == modules,
            r@.display.frames == Seq::<Frame>::empty(),
            r@.keyboard.rows == rows,
            r@.keyboard.columns == columns,
            r@.keyboard.held.is_none(),
            r@.fonts == fonts@,
            r@.phase == Phase::Prompt,
    {
        let r = DivisionHelper {
            displays: TM1638::new(modules),
            keyboard: Keyboard::new(columns, rows),
            keyboard_fonts: fonts,
            digits: [BLANK; 16],
            position: 15,
            carries: [false; 16],
            window: [false; 16],
            points: [false; 16],
            phase: Phase::Prompt,
        };
        assert(r@.digits =~= Seq::new(16, |i: int| BLANK));
        assert(r@.carries =~= Seq::new(16, |i: int| false));
        assert(r@.window =~= Seq::new(16, |i: int| false));
        assert(r@.points =~= Seq::new(16, |i: int| false));
        r
    }

    /// Blanks the register and every mark, and puts the cursor at 15.
    fn clear_run(&mut self)
        requires
            old(self)@.wf(),
        ensures
            final(self)@.wf(),
            final(self)@.is_blank_run(),
            final(self)@.display == old(self)@.display,
            final(self)@.keyboard == old(self)@.keyboard,
            final(self)@.fonts == old(self)@.fonts,
            final(self)@.phase == old(self)@.phase,
    {
        self.digits = [BLANK; 16];
        self.points = [false; 16];
        self.carries = [false; 16];
        self.window = [false; 16];
        self.position = 15;
        assert(self@.digits =~= Seq::new(16, |i: int| BLANK));
        assert(self@.carries =~= Seq::new(16, |i: int| false));
        assert(self@.window =~= Seq::new(16, |i: int| false));
        assert(self@.points =~= Seq::new(16, |i: int| false));
    }

    /// Starts a new run: switches the display on at full brightness, blanks
    /// it and the whole run state, and shows the prompt.
    pub fn reset(&mut self)
        requires
            old(self)@.wf(),
        ensures
            final(self)@.wf(),
            final(self)@.is_blank_run(),
            final(self)@.same_setup(old(self)@),
            final(self)@.display == prompted(old(self)@.display),
    {
        self.displays.display_on(7);
        self.displays.clean();
        self.clear_run();
        proof {
            lemma_write_text_keeps(self@.display, 0, "insert"@);
        }
        self.displays.write(0, "insert");
        proof {
            lemma_write_text_keeps(self@.display, 20, "number"@);
        }
        self.displays.write(20, "number");
    }

    /// Blanks the display once the prompt has been acknowledged.
    pub fn dismiss_prompt(&mut self)
        requires
            old(self)@.wf(),
        ensures
            final(self)@.wf(),
            final(self)@.same_run(old(self)@),
            final(self)@.same_setup(old(self)@),
            final(self)@.display == old(self)@.display.cleaned(),
    {
        self.displays.clean();
    }

    /// Whether every slot of the register is blank.
    pub fn is_empty(&self) -> (r: bool)
        requires
            self@.wf(),
        ensures
            r == self@.is_empty(),
    {
        let mut i: usize = 0;
        while i < SLOTS
            invariant
                i <= SLOTS,
                self@.wf(),
                forall|j: int| 0 <= j < i ==> self@.digits[j] == BLANK,
            decreases SLOTS - i,
        {
            if self.digits[i] != BLANK {
                return false;
            }
            i = i + 1;
        }
        true
    }

    /// Whether the run is complete: the cursor stands at 15.
    pub fn is_finished(&self) -> (r: bool)
        ensures
            r == (self@.position == 15),
    {
        self.position == 15
    }

    /// Marks carries: every digit slot but the first gets the parity of
    /// the digit before it. The marks are then rendered.
    pub fn first_step(&mut self)
        requires
            old(self)@.wf(),
        ensures
            final(self)@.wf(),
            final(self)@.same_setup(old(self)@),
            old(self)@.carries_effect(final(self)@),
    {
        let ghost s0 = self@;
        let mut i: usize = 1;
        while i < SLOTS
            invariant
                1 <= i <= SLOTS,
                self@.wf(),
                self@.same_setup(s0),
                self@.display == s0.display,
                self@.digits == s0.digits,
                self@.position == s0.position,
                self@.window == s0.window,
                self@.points == s0.points,
                forall|j: int| 0 <= j < i ==> self@.carries[j] == marked_carries(s0.digits, s0.carries)[j],
                forall|j: int| i <= j < 16 ==> self@.carries[j] == s0.carries[j],
            decreases SLOTS - i,
        {
            if self.digits[i] != BLANK {
                self.carries[i] = self.digits[i - 1] % 2 == 1;
            }
            i = i + 1;
        }
        assert(self@.carries =~= marked_carries(s0.digits, s0.carries));
        show(&mut self.displays, self.carries);
    }

    /// Marks remainders: a digit whose successor has no carry mark gets its
    /// point, rendered at once; points already set stay.
    pub fn second_step(&mut self)
        requires
            old(self)@.wf(),
        ensures
            final(self)@.wf(),
            final(self)@.same_setup(old(self)@),
            old(self)@.points_effect(final(self)@),
    {
        let ghost s0 = self@;
        let mut i: usize = 0;
        while i < SLOTS - 1
            invariant
                i <= SLOTS - 1,
                self@.wf(),
                self@.same_setup(s0),
                self@.digits == s0.digits,
                self@.position == s0.position,
                self@.window == s0.window,
                self@.carries == s0.carries,
                forall|j: int| 0 <= j < i ==> self@.points[j] == marked_points(s0.digits, s0.carries, s0.points)[j],
                forall|j: int| i <= j < 16 ==> self@.points[j] == s0.points[j],
                self@.display == slots_shown_up(s0.display, s0.digits, all_of(), new_points(s0.digits, s0.carries), i as nat),
                self@.display.ram == Seq::new(s0.display.ram.len(), |q: int| if q % 2 == 0 && q < 2 * i && new_points(s0.digits, s0.carries)[q / 2] {
                    glyph_byte(digit_char(s0.digits[q / 2]), true)
                } else {
                    s0.display.ram[q]
                }),
            decreases SLOTS - 1 - i,
        {
            if self.digits[i] != BLANK && !self.carries[i + 1] {
                let c = convert_to_char(self.digits[i]);
                self.displays.set_segment((2 * i) as u8, c, true);
                self.points[i] = true;
            }
            i = i + 1;
            assert(self@.display.ram =~= Seq::new(s0.display.ram.len(), |q: int| if q % 2 == 0 && q < 2 * i && new_points(s0.digits, s0.carries)[q / 2] {
                glyph_byte(digit_char(s0.digits[q / 2]), true)
            } else {
                s0.display.ram[q]
            }));
        }
        assert(self@.points =~= marked_points(s0.digits, s0.carries, s0.points));
        assert(self@.display.ram =~= digits_rendered(s0.display.ram, s0.digits, self@.points, new_points(s0.digits, s0.carries)));
    }

    /// Moves the entered digits one slot left, from the cursor on, and
    /// renders each moved slot.
    fn move_left(&mut self)
        requires
            old(self)@.wf(),
            old(self)@.position <= 15,
        ensures
            final(self)@.wf(),
            final(self)@.same_setup(old(self)@),
            final(self)@.position == old(self)@.position,
            final(self)@.carries == old(self)@.carries,
            final(self)@.window == old(self)@.window,
            final(self)@.points == old(self)@.points,
            forall|j: int| 0 <= j < old(self)@.position ==> final(self)@.digits[j] == old(self)@.digits[j],
            forall|j: int| old(self)@.position <= j < 15 ==> final(self)@.digits[j] == old(self)@.digits[j + 1],
            final(self)@.digits[15] == old(self)@.digits[15],
            final(self)@.display.ram == Seq::new(old(self)@.display.ram.len(), |q: int|
                if q % 2 == 0 && 2 * old(self)@.position <= q < 30 {
                    glyph_byte(digit_char(old(self)@.digits[q / 2 + 1]), false)
                } else {
                    old(self)@.display.ram[q]
                }),
            final(self)@.display == slots_shown_up(
                old(self)@.display,
                final(self)@.digits,
                none_of(),
                Seq::new(16, |i: int| i >= old(self)@.position),
                15,
            ),
    {
        let ghost s0 = self@;
        let ghost target = Seq::new(16, |j: int| if j < s0.position { s0.digits[j] } else if j < 15 { s0.digits[j + 1] } else { s0.digits[15] });
        let mut i: usize = self.position;
        proof {
            lemma_up_unselected(s0.display, target, none_of(), Seq::new(16, |j: int| j >= s0.position), s0.position);
        }
        while i < SLOTS - 1
            invariant
                s0.position <= i <= 15,
                self@.wf(),
                self@.same_setup(s0),
                self@.position == s0.position,
                self@.carries == s0.carries,
                self@.window == s0.window,
                self@.points == s0.points,
                forall|j: int| 0 <= j < s0.position ==> self@.digits[j] == s0.digits[j],
                forall|j: int| s0.position <= j < i ==> self@.digits[j] == s0.digits[j + 1],
                forall|j: int| i <= j < 16 ==> self@.digits[j] == s0.digits[j],
                target == Seq::new(16, |j: int| if j < s0.position { s0.digits[j] } else if j < 15 { s0.digits[j + 1] } else { s0.digits[15] }),
                self@.display == slots_shown_up(s0.display, target, none_of(), Seq::new(16, |j: int| j >= s0.position), i as nat),
                self@.display.ram == Seq::new(s0.display.ram.len(), |q: int|
                    if q % 2 == 0 && 2 * s0.position <= q < 2 * i {
                        glyph_byte(digit_char(s0.digits[q / 2 + 1]), false)
                    } else {
                        s0.display.ram[q]
                    }),
            decreases SLOTS - 1 - i,
        {
            self.digits[i] = self.digits[i + 1];
            let c = convert_to_char(self.digits[i]);
            self.displays.set_segment((2 * i) as u8, c, false);
            i = i + 1;
            assert(self@.display.ram =~= Seq::new(s0.display.ram.len(), |q: int|
                if q % 2 == 0 && 2 * s0.position <= q < 2 * i {
                    glyph_byte(digit_char(s0.digits[q / 2 + 1]), false)
                } else {
                    s0.display.ram[q]
                }));
        }
        assert(self@.digits =~= target);
    }

    /// Moves the entered digits one slot right, blanking the slot after the
    /// cursor, and renders each changed slot.
    fn move_right(&mut self)
        requires
            old(self)@.wf(),
            old(self)@.position < 15,
        ensures
            final(self)@.wf(),
            final(self)@.same_setup(old(self)@),
            final(self)@.position == old(self)@.position,
            final(self)@.carries == old(self)@.carries,
            final(self)@.window == old(self)@.window,
            final(self)@.points == old(self)@.points,
            final(self)@.digits == backspaced(old(self)@.digits, old(self)@.position),
            final(self)@.display.ram == digits_rendered(
                old(self)@.display.ram,
                final(self)@.digits,
                Seq::new(16, |i: int| false),
                Seq::new(16, |i: int| i > old(self)@.position),
            ),
            final(self)@.display == slots_shown_down(old(self)@.display, final(self)@.digits, none_of(), all_of(), old(self)@.position + 1),
    {
        let ghost s0 = self@;
        let p: usize = self.position;
        let mut j: usize = SLOTS - 1;
        while j > p + 1
            invariant
                p == s0.position,
                p + 1 <= j <= 15,
                self@.wf(),
                self@.same_setup(s0),
                self@.position == s0.position,
                self@.carries == s0.carries,
                self@.window == s0.window,
                self@.points == s0.points,
                forall|t: int| 0 <= t <= j ==> self@.digits[t] == s0.digits[t],
                forall|t: int| j < t < 16 ==> self@.digits[t] == s0.digits[t - 1],
                self@.display == slots_shown_down(s0.display, backspaced(s0.digits, s0.position), none_of(), all_of(), (j + 1) as nat),
                self@.display.ram == Seq::new(s0.display.ram.len(), |q: int|
                    if q % 2 == 0 && 2 * j < q < 32 {
                        glyph_byte(digit_char(s0.digits[q / 2 - 1]), false)
                    } else {
                        s0.display.ram[q]
                    }),
            decreases j,
        {
            self.digits[j] = self.digits[j - 1];
            let c = convert_to_char(self.digits[j]);
            self.displays.set_segment((2 * j) as u8, c, false);
            j = j - 1;
            assert(self@.display.ram =~= Seq::new(s0.display.ram.len(), |q: int|
                if q % 2 == 0 && 2 * j < q < 32 {
                    glyph_byte(digit_char(s0.digits[q / 2 - 1]), false)
                } else {
                    s0.display.ram[q]
                }));
        }
        self.digits[p + 1] = BLANK;
        self.displays.set_segment((2 * (p + 1)) as u8, ' ', false);
        assert(self@.digits =~= backspaced(s0.digits, s0.position));
        assert(self@.display.ram =~= digits_rendered(
            s0.display.ram,
            self@.digits,
            Seq::new(16, |i: int| false),
            Seq::new(16, |i: int| i > s0.position),
        ));
    }

    /// Handles one key during entry.
    ///
    /// A digit, while a slot is free, is appended as the least significant
    /// digit; backspace, while a digit is entered, removes the last one;
    /// either reset key starts a blank run and shows the prompt; submit, once
    /// a digit is entered, ends entry with the cursor at 0. Any other key is
    /// ignored.
    pub fn insert_number(&mut self, key: u8) -> (r: Entry)
        requires
            old(self)@.wf(),
            old(self)@.entry_ok(),
        ensures
            final(self)@.wf(),
            final(self)@.same_setup(old(self)@),
            old(self)@.entry_effect(key, final(self)@, r),
    {
        let ghost s0 = self@;
        if key <= 9 {
            if self.position > 0 {
                self.displays.set_segment(INPUT_ADDRESS, convert_to_char(key), false);
                let ghost typed = self@;
                self.move_left();
                let ghost shifted = self@;
                self.position = self.position - 1;
                self.digits[SLOTS - 1] = key;
                proof {
                    lemma_up_same_digits(
                        typed.display,
                        shifted.digits,
                        self@.digits,
                        none_of(),
                        Seq::new(16, |i: int| i >= s0.position),
                        15,
                    );
                }
                assert(self@.digits =~= entered(s0.digits, s0.position, key));
                assert(self@.display.ram =~= digits_rendered(
                    s0.display.ram,
                    self@.digits,
                    Seq::new(16, |i: int| false),
                    Seq::new(16, |i: int| i >= s0.position),
                ));
            }
            proof { lemma_entry_ok_aligned(self@); }
            Entry::Waiting
        } else if key == KEY_RESET || key == KEY_RESET_ALT {
            self.reset();
            proof { lemma_entry_ok_aligned(self@); }
            Entry::Prompt
        } else if key == KEY_BACKSPACE {
            if self.position < SLOTS - 1 {
                self.move_right();
                self.position = self.position + 1;
            }
            proof { lemma_entry_ok_aligned(self@); }
            Entry::Waiting
        } else if key == KEY_SUBMIT && !self.is_empty() {
            proof { lemma_entry_ok_aligned(self@); }
            self.position = 0;
            Entry::Submitted
        } else {
            proof { lemma_entry_ok_aligned(self@); }
            Entry::Waiting
        }
    }

    /// Ends the run after the register is used up: blanks the run state and
    /// the display, which reads as a finished run.
    fn exhausted(&mut self)
        requires
            old(self)@.wf(),
        ensures
            final(self)@.wf(),
            final(self)@.is_blank_run(),
            final(self)@.same_setup(old(self)@),
            final(self)@.display == old(self)@.display.cleaned(),
    {
        self.clear_run();
        self.displays.clean();
    }

    /// Advances the window: from the cursor leftwards, takes in slots that
    /// hold a digit, moving the cursor past each, and stops before a slot
    /// with a remainder point once one slot is in. The window marks are
    /// then rendered. When not even the first slot holds a digit, the
    /// register is used up and the run ends blank.
    pub fn third_step(&mut self)
        requires
            old(self)@.wf(),
        ensures
            final(self)@.wf(),
            final(self)@.same_setup(old(self)@),
            old(self)@.window_effect(final(self)@),
    {
        let ghost s0 = self@;
        self.window = [false; 16];
        let start: usize = self.position;
        let mut count: usize = 0;
        loop
            invariant
                start == s0.position,
                self@.position == start + count,
                self@.position <= 16,
                self@.wf(),
                self@.same_setup(s0),
                self@.display == s0.display,
                self@.digits == s0.digits,
                self@.carries == s0.carries,
                self@.points == s0.points,
                forall|j: nat| j < count ==> joins_window(s0.digits, s0.points, s0.position, j),
                self@.window =~= Seq::new(16, |i: int| 16 - self@.position <= i <= 15 - start),
            ensures
                start == s0.position,
                self@.position == start + count,
                self@.position <= 16,
                self@.wf(),
                self@.same_setup(s0),
                self@.digits == s0.digits,
                self@.carries == s0.carries,
                self@.points == s0.points,
                forall|j: nat| j < count ==> joins_window(s0.digits, s0.points, s0.position, j),
                !joins_window(s0.digits, s0.points, s0.position, count as nat),
                self@.window =~= Seq::new(16, |i: int| 16 - self@.position <= i <= 15 - start),
            decreases 16 - self@.position,
        {
            if self.position >= SLOTS {
                break;
            }
            let slot: usize = SLOTS - 1 - self.position;
            if count > 0 && self.points[slot] {
                break;
            }
            if self.digits[slot] == BLANK {
                break;
            }
            self.window[slot] = true;
            self.position = self.position + 1;
            count = count + 1;
        }
        if count == 0 {
            self.exhausted();
        } else {
            show(&mut self.displays, self.window);
        }
    }

    /// Halves the window, least significant slot first: each window digit,
    /// plus ten unless it is the window's most significant slot, is halved,
    /// a zero quotient leaving the slot blank; each slot is rendered with its
    /// remainder point. A blank slot in the window means the register is
    /// used up, and the run ends blank instead.
    pub fn forth_step(&mut self)
        requires
            old(self)@.wf(),
        ensures
            final(self)@.wf(),
            final(self)@.same_setup(old(self)@),
            old(self)@.quotient_effect(final(self)@),
    {
        let ghost s0 = self@;
        let mut i: usize = 0;
        while i < SLOTS
            invariant
                i <= SLOTS,
                self@ == s0,
                s0 == old(self)@,
                s0.wf(),
                forall|j: int| 0 <= j < i ==> !(s0.window[j] && s0.digits[j] == BLANK),
            decreases SLOTS - i,
        {
            if self.window[i] && self.digits[i] == BLANK {
                assert(s0.window[i as int] && s0.digits[i as int] == BLANK);
                self.exhausted();
                return;
            }
            i = i + 1;
        }
        let mut lo: usize = 0;
        while lo < SLOTS && !self.window[lo]
            invariant
                lo <= SLOTS,
                self@ == s0,
                s0.wf(),
                forall|j: int| 0 <= j < lo ==> !s0.window[j],
            decreases SLOTS - lo,
        {
            lo = lo + 1;
        }
        let mut k: usize = SLOTS;
        while k > 0
            invariant
                k <= SLOTS,
                lo <= SLOTS,
                forall|j: int| 0 <= j < lo ==> !s0.window[j],
                lo < SLOTS ==> s0.window[lo as int],
                forall|j: int| 0 <= j < 16 ==> !(s0.window[j] && s0.digits[j] == BLANK),
                self@.wf(),
                self@.same_setup(s0),
                self@.position == s0.position,
                self@.carries == s0.carries,
                self@.window == s0.window,
                self@.points == s0.points,
                forall|t: int| k <= t < 16 ==> self@.digits[t] == quotient(s0.digits, s0.window)[t],
                forall|t: int| 0 <= t < k ==> self@.digits[t] == s0.digits[t],
                self@.display == slots_shown_down(s0.display, quotient(s0.digits, s0.window), s0.points, s0.window, k as nat),
                self@.display.ram == Seq::new(s0.display.ram.len(), |q: int| if q % 2 == 0 && 2 * k <= q < 32 && s0.window[q / 2] {
                    glyph_byte(digit_char(quotient(s0.digits, s0.window)[q / 2]), s0.points[q / 2])
                } else {
                    s0.display.ram[q]
                }),
            decreases k,
        {
            k = k - 1;
            if self.window[k] {
                let carry: bool = k > lo;
                proof {
                    if carry {
                        assert(0 <= lo < k && s0.window[lo as int]);
                    }
                    assert(carry == exists|j: int| 0 <= j < k && s0.window[j]);
                }
                let v: u8 = self.digits[k] + if carry { 10u8 } else { 0u8 };
                let q: u8 = v / 2;
                let d: u8 = if q == 0 { BLANK } else { q };
                self.digits[k] = d;
                let c = convert_to_char(d);
                self.displays.set_segment((2 * k) as u8, c, self.points[k]);
            }
            assert(self@.display.ram =~= Seq::new(s0.display.ram.len(), |q: int| if q % 2 == 0 && 2 * k <= q < 32 && s0.window[q / 2] {
                glyph_byte(digit_char(quotient(s0.digits, s0.window)[q / 2]), s0.points[q / 2])
            } else {
                s0.display.ram[q]
            }));
        }
        assert(self@.digits =~= quotient(s0.digits, s0.window));
        assert(self@.display.ram =~= digits_rendered(s0.display.ram, self@.digits, s0.points, s0.window));
    }

    /// Feeds one keypad scan (row-major, `true` = pressed). Returns the code
    /// of the key released by this scan, if any; `None` also for a key that
    /// has no code.
    pub fn read_key(&mut self, keys: &Vec<bool>) -> (r: Option<u8>)
        requires
            old(self)@.wf(),
            keys@.len() == old(self)@.keyboard.rows * old(self)@.keyboard.columns,
        ensures
            final(self)@.wf(),
            final(self)@.same_run(old(self)@),
            final(self)@.display == old(self)@.display,
            final(self)@.fonts == old(self)@.fonts,
            final(self)@.phase == old(self)@.phase,
            final(self)@.keyboard.rows == old(self)@.keyboard.rows,
            final(self)@.keyboard.columns == old(self)@.keyboard.columns,
            final(self)@.keyboard.held == scan_step(old(self)@.keyboard.held, keys@).0,
            r == match scan_step(old(self)@.keyboard.held, keys@).1 {
                Some(k) => if (k as int) < old(self)@.fonts.len() { Some(old(self)@.fonts[k as int]) } else { None },
                None => None,
            },
    {
        match self.keyboard.get_key(keys) {
            Some(k) => {
                if (k as usize) < self.keyboard_fonts.len() {
                    Some(self.keyboard_fonts[k as usize])
                } else {
                    None
                }
            },
            None => None,
        }
    }

    /// Hands over the display frames produced so far, oldest first.
    pub fn take_frames(&mut self) -> (r: Vec<Frame>)
        requires
            old(self)@.wf(),
        ensures
            r@ == old(self)@.display.frames,
            final(self)@.wf(),
            final(self)@.same_run(old(self)@),
            final(self)@.same_setup(old(self)@),
            final(self)@.display.ram == old(self)@.display.ram,
            final(self)@.display.frames == Seq::<Frame>::empty(),
    {
        self.displays.take_frames()
    }

    /// The display driver.
    pub fn displays(&self) -> (r: &TM1638)
        ensures
            r@ == self@.display,
    {
        &self.displays
    }

    /// The register: a digit, or [`BLANK`], per slot.
    pub fn digits(&self) -> (r: [u8; 16])
        ensures
            r@ == self@.digits,
    {
        self.digits
    }

    /// The cursor.
    pub fn position(&self) -> (r: usize)
        ensures
            r == self@.position,
    {
        self.position
    }

    /// The carry marks.
    pub fn carries(&self) -> (r: [bool; 16])
        ensures
            r@ == self@.carries,
    {
        self.carries
    }

    /// The window marks.
    pub fn window(&self) -> (r: [bool; 16])
        ensures
            r@ == self@.window,
    {
        self.window
    }

    /// The remainder points.
    pub fn points(&self) -> (r: [bool; 16])
        ensures
            r@ == self@.points,
    {
        self.points
    }

    /// Number of keys of one keypad scan.
    pub fn scan_size(&self) -> (r: usize)
        requires
            self@.wf(),
        ensures
            r == self@.keyboard.rows * self@.keyboard.columns,
    {
        self.keyboard.size()
    }

    /// Handles one key code in the current phase and moves to the next.
    ///
    /// At the prompt any key blanks the display and starts entry. During
    /// entry the key is handled as [`DivisionHelper::insert_number`] does;
    /// once the number is submitted the carries are marked. After that,
    /// each continue key runs the next step: remainders, then in turn
    /// advancing a window and halving it, until the run is finished or the
    /// register is used up, when a new run starts at the prompt. Other keys
    /// are ignored there.
    pub fn handle_key(&mut self, key: u8) -> (r: Phase)
        requires
            old(self)@.wf(),
            old(self)@.phase == Phase::Prompt || old(self)@.phase == Phase::Entering ==> old(self)@.entry_ok(),
        ensures
            final(self)@.wf(),
            final(self)@.display.modules == old(self)@.display.modules,
            final(self)@.keyboard == old(self)@.keyboard,
            final(self)@.fonts == old(self)@.fonts,
            r == final(self)@.phase,
            r == next_phase(old(self)@.phase, key, old(self)@),
            r == Phase::Prompt || r == Phase::Entering ==> final(self)@.entry_ok(),
            old(self)@.phase == Phase::Prompt ==> final(self)@.same_run(old(self)@)
                && final(self)@.display == old(self)@.display.cleaned(),
            old(self)@.phase == Phase::Entering && key == KEY_SUBMIT && !old(self)@.is_empty() ==> {
                &&& final(self)@.position == 0
                &&& final(self)@.digits == old(self)@.digits
                &&& final(self)@.carries == marked_carries(old(self)@.digits, old(self)@.carries)
                &&& final(self)@.display == marks_shown(old(self)@.display, final(self)@.carries, 16)
                &&& final(self)@.window == old(self)@.window
                &&& final(self)@.points == old(self)@.points
            },
            old(self)@.phase == Phase::Entering && !(key == KEY_SUBMIT && !old(self)@.is_empty())
                ==> old(self)@.entry_effect(
                    key,
                    final(self)@,
                    if key == KEY_RESET || key == KEY_RESET_ALT { Entry::Prompt } else { Entry::Waiting },
                ),
            old(self)@.phase != Phase::Prompt && old(self)@.phase != Phase::Entering && !is_continue(key)
                ==> final(self)@.same_run(old(self)@) && final(self)@.display == old(self)@.display,
            old(self)@.phase == Phase::Carries && is_continue(key) ==> old(self)@.points_effect(final(self)@),
            old(self)@.phase == Phase::Window && is_continue(key) ==> old(self)@.quotient_effect(final(self)@),
            (old(self)@.phase == Phase::Remainders || old(self)@.phase == Phase::Quotient) && is_continue(key) ==> {
                &&& old(self)@.position == 15 ==> final(self)@.is_blank_run()
                    && final(self)@.display == prompted(old(self)@.display)
                &&& old(self)@.position != 15 && !joins_window(old(self)@.digits, old(self)@.points, old(self)@.position, 0)
                    ==> final(self)@.is_blank_run() && final(self)@.display == prompted(old(self)@.display.cleaned())
                &&& old(self)@.position != 15 && joins_window(old(self)@.digits, old(self)@.points, old(self)@.position, 0)
                    ==> old(self)@.window_effect(final(self)@)
            },
    {
        let next: Phase = match self.phase {
            Phase::Prompt => {
                self.dismiss_prompt();
                Phase::Entering
            },
            Phase::Entering => match self.insert_number(key) {
                Entry::Waiting => Phase::Entering,
                Entry::Prompt => Phase::Prompt,
                Entry::Submitted => {
                    self.first_step();
                    Phase::Carries
                },
            },
            Phase::Carries => {
                if press_any_key(key) != 0 {
                    self.second_step();
                    Phase::Remainders
                } else {
                    Phase::Carries
                }
            },
            Phase::Remainders | Phase::Quotient => {
                if press_any_key(key) == 0 {
                    self.phase
                } else if self.is_finished() {
                    self.reset();
                    Phase::Prompt
                } else {
                    self.third_step();
                    if self.is_empty() {
                        self.reset();
                        Phase::Prompt
                    } else {
                        Phase::Window
                    }
                }
            },
            Phase::Window => {
                if press_any_key(key) != 0 {
                    self.forth_step();
                    Phase::Quotient
                } else {
                    Phase::Window
                }
            },
        };
        self.phase = next;
        next
    }

    /// The phase the engine waits in.
    pub fn phase(&self) -> (r: Phase)
        ensures
            r == self@.phase,
    {
        self.phase
    }
}

} // verus!
