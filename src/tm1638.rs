//! Driver model for chained seven-segment display modules on a bit-banged,
//! write-only serial bus.
//!
//! The driver does not touch any pin itself: every operation appends the frames
//! it would clock out to an outgoing log, and keeps a copy of what it has
//! written into each module's display memory. Whoever owns the pins drains the
//! log with [`TM1638::take_frames`] and clocks each frame out with the levels
//! given by [`TM1638::strobe_levels`] and [`frame_bits`]: a frame that opens
//! a command raises every strobe line and lowers the selected ones first, and
//! the strobe lines all go high once the frames are out.
use vstd::prelude::*;
use vstd::string::StrSliceExecFns;

verus! {

/// Display positions addressed through one module.
pub const POSITIONS_PER_MODULE: usize = 16;

/// The most modules the driver addresses (every position fits in a byte).
pub const MAX_MODULES: usize = 16;

/// Control frame that switches the display on, plus the brightness (0..=7).
pub const OPCODE_DISPLAY_ON: u8 = 0x88;

/// Control frame that switches the display off.
pub const OPCODE_DISPLAY_OFF: u8 = 0x80;

/// Control frame that sets the write address, plus the offset (0..=15).
pub const OPCODE_ADDRESS: u8 = 0xC0;

/// Segment bit of the decimal point.
pub const POINT: u8 = 0x80;

/// Glyph with every segment off.
pub const EMPTY: u8 = 0x00;

/// Which strobe lines are held active (low) while a frame is clocked out.
#[derive(Clone, Copy, Debug, PartialEq, Eq, Structural)]
pub enum Target {
    All,
    Module(usize),
}

/// One byte clocked out on the bus while `target` is selected. A frame that
/// `opens` a command first ends the previous one (every strobe line goes
/// high) and then selects `target`; any other frame continues the command
/// under way. Once the last frame is out, every strobe line goes high.
#[derive(Clone, Copy, Debug, PartialEq, Eq, Structural)]
pub struct Frame {
    pub target: Target,
    pub byte: u8,
    pub opens: bool,
}

/// Abstract state of the driver.
pub struct DisplayModel {
    /// Number of chained modules.
    pub modules: nat,
    /// Frames produced and not yet taken by the bus owner.
    pub frames: Seq<Frame>,
    /// Glyph byte last written to each position, 16 per module.
    pub ram: Seq<u8>,
}

/// Segment pattern of a character, case-insensitive; blank when unmapped.
pub open spec fn glyph_of(c: char) -> u8 {
    match c {
        '0' | 'o' | 'O' => 0x3f,
        '1' => 0x06,
        '2' | 'z' | 'Z' => 0x5b,
        '3' => 0x4f,
        '4' => 0x66,
        '5' | 's' | 'S' => 0x6d,
        '6' => 0x7d,
        '7' => 0x07,
        '8' => 0x7f,
        '9' => 0x6f,
        'a' | 'A' => 0x77,
        'b' | 'B' => 0x7c,
        'c' | 'C' => 0x39,
        'd' | 'D' => 0x5e,
        'e' | 'E' => 0x79,
        'f' | 'F' => 0x71,
        'g' | 'G' => 0x3d,
        'h' | 'H' | 'x' | 'X' => 0x76,
        'i' | 'I' => 0x30,
        'j' | 'J' => 0x1e,
        'k' | 'K' => 0x75,
        'l' | 'L' => 0x38,
        'm' | 'M' => 0x15,
        'n' | 'N' => 0x54,
        'p' | 'P' => 0x73,
        'q' | 'Q' => 0x67,
        'r' | 'R' => 0x50,
        't' | 'T' => 0x78,
        'u' | 'U' => 0x3e,
        'v' | 'V' => 0x1c,
        'w' | 'W' => 0x2a,
        'y' | 'Y' => 0x6e,
        _ => 0x00,
    }
}

/// The byte written for a character, with the decimal point when asked for.
pub open spec fn glyph_byte(c: char, point: bool) -> u8 {
    if point {
        glyph_of(c) | POINT
    } else {
        glyph_of(c)
    }
}

/// Bit `i` (0 = least significant) of `n`.
pub open spec fn bit_of(n: u8, i: u8) -> u8 {
    (n >> i) & 1
}

/// Whether line `line` is active while a frame for `target` is sent.
pub open spec fn selects(target: Target, line: nat) -> bool {
    match target {
        Target::All => true,
        Target::Module(m) => m == line,
    }
}

/// The control frame that points module `address / 16` at `address % 16`.
pub open spec fn address_frame(address: nat) -> Frame {
    Frame {
        target: Target::Module((address / 16) as usize),
        byte: (OPCODE_ADDRESS + address % 16) as u8,
        opens: true,
    }
}

impl DisplayModel {
    pub open spec fn positions(self) -> nat {
        16 * self.modules
    }

    pub open spec fn wf(self) -> bool {
        1 <= self.modules <= MAX_MODULES && self.ram.len() == self.positions()
    }

    /// The same state with `f` appended to the outgoing frames.
    pub open spec fn sent(self, f: Seq<Frame>) -> DisplayModel {
        DisplayModel { modules: self.modules, frames: self.frames + f, ram: self.ram }
    }

    /// Effect of writing the glyph of `c` at the in-range position `address`.
    pub open spec fn segment_set(self, address: nat, c: char, point: bool) -> DisplayModel {
        DisplayModel {
            modules: self.modules,
            frames: self.frames + seq![
                address_frame(address),
                Frame { target: Target::Module((address / 16) as usize), byte: glyph_byte(c, point), opens: false },
            ],
            ram: self.ram.update(address as int, glyph_byte(c, point)),
        }
    }

    /// Effect of writing the glyph of `c` at `address`: nothing past the last
    /// position.
    pub open spec fn put(self, address: nat, c: char, point: bool) -> DisplayModel {
        if address < self.positions() {
            self.segment_set(address, c, point)
        } else {
            self
        }
    }

    /// Effect of writing `text` from `address` on: the address frame of the
    /// start, then each character; nothing when `address` is past the last
    /// position.
    pub open spec fn write_text(self, address: nat, text: Seq<char>) -> DisplayModel {
        if address < self.positions() {
            self.sent(seq![address_frame(address)]).written(address, text)
        } else {
            self
        }
    }

    /// Effect of blanking every position of every module.
    pub open spec fn cleaned(self) -> DisplayModel {
        DisplayModel {
            modules: self.modules,
            frames: self.frames + Seq::new(self.positions(), |i: int| Frame { target: Target::All, byte: EMPTY, opens: i == 0 }),
            ram: Seq::new(self.positions(), |i: int| EMPTY),
        }
    }

    /// Effect of writing `text` from the in-range position `address` on,
    /// two positions per character, wrapping at the last position.
    pub open spec fn written(self, address: nat, text: Seq<char>) -> DisplayModel
        decreases text.len(),
    {
        if text.len() == 0 {
            self
        } else {
            let before = self.written(address, text.drop_last());
            before.segment_set(
                ((address + 2 * (text.len() - 1)) as nat) % self.positions(),
                text.last(),
                false,
            )
        }
    }
}

/// The bits of `n`, most significant first.
pub fn convert_to_bin(n: u8) -> (r: [u8; 8])
    ensures
        forall|k: int| 0 <= k < 8 ==> r[k] == bit_of(n, (7 - k) as u8),
{
    let r = [(n >> 7u8) & 1, (n >> 6u8) & 1, (n >> 5u8) & 1, (n >> 4u8) & 1, (n >> 3u8) & 1, (n >> 2u8) & 1, (n >> 1u8) & 1, n & 1];
    assert(n & 1 == (n >> 0u8) & 1) by (bit_vector);
    assert(r@ == seq![bit_of(n, 7), bit_of(n, 6), bit_of(n, 5), bit_of(n, 4), bit_of(n, 3), bit_of(n, 2), bit_of(n, 1), bit_of(n, 0)]);
    r
}

/// Data-line levels of one frame in the order they are clocked out:
/// least significant bit first, one clock pulse per bit.
pub fn frame_bits(byte: u8) -> (r: [bool; 8])
    ensures
        forall|i: int| 0 <= i < 8 ==> r[i] == (bit_of(byte, i as u8) == 1),
{
    let bin = convert_to_bin(byte);
    let r = [bin[7] == 1, bin[6] == 1, bin[5] == 1, bin[4] == 1, bin[3] == 1, bin[2] == 1, bin[1] == 1, bin[0] == 1];
    assert(r@ == seq![bit_of(byte, 0) == 1, bit_of(byte, 1) == 1, bit_of(byte, 2) == 1, bit_of(byte, 3) == 1, bit_of(byte, 4) == 1, bit_of(byte, 5) == 1, bit_of(byte, 6) == 1, bit_of(byte, 7) == 1]);
    r
}

/// Segment pattern of `c`, as [`glyph_of`] gives it.
pub fn glyph(c: char) -> (r: u8)
    ensures
        r == glyph_of(c),
{
    match c {
        '0' | 'o' | 'O' => 0x3f,
        '1' => 0x06,
        '2' | 'z' | 'Z' => 0x5b,
        '3' => 0x4f,
        '4' => 0x66,
        '5' | 's' | 'S' => 0x6d,
        '6' => 0x7d,
        '7' => 0x07,
        '8' => 0x7f,
        '9' => 0x6f,
        'a' | 'A' => 0x77,
        'b' | 'B' => 0x7c,
        'c' | 'C' => 0x39,
        'd' | 'D' => 0x5e,
        'e' | 'E' => 0x79,
        'f' | 'F' => 0x71,
        'g' | 'G' => 0x3d,
        'h' | 'H' | 'x' | 'X' => 0x76,
        'i' | 'I' => 0x30,
        'j' | 'J' => 0x1e,
        'k' | 'K' => 0x75,
        'l' | 'L' => 0x38,
        'm' | 'M' => 0x15,
        'n' | 'N' => 0x54,
        'p' | 'P' => 0x73,
        'q' | 'Q' => 0x67,
        'r' | 'R' => 0x50,
        't' | 'T' => 0x78,
        'u' | 'U' => 0x3e,
        'v' | 'V' => 0x1c,
        'w' | 'W' => 0x2a,
        'y' | 'Y' => 0x6e,
        _ => EMPTY,
    }
}

/// Display driver for `modules` chained modules.
pub struct TM1638 {
    modules: usize,
    frames: Vec<Frame>,
    ram: Vec<u8>,
}

impl View for TM1638 {
    type V = DisplayModel;

    closed spec fn view(&self) -> DisplayModel {
        DisplayModel { modules: self.modules as nat, frames: self.frames@, ram: self.ram@ }
    }
}

impl TM1638 {
    /// A driver for `modules` chained modules, with nothing sent yet and
    /// every position blank.
    pub fn new(modules: usize) -> (r: Self)
        requires
            1 <= modules <= MAX_MODULES,
        ensures
            r@.wf(),
            r@.modules == modules,
            r@.frames == Seq::<Frame>::empty(),
            r@.ram == Seq::new(16 * modules as nat, |i: int| EMPTY),
    {
        let n: usize = POSITIONS_PER_MODULE * modules;
        let mut ram: Vec<u8> = Vec::new();
        let mut i: usize = 0;
        while i < n
            invariant
                i <= n,
                n == 16 * modules,
                ram@ == Seq::new(i as nat, |j: int| EMPTY),
            decreases n - i,
        {
            ram.push(EMPTY);
            i = i + 1;
            assert(ram@ =~= Seq::new(i as nat, |j: int| EMPTY));
        }
        TM1638 { modules, frames: Vec::new(), ram }
    }

    /// Number of chained modules.
    pub fn modules(&self) -> (r: usize)
        ensures
            r == self@.modules,
    {
        self.modules
    }

    /// Glyph byte last written at `address`, or `None` past the last position.
    pub fn segment(&self, address: usize) -> (r: Option<u8>)
        requires
            self@.wf(),
        ensures
            address < self@.positions() ==> r == Some(self@.ram[address as int]),
            address >= self@.positions() ==> r.is_none(),
    {
        if address < self.ram.len() {
            Some(self.ram[address])
        } else {
            None
        }
    }

    /// Hands over the frames produced so far, oldest first, and forgets them.
    pub fn take_frames(&mut self) -> (r: Vec<Frame>)
        ensures
            r@ == old(self)@.frames,
            final(self)@.frames == Seq::<Frame>::empty(),
            final(self)@.modules == old(self)@.modules,
            final(self)@.ram == old(self)@.ram,
    {
        let mut out: Vec<Frame> = Vec::new();
        std::mem::swap(&mut out, &mut self.frames);
        out
    }

    /// Level of each strobe line while a frame for `target` is sent:
    /// `false` (low) exactly on the selected lines.
    pub fn strobe_levels(&self, target: Target) -> (r: Vec<bool>)
        ensures
            r@.len() == self@.modules,
            forall|i: int| 0 <= i < r@.len() ==> r@[i] == !selects(target, i as nat),
    {
        let mut r: Vec<bool> = Vec::new();
        let mut i: usize = 0;
        while i < self.modules
            invariant
                i <= self.modules,
                r@.len() == i,
                forall|j: int| 0 <= j < i ==> r@[j] == !selects(target, j as nat),
            decreases self.modules - i,
        {
            let active = match target {
                Target::All => true,
                Target::Module(m) => m == i,
            };
            r.push(!active);
            i = i + 1;
        }
        r
    }

    fn send(&mut self, target: Target, byte: u8, opens: bool)
        ensures
            final(self)@ == old(self)@.sent(seq![Frame { target, byte, opens }]),
    {
        self.frames.push(Frame { target, byte, opens });
        assert(self@.frames =~= old(self)@.frames + seq![Frame { target, byte, opens }]);
    }

    /// Switches every module on at brightness `level`.
    pub fn display_on(&mut self, level: u8)
        requires
            level <= 7,
        ensures
            final(self)@ == old(self)@.sent(seq![Frame { target: Target::All, byte: (OPCODE_DISPLAY_ON + level) as u8, opens: true }]),
    {
        self.send(Target::All, OPCODE_DISPLAY_ON + level, true);
    }

    /// Switches every module off.
    pub fn display_off(&mut self)
        ensures
            final(self)@ == old(self)@.sent(seq![Frame { target: Target::All, byte: OPCODE_DISPLAY_OFF, opens: true }]),
    {
        self.send(Target::All, OPCODE_DISPLAY_OFF, true);
    }

    /// Points the module that holds `address` at its offset there; does
    /// nothing past the last position.
    pub fn select_address(&mut self, address: u8)
        requires
            old(self)@.wf(),
        ensures
            address < old(self)@.positions() ==> final(self)@ == old(self)@.sent(seq![address_frame(address as nat)]),
            address >= old(self)@.positions() ==> final(self)@ == old(self)@,
    {
        if (address as usize) < self.ram.len() {
            self.send(Target::Module(address as usize / POSITIONS_PER_MODULE), OPCODE_ADDRESS + address % 16, true);
        }
    }

    /// Blanks every position of every module.
    pub fn clean(&mut self)
        requires
            old(self)@.wf(),
        ensures
            final(self)@ == old(self)@.cleaned(),
            final(self)@.wf(),
    {
        let n: usize = self.ram.len();
        let ghost start = self@;
        let mut i: usize = 0;
        while i < n
            invariant
                i <= n,
                n == start.positions(),
                self@.modules == start.modules,
                self@.ram.len() == n,
                forall|j: int| 0 <= j < i ==> self@.ram[j] == EMPTY,
                forall|j: int| i <= j < n ==> self@.ram[j] == start.ram[j],
                self@.frames == start.frames + Seq::new(i as nat, |j: int| Frame { target: Target::All, byte: EMPTY, opens: j == 0 }),
            decreases n - i,
        {
            self.frames.push(Frame { target: Target::All, byte: EMPTY, opens: i == 0 });
            self.ram.set(i, EMPTY);
            i = i + 1;
            assert(self@.frames =~= start.frames + Seq::new(i as nat, |j: int| Frame { target: Target::All, byte: EMPTY, opens: j == 0 }));
        }
        assert(self@.ram =~= start.cleaned().ram);
    }

    /// Writes the glyph of `value` (with the decimal point when `point`) at
    /// `address`; does nothing past the last position.
    pub fn set_segment(&mut self, address: u8, value: char, point: bool)
        requires
            old(self)@.wf(),
        ensures
            address < old(self)@.positions() ==> final(self)@ == old(self)@.segment_set(address as nat, value, point),
            address >= old(self)@.positions() ==> final(self)@ == old(self)@,
            final(self)@ == old(self)@.put(address as nat, value, point),
            final(self)@.wf(),
    {
        if (address as usize) < self.ram.len() {
            self.select_address(address);
            let v: u8 = if point { glyph(value) | POINT } else { glyph(value) };
            self.send(Target::Module(address as usize / POSITIONS_PER_MODULE), v, false);
            self.ram.set(address as usize, v);
            assert(self@.frames =~= old(self)@.segment_set(address as nat, value, point).frames);
        }
    }

    /// Writes `text` from `address` on: first points the module at the start,
    /// then writes one character every second position (the odd ones are left
    /// to the per-digit indicators), wrapping at the last position; does
    /// nothing when `address` is past the last position.
    pub fn write(&mut self, address: u8, text: &str)
        requires
            old(self)@.wf(),
        ensures
            final(self)@ == old(self)@.write_text(address as nat, text@),
            final(self)@.wf(),
    {
        let n: usize = self.ram.len();
        if (address as usize) >= n {
            return;
        }
        self.select_address(address);
        let len: usize = text.unicode_len();
        let ghost start = self@;
        let mut cur: usize = address as usize;
        proof {
            vstd::arithmetic::div_mod::lemma_small_mod(address as nat, n as nat);
        }
        let mut k: usize = 0;
        while k < len
            invariant
                k <= len,
                len == text@.len(),
                n == start.positions(),
                start.wf(),
                cur < n,
                cur == (address + 2 * k) % (n as int),
                self@ == start.written(address as nat, text@.take(k as int)),
                self@.wf(),
            decreases len - k,
        {
            let c = text.get_char(k);
            proof {
                assert(text@.take(k + 1).drop_last() =~= text@.take(k as int));
                lemma_written_keeps(start, address as nat, text@.take(k as int));
            }
            self.set_segment(cur as u8, c, false);
            cur = (cur + 2) % n;
            k = k + 1;
            proof {
                vstd::arithmetic::div_mod::lemma_add_mod_noop_right(2, address + 2 * (k - 1), n as int);
            }
        }
        assert(text@.take(len as int) =~= text@);
    }
}

/// Once every position has been blanked, writing one glyph shows that glyph
/// at its position and leaves every other position blank.
pub proof fn lemma_clean_then_segment(m: DisplayModel, address: nat, c: char, point: bool)
    requires
        m.wf(),
        address < m.positions(),
    ensures
        ({
            let ram = m.cleaned().segment_set(address, c, point).ram;
            &&& ram.len() == m.positions()
            &&& ram[address as int] == glyph_byte(c, point)
            &&& forall|q: int| 0 <= q < ram.len() && q != address ==> ram[q] == EMPTY
        }),
{
}

/// Writing text, address frame included, keeps the number of modules and the
/// size of display memory.
pub proof fn lemma_write_text_keeps(m: DisplayModel, address: nat, text: Seq<char>)
    requires
        m.wf(),
    ensures
        m.write_text(address, text).modules == m.modules,
        m.write_text(address, text).wf(),
{
    if address < m.positions() {
        lemma_written_keeps(m.sent(seq![address_frame(address)]), address, text);
    }
}

/// Writing text keeps the number of modules and the size of display memory.
pub proof fn lemma_written_keeps(m: DisplayModel, address: nat, text: Seq<char>)
    requires
        m.wf(),
    ensures
        m.written(address, text).modules == m.modules,
        m.written(address, text).wf(),
    decreases text.len(),
{
    if text.len() > 0 {
        lemma_written_keeps(m, address, text.drop_last());
    }
}

} // verus!
