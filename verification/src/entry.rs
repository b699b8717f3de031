//! The digit-entry engine: a number is keyed in, reviewed as eight digits,
//! and halved one digit at a time, the LEDs showing the carries.

use vstd::prelude::*;
use vstd::string::*;
use vstd::arithmetic::div_mod::lemma_div_denominator;
use crate::display::{LedAndKey, number_frame, write_auto_signals};
use crate::wire::Signal;
use crate::segment::{Displayable, Segment, all_decimal, digit_at, digit_pattern, digits_of,
    fill_with_digits, lemma_digits_decimal, scale};

verus! {

/// The largest number that still takes another digit.
pub const ENTRY_CAP: u32 = 9_999_999;

/// The largest number that can be keyed in.
pub const NUMBER_MAX: u32 = 99_999_999;

/// What a key means to the engine.
#[derive(Clone, Copy, Debug, PartialEq, Eq, Structural)]
pub enum Key {
    /// A numeric key with its value.
    Digit(u8),
    /// The key labelled F1.
    Reset,
    /// The key labelled F2.
    Review,
    /// Any other key.
    Other,
}

/// The mode of the engine.
#[derive(Clone, Copy, Debug, PartialEq, Eq, Structural)]
pub enum Mode {
    Run,
    Review,
    Edit,
}

/// What has to be drawn after a key.
#[derive(Clone, Copy, Debug, PartialEq, Eq, Structural)]
pub enum Redraw {
    /// The display stays as it is.
    Nothing,
    /// The number is to be printed.
    Number,
    /// The frame of the engine is to be written.
    Frame,
}

/// The meaning of a key label.
pub open spec fn key_of(label: Seq<char>) -> Key {
    if label =~= seq!['F', '1'] {
        Key::Reset
    } else if label =~= seq!['F', '2'] {
        Key::Review
    } else if label.len() == 1 && '0' <= label[0] && label[0] <= '9' {
        Key::Digit((label[0] as u32 - '0' as u32) as u8)
    } else {
        Key::Other
    }
}

impl Key {
    /// A numeric key holds a decimal digit.
    pub open spec fn well_formed(self) -> bool {
        self matches Key::Digit(d) ==> d < 10
    }

    /// Reads the meaning of a key from its label.
    pub fn from_label(label: &str) -> (key: Key)
        ensures
            key == key_of(label@),
            key.well_formed(),
    {
        let len: usize = label.unicode_len();
        if len == 1 {
            let first: char = label.get_char(0);
            if '0' <= first && first <= '9' {
                Key::Digit((first as u32 - '0' as u32) as u8)
            } else {
                Key::Other
            }
        } else if len == 2 {
            let first: char = label.get_char(0);
            let second: char = label.get_char(1);
            if first == 'F' && second == '1' {
                Key::Reset
            } else if first == 'F' && second == '2' {
                Key::Review
            } else {
                Key::Other
            }
        } else {
            Key::Other
        }
    }
}

/// The index of the first digit from `i` on that is not zero; 0 if there is
/// none.
pub open spec fn skip_zeros(digits: Seq<u8>, i: int) -> int
    decreases digits.len() - i,
{
    if i < 0 || i >= digits.len() {
        0
    } else if digits[i] != 0 {
        i
    } else {
        skip_zeros(digits, i + 1)
    }
}

/// The position at which a review starts: that of the first digit that is
/// not zero.
pub open spec fn review_cursor(digits: Seq<u8>) -> int {
    skip_zeros(digits, 0)
}

/// Whether the digit before position `i` is odd, so that halving carries ten
/// into position `i`.
pub open spec fn carry_into(digits: Seq<u8>, i: int) -> bool {
    i > 0 && digits[i - 1] % 2 == 1
}

/// The frame at the start of a review: each position shows its digit, the
/// LED is lit where a carry comes in, and the dot marks the first digit that
/// is not zero.
pub open spec fn review_frame(digits: Seq<u8>) -> Seq<Segment> {
    Seq::new(
        8,
        |i: int|
            digits[i].segment_of(
                carry_into(digits, i),
                i == review_cursor(digits) && digits[i] != 0,
            ),
    )
}

/// The digit that one halving step puts at a position that holds `d`, with
/// or without a carry of ten coming in.
pub open spec fn halved(d: u8, carry: bool) -> u8 {
    if carry {
        ((d + 10) / 2) as u8
    } else {
        d / 2
    }
}

/// The frame after one halving step at `cursor`: the position shows the
/// halved digit, its LED lit only in the last position and for an odd digit,
/// and the dot moves one position on. At the end of the frame nothing
/// changes.
pub open spec fn edit_frame(digits: Seq<u8>, frame: Seq<Segment>, cursor: int) -> Seq<Segment> {
    if 0 <= cursor < 8 {
        let d = digits[cursor];
        let shown = frame.update(
            cursor,
            halved(d, frame[cursor].led_on).segment_of(cursor == 7 && d % 2 == 1, false),
        );
        if cursor + 1 < 8 {
            shown.update(cursor + 1, Segment { with_dot: true, ..shown[cursor + 1] })
        } else {
            shown
        }
    } else {
        frame
    }
}

/// The cursor after one halving step.
pub open spec fn edit_cursor(cursor: int) -> int {
    if 0 <= cursor < 8 {
        cursor + 1
    } else {
        cursor
    }
}

/// Frame and cursor after `n` halving steps.
pub open spec fn edit_run(digits: Seq<u8>, frame: Seq<Segment>, cursor: int, n: nat) -> (
    Seq<Segment>,
    int,
)
    decreases n,
{
    if n == 0 {
        (frame, cursor)
    } else {
        let (f, c) = edit_run(digits, frame, cursor, (n - 1) as nat);
        (edit_frame(digits, f, c), edit_cursor(c))
    }
}

/// Builds the frame and the cursor with which a review of `digits` starts.
pub fn review(digits: &[u8; 8]) -> (session: ([Segment; 8], usize))
    requires
        all_decimal(digits@),
    ensures
        session.0@ == review_frame(digits@),
        session.1 == review_cursor(digits@),
        session.1 < 8,
{
    let mut seg: [Segment; 8] = [Segment::default();8];
    let mut cursor: usize = 0;
    let mut found: bool = false;
    let mut i: usize = 0;
    while i < 8
        invariant
            i <= 8,
            all_decimal(digits@),
            cursor < 8,
            !found ==> cursor == 0 && review_cursor(digits@) == skip_zeros(digits@, i as int),
            !found ==> forall|j: int| 0 <= j < i ==> digits@[j] == 0,
            found ==> cursor < i && cursor == review_cursor(digits@) && digits@[cursor as int] != 0,
            forall|j: int| 0 <= j < i ==> seg@[j] == review_frame(digits@)[j],
        decreases 8 - i,
    {
        let d: u8 = digits[i];
        if !found && d != 0 {
            seg[i] = d.to_segment(false, true);
            cursor = i;
            found = true;
        } else {
            seg[i] = d.to_segment(i != 0 && digits[i - 1] % 2 == 1, false);
        }
        i = i + 1;
    }
    assert(seg@ =~= review_frame(digits@));
    (seg, cursor)
}

/// Performs one halving step at `cursor` and returns the new cursor.
pub fn edit_step(digits: &[u8; 8], frame: &mut [Segment; 8], cursor: usize) -> (next: usize)
    requires
        all_decimal(digits@),
    ensures
        final(frame)@ == edit_frame(digits@, old(frame)@, cursor as int),
        next == edit_cursor(cursor as int),
{
    if cursor < 8 {
        let digit: u8 = digits[cursor];
        let value: u8 = if !frame[cursor].led_on {
            digit / 2
        } else {
            (digit + 10) / 2
        };
        frame[cursor] = value.to_segment(cursor == 7 && digit % 2 == 1, false);
        if cursor + 1 < 8 {
            let mut following: Segment = frame[cursor + 1];
            following.with_dot = true;
            frame[cursor + 1] = following;
        }
        cursor + 1
    } else {
        cursor
    }
}

/// The number after a key in the run mode: a digit is appended unless the
/// number is above the cap, and the reset key clears it.
pub open spec fn entered(number: int, key: Key) -> int {
    match key {
        Key::Digit(d) => if number <= ENTRY_CAP {
            number * 10 + d
        } else {
            number
        },
        Key::Reset => 0,
        _ => number,
    }
}

/// The state of the engine as plain values.
pub struct EntryView {
    pub number: int,
    pub mode: Mode,
    pub digits: Seq<u8>,
    pub frame: Seq<Segment>,
    pub cursor: int,
}

/// The state that a review of `number` starts in.
pub open spec fn review_of(number: int) -> EntryView {
    EntryView {
        number,
        mode: Mode::Review,
        digits: digits_of(number),
        frame: review_frame(digits_of(number)),
        cursor: review_cursor(digits_of(number)),
    }
}

/// The state after a key.
pub open spec fn step(s: EntryView, key: Key) -> EntryView {
    match s.mode {
        Mode::Run => {
            let number = entered(s.number, key);
            if key == Key::Review && number != 0 {
                review_of(number)
            } else {
                EntryView { number, ..s }
            }
        },
        Mode::Review => match key {
            Key::Reset => EntryView { mode: Mode::Run, ..s },
            Key::Review => EntryView { mode: Mode::Edit, ..s },
            _ => s,
        },
        Mode::Edit => match key {
            Key::Reset => review_of(s.number),
            Key::Review => EntryView {
                frame: edit_frame(s.digits, s.frame, s.cursor),
                cursor: edit_cursor(s.cursor),
                ..s
            },
            _ => s,
        },
    }
}

/// What is drawn after a key: in the run mode the number, unless a review
/// starts; on leaving a review the number; in the edit mode, and on
/// entering it, the frame.
pub open spec fn drawn(s: EntryView, key: Key) -> Redraw {
    match s.mode {
        Mode::Run => if step(s, key).mode == Mode::Run {
            Redraw::Number
        } else {
            Redraw::Nothing
        },
        Mode::Review => match key {
            Key::Reset => Redraw::Number,
            Key::Review => Redraw::Frame,
            _ => Redraw::Nothing,
        },
        Mode::Edit => match key {
            Key::Reset => Redraw::Nothing,
            _ => Redraw::Frame,
        },
    }
}

/// The signals that a redraw sends to the display, for the engine in state
/// `s` and a display whose retained positions are `shown`.
pub open spec fn redraw_signals(s: EntryView, redraw: Redraw, shown: Seq<Segment>) -> Seq<Signal> {
    match redraw {
        Redraw::Nothing => Seq::empty(),
        Redraw::Number => write_auto_signals(number_frame(shown, s.number)),
        Redraw::Frame => write_auto_signals(s.frame),
    }
}

/// The digit-entry engine.
pub struct DigitEntry {
    /// The number keyed in so far.
    pub number: u32,
    pub mode: Mode,
    /// The digits of the number under review, most significant first.
    pub digits: [u8; 8],
    /// The frame of the review.
    pub frame: [Segment; 8],
    /// The position of the next halving step.
    pub cursor: usize,
}

impl View for DigitEntry {
    type V = EntryView;

    open spec fn view(&self) -> EntryView {
        EntryView {
            number: self.number as int,
            mode: self.mode,
            digits: self.digits@,
            frame: self.frame@,
            cursor: self.cursor as int,
        }
    }
}

impl DigitEntry {
    /// The number has at most eight digits, the digits are decimal, and the
    /// cursor is at most one past the last position. Outside the run mode
    /// the number is not zero and the digits are those of the number, and in
    /// the review mode frame and cursor are those that a review starts with.
    pub open spec fn well_formed(&self) -> bool {
        &&& self.number <= NUMBER_MAX
        &&& all_decimal(self.digits@)
        &&& self.cursor <= 8
        &&& self.mode != Mode::Run ==> self.number != 0 && self.digits@ == digits_of(
            self.number as int,
        )
        &&& self.mode == Mode::Review ==> self@ == review_of(self.number as int)
    }

    /// An engine in the run mode with the number 0.
    pub fn new() -> (entry: DigitEntry)
        ensures
            entry.well_formed(),
            entry.number == 0,
            entry.mode == Mode::Run,
            entry.cursor == 0,
    {
        DigitEntry {
            number: 0,
            mode: Mode::Run,
            digits: [0u8;8],
            frame: [Segment::default();8],
            cursor: 0,
        }
    }

    fn start_review(&mut self)
        requires
            old(self).number != 0,
            old(self).number <= NUMBER_MAX,
        ensures
            final(self).well_formed(),
            final(self)@ == review_of(old(self).number as int),
    {
        let mut arr: [u8; 8] = [0u8;8];
        fill_with_digits(self.number, &mut arr);
        proof {
            lemma_digits_decimal(self.number as int);
        }
        let (seg, cursor) = review(&arr);
        self.digits = arr;
        self.frame = seg;
        self.cursor = cursor;
        self.mode = Mode::Review;
    }

    /// Takes one key and says what has to be drawn.
    pub fn press(&mut self, key: Key) -> (redraw: Redraw)
        requires
            old(self).well_formed(),
            key.well_formed(),
        ensures
            final(self).well_formed(),
            final(self)@ == step(old(self)@, key),
            redraw == drawn(old(self)@, key),
    {
        match self.mode {
            Mode::Run => {
                if self.number <= ENTRY_CAP {
                    if let Key::Digit(d) = key {
                        self.number = self.number * 10 + d as u32;
                    }
                }
                match key {
                    Key::Reset => {
                        self.number = 0;
                        Redraw::Number
                    },
                    Key::Review => {
                        if self.number != 0 {
                            self.start_review();
                            Redraw::Nothing
                        } else {
                            Redraw::Number
                        }
                    },
                    _ => Redraw::Number,
                }
            },
            Mode::Review => {
                match key {
                    Key::Reset => {
                        self.mode = Mode::Run;
                        Redraw::Number
                    },
                    Key::Review => {
                        self.mode = Mode::Edit;
                        Redraw::Frame
                    },
                    _ => Redraw::Nothing,
                }
            },
            Mode::Edit => {
                match key {
                    Key::Reset => {
                        self.start_review();
                        Redraw::Nothing
                    },
                    Key::Review => {
                        self.cursor = edit_step(&self.digits, &mut self.frame, self.cursor);
                        Redraw::Frame
                    },
                    _ => Redraw::Frame,
                }
            },
        }
    }

    /// Draws on `display` what a key asked for.
    pub fn draw(&self, redraw: Redraw, display: &mut LedAndKey)
        ensures
            final(display).pending() == old(display).pending() + redraw_signals(
                self@,
                redraw,
                old(display).state.segments_states@,
            ),
            final(display).state == old(display).state,
    {
        match redraw {
            Redraw::Nothing => {
                assert(display.pending() =~= display.pending() + Seq::<Signal>::empty());
            },
            Redraw::Number => display.print_number(self.number),
            Redraw::Frame => display.write_auto(&self.frame),
        }
    }

    /// Takes the label of a released key, moves on by the key that it
    /// names, and draws the result on `display`.
    pub fn handle(&mut self, label: &str, display: &mut LedAndKey) -> (redraw: Redraw)
        requires
            old(self).well_formed(),
        ensures
            final(self).well_formed(),
            final(self)@ == step(old(self)@, key_of(label@)),
            redraw == drawn(old(self)@, key_of(label@)),
            final(display).pending() == old(display).pending() + redraw_signals(
                final(self)@,
                redraw,
                old(display).state.segments_states@,
            ),
            final(display).state == old(display).state,
    {
        let redraw = self.press(Key::from_label(label));
        self.draw(redraw, display);
        redraw
    }
}

/// The reset key in the run mode clears the number, whatever it was, and
/// has it printed: each of the eight positions then shows the pattern of the
/// digit zero.
pub proof fn lemma_reset_in_run(s: EntryView, shown: Seq<Segment>, i: int)
    requires
        s.mode == Mode::Run,
        shown.len() == 8,
        0 <= i < 8,
    ensures
        step(s, Key::Reset).number == 0,
        step(s, Key::Reset).mode == Mode::Run,
        drawn(s, Key::Reset) == Redraw::Number,
        redraw_signals(step(s, Key::Reset), Redraw::Number, shown) == write_auto_signals(
            number_frame(shown, 0),
        ),
        number_frame(shown, 0).len() == 8,
        number_frame(shown, 0)[i].pattern == 0x3F,
{
}

/// Every digit before the start of a review is zero.
pub proof fn lemma_leading_zeros(digits: Seq<u8>, i: int, j: int)
    requires
        digits.len() == 8,
        0 <= i <= j < skip_zeros(digits, i),
    ensures
        digits[j] == 0,
    decreases 8 - i,
{
    if i < 8 && digits[i] == 0 && i < j {
        lemma_leading_zeros(digits, i + 1, j);
    }
}

proof fn lemma_skip_zeros_bound(digits: Seq<u8>, i: int)
    requires
        digits.len() == 8,
    ensures
        0 <= skip_zeros(digits, i) < 8,
    decreases 8 - i,
{
    if 0 <= i < 8 && digits[i] == 0 {
        lemma_skip_zeros_bound(digits, i + 1);
    }
}

/// Halving digit by digit: the digit of half a number at a position is the
/// digit of the number there, plus ten if the digit before it is odd,
/// halved.
pub proof fn lemma_half_digit(n: int, i: int)
    requires
        0 <= n <= NUMBER_MAX,
        0 <= i < 8,
    ensures
        digit_at(n / 2, i) == halved(digits_of(n)[i], carry_into(digits_of(n), i)),
{
    let p = scale(7 - i);
    let q = n / p;
    assert(p > 0);
    lemma_div_denominator(n, 2, p);
    lemma_div_denominator(n, p, 2);
    assert(2 * p == p * 2);
    assert((n / 2) / p == q / 2);
    lemma_half_core(q);
    if i > 0 {
        lemma_div_denominator(n, p, 10);
        assert(scale(8 - i) == p * 10);
        assert(n / scale(8 - i) == q / 10);
    } else {
        assert(q < 10);
    }
}

proof fn lemma_half_core(q: int)
    requires
        0 <= q,
    ensures
        (q / 2) % 10 == (if (q / 10) % 2 == 1 {
            (q % 10 + 10) / 2
        } else {
            (q % 10) / 2
        }),
        ((q / 10) % 10) % 2 == (q / 10) % 2,
{
}

/// What holds of a frame during the halving of `n` with the cursor at `c`:
/// before the cursor the positions show the digits of half of `n`, from the
/// cursor on they show the digits of `n` with the carries on the LEDs.
pub open spec fn halving_state(n: int, f: Seq<Segment>, c: int) -> bool {
    &&& f.len() == 8
    &&& 0 <= c <= 8
    &&& forall|i: int|
        0 <= i < c ==> (#[trigger] f[i]).digit == Some(digit_at(n / 2, i) as u8) && f[i].pattern
            == digit_pattern(digit_at(n / 2, i))
    &&& forall|i: int|
        c <= i < 8 ==> (#[trigger] f[i]).digit == Some(digits_of(n)[i]) && f[i].pattern
            == digit_pattern(digits_of(n)[i] as int) && f[i].led_on == carry_into(digits_of(n), i)
}

/// A review starts in a halving state, and each halving step leads from one
/// to the next, the cursor moving on until it has passed the last position.
pub proof fn lemma_halving_steps(n: int, k: nat)
    requires
        0 <= n <= NUMBER_MAX,
    ensures
        ({
            let digits = digits_of(n);
            let (f, c) = edit_run(digits, review_frame(digits), review_cursor(digits), k);
            &&& halving_state(n, f, c)
            &&& c == if review_cursor(digits) + k <= 8 {
                review_cursor(digits) + k
            } else {
                8
            }
        }),
    decreases k,
{
    let digits = digits_of(n);
    let start = review_cursor(digits);
    lemma_skip_zeros_bound(digits, 0);
    if k == 0 {
        let f = review_frame(digits);
        assert forall|i: int| 0 <= i < start implies (#[trigger] f[i]).digit == Some(
            digit_at(n / 2, i) as u8,
        ) && f[i].pattern == digit_pattern(digit_at(n / 2, i)) by {
            lemma_leading_zeros(digits, 0, i);
            if i > 0 {
                lemma_leading_zeros(digits, 0, i - 1);
            }
            lemma_half_digit(n, i);
        }
    } else {
        lemma_halving_steps(n, (k - 1) as nat);
        let (f, c) = edit_run(digits, review_frame(digits), start, (k - 1) as nat);
        if c < 8 {
            lemma_half_digit(n, c);
            let g = edit_frame(digits, f, c);
            assert(f[c].led_on == carry_into(digits, c));
            assert(g[c].digit == Some(digit_at(n / 2, c) as u8));
            assert forall|i: int| 0 <= i < c + 1 implies (#[trigger] g[i]).digit == Some(
                digit_at(n / 2, i) as u8,
            ) && g[i].pattern == digit_pattern(digit_at(n / 2, i)) by {
                if i < c {
                    assert(g[i] == f[i]);
                }
            }
            assert forall|i: int| c + 1 <= i < 8 implies (#[trigger] g[i]).digit == Some(
                digits[i],
            ) && g[i].pattern == digit_pattern(digits[i] as int) && g[i].led_on == carry_into(
                digits,
                i,
            ) by {
                assert(g[i].digit == f[i].digit);
            }
        }
    }
}

/// After eight halving steps from the start of a review of `n`, the frame
/// shows the eight digits of half of `n`, rounded down, most significant
/// first and padded with zeros.
pub proof fn lemma_eight_steps_halve(n: int)
    requires
        0 <= n <= NUMBER_MAX,
    ensures
        ({
            let digits = digits_of(n);
            let (f, c) = edit_run(digits, review_frame(digits), review_cursor(digits), 8);
            &&& c == 8
            &&& f.len() == 8
            &&& forall|i: int|
                0 <= i < 8 ==> (#[trigger] f[i]).digit == Some(digits_of(n / 2)[i]) && f[i].pattern
                    == digit_pattern(digits_of(n / 2)[i] as int)
        }),
{
    lemma_halving_steps(n, 8);
    lemma_skip_zeros_bound(digits_of(n), 0);
}

} // verus!
