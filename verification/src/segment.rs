//! Display positions, the digit-encoding table and decimal decomposition.

use vstd::prelude::*;

verus! {

/// The bit of a segment byte that lights the decimal point.
pub const DOT: u8 = 0x80;

/// The seven-segment pattern of the decimal digit `d`.
pub open spec fn digit_pattern(d: int) -> u8 {
    if d == 0 {
        0x3Fu8
    } else if d == 1 {
        0x06u8
    } else if d == 2 {
        0x5Bu8
    } else if d == 3 {
        0x4Fu8
    } else if d == 4 {
        0x66u8
    } else if d == 5 {
        0x6Du8
    } else if d == 6 {
        0x7Du8
    } else if d == 7 {
        0x07u8
    } else if d == 8 {
        0x7Fu8
    } else {
        0x6Fu8
    }
}

/// Looks the digit `d` up in the encoding table.
pub fn encode_digit(d: u8) -> (pattern: u8)
    requires
        d < 10,
    ensures
        pattern == digit_pattern(d as int),
{
    match d {
        0 => 0x3F,
        1 => 0x06,
        2 => 0x5B,
        3 => 0x4F,
        4 => 0x66,
        5 => 0x6D,
        6 => 0x7D,
        7 => 0x07,
        8 => 0x7F,
        _ => 0x6F,
    }
}

/// One display position.
#[derive(Clone, Copy, Debug, PartialEq, Eq)]
pub struct Segment {
    /// The seven-segment bit pattern.
    pub pattern: u8,
    /// The decimal digit that the pattern was taken from, if any.
    pub digit: Option<u8>,
    /// Whether the indicator LED beside the digit is lit.
    pub led_on: bool,
    /// Whether the decimal point is lit.
    pub with_dot: bool,
}

impl Segment {
    /// The pattern is blank or an entry of the encoding table.
    pub open spec fn well_formed(self) -> bool {
        self.pattern == 0 || exists|d: int| 0 <= d < 10 && self.pattern == digit_pattern(d)
    }

    /// The blank position: nothing lit.
    pub open spec fn blank() -> Segment {
        Segment { pattern: 0, digit: None, led_on: false, with_dot: false }
    }

    /// The byte sent for the digit: the pattern, with the dot bit if lit.
    pub open spec fn segment_byte(self) -> u8 {
        self.pattern | (if self.with_dot { DOT } else { 0u8 })
    }

    /// The byte sent for the indicator LED.
    pub open spec fn led_byte(self) -> u8 {
        if self.led_on { 1u8 } else { 0u8 }
    }
}

impl Default for Segment {
    fn default() -> (seg: Segment)
        ensures
            seg == Segment::blank(),
            seg.well_formed(),
    {
        Segment { pattern: 0, digit: None, led_on: false, with_dot: false }
    }
}

/// The eight positions of the display, index 0 being the leftmost digit.
pub struct State {
    pub segments_states: [Segment; 8],
}

impl Default for State {
    fn default() -> (state: State)
        ensures
            forall|i: int| 0 <= i < 8 ==> state.segments_states[i] == Segment::blank(),
    {
        State { segments_states: [Segment::default();8] }
    }
}

/// Values that can be shown at one display position.
pub trait Displayable: Sized {
    /// Whether the value has an entry in the encoding table.
    spec fn displayable(self) -> bool;

    /// The position that shows the value.
    spec fn segment_of(self, with_led: bool, with_dot: bool) -> Segment;

    fn to_segment(self, with_led: bool, with_dot: bool) -> (seg: Segment)
        requires
            self.displayable(),
        ensures
            seg == self.segment_of(with_led, with_dot),
            seg.well_formed(),
    ;
}

impl Displayable for u8 {
    open spec fn displayable(self) -> bool {
        self < 10
    }

    open spec fn segment_of(self, with_led: bool, with_dot: bool) -> Segment {
        Segment {
            pattern: digit_pattern(self as int),
            digit: Some(self),
            led_on: with_led,
            with_dot: with_dot,
        }
    }

    fn to_segment(self, with_led: bool, with_dot: bool) -> (seg: Segment) {
        Segment { pattern: encode_digit(self), digit: Some(self), led_on: with_led, with_dot }
    }
}

/// Ten to the power `k`, for the powers that eight digits need.
pub open spec fn scale(k: int) -> int {
    if k <= 0 {
        1
    } else if k == 1 {
        10
    } else if k == 2 {
        100
    } else if k == 3 {
        1_000
    } else if k == 4 {
        10_000
    } else if k == 5 {
        100_000
    } else if k == 6 {
        1_000_000
    } else if k == 7 {
        10_000_000
    } else {
        100_000_000
    }
}

/// The decimal digit of `n` shown at position `i`, position 7 holding the
/// units. Digits above the eighth are not shown.
pub open spec fn digit_at(n: int, i: int) -> int {
    (n / scale(7 - i)) % 10
}

/// The eight digits of `n`, most significant first, padded with zeros.
pub open spec fn digits_of(n: int) -> Seq<u8> {
    Seq::new(8, |i: int| digit_at(n, i) as u8)
}

proof fn lemma_scale_step(n: int, k: int)
    requires
        0 <= n,
        0 <= k < 8,
    ensures
        (n / scale(k)) / 10 == n / scale(k + 1),
{
    if k == 0 {
    } else if k == 1 {
        assert((n / 10) / 10 == n / 100);
    } else if k == 2 {
        assert((n / 100) / 10 == n / 1_000);
    } else if k == 3 {
        assert((n / 1_000) / 10 == n / 10_000);
    } else if k == 4 {
        assert((n / 10_000) / 10 == n / 100_000);
    } else if k == 5 {
        assert((n / 100_000) / 10 == n / 1_000_000);
    } else if k == 6 {
        assert((n / 1_000_000) / 10 == n / 10_000_000);
    } else {
        assert((n / 10_000_000) / 10 == n / 100_000_000);
    }
}

/// Writes the eight low decimal digits of `number` into `repr`, most
/// significant first.
pub fn fill_with_digits(number: u32, repr: &mut [u8; 8])
    ensures
        final(repr)@ == digits_of(number as int),
{
    let mut n: u32 = number;
    let mut i: usize = 8;
    while i > 0
        invariant
            i <= 8,
            n as int == (number as int) / scale(8 - i),
            forall|j: int| i <= j < 8 ==> repr@[j] as int == digit_at(number as int, j),
        decreases i,
    {
        proof {
            lemma_scale_step(number as int, 8 - i);
        }
        i = i - 1;
        repr[i] = (n % 10) as u8;
        n = n / 10;
    }
    assert(repr@ =~= digits_of(number as int));
}

/// Every entry of `digits` is a decimal digit.
pub open spec fn all_decimal(digits: Seq<u8>) -> bool {
    forall|i: int| 0 <= i < digits.len() ==> digits[i] < 10
}

/// The decomposition of a number consists of decimal digits.
pub proof fn lemma_digits_decimal(n: int)
    requires
        0 <= n,
    ensures
        digits_of(n).len() == 8,
        all_decimal(digits_of(n)),
{
}

} // verus!
