//! The display controller: commands and frames for the eight digits and
//! their LEDs, and the decoding of the key-scan reply.

use vstd::prelude::*;
use crate::wire::{Signal, bytes_signals, frame_signals, shift_in, shift_in_request, shift_in_signals,
    shift_in_value, shift_out, shift_out_signals};
use crate::segment::{DOT, Segment, State, all_decimal, digit_at, digit_pattern, digits_of,
    encode_digit, fill_with_digits, lemma_digits_decimal};

verus! {

/// Switches the display on at full brightness.
pub const ACTIVATE: u8 = 0x8F;

/// Selects writing with an address that advances by itself.
pub const AUTO_INCREMENT: u8 = 0x40;

/// Selects writing to one fixed address.
pub const FIXED_ADDRESS: u8 = 0x44;

/// The address of the first digit's segment byte.
pub const BASE_ADDRESS: u8 = 0xC0;

/// Asks for the key-scan register.
pub const READ_KEYS: u8 = 0x42;

/// The data bytes of a frame: for each position its segment byte, then its
/// LED byte.
pub open spec fn payload(frame: Seq<Segment>) -> Seq<u8>
    decreases frame.len(),
{
    if frame.len() == 0 {
        Seq::empty()
    } else {
        payload(frame.drop_last()) + seq![frame.last().segment_byte(), frame.last().led_byte()]
    }
}

/// The signals of a whole-frame write: the mode command in a transaction of
/// its own, then the base address and the data in one transaction.
pub open spec fn write_auto_signals(frame: Seq<Segment>) -> Seq<Signal> {
    frame_signals(seq![AUTO_INCREMENT]) + frame_signals(seq![BASE_ADDRESS] + payload(frame))
}

/// The signals of a single-position write: the segment byte and the LED byte
/// go out in two transactions, each after a mode command.
pub open spec fn write_at_signals(pos: int, c: Segment) -> Seq<Signal> {
    frame_signals(seq![FIXED_ADDRESS]) + frame_signals(
        seq![(BASE_ADDRESS + 2 * pos) as u8, c.segment_byte()],
    ) + frame_signals(seq![FIXED_ADDRESS]) + frame_signals(
        seq![(BASE_ADDRESS + 2 * pos + 1) as u8, c.led_byte()],
    )
}

/// The frame that shows `n`: each position of `base` with its pattern
/// replaced by that of the digit of `n` at that position.
pub open spec fn number_frame(base: Seq<Segment>, n: int) -> Seq<Segment> {
    Seq::new(8, |i: int| Segment { pattern: digit_pattern(digit_at(n, i)), ..base[i] })
}

/// Eight blank positions.
pub open spec fn blank_frame() -> Seq<Segment> {
    Seq::new(8, |i: int| Segment::blank())
}

/// The signals sent when the controller is set up: both output lines low,
/// the activation command, then a cleared display.
pub open spec fn startup_signals() -> Seq<Signal> {
    seq![Signal::StrobeLow, Signal::ClockLow] + shift_out_signals(ACTIVATE) + frame_signals(
        seq![AUTO_INCREMENT],
    ) + write_auto_signals(blank_frame())
}

/// The signals of a key-scan read: the command, the data line released, four
/// bytes clocked in, all in one transaction.
pub open spec fn key_scan_signals() -> Seq<Signal> {
    seq![Signal::StrobeLow] + shift_out_signals(READ_KEYS) + seq![Signal::DataInput]
        + shift_in_signals(8) + shift_in_signals(8) + shift_in_signals(8) + shift_in_signals(8)
        + seq![Signal::StrobeHigh]
}

/// The byte of scan group `p`: the levels sampled for it, shifted left by
/// the group's index.
pub open spec fn group_value(samples: Seq<bool>, p: int) -> u8 {
    shift_in_value(samples.subrange(8 * p, 8 * p + 8)) << (p as u8)
}

/// The first `n` scan groups combined.
pub open spec fn scan_value(samples: Seq<bool>, n: nat) -> u8
    decreases n,
{
    if n == 0 {
        0u8
    } else {
        scan_value(samples, (n - 1) as nat) | group_value(samples, n - 1)
    }
}

/// The data bytes of a frame hold, for each position in order, its segment
/// byte and then its LED byte.
pub proof fn lemma_payload_index(frame: Seq<Segment>, i: int)
    requires
        0 <= i < frame.len(),
    ensures
        payload(frame).len() == 2 * frame.len(),
        payload(frame)[2 * i] == frame[i].segment_byte(),
        payload(frame)[2 * i + 1] == frame[i].led_byte(),
    decreases frame.len(),
{
    lemma_payload_len(frame.drop_last());
    if i < frame.len() - 1 {
        lemma_payload_index(frame.drop_last(), i);
    }
}

proof fn lemma_payload_len(frame: Seq<Segment>)
    ensures
        payload(frame).len() == 2 * frame.len(),
    decreases frame.len(),
{
    if frame.len() > 0 {
        lemma_payload_len(frame.drop_last());
    }
}

/// The frame that shows a number has eight positions, and each holds the
/// table's pattern for the decimal digit of the number at that position,
/// most significant first and padded with zeros; LED, dot and recorded digit
/// stay as they were. With no dot lit, the pattern is the segment byte that
/// goes out for the position.
pub proof fn lemma_number_frame(base: Seq<Segment>, n: int, i: int)
    requires
        base.len() == 8,
        0 <= n,
        0 <= i < 8,
    ensures
        number_frame(base, n).len() == 8,
        0 <= digit_at(n, i) < 10,
        number_frame(base, n)[i].pattern == digit_pattern(digit_at(n, i)),
        number_frame(base, n)[i].well_formed(),
        number_frame(base, n)[i].led_on == base[i].led_on,
        number_frame(base, n)[i].with_dot == base[i].with_dot,
        number_frame(base, n)[i].digit == base[i].digit,
        !base[i].with_dot ==> payload(number_frame(base, n))[2 * i] == digit_pattern(
            digit_at(n, i),
        ),
{
    lemma_payload_index(number_frame(base, n), i);
    let pattern = digit_pattern(digit_at(n, i));
    assert(pattern | 0u8 == pattern) by (bit_vector);
}

/// The display controller. It keeps the retained state of the eight
/// positions and the line signals that were issued and not yet taken.
pub struct LedAndKey {
    pub state: State,
    /// The signals issued and not yet taken, oldest first.
    pub wire: Vec<Signal>,
}

impl LedAndKey {
    /// The signals issued since the last call of `take_signals`.
    pub open spec fn pending(&self) -> Seq<Signal> {
        self.wire@
    }

    /// A controller with a blank retained state, its start-up signals
    /// pending.
    pub fn new() -> (display: LedAndKey)
        ensures
            display.state.segments_states@ == blank_frame(),
            display.pending() == startup_signals(),
    {
        let mut display = LedAndKey { state: State::default(), wire: Vec::new() };
        display.wire.push(Signal::StrobeLow);
        display.wire.push(Signal::ClockLow);
        assert(display.wire@ == seq![Signal::StrobeLow, Signal::ClockLow]);
        display.activate();
        display.reset();
        assert(display.state.segments_states@ =~= blank_frame());
        display
    }

    /// Hands over the pending signals, oldest first.
    pub fn take_signals(&mut self) -> (signals: Vec<Signal>)
        ensures
            signals@ == old(self).pending(),
            final(self).pending() == Seq::<Signal>::empty(),
            final(self).state == old(self).state,
    {
        let mut signals: Vec<Signal> = Vec::new();
        std::mem::swap(&mut self.wire, &mut signals);
        signals
    }

    fn activate(&mut self)
        ensures
            final(self).pending() == old(self).pending() + shift_out_signals(ACTIVATE),
            final(self).state == old(self).state,
    {
        shift_out(&mut self.wire, ACTIVATE);
    }

    fn reset(&mut self)
        ensures
            final(self).pending() == old(self).pending() + frame_signals(seq![AUTO_INCREMENT])
                + write_auto_signals(blank_frame()),
            final(self).state == old(self).state,
    {
        self.send_command(AUTO_INCREMENT);
        let blank: [Segment; 8] = [Segment::default();8];
        assert(blank@ =~= blank_frame());
        self.write_auto(&blank);
    }

    /// Sends `bytes` as one transaction.
    fn send_frame(&mut self, bytes: &Vec<u8>)
        ensures
            final(self).pending() == old(self).pending() + frame_signals(bytes@),
            final(self).state == old(self).state,
    {
        self.wire.push(Signal::StrobeLow);
        let ghost start = self.wire@;
        let mut i: usize = 0;
        while i < bytes.len()
            invariant
                i <= bytes.len(),
                start == old(self).wire@ + seq![Signal::StrobeLow],
                self.wire@ == start + bytes_signals(bytes@.take(i as int)),
                self.state == old(self).state,
            decreases bytes.len() - i,
        {
            proof {
                let next = bytes@.take(i + 1);
                assert(next.drop_last() =~= bytes@.take(i as int));
                assert(next.last() == bytes@[i as int]);
            }
            shift_out(&mut self.wire, bytes[i]);
            i = i + 1;
        }
        assert(bytes@.take(i as int) =~= bytes@);
        self.wire.push(Signal::StrobeHigh);
        assert(self.wire@ =~= old(self).wire@ + frame_signals(bytes@));
    }

    /// Shows the eight low decimal digits of `number`, most significant
    /// first and padded with zeros. LEDs and dots are as in the retained
    /// state, which is left as it was.
    pub fn print_number(&mut self, number: u32)
        ensures
            final(self).pending() == old(self).pending() + write_auto_signals(
                number_frame(old(self).state.segments_states@, number as int),
            ),
            final(self).state == old(self).state,
    {
        let mut current_segments: [Segment; 8] = self.state.segments_states;
        let mut digits: [u8; 8] = [0u8;8];
        fill_with_digits(number, &mut digits);
        proof {
            lemma_digits_decimal(number as int);
        }
        let mut i: usize = 0;
        while i < 8
            invariant
                i <= 8,
                digits@ == digits_of(number as int),
                all_decimal(digits@),
                forall|j: int|
                    0 <= j < i ==> current_segments@[j] == number_frame(
                        self.state.segments_states@,
                        number as int,
                    )[j],
                forall|j: int| i <= j < 8 ==> current_segments@[j] == self.state.segments_states@[j],
            decreases 8 - i,
        {
            let d: u8 = digits[i];
            let mut seg: Segment = current_segments[i];
            seg.pattern = encode_digit(d);
            current_segments[i] = seg;
            i = i + 1;
        }
        assert(current_segments@ =~= number_frame(self.state.segments_states@, number as int));
        self.write_auto(&current_segments)
    }

    /// Writes `cmd` as a whole frame, starting at the first position. The
    /// retained state is left as it was.
    pub fn write_auto(&mut self, cmd: &[Segment])
        ensures
            final(self).pending() == old(self).pending() + write_auto_signals(cmd@),
            final(self).state == old(self).state,
    {
        self.send_command(AUTO_INCREMENT);
        let mut bytes: Vec<u8> = Vec::new();
        bytes.push(BASE_ADDRESS);
        let mut i: usize = 0;
        while i < cmd.len()
            invariant
                i <= cmd.len(),
                bytes@ == seq![BASE_ADDRESS] + payload(cmd@.take(i as int)),
            decreases cmd.len() - i,
        {
            proof {
                let next = cmd@.take(i + 1);
                assert(next.drop_last() =~= cmd@.take(i as int));
                assert(next.last() == cmd@[i as int]);
            }
            let c: Segment = cmd[i];
            bytes.push(c.pattern | if c.with_dot { DOT } else { 0 });
            bytes.push(if c.led_on { 1 } else { 0 });
            assert(bytes@ =~= seq![BASE_ADDRESS] + payload(cmd@.take(i + 1)));
            i = i + 1;
        }
        assert(cmd@.take(i as int) =~= cmd@);
        self.send_frame(&bytes);
    }

    /// Writes the single position `pos`, leaving the others as they are
    /// shown. The retained state is left as it was.
    pub fn write_at(&mut self, pos: usize, c: Segment)
        requires
            pos < 8,
        ensures
            final(self).pending() == old(self).pending() + write_at_signals(pos as int, c),
            final(self).state == old(self).state,
    {
        let address: u8 = BASE_ADDRESS + 2 * (pos as u8);
        self.send_command(FIXED_ADDRESS);
        let mut bytes: Vec<u8> = Vec::new();
        bytes.push(address);
        bytes.push(c.pattern | if c.with_dot { DOT } else { 0 });
        assert(bytes@ =~= seq![(BASE_ADDRESS + 2 * pos) as u8, c.segment_byte()]);
        self.send_frame(&bytes);
        self.send_command(FIXED_ADDRESS);
        let mut bytes: Vec<u8> = Vec::new();
        bytes.push(address + 1);
        bytes.push(if c.led_on { 1 } else { 0 });
        assert(bytes@ =~= seq![(BASE_ADDRESS + 2 * pos + 1) as u8, c.led_byte()]);
        self.send_frame(&bytes);
    }

    /// Lights the LED at `index` in the retained state and redraws the
    /// whole frame from it.
    pub fn light_up_led(&mut self, index: usize)
        requires
            index < 8,
        ensures
            final(self).state.segments_states@ == old(self).state.segments_states@.update(
                index as int,
                (Segment { led_on: true, ..old(self).state.segments_states@[index as int] }),
            ),
            final(self).pending() == old(self).pending() + write_auto_signals(
                final(self).state.segments_states@,
            ),
    {
        let mut state: [Segment; 8] = self.state.segments_states;
        let mut seg: Segment = state[index];
        seg.led_on = true;
        state[index] = seg;
        self.state.segments_states = state;
        self.write_auto(&state);
    }

    /// Issues a key-scan read. The thirty-two levels that its samples
    /// yield, in order, are what `read_keys` decodes.
    pub fn request_keys(&mut self)
        ensures
            final(self).pending() == old(self).pending() + key_scan_signals(),
            final(self).state == old(self).state,
    {
        self.wire.push(Signal::StrobeLow);
        shift_out(&mut self.wire, READ_KEYS);
        self.wire.push(Signal::DataInput);
        shift_in_request(&mut self.wire);
        shift_in_request(&mut self.wire);
        shift_in_request(&mut self.wire);
        shift_in_request(&mut self.wire);
        self.wire.push(Signal::StrobeHigh);
        assert(self.wire@ =~= old(self).wire@ + key_scan_signals());
    }

    /// Sends the single command byte `cmd` as a transaction of its own.
    pub fn send_command(&mut self, cmd: u8)
        ensures
            final(self).pending() == old(self).pending() + frame_signals(seq![cmd]),
            final(self).state == old(self).state,
    {
        self.wire.push(Signal::StrobeLow);
        shift_out(&mut self.wire, cmd);
        self.wire.push(Signal::StrobeHigh);
        proof {
            let one = seq![cmd];
            assert(one.drop_last() =~= Seq::<u8>::empty());
            assert(bytes_signals(one.drop_last()) =~= Seq::<Signal>::empty());
            assert(bytes_signals(one) =~= shift_out_signals(cmd));
            assert(self.wire@ =~= old(self).wire@ + frame_signals(one));
        }
    }

    /// Combines the reply to a key-scan read into one byte: each of the four
    /// bytes clocked in, shifted left by its group's index, all of them or-ed.
    pub fn read_keys(&self, samples: &[bool; 32]) -> (keys: u8)
        ensures
            keys == scan_value(samples@, 4),
    {
        let mut keys: u8 = 0;
        let mut p: usize = 0;
        while p < 4
            invariant
                p <= 4,
                keys == scan_value(samples@, p as nat),
            decreases 4 - p,
        {
            let mut group: [bool; 8] = [false;8];
            let mut i: usize = 0;
            while i < 8
                invariant
                    i <= 8,
                    p < 4,
                    forall|j: int| 0 <= j < i ==> group@[j] == samples@[8 * p + j],
                decreases 8 - i,
            {
                group[i] = samples[8 * p + i];
                i = i + 1;
            }
            assert(group@ =~= samples@.subrange(8 * p, 8 * p + 8));
            keys = keys | (shift_in(&group) << (p as u8));
            p = p + 1;
        }
        keys
    }
}

} // verus!
