//! The bit-serial transport: a byte travels as eight clock pulses, least
//! significant bit first.

use vstd::prelude::*;

verus! {

/// One elementary operation on the strobe, clock and data lines.
#[derive(Clone, Copy, Debug, PartialEq, Eq, Structural)]
pub enum Signal {
    StrobeLow,
    StrobeHigh,
    ClockLow,
    ClockHigh,
    DataLow,
    DataHigh,
    /// Release the data line so that the peripheral can drive it.
    DataInput,
    /// Read the level of the data line.
    DataSample,
}

/// Bit `i` of `b`, counted from the least significant one.
pub open spec fn bit_of(b: u8, i: nat) -> bool {
    b & (1u8 << (i as u8)) != 0
}

/// The levels that the data line takes, pulse by pulse, while `b` is sent.
pub open spec fn data_levels(b: u8) -> Seq<bool> {
    Seq::new(8, |i: int| bit_of(b, i as nat))
}

/// One clock pulse with the data line held at `level`.
pub open spec fn pulse(level: bool) -> Seq<Signal> {
    seq![if level { Signal::DataHigh } else { Signal::DataLow }, Signal::ClockHigh, Signal::ClockLow]
}

/// The pulses for the first `n` levels of `levels`.
pub open spec fn pulses(levels: Seq<bool>, n: nat) -> Seq<Signal>
    decreases n,
{
    if n == 0 {
        Seq::empty()
    } else {
        pulses(levels, (n - 1) as nat) + pulse(levels[n - 1])
    }
}

/// The signals that send `b`: eight pulses, least significant bit first.
pub open spec fn shift_out_signals(b: u8) -> Seq<Signal> {
    pulses(data_levels(b), 8)
}

/// The signals that send each byte of `bytes` in order.
pub open spec fn bytes_signals(bytes: Seq<u8>) -> Seq<Signal>
    decreases bytes.len(),
{
    if bytes.len() == 0 {
        Seq::empty()
    } else {
        bytes_signals(bytes.drop_last()) + shift_out_signals(bytes.last())
    }
}

/// One transaction: strobe low, the bytes, strobe high.
pub open spec fn frame_signals(bytes: Seq<u8>) -> Seq<Signal> {
    seq![Signal::StrobeLow] + bytes_signals(bytes) + seq![Signal::StrobeHigh]
}

/// The signals that clock `n` bits in: raise the clock, sample, lower it.
pub open spec fn shift_in_signals(n: nat) -> Seq<Signal>
    decreases n,
{
    if n == 0 {
        Seq::empty()
    } else {
        shift_in_signals((n - 1) as nat) + seq![
            Signal::ClockHigh,
            Signal::DataSample,
            Signal::ClockLow,
        ]
    }
}

/// The byte whose bit `i` is `levels[i]`, for the first `n` levels.
pub open spec fn pack(levels: Seq<bool>, n: nat) -> u8
    decreases n,
{
    if n == 0 {
        0u8
    } else {
        pack(levels, (n - 1) as nat) | (if levels[n - 1] {
            1u8 << ((n - 1) as u8)
        } else {
            0u8
        })
    }
}

/// The byte received when the eight samples of one read are `levels`.
pub open spec fn shift_in_value(levels: Seq<bool>) -> u8 {
    pack(levels, 8)
}

/// Appends to `wire` the signals that send `cmd`.
pub fn shift_out(wire: &mut Vec<Signal>, cmd: u8)
    ensures
        final(wire)@ == old(wire)@ + shift_out_signals(cmd),
{
    let ghost levels = data_levels(cmd);
    let mut i: u8 = 0;
    while i < 8
        invariant
            i <= 8,
            levels == data_levels(cmd),
            wire@ == old(wire)@ + pulses(levels, i as nat),
        decreases 8 - i,
    {
        let level = (cmd & (1u8 << i)) != 0;
        assert(level == levels[i as int]);
        if level {
            wire.push(Signal::DataHigh);
        } else {
            wire.push(Signal::DataLow);
        }
        wire.push(Signal::ClockHigh);
        wire.push(Signal::ClockLow);
        assert(wire@ == old(wire)@ + (pulses(levels, i as nat) + pulse(level)));
        i = i + 1;
    }
}

/// Appends to `wire` the signals that clock one byte in.
pub fn shift_in_request(wire: &mut Vec<Signal>)
    ensures
        final(wire)@ == old(wire)@ + shift_in_signals(8),
{
    let mut i: u8 = 0;
    while i < 8
        invariant
            i <= 8,
            wire@ == old(wire)@ + shift_in_signals(i as nat),
        decreases 8 - i,
    {
        wire.push(Signal::ClockHigh);
        wire.push(Signal::DataSample);
        wire.push(Signal::ClockLow);
        assert(wire@ == old(wire)@ + (shift_in_signals(i as nat) + seq![
            Signal::ClockHigh,
            Signal::DataSample,
            Signal::ClockLow,
        ]));
        i = i + 1;
    }
}

/// Assembles the byte from the eight levels sampled during one read, the
/// first sample being the least significant bit.
pub fn shift_in(levels: &[bool; 8]) -> (cmd: u8)
    ensures
        cmd == shift_in_value(levels@),
{
    let mut cmd: u8 = 0;
    let mut i: u8 = 0;
    while i < 8
        invariant
            i <= 8,
            cmd == pack(levels@, i as nat),
        decreases 8 - i,
    {
        if levels[i as usize] {
            cmd = cmd | (1u8 << i);
        } else {
            assert(cmd | 0u8 == cmd) by (bit_vector);
        }
        i = i + 1;
    }
    cmd
}

proof fn lemma_single_bit(b: u8, i: u8)
    requires
        i < 8,
    ensures
        (if b & (1u8 << i) != 0 { 1u8 << i } else { 0u8 }) == b & (1u8 << i),
{
    assert(b & (1u8 << i) == 0 || b & (1u8 << i) == 1u8 << i) by (bit_vector)
        requires
            i < 8,
    ;
}

/// The level of the data line after `signals`, it having been `level`
/// before them.
pub open spec fn level_after(signals: Seq<Signal>, level: bool) -> bool
    decreases signals.len(),
{
    if signals.len() == 0 {
        level
    } else {
        match signals.last() {
            Signal::DataHigh => true,
            Signal::DataLow => false,
            _ => level_after(signals.drop_last(), level),
        }
    }
}

/// The levels that a receiver on the same data line samples during
/// `signals`, one at each rise of the clock.
pub open spec fn clocked_levels(signals: Seq<Signal>, level: bool) -> Seq<bool>
    decreases signals.len(),
{
    if signals.len() == 0 {
        Seq::empty()
    } else if signals.last() == Signal::ClockHigh {
        clocked_levels(signals.drop_last(), level).push(level_after(signals.drop_last(), level))
    } else {
        clocked_levels(signals.drop_last(), level)
    }
}

proof fn lemma_pulse_clocked(s: Seq<Signal>, level: bool, start: bool)
    ensures
        clocked_levels(s + pulse(level), start) == clocked_levels(s, start).push(level),
{
    let s1 = s.push(if level { Signal::DataHigh } else { Signal::DataLow });
    let s2 = s1.push(Signal::ClockHigh);
    let s3 = s2.push(Signal::ClockLow);
    assert(s3 =~= s + pulse(level));
    assert(s3.drop_last() =~= s2);
    assert(s2.drop_last() =~= s1);
    assert(s1.drop_last() =~= s);
    assert(level_after(s1, start) == level);
    assert(clocked_levels(s1, start) == clocked_levels(s, start));
    assert(clocked_levels(s2, start) == clocked_levels(s1, start).push(level));
    assert(clocked_levels(s3, start) == clocked_levels(s2, start));
}

/// A receiver that samples at each rise of the clock sees the levels that
/// were sent, in order.
pub proof fn lemma_pulses_clocked(levels: Seq<bool>, n: nat, start: bool)
    requires
        n <= levels.len(),
    ensures
        clocked_levels(pulses(levels, n), start) == levels.take(n as int),
    decreases n,
{
    if n == 0 {
        assert(levels.take(0) =~= Seq::<bool>::empty());
    } else {
        lemma_pulses_clocked(levels, (n - 1) as nat, start);
        lemma_pulse_clocked(pulses(levels, (n - 1) as nat), levels[n - 1], start);
        assert(levels.take(n as int) =~= levels.take(n - 1).push(levels[n - 1]));
    }
}

/// The eight levels of a byte make up the byte again.
pub proof fn lemma_pack_data_levels(b: u8)
    ensures
        shift_in_value(data_levels(b)) == b,
{
    reveal_with_fuel(pack, 9);
    lemma_single_bit(b, 0);
    lemma_single_bit(b, 1);
    lemma_single_bit(b, 2);
    lemma_single_bit(b, 3);
    lemma_single_bit(b, 4);
    lemma_single_bit(b, 5);
    lemma_single_bit(b, 6);
    lemma_single_bit(b, 7);
    assert(0u8 | (b & (1u8 << 0u8)) | (b & (1u8 << 1u8)) | (b & (1u8 << 2u8)) | (b & (1u8 << 3u8))
        | (b & (1u8 << 4u8)) | (b & (1u8 << 5u8)) | (b & (1u8 << 6u8)) | (b & (1u8 << 7u8)) == b)
        by (bit_vector);
}

/// A byte sent and read back over a looped-back data line arrives unchanged:
/// the levels that the line holds at the clock pulses of `shift_out`, taken
/// as the samples of `shift_in`, give the byte that was sent, whatever the
/// level of the line was before.
pub proof fn lemma_shift_round_trip(b: u8, start: bool)
    ensures
        shift_in_value(clocked_levels(shift_out_signals(b), start)) == b,
{
    lemma_pulses_clocked(data_levels(b), 8, start);
    assert(data_levels(b).take(8) =~= data_levels(b));
    lemma_pack_data_levels(b);
}

} // verus!
