use led_keypad::display::LedAndKey;
use led_keypad::segment::{encode_digit, fill_with_digits, Displayable, Segment, State};
use led_keypad::wire::{shift_in, shift_in_request, shift_out, Signal};

/// Groups a run of signals into transactions and their bytes. Bytes sent
/// outside a transaction are returned as a transaction of their own.
fn frames(signals: &[Signal]) -> Vec<Vec<u8>> {
    let mut out: Vec<Vec<u8>> = Vec::new();
    let mut current: Vec<u8> = Vec::new();
    let mut byte: u8 = 0;
    let mut bits: u32 = 0;
    let mut level = false;
    for s in signals {
        match s {
            Signal::StrobeLow => {}
            Signal::StrobeHigh => {
                out.push(current.clone());
                current.clear();
            }
            Signal::DataHigh => level = true,
            Signal::DataLow => level = false,
            Signal::ClockHigh => {
                if level {
                    byte |= 1 << bits;
                }
                bits += 1;
                if bits == 8 {
                    current.push(byte);
                    byte = 0;
                    bits = 0;
                }
            }
            Signal::ClockLow => {}
            Signal::DataInput => {}
            Signal::DataSample => {}
        }
    }
    out
}

/// Feeds the levels that the data line carries at each clock pulse back to
/// the receiver.
fn loop_back(b: u8) -> u8 {
    let mut wire: Vec<Signal> = Vec::new();
    shift_out(&mut wire, b);
    let mut levels = [false; 8];
    let mut level = false;
    let mut n = 0;
    for s in &wire {
        match s {
            Signal::DataHigh => level = true,
            Signal::DataLow => level = false,
            Signal::ClockHigh => {
                levels[n] = level;
                n += 1;
            }
            _ => {}
        }
    }
    assert_eq!(n, 8);
    shift_in(&levels)
}

fn started() -> LedAndKey {
    let mut display = LedAndKey::new();
    display.take_signals();
    display
}

#[test]
fn shift_out_sends_least_significant_bit_first() {
    let mut wire: Vec<Signal> = Vec::new();
    shift_out(&mut wire, 0x8F);
    let h = [Signal::DataHigh, Signal::ClockHigh, Signal::ClockLow];
    let l = [Signal::DataLow, Signal::ClockHigh, Signal::ClockLow];
    let mut expected: Vec<Signal> = Vec::new();
    for bit in [true, true, true, true, false, false, false, true] {
        expected.extend_from_slice(if bit { &h } else { &l });
    }
    assert_eq!(wire, expected);
}

#[test]
fn shift_out_appends_to_what_is_pending() {
    let mut wire: Vec<Signal> = vec![Signal::StrobeLow];
    shift_out(&mut wire, 0x00);
    assert_eq!(wire.len(), 25);
    assert_eq!(wire[0], Signal::StrobeLow);
    assert_eq!(wire[1], Signal::DataLow);
}

#[test]
fn shift_in_puts_first_sample_in_bit_zero() {
    assert_eq!(shift_in(&[true, false, false, false, false, false, false, false]), 0x01);
    assert_eq!(shift_in(&[false, false, false, false, false, false, false, true]), 0x80);
    assert_eq!(shift_in(&[true, true, true, true, false, false, false, true]), 0x8F);
    assert_eq!(shift_in(&[false; 8]), 0x00);
    assert_eq!(shift_in(&[true; 8]), 0xFF);
}

#[test]
fn shift_in_request_pulses_eight_times() {
    let mut wire: Vec<Signal> = Vec::new();
    shift_in_request(&mut wire);
    assert_eq!(wire.len(), 24);
    for k in 0..8 {
        assert_eq!(wire[3 * k], Signal::ClockHigh);
        assert_eq!(wire[3 * k + 1], Signal::DataSample);
        assert_eq!(wire[3 * k + 2], Signal::ClockLow);
    }
}

#[test]
fn looped_back_byte_arrives_unchanged() {
    for b in 0..=255u8 {
        assert_eq!(loop_back(b), b);
    }
}

#[test]
fn encoding_table_values() {
    let table = [0x3Fu8, 0x06, 0x5B, 0x4F, 0x66, 0x6D, 0x7D, 0x07, 0x7F, 0x6F];
    for d in 0..10u8 {
        assert_eq!(encode_digit(d), table[d as usize]);
    }
}

#[test]
fn to_segment_takes_pattern_from_table() {
    let seg = 5u8.to_segment(true, false);
    assert_eq!(seg, Segment { pattern: 0x6D, digit: Some(5), led_on: true, with_dot: false });
    let seg = 0u8.to_segment(false, true);
    assert_eq!(seg, Segment { pattern: 0x3F, digit: Some(0), led_on: false, with_dot: true });
}

#[test]
fn default_segment_is_blank() {
    assert_eq!(
        Segment::default(),
        Segment { pattern: 0, digit: None, led_on: false, with_dot: false }
    );
    let state = State::default();
    assert_eq!(state.segments_states, [Segment::default(); 8]);
}

#[test]
fn fill_with_digits_pads_with_zeros() {
    let mut repr = [9u8; 8];
    fill_with_digits(123, &mut repr);
    assert_eq!(repr, [0, 0, 0, 0, 0, 1, 2, 3]);
    fill_with_digits(0, &mut repr);
    assert_eq!(repr, [0; 8]);
    fill_with_digits(99_999_999, &mut repr);
    assert_eq!(repr, [9; 8]);
    fill_with_digits(10_000_000, &mut repr);
    assert_eq!(repr, [1, 0, 0, 0, 0, 0, 0, 0]);
}

#[test]
fn fill_with_digits_drops_digits_above_the_eighth() {
    let mut repr = [0u8; 8];
    fill_with_digits(1_234_567_890, &mut repr);
    assert_eq!(repr, [3, 4, 5, 6, 7, 8, 9, 0]);
    fill_with_digits(u32::MAX, &mut repr);
    assert_eq!(repr, [9, 4, 9, 6, 7, 2, 9, 5]);
}

#[test]
fn new_activates_and_clears() {
    let mut display = LedAndKey::new();
    assert_eq!(display.state.segments_states, [Segment::default(); 8]);
    let signals = display.take_signals();
    assert_eq!(signals[0], Signal::StrobeLow);
    assert_eq!(signals[1], Signal::ClockLow);
    let mut clear = vec![0xC0u8];
    clear.extend_from_slice(&[0u8; 16]);
    assert_eq!(frames(&signals), vec![vec![0x8F, 0x40], vec![0x40], clear]);
    assert!(display.take_signals().is_empty());
}

#[test]
fn send_command_is_one_transaction() {
    let mut display = started();
    display.send_command(0x40);
    let signals = display.take_signals();
    assert_eq!(signals.len(), 26);
    assert_eq!(signals[0], Signal::StrobeLow);
    assert_eq!(signals[25], Signal::StrobeHigh);
    assert_eq!(frames(&signals), vec![vec![0x40]]);
}

#[test]
fn print_number_shows_eight_digits() {
    let mut display = started();
    display.print_number(123);
    let signals = display.take_signals();
    let data = vec![
        0xC0, 0x3F, 0, 0x3F, 0, 0x3F, 0, 0x3F, 0, 0x3F, 0, 0x06, 0, 0x5B, 0, 0x4F, 0,
    ];
    assert_eq!(frames(&signals), vec![vec![0x40], data]);
    assert_eq!(display.state.segments_states, [Segment::default(); 8]);
}

#[test]
fn print_number_matches_table_for_many_numbers() {
    let table = [0x3Fu8, 0x06, 0x5B, 0x4F, 0x66, 0x6D, 0x7D, 0x07, 0x7F, 0x6F];
    for n in [0u32, 7, 10, 4_096, 12_345_678, 90_000_009, 99_999_999] {
        let mut display = started();
        display.print_number(n);
        let fr = frames(&display.take_signals());
        assert_eq!(fr.len(), 2);
        assert_eq!(fr[1].len(), 17);
        let mut m = n;
        for i in (0..8).rev() {
            assert_eq!(fr[1][1 + 2 * i], table[(m % 10) as usize]);
            assert_eq!(fr[1][2 + 2 * i], 0);
            m /= 10;
        }
    }
}

#[test]
fn print_number_truncates_to_low_eight_digits() {
    let mut display = started();
    display.print_number(1_234_567_890);
    let fr = frames(&display.take_signals());
    let shown: Vec<u8> = (0..8).map(|i| fr[1][1 + 2 * i]).collect();
    assert_eq!(shown, vec![0x4F, 0x66, 0x6D, 0x7D, 0x07, 0x7F, 0x6F, 0x3F]);
}

#[test]
fn write_auto_sends_dot_and_led() {
    let mut display = started();
    let frame = [
        1u8.to_segment(false, true),
        2u8.to_segment(true, false),
        Segment::default(),
    ];
    display.write_auto(&frame);
    let fr = frames(&display.take_signals());
    assert_eq!(fr, vec![vec![0x40], vec![0xC0, 0x86, 0, 0x5B, 1, 0, 0]]);
}

#[test]
fn write_auto_of_nothing_sends_the_address_only() {
    let mut display = started();
    display.write_auto(&[]);
    assert_eq!(frames(&display.take_signals()), vec![vec![0x40], vec![0xC0]]);
}

#[test]
fn write_at_uses_two_addresses_per_position() {
    let mut display = started();
    display.write_at(3, 8u8.to_segment(true, true));
    let fr = frames(&display.take_signals());
    assert_eq!(fr, vec![vec![0x44], vec![0xC6, 0xFF], vec![0x44], vec![0xC7, 1]]);
    display.write_at(0, 1u8.to_segment(false, false));
    let fr = frames(&display.take_signals());
    assert_eq!(fr, vec![vec![0x44], vec![0xC0, 0x06], vec![0x44], vec![0xC1, 0]]);
    display.write_at(7, Segment::default());
    let fr = frames(&display.take_signals());
    assert_eq!(fr, vec![vec![0x44], vec![0xCE, 0], vec![0x44], vec![0xCF, 0]]);
}

#[test]
fn light_up_led_keeps_the_flag() {
    let mut display = started();
    display.light_up_led(2);
    assert!(display.state.segments_states[2].led_on);
    assert!(!display.state.segments_states[1].led_on);
    let fr = frames(&display.take_signals());
    let mut data = vec![0xC0u8];
    for i in 0..8 {
        data.push(0);
        data.push(if i == 2 { 1 } else { 0 });
    }
    assert_eq!(fr, vec![vec![0x40], data]);
    display.light_up_led(7);
    assert!(display.state.segments_states[2].led_on);
    assert!(display.state.segments_states[7].led_on);
    display.take_signals();
    display.print_number(5);
    let fr = frames(&display.take_signals());
    assert_eq!(fr[1][2 + 2 * 2], 1);
    assert_eq!(fr[1][2 + 2 * 7], 1);
    assert_eq!(fr[1][1 + 2 * 7], 0x6D);
}

#[test]
fn request_keys_clocks_four_bytes_in() {
    let mut display = started();
    display.request_keys();
    let signals = display.take_signals();
    assert_eq!(signals.len(), 1 + 24 + 1 + 96 + 1);
    assert_eq!(signals[0], Signal::StrobeLow);
    assert_eq!(signals[25], Signal::DataInput);
    assert_eq!(signals[26], Signal::ClockHigh);
    assert_eq!(signals[27], Signal::DataSample);
    assert_eq!(signals[122], Signal::StrobeHigh);
    let samples = signals.iter().filter(|s| **s == Signal::DataSample).count();
    assert_eq!(samples, 32);
    let mut command: Vec<Signal> = Vec::new();
    shift_out(&mut command, 0x42);
    assert_eq!(&signals[1..25], &command[..]);
}

#[test]
fn read_keys_shifts_each_group_by_its_index() {
    let display = started();
    let mut samples = [false; 32];
    assert_eq!(display.read_keys(&samples), 0);
    samples[0] = true;
    assert_eq!(display.read_keys(&samples), 0x01);
    samples[8] = true;
    assert_eq!(display.read_keys(&samples), 0x03);
    samples[16 + 4] = true;
    assert_eq!(display.read_keys(&samples), 0x43);
    samples[24 + 4] = true;
    assert_eq!(display.read_keys(&samples), 0xC3);
}

#[test]
fn read_keys_drops_bits_shifted_out() {
    let display = started();
    let mut samples = [false; 32];
    samples[24 + 7] = true;
    assert_eq!(display.read_keys(&samples), 0);
    samples[8 + 7] = true;
    assert_eq!(display.read_keys(&samples), 0);
    samples[7] = true;
    assert_eq!(display.read_keys(&samples), 0x80);
}
