use led_keypad::keyboard::{parse_digit, Keyboard, MatrixOp};

fn layout() -> [[&'static str; 4]; 5] {
    [
        ["F1", "F2", "#", "*"],
        ["1", "2", "3", "ArrowUp"],
        ["4", "5", "6", "ArrowDown"],
        ["7", "8", "9", "Esc"],
        ["<", "0", ">", "Ent"],
    ]
}

fn only(r: usize, c: usize) -> [[bool; 4]; 5] {
    let mut key = [[false; 4]; 5];
    key[r][c] = true;
    key
}

const OPEN: [[bool; 4]; 5] = [[false; 4]; 5];

#[test]
fn new_holds_no_key() {
    let kb: Keyboard<4, 5> = Keyboard::new(layout());
    assert_eq!(kb.held, None);
    assert_eq!(kb.mapping, layout());
}

#[test]
fn outputs_are_driven_in_ascending_order() {
    let kb: Keyboard<3, 2> = Keyboard::new([["a", "b", "c"], ["d", "e", "f"]]);
    assert_eq!(
        kb.set_outputs_high(),
        vec![MatrixOp::ColumnHigh(0), MatrixOp::ColumnHigh(1), MatrixOp::ColumnHigh(2)]
    );
    assert_eq!(
        kb.set_outputs_low(),
        vec![MatrixOp::ColumnLow(0), MatrixOp::ColumnLow(1), MatrixOp::ColumnLow(2)]
    );
}

#[test]
fn probe_settles_before_each_sample() {
    let kb: Keyboard<3, 2> = Keyboard::new([["a", "b", "c"], ["d", "e", "f"]]);
    assert_eq!(
        kb.read_rows(),
        vec![
            MatrixOp::Settle,
            MatrixOp::SampleRow(0),
            MatrixOp::Settle,
            MatrixOp::SampleRow(1),
        ]
    );
}

#[test]
fn localize_walks_the_columns_of_an_active_row() {
    let kb: Keyboard<2, 3> = Keyboard::new([["a", "b"], ["c", "d"], ["e", "f"]]);
    let probe = [false, true, false];
    assert_eq!(kb.localize_ops(&probe, 0), vec![]);
    assert_eq!(kb.localize_ops(&probe, 2), vec![]);
    assert_eq!(
        kb.localize_ops(&probe, 1),
        vec![
            MatrixOp::ColumnLow(0),
            MatrixOp::ColumnLow(1),
            MatrixOp::ColumnHigh(0),
            MatrixOp::SampleRow(1),
            MatrixOp::ColumnLow(0),
            MatrixOp::ColumnHigh(1),
            MatrixOp::SampleRow(1),
            MatrixOp::ColumnLow(1),
        ]
    );
}

#[test]
fn scan_localizes_active_rows_and_restores_idle() {
    let kb: Keyboard<2, 3> = Keyboard::new([["a", "b"], ["c", "d"], ["e", "f"]]);
    let walk = |r: usize| {
        vec![
            MatrixOp::ColumnLow(0),
            MatrixOp::ColumnLow(1),
            MatrixOp::ColumnHigh(0),
            MatrixOp::SampleRow(r),
            MatrixOp::ColumnLow(0),
            MatrixOp::ColumnHigh(1),
            MatrixOp::SampleRow(r),
            MatrixOp::ColumnLow(1),
        ]
    };
    let idle = vec![MatrixOp::ColumnHigh(0), MatrixOp::ColumnHigh(1)];
    assert_eq!(kb.scan_ops(&[false, false, false]), idle);
    let mut expected = walk(1);
    expected.extend_from_slice(&idle);
    assert_eq!(kb.scan_ops(&[false, true, false]), expected);
    let mut expected = walk(0);
    expected.extend(walk(2));
    expected.extend_from_slice(&idle);
    assert_eq!(kb.scan_ops(&[true, false, true]), expected);
}

#[test]
fn read_keys_places_samples_in_active_rows() {
    let kb: Keyboard<4, 5> = Keyboard::new(layout());
    let probe = [false, true, false, false, true];
    let samples = vec![false, false, true, false, true, false, false, true];
    let key = kb.read_keys(&probe, &samples);
    let mut expected = [[false; 4]; 5];
    expected[1][2] = true;
    expected[4][0] = true;
    expected[4][3] = true;
    assert_eq!(key, expected);
}

#[test]
fn read_keys_of_a_quiet_probe_is_open() {
    let kb: Keyboard<4, 5> = Keyboard::new(layout());
    assert_eq!(kb.read_keys(&[false; 5], &vec![]), OPEN);
}

#[test]
fn read_keys_of_an_active_row_without_column_is_open() {
    let kb: Keyboard<4, 5> = Keyboard::new(layout());
    let probe = [true, false, false, false, false];
    assert_eq!(kb.read_keys(&probe, &vec![false; 4]), OPEN);
    assert_eq!(kb.read_keys(&probe, &vec![false, true, false, false]), only(0, 1));
}

#[test]
fn first_active_goes_by_row_then_column() {
    assert_eq!(Keyboard::<4, 5>::first_active(&OPEN), None);
    assert_eq!(Keyboard::<4, 5>::first_active(&only(3, 2)), Some((3, 2)));
    let mut key = only(2, 3);
    key[3][0] = true;
    assert_eq!(Keyboard::<4, 5>::first_active(&key), Some((2, 3)));
    key[2][1] = true;
    assert_eq!(Keyboard::<4, 5>::first_active(&key), Some((2, 1)));
    key[0][3] = true;
    assert_eq!(Keyboard::<4, 5>::first_active(&key), Some((0, 3)));
}

#[test]
fn no_key_gives_the_pair_of_sizes() {
    let mut kb: Keyboard<4, 5> = Keyboard::new(layout());
    assert_eq!(kb.get_on_released(&OPEN), Some((5, 4)));
    assert_eq!(kb.held, None);
    assert_eq!(kb.get_str(&OPEN), None);
    assert_eq!(kb.get_digit(&OPEN), None);
}

#[test]
fn held_key_is_reported_once_on_release() {
    let mut kb: Keyboard<4, 5> = Keyboard::new(layout());
    let pressed = only(1, 2);
    assert_eq!(kb.get_on_released(&pressed), None);
    assert_eq!(kb.held, Some((1, 2)));
    for _ in 0..10 {
        assert_eq!(kb.get_on_released(&pressed), None);
    }
    assert_eq!(kb.get_on_released(&OPEN), Some((3, 2)));
    assert_eq!(kb.held, None);
    assert_eq!(kb.get_on_released(&OPEN), Some((5, 4)));
}

#[test]
fn release_is_that_of_the_held_cell() {
    let mut kb: Keyboard<4, 5> = Keyboard::new(layout());
    assert_eq!(kb.get_on_released(&only(0, 0)), None);
    let mut both = only(0, 0);
    both[4][3] = true;
    assert_eq!(kb.get_on_released(&both), None);
    assert_eq!(kb.get_on_released(&only(4, 3)), Some((4, 0)));
    assert_eq!(kb.get_on_released(&only(4, 3)), None);
    assert_eq!(kb.get_on_released(&OPEN), Some((0, 3)));
}

#[test]
fn get_str_resolves_the_reported_cell() {
    let mut kb: Keyboard<4, 5> = Keyboard::new(layout());
    assert_eq!(kb.get_str(&only(4, 0)), None);
    assert_eq!(kb.get_str(&OPEN), Some("F1"));
    assert_eq!(kb.get_str(&only(0, 3)), None);
    assert_eq!(kb.get_str(&only(0, 3)), None);
    assert_eq!(kb.get_str(&OPEN), Some("Ent"));
    assert_eq!(kb.get_str(&only(2, 1)), None);
    assert_eq!(kb.get_str(&OPEN), Some("5"));
}

#[test]
fn get_digit_parses_the_first_character() {
    let mut kb: Keyboard<4, 5> = Keyboard::new(layout());
    assert_eq!(kb.get_digit(&only(1, 0)), None);
    assert_eq!(kb.get_digit(&OPEN), Some(Some(7)));
    assert_eq!(kb.get_digit(&only(4, 1)), None);
    assert_eq!(kb.get_digit(&OPEN), Some(None));
    assert_eq!(kb.get_digit(&only(0, 1)), None);
    assert_eq!(kb.get_digit(&OPEN), Some(Some(0)));
    assert_eq!(kb.get_digit(&only(1, 3)), None);
    assert_eq!(kb.get_digit(&OPEN), Some(None));
}

#[test]
fn parse_digit_of_labels() {
    assert_eq!(parse_digit("0"), Some(0));
    assert_eq!(parse_digit("9"), Some(9));
    assert_eq!(parse_digit("42"), Some(4));
    assert_eq!(parse_digit("F1"), None);
    assert_eq!(parse_digit("Esc"), None);
    assert_eq!(parse_digit(""), None);
    assert_eq!(parse_digit("/"), None);
    assert_eq!(parse_digit(":"), None);
}
