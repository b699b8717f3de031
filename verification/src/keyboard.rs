//! The key-matrix scanner: which lines to drive and sample, how the samples
//! make up the matrix of closed cells, and the reporting of a key when it is
//! released.

use vstd::prelude::*;
use vstd::string::*;

verus! {

/// One elementary operation on the lines of the matrix.
#[derive(Clone, Copy, Debug, PartialEq, Eq, Structural)]
pub enum MatrixOp {
    /// Wait for the fixed settle delay.
    Settle,
    /// Read the level of a row line.
    SampleRow(usize),
    ColumnHigh(usize),
    ColumnLow(usize),
}

/// The probe of the first `n` rows, all columns being high: for each row in
/// order, the settle delay and then one sample.
pub open spec fn probe_plan(n: nat) -> Seq<MatrixOp>
    decreases n,
{
    if n == 0 {
        Seq::empty()
    } else {
        probe_plan((n - 1) as nat) + seq![MatrixOp::Settle, MatrixOp::SampleRow((n - 1) as usize)]
    }
}

/// The first `n` columns driven to one level, in ascending order.
pub open spec fn columns_plan(high: bool, n: nat) -> Seq<MatrixOp>
    decreases n,
{
    if n == 0 {
        Seq::empty()
    } else {
        columns_plan(high, (n - 1) as nat) + seq![
            if high {
                MatrixOp::ColumnHigh((n - 1) as usize)
            } else {
                MatrixOp::ColumnLow((n - 1) as usize)
            },
        ]
    }
}

/// Row `row` sampled once under each of the first `n` columns, that column
/// alone being high.
pub open spec fn column_walk(row: usize, n: nat) -> Seq<MatrixOp>
    decreases n,
{
    if n == 0 {
        Seq::empty()
    } else {
        column_walk(row, (n - 1) as nat) + seq![
            MatrixOp::ColumnHigh((n - 1) as usize),
            MatrixOp::SampleRow(row),
            MatrixOp::ColumnLow((n - 1) as usize),
        ]
    }
}

/// The localization of row `row` over `cols` columns: nothing if the probe
/// found the row inactive, else all columns low and the walk.
pub open spec fn localize_plan(active: bool, row: usize, cols: nat) -> Seq<MatrixOp> {
    if active {
        columns_plan(false, cols) + column_walk(row, cols)
    } else {
        Seq::empty()
    }
}

/// The localization of the first `rows` rows, in ascending order.
pub open spec fn localize_all(probe: Seq<bool>, rows: nat, cols: nat) -> Seq<MatrixOp>
    decreases rows,
{
    if rows == 0 {
        Seq::empty()
    } else {
        localize_all(probe, (rows - 1) as nat, cols) + localize_plan(
            probe[rows - 1],
            (rows - 1) as usize,
            cols,
        )
    }
}

/// The second phase of a scan: every row that the probe found active is
/// localized, then all columns go back to high, their idle level.
pub open spec fn scan_plan(probe: Seq<bool>, rows: nat, cols: nat) -> Seq<MatrixOp> {
    localize_all(probe, rows, cols) + columns_plan(true, cols)
}

/// The number of rows before row `r` that the probe found active.
pub open spec fn active_before(probe: Seq<bool>, r: nat) -> nat
    decreases r,
{
    if r == 0 {
        0
    } else {
        active_before(probe, (r - 1) as nat) + if probe[r - 1] {
            1nat
        } else {
            0nat
        }
    }
}

/// Whether the cell at row `r` and column `c` is closed: the probe found the
/// row active, and the sample taken for the cell during the localization
/// was active. The samples of the localized rows follow each other, one for
/// each column.
pub open spec fn cell_closed(probe: Seq<bool>, samples: Seq<bool>, cols: nat, r: int, c: int) -> bool {
    probe[r] && samples[active_before(probe, r as nat) * cols + c]
}

proof fn lemma_active_monotone(probe: Seq<bool>, a: nat, b: nat)
    requires
        a <= b,
    ensures
        active_before(probe, a) <= active_before(probe, b),
    decreases b,
{
    if a < b {
        lemma_active_monotone(probe, a, (b - 1) as nat);
    }
}

/// Whether no cell of `key` before `(r, c)`, in the order of rows and then
/// columns, is closed.
pub open spec fn none_before<const C: usize, const R: usize>(
    key: [[bool; C]; R],
    r: int,
    c: int,
) -> bool {
    forall|i: int, j: int|
        0 <= i < R && 0 <= j < C && (i < r || (i == r && j < c)) ==> !(#[trigger] key[i][j])
}

/// The first closed cell of `key`, rows in ascending order and within a row
/// the columns in ascending order.
pub open spec fn first_closed<const C: usize, const R: usize>(key: [[bool; C]; R]) -> Option<
    (usize, usize),
> {
    if exists|r: int, c: int| 0 <= r < R && 0 <= c < C && key[r][c] && none_before(key, r, c) {
        let (r, c) = choose|r: int, c: int|
            0 <= r < R && 0 <= c < C && key[r][c] && none_before(key, r, c);
        Some((r as usize, c as usize))
    } else {
        None
    }
}

/// One step of release reporting. With no key held, a scan that shows a
/// closed cell makes it the held key and reports nothing, and a scan that
/// shows none reports the pair `(R, C)`, which stands for no key. With a
/// key held, nothing is reported while its cell stays closed; once it is
/// open the key is reported with its row counted from the other end.
pub open spec fn release_step<const C: usize, const R: usize>(
    held: Option<(usize, usize)>,
    key: [[bool; C]; R],
) -> (Option<(usize, usize)>, Option<(usize, usize)>) {
    match held {
        None => match first_closed(key) {
            Some(cell) => (Some(cell), None),
            None => (None, Some((R, C))),
        },
        Some((r, c)) => if key[r as int][c as int] {
            (held, None)
        } else {
            (None, Some(((R - 1 - r) as usize, c)))
        },
    }
}

/// The decimal digit that a label starts with, if it starts with one.
pub open spec fn label_digit(label: Seq<char>) -> Option<u8> {
    if label.len() > 0 && '0' <= label[0] && label[0] <= '9' {
        Some((label[0] as u32 - '0' as u32) as u8)
    } else {
        None
    }
}

/// A scanner for a matrix of `R` row inputs and `C` column outputs.
pub struct Keyboard<const C: usize, const R: usize> {
    /// The label of the key at each row and column.
    pub mapping: [[&'static str; C]; R],
    /// The cell whose release is awaited, if any.
    pub held: Option<(usize, usize)>,
}

impl<const C: usize, const R: usize> Keyboard<C, R> {
    /// The held cell, if any, lies inside the matrix.
    pub open spec fn well_formed(&self) -> bool {
        match self.held {
            Some((r, c)) => r < R && c < C,
            None => true,
        }
    }

    /// A scanner with the given labels and no key held.
    pub fn new(mapping: [[&'static str; C]; R]) -> (keyboard: Self)
        ensures
            keyboard.mapping == mapping,
            keyboard.held.is_none(),
            keyboard.well_formed(),
    {
        Keyboard { mapping, held: None }
    }

    /// The operations that drive every column high, the idle level.
    pub fn set_outputs_high(&self) -> (ops: Vec<MatrixOp>)
        ensures
            ops@ == columns_plan(true, C as nat),
    {
        let mut ops: Vec<MatrixOp> = Vec::new();
        let mut cn: usize = 0;
        while cn < C
            invariant
                cn <= C,
                ops@ == columns_plan(true, cn as nat),
            decreases C - cn,
        {
            ops.push(MatrixOp::ColumnHigh(cn));
            cn = cn + 1;
        }
        ops
    }

    /// The operations that drive every column low.
    pub fn set_outputs_low(&self) -> (ops: Vec<MatrixOp>)
        ensures
            ops@ == columns_plan(false, C as nat),
    {
        let mut ops: Vec<MatrixOp> = Vec::new();
        let mut cn: usize = 0;
        while cn < C
            invariant
                cn <= C,
                ops@ == columns_plan(false, cn as nat),
            decreases C - cn,
        {
            ops.push(MatrixOp::ColumnLow(cn));
            cn = cn + 1;
        }
        ops
    }

    /// The operations of the probe phase. Their samples, in order, are the
    /// levels of the rows.
    pub fn read_rows(&self) -> (ops: Vec<MatrixOp>)
        ensures
            ops@ == probe_plan(R as nat),
    {
        let mut ops: Vec<MatrixOp> = Vec::new();
        let mut rn: usize = 0;
        while rn < R
            invariant
                rn <= R,
                ops@ == probe_plan(rn as nat),
            decreases R - rn,
        {
            ops.push(MatrixOp::Settle);
            ops.push(MatrixOp::SampleRow(rn));
            assert(ops@ =~= probe_plan(rn as nat) + seq![MatrixOp::Settle, MatrixOp::SampleRow(rn)]);
            rn = rn + 1;
        }
        ops
    }

    /// The operations that localize the closed cell in row `row`, given the
    /// levels that the probe found. Their samples, in order, are the levels
    /// of the row under each column.
    pub fn localize_ops(&self, probe: &[bool; R], row: usize) -> (ops: Vec<MatrixOp>)
        requires
            row < R,
        ensures
            ops@ == localize_plan(probe@[row as int], row, C as nat),
    {
        if probe[row] {
            let mut ops: Vec<MatrixOp> = self.set_outputs_low();
            let mut cn: usize = 0;
            while cn < C
                invariant
                    cn <= C,
                    ops@ == columns_plan(false, C as nat) + column_walk(row, cn as nat),
                decreases C - cn,
            {
                ops.push(MatrixOp::ColumnHigh(cn));
                ops.push(MatrixOp::SampleRow(row));
                ops.push(MatrixOp::ColumnLow(cn));
                assert(ops@ =~= columns_plan(false, C as nat) + (column_walk(row, cn as nat) + seq![
                    MatrixOp::ColumnHigh(cn),
                    MatrixOp::SampleRow(row),
                    MatrixOp::ColumnLow(cn),
                ]));
                cn = cn + 1;
            }
            ops
        } else {
            Vec::new()
        }
    }

    /// The operations of the second phase of a scan, given the levels that
    /// the probe found. Their samples, in order, are what `read_keys` takes.
    pub fn scan_ops(&self, probe: &[bool; R]) -> (ops: Vec<MatrixOp>)
        ensures
            ops@ == scan_plan(probe@, R as nat, C as nat),
    {
        let mut ops: Vec<MatrixOp> = Vec::new();
        let mut rn: usize = 0;
        while rn < R
            invariant
                rn <= R,
                ops@ == localize_all(probe@, rn as nat, C as nat),
            decreases R - rn,
        {
            let mut row_ops: Vec<MatrixOp> = self.localize_ops(probe, rn);
            ops.append(&mut row_ops);
            rn = rn + 1;
        }
        let mut idle: Vec<MatrixOp> = self.set_outputs_high();
        ops.append(&mut idle);
        ops
    }

    /// The matrix of closed cells, from the levels that the probe found and
    /// the samples of the second phase of the scan: a cell is closed where
    /// its row was active in the probe and active again under the cell's
    /// column alone.
    pub fn read_keys(&self, probe: &[bool; R], samples: &Vec<bool>) -> (key: [[bool; C]; R])
        requires
            samples@.len() == active_before(probe@, R as nat) * C,
        ensures
            forall|r: int, c: int|
                0 <= r < R && 0 <= c < C ==> #[trigger] key[r][c] == cell_closed(
                    probe@,
                    samples@,
                    C as nat,
                    r,
                    c,
                ),
    {
        let mut key: [[bool; C]; R] = [[false;C];R];
        let len: usize = samples.len();
        let mut base: usize = 0;
        let mut rn: usize = 0;
        while rn < R
            invariant
                rn <= R,
                len == samples@.len(),
                samples@.len() == active_before(probe@, R as nat) * C,
                base == active_before(probe@, rn as nat) * C,
                forall|r: int, c: int|
                    0 <= r < rn && 0 <= c < C ==> #[trigger] key[r][c] == cell_closed(
                        probe@,
                        samples@,
                        C as nat,
                        r,
                        c,
                    ),
            decreases R - rn,
        {
            if probe[rn] {
                proof {
                    lemma_active_monotone(probe@, (rn + 1) as nat, R as nat);
                    let k = active_before(probe@, rn as nat);
                    let total = active_before(probe@, R as nat);
                    assert(k + 1 <= total);
                    assert((k + 1) * C <= total * C) by (nonlinear_arith)
                        requires
                            k + 1 <= total,
                    ;
                    assert((k + 1) * C == k * C + C) by (nonlinear_arith);
                    assert(base + C <= len);
                }
                let mut row: [bool; C] = [false;C];
                let mut cn: usize = 0;
                while cn < C
                    invariant
                        cn <= C,
                        len == samples@.len(),
                        base + C <= len,
                        forall|c: int| 0 <= c < cn ==> row@[c] == samples@[base + c],
                    decreases C - cn,
                {
                    row[cn] = samples[base + cn];
                    cn = cn + 1;
                }
                key[rn] = row;
                base = base + C;
            } else {
                key[rn] = [false;C];
            }
            rn = rn + 1;
        }
        key
    }

    /// The first closed cell of `key`, if any.
    pub fn first_active(key: &[[bool; C]; R]) -> (cell: Option<(usize, usize)>)
        ensures
            cell == first_closed(*key),
            cell matches Some((r, c)) ==> r < R && c < C && key[r as int][c as int] && none_before(
                *key,
                r as int,
                c as int,
            ),
            cell.is_none() ==> forall|r: int, c: int|
                0 <= r < R && 0 <= c < C ==> !(#[trigger] key[r][c]),
    {
        let mut r: usize = 0;
        while r < R
            invariant
                r <= R,
                none_before(*key, r as int, 0),
            decreases R - r,
        {
            let mut c: usize = 0;
            while c < C
                invariant
                    r < R,
                    c <= C,
                    none_before(*key, r as int, c as int),
                decreases C - c,
            {
                if key[r][c] {
                    proof {
                        lemma_first_closed_unique(*key, r as int, c as int);
                    }
                    return Some((r, c));
                }
                c = c + 1;
            }
            r = r + 1;
        }
        None
    }

    /// Takes the result of one scan and reports a key once it is released.
    /// `None` means that a key is held and the matrix has to be scanned
    /// again; the pair `(R, C)` means that no key was pressed.
    pub fn get_on_released(&mut self, key: &[[bool; C]; R]) -> (released: Option<(usize, usize)>)
        requires
            old(self).well_formed(),
        ensures
            final(self).well_formed(),
            final(self).mapping == old(self).mapping,
            (final(self).held, released) == release_step(old(self).held, *key),
            released matches Some((r, c)) ==> (r < R && c < C) || (r == R && c == C),
    {
        match self.held {
            None => {
                let found = Self::first_active(key);
                match found {
                    Some(cell) => {
                        self.held = Some(cell);
                        None
                    },
                    None => Some((R, C)),
                }
            },
            Some((r, c)) => {
                if key[r][c] {
                    None
                } else {
                    self.held = None;
                    Some((R - 1 - r, c))
                }
            },
        }
    }

    /// The label of the key that `get_on_released` reports for this scan,
    /// `None` where it reports no key or none yet.
    pub fn get_str(&mut self, key: &[[bool; C]; R]) -> (label: Option<&'static str>)
        requires
            old(self).well_formed(),
        ensures
            final(self).well_formed(),
            final(self).mapping == old(self).mapping,
            final(self).held == release_step(old(self).held, *key).0,
            label == released_label(old(self).mapping, release_step(old(self).held, *key).1),
    {
        match self.get_on_released(key) {
            Some((r, c)) => {
                if r < R && c < C {
                    Some(self.mapping[r][c])
                } else {
                    None
                }
            },
            None => None,
        }
    }

    /// The digit of the key that `get_on_released` reports for this scan:
    /// `None` where it reports no key or none yet, `Some(None)` for a key
    /// whose label does not start with a decimal digit.
    pub fn get_digit(&mut self, key: &[[bool; C]; R]) -> (digit: Option<Option<u8>>)
        requires
            old(self).well_formed(),
        ensures
            final(self).well_formed(),
            final(self).mapping == old(self).mapping,
            final(self).held == release_step(old(self).held, *key).0,
            digit == match released_label(
                old(self).mapping,
                release_step(old(self).held, *key).1,
            ) {
                Some(label) => Some(label_digit(label@)),
                None => None,
            },
    {
        match self.get_str(key) {
            Some(label) => Some(parse_digit(label)),
            None => None,
        }
    }
}

/// The decimal digit that `label` starts with, if it starts with one.
pub fn parse_digit(label: &str) -> (digit: Option<u8>)
    ensures
        digit == label_digit(label@),
{
    if label.unicode_len() == 0 {
        return None;
    }
    let first: char = label.get_char(0);
    if '0' <= first && first <= '9' {
        Some((first as u32 - '0' as u32) as u8)
    } else {
        None
    }
}

/// The label of a reported key; none for no report and for the pair that
/// stands for no key.
pub open spec fn released_label<const C: usize, const R: usize>(
    mapping: [[&'static str; C]; R],
    released: Option<(usize, usize)>,
) -> Option<&'static str> {
    match released {
        Some((r, c)) => if r < R && c < C {
            Some(mapping[r as int][c as int])
        } else {
            None
        },
        None => None,
    }
}

/// The first closed cell is the one closed cell with none before it.
pub proof fn lemma_first_closed_unique<const C: usize, const R: usize>(
    key: [[bool; C]; R],
    r: int,
    c: int,
)
    requires
        0 <= r < R,
        0 <= c < C,
        key[r][c],
        none_before(key, r, c),
    ensures
        first_closed(key) == Some((r as usize, c as usize)),
{
    let (r2, c2) = choose|r2: int, c2: int|
        0 <= r2 < R && 0 <= c2 < C && key[r2][c2] && none_before(key, r2, c2);
    if r2 < r || (r2 == r && c2 < c) {
        assert(!key[r2][c2]);
    }
    if r < r2 || (r == r2 && c < c2) {
        assert(!key[r][c]);
    }
}

/// A single key, pressed, held and released, is reported exactly once.
/// While the cell `(r0, c0)` alone is closed, the first scan makes it the
/// held key and every scan reports nothing; the first scan that shows the
/// matrix open reports `(R - 1 - r0, c0)` and leaves no key held; and a
/// further scan of the open matrix reports only the pair `(R, C)`, which
/// stands for no key.
pub proof fn lemma_single_key_release<const C: usize, const R: usize>(
    pressed: [[bool; C]; R],
    open: [[bool; C]; R],
    r0: int,
    c0: int,
)
    requires
        0 <= r0 < R,
        0 <= c0 < C,
        forall|r: int, c: int|
            0 <= r < R && 0 <= c < C ==> #[trigger] pressed[r][c] == (r == r0 && c == c0),
        forall|r: int, c: int| 0 <= r < R && 0 <= c < C ==> !(#[trigger] open[r][c]),
    ensures
        release_step(None, pressed) == (Some((r0 as usize, c0 as usize)), None::<(usize, usize)>),
        release_step(Some((r0 as usize, c0 as usize)), pressed) == (
            Some((r0 as usize, c0 as usize)),
            None::<(usize, usize)>,
        ),
        release_step(Some((r0 as usize, c0 as usize)), open) == (
            None::<(usize, usize)>,
            Some(((R - 1 - r0) as usize, c0 as usize)),
        ),
        release_step(None, open) == (None::<(usize, usize)>, Some((R, C))),
{
    assert(pressed[r0][c0]);
    lemma_first_closed_unique(pressed, r0, c0);
    assert(!open[r0][c0]);
}

} // verus!
