//! Driver logic for an 8-digit seven-segment module with indicator LEDs and a
//! key-scan register, a row/column key-matrix scanner, and a digit-entry
//! engine that shows the halving of a number digit by digit.
//!
//! The library touches no hardware. The display driver records the line
//! signals that make up its transactions, the scanner and the engine are
//! steppers from sampled levels and key labels to results; the embedding
//! program performs the signals on its pins and hands the samples back.

pub mod wire;
pub mod segment;
pub mod display;
pub mod keyboard;
pub mod entry;

pub use crate::wire::Signal;
pub use crate::segment::{Displayable, Segment, State, fill_with_digits};
pub use crate::display::LedAndKey;
pub use crate::keyboard::{Keyboard, MatrixOp};
pub use crate::entry::{DigitEntry, Key, Mode, Redraw};
