//! Firmware logic of a long-division-by-two teaching device: a driver model
//! for chained seven-segment display modules, a matrix keypad press/release
//! resolver, and the stepwise halving engine that ties them together.
pub mod tm1638;
pub mod keyboard;
pub mod division;
