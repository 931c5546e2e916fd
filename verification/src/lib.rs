//! Season standings for a motor-racing championship.
//!
//! The crate is the computing core of a statistics dashboard. It validates
//! the loosely typed responses of a results backend, folds per-round scores
//! into running totals per driver or constructor, maps a rank to the token a
//! table shows for it, narrows the charted series to the entries a user has
//! ticked, and decides how a view moves between waiting, showing and
//! failing. Requests and rendering are left to the caller.
//!
//! Every function is pure and carries a contract that Verus proves. Scores
//! are held in thousandths of a point, never as floating-point numbers: a
//! text is read down to its third place after the point, and from there on
//! every sum is exact.

pub mod error;
pub mod optional;
pub mod points;
pub mod ranking;
pub mod record;
pub mod response;
pub mod schedule;
pub mod season;
pub mod selection;
pub mod series;
pub mod view;
