//! An "opinion matching" game library.
//!
//! A chart is a named, ordered list of option strings. A session lets two
//! parties each pick a subset of a chart's options: the first party submits
//! under a write-password, the second under a read-password, and the session
//! reveals exactly the options both parties picked. Selections travel as
//! bitmasks packed into a 64-bit integer whose high bit marks "a real answer".
//! Sessions expire after a day and are removed by a periodic sweep.

pub mod codec;
pub mod errors;
pub mod form;
pub mod rng;
pub mod session;
pub mod store;
pub mod text;
