//! Incoming trains of a Caltrain station, read from the station's status
//! page.
//!
//! The page says what a table cell means only by the ending of its class
//! name. [`caltrain_status::CaltrainStatus::from_html`] parses a page,
//! walks it once in document order and gives the southbound and the
//! northbound trains in the order of their rows.
//!
//! - [`text`]: suffixes, substrings, digit runs and decimal numbers.
//! - [`caltrain_status`]: trains, directions, the snapshot and the errors.
//! - [`dom`]: a parsed document as a sequence of events.
//! - [`walk`]: the walk as a state machine, and the snapshot of a document.
//! - [`extract`]: the code that walks, builds the trains and fills the
//!   snapshot.
//! - [`tree`]: the same walk as a recursion over a document tree.
//! - [`laws`]: what holds of every extraction.
//! - [`notifier`]: which trains a listener is told of, each once.

pub mod caltrain_status;
pub mod dom;
pub mod extract;
pub mod laws;
pub mod notifier;
pub mod text;
pub mod tree;
pub mod walk;
