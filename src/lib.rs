//! A typing-practice engine: packs an endless stream of words into rows of
//! bounded width, tracks what the typist has committed, styles every visible
//! character by comparing it with what was typed, and keeps speed and
//! accuracy counters.

pub mod controller;
pub mod lexicon;
pub mod model;
pub mod peeking;
pub mod performance;
mod sampling;
pub mod source;
pub mod view;
pub mod word_queue;
pub mod words;

pub use controller::{commit_entry, on_keypress};
pub use lexicon::lexicon_from_text;
pub use model::{Model, ModelBuilder, PANEL_ROWS, PANEL_WIDTH};
pub use peeking::{peeking_fold_while, PeekingFoldWhileTrait};
pub use performance::{PerformanceMonitor, PerformanceMonitorError, Ratio};
pub use source::{CycleWords, SampledWords, WordSource, SAMPLE_SIZE};
pub use view::{
    common_prefix, get_styled_display, get_styled_string, get_styled_words, styled_word, Span,
    Style,
};
pub use word_queue::WordQueue;
