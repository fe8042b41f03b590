//! A typing-speed trainer's engine: a corpus of quotes sorted into length groups, greedy
//! word wrapping, the per-keystroke session state machine, and the speed and accuracy
//! figures.

pub mod corpus;
pub mod session;
pub mod stats;
pub mod text;

pub use corpus::{Corpus, CorpusError, LengthGroup, Quote};
pub use session::{App, Key};
pub use stats::{accuracy, get_wpm, speed_tier, SpeedTier};
pub use text::{wrap, MAX_LENGTH_PER_LINE};
