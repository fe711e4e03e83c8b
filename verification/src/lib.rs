//! Fuzzy context pickers: a cancellable, capped, ranked subsequence search
//! over display texts, the picker state that consumes its results, and the
//! lifecycle of a debug session view.
//!
//! - `text`: the subsequence relation and the leftmost placing of a query
//!   in a text.
//! - `score`: the whole-number score of a placing.
//! - `rank`: matches, their order, and the capped Match Set.
//! - `cancel`: the token by which a caller asks a search to stop.
//! - `search`, `sources`: the search over one candidate source and over
//!   several.
//! - `picker`: what the pickers share, among it the clock of query
//!   generations.
//! - `directory_context_picker`, `thread_context_picker`: the two pickers.
//! - `session`: the three states of a debug session.
//!
//! Nothing here draws, awaits or touches a store: a view hands the
//! library plain values and carries out what it answers.

pub mod cancel;
pub mod directory_context_picker;
pub mod picker;
pub mod rank;
pub mod score;
pub mod search;
pub mod session;
pub mod sources;
pub mod text;
pub mod thread_context_picker;
