//! A verified sample-library engine: it classifies audio file paths as
//! rhythmic loops (with an inferred tempo) or one-shot sounds, models a
//! library of sample packs, and answers free-text search queries with
//! relevance ranking and optional type, tempo, pack and limit filters.
//!
//! Case-insensitive matching is ASCII-only, by design: classification
//! and search lowercase `'A'..='Z'` and leave every other character
//! unchanged (see [`text::lower_char`]), so paths and queries that
//! differ only in the case of non-ASCII letters do not match. Keeping
//! the fold inside the verified code is what lets the classification
//! and ranking laws in [`laws`] be proved rather than assumed.

pub mod classify;
pub mod laws;
pub mod library;
pub mod model;
pub mod search;
pub mod text;

pub use classify::{detect_tempo_txt, detect_type, extract_tempo_braces, get_sample};
pub use library::assemble_pack;
pub use model::{
    get_packs_metadata, Pack, PackInfo, Sample, SampleLibrary, SampleType, SearchParams,
    SearchResult,
};
pub use search::{search_lib, use_sample_relevance};
