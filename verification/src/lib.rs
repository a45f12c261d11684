//! An interactive fuzzy file finder's core: a grapheme-aware query buffer,
//! a matcher that scores candidate paths against the query, a chunk renderer
//! that splits a matched path into highlighted segments under a column
//! budget, a candidate list with a selection, and the session state machine
//! that drives searching, selection and rendering.

pub mod candidates;
pub mod error;
pub mod matched_path;
pub mod preferences;
pub mod session;
pub mod starting_point;
pub mod status_line;
pub mod query;
pub mod text;
pub mod unicode;
