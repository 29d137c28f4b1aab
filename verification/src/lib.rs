//! Extraction of IDE bookmark records from loosely structured workspace
//! markup, and the naming, listing and metadata-ledger logic of a
//! file-backed backup store.
//!
//! The markup arrives in three dialects: a legacy per-project format, the
//! same tag shape reused in old workspace files, and the current
//! global-workspace format with group blocks. All three are handled by
//! tolerant text scanning — an attribute extractor over quoted values and
//! chunk splitting at opening tags — never by a full markup parser, and a
//! document with nothing recognizable in it is an empty result, not an
//! error.
//!
//! The surrounding application does all the reading, writing, copying and
//! process inspection; everything here works on plain values and is
//! verified against the specifications beside it.

pub mod attr;
pub mod backup;
pub mod json;
pub mod ledger;
pub mod orchestrate;
pub mod parse;
pub mod paths;
pub mod recent;
pub mod records;
pub mod sorting;
pub mod strutil;
