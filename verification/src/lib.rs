//! Batch handling of recorded speech: cutting long speech segments at quiet
//! points, packing short ones into full transcription requests, turning
//! transcription results into transcript records, and deciding how the records
//! are saved and when an engine is unloaded.

pub mod arithmetic;
pub mod binary;
pub mod chunk_laws;
pub mod exact;
pub mod layout;
pub mod layout_laws;
pub mod level_laws;
pub mod order_laws;
pub mod outside;
pub mod pack;
pub mod pack_answers;
pub mod pack_laws;
pub mod record_laws;
pub mod run_laws;
pub mod save;
pub mod segment;
pub mod split;
pub mod split_answers;
pub mod split_laws;
pub mod transcript;
pub mod unload;
