//! VigilCut core: timeline model, edit decision list, cut policies and the
//! decision logic of the post-production pipeline, with contracts proved by Verus.
//!
//! Times are integer milliseconds on the source or output timeline; scores and
//! confidences are integers in thousandths of their full scale (0..=1000).

pub mod error;
pub mod text;
pub mod timeline;
pub mod time_map;
pub mod ranges;
pub mod sort;
pub mod edl;
pub mod events;
pub mod policy;
pub mod segments;
pub mod engine;
pub mod export;
pub mod detect;
pub mod structure;
pub mod artifacts;
pub mod filler;
pub mod captions;
pub mod transcript;
pub mod clipping;
pub mod visual;
pub mod layout;
pub mod compose;
pub mod generation;
pub mod framing;
pub mod library;
pub mod supervisor;
pub mod safe_paths;
pub mod whisper;
pub mod needs;
pub mod daily_feed;
pub mod qa;
pub mod clip_run;
pub mod render;
pub mod worker;
pub mod state;
pub mod session;
pub mod concepts;
pub mod matching;
pub mod semantic;
pub mod match_rank;
pub mod download;
pub mod import;
pub mod requests;
pub mod plan_edits;
pub mod pixels;
pub mod approval;
pub mod enqueue;
