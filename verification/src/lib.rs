//! Verified core of a memory retrieval and authority service: reference, seed
//! and evidence vocabularies, accessibility and admission rules, bounded recall and
//! query planning, exact postings and candidate lane accounting, content-addressed
//! objects and bundles, cognitive-cycle state, and text segmentation.
pub mod error;
pub mod refs;
pub mod seeds;
pub mod time;
pub mod accessibility;
pub mod recall_budget;
pub mod segments;
pub mod text;
pub mod authority;
pub mod bitmap;
pub mod postings;
pub mod candidates;
pub mod objects;
pub mod bundle;
pub mod exact;
pub mod models;
pub mod lifecycle;
pub mod consolidation;
pub mod expansion;
pub mod graph;
pub mod cycles;
pub mod capabilities;
pub mod posting_lane;
pub mod families;
pub mod fallback;
pub mod evidence_order;
pub mod admission;
pub mod formation;
pub mod recall_results;
pub mod wave_nodes;
pub mod purge;
