//! Core logic of a toddler literacy tool: a vocabulary store with a greedy
//! word-segmentation engine, an adaptive word-quiz session over a graded
//! difficulty ladder, and the small supporting data types around them.

pub mod celebration;
pub mod challenge;
pub mod config;
pub mod dictionary;
pub mod grade_level;
pub mod session;
pub mod system_sound;
pub mod text;
pub mod tic_tac_toe;
pub mod word_list_loader;
