//! String distance and similarity measures: Hamming, Levenshtein, optimal
//! string alignment, Damerau-Levenshtein, Jaro and longest common substrings.
//!
//! `edit_distance` defines the edit distances as recurrences over prefixes
//! and proves the laws that relate them; `levenshtein` computes them by
//! filling a `dist_matrix::DistMatrix` and is proved to return those values.

pub mod helpers;
pub mod edit_distance;
pub mod dist_matrix;
pub mod levenshtein;
pub mod hamming;
pub mod lcs;
pub mod jaro;
