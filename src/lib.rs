//! Search over a world cities dataset: fuzzy name search and climate similarity search.
//!
//! The verified core holds the string interners, the Jaro / Jaro-Winkler kernel over
//! exact integer counts, query splitting, the min/max reducers, the climate index model,
//! the dispersion filter and the request dispatcher rules.
pub mod minmax;
pub mod jaro;
pub mod split;
pub mod intern;
pub mod csv_list;
pub mod climate;
pub mod request;
pub mod search;
pub mod squares;
pub mod rank;
