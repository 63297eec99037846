//! A vanity-address search engine: generate candidate keypairs until enough
//! addresses with a desired suffix have been found, while recording a
//! frequency histogram of every generated address so that the uniformity of
//! the generator can be judged with a chi-square goodness-of-fit statistic.

pub mod engine;
pub mod histogram;
pub mod keygen;
pub mod stats;
pub mod suffix;
