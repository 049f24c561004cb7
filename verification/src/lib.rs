//! Classifies words and texts as Lorem-Ipsum-like filler versus genuine
//! content, and synthesizes filler-like text from a seed corpus with a bigram
//! Markov model, judging similarity by Jaccard overlap of word sets.
mod strutil;

pub mod dolor;
pub mod ipsum;
pub mod ipsum_classifier;
pub mod laws;
pub mod markov_amet;
pub mod sampler;
pub mod speller;
pub mod text;
