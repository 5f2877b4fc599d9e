//! The decisions of a harvester of DBpedia abstracts.
//!
//! Everything here works on plain values. The program around it reads the
//! entity list, talks to the network and writes the result file.

pub mod document;
pub mod entity;
pub mod harvest;
pub mod json;
pub mod number;
pub mod options;
pub mod output;
pub mod page;
pub mod quote;
pub mod run;
pub mod task;
pub mod text;
