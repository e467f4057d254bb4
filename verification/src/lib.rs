use vstd::prelude::*;

pub mod chart;
pub mod course;
pub mod error;
pub mod grammar;
pub mod input;
pub mod metadata;
pub mod numbers;
pub mod scoring;
pub mod settings;
pub mod text;
pub mod tja;
pub mod track;
