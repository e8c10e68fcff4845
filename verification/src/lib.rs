pub mod cli;
pub mod commands;
pub mod error;
pub mod numbers;
pub mod output;
pub mod paths;
pub mod project;
pub mod seqs;
pub mod text;
pub mod xml;
