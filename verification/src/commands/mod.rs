pub mod prune;
pub mod tracklist;
