//! Estimates the hours of work behind a branch's history from its commit timestamps.
pub mod estimate;
pub mod git;
pub mod history;
pub mod locate;
pub mod walk;
