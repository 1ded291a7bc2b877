pub mod cli;
pub mod datetime;
pub mod db;
pub mod laws;
pub mod runner;
pub mod strutil;
pub mod tag;
pub mod task;
