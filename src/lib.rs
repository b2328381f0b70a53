pub mod command;
pub mod contents;
pub mod geometry;
pub mod index;
pub mod notice;
pub mod processor;
pub mod queue;
pub mod report;
pub mod session;
pub mod world;
