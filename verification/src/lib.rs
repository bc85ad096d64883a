//! What a top-like view of Slurm jobs decides: how the cluster commands'
//! output reads, what the recent jobs cost, and how the screen answers a key.
//! Running the commands and drawing the frames is left to the program around
//! this library.

pub mod app;
pub mod command;
pub mod cost;
pub mod double;
pub mod feed;
pub mod keys;
pub mod logfile;
pub mod logtail;
pub mod moment;
pub mod natural;
pub mod number;
pub mod pane;
pub mod poller;
pub mod rows;
pub mod sacct;
pub mod scancel;
pub mod screen;
pub mod squeue;
pub mod style;
pub mod text;
pub mod tres;
pub mod update;
pub mod wallet;
