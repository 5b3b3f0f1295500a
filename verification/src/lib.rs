//! The decisions of `terra`, a launcher for isolated microVM boxes.
//!
//! Every module holds the rules of one concern as executable functions whose
//! contracts say exactly what they return; reading, writing and talking to a
//! box is left to the program around the library.

pub mod basics;
pub mod bytes;
pub mod cli;
pub mod config;
pub mod env;
pub mod env_file;
pub mod error;
pub mod exec_env;
pub mod host;
pub mod lifecycle;
pub mod ls;
pub mod mount;
pub mod name;
pub mod network;
pub mod ordered;
pub mod pages;
pub mod path;
pub mod put_get;
pub mod recipe;
pub mod render;
pub mod resolve;
pub mod rm;
pub mod session;
pub mod setup;
pub mod show;
pub mod start;
pub mod state;
pub mod stop;
pub mod storage;
pub mod sync;
pub mod text;
pub mod timezone;
pub mod unicode;
