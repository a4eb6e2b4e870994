//! Browser automation core.
pub mod archive;
pub mod ax;
pub mod capture;
pub mod cli;
pub mod engine;
pub mod guard;
pub mod install;
pub mod ip;
pub mod json;
pub mod keys;
pub mod nav;
pub mod node;
pub mod page;
pub mod paths;
pub mod pdf;
pub mod render;
pub mod request;
pub mod secrets;
pub mod selector;
pub mod service;
pub mod session;
pub mod snapshot;
pub mod storage;
pub mod text;
pub mod tools;
pub mod wait;
