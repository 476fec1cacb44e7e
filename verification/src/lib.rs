//! Copying, moving and hard-linking files by pattern.
//!
//! A job names an operation, a source and a destination. The source may be one
//! file, one directory, or a directory with a wildcard behind it (`dir/*.ext`
//! for the files in it, `dir/**.ext` for the files anywhere below it). This
//! library decides what a job means: which files it takes, where each of them
//! goes, whether the destination can be reached, and which calls on the file
//! system carry it out, in which order.
//!
//! The library itself never touches a disk. Its caller looks (is this a
//! directory, what does a walk of that root find, which ancestors of this
//! path exist) and acts (make this directory, copy this file); the library
//! stands between the two with functions from plain values to plain values,
//! each with a contract that says exactly what it returns.

pub mod args;
pub mod disk;
pub mod enumerate;
pub mod error;
pub mod executor;
pub mod json_parser;
pub mod mapper;
pub mod normalize;
pub mod operations;
pub mod path;
pub mod pattern;
pub mod text;
pub mod validator;
