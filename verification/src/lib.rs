//! A structural parser and text-preserving editor for nginx-style block
//! configuration files: it builds a navigable tree (global directives,
//! server blocks, location blocks) from plain text and supports targeted
//! mutation of single blocks while leaving every unrelated line unchanged.
#![allow(unused_imports)]

pub mod braces;
pub mod edit;
pub mod laws;
pub mod lines;
pub mod model;
pub mod parse;
pub mod platform;
pub mod settings;
pub mod scan;
pub mod staging;
pub mod strutil;
