//! Turns a tree of CTF writeup folders into pages for a static site
//! generator: a metadata descriptor and per-challenge markdown files become
//! one section index page and one page per challenge, each prefixed with a
//! front matter block in one of two dialects.
//!
//! The library holds everything that computes: the metadata parser, the
//! front matter renderer, the page assembler and the file-selection rules.
//! Reading and writing the files themselves is left to the caller.

pub mod front_matter;
pub mod meta;
pub mod pages;
pub mod scan;
pub mod text;
