//! Conversion between the graph6 family of ASCII graph encodings and
//! several text representations of a graph.
//!
//! A line of text is decoded into a [`graph::Graph`], an adjacency matrix
//! with a direction flag, and a graph is written back as an adjacency
//! matrix, as DOT, as Pajek NET, as a flat string of `0` and `1`, or in
//! graph6 or digraph6 again. Every function states what it returns over
//! the sequences of bytes and bits defined beside it.
pub mod bits;
pub mod cli;
pub mod decode;
pub mod encode;
pub mod error;
pub mod formats;
pub mod graph;
pub mod size;
pub mod stream;
pub mod triangle;
pub mod upstream;
