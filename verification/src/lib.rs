//! Resolves the transitive dependency graph of a package and renders it as
//! an ASCII tree.
//!
//! The graph is built either from an adjacency list in a text file
//! ([`adjacency`], [`builder`]) or from a package registry ([`registry`],
//! [`remote`]). Both builders follow one traversal discipline
//! ([`traversal`]): an explicit work stack, each name expanded once, and an
//! optional depth bound. The finished graph ([`graph`]) is rendered by
//! [`render`], which applies the depth bound again and marks nodes that it
//! has rendered before.

pub mod adjacency;
pub mod builder;
pub mod graph;
pub mod names;
pub mod reach;
pub mod registry;
pub mod remote;
pub mod remote_laws;
pub mod remote_model;
pub mod render;
pub mod report;
pub mod table;
pub mod traversal;
