//! Lattice descriptions of quantum error-correcting codes and their
//! compilation into decoding hypergraphs.
//!
//! The crate places the qubits of a rotated surface code or of a triangular
//! color code on an integer grid, derives which stabilizers each physical
//! error flips, removes duplicate footprints to obtain a hypergraph for a
//! minimum-weight decoder, and maps the decoder's answer back to physical
//! errors.

pub mod noise;
pub mod sites;
pub mod actions;
pub mod rotated;
pub mod color;
pub mod graph;
pub mod display;
pub mod codes;
pub mod sampler;
pub mod decode;
