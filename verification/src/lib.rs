//! Reconciles the symbol table of a loader image into a flat list of
//! sized, address-unique symbols, and writes the list as commands that
//! register the symbols with a debugger.
//!
//! The tables of a parsed image are read in [`coff`].  [`gather`] builds
//! the working set of definitions in two passes, [`order`] sorts it by
//! address and [`sizes`] gives every symbol the room that its neighbours
//! leave it; [`resolve`] is the three in a row, and [`guarantees`] holds
//! what is proved of its result.  [`emit`] turns symbols into lines, and
//! [`listing`] goes from the tables to the lines.  [`base`] reads the
//! address that an image is loaded at.

pub mod base;
pub mod coff;
pub mod emit;
pub mod entry;
pub mod error;
pub mod gather;
pub mod guarantees;
pub mod listing;
pub mod names;
pub mod order;
pub mod resolve;
pub mod search;
pub mod sizes;
pub mod symbol;
pub mod working;
