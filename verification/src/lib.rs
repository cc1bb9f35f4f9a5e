//! Settings files of game characters: finding them below a settings
//! directory, looking up the character names, and copying one character's
//! settings over those of others.
//!
//! The library holds what is decided: which files count and in what order
//! they are listed, which names are looked up and at what pace, what an
//! answer of the lookup service means, what the store holds after a scan or
//! an event, what may be chosen for a copy, and what a copy comes to. Its
//! caller reads directories, sends requests and writes files.

pub mod controller;
pub mod copy;
pub mod lookup;
pub mod pattern;
pub mod record;
pub mod scanner;
pub mod selection;
pub mod sorting;
pub mod store;
pub mod text;
pub mod worker;
