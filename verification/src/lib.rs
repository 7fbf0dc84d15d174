//! Core logic of the Cerberus self-host media agent: the catalog scan model, tag
//! write-back, cover handling, HTTP range handling, tunnel discovery and catalog
//! registration, with their contracts proved by Verus.
//!
//! File-system walks, child processes, sockets and the desktop shell live in `app/`;
//! everything those edges hand over is decided here.

pub mod agent;
pub mod catalog;
pub mod covers;
pub mod media;
pub mod order;
pub mod probe;
pub mod serve;
pub mod tags;
pub mod text;
