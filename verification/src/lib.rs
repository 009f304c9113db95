//! Relay planning over a constellation: which relay points can see each other
//! past the planet, the weighted graph of those sightings, and the cheapest
//! chain of relays between two of its points.

pub mod sight;
pub mod route;
pub mod network;
pub mod datafile;
