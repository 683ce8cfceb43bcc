//! Content providers: ways of producing a validated cache snapshot.

pub mod fs;
