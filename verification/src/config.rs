//! What a render is asked to do.
use vstd::prelude::*;
use crate::grid::UVec2;

verus! {

/// A rectangle of pixels.
#[derive(Clone, Copy, Debug, PartialEq, Eq, Structural)]
pub struct Bounds2 {
    pub min: UVec2,
    pub max: UVec2,
}

/// The configuration of a render.
#[derive(Clone, Debug)]
pub struct Config {
    /// Where the image goes. The renderer does not look at it.
    pub filename: Option<String>,
    /// The part of the image to render, where not all of it.
    pub bounds: Option<Bounds2>,
    /// The width and height of a block in pixels.
    pub block_size: UVec2,
    /// The number of passes over the image.
    pub passes: u32,
    /// The number of worker threads. Unset or 0 is to say: as many as the
    /// machine has cores.
    pub threads: Option<u32>,
}

impl Config {
    /// The number of threads asked for, as a function of the configuration
    /// and of the number of cores that were detected.
    pub open spec fn worker_threads_spec(self, detected: u32) -> u32 {
        match self.threads {
            Some(n) => if n > 0 {
                n
            } else {
                detected
            },
            None => detected,
        }
    }

    /// The number of worker threads to start: the number that the
    /// configuration names, and `detected` where it names none or 0.
    pub fn worker_threads(&self, detected: u32) -> (n: u32)
        ensures
            n == self.worker_threads_spec(detected),
    {
        match self.threads {
            Some(n) => if n > 0 {
                n
            } else {
                detected
            },
            None => detected,
        }
    }
}

} // verus!
