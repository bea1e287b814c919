//! The animation generators whose state is nothing but their kind; each one
//! draws by per-pixel math over the canvas.
use vstd::prelude::*;

verus! {

/// Accretion disk with gravitational lensing.
pub struct Blackhole {
    _unused: (),
}

impl Blackhole {
    pub fn new() -> (b: Blackhole) {
        Blackhole { _unused: () }
    }
}

/// Rotating double helix.
pub struct Dna;

impl Dna {
    pub fn new() -> (d: Dna) {
        Dna
    }
}

/// Ocean waves with depth and foam.
pub struct Ocean;

impl Ocean {
    pub fn new() -> (o: Ocean) {
        Ocean
    }
}

/// Rotating spiral.
pub struct Spiral;

impl Spiral {
    pub fn new() -> (s: Spiral) {
        Spiral
    }
}

/// Interference of two wave sources.
pub struct Wave;

impl Wave {
    pub fn new() -> (w: Wave) {
        Wave
    }
}

} // verus!
