//! Spectra: light as its strength at a fixed number of wavelengths.
//!
//! The samples cover the visible range in equal steps; sample `i` stands for
//! the wavelength in the middle of step `i`. The arithmetic on spectra is the
//! caller's. What is here holds the samples and looks at them.
use vstd::prelude::*;
use crate::sampler::LAMBDA_NUM;
use crate::scalar::{approx_zero, Scalar, EPSILON_BITS};

verus! {

/// A spectral power distribution, constant on each of `LAMBDA_NUM` steps.
#[derive(Clone, Copy, Debug)]
pub struct Spectrum {
    pub data: [Scalar; 36],
}

impl Spectrum {
    /// The spectrum with the given samples.
    pub fn new(data: [Scalar; 36]) -> (s: Spectrum)
        ensures
            s.data == data,
    {
        Spectrum { data }
    }

    /// The spectrum that is `intensity` at every wavelength.
    pub fn broadcast(intensity: Scalar) -> (s: Spectrum)
        ensures
            forall|i: int| 0 <= i < 36 ==> #[trigger] s.data@[i] == intensity,
    {
        Spectrum { data: [intensity;36] }
    }

    /// The number of samples.
    pub fn size() -> (n: usize)
        ensures
            n == LAMBDA_NUM,
    {
        LAMBDA_NUM
    }

    /// The sample at `index`, or `None` past the last sample.
    pub fn get(&self, index: usize) -> (r: Option<Scalar>)
        ensures
            r is Some <==> index < LAMBDA_NUM,
            r matches Some(v) ==> v == self.data@[index as int],
    {
        if index < LAMBDA_NUM {
            Some(self.data[index])
        } else {
            None
        }
    }

    /// Whether every sample is zero, to within ten machine epsilons.
    pub open spec fn black(self) -> bool {
        forall|i: int| 0 <= i < 36 ==> (#[trigger] self.data@[i]).magnitude() <= EPSILON_BITS
    }

    /// Whether the spectrum carries no light: whether every sample is zero,
    /// to within ten machine epsilons.
    pub fn is_black(&self) -> (r: bool)
        ensures
            r == self.black(),
    {
        let mut i: usize = 0;
        while i < LAMBDA_NUM
            invariant
                i <= 36,
                forall|j: int| 0 <= j < i ==> (#[trigger] self.data@[j]).magnitude() <= EPSILON_BITS,
            decreases 36 - i,
        {
            if !approx_zero(self.data[i]) {
                return false;
            }
            i += 1;
        }
        true
    }

    /// Whether every sample equals `c` as a number.
    pub fn eq_scalar(&self, c: Scalar) -> (r: bool)
        ensures
            r == (forall|i: int| 0 <= i < 36 ==> (#[trigger] self.data@[i]).eq_spec(c)),
    {
        let mut i: usize = 0;
        while i < LAMBDA_NUM
            invariant
                i <= 36,
                forall|j: int| 0 <= j < i ==> (#[trigger] self.data@[j]).eq_spec(c),
            decreases 36 - i,
        {
            if !self.data[i].num_eq(c) {
                return false;
            }
            i += 1;
        }
        true
    }

    /// Whether every sample is a finite number, as a spectrum has to be where
    /// it is handed on.
    pub fn is_finite(&self) -> (r: bool)
        ensures
            r == (forall|i: int| 0 <= i < 36 ==> (#[trigger] self.data@[i]).finite()),
    {
        let mut i: usize = 0;
        while i < LAMBDA_NUM
            invariant
                i <= 36,
                forall|j: int| 0 <= j < i ==> (#[trigger] self.data@[j]).finite(),
            decreases 36 - i,
        {
            if !self.data[i].is_finite() {
                return false;
            }
            i += 1;
        }
        true
    }
}

} // verus!
