//! The choice of wavelengths for the paths of one camera ray.
//!
//! A spectrum has `LAMBDA_NUM` samples, and a path follows the light of one
//! of them. The wavelengths are chosen at random; the generator is the
//! caller's, seeded as the caller sees fit, so that a render can be repeated.
use vstd::prelude::*;
use crate::integrator::SpectralSampler;

verus! {

/// The number of samples of a spectrum.
pub const LAMBDA_NUM: usize = 36;

/// The random number generator `fastrand::Rng`. The library hands it on and
/// never looks inside.
#[verifier::external_type_specification]
#[verifier::external_body]
pub struct ExRng(fastrand::Rng);

/// Draws an index below `n` from the generator, by `fastrand::Rng::usize` on
/// the range `0..n`. The call panics on an empty range, so `n` has to be
/// positive; all that is claimed of the number drawn is that it lies in the
/// range.
#[verifier::external_body]
fn index_below(rng: &mut fastrand::Rng, n: usize) -> (r: usize)
    requires
        n > 0,
    ensures
        r < n,
{
    rng.usize(0..n)
}

/// Where stratum `j` of `n` begins in a spectrum: the whole part of
/// `j * LAMBDA_NUM / n`.
pub open spec fn stratum_start(j: int, n: int) -> int {
    j * LAMBDA_NUM as int / n
}

/// The wavelength at step `j` of `n` from the hero wavelength.
pub open spec fn hero_step(hero: int, j: int, n: int) -> int {
    (hero + stratum_start(j, n)) % LAMBDA_NUM as int
}

fn start_of(j: usize, n: usize) -> (r: usize)
    requires
        j <= n,
        n > 0,
    ensures
        r == stratum_start(j as int, n as int),
        r <= LAMBDA_NUM,
        j < n ==> r < LAMBDA_NUM,
{
    let num: u128 = (j as u128) * 36;
    let q: u128 = num / (n as u128);
    proof {
        let jj = j as int;
        let nn = n as int;
        vstd::arithmetic::div_mod::lemma_fundamental_div_mod(jj * 36, nn);
        let qq = (jj * 36) / nn;
        assert(qq <= 36 && (jj < nn ==> qq < 36)) by (nonlinear_arith)
            requires
                jj * 36 == nn * qq + (jj * 36) % nn,
                0 <= (jj * 36) % nn < nn,
                0 <= jj <= nn,
                0 < nn,
        ;
        assert(0 <= qq) by (nonlinear_arith)
            requires
                jj * 36 == nn * qq + (jj * 36) % nn,
                0 <= (jj * 36) % nn < nn,
                0 <= jj,
                0 < nn,
        ;
    }
    q as usize
}

impl SpectralSampler {
    /// Fills `indices` with wavelengths, one for each path.
    ///
    /// Every index is below `LAMBDA_NUM`. With `Hero`, the first wavelength
    /// is drawn and the others follow at equal steps around the spectrum.
    /// With `Stratified`, the wavelength of path `j` is drawn from stratum
    /// `j`; when there are more paths than wavelengths, a stratum may hold no
    /// wavelength, and the path then draws from the whole spectrum.
    pub fn fill_samples(&self, rng: &mut fastrand::Rng, indices: &mut Vec<usize>)
        ensures
            final(indices)@.len() == old(indices)@.len(),
            forall|j: int| 0 <= j < final(indices)@.len() ==> #[trigger] final(indices)@[j] < LAMBDA_NUM,
            *self == SpectralSampler::Hero ==> forall|j: int|
                0 <= j < final(indices)@.len() ==> #[trigger] final(indices)@[j] == hero_step(
                    final(indices)@[0] as int,
                    j,
                    final(indices)@.len() as int,
                ),
            *self == SpectralSampler::Stratified ==> forall|j: int|
                0 <= j < final(indices)@.len() && stratum_start(j, final(indices)@.len() as int)
                    < stratum_start(j + 1, final(indices)@.len() as int) ==> stratum_start(
                    j,
                    final(indices)@.len() as int,
                ) <= #[trigger] final(indices)@[j] < stratum_start(
                    j + 1,
                    final(indices)@.len() as int,
                ),
    {
        let n = indices.len();
        if n == 0 {
            return ;
        }
        let hero = index_below(rng, LAMBDA_NUM);
        let mut j: usize = 0;
        while j < n
            invariant
                j <= n,
                n > 0,
                n == indices@.len(),
                hero < LAMBDA_NUM,
                forall|k: int| 0 <= k < j ==> #[trigger] indices@[k] < LAMBDA_NUM,
                *self == SpectralSampler::Hero ==> forall|k: int|
                    0 <= k < j ==> #[trigger] indices@[k] == hero_step(hero as int, k, n as int),
                *self == SpectralSampler::Stratified ==> forall|k: int|
                    0 <= k < j && stratum_start(k, n as int) < stratum_start(k + 1, n as int)
                        ==> stratum_start(k, n as int) <= #[trigger] indices@[k] < stratum_start(
                        k + 1,
                        n as int,
                    ),
            decreases n - j,
        {
            let index = match self {
                SpectralSampler::Random => index_below(rng, LAMBDA_NUM),
                SpectralSampler::Hero => (hero + start_of(j, n)) % LAMBDA_NUM,
                SpectralSampler::Stratified => {
                    let lo = start_of(j, n);
                    let hi = start_of(j + 1, n);
                    if lo < hi {
                        lo + index_below(rng, hi - lo)
                    } else {
                        index_below(rng, LAMBDA_NUM)
                    }
                },
            };
            indices.set(j, index);
            j += 1;
        }
        proof {
            if *self == SpectralSampler::Hero {
                assert(stratum_start(0, n as int) == 0);
                assert(indices@[0] == hero_step(hero as int, 0, n as int));
                assert(indices@[0] == hero);
            }
        }
    }
}

} // verus!
