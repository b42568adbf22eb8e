//! The control of a light path: how long it runs, and what is gathered at
//! each hit.
//!
//! A path starts at the first hit of a camera ray and goes on from hit to
//! hit. At each hit the integrator gathers light, then samples the surface
//! for the next direction, weighs the path by what came back, and follows the
//! new ray to the next hit. The sums and products are the caller's; which
//! light is gathered, and whether the path goes on, is decided here.
use vstd::prelude::*;

verus! {

/// How the light that reaches a hit directly from the emitters is
/// estimated.
#[derive(Clone, Copy, Debug, PartialEq, Eq, Structural)]
pub enum DirectLightStrategy {
    /// One emitter, chosen uniformly; the estimate is multiplied by the
    /// number of emitters.
    Uniform,
    /// The sum of one-sample estimates over every emitter.
    All,
    /// One emitter, chosen in proportion to its emitted power.
    Power,
}

/// How the wavelengths of the paths of one camera ray are chosen.
#[derive(Clone, Copy, Debug, PartialEq, Eq, Structural)]
pub enum SpectralSampler {
    /// Each wavelength on its own, uniformly.
    Random,
    /// One wavelength uniformly, the others at equal steps from it around
    /// the spectrum.
    Hero,
    /// The spectrum in as many strata as there are paths, and in each
    /// stratum one wavelength uniformly.
    Stratified,
}

/// The spectral path integrator over whole spectra. Diffuse and specular
/// bounces are counted apart, each against its own limit.
#[derive(Clone, Copy, Debug, PartialEq, Eq, Structural)]
pub struct SpectralPath {
    pub max_depth: u32,
    pub max_specular_depth: u32,
}

/// The spectral path integrator that follows a number of paths of a single
/// wavelength each.
#[derive(Clone, Copy, Debug, PartialEq, Eq, Structural)]
pub struct SpectralPathSingle {
    pub max_depth: u32,
    pub light_wave_samples: u32,
    pub direct_light_strategy: DirectLightStrategy,
    pub spectral_sampler: SpectralSampler,
}

/// Where a path stands: how often it has bounced, and whether the last bounce
/// was specular.
#[derive(Clone, Copy, Debug, PartialEq, Eq, Structural)]
pub struct PathState {
    /// The bounces off surfaces that are not specular.
    pub bounce: u32,
    /// The bounces off specular surfaces.
    pub specular_bounce: u32,
    /// Whether the path came to the present hit by a specular bounce.
    pub specular: bool,
}

/// What sampling the surface at a hit came to.
#[derive(Clone, Copy, Debug, PartialEq, Eq, Structural)]
pub enum Scatter {
    /// No direction was sampled, or one with density zero or without
    /// throughput: the path ends.
    Absorbed,
    /// A direction was sampled. `specular` says whether by a specular lobe,
    /// and `hit` whether the new ray hits the scene.
    Scattered { specular: bool, hit: bool },
}

/// What the integrator gathers at a hit, before it samples the surface.
#[derive(Clone, Copy, Debug, PartialEq, Eq, Structural)]
pub enum Gather {
    /// The emission of the emitter that was hit.
    Emission,
    /// An estimate of the direct light at the hit.
    Direct,
    /// Nothing: an emitter that direct lighting has already accounted for.
    Nothing,
}

impl PathState {
    /// The state of a path at its first hit.
    pub open spec fn start_spec() -> PathState {
        PathState { bounce: 0, specular_bounce: 0, specular: false }
    }

    /// Whether the hit is seen from the camera: directly, or by way of
    /// specular bounces alone since the last hit at which light was gathered.
    pub open spec fn camera_visible(self) -> bool {
        self.bounce == 0 || self.specular
    }

    /// What is gathered at a hit on an emitter or on another object.
    pub open spec fn gather_spec(self, emitter: bool) -> Gather {
        if !emitter {
            Gather::Direct
        } else if self.camera_visible() {
            Gather::Emission
        } else {
            Gather::Nothing
        }
    }

    /// The state at the next hit after a bounce, specular or not.
    pub open spec fn bounced(self, specular: bool) -> PathState {
        if specular {
            PathState {
                bounce: self.bounce,
                specular_bounce: (self.specular_bounce + 1) as u32,
                specular: true,
            }
        } else {
            PathState {
                bounce: (self.bounce + 1) as u32,
                specular_bounce: self.specular_bounce,
                specular: false,
            }
        }
    }

    /// The number of hits the path has behind it.
    pub open spec fn length(self) -> int {
        self.bounce + self.specular_bounce
    }

    /// The state of a path at its first hit.
    pub fn start() -> (s: PathState)
        ensures
            s == PathState::start_spec(),
            s.length() == 0,
    {
        PathState { bounce: 0, specular_bounce: 0, specular: false }
    }

    /// What to gather at the present hit: the emission of an emitter that is
    /// seen from the camera, nothing of an emitter that is not, and direct
    /// light at every other object.
    pub fn gather(&self, emitter: bool) -> (g: Gather)
        ensures
            g == self.gather_spec(emitter),
    {
        if !emitter {
            Gather::Direct
        } else if self.bounce == 0 || self.specular {
            Gather::Emission
        } else {
            Gather::Nothing
        }
    }
}

impl SpectralPath {
    /// The integrator with these limits on the bounces of a path.
    pub fn new(max_depth: u32, max_specular_depth: u32) -> (s: SpectralPath)
        ensures
            s.max_depth == max_depth,
            s.max_specular_depth == max_specular_depth,
    {
        SpectralPath { max_depth, max_specular_depth }
    }

    /// Whether a path in `state` is within both limits, so that light is
    /// gathered at its present hit.
    pub open spec fn within_spec(self, state: PathState) -> bool {
        state.bounce < self.max_depth && state.specular_bounce < self.max_specular_depth
    }

    /// The state in which the path goes on after `scatter`, or `None` where
    /// it ends: where nothing was scattered, where the new ray leaves the
    /// scene, and where the bounce reaches a limit.
    pub open spec fn advance_spec(self, state: PathState, scatter: Scatter) -> Option<PathState> {
        match scatter {
            Scatter::Absorbed => None,
            Scatter::Scattered { specular, hit } => if hit && self.within_spec(
                state.bounced(specular),
            ) {
                Some(state.bounced(specular))
            } else {
                None
            },
        }
    }

    /// Whether a path in `state` is within both limits.
    pub fn within(&self, state: &PathState) -> (r: bool)
        ensures
            r == self.within_spec(*state),
    {
        state.bounce < self.max_depth && state.specular_bounce < self.max_specular_depth
    }

    /// The state of a path at its first hit, or `None` where a limit of zero
    /// lets no path begin.
    pub fn begin(&self) -> (s: Option<PathState>)
        ensures
            s is Some <==> self.max_depth > 0 && self.max_specular_depth > 0,
            s matches Some(state) ==> state == PathState::start_spec(),
    {
        let state = PathState::start();
        if self.within(&state) {
            Some(state)
        } else {
            None
        }
    }

    /// Takes a path from one hit to the next.
    pub fn advance(&self, state: &PathState, scatter: Scatter) -> (next: Option<PathState>)
        requires
            self.within_spec(*state),
        ensures
            next == self.advance_spec(*state, scatter),
            next matches Some(n) ==> self.within_spec(n) && n.length() == state.length() + 1,
    {
        match scatter {
            Scatter::Absorbed => None,
            Scatter::Scattered { specular, hit } => {
                if !hit {
                    return None;
                }
                let n = if specular {
                    PathState {
                        bounce: state.bounce,
                        specular_bounce: state.specular_bounce + 1,
                        specular: true,
                    }
                } else {
                    PathState {
                        bounce: state.bounce + 1,
                        specular_bounce: state.specular_bounce,
                        specular: false,
                    }
                };
                if self.within(&n) {
                    Some(n)
                } else {
                    None
                }
            },
        }
    }
}

impl SpectralPathSingle {
    /// The integrator that follows `light_wave_samples` paths of at most
    /// `max_depth` hits each.
    pub fn new(
        max_depth: u32,
        light_wave_samples: u32,
        direct_light_strategy: DirectLightStrategy,
        spectral_sampler: SpectralSampler,
    ) -> (s: SpectralPathSingle)
        ensures
            s == (SpectralPathSingle {
                max_depth,
                light_wave_samples,
                direct_light_strategy,
                spectral_sampler,
            }),
    {
        SpectralPathSingle { max_depth, light_wave_samples, direct_light_strategy, spectral_sampler }
    }

    /// Whether a path in `state` has hits left: one path has `max_depth`
    /// hits in all, whatever the surfaces.
    pub open spec fn within_spec(self, state: PathState) -> bool {
        state.length() < self.max_depth
    }

    /// The state in which the path goes on after `scatter`, or `None` where
    /// it ends.
    pub open spec fn advance_spec(self, state: PathState, scatter: Scatter) -> Option<PathState> {
        match scatter {
            Scatter::Absorbed => None,
            Scatter::Scattered { specular, hit } => if hit && state.length() + 1
                < self.max_depth {
                Some(state.bounced(specular))
            } else {
                None
            },
        }
    }

    /// The state of a path at its first hit, or `None` where a depth of zero
    /// lets no path begin.
    pub fn begin(&self) -> (s: Option<PathState>)
        ensures
            s is Some <==> self.max_depth > 0,
            s matches Some(state) ==> state == PathState::start_spec(),
    {
        if self.max_depth > 0 {
            Some(PathState::start())
        } else {
            None
        }
    }

    /// Takes a path from one hit to the next.
    pub fn advance(&self, state: &PathState, scatter: Scatter) -> (next: Option<PathState>)
        requires
            self.within_spec(*state),
        ensures
            next == self.advance_spec(*state, scatter),
            next matches Some(n) ==> self.within_spec(n) && n.length() == state.length() + 1,
    {
        match scatter {
            Scatter::Absorbed => None,
            Scatter::Scattered { specular, hit } => {
                if !hit {
                    return None;
                }
                // Both counts are below the depth, which fits in 32 bits.
                let length: u64 = state.bounce as u64 + state.specular_bounce as u64;
                if length + 1 >= self.max_depth as u64 {
                    return None;
                }
                if specular {
                    Some(
                        PathState {
                            bounce: state.bounce,
                            specular_bounce: state.specular_bounce + 1,
                            specular: true,
                        },
                    )
                } else {
                    Some(
                        PathState {
                            bounce: state.bounce + 1,
                            specular_bounce: state.specular_bounce,
                            specular: false,
                        },
                    )
                }
            },
        }
    }
}

/// What a strategy asks of the caller at one hit.
#[derive(Clone, Copy, Debug, PartialEq, Eq, Structural)]
pub enum LightChoice {
    /// No emitter to sample: the direct light is zero.
    Dark,
    /// Sample the emitter at place `light` in the list of lights, and
    /// multiply the estimate by `weight`.
    One { light: usize, weight: usize },
    /// Sample each of the `count` emitters once and add the estimates up.
    Every { count: usize },
}

impl DirectLightStrategy {
    /// What the strategy asks for in a scene of `lights` emitters, where
    /// `pick` is the caller's uniform choice among them.
    ///
    /// Choosing by power is taken as choosing uniformly.
    pub open spec fn select_spec(self, lights: usize, pick: usize) -> LightChoice {
        if lights == 0 {
            LightChoice::Dark
        } else {
            match self {
                DirectLightStrategy::All => LightChoice::Every { count: lights },
                _ => LightChoice::One { light: (pick % lights) as usize, weight: lights },
            }
        }
    }

    /// What to sample for the direct light at a hit. `pick` is the caller's
    /// uniform choice of an emitter; a choice past the last emitter wraps
    /// around.
    pub fn select(&self, lights: usize, pick: usize) -> (c: LightChoice)
        ensures
            c == self.select_spec(lights, pick),
            c matches LightChoice::One { light, weight } ==> light < lights && weight == lights,
    {
        if lights == 0 {
            LightChoice::Dark
        } else {
            match self {
                DirectLightStrategy::All => LightChoice::Every { count: lights },
                _ => LightChoice::One { light: pick % lights, weight: lights },
            }
        }
    }
}

/// A path comes to an end: it has no more hits than its limits allow.
pub proof fn lemma_path_is_bounded(integrator: SpectralPath, state: PathState)
    requires
        integrator.within_spec(state),
    ensures
        state.length() + 2 <= integrator.max_depth + integrator.max_specular_depth,
{
}

/// Light is gathered from an emitter only where it is seen from the camera,
/// and direct light at every hit that is not on an emitter.
pub proof fn lemma_gather(state: PathState, emitter: bool)
    ensures
        state.gather_spec(emitter) == Gather::Emission <==> emitter && state.camera_visible(),
        state.gather_spec(emitter) == Gather::Direct <==> !emitter,
        PathState::start_spec().gather_spec(true) == Gather::Emission,
        state.bounced(true).gather_spec(true) == Gather::Emission,
        state.bounce < u32::MAX ==> state.bounced(false).gather_spec(true) == Gather::Nothing,
{
}

} // verus!
