use rust_v::integrator::{
    DirectLightStrategy, Gather, LightChoice, PathState, Scatter, SpectralPath,
    SpectralPathSingle, SpectralSampler,
};
use rust_v::renderer::{seed, Recovery, Schedule, Work};
use rust_v::sampler::LAMBDA_NUM;

#[test]
fn emission_counts_where_the_camera_sees_it() {
    let start = PathState::start();
    assert_eq!(start.gather(true), Gather::Emission);
    assert_eq!(start.gather(false), Gather::Direct);
    let integrator = SpectralPath::new(8, 8);
    let diffuse = integrator
        .advance(&start, Scatter::Scattered { specular: false, hit: true })
        .unwrap();
    assert_eq!(diffuse, PathState { bounce: 1, specular_bounce: 0, specular: false });
    assert_eq!(diffuse.gather(true), Gather::Nothing);
    assert_eq!(diffuse.gather(false), Gather::Direct);
    let mirror = integrator
        .advance(&diffuse, Scatter::Scattered { specular: true, hit: true })
        .unwrap();
    assert_eq!(mirror, PathState { bounce: 1, specular_bounce: 1, specular: true });
    assert_eq!(mirror.gather(true), Gather::Emission);
}

#[test]
fn paths_end() {
    let integrator = SpectralPath::new(3, 2);
    let start = integrator.begin().unwrap();
    assert_eq!(integrator.advance(&start, Scatter::Absorbed), None);
    assert_eq!(integrator.advance(&start, Scatter::Scattered { specular: false, hit: false }), None);
    let mut state = start;
    let mut hits = 1;
    while let Some(next) = integrator.advance(&state, Scatter::Scattered { specular: false, hit: true }) {
        state = next;
        hits += 1;
    }
    assert_eq!(hits, 3);
    let one = integrator
        .advance(&start, Scatter::Scattered { specular: true, hit: true })
        .unwrap();
    assert_eq!(integrator.advance(&one, Scatter::Scattered { specular: true, hit: true }), None);
    assert!(SpectralPath::new(0, 5).begin().is_none());
    assert!(SpectralPath::new(5, 0).begin().is_none());
}

#[test]
fn single_paths_count_every_bounce() {
    let integrator =
        SpectralPathSingle::new(4, 8, DirectLightStrategy::Uniform, SpectralSampler::Hero);
    assert_eq!(integrator.max_depth, 4);
    assert_eq!(integrator.light_wave_samples, 8);
    let mut state = integrator.begin().unwrap();
    let mut hits = 1;
    let mut specular = true;
    while let Some(next) = integrator.advance(&state, Scatter::Scattered { specular, hit: true }) {
        state = next;
        specular = !specular;
        hits += 1;
    }
    assert_eq!(hits, 4);
    assert!(SpectralPathSingle::new(0, 8, DirectLightStrategy::All, SpectralSampler::Random)
        .begin()
        .is_none());
}

#[test]
fn light_strategies() {
    assert_eq!(DirectLightStrategy::Uniform.select(0, 3), LightChoice::Dark);
    assert_eq!(DirectLightStrategy::All.select(0, 3), LightChoice::Dark);
    assert_eq!(DirectLightStrategy::Uniform.select(4, 2), LightChoice::One { light: 2, weight: 4 });
    assert_eq!(DirectLightStrategy::Uniform.select(4, 6), LightChoice::One { light: 2, weight: 4 });
    assert_eq!(DirectLightStrategy::Power.select(4, 1), LightChoice::One { light: 1, weight: 4 });
    assert_eq!(DirectLightStrategy::All.select(4, 1), LightChoice::Every { count: 4 });
}

fn check_range(indices: &[usize]) {
    for i in indices {
        assert!(*i < LAMBDA_NUM);
    }
}

#[test]
fn wavelengths_are_in_the_spectrum() {
    let mut rng = fastrand::Rng::with_seed(7);
    for n in [0usize, 1, 5, 36, 50] {
        for sampler in [SpectralSampler::Random, SpectralSampler::Hero, SpectralSampler::Stratified] {
            let mut indices = vec![usize::MAX; n];
            sampler.fill_samples(&mut rng, &mut indices);
            assert_eq!(indices.len(), n);
            check_range(&indices);
        }
    }
}

#[test]
fn hero_wavelengths_keep_their_distance() {
    let mut rng = fastrand::Rng::with_seed(11);
    let mut indices = vec![0usize; 4];
    SpectralSampler::Hero.fill_samples(&mut rng, &mut indices);
    let hero = indices[0];
    assert_eq!(indices, vec![hero, (hero + 9) % 36, (hero + 18) % 36, (hero + 27) % 36]);
}

#[test]
fn stratified_wavelengths_stay_in_their_strata() {
    let mut rng = fastrand::Rng::with_seed(13);
    for _ in 0..50 {
        let mut indices = vec![0usize; 5];
        SpectralSampler::Stratified.fill_samples(&mut rng, &mut indices);
        // 36 / 5: the strata begin at 0, 7, 14, 21, 28 and end at 36.
        let starts = [0usize, 7, 14, 21, 28, 36];
        for j in 0..5 {
            assert!(starts[j] <= indices[j] && indices[j] < starts[j + 1]);
        }
    }
}

#[test]
fn random_wavelengths_differ() {
    let mut rng = fastrand::Rng::with_seed(17);
    let mut indices = vec![99usize; 64];
    SpectralSampler::Random.fill_samples(&mut rng, &mut indices);
    check_range(&indices);
    let first = indices[0];
    assert!(indices.iter().any(|i| *i != first));
}

#[test]
fn schedule_hands_out_every_block_of_every_pass() {
    let mut schedule = Schedule::new(3, 2);
    assert_eq!(schedule.remaining(), (1, 3));
    let mut got = Vec::new();
    while let Some(work) = schedule.next_block(false) {
        got.push((work.pass, work.block));
    }
    assert_eq!(got, vec![(0, 0), (0, 1), (0, 2), (1, 0), (1, 1), (1, 2)]);
    assert!(schedule.is_done());
    assert_eq!(schedule.remaining(), (0, 0));
    assert_eq!(schedule.next_block(false), None);
}

#[test]
fn no_passes_no_work() {
    let mut schedule = Schedule::new(16, 0);
    assert!(schedule.is_done());
    assert_eq!(schedule.next_block(false), None);
    let mut empty = Schedule::new(0, 4);
    assert!(empty.is_done());
    assert_eq!(empty.next_block(false), None);
}

#[test]
fn a_stop_hands_nothing_out_and_loses_nothing() {
    let mut schedule = Schedule::new(2, 2);
    assert_eq!(schedule.next_block(false), Some(Work { pass: 0, block: 0 }));
    let before = schedule;
    assert_eq!(schedule.next_block(true), None);
    assert_eq!(schedule, before);
    assert_eq!(schedule.next_block(false), Some(Work { pass: 0, block: 1 }));
    assert_eq!(schedule.next_block(false), Some(Work { pass: 1, block: 0 }));
}

#[test]
fn a_failed_block_is_tried_once_more() {
    assert_eq!(Schedule::recover(0), Recovery::Retry);
    assert_eq!(Schedule::recover(1), Recovery::Failed);
    assert_eq!(Schedule::recover(7), Recovery::Failed);
}

#[test]
fn seeds_tell_the_work_apart() {
    assert_eq!(seed(0, 0, 0), 0);
    assert_eq!(seed(3, 2, 1), (3 << 32) + (2 << 16) + 1);
    assert_eq!(seed(u32::MAX, 0xffff, 0xffff), u64::MAX);
    let mut seen = std::collections::HashSet::new();
    for pass in 0..4 {
        for block in 0..6 {
            for pixel in 0..8 {
                assert!(seen.insert(seed(pass, block, pixel)));
            }
        }
    }
    // Past the bounds the numbers wrap.
    assert_eq!(seed(1, 0x1_0000, 0x1_0002), seed(1, 0, 2));
}
