use rust_v::camera::{Camera, NoOpCamera};
use rust_v::config::Config;
use rust_v::grid::UVec2;
use rust_v::refractive_index::{
    search_entry, search_index, Entry, RefractiveType, Source,
};
use rust_v::scalar::Scalar;
use rust_v::spectrum::Spectrum;

fn s(x: f32) -> Scalar {
    Scalar::from_bits(x.to_bits())
}

fn f(x: Scalar) -> f32 {
    f32::from_bits(x.to_bits())
}

fn table() -> Vec<Scalar> {
    [200.0f32, 225.0, 250.0, 275.0, 300.0, 1000.0].iter().map(|x| s(*x)).collect()
}

#[test]
fn uniform_indices() {
    assert_eq!(f(RefractiveType::Air.n_uniform()), 1.00029);
    assert_eq!(f(RefractiveType::Vacuum.n_uniform()), 1.0);
    assert_eq!(f(RefractiveType::Water.n_uniform()), 1.3325);
    assert_eq!(f(RefractiveType::Glass.n_uniform()), 1.5168);
    assert_eq!(f(RefractiveType::Sapphire.n_uniform()), 1.7490);
    let linear = RefractiveType::Linear { n_min: s(1.5), n_max: s(1.6) };
    assert_eq!(f(linear.n_uniform()), 1.5);
}

#[test]
fn uniform_extinction() {
    assert!(RefractiveType::Air.k_uniform().is_none());
    assert!(RefractiveType::Vacuum.k_uniform().is_none());
    assert_eq!(f(RefractiveType::Water.k_uniform().unwrap()), 7.2792e-9);
    assert_eq!(f(RefractiveType::Glass.k_uniform().unwrap()), 9.7525e-9);
    assert_eq!(f(RefractiveType::Sapphire.k_uniform().unwrap()), 0.020900);
    assert!(RefractiveType::Linear { n_min: s(1.5), n_max: s(1.6) }.k_uniform().is_none());
}

#[test]
fn sources() {
    assert_eq!(RefractiveType::Air.n_source(), Source::Sellmeier);
    assert_eq!(RefractiveType::Vacuum.n_source(), Source::Constant);
    assert_eq!(RefractiveType::Water.n_source(), Source::Table);
    assert_eq!(RefractiveType::Glass.n_source(), Source::Sellmeier);
    assert_eq!(RefractiveType::Sapphire.n_source(), Source::Sellmeier);
    assert_eq!(RefractiveType::Air.k_source(), None);
    assert_eq!(RefractiveType::Water.k_source(), Some(Source::Table));
    assert_eq!(RefractiveType::Glass.k_source(), Some(Source::Table));
}

#[test]
fn search_finds_entries_and_gaps() {
    let t = table();
    assert_eq!(search_index(&t, s(200.0)), Ok(0));
    assert_eq!(search_index(&t, s(275.0)), Ok(3));
    assert_eq!(search_index(&t, s(1000.0)), Ok(5));
    assert_eq!(search_index(&t, s(201.0)), Err((0, 1)));
    assert_eq!(search_index(&t, s(299.9)), Err((3, 4)));
    assert_eq!(search_index(&t, s(999.0)), Err((4, 5)));
    assert_eq!(search_index(&t, s(5000.0)), Err((5, 6)));
    assert_eq!(search_index(&t, s(f32::INFINITY)), Err((5, 6)));
}

#[test]
fn entries_of_a_table() {
    let t = table();
    assert_eq!(search_entry(&t, t.len(), s(250.0)), Entry::At(2));
    assert_eq!(search_entry(&t, t.len(), s(260.0)), Entry::Between(2, 3));
    assert_eq!(search_entry(&t, t.len(), s(2000.0)), Entry::At(5));
    assert_eq!(search_entry(&t, t.len(), s(200.0)), Entry::At(0));
}

#[test]
fn spectra() {
    assert_eq!(Spectrum::size(), 36);
    let black = Spectrum::broadcast(s(0.0));
    assert!(black.is_black());
    assert!(black.eq_scalar(s(0.0)));
    assert!(black.eq_scalar(s(-0.0)));
    let dim = Spectrum::broadcast(s(1e-7));
    assert!(dim.is_black());
    let white = Spectrum::broadcast(s(1.0));
    assert!(!white.is_black());
    assert!(white.is_finite());
    assert_eq!(f(white.get(35).unwrap()), 1.0);
    assert!(white.get(36).is_none());
    let mut data = [s(0.0); 36];
    data[17] = s(0.25);
    let spike = Spectrum::new(data);
    assert!(!spike.is_black());
    assert!(!spike.eq_scalar(s(0.0)));
    assert_eq!(f(spike.get(17).unwrap()), 0.25);
    data[3] = s(f32::INFINITY);
    assert!(!Spectrum::new(data).is_finite());
}

#[test]
fn threads() {
    let mut config = Config {
        filename: None,
        bounds: None,
        block_size: UVec2::new(16, 16),
        passes: 4,
        threads: None,
    };
    assert_eq!(config.worker_threads(8), 8);
    config.threads = Some(0);
    assert_eq!(config.worker_threads(8), 8);
    config.threads = Some(3);
    assert_eq!(config.worker_threads(8), 3);
}

#[test]
fn the_camera_that_sees_nothing() {
    assert_eq!(NoOpCamera.resolution(), UVec2::new(0, 0));
}
