use rust_v::bxdf::bsdf::{BSDFType, BxDF, BSDF};
use rust_v::bxdf::flags::{
    Type, ALL, DIFFUSE, GLOSSY, NONE, REFLECTION, SPECULAR, TRANSMISSION,
};
use rust_v::bxdf::local::{
    bxdf_incident_to, bxdf_is_parallel, bxdf_normal, cos_theta, flip, flip_if_neg, is_neg,
    world_to_bxdf_kind, Rotation, RotationKind, Rotor,
};
use rust_v::geometry::Vec3;
use rust_v::scalar::Scalar;

fn s(x: f32) -> Scalar {
    Scalar::from_bits(x.to_bits())
}

fn v(x: f32, y: f32, z: f32) -> Vec3 {
    Vec3::new(s(x), s(y), s(z))
}

fn bits(v: Vec3) -> [u32; 3] {
    [v.x.to_bits(), v.y.to_bits(), v.z.to_bits()]
}

#[test]
fn flags_are_the_bits_they_are() {
    assert_eq!(NONE, 1 << 0);
    assert_eq!(REFLECTION, 1 << 1);
    assert_eq!(TRANSMISSION, 1 << 2);
    assert_eq!(DIFFUSE, 1 << 3);
    assert_eq!(GLOSSY, 1 << 4);
    assert_eq!(SPECULAR, 1 << 5);
    assert_eq!(ALL, REFLECTION | TRANSMISSION | DIFFUSE | GLOSSY | SPECULAR);
    assert_eq!(Type::all().bits(), ALL);
}

#[test]
fn predicates_of_each_flag() {
    let t = Type::reflection().union(Type::specular());
    assert!(t.is_reflection());
    assert!(!t.is_transmission());
    assert!(!t.is_diffuse());
    assert!(!t.is_glossy());
    assert!(t.is_specular());
    let all = Type::all();
    assert!(all.is_reflection() && all.is_transmission() && all.is_diffuse());
    assert!(all.is_glossy() && all.is_specular());
    let none = Type::none();
    assert!(!none.is_reflection() && !none.is_transmission() && !none.is_diffuse());
    assert!(!none.is_glossy() && !none.is_specular());
    assert!(Type::transmission().is_transmission());
    assert!(Type::diffuse().is_diffuse());
    assert!(Type::glossy().is_glossy());
}

#[test]
fn set_operations() {
    let a = Type::from_bits(REFLECTION | DIFFUSE).unwrap();
    let b = Type::from_bits(DIFFUSE | GLOSSY).unwrap();
    assert_eq!(a.intersection(b).bits(), DIFFUSE);
    assert_eq!(a.union(b).bits(), REFLECTION | DIFFUSE | GLOSSY);
    assert_eq!(a.difference(b).bits(), REFLECTION);
    assert_eq!(a.complement().bits(), NONE | TRANSMISSION | GLOSSY | SPECULAR);
    assert!(a.contains(Type::diffuse()));
    assert!(!a.contains(b));
    assert!(a.intersects(b));
    assert!(!a.intersects(Type::specular()));
    assert!(Type::empty().is_empty());
    assert!(Type::from_bits(64).is_none());
    assert_eq!(Type::from_bits_truncate(0xff).bits(), 63);
}

#[test]
fn hemispheres_take_out_what_cannot_be() {
    let all = Type::all();
    assert_eq!(all.for_hemispheres(true).bits(), ALL & !TRANSMISSION);
    assert_eq!(all.for_hemispheres(false).bits(), ALL & !REFLECTION);
}

#[test]
fn lobes_have_their_types() {
    assert_eq!(BSDFType::LReflection.get_type().bits(), DIFFUSE | REFLECTION);
    assert_eq!(BSDFType::LTransmission.get_type().bits(), DIFFUSE | TRANSMISSION);
    assert_eq!(BSDFType::OrenNayar.get_type().bits(), DIFFUSE | REFLECTION);
    assert_eq!(BSDFType::SReflection.get_type().bits(), SPECULAR | REFLECTION);
    assert_eq!(BSDFType::STransmission.get_type().bits(), SPECULAR | TRANSMISSION);
    assert_eq!(BSDFType::SFresnel.get_type().bits(), SPECULAR | REFLECTION | TRANSMISSION);
    assert!(BSDFType::OrenNayar.is_type(Type::all()));
    assert!(!BSDFType::OrenNayar.is_type(Type::diffuse()));
    assert!(!BSDFType::SFresnel.is_type(Type::all().for_hemispheres(true)));
}

#[test]
fn matching_lobes_are_counted_and_picked_in_order() {
    let bsdf = BSDF::new(vec![
        BSDFType::SReflection,
        BSDFType::LReflection,
        BSDFType::STransmission,
        BSDFType::OrenNayar,
    ]);
    assert_eq!(bsdf.size(), 4);
    assert!(!bsdf.is_empty());
    let diffuse = Type::from_bits(DIFFUSE | REFLECTION | TRANSMISSION).unwrap();
    assert_eq!(bsdf.num_types(diffuse), 2);
    assert_eq!(bsdf.matching_lobes(diffuse), vec![1, 3]);
    assert_eq!(bsdf.random_matching_bxdf(diffuse, 0), Some(&BSDFType::LReflection));
    assert_eq!(bsdf.random_matching_bxdf(diffuse, 1), Some(&BSDFType::OrenNayar));
    assert_eq!(bsdf.random_matching_bxdf(diffuse, 2), None);
    assert_eq!(bsdf.num_types(Type::all()), 4);
    assert_eq!(bsdf.random_matching_bxdf(Type::all(), 2), Some(&BSDFType::STransmission));
    assert_eq!(bsdf.num_types(Type::glossy()), 0);
    assert_eq!(bsdf.random_matching_bxdf(Type::glossy(), 0), None);
    assert_eq!(bsdf.pdf_share(diffuse), (1, 2));
    assert_eq!(bsdf.pdf_share(Type::glossy()), (0, 1));
    // Reflection only: both directions on one side.
    let reflection = Type::all().for_hemispheres(true);
    assert_eq!(bsdf.matching_lobes(reflection), vec![0, 1, 3]);
    let transmission = Type::all().for_hemispheres(false);
    assert_eq!(bsdf.matching_lobes(transmission), vec![2]);
}

#[test]
fn empty_bsdf() {
    let bsdf: BSDF<BSDFType> = BSDF::empty();
    assert!(bsdf.is_empty());
    assert_eq!(bsdf.size(), 0);
    assert_eq!(bsdf.num_types(Type::all()), 0);
    assert_eq!(bsdf.random_matching_bxdf(Type::all(), 0), None);
}

#[test]
fn frame_helpers() {
    assert_eq!(bits(bxdf_normal()), bits(v(0.0, 1.0, 0.0)));
    assert_eq!(bits(bxdf_incident_to(v(1.0, 2.0, 3.0))), bits(v(-1.0, 2.0, -3.0)));
    assert!(is_neg(v(0.0, -0.1, 0.0)));
    assert!(!is_neg(v(0.0, 0.0, 0.0)));
    assert!(!is_neg(v(0.0, -0.0, 0.0)));
    assert!(!is_neg(v(0.0, f32::NAN, 0.0)));
    assert_eq!(bits(flip(v(1.0, 2.0, 3.0))), bits(v(1.0, -2.0, 3.0)));
    assert_eq!(bits(flip_if_neg(v(1.0, -2.0, 3.0))), bits(v(1.0, 2.0, 3.0)));
    assert_eq!(bits(flip_if_neg(v(1.0, 2.0, 3.0))), bits(v(1.0, 2.0, 3.0)));
    assert!(bxdf_is_parallel(v(1.0, 0.0, 0.0)));
    assert!(bxdf_is_parallel(v(1.0, -0.0, 0.0)));
    assert!(!bxdf_is_parallel(v(1.0, 1e-30, 0.0)));
    assert_eq!(cos_theta(v(0.6, 0.8, 0.0)).to_bits(), 0.8f32.to_bits());
}

#[test]
fn rotation_kinds() {
    assert_eq!(world_to_bxdf_kind(v(0.0, 1.0, 0.0)), RotationKind::Identity);
    assert_eq!(world_to_bxdf_kind(v(-0.0, 1.0, 0.0)), RotationKind::Identity);
    assert_eq!(world_to_bxdf_kind(v(0.0, -1.0, 0.0)), RotationKind::Flip);
    assert_eq!(world_to_bxdf_kind(v(1.0, 0.0, 0.0)), RotationKind::Turn);
    assert_eq!(world_to_bxdf_kind(v(0.0, 0.999_999_9, 0.0)), RotationKind::Turn);
    assert_eq!(world_to_bxdf_kind(v(f32::NAN, 1.0, 0.0)), RotationKind::Turn);
}

#[test]
fn rotations_there_and_back() {
    let x = v(0.3, -0.4, 0.5);
    for r in [Rotation::Identity, Rotation::Flip] {
        let there = r.apply(x).unwrap();
        let back = r.reversed().apply(there).unwrap();
        assert_eq!(bits(back), bits(x));
    }
    let rotor = Rotor { s: s(0.5), xy: s(0.1), xz: s(-0.2), yz: s(0.0) };
    let turn = Rotation::Turn(rotor);
    assert!(turn.apply(x).is_none());
    match turn.reversed() {
        Rotation::Turn(r) => {
            assert_eq!(
                [r.s.to_bits(), r.xy.to_bits(), r.xz.to_bits(), r.yz.to_bits()],
                [0.5f32.to_bits(), (-0.1f32).to_bits(), 0.2f32.to_bits(), (-0.0f32).to_bits()]
            );
        }
        _ => panic!("a turn stays a turn"),
    }
}
