use pathtrace::integrator::{attempts_scatter, step, Step, MAX_DEPTH};
use pathtrace::material::{
    dielectric_branch, Branch, DiffuseLight, Isotropic, Lambertian, MaterialKind,
};

#[test]
fn constructors_keep_their_texture() {
    assert_eq!(Lambertian::new(3).texture(), 3);
    assert_eq!(DiffuseLight::new(0).texture(), 0);
    assert_eq!(Isotropic::new(17).texture(), 17);
}

#[test]
fn light_never_scatters() {
    assert!(!MaterialKind::DiffuseLight.scatters(true));
    assert!(!MaterialKind::DiffuseLight.scatters(false));
    assert!(MaterialKind::DiffuseLight.emits());
}

#[test]
fn only_light_emits() {
    assert!(!MaterialKind::Lambertian.emits());
    assert!(!MaterialKind::Metal.emits());
    assert!(!MaterialKind::Dielectric.emits());
    assert!(!MaterialKind::Isotropic.emits());
}

#[test]
fn metal_rejects_directions_below_the_surface() {
    assert!(MaterialKind::Metal.scatters(true));
    assert!(!MaterialKind::Metal.scatters(false));
}

#[test]
fn diffuse_glass_and_media_always_scatter() {
    for above in [true, false] {
        assert!(MaterialKind::Lambertian.scatters(above));
        assert!(MaterialKind::Dielectric.scatters(above));
        assert!(MaterialKind::Isotropic.scatters(above));
    }
}

#[test]
fn only_lambertian_reweights() {
    assert!(MaterialKind::Lambertian.reweights());
    assert!(!MaterialKind::Metal.reweights());
    assert!(!MaterialKind::Dielectric.reweights());
    assert!(!MaterialKind::DiffuseLight.reweights());
    assert!(!MaterialKind::Isotropic.reweights());
}

#[test]
fn total_internal_reflection_reflects() {
    assert_eq!(dielectric_branch(false, true), Branch::Reflect);
    assert_eq!(dielectric_branch(false, false), Branch::Reflect);
}

#[test]
fn dielectric_follows_the_draw() {
    assert_eq!(dielectric_branch(true, true), Branch::Refract);
    assert_eq!(dielectric_branch(true, false), Branch::Reflect);
}

#[test]
fn miss_gives_background() {
    assert_eq!(step(false, false, 0), Step::Background);
    assert_eq!(step(false, true, 0), Step::Background);
    assert_eq!(step(false, true, 50), Step::Background);
}

#[test]
fn direct_hit_on_a_light_gives_emitted_alone() {
    let scattered = MaterialKind::DiffuseLight.scatters(true);
    assert_eq!(step(true, scattered, 0), Step::Emitted);
}

#[test]
fn scatter_recurses_one_level_deeper() {
    assert_eq!(step(true, true, 0), Step::Recurse { depth: 1 });
    assert_eq!(step(true, true, 49), Step::Recurse { depth: 50 });
}

#[test]
fn cutoff_returns_emitted() {
    assert_eq!(MAX_DEPTH, 50);
    assert_eq!(step(true, true, 50), Step::Emitted);
    assert_eq!(step(true, true, 51), Step::Emitted);
    assert_eq!(step(true, true, u32::MAX), Step::Emitted);
    assert!(attempts_scatter(49));
    assert!(!attempts_scatter(50));
}

#[test]
fn a_path_ends_after_fifty_one_evaluations() {
    let mut depth: u32 = 0;
    let mut evaluations: u32 = 0;
    loop {
        evaluations += 1;
        match step(true, true, depth) {
            Step::Recurse { depth: next } => depth = next,
            last => {
                assert_eq!(last, Step::Emitted);
                break;
            }
        }
    }
    assert_eq!(evaluations, 51);
}
