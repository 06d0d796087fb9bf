use raytracer::light::{default_cast_shadow, is_lit};
use raytracer::material::{choose_behavior, RayBehavior, ScatterDraws};
use raytracer::scene::{shade_step, ShadeStep};

fn draws(passes_through: bool, fresnel_reflects: bool, can_refract: bool, mirrors: bool) -> ScatterDraws {
    ScatterDraws { passes_through, fresnel_reflects, can_refract, mirrors }
}

#[test]
fn lights_cast_shadows_by_default() {
    assert!(default_cast_shadow());
}

#[test]
fn blocked_shadow_casting_light_gives_nothing() {
    assert!(!is_lit(true, true));
}

#[test]
fn unblocked_light_reaches_point() {
    assert!(is_lit(true, false));
}

#[test]
fn light_without_shadows_ignores_blockers() {
    assert!(is_lit(false, true));
    assert!(is_lit(false, false));
}

#[test]
fn opaque_matte_material_always_diffuse() {
    for f in [false, true] {
        for c in [false, true] {
            assert_eq!(choose_behavior(&draws(false, f, c, false)), RayBehavior::Diffuse);
        }
    }
}

#[test]
fn mirror_draw_reflects() {
    assert_eq!(choose_behavior(&draws(false, false, true, true)), RayBehavior::Reflect);
}

#[test]
fn passing_ray_refracts() {
    assert_eq!(choose_behavior(&draws(true, false, true, false)), RayBehavior::Refract);
    assert_eq!(choose_behavior(&draws(true, false, true, true)), RayBehavior::Refract);
}

#[test]
fn fresnel_draw_forces_reflection() {
    assert_eq!(choose_behavior(&draws(true, true, true, false)), RayBehavior::Reflect);
}

#[test]
fn total_internal_reflection() {
    assert_eq!(choose_behavior(&draws(true, false, false, false)), RayBehavior::Reflect);
}

#[test]
fn zero_depth_is_black() {
    assert_eq!(shade_step(0, true), ShadeStep::Black);
    assert_eq!(shade_step(0, false), ShadeStep::Black);
}

#[test]
fn miss_takes_background() {
    assert_eq!(shade_step(3, false), ShadeStep::Background);
}

#[test]
fn hit_bounces_with_one_less() {
    assert_eq!(shade_step(3, true), ShadeStep::Bounce { depth: 2 });
    assert_eq!(shade_step(u32::MAX, true), ShadeStep::Bounce { depth: u32::MAX - 1 });
}

#[test]
fn bounce_chain_stops_within_depth() {
    for d in 0..6u32 {
        let mut depth = d;
        let mut calls = 0u32;
        while let ShadeStep::Bounce { depth: next } = shade_step(depth, true) {
            depth = next;
            calls += 1;
        }
        assert_eq!(calls, d);
        assert_eq!(shade_step(depth, true), ShadeStep::Black);
    }
}
