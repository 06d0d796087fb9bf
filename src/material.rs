use vstd::prelude::*;

verus! {

/// How a surface sends on a ray that hits it.
#[derive(Clone, Copy, Debug, PartialEq, Eq, Structural)]
pub enum RayBehavior {
    /// Scattered around the surface normal, tinted by the surface color.
    Diffuse,
    /// Mirrored about the normal, tinted by the reflection color.
    Reflect,
    /// Bent through the surface, tinted by the refraction color.
    Refract,
}

/// The outcomes of the comparisons, each on a fresh uniform draw, that
/// decide how a surface scatters a ray.
#[derive(Clone, Copy, Debug, PartialEq, Eq, Structural)]
pub struct ScatterDraws {
    /// The first draw exceeds the material's opacity: the ray tries to pass
    /// through the surface.
    pub passes_through: bool,
    /// The Fresnel draw falls below the Schlick reflectance at the angle of
    /// incidence.
    pub fresnel_reflects: bool,
    /// Snell's law admits a refracted ray (no total internal reflection).
    pub can_refract: bool,
    /// The second draw falls below the material's reflection weight.
    pub mirrors: bool,
}

/// A ray that tries to pass through is reflected when the Fresnel draw says
/// so or when it cannot refract, and refracted otherwise. Any other ray is
/// mirrored when the reflection draw says so, and scattered diffusely
/// otherwise.
pub open spec fn behavior_of(d: ScatterDraws) -> RayBehavior {
    if d.passes_through {
        if d.fresnel_reflects || !d.can_refract {
            RayBehavior::Reflect
        } else {
            RayBehavior::Refract
        }
    } else if d.mirrors {
        RayBehavior::Reflect
    } else {
        RayBehavior::Diffuse
    }
}

/// Settles how a surface scatters a ray, from the outcomes of its draws.
pub fn choose_behavior(d: &ScatterDraws) -> (r: RayBehavior)
    ensures
        r == behavior_of(*d),
        r == RayBehavior::Refract ==> d.passes_through,
        !d.passes_through && !d.mirrors ==> r == RayBehavior::Diffuse,
{
    if d.passes_through {
        if d.fresnel_reflects {
            RayBehavior::Reflect
        } else if d.can_refract {
            RayBehavior::Refract
        } else {
            RayBehavior::Reflect
        }
    } else if d.mirrors {
        RayBehavior::Reflect
    } else {
        RayBehavior::Diffuse
    }
}

/// A material that lets no ray through and mirrors none (full opacity, no
/// reflection weight, so that no draw passes either test) scatters every
/// ray diffusely, whatever the other draws give.
pub proof fn lemma_opaque_matte_is_diffuse(d: ScatterDraws)
    requires
        !d.passes_through,
        !d.mirrors,
    ensures
        behavior_of(d) == RayBehavior::Diffuse,
{
}

} // verus!
