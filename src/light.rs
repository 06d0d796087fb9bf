use vstd::prelude::*;

verus! {

/// Lights cast shadows unless a scene says otherwise.
pub fn default_cast_shadow() -> (r: bool)
    ensures
        r,
{
    true
}

/// A hit point receives a light's contribution when the light casts no
/// shadow, or when nothing stands between the point and the light.
pub open spec fn lit(cast_shadow: bool, blocked: bool) -> bool {
    !cast_shadow || !blocked
}

/// Decides whether a light reaches a hit point. `blocked` tells whether the
/// shadow ray from the point toward the light meets an object closer than
/// the light itself.
pub fn is_lit(cast_shadow: bool, blocked: bool) -> (r: bool)
    ensures
        r == lit(cast_shadow, blocked),
        cast_shadow && blocked ==> !r,
        !cast_shadow ==> r,
{
    !cast_shadow || !blocked
}

} // verus!
