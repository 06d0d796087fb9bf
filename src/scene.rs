use vstd::prelude::*;

verus! {

/// What shading does with a ray, given how many bounces it may still take
/// and whether the ray hits an object.
#[derive(Clone, Copy, Debug, PartialEq, Eq, Structural)]
pub enum ShadeStep {
    /// The bounce budget is spent: the ray contributes black.
    Black,
    /// The ray leaves the scene: it takes the sky gradient.
    Background,
    /// The ray hits an object: light it directly, and follow one scattered
    /// ray with the budget given here.
    Bounce { depth: u32 },
}

pub open spec fn shade_step_of(depth: u32, hit: bool) -> ShadeStep {
    if depth == 0 {
        ShadeStep::Black
    } else if !hit {
        ShadeStep::Background
    } else {
        ShadeStep::Bounce { depth: (depth - 1) as u32 }
    }
}

/// Decides the next step of shading a ray with `depth` bounces left.
pub fn shade_step(depth: u32, hit: bool) -> (r: ShadeStep)
    ensures
        r == shade_step_of(depth, hit),
        depth == 0 ==> r == ShadeStep::Black,
        r matches ShadeStep::Bounce { depth: next } ==> next < depth,
{
    if depth == 0 {
        ShadeStep::Black
    } else if !hit {
        ShadeStep::Background
    } else {
        ShadeStep::Bounce { depth: depth - 1 }
    }
}

/// The number of nested shading calls made for a ray with budget `depth`,
/// when the successive rays followed hit an object as `hits` says.
pub open spec fn nested_calls(depth: u32, hits: Seq<bool>) -> nat
    decreases hits.len(),
{
    if hits.len() == 0 {
        0
    } else {
        match shade_step_of(depth, hits[0]) {
            ShadeStep::Bounce { depth: next } => 1 + nested_calls(next, hits.drop_first()),
            _ => 0,
        }
    }
}

/// Shading a ray with budget `depth` makes at most `depth` nested calls,
/// however the rays it follows hit or miss and whatever the materials choose.
pub proof fn lemma_recursion_bounded(depth: u32, hits: Seq<bool>)
    ensures
        nested_calls(depth, hits) <= depth,
    decreases hits.len(),
{
    if hits.len() > 0 {
        if let ShadeStep::Bounce { depth: next } = shade_step_of(depth, hits[0]) {
            lemma_recursion_bounded(next, hits.drop_first());
        }
    }
}

/// With no bounce budget every ray is black, whatever it hits and whatever
/// lights the scene holds.
pub proof fn lemma_zero_depth_is_black(hit: bool)
    ensures
        shade_step_of(0, hit) == ShadeStep::Black,
{
}

} // verus!
