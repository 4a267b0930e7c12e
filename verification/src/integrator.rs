//! The bounce rules of the recursive radiance estimator.

use crate::material::MaterialKind;
use vstd::prelude::*;

verus! {

/// The depth at which a path is cut: a hit at this depth or deeper returns
/// the emitted term alone.
pub const MAX_DEPTH: u32 = 50;

/// What one evaluation of the estimator returns.
#[derive(Clone, Copy, Debug, PartialEq, Eq, Structural)]
pub enum Step {
    /// The ray left the scene: the background term.
    Background,
    /// The emitted term alone.
    Emitted,
    /// The emitted term plus the weighted radiance along the scattered ray,
    /// which is evaluated at `depth`.
    Recurse { depth: u32 },
}

/// Whether a hit at `depth` asks its material for a scattered ray at all.
pub open spec fn spec_attempts_scatter(depth: u32) -> bool {
    depth < MAX_DEPTH
}

pub fn attempts_scatter(depth: u32) -> (a: bool)
    ensures
        a == spec_attempts_scatter(depth),
{
    depth < MAX_DEPTH
}

/// The rule of one evaluation: a miss gives the background; a hit at the
/// cutoff, or on a material that does not scatter, gives the emitted term;
/// any other hit recurses one level deeper.
pub open spec fn spec_step(hit: bool, scattered: bool, depth: u32) -> Step {
    if !hit {
        Step::Background
    } else if depth < MAX_DEPTH && scattered {
        Step::Recurse { depth: (depth + 1) as u32 }
    } else {
        Step::Emitted
    }
}

pub fn step(hit: bool, scattered: bool, depth: u32) -> (s: Step)
    ensures
        s == spec_step(hit, scattered, depth),
{
    if !hit {
        Step::Background
    } else if depth < MAX_DEPTH && scattered {
        Step::Recurse { depth: depth + 1 }
    } else {
        Step::Emitted
    }
}

/// The number of evaluations along one path that starts at `depth` and
/// scatters at every hit for as long as the rule lets it.
pub open spec fn longest_path(depth: u32) -> nat
    decreases MAX_DEPTH + 1 - depth,
{
    if depth < MAX_DEPTH {
        1 + longest_path((depth + 1) as u32)
    } else {
        1
    }
}

/// The recursion is bounded: a path that starts at depth `depth` takes at
/// most `MAX_DEPTH + 1 - depth` evaluations, and a step never recurses past
/// the cutoff.
pub proof fn lemma_recursion_bounded(hit: bool, scattered: bool, depth: u32)
    ensures
        depth <= MAX_DEPTH ==> longest_path(depth) == MAX_DEPTH + 1 - depth,
        depth >= MAX_DEPTH ==> spec_step(hit, scattered, depth) != (Step::Recurse { depth: (depth + 1) as u32 }),
        spec_step(hit, scattered, depth) matches Step::Recurse { depth: d } ==> d == depth + 1 && d <= MAX_DEPTH,
    decreases MAX_DEPTH + 1 - depth,
{
    if depth < MAX_DEPTH {
        lemma_recursion_bounded(hit, scattered, (depth + 1) as u32);
    }
}

/// A ray that hits nothing returns the background term at every depth.
pub proof fn lemma_miss_returns_background(scattered: bool, depth: u32)
    ensures
        spec_step(false, scattered, depth) == Step::Background,
{
}

/// A ray that hits a light returns what the light emits and nothing more,
/// at every depth: a light never scatters, so the path ends there.
pub proof fn lemma_light_returns_emitted(above_surface: bool, depth: u32)
    ensures
        spec_step(true, MaterialKind::DiffuseLight.spec_scatters(above_surface), depth)
            == Step::Emitted,
{
}

/// At the cutoff a hit returns the emitted term alone, whatever the material.
pub proof fn lemma_cutoff_returns_emitted(scattered: bool, depth: u32)
    requires
        depth >= MAX_DEPTH,
    ensures
        spec_step(true, scattered, depth) == Step::Emitted,
{
}

} // verus!
