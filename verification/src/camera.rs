//! The decisions of the integrator: when a path of bounces ends, and with
//! what.

use vstd::prelude::*;

verus! {

/// What became of a ray sent into the scene.
#[derive(Clone, Copy, Debug, PartialEq, Eq, Structural)]
pub enum Bounce {
    /// It hit nothing.
    Miss,
    /// It hit a surface that swallowed it.
    Absorbed,
    /// It hit a surface that sent it on, dimmed.
    Scattered,
}

/// What a ray is worth.
#[derive(Clone, Copy, Debug, PartialEq, Eq, Structural)]
pub enum Shade {
    /// Nothing.
    Black,
    /// The colour of the sky in its direction.
    Sky,
    /// What the scattered ray is worth at the depth given, dimmed by the
    /// surface.
    Attenuated(i32),
}

/// Whether a ray with `depth` bounces left is spent. A spent ray is black
/// and is not sent into the scene at all.
pub open spec fn spec_exhausted(depth: i32) -> bool {
    depth <= 0
}

pub open spec fn spec_shade(depth: i32, bounce: Bounce) -> Shade {
    if depth <= 0 {
        Shade::Black
    } else {
        match bounce {
            Bounce::Miss => Shade::Sky,
            Bounce::Absorbed => Shade::Black,
            Bounce::Scattered => Shade::Attenuated((depth - 1) as i32),
        }
    }
}

/// How many rays a path can send into the scene at most: one for each
/// bounce it has left.
pub open spec fn longest_path(depth: i32, bounces: Seq<Bounce>) -> nat
    decreases bounces.len(),
{
    if bounces.len() == 0 || spec_exhausted(depth) {
        0
    } else {
        match spec_shade(depth, bounces[0]) {
            Shade::Attenuated(left) => 1 + longest_path(left, bounces.skip(1)),
            _ => 1,
        }
    }
}

pub fn exhausted(depth: i32) -> (spent: bool)
    ensures
        spent == spec_exhausted(depth),
{
    depth <= 0
}

/// What a ray with `depth` bounces left is worth, given what became of it.
/// A ray with none left is black whatever became of it; one that was
/// scattered passes on one bounce less.
pub fn shade(depth: i32, bounce: Bounce) -> (s: Shade)
    ensures
        s == spec_shade(depth, bounce),
        spec_exhausted(depth) ==> s == Shade::Black,
        s matches Shade::Attenuated(left) ==> 0 <= left < depth,
{
    if depth <= 0 {
        return Shade::Black;
    }
    match bounce {
        Bounce::Miss => Shade::Sky,
        Bounce::Absorbed => Shade::Black,
        Bounce::Scattered => Shade::Attenuated(depth - 1),
    }
}

/// A path ends: whatever becomes of its rays, it sends no more of them into
/// the scene than it had bounces to begin with.
pub proof fn lemma_path_is_bounded(depth: i32, bounces: Seq<Bounce>)
    ensures
        longest_path(depth, bounces) <= if depth > 0 {
            depth as nat
        } else {
            0
        },
    decreases bounces.len(),
{
    if bounces.len() > 0 && depth > 0 {
        if let Shade::Attenuated(left) = spec_shade(depth, bounces[0]) {
            lemma_path_is_bounded(left, bounces.skip(1));
        }
    }
}

} // verus!
