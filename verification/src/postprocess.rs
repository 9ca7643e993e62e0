//! The passes of a post-processing chain. The scene is drawn first; each
//! effect then draws a full-screen quad that samples the texture the pass
//! before it rendered into. Every pass but the last renders into an
//! intermediate target of its own; the last one renders into the final
//! target (or the canvas).

use vstd::prelude::*;

verus! {

/// What a pass draws: the scene itself, or the effect that samples the
/// intermediate target with this index.
#[derive(Debug, Clone, Copy, PartialEq, Eq, Structural)]
pub enum PassSource {
    Scene,
    Effect { samples: usize },
}

/// Where a pass renders: an intermediate target, or the final one.
#[derive(Debug, Clone, Copy, PartialEq, Eq, Structural)]
pub enum PassDestination {
    Intermediate(usize),
    Final,
}

/// One pass of the chain.
#[derive(Debug, Clone, Copy, PartialEq, Eq, Structural)]
pub struct Pass {
    pub source: PassSource,
    pub destination: PassDestination,
}

/// Pass `i` of a chain with `effects` effects.
pub open spec fn pass_at(effects: int, i: int) -> Pass {
    Pass {
        source: if i == 0 {
            PassSource::Scene
        } else {
            PassSource::Effect { samples: (i - 1) as usize }
        },
        destination: if i < effects {
            PassDestination::Intermediate(i as usize)
        } else {
            PassDestination::Final
        },
    }
}

/// The passes of a chain with `effects` effects, in the order they run.
pub fn passes(effects: usize) -> (r: Vec<Pass>)
    requires
        effects < usize::MAX,
    ensures
        r@.len() == effects + 1,
        forall|i: int| 0 <= i <= effects ==> #[trigger] r@[i] == pass_at(effects as int, i),
{
    let mut r: Vec<Pass> = Vec::new();
    let mut i: usize = 0;
    while i <= effects
        invariant
            effects < usize::MAX,
            i <= effects + 1,
            r@.len() == i,
            forall|j: int| 0 <= j < i ==> #[trigger] r@[j] == pass_at(effects as int, j),
        decreases effects + 1 - i,
    {
        let source = if i == 0 {
            PassSource::Scene
        } else {
            PassSource::Effect { samples: i - 1 }
        };
        let destination = if i < effects {
            PassDestination::Intermediate(i)
        } else {
            PassDestination::Final
        };
        r.push(Pass { source, destination });
        i += 1;
    }
    r
}

/// In a chain, the scene is drawn by the first pass only; every
/// intermediate target is rendered into by exactly one pass and sampled by
/// the pass right after it; only the last pass renders into the final target.
pub proof fn law_chain(effects: int, i: int, j: int)
    requires
        0 <= effects < usize::MAX,
        0 <= i <= effects,
        0 <= j <= effects,
    ensures
        (pass_at(effects, i).source == PassSource::Scene) <==> i == 0,
        (pass_at(effects, i).destination == PassDestination::Final) <==> i == effects,
        i < effects ==> pass_at(effects, i + 1).source == (PassSource::Effect { samples: i as usize }),
        (pass_at(effects, i).destination == pass_at(effects, j).destination) ==> i == j,
        (pass_at(effects, i).source == pass_at(effects, j).source) ==> i == j,
{
}

} // verus!
