//! Effect cells: one fingerprint per effect slot, recording the dependencies
//! the effect last ran under; a fresh fingerprint decides whether the body
//! must run again.

use vstd::prelude::*;

verus! {

/// The fingerprint folding constant.
pub const FP_PRIME: u64 = 1099511628211;

/// The fingerprint starting value.
pub const FP_SEED: u64 = 0xcbf29ce484222325;

/// One folding step of the dependency fingerprint.
pub open spec fn spec_fp_step(h: u64, d: u64) -> u64 {
    (h ^ d).wrapping_mul(FP_PRIME)
}

/// The fingerprint of a dependency list: a fold of `spec_fp_step` over the
/// values. Distinct lists may collide; colliding dependencies are treated as
/// equal, a documented limitation of fingerprint-based gating.
pub open spec fn spec_fingerprint(deps: Seq<u64>) -> u64
    decreases deps.len(),
{
    if deps.len() == 0 {
        FP_SEED
    } else {
        spec_fp_step(spec_fingerprint(deps.drop_last()), deps.last())
    }
}

/// Computes the dependency fingerprint.
pub fn fingerprint(deps: &Vec<u64>) -> (r: u64)
    ensures
        r == spec_fingerprint(deps@),
{
    let mut h: u64 = FP_SEED;
    let mut i: usize = 0;
    while i < deps.len()
        invariant
            i <= deps@.len(),
            h == spec_fingerprint(deps@.take(i as int)),
        decreases deps@.len() - i,
    {
        proof {
            assert(deps@.take(i + 1).drop_last() =~= deps@.take(i as int));
            assert(deps@.take(i + 1).last() == deps@[i as int]);
        }
        h = (h ^ deps[i]).wrapping_mul(FP_PRIME);
        i = i + 1;
    }
    proof {
        assert(deps@.take(deps@.len() as int) =~= deps@);
    }
    h
}

/// One effect cell: the fingerprint of the dependencies its body last ran
/// under. The body and its cleanup are the view's own code; the cell only
/// decides when they must run.
#[derive(Clone, Copy)]
pub struct Effect {
    pub hash: u64,
}

impl Effect {
    /// A cell recording that the body just ran under `deps`.
    pub fn new(deps: &Vec<u64>) -> (r: Effect)
        ensures
            r.hash == spec_fingerprint(deps@),
    {
        Effect { hash: fingerprint(deps) }
    }
}

/// What the caller of `use_effect` must do with its body.
#[derive(PartialEq, Eq, Structural, Clone, Copy)]
pub enum EffectCmd {
    /// First call at this ordinal: run the body and retain its cleanup.
    Run,
    /// The dependency fingerprint changed: run the retained cleanup, then
    /// the body again, and retain the new cleanup.
    CleanupAndRun,
    /// The fingerprint is unchanged: do nothing.
    Skip,
}

/// What one `use_effect` call does to the fingerprints at a given ordinal:
/// a fresh ordinal records the fingerprint and runs; a changed fingerprint
/// is replaced and reruns after cleanup; an unchanged one does nothing.
pub open spec fn spec_effect_step(hashes: Seq<u64>, cursor: int, fp: u64) -> (Seq<u64>, EffectCmd) {
    if 0 <= cursor < hashes.len() {
        if hashes[cursor] == fp {
            (hashes, EffectCmd::Skip)
        } else {
            (hashes.update(cursor, fp), EffectCmd::CleanupAndRun)
        }
    } else {
        (hashes.push(fp), EffectCmd::Run)
    }
}

/// The effect store of one context: cells by call order and the per-render
/// cursor.
pub struct EffectRegistry {
    effects: Vec<Effect>,
    order: usize,
}

impl EffectRegistry {
    /// The recorded fingerprints.
    pub closed spec fn hashes(&self) -> Seq<u64> {
        self.effects@.map_values(|e: Effect| e.hash)
    }

    /// The next call ordinal.
    pub closed spec fn order(&self) -> int {
        self.order as int
    }

    /// An empty store.
    pub fn new() -> (r: EffectRegistry)
        ensures
            r.hashes() =~= Seq::<u64>::empty(),
            r.order() == 0,
    {
        EffectRegistry { effects: Vec::new(), order: 0 }
    }

    /// Restarts the per-render call ordinal at zero.
    pub fn reset_order(&mut self)
        ensures
            final(self).hashes() == old(self).hashes(),
            final(self).order() == 0,
    {
        self.order = 0;
    }

    /// Hands out the current call ordinal and advances it.
    pub fn get_order(&mut self) -> (r: usize)
        requires
            old(self).order() < usize::MAX,
        ensures
            r == old(self).order(),
            final(self).order() == old(self).order() + 1,
            final(self).hashes() == old(self).hashes(),
    {
        let r = self.order;
        self.order = self.order + 1;
        r
    }

    /// Allocates the next effect cell.
    pub fn register(&mut self, effect: Effect)
        ensures
            final(self).hashes() =~= old(self).hashes().push(effect.hash),
            final(self).order() == old(self).order(),
    {
        self.effects.push(effect);
    }

    /// The cell at an ordinal, or `None` beyond the allocated cells.
    pub fn get(&self, idx: usize) -> (r: Option<Effect>)
        ensures
            idx < self.hashes().len() ==> (r matches Some(e) && e.hash == self.hashes()[idx as int]),
            idx >= self.hashes().len() ==> r is None,
    {
        if idx < self.effects.len() {
            Some(self.effects[idx])
        } else {
            None
        }
    }

    /// Replaces the fingerprint at `idx` when the new dependencies hash
    /// differently, returning whether they did.
    pub fn update_deps(&mut self, idx: usize, deps: &Vec<u64>) -> (r: bool)
        requires
            idx < old(self).hashes().len(),
        ensures
            r == (spec_fingerprint(deps@) != old(self).hashes()[idx as int]),
            r ==> final(self).hashes() =~= old(self).hashes().update(
                idx as int,
                spec_fingerprint(deps@),
            ),
            !r ==> final(self).hashes() == old(self).hashes(),
            final(self).order() == old(self).order(),
    {
        let fp = fingerprint(deps);
        if fp != self.effects[idx].hash {
            self.effects[idx] = Effect { hash: fp };
            true
        } else {
            false
        }
    }

    /// Drops all cells, as teardown does; the view owner releases the
    /// retained cleanups.
    pub fn clear(&mut self)
        ensures
            final(self).hashes() =~= Seq::<u64>::empty(),
            final(self).order() == old(self).order(),
    {
        self.effects.clear();
    }
}

/// Effect re-run gating: at a fresh ordinal the body runs; a second call at
/// the same ordinal is skipped exactly when the dependency fingerprint is
/// unchanged, and cleans up and reruns exactly when it changed.
pub proof fn lemma_effect_rerun_gating(hashes: Seq<u64>, fp1: u64, fp2: u64)
    requires
        hashes.len() == 0,
    ensures
        ({
            let (h1, c1) = spec_effect_step(hashes, 0, fp1);
            let (h2, c2) = spec_effect_step(h1, 0, fp2);
            &&& c1 == EffectCmd::Run
            &&& (fp2 == fp1 ==> c2 == EffectCmd::Skip && h2 == h1)
            &&& (fp2 != fp1 ==> c2 == EffectCmd::CleanupAndRun && h2 =~= seq![fp2])
        }),
{
    let (h1, c1) = spec_effect_step(hashes, 0, fp1);
    assert(h1 =~= seq![fp1]);
    if fp2 != fp1 {
        let (h2, c2) = spec_effect_step(h1, 0, fp2);
        assert(h2 =~= seq![fp2]);
    }
}

} // verus!
