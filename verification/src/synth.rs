//! Synthesis-result cache, keyed by utterance fingerprint.
//!
//! The cache models which content-addressed artifacts currently exist on
//! disk. A fetch for a fingerprint that is present is served from the cache
//! and must not invoke the external synthesizer; a miss invokes it, and only
//! a successful synthesis — one that produced the artifact file — marks the
//! fingerprint present. A failed or timed-out synthesis changes nothing, so
//! no partial artifact can ever be mistaken for a hit. Artifacts are a
//! dedup buffer, not a durable store: the coordinator removes each one after
//! its playback cycle.
use vstd::prelude::*;

verus! {

/// What a fetch must do for a fingerprint.
#[derive(PartialEq, Eq, Structural)]
pub enum FetchPlan {
    /// The artifact exists: reuse it, do not invoke the synthesizer.
    UseCached,
    /// No artifact: invoke the external synthesizer.
    Synthesize,
}

/// The set of fingerprints whose artifacts exist, for one cache directory.
pub struct SynthCache {
    present: Vec<u64>,
}

impl SynthCache {
    /// No fingerprint is recorded twice.
    pub closed spec fn wf(&self) -> bool {
        self.present@.no_duplicates()
    }

    pub closed spec fn spec_contains(&self, fp: u64) -> bool {
        self.present@.contains(fp)
    }

    /// The cache as the set of present fingerprints.
    pub open spec fn as_set(&self) -> Set<u64> {
        Set::new(|fp: u64| self.spec_contains(fp))
    }

    pub fn new() -> (c: SynthCache)
        ensures
            c.wf(),
            c.as_set() == Set::<u64>::empty(),
    {
        let c = SynthCache { present: Vec::new() };
        proof {
            assert(c.as_set() =~= Set::<u64>::empty());
        }
        c
    }

    fn find(&self, fp: u64) -> (r: bool)
        ensures
            r == self.spec_contains(fp),
    {
        let n = self.present.len();
        let mut i: usize = 0;
        while i < n
            invariant
                i <= n,
                n == self.present@.len(),
                forall|k: int| 0 <= k < i ==> self.present@[k] != fp,
            decreases n - i,
        {
            if self.present[i] == fp {
                return true;
            }
            i = i + 1;
        }
        false
    }

    /// Decides a fetch: reuse the artifact iff it is already present.
    pub fn plan_fetch(&self, fp: u64) -> (p: FetchPlan)
        ensures
            p == FetchPlan::UseCached <==> self.spec_contains(fp),
            p == FetchPlan::Synthesize <==> !self.spec_contains(fp),
    {
        if self.find(fp) {
            FetchPlan::UseCached
        } else {
            FetchPlan::Synthesize
        }
    }

    /// Records that the synthesizer produced the artifact for `fp`. There is
    /// no transition for a failed synthesis: failure leaves the cache — and
    /// the disk — exactly as they were.
    pub fn on_synthesized(&mut self, fp: u64)
        requires
            old(self).wf(),
        ensures
            final(self).wf(),
            final(self).as_set() == old(self).as_set().insert(fp),
            final(self).spec_contains(fp),
    {
        if !self.find(fp) {
            self.present.push(fp);
            proof {
                assert(self.present@.drop_last() =~= old(self).present@);
                assert(self.present@.last() == fp);
                assert forall|u: u64| #[trigger]
                    self.spec_contains(u) == (old(self).spec_contains(u) || u == fp) by {
                    if old(self).spec_contains(u) || u == fp {
                        if u == fp {
                            assert(self.present@[self.present@.len() - 1] == u);
                        } else {
                            let k = choose|k: int|
                                0 <= k < old(self).present@.len() && old(self).present@[k] == u;
                            assert(self.present@[k] == u);
                        }
                    }
                    if self.spec_contains(u) {
                        let k = choose|k: int|
                            0 <= k < self.present@.len() && self.present@[k] == u;
                        if k < self.present@.len() - 1 {
                            assert(old(self).present@[k] == u);
                        }
                    }
                }
            }
        }
        proof {
            assert(self.as_set() =~= old(self).as_set().insert(fp));
        }
    }

    /// Records that the coordinator deleted the artifact for `fp` after its
    /// playback cycle.
    pub fn on_artifact_removed(&mut self, fp: u64)
        requires
            old(self).wf(),
        ensures
            final(self).wf(),
            final(self).as_set() == old(self).as_set().remove(fp),
    {
        let n = self.present.len();
        let mut i: usize = 0;
        while i < n
            invariant
                i <= n,
                n == self.present@.len(),
                self.wf(),
                self == old(self),
                forall|k: int| 0 <= k < i ==> self.present@[k] != fp,
            decreases n - i,
        {
            if self.present[i] == fp {
                self.present.remove(i);
                proof {
                    let pre = old(self).present@;
                    let post = self.present@;
                    assert(post =~= pre.subrange(0, i as int) + pre.subrange(
                        i as int + 1,
                        pre.len() as int,
                    ));
                    assert forall|k: int| 0 <= k < post.len() implies #[trigger] post[k] == (
                    if k < i as int {
                        pre[k]
                    } else {
                        pre[k + 1]
                    }) by {}
                    assert(post.no_duplicates()) by {
                        assert forall|a: int, b: int|
                            0 <= a < b < post.len() implies post[a] != post[b] by {
                            let a2 = if a < i as int { a } else { a + 1 };
                            let b2 = if b < i as int { b } else { b + 1 };
                            assert(pre[a2] != pre[b2]);
                        }
                    }
                    assert forall|u: u64| #[trigger]
                        self.spec_contains(u) == (old(self).spec_contains(u) && u != fp) by {
                        if self.spec_contains(u) {
                            let k = choose|k: int| 0 <= k < post.len() && post[k] == u;
                            let k2 = if k < i as int { k } else { k + 1 };
                            assert(pre[k2] == u);
                            if u == fp {
                                assert(pre[k2] == pre[i as int]);
                            }
                        }
                        if old(self).spec_contains(u) && u != fp {
                            let k = choose|k: int| 0 <= k < pre.len() && pre[k] == u;
                            let k2 = if k < i as int { k } else { k - 1 };
                            assert(post[k2] == u);
                        }
                    }
                    assert(self.as_set() =~= old(self).as_set().remove(fp));
                }
                return ;
            }
            i = i + 1;
        }
        proof {
            assert(!self.spec_contains(fp));
            assert(self.as_set() =~= old(self).as_set().remove(fp));
        }
    }
}

/// Once a synthesis for `fp` has succeeded, every later fetch of the same
/// fingerprint is a cache hit: over any number of repeated fetches, the
/// synthesizer runs at most once.
pub proof fn lemma_fetch_after_synthesis(before: SynthCache, after: SynthCache, fp: u64)
    requires
        after.as_set() == before.as_set().insert(fp),
    ensures
        after.spec_contains(fp),
{
    assert(after.as_set().contains(fp));
}

} // verus!
