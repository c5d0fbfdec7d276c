use tmzgua::fingerprint::fingerprint_of;
use tmzgua::synth::{FetchPlan, SynthCache};

// Stand-in for the external synthesizer boundary: performs the plan that the
// cache decided and counts real invocations, failing when told to.
fn run_fetch(cache: &mut SynthCache, fp: u64, invocations: &mut u32, fail: bool) -> bool {
    match cache.plan_fetch(fp) {
        FetchPlan::UseCached => true,
        FetchPlan::Synthesize => {
            *invocations += 1;
            if fail {
                // no artifact is written, so the cache must not change
                false
            } else {
                cache.on_synthesized(fp);
                true
            }
        }
    }
}

#[test]
fn repeated_fetches_invoke_synthesizer_at_most_once() {
    let mut cache = SynthCache::new();
    let fp = fingerprint_of("hello there");
    let mut invocations = 0;
    assert!(run_fetch(&mut cache, fp, &mut invocations, false));
    assert!(run_fetch(&mut cache, fp, &mut invocations, false));
    assert!(run_fetch(&mut cache, fp, &mut invocations, false));
    assert_eq!(invocations, 1);
}

#[test]
fn distinct_fingerprints_synthesize_separately() {
    let mut cache = SynthCache::new();
    let mut invocations = 0;
    assert!(run_fetch(&mut cache, 1, &mut invocations, false));
    assert!(run_fetch(&mut cache, 2, &mut invocations, false));
    assert_eq!(invocations, 2);
    assert!(run_fetch(&mut cache, 1, &mut invocations, false));
    assert_eq!(invocations, 2);
}

#[test]
fn failed_synthesis_leaves_no_poisoned_entry() {
    let mut cache = SynthCache::new();
    let fp = 77;
    let mut invocations = 0;
    assert!(!run_fetch(&mut cache, fp, &mut invocations, true));
    // the next fetch is still a miss, not a bogus hit
    assert!(cache.plan_fetch(fp) == FetchPlan::Synthesize);
    assert!(run_fetch(&mut cache, fp, &mut invocations, false));
    assert_eq!(invocations, 2);
    assert!(cache.plan_fetch(fp) == FetchPlan::UseCached);
}

#[test]
fn removed_artifact_synthesizes_again() {
    let mut cache = SynthCache::new();
    cache.on_synthesized(5);
    assert!(cache.plan_fetch(5) == FetchPlan::UseCached);
    cache.on_artifact_removed(5);
    assert!(cache.plan_fetch(5) == FetchPlan::Synthesize);
}

#[test]
fn removal_is_per_fingerprint() {
    let mut cache = SynthCache::new();
    cache.on_synthesized(5);
    cache.on_synthesized(6);
    cache.on_artifact_removed(5);
    assert!(cache.plan_fetch(6) == FetchPlan::UseCached);
    assert!(cache.plan_fetch(5) == FetchPlan::Synthesize);
}
