use vstd::prelude::*;

use crate::config::{AdapterConfig, Config};
use crate::errors::Error;

verus! {

/// The fixed retention capacity of the bus the supervisor creates.
pub const BUS_CAPACITY: usize = 100;

/// What a successful start-up check yields: the enabled adapters to start,
/// sinks first (they must subscribe before any source publishes), and the
/// capacity of the one bus connecting them.
pub struct StartPlan {
    pub capacity: usize,
    pub sinks: Vec<(String, AdapterConfig)>,
    pub sources: Vec<(String, AdapterConfig)>,
}

/// The enabled subset of one role's entries, in their original order.
pub open spec fn enabled_of(s: Seq<(String, AdapterConfig)>) -> Seq<(String, AdapterConfig)>
    decreases s.len(),
{
    if s.len() == 0 {
        Seq::empty()
    } else if s.last().1.enabled {
        enabled_of(s.drop_last()).push(s.last())
    } else {
        enabled_of(s.drop_last())
    }
}

/// Whether at least one entry is enabled.
pub open spec fn any_enabled(s: Seq<(String, AdapterConfig)>) -> bool {
    exists|i: int| 0 <= i < s.len() && s[i].1.enabled
}

proof fn lemma_enabled_of_nonempty(s: Seq<(String, AdapterConfig)>)
    ensures
        enabled_of(s).len() > 0 <==> any_enabled(s),
    decreases s.len(),
{
    if s.len() > 0 {
        lemma_enabled_of_nonempty(s.drop_last());
        if s.last().1.enabled {
            assert(s[s.len() - 1].1.enabled);
        } else {
            if any_enabled(s) {
                let i = choose|i: int| 0 <= i < s.len() && s[i].1.enabled;
                assert(s.drop_last()[i].1.enabled);
            }
            if any_enabled(s.drop_last()) {
                let i = choose|i: int| 0 <= i < s.drop_last().len() && s.drop_last()[i].1.enabled;
                assert(s[i].1.enabled);
            }
        }
    }
}

/// The enabled subset of one role's entries, order kept.
fn enabled_entries(entries: &Vec<(String, AdapterConfig)>) -> (r: Vec<(String, AdapterConfig)>)
    ensures
        r@ == enabled_of(entries@),
{
    let n = entries.len();
    let mut r: Vec<(String, AdapterConfig)> = Vec::new();
    let mut i: usize = 0;
    while i < n
        invariant
            n == entries@.len(),
            i <= n,
            r@ == enabled_of(entries@.subrange(0, i as int)),
        decreases n - i,
    {
        proof {
            assert(entries@.subrange(0, i as int + 1).drop_last() =~= entries@.subrange(
                0,
                i as int,
            ));
            assert(entries@.subrange(0, i as int + 1).last() == entries@[i as int]);
        }
        if entries[i].1.is_enabled() {
            let name = entries[i].0.clone();
            let cfg = entries[i].1;
            r.push((name, cfg));
        }
        i = i + 1;
    }
    proof {
        assert(entries@.subrange(0, n as int) =~= entries@);
    }
    r
}

/// The supervisor's start-up decision. Both preconditions are checked before
/// anything is created: with no enabled sink the whole run is refused with
/// `NoSink` (regardless of the sources), then with no enabled source it is
/// refused with `NoSource`. Only when both subsets are non-empty does a plan
/// come back, carrying exactly the enabled entries of each role and the fixed
/// bus capacity; the bus and the adapter tasks are created only from such a
/// plan.
pub fn plan(config: &Config) -> (r: Result<StartPlan, Error>)
    ensures
        r matches Err(Error::NoSink) <==> !any_enabled(config.sinks@),
        r matches Err(Error::NoSource) <==> (any_enabled(config.sinks@) && !any_enabled(
            config.sources@,
        )),
        (any_enabled(config.sinks@) && any_enabled(config.sources@)) <==> (r matches Ok(p)
            && p.sinks@ == enabled_of(config.sinks@) && p.sources@ == enabled_of(config.sources@)
            && p.capacity == BUS_CAPACITY && p.sinks@.len() > 0 && p.sources@.len() > 0),
{
    let sinks = enabled_entries(&config.sinks);
    proof {
        lemma_enabled_of_nonempty(config.sinks@);
    }
    if sinks.len() == 0 {
        return Err(Error::NoSink);
    }
    let sources = enabled_entries(&config.sources);
    proof {
        lemma_enabled_of_nonempty(config.sources@);
    }
    if sources.len() == 0 {
        return Err(Error::NoSource);
    }
    Ok(StartPlan { capacity: BUS_CAPACITY, sinks, sources })
}

/// The first failure among the terminal task outcomes, in task order.
pub open spec fn first_failure(s: Seq<Result<(), String>>) -> Option<Seq<char>>
    decreases s.len(),
{
    if s.len() == 0 {
        None
    } else {
        match s[0] {
            Result::Err(d) => Some(d@),
            Result::Ok(_) => first_failure(s.drop_first()),
        }
    }
}

/// The joint outcome of all adapter tasks: success only if every task
/// succeeded; otherwise the first task to fail determines the overall
/// failure, its error wrapped opaquely.
pub fn aggregate_outcomes(outcomes: &Vec<Result<(), String>>) -> (r: Result<(), Error>)
    ensures
        match first_failure(outcomes@) {
            Some(d) => r matches Err(Error::TaskFailure { detail }) && detail@ == d,
            None => r is Ok,
        },
{
    let n = outcomes.len();
    proof {
        assert(outcomes@.subrange(0, n as int) =~= outcomes@);
    }
    let mut i: usize = 0;
    while i < n
        invariant
            n == outcomes@.len(),
            i <= n,
            first_failure(outcomes@) == first_failure(outcomes@.subrange(i as int, n as int)),
        decreases n - i,
    {
        proof {
            assert(outcomes@.subrange(i as int, n as int).drop_first() =~= outcomes@.subrange(
                i as int + 1,
                n as int,
            ));
            assert(outcomes@.subrange(i as int, n as int)[0] == outcomes@[i as int]);
        }
        match &outcomes[i] {
            Result::Err(d) => {
                return Err(Error::TaskFailure { detail: d.clone() });
            },
            Result::Ok(_) => {},
        }
        i = i + 1;
    }
    proof {
        assert(outcomes@.subrange(n as int, n as int).len() == 0);
    }
    Ok(())
}

} // verus!
