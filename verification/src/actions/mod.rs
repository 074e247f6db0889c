//! Actions: what a rule does to the files that pass its filters.
//!
//! The library decides where a file goes and what comes of it; moving,
//! copying and deleting on disk is done by the caller with those decisions.

pub mod prepare;
pub mod simple;
pub mod write;
pub mod script;
pub mod io_action;
pub mod inner;
pub mod copy;
pub mod email;

use vstd::prelude::*;
use crate::resource::Resource;

verus! {

/// How an action runs over the files of a rule.
#[derive(Debug, PartialEq, Eq, Structural, Clone, Copy)]
pub enum ExecutionModel {
    Linear,
    Parallel,
    Collection,
}

impl ExecutionModel {
    /// Actions run in parallel unless they say otherwise.
    pub fn default() -> (m: ExecutionModel)
        ensures
            m == ExecutionModel::Parallel,
    {
        ExecutionModel::Parallel
    }
}

/// How an action is described to the user.
#[derive(Debug, PartialEq, Eq)]
pub struct ActionConfig<'a> {
    pub requires_dest: bool,
    pub log_hint: &'a str,
}

/// Actions are enabled unless configured otherwise.
pub fn enabled() -> (b: bool)
    ensures
        b,
{
    true
}

/// The positions of the outcomes that name a new path, in order.
pub open spec fn survivors(outcomes: Seq<Option<String>>) -> Seq<int>
    decreases outcomes.len(),
{
    if outcomes.len() == 0 {
        Seq::empty()
    } else if outcomes.last() is Some {
        survivors(outcomes.drop_last()).push(outcomes.len() - 1)
    } else {
        survivors(outcomes.drop_last())
    }
}

proof fn lemma_survivors_bounds(outcomes: Seq<Option<String>>)
    ensures
        forall|k: int| 0 <= k < survivors(outcomes).len() ==>
            0 <= #[trigger] survivors(outcomes)[k] < outcomes.len() && outcomes[survivors(outcomes)[k]] is Some,
    decreases outcomes.len(),
{
    if outcomes.len() > 0 {
        lemma_survivors_bounds(outcomes.drop_last());
        assert forall|k: int| 0 <= k < survivors(outcomes).len() implies
            0 <= #[trigger] survivors(outcomes)[k] < outcomes.len() && outcomes[survivors(outcomes)[k]] is Some by {
            let s = survivors(outcomes.drop_last());
            if k < s.len() {
                assert(outcomes.drop_last()[s[k]] == outcomes[s[k]]);
            }
        }
    }
}

/// The files that an action carried on with: each resource whose execution
/// named a path continues under that path, in order; the others drop out.
pub fn run(resources: &Vec<Resource>, outcomes: &Vec<Option<String>>) -> (r: Vec<Resource>)
    requires
        resources@.len() == outcomes@.len(),
    ensures
        r@.len() == survivors(outcomes@).len(),
        forall|k: int| 0 <= k < r@.len() ==> 0 <= #[trigger] survivors(outcomes@)[k] < resources@.len(),
        forall|k: int| 0 <= k < r@.len() ==> outcomes@[#[trigger] survivors(outcomes@)[k]] is Some,
        forall|k: int| 0 <= k < r@.len() ==> (#[trigger] r@[k]).path@ == outcomes@[survivors(outcomes@)[k]]->Some_0@,
        forall|k: int| 0 <= k < r@.len() ==> (#[trigger] r@[k]).root@ == resources@[survivors(outcomes@)[k]].root@,
        forall|k: int| 0 <= k < r@.len() ==>
            crate::resource::resource_context((#[trigger] r@[k]).context, r@[k].path@, r@[k].root@),
{
    let mut out: Vec<Resource> = Vec::new();
    let mut i: usize = 0;
    while i < resources.len()
        invariant
            i <= resources@.len() == outcomes@.len(),
            out@.len() == survivors(outcomes@.take(i as int)).len(),
            forall|k: int| #![trigger out@[k]] 0 <= k < out@.len() ==> {
                let j = survivors(outcomes@.take(i as int))[k];
                &&& 0 <= j < i
                &&& outcomes@[j] matches Some(p) && out@[k].path@ == p@
                &&& out@[k].root@ == resources@[j].root@
                &&& crate::resource::resource_context(out@[k].context, out@[k].path@, out@[k].root@)
            },
        decreases resources@.len() - i,
    {
        let ghost pre = outcomes@.take(i as int);
        let ghost post = outcomes@.take(i + 1);
        proof {
            assert(post.drop_last() =~= pre);
            assert(post.last() == outcomes@[i as int]);
            lemma_survivors_bounds(pre);
        }
        match &outcomes[i] {
            Some(p) => {
                let res = Resource::new(p.as_str(), resources[i].root.as_str());
                out.push(res);
                proof {
                    assert(survivors(post) == survivors(pre).push(i as int));
                    assert forall|k: int| #![trigger out@[k]] 0 <= k < out@.len() implies {
                        let j = survivors(post)[k];
                        &&& 0 <= j < i + 1
                        &&& outcomes@[j] matches Some(p) && out@[k].path@ == p@
                        &&& out@[k].root@ == resources@[j].root@
                        &&& crate::resource::resource_context(out@[k].context, out@[k].path@, out@[k].root@)
                    } by {
                        if k < out@.len() - 1 {
                            assert(survivors(post)[k] == survivors(pre)[k]);
                        }
                    }
                }
            }
            None => {
                proof {
                    assert(survivors(post) == survivors(pre));
                }
            }
        }
        i = i + 1;
    }
    proof {
        assert(outcomes@.take(i as int) =~= outcomes@);
        assert(survivors(outcomes@.take(i as int)) == survivors(outcomes@));
        lemma_survivors_bounds(outcomes@);
        assert forall|k: int| #![trigger out@[k]] 0 <= k < out@.len() implies {
            let from = survivors(outcomes@)[k];
            &&& 0 <= from < resources@.len()
            &&& outcomes@[from] is Some
            &&& out@[k].path@ == outcomes@[from]->Some_0@
            &&& out@[k].root@ == resources@[from].root@
            &&& crate::resource::resource_context(out@[k].context, out@[k].path@, out@[k].root@)
        } by {
            let x = out@[k];
            let j = survivors(outcomes@.take(i as int))[k];
            assert(j == survivors(outcomes@)[k]);
            assert(0 <= j < i);
            assert(outcomes@[j] is Some);
            assert(x.path@ == outcomes@[j]->Some_0@);
            assert(x.root@ == resources@[j].root@);
            assert(crate::resource::resource_context(x.context, x.path@, x.root@));
        }
    }
    out
}

} // verus!
