use vstd::prelude::*;
use vstd::string::StrSliceExecFns;
use crate::error::Error;

verus! {

broadcast use vstd::std_specs::vec::group_vec_axioms, vstd::seq::group_seq_axioms;

/// What happened to one target document: its name, and either the number of
/// inserted keys or the failure.
#[derive(Debug)]
pub struct MergeOutcome {
    pub name: String,
    pub outcome: Result<usize, Error>,
}

/// The totals of one run over a batch of targets.
#[derive(Debug, Clone, Copy, PartialEq, Eq, Structural)]
pub struct RunSummary {
    pub total: usize,
    pub succeeded: usize,
    pub changed: usize,
    pub failed: usize,
}

/// How many outcomes of `s` succeeded.
pub open spec fn count_succeeded(s: Seq<MergeOutcome>) -> nat
    decreases s.len(),
{
    if s.len() == 0 {
        0
    } else {
        count_succeeded(s.drop_last()) + if s.last().outcome is Ok {
            1nat
        } else {
            0nat
        }
    }
}

/// How many outcomes of `s` succeeded with at least one inserted key.
pub open spec fn count_changed(s: Seq<MergeOutcome>) -> nat
    decreases s.len(),
{
    if s.len() == 0 {
        0
    } else {
        count_changed(s.drop_last()) + if s.last().outcome matches Ok(c) && c > 0 {
            1nat
        } else {
            0nat
        }
    }
}

/// How many outcomes of `s` failed.
pub open spec fn count_failed(s: Seq<MergeOutcome>) -> nat
    decreases s.len(),
{
    if s.len() == 0 {
        0
    } else {
        count_failed(s.drop_last()) + if s.last().outcome is Err {
            1nat
        } else {
            0nat
        }
    }
}

/// Folds a batch of per-target outcomes into the run's totals: every target
/// is counted exactly once, as succeeded or as failed, and the changed ones
/// are the succeeded ones with at least one inserted key.
#[verifier::loop_isolation(false)]
pub fn summarize(outcomes: &Vec<MergeOutcome>) -> (r: RunSummary)
    ensures
        r.total == outcomes@.len(),
        r.succeeded == count_succeeded(outcomes@),
        r.changed == count_changed(outcomes@),
        r.failed == count_failed(outcomes@),
        r.succeeded + r.failed == r.total,
        r.changed <= r.succeeded,
{
    let total = outcomes.len();
    let mut succeeded: usize = 0;
    let mut changed: usize = 0;
    let mut failed: usize = 0;
    let mut i: usize = 0;
    proof {
        assert(outcomes@.take(0) =~= Seq::<MergeOutcome>::empty());
    }
    while i < total
        invariant
            i <= total,
            succeeded == count_succeeded(outcomes@.take(i as int)),
            changed == count_changed(outcomes@.take(i as int)),
            failed == count_failed(outcomes@.take(i as int)),
            succeeded + failed == i,
            changed <= succeeded,
        decreases total - i,
    {
        proof {
            assert(outcomes@.take(i + 1).drop_last() =~= outcomes@.take(i as int));
            assert(outcomes@.take(i + 1).last() == outcomes@[i as int]);
        }
        match &outcomes[i].outcome {
            Ok(c) => {
                succeeded = succeeded + 1;
                if *c > 0 {
                    changed = changed + 1;
                }
            },
            Err(_) => {
                failed = failed + 1;
            },
        }
        i = i + 1;
    }
    proof {
        assert(outcomes@.take(total as int) =~= outcomes@);
    }
    RunSummary { total, succeeded, changed, failed }
}

/// The trailing path component: what follows the last separator. A path
/// that ends in the separator yields the empty name here, where the
/// platform's own path parsing would reach further left for a component.
pub open spec fn file_name_of(p: Seq<char>) -> Seq<char>
    decreases p.len(),
{
    if p.len() == 0 {
        p
    } else if p.last() == '/' {
        Seq::empty()
    } else {
        file_name_of(p.drop_last()).push(p.last())
    }
}

/// The name under which a target is reported: the part of its path, read
/// as plain text, after the last `/`.
#[verifier::loop_isolation(false)]
pub fn get_file_name(path: &str) -> (r: String)
    ensures
        r@ == file_name_of(path@),
{
    let n = path.unicode_len();
    let mut start: usize = 0;
    let mut i: usize = 0;
    proof {
        assert(path@.take(0) =~= Seq::<char>::empty());
        assert(path@.subrange(0, 0) =~= file_name_of(path@.take(0)));
    }
    while i < n
        invariant
            start <= i <= n,
            n == path@.len(),
            file_name_of(path@.take(i as int)) == path@.subrange(start as int, i as int),
        decreases n - i,
    {
        let c = path.get_char(i);
        proof {
            assert(path@.take(i + 1).drop_last() =~= path@.take(i as int));
            assert(path@.take(i + 1).last() == path@[i as int]);
        }
        if c == '/' {
            start = i + 1;
            proof {
                assert(path@.subrange(start as int, start as int) =~= Seq::<char>::empty());
            }
        } else {
            proof {
                assert(path@.subrange(start as int, i + 1)
                    =~= path@.subrange(start as int, i as int).push(path@[i as int]));
            }
        }
        i = i + 1;
    }
    proof {
        assert(path@.take(n as int) =~= path@);
    }
    let tail = path.substring_char(start, n);
    tail.to_owned()
}

} // verus!
