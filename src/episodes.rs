//! Choosing which provider's parts answer an episode request: providers are
//! tried in priority order, and only one whose every part resolved is taken.
use vstd::prelude::*;

verus! {

/// Every part of an attempt resolved.
pub open spec fn complete<T>(a: Seq<Option<T>>) -> bool {
    forall|j: int| 0 <= j < a.len() ==> (#[trigger] a[j]) is Some
}

/// The first attempt whose every part resolved.
pub open spec fn first_complete<T>(attempts: Seq<Seq<Option<T>>>) -> Option<int>
    decreases attempts.len(),
{
    if attempts.len() == 0 {
        None
    } else if complete(attempts[0]) {
        Some(0)
    } else {
        match first_complete(attempts.drop_first()) {
            Some(i) => Some(i + 1),
            None => None,
        }
    }
}

pub open spec fn attempt_views<T>(attempts: Seq<Vec<Option<T>>>) -> Seq<Seq<Option<T>>> {
    attempts.map_values(|a: Vec<Option<T>>| a@)
}

/// The resolved values of a complete attempt, in order.
pub open spec fn resolved<T>(a: Seq<Option<T>>) -> Seq<T> {
    a.map_values(|o: Option<T>| o->0)
}

proof fn lemma_first_complete_is_first<T>(attempts: Seq<Seq<Option<T>>>, i: int)
    requires
        0 <= i < attempts.len(),
        complete(attempts[i]),
        forall|k: int| 0 <= k < i ==> !complete(#[trigger] attempts[k]),
    ensures
        first_complete(attempts) == Some(i),
    decreases i,
{
    if i > 0 {
        let rest = attempts.drop_first();
        assert forall|k: int| 0 <= k < i - 1 implies !complete(#[trigger] rest[k]) by {
            assert(rest[k] == attempts[k + 1]);
        }
        lemma_first_complete_is_first(rest, i - 1);
    }
}

proof fn lemma_none_complete<T>(attempts: Seq<Seq<Option<T>>>)
    requires
        forall|k: int| 0 <= k < attempts.len() ==> !complete(#[trigger] attempts[k]),
    ensures
        first_complete(attempts) is None,
    decreases attempts.len(),
{
    if attempts.len() > 0 {
        let rest = attempts.drop_first();
        assert forall|k: int| 0 <= k < rest.len() implies !complete(#[trigger] rest[k]) by {
            assert(rest[k] == attempts[k + 1]);
        }
        lemma_none_complete(rest);
    }
}

/// Whether every part of an attempt resolved.
pub fn is_complete<T>(a: &Vec<Option<T>>) -> (r: bool)
    ensures
        r == complete(a@),
{
    let mut j: usize = 0;
    while j < a.len()
        invariant
            j <= a@.len(),
            forall|k: int| 0 <= k < j ==> (#[trigger] a@[k]) is Some,
        decreases a@.len() - j,
    {
        if a[j].is_none() {
            return false;
        }
        j = j + 1;
    }
    true
}

/// The values of an attempt whose every part resolved, or `None` where any
/// part failed: never a partial set.
pub fn collect_parts<T>(a: Vec<Option<T>>) -> (r: Option<Vec<T>>)
    ensures
        match r {
            Some(v) => complete(a@) && v@ == resolved(a@),
            None => !complete(a@),
        },
{
    if !is_complete(&a) {
        return None;
    }
    let ghost orig = a@;
    let mut rest = a;
    let mut out: Vec<T> = Vec::new();
    while rest.len() > 0
        invariant
            complete(orig),
            out@.len() + rest@.len() == orig.len(),
            rest@ == orig.subrange(out@.len() as int, orig.len() as int),
            out@ == resolved(orig.subrange(0, out@.len() as int)),
        decreases rest@.len(),
    {
        let ghost n = out@.len();
        let x = rest.remove(0);
        assert(orig[n as int] == x);
        match x {
            Some(v) => {
                out.push(v);
            },
            None => {
                assert(orig[n as int] is Some);
            },
        }
        assert(rest@ =~= orig.subrange(out@.len() as int, orig.len() as int));
        assert(out@ =~= resolved(orig.subrange(0, out@.len() as int)));
    }
    assert(orig.subrange(0, orig.len() as int) =~= orig);
    Some(out)
}

/// The first attempt, in the order given, whose every part resolved, with its
/// values; `None` where every attempt has a failed part.
pub fn choose_attempt<T>(attempts: Vec<Vec<Option<T>>>) -> (r: Option<(usize, Vec<T>)>)
    ensures
        match r {
            Some((i, parts)) => first_complete(attempt_views(attempts@)) == Some(i as int)
                && parts@ == resolved(attempts@[i as int]@),
            None => first_complete(attempt_views(attempts@)) is None,
        },
{
    let ghost views = attempt_views(attempts@);
    let mut i: usize = 0;
    while i < attempts.len()
        invariant
            i <= attempts@.len(),
            views == attempt_views(attempts@),
            forall|k: int| 0 <= k < i ==> !complete(#[trigger] views[k]),
        decreases attempts@.len() - i,
    {
        assert(views[i as int] == attempts@[i as int]@);
        if is_complete(&attempts[i]) {
            proof {
                lemma_first_complete_is_first(views, i as int);
            }
            let mut attempts = attempts;
            let a = attempts.remove(i);
            let parts = collect_parts(a);
            return match parts {
                Some(p) => Some((i, p)),
                None => None,
            };
        }
        i = i + 1;
    }
    proof {
        lemma_none_complete(views);
    }
    None
}

/// Where the first provider in priority order fails on any part and the
/// second resolves every part, the answer is the second provider's parts, all
/// of them and nothing of the first.
pub proof fn lemma_fallback_not_mixed<T>(attempts: Seq<Seq<Option<T>>>)
    requires
        attempts.len() >= 2,
        !complete(attempts[0]),
        complete(attempts[1]),
    ensures
        first_complete(attempts) == Some(1int),
{
    assert(attempts.drop_first()[0] == attempts[1]);
    assert(first_complete(attempts.drop_first()) == Some(0int));
}

} // verus!
