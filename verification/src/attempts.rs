//! Trying one thing after the other until one succeeds.

use vstd::prelude::*;

verus! {

/// What follows the attempts that were made.
#[derive(Clone, Copy, Debug, PartialEq, Eq, Structural)]
pub enum Attempt {
    /// This one is to be made.
    Make(usize),
    /// This one has succeeded; no other is made.
    Succeeded(usize),
    /// All have failed.
    Failed,
}

/// The first of the outcomes that is a success.
pub open spec fn first_success(outcomes: Seq<bool>) -> Option<int>
    decreases outcomes.len(),
{
    if outcomes.len() == 0 {
        None
    } else if outcomes[0] {
        Some(0)
    } else {
        match first_success(outcomes.skip(1)) {
            Some(i) => Some(i + 1),
            None => None,
        }
    }
}

/// What it means to be the first success.
pub proof fn lemma_first_success(outcomes: Seq<bool>)
    ensures
        match first_success(outcomes) {
            Some(i) => 0 <= i < outcomes.len() && outcomes[i] && forall|j: int|
                0 <= j < i ==> !outcomes[j],
            None => forall|j: int| 0 <= j < outcomes.len() ==> !outcomes[j],
        },
    decreases outcomes.len(),
{
    if outcomes.len() > 0 && !outcomes[0] {
        let t = outcomes.skip(1);
        lemma_first_success(t);
        assert forall|j: int| 0 < j < outcomes.len() implies outcomes[j] == t[j - 1] by {}
    }
}

/// What follows the outcomes so far, of `n` attempts in their order.
pub open spec fn after_outcomes(n: int, outcomes: Seq<bool>) -> Attempt {
    match first_success(outcomes) {
        Some(i) => Attempt::Succeeded(i as usize),
        None => if outcomes.len() < n {
            Attempt::Make(outcomes.len() as usize)
        } else {
            Attempt::Failed
        },
    }
}

/// Says what follows the outcomes so far.
pub fn next_attempt(n: usize, outcomes: &Vec<bool>) -> (r: Attempt)
    ensures
        r == after_outcomes(n as int, outcomes@),
{
    proof {
        lemma_first_success(outcomes@);
    }
    let made = outcomes.len();
    for i in 0..made
        invariant
            made == outcomes@.len(),
            forall|j: int| 0 <= j < i ==> !outcomes@[j],
    {
        if outcomes[i] {
            proof {
                lemma_first_success(outcomes@);
            }
            return Attempt::Succeeded(i);
        }
    }
    if made < n {
        Attempt::Make(made)
    } else {
        Attempt::Failed
    }
}

/// What comes of `n` attempts, given which would succeed, when each is made that
/// is to be made.
pub open spec fn tried(n: int, would: Seq<bool>, outcomes: Seq<bool>) -> Attempt
    decreases n - outcomes.len(),
{
    match after_outcomes(n, outcomes) {
        Attempt::Make(i) => if outcomes.len() < n {
            tried(n, would, outcomes.push(would[outcomes.len() as int]))
        } else {
            Attempt::Failed
        },
        other => other,
    }
}

/// The first attempt that would succeed is the one that does, and if none would,
/// all have failed in the end.
pub proof fn first_possible_success_is_taken(would: Seq<bool>, k: int)
    requires
        0 <= k <= would.len() <= usize::MAX,
        forall|j: int| 0 <= j < k ==> !would[j],
    ensures
        tried(would.len() as int, would, would.take(k)) == (match first_success(would) {
            Some(i) => Attempt::Succeeded(i as usize),
            None => Attempt::Failed,
        }),
    decreases would.len() - k,
{
    let n = would.len() as int;
    let so_far = would.take(k);
    lemma_first_success(so_far);
    lemma_first_success(would);
    if k < n {
        assert(so_far.push(would[k]) =~= would.take(k + 1));
        if would[k] {
            lemma_first_success(would.take(k + 1));
            assert(would.take(k + 1)[k]);
            match first_success(would.take(k + 1)) {
                Some(i) => {
                    assert(would.take(k + 1)[i] == would[i]);
                },
                None => {},
            }
        } else {
            first_possible_success_is_taken(would, k + 1);
        }
    } else {
        assert(so_far =~= would);
    }
}

/// While none has succeeded, the attempts are made in their order, each once; when
/// all have been made in vain, they have failed. With a success nothing more is made.
pub proof fn attempts_are_made_in_order(n: int, outcomes: Seq<bool>, k: int)
    requires
        outcomes.len() <= usize::MAX,
        0 <= k <= outcomes.len(),
        forall|j: int| 0 <= j < k ==> !(#[trigger] outcomes[j]),
    ensures
        k == outcomes.len() < n ==> after_outcomes(n, outcomes) == Attempt::Make(k as usize),
        k == outcomes.len() >= n ==> after_outcomes(n, outcomes) == Attempt::Failed,
        k < outcomes.len() && outcomes[k] ==> after_outcomes(n, outcomes) == Attempt::Succeeded(
            k as usize,
        ),
{
    lemma_first_success(outcomes);
    match first_success(outcomes) {
        Some(i) => {
            if i < k {
                assert(!outcomes[i]);
            }
        },
        None => {},
    }
}

} // verus!
