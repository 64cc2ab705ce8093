//! The ledger's laws, proved once and for all states that satisfy the
//! whole-state invariant: the sum of a poll's counts equals the number
//! of its ballots, each count equals the number of matching ballots, and
//! a revote never changes a poll's total.

use vstd::prelude::*;

use crate::contract::voted;
use crate::model::{
    ballot_for, ballot_valid, count_poll_ballots, count_votes, has_option, labels_unique,
    lemma_poll_for_exists, poll_for, poll_wf, state_inv, sum_counts, tally_ok, BallotRec, PollView,
};

verus! {

/// The per-option ballot counts of one poll, summed by walking the
/// option list against the ledger.
spec fn sum_votes(opts: Seq<(Seq<char>, u64)>, ballots: Seq<BallotRec>, id: Seq<char>) -> nat
    decreases opts.len(),
{
    if opts.len() == 0 {
        0
    } else {
        count_votes(ballots, id, opts[0].0) + sum_votes(opts.drop_first(), ballots, id)
    }
}

/// How many options carry this label.
spec fn label_occurrences(opts: Seq<(Seq<char>, u64)>, l: Seq<char>) -> nat
    decreases opts.len(),
{
    if opts.len() == 0 {
        0
    } else {
        (if opts[0].0 == l {
            1nat
        } else {
            0nat
        }) + label_occurrences(opts.drop_first(), l)
    }
}

proof fn lemma_sum_counts_as_votes(
    opts: Seq<(Seq<char>, u64)>,
    ballots: Seq<BallotRec>,
    id: Seq<char>,
)
    requires
        forall|j: int|
            0 <= j < opts.len() ==> (#[trigger] opts[j]).1 == count_votes(ballots, id, opts[j].0),
    ensures
        sum_counts(opts) == sum_votes(opts, ballots, id),
    decreases opts.len(),
{
    if opts.len() > 0 {
        assert forall|j: int|
            0 <= j < opts.drop_first().len() implies (#[trigger] opts.drop_first()[j]).1
            == count_votes(ballots, id, opts.drop_first()[j].0) by {
            assert(opts.drop_first()[j] == opts[j + 1]);
        }
        lemma_sum_counts_as_votes(opts.drop_first(), ballots, id);
    }
}

proof fn lemma_sum_votes_no_ballots(
    opts: Seq<(Seq<char>, u64)>,
    ballots: Seq<BallotRec>,
    id: Seq<char>,
)
    requires
        ballots.len() == 0,
    ensures
        sum_votes(opts, ballots, id) == 0,
    decreases opts.len(),
{
    if opts.len() > 0 {
        lemma_sum_votes_no_ballots(opts.drop_first(), ballots, id);
    }
}

proof fn lemma_sum_votes_step(opts: Seq<(Seq<char>, u64)>, ballots: Seq<BallotRec>, id: Seq<char>)
    requires
        ballots.len() > 0,
    ensures
        sum_votes(opts, ballots, id) == sum_votes(opts, ballots.drop_first(), id) + (if ballots[0]
            .poll_id == id {
            label_occurrences(opts, ballots[0].option)
        } else {
            0nat
        }),
    decreases opts.len(),
{
    if opts.len() > 0 {
        lemma_sum_votes_step(opts.drop_first(), ballots, id);
    }
}

proof fn lemma_occurrences_zero(opts: Seq<(Seq<char>, u64)>, l: Seq<char>)
    requires
        forall|j: int| 0 <= j < opts.len() ==> (#[trigger] opts[j]).0 != l,
    ensures
        label_occurrences(opts, l) == 0,
    decreases opts.len(),
{
    if opts.len() > 0 {
        assert forall|j: int|
            0 <= j < opts.drop_first().len() implies (#[trigger] opts.drop_first()[j]).0 != l by {
            assert(opts.drop_first()[j] == opts[j + 1]);
        }
        lemma_occurrences_zero(opts.drop_first(), l);
    }
}

proof fn lemma_occurrences_unique(opts: Seq<(Seq<char>, u64)>, l: Seq<char>)
    requires
        labels_unique(opts),
    ensures
        label_occurrences(opts, l) == if has_option(opts, l) {
            1nat
        } else {
            0nat
        },
    decreases opts.len(),
{
    if opts.len() > 0 {
        let rest = opts.drop_first();
        assert forall|i: int, j: int|
            #![trigger rest[i], rest[j]]
            0 <= i < j < rest.len() implies rest[i].0 != rest[j].0 by {
            assert(rest[i] == opts[i + 1]);
            assert(rest[j] == opts[j + 1]);
        }
        if opts[0].0 == l {
            assert forall|j: int| 0 <= j < rest.len() implies (#[trigger] rest[j]).0 != l by {
                assert(rest[j] == opts[j + 1]);
            }
            lemma_occurrences_zero(rest, l);
            assert(has_option(opts, l));
        } else {
            lemma_occurrences_unique(rest, l);
            if has_option(opts, l) {
                let w = choose|w: int| 0 <= w < opts.len() && (#[trigger] opts[w]).0 == l;
                assert(rest[w - 1] == opts[w]);
                assert(has_option(rest, l));
            }
            if has_option(rest, l) {
                let w = choose|w: int| 0 <= w < rest.len() && (#[trigger] rest[w]).0 == l;
                assert(opts[w + 1] == rest[w]);
                assert(has_option(opts, l));
            }
        }
    }
}

proof fn lemma_sum_votes_counts_poll(
    opts: Seq<(Seq<char>, u64)>,
    ballots: Seq<BallotRec>,
    id: Seq<char>,
)
    requires
        labels_unique(opts),
        forall|k: int|
            0 <= k < ballots.len() && (#[trigger] ballots[k]).poll_id == id ==> has_option(
                opts,
                ballots[k].option,
            ),
    ensures
        sum_votes(opts, ballots, id) == count_poll_ballots(ballots, id),
    decreases ballots.len(),
{
    if ballots.len() == 0 {
        lemma_sum_votes_no_ballots(opts, ballots, id);
    } else {
        let rest = ballots.drop_first();
        assert forall|k: int|
            0 <= k < rest.len() && (#[trigger] rest[k]).poll_id == id implies has_option(
            opts,
            rest[k].option,
        ) by {
            assert(rest[k] == ballots[k + 1]);
        }
        lemma_sum_votes_counts_poll(opts, rest, id);
        lemma_sum_votes_step(opts, ballots, id);
        if ballots[0].poll_id == id {
            lemma_occurrences_unique(opts, ballots[0].option);
        }
    }
}

/// For every poll, at every well-formed state, the sum of its option
/// counts equals the number of ballots currently recorded for it.
pub proof fn lemma_tally_sum(
    polls: Seq<(Seq<char>, PollView)>,
    ballots: Seq<BallotRec>,
    id: Seq<char>,
)
    requires
        state_inv(polls, ballots),
        poll_for(polls, id) is Some,
    ensures
        sum_counts(poll_for(polls, id).unwrap().options) == count_poll_ballots(ballots, id),
{
    let p = poll_for(polls, id).unwrap();
    lemma_poll_for_exists(polls, id);
    let k0 = choose|k0: int| 0 <= k0 < polls.len() && #[trigger] polls[k0] == (id, p);
    assert(tally_ok(p, id, ballots));
    assert(poll_wf(p));
    assert forall|k: int|
        0 <= k < ballots.len() && (#[trigger] ballots[k]).poll_id == id implies has_option(
        p.options,
        ballots[k].option,
    ) by {
        assert(ballot_valid(polls, ballots[k]));
    }
    lemma_sum_counts_as_votes(p.options, ballots, id);
    lemma_sum_votes_counts_poll(p.options, ballots, id);
}

/// For every poll and every one of its options, at every well-formed
/// state, the count equals the number of ballots with that poll id and
/// that label.
pub proof fn lemma_option_count(
    polls: Seq<(Seq<char>, PollView)>,
    ballots: Seq<BallotRec>,
    id: Seq<char>,
    j: int,
)
    requires
        state_inv(polls, ballots),
        poll_for(polls, id) is Some,
        0 <= j < poll_for(polls, id).unwrap().options.len(),
    ensures
        poll_for(polls, id).unwrap().options[j].1 == count_votes(
            ballots,
            id,
            poll_for(polls, id).unwrap().options[j].0,
        ),
{
    let p = poll_for(polls, id).unwrap();
    lemma_poll_for_exists(polls, id);
    let k0 = choose|k0: int| 0 <= k0 < polls.len() && #[trigger] polls[k0] == (id, p);
    assert(tally_ok(p, id, ballots));
}

/// A revote never changes a poll's total: across a successful vote by
/// an account that already held a ballot in the poll, the sum of the
/// poll's counts is unchanged.
pub proof fn lemma_revote_keeps_sum(
    pb: Seq<(Seq<char>, PollView)>,
    pb2: Seq<(Seq<char>, PollView)>,
    bb: Seq<BallotRec>,
    bb2: Seq<BallotRec>,
    voter: Seq<char>,
    id: Seq<char>,
    choice: Seq<char>,
)
    requires
        state_inv(pb, bb),
        state_inv(pb2, bb2),
        voted(pb, pb2, bb, bb2, voter, id, choice),
        ballot_for(bb, voter, id) is Some,
    ensures
        sum_counts(poll_for(pb2, id).unwrap().options) == sum_counts(
            poll_for(pb, id).unwrap().options,
        ),
{
    lemma_tally_sum(pb, bb, id);
    lemma_tally_sum(pb2, bb2, id);
    assert(count_poll_ballots(bb2, id) == count_poll_ballots(bb, id));
}

} // verus!
