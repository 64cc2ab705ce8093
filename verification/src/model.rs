//! The mathematical model of the voting ledger: the images of polls and
//! ballots as plain character sequences, the lookup and counting
//! functions over them, and the whole-state invariant that ties poll
//! counts to the ballots currently recorded.

use vstd::prelude::*;

use crate::order::{lemma_lex_lt_irrefl, lex_lt};

verus! {

/// The hard ceiling on the number of options a poll may be created with.
pub const MAX_POLL_OPTIONS: usize = 5;

/// Mathematical image of a poll: plain character sequences in place of
/// heap strings.
#[verifier::ext_equal]
pub ghost struct PollView {
    pub creator: Seq<char>,
    pub question: Seq<char>,
    pub options: Seq<(Seq<char>, u64)>,
}

/// Mathematical image of one ballot ledger entry: the composite key
/// (voter, poll id) and the chosen label.
#[verifier::ext_equal]
pub ghost struct BallotRec {
    pub voter: Seq<char>,
    pub poll_id: Seq<char>,
    pub option: Seq<char>,
}

/// No two options of one poll carry the same label.
pub open spec fn labels_unique(opts: Seq<(Seq<char>, u64)>) -> bool {
    forall|i: int, j: int|
        #![trigger opts[i], opts[j]]
        0 <= i < j < opts.len() ==> opts[i].0 != opts[j].0
}

/// Some option of the poll carries this label.
pub open spec fn has_option(opts: Seq<(Seq<char>, u64)>, label: Seq<char>) -> bool {
    exists|i: int| 0 <= i < opts.len() && (#[trigger] opts[i]).0 == label
}

/// A well-formed poll: labels unique and no more than the ceiling.
pub open spec fn poll_wf(p: PollView) -> bool {
    &&& labels_unique(p.options)
    &&& p.options.len() <= MAX_POLL_OPTIONS
}

/// First-match lookup in the poll registry's entry sequence.
pub open spec fn poll_for(polls: Seq<(Seq<char>, PollView)>, id: Seq<char>) -> Option<PollView>
    decreases polls.len(),
{
    if polls.len() == 0 {
        None
    } else if polls[0].0 == id {
        Some(polls[0].1)
    } else {
        poll_for(polls.drop_first(), id)
    }
}

/// Registry keys strictly ascending in lexicographic order.
pub open spec fn polls_sorted(polls: Seq<(Seq<char>, PollView)>) -> bool {
    forall|i: int, j: int|
        #![trigger polls[i], polls[j]]
        0 <= i < j < polls.len() ==> lex_lt(polls[i].0, polls[j].0)
}

/// First-match lookup of an account's current ballot in a poll.
pub open spec fn ballot_for(
    ballots: Seq<BallotRec>,
    voter: Seq<char>,
    poll_id: Seq<char>,
) -> Option<Seq<char>>
    decreases ballots.len(),
{
    if ballots.len() == 0 {
        None
    } else if ballots[0].voter == voter && ballots[0].poll_id == poll_id {
        Some(ballots[0].option)
    } else {
        ballot_for(ballots.drop_first(), voter, poll_id)
    }
}

/// At most one ballot per (voter, poll id) pair.
pub open spec fn ballots_unique(ballots: Seq<BallotRec>) -> bool {
    forall|i: int, j: int|
        #![trigger ballots[i], ballots[j]]
        0 <= i < j < ballots.len()
            ==> !(ballots[i].voter == ballots[j].voter && ballots[i].poll_id == ballots[j].poll_id)
}

/// How many ballots of this poll currently choose this label.
pub open spec fn count_votes(ballots: Seq<BallotRec>, poll_id: Seq<char>, label: Seq<char>) -> nat
    decreases ballots.len(),
{
    if ballots.len() == 0 {
        0
    } else {
        (if ballots[0].poll_id == poll_id && ballots[0].option == label {
            1nat
        } else {
            0nat
        }) + count_votes(ballots.drop_first(), poll_id, label)
    }
}

/// How many ballots this poll has in all.
pub open spec fn count_poll_ballots(ballots: Seq<BallotRec>, poll_id: Seq<char>) -> nat
    decreases ballots.len(),
{
    if ballots.len() == 0 {
        0
    } else {
        (if ballots[0].poll_id == poll_id {
            1nat
        } else {
            0nat
        }) + count_poll_ballots(ballots.drop_first(), poll_id)
    }
}

/// The sum of a poll's counts.
pub open spec fn sum_counts(opts: Seq<(Seq<char>, u64)>) -> int
    decreases opts.len(),
{
    if opts.len() == 0 {
        0
    } else {
        opts[0].1 + sum_counts(opts.drop_first())
    }
}

/// Every count of this poll equals the number of matching ballots.
pub open spec fn tally_ok(p: PollView, id: Seq<char>, ballots: Seq<BallotRec>) -> bool {
    forall|j: int|
        0 <= j < p.options.len()
            ==> (#[trigger] p.options[j]).1 == count_votes(ballots, id, p.options[j].0)
}

/// A ballot names an existing poll and one of its option labels.
pub open spec fn ballot_valid(polls: Seq<(Seq<char>, PollView)>, b: BallotRec) -> bool {
    &&& poll_for(polls, b.poll_id) is Some
    &&& has_option(poll_for(polls, b.poll_id).unwrap().options, b.option)
}

/// The whole-state invariant of the voting ledger.
pub open spec fn state_inv(polls: Seq<(Seq<char>, PollView)>, ballots: Seq<BallotRec>) -> bool {
    &&& polls_sorted(polls)
    &&& ballots_unique(ballots)
    &&& forall|i: int| 0 <= i < polls.len() ==> poll_wf((#[trigger] polls[i]).1)
    &&& forall|i: int|
        0 <= i < polls.len() ==> tally_ok((#[trigger] polls[i]).1, polls[i].0, ballots)
    &&& forall|k: int| 0 <= k < ballots.len() ==> ballot_valid(polls, #[trigger] ballots[k])
}

// ---------------------------------------------------------------------
// Lemmas about lookup and counting
// ---------------------------------------------------------------------

pub proof fn lemma_poll_for_concat(
    s1: Seq<(Seq<char>, PollView)>,
    s2: Seq<(Seq<char>, PollView)>,
    id: Seq<char>,
)
    ensures
        poll_for(s1 + s2, id) == if poll_for(s1, id) is Some {
            poll_for(s1, id)
        } else {
            poll_for(s2, id)
        },
    decreases s1.len(),
{
    if s1.len() == 0 {
        assert(s1 + s2 =~= s2);
    } else {
        assert((s1 + s2).drop_first() =~= s1.drop_first() + s2);
        lemma_poll_for_concat(s1.drop_first(), s2, id);
    }
}

pub proof fn lemma_ballot_for_concat(
    s1: Seq<BallotRec>,
    s2: Seq<BallotRec>,
    voter: Seq<char>,
    poll_id: Seq<char>,
)
    ensures
        ballot_for(s1 + s2, voter, poll_id) == if ballot_for(s1, voter, poll_id) is Some {
            ballot_for(s1, voter, poll_id)
        } else {
            ballot_for(s2, voter, poll_id)
        },
    decreases s1.len(),
{
    if s1.len() == 0 {
        assert(s1 + s2 =~= s2);
    } else {
        assert((s1 + s2).drop_first() =~= s1.drop_first() + s2);
        lemma_ballot_for_concat(s1.drop_first(), s2, voter, poll_id);
    }
}

pub proof fn lemma_count_votes_concat(
    s1: Seq<BallotRec>,
    s2: Seq<BallotRec>,
    poll_id: Seq<char>,
    label: Seq<char>,
)
    ensures
        count_votes(s1 + s2, poll_id, label) == count_votes(s1, poll_id, label) + count_votes(
            s2,
            poll_id,
            label,
        ),
    decreases s1.len(),
{
    if s1.len() == 0 {
        assert(s1 + s2 =~= s2);
    } else {
        assert((s1 + s2).drop_first() =~= s1.drop_first() + s2);
        lemma_count_votes_concat(s1.drop_first(), s2, poll_id, label);
    }
}

pub proof fn lemma_count_poll_concat(s1: Seq<BallotRec>, s2: Seq<BallotRec>, poll_id: Seq<char>)
    ensures
        count_poll_ballots(s1 + s2, poll_id) == count_poll_ballots(s1, poll_id)
            + count_poll_ballots(s2, poll_id),
    decreases s1.len(),
{
    if s1.len() == 0 {
        assert(s1 + s2 =~= s2);
    } else {
        assert((s1 + s2).drop_first() =~= s1.drop_first() + s2);
        lemma_count_poll_concat(s1.drop_first(), s2, poll_id);
    }
}

/// A count never exceeds the number of ballots.
pub proof fn lemma_count_le_len(ballots: Seq<BallotRec>, poll_id: Seq<char>, label: Seq<char>)
    ensures
        count_votes(ballots, poll_id, label) <= ballots.len(),
    decreases ballots.len(),
{
    if ballots.len() > 0 {
        lemma_count_le_len(ballots.drop_first(), poll_id, label);
    }
}

/// A recorded ballot contributes to its option's count.
pub proof fn lemma_ballot_for_count(ballots: Seq<BallotRec>, voter: Seq<char>, poll_id: Seq<char>)
    requires
        ballot_for(ballots, voter, poll_id) is Some,
    ensures
        count_votes(ballots, poll_id, ballot_for(ballots, voter, poll_id).unwrap()) >= 1,
    decreases ballots.len(),
{
    if !(ballots[0].voter == voter && ballots[0].poll_id == poll_id) {
        lemma_ballot_for_count(ballots.drop_first(), voter, poll_id);
    }
}

/// A count of one label never exceeds the poll's whole ballot count.
pub proof fn lemma_count_votes_le_poll(ballots: Seq<BallotRec>, poll_id: Seq<char>, label: Seq<char>)
    ensures
        count_votes(ballots, poll_id, label) <= count_poll_ballots(ballots, poll_id),
    decreases ballots.len(),
{
    if ballots.len() > 0 {
        lemma_count_votes_le_poll(ballots.drop_first(), poll_id, label);
    }
}

/// An entry of a poll contributes to that poll's ballot count.
pub proof fn lemma_count_poll_pos(ballots: Seq<BallotRec>, k: int)
    requires
        0 <= k < ballots.len(),
    ensures
        count_poll_ballots(ballots, ballots[k].poll_id) >= 1,
    decreases ballots.len(),
{
    if k > 0 {
        lemma_count_poll_pos(ballots.drop_first(), k - 1);
    }
}

/// A successful lookup comes from some registry entry.
pub proof fn lemma_poll_for_exists(polls: Seq<(Seq<char>, PollView)>, id: Seq<char>)
    requires
        poll_for(polls, id) is Some,
    ensures
        exists|k: int|
            0 <= k < polls.len() && #[trigger] polls[k] == (id, poll_for(polls, id).unwrap()),
    decreases polls.len(),
{
    if polls[0].0 == id {
        assert(polls[0] == (id, poll_for(polls, id).unwrap()));
    } else {
        lemma_poll_for_exists(polls.drop_first(), id);
        let k = choose|k: int|
            0 <= k < polls.drop_first().len() && #[trigger] polls.drop_first()[k] == (
                id,
                poll_for(polls.drop_first(), id).unwrap(),
            );
        assert(polls[k + 1] == (id, poll_for(polls, id).unwrap()));
    }
}

/// In a sorted registry, lookup of an entry's own key finds that entry.
pub proof fn lemma_poll_for_index(polls: Seq<(Seq<char>, PollView)>, k: int)
    requires
        polls_sorted(polls),
        0 <= k < polls.len(),
    ensures
        poll_for(polls, polls[k].0) == Some(polls[k].1),
    decreases polls.len(),
{
    if k > 0 {
        if polls[0].0 == polls[k].0 {
            lemma_lex_lt_irrefl(polls[0].0);
            assert(false);
        }
        lemma_poll_for_index(polls.drop_first(), k - 1);
    }
}

/// In a duplicate-free ledger, lookup of an entry's own key finds that
/// entry.
pub proof fn lemma_ballot_for_index(ballots: Seq<BallotRec>, k: int)
    requires
        ballots_unique(ballots),
        0 <= k < ballots.len(),
    ensures
        ballot_for(ballots, ballots[k].voter, ballots[k].poll_id) == Some(ballots[k].option),
    decreases ballots.len(),
{
    if k > 0 {
        lemma_ballot_for_index(ballots.drop_first(), k - 1);
    }
}

/// A key that matches no entry looks up to nothing.
pub proof fn lemma_ballot_for_none(ballots: Seq<BallotRec>, voter: Seq<char>, poll_id: Seq<char>)
    requires
        forall|k: int|
            0 <= k < ballots.len() ==> !((#[trigger] ballots[k]).voter == voter
                && ballots[k].poll_id == poll_id),
    ensures
        ballot_for(ballots, voter, poll_id) is None,
    decreases ballots.len(),
{
    if ballots.len() > 0 {
        assert forall|k: int|
            0 <= k < ballots.drop_first().len() implies !((#[trigger] ballots.drop_first()[
        k]).voter == voter && ballots.drop_first()[k].poll_id == poll_id) by {
            assert(ballots.drop_first()[k] == ballots[k + 1]);
        }
        lemma_ballot_for_none(ballots.drop_first(), voter, poll_id);
    }
}

/// A poll id that matches no registry key looks up to nothing.
pub proof fn lemma_poll_for_none(polls: Seq<(Seq<char>, PollView)>, id: Seq<char>)
    requires
        forall|k: int| 0 <= k < polls.len() ==> (#[trigger] polls[k]).0 != id,
    ensures
        poll_for(polls, id) is None,
    decreases polls.len(),
{
    if polls.len() > 0 {
        assert forall|k: int|
            0 <= k < polls.drop_first().len() implies (#[trigger] polls.drop_first()[k]).0
                != id by {
            assert(polls.drop_first()[k] == polls[k + 1]);
        }
        lemma_poll_for_none(polls.drop_first(), id);
    }
}

pub proof fn lemma_count_votes_singleton(r: BallotRec, q: Seq<char>, l: Seq<char>)
    ensures
        count_votes(seq![r], q, l) == if r.poll_id == q && r.option == l {
            1nat
        } else {
            0nat
        },
{
    assert(seq![r].drop_first() =~= Seq::<BallotRec>::empty());
    assert(count_votes(Seq::<BallotRec>::empty(), q, l) == 0);
}

pub proof fn lemma_count_poll_singleton(r: BallotRec, q: Seq<char>)
    ensures
        count_poll_ballots(seq![r], q) == if r.poll_id == q {
            1nat
        } else {
            0nat
        },
{
    assert(seq![r].drop_first() =~= Seq::<BallotRec>::empty());
    assert(count_poll_ballots(Seq::<BallotRec>::empty(), q) == 0);
}

pub proof fn lemma_ballot_for_singleton(r: BallotRec, v: Seq<char>, p: Seq<char>)
    ensures
        ballot_for(seq![r], v, p) == if r.voter == v && r.poll_id == p {
            Some(r.option)
        } else {
            None::<Seq<char>>
        },
{
    assert(seq![r].drop_first() =~= Seq::<BallotRec>::empty());
    assert(ballot_for(Seq::<BallotRec>::empty(), v, p) is None);
}

pub proof fn lemma_poll_for_singleton(e: (Seq<char>, PollView), id: Seq<char>)
    ensures
        poll_for(seq![e], id) == if e.0 == id {
            Some(e.1)
        } else {
            None::<PollView>
        },
{
    assert(seq![e].drop_first() =~= Seq::<(Seq<char>, PollView)>::empty());
    assert(poll_for(Seq::<(Seq<char>, PollView)>::empty(), id) is None);
}

/// What replacing the ledger entry at `k` by a ballot under the same key
/// does: that key now maps to the new label, every other key is
/// untouched, and each count moves by exactly the contribution of the
/// replaced and the new entry.
pub proof fn lemma_put_update(s: Seq<BallotRec>, k: int, rec: BallotRec)
    requires
        ballots_unique(s),
        0 <= k < s.len(),
        s[k].voter == rec.voter,
        s[k].poll_id == rec.poll_id,
    ensures
        ballots_unique(s.update(k, rec)),
        ballot_for(s, rec.voter, rec.poll_id) == Some(s[k].option),
        ballot_for(s.update(k, rec), rec.voter, rec.poll_id) == Some(rec.option),
        forall|v2: Seq<char>, p2: Seq<char>|
            !(v2 == rec.voter && p2 == rec.poll_id) ==> ballot_for(s.update(k, rec), v2, p2)
                == ballot_for(s, v2, p2),
        forall|q: Seq<char>, l: Seq<char>|
            #![trigger count_votes(s.update(k, rec), q, l)]
            count_votes(s.update(k, rec), q, l) + (if q == rec.poll_id && s[k].option == l {
                1int
            } else {
                0int
            }) == count_votes(s, q, l) + (if q == rec.poll_id && l == rec.option {
                1int
            } else {
                0int
            }),
        forall|q: Seq<char>|
            #![trigger count_poll_ballots(s.update(k, rec), q)]
            count_poll_ballots(s.update(k, rec), q) == count_poll_ballots(s, q),
        forall|k2: int|
            0 <= k2 < s.update(k, rec).len() ==> (#[trigger] s.update(k, rec)[k2]) == rec
                || s.contains(s.update(k, rec)[k2]),
{
    let t = s.update(k, rec);
    let pre = s.subrange(0, k);
    let mid_old = seq![s[k]];
    let mid_new = seq![rec];
    let post = s.subrange(k + 1, s.len() as int);
    assert(s =~= pre + (mid_old + post));
    assert(t =~= pre + (mid_new + post));
    lemma_ballot_for_index(s, k);

    // uniqueness: keys are unchanged position for position
    assert forall|i: int, j: int|
        #![trigger t[i], t[j]]
        0 <= i < j < t.len() implies !(t[i].voter == t[j].voter && t[i].poll_id
        == t[j].poll_id) by {
        assert(s[i].voter == t[i].voter && s[i].poll_id == t[i].poll_id);
        assert(s[j].voter == t[j].voter && s[j].poll_id == t[j].poll_id);
    }

    // the prefix holds no entry under the put key
    assert forall|m: int| 0 <= m < pre.len() implies !((#[trigger] pre[m]).voter == rec.voter
        && pre[m].poll_id == rec.poll_id) by {
        assert(pre[m] == s[m]);
    }
    lemma_ballot_for_none(pre, rec.voter, rec.poll_id);

    assert forall|v2: Seq<char>, p2: Seq<char>| true implies #[trigger] ballot_for(t, v2, p2)
        == if v2 == rec.voter && p2 == rec.poll_id {
        Some(rec.option)
    } else {
        ballot_for(s, v2, p2)
    } by {
        lemma_ballot_for_concat(pre, mid_old + post, v2, p2);
        lemma_ballot_for_concat(mid_old, post, v2, p2);
        lemma_ballot_for_concat(pre, mid_new + post, v2, p2);
        lemma_ballot_for_concat(mid_new, post, v2, p2);
        lemma_ballot_for_singleton(s[k], v2, p2);
        lemma_ballot_for_singleton(rec, v2, p2);
    }

    assert forall|q: Seq<char>, l: Seq<char>| true implies #[trigger] count_votes(t, q, l) + (if q
        == rec.poll_id && s[k].option == l {
        1int
    } else {
        0int
    }) == count_votes(s, q, l) + (if q == rec.poll_id && l == rec.option {
        1int
    } else {
        0int
    }) by {
        lemma_count_votes_concat(pre, mid_old + post, q, l);
        lemma_count_votes_concat(mid_old, post, q, l);
        lemma_count_votes_concat(pre, mid_new + post, q, l);
        lemma_count_votes_concat(mid_new, post, q, l);
        lemma_count_votes_singleton(s[k], q, l);
        lemma_count_votes_singleton(rec, q, l);
    }

    assert forall|q: Seq<char>| true implies #[trigger] count_poll_ballots(t, q)
        == count_poll_ballots(s, q) by {
        lemma_count_poll_concat(pre, mid_old + post, q);
        lemma_count_poll_concat(mid_old, post, q);
        lemma_count_poll_concat(pre, mid_new + post, q);
        lemma_count_poll_concat(mid_new, post, q);
        lemma_count_poll_singleton(s[k], q);
        lemma_count_poll_singleton(rec, q);
    }

    assert forall|k2: int| 0 <= k2 < t.len() implies (#[trigger] t[k2]) == rec || s.contains(
        t[k2],
    ) by {
        if k2 != k {
            assert(t[k2] == s[k2]);
        }
    }
}

/// What appending a ballot under a fresh key does: that key now maps to
/// the new label, every other key is untouched, and only the new entry's
/// poll and label gain a count.
pub proof fn lemma_put_push(s: Seq<BallotRec>, rec: BallotRec)
    requires
        ballots_unique(s),
        forall|k: int|
            0 <= k < s.len() ==> !((#[trigger] s[k]).voter == rec.voter && s[k].poll_id
                == rec.poll_id),
    ensures
        ballots_unique(s.push(rec)),
        ballot_for(s, rec.voter, rec.poll_id) is None,
        ballot_for(s.push(rec), rec.voter, rec.poll_id) == Some(rec.option),
        forall|v2: Seq<char>, p2: Seq<char>|
            !(v2 == rec.voter && p2 == rec.poll_id) ==> ballot_for(s.push(rec), v2, p2)
                == ballot_for(s, v2, p2),
        forall|q: Seq<char>, l: Seq<char>|
            #![trigger count_votes(s.push(rec), q, l)]
            count_votes(s.push(rec), q, l) == count_votes(s, q, l) + (if q == rec.poll_id && l
                == rec.option {
                1int
            } else {
                0int
            }),
        forall|q: Seq<char>|
            #![trigger count_poll_ballots(s.push(rec), q)]
            count_poll_ballots(s.push(rec), q) == count_poll_ballots(s, q) + (if q == rec.poll_id {
                1int
            } else {
                0int
            }),
        forall|k2: int|
            0 <= k2 < s.push(rec).len() ==> (#[trigger] s.push(rec)[k2]) == rec || s.contains(
                s.push(rec)[k2],
            ),
{
    let t = s.push(rec);
    let mid = seq![rec];
    assert(t =~= s + mid);
    lemma_ballot_for_none(s, rec.voter, rec.poll_id);

    assert forall|i: int, j: int|
        #![trigger t[i], t[j]]
        0 <= i < j < t.len() implies !(t[i].voter == t[j].voter && t[i].poll_id
        == t[j].poll_id) by {
        if j < s.len() {
            assert(t[i] == s[i] && t[j] == s[j]);
        } else {
            assert(t[i] == s[i] && t[j] == rec);
        }
    }

    assert forall|v2: Seq<char>, p2: Seq<char>| true implies #[trigger] ballot_for(t, v2, p2)
        == if v2 == rec.voter && p2 == rec.poll_id {
        Some(rec.option)
    } else {
        ballot_for(s, v2, p2)
    } by {
        lemma_ballot_for_concat(s, mid, v2, p2);
        lemma_ballot_for_singleton(rec, v2, p2);
    }

    assert forall|q: Seq<char>, l: Seq<char>| true implies #[trigger] count_votes(t, q, l)
        == count_votes(s, q, l) + (if q == rec.poll_id && l == rec.option {
        1int
    } else {
        0int
    }) by {
        lemma_count_votes_concat(s, mid, q, l);
        lemma_count_votes_singleton(rec, q, l);
    }

    assert forall|q: Seq<char>| true implies #[trigger] count_poll_ballots(t, q)
        == count_poll_ballots(s, q) + (if q == rec.poll_id {
        1int
    } else {
        0int
    }) by {
        lemma_count_poll_concat(s, mid, q);
        lemma_count_poll_singleton(rec, q);
    }

    assert forall|k2: int| 0 <= k2 < t.len() implies (#[trigger] t[k2]) == rec || s.contains(
        t[k2],
    ) by {
        if k2 < s.len() {
            assert(t[k2] == s[k2]);
        }
    }
}

/// What replacing the registry entry at `k` by a poll under the same id
/// does: that id now maps to the new poll, every other id is untouched,
/// and the order of entries is undisturbed.
pub proof fn lemma_save_update(s: Seq<(Seq<char>, PollView)>, k: int, id: Seq<char>, p: PollView)
    requires
        polls_sorted(s),
        0 <= k < s.len(),
        s[k].0 == id,
    ensures
        polls_sorted(s.update(k, (id, p))),
        poll_for(s, id) == Some(s[k].1),
        poll_for(s.update(k, (id, p)), id) == Some(p),
        forall|id2: Seq<char>|
            id2 != id ==> poll_for(s.update(k, (id, p)), id2) == poll_for(s, id2),
        forall|k2: int|
            0 <= k2 < s.update(k, (id, p)).len() ==> {
                let e = #[trigger] s.update(k, (id, p))[k2];
                (e.0 == id && e.1 == p) || (e.0 != id && s.contains(e))
            },
{
    let t = s.update(k, (id, p));
    let pre = s.subrange(0, k);
    let mid_old = seq![s[k]];
    let mid_new = seq![(id, p)];
    let post = s.subrange(k + 1, s.len() as int);
    assert(s =~= pre + (mid_old + post));
    assert(t =~= pre + (mid_new + post));
    lemma_poll_for_index(s, k);

    assert forall|i: int, j: int|
        #![trigger t[i], t[j]]
        0 <= i < j < t.len() implies lex_lt(t[i].0, t[j].0) by {
        assert(s[i].0 == t[i].0);
        assert(s[j].0 == t[j].0);
    }
    lemma_poll_for_index(t, k);

    // entries at other positions carry other ids
    assert forall|k2: int| 0 <= k2 < t.len() && k2 != k implies (#[trigger] t[k2]).0 != id by {
        if t[k2].0 == id {
            if k2 < k {
                assert(lex_lt(s[k2].0, s[k].0));
            } else {
                assert(lex_lt(s[k].0, s[k2].0));
            }
            lemma_lex_lt_irrefl(id);
        }
    }

    assert forall|m: int| 0 <= m < pre.len() implies (#[trigger] pre[m]).0 != id by {
        assert(pre[m] == s[m]);
        assert(t[m] == s[m]);
    }
    lemma_poll_for_none(pre, id);

    assert forall|id2: Seq<char>| id2 != id implies #[trigger] poll_for(t, id2) == poll_for(
        s,
        id2,
    ) by {
        lemma_poll_for_concat(pre, mid_old + post, id2);
        lemma_poll_for_concat(mid_old, post, id2);
        lemma_poll_for_concat(pre, mid_new + post, id2);
        lemma_poll_for_concat(mid_new, post, id2);
        lemma_poll_for_singleton(s[k], id2);
        lemma_poll_for_singleton((id, p), id2);
    }

    assert forall|k2: int| 0 <= k2 < t.len() implies {
        let e = #[trigger] t[k2];
        (e.0 == id && e.1 == p) || (e.0 != id && s.contains(e))
    } by {
        if k2 != k {
            assert(t[k2] == s[k2]);
        }
    }
}

/// What inserting a poll under a fresh id at its sorted position does:
/// that id now maps to the poll, every other id is untouched, and the
/// entries stay strictly ascending.
pub proof fn lemma_save_insert(s: Seq<(Seq<char>, PollView)>, k: int, id: Seq<char>, p: PollView)
    requires
        polls_sorted(s),
        0 <= k <= s.len(),
        forall|m: int| 0 <= m < k ==> lex_lt((#[trigger] s[m]).0, id),
        forall|m: int| k <= m < s.len() ==> lex_lt(id, (#[trigger] s[m]).0),
    ensures
        polls_sorted(s.insert(k, (id, p))),
        poll_for(s, id) is None,
        poll_for(s.insert(k, (id, p)), id) == Some(p),
        forall|id2: Seq<char>|
            id2 != id ==> poll_for(s.insert(k, (id, p)), id2) == poll_for(s, id2),
        forall|k2: int|
            0 <= k2 < s.insert(k, (id, p)).len() ==> {
                let e = #[trigger] s.insert(k, (id, p))[k2];
                (e.0 == id && e.1 == p) || (e.0 != id && s.contains(e))
            },
{
    let t = s.insert(k, (id, p));
    let pre = s.subrange(0, k);
    let mid = seq![(id, p)];
    let post = s.subrange(k, s.len() as int);
    assert(s =~= pre + post);
    assert(t =~= pre + (mid + post));

    assert forall|m: int| 0 <= m < s.len() implies (#[trigger] s[m]).0 != id by {
        if s[m].0 == id {
            lemma_lex_lt_irrefl(id);
        }
    }
    lemma_poll_for_none(s, id);

    assert forall|i: int, j: int|
        #![trigger t[i], t[j]]
        0 <= i < j < t.len() implies lex_lt(t[i].0, t[j].0) by {
        if j < k {
            assert(t[i] == s[i] && t[j] == s[j]);
        } else if j == k {
            assert(t[i] == s[i]);
        } else if i < k {
            assert(t[i] == s[i] && t[j] == s[j - 1]);
        } else if i == k {
            assert(t[j] == s[j - 1]);
        } else {
            assert(t[i] == s[i - 1] && t[j] == s[j - 1]);
        }
    }
    lemma_poll_for_index(t, k);

    assert forall|m: int| 0 <= m < pre.len() implies (#[trigger] pre[m]).0 != id by {
        assert(pre[m] == s[m]);
    }
    lemma_poll_for_none(pre, id);

    assert forall|id2: Seq<char>| id2 != id implies #[trigger] poll_for(t, id2) == poll_for(
        s,
        id2,
    ) by {
        lemma_poll_for_concat(pre, post, id2);
        lemma_poll_for_concat(pre, mid + post, id2);
        lemma_poll_for_concat(mid, post, id2);
        lemma_poll_for_singleton((id, p), id2);
    }

    assert forall|k2: int| 0 <= k2 < t.len() implies {
        let e = #[trigger] t[k2];
        (e.0 == id && e.1 == p) || (e.0 != id && s.contains(e))
    } by {
        if k2 < k {
            assert(t[k2] == s[k2]);
        } else if k2 > k {
            assert(t[k2] == s[k2 - 1]);
        }
    }
}

} // verus!
