//! The operations of the voting ledger: instantiation, poll creation,
//! vote casting (the coordinator), and the read-only query surface.
//!
//! Vote casting validates the chosen option against the poll before it
//! mutates anything, so a failed vote leaves both aggregates untouched
//! and the tally invariant holds at every step.

use vstd::prelude::*;

use crate::error::ContractError;
use crate::model::{
    ballot_for, ballot_valid, ballots_unique, count_poll_ballots, count_votes, has_option,
    labels_unique, lemma_ballot_for_count, lemma_count_le_len, lemma_count_poll_pos,
    lemma_count_votes_le_poll, lemma_poll_for_exists, poll_for, poll_wf, polls_sorted, state_inv,
    tally_ok, BallotRec, PollView, MAX_POLL_OPTIONS,
};
use crate::msg::{
    AllPollsResponse, Attribute, ExecuteMsg, InstantiateMsg, PollResponse, QueryMsg,
    QueryResponse, Response, VoteResponse,
};
use crate::state::{opts_view, Ballot, Config, Poll, VotingState};

verus! {

/// The views of a list of labels.
pub open spec fn labels_of(options: Seq<String>) -> Seq<Seq<char>> {
    Seq::new(options.len(), |i: int| options[i]@)
}

/// Pairwise distinct labels.
pub open spec fn distinct_labels(labels: Seq<Seq<char>>) -> bool {
    forall|i: int, j: int|
        #![trigger labels[i], labels[j]]
        0 <= i < j < labels.len() ==> labels[i] != labels[j]
}

/// What creating a poll does to the registry: the id now maps to a
/// fresh poll with the given labels and all counts zero, every other id
/// is untouched, and the registry stays sorted.
pub open spec fn created(
    pre: Seq<(Seq<char>, PollView)>,
    post: Seq<(Seq<char>, PollView)>,
    id: Seq<char>,
    creator: Seq<char>,
    question: Seq<char>,
    labels: Seq<Seq<char>>,
) -> bool {
    &&& polls_sorted(post)
    &&& poll_for(post, id) is Some
    &&& ({
        let p = poll_for(post, id).unwrap();
        &&& p.creator == creator
        &&& p.question == question
        &&& p.options.len() == labels.len()
        &&& forall|j: int| 0 <= j < labels.len() ==> #[trigger] p.options[j] == (labels[j], 0u64)
    })
    &&& forall|id2: Seq<char>| id2 != id ==> #[trigger] poll_for(post, id2) == poll_for(pre, id2)
    &&& post.len() == pre.len() + (if poll_for(pre, id) is Some {
        0int
    } else {
        1int
    })
}

/// Everything poll creation promises, relating the states before and
/// after the call to its result.
pub open spec fn create_poll_post(
    pre: VotingState,
    post: VotingState,
    r: Result<Response, ContractError>,
    creator: Seq<char>,
    id: Seq<char>,
    question: Seq<char>,
    labels: Seq<Seq<char>>,
) -> bool {
    &&& post.ballots@ == pre.ballots@
    &&& polls_sorted(post.polls@)
    &&& labels.len() > MAX_POLL_OPTIONS ==> (r matches Err(e) && e
        == ContractError::TooManyOptions) && post.polls@ == pre.polls@
    &&& labels.len() <= MAX_POLL_OPTIONS ==> (r matches Ok(resp) && resp.attributes@.len() == 0)
        && created(pre.polls@, post.polls@, id, creator, question, labels)
    &&& pre.wf() && count_poll_ballots(pre.ballots@, id) == 0 ==> post.wf()
}

/// Sets up the configuration: the given admin if one is named, else the
/// sender, and acknowledges with the two attributes the host expects.
pub fn instantiate(msg: InstantiateMsg, sender: String) -> (r: (Config, Response))
    ensures
        r.0.admin@ == (match msg.admin {
            Some(a) => a@,
            None => sender@,
        }),
        r.1.attributes@.len() == 2,
        r.1.attributes@[0].key@ == "action"@,
        r.1.attributes@[0].value@ == "instantiate"@,
        r.1.attributes@[1].key@ == "admin"@,
        r.1.attributes@[1].value@ == r.0.admin@,
{
    let admin = match msg.admin {
        Some(a) => a,
        None => sender,
    };
    let config = Config { admin: admin.clone() };
    let mut attributes: Vec<Attribute> = Vec::new();
    attributes.push(
        Attribute { key: String::from_str("action"), value: String::from_str("instantiate") },
    );
    attributes.push(Attribute { key: String::from_str("admin"), value: admin });
    (config, Response { attributes })
}

/// A fresh poll never disturbs the rest of the state, and — as long as
/// no ballot names its id — re-establishes the whole-state invariant.
proof fn lemma_create_preserves_inv(
    pb: Seq<(Seq<char>, PollView)>,
    pb2: Seq<(Seq<char>, PollView)>,
    bb: Seq<BallotRec>,
    id: Seq<char>,
    p2: PollView,
)
    requires
        state_inv(pb, bb),
        count_poll_ballots(bb, id) == 0,
        poll_wf(p2),
        forall|j: int| 0 <= j < p2.options.len() ==> (#[trigger] p2.options[j]).1 == 0,
        polls_sorted(pb2),
        poll_for(pb2, id) == Some(p2),
        forall|id2: Seq<char>| id2 != id ==> #[trigger] poll_for(pb2, id2) == poll_for(pb, id2),
        forall|k: int|
            0 <= k < pb2.len() ==> {
                let e = #[trigger] pb2[k];
                (e.0 == id && e.1 == p2) || (e.0 != id && pb.contains(e))
            },
    ensures
        state_inv(pb2, bb),
{
    assert forall|i: int|
        0 <= i < pb2.len() implies poll_wf((#[trigger] pb2[i]).1) && tally_ok(
        pb2[i].1,
        pb2[i].0,
        bb,
    ) by {
        let e = pb2[i];
        if e.0 == id {
            assert forall|j: int|
                0 <= j < e.1.options.len() implies (#[trigger] e.1.options[j]).1 == count_votes(
                bb,
                id,
                e.1.options[j].0,
            ) by {
                lemma_count_votes_le_poll(bb, id, e.1.options[j].0);
            }
        } else {
            let k = choose|k: int| 0 <= k < pb.len() && #[trigger] pb[k] == e;
            assert(poll_wf(pb[k].1));
            assert(tally_ok(pb[k].1, pb[k].0, bb));
        }
    }
    assert forall|k: int| 0 <= k < bb.len() implies ballot_valid(pb2, #[trigger] bb[k]) by {
        assert(ballot_valid(pb, bb[k]));
        if bb[k].poll_id == id {
            lemma_count_poll_pos(bb, k);
        }
    }
}

/// Creates a poll under `poll_id` with every count at zero, preserving
/// the caller-given option order. More than `MAX_POLL_OPTIONS` options
/// are rejected before any write; otherwise the write overwrites
/// whatever the id held. The host hands in pairwise distinct labels.
pub fn execute_create_poll(
    state: &mut VotingState,
    sender: String,
    poll_id: String,
    question: String,
    options: Vec<String>,
) -> (r: Result<Response, ContractError>)
    requires
        polls_sorted(old(state).polls@),
        options@.len() <= MAX_POLL_OPTIONS ==> distinct_labels(labels_of(options@)),
    ensures
        create_poll_post(
            *old(state),
            *final(state),
            r,
            sender@,
            poll_id@,
            question@,
            labels_of(options@),
        ),
{
    let ghost pre_polls = state.polls@;
    if options.len() > MAX_POLL_OPTIONS {
        return Err(ContractError::TooManyOptions);
    }
    let n = options.len();
    let mut opts: Vec<(String, u64)> = Vec::new();
    let mut i: usize = 0;
    while i < n
        invariant
            i <= n,
            n == options@.len(),
            opts@.len() == i as int,
            forall|k: int| 0 <= k < i ==> #[trigger] opts@[k] == (options@[k], 0u64),
        decreases n - i,
    {
        opts.push((options[i].clone(), 0u64));
        i = i + 1;
    }
    let poll = Poll { creator: sender, question, options: opts };
    let ghost pv = poll@;
    proof {
        assert forall|j: int|
            0 <= j < labels_of(options@).len() implies #[trigger] pv.options[j] == (
            labels_of(options@)[j],
            0u64,
        ) by {
            assert(opts_view(opts@)[j] == (opts@[j].0@, opts@[j].1));
        }
        assert(labels_unique(pv.options));
    }
    state.polls.save(poll_id, poll);
    proof {
        if old(state).wf() && count_poll_ballots(old(state).ballots@, poll_id@) == 0 {
            lemma_create_preserves_inv(
                pre_polls,
                state.polls@,
                state.ballots@,
                poll_id@,
                pv,
            );
        }
    }
    Ok(Response::new())
}

/// The new option list after a vote: the previous choice's count down
/// one, the chosen label's count up one, labels and order untouched.
pub open spec fn vote_applied(
    before: Seq<(Seq<char>, u64)>,
    after: Seq<(Seq<char>, u64)>,
    prev: Option<Seq<char>>,
    choice: Seq<char>,
) -> bool {
    &&& after.len() == before.len()
    &&& forall|j: int| 0 <= j < before.len() ==> (#[trigger] after[j]).0 == before[j].0
    &&& forall|j: int|
        0 <= j < before.len() ==> (#[trigger] after[j]).1 as int == before[j].1 - (if prev
            == Some(before[j].0) {
            1int
        } else {
            0int
        }) + (if before[j].0 == choice {
            1int
        } else {
            0int
        })
}

/// What a successful vote does to the whole state: the voter's ballot
/// in this poll now records the choice, the poll's counts moved by
/// exactly the replaced and the new ballot's contribution, and nothing
/// else changed.
pub open spec fn voted(
    pre_polls: Seq<(Seq<char>, PollView)>,
    post_polls: Seq<(Seq<char>, PollView)>,
    pre_ballots: Seq<BallotRec>,
    post_ballots: Seq<BallotRec>,
    voter: Seq<char>,
    id: Seq<char>,
    choice: Seq<char>,
) -> bool {
    &&& poll_for(pre_polls, id) is Some
    &&& poll_for(post_polls, id) is Some
    &&& ({
        let p = poll_for(pre_polls, id).unwrap();
        let p2 = poll_for(post_polls, id).unwrap();
        &&& p2.creator == p.creator
        &&& p2.question == p.question
        &&& vote_applied(p.options, p2.options, ballot_for(pre_ballots, voter, id), choice)
    })
    &&& forall|id2: Seq<char>|
        id2 != id ==> #[trigger] poll_for(post_polls, id2) == poll_for(pre_polls, id2)
    &&& post_polls.len() == pre_polls.len()
    &&& ballot_for(post_ballots, voter, id) == Some(choice)
    &&& forall|v2: Seq<char>, p2: Seq<char>|
        !(v2 == voter && p2 == id) ==> #[trigger] ballot_for(post_ballots, v2, p2) == ballot_for(
            pre_ballots,
            v2,
            p2,
        )
    &&& post_ballots.len() == pre_ballots.len() + (if ballot_for(pre_ballots, voter, id) is None {
        1int
    } else {
        0int
    })
    &&& forall|q: Seq<char>|
        #![trigger count_poll_ballots(post_ballots, q)]
        count_poll_ballots(post_ballots, q) == count_poll_ballots(pre_ballots, q) + (if q == id
            && ballot_for(pre_ballots, voter, id) is None {
            1int
        } else {
            0int
        })
}

/// The position of the option carrying this label, if any.
fn find_option(opts: &Vec<(String, u64)>, label: &String) -> (r: Option<usize>)
    ensures
        match r {
            Some(k) => k < opts@.len() && opts_view(opts@)[k as int].0 == label@,
            None => !has_option(opts_view(opts@), label@),
        },
{
    let n = opts.len();
    let mut i: usize = 0;
    while i < n
        invariant
            i <= n,
            n == opts@.len(),
            forall|m: int| 0 <= m < i ==> (#[trigger] opts_view(opts@)[m]).0 != label@,
        decreases n - i,
    {
        if opts[i].0 == *label {
            return Some(i);
        }
        i = i + 1;
    }
    None
}

/// A successful vote carries the whole-state invariant across the
/// ballot write and the poll write.
proof fn lemma_vote_preserves_inv(
    pb: Seq<(Seq<char>, PollView)>,
    pb2: Seq<(Seq<char>, PollView)>,
    bb: Seq<BallotRec>,
    bb2: Seq<BallotRec>,
    voter: Seq<char>,
    id: Seq<char>,
    choice: Seq<char>,
    p: PollView,
    p2: PollView,
)
    requires
        state_inv(pb, bb),
        poll_for(pb, id) == Some(p),
        has_option(p.options, choice),
        p2.creator == p.creator,
        p2.question == p.question,
        vote_applied(p.options, p2.options, ballot_for(bb, voter, id), choice),
        ballots_unique(bb2),
        ballot_for(bb2, voter, id) == Some(choice),
        forall|v2: Seq<char>, q2: Seq<char>|
            !(v2 == voter && q2 == id) ==> ballot_for(bb2, v2, q2) == ballot_for(bb, v2, q2),
        forall|q: Seq<char>, l: Seq<char>|
            #![trigger count_votes(bb2, q, l)]
            count_votes(bb2, q, l) + (if q == id && ballot_for(bb, voter, id) == Some(l) {
                1int
            } else {
                0int
            }) == count_votes(bb, q, l) + (if q == id && l == choice {
                1int
            } else {
                0int
            }),
        forall|k: int|
            0 <= k < bb2.len() ==> (#[trigger] bb2[k]) == (BallotRec {
                voter,
                poll_id: id,
                option: choice,
            }) || bb.contains(bb2[k]),
        polls_sorted(pb2),
        poll_for(pb2, id) == Some(p2),
        forall|id2: Seq<char>| id2 != id ==> #[trigger] poll_for(pb2, id2) == poll_for(pb, id2),
        forall|k: int|
            0 <= k < pb2.len() ==> {
                let e = #[trigger] pb2[k];
                (e.0 == id && e.1 == p2) || (e.0 != id && pb.contains(e))
            },
    ensures
        state_inv(pb2, bb2),
{
    lemma_poll_for_exists(pb, id);
    let k0 = choose|k0: int| 0 <= k0 < pb.len() && #[trigger] pb[k0] == (id, p);
    assert(poll_wf(p));
    assert(tally_ok(p, id, bb));
    let prev = ballot_for(bb, voter, id);

    // the new poll carries the old one's labels, so it is well-formed
    assert forall|i: int, j: int|
        #![trigger p2.options[i], p2.options[j]]
        0 <= i < j < p2.options.len() implies p2.options[i].0 != p2.options[j].0 by {
        assert(p2.options[i].0 == p.options[i].0);
        assert(p2.options[j].0 == p.options[j].0);
        assert(p.options[i].0 != p.options[j].0);
    }
    assert(poll_wf(p2));

    // the new poll's counts match the new ledger
    assert forall|j: int|
        0 <= j < p2.options.len() implies (#[trigger] p2.options[j]).1 == count_votes(
        bb2,
        id,
        p2.options[j].0,
    ) by {
        let l = p.options[j].0;
        assert(p2.options[j].0 == l);
        assert(p.options[j].1 == count_votes(bb, id, l));
        assert(count_votes(bb2, id, l) + (if prev == Some(l) {
            1int
        } else {
            0int
        }) == count_votes(bb, id, l) + (if l == choice {
            1int
        } else {
            0int
        }));
    }
    assert(tally_ok(p2, id, bb2));

    // every registry entry is well-formed and correctly tallied
    assert forall|i: int|
        0 <= i < pb2.len() implies poll_wf((#[trigger] pb2[i]).1) && tally_ok(
        pb2[i].1,
        pb2[i].0,
        bb2,
    ) by {
        let e = pb2[i];
        if !(e.0 == id && e.1 == p2) {
            let k = choose|k: int| 0 <= k < pb.len() && #[trigger] pb[k] == e;
            assert(poll_wf(e.1));
            assert(tally_ok(e.1, e.0, bb));
            assert forall|j: int|
                0 <= j < e.1.options.len() implies (#[trigger] e.1.options[j]).1 == count_votes(
                bb2,
                e.0,
                e.1.options[j].0,
            ) by {
                let l = e.1.options[j].0;
                assert(count_votes(bb2, e.0, l) + (if e.0 == id && prev == Some(l) {
                    1int
                } else {
                    0int
                }) == count_votes(bb, e.0, l) + (if e.0 == id && l == choice {
                    1int
                } else {
                    0int
                }));
            }
        }
    }

    // every ballot still names an existing poll and one of its labels
    let rec = BallotRec { voter, poll_id: id, option: choice };
    assert forall|k: int| 0 <= k < bb2.len() implies ballot_valid(pb2, #[trigger] bb2[k]) by {
        let b = bb2[k];
        if b == rec {
            let w = choose|w: int|
                0 <= w < p.options.len() && (#[trigger] p.options[w]).0 == choice;
            assert(p2.options[w].0 == choice);
            assert(has_option(p2.options, choice));
        } else {
            let m = choose|m: int| 0 <= m < bb.len() && #[trigger] bb[m] == b;
            assert(ballot_valid(pb, b));
            if b.poll_id == id {
                let w = choose|w: int|
                    0 <= w < p.options.len() && (#[trigger] p.options[w]).0 == b.option;
                assert(p2.options[w].0 == b.option);
                assert(has_option(p2.options, b.option));
            } else {
                assert(poll_for(pb2, b.poll_id) == poll_for(pb, b.poll_id));
            }
        }
    }
}

/// Everything vote casting promises, relating the states before and
/// after the call to its result.
pub open spec fn vote_post(
    pre: VotingState,
    post: VotingState,
    r: Result<Response, ContractError>,
    voter: Seq<char>,
    id: Seq<char>,
    choice: Seq<char>,
) -> bool {
    &&& post.wf()
    &&& poll_for(pre.polls@, id) is None ==> (r matches Err(e) && e
        == ContractError::PollNotFound) && post.polls@ == pre.polls@ && post.ballots@
        == pre.ballots@
    &&& poll_for(pre.polls@, id) is Some && !has_option(
        poll_for(pre.polls@, id).unwrap().options,
        choice,
    ) ==> (r matches Err(e) && e == ContractError::Unauthorized) && post.polls@ == pre.polls@
        && post.ballots@ == pre.ballots@
    &&& poll_for(pre.polls@, id) is Some && has_option(
        poll_for(pre.polls@, id).unwrap().options,
        choice,
    ) ==> (r matches Ok(resp) && resp.attributes@.len() == 0) && voted(
        pre.polls@,
        post.polls@,
        pre.ballots@,
        post.ballots@,
        voter,
        id,
        choice,
    )
}

/// Casts or changes `sender`'s vote in the poll under `poll_id`.
///
/// The chosen option is validated against the poll before either
/// aggregate is written, so both failure kinds leave the state exactly
/// as it was. On success the voter's ballot records the choice, the
/// previous choice's count (if any) goes down by one, and the chosen
/// option's count goes up by one.
pub fn execute_vote(
    state: &mut VotingState,
    sender: String,
    poll_id: String,
    vote: String,
) -> (r: Result<Response, ContractError>)
    requires
        old(state).wf(),
    ensures
        vote_post(*old(state), *final(state), r, sender@, poll_id@, vote@),
{
    let ghost pb = state.polls@;
    let ghost bb = state.ballots@;
    let ghost idv = poll_id@;
    let ghost votev = vote@;
    let ghost voterv = sender@;

    let poll_opt = state.polls.get(&poll_id);
    let poll = match poll_opt {
        None => {
            return Err(ContractError::PollNotFound);
        },
        Some(p) => p,
    };
    let ghost pv = poll@;

    // validate the chosen option before any write
    let found = find_option(&poll.options, &vote);
    if found.is_none() {
        return Err(ContractError::Unauthorized);
    }
    proof {
        assert(has_option(pv.options, votev));
        lemma_poll_for_exists(pb, idv);
        let k0 = choose|k0: int| 0 <= k0 < pb.len() && #[trigger] pb[k0] == (idv, pv);
        assert(tally_ok(pv, idv, bb));
        assert(poll_wf(pv));
    }

    // record the ballot
    let prev = state.ballots.get(&sender, &poll_id);
    let ghost prev_l: Option<Seq<char>> = match &prev {
        Some(b) => Some(b@),
        None => None,
    };
    state.ballots.put(sender.clone(), poll_id.clone(), Ballot { option: vote.clone() });
    let ghost bb2 = state.ballots@;
    let blen = state.ballots.len();
    proof {
        if prev_l != Some(votev) {
            lemma_count_le_len(bb2, idv, votev);
            assert(count_votes(bb, idv, votev) + 1 <= blen as int);
            assert(blen as int <= u64::MAX);
        }
    }

    // move the counts: the previous choice down one, the chosen one up one
    let n = poll.options.len();
    let mut new_opts: Vec<(String, u64)> = Vec::new();
    let mut j: usize = 0;
    while j < n
        invariant
            j <= n,
            n == pv.options.len(),
            poll@ == pv,
            votev == vote@,
            new_opts@.len() == j as int,
            forall|m: int| 0 <= m < j ==> (#[trigger] opts_view(new_opts@)[m]).0 == pv.options[m].0,
            forall|m: int|
                0 <= m < j ==> (#[trigger] opts_view(new_opts@)[m]).1 as int == pv.options[m].1 - (
                if prev_l == Some(pv.options[m].0) {
                    1int
                } else {
                    0int
                }) + (if pv.options[m].0 == votev {
                    1int
                } else {
                    0int
                }),
            tally_ok(pv, idv, bb),
            prev_l == ballot_for(bb, voterv, idv),
            prev_l != Some(votev) ==> count_votes(bb, idv, votev) + 1 <= u64::MAX,
            prev matches Some(b) ==> prev_l == Some(b@),
            prev matches None ==> prev_l is None,
        decreases n - j,
    {
        let ghost label_j = pv.options[j as int].0;
        let is_prev = match &prev {
            Some(b) => poll.options[j].0 == b.option,
            None => false,
        };
        proof {
            assert(is_prev == (prev_l == Some(label_j)));
            assert(pv.options[j as int].1 == count_votes(bb, idv, label_j));
            if is_prev {
                lemma_ballot_for_count(bb, voterv, idv);
            }
        }
        let mut c: u64 = poll.options[j].1;
        if is_prev {
            c = c - 1;
        }
        if poll.options[j].0 == vote {
            proof {
                assert(poll.options@[j as int].0@ == vote@);
                assert(pv.options[j as int].0 == poll.options@[j as int].0@);
                assert(label_j == votev);
                if !is_prev {
                    assert(c == count_votes(bb, idv, votev));
                }
            }
            c = c + 1;
        }
        let ghost prior_opts = new_opts@;
        new_opts.push((poll.options[j].0.clone(), c));
        proof {
            assert(new_opts@[j as int] == (poll.options@[j as int].0, c));
            assert forall|m: int|
                0 <= m < j + 1 implies (#[trigger] opts_view(new_opts@)[m]).0 == pv.options[m].0
                && opts_view(new_opts@)[m].1 as int == pv.options[m].1 - (if prev_l == Some(
                pv.options[m].0,
            ) {
                1int
            } else {
                0int
            }) + (if pv.options[m].0 == votev {
                1int
            } else {
                0int
            }) by {
                if m < j as int {
                    assert(opts_view(prior_opts)[m].0 == pv.options[m].0);
                    assert(new_opts@[m] == prior_opts[m]);
                    assert(opts_view(new_opts@)[m] == opts_view(prior_opts)[m]);
                } else {
                    assert(opts_view(new_opts@)[m] == (poll.options@[j as int].0@, c));
                }
            }
        }
        j = j + 1;
    }
    proof {
        assert(vote_applied(pv.options, opts_view(new_opts@), prev_l, votev));
    }

    // persist the updated poll
    let new_poll = Poll { creator: poll.creator, question: poll.question, options: new_opts };
    let ghost p2v = new_poll@;
    state.polls.save(poll_id, new_poll);
    proof {
        lemma_vote_preserves_inv(pb, state.polls@, bb, bb2, voterv, idv, votev, pv, p2v);
    }
    Ok(Response::new())
}

/// The poll stored under this id, or absent — absent is not an error.
pub fn query_poll(state: &VotingState, poll_id: String) -> (r: PollResponse)
    requires
        polls_sorted(state.polls@),
    ensures
        match r.poll {
            Some(p) => poll_for(state.polls@, poll_id@) == Some(p@),
            None => poll_for(state.polls@, poll_id@) is None,
        },
{
    PollResponse { poll: state.polls.get(&poll_id) }
}

/// Every poll, in ascending id order: one response entry per registry
/// entry, in registry order.
pub fn query_all_polls(state: &VotingState) -> (r: AllPollsResponse)
    ensures
        r.polls@.len() == state.polls@.len(),
        forall|k: int| 0 <= k < r.polls@.len() ==> (#[trigger] r.polls@[k])@ == state.polls@[k].1,
{
    AllPollsResponse { polls: state.polls.list() }
}

/// The ballot this account currently holds in this poll, or absent —
/// absent is not an error.
pub fn query_vote(state: &VotingState, address: String, poll_id: String) -> (r: VoteResponse)
    requires
        ballots_unique(state.ballots@),
    ensures
        match r.vote {
            Some(b) => ballot_for(state.ballots@, address@, poll_id@) == Some(b@),
            None => ballot_for(state.ballots@, address@, poll_id@) is None,
        },
{
    VoteResponse { vote: state.ballots.get(&address, &poll_id) }
}

/// Dispatches an execute message to poll creation or vote casting.
pub fn execute(state: &mut VotingState, sender: String, msg: ExecuteMsg) -> (r: Result<
    Response,
    ContractError,
>)
    requires
        old(state).wf(),
        msg matches ExecuteMsg::CreatePoll { poll_id, question, options } ==> (options@.len()
            <= MAX_POLL_OPTIONS ==> distinct_labels(labels_of(options@))),
    ensures
        msg matches ExecuteMsg::CreatePoll { poll_id, question, options } ==> create_poll_post(
            *old(state),
            *final(state),
            r,
            sender@,
            poll_id@,
            question@,
            labels_of(options@),
        ),
        msg matches ExecuteMsg::Vote { poll_id, vote } ==> vote_post(
            *old(state),
            *final(state),
            r,
            sender@,
            poll_id@,
            vote@,
        ),
{
    match msg {
        ExecuteMsg::CreatePoll { poll_id, question, options } => execute_create_poll(
            state,
            sender,
            poll_id,
            question,
            options,
        ),
        ExecuteMsg::Vote { poll_id, vote } => execute_vote(state, sender, poll_id, vote),
    }
}

/// Dispatches a query message to the read-only query surface.
pub fn query(state: &VotingState, msg: QueryMsg) -> (r: QueryResponse)
    requires
        polls_sorted(state.polls@),
        ballots_unique(state.ballots@),
    ensures
        msg is AllPolls ==> (r matches QueryResponse::AllPolls(a) && a.polls@.len()
            == state.polls@.len() && forall|k: int|
            0 <= k < a.polls@.len() ==> (#[trigger] a.polls@[k])@ == state.polls@[k].1),
        msg matches QueryMsg::Poll { poll_id } ==> (r matches QueryResponse::Poll(p) && (match p
            .poll {
            Some(pl) => poll_for(state.polls@, poll_id@) == Some(pl@),
            None => poll_for(state.polls@, poll_id@) is None,
        })),
        msg matches QueryMsg::Vote { address, poll_id } ==> (r matches QueryResponse::Vote(v) && (
        match v.vote {
            Some(b) => ballot_for(state.ballots@, address@, poll_id@) == Some(b@),
            None => ballot_for(state.ballots@, address@, poll_id@) is None,
        })),
{
    match msg {
        QueryMsg::AllPolls {  } => QueryResponse::AllPolls(query_all_polls(state)),
        QueryMsg::Poll { poll_id } => QueryResponse::Poll(query_poll(state, poll_id)),
        QueryMsg::Vote { address, poll_id } => QueryResponse::Vote(
            query_vote(state, address, poll_id),
        ),
    }
}

} // verus!
