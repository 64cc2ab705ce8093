//! The executable state of the voting ledger: polls, ballots, the two
//! registries that hold them, and the combined [`VotingState`].
//!
//! The poll registry keeps its entries sorted by poll id, so listing all
//! polls is ascending and deterministic; the ballot ledger keeps at most
//! one entry per (voter, poll id) pair. Every method's contract is stated
//! over the model of `crate::model`.

use vstd::prelude::*;

use crate::model::{
    ballot_for, ballots_unique, count_poll_ballots, count_votes, lemma_ballot_for_index,
    lemma_ballot_for_none, lemma_poll_for_index, lemma_poll_for_none, lemma_put_push,
    lemma_put_update, lemma_save_insert, lemma_save_update, poll_for, polls_sorted, state_inv,
    BallotRec, PollView,
};
use crate::order::{lemma_lex_lt_irrefl, lemma_lex_lt_total, lemma_lex_lt_trans, lex_lt, str_lt};

verus! {

/// Singleton configuration: the admin account, fixed at instantiation.
pub struct Config {
    pub admin: String,
}

/// A named question with an ordered, bounded set of labeled options and
/// per-option vote counts.
pub struct Poll {
    pub creator: String,
    pub question: String,
    pub options: Vec<(String, u64)>,
}

/// The single current vote record of one account in one poll: the label
/// currently chosen.
pub struct Ballot {
    pub option: String,
}

/// The image of an exec option list.
pub open spec fn opts_view(opts: Seq<(String, u64)>) -> Seq<(Seq<char>, u64)> {
    Seq::new(opts.len(), |i: int| (opts[i].0@, opts[i].1))
}

impl View for Poll {
    type V = PollView;

    open spec fn view(&self) -> PollView {
        PollView {
            creator: self.creator@,
            question: self.question@,
            options: opts_view(self.options@),
        }
    }
}

impl View for Ballot {
    type V = Seq<char>;

    open spec fn view(&self) -> Seq<char> {
        self.option@
    }
}

impl Ballot {
    /// A copy with the same label.
    pub fn duplicate(&self) -> (r: Ballot)
        ensures
            r@ == self@,
    {
        Ballot { option: self.option.clone() }
    }
}

impl Poll {
    /// A copy with the same creator, question, labels and counts.
    pub fn duplicate(&self) -> (r: Poll)
        ensures
            r@ =~= self@,
    {
        let mut options: Vec<(String, u64)> = Vec::new();
        let n = self.options.len();
        let mut i: usize = 0;
        while i < n
            invariant
                i <= n,
                n == self.options@.len(),
                options@.len() == i as int,
                forall|k: int| 0 <= k < i ==> #[trigger] options@[k] == self.options@[k],
            decreases n - i,
        {
            options.push((self.options[i].0.clone(), self.options[i].1));
            i = i + 1;
        }
        proof {
            assert(options@ =~= self.options@);
        }
        Poll { creator: self.creator.clone(), question: self.question.clone(), options }
    }
}

/// The poll registry: one poll per id, entries sorted ascending by id.
pub struct PollRegistry {
    pub entries: Vec<(String, Poll)>,
}

impl View for PollRegistry {
    type V = Seq<(Seq<char>, PollView)>;

    open spec fn view(&self) -> Seq<(Seq<char>, PollView)> {
        Seq::new(self.entries@.len(), |i: int| (self.entries@[i].0@, self.entries@[i].1@))
    }
}

/// The ballot ledger: at most one entry per (voter, poll id) pair.
pub struct BallotLedger {
    pub entries: Vec<(String, String, Ballot)>,
}

impl View for BallotLedger {
    type V = Seq<BallotRec>;

    open spec fn view(&self) -> Seq<BallotRec> {
        Seq::new(
            self.entries@.len(),
            |i: int| BallotRec {
                voter: self.entries@[i].0@,
                poll_id: self.entries@[i].1@,
                option: self.entries@[i].2@,
            },
        )
    }
}

impl BallotLedger {
    /// An empty ledger.
    pub fn new() -> (r: BallotLedger)
        ensures
            r@ =~= Seq::<BallotRec>::empty(),
    {
        BallotLedger { entries: Vec::new() }
    }

    /// How many entries the ledger holds.
    pub fn len(&self) -> (n: usize)
        ensures
            n == self@.len(),
    {
        self.entries.len()
    }

    /// The index of the entry under this key, if any.
    fn find(&self, voter: &String, poll_id: &String) -> (r: Option<usize>)
        ensures
            match r {
                Some(k) => k < self@.len() && self@[k as int].voter == voter@
                    && self@[k as int].poll_id == poll_id@,
                None => forall|k: int|
                    0 <= k < self@.len() ==> !((#[trigger] self@[k]).voter == voter@
                        && self@[k].poll_id == poll_id@),
            },
    {
        let n = self.entries.len();
        let mut i: usize = 0;
        while i < n
            invariant
                i <= n,
                n == self@.len(),
                forall|k: int|
                    0 <= k < i ==> !((#[trigger] self@[k]).voter == voter@ && self@[k].poll_id
                        == poll_id@),
            decreases n - i,
        {
            if self.entries[i].0 == *voter && self.entries[i].1 == *poll_id {
                return Some(i);
            }
            i = i + 1;
        }
        None
    }

    /// The ballot currently recorded for this voter in this poll, or
    /// nothing: an absent pair is not an error.
    pub fn get(&self, voter: &String, poll_id: &String) -> (r: Option<Ballot>)
        requires
            ballots_unique(self@),
        ensures
            match r {
                Some(b) => ballot_for(self@, voter@, poll_id@) == Some(b@),
                None => ballot_for(self@, voter@, poll_id@) is None,
            },
    {
        match self.find(voter, poll_id) {
            Some(k) => {
                proof {
                    lemma_ballot_for_index(self@, k as int);
                }
                Some(self.entries[k].2.duplicate())
            },
            None => {
                proof {
                    lemma_ballot_for_none(self@, voter@, poll_id@);
                }
                None
            },
        }
    }

    /// Create-or-replace under the composite key. The contract pins the
    /// new ledger down: the key now maps to this ballot, every other key
    /// is untouched, and every count moves by exactly the contribution
    /// of the replaced and the new entry.
    pub fn put(&mut self, voter: String, poll_id: String, ballot: Ballot)
        requires
            ballots_unique(old(self)@),
        ensures
            ballots_unique(final(self)@),
            ballot_for(final(self)@, voter@, poll_id@) == Some(ballot@),
            forall|v2: Seq<char>, p2: Seq<char>|
                !(v2 == voter@ && p2 == poll_id@) ==> ballot_for(final(self)@, v2, p2)
                    == ballot_for(old(self)@, v2, p2),
            forall|q: Seq<char>, l: Seq<char>|
                #![trigger count_votes(final(self)@, q, l)]
                count_votes(final(self)@, q, l) + (if q == poll_id@ && ballot_for(
                    old(self)@,
                    voter@,
                    poll_id@,
                ) == Some(l) {
                    1int
                } else {
                    0int
                }) == count_votes(old(self)@, q, l) + (if q == poll_id@ && l == ballot@ {
                    1int
                } else {
                    0int
                }),
            forall|q: Seq<char>|
                #![trigger count_poll_ballots(final(self)@, q)]
                count_poll_ballots(final(self)@, q) == count_poll_ballots(old(self)@, q) + (if q
                    == poll_id@ && ballot_for(old(self)@, voter@, poll_id@) is None {
                    1int
                } else {
                    0int
                }),
            forall|k: int|
                0 <= k < final(self)@.len() ==> (#[trigger] final(self)@[k]) == (BallotRec {
                    voter: voter@,
                    poll_id: poll_id@,
                    option: ballot@,
                }) || old(self)@.contains(final(self)@[k]),
            final(self)@.len() == old(self)@.len() + (if ballot_for(
                old(self)@,
                voter@,
                poll_id@,
            ) is None {
                1int
            } else {
                0int
            }),
    {
        let ghost old_view = self@;
        let ghost rec = BallotRec { voter: voter@, poll_id: poll_id@, option: ballot@ };
        match self.find(&voter, &poll_id) {
            Some(k) => {
                proof {
                    lemma_ballot_for_index(old_view, k as int);
                }
                let _prior = self.entries.remove(k);
                self.entries.insert(k, (voter, poll_id, ballot));
                proof {
                    let ghost new_view = self@;
                    assert(new_view =~= old_view.update(k as int, rec));
                    lemma_put_update(old_view, k as int, rec);
                }
            },
            None => {
                proof {
                    lemma_ballot_for_none(old_view, voter@, poll_id@);
                }
                self.entries.push((voter, poll_id, ballot));
                proof {
                    let ghost new_view = self@;
                    assert(new_view =~= old_view.push(rec));
                    lemma_put_push(old_view, rec);
                }
            },
        }
    }
}

impl PollRegistry {
    /// An empty registry.
    pub fn new() -> (r: PollRegistry)
        ensures
            r@ =~= Seq::<(Seq<char>, PollView)>::empty(),
    {
        PollRegistry { entries: Vec::new() }
    }

    /// The first position whose key is not below `poll_id`.
    fn lower_bound(&self, poll_id: &String) -> (r: usize)
        requires
            polls_sorted(self@),
        ensures
            r <= self@.len(),
            forall|m: int| 0 <= m < r ==> lex_lt((#[trigger] self@[m]).0, poll_id@),
            r < self@.len() ==> !lex_lt(self@[r as int].0, poll_id@),
    {
        let n = self.entries.len();
        let mut i: usize = 0;
        while i < n
            invariant
                i <= n,
                n == self@.len(),
                forall|m: int| 0 <= m < i ==> lex_lt((#[trigger] self@[m]).0, poll_id@),
            decreases n - i,
        {
            if !str_lt(&self.entries[i].0, poll_id) {
                return i;
            }
            i = i + 1;
        }
        i
    }

    /// The poll stored under this id, or nothing: an absent id is not an
    /// error.
    pub fn get(&self, poll_id: &String) -> (r: Option<Poll>)
        requires
            polls_sorted(self@),
        ensures
            match r {
                Some(p) => poll_for(self@, poll_id@) == Some(p@),
                None => poll_for(self@, poll_id@) is None,
            },
    {
        let i = self.lower_bound(poll_id);
        if i < self.entries.len() && self.entries[i].0 == *poll_id {
            proof {
                lemma_poll_for_index(self@, i as int);
            }
            Some(self.entries[i].1.duplicate())
        } else {
            proof {
                assert forall|m: int|
                    0 <= m < self@.len() implies (#[trigger] self@[m]).0 != poll_id@ by {
                    if m < i {
                        if self@[m].0 == poll_id@ {
                            lemma_lex_lt_irrefl(poll_id@);
                        }
                    } else if m > i {
                        assert(lex_lt(self@[i as int].0, self@[m].0));
                    }
                }
                lemma_poll_for_none(self@, poll_id@);
            }
            None
        }
    }

    /// Unconditional overwrite under `poll_id`, keeping the entries
    /// sorted: the id now maps to this poll, every other id is
    /// untouched.
    pub fn save(&mut self, poll_id: String, poll: Poll)
        requires
            polls_sorted(old(self)@),
        ensures
            polls_sorted(final(self)@),
            poll_for(final(self)@, poll_id@) == Some(poll@),
            forall|id2: Seq<char>|
                id2 != poll_id@ ==> poll_for(final(self)@, id2) == poll_for(old(self)@, id2),
            forall|k: int|
                0 <= k < final(self)@.len() ==> {
                    let e = #[trigger] final(self)@[k];
                    (e.0 == poll_id@ && e.1 == poll@) || (e.0 != poll_id@ && old(
                        self,
                    )@.contains(e))
                },
            final(self)@.len() == old(self)@.len() + (if poll_for(
                old(self)@,
                poll_id@,
            ) is Some {
                0int
            } else {
                1int
            }),
    {
        let ghost old_view = self@;
        let ghost idv = poll_id@;
        let ghost pv = poll@;
        let i = self.lower_bound(&poll_id);
        if i < self.entries.len() && self.entries[i].0 == poll_id {
            proof {
                lemma_save_update(old_view, i as int, idv, pv);
            }
            let _prior = self.entries.remove(i);
            self.entries.insert(i, (poll_id, poll));
            proof {
                assert(self@ =~= old_view.update(i as int, (idv, pv)));
            }
        } else {
            proof {
                if i < old_view.len() {
                    if !lex_lt(idv, old_view[i as int].0) {
                        lemma_lex_lt_total(old_view[i as int].0, idv);
                        assert(false);
                    }
                }
                assert forall|m: int|
                    i <= m < old_view.len() implies lex_lt(
                    idv,
                    (#[trigger] old_view[m]).0,
                ) by {
                    if m > i {
                        assert(lex_lt(old_view[i as int].0, old_view[m].0));
                        lemma_lex_lt_trans(idv, old_view[i as int].0, old_view[m].0);
                    }
                }
                lemma_save_insert(old_view, i as int, idv, pv);
            }
            self.entries.insert(i, (poll_id, poll));
            proof {
                assert(self@ =~= old_view.insert(i as int, (idv, pv)));
            }
        }
    }

    /// Every poll, in ascending id order.
    pub fn list(&self) -> (r: Vec<Poll>)
        ensures
            r@.len() == self@.len(),
            forall|k: int| 0 <= k < r@.len() ==> (#[trigger] r@[k])@ == self@[k].1,
    {
        let n = self.entries.len();
        let mut r: Vec<Poll> = Vec::new();
        let mut i: usize = 0;
        while i < n
            invariant
                i <= n,
                n == self@.len(),
                r@.len() == i as int,
                forall|k: int| 0 <= k < i ==> (#[trigger] r@[k])@ == self@[k].1,
            decreases n - i,
        {
            r.push(self.entries[i].1.duplicate());
            i = i + 1;
        }
        r
    }
}

/// The whole state of the voting ledger: the poll registry and the
/// ballot ledger.
pub struct VotingState {
    pub polls: PollRegistry,
    pub ballots: BallotLedger,
}

impl VotingState {
    /// The whole-state invariant: registry sorted, ledger duplicate-free,
    /// every poll well-formed, every count equal to its ballots, every
    /// ballot naming an existing poll and one of its labels.
    pub open spec fn wf(self) -> bool {
        state_inv(self.polls@, self.ballots@)
    }

    /// A fresh, empty ledger state.
    pub fn new() -> (r: VotingState)
        ensures
            r.polls@ =~= Seq::<(Seq<char>, PollView)>::empty(),
            r.ballots@ =~= Seq::<BallotRec>::empty(),
            r.wf(),
    {
        VotingState { polls: PollRegistry::new(), ballots: BallotLedger::new() }
    }
}

} // verus!
