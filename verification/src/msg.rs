//! The message and response shapes of the voting ledger's surface. The
//! host's dispatch layer decodes wire messages into these and encodes
//! the responses back; the library itself only computes on them.

use vstd::prelude::*;

use crate::state::{Ballot, Poll};

verus! {

pub struct InstantiateMsg {
    pub admin: Option<String>,
}

pub enum ExecuteMsg {
    CreatePoll { poll_id: String, question: String, options: Vec<String> },
    Vote { poll_id: String, vote: String },
}

pub enum QueryMsg {
    AllPolls {},
    Poll { poll_id: String },
    Vote { address: String, poll_id: String },
}

/// One key/value pair of response metadata.
#[derive(Debug, Clone, PartialEq, Eq)]
pub struct Attribute {
    pub key: String,
    pub value: String,
}

/// The acknowledgement of a successful operation.
#[derive(Debug)]
pub struct Response {
    pub attributes: Vec<Attribute>,
}

impl Response {
    /// An acknowledgement without attributes.
    pub fn new() -> (r: Response)
        ensures
            r.attributes@.len() == 0,
    {
        Response { attributes: Vec::new() }
    }
}

pub struct AllPollsResponse {
    pub polls: Vec<Poll>,
}

pub struct PollResponse {
    pub poll: Option<Poll>,
}

pub struct VoteResponse {
    pub vote: Option<Ballot>,
}

/// The answer to a query, one variant per query kind.
pub enum QueryResponse {
    AllPolls(AllPollsResponse),
    Poll(PollResponse),
    Vote(VoteResponse),
}

} // verus!
