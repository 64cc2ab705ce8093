use cw_starter::contract::{execute, instantiate, query};
use cw_starter::msg::{Attribute, ExecuteMsg, InstantiateMsg, QueryMsg, QueryResponse};
use cw_starter::state::VotingState;

const ADDR1: &str = "addr1";
const ADDR2: &str = "addr2";

#[test]
fn test_instantiate() {
    // ADDR1 will be the sender; no admin named, so the sender becomes admin.
    let msg = InstantiateMsg { admin: None };
    let (_config, res) = instantiate(msg, ADDR1.to_string());

    assert_eq!(
        res.attributes,
        vec![
            Attribute {
                key: "action".to_string(),
                value: "instantiate".to_string()
            },
            Attribute {
                key: "admin".to_string(),
                value: ADDR1.to_string()
            },
        ]
    )
}

#[test]
fn test_instantiate_with_admin() {
    let msg = InstantiateMsg {
        admin: Some(ADDR2.to_string()),
    };
    let (_config, res) = instantiate(msg, ADDR2.to_string());

    assert_eq!(
        res.attributes,
        vec![
            Attribute {
                key: "action".to_string(),
                value: "instantiate".to_string()
            },
            Attribute {
                key: "admin".to_string(),
                value: ADDR2.to_string()
            },
        ]
    )
}

#[test]
fn test_execute_create_poll_valid() {
    let mut state = VotingState::new();
    let msg = InstantiateMsg { admin: None };
    let _res = instantiate(msg, ADDR1.to_string());

    let msg = ExecuteMsg::CreatePoll {
        poll_id: "Web3Builders".to_string(),
        question: "Will I finish this on time?".to_string(),
        options: vec![
            "Yes".to_string(),
            "No".to_string(),
            "The world will end before that".to_string(),
        ],
    };

    let _res = execute(&mut state, ADDR1.to_string(), msg).unwrap();
}

#[test]
fn test_execute_create_poll_invalid() {
    let mut state = VotingState::new();
    let msg = InstantiateMsg { admin: None };
    let _res = instantiate(msg, ADDR1.to_string());

    let msg = ExecuteMsg::CreatePoll {
        poll_id: "001".to_string(),
        question: "How many numbers fit in this poll?".to_string(),
        options: vec![
            "1".to_string(),
            "2".to_string(),
            "3".to_string(),
            "4".to_string(),
            "5".to_string(),
            "6".to_string(),
        ],
    };

    let _err = execute(&mut state, ADDR1.to_string(), msg).unwrap_err();
}

#[test]
fn test_execute_vote_valid() {
    let mut state = VotingState::new();
    let msg = InstantiateMsg { admin: None };
    let _res = instantiate(msg, ADDR1.to_string());

    let msg = ExecuteMsg::CreatePoll {
        poll_id: "000".to_string(),
        question: "Choose an option".to_string(),
        options: vec!["1".to_string(), "2".to_string(), "3".to_string()],
    };
    let _res = execute(&mut state, ADDR1.to_string(), msg).unwrap();

    let msg = ExecuteMsg::Vote {
        poll_id: "000".to_string(),
        vote: "1".to_string(),
    };
    let _res = execute(&mut state, ADDR1.to_string(), msg).unwrap();

    let msg = ExecuteMsg::Vote {
        poll_id: "000".to_string(),
        vote: "2".to_string(),
    };
    let _res = execute(&mut state, ADDR1.to_string(), msg).unwrap();
}

#[test]
fn test_execute_vote_invalid() {
    let mut state = VotingState::new();
    let msg = InstantiateMsg { admin: None };
    let _res = instantiate(msg, ADDR1.to_string());

    // Vote on a poll that does not exist yet.
    let msg = ExecuteMsg::Vote {
        poll_id: "000".to_string(),
        vote: "Okonomiyaki".to_string(),
    };
    let _err = execute(&mut state, ADDR1.to_string(), msg).unwrap_err();

    let msg = ExecuteMsg::CreatePoll {
        poll_id: "000".to_string(),
        question: "Favorite Japanese food".to_string(),
        options: vec![
            "Onigiri".to_string(),
            "Okonomiyaki".to_string(),
            "Ozoni".to_string(),
        ],
    };
    let _res = execute(&mut state, ADDR1.to_string(), msg).unwrap();

    // Vote with an option that is not in the poll.
    let msg = ExecuteMsg::Vote {
        poll_id: "000".to_string(),
        vote: "Pizza".to_string(),
    };
    let _err = execute(&mut state, ADDR1.to_string(), msg).unwrap_err();
}

#[test]
fn test_query_all_polls() {
    let mut state = VotingState::new();
    let msg = InstantiateMsg { admin: None };
    let _res = instantiate(msg, ADDR1.to_string());

    let msg = ExecuteMsg::CreatePoll {
        poll_id: "001".to_string(),
        question: "Wen moon?".to_string(),
        options: vec!["Now".to_string(), "Soon".to_string(), "Never".to_string()],
    };
    let _res = execute(&mut state, ADDR1.to_string(), msg).unwrap();

    let msg = ExecuteMsg::CreatePoll {
        poll_id: "002".to_string(),
        question: "rgb?".to_string(),
        options: vec!["Red".to_string(), "Green".to_string(), "Blue".to_string()],
    };
    let _res = execute(&mut state, ADDR1.to_string(), msg).unwrap();

    let msg = ExecuteMsg::CreatePoll {
        poll_id: "003".to_string(),
        question: "another poll?".to_string(),
        options: vec!["Yes".to_string(), "No".to_string()],
    };
    let _res = execute(&mut state, ADDR1.to_string(), msg).unwrap();

    let msg = QueryMsg::AllPolls {};
    let res = query(&state, msg);
    let polls = match res {
        QueryResponse::AllPolls(a) => a.polls,
        _ => panic!("expected an all-polls answer"),
    };
    assert_eq!(polls.len(), 3);
}

#[test]
fn test_query_poll() {
    let mut state = VotingState::new();
    let msg = InstantiateMsg { admin: None };
    let _res = instantiate(msg, ADDR1.to_string());

    let msg = ExecuteMsg::CreatePoll {
        poll_id: "001".to_string(),
        question: "Wen moon?".to_string(),
        options: vec!["Now".to_string(), "Soon".to_string(), "Never".to_string()],
    };
    let _res = execute(&mut state, ADDR1.to_string(), msg).unwrap();

    // Query a poll that exists.
    let msg = QueryMsg::Poll {
        poll_id: "001".to_string(),
    };
    let res = query(&state, msg);
    let poll = match res {
        QueryResponse::Poll(p) => p.poll,
        _ => panic!("expected a poll answer"),
    };
    assert!(poll.is_some());

    // Query a poll that does not exist.
    let msg = QueryMsg::Poll {
        poll_id: "none_id".to_string(),
    };
    let res = query(&state, msg);
    let poll = match res {
        QueryResponse::Poll(p) => p.poll,
        _ => panic!("expected a poll answer"),
    };
    assert!(poll.is_none());
}

#[test]
fn test_query_vote() {
    let mut state = VotingState::new();
    let msg = InstantiateMsg { admin: None };
    let _res = instantiate(msg, ADDR1.to_string());

    let msg = ExecuteMsg::CreatePoll {
        poll_id: "001".to_string(),
        question: "Wen moon?".to_string(),
        options: vec!["Now".to_string(), "Soon".to_string(), "Never".to_string()],
    };
    let _res = execute(&mut state, ADDR1.to_string(), msg).unwrap();

    let msg = ExecuteMsg::Vote {
        poll_id: "001".to_string(),
        vote: "Now".to_string(),
    };
    let _res = execute(&mut state, ADDR1.to_string(), msg).unwrap();

    // Query the vote that exists.
    let msg = QueryMsg::Vote {
        poll_id: "001".to_string(),
        address: ADDR1.to_string(),
    };
    let res = query(&state, msg);
    let vote = match res {
        QueryResponse::Vote(v) => v.vote,
        _ => panic!("expected a vote answer"),
    };
    assert!(vote.is_some());

    // Query a vote that does not exist.
    let msg = QueryMsg::Vote {
        poll_id: "002".to_string(),
        address: ADDR2.to_string(),
    };
    let res = query(&state, msg);
    let vote = match res {
        QueryResponse::Vote(v) => v.vote,
        _ => panic!("expected a vote answer"),
    };
    assert!(vote.is_none());
}

#[test]
fn test_query_all_polls_no_polls() {
    let state = VotingState::new();
    let msg = InstantiateMsg { admin: None };
    let _res = instantiate(msg, ADDR1.to_string());

    let msg = QueryMsg::AllPolls {};
    let res = query(&state, msg);
    let polls = match res {
        QueryResponse::AllPolls(a) => a.polls,
        _ => panic!("expected an all-polls answer"),
    };
    assert_eq!(polls.len(), 0);
}
