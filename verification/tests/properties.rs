use cw_starter::contract::{execute_create_poll, execute_vote, query_all_polls, query_poll, query_vote};
use cw_starter::error::ContractError;
use cw_starter::state::VotingState;

fn create(state: &mut VotingState, id: &str, question: &str, options: &[&str]) -> Result<(), ContractError> {
    let options: Vec<String> = options.iter().map(|o| o.to_string()).collect();
    execute_create_poll(
        state,
        "creator".to_string(),
        id.to_string(),
        question.to_string(),
        options,
    )
    .map(|_| ())
}

fn vote(state: &mut VotingState, voter: &str, id: &str, choice: &str) -> Result<(), ContractError> {
    execute_vote(state, voter.to_string(), id.to_string(), choice.to_string()).map(|_| ())
}

fn counts(state: &VotingState, id: &str) -> Vec<(String, u64)> {
    query_poll(state, id.to_string())
        .poll
        .expect("poll should exist")
        .options
}

fn count_of(state: &VotingState, id: &str, label: &str) -> u64 {
    counts(state, id)
        .into_iter()
        .find(|o| o.0 == label)
        .expect("label should exist")
        .1
}

fn vote_of(state: &VotingState, voter: &str, id: &str) -> Option<String> {
    query_vote(state, voter.to_string(), id.to_string())
        .vote
        .map(|b| b.option)
}

#[test]
fn five_options_succeed_six_fail() {
    let mut state = VotingState::new();
    assert!(create(&mut state, "p5", "five?", &["1", "2", "3", "4", "5"]).is_ok());

    let r = create(&mut state, "p6", "six?", &["1", "2", "3", "4", "5", "6"]);
    assert!(matches!(r, Err(ContractError::TooManyOptions)));
    // nothing was stored under the rejected id
    assert!(query_poll(&state, "p6".to_string()).poll.is_none());
}

#[test]
fn vote_on_missing_poll_fails_without_ballot() {
    let mut state = VotingState::new();
    let r = vote(&mut state, "addr1", "nowhere", "Yes");
    assert!(matches!(r, Err(ContractError::PollNotFound)));
    // no ballot was created
    assert_eq!(vote_of(&state, "addr1", "nowhere"), None);
}

#[test]
fn vote_with_unknown_option_fails_without_writes() {
    let mut state = VotingState::new();
    create(&mut state, "p1", "q", &["A", "B"]).unwrap();

    let r = vote(&mut state, "addr1", "p1", "C");
    assert!(matches!(r, Err(ContractError::Unauthorized)));
    // neither the ballot nor the counts changed
    assert_eq!(vote_of(&state, "addr1", "p1"), None);
    assert_eq!(count_of(&state, "p1", "A"), 0);
    assert_eq!(count_of(&state, "p1", "B"), 0);
}

#[test]
fn first_vote_increments_only_the_choice() {
    let mut state = VotingState::new();
    create(&mut state, "p1", "q", &["A", "B", "C"]).unwrap();

    vote(&mut state, "addr1", "p1", "B").unwrap();
    assert_eq!(count_of(&state, "p1", "A"), 0);
    assert_eq!(count_of(&state, "p1", "B"), 1);
    assert_eq!(count_of(&state, "p1", "C"), 0);
}

#[test]
fn revote_moves_one_count_and_keeps_the_sum() {
    let mut state = VotingState::new();
    create(&mut state, "p1", "q", &["A", "B"]).unwrap();
    vote(&mut state, "addr1", "p1", "A").unwrap();
    vote(&mut state, "addr2", "p1", "A").unwrap();
    assert_eq!(count_of(&state, "p1", "A"), 2);

    vote(&mut state, "addr1", "p1", "B").unwrap();
    assert_eq!(count_of(&state, "p1", "A"), 1);
    assert_eq!(count_of(&state, "p1", "B"), 1);
    let total: u64 = counts(&state, "p1").iter().map(|o| o.1).sum();
    assert_eq!(total, 2);
    assert_eq!(vote_of(&state, "addr1", "p1"), Some("B".to_string()));
    assert_eq!(vote_of(&state, "addr2", "p1"), Some("A".to_string()));
}

#[test]
fn create_vote_revote_scenario() {
    let mut state = VotingState::new();
    create(&mut state, "p1", "q", &["Now", "Soon", "Never"]).unwrap();

    vote(&mut state, "addr1", "p1", "Now").unwrap();
    assert_eq!(count_of(&state, "p1", "Now"), 1);

    vote(&mut state, "addr1", "p1", "Soon").unwrap();
    assert_eq!(count_of(&state, "p1", "Now"), 0);
    assert_eq!(count_of(&state, "p1", "Soon"), 1);

    assert_eq!(vote_of(&state, "addr1", "p1"), Some("Soon".to_string()));
}

#[test]
fn list_polls_is_sorted_ascending_by_id() {
    let mut state = VotingState::new();
    create(&mut state, "003", "q3", &["Yes"]).unwrap();
    create(&mut state, "001", "q1", &["Yes"]).unwrap();
    create(&mut state, "002", "q2", &["Yes"]).unwrap();

    let polls = query_all_polls(&state).polls;
    assert_eq!(polls.len(), 3);
    let questions: Vec<String> = polls.into_iter().map(|p| p.question).collect();
    assert_eq!(questions, vec!["q1".to_string(), "q2".to_string(), "q3".to_string()]);
}

#[test]
fn list_polls_counts_each_id_once() {
    let mut state = VotingState::new();
    create(&mut state, "p1", "first", &["Yes"]).unwrap();
    create(&mut state, "p1", "second", &["Yes", "No"]).unwrap();

    let polls = query_all_polls(&state).polls;
    assert_eq!(polls.len(), 1);
    assert_eq!(polls[0].question, "second".to_string());
}

#[test]
fn absent_vote_reads_as_none_not_error() {
    let mut state = VotingState::new();
    create(&mut state, "p1", "q", &["A"]).unwrap();
    assert_eq!(vote_of(&state, "addr1", "p1"), None);
    assert_eq!(vote_of(&state, "addr1", "p2"), None);
}

#[test]
fn tallies_equal_matching_ballots_across_polls() {
    let mut state = VotingState::new();
    create(&mut state, "a", "qa", &["X", "Y"]).unwrap();
    create(&mut state, "b", "qb", &["X"]).unwrap();

    vote(&mut state, "v1", "a", "X").unwrap();
    vote(&mut state, "v2", "a", "X").unwrap();
    vote(&mut state, "v3", "a", "Y").unwrap();
    vote(&mut state, "v1", "b", "X").unwrap();

    assert_eq!(count_of(&state, "a", "X"), 2);
    assert_eq!(count_of(&state, "a", "Y"), 1);
    assert_eq!(count_of(&state, "b", "X"), 1);

    let total_a: u64 = counts(&state, "a").iter().map(|o| o.1).sum();
    assert_eq!(total_a, 3);
    let total_b: u64 = counts(&state, "b").iter().map(|o| o.1).sum();
    assert_eq!(total_b, 1);
}

#[test]
fn instantiate_keeps_named_admin() {
    let (config, _res) = cw_starter::contract::instantiate(
        cw_starter::msg::InstantiateMsg {
            admin: Some("boss".to_string()),
        },
        "someone".to_string(),
    );
    assert_eq!(config.admin, "boss".to_string());
}
