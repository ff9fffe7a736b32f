use champion_arena::contract::{is_win, remaining_gas, Contract};
use champion_arena::types::{ContractError, Response, ResponseMsg, MIN_REQUEST_GAS};
use champion_arena::validate::{is_valid_string, normalize_message};

const OWNER: &str = "owner.near";
const OPERATOR: &str = "operator.near";
const ALICE: &str = "alice.near";
const BOB: &str = "bob.near";

fn s(x: &str) -> String {
    x.to_string()
}

fn game() -> Contract {
    Contract::new(s(OWNER), s(OPERATOR), s("rock"), s("judge"), s("Decide."), s("ed25519:key"))
}

fn judgment_data(champion: &str, wins: bool, reason: &str) -> String {
    format!(
        "{{\"current_champion\":\"{}\",\"guess_wins\":{},\"reason\":\"{}\"}}",
        champion, wins, reason
    )
}

fn response(ok: bool, champion: &str, wins: bool, reason: &str) -> (Response, ResponseMsg) {
    (
        Response { ok, data: Some(judgment_data(champion, wins, reason)), signature: None },
        ResponseMsg { current_champion: s(champion), guess_wins: wins, reason: s(reason) },
    )
}

fn sorted(mut v: Vec<String>) -> Vec<String> {
    v.sort();
    v
}

#[test]
fn winning_challenge_takes_title() {
    let mut c = game();
    let id = c.request(s(ALICE), MIN_REQUEST_GAS, "paper", [7u8; 32]).unwrap();
    let (resp, msg) = response(true, "rock", true, "paper covers rock");
    assert_eq!(c.respond(&s(OPERATOR), id, resp.clone()), Ok(()));
    assert_eq!(c.await_response(id, Some(msg)), Ok(resp));
    assert_eq!(c.get_champion(), "paper");
    assert_eq!(c.get_champion_owner(), ALICE);
    assert_eq!(sorted(c.get_all_champions()), vec![s("paper"), s("rock")]);
    assert_eq!(c.get_request(id), Err(ContractError::NotFound));
}

#[test]
fn stale_judgment_is_a_loss() {
    let mut c = game();
    let first = c.request(s(ALICE), MIN_REQUEST_GAS, "paper", [1u8; 32]).unwrap();
    let second = c.request(s(BOB), MIN_REQUEST_GAS, "scissors", [2u8; 32]).unwrap();
    assert_eq!(second, first + 1);
    // Bob's challenge resolves first and changes the champion.
    let (r2, m2) = response(true, "rock", true, "accepted");
    c.respond(&s(OPERATOR), second, r2).unwrap();
    c.await_response(second, Some(m2)).unwrap();
    assert_eq!(c.get_champion(), "scissors");
    // Alice's judgment still speaks of "rock".
    let (r1, m1) = response(true, "rock", true, "paper covers rock");
    c.respond(&s(OPERATOR), first, r1.clone()).unwrap();
    assert_eq!(c.await_response(first, Some(m1)), Ok(r1));
    assert_eq!(c.get_champion(), "scissors");
    assert_eq!(c.get_champion_owner(), BOB);
    assert_eq!(c.get_requests().len(), 0);
}

#[test]
fn respond_to_unknown_id_fails() {
    let mut c = game();
    let (resp, _) = response(true, "rock", true, "x");
    assert_eq!(c.respond(&s(OPERATOR), 42, resp), Err(ContractError::NotFound));
    assert_eq!(c.staged_response(42), None);
    assert_eq!(c.get_champion(), "rock");
    assert_eq!(c.next_request_id(), 0);
}

#[test]
fn punctuation_rejected_after_lowercasing() {
    let mut c = game();
    assert_eq!(normalize_message("Paper!"), None);
    assert_eq!(
        c.request(s(ALICE), MIN_REQUEST_GAS, "Paper!", [0u8; 32]),
        Err(ContractError::InvalidInput)
    );
    assert_eq!(c.next_request_id(), 0);
    assert!(c.get_requests().is_empty());
}

#[test]
fn uppercase_message_is_stored_lowercased() {
    let mut c = game();
    assert_eq!(normalize_message("PaPeR"), Some(s("paper")));
    let id = c.request(s(ALICE), MIN_REQUEST_GAS, "PAPER", [3u8; 32]).unwrap();
    let q = c.get_request(id).unwrap();
    assert_eq!(q.message, "paper");
    assert_eq!(q.originator_id, ALICE);
    assert_eq!(q.data_id, [3u8; 32]);
}

#[test]
fn alphabet_check() {
    assert!(is_valid_string("paper"));
    assert!(is_valid_string(""));
    assert!(!is_valid_string("Paper"));
    assert!(!is_valid_string("pap3r"));
    assert!(!is_valid_string("pa per"));
    assert!(!is_valid_string("papér"));
    assert_eq!(normalize_message("r0ck"), None);
}

#[test]
fn remove_request_twice_is_a_no_op() {
    let mut c = game();
    let id = c.request(s(ALICE), MIN_REQUEST_GAS, "paper", [0u8; 32]).unwrap();
    let (resp, _) = response(true, "rock", true, "x");
    c.respond(&s(OPERATOR), id, resp).unwrap();
    assert_eq!(c.remove_request(&s(OPERATOR), id), Ok(()));
    assert_eq!(c.get_request(id), Err(ContractError::NotFound));
    assert_eq!(c.staged_response(id), None);
    assert_eq!(c.remove_request(&s(OPERATOR), id), Ok(()));
    assert_eq!(c.get_requests().len(), 0);
    assert_eq!(c.get_champion(), "rock");
}

#[test]
fn second_resume_fails_not_found() {
    let mut c = game();
    let id = c.request(s(ALICE), MIN_REQUEST_GAS, "paper", [0u8; 32]).unwrap();
    let (resp, msg) = response(true, "rock", false, "rock holds");
    c.respond(&s(OPERATOR), id, resp).unwrap();
    assert!(c.await_response(id, Some(msg.clone())).is_ok());
    assert_eq!(c.await_response(id, Some(msg)), Err(ContractError::NotFound));
    assert_eq!(c.get_champion(), "rock");
}

#[test]
fn history_keeps_every_champion() {
    let mut c = game();
    for (who, word, prev) in [(ALICE, "paper", "rock"), (BOB, "scissors", "paper"), (ALICE, "rock", "scissors")] {
        let id = c.request(s(who), MIN_REQUEST_GAS, word, [0u8; 32]).unwrap();
        let (resp, msg) = response(true, prev, true, "wins");
        c.respond(&s(OPERATOR), id, resp).unwrap();
        c.await_response(id, Some(msg)).unwrap();
    }
    assert_eq!(c.get_champion(), "rock");
    assert_eq!(c.get_champion_owner(), ALICE);
    let all = c.get_all_champions();
    assert_eq!(all.len(), 3);
    assert_eq!(sorted(all), vec![s("paper"), s("rock"), s("scissors")]);
}

#[test]
fn operator_only_actions() {
    let mut c = game();
    let id = c.request(s(ALICE), MIN_REQUEST_GAS, "paper", [0u8; 32]).unwrap();
    let (resp, _) = response(true, "rock", true, "x");
    assert_eq!(c.respond(&s(ALICE), id, resp), Err(ContractError::Unauthorized));
    assert_eq!(c.remove_request(&s(OWNER), id), Err(ContractError::Unauthorized));
    assert_eq!(c.set_system_prompt(&s(ALICE), s("new")), Err(ContractError::Unauthorized));
    assert!(c.get_request(id).is_ok());
    assert_eq!(c.set_system_prompt(&s(OPERATOR), s("Be fair.")), Ok(()));
    let d = c.agent_data(id).unwrap();
    assert_eq!(d.prompt, "Be fair.");
    assert_eq!(d.request.message, "paper");
    assert_eq!(d.champions, vec![s("rock")]);
    assert_eq!(c.agent_data(id + 1), Err(ContractError::NotFound));
}

#[test]
fn paused_service_refuses_requests() {
    let mut c = game();
    assert_eq!(c.set_paused(&s(OPERATOR), true), Err(ContractError::Unauthorized));
    assert!(!c.is_paused());
    assert_eq!(c.set_paused(&s(OWNER), true), Ok(()));
    assert_eq!(
        c.request(s(ALICE), MIN_REQUEST_GAS, "paper", [0u8; 32]),
        Err(ContractError::ServiceUnavailable)
    );
    assert_eq!(c.set_paused(&s(OWNER), false), Ok(()));
    assert_eq!(c.request(s(ALICE), MIN_REQUEST_GAS, "paper", [0u8; 32]), Ok(0));
}

#[test]
fn low_budget_refused() {
    let mut c = game();
    assert_eq!(
        c.request(s(ALICE), MIN_REQUEST_GAS - 1, "paper", [0u8; 32]),
        Err(ContractError::InsufficientBudget)
    );
    assert_eq!(c.next_request_id(), 0);
    assert_eq!(remaining_gas(300_000_000_000_000, 260_000_000_000_000), MIN_REQUEST_GAS);
}

#[test]
fn resume_without_staged_response() {
    let mut c = game();
    let id = c.request(s(ALICE), MIN_REQUEST_GAS, "paper", [0u8; 32]).unwrap();
    let (_, msg) = response(true, "rock", true, "x");
    assert_eq!(c.await_response(id, Some(msg)), Err(ContractError::MissingResponse));
    assert!(c.get_request(id).is_ok());
}

#[test]
fn malformed_judgment_abandons_request() {
    let mut c = game();
    let id = c.request(s(ALICE), MIN_REQUEST_GAS, "paper", [0u8; 32]).unwrap();
    let resp = Response { ok: true, data: Some(s("not json")), signature: None };
    c.respond(&s(OPERATOR), id, resp).unwrap();
    assert_eq!(c.await_response(id, None), Err(ContractError::MalformedJudgment));
    assert_eq!(c.get_request(id), Err(ContractError::NotFound));
    assert_eq!(c.staged_response(id), None);
    assert_eq!(c.get_champion(), "rock");
}

#[test]
fn rejected_response_is_a_loss() {
    let mut c = game();
    let id = c.request(s(ALICE), MIN_REQUEST_GAS, "paper", [0u8; 32]).unwrap();
    let (resp, msg) = response(false, "rock", true, "operator rejected");
    assert!(!is_win(&s("rock"), &resp, &msg));
    c.respond(&s(OPERATOR), id, resp.clone()).unwrap();
    assert_eq!(c.await_response(id, Some(msg)), Ok(resp));
    assert_eq!(c.get_champion(), "rock");
    assert_eq!(c.get_champion_owner(), OWNER);
}

#[test]
fn restaging_overwrites_judgment() {
    let mut c = game();
    let id = c.request(s(ALICE), MIN_REQUEST_GAS, "paper", [0u8; 32]).unwrap();
    let (first, _) = response(true, "rock", false, "first");
    let (second, msg) = response(true, "rock", true, "second");
    c.respond(&s(OPERATOR), id, first).unwrap();
    c.respond(&s(OPERATOR), id, second.clone()).unwrap();
    assert_eq!(c.staged_response(id), Some(second.clone()));
    assert_eq!(c.await_response(id, Some(msg)), Ok(second));
    assert_eq!(c.get_champion(), "paper");
}

#[test]
fn question_names_the_champion() {
    let c = game();
    assert_eq!(c.get_question(), "What beats rock?");
}

#[test]
fn requests_are_listed_once() {
    let mut c = game();
    let a = c.request(s(ALICE), MIN_REQUEST_GAS, "paper", [0u8; 32]).unwrap();
    let b = c.request(s(BOB), MIN_REQUEST_GAS, "scissors", [0u8; 32]).unwrap();
    let mut ids: Vec<u64> = c.get_requests().iter().map(|(id, _)| *id).collect();
    ids.sort();
    assert_eq!(ids, vec![a, b]);
    c.remove_request(&s(OPERATOR), a).unwrap();
    let left = c.get_requests();
    assert_eq!(left.len(), 1);
    assert_eq!(left[0].0, b);
    assert_eq!(left[0].1.message, "scissors");
}
