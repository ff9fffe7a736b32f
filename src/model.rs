//! The abstract state of the contract and what each entry point does to it.
use vstd::prelude::*;
use crate::types::{ContractError, CryptoHash, Gas, RequestId, MIN_REQUEST_GAS};
use crate::validate::{is_valid_message, normalized};

verus! {

pub struct RequestView {
    pub data_id: CryptoHash,
    pub originator_id: Seq<char>,
    pub message: Seq<char>,
}

pub struct ResponseView {
    pub ok: bool,
    pub data: Option<Seq<char>>,
    pub signature: Option<Seq<char>>,
}

pub struct ResponseMsgView {
    pub current_champion: Seq<char>,
    pub guess_wins: bool,
    pub reason: Seq<char>,
}

pub struct ContractModel {
    pub agent_name: Seq<char>,
    pub agent_public_key: Seq<char>,
    pub prompt: Seq<char>,
    pub paused: bool,
    pub owner_id: Seq<char>,
    pub operator_id: Seq<char>,
    /// The request ledger.
    pub requests: Map<RequestId, RequestView>,
    /// Judgments staged for resumption.
    pub responses: Map<RequestId, ResponseView>,
    /// The id that the next request receives.
    pub next_id: nat,
    pub current: Seq<char>,
    pub champion_owner: Seq<char>,
    /// Every value that has ever held the title.
    pub history: Set<Seq<char>>,
}

/// A judgment lets the challenger take the title: the operator marked it `ok`,
/// it says the challenger wins, and it was made against the live champion.
pub open spec fn challenger_wins(
    current: Seq<char>,
    response: ResponseView,
    judgment: ResponseMsgView,
) -> bool {
    &&& response.ok
    &&& judgment.guess_wins
    &&& judgment.current_champion == current
}

/// The title passes to `value`, held by `owner`.
pub open spec fn with_champion(s: ContractModel, value: Seq<char>, owner: Seq<char>) -> ContractModel {
    ContractModel { current: value, champion_owner: owner, history: s.history.insert(value), ..s }
}

pub open spec fn is_operator(s: ContractModel, caller: Seq<char>) -> bool {
    caller == s.operator_id
}

pub open spec fn request_post(
    s: ContractModel,
    t: ContractModel,
    caller: Seq<char>,
    remaining_gas: Gas,
    message: Seq<char>,
    data_id: CryptoHash,
    r: Result<RequestId, ContractError>,
) -> bool {
    if s.paused {
        r == Err::<RequestId, ContractError>(ContractError::ServiceUnavailable) && t == s
    } else if remaining_gas < MIN_REQUEST_GAS {
        r == Err::<RequestId, ContractError>(ContractError::InsufficientBudget) && t == s
    } else if !is_valid_message(message) {
        r == Err::<RequestId, ContractError>(ContractError::InvalidInput) && t == s
    } else {
        &&& r == Ok::<RequestId, ContractError>(s.next_id as RequestId)
        &&& t == (ContractModel {
            requests: s.requests.insert(
                s.next_id as RequestId,
                RequestView { data_id, originator_id: caller, message: normalized(message) },
            ),
            next_id: s.next_id + 1,
            ..s
        })
    }
}

pub open spec fn respond_post(
    s: ContractModel,
    t: ContractModel,
    caller: Seq<char>,
    id: RequestId,
    response: ResponseView,
    r: Result<(), ContractError>,
) -> bool {
    if !is_operator(s, caller) {
        r == Err::<(), ContractError>(ContractError::Unauthorized) && t == s
    } else if !s.requests.contains_key(id) {
        r == Err::<(), ContractError>(ContractError::NotFound) && t == s
    } else {
        r == Ok::<(), ContractError>(()) && t == (ContractModel {
            responses: s.responses.insert(id, response),
            ..s
        })
    }
}

/// The state after a resume has retired request `id` and its judgment.
pub open spec fn retired(s: ContractModel, id: RequestId) -> ContractModel {
    ContractModel { requests: s.requests.remove(id), responses: s.responses.remove(id), ..s }
}

/// Resumption of request `id`, with `judgment` parsed from the staged
/// response's data (`None` when it does not parse).
pub open spec fn resume_post(
    s: ContractModel,
    t: ContractModel,
    id: RequestId,
    judgment: Option<ResponseMsgView>,
    r: Result<ResponseView, ContractError>,
) -> bool {
    if !s.requests.contains_key(id) {
        r == Err::<ResponseView, ContractError>(ContractError::NotFound) && t == s
    } else if !s.responses.contains_key(id) {
        r == Err::<ResponseView, ContractError>(ContractError::MissingResponse) && t == s
    } else {
        match judgment {
            None => r == Err::<ResponseView, ContractError>(ContractError::MalformedJudgment)
                && t == retired(s, id),
            Some(j) => {
                &&& r == Ok::<ResponseView, ContractError>(s.responses[id])
                &&& t == if challenger_wins(s.current, s.responses[id], j) {
                    with_champion(
                        retired(s, id),
                        s.requests[id].message,
                        s.requests[id].originator_id,
                    )
                } else {
                    retired(s, id)
                }
            },
        }
    }
}

pub open spec fn remove_post(
    s: ContractModel,
    t: ContractModel,
    caller: Seq<char>,
    id: RequestId,
    r: Result<(), ContractError>,
) -> bool {
    if !is_operator(s, caller) {
        r == Err::<(), ContractError>(ContractError::Unauthorized) && t == s
    } else {
        r == Ok::<(), ContractError>(()) && t == retired(s, id)
    }
}

pub open spec fn set_paused_post(
    s: ContractModel,
    t: ContractModel,
    caller: Seq<char>,
    paused: bool,
    r: Result<(), ContractError>,
) -> bool {
    if caller == s.owner_id {
        r == Ok::<(), ContractError>(()) && t == (ContractModel { paused, ..s })
    } else {
        r == Err::<(), ContractError>(ContractError::Unauthorized) && t == s
    }
}

pub open spec fn set_prompt_post(
    s: ContractModel,
    t: ContractModel,
    caller: Seq<char>,
    prompt: Seq<char>,
    r: Result<(), ContractError>,
) -> bool {
    if is_operator(s, caller) {
        r == Ok::<(), ContractError>(()) && t == (ContractModel { prompt, ..s })
    } else {
        r == Err::<(), ContractError>(ContractError::Unauthorized) && t == s
    }
}

/// `t` follows from `s` by one call of an entry point that changes state.
pub open spec fn step(s: ContractModel, t: ContractModel) -> bool {
    ||| exists|caller: Seq<char>, gas: Gas, message: Seq<char>, data_id: CryptoHash, r: Result<RequestId, ContractError>|
        #[trigger] request_post(s, t, caller, gas, message, data_id, r)
    ||| exists|caller: Seq<char>, id: RequestId, response: ResponseView, r: Result<(), ContractError>|
        #[trigger] respond_post(s, t, caller, id, response, r)
    ||| exists|id: RequestId, judgment: Option<ResponseMsgView>, r: Result<ResponseView, ContractError>|
        #[trigger] resume_post(s, t, id, judgment, r)
    ||| exists|caller: Seq<char>, id: RequestId, r: Result<(), ContractError>|
        #[trigger] remove_post(s, t, caller, id, r)
    ||| exists|caller: Seq<char>, paused: bool, r: Result<(), ContractError>|
        #[trigger] set_paused_post(s, t, caller, paused, r)
    ||| exists|caller: Seq<char>, prompt: Seq<char>, r: Result<(), ContractError>|
        #[trigger] set_prompt_post(s, t, caller, prompt, r)
}

} // verus!
