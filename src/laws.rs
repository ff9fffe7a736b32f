//! Properties of whole runs of the contract, proved over the transition
//! predicates that the entry points guarantee.
use vstd::prelude::*;
use crate::model::{
    remove_post, request_post, respond_post, resume_post, set_paused_post, set_prompt_post, step,
    ContractModel, ResponseMsgView, ResponseView,
};
use crate::types::{ContractError, CryptoHash, Gas, RequestId};
use crate::validate::normalized;

verus! {

/// A challenge that is accepted, then judged a win against the champion of
/// the time it was staged, and then resumed, takes the title: the champion
/// becomes the stored message, held by the challenger, and joins the history.
pub proof fn lemma_winning_challenge_takes_title(
    s0: ContractModel,
    s1: ContractModel,
    s2: ContractModel,
    s3: ContractModel,
    caller: Seq<char>,
    gas: Gas,
    message: Seq<char>,
    data_id: CryptoHash,
    id: RequestId,
    operator: Seq<char>,
    response: ResponseView,
    judgment: ResponseMsgView,
    r3: Result<ResponseView, ContractError>,
)
    requires
        request_post(s0, s1, caller, gas, message, data_id, Ok(id)),
        respond_post(s1, s2, operator, id, response, Ok(())),
        resume_post(s2, s3, id, Some(judgment), r3),
        response.ok,
        judgment.guess_wins,
        judgment.current_champion == s1.current,
    ensures
        r3 == Ok::<ResponseView, ContractError>(response),
        s3.current == normalized(message),
        s3.champion_owner == caller,
        s3.history.contains(normalized(message)),
        !s3.requests.contains_key(id),
{
}

/// A judgment made against another champion than the live one never changes
/// the champion, its owner or the history, whatever it says of the challenger.
pub proof fn lemma_stale_judgment_changes_no_champion(
    s: ContractModel,
    t: ContractModel,
    id: RequestId,
    judgment: ResponseMsgView,
    r: Result<ResponseView, ContractError>,
)
    requires
        resume_post(s, t, id, Some(judgment), r),
        judgment.current_champion != s.current,
    ensures
        t.current == s.current,
        t.champion_owner == s.champion_owner,
        t.history == s.history,
{
}

/// Removing a request a second time changes nothing and succeeds as the
/// first removal did.
pub proof fn lemma_remove_request_idempotent(
    s0: ContractModel,
    s1: ContractModel,
    s2: ContractModel,
    caller: Seq<char>,
    id: RequestId,
    r1: Result<(), ContractError>,
    r2: Result<(), ContractError>,
)
    requires
        remove_post(s0, s1, caller, id, r1),
        remove_post(s1, s2, caller, id, r2),
    ensures
        s2 == s1,
        r2 == r1,
{
    if r1 is Ok {
        assert(s1.requests.remove(id) =~= s1.requests);
        assert(s1.responses.remove(id) =~= s1.responses);
    }
}

/// A request is resolved at most once: after a successful resume its id has
/// left the ledger, and a second resume of it fails with `NotFound` and
/// changes nothing.
pub proof fn lemma_resolved_at_most_once(
    s0: ContractModel,
    s1: ContractModel,
    s2: ContractModel,
    id: RequestId,
    j1: Option<ResponseMsgView>,
    j2: Option<ResponseMsgView>,
    r1: Result<ResponseView, ContractError>,
    r2: Result<ResponseView, ContractError>,
)
    requires
        resume_post(s0, s1, id, j1, r1),
        r1 is Ok,
        resume_post(s1, s2, id, j2, r2),
    ensures
        !s1.requests.contains_key(id),
        r2 == Err::<ResponseView, ContractError>(ContractError::NotFound),
        s2 == s1,
{
}

/// No entry point takes a value out of the history: a champion once written
/// stays among those that `get_all_champions` lists.
pub proof fn lemma_history_kept(s: ContractModel, t: ContractModel, value: Seq<char>)
    requires
        step(s, t),
        s.history.contains(value),
    ensures
        t.history.contains(value),
{
    if exists|caller: Seq<char>, gas: Gas, message: Seq<char>, data_id: CryptoHash, r: Result<RequestId, ContractError>|
        #[trigger] request_post(s, t, caller, gas, message, data_id, r) {
        let (caller, gas, message, data_id, r) = choose|caller: Seq<char>, gas: Gas, message: Seq<char>, data_id: CryptoHash, r: Result<RequestId, ContractError>|
            #[trigger] request_post(s, t, caller, gas, message, data_id, r);
        assert(t.history == s.history);
    } else if exists|caller: Seq<char>, id: RequestId, response: ResponseView, r: Result<(), ContractError>|
        #[trigger] respond_post(s, t, caller, id, response, r) {
        let (caller, id, response, r) = choose|caller: Seq<char>, id: RequestId, response: ResponseView, r: Result<(), ContractError>|
            #[trigger] respond_post(s, t, caller, id, response, r);
        assert(t.history == s.history);
    } else if exists|id: RequestId, judgment: Option<ResponseMsgView>, r: Result<ResponseView, ContractError>|
        #[trigger] resume_post(s, t, id, judgment, r) {
        let (id, judgment, r) = choose|id: RequestId, judgment: Option<ResponseMsgView>, r: Result<ResponseView, ContractError>|
            #[trigger] resume_post(s, t, id, judgment, r);
        assert(s.history.subset_of(t.history));
    } else if exists|caller: Seq<char>, id: RequestId, r: Result<(), ContractError>|
        #[trigger] remove_post(s, t, caller, id, r) {
        let (caller, id, r) = choose|caller: Seq<char>, id: RequestId, r: Result<(), ContractError>|
            #[trigger] remove_post(s, t, caller, id, r);
        assert(t.history == s.history);
    } else if exists|caller: Seq<char>, paused: bool, r: Result<(), ContractError>|
        #[trigger] set_paused_post(s, t, caller, paused, r) {
        let (caller, paused, r) = choose|caller: Seq<char>, paused: bool, r: Result<(), ContractError>|
            #[trigger] set_paused_post(s, t, caller, paused, r);
        assert(t.history == s.history);
    } else {
        let (caller, prompt, r) = choose|caller: Seq<char>, prompt: Seq<char>, r: Result<(), ContractError>|
            #[trigger] set_prompt_post(s, t, caller, prompt, r);
        assert(t.history == s.history);
    }
}

} // verus!
