//! The records that the contract keeps and hands out.
use vstd::prelude::*;
use crate::model::{RequestView, ResponseMsgView, ResponseView};

verus! {

/// Sequential number of a request; never reused.
pub type RequestId = u64;

/// The host's fixed-size identifier of a suspended computation.
pub type CryptoHash = [u8; 32];

/// Computation budget, in gas units.
pub type Gas = u64;

/// Gas that a caller must still hold when asking, so that the resume can run.
pub const MIN_REQUEST_GAS: Gas = 40_000_000_000_000;

/// Gas set aside for the resume of a suspended request.
pub const MIN_RESPONSE_GAS: Gas = 40_000_000_000_000;

/// An in-flight challenge.
#[derive(Debug, Clone, PartialEq, Eq)]
pub struct Request {
    pub data_id: CryptoHash,
    pub originator_id: String,
    pub message: String,
}

impl View for Request {
    type V = RequestView;

    open spec fn view(&self) -> RequestView {
        RequestView {
            data_id: self.data_id,
            originator_id: self.originator_id@,
            message: self.message@,
        }
    }
}

impl Request {
    pub fn duplicate(&self) -> (r: Request)
        ensures
            r == *self,
    {
        Request {
            data_id: self.data_id,
            originator_id: self.originator_id.clone(),
            message: self.message.clone(),
        }
    }
}

/// A judgment as the operator submits it.
#[derive(Debug, Clone, PartialEq, Eq)]
pub struct Response {
    pub ok: bool,
    pub data: Option<String>,
    pub signature: Option<String>,
}

pub open spec fn opt_view(s: Option<String>) -> Option<Seq<char>> {
    match s {
        Some(x) => Some(x@),
        None => None,
    }
}

impl View for Response {
    type V = ResponseView;

    open spec fn view(&self) -> ResponseView {
        ResponseView { ok: self.ok, data: opt_view(self.data), signature: opt_view(self.signature) }
    }
}

fn clone_opt_string(s: &Option<String>) -> (r: Option<String>)
    ensures
        r == *s,
{
    match s {
        Some(x) => Some(x.clone()),
        None => None,
    }
}

impl Response {
    pub fn duplicate(&self) -> (r: Response)
        ensures
            r == *self,
    {
        Response {
            ok: self.ok,
            data: clone_opt_string(&self.data),
            signature: clone_opt_string(&self.signature),
        }
    }
}

/// The judgment payload carried in `Response::data`.
#[derive(Debug, Clone, PartialEq, Eq)]
pub struct ResponseMsg {
    pub current_champion: String,
    pub guess_wins: bool,
    pub reason: String,
}

impl View for ResponseMsg {
    type V = ResponseMsgView;

    open spec fn view(&self) -> ResponseMsgView {
        ResponseMsgView {
            current_champion: self.current_champion@,
            guess_wins: self.guess_wins,
            reason: self.reason@,
        }
    }
}

/// What the judging process needs to decide on one request.
#[derive(Debug, Clone, PartialEq, Eq)]
pub struct AgentData {
    pub request: Request,
    pub champions: Vec<String>,
    pub prompt: String,
}

/// Why an operation was refused.
#[derive(Debug, Clone, Copy, PartialEq, Eq, Structural)]
pub enum ContractError {
    Unauthorized,
    ServiceUnavailable,
    InvalidInput,
    InsufficientBudget,
    NotFound,
    DuplicateId,
    MissingResponse,
    MalformedJudgment,
}

} // verus!
