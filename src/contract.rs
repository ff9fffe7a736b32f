//! The champion contract: access control, champion state, the request
//! ledger, the response store and the suspend/resume coordinator.
use vstd::prelude::*;
use crate::model::{
    challenger_wins, is_operator, remove_post, request_post, respond_post, resume_post, retired,
    set_paused_post, set_prompt_post, with_champion, ContractModel,
};
use crate::store::{map_of, unique_ids, IdStore};
use crate::types::{
    AgentData, ContractError, CryptoHash, Gas, Request, RequestId, Response, ResponseMsg,
    MIN_REQUEST_GAS,
};
use crate::validate::{is_valid_message, normalize_message, normalized};

verus! {

pub struct Contract {
    agent_name: String,
    agent_public_key: String,
    agent_system_prompt: String,
    paused: bool,
    requests: IdStore<Request>,
    responses: IdStore<Response>,
    num_requests: u64,
    owner_id: String,
    operator_id: String,
    current_champion: String,
    champion_owner: String,
    all_champions: Vec<String>,
}

/// The contract's state as plain values, as it is written to storage.
pub struct ContractParts {
    pub agent_name: String,
    pub agent_public_key: String,
    pub agent_system_prompt: String,
    pub paused: bool,
    pub requests: Vec<(RequestId, Request)>,
    pub responses: Vec<(RequestId, Response)>,
    pub num_requests: u64,
    pub owner_id: String,
    pub operator_id: String,
    pub current_champion: String,
    pub champion_owner: String,
    pub all_champions: Vec<String>,
}

/// Stored parts make a contract when ids are unique and below the next id,
/// the history repeats no value and holds the live champion.
pub open spec fn parts_valid(p: ContractParts) -> bool {
    &&& unique_ids(p.requests@)
    &&& unique_ids(p.responses@)
    &&& forall|i: int| 0 <= i < p.requests@.len() ==> #[trigger] p.requests@[i].0 < p.num_requests
    &&& distinct_strings(p.all_champions@)
    &&& strings_set(p.all_champions@).contains(p.current_champion@)
}

/// The contract that stored parts describe.
pub open spec fn parts_model(p: ContractParts) -> ContractModel {
    ContractModel {
        agent_name: p.agent_name@,
        agent_public_key: p.agent_public_key@,
        prompt: p.agent_system_prompt@,
        paused: p.paused,
        owner_id: p.owner_id@,
        operator_id: p.operator_id@,
        requests: map_of(p.requests@).map_values(|r: Request| r@),
        responses: map_of(p.responses@).map_values(|r: Response| r@),
        next_id: p.num_requests as nat,
        current: p.current_champion@,
        champion_owner: p.champion_owner@,
        history: strings_set(p.all_champions@),
    }
}

/// The set of values that a list of strings holds.
pub open spec fn strings_set(v: Seq<String>) -> Set<Seq<char>> {
    Set::new(|x: Seq<char>| exists|i: int| 0 <= i < v.len() && #[trigger] v[i]@ == x)
}

/// No value occurs twice in the list.
pub open spec fn distinct_strings(v: Seq<String>) -> bool {
    forall|i: int, j: int|
        0 <= i < v.len() && 0 <= j < v.len() && i != j ==> #[trigger] v[i]@ != #[trigger] v[j]@
}

impl View for Contract {
    type V = ContractModel;

    closed spec fn view(&self) -> ContractModel {
        ContractModel {
            agent_name: self.agent_name@,
            agent_public_key: self.agent_public_key@,
            prompt: self.agent_system_prompt@,
            paused: self.paused,
            owner_id: self.owner_id@,
            operator_id: self.operator_id@,
            requests: self.requests@.map_values(|r: Request| r@),
            responses: self.responses@.map_values(|r: Response| r@),
            next_id: self.num_requests as nat,
            current: self.current_champion@,
            champion_owner: self.champion_owner@,
            history: strings_set(self.all_champions@),
        }
    }
}

/// The contract's own invariant, as its model shows it: ids below the next
/// one, the live champion among the past ones.
pub open spec fn model_wf(s: ContractModel) -> bool {
    &&& forall|id: RequestId| #[trigger] s.requests.contains_key(id) ==> id < s.next_id
    &&& s.history.contains(s.current)
    &&& s.history.finite()
}

impl Contract {
    pub closed spec fn wf(&self) -> bool {
        &&& self.requests.wf()
        &&& self.responses.wf()
        &&& distinct_strings(self.all_champions@)
        &&& model_wf(self@)
    }

    pub proof fn lemma_wf(&self)
        requires
            self.wf(),
        ensures
            model_wf(self@),
    {
    }

    pub fn new(
        owner_id: String,
        operator_id: String,
        initial_champion: String,
        agent_name: String,
        agent_system_prompt: String,
        agent_public_key: String,
    ) -> (r: Self)
        ensures
            r.wf(),
            r@ == (ContractModel {
                agent_name: agent_name@,
                agent_public_key: agent_public_key@,
                prompt: agent_system_prompt@,
                paused: false,
                owner_id: owner_id@,
                operator_id: operator_id@,
                requests: Map::empty(),
                responses: Map::empty(),
                next_id: 0,
                current: initial_champion@,
                champion_owner: owner_id@,
                history: set![initial_champion@],
            }),
    {
        let mut all_champions: Vec<String> = Vec::new();
        all_champions.push(initial_champion.clone());
        let r = Contract {
            agent_name,
            agent_public_key,
            agent_system_prompt,
            paused: false,
            requests: IdStore::new(),
            responses: IdStore::new(),
            num_requests: 0,
            owner_id: owner_id.clone(),
            operator_id,
            current_champion: initial_champion,
            champion_owner: owner_id,
            all_champions,
        };
        proof {
            assert(r.all_champions@[0]@ == r.current_champion@);
            assert(strings_set(r.all_champions@) =~= set![r.current_champion@]);
            assert(r.requests@.map_values(|q: Request| q@) =~= Map::empty());
            assert(r.responses@.map_values(|q: Response| q@) =~= Map::empty());
        }
        r
    }

    /// Every value that has held the title, each once.
    /// Takes the contract apart for storage.
    pub fn into_parts(self) -> (r: ContractParts)
        requires
            self.wf(),
        ensures
            parts_valid(r),
            parts_model(r) == self@,
    {
        let ghost model = self@;
        let ghost reqs = self.requests.entries_seq();
        proof {
            self.requests.lemma_entries_match();
        }
        let requests = self.requests.into_vec();
        let responses = self.responses.into_vec();
        let r = ContractParts {
            agent_name: self.agent_name,
            agent_public_key: self.agent_public_key,
            agent_system_prompt: self.agent_system_prompt,
            paused: self.paused,
            requests,
            responses,
            num_requests: self.num_requests,
            owner_id: self.owner_id,
            operator_id: self.operator_id,
            current_champion: self.current_champion,
            champion_owner: self.champion_owner,
            all_champions: self.all_champions,
        };
        assert forall|i: int| 0 <= i < r.requests@.len() implies #[trigger] r.requests@[i].0
            < r.num_requests by {
            assert(model.requests.contains_key(reqs[i].0));
        }
        r
    }

    /// Rebuilds a contract from stored parts; `None` when they break its invariant.
    pub fn from_parts(parts: ContractParts) -> (r: Option<Contract>)
        ensures
            r is Some <==> parts_valid(parts),
            match r {
                Some(c) => c.wf() && c@ == parts_model(parts),
                None => true,
            },
    {
        let ghost p = parts;
        let n = parts.requests.len();
        let mut i: usize = 0;
        while i < n
            invariant
                n == parts.requests@.len(),
                i <= n,
                forall|j: int| 0 <= j < i ==> #[trigger] parts.requests@[j].0 < parts.num_requests,
            decreases n - i,
        {
            if parts.requests[i].0 >= parts.num_requests {
                return None;
            }
            i = i + 1;
        }
        let m = parts.all_champions.len();
        let mut found = false;
        let mut a: usize = 0;
        while a < m
            invariant
                m == parts.all_champions@.len(),
                a <= m,
                found ==> strings_set(parts.all_champions@).contains(parts.current_champion@),
                !found ==> forall|j: int| 0 <= j < a ==> #[trigger] parts.all_champions@[j]@
                    != parts.current_champion@,
                forall|x: int, y: int|
                    0 <= x < a && 0 <= y < m && x != y ==> #[trigger] parts.all_champions@[x]@
                        != #[trigger] parts.all_champions@[y]@,
            decreases m - a,
        {
            if parts.all_champions[a] == parts.current_champion {
                found = true;
            }
            let mut b: usize = 0;
            while b < m
                invariant
                    m == parts.all_champions@.len(),
                    a < m,
                    b <= m,
                    forall|y: int| 0 <= y < b && y != a ==> parts.all_champions@[a as int]@
                        != #[trigger] parts.all_champions@[y]@,
                decreases m - b,
            {
                if b != a && parts.all_champions[a] == parts.all_champions[b] {
                    return None;
                }
                b = b + 1;
            }
            a = a + 1;
        }
        if !found {
            return None;
        }
        let requests = match IdStore::from_vec(parts.requests) {
            Some(st) => st,
            None => return None,
        };
        let responses = match IdStore::from_vec(parts.responses) {
            Some(st) => st,
            None => return None,
        };
        let c = Contract {
            agent_name: parts.agent_name,
            agent_public_key: parts.agent_public_key,
            agent_system_prompt: parts.agent_system_prompt,
            paused: parts.paused,
            requests,
            responses,
            num_requests: parts.num_requests,
            owner_id: parts.owner_id,
            operator_id: parts.operator_id,
            current_champion: parts.current_champion,
            champion_owner: parts.champion_owner,
            all_champions: parts.all_champions,
        };
        proof {
            lemma_distinct_len(c.all_champions@);
            assert forall|id: RequestId| #[trigger] c@.requests.contains_key(id) implies id
                < c@.next_id by {
                let j = choose|j: int| 0 <= j < p.requests@.len() && #[trigger] p.requests@[j].0 == id;
                assert(p.requests@[j].0 < p.num_requests);
            }
        }
        Some(c)
    }

    pub fn get_all_champions(&self) -> (r: Vec<String>)
        requires
            self.wf(),
        ensures
            strings_set(r@) == self@.history,
            distinct_strings(r@),
            r@.len() == self@.history.len(),
    {
        let mut r: Vec<String> = Vec::new();
        let mut i: usize = 0;
        while i < self.all_champions.len()
            invariant
                i <= self.all_champions@.len(),
                r@ == self.all_champions@.subrange(0, i as int),
            decreases self.all_champions@.len() - i,
        {
            r.push(self.all_champions[i].clone());
            i = i + 1;
            assert(r@ =~= self.all_champions@.subrange(0, i as int));
        }
        assert(r@ =~= self.all_champions@);
        proof {
            lemma_distinct_len(r@);
        }
        r
    }

    pub fn get_champion(&self) -> (r: String)
        ensures
            r@ == self@.current,
    {
        self.current_champion.clone()
    }

    pub fn get_champion_owner(&self) -> (r: String)
        ensures
            r@ == self@.champion_owner,
    {
        self.champion_owner.clone()
    }

    pub fn is_paused(&self) -> (r: bool)
        ensures
            r == self@.paused,
    {
        self.paused
    }

    /// The id that the next request will receive.
    pub fn next_request_id(&self) -> (r: RequestId)
        ensures
            r as nat == self@.next_id,
    {
        self.num_requests
    }

    pub fn get_request(&self, request_id: RequestId) -> (r: Result<Request, ContractError>)
        requires
            self.wf(),
        ensures
            match r {
                Ok(q) => self@.requests.contains_key(request_id) && q@ == self@.requests[request_id],
                Err(e) => !self@.requests.contains_key(request_id) && e == ContractError::NotFound,
            },
    {
        match self.requests.get(request_id) {
            Some(q) => Ok(q.duplicate()),
            None => Err(ContractError::NotFound),
        }
    }

    /// The judgment staged for `request_id`, if any.
    pub fn staged_response(&self, request_id: RequestId) -> (r: Option<Response>)
        requires
            self.wf(),
        ensures
            match r {
                Some(q) => self@.responses.contains_key(request_id) && q@
                    == self@.responses[request_id],
                None => !self@.responses.contains_key(request_id),
            },
    {
        match self.responses.get(request_id) {
            Some(q) => Some(q.duplicate()),
            None => None,
        }
    }

    pub fn get_question(&self) -> (r: String)
        ensures
            r@ == "What beats "@ + self@.current + "?"@,
    {
        let mut q = String::from_str("What beats ");
        q.append(self.current_champion.as_str());
        q.append("?");
        q
    }

    /// Every request in flight, each once.
    pub fn get_requests(&self) -> (r: Vec<(RequestId, Request)>)
        requires
            self.wf(),
        ensures
            forall|i: int|
                0 <= i < r@.len() ==> {
                    &&& self@.requests.contains_key(#[trigger] r@[i].0)
                    &&& self@.requests[r@[i].0] == r@[i].1@
                },
            forall|id: RequestId|
                #[trigger] self@.requests.contains_key(id) ==> exists|i: int|
                    0 <= i < r@.len() && #[trigger] r@[i].0 == id,
            forall|i: int, j: int|
                0 <= i < r@.len() && 0 <= j < r@.len() && i != j ==> #[trigger] r@[i].0
                    != #[trigger] r@[j].0,
    {
        proof {
            self.requests.lemma_entries_match();
        }
        let ghost es = self.requests.entries_seq();
        let n = self.requests.len();
        let mut r: Vec<(RequestId, Request)> = Vec::new();
        let mut i: usize = 0;
        while i < n
            invariant
                n == es.len(),
                es == self.requests.entries_seq(),
                i <= n,
                r@.len() == i,
                forall|j: int| 0 <= j < i ==> #[trigger] r@[j] == es[j],
            decreases n - i,
        {
            let e = self.requests.entry_at(i);
            r.push((e.0, e.1.duplicate()));
            i = i + 1;
        }
        assert forall|id: RequestId| #[trigger] self@.requests.contains_key(id) implies exists|i: int|
            0 <= i < r@.len() && #[trigger] r@[i].0 == id by {
            assert(self.requests@.contains_key(id));
            let k = choose|k: int| 0 <= k < es.len() && #[trigger] es[k].0 == id;
            assert(r@[k].0 == id);
        }
        r
    }

    pub fn agent_data(&self, request_id: RequestId) -> (r: Result<AgentData, ContractError>)
        requires
            self.wf(),
        ensures
            match r {
                Ok(d) => {
                    &&& self@.requests.contains_key(request_id)
                    &&& d.request@ == self@.requests[request_id]
                    &&& strings_set(d.champions@) == self@.history
                    &&& distinct_strings(d.champions@)
                    &&& d.prompt@ == self@.prompt
                },
                Err(e) => !self@.requests.contains_key(request_id) && e == ContractError::NotFound,
            },
    {
        match self.get_request(request_id) {
            Ok(request) => Ok(
                AgentData {
                    request,
                    champions: self.get_all_champions(),
                    prompt: self.agent_system_prompt.clone(),
                },
            ),
            Err(e) => Err(e),
        }
    }

    pub fn assert_paused(&self) -> (r: Result<(), ContractError>)
        ensures
            r == if self@.paused {
                Err::<(), ContractError>(ContractError::ServiceUnavailable)
            } else {
                Ok::<(), ContractError>(())
            },
    {
        if self.paused {
            Err(ContractError::ServiceUnavailable)
        } else {
            Ok(())
        }
    }

    pub fn assert_operator(&self, caller: &String) -> (r: Result<(), ContractError>)
        ensures
            r == if is_operator(self@, caller@) {
                Ok::<(), ContractError>(())
            } else {
                Err::<(), ContractError>(ContractError::Unauthorized)
            },
    {
        if *caller == self.operator_id {
            Ok(())
        } else {
            Err(ContractError::Unauthorized)
        }
    }
}

/// Whether a judgment hands the title to the challenger, given the live champion.
pub fn is_win(current: &String, response: &Response, judgment: &ResponseMsg) -> (r: bool)
    ensures
        r == challenger_wins(current@, response@, judgment@),
{
    response.ok && judgment.guess_wins && judgment.current_champion == *current
}

/// Gas left of what was prepaid.
pub fn remaining_gas(prepaid: Gas, used: Gas) -> (r: Gas)
    requires
        used <= prepaid,
    ensures
        r == prepaid - used,
{
    prepaid - used
}

impl Contract {
    /// Records `value` as the champion, held by `owner`; the history keeps it.
    fn set_champion(&mut self, new_champion: String, new_champion_owner: String)
        requires
            old(self).wf(),
        ensures
            final(self).wf(),
            final(self)@ == with_champion(old(self)@, new_champion@, new_champion_owner@),
    {
        let ghost h = self.all_champions@;
        let mut i: usize = 0;
        let mut found = false;
        while i < self.all_champions.len()
            invariant
                self.all_champions@ == h,
                i <= h.len(),
                found ==> strings_set(h).contains(new_champion@),
                !found ==> forall|j: int| 0 <= j < i ==> #[trigger] h[j]@ != new_champion@,
            decreases h.len() - i,
        {
            if self.all_champions[i] == new_champion {
                found = true;
            }
            i = i + 1;
        }
        if !found {
            self.all_champions.push(new_champion.clone());
            proof {
                let v = self.all_champions@;
                assert(strings_set(v) =~= strings_set(h).insert(new_champion@)) by {
                    assert(v[h.len() as int]@ == new_champion@);
                    assert forall|x: Seq<char>| strings_set(h).contains(x) implies strings_set(
                        v,
                    ).contains(x) by {
                        let k = choose|k: int| 0 <= k < h.len() && #[trigger] h[k]@ == x;
                        assert(v[k]@ == x);
                    }
                }
                assert(distinct_strings(v)) by {
                    assert forall|a: int, b: int|
                        0 <= a < v.len() && 0 <= b < v.len() && a != b implies #[trigger] v[a]@
                            != #[trigger] v[b]@ by {
                        if a < h.len() && b < h.len() {
                            assert(v[a] == h[a] && v[b] == h[b]);
                        } else if a < h.len() {
                            assert(v[a] == h[a]);
                        } else {
                            assert(v[b] == h[b]);
                        }
                    }
                }
            }
        } else {
            assert(strings_set(h).insert(new_champion@) =~= strings_set(h));
        }
        self.current_champion = new_champion;
        self.champion_owner = new_champion_owner;
        assert(self@.requests == old(self)@.requests);
    }

    /// The owner pauses or resumes the creation of requests.
    pub fn set_paused(&mut self, caller: &String, paused: bool) -> (r: Result<(), ContractError>)
        requires
            old(self).wf(),
        ensures
            final(self).wf(),
            set_paused_post(old(self)@, final(self)@, caller@, paused, r),
    {
        if *caller != self.owner_id {
            return Err(ContractError::Unauthorized);
        }
        self.paused = paused;
        assert(self@ == (ContractModel { paused, ..old(self)@ }));
        Ok(())
    }

    pub fn set_system_prompt(&mut self, caller: &String, prompt: String) -> (r: Result<(), ContractError>)
        requires
            old(self).wf(),
        ensures
            final(self).wf(),
            set_prompt_post(old(self)@, final(self)@, caller@, prompt@, r),
    {
        match self.assert_operator(caller) {
            Err(e) => Err(e),
            Ok(()) => {
                self.agent_system_prompt = prompt;
                assert(self@ == (ContractModel { prompt: self.agent_system_prompt@, ..old(self)@ }));
                Ok(())
            },
        }
    }

    /// Opens a challenge: checks the service, the caller's budget and the
    /// message, then parks the request under the next id, bound to the host's
    /// continuation token `data_id`.
    pub fn request(
        &mut self,
        caller: String,
        remaining_gas: Gas,
        message: &str,
        data_id: CryptoHash,
    ) -> (r: Result<RequestId, ContractError>)
        requires
            old(self).wf(),
            old(self)@.next_id < u64::MAX,
        ensures
            final(self).wf(),
            request_post(old(self)@, final(self)@, caller@, remaining_gas, message@, data_id, r),
    {
        match self.assert_paused() {
            Err(e) => return Err(e),
            Ok(()) => {},
        }
        if remaining_gas < MIN_REQUEST_GAS {
            return Err(ContractError::InsufficientBudget);
        }
        let normalized_message = match normalize_message(message) {
            Some(m) => m,
            None => return Err(ContractError::InvalidInput),
        };
        let request_id = self.num_requests;
        if self.requests.contains(request_id) {
            proof {
                assert(self@.requests.contains_key(request_id));
            }
            return Err(ContractError::DuplicateId);
        }
        let request = Request { data_id, originator_id: caller, message: normalized_message };
        let ghost old_model = self@;
        let ghost rv = request@;
        self.requests.insert_new(request_id, request);
        self.num_requests = self.num_requests + 1;
        proof {
            assert(self.requests@.map_values(|q: Request| q@) =~= old_model.requests.insert(
                request_id,
                rv,
            ));
            assert forall|id: RequestId| #[trigger] self@.requests.contains_key(id) implies id
                < self@.next_id by {
                if id != request_id {
                    assert(old_model.requests.contains_key(id));
                }
            }
        }
        Ok(request_id)
    }

    /// The operator stages a judgment for a request in flight; the host is
    /// then signalled to resume it.
    pub fn respond(&mut self, caller: &String, request_id: RequestId, response: Response) -> (r: Result<
        (),
        ContractError,
    >)
        requires
            old(self).wf(),
        ensures
            final(self).wf(),
            respond_post(old(self)@, final(self)@, caller@, request_id, response@, r),
    {
        match self.assert_operator(caller) {
            Err(e) => return Err(e),
            Ok(()) => {},
        }
        if !self.requests.contains(request_id) {
            return Err(ContractError::NotFound);
        }
        let ghost old_model = self@;
        let ghost rv = response@;
        self.responses.put(request_id, response);
        proof {
            assert(self.responses@.map_values(|q: Response| q@) =~= old_model.responses.insert(
                request_id,
                rv,
            ));
            assert(self@.requests == old_model.requests);
        }
        Ok(())
    }

    /// Drops request `id` and its staged judgment from the model and the stores.
    fn retire(&mut self, request_id: RequestId) -> (r: (Option<Request>, Option<Response>))
        requires
            old(self).wf(),
        ensures
            final(self).wf(),
            final(self)@ == retired(old(self)@, request_id),
            match r.0 {
                Some(q) => old(self)@.requests.contains_key(request_id) && q@
                    == old(self)@.requests[request_id],
                None => !old(self)@.requests.contains_key(request_id),
            },
            match r.1 {
                Some(q) => old(self)@.responses.contains_key(request_id) && q@
                    == old(self)@.responses[request_id],
                None => !old(self)@.responses.contains_key(request_id),
            },
    {
        let ghost old_model = self@;
        let q = self.requests.remove(request_id);
        let p = self.responses.remove(request_id);
        proof {
            assert(self.requests@.map_values(|q: Request| q@) =~= old_model.requests.remove(
                request_id,
            ));
            assert(self.responses@.map_values(|q: Response| q@) =~= old_model.responses.remove(
                request_id,
            ));
        }
        (q, p)
    }

    /// Resumes request `request_id` with the judgment parsed from its staged
    /// response (`None` when the data does not parse). The request and the
    /// response are retired; the title passes to the challenger only when the
    /// judgment is a win made against the live champion.
    pub fn await_response(&mut self, request_id: RequestId, judgment: Option<ResponseMsg>) -> (r:
        Result<Response, ContractError>)
        requires
            old(self).wf(),
        ensures
            final(self).wf(),
            resume_post(
                old(self)@,
                final(self)@,
                request_id,
                match judgment {
                    Some(j) => Some(j@),
                    None => None,
                },
                match r {
                    Ok(q) => Ok(q@),
                    Err(e) => Err(e),
                },
            ),
    {
        if !self.requests.contains(request_id) {
            return Err(ContractError::NotFound);
        }
        if !self.responses.contains(request_id) {
            return Err(ContractError::MissingResponse);
        }
        let (request, response) = self.retire(request_id);
        let request = request.unwrap();
        let response = response.unwrap();
        match judgment {
            None => Err(ContractError::MalformedJudgment),
            Some(j) => {
                if is_win(&self.current_champion, &response, &j) {
                    self.set_champion(request.message, request.originator_id);
                }
                Ok(response)
            },
        }
    }

    /// The operator's escape hatch: forgets a request and its staged judgment
    /// without resuming it. Removing an absent id changes nothing.
    pub fn remove_request(&mut self, caller: &String, request_id: RequestId) -> (r: Result<
        (),
        ContractError,
    >)
        requires
            old(self).wf(),
        ensures
            final(self).wf(),
            remove_post(old(self)@, final(self)@, caller@, request_id, r),
    {
        match self.assert_operator(caller) {
            Err(e) => return Err(e),
            Ok(()) => {},
        }
        let _ = self.retire(request_id);
        Ok(())
    }
}

/// A list without repeated values has as many items as the set it holds.
proof fn lemma_distinct_len(v: Seq<String>)
    requires
        distinct_strings(v),
    ensures
        strings_set(v).finite(),
        strings_set(v).len() == v.len(),
    decreases v.len(),
{
    if v.len() == 0 {
        assert(strings_set(v) =~= Set::empty());
    } else {
        let p = v.drop_last();
        assert(distinct_strings(p)) by {
            assert forall|i: int, j: int|
                0 <= i < p.len() && 0 <= j < p.len() && i != j implies #[trigger] p[i]@
                    != #[trigger] p[j]@ by {
                assert(p[i] == v[i] && p[j] == v[j]);
            }
        }
        lemma_distinct_len(p);
        let last = v[v.len() - 1]@;
        assert(strings_set(v) =~= strings_set(p).insert(last)) by {
            assert forall|x: Seq<char>| strings_set(v).contains(x) implies strings_set(p).insert(
                last,
            ).contains(x) by {
                let i = choose|i: int| 0 <= i < v.len() && #[trigger] v[i]@ == x;
                if i < v.len() - 1 {
                    assert(p[i]@ == x);
                }
            }
            assert forall|x: Seq<char>| strings_set(p).insert(last).contains(x) implies strings_set(
                v,
            ).contains(x) by {
                if x == last {
                    assert(v[v.len() - 1]@ == x);
                } else {
                    let i = choose|i: int| 0 <= i < p.len() && #[trigger] p[i]@ == x;
                    assert(v[i]@ == x);
                }
            }
        }
        assert(!strings_set(p).contains(last)) by {
            if strings_set(p).contains(last) {
                let i = choose|i: int| 0 <= i < p.len() && #[trigger] p[i]@ == last;
                assert(v[i]@ == v[v.len() - 1]@);
            }
        }
    }
}

} // verus!
