//! Decisions on requests.

use vstd::prelude::*;
use vstd::utf8::encode_utf8;

use crate::ordered::{lookup, TextMap};
use crate::text::{str_opt, text_opt};
use crate::wasm::types::{WasmDecision, WasmDecisionView, WasmRequest, WasmRequestView};
use crate::wasm::vm::{can_decide, has_interface, load_error, WasmError, WasmErrorView, WasmVm};

verus! {

/// What a module is told of a request.
#[derive(Debug)]
pub struct RequestMeta {
    pub client_ip: String,
    pub method: String,
    pub path: String,
    pub query: Option<String>,
    pub user_agent: Option<String>,
    pub headers: TextMap<String>,
    pub body: Option<String>,
}

/// A [`RequestMeta`] with texts in place of strings.
pub struct MetaView {
    pub client_ip: Seq<char>,
    pub method: Seq<char>,
    pub path: Seq<char>,
    pub query: Option<Seq<char>>,
    pub user_agent: Option<Seq<char>>,
    pub headers: Seq<(Seq<char>, Seq<char>)>,
    pub body: Option<Seq<char>>,
}

impl View for RequestMeta {
    type V = MetaView;

    open spec fn view(&self) -> MetaView {
        MetaView {
            client_ip: self.client_ip@,
            method: self.method@,
            path: self.path@,
            query: text_opt(self.query),
            user_agent: text_opt(self.user_agent),
            headers: self.headers@,
            body: text_opt(self.body),
        }
    }
}

/// What is decided on a request.
#[derive(Clone, Debug)]
pub struct Decision {
    pub profile_id: String,
    pub allow: bool,
    pub status_code: u16,
    pub message: Option<String>,
    pub rule_id: Option<String>,
}

/// A [`Decision`] with texts in place of strings.
pub struct DecisionView {
    pub profile_id: Seq<char>,
    pub allow: bool,
    pub status_code: u16,
    pub message: Option<Seq<char>>,
    pub rule_id: Option<Seq<char>>,
}

impl View for Decision {
    type V = DecisionView;

    open spec fn view(&self) -> DecisionView {
        DecisionView {
            profile_id: self.profile_id@,
            allow: self.allow,
            status_code: self.status_code,
            message: text_opt(self.message),
            rule_id: text_opt(self.rule_id),
        }
    }
}

// ---------------------------------------------------------------------------
// Decisions
// ---------------------------------------------------------------------------

/// The status of a decision: that of the module, where it is one of HTTP; 200
/// for what is allowed and 403 for what is not, where it is missing or is none.
pub open spec fn status_for(d: WasmDecisionView) -> u16 {
    match d.status {
        Some(s) => if 100 <= s <= 599 {
            s
        } else if d.allow {
            200
        } else {
            403
        },
        None => if d.allow {
            200
        } else {
            403
        },
    }
}

/// What the decision of a profile's module amounts to.
pub open spec fn decision_for(profile_id: Seq<char>, d: WasmDecisionView) -> DecisionView {
    DecisionView {
        profile_id,
        allow: d.allow,
        status_code: status_for(d),
        message: d.message,
        rule_id: d.rule_id,
    }
}

impl Decision {
    /// What the decision of a profile's module amounts to.
    pub fn from_module(profile_id: &str, d: WasmDecision) -> (out: Decision)
        ensures
            out@ == decision_for(profile_id@, d@),
    {
        let fallback: u16 = if d.allow {
            200
        } else {
            403
        };
        let status_code: u16 = match d.status {
            Some(s) => if 100 <= s && s <= 599 {
                s
            } else {
                fallback
            },
            None => fallback,
        };
        Decision {
            profile_id: profile_id.to_owned(),
            allow: d.allow,
            status_code,
            message: d.message,
            rule_id: d.rule_id,
        }
    }
}

/// The status of a decision is always one of HTTP.
pub proof fn lemma_status_valid(profile_id: Seq<char>, d: WasmDecisionView)
    ensures
        100 <= decision_for(profile_id, d).status_code <= 599,
{
}

/// A status of HTTP that the module gives is kept. Without one, or with any other number,
/// what is allowed has 200 and what is not has 403. All else is the module's own.
pub proof fn lemma_decision(profile_id: Seq<char>, d: WasmDecisionView)
    ensures
        ({
            let out = decision_for(profile_id, d);
            let own = d.status is Some && 100 <= d.status->0 <= 599;
            &&& own ==> out.status_code == d.status->0
            &&& !own && d.allow ==> out.status_code == 200
            &&& !own && !d.allow ==> out.status_code == 403
            &&& out.allow == d.allow
            &&& out.profile_id == profile_id
            &&& out.message == d.message
            &&& out.rule_id == d.rule_id
        }),
{
}

// ---------------------------------------------------------------------------
// The engine
// ---------------------------------------------------------------------------

/// The modules of the profiles, with the parameters of each.
pub struct WafEngine {
    vm: WasmVm,
    params: TextMap<TextMap<String>>,
}

/// What a module is told of a request, with the parameters of its profile.
pub open spec fn told(req: MetaView, params: Seq<(Seq<char>, Seq<char>)>) -> WasmRequestView {
    WasmRequestView {
        client_ip: req.client_ip,
        method: req.method,
        path: req.path,
        query: req.query,
        user_agent: req.user_agent,
        headers: req.headers,
        body: req.body,
        params,
    }
}

/// A module is told everything of a request, and the parameters of its profile.
pub proof fn lemma_told(req: MetaView, params: Seq<(Seq<char>, Seq<char>)>)
    ensures
        ({
            let t = told(req, params);
            &&& t.client_ip == req.client_ip
            &&& t.method == req.method
            &&& t.path == req.path
            &&& t.query == req.query
            &&& t.user_agent == req.user_agent
            &&& t.headers == req.headers
            &&& t.body == req.body
            &&& t.params == params
        }),
{
}

fn text_of(o: &Option<String>) -> (r: Option<&str>)
    ensures
        str_opt(r) == text_opt(*o),
{
    match o {
        Some(s) => Some(s.as_str()),
        None => None,
    }
}

impl WafEngine {
    /// There is a module for this profile.
    pub open spec fn knows(&self, profile_id: Seq<char>) -> bool {
        self.code_of(profile_id) is Some
    }

    /// The bytes that the module of a profile was compiled from.
    pub closed spec fn code_of(&self, profile_id: Seq<char>) -> Option<Seq<u8>> {
        self.vm.code_for(profile_id)
    }

    /// The parameters of a profile; none where it has none.
    pub closed spec fn params_of(&self, profile_id: Seq<char>) -> Seq<(Seq<char>, Seq<char>)> {
        match lookup(self.params@, profile_id) {
            Some(p) => p,
            None => seq![],
        }
    }

    /// Two engines have the same module and the same parameters for a profile.
    pub open spec fn same_profile(&self, other: &WafEngine, profile_id: Seq<char>) -> bool {
        &&& self.code_of(profile_id) == other.code_of(profile_id)
        &&& self.params_of(profile_id) == other.params_of(profile_id)
    }

    /// An engine without profiles.
    pub fn new() -> (r: Result<WafEngine, WasmError>)
        ensures
            match r {
                Ok(engine) => forall|id: Seq<char>|
                    !#[trigger] engine.knows(id) && engine.params_of(id).len() == 0,
                Err(e) => e@ is Runtime,
            },
    {
        match WasmVm::new() {
            Ok(vm) => Ok(WafEngine { vm, params: TextMap::new() }),
            Err(e) => Err(e),
        }
    }

    /// Loads the module of a profile, and takes its parameters. Other profiles
    /// stay as they were; where the module cannot be used, all do.
    pub fn load_profile(
        &mut self,
        profile_id: &str,
        params: TextMap<String>,
        wasm_bytes: &[u8],
    ) -> (r: Result<(), WasmError>)
        ensures
            match r {
                Ok(()) => has_interface(wasm_bytes@) && final(self).code_of(profile_id@) == Some(
                    wasm_bytes@,
                ) && final(self).params_of(profile_id@) == params@ && forall|id: Seq<char>|
                    id != profile_id@ ==> final(self).same_profile(old(self), id),
                Err(e) => load_error(wasm_bytes@, e) && forall|id: Seq<char>|
                    final(self).same_profile(old(self), id),
            },
    {
        if let Err(e) = self.vm.load_module_from_bytes(profile_id, wasm_bytes) {
            return Err(e);
        }
        self.params.insert(profile_id.to_owned(), params);
        proof {
            assert forall|id: Seq<char>| id != profile_id@ implies self.same_profile(
                old(self),
                id,
            ) by {
                assert(lookup(self.vm.modules(), id) == lookup(old(self).vm.modules(), id));
                assert(lookup(self.params@, id) == lookup(old(self).params@, id));
            }
        }
        Ok(())
    }

    /// What the module of a profile is told of a request.
    pub fn wasm_request<'a>(&'a self, profile_id: &str, req: &'a RequestMeta) -> (out: WasmRequest<
        'a,
    >)
        ensures
            out@ == told(req@, self.params_of(profile_id@)),
    {
        WasmRequest {
            client_ip: req.client_ip.as_str(),
            method: req.method.as_str(),
            path: req.path.as_str(),
            query: text_of(&req.query),
            user_agent: text_of(&req.user_agent),
            headers: &req.headers,
            body: text_of(&req.body),
            params: self.params.get(profile_id),
        }
    }

    /// Hands a request, as a JSON text, to the module of a profile, and comes
    /// back with its decision as a JSON text.
    pub fn decide(&self, profile_id: &str, req_json: &str) -> (r: Result<String, WasmError>)
        ensures
            !self.knows(profile_id@) <==> (r matches Err(e) && e@ == WasmErrorView::ProfileNotFound(
                profile_id@,
            )),
            self.code_of(profile_id@) matches Some(code) ==> can_decide(
                code,
                encode_utf8(req_json@),
                r,
            ),
    {
        self.vm.decide(profile_id, req_json)
    }
}

} // verus!
