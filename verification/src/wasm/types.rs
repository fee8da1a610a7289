//! What goes into a module, and what comes out of it.

use vstd::prelude::*;

use crate::ordered::TextMap;
use crate::text::{str_opt, text_opt};

verus! {

/// What a module is told of a request.
#[derive(Clone, Copy, Debug)]
pub struct WasmRequest<'a> {
    pub client_ip: &'a str,
    pub method: &'a str,
    pub path: &'a str,
    pub query: Option<&'a str>,
    pub user_agent: Option<&'a str>,
    pub headers: &'a TextMap<String>,
    pub body: Option<&'a str>,
    /// The parameters of the profile, each value as a JSON text.
    pub params: Option<&'a TextMap<String>>,
}

/// A [`WasmRequest`] with texts in place of strings.
pub struct WasmRequestView {
    pub client_ip: Seq<char>,
    pub method: Seq<char>,
    pub path: Seq<char>,
    pub query: Option<Seq<char>>,
    pub user_agent: Option<Seq<char>>,
    pub headers: Seq<(Seq<char>, Seq<char>)>,
    pub body: Option<Seq<char>>,
    pub params: Seq<(Seq<char>, Seq<char>)>,
}

impl<'a> View for WasmRequest<'a> {
    type V = WasmRequestView;

    open spec fn view(&self) -> WasmRequestView {
        WasmRequestView {
            client_ip: self.client_ip@,
            method: self.method@,
            path: self.path@,
            query: str_opt(self.query),
            user_agent: str_opt(self.user_agent),
            headers: self.headers@,
            body: str_opt(self.body),
            params: match self.params {
                Some(p) => p@,
                None => seq![],
            },
        }
    }
}

/// What a module decides.
#[derive(Clone, Debug)]
pub struct WasmDecision {
    pub allow: bool,
    pub status: Option<u16>,
    pub message: Option<String>,
    pub rule_id: Option<String>,
}

/// A [`WasmDecision`] with texts in place of strings.
pub struct WasmDecisionView {
    pub allow: bool,
    pub status: Option<u16>,
    pub message: Option<Seq<char>>,
    pub rule_id: Option<Seq<char>>,
}

impl View for WasmDecision {
    type V = WasmDecisionView;

    open spec fn view(&self) -> WasmDecisionView {
        WasmDecisionView {
            allow: self.allow,
            status: self.status,
            message: text_opt(self.message),
            rule_id: text_opt(self.rule_id),
        }
    }
}

impl WasmDecision {
    /// The request is allowed, with the status 200.
    pub fn allow() -> (d: WasmDecision)
        ensures
            d@ == (WasmDecisionView {
                allow: true,
                status: Some(200u16),
                message: None,
                rule_id: None,
            }),
    {
        WasmDecision { allow: true, status: Some(200), message: None, rule_id: None }
    }

    /// The request is refused, with a status and a message.
    pub fn block(status: u16, message: &str) -> (d: WasmDecision)
        ensures
            d@ == (WasmDecisionView {
                allow: false,
                status: Some(status),
                message: Some(message@),
                rule_id: None,
            }),
    {
        WasmDecision {
            allow: false,
            status: Some(status),
            message: Some(message.to_owned()),
            rule_id: None,
        }
    }
}

} // verus!
