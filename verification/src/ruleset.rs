//! Rule sets as they are written to configuration files and snapshots.

use vstd::prelude::*;

use crate::text::{copy_texts, text_opt, texts};

verus! {

/// What is done with a request.
#[derive(Clone, Copy, Debug, PartialEq, Eq, Structural)]
pub enum Action {
    Allow,
    Block,
}

/// The part of a request that a condition looks at.
#[derive(Debug, PartialEq, Eq)]
pub enum ConditionTarget {
    Method,
    Path,
    Query,
    Body,
    UserAgent,
    ClientIp,
    /// One header, by its name in lowercase.
    Header { name: String },
}

/// How a condition compares.
#[derive(Clone, Copy, Debug, PartialEq, Eq, Structural)]
pub enum ConditionOperator {
    Eq,
    Contains,
    Prefix,
    Suffix,
    Regex,
    IpMatch,
}

/// What is done to a value before it is compared.
#[derive(Clone, Copy, Debug, PartialEq, Eq, Structural)]
pub enum ConditionTransform {
    /// `none`: changes nothing.
    Identity,
    Lowercase,
    UrlDecode,
    CompressWhitespace,
    RemoveNulls,
}

/// A condition of a rule.
#[derive(Debug, PartialEq, Eq)]
pub struct ConditionConfig {
    pub target: ConditionTarget,
    pub operator: ConditionOperator,
    pub value: Option<String>,
    pub values: Vec<String>,
    pub transforms: Vec<ConditionTransform>,
}

/// A rule.
#[derive(Debug, PartialEq, Eq)]
pub struct RuleConfig {
    pub id: String,
    pub enabled: bool,
    pub action: Action,
    pub status_code: Option<u16>,
    pub methods: Vec<String>,
    pub path_prefixes: Vec<String>,
    pub ip_cidrs: Vec<String>,
    pub user_agent_contains: Vec<String>,
    pub conditions: Vec<ConditionConfig>,
}

/// A named set of rules, and what is done where none of them matches.
#[derive(Debug, PartialEq, Eq)]
pub struct RuleProfile {
    pub id: String,
    pub default_action: Action,
    pub rules: Vec<RuleConfig>,
}

/// The profiles of a rule set.
#[derive(Debug, PartialEq, Eq)]
pub struct RuleSetConfig {
    pub profiles: Vec<RuleProfile>,
}

// ---------------------------------------------------------------------------
// Models
// ---------------------------------------------------------------------------

/// A [`ConditionTarget`] with texts in place of strings.
pub enum TargetView {
    Method,
    Path,
    Query,
    Body,
    UserAgent,
    ClientIp,
    Header(Seq<char>),
}

impl View for ConditionTarget {
    type V = TargetView;

    open spec fn view(&self) -> TargetView {
        match *self {
            ConditionTarget::Method => TargetView::Method,
            ConditionTarget::Path => TargetView::Path,
            ConditionTarget::Query => TargetView::Query,
            ConditionTarget::Body => TargetView::Body,
            ConditionTarget::UserAgent => TargetView::UserAgent,
            ConditionTarget::ClientIp => TargetView::ClientIp,
            ConditionTarget::Header { name } => TargetView::Header(name@),
        }
    }
}

impl Clone for ConditionTarget {
    fn clone(&self) -> (out: ConditionTarget)
        ensures
            out@ == self@,
    {
        match self {
            ConditionTarget::Method => ConditionTarget::Method,
            ConditionTarget::Path => ConditionTarget::Path,
            ConditionTarget::Query => ConditionTarget::Query,
            ConditionTarget::Body => ConditionTarget::Body,
            ConditionTarget::UserAgent => ConditionTarget::UserAgent,
            ConditionTarget::ClientIp => ConditionTarget::ClientIp,
            ConditionTarget::Header { name } => ConditionTarget::Header { name: name.clone() },
        }
    }
}

/// A [`ConditionConfig`] with texts in place of strings.
pub struct ConditionConfigView {
    pub target: TargetView,
    pub operator: ConditionOperator,
    pub value: Option<Seq<char>>,
    pub values: Seq<Seq<char>>,
    pub transforms: Seq<ConditionTransform>,
}

impl View for ConditionConfig {
    type V = ConditionConfigView;

    open spec fn view(&self) -> ConditionConfigView {
        ConditionConfigView {
            target: self.target@,
            operator: self.operator,
            value: text_opt(self.value),
            values: texts(self.values@),
            transforms: self.transforms@,
        }
    }
}

/// The models of a list of conditions.
pub open spec fn conditions_view(v: Seq<ConditionConfig>) -> Seq<ConditionConfigView> {
    v.map_values(|c: ConditionConfig| c@)
}

/// A [`RuleConfig`] with texts in place of strings.
pub struct RuleConfigView {
    pub id: Seq<char>,
    pub enabled: bool,
    pub action: Action,
    pub status_code: Option<u16>,
    pub methods: Seq<Seq<char>>,
    pub path_prefixes: Seq<Seq<char>>,
    pub ip_cidrs: Seq<Seq<char>>,
    pub user_agent_contains: Seq<Seq<char>>,
    pub conditions: Seq<ConditionConfigView>,
}

impl View for RuleConfig {
    type V = RuleConfigView;

    open spec fn view(&self) -> RuleConfigView {
        RuleConfigView {
            id: self.id@,
            enabled: self.enabled,
            action: self.action,
            status_code: self.status_code,
            methods: texts(self.methods@),
            path_prefixes: texts(self.path_prefixes@),
            ip_cidrs: texts(self.ip_cidrs@),
            user_agent_contains: texts(self.user_agent_contains@),
            conditions: conditions_view(self.conditions@),
        }
    }
}

/// The models of a list of rules.
pub open spec fn rule_configs_view(v: Seq<RuleConfig>) -> Seq<RuleConfigView> {
    v.map_values(|r: RuleConfig| r@)
}

/// A [`RuleProfile`] with texts in place of strings.
pub struct RuleProfileView {
    pub id: Seq<char>,
    pub default_action: Action,
    pub rules: Seq<RuleConfigView>,
}

impl View for RuleProfile {
    type V = RuleProfileView;

    open spec fn view(&self) -> RuleProfileView {
        RuleProfileView {
            id: self.id@,
            default_action: self.default_action,
            rules: rule_configs_view(self.rules@),
        }
    }
}

/// The models of a list of profiles.
pub open spec fn rule_profiles_view(v: Seq<RuleProfile>) -> Seq<RuleProfileView> {
    v.map_values(|p: RuleProfile| p@)
}

// ---------------------------------------------------------------------------
// Copies
// ---------------------------------------------------------------------------

/// A copy of a string that may be missing.
fn copy_text_opt(o: &Option<String>) -> (out: Option<String>)
    ensures
        text_opt(out) == text_opt(*o),
{
    match o {
        Some(s) => Some(s.clone()),
        None => None,
    }
}

/// A copy of a list of transformations.
pub(crate) fn copy_transforms(v: &Vec<ConditionTransform>) -> (out: Vec<ConditionTransform>)
    ensures
        out@ == v@,
{
    let mut out: Vec<ConditionTransform> = Vec::new();
    for i in 0..v.len()
        invariant
            out@ == v@.take(i as int),
    {
        out.push(v[i]);
        assert(out@ =~= v@.take(i + 1));
    }
    assert(v@.take(v@.len() as int) =~= v@);
    out
}

impl Clone for ConditionConfig {
    fn clone(&self) -> (out: ConditionConfig)
        ensures
            out@ == self@,
    {
        ConditionConfig {
            target: self.target.clone(),
            operator: self.operator,
            value: copy_text_opt(&self.value),
            values: copy_texts(&self.values),
            transforms: copy_transforms(&self.transforms),
        }
    }
}

fn copy_conditions(v: &Vec<ConditionConfig>) -> (out: Vec<ConditionConfig>)
    ensures
        conditions_view(out@) == conditions_view(v@),
{
    let mut out: Vec<ConditionConfig> = Vec::new();
    for i in 0..v.len()
        invariant
            out@.len() == i,
            forall|j: int| 0 <= j < i ==> (#[trigger] out@[j])@ == v@[j]@,
    {
        out.push(v[i].clone());
    }
    assert(conditions_view(out@) =~= conditions_view(v@));
    out
}

impl Clone for RuleConfig {
    fn clone(&self) -> (out: RuleConfig)
        ensures
            out@ == self@,
    {
        RuleConfig {
            id: self.id.clone(),
            enabled: self.enabled,
            action: self.action,
            status_code: self.status_code,
            methods: copy_texts(&self.methods),
            path_prefixes: copy_texts(&self.path_prefixes),
            ip_cidrs: copy_texts(&self.ip_cidrs),
            user_agent_contains: copy_texts(&self.user_agent_contains),
            conditions: copy_conditions(&self.conditions),
        }
    }
}

/// A copy of a list of rules.
pub(crate) fn copy_rules(v: &Vec<RuleConfig>) -> (out: Vec<RuleConfig>)
    ensures
        rule_configs_view(out@) == rule_configs_view(v@),
{
    let mut out: Vec<RuleConfig> = Vec::new();
    for i in 0..v.len()
        invariant
            out@.len() == i,
            forall|j: int| 0 <= j < i ==> (#[trigger] out@[j])@ == v@[j]@,
    {
        out.push(v[i].clone());
    }
    assert(rule_configs_view(out@) =~= rule_configs_view(v@));
    out
}

} // verus!
