//! The rules that a rule file writes down.

use vstd::prelude::*;

use crate::text::{copy_texts, text_opt, texts};

verus! {

/// A single rule, possibly with rules chained to it.
#[derive(Clone, Debug)]
pub struct Rule {
    pub id: u32,
    pub phase: Phase,
    pub variables: Vec<Variable>,
    pub operator: Operator,
    /// The transformations applied to a value before the operator sees it.
    pub transforms: Vec<Transform>,
    pub action: Action,
    pub msg: Option<String>,
    pub tags: Vec<String>,
    /// The severity that the `severity` action names.
    pub severity: Option<Severity>,
    /// The rules chained after this one; all must match for the action to trigger.
    pub chained: Vec<ChainedRule>,
    /// The marker that a matching pass rule skips to; in a marker, its name.
    pub skip_after: Option<String>,
    /// The anomaly score that a `setvar` action adds.
    pub anomaly_score: Option<u32>,
    /// The paranoia level that a `paranoia-level/N` tag names.
    pub paranoia_level: u8,
}

/// A chained rule: no id, and the action is that of the rule it is chained to.
#[derive(Clone, Debug)]
pub struct ChainedRule {
    pub variables: Vec<Variable>,
    pub operator: Operator,
    pub transforms: Vec<Transform>,
}

/// The parts of a request that a rule can inspect.
#[derive(Clone, Debug, PartialEq, Eq)]
pub enum Variable {
    /// `ARGS`: the values of all query and body parameters.
    Args,
    /// `ARGS_NAMES`: the names of all query and body parameters.
    ArgsNames,
    /// `REQUEST_COOKIES`: the values of all cookies.
    RequestCookies,
    /// `REQUEST_COOKIES_NAMES`: the names of all cookies.
    RequestCookiesNames,
    /// `REQUEST_FILENAME`: the path.
    RequestFilename,
    /// `REQUEST_HEADERS`: the values of all headers.
    RequestHeaders,
    /// `REQUEST_HEADERS:<name>`: the value of one header.
    RequestHeader(String),
    /// `!REQUEST_HEADERS:<name>`: a header left out of `REQUEST_HEADERS`.
    RequestHeaderExclude(String),
    /// `REQUEST_METHOD`.
    RequestMethod,
    /// `REQUEST_URI`: the path with the query.
    RequestUri,
    /// `REQUEST_BODY` and `REQUEST_BODY_RAW`.
    RequestBody,
    /// `TX:<name>`: a transaction variable.
    Tx(String),
    /// `XML:<path>`; never has a value.
    Xml,
}

/// The matching operator.
#[derive(Debug)]
pub enum Operator {
    /// `@rx`: a regular expression matches.
    Rx(String),
    /// `@pm`: one of several words occurs, whatever the case.
    Pm(Vec<String>),
    /// `@pmFromFile`: one of the phrases, one on a line, occurs, whatever the
    /// case. Of a rule that was just read, it holds the name of the phrase file.
    PmFromFile(String),
    /// `@contains`: a text occurs, whatever the case.
    Contains(String),
    /// `@beginsWith`, whatever the case.
    BeginsWith(String),
    /// `@endsWith`, whatever the case.
    EndsWith(String),
    /// `@streq`: the value is exactly the text.
    Streq(String),
    /// `@lt`: the value is a number below.
    Lt(i64),
    /// `@le`: the value is a number at most.
    Le(i64),
    /// `@ge`: the value is a number at least.
    Ge(i64),
    /// `@gt`: the value is a number above.
    Gt(i64),
    /// `@within`: the value is one of a list, whatever the case.
    Within(Vec<String>),
    /// `@validateByteRange`: every byte is in one of the ranges.
    ValidateByteRange(String),
    /// `@detectXSS`; never matches.
    DetectXss,
    /// `@detectSQLi`; never matches.
    DetectSqli,
    /// `!@op`: matches where the inner operator does not.
    Negated(Box<Operator>),
    /// The operator of markers; never matches.
    Pass,
    /// Any other operator; never matches.
    Unsupported(String),
}

/// What a rule does where all its conditions match.
#[derive(Clone, Copy, Debug, PartialEq, Eq, Structural)]
pub enum Action {
    /// Block the request.
    Block,
    /// Let the request continue.
    Pass,
}

/// The phase in which a request is processed.
#[derive(Clone, Copy, Debug, PartialEq, Eq, Structural)]
pub enum Phase {
    One,
    Two,
    Three,
    Four,
    Five,
}

/// A transformation of a value before it is matched.
#[derive(Clone, Debug, PartialEq, Eq)]
pub enum Transform {
    Lowercase,
    UrlDecodeUni,
    HtmlEntityDecode,
    JsDecode,
    CssDecode,
    RemoveNulls,
    RemoveWhitespace,
    CompressWhitespace,
    Utf8toUnicode,
    /// `none`: changes nothing.
    Identity,
    /// Any other transformation; it changes nothing.
    Other(String),
}

/// A severity level.
#[derive(Clone, Copy, Debug, PartialEq, Eq, Structural)]
pub enum Severity {
    Emergency,
    Alert,
    Critical,
    Error,
    Warning,
    Notice,
    Info,
    Debug,
}

// ---------------------------------------------------------------------------
// Models
// ---------------------------------------------------------------------------

/// A [`Variable`] with texts in place of strings.
pub enum VariableView {
    Args,
    ArgsNames,
    RequestCookies,
    RequestCookiesNames,
    RequestFilename,
    RequestHeaders,
    RequestHeader(Seq<char>),
    RequestHeaderExclude(Seq<char>),
    RequestMethod,
    RequestUri,
    RequestBody,
    Tx(Seq<char>),
    Xml,
}

impl View for Variable {
    type V = VariableView;

    open spec fn view(&self) -> VariableView {
        match *self {
            Variable::Args => VariableView::Args,
            Variable::ArgsNames => VariableView::ArgsNames,
            Variable::RequestCookies => VariableView::RequestCookies,
            Variable::RequestCookiesNames => VariableView::RequestCookiesNames,
            Variable::RequestFilename => VariableView::RequestFilename,
            Variable::RequestHeaders => VariableView::RequestHeaders,
            Variable::RequestHeader(n) => VariableView::RequestHeader(n@),
            Variable::RequestHeaderExclude(n) => VariableView::RequestHeaderExclude(n@),
            Variable::RequestMethod => VariableView::RequestMethod,
            Variable::RequestUri => VariableView::RequestUri,
            Variable::RequestBody => VariableView::RequestBody,
            Variable::Tx(n) => VariableView::Tx(n@),
            Variable::Xml => VariableView::Xml,
        }
    }
}

/// An [`Operator`] with texts in place of strings.
pub enum OperatorView {
    Rx(Seq<char>),
    Pm(Seq<Seq<char>>),
    PmFromFile(Seq<char>),
    Contains(Seq<char>),
    BeginsWith(Seq<char>),
    EndsWith(Seq<char>),
    Streq(Seq<char>),
    Lt(int),
    Le(int),
    Ge(int),
    Gt(int),
    Within(Seq<Seq<char>>),
    ValidateByteRange(Seq<char>),
    DetectXss,
    DetectSqli,
    Negated(Box<OperatorView>),
    Pass,
    Unsupported(Seq<char>),
}

/// The model of an operator.
pub open spec fn operator_view(op: Operator) -> OperatorView
    decreases op,
{
    match op {
        Operator::Rx(s) => OperatorView::Rx(s@),
        Operator::Pm(v) => OperatorView::Pm(texts(v@)),
        Operator::PmFromFile(s) => OperatorView::PmFromFile(s@),
        Operator::Contains(s) => OperatorView::Contains(s@),
        Operator::BeginsWith(s) => OperatorView::BeginsWith(s@),
        Operator::EndsWith(s) => OperatorView::EndsWith(s@),
        Operator::Streq(s) => OperatorView::Streq(s@),
        Operator::Lt(n) => OperatorView::Lt(n as int),
        Operator::Le(n) => OperatorView::Le(n as int),
        Operator::Ge(n) => OperatorView::Ge(n as int),
        Operator::Gt(n) => OperatorView::Gt(n as int),
        Operator::Within(v) => OperatorView::Within(texts(v@)),
        Operator::ValidateByteRange(s) => OperatorView::ValidateByteRange(s@),
        Operator::DetectXss => OperatorView::DetectXss,
        Operator::DetectSqli => OperatorView::DetectSqli,
        Operator::Negated(inner) => OperatorView::Negated(Box::new(operator_view(*inner))),
        Operator::Pass => OperatorView::Pass,
        Operator::Unsupported(s) => OperatorView::Unsupported(s@),
    }
}

impl View for Operator {
    type V = OperatorView;

    open spec fn view(&self) -> OperatorView {
        operator_view(*self)
    }
}

impl Clone for Operator {
    fn clone(&self) -> (out: Operator)
        ensures
            out@ == self@,
        decreases self,
    {
        match self {
            Operator::Rx(s) => Operator::Rx(s.clone()),
            Operator::Pm(v) => Operator::Pm(copy_texts(v)),
            Operator::PmFromFile(s) => Operator::PmFromFile(s.clone()),
            Operator::Contains(s) => Operator::Contains(s.clone()),
            Operator::BeginsWith(s) => Operator::BeginsWith(s.clone()),
            Operator::EndsWith(s) => Operator::EndsWith(s.clone()),
            Operator::Streq(s) => Operator::Streq(s.clone()),
            Operator::Lt(n) => Operator::Lt(*n),
            Operator::Le(n) => Operator::Le(*n),
            Operator::Ge(n) => Operator::Ge(*n),
            Operator::Gt(n) => Operator::Gt(*n),
            Operator::Within(v) => Operator::Within(copy_texts(v)),
            Operator::ValidateByteRange(s) => Operator::ValidateByteRange(s.clone()),
            Operator::DetectXss => Operator::DetectXss,
            Operator::DetectSqli => Operator::DetectSqli,
            Operator::Negated(inner) => Operator::Negated(Box::new((&**inner).clone())),
            Operator::Pass => Operator::Pass,
            Operator::Unsupported(s) => Operator::Unsupported(s.clone()),
        }
    }
}

/// A [`Transform`] with texts in place of strings.
pub enum TransformView {
    Lowercase,
    UrlDecodeUni,
    HtmlEntityDecode,
    JsDecode,
    CssDecode,
    RemoveNulls,
    RemoveWhitespace,
    CompressWhitespace,
    Utf8toUnicode,
    Identity,
    Other(Seq<char>),
}

impl View for Transform {
    type V = TransformView;

    open spec fn view(&self) -> TransformView {
        match *self {
            Transform::Lowercase => TransformView::Lowercase,
            Transform::UrlDecodeUni => TransformView::UrlDecodeUni,
            Transform::HtmlEntityDecode => TransformView::HtmlEntityDecode,
            Transform::JsDecode => TransformView::JsDecode,
            Transform::CssDecode => TransformView::CssDecode,
            Transform::RemoveNulls => TransformView::RemoveNulls,
            Transform::RemoveWhitespace => TransformView::RemoveWhitespace,
            Transform::CompressWhitespace => TransformView::CompressWhitespace,
            Transform::Utf8toUnicode => TransformView::Utf8toUnicode,
            Transform::Identity => TransformView::Identity,
            Transform::Other(n) => TransformView::Other(n@),
        }
    }
}

/// The models of a list of variables.
pub open spec fn variables_view(v: Seq<Variable>) -> Seq<VariableView> {
    v.map_values(|x: Variable| x@)
}

/// The models of a list of transformations.
pub open spec fn transforms_view(v: Seq<Transform>) -> Seq<TransformView> {
    v.map_values(|x: Transform| x@)
}

/// What a rule or a chained rule asks of a request.
pub struct ConditionView {
    pub variables: Seq<VariableView>,
    pub operator: OperatorView,
    pub transforms: Seq<TransformView>,
}

impl View for ChainedRule {
    type V = ConditionView;

    open spec fn view(&self) -> ConditionView {
        ConditionView {
            variables: variables_view(self.variables@),
            operator: self.operator@,
            transforms: transforms_view(self.transforms@),
        }
    }
}

/// The models of a list of chained rules.
pub open spec fn chained_view(v: Seq<ChainedRule>) -> Seq<ConditionView> {
    v.map_values(|x: ChainedRule| x@)
}

/// A [`Rule`] with texts in place of strings.
pub struct RuleView {
    pub id: u32,
    pub phase: Phase,
    pub condition: ConditionView,
    pub action: Action,
    pub msg: Option<Seq<char>>,
    pub tags: Seq<Seq<char>>,
    pub severity: Option<Severity>,
    pub chained: Seq<ConditionView>,
    pub skip_after: Option<Seq<char>>,
    pub anomaly_score: Option<u32>,
    pub paranoia_level: u8,
}

impl View for Rule {
    type V = RuleView;

    open spec fn view(&self) -> RuleView {
        RuleView {
            id: self.id,
            phase: self.phase,
            condition: ConditionView {
                variables: variables_view(self.variables@),
                operator: self.operator@,
                transforms: transforms_view(self.transforms@),
            },
            action: self.action,
            msg: text_opt(self.msg),
            tags: texts(self.tags@),
            severity: self.severity,
            chained: chained_view(self.chained@),
            skip_after: text_opt(self.skip_after),
            anomaly_score: self.anomaly_score,
            paranoia_level: self.paranoia_level,
        }
    }
}

/// The models of a list of rules.
pub open spec fn rules_view(v: Seq<Rule>) -> Seq<RuleView> {
    v.map_values(|x: Rule| x@)
}

impl Phase {
    /// The number of the phase, from 1 to 5.
    pub fn number(self) -> (n: u8)
        ensures
            n == (match self {
                Phase::One => 1int,
                Phase::Two => 2,
                Phase::Three => 3,
                Phase::Four => 4,
                Phase::Five => 5,
            }),
    {
        match self {
            Phase::One => 1,
            Phase::Two => 2,
            Phase::Three => 3,
            Phase::Four => 4,
            Phase::Five => 5,
        }
    }
}

impl Severity {
    /// The number of the severity level, from 0 for an emergency to 7.
    pub fn number(self) -> (n: u8)
        ensures
            n == (match self {
                Severity::Emergency => 0int,
                Severity::Alert => 1,
                Severity::Critical => 2,
                Severity::Error => 3,
                Severity::Warning => 4,
                Severity::Notice => 5,
                Severity::Info => 6,
                Severity::Debug => 7,
            }),
    {
        match self {
            Severity::Emergency => 0,
            Severity::Alert => 1,
            Severity::Critical => 2,
            Severity::Error => 3,
            Severity::Warning => 4,
            Severity::Notice => 5,
            Severity::Info => 6,
            Severity::Debug => 7,
        }
    }
}

} // verus!
