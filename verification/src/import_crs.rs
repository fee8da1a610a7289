//! Importing `SecRule` files into a rule set.
//!
//! Rules that the rule set cannot express are skipped, each with a reason.

use vstd::prelude::*;
use vstd::slice::slice_subrange;

use crate::crs::operators::is_phrase;
use crate::crs::parser::char_lists;
use crate::number::{decimal, natural, parse_natural, write_decimal, NumberError};
use crate::ordered::{lookup, tallied, tally, TextMap};
use crate::ruleset::{
    conditions_view, copy_transforms, rule_configs_view, Action, ConditionConfig,
    ConditionConfigView, ConditionOperator, ConditionTarget, ConditionTransform, RuleConfig,
    RuleConfigView, RuleProfile, RuleProfileView, TargetView,
};
use crate::secrule_parser::{
    action_id, action_list, actions_of, cut_rule, first_value, parse_action_id, rule_pieces,
    statements, statements_of, value_of, RulePieces,
};
use crate::text::{
    after_prefix, ascii_lower, before_space, begins, chars_of, contains, find_space, is_text,
    lemma_trim_twice, lines, lines_of, lower_ascii, mentions, push_chars, push_text, same_text,
    slices, string_of, strings_of, strip, text_opt, texts, trim, trimmed, words, words_of,
};

verus! {

// ---------------------------------------------------------------------------
// Errors
// ---------------------------------------------------------------------------

/// Why a rule, or a whole import, cannot be done.
#[derive(Debug)]
pub enum ImportError {
    /// The default action is neither `allow` nor `block`.
    DefaultAction(String),
    MissingAction,
    ConflictingActions,
    /// The status code is no number that fits.
    StatusNumber(NumberError),
    StatusRange(u16),
    Transform(String),
    EmptyOperator,
    Chained,
    PmFromFileOperand,
    PmOperand,
    EmptyPhrases,
    Target(String),
    MissingOperand(String),
    EmptyOperand(String),
    IpMatchTarget,
    Operator(String),
    /// No file with that name was found.
    UnresolvedFile(String),
    /// The file at that path could not be read.
    UnreadableFile(String),
}

/// An [`ImportError`] with texts in place of strings.
pub enum ErrorView {
    DefaultAction(Seq<char>),
    MissingAction,
    ConflictingActions,
    StatusNumber(NumberError),
    StatusRange(u16),
    Transform(Seq<char>),
    EmptyOperator,
    Chained,
    PmFromFileOperand,
    PmOperand,
    EmptyPhrases,
    Target(Seq<char>),
    MissingOperand(Seq<char>),
    EmptyOperand(Seq<char>),
    IpMatchTarget,
    Operator(Seq<char>),
    UnresolvedFile(Seq<char>),
    UnreadableFile(Seq<char>),
}

impl View for ImportError {
    type V = ErrorView;

    open spec fn view(&self) -> ErrorView {
        match *self {
            ImportError::DefaultAction(s) => ErrorView::DefaultAction(s@),
            ImportError::MissingAction => ErrorView::MissingAction,
            ImportError::ConflictingActions => ErrorView::ConflictingActions,
            ImportError::StatusNumber(e) => ErrorView::StatusNumber(e),
            ImportError::StatusRange(n) => ErrorView::StatusRange(n),
            ImportError::Transform(s) => ErrorView::Transform(s@),
            ImportError::EmptyOperator => ErrorView::EmptyOperator,
            ImportError::Chained => ErrorView::Chained,
            ImportError::PmFromFileOperand => ErrorView::PmFromFileOperand,
            ImportError::PmOperand => ErrorView::PmOperand,
            ImportError::EmptyPhrases => ErrorView::EmptyPhrases,
            ImportError::Target(s) => ErrorView::Target(s@),
            ImportError::MissingOperand(s) => ErrorView::MissingOperand(s@),
            ImportError::EmptyOperand(s) => ErrorView::EmptyOperand(s@),
            ImportError::IpMatchTarget => ErrorView::IpMatchTarget,
            ImportError::Operator(s) => ErrorView::Operator(s@),
            ImportError::UnresolvedFile(s) => ErrorView::UnresolvedFile(s@),
            ImportError::UnreadableFile(s) => ErrorView::UnreadableFile(s@),
        }
    }
}

/// What is said of an error.
pub open spec fn error_message(e: ErrorView) -> Seq<char> {
    match e {
        ErrorView::DefaultAction(s) => "invalid --default-action "@ + s
            + ", expected allow|block"@,
        ErrorView::MissingAction => "missing action (block/deny/pass/allow)"@,
        ErrorView::ConflictingActions => "conflicting actions"@,
        ErrorView::StatusNumber(NumberError::Empty) => "cannot parse integer from empty string"@,
        ErrorView::StatusNumber(NumberError::InvalidDigit) => "invalid digit found in string"@,
        ErrorView::StatusNumber(
            NumberError::TooLarge,
        ) => "number too large to fit in target type"@,
        ErrorView::StatusRange(n) => "invalid status code "@ + decimal(n as int),
        ErrorView::Transform(s) => "unsupported transform "@ + s,
        ErrorView::EmptyOperator => "empty operator"@,
        ErrorView::Chained => "unsupported chained rule"@,
        ErrorView::PmFromFileOperand => "pmFromFile missing operand"@,
        ErrorView::PmOperand => "pm missing operand"@,
        ErrorView::EmptyPhrases => "empty phrase list"@,
        ErrorView::Target(s) => "unsupported target "@ + s,
        ErrorView::MissingOperand(s) => s + " missing operand"@,
        ErrorView::EmptyOperand(s) => s + " operand is empty"@,
        ErrorView::IpMatchTarget => "@ipMatch only supports REMOTE_ADDR target"@,
        ErrorView::Operator(s) => "unsupported operator "@ + s,
        ErrorView::UnresolvedFile(s) => "unable to resolve data file "@ + s,
        ErrorView::UnreadableFile(s) => "failed to read phrase file "@ + s,
    }
}

fn two_texts(a: &str, b: &str) -> (out: String)
    ensures
        out@ == a@ + b@,
{
    let mut out = chars_of(a);
    push_text(&mut out, b);
    string_of(out.as_slice())
}

impl ImportError {
    /// What is said of the error.
    pub fn message(&self) -> (out: String)
        ensures
            out@ == error_message(self@),
    {
        match self {
            ImportError::DefaultAction(s) => {
                let start = two_texts("invalid --default-action ", s.as_str());
                two_texts(start.as_str(), ", expected allow|block")
            },
            ImportError::MissingAction => "missing action (block/deny/pass/allow)".to_owned(),
            ImportError::ConflictingActions => "conflicting actions".to_owned(),
            ImportError::StatusNumber(
                NumberError::Empty,
            ) => "cannot parse integer from empty string".to_owned(),
            ImportError::StatusNumber(
                NumberError::InvalidDigit,
            ) => "invalid digit found in string".to_owned(),
            ImportError::StatusNumber(
                NumberError::TooLarge,
            ) => "number too large to fit in target type".to_owned(),
            ImportError::StatusRange(n) => {
                let code = string_of(write_decimal(*n as u64).as_slice());
                two_texts("invalid status code ", code.as_str())
            },
            ImportError::Transform(s) => two_texts("unsupported transform ", s.as_str()),
            ImportError::EmptyOperator => "empty operator".to_owned(),
            ImportError::Chained => "unsupported chained rule".to_owned(),
            ImportError::PmFromFileOperand => "pmFromFile missing operand".to_owned(),
            ImportError::PmOperand => "pm missing operand".to_owned(),
            ImportError::EmptyPhrases => "empty phrase list".to_owned(),
            ImportError::Target(s) => two_texts("unsupported target ", s.as_str()),
            ImportError::MissingOperand(s) => two_texts(s.as_str(), " missing operand"),
            ImportError::EmptyOperand(s) => two_texts(s.as_str(), " operand is empty"),
            ImportError::IpMatchTarget => "@ipMatch only supports REMOTE_ADDR target".to_owned(),
            ImportError::Operator(s) => two_texts("unsupported operator ", s.as_str()),
            ImportError::UnresolvedFile(s) => two_texts(
                "unable to resolve data file ",
                s.as_str(),
            ),
            ImportError::UnreadableFile(s) => two_texts("failed to read phrase file ", s.as_str()),
        }
    }
}

// ---------------------------------------------------------------------------
// Actions
// ---------------------------------------------------------------------------

/// The default action that a text names.
pub open spec fn default_action_in(input: Seq<char>) -> Result<Action, ErrorView> {
    let name = ascii_lower(trim(input));
    if name == "allow"@ {
        Ok(Action::Allow)
    } else if name == "block"@ {
        Ok(Action::Block)
    } else {
        Err(ErrorView::DefaultAction(name))
    }
}

/// The model of an action that may be missing.
pub open spec fn action_result(r: Result<Action, ImportError>) -> Result<Action, ErrorView> {
    match r {
        Ok(a) => Ok(a),
        Err(e) => Err(e@),
    }
}

/// The default action that a text names.
pub fn parse_default_action(input: &str) -> (r: Result<Action, ImportError>)
    ensures
        action_result(r) == default_action_in(input@),
{
    let cs = chars_of(input);
    let name = lower_ascii(trimmed(cs.as_slice()));
    if is_text(name.as_slice(), "allow") {
        Ok(Action::Allow)
    } else if is_text(name.as_slice(), "block") {
        Ok(Action::Block)
    } else {
        Err(ImportError::DefaultAction(string_of(name.as_slice())))
    }
}

/// An action that blocks.
pub open spec fn says_block(a: Seq<char>) -> bool {
    ascii_lower(trim(a)) == "block"@ || ascii_lower(trim(a)) == "deny"@
}

/// An action that lets pass.
pub open spec fn says_allow(a: Seq<char>) -> bool {
    ascii_lower(trim(a)) == "allow"@ || ascii_lower(trim(a)) == "pass"@
}

/// What the actions do with a request: exactly one of blocking and passing
/// must be said.
pub open spec fn action_in(actions: Seq<Seq<char>>) -> Result<Action, ErrorView> {
    let block = exists|i: int| 0 <= i < actions.len() && says_block(#[trigger] actions[i]);
    let allow = exists|i: int| 0 <= i < actions.len() && says_allow(#[trigger] actions[i]);
    if block && allow {
        Err(ErrorView::ConflictingActions)
    } else if block {
        Ok(Action::Block)
    } else if allow {
        Ok(Action::Allow)
    } else {
        Err(ErrorView::MissingAction)
    }
}

/// What the actions do with a request.
pub fn parse_action(actions: &Vec<Vec<char>>) -> (r: Result<Action, ImportError>)
    ensures
        action_result(r) == action_in(char_lists(actions@)),
{
    let ghost all = char_lists(actions@);
    let mut block = false;
    let mut allow = false;
    for i in 0..actions.len()
        invariant
            all == char_lists(actions@),
            block == exists|j: int| 0 <= j < i && says_block(#[trigger] all[j]),
            allow == exists|j: int| 0 <= j < i && says_allow(#[trigger] all[j]),
    {
        assert(all[i as int] == actions@[i as int]@);
        let name = lower_ascii(trimmed(actions[i].as_slice()));
        let name = name.as_slice();
        let blocks = is_text(name, "block") || is_text(name, "deny");
        let allows = is_text(name, "allow") || is_text(name, "pass");
        assert(blocks == says_block(all[i as int]));
        assert(allows == says_allow(all[i as int]));
        if blocks {
            block = true;
        }
        if allows {
            allow = true;
        }
    }
    assert(actions@.len() == all.len());
    if block && allow {
        Err(ImportError::ConflictingActions)
    } else if block {
        Ok(Action::Block)
    } else if allow {
        Ok(Action::Allow)
    } else {
        Err(ImportError::MissingAction)
    }
}

/// The status code that the first `status` action gives.
pub open spec fn status_in(actions: Seq<Seq<char>>) -> Result<Option<u16>, ErrorView> {
    match first_value(actions, "status:"@) {
        Some(raw) => match parse_natural(trim(raw), 10, 0xffff) {
            Ok(code) => if 100 <= code <= 599 {
                Ok(Some(code as u16))
            } else {
                Err(ErrorView::StatusRange(code as u16))
            },
            Err(e) => Err(ErrorView::StatusNumber(e)),
        },
        None => Ok(None),
    }
}

/// The model of a status code.
pub open spec fn status_result(r: Result<Option<u16>, ImportError>) -> Result<
    Option<u16>,
    ErrorView,
> {
    match r {
        Ok(s) => Ok(s),
        Err(e) => Err(e@),
    }
}

/// The status code that the first `status` action gives.
pub fn parse_status_code(actions: &Vec<Vec<char>>) -> (r: Result<Option<u16>, ImportError>)
    ensures
        status_result(r) == status_in(char_lists(actions@)),
{
    match value_of(actions, "status:") {
        Some(raw) => match natural(trimmed(raw.as_slice()), 10, 0xffff) {
            Ok(code) => if 100 <= code && code <= 599 {
                Ok(Some(code as u16))
            } else {
                Err(ImportError::StatusRange(code as u16))
            },
            Err(e) => Err(ImportError::StatusNumber(e)),
        },
        None => Ok(None),
    }
}

/// The transformation with a name, in ASCII lowercase.
pub open spec fn condition_transform(name: Seq<char>) -> Result<ConditionTransform, ErrorView> {
    if name == "none"@ {
        Ok(ConditionTransform::Identity)
    } else if name == "lowercase"@ {
        Ok(ConditionTransform::Lowercase)
    } else if name == "urldecode"@ || name == "urldecodeuni"@ {
        Ok(ConditionTransform::UrlDecode)
    } else if name == "compresswhitespace"@ {
        Ok(ConditionTransform::CompressWhitespace)
    } else if name == "removenulls"@ {
        Ok(ConditionTransform::RemoveNulls)
    } else {
        Err(ErrorView::Transform(name))
    }
}

/// The transformations that the `t` actions name, up to the first that is not
/// supported.
pub open spec fn transforms_in(actions: Seq<Seq<char>>) -> Result<
    Seq<ConditionTransform>,
    ErrorView,
>
    decreases actions.len(),
{
    if actions.len() == 0 {
        Ok(seq![])
    } else {
        match transforms_in(actions.drop_last()) {
            Ok(head) => match after_prefix(trim(actions.last()), "t:"@) {
                Some(raw) => match condition_transform(ascii_lower(trim(raw))) {
                    Ok(t) => Ok(head.push(t)),
                    Err(e) => Err(e),
                },
                None => Ok(head),
            },
            Err(e) => Err(e),
        }
    }
}

/// The model of a list of transformations.
pub open spec fn transforms_result(r: Result<Vec<ConditionTransform>, ImportError>) -> Result<
    Seq<ConditionTransform>,
    ErrorView,
> {
    match r {
        Ok(v) => Ok(v@),
        Err(e) => Err(e@),
    }
}

fn transform_by_name(name: &[char]) -> (r: Result<ConditionTransform, ImportError>)
    ensures
        match r {
            Ok(t) => condition_transform(name@) == Ok::<_, ErrorView>(t),
            Err(e) => condition_transform(name@) == Err::<ConditionTransform, _>(e@),
        },
{
    if is_text(name, "none") {
        Ok(ConditionTransform::Identity)
    } else if is_text(name, "lowercase") {
        Ok(ConditionTransform::Lowercase)
    } else if is_text(name, "urldecode") || is_text(name, "urldecodeuni") {
        Ok(ConditionTransform::UrlDecode)
    } else if is_text(name, "compresswhitespace") {
        Ok(ConditionTransform::CompressWhitespace)
    } else if is_text(name, "removenulls") {
        Ok(ConditionTransform::RemoveNulls)
    } else {
        Err(ImportError::Transform(string_of(name)))
    }
}

proof fn lemma_transforms_error(actions: Seq<Seq<char>>, n: int)
    requires
        0 <= n <= actions.len(),
        transforms_in(actions.take(n)) is Err,
    ensures
        transforms_in(actions) == transforms_in(actions.take(n)),
    decreases actions.len(),
{
    if n < actions.len() {
        assert(actions.drop_last().take(n) =~= actions.take(n));
        lemma_transforms_error(actions.drop_last(), n);
    } else {
        assert(actions.take(n) =~= actions);
    }
}

/// The transformations that the `t` actions name.
pub fn parse_transforms(actions: &Vec<Vec<char>>) -> (r: Result<
    Vec<ConditionTransform>,
    ImportError,
>)
    ensures
        transforms_result(r) == transforms_in(char_lists(actions@)),
{
    let ghost all = char_lists(actions@);
    let mut out: Vec<ConditionTransform> = Vec::new();
    assert(out@ =~= seq![]);
    for i in 0..actions.len()
        invariant
            all == char_lists(actions@),
            transforms_in(all.take(i as int)) == Ok::<_, ErrorView>(out@),
    {
        assert(all.take(i + 1).drop_last() =~= all.take(i as int));
        assert(all.take(i + 1).last() == actions@[i as int]@);
        if let Some(raw) = strip(trimmed(actions[i].as_slice()), "t:") {
            let name = lower_ascii(trimmed(raw));
            match transform_by_name(name.as_slice()) {
                Ok(t) => {
                    out.push(t);
                },
                Err(e) => {
                    proof {
                        lemma_transforms_error(all, i + 1);
                    }
                    return Err(e);
                },
            }
        }
    }
    assert(all.take(all.len() as int) =~= all);
    Ok(out)
}

// ---------------------------------------------------------------------------
// Rules
// ---------------------------------------------------------------------------

/// A `SecRule` whose actions have been read.
#[derive(Debug)]
pub struct ParsedSecRule {
    pub target: String,
    pub operator: String,
    pub actions_raw: String,
    pub action: Action,
    pub status_code: Option<u16>,
    pub rule_id: String,
    pub transforms: Vec<ConditionTransform>,
}

/// A [`ParsedSecRule`] with texts in place of strings.
pub struct ParsedView {
    pub target: Seq<char>,
    pub operator: Seq<char>,
    pub actions_raw: Seq<char>,
    pub action: Action,
    pub status_code: Option<u16>,
    pub rule_id: Seq<char>,
    pub transforms: Seq<ConditionTransform>,
}

impl View for ParsedSecRule {
    type V = ParsedView;

    open spec fn view(&self) -> ParsedView {
        ParsedView {
            target: self.target@,
            operator: self.operator@,
            actions_raw: self.actions_raw@,
            action: self.action,
            status_code: self.status_code,
            rule_id: self.rule_id@,
            transforms: self.transforms@,
        }
    }
}

/// The id of a rule, or what stands in its place.
pub open spec fn id_or_none(actions: Seq<char>) -> Seq<char> {
    match action_id(actions) {
        Some(id) => id,
        None => "(no-id)"@,
    }
}

/// The id of a rule, or what stands in its place.
pub(crate) fn id_of(actions: &str) -> (id: String)
    ensures
        id@ == id_or_none(actions@),
{
    match parse_action_id(actions) {
        Some(id) => id,
        None => "(no-id)".to_owned(),
    }
}

/// What the parts of a `SecRule` say. The first thing wrong with the actions is
/// the error: the action, then the status code, then the transformations.
pub open spec fn parsed_in(p: RulePieces) -> Result<ParsedView, ErrorView> {
    let actions = action_list(p.actions);
    match action_in(actions) {
        Ok(action) => match status_in(actions) {
            Ok(status_code) => match transforms_in(actions) {
                Ok(transforms) => Ok(
                    ParsedView {
                        target: p.target,
                        operator: p.operator,
                        actions_raw: p.actions,
                        action,
                        status_code,
                        rule_id: id_or_none(p.actions),
                        transforms,
                    },
                ),
                Err(e) => Err(e),
            },
            Err(e) => Err(e),
        },
        Err(e) => Err(e),
    }
}

/// The model of what [`parse_secrule`] returns.
pub open spec fn parsed_result(r: Result<ParsedSecRule, ImportError>) -> Result<
    ParsedView,
    ErrorView,
> {
    match r {
        Ok(p) => Ok(p@),
        Err(e) => Err(e@),
    }
}

/// What the parts of a `SecRule` say.
pub fn parse_secrule(target: &str, operator: &str, actions: &str) -> (r: Result<
    ParsedSecRule,
    ImportError,
>)
    ensures
        parsed_result(r) == parsed_in(
            RulePieces { target: target@, operator: operator@, actions: actions@ },
        ),
{
    let cs = chars_of(actions);
    let list = actions_of(cs.as_slice());
    let action = match parse_action(&list) {
        Ok(a) => a,
        Err(e) => {
            return Err(e);
        },
    };
    let status_code = match parse_status_code(&list) {
        Ok(s) => s,
        Err(e) => {
            return Err(e);
        },
    };
    let transforms = match parse_transforms(&list) {
        Ok(t) => t,
        Err(e) => {
            return Err(e);
        },
    };
    Ok(
        ParsedSecRule {
            target: target.to_owned(),
            operator: operator.to_owned(),
            actions_raw: actions.to_owned(),
            action,
            status_code,
            rule_id: id_of(actions),
            transforms,
        },
    )
}

// ---------------------------------------------------------------------------
// Operators and targets
// ---------------------------------------------------------------------------

/// The name of an operator and its operand, if it has one.
pub open spec fn operator_parts(raw: Seq<char>) -> Result<
    (Seq<char>, Option<Seq<char>>),
    ErrorView,
> {
    let t = trim(raw);
    let n = before_space(t);
    if t.len() == 0 {
        Err(ErrorView::EmptyOperator)
    } else if n < t.len() && trim(t.skip(n + 1)).len() > 0 {
        Ok((t.take(n), Some(trim(t.skip(n + 1)))))
    } else {
        Ok((t.take(n), None))
    }
}

/// The model of what [`parse_operator`] returns.
pub open spec fn operator_result(r: Result<(String, Option<String>), ImportError>) -> Result<
    (Seq<char>, Option<Seq<char>>),
    ErrorView,
> {
    match r {
        Ok((op, operand)) => Ok((op@, text_opt(operand))),
        Err(e) => Err(e@),
    }
}

/// The name of an operator and its operand, if it has one.
pub fn parse_operator(raw: &str) -> (r: Result<(String, Option<String>), ImportError>)
    ensures
        operator_result(r) == operator_parts(raw@),
{
    let cs = chars_of(raw);
    let t = trimmed(cs.as_slice());
    let len = t.len();
    if len == 0 {
        return Err(ImportError::EmptyOperator);
    }
    let n = find_space(t);
    let op = slice_subrange(t, 0, n);
    assert(op@ =~= t@.take(n as int));
    if n < len {
        let rest = slice_subrange(t, n + 1, len);
        assert(rest@ =~= t@.skip(n + 1));
        let operand = trimmed(rest);
        if operand.len() > 0 {
            return Ok((string_of(op), Some(string_of(operand))));
        }
    }
    Ok((string_of(op), None))
}

/// The part of a request that a target names.
pub open spec fn target_in(raw: Seq<char>) -> Result<TargetView, ErrorView> {
    if raw == "REQUEST_METHOD"@ {
        Ok(TargetView::Method)
    } else if raw == "REQUEST_URI"@ {
        Ok(TargetView::Path)
    } else if raw == "QUERY_STRING"@ {
        Ok(TargetView::Query)
    } else if raw == "REQUEST_BODY"@ {
        Ok(TargetView::Body)
    } else if raw == "REQUEST_HEADERS:User-Agent"@ {
        Ok(TargetView::UserAgent)
    } else if raw == "REMOTE_ADDR"@ {
        Ok(TargetView::ClientIp)
    } else {
        match after_prefix(raw, "REQUEST_HEADERS:"@) {
            Some(name) => Ok(TargetView::Header(ascii_lower(name))),
            None => Err(ErrorView::Target(raw)),
        }
    }
}

/// The model of what [`map_target`] returns.
pub open spec fn target_result(r: Result<ConditionTarget, ImportError>) -> Result<
    TargetView,
    ErrorView,
> {
    match r {
        Ok(t) => Ok(t@),
        Err(e) => Err(e@),
    }
}

/// The part of a request that a target names.
pub fn map_target(raw: &str) -> (r: Result<ConditionTarget, ImportError>)
    ensures
        target_result(r) == target_in(raw@),
{
    let cs = chars_of(raw);
    let t = cs.as_slice();
    if is_text(t, "REQUEST_METHOD") {
        Ok(ConditionTarget::Method)
    } else if is_text(t, "REQUEST_URI") {
        Ok(ConditionTarget::Path)
    } else if is_text(t, "QUERY_STRING") {
        Ok(ConditionTarget::Query)
    } else if is_text(t, "REQUEST_BODY") {
        Ok(ConditionTarget::Body)
    } else if is_text(t, "REQUEST_HEADERS:User-Agent") {
        Ok(ConditionTarget::UserAgent)
    } else if is_text(t, "REMOTE_ADDR") {
        Ok(ConditionTarget::ClientIp)
    } else {
        match strip(t, "REQUEST_HEADERS:") {
            Some(name) => {
                let lowered = lower_ascii(name);
                Ok(ConditionTarget::Header { name: string_of(lowered.as_slice()) })
            },
            None => Err(ImportError::Target(raw.to_owned())),
        }
    }
}

/// The operand of an operator that needs one.
pub open spec fn operand_for(operand: Option<Seq<char>>, operator: Seq<char>) -> Result<
    Seq<char>,
    ErrorView,
> {
    match operand {
        Some(v) => if trim(v).len() == 0 {
            Err(ErrorView::EmptyOperand(operator))
        } else {
            Ok(trim(v))
        },
        None => Err(ErrorView::MissingOperand(operator)),
    }
}

/// The model of a text that may be missing.
pub open spec fn text_result(r: Result<String, ImportError>) -> Result<Seq<char>, ErrorView> {
    match r {
        Ok(s) => Ok(s@),
        Err(e) => Err(e@),
    }
}

/// The operand of an operator that needs one.
pub fn required_operand(operand: &Option<String>, operator: &str) -> (r: Result<
    String,
    ImportError,
>)
    ensures
        text_result(r) == operand_for(text_opt(*operand), operator@),
{
    match operand {
        Some(v) => {
            let cs = chars_of(v.as_str());
            let t = trimmed(cs.as_slice());
            if t.len() == 0 {
                Err(ImportError::EmptyOperand(operator.to_owned()))
            } else {
                Ok(string_of(t))
            }
        },
        None => Err(ImportError::MissingOperand(operator.to_owned())),
    }
}

/// The words of a phrase list.
pub fn split_pm_values(raw: &str) -> (out: Vec<String>)
    ensures
        texts(out@) == words(raw@),
{
    let cs = chars_of(raw);
    let ws = words_of(cs.as_slice());
    strings_of(&ws)
}

// ---------------------------------------------------------------------------
// Phrase files
// ---------------------------------------------------------------------------

/// What became of the search for a phrase file.
#[derive(Debug)]
pub enum PhraseFile {
    /// The text of the file.
    Text(String),
    /// No file with that name was found.
    Missing,
    /// The file at this path could not be read.
    Unreadable(String),
}

/// A [`PhraseFile`] with texts in place of strings.
pub enum PhraseFileView {
    Text(Seq<char>),
    Missing,
    Unreadable(Seq<char>),
}

impl View for PhraseFile {
    type V = PhraseFileView;

    open spec fn view(&self) -> PhraseFileView {
        match *self {
            PhraseFile::Text(s) => PhraseFileView::Text(s@),
            PhraseFile::Missing => PhraseFileView::Missing,
            PhraseFile::Unreadable(s) => PhraseFileView::Unreadable(s@),
        }
    }
}

/// The phrases on the lines, trimmed; blank lines and comments hold none.
pub open spec fn phrases_in(ls: Seq<Seq<char>>) -> Seq<Seq<char>>
    decreases ls.len(),
{
    if ls.len() == 0 {
        seq![]
    } else if is_phrase(ls.last()) {
        phrases_in(ls.drop_last()).push(trim(ls.last()))
    } else {
        phrases_in(ls.drop_last())
    }
}

/// The phrases in a file.
pub fn phrases_of(raw: &str) -> (out: Vec<String>)
    ensures
        texts(out@) == phrases_in(lines(raw@)),
{
    let cs = chars_of(raw);
    let ls = lines_of(cs.as_slice());
    let ghost all = slices(ls@);
    let mut out: Vec<String> = Vec::new();
    assert(texts(out@) =~= phrases_in(all.take(0)));
    for i in 0..ls.len()
        invariant
            all == slices(ls@),
            texts(out@) == phrases_in(all.take(i as int)),
    {
        assert(all.take(i + 1).drop_last() =~= all.take(i as int));
        assert(all.take(i + 1).last() == ls@[i as int]@);
        let phrase = trimmed(ls[i]);
        if phrase.len() > 0 && !begins(phrase, "#") {
            let ghost before = texts(out@);
            out.push(string_of(phrase));
            assert(texts(out@) =~= before.push(phrase@));
        }
    }
    assert(all.take(all.len() as int) =~= all);
    out
}

/// The phrases in the file with a name.
pub open spec fn phrases_named(
    name: Seq<char>,
    files: Seq<(Seq<char>, PhraseFileView)>,
) -> Result<Seq<Seq<char>>, ErrorView> {
    match lookup(files, name) {
        Some(PhraseFileView::Text(raw)) => Ok(phrases_in(lines(raw))),
        Some(PhraseFileView::Unreadable(path)) => Err(ErrorView::UnreadableFile(path)),
        Some(PhraseFileView::Missing) => Err(ErrorView::UnresolvedFile(name)),
        None => Err(ErrorView::UnresolvedFile(name)),
    }
}

/// The model of a list of texts that may be missing.
pub open spec fn texts_result(r: Result<Vec<String>, ImportError>) -> Result<
    Seq<Seq<char>>,
    ErrorView,
> {
    match r {
        Ok(v) => Ok(texts(v@)),
        Err(e) => Err(e@),
    }
}

/// The phrases in the file with a name.
pub fn load_phrase_file(name: &str, files: &TextMap<PhraseFile>) -> (r: Result<
    Vec<String>,
    ImportError,
>)
    ensures
        texts_result(r) == phrases_named(name@, files@),
{
    match files.get(name) {
        Some(PhraseFile::Text(raw)) => Ok(phrases_of(raw.as_str())),
        Some(PhraseFile::Unreadable(path)) => Err(ImportError::UnreadableFile(path.clone())),
        Some(PhraseFile::Missing) => Err(ImportError::UnresolvedFile(name.to_owned())),
        None => Err(ImportError::UnresolvedFile(name.to_owned())),
    }
}

// ---------------------------------------------------------------------------
// Mapping
// ---------------------------------------------------------------------------

/// A rule of the rule set with the action and status code of a `SecRule`.
pub open spec fn rule_with(
    p: ParsedView,
    id: Seq<char>,
    user_agents: Seq<Seq<char>>,
    conditions: Seq<ConditionConfigView>,
) -> RuleConfigView {
    RuleConfigView {
        id,
        enabled: true,
        action: p.action,
        status_code: p.status_code,
        methods: seq![],
        path_prefixes: seq![],
        ip_cidrs: seq![],
        user_agent_contains: user_agents,
        conditions,
    }
}

/// The id of an imported rule.
pub open spec fn imported_id(p: ParsedView) -> Seq<char> {
    "crs-"@ + p.rule_id
}

/// The id of the imported rule for the phrase with a number.
pub open spec fn phrase_id(p: ParsedView, number: int) -> Seq<char> {
    "crs-"@ + p.rule_id + "-"@ + decimal(number)
}

/// A rule that compares one value.
pub open spec fn value_rule(
    p: ParsedView,
    id: Seq<char>,
    target: TargetView,
    operator: ConditionOperator,
    value: Seq<char>,
) -> RuleConfigView {
    rule_with(
        p,
        id,
        seq![],
        seq![
            ConditionConfigView {
                target,
                operator,
                value: Some(value),
                values: seq![],
                transforms: p.transforms,
            },
        ],
    )
}

/// The single rule for an operator that compares its operand.
pub open spec fn compared(
    p: ParsedView,
    target: TargetView,
    operator: ConditionOperator,
    name: Seq<char>,
    operand: Option<Seq<char>>,
) -> Result<Seq<RuleConfigView>, ErrorView> {
    match operand_for(operand, name) {
        Ok(value) => Ok(seq![value_rule(p, imported_id(p), target, operator, value)]),
        Err(e) => Err(e),
    }
}

/// One rule for each phrase.
pub open spec fn phrase_rules(p: ParsedView, target: TargetView, phrases: Seq<Seq<char>>) -> Seq<
    RuleConfigView,
> {
    Seq::new(
        phrases.len(),
        |i: int|
            value_rule(p, phrase_id(p, i + 1), target, ConditionOperator::Contains, phrases[i]),
    )
}

/// The rules for the phrases, of which there must be one.
pub open spec fn phrase_rules_result(
    p: ParsedView,
    target: TargetView,
    phrases: Result<Seq<Seq<char>>, ErrorView>,
) -> Result<Seq<RuleConfigView>, ErrorView> {
    match phrases {
        Ok(ps) => if ps.len() == 0 {
            Err(ErrorView::EmptyPhrases)
        } else {
            Ok(phrase_rules(p, target, ps))
        },
        Err(e) => Err(e),
    }
}

/// The single rule for an operator that compares addresses. It has no
/// transformations, and only the client's address for a target.
pub open spec fn address_rules(
    p: ParsedView,
    target: TargetView,
    name: Seq<char>,
    operand: Option<Seq<char>>,
) -> Result<Seq<RuleConfigView>, ErrorView> {
    if target is ClientIp {
        match operand_for(operand, name) {
            Ok(value) => {
                let condition = ConditionConfigView {
                    target,
                    operator: ConditionOperator::IpMatch,
                    value: None,
                    values: words(value),
                    transforms: seq![],
                };
                Ok(seq![rule_with(p, imported_id(p), seq![], seq![condition])])
            },
            Err(e) => Err(e),
        }
    } else {
        Err(ErrorView::IpMatchTarget)
    }
}

/// The rules for one `SecRule` on a target.
pub open spec fn generic_rules(
    p: ParsedView,
    target: TargetView,
    operator: Seq<char>,
    operand: Option<Seq<char>>,
    files: Seq<(Seq<char>, PhraseFileView)>,
) -> Result<Seq<RuleConfigView>, ErrorView> {
    if operator == "@streq"@ {
        compared(p, target, ConditionOperator::Eq, operator, operand)
    } else if operator == "@contains"@ {
        compared(p, target, ConditionOperator::Contains, operator, operand)
    } else if operator == "@beginsWith"@ {
        compared(p, target, ConditionOperator::Prefix, operator, operand)
    } else if operator == "@endsWith"@ {
        compared(p, target, ConditionOperator::Suffix, operator, operand)
    } else if operator == "@rx"@ {
        compared(p, target, ConditionOperator::Regex, operator, operand)
    } else if operator == "@ipMatch"@ {
        address_rules(p, target, operator, operand)
    } else if operator == "@pmFromFile"@ {
        match operand_for(operand, operator) {
            Ok(name) => phrase_rules_result(p, target, phrases_named(name, files)),
            Err(e) => Err(e),
        }
    } else if operator == "@pm"@ {
        match operand_for(operand, operator) {
            Ok(value) => phrase_rules_result(p, target, Ok(words(value))),
            Err(e) => Err(e),
        }
    } else {
        Err(ErrorView::Operator(operator))
    }
}

/// The needles of a phrase list on the user agent.
pub open spec fn user_agent_needles(
    operator: Seq<char>,
    operand: Option<Seq<char>>,
    files: Seq<(Seq<char>, PhraseFileView)>,
) -> Result<Seq<Seq<char>>, ErrorView> {
    if operator == "@pmFromFile"@ {
        match operand {
            Some(name) => phrases_named(name, files),
            None => Err(ErrorView::PmFromFileOperand),
        }
    } else {
        match operand {
            Some(value) => Ok(words(value)),
            None => Err(ErrorView::PmOperand),
        }
    }
}

/// The rules of the rule set for one `SecRule`. A phrase list on the user agent
/// becomes a single rule.
pub open spec fn mapped(p: ParsedView, files: Seq<(Seq<char>, PhraseFileView)>) -> Result<
    Seq<RuleConfigView>,
    ErrorView,
> {
    match operator_parts(p.operator) {
        Ok((operator, operand)) => if contains(p.actions_raw, "chain"@) {
            Err(ErrorView::Chained)
        } else if p.target == "REQUEST_HEADERS:User-Agent"@ && (operator == "@pm"@ || operator
            == "@pmFromFile"@) {
            match user_agent_needles(operator, operand, files) {
                Ok(needles) => if needles.len() == 0 {
                    Err(ErrorView::EmptyPhrases)
                } else {
                    Ok(seq![rule_with(p, imported_id(p), needles, seq![])])
                },
                Err(e) => Err(e),
            }
        } else {
            match target_in(p.target) {
                Ok(target) => generic_rules(p, target, operator, operand, files),
                Err(e) => Err(e),
            }
        },
        Err(e) => Err(e),
    }
}

/// The model of a list of rules that may be missing.
pub open spec fn rules_result(r: Result<Vec<RuleConfig>, ImportError>) -> Result<
    Seq<RuleConfigView>,
    ErrorView,
> {
    match r {
        Ok(v) => Ok(rule_configs_view(v@)),
        Err(e) => Err(e@),
    }
}

fn make_rule(
    p: &ParsedSecRule,
    id: String,
    user_agents: Vec<String>,
    conditions: Vec<ConditionConfig>,
) -> (rule: RuleConfig)
    ensures
        rule@ == rule_with(p@, id@, texts(user_agents@), conditions_view(conditions@)),
{
    let rule = RuleConfig {
        id,
        enabled: true,
        action: p.action,
        status_code: p.status_code,
        methods: Vec::new(),
        path_prefixes: Vec::new(),
        ip_cidrs: Vec::new(),
        user_agent_contains: user_agents,
        conditions,
    };
    assert(texts(rule.methods@) =~= seq![]);
    assert(texts(rule.path_prefixes@) =~= seq![]);
    assert(texts(rule.ip_cidrs@) =~= seq![]);
    rule
}

fn make_condition_rule(p: &ParsedSecRule, id: String, condition: ConditionConfig) -> (rule:
    RuleConfig)
    ensures
        rule@ == rule_with(p@, id@, seq![], seq![condition@]),
{
    let none: Vec<String> = Vec::new();
    assert(texts(none@) =~= seq![]);
    let mut conditions: Vec<ConditionConfig> = Vec::new();
    conditions.push(condition);
    assert(conditions_view(conditions@) =~= seq![condition@]);
    make_rule(p, id, none, conditions)
}

fn make_value_rule(
    p: &ParsedSecRule,
    id: String,
    target: ConditionTarget,
    operator: ConditionOperator,
    value: String,
) -> (rule: RuleConfig)
    ensures
        rule@ == value_rule(p@, id@, target@, operator, value@),
{
    let condition = ConditionConfig {
        target,
        operator,
        value: Some(value),
        values: Vec::new(),
        transforms: copy_transforms(&p.transforms),
    };
    assert(texts(condition.values@) =~= seq![]);
    make_condition_rule(p, id, condition)
}

fn make_id(p: &ParsedSecRule) -> (id: String)
    ensures
        id@ == imported_id(p@),
{
    two_texts("crs-", p.rule_id.as_str())
}

fn one_rule(rule: RuleConfig) -> (out: Vec<RuleConfig>)
    ensures
        rule_configs_view(out@) == seq![rule@],
{
    let mut out: Vec<RuleConfig> = Vec::new();
    out.push(rule);
    assert(rule_configs_view(out@) =~= seq![rule@]);
    out
}

fn compare_value(
    p: &ParsedSecRule,
    target: ConditionTarget,
    operator: ConditionOperator,
    name: &str,
    operand: &Option<String>,
) -> (r: Result<Vec<RuleConfig>, ImportError>)
    ensures
        rules_result(r) == compared(p@, target@, operator, name@, text_opt(*operand)),
{
    match required_operand(operand, name) {
        Ok(value) => Ok(one_rule(make_value_rule(p, make_id(p), target, operator, value))),
        Err(e) => Err(e),
    }
}

fn rules_for_phrases(p: &ParsedSecRule, target: &ConditionTarget, phrases: &Vec<String>) -> (r:
    Result<Vec<RuleConfig>, ImportError>)
    ensures
        rules_result(r) == phrase_rules_result(p@, target@, Ok(texts(phrases@))),
{
    if phrases.len() == 0 {
        assert(texts(phrases@).len() == 0);
        return Err(ImportError::EmptyPhrases);
    }
    let mut out: Vec<RuleConfig> = Vec::new();
    let len = phrases.len();
    let ghost wanted = phrase_rules(p@, target@, texts(phrases@));
    for i in 0..len
        invariant
            len == phrases@.len(),
            wanted == phrase_rules(p@, target@, texts(phrases@)),
            out@.len() == i,
            forall|j: int| 0 <= j < i ==> (#[trigger] out@[j])@ == wanted[j],
    {
        let mut id = chars_of("crs-");
        push_text(&mut id, p.rule_id.as_str());
        push_text(&mut id, "-");
        push_chars(&mut id, write_decimal((i + 1) as u64).as_slice());
        assert(id@ == phrase_id(p@, i + 1));
        out.push(
            make_value_rule(
                p,
                string_of(id.as_slice()),
                target.clone(),
                ConditionOperator::Contains,
                phrases[i].clone(),
            ),
        );
    }
    assert(rule_configs_view(out@) =~= wanted);
    assert(texts(phrases@).len() == phrases@.len());
    Ok(out)
}

fn match_address(
    p: &ParsedSecRule,
    target: ConditionTarget,
    name: &str,
    operand: &Option<String>,
) -> (r: Result<Vec<RuleConfig>, ImportError>)
    ensures
        rules_result(r) == address_rules(p@, target@, name@, text_opt(*operand)),
{
    match target {
        ConditionTarget::ClientIp => {},
        _ => {
            return Err(ImportError::IpMatchTarget);
        },
    }
    match required_operand(operand, name) {
        Ok(value) => {
            let condition = ConditionConfig {
                target,
                operator: ConditionOperator::IpMatch,
                value: None,
                values: split_pm_values(value.as_str()),
                transforms: Vec::new(),
            };
            assert(condition.transforms@ =~= seq![]);
            Ok(one_rule(make_condition_rule(p, make_id(p), condition)))
        },
        Err(e) => Err(e),
    }
}

/// The rules for one `SecRule` on a target.
pub fn map_generic_condition(
    p: &ParsedSecRule,
    target: ConditionTarget,
    operator: &str,
    operand: &Option<String>,
    files: &TextMap<PhraseFile>,
) -> (r: Result<Vec<RuleConfig>, ImportError>)
    ensures
        rules_result(r) == generic_rules(p@, target@, operator@, text_opt(*operand), files@),
{
    if same_text(operator, "@streq") {
        compare_value(p, target, ConditionOperator::Eq, operator, operand)
    } else if same_text(operator, "@contains") {
        compare_value(p, target, ConditionOperator::Contains, operator, operand)
    } else if same_text(operator, "@beginsWith") {
        compare_value(p, target, ConditionOperator::Prefix, operator, operand)
    } else if same_text(operator, "@endsWith") {
        compare_value(p, target, ConditionOperator::Suffix, operator, operand)
    } else if same_text(operator, "@rx") {
        compare_value(p, target, ConditionOperator::Regex, operator, operand)
    } else if same_text(operator, "@ipMatch") {
        match_address(p, target, operator, operand)
    } else if same_text(operator, "@pmFromFile") {
        match required_operand(operand, operator) {
            Ok(name) => match load_phrase_file(name.as_str(), files) {
                Ok(phrases) => rules_for_phrases(p, &target, &phrases),
                Err(e) => Err(e),
            },
            Err(e) => Err(e),
        }
    } else if same_text(operator, "@pm") {
        match required_operand(operand, operator) {
            Ok(value) => rules_for_phrases(p, &target, &split_pm_values(value.as_str())),
            Err(e) => Err(e),
        }
    } else {
        Err(ImportError::Operator(operator.to_owned()))
    }
}

fn find_needles(operator: &str, operand: &Option<String>, files: &TextMap<PhraseFile>) -> (r:
    Result<Vec<String>, ImportError>)
    ensures
        texts_result(r) == user_agent_needles(operator@, text_opt(*operand), files@),
{
    if same_text(operator, "@pmFromFile") {
        match operand {
            Some(name) => load_phrase_file(name.as_str(), files),
            None => Err(ImportError::PmFromFileOperand),
        }
    } else {
        match operand {
            Some(value) => Ok(split_pm_values(value.as_str())),
            None => Err(ImportError::PmOperand),
        }
    }
}

/// The rules of the rule set for one `SecRule`.
pub fn map_rule(p: &ParsedSecRule, files: &TextMap<PhraseFile>) -> (r: Result<
    Vec<RuleConfig>,
    ImportError,
>)
    ensures
        rules_result(r) == mapped(p@, files@),
{
    let (operator, operand) = match parse_operator(p.operator.as_str()) {
        Ok(o) => o,
        Err(e) => {
            return Err(e);
        },
    };
    let raw = chars_of(p.actions_raw.as_str());
    if mentions(raw.as_slice(), "chain") {
        return Err(ImportError::Chained);
    }
    if same_text(p.target.as_str(), "REQUEST_HEADERS:User-Agent") && (same_text(
        operator.as_str(),
        "@pm",
    ) || same_text(operator.as_str(), "@pmFromFile")) {
        return match find_needles(operator.as_str(), &operand, files) {
            Ok(needles) => {
                assert(texts(needles@).len() == needles@.len());
                if needles.len() == 0 {
                    Err(ImportError::EmptyPhrases)
                } else {
                    let none: Vec<ConditionConfig> = Vec::new();
                    assert(conditions_view(none@) =~= seq![]);
                    Ok(one_rule(make_rule(p, make_id(p), needles, none)))
                }
            },
            Err(e) => Err(e),
        };
    }
    match map_target(p.target.as_str()) {
        Ok(target) => map_generic_condition(p, target, operator.as_str(), &operand, files),
        Err(e) => Err(e),
    }
}

// ---------------------------------------------------------------------------
// Files
// ---------------------------------------------------------------------------

/// What became of one rule.
#[derive(Clone, Copy, Debug, PartialEq, Eq, Structural)]
pub enum ImportStatus {
    Imported,
    Skipped,
}

/// What became of one rule, and why.
#[derive(Debug)]
pub struct ParseResult {
    pub rule_id: String,
    pub status: ImportStatus,
    pub reason: String,
}

/// A [`ParseResult`] with texts in place of strings.
pub struct ParseResultView {
    pub rule_id: Seq<char>,
    pub status: ImportStatus,
    pub reason: Seq<char>,
}

impl View for ParseResult {
    type V = ParseResultView;

    open spec fn view(&self) -> ParseResultView {
        ParseResultView { rule_id: self.rule_id@, status: self.status, reason: self.reason@ }
    }
}

/// The models of a list of results.
pub open spec fn results_view(v: Seq<ParseResult>) -> Seq<ParseResultView> {
    v.map_values(|r: ParseResult| r@)
}

/// What was imported: the rules, and what became of each `SecRule`.
pub struct Imported {
    pub rules: Seq<RuleConfigView>,
    pub results: Seq<ParseResultView>,
}

/// What one `SecRule` adds to what was imported.
pub open spec fn with_rule(
    so_far: Imported,
    pieces: RulePieces,
    files: Seq<(Seq<char>, PhraseFileView)>,
) -> Imported {
    match parsed_in(pieces) {
        Ok(p) => match mapped(p, files) {
            Ok(rules) => Imported {
                rules: so_far.rules + rules,
                results: so_far.results.push(
                    ParseResultView {
                        rule_id: p.rule_id,
                        status: ImportStatus::Imported,
                        reason: "ok"@,
                    },
                ),
            },
            Err(e) => Imported {
                rules: so_far.rules,
                results: so_far.results.push(
                    ParseResultView {
                        rule_id: p.rule_id,
                        status: ImportStatus::Skipped,
                        reason: error_message(e),
                    },
                ),
            },
        },
        Err(e) => Imported {
            rules: so_far.rules,
            results: so_far.results.push(
                ParseResultView {
                    rule_id: "(no-id)"@,
                    status: ImportStatus::Skipped,
                    reason: "parse_error: "@ + error_message(e),
                },
            ),
        },
    }
}

/// What the statements of a file add to what was imported. Statements that are
/// no `SecRule` add nothing.
pub open spec fn with_statements(
    so_far: Imported,
    stmts: Seq<Seq<char>>,
    files: Seq<(Seq<char>, PhraseFileView)>,
) -> Imported
    decreases stmts.len(),
{
    if stmts.len() == 0 {
        so_far
    } else {
        let before = with_statements(so_far, stmts.drop_last(), files);
        match rule_pieces(stmts.last()) {
            Some(pieces) => with_rule(before, pieces, files),
            None => before,
        }
    }
}

fn append_rules(rules: &mut Vec<RuleConfig>, tail: Vec<RuleConfig>)
    ensures
        rule_configs_view(final(rules)@) == rule_configs_view(old(rules)@) + rule_configs_view(
            tail@,
        ),
{
    let mut rest = tail;
    let ghost before = rules@;
    rules.append(&mut rest);
    assert(rule_configs_view(rules@) =~= rule_configs_view(before) + rule_configs_view(tail@));
}

fn push_result(
    results: &mut Vec<ParseResult>,
    rule_id: String,
    status: ImportStatus,
    reason: String,
)
    ensures
        results_view(final(results)@) == results_view(old(results)@).push(
            ParseResultView { rule_id: rule_id@, status, reason: reason@ },
        ),
{
    let ghost before = results@;
    let result = ParseResult { rule_id, status, reason };
    results.push(result);
    assert(results_view(results@) =~= results_view(before).push(result@));
}

/// Imports one `SecRule`.
fn import_rule(
    target: &[char],
    operator: &[char],
    actions: &[char],
    files: &TextMap<PhraseFile>,
    rules: &mut Vec<RuleConfig>,
    results: &mut Vec<ParseResult>,
)
    ensures
        with_rule(
            (Imported {
                rules: rule_configs_view(old(rules)@),
                results: results_view(old(results)@),
            }),
            (RulePieces { target: target@, operator: operator@, actions: actions@ }),
            files@,
        ) == (Imported {
            rules: rule_configs_view(final(rules)@),
            results: results_view(final(results)@),
        }),
{
    let target = string_of(target);
    let operator = string_of(operator);
    let actions = string_of(actions);
    match parse_secrule(target.as_str(), operator.as_str(), actions.as_str()) {
        Ok(parsed) => match map_rule(&parsed, files) {
            Ok(mapped_rules) => {
                append_rules(rules, mapped_rules);
                push_result(results, parsed.rule_id, ImportStatus::Imported, "ok".to_owned());
            },
            Err(e) => {
                push_result(results, parsed.rule_id, ImportStatus::Skipped, e.message());
            },
        },
        Err(e) => {
            let reason = two_texts("parse_error: ", e.message().as_str());
            push_result(results, "(no-id)".to_owned(), ImportStatus::Skipped, reason);
        },
    }
}

/// Imports the rules of one file. `files` holds the phrase files that its rules
/// name; one that it does not hold counts as not found.
pub fn import_text(
    raw: &str,
    files: &TextMap<PhraseFile>,
    rules: &mut Vec<RuleConfig>,
    results: &mut Vec<ParseResult>,
)
    ensures
        with_statements(
            (Imported {
                rules: rule_configs_view(old(rules)@),
                results: results_view(old(results)@),
            }),
            statements(raw@),
            files@,
        ) == (Imported {
            rules: rule_configs_view(final(rules)@),
            results: results_view(final(results)@),
        }),
{
    let cs = chars_of(raw);
    let stmts = statements_of(cs.as_slice());
    let ghost all = char_lists(stmts@);
    let ghost start = Imported {
        rules: rule_configs_view(rules@),
        results: results_view(results@),
    };
    for i in 0..stmts.len()
        invariant
            all == char_lists(stmts@),
            with_statements(start, all.take(i as int), files@) == (Imported {
                rules: rule_configs_view(rules@),
                results: results_view(results@),
            }),
    {
        assert(all.take(i + 1).drop_last() =~= all.take(i as int));
        assert(all.take(i + 1).last() == stmts@[i as int]@);
        if let Some((target, operator, actions)) = cut_rule(stmts[i].as_slice()) {
            import_rule(target, operator, actions, files, rules, results);
        }
    }
    assert(all.take(all.len() as int) =~= all);
}

// ---------------------------------------------------------------------------
// Phrase files that are needed
// ---------------------------------------------------------------------------

/// The name of the phrase file that a `SecRule` takes its phrases from.
pub open spec fn phrase_file_of(pieces: RulePieces) -> Option<Seq<char>> {
    match operator_parts(pieces.operator) {
        Ok((operator, operand)) => if operator == "@pmFromFile"@ {
            operand
        } else {
            None
        },
        Err(_) => None,
    }
}

/// The names of the phrase files that the statements ask for, in order.
pub open spec fn phrase_files_of(stmts: Seq<Seq<char>>) -> Seq<Seq<char>>
    decreases stmts.len(),
{
    if stmts.len() == 0 {
        seq![]
    } else {
        let head = phrase_files_of(stmts.drop_last());
        match rule_pieces(stmts.last()) {
            Some(pieces) => match phrase_file_of(pieces) {
                Some(name) => head.push(name),
                None => head,
            },
            None => head,
        }
    }
}

/// The names of the phrase files that the rules of a file ask for, in order.
pub fn needed_phrase_files(raw: &str) -> (out: Vec<String>)
    ensures
        texts(out@) == phrase_files_of(statements(raw@)),
{
    let cs = chars_of(raw);
    let stmts = statements_of(cs.as_slice());
    let ghost all = char_lists(stmts@);
    let mut out: Vec<String> = Vec::new();
    assert(texts(out@) =~= phrase_files_of(all.take(0)));
    for i in 0..stmts.len()
        invariant
            all == char_lists(stmts@),
            texts(out@) == phrase_files_of(all.take(i as int)),
    {
        assert(all.take(i + 1).drop_last() =~= all.take(i as int));
        assert(all.take(i + 1).last() == stmts@[i as int]@);
        if let Some((_, operator, _)) = cut_rule(stmts[i].as_slice()) {
            let raw_operator = string_of(operator);
            if let Ok((name, operand)) = parse_operator(raw_operator.as_str()) {
                if same_text(name.as_str(), "@pmFromFile") {
                    if let Some(file) = operand {
                        let ghost before = texts(out@);
                        out.push(file);
                        assert(texts(out@) =~= before.push(file@));
                    }
                }
            }
        }
    }
    assert(all.take(all.len() as int) =~= all);
    out
}

// ---------------------------------------------------------------------------
// Reports
// ---------------------------------------------------------------------------

/// The results of the rules that were skipped.
pub open spec fn skipped(results: Seq<ParseResultView>) -> Seq<ParseResultView>
    decreases results.len(),
{
    if results.len() == 0 {
        seq![]
    } else if results.last().status == ImportStatus::Skipped {
        skipped(results.drop_last()).push(results.last())
    } else {
        skipped(results.drop_last())
    }
}

/// The reasons of some results.
pub open spec fn reasons_of(results: Seq<ParseResultView>) -> Seq<Seq<char>> {
    results.map_values(|r: ParseResultView| r.reason)
}

/// A line of the report with a count.
pub open spec fn count_line(label: Seq<char>, n: int) -> Seq<char> {
    label + decimal(n) + "\n"@
}

/// The lines of the report with the reasons, each with its count.
pub open spec fn tally_lines(tally: Seq<(Seq<char>, usize)>) -> Seq<char>
    decreases tally.len(),
{
    if tally.len() == 0 {
        seq![]
    } else {
        tally_lines(tally.drop_last()) + ("  - "@ + tally.last().0 + ": "@ + decimal(
            tally.last().1 as int,
        ) + "\n"@)
    }
}

/// The lines of the report with samples.
pub open spec fn sample_lines(results: Seq<ParseResultView>) -> Seq<char>
    decreases results.len(),
{
    if results.len() == 0 {
        seq![]
    } else {
        sample_lines(results.drop_last()) + ("  - "@ + results.last().rule_id + " "@
            + results.last().reason + "\n"@)
    }
}

/// The lines, or one line that says that there are none.
pub open spec fn lines_or_none(lines: Seq<char>) -> Seq<char> {
    if lines.len() == 0 {
        "  - none\n"@
    } else {
        lines
    }
}

/// The first twenty of a list.
pub open spec fn first_twenty(results: Seq<ParseResultView>) -> Seq<ParseResultView> {
    if results.len() > 20 {
        results.take(20)
    } else {
        results
    }
}

/// The report on an import: how many rules were imported and skipped, the
/// reasons in order with their counts, and the first skipped rules.
pub open spec fn report(n_files: int, results: Seq<ParseResultView>) -> Seq<char> {
    let left_out = skipped(results);
    "CRS Import Report\n"@ + count_line("files_scanned: "@, n_files) + count_line(
        "rules_seen: "@,
        results.len() as int,
    ) + count_line("rules_imported: "@, results.len() - left_out.len()) + count_line(
        "rules_skipped: "@,
        left_out.len() as int,
    ) + "skip_reasons:\n"@ + lines_or_none(tally_lines(tallied(reasons_of(left_out))))
        + "sample_skipped:\n"@ + lines_or_none(sample_lines(first_twenty(left_out)))
}

pub(crate) fn push_count(out: &mut Vec<char>, label: &str, n: usize)
    ensures
        final(out)@ == old(out)@ + count_line(label@, n as int),
{
    let ghost before = out@;
    push_text(out, label);
    push_chars(out, write_decimal(n as u64).as_slice());
    push_text(out, "\n");
    assert(out@ =~= before + count_line(label@, n as int));
}

/// The lines with the words of a tally, each with its count.
pub(crate) fn tally_text(t: &TextMap<usize>) -> (out: Vec<char>)
    ensures
        out@ == tally_lines(t@),
{
    let mut out: Vec<char> = Vec::new();
    let n = t.len();
    assert(out@ =~= tally_lines(t@.take(0)));
    for i in 0..n
        invariant
            n == t@.len(),
            out@ == tally_lines(t@.take(i as int)),
    {
        assert(t@.take(i + 1).drop_last() =~= t@.take(i as int));
        let ghost before = out@;
        push_text(&mut out, "  - ");
        push_text(&mut out, t.key(i));
        push_text(&mut out, ": ");
        push_chars(&mut out, write_decimal(*t.value(i) as u64).as_slice());
        push_text(&mut out, "\n");
        assert(out@ =~= before + ("  - "@ + t@[i as int].0 + ": "@ + decimal(
            t@[i as int].1 as int,
        ) + "\n"@));
    }
    assert(t@.take(n as int) =~= t@);
    out
}

fn push_lines_or_none(out: &mut Vec<char>, ls: &Vec<char>)
    ensures
        final(out)@ == old(out)@ + lines_or_none(ls@),
{
    if ls.len() == 0 {
        push_text(out, "  - none\n");
    } else {
        push_chars(out, ls.as_slice());
    }
}

proof fn lemma_skipped_len(results: Seq<ParseResultView>)
    ensures
        skipped(results).len() <= results.len(),
    decreases results.len(),
{
    if results.len() > 0 {
        lemma_skipped_len(results.drop_last());
    }
}

/// The reasons of the skipped rules, and the lines with the first twenty.
fn skipped_parts(results: &Vec<ParseResult>) -> (r: (Vec<String>, Vec<char>))
    ensures
        texts(r.0@) == reasons_of(skipped(results_view(results@))),
        r.1@ == sample_lines(first_twenty(skipped(results_view(results@)))),
{
    let ghost all = results_view(results@);
    let mut reasons: Vec<String> = Vec::new();
    let mut samples: Vec<char> = Vec::new();
    assert(texts(reasons@) =~= reasons_of(skipped(all.take(0))));
    assert(samples@ =~= sample_lines(first_twenty(skipped(all.take(0)))));
    for i in 0..results.len()
        invariant
            all == results_view(results@),
            texts(reasons@) == reasons_of(skipped(all.take(i as int))),
            samples@ == sample_lines(first_twenty(skipped(all.take(i as int)))),
    {
        let item = &results[i];
        assert(all.take(i + 1).drop_last() =~= all.take(i as int));
        assert(all.take(i + 1).last() == item@);
        let ghost before = skipped(all.take(i as int));
        let ghost after = skipped(all.take(i + 1));
        if item.status == ImportStatus::Skipped {
            assert(after == before.push(item@));
            assert(texts(reasons@).len() == before.len());
            if reasons.len() < 20 {
                let ghost so_far = samples@;
                push_text(&mut samples, "  - ");
                push_text(&mut samples, item.rule_id.as_str());
                push_text(&mut samples, " ");
                push_text(&mut samples, item.reason.as_str());
                push_text(&mut samples, "\n");
                assert(samples@ =~= so_far + ("  - "@ + item@.rule_id + " "@ + item@.reason
                    + "\n"@));
                assert(after.drop_last() =~= before);
            } else {
                assert(first_twenty(after) =~= first_twenty(before));
            }
            let ghost known = texts(reasons@);
            reasons.push(item.reason.clone());
            assert(texts(reasons@) =~= known.push(item@.reason));
            assert(reasons_of(after) =~= reasons_of(before).push(item@.reason));
        }
    }
    assert(all.take(all.len() as int) =~= all);
    (reasons, samples)
}

/// The report on an import of so many files.
pub fn render_report(n_files: usize, results: &Vec<ParseResult>) -> (out: String)
    ensures
        out@ == report(n_files as int, results_view(results@)),
{
    let ghost all = results_view(results@);
    proof {
        lemma_skipped_len(all);
    }
    let (reasons, samples) = skipped_parts(results);
    assert(texts(reasons@).len() == skipped(all).len());
    let n_skipped = reasons.len();
    let seen = results.len();
    let mut out = chars_of("CRS Import Report\n");
    push_count(&mut out, "files_scanned: ", n_files);
    push_count(&mut out, "rules_seen: ", seen);
    push_count(&mut out, "rules_imported: ", seen - n_skipped);
    push_count(&mut out, "rules_skipped: ", n_skipped);
    push_text(&mut out, "skip_reasons:\n");
    let counts = tally_text(&tally(&reasons));
    push_lines_or_none(&mut out, &counts);
    push_text(&mut out, "sample_skipped:\n");
    push_lines_or_none(&mut out, &samples);
    string_of(out.as_slice())
}

// ---------------------------------------------------------------------------
// Imports
// ---------------------------------------------------------------------------

/// What an import is asked to do.
#[derive(Clone, Debug)]
pub struct ImportCrsOptions {
    /// The directory with the rule files.
    pub rules_dir: String,
    /// Where the rule set goes.
    pub out: String,
    /// The id of the profile that holds the rules.
    pub profile_id: String,
    /// What is done where no rule matches: `allow` or `block`.
    pub default_action: String,
    /// Where the report goes.
    pub report_out: String,
}

/// The text of a rule file, with the phrase files that its rules name.
pub struct Source {
    pub text: String,
    pub phrase_files: TextMap<PhraseFile>,
}

/// A [`Source`] with texts in place of strings.
pub struct SourceView {
    pub text: Seq<char>,
    pub phrase_files: Seq<(Seq<char>, PhraseFileView)>,
}

impl View for Source {
    type V = SourceView;

    open spec fn view(&self) -> SourceView {
        SourceView { text: self.text@, phrase_files: self.phrase_files@ }
    }
}

/// The models of a list of sources.
pub open spec fn sources_view(v: Seq<Source>) -> Seq<SourceView> {
    v.map_values(|x: Source| x@)
}

/// What an import yields: a profile, and a report on it.
pub struct ImportOutput {
    pub profile: RuleProfile,
    pub report: String,
}

/// What the sources yield, one after the other.
pub open spec fn imported_from(sources: Seq<SourceView>) -> Imported
    decreases sources.len(),
{
    if sources.len() == 0 {
        Imported { rules: seq![], results: seq![] }
    } else {
        with_statements(
            imported_from(sources.drop_last()),
            statements(sources.last().text),
            sources.last().phrase_files,
        )
    }
}

/// Imports the rules of some files into one profile, and reports on it.
pub fn run(options: &ImportCrsOptions, sources: &Vec<Source>) -> (r: Result<
    ImportOutput,
    ImportError,
>)
    ensures
        match default_action_in(options.default_action@) {
            Ok(default_action) => r is Ok && r->Ok_0.profile@ == (RuleProfileView {
                id: options.profile_id@,
                default_action,
                rules: imported_from(sources_view(sources@)).rules,
            }) && r->Ok_0.report@ == report(
                sources@.len() as int,
                imported_from(sources_view(sources@)).results,
            ),
            Err(e) => r is Err && r->Err_0@ == e,
        },
{
    let default_action = match parse_default_action(options.default_action.as_str()) {
        Ok(a) => a,
        Err(e) => {
            return Err(e);
        },
    };
    let ghost all = sources_view(sources@);
    let mut rules: Vec<RuleConfig> = Vec::new();
    let mut results: Vec<ParseResult> = Vec::new();
    assert(rule_configs_view(rules@) =~= seq![]);
    assert(results_view(results@) =~= seq![]);
    for i in 0..sources.len()
        invariant
            all == sources_view(sources@),
            imported_from(all.take(i as int)) == (Imported {
                rules: rule_configs_view(rules@),
                results: results_view(results@),
            }),
    {
        let source = &sources[i];
        assert(all.take(i + 1).drop_last() =~= all.take(i as int));
        assert(all.take(i + 1).last() == source@);
        import_text(source.text.as_str(), &source.phrase_files, &mut rules, &mut results);
    }
    assert(all.take(all.len() as int) =~= all);
    let report = render_report(sources.len(), &results);
    Ok(
        ImportOutput {
            profile: RuleProfile { id: options.profile_id.clone(), default_action, rules },
            report,
        },
    )
}

// ---------------------------------------------------------------------------
// Laws
// ---------------------------------------------------------------------------

/// Each rule that a `SecRule` is imported as is enabled, does what the `SecRule`
/// does, and has an id made from that of the `SecRule`.
pub proof fn lemma_mapped_rules(
    p: ParsedView,
    files: Seq<(Seq<char>, PhraseFileView)>,
    i: int,
)
    requires
        mapped(p, files) is Ok,
        0 <= i < mapped(p, files)->Ok_0.len(),
    ensures
        ({
            let rule = mapped(p, files)->Ok_0[i];
            &&& rule.enabled
            &&& rule.action == p.action
            &&& rule.status_code == p.status_code
            &&& rule.id == imported_id(p) || rule.id == phrase_id(p, i + 1)
        }),
{
}

/// A `SecRule` that can be imported yields at least one rule.
pub proof fn lemma_mapped_some(p: ParsedView, files: Seq<(Seq<char>, PhraseFileView)>)
    requires
        mapped(p, files) is Ok,
    ensures
        mapped(p, files)->Ok_0.len() > 0,
{
}

/// How many of the statements are a `SecRule`.
pub open spec fn rule_count(stmts: Seq<Seq<char>>) -> nat
    decreases stmts.len(),
{
    if stmts.len() == 0 {
        0
    } else {
        rule_count(stmts.drop_last()) + (if rule_pieces(stmts.last()) is Some {
            1nat
        } else {
            0
        })
    }
}

/// Every `SecRule` of a file is accounted for: it is imported or skipped, and
/// stands in the results once.
pub proof fn lemma_every_rule_accounted(
    so_far: Imported,
    stmts: Seq<Seq<char>>,
    files: Seq<(Seq<char>, PhraseFileView)>,
)
    ensures
        with_statements(so_far, stmts, files).results.len() == so_far.results.len() + rule_count(
            stmts,
        ),
    decreases stmts.len(),
{
    if stmts.len() > 0 {
        lemma_every_rule_accounted(so_far, stmts.drop_last(), files);
    }
}

/// What is imported depends only on the phrase files that the rules ask for.
pub proof fn lemma_needed_files(
    so_far: Imported,
    stmts: Seq<Seq<char>>,
    files: Seq<(Seq<char>, PhraseFileView)>,
    others: Seq<(Seq<char>, PhraseFileView)>,
)
    requires
        forall|i: int|
            0 <= i < phrase_files_of(stmts).len() ==> lookup(
                files,
                #[trigger] phrase_files_of(stmts)[i],
            ) == lookup(others, phrase_files_of(stmts)[i]),
    ensures
        with_statements(so_far, stmts, files) == with_statements(so_far, stmts, others),
    decreases stmts.len(),
{
    if stmts.len() > 0 {
        let head = stmts.drop_last();
        assert forall|i: int| 0 <= i < phrase_files_of(head).len() implies lookup(
            files,
            #[trigger] phrase_files_of(head)[i],
        ) == lookup(others, phrase_files_of(head)[i]) by {
            assert(phrase_files_of(head)[i] == phrase_files_of(stmts)[i]);
        }
        lemma_needed_files(so_far, head, files, others);
        match rule_pieces(stmts.last()) {
            Some(pieces) => {
                if let Some(name) = phrase_file_of(pieces) {
                    assert(phrase_files_of(stmts).last() == name);
                    assert(lookup(files, name) == lookup(others, name));
                    lemma_operand_trimmed(pieces.operator);
                }
            },
            None => {},
        }
    }
}

/// An operand has no whitespace around it.
proof fn lemma_operand_trimmed(raw: Seq<char>)
    ensures
        operator_parts(raw) matches Ok((operator, Some(operand))) ==> trim(operand) == operand,
{
    let t = trim(raw);
    let n = before_space(t);
    let rest = t.skip(n + 1);
    lemma_trim_twice(rest);
}

} // verus!
