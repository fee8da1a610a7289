//! What rules mean as they are written: the names of variables, operators,
//! transformations and actions.

use vstd::prelude::*;

use crate::crs::operator_laws::written_number;
use crate::crs::parser::{
    action_texts, actions_in, after_bytes, directive_in, first_word, id_or_zero, last_block,
    last_opening, lemma_after_bytes_ascii, lemma_written_rule, level_named, number_or_zero,
    operator_in, operator_named, phase_named, score_named, secrule_in, secrule_parts,
    severity_named, token_in, transform_named, unescaped, variable_named, variables_named,
    with_token, without_negation, writable, written_rule, ActionsView, DirectiveView, TokenView,
};
use crate::crs::types::{Action, OperatorView, Phase, Severity, TransformView, VariableView};
use crate::number::{
    decimal, lemma_decimal_digits, lemma_decimal_round_trip, parse_integer, parse_natural,
};
use crate::secrule_parser::lemma_escaped;
use crate::text::{
    contains, is_ascii_space, is_char, is_space, lemma_leading_is, lemma_trailing_is, lowercase,
    not_char, starts_with, trim, trim_char, trim_end_char, uppercase, words,
};
use crate::text_laws::{
    free_of, lemma_after_prefix, lemma_contains, lemma_split_both, lemma_split_char, lemma_trim,
    lemma_trim_end_char, lemma_trim_tight, tight,
};

verus! {

// ---------------------------------------------------------------------------
// Variables
// ---------------------------------------------------------------------------

/// The text of a variable with or without a `!` before it.
pub open spec fn maybe_negated(negated: bool, s: Seq<char>) -> Seq<char> {
    if negated {
        seq!['!'] + s
    } else {
        s
    }
}

proof fn lemma_negation(negated: bool, s: Seq<char>)
    requires
        s.len() > 0 ==> s[0] != '!',
    ensures
        without_negation(maybe_negated(negated, s)) == s,
        starts_with(maybe_negated(negated, s), "!"@) == negated,
{
    reveal_strlit("!");
    let t = maybe_negated(negated, s);
    if negated {
        assert(t.take(1) =~= "!"@);
        assert(t.skip(1) =~= s);
    } else if s.len() > 0 {
        assert(s.take(1)[0] == s[0]);
    }
}

/// The variables by their names, whatever the case; a `!` before them changes
/// nothing.
#[verifier::rlimit(40)]
pub proof fn lemma_variable_names(negated: bool, s: Seq<char>)
    requires
        s.len() > 0 ==> s[0] != '!',
    ensures
        ({
            let up = uppercase(s);
            let v = variable_named(maybe_negated(negated, s));
            &&& up == "ARGS"@ ==> v == VariableView::Args
            &&& up == "ARGS_NAMES"@ ==> v == VariableView::ArgsNames
            &&& up == "REQUEST_COOKIES"@ ==> v == VariableView::RequestCookies
            &&& up == "REQUEST_COOKIES_NAMES"@ ==> v == VariableView::RequestCookiesNames
            &&& up == "REQUEST_FILENAME"@ ==> v == VariableView::RequestFilename
            &&& up == "REQUEST_HEADERS"@ ==> v == VariableView::RequestHeaders
            &&& up == "REQUEST_METHOD"@ ==> v == VariableView::RequestMethod
            &&& up == "REQUEST_URI"@ ==> v == VariableView::RequestUri
            &&& up == "REQUEST_URI_RAW"@ ==> v == VariableView::RequestUri
            &&& up == "REQUEST_BODY"@ ==> v == VariableView::RequestBody
            &&& up == "REQUEST_BODY_RAW"@ ==> v == VariableView::RequestBody
        }),
{
    lemma_negation(negated, s);
    let up = uppercase(s);
    reveal_strlit("ARGS");
    reveal_strlit("ARGS_NAMES");
    reveal_strlit("REQUEST_COOKIES");
    reveal_strlit("REQUEST_COOKIES_NAMES");
    reveal_strlit("REQUEST_FILENAME");
    reveal_strlit("REQUEST_HEADERS");
    reveal_strlit("REQUEST_METHOD");
    reveal_strlit("REQUEST_URI");
    reveal_strlit("REQUEST_URI_RAW");
    reveal_strlit("REQUEST_BODY");
    reveal_strlit("REQUEST_BODY_RAW");
    reveal_strlit("REQUEST_HEADERS:");
    reveal_strlit("TX:");
    reveal_strlit("XML:");
    reveal_strlit("!");
    assert("ARGS"@.len() == 4);
    assert("ARGS_NAMES"@.len() == 10);
    assert("REQUEST_COOKIES"@.len() == 15);
    assert("REQUEST_COOKIES_NAMES"@.len() == 21);
    assert("REQUEST_FILENAME"@.len() == 16);
    assert("REQUEST_HEADERS"@.len() == 15);
    assert("REQUEST_METHOD"@.len() == 14);
    assert("REQUEST_URI"@.len() == 11);
    assert("REQUEST_URI_RAW"@.len() == 15);
    assert("REQUEST_BODY"@.len() == 12);
    assert("REQUEST_BODY_RAW"@.len() == 16);
    assert("REQUEST_HEADERS:"@.len() == 16);
    assert("TX:"@.len() == 3);
    assert("XML:"@.len() == 4);
    assert("!"@.len() == 1);
    assert(up.len() == 16 ==> up.take(16) =~= up);
    assert("REQUEST_COOKIES"@[8] == 'C');
    assert("REQUEST_HEADERS"@[8] == 'H');
    assert("REQUEST_URI_RAW"@[8] == 'U');
    assert("REQUEST_FILENAME"@[8] == 'F');
    assert("REQUEST_BODY_RAW"@[8] == 'B');
    assert("REQUEST_HEADERS:"@[8] == 'H');
    assert("REQUEST_COOKIES_NAMES"@[8] == 'C');
    assert(starts_with(up, "REQUEST_HEADERS:"@) ==> up.take(16)[8] == 'H');
    assert("ARGS"@[0] == 'A' && "ARGS_NAMES"@[0] == 'A');
    assert(starts_with(up, "TX:"@) ==> up.take(3)[0] == 'T');
    assert(starts_with(up, "XML:"@) ==> up.take(4)[0] == 'X');
}

/// `REQUEST_HEADERS:name` is the header of that name, which keeps its case, and with a
/// `!` before it that header left out. `TX:name` is a transaction variable, and
/// `XML:` is never there.
#[verifier::rlimit(40)]
pub proof fn lemma_variable_with_name(negated: bool, prefix: Seq<char>, name: Seq<char>)
    requires
        prefix.len() > 0,
        prefix[0] != '!',
        forall|i: int| 0 <= i < prefix.len() ==> (#[trigger] prefix[i] as u32) < 0x80,
    ensures
        ({
            let up = uppercase(prefix + name);
            let v = variable_named(maybe_negated(negated, prefix + name));
            &&& prefix.len() == 16 && starts_with(up, "REQUEST_HEADERS:"@) ==> v == (if negated {
                VariableView::RequestHeaderExclude(name)
            } else {
                VariableView::RequestHeader(name)
            })
            &&& prefix.len() == 3 && starts_with(up, "TX:"@) ==> v == VariableView::Tx(name)
            &&& starts_with(up, "XML:"@) ==> v == VariableView::Xml
        }),
{
    let s = prefix + name;
    assert(s[0] == prefix[0]);
    lemma_negation(negated, s);
    let up = uppercase(s);
    reveal_strlit("ARGS");
    reveal_strlit("ARGS_NAMES");
    reveal_strlit("REQUEST_COOKIES");
    reveal_strlit("REQUEST_COOKIES_NAMES");
    reveal_strlit("REQUEST_FILENAME");
    reveal_strlit("REQUEST_HEADERS");
    reveal_strlit("REQUEST_METHOD");
    reveal_strlit("REQUEST_URI");
    reveal_strlit("REQUEST_URI_RAW");
    reveal_strlit("REQUEST_BODY");
    reveal_strlit("REQUEST_BODY_RAW");
    reveal_strlit("REQUEST_HEADERS:");
    reveal_strlit("TX:");
    reveal_strlit("XML:");
    reveal_strlit("!");
    assert("ARGS"@.len() == 4);
    assert("ARGS_NAMES"@.len() == 10);
    assert("REQUEST_COOKIES"@.len() == 15);
    assert("REQUEST_COOKIES_NAMES"@.len() == 21);
    assert("REQUEST_FILENAME"@.len() == 16);
    assert("REQUEST_HEADERS"@.len() == 15);
    assert("REQUEST_METHOD"@.len() == 14);
    assert("REQUEST_URI"@.len() == 11);
    assert("REQUEST_URI_RAW"@.len() == 15);
    assert("REQUEST_BODY"@.len() == 12);
    assert("REQUEST_BODY_RAW"@.len() == 16);
    assert("REQUEST_HEADERS:"@.len() == 16);
    assert("TX:"@.len() == 3);
    assert("XML:"@.len() == 4);
    assert("!"@.len() == 1);
    assert forall|i: int| 0 <= i < prefix.len() implies (#[trigger] s[i] as u32) < 0x80 by {
        assert(s[i] == prefix[i]);
    }
    lemma_after_bytes_ascii(s, prefix.len() as int);
    assert(s.skip(prefix.len() as int) =~= name);
    assert(up.len() == 16 ==> up.take(16) =~= up);
    assert("REQUEST_FILENAME"@[8] == 'F');
    assert("REQUEST_BODY_RAW"@[8] == 'B');
    assert("REQUEST_COOKIES_NAMES"@[8] == 'C');
    assert("REQUEST_HEADERS:"@[8] == 'H');
    assert(starts_with(up, "REQUEST_HEADERS:"@) ==> up.take(16)[8] == 'H');
    assert(starts_with(up, "REQUEST_HEADERS:"@) ==> up.take(16)[0] == 'R');
    assert(starts_with(up, "TX:"@) ==> up.take(3)[0] == 'T');
    assert(starts_with(up, "XML:"@) ==> up.take(4)[0] == 'X');
    assert("ARGS"@[0] == 'A');
    assert("ARGS_NAMES"@[0] == 'A');
    assert("REQUEST_COOKIES"@[0] == 'R');
    assert("REQUEST_COOKIES_NAMES"@[0] == 'R');
    assert("REQUEST_FILENAME"@[0] == 'R');
    assert("REQUEST_HEADERS"@[0] == 'R');
    assert("REQUEST_METHOD"@[0] == 'R');
    assert("REQUEST_URI"@[0] == 'R');
    assert("REQUEST_URI_RAW"@[0] == 'R');
    assert("REQUEST_BODY"@[0] == 'R');
    assert("REQUEST_BODY_RAW"@[0] == 'R');
}

/// A list of variables holds those before a `|` and those behind it, in order, and a
/// single one without the whitespace around it.
pub proof fn lemma_variable_list(a: Seq<char>, b: Seq<char>)
    ensures
        variables_named(a + seq!['|'] + b) == variables_named(a) + variables_named(b),
        free_of(a, '|') ==> variables_named(a) == seq![variable_named(trim(a))],
{
    lemma_split_both(a, '|', b);
    assert(variables_named(a + seq!['|'] + b) =~= variables_named(a) + variables_named(b));
    if free_of(a, '|') {
        lemma_split_char(a, '|', seq![]);
        assert(variables_named(a) =~= seq![variable_named(trim(a))]);
    }
}

// ---------------------------------------------------------------------------
// Operators
// ---------------------------------------------------------------------------

#[verifier::rlimit(40)]
proof fn lemma_operator_names(name: Seq<char>, arg: Seq<char>)
    ensures
        name == "rx"@ ==> operator_named(name, arg) == OperatorView::Rx(arg),
        name == "pmfromfile"@ ==> operator_named(name, arg) == OperatorView::PmFromFile(arg),
        name == "contains"@ ==> operator_named(name, arg) == OperatorView::Contains(arg),
        name == "beginswith"@ ==> operator_named(name, arg) == OperatorView::BeginsWith(arg),
        name == "endswith"@ ==> operator_named(name, arg) == OperatorView::EndsWith(arg),
        name == "streq"@ ==> operator_named(name, arg) == OperatorView::Streq(arg),
        name == "within"@ ==> operator_named(name, arg) == OperatorView::Within(words(arg)),
        name == "validatebyterange"@ ==> operator_named(name, arg)
            == OperatorView::ValidateByteRange(arg),
        name == "detectxss"@ ==> operator_named(name, arg) == OperatorView::DetectXss,
        name == "detectsqli"@ ==> operator_named(name, arg) == OperatorView::DetectSqli,
        name == "lt"@ ==> operator_named(name, arg) == OperatorView::Lt(number_or_zero(arg)),
        name == "le"@ ==> operator_named(name, arg) == OperatorView::Le(number_or_zero(arg)),
        name == "ge"@ ==> operator_named(name, arg) == OperatorView::Ge(number_or_zero(arg)),
        name == "gt"@ ==> operator_named(name, arg) == OperatorView::Gt(number_or_zero(arg)),
        name == "pm"@ ==> operator_named(name, arg) == OperatorView::Pm(
            words(arg).map_values(|w: Seq<char>| lowercase(w)),
        ),
{
    reveal_strlit("rx");
    reveal_strlit("pmfromfile");
    reveal_strlit("contains");
    reveal_strlit("beginswith");
    reveal_strlit("endswith");
    reveal_strlit("streq");
    reveal_strlit("within");
    reveal_strlit("validatebyterange");
    reveal_strlit("detectxss");
    reveal_strlit("detectsqli");
    reveal_strlit("lt");
    reveal_strlit("le");
    reveal_strlit("ge");
    reveal_strlit("gt");
    reveal_strlit("pm");
    assert("rx"@.len() == 2);
    assert("pmfromfile"@.len() == 10);
    assert("contains"@.len() == 8);
    assert("beginswith"@.len() == 10);
    assert("endswith"@.len() == 8);
    assert("streq"@.len() == 5);
    assert("within"@.len() == 6);
    assert("validatebyterange"@.len() == 17);
    assert("detectxss"@.len() == 9);
    assert("detectsqli"@.len() == 10);
    assert("lt"@.len() == 2);
    assert("le"@.len() == 2);
    assert("ge"@.len() == 2);
    assert("gt"@.len() == 2);
    assert("pm"@.len() == 2);
    assert("rx"@[0] == 'r' && "rx"@[1] == 'x');
    assert("pm"@[0] == 'p' && "pm"@[1] == 'm');
    assert("lt"@[0] == 'l' && "lt"@[1] == 't');
    assert("le"@[0] == 'l' && "le"@[1] == 'e');
    assert("ge"@[0] == 'g' && "ge"@[1] == 'e');
    assert("gt"@[0] == 'g' && "gt"@[1] == 't');
    assert("contains"@[0] == 'c');
    assert("endswith"@[0] == 'e');
    assert("pmfromfile"@[0] == 'p');
    assert("beginswith"@[0] == 'b');
    assert("detectsqli"@[0] == 'd');
}

proof fn lemma_operator_text(name: Seq<char>, arg: Seq<char>)
    requires
        forall|i: int| 0 <= i < name.len() ==> !is_ascii_space(#[trigger] name[i]),
    ensures
        operator_in(seq!['@'] + name + seq![' '] + arg) == operator_named(
            lowercase(name),
            trim(arg),
        ),
        operator_in(seq!['@'] + name) == operator_named(lowercase(name), seq![]),
{
    reveal_strlit("!");
    reveal_strlit("@");
    let word = |x: char| !is_ascii_space(x);
    let s = seq!['@'] + name + seq![' '] + arg;
    let n = name.len() as int;
    assert(s.take(1) =~= "@"@);
    assert(starts_with(s, "!"@) ==> s.take(1)[0] == '!');
    let rest = s.skip(1);
    assert(rest =~= name + seq![' '] + arg);
    assert forall|i: int| 0 <= i < n implies word(#[trigger] rest[i]) by {
        assert(rest[i] == name[i]);
    }
    assert(rest[n] == ' ');
    lemma_leading_is(rest, word, n);
    assert(rest.take(n) =~= name);
    assert(rest.skip(n + 1) =~= arg);
    let t = seq!['@'] + name;
    assert(t.take(1) =~= "@"@);
    assert(starts_with(t, "!"@) ==> t.take(1)[0] == '!');
    assert(t.skip(1) =~= name);
    assert forall|i: int| 0 <= i < n implies word(#[trigger] name[i]) by {}
    lemma_leading_is(name, word, n);
}

/// `@name argument` is the operator of that name, whatever its case, with all of the
/// argument but the whitespace around it.
#[verifier::rlimit(40)]
pub proof fn lemma_operator_written(name: Seq<char>, arg: Seq<char>)
    requires
        forall|i: int| 0 <= i < name.len() ==> !is_ascii_space(#[trigger] name[i]),
        tight(arg),
    ensures
        ({
            let op = operator_in(seq!['@'] + name + seq![' '] + arg);
            let low = lowercase(name);
            &&& low == "rx"@ ==> op == OperatorView::Rx(arg)
            &&& low == "pmfromfile"@ ==> op == OperatorView::PmFromFile(arg)
            &&& low == "contains"@ ==> op == OperatorView::Contains(arg)
            &&& low == "beginswith"@ ==> op == OperatorView::BeginsWith(arg)
            &&& low == "endswith"@ ==> op == OperatorView::EndsWith(arg)
            &&& low == "streq"@ ==> op == OperatorView::Streq(arg)
            &&& low == "within"@ ==> op == OperatorView::Within(words(arg))
            &&& low == "validatebyterange"@ ==> op == OperatorView::ValidateByteRange(arg)
            &&& low == "detectxss"@ ==> op == OperatorView::DetectXss
            &&& low == "detectsqli"@ ==> op == OperatorView::DetectSqli
            &&& low == "lt"@ ==> op == OperatorView::Lt(number_or_zero(arg))
            &&& low == "le"@ ==> op == OperatorView::Le(number_or_zero(arg))
            &&& low == "ge"@ ==> op == OperatorView::Ge(number_or_zero(arg))
            &&& low == "gt"@ ==> op == OperatorView::Gt(number_or_zero(arg))
            &&& low == "pm"@ ==> (op matches OperatorView::Pm(ws) && ws.len() == words(arg).len()
                && forall|i: int|
                0 <= i < ws.len() ==> #[trigger] ws[i] == lowercase(words(arg)[i]))
        }),
{
    lemma_operator_text(name, arg);
    lemma_operator_names(lowercase(name), arg);
    lemma_trim_tight(arg);
}

/// The argument of a comparison is the number that it writes.
pub proof fn lemma_operand_number(n: int)
    requires
        i64::MIN <= n <= i64::MAX,
    ensures
        number_or_zero(written_number(n)) == n,
{
    let s = written_number(n);
    if n >= 0 {
        lemma_decimal_digits(n);
        lemma_decimal_round_trip(n, i64::MAX as int);
        assert('0' <= s[0] <= '9');
    } else {
        lemma_decimal_digits(-n);
        lemma_decimal_round_trip(-n, -(i64::MIN as int));
        assert('0' <= decimal(-n)[0] <= '9');
        assert(s.skip(1) =~= decimal(-n));
    }
}

/// A text without `@` is a regular expression, and a `!` before an operator negates
/// it.
pub proof fn lemma_operator_forms(s: Seq<char>)
    ensures
        s.len() == 0 || s[0] != '@' && s[0] != '!' ==> operator_in(s) == OperatorView::Rx(s),
        s.len() == 0 || s[0] != '!' ==> operator_in(seq!['!'] + s) == OperatorView::Negated(
            Box::new(operator_in(s)),
        ),
{
    reveal_strlit("!");
    reveal_strlit("@");
    assert(starts_with(s, "!"@) ==> s.take(1)[0] == '!');
    assert(starts_with(s, "@"@) ==> s.take(1)[0] == '@');
    let t = seq!['!'] + s;
    assert(t.take(1) =~= "!"@);
    assert(t.skip(1) =~= s);
}

// ---------------------------------------------------------------------------
// Names in actions
// ---------------------------------------------------------------------------

/// The transformations by their names, whatever the case; any other name is kept.
#[verifier::rlimit(40)]
pub proof fn lemma_transform_names(s: Seq<char>)
    ensures
        ({
            let low = lowercase(s);
            let t = transform_named(s);
            &&& low == "lowercase"@ <==> t == TransformView::Lowercase
            &&& low == "urldecodeuni"@ <==> t == TransformView::UrlDecodeUni
            &&& low == "htmlentitydecode"@ <==> t == TransformView::HtmlEntityDecode
            &&& low == "jsdecode"@ <==> t == TransformView::JsDecode
            &&& low == "cssdecode"@ <==> t == TransformView::CssDecode
            &&& low == "removenulls"@ <==> t == TransformView::RemoveNulls
            &&& low == "removewhitespace"@ <==> t == TransformView::RemoveWhitespace
            &&& low == "compresswhitespace"@ <==> t == TransformView::CompressWhitespace
            &&& low == "utf8tounicode"@ <==> t == TransformView::Utf8toUnicode
            &&& low == "none"@ <==> t == TransformView::Identity
            &&& t matches TransformView::Other(name) ==> name == low
        }),
{
    reveal_strlit("lowercase");
    reveal_strlit("urldecodeuni");
    reveal_strlit("htmlentitydecode");
    reveal_strlit("jsdecode");
    reveal_strlit("cssdecode");
    reveal_strlit("removenulls");
    reveal_strlit("removewhitespace");
    reveal_strlit("compresswhitespace");
    reveal_strlit("utf8tounicode");
    reveal_strlit("none");
    assert("lowercase"@.len() == 9);
    assert("urldecodeuni"@.len() == 12);
    assert("htmlentitydecode"@.len() == 16);
    assert("jsdecode"@.len() == 8);
    assert("cssdecode"@.len() == 9);
    assert("removenulls"@.len() == 11);
    assert("removewhitespace"@.len() == 16);
    assert("compresswhitespace"@.len() == 18);
    assert("utf8tounicode"@.len() == 13);
    assert("none"@.len() == 4);
    assert("lowercase"@[0] == 'l');
    assert("urldecodeuni"@[0] == 'u');
    assert("htmlentitydecode"@[0] == 'h');
    assert("jsdecode"@[0] == 'j');
    assert("cssdecode"@[0] == 'c');
    assert("removenulls"@[0] == 'r');
    assert("removewhitespace"@[0] == 'r');
    assert("compresswhitespace"@[0] == 'c');
    assert("utf8tounicode"@[0] == 'u');
    assert("none"@[0] == 'n');
}

/// The severities by their names, whatever the case, or by their numbers.
#[verifier::rlimit(40)]
pub proof fn lemma_severity_names(s: Seq<char>)
    ensures
        ({
            let up = uppercase(s);
            let v = severity_named(s);
            &&& up == "EMERGENCY"@ || up == "0"@ <==> v == Some(Severity::Emergency)
            &&& up == "ALERT"@ || up == "1"@ <==> v == Some(Severity::Alert)
            &&& up == "CRITICAL"@ || up == "2"@ <==> v == Some(Severity::Critical)
            &&& up == "ERROR"@ || up == "3"@ <==> v == Some(Severity::Error)
            &&& up == "WARNING"@ || up == "4"@ <==> v == Some(Severity::Warning)
            &&& up == "NOTICE"@ || up == "5"@ <==> v == Some(Severity::Notice)
            &&& up == "INFO"@ || up == "6"@ <==> v == Some(Severity::Info)
            &&& up == "DEBUG"@ || up == "7"@ <==> v == Some(Severity::Debug)
        }),
{
    reveal_strlit("EMERGENCY");
    reveal_strlit("ALERT");
    reveal_strlit("CRITICAL");
    reveal_strlit("ERROR");
    reveal_strlit("WARNING");
    reveal_strlit("NOTICE");
    reveal_strlit("INFO");
    reveal_strlit("DEBUG");
    reveal_strlit("0");
    reveal_strlit("1");
    reveal_strlit("2");
    reveal_strlit("3");
    reveal_strlit("4");
    reveal_strlit("5");
    reveal_strlit("6");
    reveal_strlit("7");
    assert("EMERGENCY"@.len() == 9);
    assert("ALERT"@.len() == 5);
    assert("CRITICAL"@.len() == 8);
    assert("ERROR"@.len() == 5);
    assert("WARNING"@.len() == 7);
    assert("NOTICE"@.len() == 6);
    assert("INFO"@.len() == 4);
    assert("DEBUG"@.len() == 5);
    assert("0"@.len() == 1);
    assert("1"@.len() == 1);
    assert("2"@.len() == 1);
    assert("3"@.len() == 1);
    assert("4"@.len() == 1);
    assert("5"@.len() == 1);
    assert("6"@.len() == 1);
    assert("7"@.len() == 1);
    assert("EMERGENCY"@[0] == 'E');
    assert("ALERT"@[0] == 'A');
    assert("CRITICAL"@[0] == 'C');
    assert("ERROR"@[0] == 'E');
    assert("WARNING"@[0] == 'W');
    assert("NOTICE"@[0] == 'N');
    assert("INFO"@[0] == 'I');
    assert("DEBUG"@[0] == 'D');
    assert("0"@[0] == '0');
    assert("1"@[0] == '1');
    assert("2"@[0] == '2');
    assert("3"@[0] == '3');
    assert("4"@[0] == '4');
    assert("5"@[0] == '5');
    assert("6"@[0] == '6');
    assert("7"@[0] == '7');
}

/// The phases by their numbers or their names; any other text is the second.
pub proof fn lemma_phase_names(s: Seq<char>)
    ensures
        ({
            let name = trim(s);
            let p = phase_named(s);
            &&& name == "1"@ || name == "request-headers"@ <==> p == Phase::One
            &&& name == "3"@ || name == "response-headers"@ <==> p == Phase::Three
            &&& name == "4"@ || name == "response-body"@ <==> p == Phase::Four
            &&& name == "5"@ || name == "logging"@ <==> p == Phase::Five
            &&& name == "2"@ ==> p == Phase::Two
        }),
{
    reveal_strlit("2");
    assert("2"@[0] == '2');
    reveal_strlit("1");
    reveal_strlit("3");
    reveal_strlit("4");
    reveal_strlit("5");
    reveal_strlit("request-headers");
    reveal_strlit("response-headers");
    reveal_strlit("response-body");
    reveal_strlit("logging");
    assert("1"@.len() == 1);
    assert("3"@.len() == 1);
    assert("4"@.len() == 1);
    assert("5"@.len() == 1);
    assert("request-headers"@.len() == 15);
    assert("response-headers"@.len() == 16);
    assert("response-body"@.len() == 13);
    assert("logging"@.len() == 7);
    assert("1"@[0] == '1');
    assert("3"@[0] == '3');
    assert("4"@[0] == '4');
    assert("5"@[0] == '5');
}

/// The score that a `setvar` adds is that of the first kind in this order whose name
/// occurs in it, whatever the case: five, four, three or two.
pub proof fn lemma_score_names(a: Seq<char>, b: Seq<char>, s: Seq<char>)
    ensures
        lowercase(s) == a + "critical_anomaly_score"@ + b ==> score_named(s) == Some(5u32),
        lowercase(s) == a + "error_anomaly_score"@ + b && !contains(
            lowercase(s),
            "critical_anomaly_score"@,
        ) ==> score_named(s) == Some(4u32),
        lowercase(s) == a + "warning_anomaly_score"@ + b && !contains(
            lowercase(s),
            "critical_anomaly_score"@,
        ) && !contains(lowercase(s), "error_anomaly_score"@) ==> score_named(s) == Some(3u32),
        lowercase(s) == a + "notice_anomaly_score"@ + b && !contains(
            lowercase(s),
            "critical_anomaly_score"@,
        ) && !contains(lowercase(s), "error_anomaly_score"@) && !contains(
            lowercase(s),
            "warning_anomaly_score"@,
        ) ==> score_named(s) == Some(2u32),
        !contains(lowercase(s), "critical_anomaly_score"@) && !contains(
            lowercase(s),
            "error_anomaly_score"@,
        ) && !contains(lowercase(s), "warning_anomaly_score"@) && !contains(
            lowercase(s),
            "notice_anomaly_score"@,
        ) ==> score_named(s) is None,
{
    lemma_contains(lowercase(s), "critical_anomaly_score"@);
    lemma_contains(lowercase(s), "error_anomaly_score"@);
    lemma_contains(lowercase(s), "warning_anomaly_score"@);
    lemma_contains(lowercase(s), "notice_anomaly_score"@);
}

/// The paranoia level is that of the first tag `paranoia-level/N`; other tags before
/// it make no difference, and without one it is zero.
pub proof fn lemma_level_tag(before: Seq<Seq<char>>, n: int, after: Seq<Seq<char>>)
    requires
        0 <= n <= 255,
        forall|i: int|
            0 <= i < before.len() ==> !starts_with(#[trigger] before[i], "paranoia-level/"@),
    ensures
        level_named(before + seq!["paranoia-level/"@ + decimal(n)] + after) == n,
        level_named(before) == 0,
    decreases before.len(),
{
    let tag = "paranoia-level/"@ + decimal(n);
    let tags = before + seq![tag] + after;
    if before.len() == 0 {
        assert(tags[0] == tag);
        lemma_after_prefix(tag, "paranoia-level/"@, decimal(n));
        lemma_decimal_round_trip(n, 255);
    } else {
        let rest = before.skip(1);
        assert(tags[0] == before[0]);
        assert(tags.skip(1) =~= rest + seq![tag] + after);
        assert forall|i: int| 0 <= i < rest.len() implies !starts_with(
            #[trigger] rest[i],
            "paranoia-level/"@,
        ) by {
            assert(rest[i] == before[i + 1]);
        }
        lemma_level_tag(rest, n, after);
        assert(!starts_with(before[0], "paranoia-level/"@));
    }
}

// ---------------------------------------------------------------------------
// Actions
// ---------------------------------------------------------------------------

proof fn lemma_prefixed(t: Seq<char>, p: Seq<char>, rest: Seq<char>)
    requires
        t == p + rest,
    ensures
        starts_with(t, p),
        t.skip(p.len() as int) == rest,
{
    assert(t.take(p.len() as int) =~= p);
    assert(t.skip(p.len() as int) =~= rest);
}

proof fn lemma_other_prefix(t: Seq<char>, p: Seq<char>, i: int)
    requires
        0 <= i < p.len(),
        i < t.len() ==> t[i] != p[i],
    ensures
        !starts_with(t, p),
{
    if starts_with(t, p) {
        assert(t.take(p.len() as int)[i] == t[i]);
    }
}

proof fn lemma_word_tokens()
    ensures
        token_in("block"@) == TokenView::Act(Action::Block),
        token_in("deny"@) == TokenView::Act(Action::Block),
        token_in("pass"@) == TokenView::Act(Action::Pass),
        token_in("allow"@) == TokenView::Act(Action::Pass),
        token_in("chain"@) == TokenView::Chain,
{
    reveal_strlit("id:");
    reveal_strlit("phase:");
    reveal_strlit("block");
    reveal_strlit("deny");
    reveal_strlit("pass");
    reveal_strlit("allow");
    reveal_strlit("chain");
    assert("id:"@.len() == 3);
    assert("phase:"@.len() == 6);
    assert("block"@.len() == 5);
    assert("deny"@.len() == 4);
    assert("pass"@.len() == 4);
    assert("allow"@.len() == 5);
    assert("chain"@.len() == 5);
    assert("block"@[0] == 'b' && "block"@[1] == 'l');
    lemma_other_prefix("block"@, "id:"@, 0);
    lemma_other_prefix("block"@, "phase:"@, 0);
    assert("deny"@[0] == 'd' && "deny"@[1] == 'e');
    lemma_other_prefix("deny"@, "id:"@, 0);
    lemma_other_prefix("deny"@, "phase:"@, 0);
    assert("pass"@[0] == 'p' && "pass"@[1] == 'a');
    lemma_other_prefix("pass"@, "id:"@, 0);
    lemma_other_prefix("pass"@, "phase:"@, 1);
    assert("allow"@[0] == 'a' && "allow"@[1] == 'l');
    lemma_other_prefix("allow"@, "id:"@, 0);
    lemma_other_prefix("allow"@, "phase:"@, 0);
    assert("chain"@[0] == 'c' && "chain"@[1] == 'h');
    lemma_other_prefix("chain"@, "id:"@, 0);
    lemma_other_prefix("chain"@, "phase:"@, 0);
}

proof fn lemma_id_token(rest: Seq<char>)
    ensures
        token_in("id:"@ + rest) == TokenView::Id(id_or_zero(rest)),
{
    let t = "id:"@ + rest;
    lemma_prefixed(t, "id:"@, rest);
    reveal_strlit("id:");
    assert("id:"@.len() == 3);
    assert(t[0] == 'i' && t[1] == 'd');
}

proof fn lemma_phase_token(rest: Seq<char>)
    ensures
        token_in("phase:"@ + rest) == TokenView::Phase(phase_named(rest)),
{
    let t = "phase:"@ + rest;
    lemma_prefixed(t, "phase:"@, rest);
    reveal_strlit("id:");
    reveal_strlit("phase:");
    assert("id:"@.len() == 3);
    assert("phase:"@.len() == 6);
    assert(t[0] == 'p' && t[1] == 'h');
    assert(t[2] == 'a' && t[3] == 's');
    assert(t[0] == 'p');
    lemma_other_prefix(t, "id:"@, 0);
}

proof fn lemma_msg_token(rest: Seq<char>)
    ensures
        token_in("msg:'"@ + rest) == TokenView::Msg(trim_end_char(rest, '\'')),
{
    let t = "msg:'"@ + rest;
    lemma_prefixed(t, "msg:'"@, rest);
    reveal_strlit("id:");
    reveal_strlit("phase:");
    reveal_strlit("block");
    reveal_strlit("deny");
    reveal_strlit("pass");
    reveal_strlit("allow");
    reveal_strlit("chain");
    reveal_strlit("msg:'");
    assert("id:"@.len() == 3);
    assert("phase:"@.len() == 6);
    assert("block"@.len() == 5);
    assert("deny"@.len() == 4);
    assert("pass"@.len() == 4);
    assert("allow"@.len() == 5);
    assert("chain"@.len() == 5);
    assert("msg:'"@.len() == 5);
    assert(t[0] == 'm' && t[1] == 's');
    assert(t[2] == 'g' && t[3] == ':');
    assert(t[0] == 'm');
    lemma_other_prefix(t, "id:"@, 0);
    assert(t[0] == 'm');
    lemma_other_prefix(t, "phase:"@, 0);
    assert("block"@[0] == 'b');
    assert("deny"@[0] == 'd');
    assert("pass"@[0] == 'p');
    assert("allow"@[0] == 'a');
    assert("chain"@[0] == 'c');
}

proof fn lemma_msg_token_double(rest: Seq<char>)
    ensures
        token_in("msg:\""@ + rest) == TokenView::Msg(trim_end_char(rest, '"')),
{
    let t = "msg:\""@ + rest;
    lemma_prefixed(t, "msg:\""@, rest);
    reveal_strlit("id:");
    reveal_strlit("phase:");
    reveal_strlit("block");
    reveal_strlit("deny");
    reveal_strlit("pass");
    reveal_strlit("allow");
    reveal_strlit("chain");
    reveal_strlit("msg:'");
    reveal_strlit("msg:\"");
    assert("id:"@.len() == 3);
    assert("phase:"@.len() == 6);
    assert("block"@.len() == 5);
    assert("deny"@.len() == 4);
    assert("pass"@.len() == 4);
    assert("allow"@.len() == 5);
    assert("chain"@.len() == 5);
    assert("msg:'"@.len() == 5);
    assert("msg:\""@.len() == 5);
    assert(t[0] == 'm' && t[1] == 's');
    assert(t[2] == 'g' && t[3] == ':');
    assert(t[0] == 'm');
    lemma_other_prefix(t, "id:"@, 0);
    assert(t[0] == 'm');
    lemma_other_prefix(t, "phase:"@, 0);
    assert("block"@[0] == 'b');
    assert("deny"@[0] == 'd');
    assert("pass"@[0] == 'p');
    assert("allow"@[0] == 'a');
    assert("chain"@[0] == 'c');
    assert(t[4] == '"');
    lemma_other_prefix(t, "msg:'"@, 4);
}

proof fn lemma_tag_token(rest: Seq<char>)
    ensures
        token_in("tag:'"@ + rest) == TokenView::Tag(trim_end_char(rest, '\'')),
{
    let t = "tag:'"@ + rest;
    lemma_prefixed(t, "tag:'"@, rest);
    reveal_strlit("id:");
    reveal_strlit("phase:");
    reveal_strlit("block");
    reveal_strlit("deny");
    reveal_strlit("pass");
    reveal_strlit("allow");
    reveal_strlit("chain");
    reveal_strlit("msg:'");
    reveal_strlit("msg:\"");
    reveal_strlit("tag:'");
    assert("id:"@.len() == 3);
    assert("phase:"@.len() == 6);
    assert("block"@.len() == 5);
    assert("deny"@.len() == 4);
    assert("pass"@.len() == 4);
    assert("allow"@.len() == 5);
    assert("chain"@.len() == 5);
    assert("msg:'"@.len() == 5);
    assert("msg:\""@.len() == 5);
    assert("tag:'"@.len() == 5);
    assert(t[0] == 't' && t[1] == 'a');
    assert(t[2] == 'g' && t[3] == ':');
    assert(t[0] == 't');
    lemma_other_prefix(t, "id:"@, 0);
    assert(t[0] == 't');
    lemma_other_prefix(t, "phase:"@, 0);
    assert("block"@[0] == 'b');
    assert("deny"@[0] == 'd');
    assert("pass"@[0] == 'p');
    assert("allow"@[0] == 'a');
    assert("chain"@[0] == 'c');
    assert(t[0] == 't');
    lemma_other_prefix(t, "msg:'"@, 0);
    assert(t[0] == 't');
    lemma_other_prefix(t, "msg:\""@, 0);
}

proof fn lemma_tag_token_double(rest: Seq<char>)
    ensures
        token_in("tag:\""@ + rest) == TokenView::Tag(trim_end_char(rest, '"')),
{
    let t = "tag:\""@ + rest;
    lemma_prefixed(t, "tag:\""@, rest);
    reveal_strlit("id:");
    reveal_strlit("phase:");
    reveal_strlit("block");
    reveal_strlit("deny");
    reveal_strlit("pass");
    reveal_strlit("allow");
    reveal_strlit("chain");
    reveal_strlit("msg:'");
    reveal_strlit("msg:\"");
    reveal_strlit("tag:'");
    reveal_strlit("tag:\"");
    assert("id:"@.len() == 3);
    assert("phase:"@.len() == 6);
    assert("block"@.len() == 5);
    assert("deny"@.len() == 4);
    assert("pass"@.len() == 4);
    assert("allow"@.len() == 5);
    assert("chain"@.len() == 5);
    assert("msg:'"@.len() == 5);
    assert("msg:\""@.len() == 5);
    assert("tag:'"@.len() == 5);
    assert("tag:\""@.len() == 5);
    assert(t[0] == 't' && t[1] == 'a');
    assert(t[2] == 'g' && t[3] == ':');
    assert(t[0] == 't');
    lemma_other_prefix(t, "id:"@, 0);
    assert(t[0] == 't');
    lemma_other_prefix(t, "phase:"@, 0);
    assert("block"@[0] == 'b');
    assert("deny"@[0] == 'd');
    assert("pass"@[0] == 'p');
    assert("allow"@[0] == 'a');
    assert("chain"@[0] == 'c');
    assert(t[0] == 't');
    lemma_other_prefix(t, "msg:'"@, 0);
    assert(t[0] == 't');
    lemma_other_prefix(t, "msg:\""@, 0);
    assert(t[4] == '"');
    lemma_other_prefix(t, "tag:'"@, 4);
}

proof fn lemma_transform_token(rest: Seq<char>)
    ensures
        token_in("t:"@ + rest) == TokenView::Transform(transform_named(rest)),
{
    let t = "t:"@ + rest;
    lemma_prefixed(t, "t:"@, rest);
    reveal_strlit("id:");
    reveal_strlit("phase:");
    reveal_strlit("block");
    reveal_strlit("deny");
    reveal_strlit("pass");
    reveal_strlit("allow");
    reveal_strlit("chain");
    reveal_strlit("msg:'");
    reveal_strlit("msg:\"");
    reveal_strlit("tag:'");
    reveal_strlit("tag:\"");
    reveal_strlit("t:");
    assert("id:"@.len() == 3);
    assert("phase:"@.len() == 6);
    assert("block"@.len() == 5);
    assert("deny"@.len() == 4);
    assert("pass"@.len() == 4);
    assert("allow"@.len() == 5);
    assert("chain"@.len() == 5);
    assert("msg:'"@.len() == 5);
    assert("msg:\""@.len() == 5);
    assert("tag:'"@.len() == 5);
    assert("tag:\""@.len() == 5);
    assert("t:"@.len() == 2);
    assert(t[0] == 't' && t[1] == ':');
    assert(t[0] == 't');
    lemma_other_prefix(t, "id:"@, 0);
    assert(t[0] == 't');
    lemma_other_prefix(t, "phase:"@, 0);
    assert("block"@[0] == 'b');
    assert("deny"@[0] == 'd');
    assert("pass"@[0] == 'p');
    assert("allow"@[0] == 'a');
    assert("chain"@[0] == 'c');
    assert(t[0] == 't');
    lemma_other_prefix(t, "msg:'"@, 0);
    assert(t[0] == 't');
    lemma_other_prefix(t, "msg:\""@, 0);
    assert(t[1] == ':');
    lemma_other_prefix(t, "tag:'"@, 1);
    assert(t[1] == ':');
    lemma_other_prefix(t, "tag:\""@, 1);
}

proof fn lemma_severity_token(rest: Seq<char>)
    ensures
        token_in("severity:'"@ + rest) == TokenView::Severity(
            severity_named(trim_end_char(rest, '\'')),
        ),
{
    let t = "severity:'"@ + rest;
    lemma_prefixed(t, "severity:'"@, rest);
    reveal_strlit("id:");
    reveal_strlit("phase:");
    reveal_strlit("block");
    reveal_strlit("deny");
    reveal_strlit("pass");
    reveal_strlit("allow");
    reveal_strlit("chain");
    reveal_strlit("msg:'");
    reveal_strlit("msg:\"");
    reveal_strlit("tag:'");
    reveal_strlit("tag:\"");
    reveal_strlit("t:");
    reveal_strlit("severity:'");
    assert("id:"@.len() == 3);
    assert("phase:"@.len() == 6);
    assert("block"@.len() == 5);
    assert("deny"@.len() == 4);
    assert("pass"@.len() == 4);
    assert("allow"@.len() == 5);
    assert("chain"@.len() == 5);
    assert("msg:'"@.len() == 5);
    assert("msg:\""@.len() == 5);
    assert("tag:'"@.len() == 5);
    assert("tag:\""@.len() == 5);
    assert("t:"@.len() == 2);
    assert("severity:'"@.len() == 10);
    assert(t[0] == 's' && t[1] == 'e');
    assert(t[2] == 'v' && t[3] == 'e');
    assert(t[0] == 's');
    lemma_other_prefix(t, "id:"@, 0);
    assert(t[0] == 's');
    lemma_other_prefix(t, "phase:"@, 0);
    assert("block"@[0] == 'b');
    assert("deny"@[0] == 'd');
    assert("pass"@[0] == 'p');
    assert("allow"@[0] == 'a');
    assert("chain"@[0] == 'c');
    assert(t[0] == 's');
    lemma_other_prefix(t, "msg:'"@, 0);
    assert(t[0] == 's');
    lemma_other_prefix(t, "msg:\""@, 0);
    assert(t[0] == 's');
    lemma_other_prefix(t, "tag:'"@, 0);
    assert(t[0] == 's');
    lemma_other_prefix(t, "tag:\""@, 0);
    assert(t[0] == 's');
    lemma_other_prefix(t, "t:"@, 0);
}

proof fn lemma_severity_token_double(rest: Seq<char>)
    ensures
        token_in("severity:\""@ + rest) == TokenView::Severity(
            severity_named(trim_end_char(rest, '"')),
        ),
{
    let t = "severity:\""@ + rest;
    lemma_prefixed(t, "severity:\""@, rest);
    reveal_strlit("id:");
    reveal_strlit("phase:");
    reveal_strlit("block");
    reveal_strlit("deny");
    reveal_strlit("pass");
    reveal_strlit("allow");
    reveal_strlit("chain");
    reveal_strlit("msg:'");
    reveal_strlit("msg:\"");
    reveal_strlit("tag:'");
    reveal_strlit("tag:\"");
    reveal_strlit("t:");
    reveal_strlit("severity:'");
    reveal_strlit("severity:\"");
    assert("id:"@.len() == 3);
    assert("phase:"@.len() == 6);
    assert("block"@.len() == 5);
    assert("deny"@.len() == 4);
    assert("pass"@.len() == 4);
    assert("allow"@.len() == 5);
    assert("chain"@.len() == 5);
    assert("msg:'"@.len() == 5);
    assert("msg:\""@.len() == 5);
    assert("tag:'"@.len() == 5);
    assert("tag:\""@.len() == 5);
    assert("t:"@.len() == 2);
    assert("severity:'"@.len() == 10);
    assert("severity:\""@.len() == 10);
    assert(t[0] == 's' && t[1] == 'e');
    assert(t[2] == 'v' && t[3] == 'e');
    assert(t[0] == 's');
    lemma_other_prefix(t, "id:"@, 0);
    assert(t[0] == 's');
    lemma_other_prefix(t, "phase:"@, 0);
    assert("block"@[0] == 'b');
    assert("deny"@[0] == 'd');
    assert("pass"@[0] == 'p');
    assert("allow"@[0] == 'a');
    assert("chain"@[0] == 'c');
    assert(t[0] == 's');
    lemma_other_prefix(t, "msg:'"@, 0);
    assert(t[0] == 's');
    lemma_other_prefix(t, "msg:\""@, 0);
    assert(t[0] == 's');
    lemma_other_prefix(t, "tag:'"@, 0);
    assert(t[0] == 's');
    lemma_other_prefix(t, "tag:\""@, 0);
    assert(t[0] == 's');
    lemma_other_prefix(t, "t:"@, 0);
    assert(t[9] == '"');
    lemma_other_prefix(t, "severity:'"@, 9);
}

proof fn lemma_skip_token(rest: Seq<char>)
    ensures
        token_in("skipAfter:"@ + rest) == TokenView::SkipAfter(trim(rest)),
{
    let t = "skipAfter:"@ + rest;
    lemma_prefixed(t, "skipAfter:"@, rest);
    reveal_strlit("id:");
    reveal_strlit("phase:");
    reveal_strlit("block");
    reveal_strlit("deny");
    reveal_strlit("pass");
    reveal_strlit("allow");
    reveal_strlit("chain");
    reveal_strlit("msg:'");
    reveal_strlit("msg:\"");
    reveal_strlit("tag:'");
    reveal_strlit("tag:\"");
    reveal_strlit("t:");
    reveal_strlit("severity:'");
    reveal_strlit("severity:\"");
    reveal_strlit("skipAfter:");
    assert("id:"@.len() == 3);
    assert("phase:"@.len() == 6);
    assert("block"@.len() == 5);
    assert("deny"@.len() == 4);
    assert("pass"@.len() == 4);
    assert("allow"@.len() == 5);
    assert("chain"@.len() == 5);
    assert("msg:'"@.len() == 5);
    assert("msg:\""@.len() == 5);
    assert("tag:'"@.len() == 5);
    assert("tag:\""@.len() == 5);
    assert("t:"@.len() == 2);
    assert("severity:'"@.len() == 10);
    assert("severity:\""@.len() == 10);
    assert("skipAfter:"@.len() == 10);
    assert(t[0] == 's' && t[1] == 'k');
    assert(t[2] == 'i' && t[3] == 'p');
    assert(t[0] == 's');
    lemma_other_prefix(t, "id:"@, 0);
    assert(t[0] == 's');
    lemma_other_prefix(t, "phase:"@, 0);
    assert("block"@[0] == 'b');
    assert("deny"@[0] == 'd');
    assert("pass"@[0] == 'p');
    assert("allow"@[0] == 'a');
    assert("chain"@[0] == 'c');
    assert(t[0] == 's');
    lemma_other_prefix(t, "msg:'"@, 0);
    assert(t[0] == 's');
    lemma_other_prefix(t, "msg:\""@, 0);
    assert(t[0] == 's');
    lemma_other_prefix(t, "tag:'"@, 0);
    assert(t[0] == 's');
    lemma_other_prefix(t, "tag:\""@, 0);
    assert(t[0] == 's');
    lemma_other_prefix(t, "t:"@, 0);
    assert(t[1] == 'k');
    lemma_other_prefix(t, "severity:'"@, 1);
    assert(t[1] == 'k');
    lemma_other_prefix(t, "severity:\""@, 1);
}

proof fn lemma_setvar_token(rest: Seq<char>)
    ensures
        token_in("setvar:'"@ + rest) == TokenView::Setvar(score_named(rest)),
{
    let t = "setvar:'"@ + rest;
    lemma_prefixed(t, "setvar:'"@, rest);
    reveal_strlit("id:");
    reveal_strlit("phase:");
    reveal_strlit("block");
    reveal_strlit("deny");
    reveal_strlit("pass");
    reveal_strlit("allow");
    reveal_strlit("chain");
    reveal_strlit("msg:'");
    reveal_strlit("msg:\"");
    reveal_strlit("tag:'");
    reveal_strlit("tag:\"");
    reveal_strlit("t:");
    reveal_strlit("severity:'");
    reveal_strlit("severity:\"");
    reveal_strlit("skipAfter:");
    reveal_strlit("setvar:'");
    assert("id:"@.len() == 3);
    assert("phase:"@.len() == 6);
    assert("block"@.len() == 5);
    assert("deny"@.len() == 4);
    assert("pass"@.len() == 4);
    assert("allow"@.len() == 5);
    assert("chain"@.len() == 5);
    assert("msg:'"@.len() == 5);
    assert("msg:\""@.len() == 5);
    assert("tag:'"@.len() == 5);
    assert("tag:\""@.len() == 5);
    assert("t:"@.len() == 2);
    assert("severity:'"@.len() == 10);
    assert("severity:\""@.len() == 10);
    assert("skipAfter:"@.len() == 10);
    assert("setvar:'"@.len() == 8);
    assert(t[0] == 's' && t[1] == 'e');
    assert(t[2] == 't' && t[3] == 'v');
    assert(t[0] == 's');
    lemma_other_prefix(t, "id:"@, 0);
    assert(t[0] == 's');
    lemma_other_prefix(t, "phase:"@, 0);
    assert("block"@[0] == 'b');
    assert("deny"@[0] == 'd');
    assert("pass"@[0] == 'p');
    assert("allow"@[0] == 'a');
    assert("chain"@[0] == 'c');
    assert(t[0] == 's');
    lemma_other_prefix(t, "msg:'"@, 0);
    assert(t[0] == 's');
    lemma_other_prefix(t, "msg:\""@, 0);
    assert(t[0] == 's');
    lemma_other_prefix(t, "tag:'"@, 0);
    assert(t[0] == 's');
    lemma_other_prefix(t, "tag:\""@, 0);
    assert(t[0] == 's');
    lemma_other_prefix(t, "t:"@, 0);
    assert(t[2] == 't');
    lemma_other_prefix(t, "severity:'"@, 2);
    assert(t[2] == 't');
    lemma_other_prefix(t, "severity:\""@, 2);
    assert(t[1] == 'e');
    lemma_other_prefix(t, "skipAfter:"@, 1);
}

proof fn lemma_setvar_token_double(rest: Seq<char>)
    ensures
        token_in("setvar:\""@ + rest) == TokenView::Setvar(score_named(rest)),
{
    let t = "setvar:\""@ + rest;
    lemma_prefixed(t, "setvar:\""@, rest);
    reveal_strlit("id:");
    reveal_strlit("phase:");
    reveal_strlit("block");
    reveal_strlit("deny");
    reveal_strlit("pass");
    reveal_strlit("allow");
    reveal_strlit("chain");
    reveal_strlit("msg:'");
    reveal_strlit("msg:\"");
    reveal_strlit("tag:'");
    reveal_strlit("tag:\"");
    reveal_strlit("t:");
    reveal_strlit("severity:'");
    reveal_strlit("severity:\"");
    reveal_strlit("skipAfter:");
    reveal_strlit("setvar:'");
    reveal_strlit("setvar:\"");
    assert("id:"@.len() == 3);
    assert("phase:"@.len() == 6);
    assert("block"@.len() == 5);
    assert("deny"@.len() == 4);
    assert("pass"@.len() == 4);
    assert("allow"@.len() == 5);
    assert("chain"@.len() == 5);
    assert("msg:'"@.len() == 5);
    assert("msg:\""@.len() == 5);
    assert("tag:'"@.len() == 5);
    assert("tag:\""@.len() == 5);
    assert("t:"@.len() == 2);
    assert("severity:'"@.len() == 10);
    assert("severity:\""@.len() == 10);
    assert("skipAfter:"@.len() == 10);
    assert("setvar:'"@.len() == 8);
    assert("setvar:\""@.len() == 8);
    assert(t[0] == 's' && t[1] == 'e');
    assert(t[2] == 't' && t[3] == 'v');
    assert(t[0] == 's');
    lemma_other_prefix(t, "id:"@, 0);
    assert(t[0] == 's');
    lemma_other_prefix(t, "phase:"@, 0);
    assert("block"@[0] == 'b');
    assert("deny"@[0] == 'd');
    assert("pass"@[0] == 'p');
    assert("allow"@[0] == 'a');
    assert("chain"@[0] == 'c');
    assert(t[0] == 's');
    lemma_other_prefix(t, "msg:'"@, 0);
    assert(t[0] == 's');
    lemma_other_prefix(t, "msg:\""@, 0);
    assert(t[0] == 's');
    lemma_other_prefix(t, "tag:'"@, 0);
    assert(t[0] == 's');
    lemma_other_prefix(t, "tag:\""@, 0);
    assert(t[0] == 's');
    lemma_other_prefix(t, "t:"@, 0);
    assert(t[2] == 't');
    lemma_other_prefix(t, "severity:'"@, 2);
    assert(t[2] == 't');
    lemma_other_prefix(t, "severity:\""@, 2);
    assert(t[1] == 'e');
    lemma_other_prefix(t, "skipAfter:"@, 1);
    assert(t[7] == '"');
    lemma_other_prefix(t, "setvar:'"@, 7);
}

/// One more action, with whitespace around it, changes what it says and nothing else.
proof fn lemma_one_more(parts: Seq<Seq<char>>, part: Seq<char>, token: Seq<char>)
    requires
        trim(part) == token,
    ensures
        actions_in(parts.push(part)) == with_token(
            actions_in(parts),
            token_in(token),
        ),
{
    assert(parts.push(part).drop_last() =~= parts);
}

/// `block` and `deny` block, `pass` and `allow` let pass, and `chain` chains the next
/// rule; nothing else changes.
pub proof fn lemma_action_words(parts: Seq<Seq<char>>, part: Seq<char>)
    ensures
        ({
            let a = actions_in(parts);
            let b = actions_in(parts.push(part));
            &&& trim(part) == "block"@ || trim(part) == "deny"@ ==> b == (
            ActionsView { action: Action::Block, ..a })
            &&& trim(part) == "pass"@ || trim(part) == "allow"@ ==> b == (
            ActionsView { action: Action::Pass, ..a })
            &&& trim(part) == "chain"@ ==> b == (ActionsView {
                chain: true,
                ..a
            })
        }),
{
    lemma_word_tokens();
    lemma_one_more(parts, part, trim(part));
}

/// `id:N` sets the id and nothing else.
pub proof fn lemma_action_id(parts: Seq<Seq<char>>, part: Seq<char>, n: u32)
    requires
        trim(part) == "id:"@ + decimal(n as int),
    ensures
        actions_in(parts.push(part)) == (ActionsView {
            id: n,
            ..actions_in(parts)
        }),
{
    lemma_one_more(parts, part, trim(part));
    lemma_id_token(decimal(n as int));
    lemma_decimal_round_trip(n as int, u32::MAX as int);
}

/// `phase:N` sets the phase, `t:name` adds a transformation behind those before it,
/// and `skipAfter:name` sets the marker to skip to.
pub proof fn lemma_action_settings(parts: Seq<Seq<char>>, part: Seq<char>, value: Seq<char>)
    ensures
        ({
            let a = actions_in(parts);
            let b = actions_in(parts.push(part));
            &&& trim(part) == "phase:"@ + value ==> b == (ActionsView {
                phase: phase_named(value),
                ..a
            })
            &&& trim(part) == "t:"@ + value ==> b == (ActionsView {
                transforms: a.transforms.push(transform_named(value)),
                ..a
            })
            &&& trim(part) == "skipAfter:"@ + value ==> b == (ActionsView {
                skip_after: Some(trim(value)),
                ..a
            })
        }),
{
    lemma_one_more(parts, part, trim(part));
    lemma_phase_token(value);
    lemma_transform_token(value);
    lemma_skip_token(value);
}

/// `msg:'..'` sets the message to all that stands between the quotation marks, of
/// either kind; `tag:'..'` adds a tag behind those before it.
#[verifier::rlimit(40)]
pub proof fn lemma_action_texts(parts: Seq<Seq<char>>, part: Seq<char>, text: Seq<char>)
    ensures
        ({
            let a = actions_in(parts);
            let b = actions_in(parts.push(part));
            let single = text.len() > 0 ==> text.last() != '\'';
            let double = text.len() > 0 ==> text.last() != '"';
            let said = ActionsView { msg: Some(text), ..a };
            let tagged = ActionsView { tags: a.tags.push(text), ..a };
            &&& single && trim(part) == "msg:'"@ + (text + seq!['\'']) ==> b == said
            &&& double && trim(part) == "msg:\""@ + (text + seq!['"']) ==> b == said
            &&& single && trim(part) == "tag:'"@ + (text + seq!['\'']) ==> b == tagged
            &&& double && trim(part) == "tag:\""@ + (text + seq!['"']) ==> b == tagged
        }),
{
    lemma_one_more(parts, part, trim(part));
    let s = text + seq!['\''];
    let d = text + seq!['"'];
    if text.len() > 0 ==> text.last() != '\'' {
        lemma_trim_end_char(text, '\'', seq!['\'']);
    }
    if text.len() > 0 ==> text.last() != '"' {
        lemma_trim_end_char(text, '"', seq!['"']);
    }
    lemma_msg_token(s);
    lemma_msg_token_double(d);
    lemma_tag_token(s);
    lemma_tag_token_double(d);
}

/// `severity:'name'` sets the severity; `setvar:'..'` sets the score that it names
/// where there is none yet: the first one counts.
#[verifier::rlimit(40)]
pub proof fn lemma_action_scores(parts: Seq<Seq<char>>, part: Seq<char>, text: Seq<char>)
    ensures
        ({
            let a = actions_in(parts);
            let b = actions_in(parts.push(part));
            let single = text.len() > 0 ==> text.last() != '\'';
            let double = text.len() > 0 ==> text.last() != '"';
            let graded = ActionsView { severity: severity_named(text), ..a };
            let scored = ActionsView {
                anomaly_score: if a.anomaly_score is None {
                    score_named(text)
                } else {
                    a.anomaly_score
                },
                ..a
            };
            &&& single && trim(part) == "severity:'"@ + (text + seq!['\'']) ==> b == graded
            &&& double && trim(part) == "severity:\""@ + (text + seq!['"']) ==> b == graded
            &&& trim(part) == "setvar:'"@ + text ==> b == scored
            &&& trim(part) == "setvar:\""@ + text ==> b == scored
        }),
{
    lemma_one_more(parts, part, trim(part));
    if text.len() > 0 ==> text.last() != '\'' {
        lemma_trim_end_char(text, '\'', seq!['\'']);
    }
    if text.len() > 0 ==> text.last() != '"' {
        lemma_trim_end_char(text, '"', seq!['"']);
    }
    lemma_severity_token(text + seq!['\'']);
    lemma_severity_token_double(text + seq!['"']);
    lemma_setvar_token(text);
    lemma_setvar_token_double(text);
}

/// Without actions a rule lets pass in the second phase, has no id, and names nothing.
pub proof fn lemma_without_actions()
    ensures
        ({
            let a = actions_in(seq![]);
            &&& a.id == 0
            &&& a.phase == Phase::Two
            &&& a.action == Action::Pass
            &&& a.msg is None
            &&& a.tags.len() == 0
            &&& a.transforms.len() == 0
            &&& a.severity is None
            &&& a.skip_after is None
            &&& a.anomaly_score is None
            &&& !a.chain
        }),
{
}

/// A rule as it is usually written has the variables, the operator and the actions
/// that it writes, and its level is that of its tags.
#[verifier::rlimit(40)]
pub proof fn lemma_written_rule_fields(vars: Seq<char>, op: Seq<char>, actions: Seq<char>)
    requires
        writable(vars, op, actions),
    ensures
        secrule_in(written_rule(vars, op, actions)) matches Some((rule, chain)) && {
            let a = actions_in(action_texts(actions));
            &&& rule.condition.variables == variables_named(vars)
            &&& rule.condition.operator == operator_in(trim(op))
            &&& rule.condition.transforms == a.transforms
            &&& rule.id == a.id
            &&& rule.phase == a.phase
            &&& rule.action == a.action
            &&& rule.msg == a.msg
            &&& rule.tags == a.tags
            &&& rule.severity == a.severity
            &&& rule.skip_after == a.skip_after
            &&& rule.anomaly_score == a.anomaly_score
            &&& rule.paranoia_level == level_named(a.tags)
            &&& rule.chained.len() == 0
            &&& chain == a.chain
        },
{
    lemma_written_rule(vars, op, actions);
}

/// `SecMarker name` is the marker of that name, in quotation marks or without.
pub proof fn lemma_marker_line(name: Seq<char>)
    requires
        name.len() > 0,
        tight(name),
        name[0] != '"',
        name.last() != '"',
    ensures
        directive_in("SecMarker "@ + name) == DirectiveView::Marker(name),
        directive_in("SecMarker "@ + (seq!['"'] + name + seq!['"'])) == DirectiveView::Marker(
            name,
        ),
{
    lemma_marker_text(name, name);
    let quoted = seq!['"'] + name + seq!['"'];
    lemma_marker_text(quoted, name);
}

proof fn lemma_marker_text(text: Seq<char>, name: Seq<char>)
    requires
        name.len() > 0,
        tight(name),
        name[0] != '"',
        name.last() != '"',
        text == name || text == seq!['"'] + name + seq!['"'],
    ensures
        directive_in("SecMarker "@ + text) == DirectiveView::Marker(name),
{
    reveal_strlit("SecMarker ");
    reveal_strlit("SecMarker");
    reveal_strlit("#");
    let line = "SecMarker "@ + text;
    assert(line[0] == 'S');
    assert(text.last() == name.last() || text.last() == '"');
    assert(text[0] == name[0] || text[0] == '"');
    assert(line.last() == text.last());
    lemma_trim_tight(line);
    assert(starts_with(line, "#"@) ==> line.take(1)[0] == '#');
    let rest = seq![' '] + text;
    assert("SecMarker "@ =~= "SecMarker"@ + seq![' ']);
    assert(line =~= "SecMarker"@ + rest);
    lemma_after_prefix(line, "SecMarker"@, rest);
    assert(rest =~= seq![' '] + text + Seq::<char>::empty());
    lemma_trim(seq![' '], text, seq![]);
    lemma_unquoted(text, name);
    lemma_trim_tight(name);
}

proof fn lemma_unquoted(text: Seq<char>, name: Seq<char>)
    requires
        name.len() > 0,
        name[0] != '"',
        name.last() != '"',
        text == name || text == seq!['"'] + name + seq!['"'],
    ensures
        trim_char(text, '"') == name,
{
    let mark = is_char('"');
    if text == name {
        lemma_leading_is(text, mark, 0);
        assert(text.skip(0) =~= text);
        assert(name + Seq::<char>::empty() =~= name);
        lemma_trim_end_char(name, '"', seq![]);
    } else {
        assert(text[0] == '"' && text[1] == name[0]);
        lemma_leading_is(text, mark, 1);
        assert(text.skip(1) =~= name + seq!['"']);
        lemma_trim_end_char(name, '"', seq!['"']);
    }
}

// ---------------------------------------------------------------------------
// What is not known
// ---------------------------------------------------------------------------

/// A variable that is not known is taken for the header of that name.
pub proof fn lemma_unknown_variable(negated: bool, s: Seq<char>)
    requires
        s.len() > 0 ==> s[0] != '!',
        ({
            let up = uppercase(s);
            up != "ARGS"@
            && up != "ARGS_NAMES"@
            && up != "REQUEST_COOKIES"@
            && up != "REQUEST_COOKIES_NAMES"@
            && up != "REQUEST_FILENAME"@
            && up != "REQUEST_HEADERS"@
            && up != "REQUEST_METHOD"@
            && up != "REQUEST_URI"@
            && up != "REQUEST_URI_RAW"@
            && up != "REQUEST_BODY"@
            && up != "REQUEST_BODY_RAW"@
            && !starts_with(up, "REQUEST_HEADERS:"@)
            && !starts_with(up, "TX:"@)
            && !starts_with(up, "XML:"@)
        }),
    ensures
        variable_named(maybe_negated(negated, s)) == VariableView::RequestHeader(s),
{
    lemma_negation(negated, s);
}

/// An operator that is not known is kept by its name.
pub proof fn lemma_unknown_operator(name: Seq<char>, arg: Seq<char>)
    requires
        forall|i: int| 0 <= i < name.len() ==> !is_ascii_space(#[trigger] name[i]),
        ({
            let low = lowercase(name);
            low != "rx"@
            && low != "pm"@
            && low != "pmfromfile"@
            && low != "contains"@
            && low != "beginswith"@
            && low != "endswith"@
            && low != "streq"@
            && low != "lt"@
            && low != "le"@
            && low != "ge"@
            && low != "gt"@
            && low != "within"@
            && low != "validatebyterange"@
            && low != "detectxss"@
            && low != "detectsqli"@
        }),
    ensures
        operator_in(seq!['@'] + name + seq![' '] + arg) == OperatorView::Unsupported(
            lowercase(name),
        ),
        operator_in(seq!['@'] + name) == OperatorView::Unsupported(lowercase(name)),
{
    lemma_operator_text(name, arg);
}

/// An operator without an argument has the empty one.
pub proof fn lemma_bare_operator(name: Seq<char>)
    requires
        forall|i: int| 0 <= i < name.len() ==> !is_ascii_space(#[trigger] name[i]),
    ensures
        lowercase(name) == "detectxss"@ ==> operator_in(seq!['@'] + name)
            == OperatorView::DetectXss,
        lowercase(name) == "detectsqli"@ ==> operator_in(seq!['@'] + name)
            == OperatorView::DetectSqli,
        lowercase(name) == "rx"@ ==> operator_in(seq!['@'] + name) == OperatorView::Rx(seq![]),
{
    lemma_operator_text(name, seq![]);
    lemma_operator_names(lowercase(name), seq![]);
}

/// An action that is not known changes nothing; nor does a message, a tag, a severity or a
/// score without quotation marks.
pub proof fn lemma_unknown_action(parts: Seq<Seq<char>>, part: Seq<char>)
    requires
        ({
            let t = trim(part);
            !starts_with(t, "id:"@)
            && !starts_with(t, "phase:"@)
            && !starts_with(t, "msg:'"@)
            && !starts_with(t, "msg:\""@)
            && !starts_with(t, "tag:'"@)
            && !starts_with(t, "tag:\""@)
            && !starts_with(t, "t:"@)
            && !starts_with(t, "severity:'"@)
            && !starts_with(t, "severity:\""@)
            && !starts_with(t, "skipAfter:"@)
            && !starts_with(t, "setvar:'"@)
            && !starts_with(t, "setvar:\""@)
            && t != "block"@
            && t != "deny"@
            && t != "pass"@
            && t != "allow"@
            && t != "chain"@
        }),
    ensures
        actions_in(parts.push(part)) == actions_in(parts),
{
    lemma_one_more(parts, part, trim(part));
}

/// An id or a level that is no number is zero.
pub proof fn lemma_bad_numbers(s: Seq<char>, tags: Seq<Seq<char>>)
    ensures
        parse_natural(s, 10, u32::MAX as int) is Err ==> id_or_zero(s) == 0,
        parse_natural(s, 10, 255) is Err ==> level_named(
            seq!["paranoia-level/"@ + s] + tags,
        ) == 0,
        parse_integer(s, i64::MIN as int, i64::MAX as int) is None ==> number_or_zero(s) == 0,
{
    let tag = "paranoia-level/"@ + s;
    let all = seq![tag] + tags;
    assert(all[0] == tag);
    lemma_after_prefix(tag, "paranoia-level/"@, s);
}

// ---------------------------------------------------------------------------
// Escaped quotation marks
// ---------------------------------------------------------------------------

/// A quotation mark behind a backslash does not end the actions: they reach to the next
/// one, and keep the backslash.
#[verifier::rlimit(40)]
pub proof fn lemma_escaped_mark(vars: Seq<char>, a: Seq<char>, b: Seq<char>)
    requires
        vars.len() > 0,
        forall|i: int| 0 <= i < vars.len() ==> !is_space(#[trigger] vars[i]) && vars[i] != '"',
        free_of(a, '"'),
        free_of(a, '\\'),
        free_of(b, '"'),
        free_of(b, '\\'),
    ensures
        secrule_parts(
            vars + seq![' ', '@', 'x', ' '] + (seq!['"'] + (a + seq!['\\', '"'] + b) + seq!['"']),
        ) == Some((vars, seq!['@', 'x'], a + seq!['\\', '"'] + b)),
{
    let actions = a + seq!['\\', '"'] + b;
    let before = vars + seq![' ', '@', 'x', ' '];
    let s = before + (seq!['"'] + actions + seq!['"']);
    let open = before.len() as int;
    assert(s[0] == vars[0]);
    assert(s.last() == '"');
    lemma_trim_tight(s);
    lemma_escaped_block(before, a, b);
    assert(s.take(open) =~= before);
    let block = s.skip(open + 1);
    assert(block =~= a + seq!['\\', '"'] + (b + seq!['"']));
    lemma_escaped(a, '"', b + seq!['"']);
    lemma_escaped(b, '"', seq![]);
    assert(b + seq!['"'] + Seq::<char>::empty() =~= b + seq!['"']);
    assert(block.take(actions.len() as int) =~= actions);
    lemma_words_before(vars);
}

/// The block opens at the mark before the escaped one.
#[verifier::rlimit(40)]
proof fn lemma_escaped_block(before: Seq<char>, a: Seq<char>, b: Seq<char>)
    requires
        before.len() > 0,
        before.last() == ' ',
        free_of(a, '"'),
        free_of(a, '\\'),
        free_of(b, '"'),
    ensures
        last_block(before + (seq!['"'] + (a + seq!['\\', '"'] + b) + seq!['"'])) == Some(
            before.len() as int,
        ),
{
    let s = before + (seq!['"'] + (a + seq!['\\', '"'] + b) + seq!['"']);
    let open = before.len() as int;
    let mark = open + 1 + a.len() + 1;
    lemma_trailing_is(s, not_char('"'), 0);
    assert forall|i: int| mark + 1 <= i < s.len() - 1 implies #[trigger] s[i] != '"' by {
        assert(s[i] == b[i - mark - 1]);
    }
    lemma_opening_from(s, mark + 1, s.len() - 1);
    assert(s[mark] == '"');
    let head = s.take(mark);
    assert(head[mark - 1] == '\\');
    assert(head[mark - 2] != '\\') by {
        if a.len() > 0 {
            assert(head[mark - 2] == a[a.len() - 1]);
        }
    }
    lemma_trailing_is(head, is_char('\\'), 1);
    assert(!unescaped(s, mark));
    assert(last_opening(s, mark + 1) == last_opening(s, mark));
    assert forall|i: int| open + 1 <= i < mark implies #[trigger] s[i] != '"' by {
        if i < mark - 1 {
            assert(s[i] == a[i - open - 1]);
        }
    }
    lemma_opening_from(s, open + 1, mark);
    assert(s[open] == '"');
    assert(s.take(open)[open - 1] == ' ');
    lemma_trailing_is(s.take(open), is_char('\\'), 0);
}

/// The variables are the first word, and the operator is the next.
proof fn lemma_words_before(vars: Seq<char>)
    requires
        vars.len() > 0,
        forall|i: int| 0 <= i < vars.len() ==> !is_space(#[trigger] vars[i]),
    ensures
        first_word(trim(vars + seq![' ', '@', 'x', ' '])) == Some((vars, seq!['@', 'x'])),
        trim(trim_char(trim(seq!['@', 'x']), '"')) == seq!['@', 'x'],
{
    let v = vars.len() as int;
    let front = vars + seq![' ', '@', 'x'];
    let none = Seq::<char>::empty();
    assert(vars + seq![' ', '@', 'x', ' '] =~= none + front + seq![' ']);
    assert(front[0] == vars[0]);
    assert(front.last() == 'x');
    lemma_trim(none, front, seq![' ']);
    let word = |x: char| !is_ascii_space(x);
    assert forall|i: int| 0 <= i < v implies word(#[trigger] front[i]) by {
        assert(front[i] == vars[i]);
        assert(!is_space(vars[i]));
    }
    assert(front[v] == ' ');
    lemma_leading_is(front, word, v);
    assert(front.take(v) =~= vars);
    let op = seq!['@', 'x'];
    assert(front.skip(v + 1) =~= op);
    let space = |x: char| is_space(x);
    lemma_leading_is(op, space, 0);
    assert(op.skip(0) =~= op);
    lemma_trim_tight(op);
    lemma_leading_is(op, is_char('"'), 0);
    assert(op + none =~= op);
    lemma_trim_end_char(op, '"', none);
}

proof fn lemma_opening_from(s: Seq<char>, start: int, end: int)
    requires
        0 <= start <= end <= s.len(),
        forall|i: int| start <= i < end ==> #[trigger] s[i] != '"',
    ensures
        last_opening(s, end) == last_opening(s, start),
    decreases end,
{
    if start < end {
        assert(s[end - 1] != '"');
        lemma_opening_from(s, start, end - 1);
    }
}

/// Names are cut off by bytes: a character goes with them if it starts within them, and
/// takes as many of them as it has in UTF-8.
pub proof fn lemma_cut_by_bytes(c: char, rest: Seq<char>, n: int)
    ensures
        n <= 0 ==> after_bytes(seq![c] + rest, n) == seq![c] + rest,
        n > 0 && (c as u32) < 0x80 ==> after_bytes(seq![c] + rest, n) == after_bytes(rest, n - 1),
        n > 0 && 0x80 <= (c as u32) && (c as u32) < 0x800 ==> after_bytes(seq![c] + rest, n)
            == after_bytes(rest, n - 2),
        n > 0 && 0x800 <= (c as u32) && (c as u32) < 0x10000 ==> after_bytes(seq![c] + rest, n)
            == after_bytes(rest, n - 3),
        n > 0 && 0x10000 <= (c as u32) ==> after_bytes(seq![c] + rest, n) == after_bytes(
            rest,
            n - 4,
        ),
{
    assert((seq![c] + rest).skip(1) =~= rest);
}

} // verus!
