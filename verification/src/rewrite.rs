//! The outside text rewriters the pipeline leans on: the rule-based
//! rewriter that strips comments, lowers the backend dialect and injects
//! global constants; the code formatter; and the lossless parser used to
//! check that edited text still parses to itself.
//!
//! Each outside call stands behind one trusted wrapper whose contract
//! names its result and says exactly when it succeeds; everything composed
//! on top of the wrappers is proved. Every rewrite rule used here is
//! infallible in the rewriter's source once the text has parsed, so
//! success is promised wherever it is owed.

use vstd::prelude::*;
use vstd::string::StringExecFns;

use darklua_core::generator::LuaGenerator;
use darklua_core::rules::{InjectGlobalValue, Rule, RuleConfiguration};

use crate::errors::PpError;
use crate::params::kv_view;
use crate::text;
use crate::transformer::truthy;

verus! {

/// The text with its comments removed, except those matching the given
/// pattern; what `remove_comments` of the rewriter produces.
pub uninterp spec fn uncommented_of(s: Seq<char>, except: Seq<char>) -> Seq<char>;

/// Whether the rewriter's parser accepts the text.
pub uninterp spec fn dl_parses(s: Seq<char>) -> bool;

/// Whether the regular-expression engine accepts the pattern.
pub uninterp spec fn regex_ok(p: Seq<char>) -> bool;

/// The text after the fixed, ordered backend-dialect desugaring rules run
/// over it.
pub uninterp spec fn luau_lowered_of(s: Seq<char>) -> Seq<char>;

/// The text with one global boolean injected per entry and the branches
/// they decide cleaned up.
pub uninterp spec fn injected_cleaned_of(s: Seq<char>, params: Seq<(Seq<char>, bool)>) -> Seq<
    char,
>;

/// The text as the formatter prints it under its default configuration.
pub uninterp spec fn formatted_of(s: Seq<char>) -> Seq<char>;

/// Whether the formatter accepts the text under its default
/// configuration.
pub uninterp spec fn stylua_ok(s: Seq<char>) -> bool;

/// Whether the lossless parser accepts the text.
pub uninterp spec fn fm_parses(s: Seq<char>) -> bool;

/// The views of a `(String, bool)` list.
pub open spec fn bool_kv_view(s: Seq<(String, bool)>) -> Seq<(Seq<char>, bool)> {
    s.map_values(|p: (String, bool)| (p.0@, p.1))
}

/// Relies on the rewriter's `Parser`, `RemoveComments` rule and
/// token-based generator: parses the text keeping tokens, removes every
/// comment but those matching `except`, and prints the block back. The
/// result is a function of the two texts alone; `RemoveComments` is a
/// flawless rule, so only the parse or an invalid pattern can fail.
#[verifier::external_body]
fn dl_remove_comments(input: &str, except: &str) -> (r: Option<String>)
    ensures
        r matches Some(o) ==> o@ == uncommented_of(input@, except@),
        r is Some == (dl_parses(input@) && regex_ok(except@)),
{
    let resources = darklua_core::Resources::from_memory();
    let context = darklua_core::rules::ContextBuilder::new(".", &resources, input).build();
    let mut block = darklua_core::Parser::default().preserve_tokens().parse(input).ok()?;
    let mut rule = darklua_core::rules::RemoveComments::default();
    let mut props = std::collections::HashMap::new();
    let pattern = darklua_core::rules::RulePropertyValue::StringList(vec![except.to_owned()]);
    props.insert("except".to_owned(), pattern);
    rule.configure(props).ok()?;
    Rule::process(&rule, &mut block, &context).ok()?;
    let mut generator = darklua_core::generator::TokenBasedLuaGenerator::new(input);
    generator.write_block(&block);
    Some(generator.into_string())
}

/// Relies on the rewriter's `Parser`, its registered-name rule parser
/// (`FromStr` for boxed rules), and its token-based generator. The nine
/// named rules run in order under their default configuration; every name
/// below is registered and every one of the nine is a flawless rule, so
/// exactly the parse of the text can fail, and the result is a function
/// of the text alone.
#[verifier::external_body]
fn dl_luau_rules(input: &str) -> (r: Option<String>)
    ensures
        r matches Some(o) ==> o@ == luau_lowered_of(input@),
        r is Some == dl_parses(input@),
{
    let resources = darklua_core::Resources::from_memory();
    let context = darklua_core::rules::ContextBuilder::new(".", &resources, input).build();
    let mut block = darklua_core::Parser::default().preserve_tokens().parse(input).ok()?;
    for name in ["remove_compound_assignment", "remove_floor_division", "remove_types",
        "remove_if_expression", "remove_continue", "remove_interpolated_string",
        "remove_unused_if_branch", "remove_empty_do", "remove_unused_variable"] {
        let rule: Box<dyn Rule> = name.parse().unwrap();
        rule.process(&mut block, &context).ok()?;
    }
    let mut generator = darklua_core::generator::TokenBasedLuaGenerator::new(input);
    generator.write_block(&block);
    Some(generator.into_string())
}

/// Relies on the rewriter's `InjectGlobalValue::boolean` rule, one per
/// entry, followed by its unused-branch, empty-`do` and unused-variable
/// cleanups built through the registered-name rule parser. All four are
/// flawless rules and the three names are registered, so exactly the
/// parse of the text can fail, and the result is a function of the text
/// and the entries alone.
#[verifier::external_body]
fn dl_inject_globals(input: &str, params: &Vec<(String, bool)>) -> (r: Option<String>)
    ensures
        r matches Some(o) ==> o@ == injected_cleaned_of(input@, bool_kv_view(params@)),
        r is Some == dl_parses(input@),
{
    let resources = darklua_core::Resources::from_memory();
    let context = darklua_core::rules::ContextBuilder::new(".", &resources, input).build();
    let mut block = darklua_core::Parser::default().preserve_tokens().parse(input).ok()?;
    for (key, value) in params {
        let rule = InjectGlobalValue::boolean(key.clone(), *value);
        Rule::process(&rule, &mut block, &context).ok()?;
    }
    for name in ["remove_unused_if_branch", "remove_empty_do", "remove_unused_variable"] {
        let rule: Box<dyn Rule> = name.parse().unwrap();
        rule.process(&mut block, &context).ok()?;
    }
    let mut generator = darklua_core::generator::TokenBasedLuaGenerator::new(input);
    generator.write_block(&block);
    Some(generator.into_string())
}

/// Relies on the formatter's `format_code` under its default
/// configuration, with no range and no output verification: both the
/// verdict and the result are functions of the text alone.
#[verifier::external_body]
fn stylua_format(input: &str) -> (r: Option<String>)
    ensures
        r matches Some(o) ==> o@ == formatted_of(input@),
        r is Some == stylua_ok(input@),
{
    stylua_lib::format_code(
        input,
        stylua_lib::Config::new(),
        None,
        stylua_lib::OutputVerification::None,
    ).ok()
}

/// Relies on the lossless parser: `parse` accepts exactly the valid
/// sources, and printing the parsed tree reproduces the input text
/// exactly, as its documentation guarantees.
#[verifier::external_body]
fn fm_parse_reprint(input: &str) -> (r: Option<String>)
    ensures
        r is Some == fm_parses(input@),
        r matches Some(o) ==> o@ == input@,
{
    full_moon::parse(input).ok().map(|ast| ast.to_string())
}

/// The comment pattern that survives comment stripping: it marks
/// compile-time enums for the optimizer.
pub fn comment_except_pattern() -> (r: &'static str)
    ensures
        r@ == "--\\[\\[@comp_time_enum\\]\\]"@,
{
    "--\\[\\[@comp_time_enum\\]\\]"
}

/// Strips comments from a source text, keeping the compile-time enum
/// annotation. Succeeds exactly when the rewriter reads the text and the
/// pattern compiles; anything else is a collaborator error.
pub fn remove_lua_comments(input: &str) -> (r: Result<String, PpError>)
    ensures
        r is Ok == (dl_parses(input@) && regex_ok("--\\[\\[@comp_time_enum\\]\\]"@)),
        r matches Result::Ok(o) ==> o@ == uncommented_of(
            input@,
            "--\\[\\[@comp_time_enum\\]\\]"@,
        ),
        r matches Result::Err(e) ==> e matches PpError::RewriteFailed { .. },
{
    match dl_remove_comments(input, comment_except_pattern()) {
        Some(o) => Result::Ok(o),
        None => Result::Err(
            PpError::RewriteFailed {
                label: String::from_str("remove_comments"),
                content: input.to_owned(),
            },
        ),
    }
}

/// Lowers backend-dialect text to the base language through the fixed,
/// ordered set of desugaring rules. Succeeds exactly when the rewriter
/// reads the text.
pub fn convert_luau_to_lua(input: &str) -> (r: Result<String, PpError>)
    ensures
        r is Ok == dl_parses(input@),
        r matches Result::Ok(o) ==> o@ == luau_lowered_of(input@),
        r matches Result::Err(e) ==> e matches PpError::RewriteFailed { .. },
{
    match dl_luau_rules(input) {
        Some(o) => Result::Ok(o),
        None => Result::Err(
            PpError::RewriteFailed {
                label: String::from_str("convert_luau_to_lua"),
                content: input.to_owned(),
            },
        ),
    }
}

/// The parameter record read as global booleans.
pub open spec fn bool_params(entries: Seq<(Seq<char>, Seq<char>)>) -> Seq<(Seq<char>, bool)> {
    entries.map_values(|e: (Seq<char>, Seq<char>)| (e.0, truthy(e.1)))
}

/// Injects the parameter record as global boolean constants and drops the
/// conditional branches they decide. Succeeds exactly when the rewriter
/// reads the text.
pub fn inject_global_vals(input: &str, params: &Vec<(String, String)>) -> (r: Result<
    String,
    PpError,
>)
    ensures
        r is Ok == dl_parses(input@),
        r matches Result::Ok(o) ==> o@ == injected_cleaned_of(
            input@,
            bool_params(kv_view(params@)),
        ),
        r matches Result::Err(e) ==> e matches PpError::RewriteFailed { .. },
{
    let mut bools: Vec<(String, bool)> = Vec::new();
    let mut i: usize = 0;
    proof {
        assert(bool_kv_view(bools@) =~= bool_params(kv_view(params@)).take(0));
    }
    while i < params.len()
        invariant
            i <= params@.len(),
            bool_kv_view(bools@) == bool_params(kv_view(params@)).take(i as int),
        decreases params@.len() - i,
    {
        let v = text::str_eq(params[i].1.as_str(), "true") || text::str_eq(
            params[i].1.as_str(),
            "1",
        );
        let key_copy = params[i].0.clone();
        let ghost prev = bools@;
        bools.push((key_copy, v));
        proof {
            assert(bool_kv_view(prev).len() == prev.len());
            assert(bool_params(kv_view(params@)).len() == params@.len());
            assert(prev.len() == i);
            assert(bools@ == prev.push(bools@[i as int]));
            assert(bools@[i as int].0@ == params@[i as int].0@);
            assert(bools@[i as int].1 == v);
            assert(kv_view(params@)[i as int] == (params@[i as int].0@, params@[i as int].1@));
            assert(bool_params(kv_view(params@))[i as int] == (
                params@[i as int].0@,
                truthy(params@[i as int].1@),
            ));
            assert(bool_kv_view(bools@)[i as int] == (
                params@[i as int].0@,
                truthy(params@[i as int].1@),
            ));
            assert(bool_kv_view(bools@) =~= bool_params(kv_view(params@)).take(i + 1));
        }
        i += 1;
    }
    proof {
        assert(bool_params(kv_view(params@)).take(params@.len() as int) =~= bool_params(
            kv_view(params@),
        ));
    }
    match dl_inject_globals(input, &bools) {
        Some(o) => Result::Ok(o),
        None => Result::Err(
            PpError::RewriteFailed {
                label: String::from_str("inject_global_value"),
                content: input.to_owned(),
            },
        ),
    }
}

/// Formats a source text with the formatter's default configuration.
/// Succeeds exactly when the formatter accepts the text.
pub fn format_lua_code(input: &str) -> (r: Result<String, PpError>)
    ensures
        r is Ok == stylua_ok(input@),
        r matches Result::Ok(o) ==> o@ == formatted_of(input@),
        r matches Result::Err(e) ==> e matches PpError::RewriteFailed { .. },
{
    match stylua_format(input) {
        Some(o) => Result::Ok(o),
        None => Result::Err(
            PpError::RewriteFailed {
                label: String::from_str("format"),
                content: input.to_owned(),
            },
        ),
    }
}

/// When sanitizing an evaluator's output can succeed: either the rewriter
/// reads the text and strips its comments, or the text carries no comment
/// marker at all, so there is nothing a later line break collapse could
/// let a comment swallow.
pub open spec fn resolve_ok(raw: Seq<char>) -> bool {
    (dl_parses(raw) && regex_ok("--\\[\\[@comp_time_enum\\]\\]"@)) || !text::contains_seq(
        raw,
        "--"@,
    )
}

/// What splicing makes of an evaluator's raw output: comments are
/// stripped so the result cannot terminate the surrounding block comment
/// — where the rewriter can read the text at all; a comment-free fragment
/// it cannot parse carries through unchanged — and, unless the caller
/// keeps line breaks, newlines collapse to spaces so later line numbers
/// do not shift.
pub open spec fn resolved_output_spec(raw: Seq<char>, keep_line: bool) -> Seq<char> {
    let base = if dl_parses(raw) && regex_ok("--\\[\\[@comp_time_enum\\]\\]"@) {
        uncommented_of(raw, "--\\[\\[@comp_time_enum\\]\\]"@)
    } else {
        raw
    };
    if keep_line {
        base
    } else {
        text::collapsed_lines(base)
    }
}

/// Processes an evaluator's raw output before it is spliced; see
/// [`resolved_output_spec`]. Output that the rewriter cannot read and
/// that still carries a comment marker is refused loudly: collapsing its
/// line breaks could let a comment swallow the text after it.
pub fn resolve_output(raw: &str, keep_line: bool) -> (r: Result<String, PpError>)
    ensures
        r is Ok == resolve_ok(raw@),
        r matches Result::Ok(o) ==> o@ == resolved_output_spec(raw@, keep_line),
        r matches Result::Err(e) ==> e matches PpError::RewriteFailed { .. },
{
    let base = match dl_remove_comments(raw, comment_except_pattern()) {
        Some(o) => o,
        None => {
            if text::contains_str(raw, "--") {
                return Result::Err(
                    PpError::RewriteFailed {
                        label: String::from_str("comp_time output"),
                        content: raw.to_owned(),
                    },
                );
            }
            let mut o = String::new();
            o.append(raw);
            proof {
                assert(o@ =~= raw@);
            }
            o
        },
    };
    if keep_line {
        Result::Ok(base)
    } else {
        Result::Ok(text::collapse_newlines(base.as_str()))
    }
}

/// Parses a text with the lossless parser and prints the tree back:
/// where the text is accepted, the print equals the input byte for byte.
pub(crate) fn reparse_exact(code: &str) -> (r: Option<String>)
    ensures
        r is Some == fm_parses(code@),
        r matches Some(o) ==> o@ == code@,
{
    fm_parse_reprint(code)
}

/// Whether a text parses and prints back to itself: the lossless parser's
/// round trip, checked on real text.
pub fn reparses_identically(code: &str) -> (r: bool)
    ensures
        r == fm_parses(code@),
{
    match fm_parse_reprint(code) {
        Some(o) => {
            proof {
                assert(o@ == code@);
            }
            true
        },
        None => false,
    }
}

} // verus!
