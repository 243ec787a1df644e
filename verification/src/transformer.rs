//! The macro resolver: recognizes the two reserved macro forms — inline
//! compile-time execution and recursive inclusion — prepares what the
//! embedded interpreter has to run, and splices the returned text back into
//! the tree as trivia, leaving the original construct in place inside
//! block-comment delimiters.
//!
//! Running the interpreter itself is the host's part: this module builds
//! the exact chunks to evaluate and consumes the evaluator's output, so
//! that everything around the one opaque call is proved.

use vstd::prelude::*;
use vstd::string::StrSliceExecFns;
use vstd::string::StringExecFns;

use crate::errors::PpError;
use crate::params::kv_view;
use crate::text;
use crate::token_edit::{
    empty_token, get_func_call_name, insert_after_contained_span, insert_after_token,
    insert_before_token, spec_func_call_name,
};
use crate::tree::{
    body_tok, core_tok, lead_tok, ser_func_decl, ser_last_stmt, ser_params, ser_tok, tok_text,
    trail_tok, CallSuffix, FuncArgs, FuncCall, FuncDecl, IndexSuffix, LastStmtNode, Param,
    PrefixNode, Suffix, Tok,
};

verus! {

/// The tree visitor that expands the two macro forms over one file. The
/// host drives it node by node: it carries the file's path and the
/// parameter record injected for the whole run.
pub struct LuaTransformer {
    pub file_path: Option<String>,
    pub input_param_list: Option<Vec<(String, String)>>,
}

impl LuaTransformer {
    pub fn new() -> (r: LuaTransformer)
        ensures
            r.file_path is None,
            r.input_param_list is None,
    {
        LuaTransformer { file_path: None, input_param_list: None }
    }
}

/// A value the record treats as the boolean `true`.
pub open spec fn truthy(v: Seq<char>) -> bool {
    v == "true"@ || v == "1"@
}

/// The statements that bind the parameter record in the interpreter's
/// global scope, one `rawset` per entry.
pub open spec fn load_stmts(entries: Seq<(Seq<char>, Seq<char>)>) -> Seq<char>
    decreases entries.len(),
{
    if entries.len() == 0 {
        Seq::<char>::empty()
    } else {
        "rawset(_G, \""@ + entries[0].0 + "\", "@ + (if truthy(entries[0].1) {
            "true"@
        } else {
            "false"@
        }) + ")\n"@ + load_stmts(entries.drop_first())
    }
}

/// The statements that unbind the record again, one per entry.
pub open spec fn unload_stmts(entries: Seq<(Seq<char>, Seq<char>)>) -> Seq<char>
    decreases entries.len(),
{
    if entries.len() == 0 {
        Seq::<char>::empty()
    } else {
        "rawset(_G, \""@ + entries[0].0 + "\", nil)\n"@ + unload_stmts(entries.drop_first())
    }
}

/// Whether every value of the record is a boolean literal.
pub open spec fn all_bool_values(entries: Seq<(Seq<char>, Seq<char>)>) -> bool {
    forall|i: int|
        0 <= i < entries.len() ==> crate::params::is_bool_lit(#[trigger] entries[i].1)
}

impl LuaTransformer {
    /// The chunk that pushes the parameter record into the interpreter's
    /// global scope, for the host to evaluate before a macro body runs;
    /// nothing where no record was supplied.
    pub fn load_param_list_into_lua_env(&self) -> (r: Option<String>)
        requires
            self.input_param_list matches Some(l) ==> all_bool_values(kv_view(l@)),
        ensures
            match r {
                Some(chunk) => self.input_param_list matches Some(l) && chunk@ == load_stmts(
                    kv_view(l@),
                ) + "return \"\""@,
                None => self.input_param_list is None,
            },
    {
        let entries = match &self.input_param_list {
            Some(l) => l,
            None => {
                return None;
            },
        };
        let ghost all = kv_view(entries@);
        let mut code = String::new();
        let mut i: usize = 0;
        proof {
            assert(all.skip(0) =~= all);
        }
        while i < entries.len()
            invariant
                i <= entries@.len(),
                all == kv_view(entries@),
                all_bool_values(all),
                load_stmts(all) == code@ + load_stmts(all.skip(i as int)),
            decreases entries@.len() - i,
        {
            proof {
                assert(all.skip(i as int)[0] == all[i as int]);
                assert(all.skip(i as int).drop_first() =~= all.skip(i + 1));
            }
            let ghost pre = code@;
            code.append("rawset(_G, \"");
            code.append(entries[i].0.as_str());
            code.append("\", ");
            let v = &entries[i].1;
            if text::str_eq(v.as_str(), "true") || text::str_eq(v.as_str(), "1") {
                code.append("true");
            } else {
                code.append("false");
            }
            code.append(")\n");
            proof {
                assert(code@ + load_stmts(all.skip(i + 1)) =~= pre + load_stmts(
                    all.skip(i as int),
                ));
            }
            i += 1;
        }
        proof {
            assert(load_stmts(all.skip(entries@.len() as int)) =~= Seq::<char>::empty());
            assert(code@ + load_stmts(all.skip(entries@.len() as int)) =~= code@);
        }
        code.append("return \"\"");
        Some(code)
    }

    /// The chunk that pops the record from the global scope again, for the
    /// host to evaluate on every exit path; nothing where no record was
    /// supplied.
    pub fn unload_param_list_from_lua_env(&self) -> (r: Option<String>)
        ensures
            match r {
                Some(chunk) => self.input_param_list matches Some(l) && chunk@ == unload_stmts(
                    kv_view(l@),
                ) + "return \"\""@,
                None => self.input_param_list is None,
            },
    {
        let entries = match &self.input_param_list {
            Some(l) => l,
            None => {
                return None;
            },
        };
        let ghost all = kv_view(entries@);
        let mut code = String::new();
        let mut i: usize = 0;
        proof {
            assert(all.skip(0) =~= all);
        }
        while i < entries.len()
            invariant
                i <= entries@.len(),
                all == kv_view(entries@),
                unload_stmts(all) == code@ + unload_stmts(all.skip(i as int)),
            decreases entries@.len() - i,
        {
            proof {
                assert(all.skip(i as int)[0] == all[i as int]);
                assert(all.skip(i as int).drop_first() =~= all.skip(i + 1));
            }
            let ghost pre = code@;
            code.append("rawset(_G, \"");
            code.append(entries[i].0.as_str());
            code.append("\", nil)\n");
            proof {
                assert(code@ + unload_stmts(all.skip(i + 1)) =~= pre + unload_stmts(
                    all.skip(i as int),
                ));
            }
            i += 1;
        }
        proof {
            assert(unload_stmts(all.skip(entries@.len() as int)) =~= Seq::<char>::empty());
            assert(code@ + unload_stmts(all.skip(entries@.len() as int)) =~= code@);
        }
        code.append("return \"\"");
        Some(code)
    }
}

/// How a function declaration's name relates to the compile-time marker.
#[derive(Debug)]
pub enum DeclKind {
    /// The whole name is the marker: the declaration is resolved.
    CompTime,
    /// The name has nothing to do with the marker.
    Plain,
}

/// Whether a declaration name is, as a whole, the compile-time marker:
/// case-insensitive, optionally globally qualified.
pub open spec fn is_comp_time_marker(n: Seq<char>) -> bool {
    text::upper_seq(n) == text::upper_seq("__LJP:COMP_TIME"@) || text::upper_seq(n)
        == text::upper_seq("_G.__LJP:COMP_TIME"@)
}

/// Classifies a declaration name against the reserved compile-time marker:
/// the marker as the whole name, case-insensitively and optionally
/// globally qualified, resolves; the marker anywhere else in the name is a
/// configuration error; anything else passes through.
pub fn classify_function_declaration(name_text: &str) -> (r: Result<DeclKind, PpError>)
    ensures
        match r {
            Result::Ok(DeclKind::CompTime) => is_comp_time_marker(name_text@),
            Result::Ok(DeclKind::Plain) => !is_comp_time_marker(name_text@)
                && !text::contains_seq(name_text@, "__LJP:COMP_TIME"@),
            Result::Err(e) => e matches PpError::MalformedMarker && !is_comp_time_marker(
                name_text@,
            ) && text::contains_seq(name_text@, "__LJP:COMP_TIME"@),
        },
{
    if text::eq_ignore_case(name_text, "__LJP:COMP_TIME") || text::eq_ignore_case(
        name_text,
        "_G.__LJP:COMP_TIME",
    ) {
        Result::Ok(DeclKind::CompTime)
    } else if text::contains_str(name_text, "__LJP:COMP_TIME") {
        Result::Err(PpError::MalformedMarker)
    } else {
        Result::Ok(DeclKind::Plain)
    }
}

/// The number of named formal parameters.
pub open spec fn num_name_params(ps: Seq<(Param, Option<Tok>)>) -> nat
    decreases ps.len(),
{
    if ps.len() == 0 {
        0
    } else {
        (match ps[0].0 {
            Param::Name(_) => 1nat,
            Param::Ellipsis(_) => 0nat,
        }) + num_name_params(ps.drop_first())
    }
}

/// Whether any formal parameter is an ellipsis.
pub open spec fn any_ellipsis_param(ps: Seq<(Param, Option<Tok>)>) -> bool
    decreases ps.len(),
{
    if ps.len() == 0 {
        false
    } else {
        (ps[0].0 matches Param::Ellipsis(_)) || any_ellipsis_param(ps.drop_first())
    }
}

/// The printed text of the first named parameter; nothing if none exists.
pub open spec fn first_name_param(ps: Seq<(Param, Option<Tok>)>) -> Seq<char>
    decreases ps.len(),
{
    if ps.len() == 0 {
        Seq::<char>::empty()
    } else {
        match ps[0].0 {
            Param::Name(t) => ser_tok(t),
            Param::Ellipsis(_) => first_name_param(ps.drop_first()),
        }
    }
}

/// What one compile-time resolution hands the evaluator: the label that
/// diagnostics carry, the parameter name (or its placeholder), and the
/// macro body as opaque interpreter source.
#[derive(Debug)]
pub struct CompTimePrep {
    pub label: String,
    pub param_name: String,
    pub chunk: String,
}

impl LuaTransformer {
    /// Checks a compile-time declaration and extracts what the evaluator
    /// needs. More than one formal parameter, or an ellipsis, fails fast
    /// here — before anything is evaluated.
    pub fn prepare_comp_time(&self, node: &FuncDecl) -> (r: Result<CompTimePrep, PpError>)
        ensures
            match r {
                Result::Ok(p) => {
                    &&& !any_ellipsis_param(node.body.params@)
                    &&& num_name_params(node.body.params@) <= 1
                    &&& p.param_name@ == (if num_name_params(node.body.params@) == 1 {
                        first_name_param(node.body.params@)
                    } else {
                        "[Anonymous]"@
                    })
                    &&& p.label@ == (match self.file_path {
                        Some(fp) => fp@,
                        None => Seq::<char>::empty(),
                    }) + " "@ + p.param_name@
                    &&& p.chunk@ == node.body.block_text@
                },
                Result::Err(PpError::EllipsisMacroParam) => any_ellipsis_param(node.body.params@),
                Result::Err(PpError::TooManyMacroParams { count }) => {
                    &&& !any_ellipsis_param(node.body.params@)
                    &&& count == num_name_params(node.body.params@)
                    &&& count > 1
                },
                Result::Err(_) => false,
            },
    {
        let ps = &node.body.params;
        let mut count: usize = 0;
        let mut param_name: Option<String> = None;
        let mut i: usize = 0;
        proof {
            assert(ps@.skip(0) =~= ps@);
        }
        while i < ps.len()
            invariant
                ps@ == node.body.params@,
                i <= ps@.len(),
                count == i,
                num_name_params(ps@) == count + num_name_params(ps@.skip(i as int)),
                any_ellipsis_param(ps@) == any_ellipsis_param(ps@.skip(i as int)),
                match param_name {
                    Some(n) => i > 0 && n@ == first_name_param(ps@),
                    None => i == 0,
                },
            decreases ps@.len() - i,
        {
            proof {
                assert(ps@.skip(i as int)[0] == ps@[i as int]);
                assert(ps@.skip(i as int).drop_first() =~= ps@.skip(i + 1));
            }
            match &ps[i].0 {
                Param::Ellipsis(_) => {
                    proof {
                        assert(any_ellipsis_param(ps@.skip(i as int)));
                    }
                    return Result::Err(PpError::EllipsisMacroParam);
                },
                Param::Name(t) => {
                    if param_name.is_none() {
                        proof {
                            assert(i == 0);
                            assert(first_name_param(ps@) == ser_tok(ps@[0].0->Name_0));
                        }
                        param_name = Some(tok_text(t));
                    }
                    count = count + 1;
                },
            }
            i += 1;
        }
        proof {
            assert(ps@.skip(ps@.len() as int) =~= Seq::<(Param, Option<Tok>)>::empty());
        }
        if count > 1 {
            return Result::Err(PpError::TooManyMacroParams { count });
        }
        let pname = match param_name {
            Some(n) => n,
            None => String::from_str("[Anonymous]"),
        };
        proof {
            reveal_strlit("[Anonymous]");
        }
        let mut label = match &self.file_path {
            Some(fp) => fp.clone(),
            None => String::new(),
        };
        label.append(" ");
        label.append(pname.as_str());
        Result::Ok(
            CompTimePrep { label, param_name: pname, chunk: node.body.block_text.clone() },
        )
    }

    /// Splices a resolved compile-time declaration: the evaluator's
    /// processed output lands immediately before the `function` keyword,
    /// and the original declaration stays in place between block-comment
    /// delimiters, visible but inert.
    pub fn splice_comp_time(node: FuncDecl, resolved: &str) -> (r: FuncDecl)
        ensures
            r.name_text == node.name_text,
            r.body.parens == node.body.parens,
            r.body.params == node.body.params,
            r.body.block_text == node.body.block_text,
            lead_tok(r.function_tok) == lead_tok(node.function_tok) + resolved@
                + " --[=====[ "@,
            body_tok(r.function_tok) == body_tok(node.function_tok),
            core_tok(r.body.end_tok) == core_tok(node.body.end_tok),
            trail_tok(r.body.end_tok) == " --]=====]"@ + trail_tok(node.body.end_tok),
            ser_func_decl(r) == lead_tok(node.function_tok) + resolved@ + " --[=====[ "@
                + body_tok(node.function_tok) + node.name_text@ + ser_tok(node.body.parens.first)
                + ser_params(node.body.params@) + ser_tok(node.body.parens.second)
                + node.body.block_text@ + core_tok(node.body.end_tok) + " --]=====]"@ + trail_tok(
                node.body.end_tok,
            ),
    {
        let FuncDecl { function_tok, name_text, body } = node;
        let function_tok = insert_before_token(
            insert_before_token(function_tok, resolved),
            " --[=====[ ",
        );
        let end_tok = insert_after_token(body.end_tok, " --]=====]");
        let r = FuncDecl {
            function_tok,
            name_text,
            body: crate::tree::FuncBody {
                parens: body.parens,
                params: body.params,
                block_text: body.block_text,
                end_tok,
            },
        };
        proof {
            assert(lead_tok(r.function_tok) =~= lead_tok(node.function_tok) + resolved@
                + " --[=====[ "@);
            assert(ser_func_decl(r) =~= lead_tok(node.function_tok) + resolved@ + " --[=====[ "@
                + body_tok(node.function_tok) + node.name_text@ + ser_tok(node.body.parens.first)
                + ser_params(node.body.params@) + ser_tok(node.body.parens.second)
                + node.body.block_text@ + core_tok(node.body.end_tok) + " --]=====]"@ + trail_tok(
                node.body.end_tok,
            ));
        }
        r
    }
}


/// Whether a qualified call name is one of the reserved include markers.
pub open spec fn is_include_marker(n: Seq<char>) -> bool {
    ||| text::upper_seq(n) == text::upper_seq("__LJP:INCLUDE"@)
    ||| text::upper_seq(n) == text::upper_seq("_G.__LJP:INCLUDE"@)
    ||| text::upper_seq(n) == text::upper_seq("__LJP:INCLUDE_NO_RETURN"@)
    ||| text::upper_seq(n) == text::upper_seq("_G.__LJP:INCLUDE_NO_RETURN"@)
}

/// Whether the marker asks for the included file's trailing return to be
/// stripped.
pub open spec fn is_no_return_marker(n: Seq<char>) -> bool {
    text::contains_seq(text::upper_seq(n), "NO_RETURN"@)
}

/// How one function call relates to the reserved include markers.
pub enum CallClass {
    /// The call reaches no reserved marker: it passes through unchanged.
    /// This covers every ordinary call, whatever its shape — a name that
    /// merely begins like the reserved namespace, or a call whose shape
    /// cannot be read as a qualified name at all, is no marker call.
    Plain,
    /// A reserved include call, with its qualified name and the raw text
    /// of its module-path argument.
    Include { no_return: bool, name: Seq<char>, arg: Seq<char> },
    /// A reserved include call whose argument count is not one: a fatal
    /// configuration error, with the offending count.
    MarkerBadArity { name: Seq<char>, count: nat },
}

/// Whether the call's prefix name asks for the qualified name to be read
/// at all: it starts with the reserved namespace, or with the global table
/// followed by the reserved namespace.
pub open spec fn starts_upper(s: Seq<char>, prefix: Seq<char>) -> bool {
    s.len() >= prefix.len() && text::upper_seq(s.take(prefix.len() as int)) == text::upper_seq(
        prefix,
    )
}

/// Whether the qualified name is probed on this call at all.
pub open spec fn call_probed(c: FuncCall) -> bool {
    match c.prefix {
        PrefixNode::Expr(_) => false,
        PrefixNode::Name(t) => {
            ||| starts_upper(t.text@, "__LJP"@)
            ||| (starts_upper(t.text@, "_G"@) && c.suffixes@.len() > 0 && match c.suffixes@[0] {
                Suffix::Idx(IndexSuffix::Dot { dot: _, name }) => text::upper_seq(name.text@)
                    == text::upper_seq("__LJP"@),
                _ => false,
            })
        },
    }
}

/// The classification `classify_function_call` reports: a call matching
/// neither marker is passed through, whatever its shape; only a genuine
/// marker call with a wrong argument count is fatal.
pub open spec fn classify_call_spec(c: FuncCall) -> CallClass {
    if !call_probed(c) {
        CallClass::Plain
    } else {
        match spec_func_call_name(c) {
            Result::Err(_) => CallClass::Plain,
            Result::Ok((name, arg_res)) => {
                if !is_include_marker(name) {
                    CallClass::Plain
                } else {
                    match arg_res {
                        Result::Err(n) => CallClass::MarkerBadArity { name, count: n },
                        Result::Ok(arg) => {
                            if arg.len() == 0 {
                                CallClass::Plain
                            } else {
                                CallClass::Include {
                                    no_return: is_no_return_marker(name),
                                    name,
                                    arg,
                                }
                            }
                        },
                    }
                }
            },
        }
    }
}

/// What `classify_function_call` hands back in executable form.
#[derive(Debug)]
pub enum CallKind {
    Plain,
    Include { no_return: bool, name: String, arg: String },
}

/// Recognizes a reserved include call: a call whose callee resolves,
/// directly or through the global table, to one of the two include
/// markers, with a single module-path argument. Every other call passes
/// through unchanged; a marker call with a wrong argument count fails
/// fast.
pub fn classify_function_call(node: &FuncCall) -> (r: Result<CallKind, PpError>)
    ensures
        match r {
            Result::Ok(CallKind::Plain) => classify_call_spec(*node) is Plain,
            Result::Ok(CallKind::Include { no_return, name, arg }) => classify_call_spec(*node)
                == (CallClass::Include { no_return, name: name@, arg: arg@ }),
            Result::Err(e) => e matches PpError::BadCallArity { name, count }
                && classify_call_spec(*node) == (CallClass::MarkerBadArity {
                name: name@,
                count: count as nat,
            }),
        },
{
    let prefix_tok = match &node.prefix {
        PrefixNode::Name(t) => t,
        PrefixNode::Expr(_) => {
            return Result::Ok(CallKind::Plain);
        },
    };
    let probed: bool;
    if text::starts_with_upper(prefix_tok.text.as_str(), "__LJP") {
        probed = true;
    } else if text::starts_with_upper(prefix_tok.text.as_str(), "_G") {
        if node.suffixes.len() == 0 {
            return Result::Ok(CallKind::Plain);
        }
        match &node.suffixes[0] {
            Suffix::Idx(IndexSuffix::Dot { dot: _, name }) => {
                if text::eq_ignore_case(name.text.as_str(), "__LJP") {
                    probed = true;
                } else {
                    return Result::Ok(CallKind::Plain);
                }
            },
            _ => {
                return Result::Ok(CallKind::Plain);
            },
        }
    } else {
        return Result::Ok(CallKind::Plain);
    }
    if !probed {
        return Result::Ok(CallKind::Plain);
    }
    let (name, arg) = match get_func_call_name(node) {
        Result::Ok(p) => p,
        Result::Err(PpError::BadCallArity { name, count }) => {
            let bad_is_marker = is_marker_name(name.as_str());
            if bad_is_marker {
                return Result::Err(PpError::BadCallArity { name, count });
            }
            return Result::Ok(CallKind::Plain);
        },
        Result::Err(_) => {
            return Result::Ok(CallKind::Plain);
        },
    };
    if !is_marker_name(name.as_str()) {
        return Result::Ok(CallKind::Plain);
    }
    if arg.as_str().unicode_len() == 0 {
        return Result::Ok(CallKind::Plain);
    }
    let upper_name = text::to_upper(name.as_str());
    let no_return = text::contains_str(upper_name.as_str(), "NO_RETURN");
    Result::Ok(CallKind::Include { no_return, name, arg })
}

/// Tests a qualified name against the four include markers.
fn is_marker_name(name: &str) -> (r: bool)
    ensures
        r == is_include_marker(name@),
{
    text::eq_ignore_case(name, "__LJP:INCLUDE") || text::eq_ignore_case(name, "_G.__LJP:INCLUDE")
        || text::eq_ignore_case(name, "__LJP:INCLUDE_NO_RETURN") || text::eq_ignore_case(
        name,
        "_G.__LJP:INCLUDE_NO_RETURN",
    )
}

/// The suffix shapes a resolved include call accepts: plain `.name`
/// accessors before one or more method calls.
pub open spec fn include_suffix_supported(s: Suffix) -> bool {
    match s {
        Suffix::Idx(IndexSuffix::Dot { .. }) => true,
        Suffix::Call(CallSuffix::Method { .. }) => true,
        _ => false,
    }
}

/// How one suffix of a resolved include call relates to its original: a
/// `.name` accessor stays as it is, and the call arguments gain the
/// closing block-comment delimiter immediately after their last token.
pub open spec fn include_suffix_spliced(s: Suffix, r: Suffix) -> bool {
    match (s, r) {
        (Suffix::Idx(IndexSuffix::Dot { .. }), _) => r == s,
        (
            Suffix::Call(
                CallSuffix::Method { colon, name, args: FuncArgs::Parens { parens, args_text, args_len } },
            ),
            Suffix::Call(
                CallSuffix::Method {
                    colon: colon2,
                    name: name2,
                    args: FuncArgs::Parens { parens: parens2, args_text: args_text2, args_len: args_len2 },
                },
            ),
        ) => {
            &&& colon2 == colon
            &&& name2 == name
            &&& parens2.first == parens.first
            &&& args_text2 == args_text
            &&& args_len2 == args_len
            &&& core_tok(parens2.second) == core_tok(parens.second)
            &&& trail_tok(parens2.second) == " --]=====]"@ + trail_tok(parens.second)
        },
        (
            Suffix::Call(CallSuffix::Method { colon, name, args: FuncArgs::Str(t) }),
            Suffix::Call(CallSuffix::Method { colon: colon2, name: name2, args: FuncArgs::Str(t2) }),
        ) => {
            &&& colon2 == colon
            &&& name2 == name
            &&& core_tok(t2) == core_tok(t)
            &&& trail_tok(t2) == " --]=====]"@ + trail_tok(t)
        },
        _ => false,
    }
}

/// Splices a resolved include: the processed included text lands
/// immediately before the callee token, and the original call site stays
/// in place between block-comment delimiters, around the callee and the
/// closing delimiter of the call arguments.
pub fn splice_include(node: FuncCall, text: &str) -> (r: Result<FuncCall, PpError>)
    requires
        node.prefix matches PrefixNode::Name(_),
    ensures
        match r {
            Result::Ok(rc) => {
                &&& match (node.prefix, rc.prefix) {
                    (PrefixNode::Name(t), PrefixNode::Name(t2)) => lead_tok(t2) == lead_tok(t)
                        + text@ + " --[=====[ "@ && body_tok(t2) == body_tok(t),
                    _ => false,
                }
                &&& rc.suffixes@.len() == node.suffixes@.len()
                &&& forall|i: int|
                    0 <= i < node.suffixes@.len() ==> include_suffix_spliced(
                        #[trigger] node.suffixes@[i],
                        rc.suffixes@[i],
                    )
            },
            Result::Err(e) => {
                &&& e matches PpError::UnsupportedShape
                &&& exists|i: int|
                    0 <= i < node.suffixes@.len() && !include_suffix_supported(
                        #[trigger] node.suffixes@[i],
                    )
            },
        },
{
    let FuncCall { prefix, suffixes } = node;
    let prefix_tok = match prefix {
        PrefixNode::Name(t) => t,
        PrefixNode::Expr(_) => unreached(),
    };
    let new_prefix = PrefixNode::Name(
        insert_before_token(insert_before_token(prefix_tok, text), " --[=====[ "),
    );
    let ghost orig = suffixes@;
    let mut remaining = suffixes;
    let mut out: Vec<Suffix> = Vec::new();
    proof {
        assert(orig.skip(0) =~= orig);
    }
    while remaining.len() > 0
        invariant
            orig == node.suffixes@,
            out@.len() + remaining@.len() == orig.len(),
            remaining@ == orig.skip(out@.len() as int),
            forall|j: int|
                0 <= j < out@.len() ==> include_suffix_spliced(#[trigger] orig[j], out@[j]),
        decreases remaining@.len(),
    {
        let ghost at = out@.len() as int;
        let s = remaining.remove(0);
        proof {
            assert(s == orig[at]);
            assert(remaining@ =~= orig.skip(at + 1));
        }
        let edited = match s {
            Suffix::Idx(IndexSuffix::Dot { dot, name }) => Suffix::Idx(
                IndexSuffix::Dot { dot, name },
            ),
            Suffix::Call(CallSuffix::Method { colon, name, args }) => {
                let new_args = match args {
                    FuncArgs::Parens { parens, args_text, args_len } => FuncArgs::Parens {
                        parens: insert_after_contained_span(parens, " --]=====]"),
                        args_text,
                        args_len,
                    },
                    FuncArgs::Str(t) => FuncArgs::Str(insert_after_token(t, " --]=====]")),
                };
                Suffix::Call(CallSuffix::Method { colon, name, args: new_args })
            },
            _ => {
                proof {
                    assert(!include_suffix_supported(orig[at]));
                }
                return Result::Err(PpError::UnsupportedShape);
            },
        };
        out.push(edited);
        proof {
            assert(include_suffix_spliced(orig[at], out@.last()));
        }
    }
    proof {
        assert(out@.len() == orig.len());
    }
    Result::Ok(FuncCall { prefix: new_prefix, suffixes: out })
}

/// Erases the final `return` of an included file: the keyword's text is
/// replaced by empty decoration and the returned expressions are dropped,
/// so inclusion for side effects leaves no dangling value.
pub struct LuaLastReturnRemover {}

impl LuaLastReturnRemover {
    pub fn new() -> LuaLastReturnRemover {
        LuaLastReturnRemover {  }
    }

    /// Rewrites a block's last statement. Anything but a `return` is a
    /// fatal mismatch: the remover is only ever applied to included files
    /// that end in one.
    pub fn visit_last_stmt(&self, node: LastStmtNode) -> (r: Result<LastStmtNode, PpError>)
        ensures
            match r {
                Result::Ok(rr) => {
                    &&& node matches LastStmtNode::Return { .. }
                    &&& match (node, rr) {
                        (
                            LastStmtNode::Return { ret_tok, exprs_text: _ },
                            LastStmtNode::Return { ret_tok: t2, exprs_text: e2 },
                        ) => {
                            &&& lead_tok(t2) == lead_tok(ret_tok)
                            &&& trail_tok(t2) == trail_tok(ret_tok)
                            &&& t2.text@ == Seq::<char>::empty()
                            &&& e2@ == Seq::<char>::empty()
                            &&& ser_last_stmt(rr) == lead_tok(ret_tok) + trail_tok(ret_tok)
                        },
                        _ => false,
                    }
                },
                Result::Err(e) => e matches PpError::MissingReturn && (node matches
                    LastStmtNode::Other(_)),
            },
    {
        match node {
            LastStmtNode::Return { ret_tok, exprs_text: _ } => {
                let rr = LastStmtNode::Return {
                    ret_tok: empty_token(ret_tok),
                    exprs_text: String::new(),
                };
                proof {
                    assert(ser_last_stmt(rr) =~= lead_tok(ret_tok) + trail_tok(ret_tok));
                }
                Result::Ok(rr)
            },
            LastStmtNode::Other(_) => Result::Err(PpError::MissingReturn),
        }
    }
}

} // verus!

