//! The token editor: pure edits that attach literal text to a syntactic
//! unit as trivia, immediately before its first leaf token or immediately
//! after its last one, without touching any other token and without
//! re-parsing anything.
//!
//! Contracts are stated over the serialization split at the edited end: a
//! token's text splits as `lead + body` (leading trivia, then the rest) and
//! as `core + trail` (everything, then trailing trivia); insertion before
//! extends the lead, insertion after prepends to the trail.

use vstd::prelude::*;
use vstd::string::StrSliceExecFns;
use vstd::string::StringExecFns;

use crate::errors::PpError;
use crate::tree::{
    body_tok, core_tok, lead_tok, lemma_tok_decompose, ser_expr, ser_fields, ser_prefix,
    ser_suffix, ser_suffixes, ser_tok, ser_trivia, ser_trivia_seq, ser_var, tok_text, trail_tok,
    CallSuffix,
    Contained, Expr, FuncArgs, FuncCall, IndexSuffix, PrefixNode, Suffix, Tok, Trivia, VarExpr,
    VarNode,
};

verus! {

broadcast use lemma_tok_decompose;

pub proof fn lemma_trivia_seq_push(s: Seq<Trivia>, t: Trivia)
    ensures
        ser_trivia_seq(s.push(t)) == ser_trivia_seq(s) + ser_trivia(t),
    decreases s.len(),
{
    if s.len() == 0 {
        assert(s.push(t)[0] == t);
        let rest = s.push(t).drop_first();
        assert(rest =~= Seq::<Trivia>::empty());
        assert(ser_trivia_seq(rest) == Seq::<char>::empty());
        assert(ser_trivia_seq(s.push(t)) == ser_trivia(t) + ser_trivia_seq(rest));
        assert(ser_trivia_seq(s.push(t)) =~= ser_trivia_seq(s) + ser_trivia(t));
    } else {
        lemma_trivia_seq_push(s.drop_first(), t);
        assert(s.push(t)[0] == s[0]);
        assert(s.push(t).drop_first() =~= s.drop_first().push(t));
        assert(ser_trivia_seq(s.push(t)) == ser_trivia(s[0]) + ser_trivia_seq(
            s.drop_first().push(t),
        ));
        assert(ser_trivia_seq(s.push(t)) =~= ser_trivia_seq(s) + ser_trivia(t));
    }
}

pub proof fn lemma_trivia_seq_cons(s: Seq<Trivia>, t: Trivia)
    ensures
        ser_trivia_seq(seq![t] + s) == ser_trivia(t) + ser_trivia_seq(s),
{
    assert((seq![t] + s)[0] == t);
    assert((seq![t] + s).drop_first() =~= s);
}

/// A structurally equal token whose text is empty; its trivia stays.
pub fn empty_token(t: Tok) -> (r: Tok)
    ensures
        lead_tok(r) == lead_tok(t),
        trail_tok(r) == trail_tok(t),
        r.text@ == Seq::<char>::empty(),
        ser_tok(r) == lead_tok(t) + trail_tok(t),
{
    let r = Tok { leading: t.leading, text: String::new(), trailing: t.trailing };
    proof {
        assert(ser_tok(r) =~= lead_tok(t) + trail_tok(t));
    }
    r
}

/// A structurally equal token carrying `text` instead of its own; its
/// trivia stays.
pub fn replace_token(t: Tok, text: &str) -> (r: Tok)
    ensures
        lead_tok(r) == lead_tok(t),
        trail_tok(r) == trail_tok(t),
        r.text@ == text@,
        ser_tok(r) == lead_tok(t) + text@ + trail_tok(t),
{
    let r = Tok { leading: t.leading, text: text.to_owned(), trailing: t.trailing };
    proof {
        assert(ser_tok(r) =~= lead_tok(t) + text@ + trail_tok(t));
    }
    r
}

/// The token with `text` appended to its leading trivia: the text prints
/// immediately before the token's own text, after any decoration it already
/// carried.
pub fn insert_before_token(t: Tok, text: &str) -> (r: Tok)
    ensures
        lead_tok(r) == lead_tok(t) + text@,
        body_tok(r) == body_tok(t),
        trail_tok(r) == trail_tok(t),
        r.text@ == t.text@,
        ser_tok(r) == lead_tok(t) + text@ + body_tok(t),
{
    let mut leading = t.leading;
    let ghost lead_pre = leading@;
    leading.push(Trivia::Text(text.to_owned()));
    let r = Tok { leading, text: t.text, trailing: t.trailing };
    proof {
        lemma_trivia_seq_push(lead_pre, r.leading@.last());
        assert(lead_pre.push(r.leading@.last()) =~= r.leading@);
        assert(lead_tok(r) =~= lead_tok(t) + text@);
        assert(ser_tok(r) =~= lead_tok(t) + text@ + body_tok(t));
    }
    r
}

/// The token with `text` prepended to its trailing trivia: the text prints
/// immediately after the token's own text, before any decoration it already
/// carried.
pub fn insert_after_token(t: Tok, text: &str) -> (r: Tok)
    ensures
        core_tok(r) == core_tok(t),
        lead_tok(r) == lead_tok(t),
        trail_tok(r) == text@ + trail_tok(t),
        r.text@ == t.text@,
        ser_tok(r) == core_tok(t) + text@ + trail_tok(t),
{
    let mut trailing = t.trailing;
    let ghost trail_pre = trailing@;
    trailing.insert(0, Trivia::Text(text.to_owned()));
    let r = Tok { leading: t.leading, text: t.text, trailing };
    proof {
        assert(r.trailing@ =~= seq![r.trailing@[0]] + trail_pre);
        lemma_trivia_seq_cons(trail_pre, r.trailing@[0]);
        assert(trail_tok(r) =~= text@ + trail_tok(t));
        assert(ser_tok(r) =~= core_tok(t) + text@ + trail_tok(t));
    }
    r
}

/// The token with `left` appended to its leading trivia and `right`
/// prepended to its trailing trivia.
pub fn surround_token(t: Tok, left: &str, right: &str) -> (r: Tok)
    ensures
        lead_tok(r) == lead_tok(t) + left@,
        trail_tok(r) == right@ + trail_tok(t),
        r.text@ == t.text@,
        ser_tok(r) == lead_tok(t) + left@ + t.text@ + right@ + trail_tok(t),
{
    let r = insert_after_token(insert_before_token(t, left), right);
    proof {
        assert(core_tok(r) =~= lead_tok(r) + r.text@);
        assert(ser_tok(r) =~= lead_tok(t) + left@ + t.text@ + right@ + trail_tok(t));
    }
    r
}

/// A token with no text and no trivia; it prints as nothing.
pub fn create_empty_token_ref() -> (r: Tok)
    ensures
        ser_tok(r) == Seq::<char>::empty(),
        lead_tok(r) == Seq::<char>::empty(),
        trail_tok(r) == Seq::<char>::empty(),
        r.text@ == Seq::<char>::empty(),
{
    let r = Tok { leading: Vec::new(), text: String::new(), trailing: Vec::new() };
    proof {
        assert(ser_tok(r) =~= Seq::<char>::empty());
    }
    r
}

/// A delimiter pair with both tokens' texts emptied; all trivia stays.
pub fn empty_contained_span(cs: Contained) -> (r: Contained)
    ensures
        ser_tok(r.first) == lead_tok(cs.first) + trail_tok(cs.first),
        ser_tok(r.second) == lead_tok(cs.second) + trail_tok(cs.second),
{
    Contained { first: empty_token(cs.first), second: empty_token(cs.second) }
}

/// The pair with `text` inserted immediately after its closing token.
pub fn insert_after_contained_span(cs: Contained, text: &str) -> (r: Contained)
    ensures
        r.first == cs.first,
        core_tok(r.second) == core_tok(cs.second),
        trail_tok(r.second) == text@ + trail_tok(cs.second),
{
    Contained { first: cs.first, second: insert_after_token(cs.second, text) }
}

/// The pair with `text` inserted immediately before its opening token.
pub fn insert_before_contained_span(cs: Contained, text: &str) -> (r: Contained)
    ensures
        r.second == cs.second,
        lead_tok(r.first) == lead_tok(cs.first) + text@,
        body_tok(r.first) == body_tok(cs.first),
{
    Contained { first: insert_before_token(cs.first, text), second: cs.second }
}

/// A one-element punctuated list holding the token, with no separator.
pub fn create_punc(t: Tok) -> (r: Vec<(Tok, Option<Tok>)>)
    ensures
        r@.len() == 1,
        r@[0].0 == t,
        r@[0].1 is None,
{
    let mut v: Vec<(Tok, Option<Tok>)> = Vec::new();
    v.push((t, None));
    v
}

/// The expression shapes insertion-before recurses through: the text lands
/// on the syntactically first leaf token.
pub open spec fn before_supported(e: Expr) -> bool
    decreases e,
{
    match e {
        Expr::Num(_) => true,
        Expr::Binary { lhs, .. } => before_supported(*lhs),
        Expr::Paren { .. } => true,
        _ => false,
    }
}

/// The first leaf token's leading trivia of a before-supported expression.
pub open spec fn lead_expr(e: Expr) -> Seq<char>
    decreases e,
{
    match e {
        Expr::Num(t) => lead_tok(t),
        Expr::Binary { lhs, .. } => lead_expr(*lhs),
        Expr::Paren { parens, .. } => lead_tok(parens.first),
        _ => Seq::<char>::empty(),
    }
}

/// A before-supported expression without its first leaf's leading trivia.
pub open spec fn body_expr(e: Expr) -> Seq<char>
    decreases e,
{
    match e {
        Expr::Num(t) => body_tok(t),
        Expr::Binary { lhs, op, rhs } => body_expr(*lhs) + ser_tok(op) + ser_expr(*rhs),
        Expr::Paren { parens, inner } => body_tok(parens.first) + ser_expr(*inner) + ser_tok(
            parens.second,
        ),
        _ => Seq::<char>::empty(),
    }
}

pub proof fn lemma_before_decompose(e: Expr)
    requires
        before_supported(e),
    ensures
        ser_expr(e) == lead_expr(e) + body_expr(e),
    decreases e,
{
    match e {
        Expr::Num(t) => {
            assert(ser_expr(e) =~= lead_expr(e) + body_expr(e));
        },
        Expr::Binary { lhs, op, rhs } => {
            lemma_before_decompose(*lhs);
            assert(ser_expr(e) =~= lead_expr(e) + body_expr(e));
        },
        Expr::Paren { parens, inner } => {
            assert(ser_expr(e) =~= lead_expr(e) + body_expr(e));
        },
        _ => {},
    }
}

/// Everything of a call-argument list up to its last token's trailing
/// trivia.
pub open spec fn core_args(a: FuncArgs) -> Seq<char> {
    match a {
        FuncArgs::Parens { parens, args_text, args_len: _ } => ser_tok(parens.first) + args_text@
            + core_tok(parens.second),
        FuncArgs::Str(t) => core_tok(t),
    }
}

/// The last token's trailing trivia of a call-argument list.
pub open spec fn trail_args(a: FuncArgs) -> Seq<char> {
    match a {
        FuncArgs::Parens { parens, .. } => trail_tok(parens.second),
        FuncArgs::Str(t) => trail_tok(t),
    }
}

/// Everything of a suffix up to its last token's trailing trivia.
pub open spec fn core_suffix(s: Suffix) -> Seq<char> {
    match s {
        Suffix::Idx(IndexSuffix::Dot { dot, name }) => ser_tok(dot) + core_tok(name),
        Suffix::Idx(IndexSuffix::Brackets { brackets, inner }) => ser_tok(brackets.first)
            + ser_expr(*inner) + core_tok(brackets.second),
        Suffix::Call(CallSuffix::Method { colon, name, args }) => ser_tok(colon) + ser_tok(name)
            + core_args(args),
        Suffix::Call(CallSuffix::Anonymous(a)) => core_args(a),
    }
}

/// The last token's trailing trivia of a suffix.
pub open spec fn trail_suffix(s: Suffix) -> Seq<char> {
    match s {
        Suffix::Idx(IndexSuffix::Dot { name, .. }) => trail_tok(name),
        Suffix::Idx(IndexSuffix::Brackets { brackets, .. }) => trail_tok(brackets.second),
        Suffix::Call(CallSuffix::Method { args, .. }) => trail_args(args),
        Suffix::Call(CallSuffix::Anonymous(a)) => trail_args(a),
    }
}

pub proof fn lemma_suffix_decompose(s: Suffix)
    ensures
        ser_suffix(s) == core_suffix(s) + trail_suffix(s),
{
    assert(ser_suffix(s) =~= core_suffix(s) + trail_suffix(s));
}

pub proof fn lemma_ser_suffixes_last(s: Seq<Suffix>)
    requires
        s.len() > 0,
    ensures
        ser_suffixes(s) == ser_suffixes(s.drop_last()) + ser_suffix(s.last()),
    decreases s.len(),
{
    if s.len() == 1 {
        assert(s.drop_last() =~= Seq::<Suffix>::empty());
        assert(s.drop_first() =~= Seq::<Suffix>::empty());
        assert(ser_suffixes(s) =~= ser_suffixes(s.drop_last()) + ser_suffix(s.last()));
    } else {
        lemma_ser_suffixes_last(s.drop_first());
        assert(s.drop_first().drop_last() =~= s.drop_last().drop_first());
        assert(s.drop_first().last() == s.last());
        assert(s.drop_last()[0] == s[0]);
        assert(ser_suffixes(s.drop_last()) == ser_suffix(s[0]) + ser_suffixes(
            s.drop_last().drop_first(),
        ));
        assert(ser_suffixes(s) =~= ser_suffixes(s.drop_last()) + ser_suffix(s.last()));
    }
}

/// The last suffix shapes insertion-after accepts on a variable expression.
pub open spec fn var_after_supported(ve: VarExpr) -> bool {
    ve.suffixes@.len() > 0 && (ve.suffixes@.last() matches Suffix::Idx(_))
}

/// The last suffix shapes insertion-after accepts on a function call.
pub open spec fn call_after_supported(c: FuncCall) -> bool {
    c.suffixes@.len() > 0 && (match c.suffixes@.last() {
        Suffix::Idx(IndexSuffix::Dot { .. }) => true,
        Suffix::Call(CallSuffix::Method { args: FuncArgs::Parens { .. }, .. }) => true,
        Suffix::Call(CallSuffix::Anonymous(_)) => true,
        _ => false,
    })
}

/// The expression shapes insertion-after recurses through: the text lands
/// on the syntactically last leaf token.
pub open spec fn after_supported(e: Expr) -> bool
    decreases e,
{
    match e {
        Expr::Num(_) => true,
        Expr::Str(_) => true,
        Expr::Binary { rhs, .. } => after_supported(*rhs),
        Expr::Var(VarNode::Name(_)) => true,
        Expr::Var(VarNode::Var(ve)) => var_after_supported(*ve),
        Expr::Table { .. } => true,
        Expr::Paren { .. } => true,
        Expr::Call(c) => call_after_supported(c),
        _ => false,
    }
}

/// Everything of an after-supported expression up to its last leaf token's
/// trailing trivia.
pub open spec fn core_expr(e: Expr) -> Seq<char>
    decreases e,
{
    match e {
        Expr::Num(t) => core_tok(t),
        Expr::Str(t) => core_tok(t),
        Expr::Binary { lhs, op, rhs } => ser_expr(*lhs) + ser_tok(op) + core_expr(*rhs),
        Expr::Var(VarNode::Name(t)) => core_tok(t),
        Expr::Var(VarNode::Var(ve)) => ser_prefix(ve.prefix) + ser_suffixes(
            ve.suffixes@.drop_last(),
        ) + core_suffix(ve.suffixes@.last()),
        Expr::Table { braces, fields } => ser_tok(braces.first) + ser_fields(fields@) + core_tok(
            braces.second,
        ),
        Expr::Paren { parens, inner } => ser_tok(parens.first) + ser_expr(*inner) + core_tok(
            parens.second,
        ),
        Expr::Call(c) => ser_prefix(c.prefix) + ser_suffixes(c.suffixes@.drop_last())
            + core_suffix(c.suffixes@.last()),
        _ => Seq::<char>::empty(),
    }
}

/// The last leaf token's trailing trivia of an after-supported expression.
pub open spec fn trail_expr(e: Expr) -> Seq<char>
    decreases e,
{
    match e {
        Expr::Num(t) => trail_tok(t),
        Expr::Str(t) => trail_tok(t),
        Expr::Binary { rhs, .. } => trail_expr(*rhs),
        Expr::Var(VarNode::Name(t)) => trail_tok(t),
        Expr::Var(VarNode::Var(ve)) => trail_suffix(ve.suffixes@.last()),
        Expr::Table { braces, .. } => trail_tok(braces.second),
        Expr::Paren { parens, .. } => trail_tok(parens.second),
        Expr::Call(c) => trail_suffix(c.suffixes@.last()),
        _ => Seq::<char>::empty(),
    }
}

pub proof fn lemma_after_decompose(e: Expr)
    requires
        after_supported(e),
    ensures
        ser_expr(e) == core_expr(e) + trail_expr(e),
    decreases e,
{
    match e {
        Expr::Binary { lhs, op, rhs } => {
            lemma_after_decompose(*rhs);
            assert(ser_expr(e) =~= core_expr(e) + trail_expr(e));
        },
        Expr::Var(VarNode::Var(ve)) => {
            lemma_ser_suffixes_last(ve.suffixes@);
            lemma_suffix_decompose(ve.suffixes@.last());
            assert(ser_expr(e) == ser_var(VarNode::Var(ve)));
            assert(ser_var(VarNode::Var(ve)) == ser_prefix(ve.prefix) + ser_suffixes(
                ve.suffixes@,
            ));
            assert(core_expr(e) == ser_prefix(ve.prefix) + ser_suffixes(ve.suffixes@.drop_last())
                + core_suffix(ve.suffixes@.last()));
            assert(trail_expr(e) == trail_suffix(ve.suffixes@.last()));
            let p = ser_prefix(ve.prefix);
            let s1 = ser_suffixes(ve.suffixes@.drop_last());
            let cc = core_suffix(ve.suffixes@.last());
            let tt = trail_suffix(ve.suffixes@.last());
            assert(ser_suffixes(ve.suffixes@) == s1 + (cc + tt));
            assert(p + (s1 + (cc + tt)) =~= ((p + s1) + cc) + tt);
        },
        Expr::Call(c) => {
            lemma_ser_suffixes_last(c.suffixes@);
            lemma_suffix_decompose(c.suffixes@.last());
            assert(ser_expr(e) == ser_prefix(c.prefix) + ser_suffixes(c.suffixes@));
            assert(core_expr(e) == ser_prefix(c.prefix) + ser_suffixes(c.suffixes@.drop_last())
                + core_suffix(c.suffixes@.last()));
            assert(trail_expr(e) == trail_suffix(c.suffixes@.last()));
            let p = ser_prefix(c.prefix);
            let s1 = ser_suffixes(c.suffixes@.drop_last());
            let cc = core_suffix(c.suffixes@.last());
            let tt = trail_suffix(c.suffixes@.last());
            assert(ser_suffixes(c.suffixes@) == s1 + (cc + tt));
            assert(p + (s1 + (cc + tt)) =~= ((p + s1) + cc) + tt);
        },
        Expr::Num(t) => {
            assert(ser_expr(e) =~= core_expr(e) + trail_expr(e));
        },
        Expr::Str(t) => {
            assert(ser_expr(e) =~= core_expr(e) + trail_expr(e));
        },
        Expr::Var(VarNode::Name(t)) => {
            assert(ser_expr(e) == ser_var(VarNode::Name(t)));
            assert(ser_expr(e) =~= core_expr(e) + trail_expr(e));
        },
        Expr::Table { braces, fields } => {
            assert(ser_expr(e) =~= core_expr(e) + trail_expr(e));
        },
        Expr::Paren { parens, inner } => {
            assert(ser_expr(e) =~= core_expr(e) + trail_expr(e));
        },
        _ => {},
    }
}

/// Inserts `text` immediately before the expression's first leaf token.
pub fn insert_before_expr(e: Expr, text: &str) -> (r: Expr)
    requires
        before_supported(e),
    ensures
        lead_expr(r) == lead_expr(e) + text@,
        body_expr(r) == body_expr(e),
        before_supported(r),
        ser_expr(r) == lead_expr(e) + text@ + body_expr(e),
    decreases e,
{
    let r = match e {
        Expr::Num(t) => Expr::Num(insert_before_token(t, text)),
        Expr::Binary { lhs, op, rhs } => Expr::Binary {
            lhs: Box::new(insert_before_expr(*lhs, text)),
            op,
            rhs,
        },
        Expr::Paren { parens, inner } => Expr::Paren {
            parens: insert_before_contained_span(parens, text),
            inner,
        },
        _ => unreached(),
    };
    proof {
        lemma_before_decompose(r);
        assert(body_expr(r) =~= body_expr(e));
        assert(ser_expr(r) =~= lead_expr(e) + text@ + body_expr(e));
    }
    r
}

/// Inserts `text` immediately after the last token of a call-argument list.
pub fn insert_after_args(a: FuncArgs, text: &str) -> (r: FuncArgs)
    ensures
        core_args(r) == core_args(a),
        trail_args(r) == text@ + trail_args(a),
        (a matches FuncArgs::Parens { .. }) ==> (r matches FuncArgs::Parens { .. }),
        (a matches FuncArgs::Str(_)) ==> (r matches FuncArgs::Str(_)),
{
    let r = match a {
        FuncArgs::Parens { parens, args_text, args_len } => FuncArgs::Parens {
            parens: insert_after_contained_span(parens, text),
            args_text,
            args_len,
        },
        FuncArgs::Str(t) => FuncArgs::Str(insert_after_token(t, text)),
    };
    proof {
        assert(core_args(r) =~= core_args(a));
    }
    r
}

/// Inserts `text` immediately after the last token of a suffix.
pub fn insert_after_suffix(s: Suffix, text: &str) -> (r: Suffix)
    ensures
        core_suffix(r) == core_suffix(s),
        trail_suffix(r) == text@ + trail_suffix(s),
        (s matches Suffix::Idx(_)) ==> (r matches Suffix::Idx(_)),
        (s matches Suffix::Idx(IndexSuffix::Dot { .. })) ==> (r matches Suffix::Idx(
            IndexSuffix::Dot { .. },
        )),
        (s matches Suffix::Call(CallSuffix::Method { args: FuncArgs::Parens { .. }, .. })) ==> (
        r matches Suffix::Call(CallSuffix::Method { args: FuncArgs::Parens { .. }, .. })),
        (s matches Suffix::Call(CallSuffix::Anonymous(_))) ==> (r matches Suffix::Call(
            CallSuffix::Anonymous(_),
        )),
{
    let r = match s {
        Suffix::Idx(IndexSuffix::Dot { dot, name }) => Suffix::Idx(
            IndexSuffix::Dot { dot, name: insert_after_token(name, text) },
        ),
        Suffix::Idx(IndexSuffix::Brackets { brackets, inner }) => Suffix::Idx(
            IndexSuffix::Brackets { brackets: insert_after_contained_span(brackets, text), inner },
        ),
        Suffix::Call(CallSuffix::Method { colon, name, args }) => Suffix::Call(
            CallSuffix::Method { colon, name, args: insert_after_args(args, text) },
        ),
        Suffix::Call(CallSuffix::Anonymous(a)) => Suffix::Call(
            CallSuffix::Anonymous(insert_after_args(a, text)),
        ),
    };
    proof {
        assert(core_suffix(r) =~= core_suffix(s));
    }
    r
}

/// Replaces the last suffix by the same suffix with `text` inserted after
/// its last token.
fn edit_last_suffix(sufs: Vec<Suffix>, text: &str) -> (r: Vec<Suffix>)
    requires
        sufs@.len() > 0,
    ensures
        r@.len() == sufs@.len(),
        r@.drop_last() == sufs@.drop_last(),
        core_suffix(r@.last()) == core_suffix(sufs@.last()),
        trail_suffix(r@.last()) == text@ + trail_suffix(sufs@.last()),
        (sufs@.last() matches Suffix::Idx(_)) ==> (r@.last() matches Suffix::Idx(_)),
        (sufs@.last() matches Suffix::Idx(IndexSuffix::Dot { .. })) ==> (
        r@.last() matches Suffix::Idx(IndexSuffix::Dot { .. })),
        (sufs@.last() matches Suffix::Call(CallSuffix::Method {
            args: FuncArgs::Parens { .. },
            ..
        })) ==> (r@.last() matches Suffix::Call(CallSuffix::Method {
            args: FuncArgs::Parens { .. },
            ..
        })),
        (sufs@.last() matches Suffix::Call(CallSuffix::Anonymous(_))) ==> (
        r@.last() matches Suffix::Call(CallSuffix::Anonymous(_))),
{
    let ghost pre = sufs@;
    let mut sufs = sufs;
    let last = sufs.pop().unwrap();
    let edited = insert_after_suffix(last, text);
    sufs.push(edited);
    proof {
        assert(sufs@.drop_last() =~= pre.drop_last());
        assert(sufs@.last() == edited);
    }
    sufs
}

/// Inserts `text` immediately after the expression's last leaf token: after
/// a chained call it lands after the closing parenthesis, not after the
/// expression's outermost token.
pub fn insert_after_expr(e: Expr, text: &str) -> (r: Expr)
    requires
        after_supported(e),
    ensures
        core_expr(r) == core_expr(e),
        trail_expr(r) == text@ + trail_expr(e),
        after_supported(r),
        ser_expr(r) == core_expr(e) + text@ + trail_expr(e),
    decreases e,
{
    let r = match e {
        Expr::Num(t) => Expr::Num(insert_after_token(t, text)),
        Expr::Str(t) => Expr::Str(insert_after_token(t, text)),
        Expr::Binary { lhs, op, rhs } => Expr::Binary {
            lhs,
            op,
            rhs: Box::new(insert_after_expr(*rhs, text)),
        },
        Expr::Var(VarNode::Name(t)) => Expr::Var(VarNode::Name(insert_after_token(t, text))),
        Expr::Var(VarNode::Var(ve)) => {
            let VarExpr { prefix, suffixes } = *ve;
            let ghost sufs_pre = suffixes@;
            let suffixes = edit_last_suffix(suffixes, text);
            let r = Expr::Var(VarNode::Var(Box::new(VarExpr { prefix, suffixes })));
            proof {
                assert(core_expr(r) =~= core_expr(e));
            }
            r
        },
        Expr::Table { braces, fields } => Expr::Table {
            braces: insert_after_contained_span(braces, text),
            fields,
        },
        Expr::Paren { parens, inner } => Expr::Paren {
            parens: insert_after_contained_span(parens, text),
            inner,
        },
        Expr::Call(c) => {
            let FuncCall { prefix, suffixes } = c;
            let suffixes = edit_last_suffix(suffixes, text);
            let r = Expr::Call(FuncCall { prefix, suffixes });
            proof {
                assert(core_expr(r) =~= core_expr(e));
            }
            r
        },
        _ => unreached(),
    };
    proof {
        assert(core_expr(r) =~= core_expr(e));
        lemma_after_decompose(r);
        assert(ser_expr(r) =~= core_expr(e) + text@ + trail_expr(e));
    }
    r
}

/// Everything of a variable expression up to its last token's trailing
/// trivia.
pub open spec fn core_var_expr(ve: VarExpr) -> Seq<char> {
    ser_prefix(ve.prefix) + ser_suffixes(ve.suffixes@.drop_last()) + core_suffix(
        ve.suffixes@.last(),
    )
}

/// The last token's trailing trivia of a variable expression.
pub open spec fn trail_var_expr(ve: VarExpr) -> Seq<char> {
    trail_suffix(ve.suffixes@.last())
}

/// What a variable expression prints as.
pub open spec fn ser_var_expr(ve: VarExpr) -> Seq<char> {
    ser_prefix(ve.prefix) + ser_suffixes(ve.suffixes@)
}

/// Inserts `text` immediately after the last token of a variable
/// expression's final suffix.
pub fn insert_after_var_expr(ve: VarExpr, text: &str) -> (r: VarExpr)
    requires
        var_after_supported(ve),
    ensures
        core_var_expr(r) == core_var_expr(ve),
        trail_var_expr(r) == text@ + trail_var_expr(ve),
        ser_var_expr(r) == core_var_expr(ve) + text@ + trail_var_expr(ve),
        r.prefix == ve.prefix,
{
    let VarExpr { prefix, suffixes } = ve;
    let suffixes = edit_last_suffix(suffixes, text);
    let r = VarExpr { prefix, suffixes };
    proof {
        assert(core_var_expr(r) =~= core_var_expr(ve));
        lemma_ser_suffixes_last(r.suffixes@);
        lemma_suffix_decompose(r.suffixes@.last());
        assert(ser_var_expr(r) =~= core_var_expr(ve) + text@ + trail_var_expr(ve));
    }
    r
}

/// The variable shapes insertion-before accepts: a bare name, a named
/// prefix, or a before-supported prefix expression.
pub open spec fn var_before_supported(v: VarNode) -> bool {
    match v {
        VarNode::Name(_) => true,
        VarNode::Var(ve) => match ve.prefix {
            PrefixNode::Name(_) => true,
            PrefixNode::Expr(e) => before_supported(*e),
        },
    }
}

/// The first leaf token's leading trivia of a variable.
pub open spec fn lead_var(v: VarNode) -> Seq<char> {
    match v {
        VarNode::Name(t) => lead_tok(t),
        VarNode::Var(ve) => match ve.prefix {
            PrefixNode::Name(t) => lead_tok(t),
            PrefixNode::Expr(e) => lead_expr(*e),
        },
    }
}

/// A variable without its first leaf's leading trivia.
pub open spec fn body_var(v: VarNode) -> Seq<char> {
    match v {
        VarNode::Name(t) => body_tok(t),
        VarNode::Var(ve) => (match ve.prefix {
            PrefixNode::Name(t) => body_tok(t),
            PrefixNode::Expr(e) => body_expr(*e),
        }) + ser_suffixes(ve.suffixes@),
    }
}

/// Inserts `text` immediately before the first token of the first variable
/// of an assignment-target list; the other targets stay untouched.
pub fn insert_before_punc_var(vars: Vec<(VarNode, Option<Tok>)>, text: &str) -> (r: Vec<
    (VarNode, Option<Tok>),
>)
    requires
        vars@.len() > 0,
        var_before_supported(vars@[0].0),
    ensures
        r@.len() == vars@.len(),
        forall|i: int| 1 <= i < vars@.len() ==> r@[i] == vars@[i],
        r@[0].1 == vars@[0].1,
        lead_var(r@[0].0) == lead_var(vars@[0].0) + text@,
        body_var(r@[0].0) == body_var(vars@[0].0),
{
    let ghost pre = vars@;
    let mut vars = vars;
    let (v0, s0) = vars.remove(0);
    let edited = match v0 {
        VarNode::Name(t) => VarNode::Name(insert_before_token(t, text)),
        VarNode::Var(ve) => {
            let VarExpr { prefix, suffixes } = *ve;
            let new_prefix = match prefix {
                PrefixNode::Name(t) => PrefixNode::Name(insert_before_token(t, text)),
                PrefixNode::Expr(e) => PrefixNode::Expr(Box::new(insert_before_expr(*e, text))),
            };
            VarNode::Var(Box::new(VarExpr { prefix: new_prefix, suffixes }))
        },
    };
    vars.insert(0, (edited, s0));
    proof {
        assert(vars@.len() == pre.len());
        assert(forall|i: int| 1 <= i < pre.len() ==> vars@[i] == pre[i]);
        assert(body_var(vars@[0].0) =~= body_var(pre[0].0));
    }
    vars
}

/// Inserts `text` immediately after the last leaf token of the last
/// expression of an expression list; the other expressions stay untouched.
/// An empty list stays empty.
pub fn insert_after_punc_expr(exprs: Vec<(Expr, Option<Tok>)>, text: &str) -> (r: Vec<
    (Expr, Option<Tok>),
>)
    requires
        exprs@.len() > 0 ==> after_supported(exprs@.last().0),
    ensures
        r@.len() == exprs@.len(),
        forall|i: int| 0 <= i < exprs@.len() - 1 ==> r@[i] == exprs@[i],
        exprs@.len() > 0 ==> {
            &&& r@.last().1 == exprs@.last().1
            &&& core_expr(r@.last().0) == core_expr(exprs@.last().0)
            &&& trail_expr(r@.last().0) == text@ + trail_expr(exprs@.last().0)
        },
{
    if exprs.len() == 0 {
        return exprs;
    }
    let ghost pre = exprs@;
    let mut exprs = exprs;
    let (le, ls) = exprs.pop().unwrap();
    let edited = insert_after_expr(le, text);
    exprs.push((edited, ls));
    proof {
        assert(forall|i: int| 0 <= i < pre.len() - 1 ==> exprs@[i] == pre[i]);
    }
    exprs
}

/// The argument text one call suffix hands over: the raw text of a
/// single parenthesized argument, or a string literal with its trivia;
/// any other argument count is reported with that count.
pub open spec fn call_arg_of(a: FuncArgs) -> Result<Seq<char>, nat> {
    match a {
        FuncArgs::Parens { parens: _, args_text, args_len } => {
            if args_len == 1 {
                Result::Ok(args_text@)
            } else {
                Result::Err(args_len as nat)
            }
        },
        FuncArgs::Str(t) => Result::Ok(ser_tok(t)),
    }
}

/// Folds a call's suffixes into its qualified name and its argument
/// outcome: `.name` joins with a dot, `:name(args)` joins with a colon
/// and takes that call's argument outcome — a later call overwrites an
/// earlier one — and a suffix of any other shape makes the whole call
/// unreadable. The name is read even where an argument count is wrong,
/// so callers can tell a malformed reserved call from an ordinary one.
pub open spec fn call_name_fold(
    sufs: Seq<Suffix>,
    name: Seq<char>,
    arg: Result<Seq<char>, nat>,
) -> Result<(Seq<char>, Result<Seq<char>, nat>), ()>
    decreases sufs.len(),
{
    if sufs.len() == 0 {
        Result::Ok((name, arg))
    } else {
        match sufs[0] {
            Suffix::Idx(IndexSuffix::Dot { dot: _, name: n }) => call_name_fold(
                sufs.drop_first(),
                name + "."@ + n.text@,
                arg,
            ),
            Suffix::Call(CallSuffix::Method { colon: _, name: n, args }) => call_name_fold(
                sufs.drop_first(),
                name + ":"@ + n.text@,
                call_arg_of(args),
            ),
            _ => Result::Err(()),
        }
    }
}

/// A function call's qualified name and argument outcome, where its
/// shape supports reading them at all.
pub open spec fn spec_func_call_name(c: FuncCall) -> Result<
    (Seq<char>, Result<Seq<char>, nat>),
    (),
> {
    match c.prefix {
        PrefixNode::Name(t) => call_name_fold(
            c.suffixes@,
            t.text@,
            Result::Ok(Seq::<char>::empty()),
        ),
        PrefixNode::Expr(_) => Result::Err(()),
    }
}

/// Reads a call's qualified name (`a.b:c`) and the raw text of its single
/// argument. A shape outside the recognized ones is a fatal mismatch; an
/// argument count other than one reports the count together with the
/// fully read name.
pub fn get_func_call_name(c: &FuncCall) -> (r: Result<(String, String), PpError>)
    requires
        c.prefix matches PrefixNode::Name(_),
    ensures
        match r {
            Result::Ok(p) => spec_func_call_name(*c) == Result::<
                (Seq<char>, Result<Seq<char>, nat>),
                (),
            >::Ok((p.0@, Result::Ok(p.1@))),
            Result::Err(PpError::BadCallArity { name, count }) => spec_func_call_name(*c)
                matches Result::Ok((nm, Result::Err(n))) && nm == name@ && n == count as nat,
            Result::Err(PpError::UnsupportedShape) => spec_func_call_name(*c) is Err,
            Result::Err(_) => false,
        },
{
    let mut name: String = match &c.prefix {
        PrefixNode::Name(t) => t.text.clone(),
        PrefixNode::Expr(_) => unreached(),
    };
    let mut arg: String = String::new();
    let mut arg_bad: Option<usize> = None;
    let mut i: usize = 0;
    proof {
        assert(c.suffixes@.skip(0) =~= c.suffixes@);
    }
    while i < c.suffixes.len()
        invariant
            i <= c.suffixes@.len(),
            spec_func_call_name(*c) == call_name_fold(
                c.suffixes@.skip(i as int),
                name@,
                match arg_bad {
                    Some(n) => Result::<Seq<char>, nat>::Err(n as nat),
                    None => Result::<Seq<char>, nat>::Ok(arg@),
                },
            ),
        decreases c.suffixes@.len() - i,
    {
        proof {
            assert(c.suffixes@.skip(i as int)[0] == c.suffixes@[i as int]);
            assert(c.suffixes@.skip(i as int).drop_first() =~= c.suffixes@.skip(i + 1));
        }
        match &c.suffixes[i] {
            Suffix::Idx(IndexSuffix::Dot { dot: _, name: n }) => {
                name.append(".");
                name.append(n.text.as_str());
            },
            Suffix::Call(CallSuffix::Method { colon: _, name: n, args }) => {
                match args {
                    FuncArgs::Parens { parens: _, args_text, args_len } => {
                        if *args_len == 1 {
                            arg = args_text.clone();
                            arg_bad = None;
                        } else {
                            arg_bad = Some(*args_len);
                        }
                    },
                    FuncArgs::Str(t) => {
                        arg = tok_text(t);
                        arg_bad = None;
                    },
                }
                name.append(":");
                name.append(n.text.as_str());
            },
            _ => {
                return Result::Err(PpError::UnsupportedShape);
            },
        }
        i += 1;
    }
    proof {
        assert(c.suffixes@.skip(c.suffixes@.len() as int) =~= Seq::<Suffix>::empty());
    }
    match arg_bad {
        Some(count) => Result::Err(PpError::BadCallArity { name, count }),
        None => Result::Ok((name, arg)),
    }
}

} // verus!
