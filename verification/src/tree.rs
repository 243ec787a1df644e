//! The model syntax tree the preprocessor edits.
//!
//! Each token owns its text and two ordered lists of trivia: non-semantic
//! decoration (whitespace and comments) that serialization reproduces
//! verbatim. Injected text is carried as plain trivia, so arbitrarily large
//! generated source rides through the tree on an existing token without
//! changing the tree's structure. Shapes the resolver never edits are held
//! as opaque raw text, which serialization also reproduces verbatim.

use vstd::prelude::*;
use vstd::string::StrSliceExecFns;
use vstd::string::StringExecFns;

verus! {

/// One piece of trivia on a token.
#[derive(Debug, Clone)]
pub enum Trivia {
    /// Whitespace, or literal injected text.
    Text(String),
    /// A single-line comment; the text stands after `--`.
    Line(String),
    /// A multi-line comment `--[=*[ ... ]=*]` with `blocks` equals signs.
    Comment { blocks: usize, body: String },
}

/// A token: its leading trivia, its own text, its trailing trivia.
#[derive(Debug, Clone)]
pub struct Tok {
    pub leading: Vec<Trivia>,
    pub text: String,
    pub trailing: Vec<Trivia>,
}

/// A balanced delimiter pair, such as parentheses or braces.
#[derive(Debug, Clone)]
pub struct Contained {
    pub first: Tok,
    pub second: Tok,
}

/// A repetition of `=`, `blocks` many.
pub open spec fn eq_signs(blocks: nat) -> Seq<char>
    decreases blocks,
{
    if blocks == 0 {
        Seq::<char>::empty()
    } else {
        seq!['='] + eq_signs((blocks - 1) as nat)
    }
}

/// What one trivia piece prints as.
pub open spec fn ser_trivia(t: Trivia) -> Seq<char> {
    match t {
        Trivia::Text(s) => s@,
        Trivia::Line(s) => "--"@ + s@,
        Trivia::Comment { blocks, body } => "--["@ + eq_signs(blocks as nat) + "["@ + body@ + "]"@
            + eq_signs(blocks as nat) + "]"@,
    }
}

/// What a list of trivia prints as, in order.
pub open spec fn ser_trivia_seq(s: Seq<Trivia>) -> Seq<char>
    decreases s.len(),
{
    if s.len() == 0 {
        Seq::<char>::empty()
    } else {
        ser_trivia(s[0]) + ser_trivia_seq(s.drop_first())
    }
}

/// What a token prints as: leading trivia, text, trailing trivia.
pub open spec fn ser_tok(t: Tok) -> Seq<char> {
    ser_trivia_seq(t.leading@) + t.text@ + ser_trivia_seq(t.trailing@)
}

/// The leading trivia of a token, alone.
pub open spec fn lead_tok(t: Tok) -> Seq<char> {
    ser_trivia_seq(t.leading@)
}

/// A token without its leading trivia.
pub open spec fn body_tok(t: Tok) -> Seq<char> {
    t.text@ + ser_trivia_seq(t.trailing@)
}

/// A token without its trailing trivia.
pub open spec fn core_tok(t: Tok) -> Seq<char> {
    ser_trivia_seq(t.leading@) + t.text@
}

/// The trailing trivia of a token, alone.
pub open spec fn trail_tok(t: Tok) -> Seq<char> {
    ser_trivia_seq(t.trailing@)
}

pub broadcast proof fn lemma_tok_decompose(t: Tok)
    ensures
        #![trigger ser_tok(t)]
        ser_tok(t) == lead_tok(t) + body_tok(t) && ser_tok(t) == core_tok(t) + trail_tok(t),
{
    assert(ser_tok(t) =~= lead_tok(t) + body_tok(t));
    assert(ser_tok(t) =~= core_tok(t) + trail_tok(t));
}

/// The prefix of a variable or call expression.
#[derive(Debug)]
pub enum PrefixNode {
    Name(Tok),
    Expr(Box<Expr>),
}

/// A `.name` or `[expr]` accessor.
#[derive(Debug)]
pub enum IndexSuffix {
    Dot { dot: Tok, name: Tok },
    Brackets { brackets: Contained, inner: Box<Expr> },
}

/// The arguments of a call: a parenthesized list, carried as raw text with
/// its count, or a single string literal.
#[derive(Debug)]
pub enum FuncArgs {
    Parens { parens: Contained, args_text: String, args_len: usize },
    Str(Tok),
}

/// A call suffix: `:name(args)` or `(args)`.
#[derive(Debug)]
pub enum CallSuffix {
    Method { colon: Tok, name: Tok, args: FuncArgs },
    Anonymous(FuncArgs),
}

/// One suffix of a variable or call expression.
#[derive(Debug)]
pub enum Suffix {
    Idx(IndexSuffix),
    Call(CallSuffix),
}

/// A variable expression: a prefix followed by suffixes.
#[derive(Debug)]
pub struct VarExpr {
    pub prefix: PrefixNode,
    pub suffixes: Vec<Suffix>,
}

/// A variable: a bare name, or a prefixed expression.
#[derive(Debug)]
pub enum VarNode {
    Name(Tok),
    Var(Box<VarExpr>),
}

/// A function call: a prefix followed by suffixes, of which at least one is
/// a call.
#[derive(Debug)]
pub struct FuncCall {
    pub prefix: PrefixNode,
    pub suffixes: Vec<Suffix>,
}

/// One field of a table constructor.
#[derive(Debug)]
pub enum TableField {
    /// `key = value`.
    NameKey { key: Tok, eq: Tok, value: Box<Expr> },
    /// `[key] = value`, carried as raw text.
    ExprKey(Tok),
    /// A positional field, carried as raw text.
    Plain(Tok),
}

/// An expression, covering the shapes the token editor recognizes; anything
/// else is carried as opaque raw text.
#[derive(Debug)]
pub enum Expr {
    Num(Tok),
    Str(Tok),
    Sym(Tok),
    Binary { lhs: Box<Expr>, op: Tok, rhs: Box<Expr> },
    Paren { parens: Contained, inner: Box<Expr> },
    Table { braces: Contained, fields: Vec<(TableField, Option<Tok>)> },
    Call(FuncCall),
    Var(VarNode),
    Opaque(Tok),
}

pub open spec fn ser_opt_tok(t: Option<Tok>) -> Seq<char> {
    match t {
        Option::Some(tk) => ser_tok(tk),
        Option::None => Seq::<char>::empty(),
    }
}

pub open spec fn ser_expr(e: Expr) -> Seq<char>
    decreases e,
{
    match e {
        Expr::Num(t) => ser_tok(t),
        Expr::Str(t) => ser_tok(t),
        Expr::Sym(t) => ser_tok(t),
        Expr::Binary { lhs, op, rhs } => ser_expr(*lhs) + ser_tok(op) + ser_expr(*rhs),
        Expr::Paren { parens, inner } => ser_tok(parens.first) + ser_expr(*inner) + ser_tok(
            parens.second,
        ),
        Expr::Table { braces, fields } => ser_tok(braces.first) + ser_fields(fields@) + ser_tok(
            braces.second,
        ),
        Expr::Call(c) => ser_prefix(c.prefix) + ser_suffixes(c.suffixes@),
        Expr::Var(v) => ser_var(v),
        Expr::Opaque(t) => ser_tok(t),
    }
}

pub open spec fn ser_fields(fields: Seq<(TableField, Option<Tok>)>) -> Seq<char>
    decreases fields,
{
    if fields.len() == 0 {
        Seq::<char>::empty()
    } else {
        ser_field(fields[0].0) + ser_opt_tok(fields[0].1) + ser_fields(fields.drop_first())
    }
}

pub open spec fn ser_field(f: TableField) -> Seq<char>
    decreases f,
{
    match f {
        TableField::NameKey { key, eq, value } => ser_tok(key) + ser_tok(eq) + ser_expr(*value),
        TableField::ExprKey(t) => ser_tok(t),
        TableField::Plain(t) => ser_tok(t),
    }
}

pub open spec fn ser_prefix(p: PrefixNode) -> Seq<char>
    decreases p,
{
    match p {
        PrefixNode::Name(t) => ser_tok(t),
        PrefixNode::Expr(e) => ser_expr(*e),
    }
}

pub open spec fn ser_index(i: IndexSuffix) -> Seq<char>
    decreases i,
{
    match i {
        IndexSuffix::Dot { dot, name } => ser_tok(dot) + ser_tok(name),
        IndexSuffix::Brackets { brackets, inner } => ser_tok(brackets.first) + ser_expr(*inner)
            + ser_tok(brackets.second),
    }
}

pub open spec fn ser_args(a: FuncArgs) -> Seq<char>
    decreases a,
{
    match a {
        FuncArgs::Parens { parens, args_text, args_len: _ } => ser_tok(parens.first) + args_text@
            + ser_tok(parens.second),
        FuncArgs::Str(t) => ser_tok(t),
    }
}

pub open spec fn ser_call_suffix(c: CallSuffix) -> Seq<char>
    decreases c,
{
    match c {
        CallSuffix::Method { colon, name, args } => ser_tok(colon) + ser_tok(name) + ser_args(
            args,
        ),
        CallSuffix::Anonymous(a) => ser_args(a),
    }
}

pub open spec fn ser_suffix(s: Suffix) -> Seq<char>
    decreases s,
{
    match s {
        Suffix::Idx(i) => ser_index(i),
        Suffix::Call(c) => ser_call_suffix(c),
    }
}

pub open spec fn ser_suffixes(s: Seq<Suffix>) -> Seq<char>
    decreases s,
{
    if s.len() == 0 {
        Seq::<char>::empty()
    } else {
        ser_suffix(s[0]) + ser_suffixes(s.drop_first())
    }
}

pub open spec fn ser_var(v: VarNode) -> Seq<char>
    decreases v,
{
    match v {
        VarNode::Name(t) => ser_tok(t),
        VarNode::Var(ve) => ser_prefix(ve.prefix) + ser_suffixes(ve.suffixes@),
    }
}

/// A formal parameter of a function body.
#[derive(Debug, Clone)]
pub enum Param {
    Name(Tok),
    Ellipsis(Tok),
}

/// A function body: its parameter list between parentheses, its block as
/// opaque interpreter source, and the closing `end` keyword.
#[derive(Debug)]
pub struct FuncBody {
    pub parens: Contained,
    pub params: Vec<(Param, Option<Tok>)>,
    pub block_text: String,
    pub end_tok: Tok,
}

/// A function declaration: the `function` keyword, the declared name as raw
/// text, and the body.
#[derive(Debug)]
pub struct FuncDecl {
    pub function_tok: Tok,
    pub name_text: String,
    pub body: FuncBody,
}

pub open spec fn ser_param(p: Param) -> Seq<char> {
    match p {
        Param::Name(t) => ser_tok(t),
        Param::Ellipsis(t) => ser_tok(t),
    }
}

pub open spec fn ser_params(ps: Seq<(Param, Option<Tok>)>) -> Seq<char>
    decreases ps.len(),
{
    if ps.len() == 0 {
        Seq::<char>::empty()
    } else {
        ser_param(ps[0].0) + ser_opt_tok(ps[0].1) + ser_params(ps.drop_first())
    }
}

pub open spec fn ser_func_body(b: FuncBody) -> Seq<char> {
    ser_tok(b.parens.first) + ser_params(b.params@) + ser_tok(b.parens.second) + b.block_text@
        + ser_tok(b.end_tok)
}

pub open spec fn ser_func_decl(d: FuncDecl) -> Seq<char> {
    ser_tok(d.function_tok) + d.name_text@ + ser_func_body(d.body)
}

pub open spec fn ser_func_call(c: FuncCall) -> Seq<char> {
    ser_prefix(c.prefix) + ser_suffixes(c.suffixes@)
}

/// The last statement of a block.
#[derive(Debug, Clone)]
pub enum LastStmtNode {
    /// `return`, with everything it returns carried as raw text.
    Return { ret_tok: Tok, exprs_text: String },
    /// `break`, or another closing statement, carried as raw text.
    Other(Tok),
}

pub open spec fn ser_last_stmt(s: LastStmtNode) -> Seq<char> {
    match s {
        LastStmtNode::Return { ret_tok, exprs_text } => ser_tok(ret_tok) + exprs_text@,
        LastStmtNode::Other(t) => ser_tok(t),
    }
}

/// A `local` assignment: the keyword, the declared names, the `=` where one
/// stands, and the assigned expressions.
#[derive(Debug)]
pub struct LocalAssign {
    pub local_tok: Tok,
    pub names: Vec<(Tok, Option<Tok>)>,
    pub eq_tok: Option<Tok>,
    pub exprs: Vec<(Expr, Option<Tok>)>,
}

pub open spec fn ser_names(ns: Seq<(Tok, Option<Tok>)>) -> Seq<char>
    decreases ns.len(),
{
    if ns.len() == 0 {
        Seq::<char>::empty()
    } else {
        ser_tok(ns[0].0) + ser_opt_tok(ns[0].1) + ser_names(ns.drop_first())
    }
}

pub open spec fn ser_exprs(es: Seq<(Expr, Option<Tok>)>) -> Seq<char>
    decreases es,
{
    if es.len() == 0 {
        Seq::<char>::empty()
    } else {
        ser_expr(es[0].0) + ser_opt_tok(es[0].1) + ser_exprs(es.drop_first())
    }
}

pub open spec fn ser_local_assign(a: LocalAssign) -> Seq<char> {
    ser_tok(a.local_tok) + ser_names(a.names@) + ser_opt_tok(a.eq_tok) + ser_exprs(a.exprs@)
}

/// A statement, as far as the optimizer reads one: a `local` assignment, or
/// anything else as raw text.
#[derive(Debug)]
pub enum StmtNode {
    Local(LocalAssign),
    Other(Tok),
}

pub open spec fn ser_stmt(s: StmtNode) -> Seq<char> {
    match s {
        StmtNode::Local(a) => ser_local_assign(a),
        StmtNode::Other(t) => ser_tok(t),
    }
}

/// Writes `blocks` equals signs.
pub fn write_eq_signs(out: &mut String, blocks: usize)
    ensures
        final(out)@ == old(out)@ + eq_signs(blocks as nat),
{
    let mut i: usize = 0;
    proof {
        assert(old(out)@ + eq_signs(0) =~= old(out)@);
    }
    while i < blocks
        invariant
            i <= blocks,
            out@ == old(out)@ + eq_signs(i as nat),
        decreases blocks - i,
    {
        out.append("=");
        proof {
            reveal_strlit("=");
            lemma_eq_signs_push(i as nat);
            assert(out@ =~= old(out)@ + eq_signs((i + 1) as nat));
        }
        i += 1;
    }
}

proof fn lemma_eq_signs_push(n: nat)
    ensures
        eq_signs(n + 1) == eq_signs(n) + seq!['='],
    decreases n,
{
    if n == 0 {
        assert(eq_signs(1) =~= eq_signs(0) + seq!['=']);
    } else {
        lemma_eq_signs_push((n - 1) as nat);
        assert(eq_signs(n + 1) =~= eq_signs(n) + seq!['=']);
    }
}

/// Writes one trivia piece.
pub fn write_trivia(out: &mut String, t: &Trivia)
    ensures
        final(out)@ == old(out)@ + ser_trivia(*t),
{
    match t {
        Trivia::Text(s) => {
            out.append(s.as_str());
        },
        Trivia::Line(s) => {
            out.append("--");
            out.append(s.as_str());
            proof {
                assert(out@ =~= old(out)@ + ser_trivia(*t));
            }
        },
        Trivia::Comment { blocks, body } => {
            out.append("--[");
            write_eq_signs(out, *blocks);
            out.append("[");
            out.append(body.as_str());
            out.append("]");
            write_eq_signs(out, *blocks);
            out.append("]");
            proof {
                assert(out@ =~= old(out)@ + ser_trivia(*t));
            }
        },
    }
}

/// Writes a list of trivia, in order.
pub fn write_trivia_list(out: &mut String, ts: &Vec<Trivia>)
    ensures
        final(out)@ == old(out)@ + ser_trivia_seq(ts@),
{
    let mut i: usize = 0;
    proof {
        assert(ts@.skip(0) =~= ts@);
    }
    while i < ts.len()
        invariant
            i <= ts@.len(),
            old(out)@ + ser_trivia_seq(ts@) == out@ + ser_trivia_seq(ts@.skip(i as int)),
        decreases ts@.len() - i,
    {
        proof {
            assert(ts@.skip(i as int)[0] == ts@[i as int]);
            assert(ts@.skip(i as int).drop_first() =~= ts@.skip(i + 1));
        }
        let ghost pre = out@;
        write_trivia(out, &ts[i]);
        proof {
            assert(out@ + ser_trivia_seq(ts@.skip(i + 1)) =~= pre + ser_trivia_seq(
                ts@.skip(i as int),
            ));
        }
        i += 1;
    }
    proof {
        assert(ser_trivia_seq(ts@.skip(ts@.len() as int)) =~= Seq::<char>::empty());
        assert(out@ + ser_trivia_seq(ts@.skip(ts@.len() as int)) =~= out@);
    }
}

/// Writes a token: leading trivia, text, trailing trivia.
pub fn write_tok(out: &mut String, t: &Tok)
    ensures
        final(out)@ == old(out)@ + ser_tok(*t),
{
    write_trivia_list(out, &t.leading);
    out.append(t.text.as_str());
    write_trivia_list(out, &t.trailing);
    proof {
        assert(out@ =~= old(out)@ + ser_tok(*t));
    }
}

/// A token's full text, trivia included.
pub fn tok_text(t: &Tok) -> (r: String)
    ensures
        r@ == ser_tok(*t),
{
    let mut out = String::new();
    write_tok(&mut out, t);
    proof {
        assert(out@ =~= ser_tok(*t));
    }
    out
}

pub fn write_opt_tok(out: &mut String, t: &Option<Tok>)
    ensures
        final(out)@ == old(out)@ + ser_opt_tok(*t),
{
    match t {
        Option::Some(tk) => {
            write_tok(out, tk);
        },
        Option::None => {
            proof {
                assert(out@ =~= old(out)@ + ser_opt_tok(*t));
            }
        },
    }
}

pub fn write_expr(out: &mut String, e: &Expr)
    ensures
        final(out)@ == old(out)@ + ser_expr(*e),
    decreases e,
{
    match e {
        Expr::Num(t) => {
            write_tok(out, t);
        },
        Expr::Str(t) => {
            write_tok(out, t);
        },
        Expr::Sym(t) => {
            write_tok(out, t);
        },
        Expr::Binary { lhs, op, rhs } => {
            write_expr(out, lhs);
            write_tok(out, op);
            write_expr(out, rhs);
            proof {
                assert(out@ =~= old(out)@ + ser_expr(*e));
            }
        },
        Expr::Paren { parens, inner } => {
            write_tok(out, &parens.first);
            write_expr(out, inner);
            write_tok(out, &parens.second);
            proof {
                assert(out@ =~= old(out)@ + ser_expr(*e));
            }
        },
        Expr::Table { braces, fields } => {
            write_tok(out, &braces.first);
            write_fields(out, fields);
            write_tok(out, &braces.second);
            proof {
                assert(out@ =~= old(out)@ + ser_expr(*e));
            }
        },
        Expr::Call(c) => {
            write_prefix(out, &c.prefix);
            write_suffixes(out, &c.suffixes);
            proof {
                assert(out@ =~= old(out)@ + ser_expr(*e));
            }
        },
        Expr::Var(v) => {
            write_var(out, v);
        },
        Expr::Opaque(t) => {
            write_tok(out, t);
        },
    }
}

pub fn write_fields(out: &mut String, fields: &Vec<(TableField, Option<Tok>)>)
    ensures
        final(out)@ == old(out)@ + ser_fields(fields@),
    decreases fields,
{
    let mut i: usize = 0;
    proof {
        assert(fields@.skip(0) =~= fields@);
    }
    while i < fields.len()
        invariant
            i <= fields@.len(),
            old(out)@ + ser_fields(fields@) == out@ + ser_fields(fields@.skip(i as int)),
        decreases fields@.len() - i,
    {
        proof {
            assert(fields@.skip(i as int)[0] == fields@[i as int]);
            assert(fields@.skip(i as int).drop_first() =~= fields@.skip(i + 1));
        }
        let ghost pre = out@;
        write_field(out, &fields[i].0);
        write_opt_tok(out, &fields[i].1);
        proof {
            assert(out@ + ser_fields(fields@.skip(i + 1)) =~= pre + ser_fields(
                fields@.skip(i as int),
            ));
        }
        i += 1;
    }
    proof {
        assert(ser_fields(fields@.skip(fields@.len() as int)) =~= Seq::<char>::empty());
        assert(out@ + ser_fields(fields@.skip(fields@.len() as int)) =~= out@);
    }
}

pub fn write_field(out: &mut String, f: &TableField)
    ensures
        final(out)@ == old(out)@ + ser_field(*f),
    decreases f,
{
    match f {
        TableField::NameKey { key, eq, value } => {
            write_tok(out, key);
            write_tok(out, eq);
            write_expr(out, value);
            proof {
                assert(out@ =~= old(out)@ + ser_field(*f));
            }
        },
        TableField::ExprKey(t) => {
            write_tok(out, t);
        },
        TableField::Plain(t) => {
            write_tok(out, t);
        },
    }
}

pub fn write_prefix(out: &mut String, p: &PrefixNode)
    ensures
        final(out)@ == old(out)@ + ser_prefix(*p),
    decreases p,
{
    match p {
        PrefixNode::Name(t) => {
            write_tok(out, t);
        },
        PrefixNode::Expr(e) => {
            write_expr(out, e);
        },
    }
}

pub fn write_args(out: &mut String, a: &FuncArgs)
    ensures
        final(out)@ == old(out)@ + ser_args(*a),
    decreases a,
{
    match a {
        FuncArgs::Parens { parens, args_text, args_len: _ } => {
            write_tok(out, &parens.first);
            out.append(args_text.as_str());
            write_tok(out, &parens.second);
            proof {
                assert(out@ =~= old(out)@ + ser_args(*a));
            }
        },
        FuncArgs::Str(t) => {
            write_tok(out, t);
        },
    }
}

pub fn write_suffix(out: &mut String, s: &Suffix)
    ensures
        final(out)@ == old(out)@ + ser_suffix(*s),
    decreases s,
{
    match s {
        Suffix::Idx(IndexSuffix::Dot { dot, name }) => {
            write_tok(out, dot);
            write_tok(out, name);
            proof {
                assert(out@ =~= old(out)@ + ser_suffix(*s));
            }
        },
        Suffix::Idx(IndexSuffix::Brackets { brackets, inner }) => {
            write_tok(out, &brackets.first);
            write_expr(out, inner);
            write_tok(out, &brackets.second);
            proof {
                assert(out@ =~= old(out)@ + ser_suffix(*s));
            }
        },
        Suffix::Call(CallSuffix::Method { colon, name, args }) => {
            write_tok(out, colon);
            write_tok(out, name);
            write_args(out, args);
            proof {
                assert(out@ =~= old(out)@ + ser_suffix(*s));
            }
        },
        Suffix::Call(CallSuffix::Anonymous(a)) => {
            write_args(out, a);
        },
    }
}

pub fn write_suffixes(out: &mut String, sufs: &Vec<Suffix>)
    ensures
        final(out)@ == old(out)@ + ser_suffixes(sufs@),
    decreases sufs,
{
    let mut i: usize = 0;
    proof {
        assert(sufs@.skip(0) =~= sufs@);
    }
    while i < sufs.len()
        invariant
            i <= sufs@.len(),
            old(out)@ + ser_suffixes(sufs@) == out@ + ser_suffixes(sufs@.skip(i as int)),
        decreases sufs@.len() - i,
    {
        proof {
            assert(sufs@.skip(i as int)[0] == sufs@[i as int]);
            assert(sufs@.skip(i as int).drop_first() =~= sufs@.skip(i + 1));
        }
        let ghost pre = out@;
        write_suffix(out, &sufs[i]);
        proof {
            assert(out@ + ser_suffixes(sufs@.skip(i + 1)) =~= pre + ser_suffixes(
                sufs@.skip(i as int),
            ));
        }
        i += 1;
    }
    proof {
        assert(ser_suffixes(sufs@.skip(sufs@.len() as int)) =~= Seq::<char>::empty());
        assert(out@ + ser_suffixes(sufs@.skip(sufs@.len() as int)) =~= out@);
    }
}

pub fn write_var(out: &mut String, v: &VarNode)
    ensures
        final(out)@ == old(out)@ + ser_var(*v),
    decreases v,
{
    match v {
        VarNode::Name(t) => {
            write_tok(out, t);
        },
        VarNode::Var(ve) => {
            write_prefix(out, &ve.prefix);
            write_suffixes(out, &ve.suffixes);
            proof {
                assert(out@ =~= old(out)@ + ser_var(*v));
            }
        },
    }
}

/// An expression's full text, trivia included.
pub fn expr_text(e: &Expr) -> (r: String)
    ensures
        r@ == ser_expr(*e),
{
    let mut out = String::new();
    write_expr(&mut out, e);
    proof {
        assert(out@ =~= ser_expr(*e));
    }
    out
}

/// A function declaration's full text.
pub fn func_decl_text(d: &FuncDecl) -> (r: String)
    ensures
        r@ == ser_func_decl(*d),
{
    let mut out = String::new();
    write_tok(&mut out, &d.function_tok);
    out.append(d.name_text.as_str());
    write_tok(&mut out, &d.body.parens.first);
    let mut i: usize = 0;
    proof {
        assert(d.body.params@.skip(0) =~= d.body.params@);
    }
    while i < d.body.params.len()
        invariant
            i <= d.body.params@.len(),
            out@ + ser_params(d.body.params@.skip(i as int)) == ser_tok(d.function_tok)
                + d.name_text@ + ser_tok(d.body.parens.first) + ser_params(d.body.params@),
        decreases d.body.params@.len() - i,
    {
        proof {
            assert(d.body.params@.skip(i as int)[0] == d.body.params@[i as int]);
            assert(d.body.params@.skip(i as int).drop_first() =~= d.body.params@.skip(i + 1));
        }
        let ghost pre = out@;
        match &d.body.params[i].0 {
            Param::Name(t) => write_tok(&mut out, t),
            Param::Ellipsis(t) => write_tok(&mut out, t),
        }
        write_opt_tok(&mut out, &d.body.params[i].1);
        proof {
            assert(out@ + ser_params(d.body.params@.skip(i + 1)) =~= pre + ser_params(
                d.body.params@.skip(i as int),
            ));
        }
        i += 1;
    }
    proof {
        assert(ser_params(d.body.params@.skip(d.body.params@.len() as int)) =~= Seq::<
            char,
        >::empty());
        assert(out@ + ser_params(d.body.params@.skip(d.body.params@.len() as int)) =~= out@);
    }
    write_tok(&mut out, &d.body.parens.second);
    out.append(d.body.block_text.as_str());
    write_tok(&mut out, &d.body.end_tok);
    proof {
        assert(out@ =~= ser_func_decl(*d));
    }
    out
}

/// A function call's full text.
pub fn func_call_text(c: &FuncCall) -> (r: String)
    ensures
        r@ == ser_func_call(*c),
{
    let mut out = String::new();
    write_prefix(&mut out, &c.prefix);
    write_suffixes(&mut out, &c.suffixes);
    proof {
        assert(out@ =~= ser_func_call(*c));
    }
    out
}

/// A last statement's full text.
pub fn last_stmt_text(s: &LastStmtNode) -> (r: String)
    ensures
        r@ == ser_last_stmt(*s),
{
    let mut out = String::new();
    match s {
        LastStmtNode::Return { ret_tok, exprs_text } => {
            write_tok(&mut out, ret_tok);
            out.append(exprs_text.as_str());
            proof {
                assert(out@ =~= ser_last_stmt(*s));
            }
        },
        LastStmtNode::Other(t) => {
            write_tok(&mut out, t);
            proof {
                assert(out@ =~= ser_last_stmt(*s));
            }
        },
    }
    out
}

/// A statement's full text.
pub fn stmt_text(s: &StmtNode) -> (r: String)
    ensures
        r@ == ser_stmt(*s),
{
    match s {
        StmtNode::Local(a) => local_assign_text(a),
        StmtNode::Other(t) => tok_text(t),
    }
}

/// A `local` assignment's full text.
pub fn local_assign_text(a: &LocalAssign) -> (r: String)
    ensures
        r@ == ser_local_assign(*a),
{
    let mut out = String::new();
    write_tok(&mut out, &a.local_tok);
    let mut i: usize = 0;
    proof {
        assert(a.names@.skip(0) =~= a.names@);
    }
    while i < a.names.len()
        invariant
            i <= a.names@.len(),
            out@ + ser_names(a.names@.skip(i as int)) == ser_tok(a.local_tok) + ser_names(
                a.names@,
            ),
        decreases a.names@.len() - i,
    {
        proof {
            assert(a.names@.skip(i as int)[0] == a.names@[i as int]);
            assert(a.names@.skip(i as int).drop_first() =~= a.names@.skip(i + 1));
        }
        let ghost pre = out@;
        write_tok(&mut out, &a.names[i].0);
        write_opt_tok(&mut out, &a.names[i].1);
        proof {
            assert(out@ + ser_names(a.names@.skip(i + 1)) =~= pre + ser_names(
                a.names@.skip(i as int),
            ));
        }
        i += 1;
    }
    proof {
        assert(ser_names(a.names@.skip(a.names@.len() as int)) =~= Seq::<char>::empty());
        assert(out@ + ser_names(a.names@.skip(a.names@.len() as int)) =~= out@);
    }
    write_opt_tok(&mut out, &a.eq_tok);
    let mut j: usize = 0;
    let ghost mid = out@;
    proof {
        assert(a.exprs@.skip(0) =~= a.exprs@);
    }
    while j < a.exprs.len()
        invariant
            j <= a.exprs@.len(),
            out@ + ser_exprs(a.exprs@.skip(j as int)) == mid + ser_exprs(a.exprs@),
        decreases a.exprs@.len() - j,
    {
        proof {
            assert(a.exprs@.skip(j as int)[0] == a.exprs@[j as int]);
            assert(a.exprs@.skip(j as int).drop_first() =~= a.exprs@.skip(j + 1));
        }
        let ghost pre = out@;
        write_expr(&mut out, &a.exprs[j].0);
        write_opt_tok(&mut out, &a.exprs[j].1);
        proof {
            assert(out@ + ser_exprs(a.exprs@.skip(j + 1)) =~= pre + ser_exprs(
                a.exprs@.skip(j as int),
            ));
        }
        j += 1;
    }
    proof {
        assert(ser_exprs(a.exprs@.skip(a.exprs@.len() as int)) =~= Seq::<char>::empty());
        assert(out@ + ser_exprs(a.exprs@.skip(a.exprs@.len() as int)) =~= out@);
        assert(out@ =~= ser_local_assign(*a));
    }
    out
}

} // verus!
