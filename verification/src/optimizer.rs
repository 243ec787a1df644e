//! The peephole optimizer: it collects `local` tables annotated as
//! compile-time enums and replaces later accesses to their keys by the
//! literal values, leaving the original access visible in a comment; and
//! it pins annotated locals as used so nothing removes them.

use vstd::prelude::*;
use vstd::string::StrSliceExecFns;
use vstd::string::StringExecFns;

use crate::errors::PpError;
use crate::params::kv_view;
use crate::text;
use crate::token_edit::{
    after_supported, core_expr, empty_token, insert_after_expr, replace_token, trail_expr,
};
use crate::tree::{
    lead_tok, trail_tok, CallSuffix, Expr, FuncArgs, IndexSuffix, LocalAssign, PrefixNode,
    StmtNode, Suffix, TableField, Tok, Trivia, VarExpr, VarNode,
};

verus! {

/// The optimizer's state: the compile-time enums seen so far, each name
/// bound to its key/value entries, later bindings shadowing earlier ones.
pub struct LuaOptimizer {
    pub enum_map: Option<Vec<(String, Vec<(String, String)>)>>,
}

impl LuaOptimizer {
    pub fn new() -> (r: LuaOptimizer)
        ensures
            r.enum_map is None,
    {
        LuaOptimizer { enum_map: None }
    }
}

/// The view of the collected enums.
pub open spec fn enum_map_view(m: Seq<(String, Vec<(String, String)>)>) -> Seq<
    (Seq<char>, Seq<(Seq<char>, Seq<char>)>),
> {
    m.map_values(|p: (String, Vec<(String, String)>)| (p.0@, kv_view(p.1@)))
}

/// The entries of the enum bound to `k`, under the latest binding.
pub open spec fn enum_lookup(
    m: Seq<(Seq<char>, Seq<(Seq<char>, Seq<char>)>)>,
    k: Seq<char>,
) -> Option<Seq<(Seq<char>, Seq<char>)>>
    decreases m.len(),
{
    if m.len() == 0 {
        None
    } else if m.last().0 == k {
        Some(m.last().1)
    } else {
        enum_lookup(m.drop_last(), k)
    }
}

/// The value bound to `k` among an enum's entries, latest entry first.
pub open spec fn entry_lookup(
    entries: Seq<(Seq<char>, Seq<char>)>,
    k: Seq<char>,
) -> Option<Seq<char>>
    decreases entries.len(),
{
    if entries.len() == 0 {
        None
    } else if entries.last().0 == k {
        Some(entries.last().1)
    } else {
        entry_lookup(entries.drop_last(), k)
    }
}

/// Whether one trivia piece is an optimizer annotation, and which.
pub open spec fn annot_body(t: Trivia) -> Option<Seq<char>> {
    match t {
        Trivia::Comment { blocks, body } => {
            if blocks == 0 && (body@ == "@comp_time_enum"@ || body@ == "@used"@) {
                Some(body@)
            } else {
                None
            }
        },
        _ => None,
    }
}

/// The annotation on a `local` keyword's trailing trivia; where several
/// stand, the last one wins.
pub open spec fn annotation_of(ts: Seq<Trivia>) -> Option<Seq<char>>
    decreases ts.len(),
{
    if ts.len() == 0 {
        None
    } else {
        match annot_body(ts.last()) {
            Some(b) => Some(b),
            None => annotation_of(ts.drop_last()),
        }
    }
}

/// Finds the annotation among a token's trailing trivia, last match
/// first.
fn find_annotation(ts: &Vec<Trivia>) -> (r: Option<String>)
    ensures
        match r {
            Some(b) => annotation_of(ts@) == Some(b@),
            None => annotation_of(ts@) is None,
        },
{
    let n = ts.len();
    let mut i: usize = n;
    proof {
        assert(ts@.take(n as int) =~= ts@);
    }
    while i > 0
        invariant
            i <= n,
            n == ts@.len(),
            annotation_of(ts@) == annotation_of(ts@.take(i as int)),
        decreases i,
    {
        i -= 1;
        proof {
            assert(ts@.take(i + 1).last() == ts@[i as int]);
            assert(ts@.take(i + 1).drop_last() =~= ts@.take(i as int));
        }
        match &ts[i] {
            Trivia::Comment { blocks, body } => {
                if *blocks == 0 && (text::str_eq(body.as_str(), "@comp_time_enum")
                    || text::str_eq(body.as_str(), "@used")) {
                    return Some(body.clone());
                }
            },
            _ => {},
        }
    }
    proof {
        assert(ts@.take(0) =~= Seq::<Trivia>::empty());
    }
    None
}

/// The key/value entries a compile-time enum's table declares: named keys
/// with number or string values count, positional fields and other value
/// shapes are passed over, and a computed key is a fatal mismatch.
pub open spec fn enum_entries(fields: Seq<(TableField, Option<Tok>)>) -> Result<
    Seq<(Seq<char>, Seq<char>)>,
    (),
>
    decreases fields.len(),
{
    if fields.len() == 0 {
        Result::Ok(Seq::<(Seq<char>, Seq<char>)>::empty())
    } else {
        let rest = enum_entries(fields.drop_first());
        match fields[0].0 {
            TableField::NameKey { key, eq: _, value } => match *value {
                Expr::Num(t) => match rest {
                    Result::Ok(rs) => Result::Ok(seq![(key.text@, t.text@)] + rs),
                    Result::Err(e) => Result::Err(e),
                },
                Expr::Str(t) => match rest {
                    Result::Ok(rs) => Result::Ok(seq![(key.text@, t.text@)] + rs),
                    Result::Err(e) => Result::Err(e),
                },
                _ => rest,
            },
            TableField::ExprKey(_) => Result::Err(()),
            TableField::Plain(_) => rest,
        }
    }
}

/// Collects a compile-time enum's entries from its table fields.
fn collect_enum_entries(fields: &Vec<(TableField, Option<Tok>)>) -> (r: Result<
    Vec<(String, String)>,
    PpError,
>)
    ensures
        match r {
            Result::Ok(v) => enum_entries(fields@) == Result::<Seq<(Seq<char>, Seq<char>)>,
                ()>::Ok(kv_view(v@)),
            Result::Err(e) => enum_entries(fields@) is Err && e matches
                PpError::UnsupportedShape,
        },
{
    let mut entries: Vec<(String, String)> = Vec::new();
    let mut j: usize = 0;
    proof {
        assert(fields@.skip(0) =~= fields@);
        assert(kv_view(entries@) =~= Seq::<(Seq<char>, Seq<char>)>::empty());
    }
    while j < fields.len()
        invariant
            j <= fields@.len(),
            enum_entries(fields@) == (match enum_entries(fields@.skip(j as int)) {
                Result::Ok(rs) => Result::<Seq<(Seq<char>, Seq<char>)>, ()>::Ok(
                    kv_view(entries@) + rs,
                ),
                Result::Err(e) => Result::<Seq<(Seq<char>, Seq<char>)>, ()>::Err(e),
            }),
        decreases fields@.len() - j,
    {
        proof {
            assert(fields@.skip(j as int)[0] == fields@[j as int]);
            assert(fields@.skip(j as int).drop_first() =~= fields@.skip(j + 1));
        }
        match &fields[j].0 {
            TableField::NameKey { key, eq: _, value } => {
                let ghost pre = kv_view(entries@);
                match &**value {
                    Expr::Num(t) => {
                        entries.push((key.text.clone(), t.text.clone()));
                        proof {
                            assert(kv_view(entries@) =~= pre + seq![(key.text@, t.text@)]);
                            assert(forall|rs: Seq<(Seq<char>, Seq<char>)>|
                                (pre + seq![(key.text@, t.text@)]) + rs =~= pre + (seq![
                                    (key.text@, t.text@)] + rs));
                        }
                    },
                    Expr::Str(t) => {
                        entries.push((key.text.clone(), t.text.clone()));
                        proof {
                            assert(kv_view(entries@) =~= pre + seq![(key.text@, t.text@)]);
                            assert(forall|rs: Seq<(Seq<char>, Seq<char>)>|
                                (pre + seq![(key.text@, t.text@)]) + rs =~= pre + (seq![
                                    (key.text@, t.text@)] + rs));
                        }
                    },
                    _ => {},
                }
            },
            TableField::ExprKey(_) => {
                return Result::Err(PpError::UnsupportedShape);
            },
            TableField::Plain(_) => {},
        }
        j += 1;
    }
    proof {
        assert(fields@.skip(fields@.len() as int) =~= Seq::<(TableField, Option<Tok>)>::empty());
        assert(kv_view(entries@) + Seq::<(Seq<char>, Seq<char>)>::empty() =~= kv_view(entries@));
    }
    Result::Ok(entries)
}

/// Whether insertion after the expression's last leaf is possible, by the
/// shapes the editor recognizes.
pub fn is_after_supported(e: &Expr) -> (r: bool)
    ensures
        r == after_supported(*e),
    decreases e,
{
    match e {
        Expr::Num(_) => true,
        Expr::Str(_) => true,
        Expr::Binary { lhs: _, op: _, rhs } => is_after_supported(rhs),
        Expr::Var(VarNode::Name(_)) => true,
        Expr::Var(VarNode::Var(ve)) => {
            if ve.suffixes.len() == 0 {
                false
            } else {
                proof {
                    assert(ve.suffixes@.last() == ve.suffixes@[ve.suffixes@.len() - 1]);
                }
                match &ve.suffixes[ve.suffixes.len() - 1] {
                    Suffix::Idx(_) => true,
                    _ => false,
                }
            }
        },
        Expr::Table { .. } => true,
        Expr::Paren { .. } => true,
        Expr::Call(c) => {
            if c.suffixes.len() == 0 {
                false
            } else {
                proof {
                    assert(c.suffixes@.last() == c.suffixes@[c.suffixes@.len() - 1]);
                }
                match &c.suffixes[c.suffixes.len() - 1] {
                    Suffix::Idx(IndexSuffix::Dot { .. }) => true,
                    Suffix::Call(CallSuffix::Method { args: FuncArgs::Parens { .. }, .. }) => true,
                    Suffix::Call(CallSuffix::Anonymous(_)) => true,
                    _ => false,
                }
            }
        },
        _ => false,
    }
}

impl LuaOptimizer {
    /// Visits one statement. A `local` assignment annotated as a
    /// compile-time enum records its table's entries under the declared
    /// name; one annotated as used gains a dummy use of the declared name
    /// immediately after its assigned expression. Anything else passes
    /// through unchanged.
    pub fn visit_stmt(&mut self, node: StmtNode) -> (r: Result<StmtNode, PpError>)
        ensures
            match node {
                StmtNode::Other(_) => r matches Result::Ok(rn) && rn == node && *final(self)
                    == *old(self),
                StmtNode::Local(a) => {
                    let ann = annotation_of(a.local_tok.trailing@);
                    let old_view = match old(self).enum_map {
                        Some(m) => enum_map_view(m@),
                        None => Seq::<(Seq<char>, Seq<(Seq<char>, Seq<char>)>)>::empty(),
                    };
                    if ann is None {
                        r matches Result::Ok(rn) && rn == node && *final(self) == *old(self)
                    } else if a.names@.len() != 1 || a.exprs@.len() != 1 {
                        r matches Result::Err(PpError::UnsupportedShape) && *final(self) == *old(
                            self,
                        )
                    } else if ann == Some("@comp_time_enum"@) {
                        match a.exprs@[0].0 {
                            Expr::Table { braces: _, fields } => match enum_entries(fields@) {
                                Result::Ok(entries) => {
                                    &&& r matches Result::Ok(rn) && rn == node
                                    &&& final(self).enum_map matches Some(m2) && enum_map_view(
                                        m2@,
                                    ) == old_view.push((a.names@[0].0.text@, entries))
                                },
                                Result::Err(_) => r matches Result::Err(
                                    PpError::UnsupportedShape,
                                ) && *final(self) == *old(self),
                            },
                            _ => r matches Result::Err(PpError::UnsupportedShape) && *final(self)
                                == *old(self),
                        }
                    } else {
                        if !after_supported(a.exprs@[0].0) {
                            r matches Result::Err(PpError::UnsupportedShape) && *final(self)
                                == *old(self)
                        } else {
                            &&& *final(self) == *old(self)
                            &&& match r {
                                Result::Ok(StmtNode::Local(a2)) => {
                                    &&& a2.local_tok == a.local_tok
                                    &&& a2.names == a.names
                                    &&& a2.eq_tok == a.eq_tok
                                    &&& a2.exprs@.len() == 1
                                    &&& a2.exprs@[0].1 is None
                                    &&& core_expr(a2.exprs@[0].0) == core_expr(a.exprs@[0].0)
                                    &&& trail_expr(a2.exprs@[0].0) == " _ = "@
                                        + a.names@[0].0.text@ + " "@ + trail_expr(a.exprs@[0].0)
                                },
                                _ => false,
                            }
                        }
                    }
                },
            },
    {
        let a = match node {
            StmtNode::Other(t) => {
                return Result::Ok(StmtNode::Other(t));
            },
            StmtNode::Local(a) => a,
        };
        let ann = match find_annotation(&a.local_tok.trailing) {
            Some(b) => b,
            None => {
                return Result::Ok(StmtNode::Local(a));
            },
        };
        if a.names.len() != 1 || a.exprs.len() != 1 {
            return Result::Err(PpError::UnsupportedShape);
        }
        if text::str_eq(ann.as_str(), "@comp_time_enum") {
            let enum_name = a.names[0].0.text.clone();
            let entries = match &a.exprs[0].0 {
                Expr::Table { braces: _, fields } => match collect_enum_entries(fields) {
                    Result::Ok(v) => v,
                    Result::Err(e) => {
                        return Result::Err(e);
                    },
                },
                _ => {
                    return Result::Err(PpError::UnsupportedShape);
                },
            };
            let ghost entries_view = kv_view(entries@);
            let mut m = match self.enum_map.take() {
                Some(m) => m,
                None => Vec::new(),
            };
            let ghost m_pre = enum_map_view(m@);
            proof {
                if old(self).enum_map is None {
                    assert(m_pre =~= Seq::<
                        (Seq<char>, Seq<(Seq<char>, Seq<char>)>),
                    >::empty());
                }
            }
            m.push((enum_name, entries));
            proof {
                assert(enum_map_view(m@) =~= m_pre.push((a.names@[0].0.text@, entries_view)));
            }
            self.enum_map = Some(m);
            Result::Ok(StmtNode::Local(a))
        } else {
            let LocalAssign { local_tok, names, eq_tok, exprs } = a;
            let mut text_ins = String::from_str(" _ = ");
            text_ins.append(names[0].0.text.as_str());
            text_ins.append(" ");
            let mut exprs = exprs;
            let (e0, _) = match exprs.pop() {
                Some(p) => p,
                None => unreached(),
            };
            if !is_after_supported(&e0) {
                return Result::Err(PpError::UnsupportedShape);
            }
            let edited = insert_after_expr(e0, text_ins.as_str());
            let mut new_exprs: Vec<(Expr, Option<Tok>)> = Vec::new();
            new_exprs.push((edited, None));
            Result::Ok(
                StmtNode::Local(LocalAssign { local_tok, names, eq_tok, exprs: new_exprs }),
            )
        }
    }
}

/// Finds the latest enum bound to `k`.
fn lookup_enum<'a>(m: &'a Vec<(String, Vec<(String, String)>)>, k: &str) -> (r: Option<
    &'a Vec<(String, String)>,
>)
    ensures
        match r {
            Some(v) => enum_lookup(enum_map_view(m@), k@) == Some(kv_view(v@)),
            None => enum_lookup(enum_map_view(m@), k@) is None,
        },
{
    let mut i: usize = m.len();
    proof {
        assert(enum_map_view(m@).take(m@.len() as int) =~= enum_map_view(m@));
    }
    while i > 0
        invariant
            i <= m@.len(),
            enum_lookup(enum_map_view(m@), k@) == enum_lookup(
                enum_map_view(m@).take(i as int),
                k@,
            ),
        decreases i,
    {
        i -= 1;
        proof {
            assert(enum_map_view(m@).take(i + 1).last() == enum_map_view(m@)[i as int]);
            assert(enum_map_view(m@).take(i + 1).drop_last() =~= enum_map_view(m@).take(
                i as int,
            ));
        }
        if text::str_eq(m[i].0.as_str(), k) {
            return Some(&m[i].1);
        }
    }
    proof {
        assert(enum_map_view(m@).take(0) =~= Seq::<
            (Seq<char>, Seq<(Seq<char>, Seq<char>)>),
        >::empty());
    }
    None
}

/// Finds the latest value bound to `k` among an enum's entries.
fn lookup_entry(entries: &Vec<(String, String)>, k: &str) -> (r: Option<String>)
    ensures
        match r {
            Some(v) => entry_lookup(kv_view(entries@), k@) == Some(v@),
            None => entry_lookup(kv_view(entries@), k@) is None,
        },
{
    let mut i: usize = entries.len();
    proof {
        assert(kv_view(entries@).take(entries@.len() as int) =~= kv_view(entries@));
    }
    while i > 0
        invariant
            i <= entries@.len(),
            entry_lookup(kv_view(entries@), k@) == entry_lookup(
                kv_view(entries@).take(i as int),
                k@,
            ),
        decreases i,
    {
        i -= 1;
        proof {
            assert(kv_view(entries@).take(i + 1).last() == kv_view(entries@)[i as int]);
            assert(kv_view(entries@).take(i + 1).drop_last() =~= kv_view(entries@).take(
                i as int,
            ));
        }
        if text::str_eq(entries[i].0.as_str(), k) {
            return Some(entries[i].1.clone());
        }
    }
    proof {
        assert(kv_view(entries@).take(0) =~= Seq::<(Seq<char>, Seq<char>)>::empty());
    }
    None
}

impl LuaOptimizer {
    /// Visits one variable access. An access `E.k` to a recorded enum `E`
    /// is replaced by the recorded literal value, with the original
    /// access kept beside it in a comment and the accessor tokens
    /// emptied; everything else passes through unchanged. A bracketed
    /// access to a recorded enum is a fatal mismatch.
    pub fn visit_var(&self, node: VarNode) -> (r: Result<VarNode, PpError>)
        ensures
            ({
                let mv = match self.enum_map {
                    Some(m) => enum_map_view(m@),
                    None => Seq::<(Seq<char>, Seq<(Seq<char>, Seq<char>)>)>::empty(),
                };
                match node {
                    VarNode::Name(_) => r matches Result::Ok(rn) && rn == node,
                    VarNode::Var(ve) => match ve.prefix {
                        PrefixNode::Expr(_) => r matches Result::Ok(rn) && rn == node,
                        PrefixNode::Name(t) => match enum_lookup(mv, t.text@) {
                            None => r matches Result::Ok(rn) && rn == node,
                            Some(entries) => {
                                if ve.suffixes@.len() != 1 {
                                    r matches Result::Ok(rn) && rn == node
                                } else {
                                    match ve.suffixes@[0] {
                                        Suffix::Idx(IndexSuffix::Dot { dot, name }) => match
                                            entry_lookup(entries, name.text@) {
                                            None => r matches Result::Ok(rn) && rn == node,
                                            Some(v) => match r {
                                                Result::Ok(VarNode::Var(ve2)) => {
                                                    &&& ve2.suffixes@.len() == 1
                                                    &&& match ve2.prefix {
                                                        PrefixNode::Name(t2) => {
                                                            &&& lead_tok(t2) == lead_tok(t)
                                                            &&& trail_tok(t2) == trail_tok(t)
                                                            &&& t2.text@ == v + " --[["@
                                                                + t.text@ + "."@ + name.text@
                                                                + "]]"@
                                                        },
                                                        _ => false,
                                                    }
                                                    &&& match ve2.suffixes@[0] {
                                                        Suffix::Idx(IndexSuffix::Dot {
                                                            dot: d2,
                                                            name: n2,
                                                        }) => {
                                                            &&& lead_tok(d2) == lead_tok(dot)
                                                            &&& trail_tok(d2) == trail_tok(dot)
                                                            &&& d2.text@ == Seq::<char>::empty()
                                                            &&& lead_tok(n2) == lead_tok(name)
                                                            &&& trail_tok(n2) == trail_tok(name)
                                                            &&& n2.text@ == Seq::<char>::empty()
                                                        },
                                                        _ => false,
                                                    }
                                                },
                                                _ => false,
                                            },
                                        },
                                        Suffix::Idx(IndexSuffix::Brackets { .. }) => r matches
                                            Result::Err(PpError::UnsupportedShape),
                                        _ => r matches Result::Ok(rn) && rn == node,
                                    }
                                }
                            },
                        },
                    },
                }
            }),
    {
        let ve_box = match node {
            VarNode::Name(t) => {
                return Result::Ok(VarNode::Name(t));
            },
            VarNode::Var(b) => b,
        };
        let VarExpr { prefix, suffixes } = *ve_box;
        let t = match prefix {
            PrefixNode::Name(t) => t,
            PrefixNode::Expr(e) => {
                return Result::Ok(
                    VarNode::Var(Box::new(VarExpr { prefix: PrefixNode::Expr(e), suffixes })),
                );
            },
        };
        let m = match &self.enum_map {
            Some(m) => m,
            None => {
                return Result::Ok(
                    VarNode::Var(Box::new(VarExpr { prefix: PrefixNode::Name(t), suffixes })),
                );
            },
        };
        let entries = match lookup_enum(m, t.text.as_str()) {
            Some(v) => v,
            None => {
                return Result::Ok(
                    VarNode::Var(Box::new(VarExpr { prefix: PrefixNode::Name(t), suffixes })),
                );
            },
        };
        if suffixes.len() != 1 {
            return Result::Ok(
                VarNode::Var(Box::new(VarExpr { prefix: PrefixNode::Name(t), suffixes })),
            );
        }
        let mut hit: Option<String> = None;
        let mut bracketed = false;
        match &suffixes[0] {
            Suffix::Idx(IndexSuffix::Dot { dot: _, name }) => {
                hit = lookup_entry(entries, name.text.as_str());
            },
            Suffix::Idx(IndexSuffix::Brackets { .. }) => {
                bracketed = true;
            },
            _ => {},
        }
        if bracketed {
            return Result::Err(PpError::UnsupportedShape);
        }
        let v = match hit {
            Some(v) => v,
            None => {
                return Result::Ok(
                    VarNode::Var(Box::new(VarExpr { prefix: PrefixNode::Name(t), suffixes })),
                );
            },
        };
        let mut sufs = suffixes;
        let s0 = match sufs.pop() {
            Some(s) => s,
            None => unreached(),
        };
        let (dot, name) = match s0 {
            Suffix::Idx(IndexSuffix::Dot { dot, name }) => (dot, name),
            _ => unreached(),
        };
        let mut rep = v;
        rep.append(" --[[");
        rep.append(t.text.as_str());
        rep.append(".");
        rep.append(name.text.as_str());
        rep.append("]]");
        let new_prefix = PrefixNode::Name(replace_token(t, rep.as_str()));
        let mut new_sufs: Vec<Suffix> = Vec::new();
        new_sufs.push(
            Suffix::Idx(IndexSuffix::Dot { dot: empty_token(dot), name: empty_token(name) }),
        );
        Result::Ok(VarNode::Var(Box::new(VarExpr { prefix: new_prefix, suffixes: new_sufs })))
    }
}

} // verus!
