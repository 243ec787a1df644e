use luajit_pro_helper::errors::PpError;
use luajit_pro_helper::optimizer::LuaOptimizer;
use luajit_pro_helper::tree::{
    expr_text, stmt_text, Contained, Expr, IndexSuffix, LocalAssign, PrefixNode, StmtNode,
    Suffix, TableField, Tok, Trivia, VarExpr, VarNode,
};

fn tok(text: &str) -> Tok {
    Tok { leading: vec![], text: text.to_string(), trailing: vec![] }
}

fn tok_sp(text: &str) -> Tok {
    Tok {
        leading: vec![],
        text: text.to_string(),
        trailing: vec![Trivia::Text(" ".to_string())],
    }
}

fn annotated_local(annotation: &str) -> Tok {
    Tok {
        leading: vec![],
        text: "local".to_string(),
        trailing: vec![
            Trivia::Text(" ".to_string()),
            Trivia::Comment { blocks: 0, body: annotation.to_string() },
            Trivia::Text(" ".to_string()),
        ],
    }
}

fn enum_decl() -> StmtNode {
    // local --[[@comp_time_enum]] enum = { A = 0x123, B = 456 }
    StmtNode::Local(LocalAssign {
        local_tok: annotated_local("@comp_time_enum"),
        names: vec![(tok_sp("enum"), None)],
        eq_tok: Some(tok_sp("=")),
        exprs: vec![(
            Expr::Table {
                braces: Contained { first: tok_sp("{"), second: tok("}") },
                fields: vec![
                    (
                        TableField::NameKey {
                            key: tok_sp("A"),
                            eq: tok_sp("="),
                            value: Box::new(Expr::Num(tok("0x123"))),
                        },
                        Some(tok_sp(",")),
                    ),
                    (
                        TableField::NameKey {
                            key: tok_sp("B"),
                            eq: tok_sp("="),
                            value: Box::new(Expr::Num(tok_sp("456"))),
                        },
                        None,
                    ),
                ],
            },
            None,
        )],
    })
}

#[test]
fn enum_declaration_is_recorded_and_kept() {
    let mut opt = LuaOptimizer::new();
    assert!(opt.enum_map.is_none());
    let before = stmt_text(&enum_decl());
    let out = opt.visit_stmt(enum_decl()).unwrap();
    assert_eq!(stmt_text(&out), before);
    let m = opt.enum_map.as_ref().unwrap();
    assert_eq!(m.len(), 1);
    assert_eq!(m[0].0, "enum");
    assert_eq!(
        m[0].1,
        vec![("A".to_string(), "0x123".to_string()), ("B".to_string(), "456".to_string())]
    );
}

#[test]
fn enum_access_is_replaced_by_its_value() {
    let mut opt = LuaOptimizer::new();
    opt.visit_stmt(enum_decl()).unwrap();
    let var = VarNode::Var(Box::new(VarExpr {
        prefix: PrefixNode::Name(tok("enum")),
        suffixes: vec![Suffix::Idx(IndexSuffix::Dot { dot: tok("."), name: tok_sp("A") })],
    }));
    let out = opt.visit_var(var).unwrap();
    assert_eq!(expr_text(&Expr::Var(out)), "0x123 --[[enum.A]] ");
}

#[test]
fn unknown_enum_or_key_passes_through() {
    let mut opt = LuaOptimizer::new();
    opt.visit_stmt(enum_decl()).unwrap();
    let other = VarNode::Var(Box::new(VarExpr {
        prefix: PrefixNode::Name(tok("other")),
        suffixes: vec![Suffix::Idx(IndexSuffix::Dot { dot: tok("."), name: tok("A") })],
    }));
    let out = opt.visit_var(other).unwrap();
    assert_eq!(expr_text(&Expr::Var(out)), "other.A");

    let missing = VarNode::Var(Box::new(VarExpr {
        prefix: PrefixNode::Name(tok("enum")),
        suffixes: vec![Suffix::Idx(IndexSuffix::Dot { dot: tok("."), name: tok("C") })],
    }));
    let out2 = opt.visit_var(missing).unwrap();
    assert_eq!(expr_text(&Expr::Var(out2)), "enum.C");
}

#[test]
fn bracketed_enum_access_is_refused() {
    let mut opt = LuaOptimizer::new();
    opt.visit_stmt(enum_decl()).unwrap();
    let var = VarNode::Var(Box::new(VarExpr {
        prefix: PrefixNode::Name(tok("enum")),
        suffixes: vec![Suffix::Idx(IndexSuffix::Brackets {
            brackets: Contained { first: tok("["), second: tok("]") },
            inner: Box::new(Expr::Str(tok("\"A\""))),
        })],
    }));
    let err = opt.visit_var(var).unwrap_err();
    assert!(matches!(err, PpError::UnsupportedShape));
}

#[test]
fn used_annotation_appends_a_dummy_use() {
    // local --[[@used]] abc = 1234  becomes  local --[[@used]] abc = 1234 _ = abc
    let mut opt = LuaOptimizer::new();
    let stmt = StmtNode::Local(LocalAssign {
        local_tok: annotated_local("@used"),
        names: vec![(tok_sp("abc"), None)],
        eq_tok: Some(tok_sp("=")),
        exprs: vec![(Expr::Num(tok("1234")), None)],
    });
    let out = opt.visit_stmt(stmt).unwrap();
    assert_eq!(
        stmt_text(&out),
        "local --[[@used]] abc = 1234 _ = abc "
    );
}

#[test]
fn unannotated_statements_pass_through() {
    let mut opt = LuaOptimizer::new();
    let stmt = StmtNode::Local(LocalAssign {
        local_tok: tok_sp("local"),
        names: vec![(tok_sp("a"), None)],
        eq_tok: Some(tok_sp("=")),
        exprs: vec![(Expr::Num(tok("1")), None)],
    });
    let before = stmt_text(&stmt);
    let out = opt.visit_stmt(stmt).unwrap();
    assert_eq!(stmt_text(&out), before);
    assert!(opt.enum_map.is_none());
}
