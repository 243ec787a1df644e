use luajit_pro_helper::errors::PpError;
use luajit_pro_helper::laws::{edited_tree_reparses, edited_tree_reparses_before};
use luajit_pro_helper::token_edit::{
    create_empty_token_ref, create_punc, empty_contained_span, empty_token, get_func_call_name,
    insert_after_expr, insert_after_punc_expr, insert_after_token, insert_after_var_expr,
    insert_before_expr, insert_before_punc_var, insert_before_token, replace_token,
    surround_token,
};
use luajit_pro_helper::tree::{
    expr_text, tok_text, CallSuffix, Contained, Expr, FuncArgs, FuncCall, IndexSuffix,
    PrefixNode, Suffix, Tok, Trivia, VarExpr, VarNode,
};

fn tok(text: &str) -> Tok {
    Tok { leading: vec![], text: text.to_string(), trailing: vec![] }
}

fn tok_sp(text: &str) -> Tok {
    Tok {
        leading: vec![],
        text: text.to_string(),
        trailing: vec![Trivia::Text(" ".to_string())],
    }
}

#[test]
fn token_insert_before_lands_after_leading_trivia() {
    let t = Tok {
        leading: vec![Trivia::Text("  ".to_string())],
        text: "function".to_string(),
        trailing: vec![Trivia::Text(" ".to_string())],
    };
    let t2 = insert_before_token(t, "GEN ");
    assert_eq!(tok_text(&t2), "  GEN function ");
}

#[test]
fn token_insert_after_lands_before_trailing_trivia() {
    let t = Tok {
        leading: vec![],
        text: "end".to_string(),
        trailing: vec![Trivia::Text("\n".to_string())],
    };
    let t2 = insert_after_token(t, " --]=====]");
    assert_eq!(tok_text(&t2), "end --]=====]\n");
}

#[test]
fn token_surround_and_replace_and_empty() {
    let t = surround_token(tok("x"), "<", ">");
    assert_eq!(tok_text(&t), "<x>");
    let r = replace_token(tok_sp("x"), "y");
    assert_eq!(tok_text(&r), "y ");
    let e = empty_token(tok_sp("x"));
    assert_eq!(tok_text(&e), " ");
    assert_eq!(tok_text(&create_empty_token_ref()), "");
}

#[test]
fn contained_span_edits() {
    let cs = Contained { first: tok("("), second: tok(")") };
    let cs2 = empty_contained_span(cs);
    assert_eq!(tok_text(&cs2.first), "");
    assert_eq!(tok_text(&cs2.second), "");
    let p = create_punc(tok("x"));
    assert_eq!(p.len(), 1);
}

fn call_expr() -> Expr {
    // f(x) with a trailing space on the closing parenthesis
    Expr::Call(FuncCall {
        prefix: PrefixNode::Name(tok("f")),
        suffixes: vec![Suffix::Call(CallSuffix::Anonymous(FuncArgs::Parens {
            parens: Contained { first: tok("("), second: tok_sp(")") },
            args_text: "x".to_string(),
            args_len: 1,
        }))],
    })
}

#[test]
fn insert_after_chained_call_lands_after_closing_paren() {
    let e = insert_after_expr(call_expr(), "--[[here]]");
    assert_eq!(expr_text(&e), "f(x)--[[here]] ");
}

#[test]
fn insert_after_binary_lands_on_last_leaf() {
    let e = Expr::Binary {
        lhs: Box::new(Expr::Num(tok_sp("1"))),
        op: tok_sp("+"),
        rhs: Box::new(Expr::Num(tok_sp("2"))),
    };
    let e2 = insert_after_expr(e, "Z");
    assert_eq!(expr_text(&e2), "1 + 2Z ");
}

#[test]
fn insert_before_parenthesized_lands_on_open_paren() {
    let e = Expr::Paren {
        parens: Contained { first: tok("("), second: tok(")") },
        inner: Box::new(Expr::Num(tok("7"))),
    };
    let e2 = insert_before_expr(e, "PRE ");
    assert_eq!(expr_text(&e2), "PRE (7)");
}

#[test]
fn insert_after_var_expression_lands_on_accessor() {
    let ve = VarExpr {
        prefix: PrefixNode::Name(tok("a")),
        suffixes: vec![Suffix::Idx(IndexSuffix::Dot { dot: tok("."), name: tok_sp("b") })],
    };
    let ve2 = insert_after_var_expr(ve, "X");
    let as_var = Expr::Var(VarNode::Var(Box::new(ve2)));
    assert_eq!(expr_text(&as_var), "a.bX ");
}

#[test]
fn punctuated_edits_touch_only_the_edges() {
    let vars = vec![
        (VarNode::Name(tok_sp("a")), Some(tok_sp(","))),
        (VarNode::Name(tok_sp("b")), None),
    ];
    let mut vars2 = insert_before_punc_var(vars, "GEN ");
    let (v0, _) = vars2.remove(0);
    assert_eq!(expr_text(&Expr::Var(v0)), "GEN a ");

    let exprs = vec![
        (Expr::Num(tok_sp("1")), Some(tok_sp(","))),
        (Expr::Num(tok_sp("2")), None),
    ];
    let mut exprs2 = insert_after_punc_expr(exprs, "Z");
    let (last, _) = exprs2.pop().unwrap();
    assert_eq!(expr_text(&last), "2Z ");
    let (first, _) = exprs2.pop().unwrap();
    assert_eq!(expr_text(&first), "1 ");
}

#[test]
fn call_name_and_argument_are_read_exactly() {
    let call = FuncCall {
        prefix: PrefixNode::Name(tok("__LJP")),
        suffixes: vec![Suffix::Call(CallSuffix::Method {
            colon: tok(":"),
            name: tok("include"),
            args: FuncArgs::Parens {
                parens: Contained { first: tok("("), second: tok(")") },
                args_text: "\"a.b\"".to_string(),
                args_len: 1,
            },
        })],
    };
    let (name, arg) = get_func_call_name(&call).unwrap();
    assert_eq!(name, "__LJP:include");
    assert_eq!(arg, "\"a.b\"");
}

#[test]
fn call_with_two_arguments_is_refused() {
    let call = FuncCall {
        prefix: PrefixNode::Name(tok("__LJP")),
        suffixes: vec![Suffix::Call(CallSuffix::Method {
            colon: tok(":"),
            name: tok("include"),
            args: FuncArgs::Parens {
                parens: Contained { first: tok("("), second: tok(")") },
                args_text: "a, b".to_string(),
                args_len: 2,
            },
        })],
    };
    match get_func_call_name(&call).unwrap_err() {
        PpError::BadCallArity { name, count } => {
            assert_eq!(name, "__LJP:include");
            assert_eq!(count, 2);
        }
        other => panic!("unexpected error: {:?}", other),
    }
}

#[test]
fn edited_text_survives_a_real_reparse() {
    // Inserting comment trivia keeps the text parseable, and the lossless
    // parser prints it back byte for byte.
    let reparsed = edited_tree_reparses(call_expr(), " --[[gen]]").unwrap();
    assert_eq!(reparsed, "f(x) --[[gen]] ");
    // Inserting non-Lua text makes the reparse fail instead.
    assert!(edited_tree_reparses(call_expr(), " ) not lua (").is_none());
}

#[test]
fn text_inserted_before_a_unit_also_survives_reparsing() {
    let e = luajit_pro_helper::tree::Expr::Paren {
        parens: Contained { first: tok("("), second: tok(")") },
        inner: Box::new(luajit_pro_helper::tree::Expr::Num(tok("7"))),
    };
    // `print` before `(7)` reads as a call: still valid Lua.
    let reparsed = edited_tree_reparses_before(e, "print").unwrap();
    assert_eq!(reparsed, "print(7)");
}
