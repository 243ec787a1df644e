use full_moon::visitors::VisitorMut;
use luajit_pro_helper::errors::PpError;
use luajit_pro_helper::laws::comp_time_resolution_deterministic;
use luajit_pro_helper::rewrite::resolve_output;
use luajit_pro_helper::transformer::{
    classify_function_call, classify_function_declaration, CallKind, DeclKind,
    LuaLastReturnRemover, LuaTransformer,
};
use luajit_pro_helper::tree::{
    func_call_text, func_decl_text, last_stmt_text, CallSuffix, Contained, FuncArgs, FuncBody,
    FuncCall, FuncDecl, IndexSuffix, LastStmtNode, Param, PrefixNode, Suffix, Tok, Trivia,
};

fn tok(text: &str) -> Tok {
    Tok { leading: vec![], text: text.to_string(), trailing: vec![] }
}

fn tok_sp(text: &str) -> Tok {
    Tok {
        leading: vec![],
        text: text.to_string(),
        trailing: vec![Trivia::Text(" ".to_string())],
    }
}

fn comp_time_decl() -> FuncDecl {
    // function __LJP:COMP_TIME() return "42" end
    FuncDecl {
        function_tok: tok_sp("function"),
        name_text: "__LJP:COMP_TIME".to_string(),
        body: FuncBody {
            parens: Contained { first: tok("("), second: tok_sp(")") },
            params: vec![],
            block_text: "return \"42\" ".to_string(),
            end_tok: tok("end"),
        },
    }
}

#[test]
fn declaration_names_classify_against_the_marker() {
    assert!(matches!(
        classify_function_declaration("__LJP:COMP_TIME").unwrap(),
        DeclKind::CompTime
    ));
    assert!(matches!(
        classify_function_declaration("_g.__ljp:comp_time").unwrap(),
        DeclKind::CompTime
    ));
    assert!(matches!(classify_function_declaration("setup").unwrap(), DeclKind::Plain));
    let err = classify_function_declaration("x__LJP:COMP_TIMEy").unwrap_err();
    assert!(matches!(err, PpError::MalformedMarker));
}

#[test]
fn two_parameters_fail_before_any_evaluation() {
    let mut decl = comp_time_decl();
    decl.body.params = vec![
        (Param::Name(tok("a")), Some(tok_sp(","))),
        (Param::Name(tok("b")), None),
    ];
    let t = LuaTransformer::new();
    let err = t.prepare_comp_time(&decl).unwrap_err();
    assert!(matches!(err, PpError::TooManyMacroParams { count: 2 }));

    let mut decl2 = comp_time_decl();
    decl2.body.params = vec![(Param::Ellipsis(tok("...")), None)];
    let err2 = t.prepare_comp_time(&decl2).unwrap_err();
    assert!(matches!(err2, PpError::EllipsisMacroParam));
}

#[test]
fn prepared_macro_carries_label_and_body() {
    let mut t = LuaTransformer::new();
    t.file_path = Some("main.lua".to_string());
    let mut decl = comp_time_decl();
    decl.body.params = vec![(Param::Name(tok("ctx")), None)];
    let prep = t.prepare_comp_time(&decl).unwrap();
    assert_eq!(prep.param_name, "ctx");
    assert_eq!(prep.label, "main.lua ctx");
    assert_eq!(prep.chunk, "return \"42\" ");

    let prep2 = t.prepare_comp_time(&comp_time_decl()).unwrap();
    assert_eq!(prep2.param_name, "[Anonymous]");
    assert_eq!(prep2.label, "main.lua [Anonymous]");
}

#[test]
fn parameter_record_chunks_bind_and_unbind() {
    let mut t = LuaTransformer::new();
    t.input_param_list = Some(vec![
        ("A".to_string(), "true".to_string()),
        ("B".to_string(), "0".to_string()),
    ]);
    let load = t.load_param_list_into_lua_env().unwrap();
    assert_eq!(
        load,
        "rawset(_G, \"A\", true)\nrawset(_G, \"B\", false)\nreturn \"\""
    );
    let unload = t.unload_param_list_from_lua_env().unwrap();
    assert_eq!(unload, "rawset(_G, \"A\", nil)\nrawset(_G, \"B\", nil)\nreturn \"\"");
    let none = LuaTransformer::new();
    assert!(none.load_param_list_into_lua_env().is_none());
}

#[test]
fn comp_time_declaration_expands_to_live_text_and_inert_original() {
    // End to end over a real interpreter: the macro body runs at build
    // time, its result lands before the declaration, and the original
    // declaration survives only inside block-comment delimiters.
    let decl = comp_time_decl();
    let t = LuaTransformer::new();
    let prep = t.prepare_comp_time(&decl).unwrap();

    let lua = mlua::Lua::new();
    let raw: String = lua.load(prep.chunk.as_str()).eval().unwrap();
    assert_eq!(raw, "42");

    let resolved = resolve_output(&raw, false).unwrap();
    assert_eq!(resolved, "42");

    let spliced = LuaTransformer::splice_comp_time(decl, &resolved);
    let out = func_decl_text(&spliced);
    assert_eq!(
        out,
        "42 --[=====[ function __LJP:COMP_TIME() return \"42\" end --]=====]"
    );

    // The live (non-commented) prefix evaluates to the literal 42.
    let live = out.split(" --[=====[ ").next().unwrap();
    let mut chunk = String::from("return ");
    chunk.push_str(live);
    let value: i64 = lua.load(chunk.as_str()).eval().unwrap();
    assert_eq!(value, 42);
}

#[test]
fn identical_macro_context_splices_identical_bytes() {
    let (a, b) = comp_time_resolution_deterministic(
        comp_time_decl(),
        comp_time_decl(),
        "local x = 1 -- note\nreturn x",
        false,
    )
    .unwrap();
    assert_eq!(func_decl_text(&a), func_decl_text(&b));
}

#[test]
fn include_calls_classify_by_marker() {
    let call = FuncCall {
        prefix: PrefixNode::Name(tok("__LJP")),
        suffixes: vec![Suffix::Call(CallSuffix::Method {
            colon: tok(":"),
            name: tok("include"),
            args: FuncArgs::Parens {
                parens: Contained { first: tok("("), second: tok(")") },
                args_text: "\"m\"".to_string(),
                args_len: 1,
            },
        })],
    };
    match classify_function_call(&call).unwrap() {
        CallKind::Include { no_return, name, arg } => {
            assert!(!no_return);
            assert_eq!(name, "__LJP:include");
            assert_eq!(arg, "\"m\"");
        }
        other => panic!("expected an include, got {:?}", matches!(other, CallKind::Plain)),
    }

    let plain = FuncCall {
        prefix: PrefixNode::Name(tok("print")),
        suffixes: vec![Suffix::Call(CallSuffix::Anonymous(FuncArgs::Parens {
            parens: Contained { first: tok("("), second: tok(")") },
            args_text: "1".to_string(),
            args_len: 1,
        }))],
    };
    assert!(matches!(classify_function_call(&plain).unwrap(), CallKind::Plain));

    let no_ret = FuncCall {
        prefix: PrefixNode::Name(tok("__LJP")),
        suffixes: vec![Suffix::Call(CallSuffix::Method {
            colon: tok(":"),
            name: tok("INCLUDE_NO_RETURN"),
            args: FuncArgs::Str(tok("\"m\"")),
        })],
    };
    match classify_function_call(&no_ret).unwrap() {
        CallKind::Include { no_return, .. } => assert!(no_return),
        _ => panic!("expected an include"),
    }

    // A direct call on the global table reaches no marker name: it
    // passes through unchanged.
    let g_call = FuncCall {
        prefix: PrefixNode::Name(tok("_G")),
        suffixes: vec![Suffix::Call(CallSuffix::Anonymous(FuncArgs::Parens {
            parens: Contained { first: tok("("), second: tok(")") },
            args_text: "1".to_string(),
            args_len: 1,
        }))],
    };
    assert!(matches!(classify_function_call(&g_call).unwrap(), CallKind::Plain));
}

#[test]
fn ordinary_calls_near_the_reserved_names_pass_through() {
    // A user function whose name merely begins like the global table.
    let gfoo = FuncCall {
        prefix: PrefixNode::Name(tok("_gfoo")),
        suffixes: vec![Suffix::Call(CallSuffix::Anonymous(FuncArgs::Parens {
            parens: Contained { first: tok("("), second: tok(")") },
            args_text: "".to_string(),
            args_len: 0,
        }))],
    };
    assert!(matches!(classify_function_call(&gfoo).unwrap(), CallKind::Plain));

    // A user function whose name merely begins like the reserved
    // namespace.
    let helper = FuncCall {
        prefix: PrefixNode::Name(tok("__ljp_helper")),
        suffixes: vec![Suffix::Call(CallSuffix::Anonymous(FuncArgs::Parens {
            parens: Contained { first: tok("("), second: tok(")") },
            args_text: "".to_string(),
            args_len: 0,
        }))],
    };
    assert!(matches!(classify_function_call(&helper).unwrap(), CallKind::Plain));

    // A method call with a wrong argument count on a name that is no
    // marker also passes through.
    let not_marker = FuncCall {
        prefix: PrefixNode::Name(tok("__ljp_helper")),
        suffixes: vec![Suffix::Call(CallSuffix::Method {
            colon: tok(":"),
            name: tok("run"),
            args: FuncArgs::Parens {
                parens: Contained { first: tok("("), second: tok(")") },
                args_text: "a, b".to_string(),
                args_len: 2,
            },
        })],
    };
    assert!(matches!(classify_function_call(&not_marker).unwrap(), CallKind::Plain));
}

#[test]
fn namespace_qualified_include_is_recognized() {
    let call = FuncCall {
        prefix: PrefixNode::Name(tok("_G")),
        suffixes: vec![
            Suffix::Idx(IndexSuffix::Dot { dot: tok("."), name: tok("__LJP") }),
            Suffix::Call(CallSuffix::Method {
                colon: tok(":"),
                name: tok("include"),
                args: FuncArgs::Parens {
                    parens: Contained { first: tok("("), second: tok(")") },
                    args_text: "\"m\"".to_string(),
                    args_len: 1,
                },
            }),
        ],
    };
    match classify_function_call(&call).unwrap() {
        CallKind::Include { no_return, name, arg } => {
            assert!(!no_return);
            assert_eq!(name, "_G.__LJP:include");
            assert_eq!(arg, "\"m\"");
        }
        _ => panic!("expected an include"),
    }
}

#[test]
fn marker_call_with_wrong_arity_fails_fast() {
    let call = FuncCall {
        prefix: PrefixNode::Name(tok("__LJP")),
        suffixes: vec![Suffix::Call(CallSuffix::Method {
            colon: tok(":"),
            name: tok("include"),
            args: FuncArgs::Parens {
                parens: Contained { first: tok("("), second: tok(")") },
                args_text: "\"a\", \"b\"".to_string(),
                args_len: 2,
            },
        })],
    };
    match classify_function_call(&call).unwrap_err() {
        PpError::BadCallArity { name, count } => {
            assert_eq!(name, "__LJP:include");
            assert_eq!(count, 2);
        }
        other => panic!("unexpected error: {:?}", other),
    }
}

#[test]
fn include_splice_wraps_the_original_call() {
    let call = FuncCall {
        prefix: PrefixNode::Name(tok("__LJP")),
        suffixes: vec![Suffix::Call(CallSuffix::Method {
            colon: tok(":"),
            name: tok("include"),
            args: FuncArgs::Parens {
                parens: Contained { first: tok("("), second: tok(")") },
                args_text: "\"m\"".to_string(),
                args_len: 1,
            },
        })],
    };
    let spliced = luajit_pro_helper::transformer::splice_include(call, "print(9) ").unwrap();
    assert_eq!(
        func_call_text(&spliced),
        "print(9)  --[=====[ __LJP:include(\"m\") --]=====]"
    );
}

#[test]
fn trailing_return_is_removed_but_its_trivia_stays() {
    let remover = LuaLastReturnRemover::new();
    let node = LastStmtNode::Return {
        ret_tok: Tok {
            leading: vec![Trivia::Text("\n".to_string())],
            text: "return".to_string(),
            trailing: vec![Trivia::Text(" ".to_string())],
        },
        exprs_text: "x, y".to_string(),
    };
    let out = remover.visit_last_stmt(node).unwrap();
    assert_eq!(last_stmt_text(&out), "\n ");

    let not_return = LastStmtNode::Other(tok("break"));
    let err = remover.visit_last_stmt(not_return).unwrap_err();
    assert!(matches!(err, PpError::MissingReturn));
}

struct ReturnStripper {
    inner: LuaLastReturnRemover,
}

impl full_moon::visitors::VisitorMut for ReturnStripper {
    fn visit_last_stmt(
        &mut self,
        node: full_moon::ast::LastStmt,
    ) -> full_moon::ast::LastStmt {
        let m = match &node {
            full_moon::ast::LastStmt::Return(ret) => LastStmtNode::Return {
                ret_tok: Tok {
                    leading: ret
                        .token()
                        .leading_trivia()
                        .map(|t| Trivia::Text(t.to_string()))
                        .collect(),
                    text: ret.token().token().to_string(),
                    trailing: ret
                        .token()
                        .trailing_trivia()
                        .map(|t| Trivia::Text(t.to_string()))
                        .collect(),
                },
                exprs_text: ret.returns().to_string(),
            },
            other => LastStmtNode::Other(Tok {
                leading: vec![],
                text: other.to_string(),
                trailing: vec![],
            }),
        };
        match self.inner.visit_last_stmt(m) {
            Ok(LastStmtNode::Return { ret_tok, .. }) => full_moon::ast::LastStmt::Return(
                full_moon::ast::Return::new().with_token(full_moon::tokenizer::TokenReference::new(
                    ret_tok
                        .leading
                        .iter()
                        .map(|t| match t {
                            Trivia::Text(s) => full_moon::tokenizer::Token::new(
                                full_moon::tokenizer::TokenType::Whitespace {
                                    characters: full_moon::ShortString::new(s),
                                },
                            ),
                            _ => unreachable!(),
                        })
                        .collect(),
                    full_moon::tokenizer::Token::new(
                        full_moon::tokenizer::TokenType::Whitespace {
                            characters: full_moon::ShortString::new(&ret_tok.text),
                        },
                    ),
                    ret_tok
                        .trailing
                        .iter()
                        .map(|t| match t {
                            Trivia::Text(s) => full_moon::tokenizer::Token::new(
                                full_moon::tokenizer::TokenType::Whitespace {
                                    characters: full_moon::ShortString::new(s),
                                },
                            ),
                            _ => unreachable!(),
                        })
                        .collect(),
                )),
            ),
            Ok(_) => node,
            Err(e) => panic!("{}", e.message()),
        }
    }
}

#[test]
fn include_without_trailing_value_keeps_prior_statements() {
    // Splicing a file whose last statement returns `x, y` drops the
    // return keyword and its expressions while every prior statement
    // stays byte-identical.
    let source = "local x = 1\nlocal y = 2\nprint(x)\nreturn x, y\n";
    let ast = full_moon::parse(source).unwrap();
    let mut stripper = ReturnStripper { inner: LuaLastReturnRemover::new() };
    let out = stripper.visit_ast(ast).to_string();
    assert_eq!(out, "local x = 1\nlocal y = 2\nprint(x)\n ");
}
