use luajit_pro_helper::pipeline::apply_post_passes;
use luajit_pro_helper::pragma::parse_pragma_flags;
use luajit_pro_helper::rewrite::{
    convert_luau_to_lua, format_lua_code, inject_global_vals, remove_lua_comments,
    reparses_identically, resolve_output,
};

#[test]
fn comments_are_stripped() {
    let out = remove_lua_comments("local a = 1 -- gone\nreturn a\n").unwrap();
    assert_eq!(out, "local a = 1 \nreturn a\n");
}

#[test]
fn enum_annotation_survives_comment_stripping() {
    let out = remove_lua_comments("local --[[@comp_time_enum]] e = 1 -- gone\n").unwrap();
    assert!(out.contains("@comp_time_enum"));
    assert!(!out.contains("gone"));
}

#[test]
fn unparseable_text_is_a_rewrite_error() {
    assert!(remove_lua_comments("local a = ").is_err());
}

#[test]
fn formatting_normalizes_spacing() {
    let out = format_lua_code("local   a=1").unwrap();
    assert_eq!(out, "local a = 1\n");
}

#[test]
fn backend_dialect_is_lowered() {
    let out = convert_luau_to_lua("local a = 1\na += 2\nreturn a\n").unwrap();
    assert_eq!(out, "local a = 1\na =a+ 2\nreturn a\n");
}

#[test]
fn injected_globals_decide_branches() {
    let params = vec![("FEATURE".to_string(), "true".to_string())];
    let out =
        inject_global_vals("if FEATURE then print(1) else print(2) end\n", &params).unwrap();
    assert_eq!(out, "do print(1) end");
}

#[test]
fn evaluator_output_is_sanitized_before_splicing() {
    let out = resolve_output("local a = 1 -- note\nreturn a", false).unwrap();
    assert_eq!(out, "local a = 1  return a");
    let kept = resolve_output("local a = 1\nreturn a", true).unwrap();
    assert!(kept.contains('\n'));
}

#[test]
fn unparseable_evaluator_output_passes_through() {
    assert_eq!(resolve_output("42", false).unwrap(), "42");
}

#[test]
fn unparseable_output_with_a_comment_is_refused() {
    // Collapsing its line breaks could let the comment swallow the text
    // spliced after it, so this fails loudly instead.
    let err = resolve_output("-- half\nlocal x = ", false).unwrap_err();
    assert!(matches!(err, luajit_pro_helper::errors::PpError::RewriteFailed { .. }));
}

#[test]
fn rewriters_fail_exactly_on_unparseable_text() {
    assert!(convert_luau_to_lua("local a = ").is_err());
    assert!(format_lua_code("local a = ").is_err());
    assert!(inject_global_vals("local a = ", &vec![("A".to_string(), "true".to_string())])
        .is_err());
}

#[test]
fn lossless_reparse_accepts_valid_text_only() {
    assert!(reparses_identically("local x = 1 -- keep\n"));
    assert!(!reparses_identically("local x = "));
}

#[test]
fn pretty_implies_stripping_and_formatting() {
    let flags = parse_pragma_flags("-- luajit-pro, pretty").unwrap();
    let out = apply_post_passes("local   a=1 -- gone\nreturn a\n", &flags, &None).unwrap();
    assert!(!out.contains("gone"));
    assert_eq!(out, "local a = 1\nreturn a\n");
}

#[test]
fn plain_run_leaves_text_alone() {
    let flags = parse_pragma_flags("-- luajit-pro").unwrap();
    let text = "local a = 1 -- kept\nreturn a\n";
    let out = apply_post_passes(text, &flags, &None).unwrap();
    assert_eq!(out, text);
}
