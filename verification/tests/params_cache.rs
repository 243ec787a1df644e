use luajit_pro_helper::cache::{decide_cache, merge_first_line, strip_nl, CacheDecision};
use luajit_pro_helper::errors::PpError;
use luajit_pro_helper::params::{parse_param_table, serialize_param_table, split_string};
use luajit_pro_helper::pragma::parse_pragma_flags;

fn env(pairs: &[(&str, &str)]) -> Vec<(String, String)> {
    pairs.iter().map(|(k, v)| (k.to_string(), v.to_string())).collect()
}

#[test]
fn parse_record_defaults() {
    let (params, rebuild) =
        parse_param_table("-- luajit-pro { A = true, B = 0 }", &env(&[])).unwrap();
    let params = params.unwrap();
    assert_eq!(
        params,
        vec![("A".to_string(), "true".to_string()), ("B".to_string(), "0".to_string())]
    );
    assert!(!rebuild);
}

#[test]
fn parse_record_override_forces_rebuild() {
    let (params, rebuild) =
        parse_param_table("-- luajit-pro {A=true}", &env(&[("A", "false")])).unwrap();
    assert_eq!(params.unwrap(), vec![("A".to_string(), "false".to_string())]);
    assert!(rebuild);
}

#[test]
fn parse_record_matching_defaults_reuse() {
    let (_, rebuild) = parse_param_table("-- {A=true}", &env(&[("A", "true")])).unwrap();
    assert!(!rebuild);
}

#[test]
fn parse_record_invalid_value() {
    let err = parse_param_table("-- {A=maybe}", &env(&[])).unwrap_err();
    match err {
        PpError::InvalidParamValue { key, value } => {
            assert_eq!(key, "A");
            assert_eq!(value, "maybe");
        }
        other => panic!("unexpected error: {:?}", other),
    }
}

#[test]
fn parse_record_without_braces() {
    let (params, rebuild) = parse_param_table("print('hi')", &env(&[])).unwrap();
    assert!(params.is_none());
    assert!(!rebuild);
}

#[test]
fn parse_record_braces_out_of_order() {
    let err = parse_param_table("} A = true {", &env(&[])).unwrap_err();
    assert!(matches!(err, PpError::MalformedParams));
}

#[test]
fn parse_record_duplicate_key_last_wins() {
    let (params, _) = parse_param_table("{A=true, A=false}", &env(&[])).unwrap();
    assert_eq!(params.unwrap(), vec![("A".to_string(), "false".to_string())]);
}

#[test]
fn serialize_record_writes_entries_in_order() {
    let table = Some(vec![
        ("A".to_string(), "true".to_string()),
        ("B".to_string(), "0".to_string()),
    ]);
    assert_eq!(serialize_param_table(&table), "{A = true, B = 0}");
}

#[test]
fn serialize_then_parse_is_fresh() {
    // A rebuilt pragma records the effective values; parsing it again under
    // the same environment must not ask for another rebuild.
    let e = env(&[("A", "false")]);
    let (params, rebuild) = parse_param_table("-- {A=true, B=1}", &e).unwrap();
    assert!(rebuild);
    let written = serialize_param_table(&params);
    let mut line = String::from("-- luajit-pro ");
    line.push_str(&written);
    let (reparsed, rebuild_again) = parse_param_table(&line, &e).unwrap();
    assert!(!rebuild_again);
    assert_eq!(
        reparsed.unwrap(),
        vec![("A".to_string(), "false".to_string()), ("B".to_string(), "1".to_string())]
    );
}

#[test]
fn split_string_keeps_empty_pieces() {
    let pieces = split_string("a,,b", ',');
    assert_eq!(pieces, vec!["a".to_string(), "".to_string(), "b".to_string()]);
}

#[test]
fn pragma_flags_read_markers() {
    let f = parse_pragma_flags("-- luajit-pro, teal, pretty, no-cache").unwrap();
    assert!(f.teal);
    assert!(!f.luau);
    assert!(f.pretty);
    assert!(f.no_cache);
    assert!(f.marked);
    assert!(!f.opt);
}

#[test]
fn pragma_flags_refuse_both_dialects() {
    let err = parse_pragma_flags("-- teal luau").unwrap_err();
    assert!(matches!(err, PpError::MixedDialects));
}

#[test]
fn cache_reuse_when_record_matches() {
    let d = decide_cache(false, false, false, true, true, 10, 20, "-- {A=true}", &env(&[]))
        .unwrap();
    assert!(matches!(d, CacheDecision::Reuse));
}

#[test]
fn cache_rebuild_on_override() {
    let d = decide_cache(
        false,
        false,
        false,
        true,
        true,
        10,
        20,
        "-- {A=true}",
        &env(&[("A", "false")]),
    )
    .unwrap();
    assert!(matches!(d, CacheDecision::Rebuild));
}

#[test]
fn cache_rebuild_on_newer_source() {
    let d = decide_cache(false, false, false, true, true, 30, 20, "-- {A=true}", &env(&[]))
        .unwrap();
    assert!(matches!(d, CacheDecision::Rebuild));
}

#[test]
fn cache_rebuild_when_bypassed() {
    let d = decide_cache(true, false, false, true, true, 10, 20, "-- {A=true}", &env(&[]))
        .unwrap();
    assert!(matches!(d, CacheDecision::Rebuild));
}

#[test]
fn strip_nl_keeps_only_terminated_lines() {
    assert_eq!(strip_nl("abc\n"), "abc");
    assert_eq!(strip_nl("abc"), "");
}

#[test]
fn merge_rewrites_pragma_and_keeps_marked_output() {
    let params = Some(vec![("A".to_string(), "true".to_string())]);
    let merged = merge_first_line(
        "-- luajit-pro {A = true}\n",
        &params,
        "-- luajit-pro {A = true}\nprint(1)\n",
    );
    assert_eq!(merged, "-- luajit-pro {A = true}\nprint(1)\n");
}

#[test]
fn merge_joins_unmarked_output_after_marked_pragma() {
    let merged = merge_first_line("-- luajit-pro\n", &None, "print(1)\nprint(2)\n");
    assert_eq!(merged, "-- luajit-pro print(1)\nprint(2)\n");
}

#[test]
fn merge_single_line_output_passes_through() {
    let merged = merge_first_line("-- luajit-pro\n", &None, "print(1)");
    assert_eq!(merged, "print(1)");
}
