//! Variable kind checks and inference, and the text utilities they rest
//! on.
use atento::data_type::DataType;
use atento::script::check_exec_request;
use atento::script::clean_stream;
use atento::script::filter_stderr;
use atento::script::marker_prefix;
use atento::script::split_args;
use atento::text::i64_to_string;
use atento::text::parse_i64_opt;
use atento::text::replace_all;
use atento::text::trim;
use atento::value::Value;
use atento::variable::infer_type;
use atento::variable::RawVariable;

#[test]
fn explicit_type_is_kept() {
    let raw = RawVariable {
        name: "x".to_string(),
        type_: Some(DataType::Int),
        value: Some(Value::Int(5)),
        ref_: None,
    };
    let v = raw.into_strict().unwrap();
    assert_eq!(v.type_, DataType::Int);
    assert_eq!(v.value, Some(Value::Int(5)));
}

#[test]
fn explicit_placeholder_type_is_refused() {
    let raw = RawVariable {
        name: "x".to_string(),
        type_: Some(DataType::Pending),
        value: None,
        ref_: None,
    };
    let e = raw.into_strict().unwrap_err();
    assert_eq!(e, "Variable 'x' type none is invalid - internal only");
}

#[test]
fn types_are_inferred_from_literals() {
    assert_eq!(infer_type(&Value::Int(1)), Some(DataType::Int));
    assert_eq!(infer_type(&Value::Float("1.5".into())), Some(DataType::Float));
    assert_eq!(infer_type(&Value::Bool(true)), Some(DataType::Bool));
    assert_eq!(infer_type(&Value::Str("plain text".into())), Some(DataType::String));
    assert_eq!(
        infer_type(&Value::Str("2021-06-01T10:00:00Z".into())),
        Some(DataType::DateTime)
    );
    assert_eq!(infer_type(&Value::Null), None);
    assert_eq!(infer_type(&Value::Other), None);
}

#[test]
fn uninferable_value_is_refused() {
    let raw = RawVariable { name: "x".to_string(), type_: None, value: Some(Value::Null), ref_: None };
    let e = raw.into_strict().unwrap_err();
    assert_eq!(e, "Cannot infer type for 'x'");
}

#[test]
fn bare_reference_keeps_placeholder_for_resolution() {
    let raw = RawVariable {
        name: "x".to_string(),
        type_: None,
        value: None,
        ref_: Some("config.y".to_string()),
    };
    let v = raw.into_strict().unwrap();
    assert_eq!(v.type_, DataType::Pending);
    assert_eq!(v.value, None);
    assert_eq!(v.ref_, Some("config.y".to_string()));
}

#[test]
fn variable_with_nothing_is_refused() {
    let raw = RawVariable { name: "x".to_string(), type_: None, value: None, ref_: None };
    let e = raw.into_strict().unwrap_err();
    assert_eq!(e, "Variable 'x' missing type, value, and ref");
}

#[test]
fn marker_prefix_constant() {
    assert_eq!(marker_prefix(), "OUT__");
}

#[test]
fn interpreter_args_split_into_arguments() {
    assert_eq!(split_args("bash -c"), vec!["bash".to_string(), "-c".to_string()]);
    assert_eq!(split_args("  bash   -c  "), vec!["bash".to_string(), "-c".to_string()]);
    assert_eq!(split_args("   "), Vec::<String>::new());
}

#[test]
fn empty_requests_are_refused() {
    assert_eq!(
        check_exec_request("", "bash -c").unwrap_err(),
        "Please provide the script to run"
    );
    assert_eq!(check_exec_request("true", "").unwrap_err(), "Please provide the args to run");
    assert_eq!(check_exec_request("true", "  ").unwrap_err(), "empty args");
    assert!(check_exec_request("true", "bash -c").is_ok());
}

#[test]
fn streams_are_cleaned_and_filtered() {
    assert_eq!(clean_stream("  hi  \n"), Some("hi".to_string()));
    assert_eq!(clean_stream("   \n\t"), None);
    assert_eq!(
        filter_stderr("real error\n[Perftrack] noise\nNamedPipeIPC chatter\nmore"),
        "real error\nmore"
    );
}

#[test]
fn integer_text_round_trips_at_the_edges() {
    assert_eq!(i64_to_string(0), "0");
    assert_eq!(i64_to_string(i64::MIN), "-9223372036854775808");
    assert_eq!(i64_to_string(i64::MAX), "9223372036854775807");
    assert_eq!(parse_i64_opt("-9223372036854775808"), Some(i64::MIN));
    assert_eq!(parse_i64_opt("9223372036854775807"), Some(i64::MAX));
    assert_eq!(parse_i64_opt("9223372036854775808"), None);
    assert_eq!(parse_i64_opt("+42"), Some(42));
    assert_eq!(parse_i64_opt(""), None);
    assert_eq!(parse_i64_opt("-"), None);
    assert_eq!(parse_i64_opt("1 2"), None);
}

#[test]
fn replace_all_scans_left_to_right() {
    assert_eq!(replace_all("aaa", "aa", "b"), "ba");
    assert_eq!(replace_all("{{ x }} and {{ x }}", "{{ x }}", "v"), "v and v");
    assert_eq!(trim("\t x y \n"), "x y");
}
