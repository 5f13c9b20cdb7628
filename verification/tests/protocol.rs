//! The script marshaling protocol: input rendering, the capture footer,
//! and marker decoding.
use atento::bash::complete_step;
use atento::bash::decode_output;
use atento::bash::escape;
use atento::bash::render_script;
use atento::bash::to_input;
use atento::bash::to_output;
use atento::data_type::DataType;
use atento::runner::RunnerResult;
use atento::step::Step;
use atento::value::Value;
use atento::variable::Variable;

fn var(name: &str, type_: DataType, value: Option<Value>, ref_: Option<&str>) -> Variable {
    Variable { name: name.to_string(), type_, value, ref_: ref_.map(|r| r.to_string()) }
}

fn step_with(inputs: Vec<Variable>, script: &str, outputs: Vec<Variable>) -> Step {
    Step {
        id: None,
        name: "s1".to_string(),
        type_: "script::bash".to_string(),
        inputs,
        script: script.to_string(),
        outputs,
    }
}

#[test]
fn escape_embedded_single_quote() {
    assert_eq!(escape("a'b"), "a'\\''b");
    assert_eq!(escape("no quotes"), "no quotes");
    assert_eq!(escape("''"), "'\\'''\\''");
}

#[test]
fn input_literals_per_type() {
    let s = var("x", DataType::String, Some(Value::Str("it's".into())), None);
    assert_eq!(to_input(&s), "it'\\''s");
    let b = var("x", DataType::Bool, Some(Value::Bool(true)), None);
    assert_eq!(to_input(&b), "true");
    let b = var("x", DataType::Bool, Some(Value::Bool(false)), None);
    assert_eq!(to_input(&b), "false");
    let i = var("x", DataType::Int, Some(Value::Int(-42)), None);
    assert_eq!(to_input(&i), "-42");
    let f = var("x", DataType::Float, Some(Value::Float("2.5".into())), None);
    assert_eq!(to_input(&f), "2.5");
    let d = var(
        "x",
        DataType::DateTime,
        Some(Value::Str("2020-01-02T03:04:05Z".into())),
        None,
    );
    assert_eq!(to_input(&d), "2020-01-02T03:04:05+00:00");
    // an invalid date-time is emitted unchanged
    let d = var("x", DataType::DateTime, Some(Value::Str("not a date".into())), None);
    assert_eq!(to_input(&d), "not a date");
    // absent values and mismatched types render empty
    let none = var("x", DataType::String, None, None);
    assert_eq!(to_input(&none), "");
    let mismatch = var("x", DataType::Int, Some(Value::Str("5".into())), None);
    assert_eq!(to_input(&mismatch), "");
}

#[test]
fn footer_line_shape() {
    let v = var("echoed", DataType::String, None, None);
    assert_eq!(to_output(&v), "echo \"OUT__echoed=$echoed\"");
}

#[test]
fn greeting_scenario_renders_and_strips() {
    // one config-referencing input, one declared output
    let input = var(
        "greeting",
        DataType::String,
        Some(Value::Str("hello".into())),
        Some("config.greeting"),
    );
    let output = var("echoed", DataType::String, None, None);
    let mut step = step_with(vec![input], "echo '{{ greeting }}'", vec![output]);
    let rendered = render_script(&step);
    assert_eq!(rendered, "echo 'hello'\necho \"OUT__echoed=$echoed\"");

    // the script prints `hello`, and the footer echoes the unassigned
    // shell variable as an empty capture
    let stdout = Some("hello\nOUT__echoed=".to_string());
    let cleaned = decode_output(&mut step, stdout);
    assert_eq!(cleaned, Some("hello".to_string()));
    // capture is opt-in: without a shell-side assignment the captured
    // text is empty
    assert_eq!(step.outputs[0].value, Some(Value::Str(String::new())));
}

#[test]
fn float_output_non_numeric_decodes_to_null() {
    let output = var("f", DataType::Float, None, None);
    let mut step = step_with(vec![], "true", vec![output]);
    let cleaned = decode_output(&mut step, Some("OUT__f=abc".to_string()));
    assert_eq!(cleaned, Some(String::new()));
    assert_eq!(step.outputs[0].value, Some(Value::Null));
}

#[test]
fn int_output_non_numeric_decodes_to_zero() {
    let output = var("n", DataType::Int, None, None);
    let mut step = step_with(vec![], "true", vec![output]);
    decode_output(&mut step, Some("OUT__n=abc".to_string()));
    assert_eq!(step.outputs[0].value, Some(Value::Int(0)));
}

#[test]
fn marker_lines_removed_even_without_matching_output() {
    let mut step = step_with(vec![], "true", vec![]);
    let cleaned = decode_output(
        &mut step,
        Some("a\nOUT__unknown=1\nb\nOUT__another\nc".to_string()),
    );
    assert_eq!(cleaned, Some("a\nb\nc".to_string()));
}

#[test]
fn bool_round_trip_through_decode() {
    let v = var("b", DataType::Bool, Some(Value::Bool(true)), None);
    let lit = to_input(&v);
    let output = var("b", DataType::Bool, None, None);
    let mut step = step_with(vec![], "true", vec![output]);
    decode_output(&mut step, Some(format!("OUT__b={}", lit)));
    assert_eq!(step.outputs[0].value, Some(Value::Bool(true)));
}

#[test]
fn int_round_trip_through_decode() {
    let v = var("n", DataType::Int, Some(Value::Int(-9001)), None);
    let lit = to_input(&v);
    let output = var("n", DataType::Int, None, None);
    let mut step = step_with(vec![], "true", vec![output]);
    decode_output(&mut step, Some(format!("OUT__n={}", lit)));
    assert_eq!(step.outputs[0].value, Some(Value::Int(-9001)));
}

#[test]
fn int_extremes_parse_and_overflow_defaults() {
    let output = var("n", DataType::Int, None, None);
    let mut step = step_with(vec![], "true", vec![output]);
    decode_output(&mut step, Some("OUT__n=9223372036854775807".to_string()));
    assert_eq!(step.outputs[0].value, Some(Value::Int(i64::MAX)));
    decode_output(&mut step, Some("OUT__n=-9223372036854775808".to_string()));
    assert_eq!(step.outputs[0].value, Some(Value::Int(i64::MIN)));
    decode_output(&mut step, Some("OUT__n=9223372036854775808".to_string()));
    assert_eq!(step.outputs[0].value, Some(Value::Int(0)));
}

#[test]
fn datetime_round_trip_normalizes() {
    let output = var("d", DataType::DateTime, None, None);
    let mut step = step_with(vec![], "true", vec![output]);
    decode_output(&mut step, Some("OUT__d=2020-01-02T03:04:05Z".to_string()));
    assert_eq!(
        step.outputs[0].value,
        Some(Value::Str("2020-01-02T03:04:05+00:00".to_string()))
    );
    // renormalizing the normal form leaves it unchanged
    decode_output(&mut step, Some("OUT__d=2020-01-02T03:04:05+00:00".to_string()));
    assert_eq!(
        step.outputs[0].value,
        Some(Value::Str("2020-01-02T03:04:05+00:00".to_string()))
    );
}

#[test]
fn float_decode_canonicalizes() {
    let output = var("f", DataType::Float, None, None);
    let mut step = step_with(vec![], "true", vec![output]);
    decode_output(&mut step, Some("OUT__f=2.50".to_string()));
    assert_eq!(step.outputs[0].value, Some(Value::Float("2.5".to_string())));
    decode_output(&mut step, Some("OUT__f=42".to_string()));
    assert_eq!(step.outputs[0].value, Some(Value::Float("42".to_string())));
}

#[test]
fn string_decode_strips_one_quote_layer() {
    let output = var("s", DataType::String, None, None);
    let mut step = step_with(vec![], "true", vec![output]);
    decode_output(&mut step, Some("OUT__s=\"hi\"".to_string()));
    assert_eq!(step.outputs[0].value, Some(Value::Str("hi".to_string())));
    decode_output(&mut step, Some("OUT__s=\"\"wrapped\"\"".to_string()));
    assert_eq!(step.outputs[0].value, Some(Value::Str("\"wrapped\"".to_string())));
}

#[test]
fn string_with_quote_survives_shell_round_trip() {
    // what the shell prints for the quoted literal of `it's` is the
    // original text; decoding returns it unchanged
    let s = "it's";
    let output = var("s", DataType::String, None, None);
    let mut step = step_with(vec![], "true", vec![output]);
    decode_output(&mut step, Some(format!("OUT__s={}", s)));
    assert_eq!(step.outputs[0].value, Some(Value::Str(s.to_string())));
}

#[test]
fn later_marker_wins_and_value_keeps_equals_signs() {
    let output = var("s", DataType::String, None, None);
    let mut step = step_with(vec![], "true", vec![output]);
    decode_output(&mut step, Some("OUT__s=first\nOUT__s=a=b=c".to_string()));
    assert_eq!(step.outputs[0].value, Some(Value::Str("a=b=c".to_string())));
}

#[test]
fn absent_stdout_leaves_outputs_alone() {
    let output = var("s", DataType::String, None, None);
    let mut step = step_with(vec![], "true", vec![output]);
    let cleaned = decode_output(&mut step, None);
    assert_eq!(cleaned, None);
    assert_eq!(step.outputs[0].value, None);
}

#[test]
fn complete_step_decodes_on_success() {
    let output = var("n", DataType::Int, None, None);
    let mut step = step_with(vec![], "true", vec![output]);
    let record = complete_step(
        &mut step,
        Ok(RunnerResult {
            exit_code: 3,
            duration_ms: 7,
            stdout: Some("x\nOUT__n=5".to_string()),
            stderr: Some("warning".to_string()),
            outputs: None,
        }),
    );
    assert_eq!(record.exit_code, 3);
    assert_eq!(record.duration_ms, 7);
    assert_eq!(record.stdout, Some("x".to_string()));
    assert_eq!(record.stderr, Some("warning".to_string()));
    assert!(record.outputs.is_none());
    assert_eq!(step.outputs[0].value, Some(Value::Int(5)));
}

#[test]
fn complete_step_absorbs_spawn_failure() {
    let output = var("n", DataType::Int, None, None);
    let mut step = step_with(vec![], "true", vec![output]);
    let record = complete_step(&mut step, Err("no such interpreter".to_string()));
    assert_eq!(record.exit_code, 0);
    assert_eq!(record.duration_ms, 0);
    assert!(record.stdout.is_none());
    assert!(record.stderr.is_none());
    assert!(record.outputs.is_none());
    assert_eq!(step.outputs[0].value, None);
}

#[test]
fn crlf_line_endings_are_handled() {
    let output = var("n", DataType::Int, None, None);
    let mut step = step_with(vec![], "true", vec![output]);
    let cleaned = decode_output(&mut step, Some("a\r\nOUT__n=5\r\nb".to_string()));
    assert_eq!(cleaned, Some("a\nb".to_string()));
    assert_eq!(step.outputs[0].value, Some(Value::Int(5)));
}

#[test]
fn float_exponent_decodes_to_plain_text() {
    let output = var("f", DataType::Float, None, None);
    let mut step = step_with(vec![], "true", vec![output]);
    decode_output(&mut step, Some("OUT__f=1e3".to_string()));
    assert_eq!(step.outputs[0].value, Some(Value::Float("1000.0".to_string())));
}

#[test]
fn render_without_outputs_is_trimmed_script() {
    let step = step_with(vec![], "  echo hi  ", vec![]);
    assert_eq!(render_script(&step), "echo hi");
}
