//! The validation pass: registry construction, reference resolution and
//! type propagation, and runner dispatch.
use atento::data_type::DataType;
use atento::error::ValidationError;
use atento::runner::Runner;
use atento::runner::RunnerKind;
use atento::step::Step;
use atento::value::Value;
use atento::variable::Variable;
use atento::workflow::Workflow;

fn var(name: &str, type_: DataType, value: Option<Value>, ref_: Option<&str>) -> Variable {
    Variable { name: name.to_string(), type_, value, ref_: ref_.map(|r| r.to_string()) }
}

fn step(id: Option<&str>, name: &str, inputs: Vec<Variable>, outputs: Vec<Variable>) -> Step {
    Step {
        id: id.map(|i| i.to_string()),
        name: name.to_string(),
        type_: "script::bash".to_string(),
        inputs,
        script: "true".to_string(),
        outputs,
    }
}

fn workflow(config: Vec<Variable>, steps: Vec<Step>, results: Vec<Variable>) -> Workflow {
    Workflow::new(None, None, None, config, steps, results)
}

#[test]
fn duplicate_config_variable_is_refused() {
    let mut wf = workflow(
        vec![
            var("x", DataType::String, Some(Value::Str("a".into())), None),
            var("x", DataType::String, Some(Value::Str("b".into())), None),
        ],
        vec![],
        vec![],
    );
    match wf.validate() {
        Err(ValidationError::DuplicateVariable { key }) => {
            assert_eq!(key, "config.x");
        },
        other => panic!("expected DuplicateVariable, got {:?}", other.is_ok()),
    }
}

#[test]
fn duplicate_variable_message_names_the_key() {
    let mut wf = workflow(
        vec![
            var("x", DataType::Int, Some(Value::Int(1)), None),
            var("x", DataType::Int, Some(Value::Int(2)), None),
        ],
        vec![],
        vec![],
    );
    let e = wf.validate().unwrap_err();
    assert_eq!(e.message(), "Duplicate variable 'config.x'");
}

#[test]
fn duplicate_output_across_steps_with_same_identity() {
    // two steps sharing an identity collide in the outputs namespace
    let s1 = step(Some("s"), "first", vec![], vec![var("o", DataType::String, None, None)]);
    let s2 = step(Some("s"), "second", vec![], vec![var("o", DataType::String, None, None)]);
    let mut wf = workflow(vec![], vec![s1, s2], vec![]);
    match wf.validate() {
        Err(ValidationError::DuplicateVariable { key }) => {
            assert_eq!(key, "steps.s.outputs.o");
        },
        _ => panic!("expected DuplicateVariable"),
    }
}

#[test]
fn distinct_step_identities_do_not_collide() {
    let s1 = step(Some("a"), "same", vec![], vec![var("o", DataType::String, None, None)]);
    let s2 = step(Some("b"), "same", vec![], vec![var("o", DataType::String, None, None)]);
    let mut wf = workflow(vec![], vec![s1, s2], vec![]);
    assert!(wf.validate().is_ok());
}

#[test]
fn unresolved_reference_is_refused_before_execution() {
    let input = var("i", DataType::Pending, None, Some("config.missing"));
    let mut wf = workflow(vec![], vec![step(None, "s1", vec![input], vec![])], vec![]);
    match wf.validate() {
        Err(ValidationError::UnresolvedReference { reference, step }) => {
            assert_eq!(reference, "config.missing");
            assert_eq!(step, "s1");
        },
        _ => panic!("expected UnresolvedReference"),
    }
    // no partial side effects: the input still carries the placeholder
    assert_eq!(wf.steps[0].inputs[0].type_, DataType::Pending);
    assert_eq!(wf.steps[0].inputs[0].value, None);
}

#[test]
fn unresolved_reference_message() {
    let input = var("i", DataType::Pending, None, Some("config.missing"));
    let mut wf = workflow(vec![], vec![step(None, "s1", vec![input], vec![])], vec![]);
    let e = wf.validate().unwrap_err();
    assert_eq!(e.message(), "Unresolved reference 'config.missing' in step 's1'");
}

#[test]
fn explicit_type_disagreeing_with_reference_is_refused() {
    let cfg = var("x", DataType::String, Some(Value::Str("hello".into())), None);
    let input = var("i", DataType::Int, None, Some("config.x"));
    let mut wf = workflow(vec![cfg], vec![step(None, "s1", vec![input], vec![])], vec![]);
    match wf.validate() {
        Err(ValidationError::TypeMismatch { reference, expected, found }) => {
            assert_eq!(reference, "config.x");
            assert_eq!(expected, DataType::Int);
            assert_eq!(found, DataType::String);
        },
        _ => panic!("expected TypeMismatch"),
    }
}

#[test]
fn type_mismatch_message() {
    let cfg = var("x", DataType::String, Some(Value::Str("hello".into())), None);
    let input = var("i", DataType::Int, None, Some("config.x"));
    let mut wf = workflow(vec![cfg], vec![step(None, "s1", vec![input], vec![])], vec![]);
    let e = wf.validate().unwrap_err();
    assert_eq!(e.message(), "Type mismatch for 'config.x': int expected, found string");
}

#[test]
fn pending_input_inherits_referenced_type_and_value() {
    let cfg = var("greeting", DataType::String, Some(Value::Str("hello".into())), None);
    let input = var("greeting", DataType::Pending, None, Some("config.greeting"));
    let mut wf = workflow(vec![cfg], vec![step(None, "s1", vec![input], vec![])], vec![]);
    assert!(wf.validate().is_ok());
    assert_eq!(wf.steps[0].inputs[0].type_, DataType::String);
    assert_eq!(wf.steps[0].inputs[0].value, Some(Value::Str("hello".to_string())));
}

#[test]
fn matching_explicit_type_keeps_local_value() {
    let cfg = var("x", DataType::Int, Some(Value::Int(1)), None);
    let input = var("i", DataType::Int, Some(Value::Int(9)), Some("config.x"));
    let mut wf = workflow(vec![cfg], vec![step(None, "s1", vec![input], vec![])], vec![]);
    assert!(wf.validate().is_ok());
    // explicit value plus explicit type take precedence over the
    // reference as the source of truth
    assert_eq!(wf.steps[0].inputs[0].value, Some(Value::Int(9)));
}

#[test]
fn input_without_value_or_reference_is_refused() {
    let input = var("i", DataType::String, None, None);
    let mut wf = workflow(vec![], vec![step(None, "s1", vec![input], vec![])], vec![]);
    match wf.validate() {
        Err(ValidationError::MissingValue { input, step }) => {
            assert_eq!(input, "i");
            assert_eq!(step, "s1");
        },
        _ => panic!("expected MissingValue"),
    }
}

#[test]
fn missing_value_message() {
    let input = var("i", DataType::String, None, None);
    let mut wf = workflow(vec![], vec![step(None, "s1", vec![input], vec![])], vec![]);
    let e = wf.validate().unwrap_err();
    assert_eq!(e.message(), "Input 'i' in step 's1' has no value or ref");
}

#[test]
fn pending_output_inherits_referenced_type() {
    let res = var("r", DataType::Int, None, Some("steps.s1.outputs.o"));
    let out = var("o", DataType::Pending, None, Some("results.r"));
    let mut wf = workflow(vec![], vec![step(None, "s1", vec![], vec![out])], vec![res]);
    assert!(wf.validate().is_ok());
    assert_eq!(wf.steps[0].outputs[0].type_, DataType::Int);
}

#[test]
fn chained_reference_to_pending_entry_is_refused() {
    // `results.r` is itself declared with only a reference, so its
    // registry snapshot still carries the placeholder; an input
    // referencing it cannot take a concrete type and must be refused
    let res = var("r", DataType::Pending, None, Some("steps.s1.outputs.o"));
    let input = var("i", DataType::Pending, None, Some("results.r"));
    let out = var("o", DataType::String, None, None);
    let mut wf = workflow(vec![], vec![step(None, "s1", vec![input], vec![out])], vec![res]);
    match wf.validate() {
        Err(ValidationError::UnresolvedReference { reference, step }) => {
            assert_eq!(reference, "results.r");
            assert_eq!(step, "s1");
        },
        _ => panic!("expected UnresolvedReference"),
    }
    // and no placeholder leaked onto the input
    assert_eq!(wf.steps[0].inputs[0].type_, DataType::Pending);
}

#[test]
fn output_chained_to_pending_entry_is_refused() {
    let res = var("r", DataType::Pending, None, Some("config.x"));
    let out = var("o", DataType::Pending, None, Some("results.r"));
    let mut wf = workflow(
        vec![var("x", DataType::Int, Some(Value::Int(1)), None)],
        vec![step(None, "s1", vec![], vec![out])],
        vec![res],
    );
    match wf.validate() {
        Err(ValidationError::UnresolvedReference { reference, step }) => {
            assert_eq!(reference, "results.r");
            assert_eq!(step, "s1");
        },
        _ => panic!("expected UnresolvedReference"),
    }
}

#[test]
fn placeholder_input_without_reference_is_refused() {
    let input = var("i", DataType::Pending, Some(Value::Int(1)), None);
    let mut wf = workflow(vec![], vec![step(None, "s1", vec![input], vec![])], vec![]);
    match wf.validate() {
        Err(ValidationError::MissingValue { input, step }) => {
            assert_eq!(input, "i");
            assert_eq!(step, "s1");
        },
        _ => panic!("expected MissingValue"),
    }
}

#[test]
fn no_placeholder_survives_successful_validation() {
    let cfg = var("x", DataType::Int, Some(Value::Int(7)), None);
    let input = var("i", DataType::Pending, None, Some("config.x"));
    let out = var("o", DataType::Pending, None, Some("results.r"));
    let res = var("r", DataType::Float, None, None);
    let mut wf = workflow(vec![cfg], vec![step(None, "s1", vec![input], vec![out])], vec![res]);
    assert!(wf.validate().is_ok());
    assert_eq!(wf.steps[0].inputs[0].type_, DataType::Int);
    assert_eq!(wf.steps[0].outputs[0].type_, DataType::Float);
}

#[test]
fn finish_result_carries_config_and_result_bindings() {
    let cfg = var("greeting", DataType::String, Some(Value::Str("hello".into())), None);
    let res = var("r", DataType::String, None, None);
    let mut out = var("o", DataType::String, None, Some("results.r"));
    out.value = Some(Value::Str("captured".into()));
    let mut wf = workflow(vec![cfg], vec![step(None, "s1", vec![], vec![out])], vec![res]);
    let mut result = wf.begin_result();
    wf.bind_step_results(0);
    wf.finish_result(&mut result);
    assert_eq!(
        result.config,
        vec![("greeting".to_string(), Value::Str("hello".to_string()))]
    );
    assert_eq!(
        result.results,
        vec![("r".to_string(), Value::Str("captured".to_string()))]
    );
}

#[test]
fn finish_result_carries_absent_values_as_null() {
    let res = var("r", DataType::String, None, None);
    let wf = workflow(vec![], vec![], vec![res]);
    let mut result = wf.begin_result();
    wf.finish_result(&mut result);
    assert_eq!(result.results, vec![("r".to_string(), Value::Null)]);
}

#[test]
fn unknown_runner_type_is_fatal() {
    let wf = workflow(vec![], vec![step(None, "s1", vec![], vec![])], vec![]);
    let e = wf.runner_for_step(0).unwrap_err();
    assert_eq!(e.message(), "Runner 'script::bash' not registered");
}

#[test]
fn registered_runner_is_dispatched() {
    let mut wf = workflow(vec![], vec![step(None, "s1", vec![], vec![])], vec![]);
    wf.register(Runner { type_: "script::bash".to_string(), kind: RunnerKind::Bash });
    assert_eq!(wf.runner_for_step(0).unwrap(), RunnerKind::Bash);
    assert_eq!(wf.find_runner("script::bash"), Some(RunnerKind::Bash));
    assert_eq!(wf.find_runner("script::powershell"), None);
}

#[test]
fn step_outputs_fold_into_referencing_results() {
    let res = var("r", DataType::String, None, None);
    let mut out = var("o", DataType::String, None, Some("results.r"));
    out.value = Some(Value::Str("captured".into()));
    let mut wf = workflow(vec![], vec![step(None, "s1", vec![], vec![out])], vec![res]);
    wf.bind_step_results(0);
    assert_eq!(wf.results[0].value, Some(Value::Str("captured".to_string())));
}

#[test]
fn begin_result_carries_identity() {
    let wf = Workflow::new(
        Some("flow".to_string()),
        Some("1.0".to_string()),
        Some(30),
        vec![],
        vec![],
        vec![],
    );
    let r = wf.begin_result();
    assert_eq!(r.name, Some("flow".to_string()));
    assert_eq!(r.version, Some("1.0".to_string()));
    assert_eq!(r.duration, 0);
    assert!(r.config.is_empty() && r.results.is_empty() && r.out.is_empty());
}
