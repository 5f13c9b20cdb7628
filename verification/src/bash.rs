//! The bash script runner: templating of inputs into a literal script
//! body, the output-capture footer, and decoding of the marker protocol
//! from captured stdout.
use vstd::prelude::*;

use crate::data_type::DataType;
use crate::normalize::normalize_datetime;
use crate::normalize::normalize_float;
use crate::normalize::float_norm;
use crate::normalize::rfc3339_norm;
use crate::runner::RunnerResult;
use crate::script::prefix_spec;
use crate::step::Step;
use crate::step::StepV;
use crate::text::all_digits;
use crate::text::bool_of_text;
use crate::text::digit_char;
use crate::text::digit_val;
use crate::text::digits_val;
use crate::text::find_char_spec;
use crate::text::lemma_find_char;
use crate::text::i64_text;
use crate::text::i64_to_string;
use crate::text::join_spec;
use crate::text::join_with;
use crate::text::lines_of;
use crate::text::lines_spec;
use crate::text::parse_bool_text;
use crate::text::parse_i64_opt;
use crate::text::is_digit;
use crate::text::nat_text;
use crate::text::parse_i64_spec;
use crate::text::replace_all;
use crate::text::replace_spec;
use crate::text::split_once_at;
use crate::text::split_once_spec;
use crate::text::starts_with;
use crate::text::starts_with_spec;
use crate::text::str_eq;
use crate::text::strip_quotes;
use crate::text::strip_quotes_spec;
use crate::text::trim;
use crate::text::trim_spec;
use crate::value::Value;
use crate::value::ValueV;
use crate::variable::Variable;
use crate::variable::VariableV;

verus! {

/// The interpreter invocation for this runner.
pub fn interpreter_args() -> (r: &'static str)
    ensures
        r@ == "bash -c"@,
{
    "bash -c"
}

/// The file extension hint for this runner's temporary script artifacts.
pub fn extension() -> (r: &'static str)
    ensures
        r@ == ".sh"@,
{
    ".sh"
}

/// Shell-escape a string for inclusion inside a single-quoted token:
/// every single-quote character becomes the four-character sequence
/// `'\''` (close quote, escaped quote, reopen quote). The wrapping quotes
/// are the script body's own responsibility.
pub open spec fn escape_spec(s: Seq<char>) -> Seq<char>
    decreases s.len(),
{
    if s.len() == 0 {
        Seq::<char>::empty()
    } else if s[0] == '\'' {
        seq!['\'', '\\', '\'', '\''] + escape_spec(s.skip(1))
    } else {
        seq![s[0]] + escape_spec(s.skip(1))
    }
}

pub fn escape(s: &str) -> (r: String)
    ensures
        r@ == escape_spec(s@),
{
    proof {
        reveal_strlit("'");
        reveal_strlit("'\\''");
        assert("'"@ =~= seq!['\'']);
        assert("'\\''"@ =~= seq!['\'', '\\', '\'', '\'']);
    }
    let r = replace_all(s, "'", "'\\''");
    proof {
        lemma_escape_is_replace(s@);
    }
    r
}

/// `escape_spec` is exactly a replacement of each single quote by the
/// escape sequence.
proof fn lemma_escape_is_replace(s: Seq<char>)
    ensures
        replace_spec(s, seq!['\''], seq!['\'', '\\', '\'', '\'']) == escape_spec(s),
    decreases s.len(),
{
    let pat = seq!['\''];
    let sub = seq!['\'', '\\', '\'', '\''];
    if s.len() == 0 {
        assert(replace_spec(s, pat, sub) =~= escape_spec(s));
    } else {
        lemma_escape_is_replace(s.skip(1));
        if s[0] == '\'' {
            assert(s.subrange(0, 1) =~= pat);
            assert(replace_spec(s, pat, sub) == sub + replace_spec(s.skip(1), pat, sub));
        } else {
            assert(s.subrange(0, 1) != pat) by {
                assert(s.subrange(0, 1)[0] == s[0]);
            }
            assert(replace_spec(s, pat, sub) == seq![s[0]] + replace_spec(s.skip(1), pat, sub));
        }
    }
}

/// The textual literal substituted for one input variable: its value
/// rendered for its declared type, or the empty string when the value is
/// absent or does not fit the type.
pub open spec fn input_literal(v: VariableV) -> Seq<char> {
    match v.value {
        Option::None => Seq::<char>::empty(),
        Option::Some(val) => match v.type_ {
            DataType::String => match val {
                ValueV::Str(s) => escape_spec(s),
                _ => Seq::<char>::empty(),
            },
            DataType::Bool => match val {
                ValueV::Bool(b) => if b {
                    "true"@
                } else {
                    "false"@
                },
                _ => Seq::<char>::empty(),
            },
            DataType::Int => match val {
                ValueV::Int(i) => i64_text(i),
                _ => Seq::<char>::empty(),
            },
            DataType::Float => match val {
                ValueV::Float(t) => t,
                ValueV::Int(i) => i64_text(i),
                _ => Seq::<char>::empty(),
            },
            DataType::DateTime => match val {
                ValueV::Str(s) => match rfc3339_norm(s) {
                    Option::Some(t) => t,
                    Option::None => s,
                },
                _ => Seq::<char>::empty(),
            },
            DataType::Pending => Seq::<char>::empty(),
        },
    }
}

pub fn to_input(var: &Variable) -> (r: String)
    ensures
        r@ == input_literal(var@),
{
    match &var.value {
        Option::None => String::new(),
        Option::Some(val) => match var.type_ {
            DataType::String => match val {
                Value::Str(s) => escape(s.as_str()),
                _ => String::new(),
            },
            DataType::Bool => match val {
                Value::Bool(b) => if *b {
                    String::from_str("true")
                } else {
                    String::from_str("false")
                },
                _ => String::new(),
            },
            DataType::Int => match val {
                Value::Int(i) => i64_to_string(*i),
                _ => String::new(),
            },
            DataType::Float => match val {
                Value::Float(t) => t.clone(),
                Value::Int(i) => i64_to_string(*i),
                _ => String::new(),
            },
            DataType::DateTime => match val {
                Value::Str(s) => match normalize_datetime(s.as_str()) {
                    Option::Some(t) => t,
                    Option::None => s.clone(),
                },
                _ => String::new(),
            },
            DataType::Pending => String::new(),
        },
    }
}

/// The footer line echoing one declared output: the marker prefix, the
/// output's name, `=`, and the expansion of the same-named shell
/// variable, inside a double-quoted echo.
pub open spec fn footer_line(name: Seq<char>) -> Seq<char> {
    "echo \""@ + prefix_spec() + name + "=$"@ + name + "\""@
}

pub fn to_output(var: &Variable) -> (r: String)
    ensures
        r@ == footer_line(var@.name),
{
    let mut m = String::from_str("echo \"");
    m.append("OUT__");
    m.append(var.name.as_str());
    m.append("=$");
    m.append(var.name.as_str());
    m.append("\"");
    proof {
        assert(m@ =~= footer_line(var@.name));
    }
    m
}

/// The footer lines for a step's declared outputs, in declaration order.
pub open spec fn footer_spec(outputs: Seq<VariableV>) -> Seq<Seq<char>> {
    outputs.map_values(|v: VariableV| footer_line(v.name))
}

/// The script body before substitution: the template, the footer lines,
/// outer whitespace trimmed.
pub open spec fn render_base(step: StepV) -> Seq<char> {
    trim_spec(step.script + "\n"@ + join_spec(footer_spec(step.outputs), "\n"@) + "\n"@)
}

/// Each input's `{{ name }}` placeholder replaced by its literal, in
/// declaration order.
pub open spec fn apply_inputs(s: Seq<char>, inputs: Seq<VariableV>) -> Seq<char>
    decreases inputs.len(),
{
    if inputs.len() == 0 {
        s
    } else {
        apply_inputs(
            replace_spec(s, "{{ "@ + inputs[0].name + " }}"@, input_literal(inputs[0])),
            inputs.skip(1),
        )
    }
}

/// The fully rendered script for a step: template plus footer, then input
/// substitution.
pub open spec fn render_spec(step: StepV) -> Seq<char> {
    apply_inputs(render_base(step), step.inputs)
}

pub fn render_script(step: &Step) -> (r: String)
    ensures
        r@ == render_spec(step@),
{
    let mut footer: Vec<String> = Vec::new();
    let mut i: usize = 0;
    while i < step.outputs.len()
        invariant
            i <= step.outputs.len(),
            footer@.len() == i,
            footer.deep_view() == footer_spec(step.outputs.deep_view().take(i as int)),
        decreases step.outputs.len() - i,
    {
        let ghost prev = footer.deep_view();
        footer.push(to_output(&step.outputs[i]));
        proof {
            let dv = step.outputs.deep_view();
            assert forall|j: int| 0 <= j < i + 1 implies footer.deep_view()[j] == footer_spec(
                dv.take(i + 1),
            )[j] by {
                assert(footer_spec(dv.take(i + 1))[j] == footer_line(dv.take(i + 1)[j].name));
                if j < i {
                    assert(footer.deep_view()[j] == prev[j]);
                    assert(prev[j] == footer_spec(dv.take(i as int))[j]);
                    assert(footer_spec(dv.take(i as int))[j] == footer_line(
                        dv.take(i as int)[j].name,
                    ));
                } else {
                    assert(footer.deep_view()[j] == footer@[j]@);
                }
            }
            assert(footer.deep_view() =~= footer_spec(dv.take(i + 1)));
        }
        i = i + 1;
    }
    proof {
        assert(step.outputs.deep_view().take(step.outputs.len() as int) =~= step.outputs.deep_view());
    }
    let joined = join_with(&footer, "\n");
    let mut body = String::from_str(step.script.as_str());
    body.append("\n");
    body.append(joined.as_str());
    body.append("\n");
    proof {
        assert(body@ =~= step@.script + "\n"@ + join_spec(footer_spec(step@.outputs), "\n"@)
            + "\n"@);
    }
    let mut script = trim(body.as_str());
    let mut j: usize = 0;
    proof {
        assert(step@.inputs.skip(0) =~= step@.inputs);
    }
    while j < step.inputs.len()
        invariant
            j <= step.inputs.len(),
            step@.inputs.len() == step.inputs.len(),
            apply_inputs(script@, step@.inputs.skip(j as int)) == render_spec(step@),
        decreases step.inputs.len() - j,
    {
        let ghost cur = step@.inputs.skip(j as int);
        let input = &step.inputs[j];
        let mut pattern = String::from_str("{{ ");
        pattern.append(input.name.as_str());
        pattern.append(" }}");
        let lit = to_input(input);
        proof {
            assert(cur[0] == step@.inputs[j as int]);
            assert(cur.skip(1) =~= step@.inputs.skip(j + 1));
            assert(pattern@ == "{{ "@ + step@.inputs[j as int].name + " }}"@);
        }
        script = replace_all(script.as_str(), pattern.as_str(), lit.as_str());
        j = j + 1;
    }
    proof {
        assert(step@.inputs.skip(step.inputs.len() as int) =~= Seq::<VariableV>::empty());
    }
    script
}

/// A stdout line the protocol consumes: one beginning with the marker
/// prefix.
pub open spec fn marker_line(l: Seq<char>) -> bool {
    starts_with_spec(l, prefix_spec())
}

/// A captured raw text coerced to a declared output type. One layer of
/// surrounding double quotes is stripped first. Unparsable booleans
/// default to false and unparsable integers to zero; unparsable floats
/// and date-times decode to null.
pub open spec fn coerce_output(ty: DataType, raw: Seq<char>) -> ValueV {
    let t = strip_quotes_spec(raw);
    match ty {
        DataType::String => ValueV::Str(t),
        DataType::Bool => ValueV::Bool(bool_of_text(t)),
        DataType::Int => ValueV::Int(
            match parse_i64_spec(t) {
                Option::Some(v) => v,
                Option::None => 0,
            },
        ),
        DataType::Float => match float_norm(t) {
            Option::Some(c) => ValueV::Float(c),
            Option::None => ValueV::Null,
        },
        DataType::DateTime => match rfc3339_norm(t) {
            Option::Some(c) => ValueV::Str(c),
            Option::None => ValueV::Null,
        },
        DataType::Pending => ValueV::Null,
    }
}

pub fn coerce_output_exec(ty: DataType, raw: &str) -> (r: Value)
    ensures
        r@ == coerce_output(ty, raw@),
{
    let t = strip_quotes(raw);
    match ty {
        DataType::String => Value::Str(t),
        DataType::Bool => Value::Bool(parse_bool_text(t.as_str())),
        DataType::Int => Value::Int(
            match parse_i64_opt(t.as_str()) {
                Option::Some(v) => v,
                Option::None => 0,
            },
        ),
        DataType::Float => match normalize_float(t.as_str()) {
            Option::Some(c) => Value::Float(c),
            Option::None => Value::Null,
        },
        DataType::DateTime => match normalize_datetime(t.as_str()) {
            Option::Some(c) => Value::Str(c),
            Option::None => Value::Null,
        },
        DataType::Pending => Value::Null,
    }
}

/// Position of the first declared output with the given name.
pub open spec fn find_output_spec(outs: Seq<VariableV>, key: Seq<char>) -> Option<int>
    decreases outs.len(),
{
    if outs.len() == 0 {
        Option::None
    } else if outs[0].name == key {
        Option::Some(0int)
    } else {
        match find_output_spec(outs.skip(1), key) {
            Option::None => Option::None,
            Option::Some(i) => Option::Some(i + 1),
        }
    }
}

proof fn lemma_find_output(outs: Seq<VariableV>, key: Seq<char>)
    ensures
        match find_output_spec(outs, key) {
            Option::None => forall|j: int| 0 <= j < outs.len() ==> outs[j].name != key,
            Option::Some(i) => 0 <= i < outs.len() && outs[i].name == key && forall|j: int|
                0 <= j < i ==> outs[j].name != key,
        },
    decreases outs.len(),
{
    if outs.len() == 0 {
    } else if outs[0].name == key {
    } else {
        lemma_find_output(outs.skip(1), key);
        match find_output_spec(outs.skip(1), key) {
            Option::None => {
                assert forall|j: int| 0 <= j < outs.len() implies outs[j].name != key by {
                    if j > 0 {
                        assert(outs.skip(1)[j - 1] == outs[j]);
                    }
                }
            },
            Option::Some(i) => {
                assert(outs.skip(1)[i] == outs[i + 1]);
                assert forall|j: int| 0 <= j < i + 1 implies outs[j].name != key by {
                    if j > 0 {
                        assert(outs.skip(1)[j - 1] == outs[j]);
                    }
                }
            },
        }
    }
}

/// What one stdout line does to the declared outputs: a marker line whose
/// key names a declared output sets that output's value by coercion;
/// every other line leaves them unchanged.
pub open spec fn apply_marker_line(outs: Seq<VariableV>, l: Seq<char>) -> Seq<VariableV> {
    if !marker_line(l) {
        outs
    } else {
        let rest = l.skip(prefix_spec().len() as int);
        match split_once_spec(rest, '=') {
            Option::None => outs,
            Option::Some((key, raw)) => match find_output_spec(outs, key) {
                Option::None => outs,
                Option::Some(i) => outs.update(
                    i,
                    VariableV {
                        value: Option::Some(coerce_output(outs[i].type_, raw)),
                        ..outs[i]
                    },
                ),
            },
        }
    }
}

/// The declared outputs after every stdout line has been applied in
/// order.
pub open spec fn apply_markers(outs: Seq<VariableV>, ls: Seq<Seq<char>>) -> Seq<VariableV>
    decreases ls.len(),
{
    if ls.len() == 0 {
        outs
    } else {
        apply_markers(apply_marker_line(outs, ls[0]), ls.skip(1))
    }
}

/// The stdout lines that survive decoding: every marker line is removed,
/// whether or not its key matched a declared output.
pub open spec fn visible_lines(ls: Seq<Seq<char>>) -> Seq<Seq<char>>
    decreases ls.len(),
{
    if ls.len() == 0 {
        Seq::<Seq<char>>::empty()
    } else {
        (if marker_line(ls[0]) {
            Seq::<Seq<char>>::empty()
        } else {
            seq![ls[0]]
        }) + visible_lines(ls.skip(1))
    }
}

/// The stdout handed back to the caller after decoding: absent stdout
/// stays absent; otherwise the non-marker lines rejoined.
pub open spec fn decoded_stdout(stdout: Option<Seq<char>>) -> Option<Seq<char>> {
    match stdout {
        Option::None => Option::None,
        Option::Some(out) => Option::Some(join_spec(visible_lines(lines_spec(out)), "\n"@)),
    }
}

/// The declared outputs after decoding the captured stdout.
pub open spec fn decoded_outputs(outs: Seq<VariableV>, stdout: Option<Seq<char>>) -> Seq<
    VariableV,
> {
    match stdout {
        Option::None => outs,
        Option::Some(out) => apply_markers(outs, lines_spec(out)),
    }
}

/// Decode the marker protocol from captured stdout: set declared outputs
/// from matching marker lines, and return the stdout with every marker
/// line removed.
pub fn decode_output(step: &mut Step, stdout: Option<String>) -> (r: Option<String>)
    ensures
        final(step)@.outputs == decoded_outputs(old(step)@.outputs, stdout.deep_view()),
        final(step)@.id == old(step)@.id,
        final(step)@.name == old(step)@.name,
        final(step)@.type_ == old(step)@.type_,
        final(step)@.inputs == old(step)@.inputs,
        final(step)@.script == old(step)@.script,
        r.deep_view() == decoded_stdout(stdout.deep_view()),
{
    let out = match stdout {
        Option::None => {
            return Option::None;
        },
        Option::Some(s) => s,
    };
    let ls = lines_of(out.as_str());
    let mut visible: Vec<String> = Vec::new();
    let ghost all_lines = ls.deep_view();
    let ghost outs0 = old(step)@.outputs;
    let mut i: usize = 0;
    proof {
        assert(all_lines.skip(0) =~= all_lines);
        assert(visible.deep_view() + visible_lines(all_lines) =~= visible_lines(all_lines));
    }
    while i < ls.len()
        invariant
            i <= ls.len(),
            all_lines == ls.deep_view(),
            all_lines.len() == ls.len(),
            step@.id == old(step)@.id,
            step@.name == old(step)@.name,
            step@.type_ == old(step)@.type_,
            step@.inputs == old(step)@.inputs,
            step@.script == old(step)@.script,
            apply_markers(step@.outputs, all_lines.skip(i as int)) == apply_markers(
                outs0,
                all_lines,
            ),
            visible.deep_view() + visible_lines(all_lines.skip(i as int)) == visible_lines(
                all_lines,
            ),
        decreases ls.len() - i,
    {
        let ghost cur = all_lines.skip(i as int);
        let ghost prev_vis = visible.deep_view();
        let ghost prev_outs = step@.outputs;
        proof {
            assert(cur[0] == all_lines[i as int]);
            assert(cur.skip(1) =~= all_lines.skip(i + 1));
        }
        let line = &ls[i];
        if starts_with(line.as_str(), "OUT__") {
            proof {
                reveal_strlit("OUT__");
            }
            let llen = line.as_str().unicode_len();
            let rest = line.as_str().substring_char(5, llen);
            proof {
                assert(prefix_spec().len() == 5);
                assert(rest@ =~= line@.skip(prefix_spec().len() as int));
            }
            match split_once_at(rest, '=') {
                Option::None => {
                    proof {
                        assert(apply_marker_line(prev_outs, cur[0]) == prev_outs);
                    }
                },
                Option::Some((key, raw)) => {
                    // look for the first declared output with this name
                    let mut k: usize = 0;
                    let mut found = false;
                    let outs_len = step.outputs.len();
                    while k < outs_len && !found
                        invariant
                            outs_len == step.outputs.len(),
                            step@.outputs == prev_outs,
                            k <= outs_len,
                            prev_outs.len() == outs_len,
                            !found ==> forall|j: int|
                                0 <= j < k ==> prev_outs[j].name != key@,
                            found ==> k < outs_len && prev_outs[k as int].name == key@
                                && forall|j: int| 0 <= j < k ==> prev_outs[j].name != key@,
                        decreases outs_len - k, if found {
                            0int
                        } else {
                            1int
                        },
                    {
                        if str_eq(step.outputs[k].name.as_str(), key.as_str()) {
                            found = true;
                        } else {
                            k = k + 1;
                        }
                    }
                    if found {
                        let coerced = coerce_output_exec(step.outputs[k].type_, raw.as_str());
                        let mut updated = step.outputs[k].clone();
                        updated.value = Option::Some(coerced);
                        step.outputs.set(k, updated);
                        proof {
                            lemma_find_output(prev_outs, key@);
                            match find_output_spec(prev_outs, key@) {
                                Option::None => {
                                    assert(false);
                                },
                                Option::Some(fi) => {
                                    assert(fi == k as int);
                                },
                            }
                            assert(step@.outputs =~= prev_outs.update(
                                k as int,
                                VariableV {
                                    value: Option::Some(
                                        coerce_output(prev_outs[k as int].type_, raw@),
                                    ),
                                    ..prev_outs[k as int]
                                },
                            ));
                            assert(step@.outputs == apply_marker_line(prev_outs, cur[0]));
                        }
                    } else {
                        proof {
                            lemma_find_output(prev_outs, key@);
                            match find_output_spec(prev_outs, key@) {
                                Option::None => {},
                                Option::Some(fi) => {
                                    assert(prev_outs[fi].name != key@);
                                    assert(false);
                                },
                            }
                            assert(apply_marker_line(prev_outs, cur[0]) == prev_outs);
                        }
                    }
                },
            }
            proof {
                assert(visible.deep_view() + visible_lines(all_lines.skip(i + 1)) =~= prev_vis
                    + visible_lines(cur));
            }
        } else {
            visible.push(line.clone());
            proof {
                assert(apply_marker_line(prev_outs, cur[0]) == prev_outs);
                assert(visible.deep_view() =~= prev_vis.push(cur[0]));
                assert(visible.deep_view() + visible_lines(all_lines.skip(i + 1)) =~= prev_vis
                    + visible_lines(cur));
            }
        }
        i = i + 1;
    }
    proof {
        assert(all_lines.skip(ls.len() as int) =~= Seq::<Seq<char>>::empty());
        assert(visible.deep_view() =~= visible_lines(all_lines));
    }
    Option::Some(join_with(&visible, "\n"))
}

/// Fold a finished (or failed) execution into the step: on success the
/// marker protocol is decoded into the declared outputs and the record
/// carries the cleaned stdout; a spawn failure is absorbed into an empty
/// success record, the step untouched.
pub fn complete_step(step: &mut Step, outcome: Result<RunnerResult, String>) -> (r: RunnerResult)
    ensures
        match outcome {
            Result::Ok(o) => {
                &&& final(step)@.outputs == decoded_outputs(old(step)@.outputs, o@.stdout)
                &&& final(step)@.id == old(step)@.id
                &&& final(step)@.name == old(step)@.name
                &&& final(step)@.type_ == old(step)@.type_
                &&& final(step)@.inputs == old(step)@.inputs
                &&& final(step)@.script == old(step)@.script
                &&& r@.exit_code == o@.exit_code
                &&& r@.duration_ms == o@.duration_ms
                &&& r@.stdout == decoded_stdout(o@.stdout)
                &&& r@.stderr == o@.stderr
                &&& r@.outputs is None
            },
            Result::Err(_) => {
                &&& final(step)@ == old(step)@
                &&& r@.exit_code == 0
                &&& r@.duration_ms == 0
                &&& r@.stdout is None
                &&& r@.stderr is None
                &&& r@.outputs is None
            },
        },
{
    match outcome {
        Result::Ok(o) => {
            let stdout = decode_output(step, o.stdout);
            RunnerResult {
                exit_code: o.exit_code,
                duration_ms: o.duration_ms,
                stdout,
                stderr: o.stderr,
                outputs: Option::None,
            }
        },
        Result::Err(_) => RunnerResult {
            exit_code: 0,
            duration_ms: 0,
            stdout: Option::None,
            stderr: Option::None,
            outputs: Option::None,
        },
    }
}

/// How a POSIX shell reads the characters of a word: outside single
/// quotes a backslash escapes the next character and a single quote
/// opens quoting; inside single quotes every character but the closing
/// quote is literal.
pub open spec fn shell_unquote(s: Seq<char>, in_quote: bool) -> Seq<char>
    decreases s.len(),
{
    if s.len() == 0 {
        Seq::<char>::empty()
    } else if in_quote {
        if s[0] == '\'' {
            shell_unquote(s.skip(1), false)
        } else {
            seq![s[0]] + shell_unquote(s.skip(1), true)
        }
    } else {
        if s[0] == '\'' {
            shell_unquote(s.skip(1), true)
        } else if s[0] == '\\' && s.len() >= 2 {
            seq![s[1]] + shell_unquote(s.skip(2), false)
        } else {
            seq![s[0]] + shell_unquote(s.skip(1), false)
        }
    }
}

proof fn lemma_escape_unquote(s: Seq<char>)
    ensures
        shell_unquote(escape_spec(s) + seq!['\''], true) == s,
    decreases s.len(),
{
    if s.len() == 0 {
        let q = seq!['\''];
        assert(escape_spec(s) + q =~= q);
        assert(q.len() == 1);
        assert(q[0] == '\'');
        assert(q.skip(1) =~= Seq::<char>::empty());
        assert(shell_unquote(q, true) == shell_unquote(q.skip(1), false));
        assert(shell_unquote(Seq::<char>::empty(), false) =~= Seq::<char>::empty());
        assert(shell_unquote(q, true) =~= Seq::<char>::empty());
    } else if s[0] == '\'' {
        lemma_escape_unquote(s.skip(1));
        let w = escape_spec(s) + seq!['\''];
        let tail = escape_spec(s.skip(1)) + seq!['\''];
        assert(w =~= seq!['\'', '\\', '\'', '\''] + tail);
        assert(w[0] == '\'');
        assert(w.skip(1) =~= seq!['\\', '\'', '\''] + tail);
        let w1 = seq!['\\', '\'', '\''] + tail;
        assert(w1[0] == '\\' && w1.len() >= 2);
        assert(w1[1] == '\'');
        assert(w1.skip(2) =~= seq!['\''] + tail);
        let w2 = seq!['\''] + tail;
        assert(w2[0] == '\'');
        assert(w2.skip(1) =~= tail);
        assert(shell_unquote(w, true) == shell_unquote(w1, false));
        assert(shell_unquote(w1, false) == seq![w1[1]] + shell_unquote(w1.skip(2), false));
        assert(shell_unquote(w1.skip(2), false) == shell_unquote(w2, false));
        assert(shell_unquote(w2, false) == shell_unquote(tail, true));
        assert(shell_unquote(w, true) =~= seq!['\''] + s.skip(1));
        assert(seq!['\''] + s.skip(1) =~= s);
    } else {
        lemma_escape_unquote(s.skip(1));
        let w = escape_spec(s) + seq!['\''];
        let tail = escape_spec(s.skip(1)) + seq!['\''];
        assert(w =~= seq![s[0]] + tail);
        assert(w[0] == s[0]);
        assert(w.skip(1) =~= tail);
        assert(shell_unquote(w, true) =~= seq![s[0]] + s.skip(1));
        assert(seq![s[0]] + s.skip(1) =~= s);
    }
}

/// Law: a string rendered as its escaped script literal and placed
/// inside a single-quoted shell token evaluates, under shell quoting
/// rules, back to the original string — for every string, including
/// those containing single quotes and backslashes.
pub proof fn lemma_escape_shell_roundtrip(s: Seq<char>)
    ensures
        shell_unquote(seq!['\''] + escape_spec(s) + seq!['\''], false) == s,
{
    lemma_escape_unquote(s);
    let w = seq!['\''] + escape_spec(s) + seq!['\''];
    assert(w[0] == '\'');
    assert(w.skip(1) =~= escape_spec(s) + seq!['\'']);
}

/// Law: a string value encoded as its script literal, evaluated by the
/// shell inside single quotes, echoed and decoded as a `String` output,
/// is returned unchanged — provided it does not begin and does not end
/// with a double quote (decoding strips one layer of surrounding double
/// quotes).
pub proof fn lemma_string_roundtrip(s: Seq<char>)
    requires
        s.len() > 0 ==> s[0] != '"',
        s.len() > 0 ==> s[s.len() - 1] != '"',
    ensures
        coerce_output(
            DataType::String,
            shell_unquote(seq!['\''] + escape_spec(s) + seq!['\''], false),
        ) == ValueV::Str(s),
{
    lemma_escape_shell_roundtrip(s);
    assert(strip_quotes_spec(s) == s);
}

/// Law: a boolean value encoded as its script literal (`true` or
/// `false`) and decoded as a `Bool` output is returned unchanged.
pub proof fn lemma_bool_roundtrip(b: bool)
    ensures
        coerce_output(
            DataType::Bool,
            if b {
                "true"@
            } else {
                "false"@
            },
        ) == ValueV::Bool(b),
{
    reveal_strlit("true");
    reveal_strlit("false");
    if b {
        assert(strip_quotes_spec("true"@) == "true"@);
        assert(bool_of_text("true"@));
    } else {
        assert(strip_quotes_spec("false"@) == "false"@);
        assert("false"@.len() != "true"@.len());
        assert(!bool_of_text("false"@));
    }
}

proof fn lemma_nat_text_digits(n: nat)
    ensures
        nat_text(n).len() >= 1,
        all_digits(nat_text(n)),
        digits_val(nat_text(n)) == n,
    decreases n,
{
    if n < 10 {
        let t = nat_text(n);
        assert(t =~= seq![digit_char(n as int)]);
        assert(is_digit(digit_char(n as int)));
        assert(t.take(t.len() - 1) =~= Seq::<char>::empty());
        assert(t[0] == digit_char(n as int));
        assert(digit_val(digit_char(n as int)) == n);
        assert(digits_val(t) == digits_val(t.take(t.len() - 1)) * 10 + digit_val(t[t.len() - 1]));
        assert(digits_val(t) == digit_val(digit_char(n as int)));
    } else {
        lemma_nat_text_digits(n / 10);
        let h = nat_text(n / 10);
        let t = nat_text(n);
        assert(t =~= h + seq![digit_char((n % 10) as int)]);
        assert(is_digit(digit_char((n % 10) as int)));
        assert forall|i: int| 0 <= i < t.len() implies is_digit(#[trigger] t[i]) by {
            if i < h.len() {
                assert(t[i] == h[i]);
            }
        }
        assert(t.take(t.len() - 1) =~= h);
        assert(digits_val(t) == digits_val(h) * 10 + digit_val(t[t.len() - 1]));
        assert(digit_val(digit_char((n % 10) as int)) == n % 10);
    }
}

/// Law: an integer value encoded as its decimal script literal and
/// decoded as an `Int` output is returned unchanged, over the whole
/// signed 64-bit range.
pub proof fn lemma_int_roundtrip(i: int)
    requires
        i64::MIN <= i <= i64::MAX,
    ensures
        coerce_output(DataType::Int, i64_text(i)) == ValueV::Int(i),
{
    let t = i64_text(i);
    if i >= 0 {
        lemma_nat_text_digits(i as nat);
        assert(t == nat_text(i as nat));
        assert(is_digit(t[0]));
        assert(t[0] != '"' && t[0] != '+' && t[0] != '-');
        assert(is_digit(t[t.len() - 1]));
        assert(t[t.len() - 1] != '"');
        assert(strip_quotes_spec(t) == t);
        assert(parse_i64_spec(t) == Option::Some(i));
    } else {
        lemma_nat_text_digits((-i) as nat);
        let m = nat_text((-i) as nat);
        assert(t =~= seq!['-'] + m);
        assert(t[0] == '-');
        assert(t[t.len() - 1] == m[m.len() - 1]);
        assert(is_digit(t[t.len() - 1]));
        assert(t[0] != '"' && t[t.len() - 1] != '"');
        assert(strip_quotes_spec(t) == t);
        assert(t.skip(1) =~= m);
        assert(parse_i64_spec(t) == Option::Some(i));
    }
}

/// Law: a float value carried as canonical number text, rendered as its
/// script literal and decoded as a `Float` output, is returned unchanged
/// — equality modulo the canonical formatting, which the premise
/// states. Canonical number text never begins or ends with a double
/// quote; the premises record that.
pub proof fn lemma_float_roundtrip(t: Seq<char>)
    requires
        float_norm(t) == Option::Some(t),
        t.len() > 0 ==> t[0] != '"',
        t.len() > 0 ==> t[t.len() - 1] != '"',
    ensures
        coerce_output(DataType::Float, t) == ValueV::Float(t),
{
    assert(strip_quotes_spec(t) == t);
}

/// Law: a date-time value carried in RFC3339 normal form, rendered as
/// its script literal and decoded as a `DateTime` output, is returned
/// unchanged — equality after normalization, which the premise states.
/// Normal RFC3339 text begins and ends with digits; the premises record
/// that.
pub proof fn lemma_datetime_roundtrip(v: VariableV, t: Seq<char>)
    requires
        v.type_ == DataType::DateTime,
        v.value == Option::Some(ValueV::Str(t)),
        rfc3339_norm(t) == Option::Some(t),
        t.len() > 0 ==> t[0] != '"',
        t.len() > 0 ==> t[t.len() - 1] != '"',
    ensures
        input_literal(v) == t,
        coerce_output(DataType::DateTime, input_literal(v)) == ValueV::Str(t),
{
    assert(strip_quotes_spec(t) == t);
}

/// Law: a single marker line `OUT__<name>=<raw>` decodes exactly as the
/// protocol says: the first declared output named `name` has its value
/// set to `raw` coerced to its declared type, and a key that names no
/// declared output changes nothing — for every name without `=` and
/// every raw text, newlines excepted (a marker line is one line).
pub proof fn lemma_marker_line_decodes(outs: Seq<VariableV>, name: Seq<char>, raw: Seq<char>)
    requires
        forall|j: int| 0 <= j < name.len() ==> name[j] != '=',
        forall|j: int| 0 <= j < name.len() ==> name[j] != '\n',
        forall|j: int| 0 <= j < raw.len() ==> raw[j] != '\n',
    ensures
        ({
            let l = prefix_spec() + name + seq!['='] + raw;
            apply_markers(outs, lines_spec(l)) == (match find_output_spec(outs, name) {
                Option::None => outs,
                Option::Some(i) => outs.update(
                    i,
                    VariableV {
                        value: Option::Some(coerce_output(outs[i].type_, raw)),
                        ..outs[i]
                    },
                ),
            })
        }),
{
    reveal_strlit("OUT__");
    let p = prefix_spec();
    assert(p.len() == 5);
    let l = p + name + seq!['='] + raw;
    assert forall|j: int| 0 <= j < l.len() implies l[j] != '\n' by {
        if j < p.len() {
            assert(l[j] == p[j]);
        } else if j < p.len() + name.len() {
            assert(l[j] == name[j - p.len()]);
        } else if j == p.len() + name.len() {
            assert(l[j] == '=');
        } else {
            assert(l[j] == raw[j - p.len() - name.len() - 1]);
        }
    }
    lemma_find_char(l, '\n');
    match find_char_spec(l, '\n') {
        Option::None => {},
        Option::Some(i) => {
            assert(l[i] == '\n');
            assert(false);
        },
    }
    assert(l.len() > 0);
    assert(lines_spec(l) == seq![l]);
    assert(seq![l][0] == l);
    assert(seq![l].skip(1) =~= Seq::<Seq<char>>::empty());
    assert(apply_markers(outs, seq![l]) == apply_markers(
        apply_marker_line(outs, l),
        seq![l].skip(1),
    ));
    assert(apply_markers(apply_marker_line(outs, l), Seq::<Seq<char>>::empty())
        == apply_marker_line(outs, l));
    assert(apply_markers(outs, lines_spec(l)) == apply_marker_line(outs, l));
    assert(l.subrange(0, p.len() as int) =~= p);
    assert(marker_line(l));
    let rest = l.skip(p.len() as int);
    assert(rest =~= name + seq!['='] + raw);
    assert(rest[name.len() as int] == '=');
    lemma_find_char(rest, '=');
    match find_char_spec(rest, '=') {
        Option::None => {
            assert(rest[name.len() as int] != '=');
            assert(false);
        },
        Option::Some(k) => {
            if k < name.len() {
                assert(rest[k] == name[k]);
                assert(false);
            }
            if k > name.len() {
                assert(rest[name.len() as int] != '=');
                assert(false);
            }
            assert(k == name.len());
            assert(rest.take(k) =~= name);
            assert(rest.skip(k + 1) =~= raw);
            assert(split_once_spec(rest, '=') == Option::Some((name, raw)));
        },
    }
}

/// Law: decoding removes every marker line from the returned stdout,
/// whether or not its key names a declared output — no surviving line
/// begins with the marker prefix, and the non-marker lines survive in
/// order.
pub proof fn lemma_marker_lines_removed(ls: Seq<Seq<char>>)
    ensures
        forall|j: int|
            0 <= j < visible_lines(ls).len() ==> !marker_line(#[trigger] visible_lines(ls)[j]),
    decreases ls.len(),
{
    if ls.len() > 0 {
        lemma_marker_lines_removed(ls.skip(1));
        let rest = visible_lines(ls.skip(1));
        assert forall|j: int|
            0 <= j < visible_lines(ls).len() implies !marker_line(
            #[trigger] visible_lines(ls)[j],
        ) by {
            if marker_line(ls[0]) {
                assert(visible_lines(ls) =~= rest);
            } else {
                assert(visible_lines(ls) =~= seq![ls[0]] + rest);
                if j > 0 {
                    assert(visible_lines(ls)[j] == rest[j - 1]);
                }
            }
        }
    }
}

} // verus!
