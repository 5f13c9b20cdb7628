//! Workflows: the top-level document, the validation pass (registry
//! construction, then reference resolution and type propagation), and the
//! run bookkeeping around step execution.
use vstd::prelude::*;

use crate::data_type::DataType;
use crate::error::ValidationError;
use crate::error::ValidationErrorV;
use crate::runner::Runner;
use crate::runner::RunnerKind;
use crate::runner::RunnerResult;
use crate::runner::RunnerResultV;
use crate::runner::RunnerV;
use crate::step::step_identity;
use crate::step::Step;
use crate::step::StepV;
use crate::text::str_eq;
use crate::value::clone_opt_string;
use crate::value::clone_opt_value;
use crate::value::Value;
use crate::value::ValueV;
use crate::variable::Variable;
use crate::variable::VariableV;

verus! {

/// The top-level document: ordered steps plus named configuration and
/// result bindings. `runners` is the dispatch table registered at
/// process start; it is not part of the document.
pub struct Workflow {
    pub name: Option<String>,
    pub version: Option<String>,
    pub timeout: Option<u64>,
    pub config: Vec<Variable>,
    pub steps: Vec<Step>,
    pub results: Vec<Variable>,
    runners: Vec<Runner>,
}

/// Mathematical model of a `Workflow`.
pub struct WorkflowV {
    pub name: Option<Seq<char>>,
    pub version: Option<Seq<char>>,
    pub timeout: Option<u64>,
    pub config: Seq<VariableV>,
    pub steps: Seq<StepV>,
    pub results: Seq<VariableV>,
    pub runners: Seq<RunnerV>,
}

impl View for Workflow {
    type V = WorkflowV;

    closed spec fn view(&self) -> WorkflowV {
        WorkflowV {
            name: match self.name {
                Option::Some(ref s) => Option::Some(s@),
                Option::None => Option::None,
            },
            version: match self.version {
                Option::Some(ref s) => Option::Some(s@),
                Option::None => Option::None,
            },
            timeout: self.timeout,
            config: self.config.deep_view(),
            steps: self.steps.deep_view(),
            results: self.results.deep_view(),
            runners: self.runners.deep_view(),
        }
    }
}

impl Workflow {
    /// A workflow as parsed from a document: no runners registered yet.
    pub fn new(
        name: Option<String>,
        version: Option<String>,
        timeout: Option<u64>,
        config: Vec<Variable>,
        steps: Vec<Step>,
        results: Vec<Variable>,
    ) -> (r: Workflow)
        ensures
            r@.name == name.deep_view(),
            r@.version == version.deep_view(),
            r@.timeout == timeout,
            r@.config == config.deep_view(),
            r@.steps == steps.deep_view(),
            r@.results == results.deep_view(),
            r@.runners == Seq::<RunnerV>::empty(),
    {
        let r = Workflow { name, version, timeout, config, steps, results, runners: Vec::new() };
        proof {
            assert(r@.runners =~= Seq::<RunnerV>::empty());
        }
        r
    }

    /// Make an executor capability available under its runner-type
    /// string.
    pub fn register(&mut self, runner: Runner)
        ensures
            final(self)@ == (WorkflowV {
                runners: old(self)@.runners.push(runner@),
                ..old(self)@
            }),
    {
        self.runners.push(runner);
        proof {
            assert(self@.runners =~= old(self)@.runners.push(runner@));
        }
    }
}

/// The qualified registry key of a config variable.
pub open spec fn qual_config(name: Seq<char>) -> Seq<char> {
    "config."@ + name
}

/// The qualified registry key of a result binding.
pub open spec fn qual_result(name: Seq<char>) -> Seq<char> {
    "results."@ + name
}

/// The qualified registry key of a step output.
pub open spec fn qual_output(sid: Seq<char>, name: Seq<char>) -> Seq<char> {
    "steps."@ + sid + ".outputs."@ + name
}

pub fn qual_config_key(name: &str) -> (r: String)
    ensures
        r@ == qual_config(name@),
{
    let mut k = String::from_str("config.");
    k.append(name);
    k
}

pub fn qual_result_key(name: &str) -> (r: String)
    ensures
        r@ == qual_result(name@),
{
    let mut k = String::from_str("results.");
    k.append(name);
    k
}

pub fn qual_output_key(sid: &str, name: &str) -> (r: String)
    ensures
        r@ == qual_output(sid@, name@),
{
    let mut k = String::from_str("steps.");
    k.append(sid);
    k.append(".outputs.");
    k.append(name);
    proof {
        assert(k@ =~= qual_output(sid@, name@));
    }
    k
}

/// The registry entries a workflow's config variables contribute, in
/// declaration order.
pub open spec fn config_entries(cs: Seq<VariableV>) -> Seq<(Seq<char>, VariableV)> {
    cs.map_values(|v: VariableV| (qual_config(v.name), v))
}

/// The registry entries a workflow's result bindings contribute.
pub open spec fn result_entries(rs: Seq<VariableV>) -> Seq<(Seq<char>, VariableV)> {
    rs.map_values(|v: VariableV| (qual_result(v.name), v))
}

/// The registry entries one step's outputs contribute.
pub open spec fn step_entries(s: StepV) -> Seq<(Seq<char>, VariableV)> {
    s.outputs.map_values(|v: VariableV| (qual_output(step_identity(s), v.name), v))
}

/// The registry entries of all steps' outputs, steps in declaration
/// order.
pub open spec fn output_entries(steps: Seq<StepV>) -> Seq<(Seq<char>, VariableV)>
    decreases steps.len(),
{
    if steps.len() == 0 {
        Seq::<(Seq<char>, VariableV)>::empty()
    } else {
        step_entries(steps[0]) + output_entries(steps.skip(1))
    }
}

/// Every registry entry of a workflow, in the order the validation walk
/// visits them: config, then results, then each step's outputs.
pub open spec fn registry_entries(wf: WorkflowV) -> Seq<(Seq<char>, VariableV)> {
    config_entries(wf.config) + result_entries(wf.results) + output_entries(wf.steps)
}

/// Entry `i` repeats the key of an earlier entry.
pub open spec fn dup_at(es: Seq<(Seq<char>, VariableV)>, i: int) -> bool {
    exists|j: int| 0 <= j < i && es[j].0 == es[i].0
}

pub open spec fn first_dup_from(es: Seq<(Seq<char>, VariableV)>, i: int) -> Option<int>
    decreases es.len() - i when i >= 0
{
    if i >= es.len() {
        Option::None
    } else if dup_at(es, i) {
        Option::Some(i)
    } else {
        first_dup_from(es, i + 1)
    }
}

/// The first entry whose key repeats an earlier one, in walk order.
pub open spec fn first_dup(es: Seq<(Seq<char>, VariableV)>) -> Option<int> {
    first_dup_from(es, 0)
}

proof fn lemma_first_dup_from_clean(es: Seq<(Seq<char>, VariableV)>, k: int)
    requires
        0 <= k <= es.len(),
        forall|m: int| 0 <= m < k ==> !dup_at(es, m),
    ensures
        first_dup(es) == first_dup_from(es, k),
    decreases k,
{
    if k > 0 {
        lemma_first_dup_from_clean(es, k - 1);
    }
}

/// The registered variable under a qualified key: the first entry with
/// that key.
pub open spec fn lookup(es: Seq<(Seq<char>, VariableV)>, key: Seq<char>) -> Option<VariableV>
    decreases es.len(),
{
    if es.len() == 0 {
        Option::None
    } else if es[0].0 == key {
        Option::Some(es[0].1)
    } else {
        lookup(es.skip(1), key)
    }
}

proof fn lemma_lookup_hit(es: Seq<(Seq<char>, VariableV)>, key: Seq<char>, i: int)
    requires
        0 <= i < es.len(),
        es[i].0 == key,
        forall|j: int| 0 <= j < i ==> es[j].0 != key,
    ensures
        lookup(es, key) == Option::Some(es[i].1),
    decreases i,
{
    if i > 0 {
        assert forall|j: int| 0 <= j < i - 1 implies es.skip(1)[j].0 != key by {
            assert(es.skip(1)[j] == es[j + 1]);
        }
        assert(es.skip(1)[i - 1] == es[i]);
        lemma_lookup_hit(es.skip(1), key, i - 1);
    }
}

proof fn lemma_lookup_miss(es: Seq<(Seq<char>, VariableV)>, key: Seq<char>)
    requires
        forall|j: int| 0 <= j < es.len() ==> es[j].0 != key,
    ensures
        lookup(es, key) is None,
    decreases es.len(),
{
    if es.len() > 0 {
        assert forall|j: int| 0 <= j < es.skip(1).len() implies es.skip(1)[j].0 != key by {
            assert(es.skip(1)[j] == es[j + 1]);
        }
        lemma_lookup_miss(es.skip(1), key);
    }
}

/// The view of an executable registry: each pair's views.
pub open spec fn reg_view(reg: Seq<(String, Variable)>) -> Seq<(Seq<char>, VariableV)> {
    reg.map_values(|p: (String, Variable)| (p.0@, p.1@))
}

/// Find a key in the executable registry: the index of its first entry.
fn reg_find(reg: &Vec<(String, Variable)>, key: &str) -> (r: Option<usize>)
    ensures
        match r {
            Option::None => {
                &&& lookup(reg_view(reg@), key@) is None
                &&& forall|j: int| 0 <= j < reg@.len() ==> reg_view(reg@)[j].0 != key@
            },
            Option::Some(i) => {
                &&& i < reg@.len()
                &&& reg_view(reg@)[i as int].0 == key@
                &&& lookup(reg_view(reg@), key@) == Option::Some(reg_view(reg@)[i as int].1)
            },
        },
{
    let ghost es = reg_view(reg@);
    let mut i: usize = 0;
    while i < reg.len()
        invariant
            i <= reg@.len(),
            es == reg_view(reg@),
            es.len() == reg@.len(),
            forall|j: int| 0 <= j < i ==> es[j].0 != key@,
        decreases reg@.len() - i,
    {
        if str_eq(reg[i].0.as_str(), key) {
            proof {
                assert(es[i as int].0 == reg@[i as int].0@);
                lemma_lookup_hit(es, key@, i as int);
            }
            return Option::Some(i);
        }
        proof {
            assert(es[i as int].0 == reg@[i as int].0@);
        }
        i = i + 1;
    }
    proof {
        lemma_lookup_miss(es, key@);
    }
    Option::None
}

/// Resolve one step input against the registry. A reference must name a
/// registered variable; a placeholder type takes the referenced type and
/// value; an explicit type must agree with the referenced type; an input
/// with neither value nor reference is refused. The placeholder may
/// never survive resolution: a reference whose registry entry is itself
/// still pending does not resolve (the registry holds pre-resolution
/// snapshots, so a chained reference has no concrete type to offer), and
/// a placeholder-typed input without a reference has no source at all.
pub open spec fn resolve_input(
    es: Seq<(Seq<char>, VariableV)>,
    v: VariableV,
    sid: Seq<char>,
) -> Result<VariableV, ValidationErrorV> {
    match v.ref_ {
        Option::Some(r) => match lookup(es, r) {
            Option::Some(src) => if v.type_ == DataType::Pending {
                if src.type_ == DataType::Pending {
                    Result::Err(
                        ValidationErrorV::UnresolvedReference { reference: r, step: sid },
                    )
                } else {
                    Result::Ok(VariableV { type_: src.type_, value: src.value, ..v })
                }
            } else if v.type_ != src.type_ {
                Result::Err(
                    ValidationErrorV::TypeMismatch {
                        reference: r,
                        expected: v.type_,
                        found: src.type_,
                    },
                )
            } else {
                Result::Ok(v)
            },
            Option::None => Result::Err(
                ValidationErrorV::UnresolvedReference { reference: r, step: sid },
            ),
        },
        Option::None => if v.value is None || v.type_ == DataType::Pending {
            Result::Err(ValidationErrorV::MissingValue { input: v.name, step: sid })
        } else {
            Result::Ok(v)
        },
    }
}

/// Resolve one step output: a reference must name a registered variable,
/// and a placeholder type takes the referenced type; outputs carry no
/// value and need none. As for inputs, a reference to a still-pending
/// registry entry does not resolve, so no reference-carrying output
/// leaves resolution with the placeholder type.
pub open spec fn resolve_output(
    es: Seq<(Seq<char>, VariableV)>,
    v: VariableV,
    sid: Seq<char>,
) -> Result<VariableV, ValidationErrorV> {
    match v.ref_ {
        Option::Some(r) => match lookup(es, r) {
            Option::Some(src) => if v.type_ == DataType::Pending {
                if src.type_ == DataType::Pending {
                    Result::Err(
                        ValidationErrorV::UnresolvedReference { reference: r, step: sid },
                    )
                } else {
                    Result::Ok(VariableV { type_: src.type_, ..v })
                }
            } else {
                Result::Ok(v)
            },
            Option::None => Result::Err(
                ValidationErrorV::UnresolvedReference { reference: r, step: sid },
            ),
        },
        Option::None => Result::Ok(v),
    }
}

pub open spec fn resolve_inputs(
    es: Seq<(Seq<char>, VariableV)>,
    vs: Seq<VariableV>,
    sid: Seq<char>,
) -> Result<Seq<VariableV>, ValidationErrorV>
    decreases vs.len(),
{
    if vs.len() == 0 {
        Result::Ok(Seq::<VariableV>::empty())
    } else {
        match resolve_input(es, vs[0], sid) {
            Result::Err(e) => Result::Err(e),
            Result::Ok(rv) => match resolve_inputs(es, vs.skip(1), sid) {
                Result::Err(e) => Result::Err(e),
                Result::Ok(rest) => Result::Ok(seq![rv] + rest),
            },
        }
    }
}

pub open spec fn resolve_outputs(
    es: Seq<(Seq<char>, VariableV)>,
    vs: Seq<VariableV>,
    sid: Seq<char>,
) -> Result<Seq<VariableV>, ValidationErrorV>
    decreases vs.len(),
{
    if vs.len() == 0 {
        Result::Ok(Seq::<VariableV>::empty())
    } else {
        match resolve_output(es, vs[0], sid) {
            Result::Err(e) => Result::Err(e),
            Result::Ok(rv) => match resolve_outputs(es, vs.skip(1), sid) {
                Result::Err(e) => Result::Err(e),
                Result::Ok(rest) => Result::Ok(seq![rv] + rest),
            },
        }
    }
}

/// Resolve one step: its inputs first, then its outputs.
pub open spec fn resolve_step(es: Seq<(Seq<char>, VariableV)>, s: StepV) -> Result<
    StepV,
    ValidationErrorV,
> {
    match resolve_inputs(es, s.inputs, step_identity(s)) {
        Result::Err(e) => Result::Err(e),
        Result::Ok(ins) => match resolve_outputs(es, s.outputs, step_identity(s)) {
            Result::Err(e) => Result::Err(e),
            Result::Ok(outs) => Result::Ok(StepV { inputs: ins, outputs: outs, ..s }),
        },
    }
}

pub open spec fn resolve_steps(es: Seq<(Seq<char>, VariableV)>, steps: Seq<StepV>) -> Result<
    Seq<StepV>,
    ValidationErrorV,
>
    decreases steps.len(),
{
    if steps.len() == 0 {
        Result::Ok(Seq::<StepV>::empty())
    } else {
        match resolve_step(es, steps[0]) {
            Result::Err(e) => Result::Err(e),
            Result::Ok(s) => match resolve_steps(es, steps.skip(1)) {
                Result::Err(e) => Result::Err(e),
                Result::Ok(rest) => Result::Ok(seq![s] + rest),
            },
        }
    }
}

/// What validation decides for a workflow: the first duplicated registry
/// key in walk order is a `DuplicateVariable` error; otherwise the steps
/// are resolved in order, inputs before outputs, and the first failure
/// is the error. On success the resolved steps are given.
pub open spec fn validate_spec(wf: WorkflowV) -> Result<Seq<StepV>, ValidationErrorV> {
    let es = registry_entries(wf);
    match first_dup(es) {
        Option::Some(i) => Result::Err(ValidationErrorV::DuplicateVariable { key: es[i].0 }),
        Option::None => resolve_steps(es, wf.steps),
    }
}

impl Workflow {
    /// One validation pass: build the registry (config, results, step
    /// outputs), refuse duplicate keys, then resolve every step's
    /// references and propagate types, exactly as `validate_spec` says.
    /// On an error the workflow is left untouched; on success the steps
    /// are replaced by their resolved forms.
    #[verifier::loop_isolation(false)]
    #[verifier::rlimit(100)]
    pub fn validate(&mut self) -> (r: Result<(), ValidationError>)
        ensures
            match r {
                Result::Ok(()) => {
                    &&& validate_spec(old(self)@) == Result::<Seq<StepV>, ValidationErrorV>::Ok(
                        final(self)@.steps,
                    )
                    &&& final(self)@ == (WorkflowV { steps: final(self)@.steps, ..old(self)@ })
                    &&& steps_resolved_concrete(final(self)@.steps)
                },
                Result::Err(e) => {
                    &&& final(self)@ == old(self)@
                    &&& validate_spec(old(self)@) == Result::<Seq<StepV>, ValidationErrorV>::Err(
                        e@,
                    )
                },
            },
    {
        let ghost wfv = self@;
        let ghost es = registry_entries(wfv);

        // Phase 1: build the registry and refuse duplicate keys.
        let mut reg: Vec<(String, Variable)> = Vec::new();
        proof {
            assert(reg_view(reg@) =~= es.take(0));
        }
        let mut ci: usize = 0;
        while ci < self.config.len()
            invariant
                self@ == wfv,
                es == registry_entries(wfv),
                ci <= self.config.len(),
                self.config.len() == wfv.config.len(),
                reg@.len() == ci,
                reg_view(reg@) == es.take(ci as int),
                forall|m: int| 0 <= m < ci ==> !dup_at(es, m),
            decreases self.config.len() - ci,
        {
            let key = qual_config_key(self.config[ci].name.as_str());
            proof {
                assert(es[ci as int] == config_entries(wfv.config)[ci as int]);
                assert(config_entries(wfv.config)[ci as int] == (
                    qual_config(wfv.config[ci as int].name),
                    wfv.config[ci as int],
                ));
                assert(self.config[ci as int]@ == wfv.config[ci as int]);
            }
            match reg_find(&reg, key.as_str()) {
                Option::Some(j) => {
                    proof {
                        assert(reg_view(reg@)[j as int] == es.take(ci as int)[j as int]);
                        assert(dup_at(es, ci as int));
                        lemma_first_dup_from_clean(es, ci as int);
                    }
                    return Result::Err(ValidationError::DuplicateVariable { key });
                },
                Option::None => {
                    let ghost prev_reg = reg@;
                    reg.push((key, self.config[ci].clone()));
                    proof {
                        assert(!dup_at(es, ci as int)) by {
                            if dup_at(es, ci as int) {
                                let j = choose|j: int|
                                    0 <= j < ci && es[j].0 == es[ci as int].0;
                                assert(reg_view(prev_reg)[j] == es.take(ci as int)[j]);
                            }
                        }
                        assert forall|j: int| 0 <= j < ci + 1 implies reg_view(reg@)[j]
                            == es.take(ci + 1)[j] by {
                            assert(reg_view(reg@)[j] == (reg@[j].0@, reg@[j].1@));
                            if j < ci {
                                assert(reg@[j] == prev_reg[j]);
                                assert(reg_view(prev_reg)[j] == es.take(ci as int)[j]);
                            }
                        }
                        assert(reg_view(reg@) =~= es.take(ci + 1));
                    }
                },
            }
            ci = ci + 1;
        }
        let ghost cfg_len = wfv.config.len() as int;
        let mut ri: usize = 0;
        while ri < self.results.len()
            invariant
                self@ == wfv,
                es == registry_entries(wfv),
                cfg_len == wfv.config.len(),
                ri <= self.results.len(),
                self.results.len() == wfv.results.len(),
                reg@.len() == cfg_len + ri,
                reg_view(reg@) == es.take(cfg_len + ri),
                forall|m: int| 0 <= m < cfg_len + ri ==> !dup_at(es, m),
            decreases self.results.len() - ri,
        {
            let key = qual_result_key(self.results[ri].name.as_str());
            let ghost n = cfg_len + ri;
            proof {
                assert(es[n] == result_entries(wfv.results)[ri as int]);
                assert(result_entries(wfv.results)[ri as int] == (
                    qual_result(wfv.results[ri as int].name),
                    wfv.results[ri as int],
                ));
                assert(self.results[ri as int]@ == wfv.results[ri as int]);
            }
            match reg_find(&reg, key.as_str()) {
                Option::Some(j) => {
                    proof {
                        assert(reg_view(reg@)[j as int] == es.take(n)[j as int]);
                        assert(dup_at(es, n));
                        lemma_first_dup_from_clean(es, n);
                    }
                    return Result::Err(ValidationError::DuplicateVariable { key });
                },
                Option::None => {
                    let ghost prev_reg = reg@;
                    reg.push((key, self.results[ri].clone()));
                    proof {
                        assert(!dup_at(es, n)) by {
                            if dup_at(es, n) {
                                let j = choose|j: int| 0 <= j < n && es[j].0 == es[n].0;
                                assert(reg_view(prev_reg)[j] == es.take(n)[j]);
                            }
                        }
                        assert forall|j: int| 0 <= j < n + 1 implies reg_view(reg@)[j]
                            == es.take(n + 1)[j] by {
                            assert(reg_view(reg@)[j] == (reg@[j].0@, reg@[j].1@));
                            if j < n {
                                assert(reg@[j] == prev_reg[j]);
                                assert(reg_view(prev_reg)[j] == es.take(n)[j]);
                            }
                        }
                        assert(reg_view(reg@) =~= es.take(n + 1));
                    }
                },
            }
            ri = ri + 1;
        }
        proof {
            assert(es.skip(cfg_len + wfv.results.len()) =~= output_entries(wfv.steps)) by {
                assert(es.len() == cfg_len + wfv.results.len() + output_entries(
                    wfv.steps,
                ).len());
                assert forall|j: int|
                    0 <= j < output_entries(wfv.steps).len() implies es.skip(
                    cfg_len + wfv.results.len(),
                )[j] == output_entries(wfv.steps)[j] by {
                    assert(es[cfg_len + wfv.results.len() + j] == output_entries(wfv.steps)[j]);
                }
            }
            assert(wfv.steps.skip(0) =~= wfv.steps);
        }
        let mut si: usize = 0;
        while si < self.steps.len()
            invariant
                self@ == wfv,
                es == registry_entries(wfv),
                si <= self.steps.len(),
                self.steps.len() == wfv.steps.len(),
                reg@.len() <= es.len(),
                reg_view(reg@) == es.take(reg@.len() as int),
                es.skip(reg@.len() as int) == output_entries(wfv.steps.skip(si as int)),
                forall|m: int| 0 <= m < reg@.len() ==> !dup_at(es, m),
            decreases self.steps.len() - si,
        {
            let ghost sv = wfv.steps[si as int];
            proof {
                assert(wfv.steps.skip(si as int)[0] == sv);
                assert(wfv.steps.skip(si as int).skip(1) =~= wfv.steps.skip(si + 1));
                assert(output_entries(wfv.steps.skip(si as int)) == step_entries(sv)
                    + output_entries(wfv.steps.skip(si + 1)));
                assert(step_entries(sv).skip(0) =~= step_entries(sv));
            }
            let mut oi: usize = 0;
            while oi < self.steps[si].outputs.len()
                invariant
                    self@ == wfv,
                    es == registry_entries(wfv),
                    si < self.steps.len(),
                    self.steps.len() == wfv.steps.len(),
                    sv == wfv.steps[si as int],
                    oi <= self.steps[si as int].outputs.len(),
                    self.steps[si as int].outputs.len() == sv.outputs.len(),
                    reg@.len() <= es.len(),
                    reg_view(reg@) == es.take(reg@.len() as int),
                    es.skip(reg@.len() as int) == step_entries(sv).skip(oi as int)
                        + output_entries(wfv.steps.skip(si + 1)),
                    forall|m: int| 0 <= m < reg@.len() ==> !dup_at(es, m),
                decreases self.steps[si as int].outputs.len() - oi,
            {
                let n = reg.len();
                let sid = self.steps[si].identity();
                let key = qual_output_key(sid, self.steps[si].outputs[oi].name.as_str());
                proof {
                    assert(self.steps[si as int]@ == sv);
                    assert(step_entries(sv)[oi as int] == (
                        qual_output(step_identity(sv), sv.outputs[oi as int].name),
                        sv.outputs[oi as int],
                    ));
                    assert(step_entries(sv).len() == sv.outputs.len());
                    assert(es.skip(n as int).len() > 0);
                    assert(es.skip(n as int)[0] == step_entries(sv).skip(oi as int)[0]);
                    assert(step_entries(sv).skip(oi as int)[0] == step_entries(sv)[oi as int]);
                    assert(es[n as int] == es.skip(n as int)[0]);
                    assert(self.steps[si as int].outputs.deep_view()[oi as int]
                        == sv.outputs[oi as int]);
                    assert(key@ == es[n as int].0);
                }
                match reg_find(&reg, key.as_str()) {
                    Option::Some(j) => {
                        proof {
                            assert(reg_view(reg@)[j as int] == es.take(n as int)[j as int]);
                            assert(dup_at(es, n as int));
                            lemma_first_dup_from_clean(es, n as int);
                        }
                        return Result::Err(ValidationError::DuplicateVariable { key });
                    },
                    Option::None => {
                        let ghost prev_reg = reg@;
                        let var = self.steps[si].outputs[oi].clone();
                        reg.push((key, var));
                        proof {
                            assert(!dup_at(es, n as int)) by {
                                if dup_at(es, n as int) {
                                    let j = choose|j: int|
                                        0 <= j < n && es[j].0 == es[n as int].0;
                                    assert(reg_view(prev_reg)[j] == es.take(n as int)[j]);
                                }
                            }
                            assert forall|j: int| 0 <= j < n + 1 implies reg_view(reg@)[j]
                                == es.take(n + 1)[j] by {
                                assert(reg_view(reg@)[j] == (reg@[j].0@, reg@[j].1@));
                                if j < n {
                                    assert(reg@[j] == prev_reg[j]);
                                    assert(reg_view(prev_reg)[j] == es.take(n as int)[j]);
                                }
                            }
                            assert(reg_view(reg@) =~= es.take(n + 1));
                            let ghost rhs = step_entries(sv).skip(oi + 1) + output_entries(
                                wfv.steps.skip(si + 1),
                            );
                            assert(es.skip(n + 1).len() == rhs.len());
                            assert forall|j: int| 0 <= j < rhs.len() implies es.skip(n + 1)[j]
                                == rhs[j] by {
                                assert(es.skip(n + 1)[j] == es[n + 1 + j]);
                                assert(es.skip(n as int)[j + 1] == es[n + 1 + j]);
                                assert(es.skip(n as int)[j + 1] == (step_entries(sv).skip(
                                    oi as int,
                                ) + output_entries(wfv.steps.skip(si + 1)))[j + 1]);
                                if j + 1 < step_entries(sv).skip(oi as int).len() {
                                    assert(step_entries(sv).skip(oi as int)[j + 1]
                                        == step_entries(sv)[oi + 1 + j]);
                                    assert(step_entries(sv).skip(oi + 1)[j]
                                        == step_entries(sv)[oi + 1 + j]);
                                }
                            }
                            assert(es.skip(n + 1) =~= rhs);
                        }
                    },
                }
                oi = oi + 1;
            }
            proof {
                assert(step_entries(sv).skip(sv.outputs.len() as int)
                    =~= Seq::<(Seq<char>, VariableV)>::empty());
                assert(es.skip(reg@.len() as int) =~= output_entries(wfv.steps.skip(si + 1)));
            }
            si = si + 1;
        }
        proof {
            assert(output_entries(wfv.steps.skip(wfv.steps.len() as int)) =~= Seq::<(
                Seq<char>,
                VariableV,
            )>::empty());
            assert(reg@.len() == es.len());
            assert(reg_view(reg@) =~= es);
            lemma_first_dup_from_clean(es, es.len() as int);
            assert(first_dup(es) is None);
        }

        // Phase 2: resolve every step against the finished registry,
        // into freshly built steps; the workflow is untouched until all
        // of them resolved.
        let mut new_steps: Vec<Step> = Vec::new();
        let mut si2: usize = 0;
        proof {
            assert(wfv.steps.skip(0) =~= wfv.steps);
        }
        while si2 < self.steps.len()
            invariant
                self@ == wfv,
                es == registry_entries(wfv),
                reg_view(reg@) == es,
                si2 <= self.steps.len(),
                self.steps.len() == wfv.steps.len(),
                new_steps@.len() == si2,
                first_dup(es) is None,
                resolve_steps(es, wfv.steps) == (match resolve_steps(
                    es,
                    wfv.steps.skip(si2 as int),
                ) {
                    Result::Ok(rest) => Result::<Seq<StepV>, ValidationErrorV>::Ok(
                        new_steps.deep_view() + rest,
                    ),
                    Result::Err(e) => Result::<Seq<StepV>, ValidationErrorV>::Err(e),
                }),
            decreases self.steps.len() - si2,
        {
            let ghost sv = wfv.steps[si2 as int];
            let ghost sid_v = step_identity(sv);
            proof {
                assert(wfv.steps.skip(si2 as int)[0] == sv);
                assert(wfv.steps.skip(si2 as int).skip(1) =~= wfv.steps.skip(si2 + 1));
                assert(sv.inputs.skip(0) =~= sv.inputs);
            }
            let mut new_inputs: Vec<Variable> = Vec::new();
            let mut ii: usize = 0;
            while ii < self.steps[si2].inputs.len()
                invariant
                    self@ == wfv,
                    es == registry_entries(wfv),
                    reg_view(reg@) == es,
                    si2 < self.steps.len(),
                    self.steps.len() == wfv.steps.len(),
                    sv == wfv.steps[si2 as int],
                    sid_v == step_identity(sv),
                    ii <= self.steps[si2 as int].inputs.len(),
                    self.steps[si2 as int].inputs.len() == sv.inputs.len(),
                    new_inputs@.len() == ii,
                    resolve_inputs(es, sv.inputs, sid_v) == (match resolve_inputs(
                        es,
                        sv.inputs.skip(ii as int),
                        sid_v,
                    ) {
                        Result::Ok(rest) => Result::<Seq<VariableV>, ValidationErrorV>::Ok(
                            new_inputs.deep_view() + rest,
                        ),
                        Result::Err(e) => Result::<Seq<VariableV>, ValidationErrorV>::Err(e),
                    }),
                decreases self.steps[si2 as int].inputs.len() - ii,
            {
                let ghost vv = sv.inputs[ii as int];
                proof {
                    assert(self.steps[si2 as int]@ == sv);
                    assert(self.steps[si2 as int].inputs.deep_view()[ii as int] == vv);
                    assert(sv.inputs.skip(ii as int)[0] == vv);
                    assert(sv.inputs.skip(ii as int).skip(1) =~= sv.inputs.skip(ii + 1));
                }
                let input = &self.steps[si2].inputs[ii];
                let ghost prev_new = new_inputs.deep_view();
                match &input.ref_ {
                    Option::Some(r) => {
                        match reg_find(&reg, r.as_str()) {
                            Option::Some(idx) => {
                                let src_type = reg[idx].1.type_;
                                proof {
                                    assert(reg_view(reg@)[idx as int].1 == reg@[idx as int].1@);
                                    assert(lookup(es, r@) == Option::Some(reg@[idx as int].1@));
                                }
                                if input.type_ == DataType::Pending {
                                    if src_type == DataType::Pending {
                                        let e = ValidationError::UnresolvedReference {
                                            reference: r.clone(),
                                            step: String::from_str(self.steps[si2].identity()),
                                        };
                                        proof {
                                            assert(resolve_input(es, vv, sid_v)
                                                == Result::<VariableV, ValidationErrorV>::Err(e@));
                                            assert(resolve_inputs(es, sv.inputs.skip(ii as int), sid_v)
                                                == Result::<Seq<VariableV>, ValidationErrorV>::Err(e@));
                                            assert(resolve_inputs(es, sv.inputs, sid_v)
                                                == Result::<Seq<VariableV>, ValidationErrorV>::Err(e@));
                                            assert(resolve_step(es, sv)
                                                == Result::<StepV, ValidationErrorV>::Err(e@));
                                            assert(resolve_steps(es, wfv.steps.skip(si2 as int))
                                                == Result::<Seq<StepV>, ValidationErrorV>::Err(e@));
                                            assert(resolve_steps(es, wfv.steps)
                                                == Result::<Seq<StepV>, ValidationErrorV>::Err(e@));
                                            assert(validate_spec(wfv)
                                                == Result::<Seq<StepV>, ValidationErrorV>::Err(e@));
                                        }
                                        return Result::Err(e);
                                    }
                                    let nv = Variable {
                                        name: input.name.clone(),
                                        type_: src_type,
                                        value: clone_opt_value(&reg[idx].1.value),
                                        ref_: clone_opt_string(&input.ref_),
                                    };
                                    proof {
                                        assert(nv@ == (VariableV {
                                            type_: reg@[idx as int].1@.type_,
                                            value: reg@[idx as int].1@.value,
                                            ..vv
                                        }));
                                        assert(resolve_input(es, vv, sid_v)
                                            == Result::<VariableV, ValidationErrorV>::Ok(nv@));
                                    }
                                    new_inputs.push(nv);
                                } else if !(input.type_ == src_type) {
                                    let e = ValidationError::TypeMismatch {
                                        reference: r.clone(),
                                        expected: input.type_,
                                        found: src_type,
                                    };
                                    proof {
                                        assert(resolve_input(es, vv, sid_v)
                                            == Result::<VariableV, ValidationErrorV>::Err(e@));
                                        assert(resolve_inputs(es, sv.inputs.skip(ii as int), sid_v)
                                        == Result::<Seq<VariableV>, ValidationErrorV>::Err(e@));
                                    assert(resolve_inputs(es, sv.inputs, sid_v)
                                        == Result::<Seq<VariableV>, ValidationErrorV>::Err(e@));
                                    assert(resolve_step(es, sv)
                                        == Result::<StepV, ValidationErrorV>::Err(e@));
                                    assert(resolve_steps(es, wfv.steps.skip(si2 as int))
                                        == Result::<Seq<StepV>, ValidationErrorV>::Err(e@));
                                    assert(resolve_steps(es, wfv.steps)
                                        == Result::<Seq<StepV>, ValidationErrorV>::Err(e@));
                                    assert(validate_spec(wfv)
                                        == Result::<Seq<StepV>, ValidationErrorV>::Err(e@));
                                    }
                                    return Result::Err(e);
                                } else {
                                    let nv = input.clone();
                                    proof {
                                        assert(resolve_input(es, vv, sid_v)
                                            == Result::<VariableV, ValidationErrorV>::Ok(nv@));
                                    }
                                    new_inputs.push(nv);
                                }
                            },
                            Option::None => {
                                let e = ValidationError::UnresolvedReference {
                                    reference: r.clone(),
                                    step: String::from_str(self.steps[si2].identity()),
                                };
                                proof {
                                    assert(resolve_input(es, vv, sid_v)
                                        == Result::<VariableV, ValidationErrorV>::Err(e@));
                                    assert(resolve_inputs(es, sv.inputs.skip(ii as int), sid_v)
                                        == Result::<Seq<VariableV>, ValidationErrorV>::Err(e@));
                                    assert(resolve_inputs(es, sv.inputs, sid_v)
                                        == Result::<Seq<VariableV>, ValidationErrorV>::Err(e@));
                                    assert(resolve_step(es, sv)
                                        == Result::<StepV, ValidationErrorV>::Err(e@));
                                    assert(resolve_steps(es, wfv.steps.skip(si2 as int))
                                        == Result::<Seq<StepV>, ValidationErrorV>::Err(e@));
                                    assert(resolve_steps(es, wfv.steps)
                                        == Result::<Seq<StepV>, ValidationErrorV>::Err(e@));
                                    assert(validate_spec(wfv)
                                        == Result::<Seq<StepV>, ValidationErrorV>::Err(e@));
                                }
                                return Result::Err(e);
                            },
                        }
                    },
                    Option::None => {
                        if input.value.is_none() || input.type_ == DataType::Pending {
                            let e = ValidationError::MissingValue {
                                input: input.name.clone(),
                                step: String::from_str(self.steps[si2].identity()),
                            };
                            proof {
                                assert(resolve_input(es, vv, sid_v)
                                    == Result::<VariableV, ValidationErrorV>::Err(e@));
                                assert(resolve_inputs(es, sv.inputs.skip(ii as int), sid_v)
                                        == Result::<Seq<VariableV>, ValidationErrorV>::Err(e@));
                                    assert(resolve_inputs(es, sv.inputs, sid_v)
                                        == Result::<Seq<VariableV>, ValidationErrorV>::Err(e@));
                                    assert(resolve_step(es, sv)
                                        == Result::<StepV, ValidationErrorV>::Err(e@));
                                    assert(resolve_steps(es, wfv.steps.skip(si2 as int))
                                        == Result::<Seq<StepV>, ValidationErrorV>::Err(e@));
                                    assert(resolve_steps(es, wfv.steps)
                                        == Result::<Seq<StepV>, ValidationErrorV>::Err(e@));
                                    assert(validate_spec(wfv)
                                        == Result::<Seq<StepV>, ValidationErrorV>::Err(e@));
                            }
                            return Result::Err(e);
                        } else {
                            let nv = input.clone();
                            proof {
                                assert(resolve_input(es, vv, sid_v)
                                    == Result::<VariableV, ValidationErrorV>::Ok(nv@));
                            }
                            new_inputs.push(nv);
                        }
                    },
                }
                proof {
                    assert forall|j: int| 0 <= j < ii + 1 implies new_inputs.deep_view()[j]
                        == prev_new.push(new_inputs.deep_view()[ii as int])[j] by {
                        if j < ii {
                            assert(new_inputs.deep_view()[j] == new_inputs@[j]@);
                        }
                    }
                    let rv = new_inputs.deep_view()[ii as int];
                    assert(new_inputs.deep_view() =~= prev_new.push(rv));
                    assert(resolve_input(es, vv, sid_v)
                        == Result::<VariableV, ValidationErrorV>::Ok(rv));
                    assert forall|rest: Seq<VariableV>|
                        resolve_inputs(es, sv.inputs.skip(ii + 1), sid_v)
                            == Result::<Seq<VariableV>, ValidationErrorV>::Ok(rest)
                        implies prev_new + (seq![rv] + rest) =~= new_inputs.deep_view()
                            + rest by {}
                    assert(resolve_inputs(es, sv.inputs.skip(ii as int), sid_v) == (
                    match resolve_inputs(es, sv.inputs.skip(ii + 1), sid_v) {
                        Result::Ok(rest) => Result::<Seq<VariableV>, ValidationErrorV>::Ok(
                            seq![rv] + rest,
                        ),
                        Result::Err(e) => Result::<Seq<VariableV>, ValidationErrorV>::Err(e),
                    }));
                }
                ii = ii + 1;
            }
            proof {
                assert(sv.inputs.skip(sv.inputs.len() as int) =~= Seq::<VariableV>::empty());
                assert(new_inputs.deep_view() + Seq::<VariableV>::empty()
                    =~= new_inputs.deep_view());
                assert(resolve_inputs(es, sv.inputs, sid_v)
                    == Result::<Seq<VariableV>, ValidationErrorV>::Ok(new_inputs.deep_view()));
                assert(sv.outputs.skip(0) =~= sv.outputs);
            }
            let mut new_outputs: Vec<Variable> = Vec::new();
            let mut oi2: usize = 0;
            while oi2 < self.steps[si2].outputs.len()
                invariant
                    self@ == wfv,
                    es == registry_entries(wfv),
                    reg_view(reg@) == es,
                    si2 < self.steps.len(),
                    self.steps.len() == wfv.steps.len(),
                    sv == wfv.steps[si2 as int],
                    sid_v == step_identity(sv),
                    oi2 <= self.steps[si2 as int].outputs.len(),
                    self.steps[si2 as int].outputs.len() == sv.outputs.len(),
                    new_outputs@.len() == oi2,
                    resolve_inputs(es, sv.inputs, sid_v)
                        == Result::<Seq<VariableV>, ValidationErrorV>::Ok(
                        new_inputs.deep_view(),
                    ),
                    resolve_outputs(es, sv.outputs, sid_v) == (match resolve_outputs(
                        es,
                        sv.outputs.skip(oi2 as int),
                        sid_v,
                    ) {
                        Result::Ok(rest) => Result::<Seq<VariableV>, ValidationErrorV>::Ok(
                            new_outputs.deep_view() + rest,
                        ),
                        Result::Err(e) => Result::<Seq<VariableV>, ValidationErrorV>::Err(e),
                    }),
                decreases self.steps[si2 as int].outputs.len() - oi2,
            {
                let ghost vv = sv.outputs[oi2 as int];
                proof {
                    assert(self.steps[si2 as int]@ == sv);
                    assert(self.steps[si2 as int].outputs.deep_view()[oi2 as int] == vv);
                    assert(sv.outputs.skip(oi2 as int)[0] == vv);
                    assert(sv.outputs.skip(oi2 as int).skip(1) =~= sv.outputs.skip(oi2 + 1));
                }
                let output = &self.steps[si2].outputs[oi2];
                let ghost prev_new = new_outputs.deep_view();
                match &output.ref_ {
                    Option::Some(r) => {
                        match reg_find(&reg, r.as_str()) {
                            Option::Some(idx) => {
                                let src_type = reg[idx].1.type_;
                                proof {
                                    assert(reg_view(reg@)[idx as int].1 == reg@[idx as int].1@);
                                    assert(lookup(es, r@) == Option::Some(reg@[idx as int].1@));
                                }
                                if output.type_ == DataType::Pending {
                                    if src_type == DataType::Pending {
                                        let e = ValidationError::UnresolvedReference {
                                            reference: r.clone(),
                                            step: String::from_str(self.steps[si2].identity()),
                                        };
                                        proof {
                                            assert(resolve_output(es, vv, sid_v)
                                                == Result::<VariableV, ValidationErrorV>::Err(e@));
                                            assert(resolve_outputs(es, sv.outputs.skip(oi2 as int), sid_v)
                                                == Result::<Seq<VariableV>, ValidationErrorV>::Err(e@));
                                            assert(resolve_outputs(es, sv.outputs, sid_v)
                                                == Result::<Seq<VariableV>, ValidationErrorV>::Err(e@));
                                            assert(resolve_step(es, sv)
                                                == Result::<StepV, ValidationErrorV>::Err(e@));
                                            assert(resolve_steps(es, wfv.steps.skip(si2 as int))
                                                == Result::<Seq<StepV>, ValidationErrorV>::Err(e@));
                                            assert(resolve_steps(es, wfv.steps)
                                                == Result::<Seq<StepV>, ValidationErrorV>::Err(e@));
                                            assert(validate_spec(wfv)
                                                == Result::<Seq<StepV>, ValidationErrorV>::Err(e@));
                                        }
                                        return Result::Err(e);
                                    }
                                    let nv = Variable {
                                        name: output.name.clone(),
                                        type_: src_type,
                                        value: clone_opt_value(&output.value),
                                        ref_: clone_opt_string(&output.ref_),
                                    };
                                    proof {
                                        assert(nv@ == (VariableV {
                                            type_: reg@[idx as int].1@.type_,
                                            ..vv
                                        }));
                                        assert(resolve_output(es, vv, sid_v)
                                            == Result::<VariableV, ValidationErrorV>::Ok(nv@));
                                    }
                                    new_outputs.push(nv);
                                } else {
                                    let nv = output.clone();
                                    proof {
                                        assert(resolve_output(es, vv, sid_v)
                                            == Result::<VariableV, ValidationErrorV>::Ok(nv@));
                                    }
                                    new_outputs.push(nv);
                                }
                            },
                            Option::None => {
                                let e = ValidationError::UnresolvedReference {
                                    reference: r.clone(),
                                    step: String::from_str(self.steps[si2].identity()),
                                };
                                proof {
                                    assert(resolve_output(es, vv, sid_v)
                                        == Result::<VariableV, ValidationErrorV>::Err(e@));
                                    assert(resolve_outputs(es, sv.outputs.skip(oi2 as int), sid_v)
                                        == Result::<Seq<VariableV>, ValidationErrorV>::Err(e@));
                                    assert(resolve_outputs(es, sv.outputs, sid_v)
                                        == Result::<Seq<VariableV>, ValidationErrorV>::Err(e@));
                                    assert(resolve_step(es, sv)
                                        == Result::<StepV, ValidationErrorV>::Err(e@));
                                    assert(resolve_steps(es, wfv.steps.skip(si2 as int))
                                        == Result::<Seq<StepV>, ValidationErrorV>::Err(e@));
                                    assert(resolve_steps(es, wfv.steps)
                                        == Result::<Seq<StepV>, ValidationErrorV>::Err(e@));
                                    assert(validate_spec(wfv)
                                        == Result::<Seq<StepV>, ValidationErrorV>::Err(e@));
                                }
                                return Result::Err(e);
                            },
                        }
                    },
                    Option::None => {
                        let nv = output.clone();
                        proof {
                            assert(resolve_output(es, vv, sid_v)
                                == Result::<VariableV, ValidationErrorV>::Ok(nv@));
                        }
                        new_outputs.push(nv);
                    },
                }
                proof {
                    assert forall|j: int| 0 <= j < oi2 + 1 implies new_outputs.deep_view()[j]
                        == prev_new.push(new_outputs.deep_view()[oi2 as int])[j] by {
                        if j < oi2 {
                            assert(new_outputs.deep_view()[j] == new_outputs@[j]@);
                        }
                    }
                    let rv = new_outputs.deep_view()[oi2 as int];
                    assert(new_outputs.deep_view() =~= prev_new.push(rv));
                    assert(resolve_output(es, vv, sid_v)
                        == Result::<VariableV, ValidationErrorV>::Ok(rv));
                    assert forall|rest: Seq<VariableV>|
                        resolve_outputs(es, sv.outputs.skip(oi2 + 1), sid_v)
                            == Result::<Seq<VariableV>, ValidationErrorV>::Ok(rest)
                        implies prev_new + (seq![rv] + rest) =~= new_outputs.deep_view()
                            + rest by {}
                    assert(resolve_outputs(es, sv.outputs.skip(oi2 as int), sid_v) == (
                    match resolve_outputs(es, sv.outputs.skip(oi2 + 1), sid_v) {
                        Result::Ok(rest) => Result::<Seq<VariableV>, ValidationErrorV>::Ok(
                            seq![rv] + rest,
                        ),
                        Result::Err(e) => Result::<Seq<VariableV>, ValidationErrorV>::Err(e),
                    }));
                }
                oi2 = oi2 + 1;
            }
            proof {
                assert(sv.outputs.skip(sv.outputs.len() as int) =~= Seq::<VariableV>::empty());
                assert(new_outputs.deep_view() + Seq::<VariableV>::empty()
                    =~= new_outputs.deep_view());
                assert(resolve_outputs(es, sv.outputs, sid_v)
                    == Result::<Seq<VariableV>, ValidationErrorV>::Ok(new_outputs.deep_view()));
            }
            let step_ref = &self.steps[si2];
            let new_step = Step {
                id: clone_opt_string(&step_ref.id),
                name: step_ref.name.clone(),
                type_: step_ref.type_.clone(),
                inputs: new_inputs,
                script: step_ref.script.clone(),
                outputs: new_outputs,
            };
            let ghost prev_steps = new_steps.deep_view();
            proof {
                assert(new_step@ == (StepV {
                    inputs: new_step@.inputs,
                    outputs: new_step@.outputs,
                    ..sv
                }));
                assert(resolve_step(es, sv) == Result::<StepV, ValidationErrorV>::Ok(new_step@));
            }
            new_steps.push(new_step);
            proof {
                assert forall|j: int| 0 <= j < si2 + 1 implies new_steps.deep_view()[j]
                    == prev_steps.push(new_steps.deep_view()[si2 as int])[j] by {
                    if j < si2 {
                        assert(new_steps.deep_view()[j] == new_steps@[j]@);
                    }
                }
                let rs = new_steps.deep_view()[si2 as int];
                assert(new_steps.deep_view() =~= prev_steps.push(rs));
                assert(resolve_step(es, sv) == Result::<StepV, ValidationErrorV>::Ok(rs));
                assert forall|rest: Seq<StepV>|
                    resolve_steps(es, wfv.steps.skip(si2 + 1))
                        == Result::<Seq<StepV>, ValidationErrorV>::Ok(rest)
                    implies prev_steps + (seq![rs] + rest) =~= new_steps.deep_view() + rest by {}
                assert(resolve_steps(es, wfv.steps.skip(si2 as int)) == (
                match resolve_steps(es, wfv.steps.skip(si2 + 1)) {
                    Result::Ok(rest) => Result::<Seq<StepV>, ValidationErrorV>::Ok(
                        seq![rs] + rest,
                    ),
                    Result::Err(e) => Result::<Seq<StepV>, ValidationErrorV>::Err(e),
                }));
            }
            si2 = si2 + 1;
        }
        proof {
            assert(wfv.steps.skip(wfv.steps.len() as int) =~= Seq::<StepV>::empty());
            assert(new_steps.deep_view() + Seq::<StepV>::empty() =~= new_steps.deep_view());
            assert(resolve_steps(es, wfv.steps)
                == Result::<Seq<StepV>, ValidationErrorV>::Ok(new_steps.deep_view()));
            lemma_resolved_steps_concrete(es, wfv.steps, new_steps.deep_view());
        }
        self.steps = new_steps;
        proof {
            assert(self@ == (WorkflowV { steps: self@.steps, ..wfv }));
        }
        Result::Ok(())
    }
}


/// The first registered runner for a runner-type string.
pub open spec fn find_runner_spec(rs: Seq<RunnerV>, ty: Seq<char>) -> Option<RunnerV>
    decreases rs.len(),
{
    if rs.len() == 0 {
        Option::None
    } else if rs[0].type_ == ty {
        Option::Some(rs[0])
    } else {
        find_runner_spec(rs.skip(1), ty)
    }
}

proof fn lemma_find_runner_hit(rs: Seq<RunnerV>, ty: Seq<char>, i: int)
    requires
        0 <= i < rs.len(),
        rs[i].type_ == ty,
        forall|j: int| 0 <= j < i ==> rs[j].type_ != ty,
    ensures
        find_runner_spec(rs, ty) == Option::Some(rs[i]),
    decreases i,
{
    if i > 0 {
        assert forall|j: int| 0 <= j < i - 1 implies rs.skip(1)[j].type_ != ty by {
            assert(rs.skip(1)[j] == rs[j + 1]);
        }
        assert(rs.skip(1)[i - 1] == rs[i]);
        lemma_find_runner_hit(rs.skip(1), ty, i - 1);
    }
}

proof fn lemma_find_runner_miss(rs: Seq<RunnerV>, ty: Seq<char>)
    requires
        forall|j: int| 0 <= j < rs.len() ==> rs[j].type_ != ty,
    ensures
        find_runner_spec(rs, ty) is None,
    decreases rs.len(),
{
    if rs.len() > 0 {
        assert forall|j: int| 0 <= j < rs.skip(1).len() implies rs.skip(1)[j].type_ != ty by {
            assert(rs.skip(1)[j] == rs[j + 1]);
        }
        lemma_find_runner_miss(rs.skip(1), ty);
    }
}

/// The position of the first result binding whose qualified key is `r`.
pub open spec fn find_binding(results: Seq<VariableV>, r: Seq<char>) -> Option<int>
    decreases results.len(),
{
    if results.len() == 0 {
        Option::None
    } else if qual_result(results[0].name) == r {
        Option::Some(0int)
    } else {
        match find_binding(results.skip(1), r) {
            Option::None => Option::None,
            Option::Some(i) => Option::Some(i + 1),
        }
    }
}

proof fn lemma_find_binding(results: Seq<VariableV>, r: Seq<char>)
    ensures
        match find_binding(results, r) {
            Option::None => forall|j: int|
                0 <= j < results.len() ==> qual_result(results[j].name) != r,
            Option::Some(i) => 0 <= i < results.len() && qual_result(results[i].name) == r
                && forall|j: int| 0 <= j < i ==> qual_result(results[j].name) != r,
        },
    decreases results.len(),
{
    if results.len() == 0 {
    } else if qual_result(results[0].name) == r {
    } else {
        lemma_find_binding(results.skip(1), r);
        match find_binding(results.skip(1), r) {
            Option::None => {
                assert forall|j: int|
                    0 <= j < results.len() implies qual_result(results[j].name) != r by {
                    if j > 0 {
                        assert(results.skip(1)[j - 1] == results[j]);
                    }
                }
            },
            Option::Some(i) => {
                assert(results.skip(1)[i] == results[i + 1]);
                assert forall|j: int|
                    0 <= j < i + 1 implies qual_result(results[j].name) != r by {
                    if j > 0 {
                        assert(results.skip(1)[j - 1] == results[j]);
                    }
                }
            },
        }
    }
}

/// What one executed output does to the result bindings: an output that
/// references a result binding's qualified key copies its value there;
/// any other output changes nothing.
pub open spec fn bind_one(results: Seq<VariableV>, out: VariableV) -> Seq<VariableV> {
    match out.ref_ {
        Option::None => results,
        Option::Some(r) => match find_binding(results, r) {
            Option::None => results,
            Option::Some(i) => results.update(
                i,
                VariableV { value: out.value, ..results[i] },
            ),
        },
    }
}

/// The result bindings after every output of a step has been folded in,
/// in declaration order.
pub open spec fn bind_outputs(results: Seq<VariableV>, outs: Seq<VariableV>) -> Seq<VariableV>
    decreases outs.len(),
{
    if outs.len() == 0 {
        results
    } else {
        bind_outputs(bind_one(results, outs[0]), outs.skip(1))
    }
}

impl Workflow {
    /// The capability registered for a runner-type string, if any.
    pub fn find_runner(&self, type_: &str) -> (r: Option<RunnerKind>)
        ensures
            match r {
                Option::None => find_runner_spec(self@.runners, type_@) is None,
                Option::Some(k) => find_runner_spec(self@.runners, type_@) matches Option::Some(
                    rv,
                ) && rv.kind == k,
            },
    {
        let ghost rs = self@.runners;
        let mut i: usize = 0;
        while i < self.runners.len()
            invariant
                i <= self.runners.len(),
                rs == self@.runners,
                rs.len() == self.runners.len(),
                forall|j: int| 0 <= j < i ==> rs[j].type_ != type_@,
            decreases self.runners.len() - i,
        {
            if str_eq(self.runners[i].type_.as_str(), type_) {
                proof {
                    assert(rs[i as int] == self.runners.deep_view()[i as int]);
                    lemma_find_runner_hit(rs, type_@, i as int);
                }
                return Option::Some(self.runners[i].kind);
            }
            proof {
                assert(rs[i as int] == self.runners.deep_view()[i as int]);
            }
            i = i + 1;
        }
        proof {
            lemma_find_runner_miss(rs, type_@);
        }
        Option::None
    }

    /// The capability for one step's declared runner type; an
    /// unregistered type is a fatal configuration error that pre-empts
    /// execution.
    pub fn runner_for_step(&self, index: usize) -> (r: Result<RunnerKind, ValidationError>)
        requires
            index < self@.steps.len(),
        ensures
            match r {
                Result::Ok(k) => find_runner_spec(
                    self@.runners,
                    self@.steps[index as int].type_,
                ) matches Option::Some(rv) && rv.kind == k,
                Result::Err(e) => find_runner_spec(self@.runners, self@.steps[index as int].type_)
                    is None && e@ == (ValidationErrorV::UnknownRunnerType {
                    runner_type: self@.steps[index as int].type_,
                }),
            },
    {
        proof {
            assert(self@.steps[index as int] == self.steps.deep_view()[index as int]);
        }
        match self.find_runner(self.steps[index].type_.as_str()) {
            Option::Some(k) => Result::Ok(k),
            Option::None => Result::Err(
                ValidationError::UnknownRunnerType {
                    runner_type: self.steps[index].type_.clone(),
                },
            ),
        }
    }

    /// Copy one executed step's outputs into the result bindings they
    /// reference, as `bind_outputs` says.
    #[verifier::loop_isolation(false)]
    pub fn bind_step_results(&mut self, index: usize)
        requires
            index < old(self)@.steps.len(),
        ensures
            final(self)@ == (WorkflowV {
                results: bind_outputs(
                    old(self)@.results,
                    old(self)@.steps[index as int].outputs,
                ),
                ..old(self)@
            }),
    {
        let ghost wfv = old(self)@;
        let ghost outs = wfv.steps[index as int].outputs;
        proof {
            assert(self.steps.deep_view()[index as int] == wfv.steps[index as int]);
            assert(outs.skip(0) =~= outs);
        }
        let outs_len = self.steps[index].outputs.len();
        let mut oi: usize = 0;
        while oi < outs_len
            invariant
                oi <= outs_len,
                outs_len == outs.len(),
                self@.steps == wfv.steps,
                self@.name == wfv.name,
                self@.version == wfv.version,
                self@.timeout == wfv.timeout,
                self@.config == wfv.config,
                self@.runners == wfv.runners,
                self@.results.len() == wfv.results.len(),
                bind_outputs(self@.results, outs.skip(oi as int)) == bind_outputs(
                    wfv.results,
                    outs,
                ),
            decreases outs_len - oi,
        {
            let ghost cur_results = self@.results;
            let ghost ov = outs[oi as int];
            proof {
                assert(outs.skip(oi as int)[0] == ov);
                assert(outs.skip(oi as int).skip(1) =~= outs.skip(oi + 1));
                assert(self.steps[index as int].outputs.deep_view()[oi as int] == ov);
            }
            match &self.steps[index].outputs[oi].ref_ {
                Option::None => {
                    proof {
                        assert(bind_one(cur_results, ov) == cur_results);
                    }
                },
                Option::Some(r) => {
                    let mut bi: usize = 0;
                    let mut found = false;
                    let results_len = self.results.len();
                    while bi < results_len && !found
                        invariant
                            results_len == self.results.len(),
                            self@.results == cur_results,
                            cur_results.len() == results_len,
                            bi <= results_len,
                            !found ==> forall|j: int|
                                0 <= j < bi ==> qual_result(cur_results[j].name) != r@,
                            found ==> bi < results_len && qual_result(cur_results[bi as int].name)
                                == r@ && forall|j: int|
                                0 <= j < bi ==> qual_result(cur_results[j].name) != r@,
                        decreases results_len - bi, if found {
                            0int
                        } else {
                            1int
                        },
                    {
                        let key = qual_result_key(self.results[bi].name.as_str());
                        proof {
                            assert(cur_results[bi as int] == self.results.deep_view()[bi as int]);
                        }
                        if str_eq(key.as_str(), r.as_str()) {
                            found = true;
                        } else {
                            bi = bi + 1;
                        }
                    }
                    if found {
                        let mut nv = self.results[bi].clone();
                        nv.value = clone_opt_value(&self.steps[index].outputs[oi].value);
                        self.results.set(bi, nv);
                        proof {
                            lemma_find_binding(cur_results, r@);
                            match find_binding(cur_results, r@) {
                                Option::None => {
                                    assert(false);
                                },
                                Option::Some(fi) => {
                                    assert(fi == bi as int);
                                },
                            }
                            assert(self@.results =~= cur_results.update(
                                bi as int,
                                VariableV { value: ov.value, ..cur_results[bi as int] },
                            ));
                            assert(self@.results == bind_one(cur_results, ov));
                        }
                    } else {
                        proof {
                            lemma_find_binding(cur_results, r@);
                            match find_binding(cur_results, r@) {
                                Option::None => {},
                                Option::Some(fi) => {
                                    assert(qual_result(cur_results[fi].name) == r@);
                                    assert(false);
                                },
                            }
                            assert(bind_one(cur_results, ov) == cur_results);
                        }
                    }
                },
            }
            oi = oi + 1;
        }
        proof {
            assert(outs.skip(outs.len() as int) =~= Seq::<VariableV>::empty());
            assert(self@ == (WorkflowV { results: self@.results, ..wfv }));
        }
    }
}

/// The final document of a run: identity, duration, bindings and
/// per-step execution records.
pub struct WorkflowResult {
    pub name: Option<String>,
    pub version: Option<String>,
    pub duration: u64,
    pub config: Vec<(String, Value)>,
    pub results: Vec<(String, Value)>,
    pub out: Vec<RunnerResult>,
}

/// Mathematical model of a `WorkflowResult`.
pub struct WorkflowResultV {
    pub name: Option<Seq<char>>,
    pub version: Option<Seq<char>>,
    pub duration: u64,
    pub config: Seq<(Seq<char>, ValueV)>,
    pub results: Seq<(Seq<char>, ValueV)>,
    pub out: Seq<RunnerResultV>,
}

impl View for WorkflowResult {
    type V = WorkflowResultV;

    open spec fn view(&self) -> WorkflowResultV {
        WorkflowResultV {
            name: match self.name {
                Option::Some(ref s) => Option::Some(s@),
                Option::None => Option::None,
            },
            version: match self.version {
                Option::Some(ref s) => Option::Some(s@),
                Option::None => Option::None,
            },
            duration: self.duration,
            config: self.config@.map_values(|p: (String, Value)| (p.0@, p.1@)),
            results: self.results@.map_values(|p: (String, Value)| (p.0@, p.1@)),
            out: self.out.deep_view(),
        }
    }
}

impl Workflow {
    /// The empty result a run starts from: the workflow's identity, zero
    /// duration, no bindings, no records.
    pub fn begin_result(&self) -> (r: WorkflowResult)
        ensures
            r@.name == self@.name,
            r@.version == self@.version,
            r@.duration == 0,
            r@.config == Seq::<(Seq<char>, ValueV)>::empty(),
            r@.results == Seq::<(Seq<char>, ValueV)>::empty(),
            r@.out == Seq::<RunnerResultV>::empty(),
    {
        let r = WorkflowResult {
            name: clone_opt_string(&self.name),
            version: clone_opt_string(&self.version),
            duration: 0,
            config: Vec::new(),
            results: Vec::new(),
            out: Vec::new(),
        };
        proof {
            assert(r@.config =~= Seq::<(Seq<char>, ValueV)>::empty());
            assert(r@.results =~= Seq::<(Seq<char>, ValueV)>::empty());
            assert(r@.out =~= Seq::<RunnerResultV>::empty());
        }
        r
    }
}


/// A resolved step carries no placeholder: every input and every
/// reference-carrying output has a concrete type.
pub open spec fn step_resolved_concrete(s: StepV) -> bool {
    &&& forall|i: int|
        0 <= i < s.inputs.len() ==> (#[trigger] s.inputs[i]).type_ != DataType::Pending
    &&& forall|i: int|
        0 <= i < s.outputs.len() && (#[trigger] s.outputs[i]).ref_ is Some
            ==> s.outputs[i].type_ != DataType::Pending
}

/// Law: the placeholder type never survives resolution.
pub open spec fn steps_resolved_concrete(ss: Seq<StepV>) -> bool {
    forall|i: int| 0 <= i < ss.len() ==> step_resolved_concrete(#[trigger] ss[i])
}

proof fn lemma_resolve_outputs_len(
    es: Seq<(Seq<char>, VariableV)>,
    vs: Seq<VariableV>,
    rs: Seq<VariableV>,
    sid: Seq<char>,
)
    requires
        resolve_outputs(es, vs, sid) == Result::<Seq<VariableV>, ValidationErrorV>::Ok(rs),
    ensures
        rs.len() == vs.len(),
    decreases vs.len(),
{
    if vs.len() > 0 {
        let rest = match resolve_outputs(es, vs.skip(1), sid) {
            Result::Ok(rest) => rest,
            Result::Err(_) => Seq::<VariableV>::empty(),
        };
        lemma_resolve_outputs_len(es, vs.skip(1), rest, sid);
    }
}

proof fn lemma_resolve_outputs_index(
    es: Seq<(Seq<char>, VariableV)>,
    vs: Seq<VariableV>,
    rs: Seq<VariableV>,
    sid: Seq<char>,
    i: int,
)
    requires
        resolve_outputs(es, vs, sid) == Result::<Seq<VariableV>, ValidationErrorV>::Ok(rs),
        0 <= i < vs.len(),
    ensures
        rs.len() == vs.len(),
        resolve_output(es, vs[i], sid) == Result::<VariableV, ValidationErrorV>::Ok(rs[i]),
    decreases vs.len(),
{
    let rest = match resolve_outputs(es, vs.skip(1), sid) {
        Result::Ok(rest) => rest,
        Result::Err(_) => Seq::<VariableV>::empty(),
    };
    lemma_resolve_outputs_len(es, vs.skip(1), rest, sid);
    assert(rs =~= seq![rs[0]] + rest);
    if i > 0 {
        lemma_resolve_outputs_index(es, vs.skip(1), rest, sid, i - 1);
        assert(vs.skip(1)[i - 1] == vs[i]);
        assert(rs[i] == rest[i - 1]);
    }
}

proof fn lemma_resolved_step_concrete(
    es: Seq<(Seq<char>, VariableV)>,
    s: StepV,
    rs: StepV,
)
    requires
        resolve_step(es, s) == Result::<StepV, ValidationErrorV>::Ok(rs),
    ensures
        step_resolved_concrete(rs),
{
    let sid = step_identity(s);
    let ins = match resolve_inputs(es, s.inputs, sid) {
        Result::Ok(ins) => ins,
        Result::Err(_) => Seq::<VariableV>::empty(),
    };
    let outs = match resolve_outputs(es, s.outputs, sid) {
        Result::Ok(outs) => outs,
        Result::Err(_) => Seq::<VariableV>::empty(),
    };
    assert(rs.inputs == ins && rs.outputs == outs);
    lemma_resolve_inputs_len(es, s.inputs, ins, sid);
    lemma_resolve_outputs_len(es, s.outputs, outs, sid);
    assert forall|i: int|
        0 <= i < rs.inputs.len() implies (#[trigger] rs.inputs[i]).type_
        != DataType::Pending by {
        lemma_resolve_inputs_index(es, s.inputs, ins, sid, i);
    }
    assert forall|i: int|
        0 <= i < rs.outputs.len() && (#[trigger] rs.outputs[i]).ref_ is Some
        implies rs.outputs[i].type_ != DataType::Pending by {
        lemma_resolve_outputs_index(es, s.outputs, outs, sid, i);
    }
}

proof fn lemma_resolved_steps_concrete(
    es: Seq<(Seq<char>, VariableV)>,
    steps: Seq<StepV>,
    ss: Seq<StepV>,
)
    requires
        resolve_steps(es, steps) == Result::<Seq<StepV>, ValidationErrorV>::Ok(ss),
    ensures
        steps_resolved_concrete(ss),
{
    lemma_resolve_steps_len(es, steps, ss);
    assert forall|i: int| 0 <= i < ss.len() implies step_resolved_concrete(
        #[trigger] ss[i],
    ) by {
        lemma_resolve_steps_index(es, steps, ss, i);
        lemma_resolved_step_concrete(es, steps[i], ss[i]);
    }
}

proof fn lemma_first_dup_hits(es: Seq<(Seq<char>, VariableV)>, k: int, j: int)
    requires
        0 <= k <= j < es.len(),
        dup_at(es, j),
    ensures
        first_dup_from(es, k) is Some,
    decreases j - k,
{
    if k < j && !dup_at(es, k) {
        lemma_first_dup_hits(es, k + 1, j);
    }
}

/// Law: two config variables sharing a name make registry construction
/// fail with a duplicate-variable error.
pub proof fn lemma_duplicate_config_detected(wf: WorkflowV, i: int, j: int)
    requires
        0 <= i < j < wf.config.len(),
        wf.config[i].name == wf.config[j].name,
    ensures
        validate_spec(wf) matches Result::Err(ValidationErrorV::DuplicateVariable { .. }),
{
    let es = registry_entries(wf);
    assert(es[i] == config_entries(wf.config)[i]);
    assert(es[j] == config_entries(wf.config)[j]);
    assert(config_entries(wf.config)[i] == (qual_config(wf.config[i].name), wf.config[i]));
    assert(config_entries(wf.config)[j] == (qual_config(wf.config[j].name), wf.config[j]));
    assert(es[i].0 == es[j].0);
    assert(dup_at(es, j));
    lemma_first_dup_hits(es, 0, j);
}

proof fn lemma_resolve_inputs_prefix_err(
    es: Seq<(Seq<char>, VariableV)>,
    vs: Seq<VariableV>,
    sid: Seq<char>,
    k: int,
    e: ValidationErrorV,
)
    requires
        0 <= k < vs.len(),
        resolve_inputs(es, vs.take(k), sid) is Ok,
        resolve_input(es, vs[k], sid) == Result::<VariableV, ValidationErrorV>::Err(e),
    ensures
        resolve_inputs(es, vs, sid) == Result::<Seq<VariableV>, ValidationErrorV>::Err(e),
    decreases k,
{
    if k == 0 {
    } else {
        assert(vs.take(k)[0] == vs[0]);
        assert(vs.take(k).skip(1) =~= vs.skip(1).take(k - 1));
        assert(vs.skip(1)[k - 1] == vs[k]);
        lemma_resolve_inputs_prefix_err(es, vs.skip(1), sid, k - 1, e);
    }
}

proof fn lemma_resolve_steps_prefix_err(
    es: Seq<(Seq<char>, VariableV)>,
    steps: Seq<StepV>,
    k: int,
    e: ValidationErrorV,
)
    requires
        0 <= k < steps.len(),
        resolve_steps(es, steps.take(k)) is Ok,
        resolve_step(es, steps[k]) == Result::<StepV, ValidationErrorV>::Err(e),
    ensures
        resolve_steps(es, steps) == Result::<Seq<StepV>, ValidationErrorV>::Err(e),
    decreases k,
{
    if k == 0 {
    } else {
        assert(steps.take(k)[0] == steps[0]);
        assert(steps.take(k).skip(1) =~= steps.skip(1).take(k - 1));
        assert(steps.skip(1)[k - 1] == steps[k]);
        lemma_resolve_steps_prefix_err(es, steps.skip(1), k - 1, e);
    }
}

/// Law: an input referencing a qualified name the registry does not hold
/// fails validation with an unresolved-reference error naming the
/// reference and the step — before any step executes, since validation
/// precedes execution and leaves the workflow untouched on failure. The
/// premises place the input at the first failure of the walk.
pub proof fn lemma_unresolved_input_reference(wf: WorkflowV, si: int, ii: int, r: Seq<char>)
    requires
        first_dup(registry_entries(wf)) is None,
        0 <= si < wf.steps.len(),
        resolve_steps(registry_entries(wf), wf.steps.take(si)) is Ok,
        0 <= ii < wf.steps[si].inputs.len(),
        resolve_inputs(
            registry_entries(wf),
            wf.steps[si].inputs.take(ii),
            step_identity(wf.steps[si]),
        ) is Ok,
        wf.steps[si].inputs[ii].ref_ == Option::Some(r),
        lookup(registry_entries(wf), r) is None,
    ensures
        validate_spec(wf) == Result::<Seq<StepV>, ValidationErrorV>::Err(
            ValidationErrorV::UnresolvedReference {
                reference: r,
                step: step_identity(wf.steps[si]),
            },
        ),
{
    let es = registry_entries(wf);
    let s = wf.steps[si];
    let sid = step_identity(s);
    let e = ValidationErrorV::UnresolvedReference { reference: r, step: sid };
    assert(resolve_input(es, s.inputs[ii], sid) == Result::<VariableV, ValidationErrorV>::Err(
        e,
    ));
    lemma_resolve_inputs_prefix_err(es, s.inputs, sid, ii, e);
    assert(resolve_step(es, s) == Result::<StepV, ValidationErrorV>::Err(e));
    lemma_resolve_steps_prefix_err(es, wf.steps, si, e);
}

/// Law: an input whose explicit type disagrees with its reference's
/// resolved type fails validation with a type-mismatch error carrying
/// the reference, the expected type and the found type. The premises
/// place the input at the first failure of the walk.
pub proof fn lemma_type_mismatch_detected(
    wf: WorkflowV,
    si: int,
    ii: int,
    r: Seq<char>,
    src: VariableV,
)
    requires
        first_dup(registry_entries(wf)) is None,
        0 <= si < wf.steps.len(),
        resolve_steps(registry_entries(wf), wf.steps.take(si)) is Ok,
        0 <= ii < wf.steps[si].inputs.len(),
        resolve_inputs(
            registry_entries(wf),
            wf.steps[si].inputs.take(ii),
            step_identity(wf.steps[si]),
        ) is Ok,
        wf.steps[si].inputs[ii].ref_ == Option::Some(r),
        lookup(registry_entries(wf), r) == Option::Some(src),
        wf.steps[si].inputs[ii].type_ != DataType::Pending,
        wf.steps[si].inputs[ii].type_ != src.type_,
    ensures
        validate_spec(wf) == Result::<Seq<StepV>, ValidationErrorV>::Err(
            ValidationErrorV::TypeMismatch {
                reference: r,
                expected: wf.steps[si].inputs[ii].type_,
                found: src.type_,
            },
        ),
{
    let es = registry_entries(wf);
    let s = wf.steps[si];
    let sid = step_identity(s);
    let e = ValidationErrorV::TypeMismatch {
        reference: r,
        expected: s.inputs[ii].type_,
        found: src.type_,
    };
    assert(resolve_input(es, s.inputs[ii], sid) == Result::<VariableV, ValidationErrorV>::Err(
        e,
    ));
    lemma_resolve_inputs_prefix_err(es, s.inputs, sid, ii, e);
    assert(resolve_step(es, s) == Result::<StepV, ValidationErrorV>::Err(e));
    lemma_resolve_steps_prefix_err(es, wf.steps, si, e);
}

proof fn lemma_resolve_inputs_index(
    es: Seq<(Seq<char>, VariableV)>,
    vs: Seq<VariableV>,
    rs: Seq<VariableV>,
    sid: Seq<char>,
    i: int,
)
    requires
        resolve_inputs(es, vs, sid) == Result::<Seq<VariableV>, ValidationErrorV>::Ok(rs),
        0 <= i < vs.len(),
    ensures
        rs.len() == vs.len(),
        resolve_input(es, vs[i], sid) == Result::<VariableV, ValidationErrorV>::Ok(rs[i]),
    decreases vs.len(),
{
    let rest = match resolve_inputs(es, vs.skip(1), sid) {
        Result::Ok(rest) => rest,
        Result::Err(_) => Seq::<VariableV>::empty(),
    };
    assert(rs =~= seq![rs[0]] + rest);
    if i == 0 {
        lemma_resolve_inputs_len(es, vs.skip(1), rest, sid);
    } else {
        lemma_resolve_inputs_index(es, vs.skip(1), rest, sid, i - 1);
        assert(vs.skip(1)[i - 1] == vs[i]);
        assert(rs[i] == rest[i - 1]);
    }
}

proof fn lemma_resolve_inputs_len(
    es: Seq<(Seq<char>, VariableV)>,
    vs: Seq<VariableV>,
    rs: Seq<VariableV>,
    sid: Seq<char>,
)
    requires
        resolve_inputs(es, vs, sid) == Result::<Seq<VariableV>, ValidationErrorV>::Ok(rs),
    ensures
        rs.len() == vs.len(),
    decreases vs.len(),
{
    if vs.len() > 0 {
        let rest = match resolve_inputs(es, vs.skip(1), sid) {
            Result::Ok(rest) => rest,
            Result::Err(_) => Seq::<VariableV>::empty(),
        };
        lemma_resolve_inputs_len(es, vs.skip(1), rest, sid);
    }
}

proof fn lemma_resolve_steps_index(
    es: Seq<(Seq<char>, VariableV)>,
    steps: Seq<StepV>,
    ss: Seq<StepV>,
    i: int,
)
    requires
        resolve_steps(es, steps) == Result::<Seq<StepV>, ValidationErrorV>::Ok(ss),
        0 <= i < steps.len(),
    ensures
        resolve_step(es, steps[i]) == Result::<StepV, ValidationErrorV>::Ok(ss[i]),
    decreases steps.len(),
{
    let rest = match resolve_steps(es, steps.skip(1)) {
        Result::Ok(rest) => rest,
        Result::Err(_) => Seq::<StepV>::empty(),
    };
    lemma_resolve_steps_len(es, steps.skip(1), rest);
    assert(ss =~= seq![ss[0]] + rest);
    if i > 0 {
        lemma_resolve_steps_index(es, steps.skip(1), rest, i - 1);
        assert(steps.skip(1)[i - 1] == steps[i]);
        assert(ss[i] == rest[i - 1]);
    }
}

proof fn lemma_resolve_steps_len(
    es: Seq<(Seq<char>, VariableV)>,
    steps: Seq<StepV>,
    ss: Seq<StepV>,
)
    requires
        resolve_steps(es, steps) == Result::<Seq<StepV>, ValidationErrorV>::Ok(ss),
    ensures
        ss.len() == steps.len(),
    decreases steps.len(),
{
    if steps.len() > 0 {
        let rest = match resolve_steps(es, steps.skip(1)) {
            Result::Ok(rest) => rest,
            Result::Err(_) => Seq::<StepV>::empty(),
        };
        lemma_resolve_steps_len(es, steps.skip(1), rest);
    }
}

/// Law: when validation succeeds, an input that carried a reference and
/// no explicit type has inherited the referenced variable's type and
/// value exactly.
pub proof fn lemma_pending_input_inherits(
    wf: WorkflowV,
    ss: Seq<StepV>,
    si: int,
    ii: int,
    r: Seq<char>,
)
    requires
        validate_spec(wf) == Result::<Seq<StepV>, ValidationErrorV>::Ok(ss),
        0 <= si < wf.steps.len(),
        0 <= ii < wf.steps[si].inputs.len(),
        wf.steps[si].inputs[ii].ref_ == Option::Some(r),
        wf.steps[si].inputs[ii].type_ == DataType::Pending,
    ensures
        lookup(registry_entries(wf), r) matches Option::Some(src)
            && ss[si].inputs[ii].type_ == src.type_ && ss[si].inputs[ii].value == src.value,
{
    let es = registry_entries(wf);
    let s = wf.steps[si];
    let sid = step_identity(s);
    lemma_resolve_steps_index(es, wf.steps, ss, si);
    let ins = match resolve_inputs(es, s.inputs, sid) {
        Result::Ok(ins) => ins,
        Result::Err(_) => Seq::<VariableV>::empty(),
    };
    assert(ss[si].inputs == ins);
    lemma_resolve_inputs_index(es, s.inputs, ins, sid, ii);
}


/// Law: a workflow in which any step input references a qualified name
/// the registry does not hold never validates — without regard to where
/// the failing input stands in the walk. (`lemma_unresolved_input_reference`
/// pins the exact error when it is the walk's first failure; an earlier
/// failure wins otherwise.)
pub proof fn lemma_unresolvable_input_never_validates(
    wf: WorkflowV,
    si: int,
    ii: int,
    r: Seq<char>,
)
    requires
        0 <= si < wf.steps.len(),
        0 <= ii < wf.steps[si].inputs.len(),
        wf.steps[si].inputs[ii].ref_ == Option::Some(r),
        lookup(registry_entries(wf), r) is None,
    ensures
        validate_spec(wf) is Err,
{
    let es = registry_entries(wf);
    match validate_spec(wf) {
        Result::Err(_) => {},
        Result::Ok(ss) => {
            lemma_resolve_steps_index(es, wf.steps, ss, si);
            let sfs = wf.steps[si];
            let sid = step_identity(sfs);
            let ins = match resolve_inputs(es, sfs.inputs, sid) {
                Result::Ok(ins) => ins,
                Result::Err(_) => Seq::<VariableV>::empty(),
            };
            lemma_resolve_inputs_index(es, sfs.inputs, ins, sid, ii);
            assert(resolve_input(es, sfs.inputs[ii], sid) is Err);
            assert(false);
        },
    }
}

/// Law: the same for a step output's reference — a dangling qualified
/// name anywhere among the outputs prevents validation from succeeding.
pub proof fn lemma_unresolvable_output_never_validates(
    wf: WorkflowV,
    si: int,
    oi: int,
    r: Seq<char>,
)
    requires
        0 <= si < wf.steps.len(),
        0 <= oi < wf.steps[si].outputs.len(),
        wf.steps[si].outputs[oi].ref_ == Option::Some(r),
        lookup(registry_entries(wf), r) is None,
    ensures
        validate_spec(wf) is Err,
{
    let es = registry_entries(wf);
    match validate_spec(wf) {
        Result::Err(_) => {},
        Result::Ok(ss) => {
            lemma_resolve_steps_index(es, wf.steps, ss, si);
            let sfs = wf.steps[si];
            let sid = step_identity(sfs);
            let outs = match resolve_outputs(es, sfs.outputs, sid) {
                Result::Ok(outs) => outs,
                Result::Err(_) => Seq::<VariableV>::empty(),
            };
            lemma_resolve_outputs_index(es, sfs.outputs, outs, sid, oi);
            assert(resolve_output(es, sfs.outputs[oi], sid) is Err);
            assert(false);
        },
    }
}

/// A name free of dots cannot forge a qualified key's structure.
pub open spec fn dot_free(s: Seq<char>) -> bool {
    forall|k: int| 0 <= k < s.len() ==> s[k] != '.'
}

/// All keys of an entry group are pairwise distinct.
pub open spec fn keys_distinct(es: Seq<(Seq<char>, VariableV)>) -> bool {
    forall|i: int, j: int| 0 <= i < j < es.len() ==> es[i].0 != es[j].0
}

proof fn lemma_append_cancel(p: Seq<char>, a: Seq<char>, b: Seq<char>)
    requires
        p + a == p + b,
    ensures
        a == b,
{
    assert((p + a).len() == p.len() + a.len());
    assert((p + b).len() == p.len() + b.len());
    assert(a.len() == b.len());
    assert forall|k: int| 0 <= k < a.len() implies a[k] == b[k] by {
        assert((p + a)[p.len() + k] == a[k]);
        assert((p + b)[p.len() + k] == b[k]);
    }
    assert(a =~= b);
}

proof fn lemma_qual_output_injective(s1: Seq<char>, n1: Seq<char>, s2: Seq<char>, n2: Seq<char>)
    requires
        dot_free(s1),
        dot_free(s2),
        qual_output(s1, n1) == qual_output(s2, n2),
    ensures
        s1 == s2,
        n1 == n2,
{
    reveal_strlit("steps.");
    reveal_strlit(".outputs.");
    let mid = ".outputs."@;
    let w1 = s1 + mid + n1;
    let w2 = s2 + mid + n2;
    assert("steps."@ + w1 =~= qual_output(s1, n1));
    assert("steps."@ + w2 =~= qual_output(s2, n2));
    lemma_append_cancel("steps."@, w1, w2);
    assert(mid[0] == '.');
    if s1.len() < s2.len() {
        assert(w1[s1.len() as int] == mid[0]);
        assert(w2[s1.len() as int] == s2[s1.len() as int]);
        assert(false);
    }
    if s2.len() < s1.len() {
        assert(w2[s2.len() as int] == mid[0]);
        assert(w1[s2.len() as int] == s1[s2.len() as int]);
        assert(false);
    }
    assert forall|k: int| 0 <= k < s1.len() implies s1[k] == s2[k] by {
        assert(w1[k] == s1[k]);
        assert(w2[k] == s2[k]);
    }
    assert(s1 =~= s2);
    assert forall|k: int| 0 <= k < n1.len() implies n1[k] == n2[k] by {
        assert(w1[s1.len() + mid.len() + k] == n1[k]);
        assert(w2[s2.len() + mid.len() + k] == n2[k]);
    }
    assert(n1 =~= n2);
}

/// Every entry of the flattened output group is one step's output, with
/// that step's qualified key.
proof fn lemma_output_entry_form(steps: Seq<StepV>, m: int)
    requires
        0 <= m < output_entries(steps).len(),
    ensures
        exists|k: int, oi: int|
            0 <= k < steps.len() && 0 <= oi < steps[k].outputs.len() && output_entries(
                steps,
            )[m] == (
                qual_output(step_identity(steps[k]), steps[k].outputs[oi].name),
                steps[k].outputs[oi],
            ),
    decreases steps.len(),
{
    let head = step_entries(steps[0]);
    if m < head.len() {
        assert(output_entries(steps)[m] == head[m]);
        assert(head[m] == (
            qual_output(step_identity(steps[0]), steps[0].outputs[m].name),
            steps[0].outputs[m],
        ));
    } else {
        lemma_output_entry_form(steps.skip(1), m - head.len());
        let (k, oi) = choose|k: int, oi: int|
            0 <= k < steps.skip(1).len() && 0 <= oi < steps.skip(1)[k].outputs.len()
                && output_entries(steps.skip(1))[m - head.len()] == (
                qual_output(step_identity(steps.skip(1)[k]), steps.skip(1)[k].outputs[oi].name),
                steps.skip(1)[k].outputs[oi],
            );
        assert(steps.skip(1)[k] == steps[k + 1]);
        assert(output_entries(steps)[m] == output_entries(steps.skip(1))[m - head.len()]);
    }
}

proof fn lemma_output_keys_distinct(steps: Seq<StepV>)
    requires
        forall|i: int, j: int|
            0 <= i < j < steps.len() ==> step_identity(steps[i]) != step_identity(steps[j]),
        forall|i: int| 0 <= i < steps.len() ==> dot_free(step_identity(#[trigger] steps[i])),
        forall|i: int, a: int, b: int|
            0 <= i < steps.len() && 0 <= a < b < steps[i].outputs.len()
                ==> (#[trigger] steps[i].outputs[a]).name != (#[trigger] steps[i].outputs[b]).name,
    ensures
        keys_distinct(output_entries(steps)),
    decreases steps.len(),
{
    if steps.len() == 0 {
    } else {
        let head = step_entries(steps[0]);
        let tail = output_entries(steps.skip(1));
        assert forall|i: int, j: int|
            0 <= i < j < steps.skip(1).len() implies step_identity(steps.skip(1)[i])
            != step_identity(steps.skip(1)[j]) by {
            assert(steps.skip(1)[i] == steps[i + 1]);
            assert(steps.skip(1)[j] == steps[j + 1]);
        }
        assert forall|i: int|
            0 <= i < steps.skip(1).len() implies dot_free(
            step_identity(#[trigger] steps.skip(1)[i]),
        ) by {
            assert(steps.skip(1)[i] == steps[i + 1]);
        }
        assert forall|i: int, a: int, b: int|
            0 <= i < steps.skip(1).len() && 0 <= a < b < steps.skip(1)[i].outputs.len()
            implies (#[trigger] steps.skip(1)[i].outputs[a]).name != (#[trigger] steps.skip(
                1,
            )[i].outputs[b]).name by {
            assert(steps.skip(1)[i] == steps[i + 1]);
        }
        lemma_output_keys_distinct(steps.skip(1));
        assert forall|i: int, j: int|
            0 <= i < j < output_entries(steps).len() implies output_entries(steps)[i].0
            != output_entries(steps)[j].0 by {
            let es = output_entries(steps);
            if es[i].0 == es[j].0 {
                if j < head.len() {
                    // both inside the first step: distinct names there
                    assert(es[i] == head[i] && es[j] == head[j]);
                    lemma_qual_output_injective(
                        step_identity(steps[0]),
                        steps[0].outputs[i].name,
                        step_identity(steps[0]),
                        steps[0].outputs[j].name,
                    );
                    assert(false);
                } else if i >= head.len() {
                    // both in the tail: its own distinctness
                    assert(es[i] == tail[i - head.len()]);
                    assert(es[j] == tail[j - head.len()]);
                    assert(false);
                } else {
                    // across: the identities would have to collide
                    assert(es[i] == head[i]);
                    assert(es[j] == tail[j - head.len()]);
                    lemma_output_entry_form(steps.skip(1), j - head.len());
                    let (k, oi) = choose|k: int, oi: int|
                        0 <= k < steps.skip(1).len() && 0 <= oi < steps.skip(
                            1,
                        )[k].outputs.len() && tail[j - head.len()] == (
                            qual_output(
                                step_identity(steps.skip(1)[k]),
                                steps.skip(1)[k].outputs[oi].name,
                            ),
                            steps.skip(1)[k].outputs[oi],
                        );
                    assert(steps.skip(1)[k] == steps[k + 1]);
                    lemma_qual_output_injective(
                        step_identity(steps[0]),
                        steps[0].outputs[i].name,
                        step_identity(steps[k + 1]),
                        steps[k + 1].outputs[oi].name,
                    );
                    assert(false);
                }
            }
        }
    }
}

/// Law: registry construction reports no duplicate when the declared
/// names cannot collide — config names pairwise distinct, result names
/// pairwise distinct, step identities pairwise distinct and free of
/// dots, and each step's output names pairwise distinct within it.
/// (A step identity containing a dot can forge another step's qualified
/// prefix — identity `a` with output `b.outputs.c` collides with
/// identity `a.outputs.b` and output `c` — so the dot-free premise is
/// necessary.)
pub proof fn lemma_distinct_names_no_duplicate(wf: WorkflowV)
    requires
        forall|i: int, j: int|
            0 <= i < j < wf.config.len() ==> (#[trigger] wf.config[i]).name
                != (#[trigger] wf.config[j]).name,
        forall|i: int, j: int|
            0 <= i < j < wf.results.len() ==> (#[trigger] wf.results[i]).name
                != (#[trigger] wf.results[j]).name,
        forall|i: int, j: int|
            0 <= i < j < wf.steps.len() ==> step_identity(wf.steps[i])
                != step_identity(wf.steps[j]),
        forall|i: int| 0 <= i < wf.steps.len() ==> dot_free(step_identity(#[trigger] wf.steps[i])),
        forall|i: int, a: int, b: int|
            0 <= i < wf.steps.len() && 0 <= a < b < wf.steps[i].outputs.len()
                ==> (#[trigger] wf.steps[i].outputs[a]).name
                != (#[trigger] wf.steps[i].outputs[b]).name,
    ensures
        first_dup(registry_entries(wf)) is None,
        validate_spec(wf) matches Result::Err(e) ==> !(e matches
        ValidationErrorV::DuplicateVariable { .. }),
{
    reveal_strlit("config.");
    reveal_strlit("results.");
    reveal_strlit("steps.");
    let es = registry_entries(wf);
    let ce = config_entries(wf.config);
    let re = result_entries(wf.results);
    let oe = output_entries(wf.steps);
    lemma_output_keys_distinct(wf.steps);
    assert forall|i: int, j: int| 0 <= i < j < es.len() implies es[i].0 != es[j].0 by {
        if es[i].0 == es[j].0 {
            let key = es[j].0;
            // which group each index falls into decides the first
            // character of its key
            if j < ce.len() {
                assert(es[i] == ce[i] && es[j] == ce[j]);
                assert(("config."@ + wf.config[i].name) == ("config."@ + wf.config[j].name));
                lemma_append_cancel("config."@, wf.config[i].name, wf.config[j].name);
                assert(false);
            } else if j < ce.len() + re.len() {
                assert(es[j] == re[j - ce.len()]);
                assert(key[0] == 'r');
                if i < ce.len() {
                    assert(es[i] == ce[i]);
                    assert(key[0] == 'c');
                    assert(false);
                } else {
                    assert(es[i] == re[i - ce.len()]);
                    lemma_append_cancel(
                        "results."@,
                        wf.results[i - ce.len()].name,
                        wf.results[j - ce.len()].name,
                    );
                    assert(false);
                }
            } else {
                assert(es[j] == oe[j - ce.len() - re.len()]);
                lemma_output_entry_form(wf.steps, j - ce.len() - re.len());
                assert(key[0] == 's');
                if i < ce.len() {
                    assert(es[i] == ce[i]);
                    assert(key[0] == 'c');
                    assert(false);
                } else if i < ce.len() + re.len() {
                    assert(es[i] == re[i - ce.len()]);
                    assert(key[0] == 'r');
                    assert(false);
                } else {
                    assert(es[i] == oe[i - ce.len() - re.len()]);
                    assert(false);
                }
            }
        }
    }
    assert forall|m: int| 0 <= m < es.len() implies !dup_at(es, m) by {
        if dup_at(es, m) {
            let j = choose|j: int| 0 <= j < m && es[j].0 == es[m].0;
        }
    }
    lemma_first_dup_from_clean(es, es.len() as int);
    lemma_resolve_steps_err_kind(es, wf.steps);
}

proof fn lemma_resolve_vars_err_kind(
    es: Seq<(Seq<char>, VariableV)>,
    vs: Seq<VariableV>,
    sid: Seq<char>,
    as_inputs: bool,
)
    ensures
        as_inputs ==> !(resolve_inputs(es, vs, sid) matches Result::Err(
            ValidationErrorV::DuplicateVariable { .. },
        )),
        !as_inputs ==> !(resolve_outputs(es, vs, sid) matches Result::Err(
            ValidationErrorV::DuplicateVariable { .. },
        )),
    decreases vs.len(),
{
    if vs.len() > 0 {
        lemma_resolve_vars_err_kind(es, vs.skip(1), sid, as_inputs);
    }
}

proof fn lemma_resolve_steps_err_kind(es: Seq<(Seq<char>, VariableV)>, steps: Seq<StepV>)
    ensures
        !(resolve_steps(es, steps) matches Result::Err(
            ValidationErrorV::DuplicateVariable { .. },
        )),
    decreases steps.len(),
{
    if steps.len() > 0 {
        lemma_resolve_vars_err_kind(es, steps[0].inputs, step_identity(steps[0]), true);
        lemma_resolve_vars_err_kind(es, steps[0].outputs, step_identity(steps[0]), false);
        lemma_resolve_steps_err_kind(es, steps.skip(1));
    }
}

/// The binding a variable contributes to the result document: its name
/// and its value, an absent value carried as null.
pub open spec fn binding_of(v: VariableV) -> (Seq<char>, ValueV) {
    (
        v.name,
        match v.value {
            Option::Some(x) => x,
            Option::None => ValueV::Null,
        },
    )
}

/// The bindings of a variable group, in declaration order.
pub open spec fn bindings_spec(vs: Seq<VariableV>) -> Seq<(Seq<char>, ValueV)> {
    vs.map_values(|v: VariableV| binding_of(v))
}

pub fn collect_bindings(vars: &Vec<Variable>) -> (r: Vec<(String, Value)>)
    ensures
        r@.map_values(|p: (String, Value)| (p.0@, p.1@)) == bindings_spec(vars.deep_view()),
{
    let mut out: Vec<(String, Value)> = Vec::new();
    let mut i: usize = 0;
    while i < vars.len()
        invariant
            i <= vars.len(),
            out@.len() == i,
            out@.map_values(|p: (String, Value)| (p.0@, p.1@)) == bindings_spec(
                vars.deep_view().take(i as int),
            ),
        decreases vars.len() - i,
    {
        let ghost prev = out@;
        let v = &vars[i];
        let value = match &v.value {
            Option::Some(x) => x.clone(),
            Option::None => Value::Null,
        };
        out.push((v.name.clone(), value));
        proof {
            let dv = vars.deep_view();
            let f = |p: (String, Value)| (p.0@, p.1@);
            assert forall|j: int| 0 <= j < i + 1 implies out@.map_values(f)[j]
                == bindings_spec(dv.take(i + 1))[j] by {
                assert(out@.map_values(f)[j] == f(out@[j]));
                assert(bindings_spec(dv.take(i + 1))[j] == binding_of(dv.take(i + 1)[j]));
                if j < i {
                    assert(out@[j] == prev[j]);
                    assert(prev.map_values(f)[j] == f(prev[j]));
                    assert(bindings_spec(dv.take(i as int))[j] == binding_of(
                        dv.take(i as int)[j],
                    ));
                } else {
                    assert(dv[i as int] == vars[i as int]@);
                }
            }
            assert(out@.map_values(f) =~= bindings_spec(dv.take(i + 1)));
        }
        i = i + 1;
    }
    proof {
        assert(vars.deep_view().take(vars.len() as int) =~= vars.deep_view());
    }
    out
}

impl Workflow {
    /// Fill the result document's config and result bindings from the
    /// workflow's variables — the result bindings as the executed steps
    /// left them through `bind_step_results`.
    pub fn finish_result(&self, result: &mut WorkflowResult)
        ensures
            final(result)@ == (WorkflowResultV {
                config: bindings_spec(self@.config),
                results: bindings_spec(self@.results),
                ..old(result)@
            }),
    {
        result.config = collect_bindings(&self.config);
        result.results = collect_bindings(&self.results);
    }
}

} // verus!
