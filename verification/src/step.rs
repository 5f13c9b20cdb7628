//! Steps: one script invocation with declared typed inputs and outputs.
use vstd::prelude::*;

use crate::value::clone_opt_string;
use crate::variable::Variable;
use crate::variable::VariableV;

verus! {

/// One workflow step. Its identity for reference purposes is `id` when
/// given, else `name`.
pub struct Step {
    pub id: Option<String>,
    pub name: String,
    pub type_: String,
    pub inputs: Vec<Variable>,
    pub script: String,
    pub outputs: Vec<Variable>,
}

/// Mathematical model of a `Step`.
pub struct StepV {
    pub id: Option<Seq<char>>,
    pub name: Seq<char>,
    pub type_: Seq<char>,
    pub inputs: Seq<VariableV>,
    pub script: Seq<char>,
    pub outputs: Seq<VariableV>,
}

impl View for Step {
    type V = StepV;

    open spec fn view(&self) -> StepV {
        StepV {
            id: match self.id {
                Option::Some(ref i) => Option::Some(i@),
                Option::None => Option::None,
            },
            name: self.name@,
            type_: self.type_@,
            inputs: self.inputs.deep_view(),
            script: self.script@,
            outputs: self.outputs.deep_view(),
        }
    }
}

impl DeepView for Step {
    type V = StepV;

    open spec fn deep_view(&self) -> StepV {
        self.view()
    }
}

/// The identity a step is referenced by: its `id` when given, else its
/// `name`.
pub open spec fn step_identity(s: StepV) -> Seq<char> {
    match s.id {
        Option::Some(i) => i,
        Option::None => s.name,
    }
}

impl Step {
    pub fn identity(&self) -> (r: &str)
        ensures
            r@ == step_identity(self@),
    {
        match &self.id {
            Option::Some(i) => i.as_str(),
            Option::None => self.name.as_str(),
        }
    }
}

pub fn clone_variables(vars: &Vec<Variable>) -> (r: Vec<Variable>)
    ensures
        r.deep_view() == vars.deep_view(),
{
    let mut out: Vec<Variable> = Vec::new();
    let mut i: usize = 0;
    while i < vars.len()
        invariant
            i <= vars.len(),
            out@.len() == i,
            out.deep_view() == vars.deep_view().take(i as int),
        decreases vars.len() - i,
    {
        let ghost prev = out@;
        out.push(vars[i].clone());
        proof {
            assert forall|j: int| 0 <= j < out@.len() implies out.deep_view()[j]
                == vars.deep_view().take(i + 1)[j] by {
                assert(out.deep_view()[j] == out@[j].deep_view());
                if j < i {
                    assert(out@[j] == prev[j]);
                }
            }
            assert(out.deep_view() =~= vars.deep_view().take(i + 1));
        }
        i = i + 1;
    }
    proof {
        assert(vars.deep_view().take(vars.len() as int) =~= vars.deep_view());
    }
    out
}

impl Clone for Step {
    fn clone(&self) -> (r: Self)
        ensures
            r@ == self@,
    {
        Step {
            id: clone_opt_string(&self.id),
            name: self.name.clone(),
            type_: self.type_.clone(),
            inputs: clone_variables(&self.inputs),
            script: self.script.clone(),
            outputs: clone_variables(&self.outputs),
        }
    }
}

} // verus!
