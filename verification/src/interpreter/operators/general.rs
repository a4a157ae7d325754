//! The binding operator group: `set`.

use crate::execution_context::{ctx_pop, ctx_pop_var, ctx_set, ExecutionContext, RuntimeErrorV};
use crate::execution_context::scope::op_view;
use crate::interpreter::{FatalError, Operand, RunError, RunErrorV, RunState};
use crate::text::str_eq;
use vstd::prelude::*;

verus! {

broadcast use crate::execution_context::scope::group_op_view;

pub open spec fn is_general_op(name: Seq<char>) -> bool {
    name == "set"@
}

/// `set` pops the variable reference naming the binding, then the value
/// beneath it, and binds name to value. Binding a value that is itself a
/// variable reference is a fatal usage violation, not a script error.
pub open spec fn general_exec_spec(st: RunState, name: Seq<char>) -> (RunState, Option<RunErrorV>)
    recommends
        is_general_op(name),
{
    let (s1, r1) = ctx_pop_var(st.scopes);
    match r1 {
        Err(e) => (
            RunState { scopes: s1, output: st.output },
            Some(RunErrorV::Runtime(e)),
        ),
        Ok(var_name) => {
            let (s2, p) = ctx_pop(s1);
            match p {
                None => (
                    RunState { scopes: s2, output: st.output },
                    Some(RunErrorV::Runtime(RuntimeErrorV::StackEmpty)),
                ),
                Some(v) => {
                    if v is Variable {
                        (
                            RunState { scopes: s2, output: st.output },
                            Some(RunErrorV::Fatal(FatalError::BindVariableValue)),
                        )
                    } else {
                        (
                            RunState { scopes: ctx_set(s2, var_name, v), output: st.output },
                            None,
                        )
                    }
                },
            }
        },
    }
}

/// Try the binding operators against `operator`; `Ok(false)` means the
/// name belongs to no operator of this group.
pub fn execute(context: &mut ExecutionContext, operator: &str) -> (r: Result<bool, RunError>)
    requires
        old(context).scopes_view().len() >= 1,
    ensures
        final(context).output_view() == old(context).output_view(),
        !is_general_op(operator@) ==> r == Ok::<bool, RunError>(false) && final(context).scopes_view() == old(context).scopes_view(),
        is_general_op(operator@) ==> ({
            let (st2, err) = general_exec_spec(
                RunState {
                    scopes: old(context).scopes_view(),
                    output: old(context).output_view(),
                },
                operator@,
            );
            &&& final(context).scopes_view() == st2.scopes
            &&& final(context).output_view() == st2.output
            &&& match err {
                None => r is Ok && r->Ok_0 == true,
                Some(e) => r is Err && r->Err_0@ == e,
            }
        }),
{
    if !str_eq(operator, "set") {
        return Ok(false);
    }
    let variable_name = match context.pop_operand_variable_identifier() {
        Ok(n) => n,
        Err(e) => {
            return Err(RunError::Runtime(e));
        },
    };
    let value = match context.pop_operand_any() {
        Ok(v) => v,
        Err(e) => {
            return Err(RunError::Runtime(e));
        },
    };
    match value {
        Operand::Variable(_) => Err(RunError::Fatal(FatalError::BindVariableValue)),
        _ => {
            context.set_variable(variable_name, value);
            Ok(true)
        },
    }
}

} // verus!
