//! The string operator group: `string.concat`.

use crate::execution_context::{ctx_pop_str, ctx_push, ExecutionContext};
use crate::execution_context::scope::OperandV;
use crate::interpreter::{Operand, RunError, RunErrorV, RunState};
use crate::text::str_eq;
use vstd::prelude::*;
use vstd::string::StringExecFns;

verus! {

pub open spec fn is_string_op(name: Seq<char>) -> bool {
    name == "string.concat"@
}

/// `string.concat` pops its right operand first, then its left, and pushes
/// the left text followed by the right.
pub open spec fn string_exec_spec(st: RunState, name: Seq<char>) -> (RunState, Option<RunErrorV>)
    recommends
        is_string_op(name),
{
    let (s1, r1) = ctx_pop_str(st.scopes);
    match r1 {
        Err(e) => (
            RunState { scopes: s1, output: st.output },
            Some(RunErrorV::Runtime(e)),
        ),
        Ok(b) => {
            let (s2, r2) = ctx_pop_str(s1);
            match r2 {
                Err(e) => (
                    RunState { scopes: s2, output: st.output },
                    Some(RunErrorV::Runtime(e)),
                ),
                Ok(a) => (
                    RunState { scopes: ctx_push(s2, OperandV::String(a + b)), output: st.output },
                    None,
                ),
            }
        },
    }
}

/// Try the string operators against `operator`; `Ok(false)` means the name
/// belongs to no operator of this group.
pub fn execute(context: &mut ExecutionContext, operator: &str) -> (r: Result<bool, RunError>)
    requires
        old(context).scopes_view().len() >= 1,
    ensures
        final(context).output_view() == old(context).output_view(),
        !is_string_op(operator@) ==> r == Ok::<bool, RunError>(false) && final(context).scopes_view() == old(context).scopes_view(),
        is_string_op(operator@) ==> ({
            let (st2, err) = string_exec_spec(
                RunState {
                    scopes: old(context).scopes_view(),
                    output: old(context).output_view(),
                },
                operator@,
            );
            &&& final(context).scopes_view() == st2.scopes
            &&& final(context).output_view() == st2.output
            &&& match err {
                None => r is Ok && r->Ok_0 == true,
                Some(e) => r is Err && r->Err_0@ == e,
            }
        }),
{
    if !str_eq(operator, "string.concat") {
        return Ok(false);
    }
    let right = match context.pop_operand_string_literal() {
        Ok(v) => v,
        Err(e) => {
            return Err(RunError::Runtime(e));
        },
    };
    let left = match context.pop_operand_string_literal() {
        Ok(v) => v,
        Err(e) => {
            return Err(RunError::Runtime(e));
        },
    };
    let mut joined = left;
    joined.append(right.as_str());
    proof {
        crate::execution_context::scope::lemma_op_view_string(joined);
    }
    context.push_operand(Operand::String(joined));
    Ok(true)
}

} // verus!
