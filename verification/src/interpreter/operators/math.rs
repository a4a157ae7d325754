//! The arithmetic operator group: `+`, `-`, `*`, `/`.

use crate::execution_context::{ctx_pop_num, ctx_push, ExecutionContext, RuntimeError, RuntimeErrorV};
use crate::execution_context::scope::OperandV;
use crate::interpreter::{Operand, RunError, RunErrorV, RunState};
use crate::numeric::{div_micros, in_range, mul_micros};
use crate::text::str_eq;
use vstd::prelude::*;

verus! {

pub open spec fn is_math_op(name: Seq<char>) -> bool {
    name == "+"@ || name == "-"@ || name == "*"@ || name == "/"@
}

/// An arithmetic operator pops its right operand first, then its left, and
/// pushes the result; division by zero fails after both operands are
/// consumed, and a result outside the representable range fails likewise.
pub open spec fn math_exec_spec(st: RunState, name: Seq<char>) -> (RunState, Option<RunErrorV>)
    recommends
        is_math_op(name),
{
    let (s1, r1) = ctx_pop_num(st.scopes);
    match r1 {
        Err(e) => (
            RunState { scopes: s1, output: st.output },
            Some(RunErrorV::Runtime(e)),
        ),
        Ok(b) => {
            let (s2, r2) = ctx_pop_num(s1);
            match r2 {
                Err(e) => (
                    RunState { scopes: s2, output: st.output },
                    Some(RunErrorV::Runtime(e)),
                ),
                Ok(a) => {
                    if name == "/"@ && b == 0 {
                        (
                            RunState { scopes: s2, output: st.output },
                            Some(RunErrorV::Runtime(RuntimeErrorV::DivisionByZero)),
                        )
                    } else {
                        let m = if name == "+"@ {
                            a + b
                        } else if name == "-"@ {
                            a - b
                        } else if name == "*"@ {
                            mul_micros(a, b)
                        } else {
                            div_micros(a, b)
                        };
                        if in_range(m) {
                            (
                                RunState {
                                    scopes: ctx_push(s2, OperandV::Number(m)),
                                    output: st.output,
                                },
                                None,
                            )
                        } else {
                            (
                                RunState { scopes: s2, output: st.output },
                                Some(RunErrorV::Runtime(RuntimeErrorV::NumberOverflow)),
                            )
                        }
                    }
                },
            }
        },
    }
}

/// Try the arithmetic operators against `operator`; `Ok(false)` means the
/// name belongs to no operator of this group.
pub fn execute(context: &mut ExecutionContext, operator: &str) -> (r: Result<bool, RunError>)
    requires
        old(context).scopes_view().len() >= 1,
    ensures
        final(context).output_view() == old(context).output_view(),
        !is_math_op(operator@) ==> r == Ok::<bool, RunError>(false) && final(context).scopes_view()
            == old(context).scopes_view(),
        is_math_op(operator@) ==> ({
            let (st2, err) = math_exec_spec(
                RunState {
                    scopes: old(context).scopes_view(),
                    output: old(context).output_view(),
                },
                operator@,
            );
            &&& final(context).scopes_view() == st2.scopes
            &&& final(context).output_view() == st2.output
            &&& match err {
                None => r is Ok && r->Ok_0 == true,
                Some(e) => r is Err && r->Err_0@ == e,
            }
        }),
{
    let plus = str_eq(operator, "+");
    let minus = str_eq(operator, "-");
    let times = str_eq(operator, "*");
    let divide = str_eq(operator, "/");
    if !(plus || minus || times || divide) {
        return Ok(false);
    }
    let right = match context.pop_operand_number_literal() {
        Ok(v) => v,
        Err(e) => {
            return Err(RunError::Runtime(e));
        },
    };
    let left = match context.pop_operand_number_literal() {
        Ok(v) => v,
        Err(e) => {
            return Err(RunError::Runtime(e));
        },
    };
    if divide && right.is_zero() {
        return Err(RunError::Runtime(RuntimeError::DivisionByZero));
    }
    let computed: Option<crate::numeric::NumValue> = if plus {
        left.checked_add(right)
    } else if minus {
        left.checked_sub(right)
    } else if times {
        left.checked_mul(right)
    } else {
        left.checked_div(right)
    };
    match computed {
        Some(v) => {
            proof {
                crate::execution_context::scope::lemma_op_view_number(v);
            }
            context.push_operand(Operand::Number(v));
            Ok(true)
        },
        None => Err(RunError::Runtime(RuntimeError::NumberOverflow)),
    }
}

} // verus!
