//! Operator dispatch: an ordered chain of independent operator groups, each
//! tried in turn against the operator's name.

pub mod general;
pub mod io;
pub mod math;
pub mod string;

use crate::execution_context::{ExecutionContext, RuntimeError, RuntimeErrorV};
use crate::interpreter::{RunError, RunErrorV, RunState};
use vstd::prelude::*;

verus! {

/// What executing one operator does to the machine state: the first group
/// that recognises the name handles it; an unrecognised name is an error.
pub open spec fn op_exec_spec(st: RunState, name: Seq<char>) -> (RunState, Option<RunErrorV>) {
    if math::is_math_op(name) {
        math::math_exec_spec(st, name)
    } else if io::is_io_op(name) {
        io::io_exec_spec(st, name)
    } else if general::is_general_op(name) {
        general::general_exec_spec(st, name)
    } else if string::is_string_op(name) {
        string::string_exec_spec(st, name)
    } else {
        (st, Some(RunErrorV::Runtime(RuntimeErrorV::UnknownOperator { name })))
    }
}

/// Resolve and execute one operator against the execution context.
pub fn execute_operator(context: &mut ExecutionContext, operator: &String) -> (r: Result<
    (),
    RunError,
>)
    requires
        old(context).scopes_view().len() >= 1,
    ensures
        ({
            let (st2, err) = op_exec_spec(
                RunState {
                    scopes: old(context).scopes_view(),
                    output: old(context).output_view(),
                },
                operator@,
            );
            &&& final(context).scopes_view() == st2.scopes
            &&& final(context).output_view() == st2.output
            &&& match err {
                None => r is Ok,
                Some(e) => r is Err && r->Err_0@ == e,
            }
        }),
{
    match math::execute(context, operator.as_str()) {
        Err(e) => {
            return Err(e);
        },
        Ok(true) => {
            return Ok(());
        },
        Ok(false) => {},
    }
    match io::execute(context, operator.as_str()) {
        Err(e) => {
            return Err(e);
        },
        Ok(true) => {
            return Ok(());
        },
        Ok(false) => {},
    }
    match general::execute(context, operator.as_str()) {
        Err(e) => {
            return Err(e);
        },
        Ok(true) => {
            return Ok(());
        },
        Ok(false) => {},
    }
    match string::execute(context, operator.as_str()) {
        Err(e) => {
            return Err(e);
        },
        Ok(true) => {
            return Ok(());
        },
        Ok(false) => {},
    }
    Err(RunError::Runtime(RuntimeError::UnknownOperator { name: operator.clone() }))
}

} // verus!
