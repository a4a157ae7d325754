//! The output operator group: `print` and `print.stack`.
//!
//! Output is collected as lines in the execution context; the caller
//! decides what to do with them.

use crate::execution_context::{
    ctx_pop, display_debug, join_comma, print_stack_line, to_display_string, ExecutionContext,
    RuntimeError, RuntimeErrorV,
};
use crate::execution_context::scope::{op_view, ops_view, ScopeV};
use crate::interpreter::{RunError, RunErrorV, RunState};
use crate::text::str_eq;
use vstd::prelude::*;
use vstd::string::StringExecFns;

verus! {

pub open spec fn is_io_op(name: Seq<char>) -> bool {
    name == "print"@ || name == "print.stack"@
}

/// `print` pops one operand and emits its display string as a line of
/// output. `print.stack` emits the current scope's whole operand stack,
/// oldest first, without consuming it.
pub open spec fn io_exec_spec(st: RunState, name: Seq<char>) -> (RunState, Option<RunErrorV>)
    recommends
        is_io_op(name),
{
    if name == "print"@ {
        let (s1, p) = ctx_pop(st.scopes);
        match p {
            None => (
                RunState { scopes: s1, output: st.output },
                Some(RunErrorV::Runtime(RuntimeErrorV::StackEmpty)),
            ),
            Some(ov) => match to_display_string(ov, s1) {
                Ok(cs) => (RunState { scopes: s1, output: st.output.push(cs) }, None),
                Err(n) => (
                    RunState { scopes: s1, output: st.output },
                    Some(RunErrorV::Runtime(RuntimeErrorV::VariableNotFound { name: n })),
                ),
            },
        }
    } else {
        (
            RunState { scopes: st.scopes, output: st.output.push(print_stack_line(st.scopes)) },
            None,
        )
    }
}

/// Try the output operators against `operator`; `Ok(false)` means the name
/// belongs to no operator of this group.
pub fn execute(context: &mut ExecutionContext, operator: &str) -> (r: Result<bool, RunError>)
    requires
        old(context).scopes_view().len() >= 1,
    ensures
        !is_io_op(operator@) ==> r == Ok::<bool, RunError>(false) && final(context).scopes_view()
            == old(context).scopes_view() && final(context).output_view() == old(
            context,
        ).output_view(),
        is_io_op(operator@) ==> ({
            let (st2, err) = io_exec_spec(
                RunState {
                    scopes: old(context).scopes_view(),
                    output: old(context).output_view(),
                },
                operator@,
            );
            &&& final(context).scopes_view() == st2.scopes
            &&& final(context).output_view() == st2.output
            &&& match err {
                None => r is Ok && r->Ok_0 == true,
                Some(e) => r is Err && r->Err_0@ == e,
            }
        }),
{
    let is_print = str_eq(operator, "print");
    let is_print_stack = str_eq(operator, "print.stack");
    if is_print {
        let operand = match context.pop_operand_any() {
            Ok(v) => v,
            Err(e) => {
                return Err(RunError::Runtime(e));
            },
        };
        let line = match context.operand_to_string(&operand) {
            Ok(line) => line,
            Err(e) => {
                return Err(RunError::Runtime(e));
            },
        };
        context.push_output(line);
        Ok(true)
    } else if is_print_stack {
        let ghost scopes = context.scopes_view();
        let ghost sv = scopes.last();
        let ghost parts = Seq::new(sv.stack.len(), |i: int| display_debug(sv.stack[i], scopes));
        let mut joined = String::new();
        let mut i: usize = 0;
        proof {
            assert(parts.take(0) =~= Seq::<Seq<char>>::empty());
        }
        let stack_len = context.current_scope_readonly().get_operand_stack().len();
        while i < stack_len
            invariant
                0 <= i <= stack_len,
                context.scopes_view().len() >= 1,
                scopes == context.scopes_view(),
                sv == scopes.last(),
                stack_len == sv.stack.len(),
                parts == Seq::new(sv.stack.len(), |k: int| display_debug(sv.stack[k], scopes)),
                joined@ == join_comma(parts.take(i as int)),
            decreases stack_len - i,
        {
            let sc = context.current_scope_readonly();
            let stack = sc.get_operand_stack();
            let part = context.operand_display(&stack[i]);
            if i > 0 {
                joined.append(", ");
            }
            joined.append(part.as_str());
            proof {
                reveal_strlit(", ");
                assert(op_view(stack@[i as int]) == sv.stack[i as int]);
                assert(parts[i as int] == display_debug(sv.stack[i as int], scopes));
                assert(parts.take((i + 1) as int).drop_last() =~= parts.take(i as int));
                assert(parts.take((i + 1) as int).last() == parts[i as int]);
                assert(joined@ =~= join_comma(parts.take((i + 1) as int)));
            }
            i = i + 1;
        }
        let mut line = String::from_str("Stack [");
        line.append(joined.as_str());
        line.append("]");
        proof {
            reveal_strlit("Stack [");
            reveal_strlit("]");
            assert(parts.take(parts.len() as int) =~= parts);
            assert(line@ =~= print_stack_line(scopes));
        }
        context.push_output(line);
        Ok(true)
    } else {
        Ok(false)
    }
}

} // verus!
