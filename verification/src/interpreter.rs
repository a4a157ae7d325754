//! The interpreter: walks a token list once, left to right, pushing literals
//! and running operators against the execution context.
//!
//! An operator failure aborts the rest of the run at the failing token;
//! operands already consumed or mutated earlier in the same run stay as
//! they are, so a caller resuming incremental execution sees the partial
//! effect.

pub mod operators;

use crate::execution_context::scope::{empty_scope, OperandV, Scope, ScopeV};
use crate::execution_context::{
    ctx_pop, ctx_pop_num, ctx_pop_str, ctx_pop_var, ctx_push, interp_spec, lemma_ctx_find,
    ExecutionContext, RuntimeError, RuntimeErrorV,
};
use crate::lexer::{tokens_view, Token, TokenV};
use crate::numeric::NumValue;
use vstd::prelude::*;

verus! {

/// The runtime value union manipulated by the stack machine.
///
/// A `Variable` operand is an unresolved reference; it lives only
/// transiently on the operand stack and is never stored as a bound value.
/// A `Scope` operand is the snapshot of a finished lexical frame.
#[derive(Debug)]
pub enum Operand {
    Number(NumValue),
    String(String),
    Variable(String),
    Scope(Scope),
}

/// A violation of the machine's structural invariants: these indicate a
/// defect in the caller or in the token stream's balance, not a script
/// error an end user should see.
#[derive(Debug, Clone, Copy, PartialEq, Eq, Structural)]
pub enum FatalError {
    PopRootScope,
    BindVariableValue,
}

/// What aborts a run: an ordinary script-level error, or a fatal usage
/// violation.
#[derive(Debug, Clone, PartialEq)]
pub enum RunError {
    Runtime(RuntimeError),
    Fatal(FatalError),
}

pub enum RunErrorV {
    Runtime(RuntimeErrorV),
    Fatal(FatalError),
}

impl View for RunError {
    type V = RunErrorV;

    open spec fn view(&self) -> RunErrorV {
        match self {
            RunError::Runtime(e) => RunErrorV::Runtime(e@),
            RunError::Fatal(f) => RunErrorV::Fatal(*f),
        }
    }
}

/// The machine state the interpreter drives: the live scopes and the lines
/// of output produced.
pub struct RunState {
    pub scopes: Seq<ScopeV>,
    pub output: Seq<Seq<char>>,
}

/// Executing the tokens from position `i` on: literals push operands, a
/// string literal is interpolated first, scope markers open and close
/// frames, and operators run through the dispatch chain. Execution stops at
/// the first failure, keeping every effect already applied.
pub open spec fn run_from(st: RunState, toks: Seq<TokenV>, i: int) -> (RunState, Option<RunErrorV>)
    decreases toks.len() - i,
    when 0 <= i <= toks.len()
{
    if i >= toks.len() {
        (st, None)
    } else {
        match toks[i] {
            TokenV::NumberLiteral(m) => run_from(
                RunState { scopes: ctx_push(st.scopes, OperandV::Number(m)), output: st.output },
                toks,
                i + 1,
            ),
            TokenV::StringLiteral(t) => match interp_spec(t, st.scopes) {
                Ok(cs) => run_from(
                    RunState {
                        scopes: ctx_push(st.scopes, OperandV::String(cs)),
                        output: st.output,
                    },
                    toks,
                    i + 1,
                ),
                Err(n) => (
                    st,
                    Some(RunErrorV::Runtime(RuntimeErrorV::VariableNotFound { name: n })),
                ),
            },
            TokenV::VariableIdentifier(n) => run_from(
                RunState { scopes: ctx_push(st.scopes, OperandV::Variable(n)), output: st.output },
                toks,
                i + 1,
            ),
            TokenV::ScopeStart => run_from(
                RunState { scopes: st.scopes.push(empty_scope()), output: st.output },
                toks,
                i + 1,
            ),
            TokenV::ScopeEnd => {
                if st.scopes.len() <= 1 {
                    (st, Some(RunErrorV::Fatal(FatalError::PopRootScope)))
                } else {
                    run_from(
                        RunState {
                            scopes: ctx_push(
                                st.scopes.drop_last(),
                                OperandV::Scope(st.scopes.last()),
                            ),
                            output: st.output,
                        },
                        toks,
                        i + 1,
                    )
                }
            },
            TokenV::Operator(name) => {
                let (st2, err) = operators::op_exec_spec(st, name);
                match err {
                    None => run_from(st2, toks, i + 1),
                    Some(e) => (st2, Some(e)),
                }
            },
        }
    }
}

/// Executing an operator never removes a scope: the scope count is
/// preserved.
pub proof fn lemma_op_exec_len(st: RunState, name: Seq<char>)
    requires
        st.scopes.len() >= 1,
    ensures
        operators::op_exec_spec(st, name).0.scopes.len() == st.scopes.len(),
{
    let scopes = st.scopes;
    if operators::math::is_math_op(name) {
        let (s1, r1) = ctx_pop_num(scopes);
        assert(s1.len() == scopes.len());
        let (s2, r2) = ctx_pop_num(s1);
        assert(s2.len() == s1.len());
        assert(operators::math::math_exec_spec(st, name).0.scopes.len() == scopes.len());
    } else if operators::io::is_io_op(name) {
        let (s1, p) = ctx_pop(scopes);
        assert(s1.len() == scopes.len());
        assert(operators::io::io_exec_spec(st, name).0.scopes.len() == scopes.len());
    } else if operators::general::is_general_op(name) {
        let (s1, r1) = ctx_pop_var(scopes);
        assert(s1.len() == scopes.len());
        let (s2, p) = ctx_pop(s1);
        assert(s2.len() == s1.len());
        if r1 is Ok {
            lemma_ctx_find(s2, r1->Ok_0);
        }
        assert(operators::general::general_exec_spec(st, name).0.scopes.len() == scopes.len());
    } else if operators::string::is_string_op(name) {
        let (s1, r1) = ctx_pop_str(scopes);
        assert(s1.len() == scopes.len());
        let (s2, r2) = ctx_pop_str(s1);
        assert(s2.len() == s1.len());
        assert(operators::string::string_exec_spec(st, name).0.scopes.len() == scopes.len());
    }
}

/// What running a whole token list does to the machine state.
pub open spec fn run_result(st: RunState, toks: Seq<TokenV>) -> (RunState, Option<RunErrorV>) {
    run_from(st, toks, 0)
}

pub struct Interpreter {
    pub context: ExecutionContext,
}

impl Interpreter {
    /// A fresh interpreter with a single, empty root scope.
    pub fn new() -> (r: Interpreter)
        ensures
            r.context.scopes_view() == seq![empty_scope()],
            r.context.output_view() == Seq::<Seq<char>>::empty(),
    {
        Interpreter { context: ExecutionContext::new() }
    }

    /// Execute the tokens in order against the live execution context. The
    /// same interpreter may be run repeatedly; state persists across calls.
    pub fn run(&mut self, token_stack: Vec<Token>) -> (r: Result<(), RunError>)
        requires
            old(self).context.scopes_view().len() >= 1,
        ensures
            final(self).context.scopes_view().len() >= 1,
            ({
                let (st2, err) = run_result(
                    RunState {
                        scopes: old(self).context.scopes_view(),
                        output: old(self).context.output_view(),
                    },
                    tokens_view(token_stack@),
                );
                &&& final(self).context.scopes_view() == st2.scopes
                &&& final(self).context.output_view() == st2.output
                &&& match err {
                    None => r is Ok,
                    Some(e) => r is Err && r->Err_0@ == e,
                }
            }),
    {
        let ghost st0 = RunState {
            scopes: self.context.scopes_view(),
            output: self.context.output_view(),
        };
        let ghost toks = tokens_view(token_stack@);
        let n = token_stack.len();
        let mut i: usize = 0;
        while i < n
            invariant
                n == token_stack@.len(),
                0 <= i <= n,
                st0 == (RunState {
                    scopes: old(self).context.scopes_view(),
                    output: old(self).context.output_view(),
                }),
                toks == tokens_view(token_stack@),
                toks.len() == n,
                self.context.scopes_view().len() >= 1,
                run_from(st0, toks, 0) == run_from(
                    RunState {
                        scopes: self.context.scopes_view(),
                        output: self.context.output_view(),
                    },
                    toks,
                    i as int,
                ),
            decreases n - i,
        {
            let ghost head = RunState {
                scopes: self.context.scopes_view(),
                output: self.context.output_view(),
            };
            proof {
                assert(toks[i as int] == token_stack@[i as int]@);
                assert(run_from(st0, toks, 0) == run_from(head, toks, i as int));
            }
            match &token_stack[i] {
                Token::Operator(op) => {
                    proof {
                        assert(toks[i as int] == TokenV::Operator(op@));
                    }
                    match operators::execute_operator(&mut self.context, op) {
                        Ok(u) => {
                            proof {
                                lemma_op_exec_len(head, op@);
                            }
                        },
                        Err(e) => {
                            proof {
                                let (stv, errv) = operators::op_exec_spec(head, op@);
                                assert(self.context.scopes_view() == stv.scopes);
                                assert(errv == Some(e@));
                                assert(run_from(head, toks, i as int) == (stv, Some(e@)));
                            }
                            return Err(e);
                        },
                    }
                },
                Token::NumberLiteral(value) => {
                    proof {
                        crate::execution_context::scope::lemma_op_view_number(*value);
                    }
                    self.context.push_operand(Operand::Number(*value));
                },
                Token::StringLiteral(value) => {
                    match self.context.interpolate_string_variables(value.as_str()) {
                        Ok(interpolated) => {
                            proof {
                                crate::execution_context::scope::lemma_op_view_string(interpolated);
                            }
                            self.context.push_operand(Operand::String(interpolated));
                        },
                        Err(e) => {
                            proof {
                                assert(run_from(head, toks, i as int) == (head, Some(
                                    RunErrorV::Runtime(e@),
                                )));
                            }
                            return Err(RunError::Runtime(e));
                        },
                    }
                },
                Token::VariableIdentifier(variable_name) => {
                    let cloned = variable_name.clone();
                    proof {
                        crate::execution_context::scope::lemma_op_view_variable(cloned);
                    }
                    self.context.push_operand(Operand::Variable(cloned));
                },
                Token::ScopeStart => {
                    self.context.push_new_scope();
                },
                Token::ScopeEnd => {
                    if self.context.scope_depth() == 1 {
                        return Err(RunError::Fatal(FatalError::PopRootScope));
                    }
                    let scope = self.context.pop_scope();
                    proof {
                        crate::execution_context::scope::lemma_op_view_scope(scope);
                    }
                    self.context.push_operand(Operand::Scope(scope));
                },
            }
            i = i + 1;
        }
        Ok(())
    }
}

} // verus!
