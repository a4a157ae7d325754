//! The execution context: the live, ordered stack of lexical scopes,
//! innermost last, plus the lines of output the program has produced.
//!
//! No operand or variable is ever touched except through the context.
//! Variable resolution searches the scopes innermost first; assignment
//! updates the scope that already defines the name, so that shadowed outer
//! bindings are written through, and only creates a binding in the current
//! scope when no scope defines the name.

pub mod scope;

use crate::interpreter::Operand;
use crate::lexer::is_dollar_char;
use crate::numeric::{dec_chars_u128, dec_digits, is_digit_char, num_chars, NumValue};
use crate::text::{push_char, str_to_chars, string_from_chars};
use vstd::string::StringExecFns;
use scope::{
    empty_scope, lemma_vars_index_of, op_view, scope_has, scope_lookup, scope_set, scope_view,
    vars_index_of, OperandV, Scope, ScopeV,
};
use vstd::prelude::*;

verus! {

broadcast use scope::group_op_view;

/// The kind of an operand, as named in type-mismatch errors.
#[derive(Debug, Clone, Copy, PartialEq, Eq, Structural)]
pub enum OperandKind {
    Number,
    String,
    Variable,
    Scope,
}

pub open spec fn kind_of(ov: OperandV) -> OperandKind {
    match ov {
        OperandV::Number(_) => OperandKind::Number,
        OperandV::String(_) => OperandKind::String,
        OperandV::Variable(_) => OperandKind::Variable,
        OperandV::Scope(_) => OperandKind::Scope,
    }
}

/// A recoverable script-level failure.
#[derive(Debug, Clone, PartialEq)]
pub enum RuntimeError {
    StackEmpty,
    TypeMismatch { expected: OperandKind, found: OperandKind },
    VariableNotFound { name: String },
    DivisionByZero,
    NumberOverflow,
    UnknownOperator { name: String },
}

pub enum RuntimeErrorV {
    StackEmpty,
    TypeMismatch { expected: OperandKind, found: OperandKind },
    VariableNotFound { name: Seq<char> },
    DivisionByZero,
    NumberOverflow,
    UnknownOperator { name: Seq<char> },
}

impl View for RuntimeError {
    type V = RuntimeErrorV;

    open spec fn view(&self) -> RuntimeErrorV {
        match self {
            RuntimeError::StackEmpty => RuntimeErrorV::StackEmpty,
            RuntimeError::TypeMismatch { expected, found } => RuntimeErrorV::TypeMismatch {
                expected: *expected,
                found: *found,
            },
            RuntimeError::VariableNotFound { name } => RuntimeErrorV::VariableNotFound {
                name: name@,
            },
            RuntimeError::DivisionByZero => RuntimeErrorV::DivisionByZero,
            RuntimeError::NumberOverflow => RuntimeErrorV::NumberOverflow,
            RuntimeError::UnknownOperator { name } => RuntimeErrorV::UnknownOperator {
                name: name@,
            },
        }
    }
}

// ---------------------------------------------------------------------------
// The scope stack, as a specification
// ---------------------------------------------------------------------------
/// The index of the innermost scope that defines `name`, or `-1`.
pub open spec fn ctx_find(scopes: Seq<ScopeV>, name: Seq<char>) -> int
    decreases scopes.len(),
{
    if scopes.len() == 0 {
        -1
    } else if scope_has(scopes.last(), name) {
        scopes.len() - 1
    } else {
        ctx_find(scopes.drop_last(), name)
    }
}

pub proof fn lemma_ctx_find(scopes: Seq<ScopeV>, name: Seq<char>)
    ensures
        -1 <= ctx_find(scopes, name) < scopes.len(),
        ctx_find(scopes, name) >= 0 ==> scope_has(scopes[ctx_find(scopes, name)], name),
        forall|k: int|
            ctx_find(scopes, name) < k < scopes.len() ==> !scope_has(#[trigger] scopes[k], name),
    decreases scopes.len(),
{
    if scopes.len() > 0 && !scope_has(scopes.last(), name) {
        lemma_ctx_find(scopes.drop_last(), name);
        assert forall|k: int|
            ctx_find(scopes, name) < k < scopes.len() implies !scope_has(
            #[trigger] scopes[k],
            name,
        ) by {
            if k < scopes.len() - 1 {
                assert(scopes.drop_last()[k] == scopes[k]);
            }
        }
    }
}

/// The value bound to `name`, found in the innermost scope defining it.
pub open spec fn ctx_lookup(scopes: Seq<ScopeV>, name: Seq<char>) -> Option<OperandV> {
    let i = ctx_find(scopes, name);
    if i >= 0 {
        scope_lookup(scopes[i], name)
    } else {
        None
    }
}

/// The scope stack after binding `name` to `v`: the innermost scope that
/// already defines the name is updated; otherwise the binding is created in
/// the current scope.
pub open spec fn ctx_set(scopes: Seq<ScopeV>, name: Seq<char>, v: OperandV) -> Seq<ScopeV>
    recommends
        scopes.len() >= 1,
{
    let i = ctx_find(scopes, name);
    if i >= 0 {
        scopes.update(i, scope_set(scopes[i], name, v))
    } else {
        scopes.update(scopes.len() - 1, scope_set(scopes.last(), name, v))
    }
}

/// Pushing an operand onto the current scope's stack.
pub open spec fn ctx_push(scopes: Seq<ScopeV>, ov: OperandV) -> Seq<ScopeV>
    recommends
        scopes.len() >= 1,
{
    scopes.update(
        scopes.len() - 1,
        ScopeV { stack: scopes.last().stack.push(ov), vars: scopes.last().vars },
    )
}

/// Popping an operand from the current scope's stack; the stack is left
/// unchanged when it is empty.
pub open spec fn ctx_pop(scopes: Seq<ScopeV>) -> (Seq<ScopeV>, Option<OperandV>)
    recommends
        scopes.len() >= 1,
{
    let last = scopes.last();
    if last.stack.len() == 0 {
        (scopes, None)
    } else {
        (
            scopes.update(
                scopes.len() - 1,
                ScopeV { stack: last.stack.drop_last(), vars: last.vars },
            ),
            Some(last.stack.last()),
        )
    }
}

/// One level of variable resolution: a popped `Variable` operand stands for
/// its bound value.
pub open spec fn resolve_one(scopes: Seq<ScopeV>, ov: OperandV) -> Result<OperandV, RuntimeErrorV> {
    match ov {
        OperandV::Variable(n) => match ctx_lookup(scopes, n) {
            Some(x) => Ok(x),
            None => Err(RuntimeErrorV::VariableNotFound { name: n }),
        },
        _ => Ok(ov),
    }
}

/// Popping an operand that must resolve to a number. The operand is
/// consumed even when the check fails.
pub open spec fn ctx_pop_num(scopes: Seq<ScopeV>) -> (Seq<ScopeV>, Result<int, RuntimeErrorV>) {
    let (s2, p) = ctx_pop(scopes);
    match p {
        None => (s2, Err(RuntimeErrorV::StackEmpty)),
        Some(ov) => match resolve_one(s2, ov) {
            Err(e) => (s2, Err(e)),
            Ok(x) => match x {
                OperandV::Number(m) => (s2, Ok(m)),
                _ => (
                    s2,
                    Err(
                        RuntimeErrorV::TypeMismatch {
                            expected: OperandKind::Number,
                            found: kind_of(x),
                        },
                    ),
                ),
            },
        },
    }
}

/// Popping an operand that must resolve to a string. The operand is
/// consumed even when the check fails.
pub open spec fn ctx_pop_str(scopes: Seq<ScopeV>) -> (
    Seq<ScopeV>,
    Result<Seq<char>, RuntimeErrorV>,
) {
    let (s2, p) = ctx_pop(scopes);
    match p {
        None => (s2, Err(RuntimeErrorV::StackEmpty)),
        Some(ov) => match resolve_one(s2, ov) {
            Err(e) => (s2, Err(e)),
            Ok(x) => match x {
                OperandV::String(t) => (s2, Ok(t)),
                _ => (
                    s2,
                    Err(
                        RuntimeErrorV::TypeMismatch {
                            expected: OperandKind::String,
                            found: kind_of(x),
                        },
                    ),
                ),
            },
        },
    }
}

/// Popping an operand that must literally be a variable reference; no
/// resolution happens.
pub open spec fn ctx_pop_var(scopes: Seq<ScopeV>) -> (
    Seq<ScopeV>,
    Result<Seq<char>, RuntimeErrorV>,
) {
    let (s2, p) = ctx_pop(scopes);
    match p {
        None => (s2, Err(RuntimeErrorV::StackEmpty)),
        Some(ov) => match ov {
            OperandV::Variable(n) => (s2, Ok(n)),
            _ => (
                s2,
                Err(
                    RuntimeErrorV::TypeMismatch {
                        expected: OperandKind::Variable,
                        found: kind_of(ov),
                    },
                ),
            ),
        },
    }
}

// ---------------------------------------------------------------------------
// The context
// ---------------------------------------------------------------------------
pub struct ExecutionContext {
    scopes: Vec<Scope>,
    output: Vec<String>,
}

impl ExecutionContext {
    /// The shapes of the live scopes, innermost last.
    pub closed spec fn scopes_view(&self) -> Seq<ScopeV> {
        self.scopes@.map_values(|s: Scope| scope_view(s))
    }

    /// The lines of output produced so far.
    pub closed spec fn output_view(&self) -> Seq<Seq<char>> {
        self.output@.map_values(|s: String| s@)
    }

    pub fn new() -> (r: ExecutionContext)
        ensures
            r.scopes_view() == seq![empty_scope()],
            r.output_view() == Seq::<Seq<char>>::empty(),
    {
        let mut scopes: Vec<Scope> = Vec::new();
        scopes.push(Scope::new());
        let r = ExecutionContext { scopes, output: Vec::new() };
        proof {
            assert(r.scopes_view() =~= seq![empty_scope()]);
            assert(r.output_view() =~= Seq::<Seq<char>>::empty());
        }
        r
    }

    /// Open a new, empty innermost scope.
    pub fn push_new_scope(&mut self)
        ensures
            final(self).scopes_view() == old(self).scopes_view().push(empty_scope()),
            final(self).output_view() == old(self).output_view(),
    {
        self.scopes.push(Scope::new());
        proof {
            assert(final(self).scopes_view() =~= old(self).scopes_view().push(empty_scope()));
            assert(final(self).output_view() =~= old(self).output_view());
        }
    }

    /// Remove and return the innermost scope. The root scope is never
    /// popped; the language's block syntax guarantees balanced markers.
    pub fn pop_scope(&mut self) -> (r: Scope)
        requires
            old(self).scopes_view().len() > 1,
        ensures
            final(self).scopes_view() == old(self).scopes_view().drop_last(),
            scope_view(r) == old(self).scopes_view().last(),
            final(self).output_view() == old(self).output_view(),
    {
        let n = self.scopes.len();
        let r = self.scopes.remove(n - 1);
        proof {
            assert(final(self).scopes_view() =~= old(self).scopes_view().drop_last());
            assert(final(self).output_view() =~= old(self).output_view());
        }
        r
    }

    /// The innermost scope, read-only.
    pub fn current_scope_readonly(&self) -> (r: &Scope)
        requires
            self.scopes_view().len() >= 1,
        ensures
            scope_view(*r) == self.scopes_view().last(),
    {
        let n = self.scopes.len();
        &self.scopes[n - 1]
    }

    /// Push an operand onto the current scope's stack.
    pub fn push_operand(&mut self, operand: Operand)
        requires
            old(self).scopes_view().len() >= 1,
        ensures
            final(self).scopes_view() == ctx_push(old(self).scopes_view(), op_view(operand)),
            final(self).output_view() == old(self).output_view(),
    {
        let n = self.scopes.len();
        let mut sc = self.scopes.remove(n - 1);
        sc.push_operand(operand);
        self.scopes.push(sc);
        proof {
            assert(final(self).scopes_view() =~= ctx_push(
                old(self).scopes_view(),
                op_view(operand),
            ));
            assert(final(self).output_view() =~= old(self).output_view());
        }
    }

    /// Pop an operand from the current scope's stack.
    pub fn pop_operand_any(&mut self) -> (r: Result<Operand, RuntimeError>)
        requires
            old(self).scopes_view().len() >= 1,
        ensures
            final(self).output_view() == old(self).output_view(),
            ({
                let (s2, p) = ctx_pop(old(self).scopes_view());
                &&& final(self).scopes_view() == s2
                &&& match r {
                    Ok(v) => p == Some(op_view(v)),
                    Err(e) => p is None && e@ == RuntimeErrorV::StackEmpty,
                }
            }),
    {
        let n = self.scopes.len();
        let mut sc = self.scopes.remove(n - 1);
        let popped = sc.pop_operand();
        self.scopes.push(sc);
        proof {
            assert(final(self).output_view() =~= old(self).output_view());
            let (s2, p) = ctx_pop(old(self).scopes_view());
            if p is None {
                assert(final(self).scopes_view() =~= s2);
            } else {
                assert(final(self).scopes_view() =~= s2);
            }
        }
        match popped {
            Some(v) => Ok(v),
            None => Err(RuntimeError::StackEmpty),
        }
    }

    /// Find the value bound to `name`, searching the scopes innermost
    /// first.
    pub fn get_variable(&self, name: &String) -> (r: Option<&Operand>)
        ensures
            match r {
                Some(v) => ctx_lookup(self.scopes_view(), name@) == Some(op_view(*v)),
                None => ctx_lookup(self.scopes_view(), name@) is None,
            },
    {
        proof {
            lemma_ctx_find(self.scopes_view(), name@);
        }
        let n = self.scopes.len();
        let mut j: usize = n;
        while j > 0
            invariant
                n == self.scopes@.len(),
                0 <= j <= n,
                forall|k: int|
                    j <= k < n ==> !scope_has(#[trigger] self.scopes_view()[k], name@),
            decreases j,
        {
            j = j - 1;
            if self.scopes[j].has_variable(name.clone()) {
                proof {
                    lemma_ctx_find(self.scopes_view(), name@);
                    assert(scope_has(self.scopes_view()[j as int], name@));
                    assert(ctx_find(self.scopes_view(), name@) == j as int);
                }
                return self.scopes[j].get_variable(name);
            }
        }
        proof {
            lemma_ctx_find(self.scopes_view(), name@);
            if ctx_find(self.scopes_view(), name@) >= 0 {
                assert(scope_has(
                    self.scopes_view()[ctx_find(self.scopes_view(), name@)],
                    name@,
                ));
            }
        }
        None
    }

    /// Bind `name` to `value`, updating the innermost scope that already
    /// defines the name, or creating the binding in the current scope. A
    /// `Variable` operand must never be stored as a bound value; callers
    /// rule that out before calling.
    pub fn set_variable(&mut self, name: String, value: Operand)
        requires
            old(self).scopes_view().len() >= 1,
            !(op_view(value) is Variable),
        ensures
            final(self).scopes_view() == ctx_set(old(self).scopes_view(), name@, op_view(value)),
            final(self).output_view() == old(self).output_view(),
    {
        proof {
            lemma_ctx_find(old(self).scopes_view(), name@);
        }
        let n = self.scopes.len();
        let mut j: usize = n;
        while j > 0
            invariant
                self == old(self),
                n == self.scopes@.len(),
                0 <= j <= n,
                !(op_view(value) is Variable),
                forall|k: int|
                    j <= k < n ==> !scope_has(#[trigger] self.scopes_view()[k], name@),
            decreases j,
        {
            j = j - 1;
            if self.scopes[j].has_variable(name.clone()) {
                proof {
                    lemma_ctx_find(self.scopes_view(), name@);
                    assert(scope_has(self.scopes_view()[j as int], name@));
                    assert(ctx_find(self.scopes_view(), name@) == j as int);
                }
                let mut sc = self.scopes.remove(j);
                sc.set_variable(name, value);
                self.scopes.insert(j, sc);
                proof {
                    assert(final(self).scopes_view() =~= ctx_set(
                        old(self).scopes_view(),
                        name@,
                        op_view(value),
                    ));
                    assert(final(self).output_view() =~= old(self).output_view());
                }
                return ;
            }
        }
        proof {
            lemma_ctx_find(self.scopes_view(), name@);
            if ctx_find(self.scopes_view(), name@) >= 0 {
                assert(scope_has(
                    self.scopes_view()[ctx_find(self.scopes_view(), name@)],
                    name@,
                ));
            }
        }
        // No scope defines the name: create it in the current scope.
        let k = self.scopes.len();
        let mut sc = self.scopes.remove(k - 1);
        sc.set_variable(name, value);
        self.scopes.push(sc);
        proof {
            assert(final(self).scopes_view() =~= ctx_set(
                old(self).scopes_view(),
                name@,
                op_view(value),
            ));
            assert(final(self).output_view() =~= old(self).output_view());
        }
    }

    /// Pop one operand and require it to resolve to a number; a popped
    /// variable reference is resolved one level.
    pub fn pop_operand_number_literal(&mut self) -> (r: Result<NumValue, RuntimeError>)
        requires
            old(self).scopes_view().len() >= 1,
        ensures
            final(self).output_view() == old(self).output_view(),
            ({
                let (s2, q) = ctx_pop_num(old(self).scopes_view());
                &&& final(self).scopes_view() == s2
                &&& match r {
                    Ok(v) => q == Ok::<int, RuntimeErrorV>(v@),
                    Err(e) => q == Err::<int, RuntimeErrorV>(e@),
                }
            }),
    {
        let popped = self.pop_operand_any();
        match popped {
            Err(e) => Err(e),
            Ok(op) => match op {
                Operand::Number(v) => Ok(v),
                Operand::Variable(n) => match self.get_variable(&n) {
                    None => Err(RuntimeError::VariableNotFound { name: n }),
                    Some(inner) => match inner {
                        Operand::Number(v) => Ok(*v),
                        Operand::String(_) => Err(
                            RuntimeError::TypeMismatch {
                                expected: OperandKind::Number,
                                found: OperandKind::String,
                            },
                        ),
                        Operand::Variable(_) => Err(
                            RuntimeError::TypeMismatch {
                                expected: OperandKind::Number,
                                found: OperandKind::Variable,
                            },
                        ),
                        Operand::Scope(_) => Err(
                            RuntimeError::TypeMismatch {
                                expected: OperandKind::Number,
                                found: OperandKind::Scope,
                            },
                        ),
                    },
                },
                Operand::String(_) => Err(
                    RuntimeError::TypeMismatch {
                        expected: OperandKind::Number,
                        found: OperandKind::String,
                    },
                ),
                Operand::Scope(_) => Err(
                    RuntimeError::TypeMismatch {
                        expected: OperandKind::Number,
                        found: OperandKind::Scope,
                    },
                ),
            },
        }
    }

    /// Pop one operand and require it to resolve to a string; a popped
    /// variable reference is resolved one level.
    pub fn pop_operand_string_literal(&mut self) -> (r: Result<String, RuntimeError>)
        requires
            old(self).scopes_view().len() >= 1,
        ensures
            final(self).output_view() == old(self).output_view(),
            ({
                let (s2, q) = ctx_pop_str(old(self).scopes_view());
                &&& final(self).scopes_view() == s2
                &&& match r {
                    Ok(v) => q == Ok::<Seq<char>, RuntimeErrorV>(v@),
                    Err(e) => q == Err::<Seq<char>, RuntimeErrorV>(e@),
                }
            }),
    {
        let popped = self.pop_operand_any();
        match popped {
            Err(e) => Err(e),
            Ok(op) => match op {
                Operand::String(s) => Ok(s),
                Operand::Variable(n) => match self.get_variable(&n) {
                    None => Err(RuntimeError::VariableNotFound { name: n }),
                    Some(inner) => match inner {
                        Operand::String(s) => Ok(s.clone()),
                        Operand::Number(_) => Err(
                            RuntimeError::TypeMismatch {
                                expected: OperandKind::String,
                                found: OperandKind::Number,
                            },
                        ),
                        Operand::Variable(_) => Err(
                            RuntimeError::TypeMismatch {
                                expected: OperandKind::String,
                                found: OperandKind::Variable,
                            },
                        ),
                        Operand::Scope(_) => Err(
                            RuntimeError::TypeMismatch {
                                expected: OperandKind::String,
                                found: OperandKind::Scope,
                            },
                        ),
                    },
                },
                Operand::Number(_) => Err(
                    RuntimeError::TypeMismatch {
                        expected: OperandKind::String,
                        found: OperandKind::Number,
                    },
                ),
                Operand::Scope(_) => Err(
                    RuntimeError::TypeMismatch {
                        expected: OperandKind::String,
                        found: OperandKind::Scope,
                    },
                ),
            },
        }
    }

    /// Pop one operand and require it literally to be a variable
    /// reference; no resolution happens. Binding operators use this to take
    /// the name rather than a value.
    pub fn pop_operand_variable_identifier(&mut self) -> (r: Result<String, RuntimeError>)
        requires
            old(self).scopes_view().len() >= 1,
        ensures
            final(self).output_view() == old(self).output_view(),
            ({
                let (s2, q) = ctx_pop_var(old(self).scopes_view());
                &&& final(self).scopes_view() == s2
                &&& match r {
                    Ok(v) => q == Ok::<Seq<char>, RuntimeErrorV>(v@),
                    Err(e) => q == Err::<Seq<char>, RuntimeErrorV>(e@),
                }
            }),
    {
        let popped = self.pop_operand_any();
        match popped {
            Err(e) => Err(e),
            Ok(op) => match op {
                Operand::Variable(n) => Ok(n),
                Operand::Number(_) => Err(
                    RuntimeError::TypeMismatch {
                        expected: OperandKind::Variable,
                        found: OperandKind::Number,
                    },
                ),
                Operand::String(_) => Err(
                    RuntimeError::TypeMismatch {
                        expected: OperandKind::Variable,
                        found: OperandKind::String,
                    },
                ),
                Operand::Scope(_) => Err(
                    RuntimeError::TypeMismatch {
                        expected: OperandKind::Variable,
                        found: OperandKind::Scope,
                    },
                ),
            },
        }
    }

    /// How many scopes are live.
    pub fn scope_depth(&self) -> (r: usize)
        ensures
            r == self.scopes_view().len(),
    {
        self.scopes.len()
    }

    /// The lines of output produced so far, oldest first.
    pub fn output(&self) -> (r: &Vec<String>)
        ensures
            r@.map_values(|s: String| s@) == self.output_view(),
    {
        &self.output
    }

    /// Append one line of output.
    pub(crate) fn push_output(&mut self, line: String)
        ensures
            final(self).scopes_view() == old(self).scopes_view(),
            final(self).output_view() == old(self).output_view().push(line@),
    {
        self.output.push(line);
        proof {
            assert(final(self).scopes_view() =~= old(self).scopes_view());
            assert(final(self).output_view() =~= old(self).output_view().push(line@));
        }
    }
}


// ---------------------------------------------------------------------------
// Rendering operands
// ---------------------------------------------------------------------------
/// The debug rendering of an operand on its own, without resolving a
/// variable reference: numbers unchanged, strings quoted, a reference by its
/// name, a captured scope as `Scope(N)` with the combined count of its stack
/// entries and variable bindings.
pub open spec fn display_shallow(ov: OperandV) -> Seq<char> {
    match ov {
        OperandV::Number(m) => num_chars(m),
        OperandV::String(t) => seq!['"'] + t + seq!['"'],
        OperandV::Variable(n) => seq!['$'] + n,
        OperandV::Scope(sv) => seq!['S', 'c', 'o', 'p', 'e', '('] + dec_digits(
            (sv.stack.len() + sv.vars.len()) as nat,
        ) + seq![')'],
    }
}

/// The debug rendering used for diagnostics: a variable reference is shown
/// as `$name (value)`, or `$name (unset)` when unbound.
pub open spec fn display_debug(ov: OperandV, scopes: Seq<ScopeV>) -> Seq<char> {
    match ov {
        OperandV::Variable(n) => match ctx_lookup(scopes, n) {
            None => seq!['$'] + n + seq![' ', '(', 'u', 'n', 's', 'e', 't', ')'],
            Some(inner) => seq!['$'] + n + seq![' ', '('] + display_shallow(inner) + seq![')'],
        },
        _ => display_shallow(ov),
    }
}

/// The given parts joined with `", "`.
pub open spec fn join_comma(parts: Seq<Seq<char>>) -> Seq<char>
    decreases parts.len(),
{
    if parts.len() == 0 {
        Seq::empty()
    } else if parts.len() == 1 {
        parts[0]
    } else {
        join_comma(parts.drop_last()) + seq![',', ' '] + parts.last()
    }
}

/// The rendered entries of a captured scope: its operand stack oldest
/// first, then its variable bindings as `name = value` pairs.
pub open spec fn scope_parts(sv: ScopeV, scopes: Seq<ScopeV>) -> Seq<Seq<char>> {
    Seq::new(sv.stack.len(), |i: int| display_debug(sv.stack[i], scopes)) + Seq::new(
        sv.vars.len(),
        |i: int| sv.vars[i].0 + seq![' ', '=', ' '] + display_debug(sv.vars[i].1, scopes),
    )
}

/// The display rendering of a captured scope: its entries, brace-delimited.
pub open spec fn scope_braces(sv: ScopeV, scopes: Seq<ScopeV>) -> Seq<char> {
    seq!['{', ' '] + join_comma(scope_parts(sv, scopes)) + seq![' ', '}']
}

/// The display rendering of an operand: numbers as their literal text,
/// strings as their raw text, a variable reference by its resolved value,
/// and a captured scope by its brace-delimited entries. An unresolved
/// reference fails with the name that was not found.
pub open spec fn to_display_string(ov: OperandV, scopes: Seq<ScopeV>) -> Result<
    Seq<char>,
    Seq<char>,
> {
    match ov {
        OperandV::Number(m) => Ok(num_chars(m)),
        OperandV::String(t) => Ok(t),
        OperandV::Scope(sv) => Ok(scope_braces(sv, scopes)),
        OperandV::Variable(n) => match ctx_lookup(scopes, n) {
            None => Err(n),
            Some(inner) => match inner {
                OperandV::Number(m) => Ok(num_chars(m)),
                OperandV::String(t) => Ok(t),
                OperandV::Scope(sv) => Ok(scope_braces(sv, scopes)),
                OperandV::Variable(n2) => Err(n2),
            },
        },
    }
}

/// The line printed for the current scope's whole operand stack, oldest
/// first, without consuming it.
pub open spec fn print_stack_line(scopes: Seq<ScopeV>) -> Seq<char>
    recommends
        scopes.len() >= 1,
{
    let last = scopes.last();
    seq!['S', 't', 'a', 'c', 'k', ' ', '['] + join_comma(
        Seq::new(last.stack.len(), |i: int| display_debug(last.stack[i], scopes)),
    ) + seq![']']
}

// ---------------------------------------------------------------------------
// String interpolation
// ---------------------------------------------------------------------------
/// The characters that may start an interpolated variable name: ASCII
/// letters and the underscore.
pub open spec fn is_ident_start_char(c: char) -> bool {
    (65 <= (c as u32) && (c as u32) <= 90) || (97 <= (c as u32) && (c as u32) <= 122) || (
    c as u32) == 95
}

/// The characters that may continue an interpolated variable name.
pub open spec fn is_ident_char(c: char) -> bool {
    is_ident_start_char(c) || is_digit_char(c)
}

/// The first index at or after `i` whose character cannot continue a name.
pub open spec fn ident_end(s: Seq<char>, i: int) -> int
    decreases s.len() - i,
    when 0 <= i <= s.len()
{
    if i >= s.len() {
        i
    } else if is_ident_char(s[i]) {
        ident_end(s, i + 1)
    } else {
        i
    }
}

pub proof fn lemma_ident_end(s: Seq<char>, i: int)
    requires
        0 <= i <= s.len(),
    ensures
        i <= ident_end(s, i) <= s.len(),
        forall|k: int| i <= k < ident_end(s, i) ==> is_ident_char(#[trigger] s[k]),
        ident_end(s, i) < s.len() ==> !is_ident_char(s[ident_end(s, i)]),
    decreases s.len() - i,
{
    if i < s.len() && is_ident_char(s[i]) {
        lemma_ident_end(s, i + 1);
    }
}

/// Interpolating from position `i` on, with `acc` already produced: each
/// `$` followed by a name is replaced by the display rendering of that
/// variable's value, and the whole interpolation fails with the first name
/// that is unbound.
pub open spec fn interp_from(
    s: Seq<char>,
    i: int,
    acc: Seq<char>,
    scopes: Seq<ScopeV>,
) -> Result<Seq<char>, Seq<char>>
    decreases s.len() - i,
    when 0 <= i <= s.len()
    via interp_from_decreases
{
    if i >= s.len() {
        Ok(acc)
    } else if is_dollar_char(s[i]) && i + 1 < s.len() && is_ident_start_char(s[i + 1]) {
        let e = ident_end(s, i + 1);
        let name = s.subrange(i + 1, e);
        match ctx_lookup(scopes, name) {
            None => Err(name),
            Some(v) => match to_display_string(v, scopes) {
                Ok(cs) => interp_from(s, e, acc + cs, scopes),
                Err(n2) => Err(n2),
            },
        }
    } else {
        interp_from(s, i + 1, acc.push(s[i]), scopes)
    }
}

#[via_fn]
proof fn interp_from_decreases(s: Seq<char>, i: int, acc: Seq<char>, scopes: Seq<ScopeV>) {
    if 0 <= i < s.len() && is_dollar_char(s[i]) && i + 1 < s.len() && is_ident_start_char(
        s[i + 1],
    ) {
        lemma_ident_end(s, i + 1);
        assert(ident_end(s, i + 1) >= i + 1);
    }
}

/// What interpolating a whole text yields.
pub open spec fn interp_spec(s: Seq<char>, scopes: Seq<ScopeV>) -> Result<Seq<char>, Seq<char>> {
    interp_from(s, 0, Seq::empty(), scopes)
}

fn char_is_ident_start(c: char) -> (r: bool)
    ensures
        r == is_ident_start_char(c),
{
    let cc: u32 = c as u32;
    (65 <= cc && cc <= 90) || (97 <= cc && cc <= 122) || cc == 95
}

fn char_is_ident(c: char) -> (r: bool)
    ensures
        r == is_ident_char(c),
{
    let cc: u32 = c as u32;
    (65 <= cc && cc <= 90) || (97 <= cc && cc <= 122) || cc == 95 || (48 <= cc && cc <= 57)
}

/// The debug rendering of an operand on its own; a variable reference is
/// not resolved.
fn shallow_string(operand: &Operand) -> (r: String)
    ensures
        r@ == display_shallow(op_view(*operand)),
{
    match operand {
        Operand::Number(v) => v.render(),
        Operand::String(t) => {
            let mut out = String::new();
            push_char(&mut out, '"');
            out.append(t.as_str());
            push_char(&mut out, '"');
            proof {
                assert(out@ =~= seq!['"'] + t@ + seq!['"']);
            }
            out
        },
        Operand::Variable(n) => {
            let mut out = String::new();
            push_char(&mut out, '$');
            out.append(n.as_str());
            proof {
                assert(out@ =~= seq!['$'] + n@);
            }
            out
        },
        Operand::Scope(sc) => {
            let a: usize = sc.get_operand_stack().len();
            let b: usize = sc.get_variable_state().len();
            let count: u128 = a as u128 + b as u128;
            let digits = dec_chars_u128(count);
            let digit_str = string_from_chars(&digits);
            let mut out = String::from_str("Scope(");
            out.append(digit_str.as_str());
            push_char(&mut out, ')');
            proof {
                reveal_strlit("Scope(");
                assert(out@ =~= seq!['S', 'c', 'o', 'p', 'e', '('] + dec_digits(
                    (scope_view(*sc).stack.len() + scope_view(*sc).vars.len()) as nat,
                ) + seq![')']);
            }
            out
        },
    }
}

impl ExecutionContext {
    /// Display the actual runtime value of an operand, for diagnostics:
    /// numbers unchanged, strings quoted, a variable reference as
    /// `$name (value)` or `$name (unset)`, and a captured scope as
    /// `Scope(N)`.
    pub fn operand_display(&self, operand: &Operand) -> (r: String)
        ensures
            r@ == display_debug(op_view(*operand), self.scopes_view()),
    {
        match operand {
            Operand::Variable(n) => match self.get_variable(n) {
                None => {
                    let mut out = String::new();
                    push_char(&mut out, '$');
                    out.append(n.as_str());
                    out.append(" (unset)");
                    proof {
                        reveal_strlit(" (unset)");
                        assert(out@ =~= seq!['$'] + n@ + seq![
                            ' ',
                            '(',
                            'u',
                            'n',
                            's',
                            'e',
                            't',
                            ')',
                        ]);
                    }
                    out
                },
                Some(inner) => {
                    let rendered = shallow_string(inner);
                    let mut out = String::new();
                    push_char(&mut out, '$');
                    out.append(n.as_str());
                    out.append(" (");
                    out.append(rendered.as_str());
                    push_char(&mut out, ')');
                    proof {
                        reveal_strlit(" (");
                        assert(out@ =~= seq!['$'] + n@ + seq![' ', '('] + display_shallow(
                            op_view(*inner),
                        ) + seq![')']);
                    }
                    out
                },
            },
            _ => shallow_string(operand),
        }
    }

    /// The brace-delimited rendering of a captured scope's entries.
    fn scope_braces_string(&self, sc: &Scope) -> (r: String)
        ensures
            r@ == scope_braces(scope_view(*sc), self.scopes_view()),
    {
        let ghost sv = scope_view(*sc);
        let ghost parts = scope_parts(sv, self.scopes_view());
        let stack = sc.get_operand_stack();
        let vars = sc.get_variable_state();
        let mut joined = String::new();
        let mut i: usize = 0;
        proof {
            assert(parts.take(0) =~= Seq::<Seq<char>>::empty());
        }
        while i < stack.len()
            invariant
                0 <= i <= stack@.len(),
                stack@.len() == sv.stack.len(),
                sv == scope_view(*sc),
                parts == scope_parts(sv, self.scopes_view()),
                scope::ops_view(stack@) == sv.stack,
                joined@ == join_comma(parts.take(i as int)),
            decreases stack@.len() - i,
        {
            let part = self.operand_display(&stack[i]);
            if i > 0 {
                joined.append(", ");
            }
            joined.append(part.as_str());
            proof {
                reveal_strlit(", ");
                assert(parts[i as int] == display_debug(sv.stack[i as int], self.scopes_view()));
                assert(sv.stack[i as int] == op_view(stack@[i as int]));
                assert(parts.take((i + 1) as int).drop_last() =~= parts.take(i as int));
                assert(parts.take((i + 1) as int).last() == parts[i as int]);
                if i == 0 {
                    assert(joined@ =~= join_comma(parts.take((i + 1) as int)));
                } else {
                    assert(joined@ =~= join_comma(parts.take((i + 1) as int)));
                }
            }
            i = i + 1;
        }
        let ns: usize = stack.len();
        let mut j: usize = 0;
        while j < vars.len()
            invariant
                0 <= j <= vars@.len(),
                vars@.len() == sv.vars.len(),
                ns == sv.stack.len(),
                sv == scope_view(*sc),
                parts == scope_parts(sv, self.scopes_view()),
                forall|k: int|
                    0 <= k < vars@.len() ==> sv.vars[k] == ((#[trigger] vars@[k]).0@, op_view(
                        vars@[k].1,
                    )),
                joined@ == join_comma(parts.take((ns + j) as int)),
            decreases vars@.len() - j,
        {
            let rendered = self.operand_display(&vars[j].1);
            let mut part = String::new();
            part.append(vars[j].0.as_str());
            part.append(" = ");
            part.append(rendered.as_str());
            if ns > 0 || j > 0 {
                joined.append(", ");
            }
            joined.append(part.as_str());
            proof {
                reveal_strlit(" = ");
                reveal_strlit(", ");
                assert(part@ =~= sv.vars[j as int].0 + seq![' ', '=', ' '] + display_debug(
                    sv.vars[j as int].1,
                    self.scopes_view(),
                ));
                assert(parts[(ns + j) as int] == sv.vars[j as int].0 + seq![' ', '=', ' ']
                    + display_debug(sv.vars[j as int].1, self.scopes_view()));
                assert(parts.take((ns + j + 1) as int).drop_last() =~= parts.take(
                    (ns + j) as int,
                ));
                assert(parts.take((ns + j + 1) as int).last() == parts[(ns + j) as int]);
                if ns + j == 0 {
                    assert(joined@ =~= join_comma(parts.take((ns + j + 1) as int)));
                } else {
                    assert(joined@ =~= join_comma(parts.take((ns + j + 1) as int)));
                }
            }
            j = j + 1;
        }
        proof {
            assert(parts.take(parts.len() as int) =~= parts);
        }
        let mut out = String::from_str("{ ");
        out.append(joined.as_str());
        out.append(" }");
        proof {
            reveal_strlit("{ ");
            reveal_strlit(" }");
            assert(out@ =~= scope_braces(sv, self.scopes_view()));
        }
        out
    }

    /// Convert an operand into its display string: numbers as their literal
    /// text, strings as their raw text, a variable reference by its
    /// resolved value, a captured scope by its brace-delimited entries.
    pub fn operand_to_string(&self, operand: &Operand) -> (r: Result<String, RuntimeError>)
        ensures
            match to_display_string(op_view(*operand), self.scopes_view()) {
                Ok(cs) => r is Ok && r->Ok_0@ == cs,
                Err(n) => r is Err && r->Err_0@ == RuntimeErrorV::VariableNotFound { name: n },
            },
    {
        match operand {
            Operand::Number(v) => Ok(v.render()),
            Operand::String(t) => Ok(t.clone()),
            Operand::Scope(sc) => Ok(self.scope_braces_string(sc)),
            Operand::Variable(n) => match self.get_variable(n) {
                None => Err(RuntimeError::VariableNotFound { name: n.clone() }),
                Some(inner) => match inner {
                    Operand::Number(v) => Ok(v.render()),
                    Operand::String(t) => Ok(t.clone()),
                    Operand::Scope(sc) => Ok(self.scope_braces_string(sc)),
                    Operand::Variable(n2) => Err(RuntimeError::VariableNotFound { name: n2.clone() }),
                },
            },
        }
    }

    /// Replace each `$name` in `text` by the display string of that
    /// variable's current value; the whole interpolation fails when any
    /// referenced name is unbound. The substituted text is not re-scanned.
    pub fn interpolate_string_variables(&self, input: &str) -> (r: Result<String, RuntimeError>)
        ensures
            match interp_spec(input@, self.scopes_view()) {
                Ok(cs) => r is Ok && r->Ok_0@ == cs,
                Err(n) => r is Err && r->Err_0@ == RuntimeErrorV::VariableNotFound { name: n },
            },
    {
        let chars = str_to_chars(input);
        let n = chars.len();
        let mut out = String::new();
        let mut i: usize = 0;
        proof {
            assert(out@ =~= Seq::<char>::empty());
        }
        while i < n
            invariant
                0 <= i <= n,
                n == chars@.len(),
                chars@ == input@,
                interp_from(input@, i as int, out@, self.scopes_view()) == interp_spec(
                    input@,
                    self.scopes_view(),
                ),
            decreases n - i,
        {
            let c = chars[i];
            if (c as u32) == 36 && i + 1 < n && char_is_ident_start(chars[i + 1]) {
                let mut e: usize = i + 1;
                while e < n && char_is_ident(chars[e])
                    invariant
                        i + 1 <= e <= n,
                        n == chars@.len(),
                        chars@ == input@,
                        forall|k: int| i + 1 <= k < e ==> is_ident_char(#[trigger] input@[k]),
                    decreases n - e,
                {
                    e = e + 1;
                }
                proof {
                    lemma_ident_end(input@, i + 1);
                    let ie = ident_end(input@, i + 1);
                    if ie < e {
                        assert(is_ident_char(input@[ie]));
                    }
                    if ie > e {
                        assert(is_ident_char(input@[e as int]));
                    }
                    assert(ie == e as int);
                }
                let mut name_vec: Vec<char> = Vec::new();
                let mut k: usize = i + 1;
                while k < e
                    invariant
                        i + 1 <= k <= e <= n,
                        n == chars@.len(),
                        chars@ == input@,
                        name_vec@ == input@.subrange((i + 1) as int, k as int),
                    decreases e - k,
                {
                    name_vec.push(chars[k]);
                    proof {
                        assert(name_vec@ =~= input@.subrange((i + 1) as int, (k + 1) as int));
                    }
                    k = k + 1;
                }
                let name = string_from_chars(&name_vec);
                match self.get_variable(&name) {
                    None => {
                        return Err(RuntimeError::VariableNotFound { name });
                    },
                    Some(v) => {
                        match self.operand_to_string(v) {
                            Err(err) => {
                                return Err(err);
                            },
                            Ok(rendered) => {
                                out.append(rendered.as_str());
                                i = e;
                            },
                        }
                    },
                }
            } else {
                push_char(&mut out, c);
                i = i + 1;
            }
        }
        Ok(out)
    }
}


// ---------------------------------------------------------------------------
// Laws of the variable store
// ---------------------------------------------------------------------------
/// Binding `name` in a frame makes exactly that binding visible there: the
/// name then reads back as the new value, every other name reads as
/// before, and the frame's operand stack is untouched.
pub proof fn lemma_scope_set_get(sv: ScopeV, name: Seq<char>, v: OperandV)
    ensures
        scope_lookup(scope_set(sv, name, v), name) == Some(v),
        scope_has(scope_set(sv, name, v), name),
        forall|other: Seq<char>|
            other != name ==> #[trigger] scope_lookup(scope_set(sv, name, v), other)
                == scope_lookup(sv, other),
        scope_set(sv, name, v).stack == sv.stack,
{
    lemma_vars_index_of(sv.vars, name);
    let i = vars_index_of(sv.vars, name);
    let vars2 = scope_set(sv, name, v).vars;
    lemma_vars_index_of(vars2, name);
    if i < sv.vars.len() {
        assert(vars2 == sv.vars.update(i, (name, v)));
        assert(vars2.len() == sv.vars.len());
        assert(vars2[i] == (name, v));
        assert(vars2[i].0 == name);
        let j2 = vars_index_of(vars2, name);
        assert(j2 == i) by {
            if j2 < i {
                assert(vars2[j2] == sv.vars[j2]);
                assert(sv.vars[j2].0 != name);
                assert(vars2[j2].0 == name);
            }
            if j2 > i {
                assert(vars2[i].0 != name);
            }
        }
    } else {
        assert(vars2 == sv.vars.push((name, v)));
        assert(vars2.len() == sv.vars.len() + 1);
        assert(vars2[i] == (name, v));
        assert(vars2[i].0 == name);
        let j2 = vars_index_of(vars2, name);
        assert(j2 == i) by {
            if j2 < i {
                assert(vars2[j2] == sv.vars[j2]);
                assert(sv.vars[j2].0 != name);
                assert(vars2[j2].0 == name);
            }
            if j2 > i {
                assert(vars2[i].0 != name);
            }
        }
    }
    assert forall|other: Seq<char>|
        other != name implies #[trigger] scope_lookup(scope_set(sv, name, v), other)
        == scope_lookup(sv, other) by {
        lemma_vars_index_of(sv.vars, other);
        lemma_vars_index_of(vars2, other);
        let j = vars_index_of(sv.vars, other);
        let j2 = vars_index_of(vars2, other);
        if j < sv.vars.len() {
            assert(vars2[j].0 == other);
            assert(j2 == j) by {
                if j2 < j {
                    assert(sv.vars[j2].0 != other);
                    assert(vars2[j2] == sv.vars[j2] || j2 == i);
                }
                if j2 > j {
                    assert(vars2[j].0 != other);
                }
            }
            assert(vars2[j2].1 == sv.vars[j].1);
        } else {
            assert(j2 == vars2.len()) by {
                if j2 < vars2.len() {
                    assert(vars2[j2].0 == other);
                    if j2 < sv.vars.len() {
                        assert(sv.vars[j2].0 != other);
                        assert(vars2[j2] == sv.vars[j2] || j2 == i);
                    }
                }
            }
        }
    }
}

/// Where the innermost scope defining `name` sits, after and before an
/// assignment: uniqueness of that position.
pub proof fn lemma_ctx_find_unique(scopes: Seq<ScopeV>, name: Seq<char>, i: int)
    requires
        0 <= i < scopes.len(),
        scope_has(scopes[i], name),
        forall|k: int| i < k < scopes.len() ==> !scope_has(#[trigger] scopes[k], name),
    ensures
        ctx_find(scopes, name) == i,
    decreases scopes.len(),
{
    if i == scopes.len() - 1 {
        assert(scope_has(scopes.last(), name));
    } else {
        assert(!scope_has(scopes.last(), name));
        lemma_ctx_find_unique(scopes.drop_last(), name, i);
        assert(scopes.drop_last()[i] == scopes[i]);
        assert forall|k: int|
            i < k < scopes.drop_last().len() implies !scope_has(
            #[trigger] scopes.drop_last()[k],
            name,
        ) by {
            assert(scopes.drop_last()[k] == scopes[k]);
        }
    }
}

/// Law: after binding `name` to `v`, reading `name` from the nested scope
/// yields `v`, whichever scope the binding landed in.
pub proof fn lemma_set_then_get(scopes: Seq<ScopeV>, name: Seq<char>, v: OperandV)
    requires
        scopes.len() >= 1,
    ensures
        ctx_lookup(ctx_set(scopes, name, v), name) == Some(v),
{
    lemma_ctx_find(scopes, name);
    let i = ctx_find(scopes, name);
    let target = if i >= 0 {
        i
    } else {
        scopes.len() - 1
    };
    let scopes2 = ctx_set(scopes, name, v);
    lemma_scope_set_get(scopes[target], name, v);
    assert(scopes2[target] == scope_set(scopes[target], name, v));
    assert forall|k: int| target < k < scopes2.len() implies !scope_has(
        #[trigger] scopes2[k],
        name,
    ) by {
        assert(scopes2[k] == scopes[k]);
    }
    lemma_ctx_find_unique(scopes2, name, target);
}

/// Law of shadowing: when an outer scope already defines `name`, `set`
/// updates that outer binding in place. The current (innermost) scope is
/// left exactly as it was — no new nested binding appears — every other
/// scope is untouched, and reading `name` afterwards, from the nested
/// scope, yields the updated outer value.
pub proof fn lemma_set_updates_declaring_scope(scopes: Seq<ScopeV>, name: Seq<char>, v: OperandV)
    requires
        scopes.len() >= 1,
        0 <= ctx_find(scopes, name) < scopes.len() - 1,
    ensures
        ctx_set(scopes, name, v).len() == scopes.len(),
        ctx_set(scopes, name, v).last() == scopes.last(),
        ctx_set(scopes, name, v)[ctx_find(scopes, name)] == scope_set(
            scopes[ctx_find(scopes, name)],
            name,
            v,
        ),
        forall|k: int|
            0 <= k < scopes.len() && k != ctx_find(scopes, name) ==> #[trigger] ctx_set(
                scopes,
                name,
                v,
            )[k] == scopes[k],
        ctx_lookup(ctx_set(scopes, name, v), name) == Some(v),
{
    lemma_ctx_find(scopes, name);
    lemma_set_then_get(scopes, name, v);
}

// ---------------------------------------------------------------------------
// A law of interpolation
// ---------------------------------------------------------------------------
/// Law: interpolating a reference to an unbound name fails with that name.
/// The text `$name`, where every character of `name` can stand in an
/// identifier, names a variable; when no scope binds it, the whole
/// interpolation fails.
pub proof fn lemma_interpolate_unbound(scopes: Seq<ScopeV>, name: Seq<char>)
    requires
        name.len() > 0,
        is_ident_start_char(name[0]),
        forall|k: int| 0 <= k < name.len() ==> is_ident_char(#[trigger] name[k]),
        ctx_lookup(scopes, name) is None,
    ensures
        interp_spec(seq!['$'] + name, scopes) == Err::<Seq<char>, Seq<char>>(name),
{
    let s = seq!['$'] + name;
    assert(is_dollar_char(s[0]));
    assert(s[1] == name[0]);
    lemma_ident_end(s, 1);
    let e = ident_end(s, 1);
    assert forall|k: int| 1 <= k < s.len() implies is_ident_char(#[trigger] s[k]) by {
        assert(s[k] == name[k - 1]);
    }
    assert(e == s.len()) by {
        if e < s.len() {
            assert(is_ident_char(s[e]));
        }
    }
    assert(s.subrange(1, e) =~= name);
}

} // verus!
