//! One lexical frame: an operand stack and a variable table.
//!
//! The variable table is an association list in insertion order with unique
//! keys: lookup finds the first (and only) entry with the name, assignment
//! overwrites that entry in place, and a new name is appended at the end.

use crate::interpreter::Operand;
use vstd::prelude::*;

verus! {

/// The mathematical shape of an operand.
pub enum OperandV {
    Number(int),
    String(Seq<char>),
    Variable(Seq<char>),
    Scope(ScopeV),
}

/// The mathematical shape of a lexical frame.
pub struct ScopeV {
    pub stack: Seq<OperandV>,
    pub vars: Seq<(Seq<char>, OperandV)>,
}

#[derive(Debug)]
pub struct Scope {
    operand_stack: Vec<Operand>,
    variable_state: Vec<(String, Operand)>,
}

/// The shape of an operand, with a captured scope taken apart into the
/// shapes of its entries.
pub closed spec fn op_view(o: Operand) -> OperandV
    decreases o, 1int,
    via op_view_decreases
{
    match o {
        Operand::Number(v) => OperandV::Number(v@),
        Operand::String(s) => OperandV::String(s@),
        Operand::Variable(n) => OperandV::Variable(n@),
        Operand::Scope(sc) => OperandV::Scope(scope_view(sc)),
    }
}

#[via_fn]
proof fn op_view_decreases(o: Operand) {
    match o {
        Operand::Scope(sc) => {
            assert(decreases_to!(o, 1int => sc, 0int));
        },
        _ => {},
    }
}

pub closed spec fn scope_view(s: Scope) -> ScopeV
    decreases s, 0int,
    via scope_view_decreases
{
    ScopeV { stack: stack_views(s.operand_stack@), vars: vars_views(s.variable_state@) }
}

#[via_fn]
proof fn scope_view_decreases(s: Scope) {
    assert(decreases_to!(s => s.operand_stack));
    assert(decreases_to!(s.operand_stack => s.operand_stack@));
    assert(decreases_to!(s, 0int => s.operand_stack@, 0int));
    assert(decreases_to!(s => s.variable_state));
    assert(decreases_to!(s.variable_state => s.variable_state@));
    assert(decreases_to!(s, 0int => s.variable_state@, 0int));
}

pub closed spec fn stack_views(q: Seq<Operand>) -> Seq<OperandV>
    decreases q, 0int,
    via stack_views_decreases
{
    if q.len() == 0 {
        Seq::empty()
    } else {
        seq![op_view(q[0])] + stack_views(q.skip(1))
    }
}

#[via_fn]
proof fn stack_views_decreases(q: Seq<Operand>) {
    if q.len() > 0 {
        assert(decreases_to!(q => q[0]));
        assert(decreases_to!(q, 0int => q[0], 1int));
        assert(decreases_to!(q => q.skip(1)));
        assert(decreases_to!(q, 0int => q.skip(1), 0int));
    }
}

pub closed spec fn vars_views(q: Seq<(String, Operand)>) -> Seq<(Seq<char>, OperandV)>
    decreases q, 0int,
    via vars_views_decreases
{
    if q.len() == 0 {
        Seq::empty()
    } else {
        seq![(q[0].0@, op_view(q[0].1))] + vars_views(q.skip(1))
    }
}

#[via_fn]
proof fn vars_views_decreases(q: Seq<(String, Operand)>) {
    if q.len() > 0 {
        assert(decreases_to!(q => q[0]));
        assert(decreases_to!(q[0] => q[0].1));
        assert(decreases_to!(q, 0int => q[0].1, 1int));
        assert(decreases_to!(q => q.skip(1)));
        assert(decreases_to!(q, 0int => q.skip(1), 0int));
    }
}

/// Each element's index in the view sequences.
pub proof fn lemma_stack_views(q: Seq<Operand>)
    ensures
        stack_views(q).len() == q.len(),
        forall|i: int| 0 <= i < q.len() ==> #[trigger] stack_views(q)[i] == op_view(q[i]),
    decreases q.len(),
{
    if q.len() > 0 {
        lemma_stack_views(q.skip(1));
        assert forall|i: int| 0 <= i < q.len() implies #[trigger] stack_views(q)[i] == op_view(
            q[i],
        ) by {
            if i > 0 {
                assert(stack_views(q)[i] == stack_views(q.skip(1))[i - 1]);
                assert(q.skip(1)[i - 1] == q[i]);
            }
        }
    }
}

pub proof fn lemma_vars_views(q: Seq<(String, Operand)>)
    ensures
        vars_views(q).len() == q.len(),
        forall|i: int|
            0 <= i < q.len() ==> #[trigger] vars_views(q)[i] == (q[i].0@, op_view(q[i].1)),
    decreases q.len(),
{
    if q.len() > 0 {
        lemma_vars_views(q.skip(1));
        assert forall|i: int| 0 <= i < q.len() implies #[trigger] vars_views(q)[i] == (q[i].0@,
        op_view(q[i].1)) by {
            if i > 0 {
                assert(vars_views(q)[i] == vars_views(q.skip(1))[i - 1]);
                assert(q.skip(1)[i - 1] == q[i]);
            }
        }
    }
}

pub open spec fn ops_view(s: Seq<Operand>) -> Seq<OperandV> {
    s.map_values(|o: Operand| op_view(o))
}

impl View for Operand {
    type V = OperandV;

    open spec fn view(&self) -> OperandV {
        op_view(*self)
    }
}

impl View for Scope {
    type V = ScopeV;

    open spec fn view(&self) -> ScopeV {
        scope_view(*self)
    }
}

pub broadcast proof fn lemma_op_view_number(v: crate::numeric::NumValue)
    ensures
        #[trigger] op_view(Operand::Number(v)) == OperandV::Number(v@),
{
}

pub broadcast proof fn lemma_op_view_string(s: String)
    ensures
        #[trigger] op_view(Operand::String(s)) == OperandV::String(s@),
{
}

pub broadcast proof fn lemma_op_view_variable(n: String)
    ensures
        #[trigger] op_view(Operand::Variable(n)) == OperandV::Variable(n@),
{
}

pub broadcast proof fn lemma_op_view_scope(sc: Scope)
    ensures
        #[trigger] op_view(Operand::Scope(sc)) == OperandV::Scope(scope_view(sc)),
{
}

pub broadcast proof fn lemma_op_view_cases(o: Operand)
    ensures
        o is Number ==> #[trigger] op_view(o) == OperandV::Number(o->Number_0@),
        o is String ==> op_view(o) == OperandV::String(o->String_0@),
        o is Variable ==> op_view(o) == OperandV::Variable(o->Variable_0@),
        o is Scope ==> op_view(o) == OperandV::Scope(scope_view(o->Scope_0)),
{
}

pub broadcast group group_op_view {
    lemma_op_view_number,
    lemma_op_view_string,
    lemma_op_view_variable,
    lemma_op_view_scope,
    lemma_op_view_cases,
}

/// The empty frame.
pub open spec fn empty_scope() -> ScopeV {
    ScopeV { stack: Seq::empty(), vars: Seq::empty() }
}

/// The index of the entry for `name`, or the table's length when there is
/// none.
pub open spec fn vars_index_of(vars: Seq<(Seq<char>, OperandV)>, name: Seq<char>) -> int
    decreases vars.len(),
{
    if vars.len() == 0 {
        0
    } else if vars[0].0 == name {
        0
    } else {
        1 + vars_index_of(vars.skip(1), name)
    }
}

pub proof fn lemma_vars_index_of(vars: Seq<(Seq<char>, OperandV)>, name: Seq<char>)
    ensures
        0 <= vars_index_of(vars, name) <= vars.len(),
        forall|k: int| 0 <= k < vars_index_of(vars, name) ==> vars[k].0 != name,
        vars_index_of(vars, name) < vars.len() ==> vars[vars_index_of(vars, name)].0 == name,
    decreases vars.len(),
{
    if vars.len() > 0 && vars[0].0 != name {
        lemma_vars_index_of(vars.skip(1), name);
        assert forall|k: int| 0 <= k < vars_index_of(vars, name) implies vars[k].0 != name by {
            if k > 0 {
                assert(vars.skip(1)[k - 1].0 != name);
            }
        }
    }
}

pub open spec fn scope_has(sv: ScopeV, name: Seq<char>) -> bool {
    vars_index_of(sv.vars, name) < sv.vars.len()
}

/// The value bound to `name` in the frame, if any.
pub open spec fn scope_lookup(sv: ScopeV, name: Seq<char>) -> Option<OperandV> {
    let i = vars_index_of(sv.vars, name);
    if i < sv.vars.len() {
        Some(sv.vars[i].1)
    } else {
        None
    }
}

/// The frame after binding `name` to `v`: an existing entry is overwritten
/// in place, a new name is appended.
pub open spec fn scope_set(sv: ScopeV, name: Seq<char>, v: OperandV) -> ScopeV {
    let i = vars_index_of(sv.vars, name);
    if i < sv.vars.len() {
        ScopeV { stack: sv.stack, vars: sv.vars.update(i, (name, v)) }
    } else {
        ScopeV { stack: sv.stack, vars: sv.vars.push((name, v)) }
    }
}

impl Scope {
    pub fn new() -> (s: Scope)
        ensures
            s@ == empty_scope(),
    {
        let s = Scope { operand_stack: Vec::new(), variable_state: Vec::new() };
        proof {
            lemma_stack_views(s.operand_stack@);
            lemma_vars_views(s.variable_state@);
            assert(s@.stack =~= Seq::<OperandV>::empty());
            assert(s@.vars =~= Seq::<(Seq<char>, OperandV)>::empty());
        }
        s
    }

    pub fn has_variable(&self, name: String) -> (r: bool)
        ensures
            r == scope_has(self@, name@),
    {
        proof {
            lemma_vars_index_of(self@.vars, name@);
            lemma_vars_views(self.variable_state@);
        }
        let n = self.variable_state.len();
        let mut i: usize = 0;
        while i < n
            invariant
                n == self.variable_state@.len(),
                0 <= i <= n,
                forall|k: int| 0 <= k < i ==> self@.vars[k].0 != name@,
            decreases n - i,
        {
            proof {
                lemma_vars_views(self.variable_state@);
                lemma_vars_index_of(self@.vars, name@);
            }
            if self.variable_state[i].0 == name {
                proof {
                    assert(self@.vars[i as int].0 == name@);
                    if vars_index_of(self@.vars, name@) < i {
                        assert(self@.vars[vars_index_of(self@.vars, name@)].0 != name@);
                    }
                    if vars_index_of(self@.vars, name@) > i {
                        assert(self@.vars[i as int].0 != name@);
                    }
                }
                return true;
            }
            i = i + 1;
        }
        proof {
            lemma_vars_views(self.variable_state@);
            if scope_has(self@, name@) {
                assert(self@.vars[vars_index_of(self@.vars, name@)].0 == name@);
            }
        }
        false
    }

    pub fn get_variable(&self, name: &String) -> (r: Option<&Operand>)
        ensures
            match r {
                Some(v) => scope_lookup(self@, name@) == Some(op_view(*v)),
                None => scope_lookup(self@, name@) is None,
            },
    {
        proof {
            lemma_vars_index_of(self@.vars, name@);
            lemma_vars_views(self.variable_state@);
        }
        let n = self.variable_state.len();
        let mut i: usize = 0;
        while i < n
            invariant
                n == self.variable_state@.len(),
                0 <= i <= n,
                forall|k: int| 0 <= k < i ==> self@.vars[k].0 != name@,
            decreases n - i,
        {
            proof {
                lemma_vars_views(self.variable_state@);
                lemma_vars_index_of(self@.vars, name@);
            }
            if self.variable_state[i].0 == *name {
                proof {
                    assert(self@.vars[i as int].0 == name@);
                    if vars_index_of(self@.vars, name@) < i {
                        assert(self@.vars[vars_index_of(self@.vars, name@)].0 != name@);
                    }
                    if vars_index_of(self@.vars, name@) > i {
                        assert(self@.vars[i as int].0 != name@);
                    }
                    assert(vars_index_of(self@.vars, name@) == i);
                }
                return Some(&self.variable_state[i].1);
            }
            i = i + 1;
        }
        proof {
            lemma_vars_views(self.variable_state@);
            if scope_has(self@, name@) {
                assert(self@.vars[vars_index_of(self@.vars, name@)].0 == name@);
            }
        }
        None
    }

    /// Bind `name` to `value`. A `Variable` operand must never be stored as
    /// a bound value; callers rule that out before calling.
    pub fn set_variable(&mut self, name: String, value: Operand)
        requires
            !(op_view(value) is Variable),
        ensures
            final(self)@ == scope_set(old(self)@, name@, op_view(value)),
    {
        proof {
            lemma_vars_index_of(old(self)@.vars, name@);
            lemma_vars_views(self.variable_state@);
        }
        let ghost target = vars_index_of(old(self)@.vars, name@);
        let n = self.variable_state.len();
        let mut i: usize = 0;
        while i < n
            invariant
                self == old(self),
                n == self.variable_state@.len(),
                0 <= i <= n,
                forall|k: int| 0 <= k < i ==> self@.vars[k].0 != name@,
                target == vars_index_of(old(self)@.vars, name@),
                0 <= target <= n,
                forall|k: int| 0 <= k < target ==> self@.vars[k].0 != name@,
                target < n ==> self@.vars[target].0 == name@,
            decreases n - i,
        {
            proof {
                lemma_vars_views(self.variable_state@);
            }
            if self.variable_state[i].0 == name {
                proof {
                    assert(self@.vars[i as int].0 == name@);
                    if target < i {
                        assert(self@.vars[target].0 != name@);
                    }
                    if target > i {
                        assert(self@.vars[i as int].0 != name@);
                    }
                    assert(target == i);
                }
                self.variable_state.set(i, (name, value));
                proof {
                    lemma_vars_views(old(self).variable_state@);
                    lemma_vars_views(self.variable_state@);
                    lemma_stack_views(old(self).variable_state@.map_values(|p: (String, Operand)| p.1));
                    assert(self@.stack == stack_views(self.operand_stack@));
                    assert(self.operand_stack@ == old(self).operand_stack@);
                    assert(self@.vars =~= old(self)@.vars.update(target, (name@, op_view(value))));
                }
                return ;
            }
            i = i + 1;
        }
        proof {
            assert(target == n);
        }
        self.variable_state.push((name, value));
        proof {
            lemma_vars_views(old(self).variable_state@);
            lemma_vars_views(self.variable_state@);
            assert(self@.vars =~= old(self)@.vars.push((name@, op_view(value))));
        }
    }

    pub fn pop_operand(&mut self) -> (r: Option<Operand>)
        ensures
            final(self)@.vars == old(self)@.vars,
            match r {
                Some(v) => old(self)@.stack.len() > 0 && op_view(v) == old(self)@.stack.last()
                    && final(self)@.stack == old(self)@.stack.drop_last(),
                None => old(self)@.stack.len() == 0 && final(self)@ == old(self)@,
            },
    {
        let r = self.operand_stack.pop();
        proof {
            lemma_stack_views(old(self).operand_stack@);
            lemma_stack_views(self.operand_stack@);
            assert(final(self)@.vars == old(self)@.vars);
            if old(self)@.stack.len() > 0 {
                assert(final(self)@.stack =~= old(self)@.stack.drop_last());
            } else {
                assert(final(self)@.stack =~= old(self)@.stack);
            }
        }
        r
    }

    pub fn push_operand(&mut self, operand: Operand)
        ensures
            final(self)@.vars == old(self)@.vars,
            final(self)@.stack == old(self)@.stack.push(op_view(operand)),
    {
        self.operand_stack.push(operand);
        proof {
            lemma_stack_views(old(self).operand_stack@);
            lemma_stack_views(self.operand_stack@);
            assert(final(self)@.vars == old(self)@.vars);
            assert(final(self)@.stack =~= old(self)@.stack.push(op_view(operand)));
        }
    }

    pub fn get_operand_stack(&self) -> (r: &Vec<Operand>)
        ensures
            ops_view(r@) == self@.stack,
    {
        proof {
            lemma_stack_views(self.operand_stack@);
            assert(ops_view(self.operand_stack@) =~= self@.stack);
        }
        &self.operand_stack
    }

    pub fn get_variable_state(&self) -> (r: &Vec<(String, Operand)>)
        ensures
            r@.len() == self@.vars.len(),
            forall|i: int| 0 <= i < r@.len() ==> self@.vars[i] == (r@[i].0@, op_view(r@[i].1)),
    {
        proof {
            lemma_vars_views(self.variable_state@);
        }
        &self.variable_state
    }
}

} // verus!
