//! Statements: the units that a function is made of.

use vstd::prelude::*;
use vstd::string::StringExecFns;
use crate::number::{nat_to_text, unsigned_to_string};
use crate::variable::{bind, eval_spec, resolve, scope_of, text_opt, Scope, VarBindingList};

verus! {

/// What a statement does.
#[derive(Debug, Clone, Copy, PartialEq, Eq, Structural)]
pub enum StmtKind {
    /// Calls the instruction that `content` names, with `args`.
    CallIns,
    /// Calls the function that `content` names, with `args`.
    CallFn,
    /// Begins a loop.
    Loop,
    /// Ends a loop.
    EndLoop,
    /// Ends the function; `content` is the expression whose value is returned.
    Return,
    /// Assigns to a variable, with or without arithmetic; the operands are in `args`.
    SetVar,
    /// Binds a local variable; `content` is `name=value`.
    SetLocal,
    /// Binds a global variable; `content` is `name=value`.
    SetGlobal,
}

/// One statement of a function.
#[derive(Debug)]
pub struct Stmt {
    pub kind: StmtKind,
    /// What this means depends on `kind`.
    pub content: String,
    pub args: VarBindingList,
    pub note: Option<String>,
    /// Run-time arguments: there only while the statement is at work.
    pub rt_args: Option<VarBindingList>,
}

impl Stmt {
    /// The run-time arguments, if the statement has any.
    pub open spec fn rtargs(&self) -> Option<Scope> {
        match self.rt_args {
            Some(bindings) => Some(bindings@),
            None => None,
        }
    }

    /// The statement but for its run-time arguments.
    pub open spec fn same_program(&self, other: &Stmt) -> bool {
        &&& self.kind == other.kind
        &&& self.content == other.content
        &&& self.args == other.args
        &&& self.note == other.note
    }

    pub fn new(kind: StmtKind, content: &str) -> (r: Stmt)
        ensures
            r.kind == kind,
            r.content@ == content@,
            r.args@ == Map::<Seq<char>, Seq<char>>::empty(),
            r.note is None,
            r.rtargs() is None,
    {
        Stmt::new_with_args(kind, content, VarBindingList::new())
    }

    pub fn new_with_args(kind: StmtKind, content: &str, args: VarBindingList) -> (r: Stmt)
        ensures
            r.kind == kind,
            r.content@ == content@,
            r.args == args,
            r.note is None,
            r.rtargs() is None,
    {
        Stmt { kind, content: String::from_str(content), args, note: None, rt_args: None }
    }

    pub fn new_call_ins(name: &str, args: VarBindingList) -> (r: Stmt)
        ensures
            r.kind == StmtKind::CallIns,
            r.content@ == name@,
            r.args == args,
            r.note is None,
            r.rtargs() is None,
    {
        Stmt::new_with_args(StmtKind::CallIns, name, args)
    }

    pub fn new_call_fn(name: &str, args: VarBindingList) -> (r: Stmt)
        ensures
            r.kind == StmtKind::CallFn,
            r.content@ == name@,
            r.args == args,
            r.note is None,
            r.rtargs() is None,
    {
        Stmt::new_with_args(StmtKind::CallFn, name, args)
    }

    /// A loop that runs its body `count` times.
    pub fn new_loop(count: u32) -> (r: Stmt)
        ensures
            r.kind == StmtKind::Loop,
            r.content@ == Seq::<char>::empty(),
            r.args@ == Map::<Seq<char>, Seq<char>>::empty().insert(
                "$count"@,
                nat_to_text(count as nat),
            ),
            r.note is None,
            r.rtargs() is None,
    {
        let mut stmt = Stmt::new(StmtKind::Loop, "");
        let text = unsigned_to_string(count as u128);
        stmt.args.set_binding("$count", text.as_str());
        proof {
            crate::number::lemma_nat_to_text_digits(count as nat);
            reveal_strlit("");
        }
        stmt
    }

    pub fn new_end_loop() -> (r: Stmt)
        ensures
            r.kind == StmtKind::EndLoop,
            r.content@ == Seq::<char>::empty(),
            r.args@ == Map::<Seq<char>, Seq<char>>::empty(),
            r.note is None,
            r.rtargs() is None,
    {
        proof {
            reveal_strlit("");
        }
        let stmt = Stmt::new(StmtKind::EndLoop, "");
        stmt
    }

    pub fn new_return(expr: &str) -> (r: Stmt)
        ensures
            r.kind == StmtKind::Return,
            r.content@ == expr@,
            r.args@ == Map::<Seq<char>, Seq<char>>::empty(),
            r.note is None,
            r.rtargs() is None,
    {
        Stmt::new(StmtKind::Return, expr)
    }

    /// The assignment `varname op1 operand1`.
    pub fn new_set_var(varname: &str, op1: &str, operand1: &str) -> (r: Stmt)
        ensures
            r.kind == StmtKind::SetVar,
            r.content@ == Seq::<char>::empty(),
            r.args@ == set_var_args(
                varname@,
                op1@,
                operand1@,
                Seq::<char>::empty(),
                Seq::<char>::empty(),
            ),
            r.note is None,
            r.rtargs() is None,
    {
        proof {
            reveal_strlit("");
        }
        let e1 = "";
        let e2 = "";
        Stmt::new_set_var_ex(varname, op1, operand1, e1, e2)
    }

    /// The assignment `varname op1 operand1 op2 operand2`. An empty text
    /// stands for an operand or operator that is left out; without `op2`,
    /// `operand2` is left out too.
    pub fn new_set_var_ex(
        varname: &str,
        op1: &str,
        operand1: &str,
        op2: &str,
        operand2: &str,
    ) -> (r: Stmt)
        ensures
            r.kind == StmtKind::SetVar,
            r.content@ == Seq::<char>::empty(),
            r.args@ == set_var_args(varname@, op1@, operand1@, op2@, operand2@),
            r.note is None,
            r.rtargs() is None,
    {
        proof {
            reveal_strlit("");
        }
        let mut stmt = Stmt::new(StmtKind::SetVar, "");
        stmt.args.set_binding("$varname", varname);
        stmt.args.set_binding("$op1", op1);
        stmt.args.set_binding("$operand1", operand1);
        if !op2.is_empty() {
            stmt.args.set_binding("$op2", op2);
            if !operand2.is_empty() {
                stmt.args.set_binding("$operand2", operand2);
            }
        }
        proof {
            reveal_strlit("$varname");
            reveal_strlit("$op1");
            reveal_strlit("$op2");
            reveal_strlit("$operand1");
            reveal_strlit("$operand2");
            assert("$operand1"@[8] != "$operand2"@[8]);
            assert("$varname"@.len() != "$operand2"@.len());
        }
        stmt
    }

    /// Binds a local variable; `expr` is `name=value`.
    pub fn new_set_local(expr: &str) -> (r: Stmt)
        ensures
            r.kind == StmtKind::SetLocal,
            r.content@ == expr@,
            r.args@ == Map::<Seq<char>, Seq<char>>::empty(),
            r.note is None,
            r.rtargs() is None,
    {
        Stmt::new(StmtKind::SetLocal, expr)
    }

    /// Binds a global variable; `expr` is `name=value`.
    pub fn new_set_global(expr: &str) -> (r: Stmt)
        ensures
            r.kind == StmtKind::SetGlobal,
            r.content@ == expr@,
            r.args@ == Map::<Seq<char>, Seq<char>>::empty(),
            r.note is None,
            r.rtargs() is None,
    {
        Stmt::new(StmtKind::SetGlobal, expr)
    }

    /// Gives the statement run-time arguments: a copy of `args`. It must have
    /// none yet.
    pub fn rtargs_init(&mut self, args: &VarBindingList)
        requires
            old(self).rtargs() is None,
        ensures
            final(self).rtargs() == Some(args@),
            final(self).same_program(old(self)),
    {
        let mut bindings = VarBindingList::new();
        bindings.add_more(args);
        self.rt_args = Some(bindings);
    }

    /// Sets a run-time argument; the statement must have run-time arguments.
    pub fn rtargs_set(&mut self, name: &str, value: &str)
        requires
            old(self).rtargs() is Some,
        ensures
            final(self).rtargs() == Some(bind(old(self).rtargs()->0, name@, value@)),
            final(self).same_program(old(self)),
    {
        let mut taken: Option<VarBindingList> = None;
        std::mem::swap(&mut taken, &mut self.rt_args);
        match taken {
            Some(mut bindings) => {
                bindings.set_binding(name, value);
                self.rt_args = Some(bindings);
            },
            None => {},
        }
    }

    /// The value of `expr` over the run-time arguments and two more scopes;
    /// nothing where the statement has no run-time arguments.
    pub fn rtargs_eval<'a>(
        &'a self,
        expr: &'a str,
        upvars1: Option<&'a VarBindingList>,
        upvars2: Option<&'a VarBindingList>,
    ) -> (r: Option<String>)
        ensures
            text_opt(r) == match self.rtargs() {
                Some(scope) => eval_spec(
                    scope,
                    scope_of(upvars1),
                    scope_of(upvars2),
                    expr@,
                    scope.len() + scope_of(upvars1).len() + scope_of(upvars2).len(),
                ),
                None => None,
            },
    {
        match &self.rt_args {
            Some(bindings) => bindings.eval(expr, upvars1, upvars2),
            None => None,
        }
    }

    /// The value of the variable `name` over the run-time arguments and two
    /// more scopes; nothing where the statement has no run-time arguments.
    pub fn rtargs_eval_var<'a>(
        &'a self,
        name: &'a str,
        upvars1: Option<&'a VarBindingList>,
        upvars2: Option<&'a VarBindingList>,
    ) -> (r: Option<String>)
        ensures
            text_opt(r) == match self.rtargs() {
                Some(scope) => resolve(
                    scope,
                    scope_of(upvars1),
                    scope_of(upvars2),
                    name@,
                    scope.len() + scope_of(upvars1).len() + scope_of(upvars2).len(),
                ),
                None => None,
            },
    {
        match &self.rt_args {
            Some(bindings) => bindings.eval_var(name, upvars1, upvars2),
            None => None,
        }
    }

    /// Drops the run-time arguments.
    pub fn rtargs_clean(&mut self)
        ensures
            final(self).rtargs() is None,
            final(self).same_program(old(self)),
    {
        self.rt_args = None;
    }
}

/// The arguments of an assignment statement: each text that is not empty,
/// under its name; `operand2` only beside an `op2`.
pub open spec fn set_var_args(
    varname: Seq<char>,
    op1: Seq<char>,
    operand1: Seq<char>,
    op2: Seq<char>,
    operand2: Seq<char>,
) -> Scope {
    let base = bind(
        bind(bind(Map::<Seq<char>, Seq<char>>::empty(), "$varname"@, varname), "$op1"@, op1),
        "$operand1"@,
        operand1,
    );
    if op2.len() == 0 {
        base
    } else {
        bind(bind(base, "$op2"@, op2), "$operand2"@, operand2)
    }
}

} // verus!
