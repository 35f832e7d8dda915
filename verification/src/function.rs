//! Function definitions and the interpreter that runs their statements.
//!
//! Every function here is proved to do what the module `semantics` says of it.

use vstd::prelude::*;
use vstd::string::{StrSliceExecFns, StringExecFns};
use crate::engine::{Context, Engine};
use crate::loops::{
    depth, has_unpaired_end, kinds_of, lemma_fault_is_first_unpaired_end, lemma_pair_loops_fault,
    lemma_table_pairs_loops, loop_table, pair_loops, pairs_loops, table_fits, Pairing,
};
use crate::number::{parse_i64, parse_i64_spec, parse_up_to, signed_to_string, unsigned_to_string};
use crate::semantics::{
    after_call, assign_spec, call_fn_spec, call_ins_spec, counter, end_loop_spec, failed, fatal,
    loop_scratch, loop_spec, msg_no_value, reported, result_view, return_spec, run_fn_spec,
    run_stmts_spec, set_global_spec, set_local_spec, set_var_spec, step_spec, x_op_y_report,
    x_op_y_value, Completion, Frame, Step,
};
use crate::statement::{Stmt, StmtKind};
use crate::utils::{chars_of, join_text, same_text, split_lr};
use crate::variable::{Scope, VarBindingList, VarDefList};

verus! {

/// The definition of a function: its name, its declared arguments and its
/// statements in the order in which they run.
#[derive(Debug)]
pub struct FnDef {
    pub name: String,
    pub args: VarDefList,
    pub stmts: Vec<Stmt>,
}

/// How a call ended: its result, whether it ended the whole run, and how
/// many statements it executed.
#[derive(Debug)]
pub struct Outcome {
    /// The result of the call. After a fatal error, the text of that error.
    pub result: Result<(), String>,
    /// A fatal error ended the run: no caller goes on.
    pub aborted: bool,
    /// How many statements the call executed, those of the calls that it
    /// made among them.
    pub used: u64,
}

/// What a statement led to.
#[derive(Debug)]
pub enum Stepped {
    /// The call goes on, after a call by the statement executed so many
    /// statements.
    Continue(u64),
    /// The call ended with this outcome, the statement itself not counted.
    Finish(Outcome),
}

/// Reads a number of 64 bits from a payload; zero where it holds none.
fn int_of_payload(payload: &str) -> (r: i64)
    ensures
        r as int == (match parse_i64_spec(payload@) {
            Some(n) => n,
            None => 0,
        }),
{
    match parse_i64(payload) {
        Some(n) => n,
        None => 0,
    }
}

/// The text `No value for: x op y`.
fn no_value_text(op: &str, x: &str, y: &str) -> (r: String)
    ensures
        r@ == msg_no_value(op@, x@, y@),
{
    let a = join_text("No value for: ", x);
    let b = join_text(a.as_str(), " ");
    let c = join_text(b.as_str(), op);
    let d = join_text(c.as_str(), " ");
    join_text(d.as_str(), y)
}

impl FnDef {
    pub fn new(name: &str) -> (r: FnDef)
        ensures
            r.name@ == name@,
            r.args.defs@ == Seq::<crate::variable::VarDef>::empty(),
            r.stmts@ == Seq::<Stmt>::empty(),
    {
        FnDef { name: String::from_str(name), args: VarDefList::new(), stmts: Vec::new() }
    }

    pub fn add_stmt(&mut self, stmt: Stmt)
        ensures
            final(self).stmts@ == old(self).stmts@.push(stmt),
            final(self).name == old(self).name,
            final(self).args == old(self).args,
    {
        self.stmts.push(stmt);
    }

    /// Pairs each end of a loop with its loop. The result is the partner of
    /// each statement that has one or, where an end of a loop has no loop,
    /// the position of the first such end.
    pub fn build_loop_table(&self) -> (r: Result<Vec<Option<usize>>, usize>)
        ensures
            match r {
                Ok(table) => loop_table(kinds_of(self.stmts@)) == Ok::<Seq<Option<usize>>, usize>(
                    table@,
                ) && table_fits(table@, self.stmts@.len()) && pairs_loops(
                    kinds_of(self.stmts@),
                    table@,
                ),
                Err(at) => loop_table(kinds_of(self.stmts@)) == Err::<Seq<Option<usize>>, usize>(
                    at,
                ) && at < self.stmts@.len() && self.stmts@[at as int].kind == StmtKind::EndLoop
                    && depth(kinds_of(self.stmts@), at as int) == 0,
            },
            r is Err <==> has_unpaired_end(kinds_of(self.stmts@)),
    {
        let ghost kinds = kinds_of(self.stmts@);
        let n = self.stmts.len();
        let mut table: Vec<Option<usize>> = Vec::new();
        let mut k: usize = 0;
        while k < n
            invariant
                k <= n,
                table@.len() == k,
                forall|i: int| 0 <= i < k ==> (#[trigger] table@[i]) is None,
            decreases n - k,
        {
            table.push(None);
            k += 1;
        }
        assert(table@ =~= Seq::new(kinds.len(), |i: int| None::<usize>));
        let mut open: Vec<usize> = Vec::new();
        let mut i: usize = 0;
        while i < n
            invariant
                i <= n,
                n == self.stmts@.len(),
                kinds == kinds_of(self.stmts@),
                pair_loops(kinds, i as nat) == Ok::<Pairing, usize>(
                    Pairing { open: open@, table: table@ },
                ),
                table_fits(table@, n as nat),
                forall|j: int| 0 <= j < open@.len() ==> (#[trigger] open@[j]) < i,
            decreases n - i,
        {
            match self.stmts[i].kind {
                StmtKind::Loop => {
                    open.push(i);
                },
                StmtKind::EndLoop => {
                    match open.pop() {
                        Some(begin) => {
                            table.set(begin, Some(i));
                            table.set(i, Some(begin));
                        },
                        None => {
                            proof {
                                lemma_pair_loops_fault(kinds, (i + 1) as nat, n as nat);
                                lemma_fault_is_first_unpaired_end(kinds);
                            }
                            return Err(i);
                        },
                    }
                },
                _ => {},
            }
            i += 1;
        }
        proof {
            lemma_fault_is_first_unpaired_end(kinds);
            lemma_table_pairs_loops(kinds);
        }
        Ok(table)
    }

    /// The partner of the statement at `eip`: for a loop its end, for an end
    /// its loop.
    pub fn find_loop_pair(&self, table: &Vec<Option<usize>>, eip: usize) -> (r: Option<usize>)
        ensures
            r == (if eip < table@.len() {
                table@[eip as int]
            } else {
                None
            }),
    {
        if eip < table.len() {
            table[eip]
        } else {
            None
        }
    }

    /// Binds a local variable; `expr` is `name=value`.
    pub fn do_set_local(&self, expr: &str, locals: &mut VarBindingList, context: &mut Context)
        ensures
            (final(locals)@, final(context)@) == set_local_spec(
                expr@,
                old(locals)@,
                old(context)@,
            ),
            final(context).budget == old(context).budget,
    {
        let (name, value) = split_lr(expr, "=");
        if !name.is_empty() {
            locals.set_binding(name, value);
        } else {
            let text = join_text("Invalid set local: ", expr);
            context.log_error(text.as_str());
        }
    }

    /// Binds a global variable; `expr` is `name=value`.
    pub fn do_set_global(&self, expr: &str, context: &mut Context)
        ensures
            final(context)@ == set_global_spec(expr@, old(context)@),
            final(context).budget == old(context).budget,
    {
        let (name, value) = split_lr(expr, "=");
        if !name.is_empty() {
            context.globals.set_binding(name, value);
        } else {
            let text = join_text("Invalid set global: ", expr);
            context.log_error(text.as_str());
        }
    }

    /// The value of `x op y`, empty where there is none; the reason why there
    /// is none is reported.
    pub fn do_x_op_y(&self, op: &str, x: &str, y: &str, context: &mut Context) -> (r: String)
        ensures
            r@ == x_op_y_value(op@, x@, y@),
            final(context)@ == reported(old(context)@, x_op_y_report(op@, x@, y@)),
            final(context).budget == old(context).budget,
    {
        let (xl, xr) = split_lr(x, ":");
        let (yl, yr) = split_lr(y, ":");
        let ints = same_text(xl, "int") && same_text(yl, "int");
        if same_text(op, "+") {
            if ints {
                let a = int_of_payload(xr);
                let b = int_of_payload(yr);
                let sum = signed_to_string(a as i128 + b as i128);
                join_text("int:", sum.as_str())
            } else {
                let front = join_text("str:", xr);
                join_text(front.as_str(), yr)
            }
        } else if same_text(op, "-") || same_text(op, "*") {
            if ints {
                let a = int_of_payload(xr);
                let b = int_of_payload(yr);
                if same_text(op, "-") {
                    let difference = signed_to_string(a as i128 - b as i128);
                    join_text("int:", difference.as_str())
                } else {
                    assert(-0x4000_0000_0000_0000_0000_0000_0000_0000 <= (a as int) * (b as int)
                        <= 0x4000_0000_0000_0000_0000_0000_0000_0000) by (nonlinear_arith)
                        requires
                            -0x8000_0000_0000_0000 <= a as int <= 0x8000_0000_0000_0000,
                            -0x8000_0000_0000_0000 <= b as int <= 0x8000_0000_0000_0000,
                    ;
                    let product = signed_to_string(a as i128 * b as i128);
                    join_text("int:", product.as_str())
                }
            } else {
                let text = no_value_text(op, x, y);
                context.log_error(text.as_str());
                String::new()
            }
        } else if same_text(op, "/") {
            let text = no_value_text(op, x, y);
            context.log_error(text.as_str());
            String::new()
        } else {
            let text = join_text("Unsupported set var op: ", op);
            context.log_error(text.as_str());
            String::new()
        }
    }

    /// Carries out the assignment `name op1 value`.
    pub fn do_assign(
        &self,
        name: &str,
        op1: &str,
        value: &str,
        context: &mut Context,
        locals: &mut VarBindingList,
    )
        ensures
            (final(locals)@, final(context)@) == assign_spec(
                name@,
                op1@,
                value@,
                old(locals)@,
                old(context)@,
            ),
            final(context).budget == old(context).budget,
    {
        if same_text(op1, ":=") {
            context.globals.set_binding(name, value);
            return ;
        }
        if same_text(op1, "=") {
            locals.set_binding(name, value);
            return ;
        }
        let cs = chars_of(op1);
        if cs.len() > 0 && cs[cs.len() - 1] == '=' {
            let op = op1.substring_char(0, cs.len() - 1);
            let before: String = match locals.eval_var(name, Some(&context.globals), None) {
                Some(v) => v,
                None => String::new(),
            };
            let in_locals = locals.contains(name);
            let in_globals = context.globals.contains(name);
            let after = self.do_x_op_y(op, before.as_str(), value, context);
            if in_locals {
                locals.set_binding(name, after.as_str());
            } else if in_globals {
                context.globals.set_binding(name, after.as_str());
            } else {
                let text = join_text("Assign to undefined var: ", name);
                context.log_error(text.as_str());
            }
        }
    }

    /// Carries out an assignment statement: its operands and operators are
    /// the arguments of `stmt`.
    pub fn do_set_var(&self, stmt: &Stmt, context: &mut Context, locals: &mut VarBindingList)
        ensures
            (final(locals)@, final(context)@) == set_var_spec(
                stmt.args@,
                old(locals)@,
                old(context)@,
            ),
            final(context).budget == old(context).budget,
    {
        let varname = stmt.args.eval_var("$varname", Some(&*locals), Some(&context.globals));
        let op1 = stmt.args.eval_var("$op1", Some(&*locals), Some(&context.globals));
        let operand1 = stmt.args.eval_var("$operand1", Some(&*locals), Some(&context.globals));
        let op2 = stmt.args.eval_var("$op2", Some(&*locals), Some(&context.globals));
        let operand2 = stmt.args.eval_var("$operand2", Some(&*locals), Some(&context.globals));
        match (varname, op1, operand1) {
            (Some(name), Some(op1), Some(operand1)) => {
                match (op2, operand2) {
                    (Some(op2), Some(operand2)) => {
                        let value = self.do_x_op_y(
                            op2.as_str(),
                            operand1.as_str(),
                            operand2.as_str(),
                            context,
                        );
                        self.do_assign(name.as_str(), op1.as_str(), value.as_str(), context, locals);
                    },
                    (None, None) => {
                        self.do_assign(
                            name.as_str(),
                            op1.as_str(),
                            operand1.as_str(),
                            context,
                            locals,
                        );
                    },
                    _ => {
                        context.log_error("Both $op2 and $operand2 are required");
                    },
                }
            },
            _ => {
                context.log_error("Set var requires named args at least: varname, op1, operand1");
            },
        }
    }
}

/// The scope that an optional store stands for, if there is a store.
pub open spec fn scope_opt(store: Option<VarBindingList>) -> Option<Scope> {
    match store {
        Some(s) => Some(s@),
        None => None,
    }
}

/// The state of one call.
pub struct Activation {
    /// The position of the statement that runs next.
    pub eip: usize,
    /// The local variables.
    pub locals: VarBindingList,
    /// For each statement, the run-time arguments of the loop that it begins,
    /// while that loop is at work.
    pub scratch: Vec<Option<VarBindingList>>,
    /// The result of the last call that a statement made.
    pub result: Result<(), String>,
}

impl View for Activation {
    type V = Frame;

    open spec fn view(&self) -> Frame {
        Frame {
            pc: self.eip as int,
            locals: self.locals@,
            scratch: self.scratch@.map_values(|s: Option<VarBindingList>| scope_opt(s)),
            result: result_view(self.result),
        }
    }
}

impl Activation {
    /// The state at the start of a call of a function of `n` statements with
    /// the arguments `args`.
    pub fn new(args: &VarBindingList, n: usize) -> (r: Activation)
        ensures
            r@ == (Frame {
                pc: 0,
                locals: args@,
                scratch: Seq::new(n as nat, |i: int| None::<Scope>),
                result: Ok(()),
            }),
            r.scratch@.len() == n,
    {
        let mut locals = VarBindingList::new();
        locals.add_more(args);
        let mut scratch: Vec<Option<VarBindingList>> = Vec::new();
        let mut k: usize = 0;
        while k < n
            invariant
                k <= n,
                scratch@.len() == k,
                forall|i: int| 0 <= i < k ==> (#[trigger] scratch@[i]) is None,
            decreases n - k,
        {
            scratch.push(None);
            k += 1;
        }
        let r = Activation { eip: 0, locals, scratch, result: Ok(()) };
        r
    }
}

/// Reads the number that `name` stands for among the run-time arguments of
/// a loop.
fn read_counter(scratch: &VarBindingList, name: &str) -> (r: Option<u32>)
    ensures
        match r {
            Some(n) => counter(scratch@, name@) == Some(n as nat),
            None => counter(scratch@, name@) is None,
        },
{
    match scratch.eval_var(name, None, None) {
        None => Some(0),
        Some(text) => match parse_up_to(text.as_str(), 0xffff_ffff) {
            Some(n) => Some(n as u32),
            None => None,
        },
    }
}

/// How a call ended and what it left behind.
pub open spec fn completion_of(outcome: Outcome, context: &Context) -> Completion {
    Completion {
        result: result_view(outcome.result),
        aborted: outcome.aborted,
        ctx: context@,
        used: outcome.used as nat,
    }
}

/// What a statement led to, and the state that it left behind.
pub open spec fn step_of(stepped: Stepped, frame: &Activation, context: &Context) -> Step {
    match stepped {
        Stepped::Finish(o) => Step::Finish(completion_of(o, context)),
        Stepped::Continue(used) => Step::Continue(frame@, context@, used as nat),
    }
}

/// The statements that a step executed in the calls that it made.
pub open spec fn used_by(stepped: Stepped) -> nat {
    match stepped {
        Stepped::Finish(o) => o.used as nat,
        Stepped::Continue(used) => used as nat,
    }
}

/// Ends the run by a fatal error.
fn abort(context: &mut Context, text: &str) -> (r: Outcome)
    ensures
        completion_of(r, final(context)) == fatal(old(context)@, text@),
        final(context).budget == old(context).budget,
{
    context.log_fatal(text);
    Outcome { result: Err(String::from_str(text)), aborted: true, used: 0 }
}

/// Ends a call by an error that the run survives.
fn fail(context: &mut Context, text: &str) -> (r: Outcome)
    ensures
        completion_of(r, final(context)) == failed(old(context)@, text@),
        final(context).budget == old(context).budget,
{
    context.log_error(text);
    Outcome { result: Err(String::from_str(text)), aborted: false, used: 0 }
}

/// Goes on after a call that a statement made.
fn finish_call(outcome: Outcome, frame: &mut Activation, context: &Context) -> (r: Stepped)
    requires
        old(frame).eip < usize::MAX,
    ensures
        step_of(r, final(frame), context) == after_call(
            completion_of(outcome, context),
            old(frame)@,
        ),
        used_by(r) == outcome.used,
        final(frame).scratch == old(frame).scratch,
{
    if outcome.aborted {
        return Stepped::Finish(outcome);
    }
    frame.result = outcome.result;
    frame.eip = frame.eip + 1;
    Stepped::Continue(outcome.used)
}

/// Runs the statement that begins a loop; `args` are its arguments and `pair`
/// is the position of the end of the loop.
fn do_loop(
    args: &VarBindingList,
    pair: Option<usize>,
    frame: &mut Activation,
    context: &mut Context,
) -> (r: Stepped)
    requires
        old(frame).eip < old(frame).scratch@.len(),
        old(frame).eip < usize::MAX,
        pair matches Some(end) ==> end < usize::MAX,
    ensures
        step_of(r, final(frame), final(context)) == loop_spec(
            args@,
            pair,
            old(frame)@,
            old(context)@,
        ),
        used_by(r) == 0,
        final(frame).scratch@.len() == old(frame).scratch@.len(),
        final(context).budget == old(context).budget,
{
    let eip = frame.eip;
    let mut scratch: VarBindingList = match &frame.scratch[eip] {
        Some(s) => s.clone(),
        None => {
            let mut s = VarBindingList::new();
            s.add_more(args);
            s.set_binding("$index", "0");
            s
        },
    };
    assert(scratch@ == loop_scratch(args@, old(frame)@.scratch[eip as int]));
    let index = read_counter(&scratch, "$index");
    let count = read_counter(&scratch, "$count");
    match (index, count) {
        (Some(index), Some(count)) => {
            if index < count {
                let text = unsigned_to_string((index + 1) as u128);
                scratch.set_binding("$index", text.as_str());
                proof {
                    crate::number::lemma_nat_to_text_digits((index + 1) as nat);
                }
                frame.scratch.set(eip, Some(scratch));
                frame.eip = eip + 1;
                Stepped::Continue(0)
            } else {
                match pair {
                    Some(end) => {
                        frame.scratch.set(eip, None);
                        frame.eip = end + 1;
                        Stepped::Continue(0)
                    },
                    None => Stepped::Finish(abort(context, "Loop without endloop")),
                }
            }
        },
        _ => Stepped::Finish(abort(context, "Loop counter is no number")),
    }
}

/// Runs the statement that ends a loop; `pair` is the position of the
/// statement that begins it.
fn do_end_loop(pair: Option<usize>, frame: &mut Activation, context: &mut Context) -> (r: Stepped)
    ensures
        step_of(r, final(frame), final(context)) == end_loop_spec(
            pair,
            old(frame)@,
            old(context)@,
        ),
        used_by(r) == 0,
        final(frame).scratch == old(frame).scratch,
        final(context).budget == old(context).budget,
{
    match pair {
        Some(begin) => {
            frame.eip = begin;
            Stepped::Continue(0)
        },
        None => Stepped::Finish(abort(context, "Endloop without loop")),
    }
}

/// Runs a return statement.
fn do_return(stmt: &Stmt, frame: &mut Activation, context: &mut Context) -> (r: Outcome)
    ensures
        Step::Finish(completion_of(r, final(context))) == return_spec(
            stmt.args@,
            stmt.content@,
            old(frame)@,
            old(context)@,
        ),
        r.used == 0,
        final(frame).scratch == old(frame).scratch,
        final(context).budget == old(context).budget,
{
    let value = stmt.args.eval(stmt.content.as_str(), Some(&frame.locals), Some(&context.globals));
    let text: String = match value {
        Some(v) => v,
        None => String::new(),
    };
    context.globals.set_binding("$return", text.as_str());
    let mut result: Result<(), String> = Ok(());
    std::mem::swap(&mut result, &mut frame.result);
    Outcome { result, aborted: false, used: 0 }
}

/// Calls the instruction `name` with `args`: emits its frame.
pub fn call_ins(engine: &Engine, name: &str, args: &VarBindingList, context: &mut Context) -> (r:
    Outcome)
    ensures
        completion_of(r, final(context)) == call_ins_spec(
            engine.inss@,
            name@,
            args@,
            old(context)@,
        ),
        r.used == 0,
        final(context).budget == old(context).budget,
{
    match engine.find_ins(name) {
        None => {
            let text = join_text("No such instruction: ", name);
            fail(context, text.as_str())
        },
        Some(def) => match def.encode(args) {
            Ok(frame) => {
                context.emit(frame);
                Outcome { result: Ok(()), aborted: false, used: 0 }
            },
            Err(e) => {
                let text = e.message(&def.args);
                abort(context, text.as_str())
            },
        },
    }
}

/// Calls the function `name` with `args`, with a budget of `budget`
/// statements.
pub fn call_fn(
    engine: &Engine,
    name: &str,
    args: &VarBindingList,
    context: &mut Context,
    budget: u64,
) -> (r: Outcome)
    ensures
        completion_of(r, final(context)) == call_fn_spec(
            engine.fns@,
            engine.inss@,
            name@,
            args@,
            old(context)@,
            budget as nat,
        ),
        r.used <= budget,
        final(context).budget == old(context).budget,
    decreases budget, 2int,
{
    match engine.find_fn(name) {
        None => {
            let text = join_text("No such fn: ", name);
            fail(context, text.as_str())
        },
        Some(def) => def.run(args, context, engine, budget),
    }
}

impl FnDef {
    /// Runs the function with `args`, with a budget of `budget` statements.
    pub fn run(
        &self,
        args: &VarBindingList,
        context: &mut Context,
        engine: &Engine,
        budget: u64,
    ) -> (r: Outcome)
        ensures
            completion_of(r, final(context)) == run_fn_spec(
                engine.fns@,
                engine.inss@,
                self.name@,
                self.stmts@,
                args@,
                old(context)@,
                budget as nat,
            ),
            r.used <= budget,
            final(context).budget == old(context).budget,
        decreases budget, 1int,
    {
        let table = match self.build_loop_table() {
            Ok(table) => table,
            Err(at) => {
                let line = unsigned_to_string(at as u128);
                let a = join_text("Unpaired endloop in function: ", self.name.as_str());
                let b = join_text(a.as_str(), " line: ");
                let text = join_text(b.as_str(), line.as_str());
                return abort(context, text.as_str());
            },
        };
        context.globals.remove_binding("$return");
        let mut frame = Activation::new(args, self.stmts.len());
        let mut left: u64 = budget;
        let ghost ctx0 = context@;
        let ghost frame0 = frame@;
        loop
            invariant
                table_fits(table@, self.stmts@.len()),
                frame.scratch@.len() == self.stmts@.len(),
                left <= budget,
                context.budget == old(context).budget,
                run_fn_spec(
                    engine.fns@,
                    engine.inss@,
                    self.name@,
                    self.stmts@,
                    args@,
                    old(context)@,
                    budget as nat,
                ) == run_stmts_spec(
                    engine.fns@,
                    engine.inss@,
                    self.stmts@,
                    table@,
                    frame0,
                    ctx0,
                    budget as nat,
                ),
                run_stmts_spec(
                    engine.fns@,
                    engine.inss@,
                    self.stmts@,
                    table@,
                    frame0,
                    ctx0,
                    budget as nat,
                ) == run_stmts_spec(
                    engine.fns@,
                    engine.inss@,
                    self.stmts@,
                    table@,
                    frame@,
                    context@,
                    left as nat,
                ).plus((budget - left) as nat),
            decreases left,
        {
            if frame.eip >= self.stmts.len() {
                return Outcome { result: frame.result, aborted: false, used: budget - left };
            }
            if left == 0 {
                let ended = abort(context, "Statement budget used up");
                return Outcome { result: ended.result, aborted: true, used: budget };
            }
            match self.step(engine, &table, &mut frame, context, left - 1) {
                Stepped::Finish(ended) => {
                    return Outcome {
                        result: ended.result,
                        aborted: ended.aborted,
                        used: budget - left + 1 + ended.used,
                    };
                },
                Stepped::Continue(used) => {
                    left = left - 1 - used;
                },
            }
        }
    }

    /// Runs the statement at `frame.eip`, with `budget` left for the call
    /// that it makes.
    pub fn step(
        &self,
        engine: &Engine,
        table: &Vec<Option<usize>>,
        frame: &mut Activation,
        context: &mut Context,
        budget: u64,
    ) -> (r: Stepped)
        requires
            old(frame).eip < self.stmts@.len(),
            old(frame).scratch@.len() == self.stmts@.len(),
            table_fits(table@, self.stmts@.len()),
        ensures
            step_spec(
                engine.fns@,
                engine.inss@,
                self.stmts@,
                table@,
                old(frame)@,
                old(context)@,
                budget as nat,
            ) == step_of(r, final(frame), final(context)),
            used_by(r) <= budget,
            final(frame).scratch@.len() == self.stmts@.len(),
            final(context).budget == old(context).budget,
        decreases budget, 3int,
    {
        let eip = frame.eip;
        assert(eip < self.stmts.len());
        let stmt = &self.stmts[eip];
        match stmt.kind {
            StmtKind::CallIns => {
                let outcome = call_ins(engine, stmt.content.as_str(), &stmt.args, context);
                finish_call(outcome, frame, context)
            },
            StmtKind::CallFn => {
                let outcome = call_fn(engine, stmt.content.as_str(), &stmt.args, context, budget);
                finish_call(outcome, frame, context)
            },
            StmtKind::Loop => {
                let pair = self.find_loop_pair(table, eip);
                do_loop(&stmt.args, pair, frame, context)
            },
            StmtKind::EndLoop => {
                let pair = self.find_loop_pair(table, eip);
                do_end_loop(pair, frame, context)
            },
            StmtKind::Return => Stepped::Finish(do_return(stmt, frame, context)),
            StmtKind::SetVar => {
                self.do_set_var(stmt, context, &mut frame.locals);
                frame.eip = eip + 1;
                Stepped::Continue(0)
            },
            StmtKind::SetLocal => {
                self.do_set_local(stmt.content.as_str(), &mut frame.locals, context);
                frame.eip = eip + 1;
                Stepped::Continue(0)
            },
            StmtKind::SetGlobal => {
                self.do_set_global(stmt.content.as_str(), context);
                frame.eip = eip + 1;
                Stepped::Continue(0)
            },
        }
    }

    /// Runs the function with `args` in `context`: the statements from the
    /// first on, until the position runs past the last or a statement returns.
    /// The result is that of the last call that a statement made.
    pub fn exec(&self, args: &VarBindingList, context: &mut Context, engine: &Engine) -> (r:
        Result<(), String>)
        ensures
            ({
                let c = run_fn_spec(
                    engine.fns@,
                    engine.inss@,
                    self.name@,
                    self.stmts@,
                    args@,
                    old(context)@,
                    old(context).budget as nat,
                );
                &&& result_view(r) == c.result
                &&& final(context)@ == c.ctx
            }),
            has_unpaired_end(kinds_of(self.stmts@)) ==> {
                &&& r is Err
                &&& final(context)@.globals == old(context)@.globals
                &&& final(context)@.frames == old(context)@.frames
            },
            final(context).budget == old(context).budget,
    {
        proof {
            assert(self.stmts@.len() == self.stmts.len());
            lemma_fault_is_first_unpaired_end(kinds_of(self.stmts@));
        }
        let budget = context.budget;
        self.run(args, context, engine, budget).result
    }
}

} // verus!
