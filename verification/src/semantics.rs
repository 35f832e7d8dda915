//! What a run does: the meaning of statements, calls and runs, as functions
//! of the state before them.
//!
//! `step_spec` says what one statement does to the frame of its call and to
//! the context, `run_stmts_spec` repeats it until the call ends, and
//! `call_fn_spec` says what a call by name does.

use vstd::prelude::*;
use crate::engine::{ContextView, Severity};
use crate::function::FnDef;
use crate::instruction::{encode_frame, encode_message, InstDef};
use crate::loops::{kinds_of, loop_table};
use crate::number::{int_to_text, nat_to_text, parse_at_most, parse_i64_spec};
use crate::statement::{Stmt, StmtKind};
use crate::utils::split_lr_spec;
use crate::variable::{bind, eval_spec, hops_in, payload_of, resolve, tag_of, Scope};

verus! {

/// How a call ended and what it left behind, as the contracts see it.
#[verifier::ext_equal]
pub ghost struct Completion {
    pub result: Result<(), Seq<char>>,
    pub aborted: bool,
    pub ctx: ContextView,
    /// How many statements the call executed, those of the calls that it
    /// made among them.
    pub used: nat,
}

impl Completion {
    /// The same end after `more` further statements.
    pub open spec fn plus(self, more: nat) -> Completion {
        Completion { used: self.used + more, ..self }
    }
}

/// The state of one call, as the contracts see it.
#[verifier::ext_equal]
pub ghost struct Frame {
    /// The position of the statement that runs next.
    pub pc: int,
    /// The local variables.
    pub locals: Scope,
    /// For each statement, the run-time arguments of the loop that it begins,
    /// while that loop is at work.
    pub scratch: Seq<Option<Scope>>,
    /// The result of the last call that a statement made.
    pub result: Result<(), Seq<char>>,
}

/// What one statement leads to: the call goes on, or it ends. Where it goes
/// on, the number is that of the statements that a call by the statement
/// executed.
#[verifier::ext_equal]
pub ghost enum Step {
    Continue(Frame, ContextView, nat),
    Finish(Completion),
}

pub open spec fn result_view(r: Result<(), String>) -> Result<(), Seq<char>> {
    match r {
        Ok(()) => Ok(()),
        Err(e) => Err(e@),
    }
}

/// The end of a run by a fatal error: the error is logged and is the result.
pub open spec fn fatal(ctx: ContextView, text: Seq<char>) -> Completion {
    Completion {
        result: Err(text),
        aborted: true,
        ctx: ctx.logged(Severity::Fatal, text),
        used: 0,
    }
}

/// The end of a call by an error that the run survives.
pub open spec fn failed(ctx: ContextView, text: Seq<char>) -> Completion {
    Completion {
        result: Err(text),
        aborted: false,
        ctx: ctx.logged(Severity::Error, text),
        used: 0,
    }
}

// ----------------------------------------------------------------------
// What is reported
// ----------------------------------------------------------------------
pub open spec fn msg_no_such_fn(name: Seq<char>) -> Seq<char> {
    "No such fn: "@ + name
}

pub open spec fn msg_no_such_ins(name: Seq<char>) -> Seq<char> {
    "No such instruction: "@ + name
}

pub open spec fn msg_unpaired(name: Seq<char>, line: nat) -> Seq<char> {
    "Unpaired endloop in function: "@ + name + " line: "@ + nat_to_text(line)
}

pub open spec fn msg_invalid_set_local(expr: Seq<char>) -> Seq<char> {
    "Invalid set local: "@ + expr
}

pub open spec fn msg_invalid_set_global(expr: Seq<char>) -> Seq<char> {
    "Invalid set global: "@ + expr
}

pub open spec fn msg_set_var_args() -> Seq<char> {
    "Set var requires named args at least: varname, op1, operand1"@
}

pub open spec fn msg_set_var_pair() -> Seq<char> {
    "Both $op2 and $operand2 are required"@
}

pub open spec fn msg_undefined(name: Seq<char>) -> Seq<char> {
    "Assign to undefined var: "@ + name
}

pub open spec fn msg_unsupported_op(op: Seq<char>) -> Seq<char> {
    "Unsupported set var op: "@ + op
}

pub open spec fn msg_no_value(op: Seq<char>, x: Seq<char>, y: Seq<char>) -> Seq<char> {
    "No value for: "@ + x + " "@ + op + " "@ + y
}

pub open spec fn msg_budget() -> Seq<char> {
    "Statement budget used up"@
}

pub open spec fn msg_counter() -> Seq<char> {
    "Loop counter is no number"@
}

pub open spec fn msg_no_end() -> Seq<char> {
    "Loop without endloop"@
}

pub open spec fn msg_no_begin() -> Seq<char> {
    "Endloop without loop"@
}

// ----------------------------------------------------------------------
// Arithmetic on tagged values
// ----------------------------------------------------------------------
pub open spec fn is_int(value: Seq<char>) -> bool {
    tag_of(value) == "int"@
}

/// The number that an operand tagged `int` stands for: what its payload
/// denotes, and zero where that is no number of 64 bits.
pub open spec fn int_of(value: Seq<char>) -> int {
    match parse_i64_spec(payload_of(value)) {
        Some(n) => n,
        None => 0,
    }
}

/// The value of `x op y`; empty where there is none. `+` adds two operands
/// tagged `int` and joins the payloads of any others under the tag `str`;
/// `-` and `*` have a value for two operands tagged `int` only. Division has
/// no value here.
pub open spec fn x_op_y_value(op: Seq<char>, x: Seq<char>, y: Seq<char>) -> Seq<char> {
    if op == "+"@ {
        if is_int(x) && is_int(y) {
            "int:"@ + int_to_text(int_of(x) + int_of(y))
        } else {
            "str:"@ + payload_of(x) + payload_of(y)
        }
    } else if op == "-"@ {
        if is_int(x) && is_int(y) {
            "int:"@ + int_to_text(int_of(x) - int_of(y))
        } else {
            Seq::<char>::empty()
        }
    } else if op == "*"@ {
        if is_int(x) && is_int(y) {
            "int:"@ + int_to_text(int_of(x) * int_of(y))
        } else {
            Seq::<char>::empty()
        }
    } else {
        Seq::<char>::empty()
    }
}

/// What is reported of `x op y`: nothing where it has a value, and the
/// reason where it has none.
pub open spec fn x_op_y_report(op: Seq<char>, x: Seq<char>, y: Seq<char>) -> Option<Seq<char>> {
    if op == "+"@ {
        None
    } else if op == "-"@ || op == "*"@ {
        if is_int(x) && is_int(y) {
            None
        } else {
            Some(msg_no_value(op, x, y))
        }
    } else if op == "/"@ {
        Some(msg_no_value(op, x, y))
    } else {
        Some(msg_unsupported_op(op))
    }
}

/// The context after an error was reported, if there was one.
pub open spec fn reported(ctx: ContextView, report: Option<Seq<char>>) -> ContextView {
    match report {
        Some(text) => ctx.logged(Severity::Error, text),
        None => ctx,
    }
}

// ----------------------------------------------------------------------
// Assignments
// ----------------------------------------------------------------------
/// What `name=value` in `expr` does to the local variables: it binds `name`
/// to `value`. Without a name nothing is bound and an error is reported.
pub open spec fn set_local_spec(expr: Seq<char>, locals: Scope, ctx: ContextView) -> (
    Scope,
    ContextView,
) {
    let (name, value) = split_lr_spec(expr, "="@);
    if name.len() > 0 {
        (bind(locals, name, value), ctx)
    } else {
        (locals, ctx.logged(Severity::Error, msg_invalid_set_local(expr)))
    }
}

/// What `name=value` in `expr` does to the global variables.
pub open spec fn set_global_spec(expr: Seq<char>, ctx: ContextView) -> ContextView {
    let (name, value) = split_lr_spec(expr, "="@);
    if name.len() > 0 {
        ctx.with_globals(bind(ctx.globals, name, value))
    } else {
        ctx.logged(Severity::Error, msg_invalid_set_global(expr))
    }
}

/// The text of an optional value; empty for none.
pub open spec fn or_empty(value: Option<Seq<char>>) -> Seq<char> {
    match value {
        Some(v) => v,
        None => Seq::<char>::empty(),
    }
}

/// What the assignment `name op1 value` does. `:=` binds a global variable
/// and `=` a local one. Any other operator that ends in `=` combines the
/// value that `name` has, looked up in the local and then in the global
/// variables, with `value`, and binds the result where `name` is bound: in
/// the local variables or else in the global ones. Where it is bound in
/// neither, an error is reported and nothing is bound.
pub open spec fn assign_spec(
    name: Seq<char>,
    op1: Seq<char>,
    value: Seq<char>,
    locals: Scope,
    ctx: ContextView,
) -> (Scope, ContextView) {
    if op1 == ":="@ {
        (locals, ctx.with_globals(bind(ctx.globals, name, value)))
    } else if op1 == "="@ {
        (bind(locals, name, value), ctx)
    } else if op1.len() > 0 && op1.last() == '=' {
        let op = op1.drop_last();
        let none = Map::<Seq<char>, Seq<char>>::empty();
        let before = or_empty(
            resolve(locals, ctx.globals, none, name, hops_in(locals, ctx.globals, none)),
        );
        let after = x_op_y_value(op, before, value);
        let ctx1 = reported(ctx, x_op_y_report(op, before, value));
        if locals.contains_key(name) {
            (bind(locals, name, after), ctx1)
        } else if ctx.globals.contains_key(name) {
            (locals, ctx1.with_globals(bind(ctx.globals, name, after)))
        } else {
            (locals, ctx1.logged(Severity::Error, msg_undefined(name)))
        }
    } else {
        (locals, ctx)
    }
}

/// What an assignment statement with the arguments `args` does. The name of
/// the variable, the operator and the first operand are the values of
/// `$varname`, `$op1` and `$operand1`, each resolved through the arguments,
/// the local and the global variables; without one of them an error is
/// reported and nothing else happens. `$op2` and `$operand2` come together
/// or not at all: with both, the value assigned is `operand1 op2 operand2`;
/// with neither, it is the first operand; with one of them only, an error
/// is reported and nothing else happens.
pub open spec fn set_var_spec(args: Scope, locals: Scope, ctx: ContextView) -> (
    Scope,
    ContextView,
) {
    let hops = hops_in(args, locals, ctx.globals);
    let varname = resolve(args, locals, ctx.globals, "$varname"@, hops);
    let op1 = resolve(args, locals, ctx.globals, "$op1"@, hops);
    let operand1 = resolve(args, locals, ctx.globals, "$operand1"@, hops);
    let op2 = resolve(args, locals, ctx.globals, "$op2"@, hops);
    let operand2 = resolve(args, locals, ctx.globals, "$operand2"@, hops);
    if varname is None || op1 is None || operand1 is None {
        (locals, ctx.logged(Severity::Error, msg_set_var_args()))
    } else if op2 is Some && operand2 is Some {
        assign_spec(
            varname->0,
            op1->0,
            x_op_y_value(op2->0, operand1->0, operand2->0),
            locals,
            reported(ctx, x_op_y_report(op2->0, operand1->0, operand2->0)),
        )
    } else if op2 is Some || operand2 is Some {
        (locals, ctx.logged(Severity::Error, msg_set_var_pair()))
    } else {
        assign_spec(varname->0, op1->0, operand1->0, locals, ctx)
    }
}

// ----------------------------------------------------------------------
// Statements, calls and runs
// ----------------------------------------------------------------------
/// The run-time arguments of a loop when its statement is reached: those it
/// has while it is at work, and on entry the arguments of the statement with
/// the index zero.
pub open spec fn loop_scratch(args: Scope, slot: Option<Scope>) -> Scope {
    match slot {
        Some(scratch) => scratch,
        None => bind(args, "$index"@, "0"@),
    }
}

/// The number that `name` stands for among the run-time arguments of a loop:
/// zero where it has no value, and nothing where its value is no number of
/// 32 bits.
pub open spec fn counter(scratch: Scope, name: Seq<char>) -> Option<nat> {
    let none = Map::<Seq<char>, Seq<char>>::empty();
    match resolve(scratch, none, none, name, hops_in(scratch, none, none)) {
        None => Some(0),
        Some(text) => parse_at_most(text, u32::MAX as nat),
    }
}

/// What a call of the instruction `name` with `args` does: it emits the
/// frame of the instruction. Without an instruction of that name the call
/// fails; an instruction that cannot be encoded ends the run.
pub open spec fn call_ins_spec(
    inss: Map<Seq<char>, InstDef>,
    name: Seq<char>,
    args: Scope,
    ctx: ContextView,
) -> Completion {
    if !inss.contains_key(name) {
        failed(ctx, msg_no_such_ins(name))
    } else {
        match encode_frame(inss[name].args.defs@, args) {
            Ok(frame) => Completion {
                result: Ok(()),
                aborted: false,
                ctx: ctx.emitted(frame),
                used: 0,
            },
            Err(e) => fatal(ctx, encode_message(e, inss[name].args.defs@)),
        }
    }
}

/// What follows a call that a statement made: after a fatal error the run
/// ends; otherwise the result of the call is kept and the next statement runs.
pub open spec fn after_call(c: Completion, frame: Frame) -> Step {
    if c.aborted {
        Step::Finish(c)
    } else {
        Step::Continue(Frame { pc: frame.pc + 1, result: c.result, ..frame }, c.ctx, c.used)
    }
}

/// What the statement that begins a loop does; `args` are its arguments and
/// `pair` is the position of the end of the loop. While the index is below
/// the count, the index goes up by one and the body runs. After that the
/// run-time arguments are dropped and the statement after the end of the
/// loop runs.
pub open spec fn loop_spec(args: Scope, pair: Option<usize>, frame: Frame, ctx: ContextView) -> Step {
    let scratch = loop_scratch(args, frame.scratch[frame.pc]);
    match (counter(scratch, "$index"@), counter(scratch, "$count"@)) {
        (Some(index), Some(count)) => if index < count {
            Step::Continue(
                Frame {
                    pc: frame.pc + 1,
                    scratch: frame.scratch.update(
                        frame.pc,
                        Some(bind(scratch, "$index"@, nat_to_text(index + 1))),
                    ),
                    ..frame
                },
                ctx,
                0,
            )
        } else {
            match pair {
                Some(end) => Step::Continue(
                    Frame { pc: end + 1, scratch: frame.scratch.update(frame.pc, None), ..frame },
                    ctx,
                    0,
                ),
                None => Step::Finish(fatal(ctx, msg_no_end())),
            }
        },
        _ => Step::Finish(fatal(ctx, msg_counter())),
    }
}

/// What the statement that ends a loop does: it goes back to the statement
/// that begins the loop, at the position `pair`.
pub open spec fn end_loop_spec(pair: Option<usize>, frame: Frame, ctx: ContextView) -> Step {
    match pair {
        Some(begin) => Step::Continue(Frame { pc: begin as int, ..frame }, ctx, 0),
        None => Step::Finish(fatal(ctx, msg_no_begin())),
    }
}

/// What a return statement does: the value of the expression `content`,
/// resolved through the arguments of the statement, the local and the global
/// variables, is bound to `$return` among the global variables, and the call
/// ends.
pub open spec fn return_spec(args: Scope, content: Seq<char>, frame: Frame, ctx: ContextView) -> Step {
    let value = eval_spec(
        args,
        frame.locals,
        ctx.globals,
        content,
        hops_in(args, frame.locals, ctx.globals),
    );
    Step::Finish(
        Completion {
            result: frame.result,
            aborted: false,
            ctx: ctx.with_globals(bind(ctx.globals, "$return"@, or_empty(value))),
            used: 0,
        },
    )
}

/// What a statement that changes the local variables and the context leads
/// to: the next statement runs.
pub open spec fn after_assignment(changed: (Scope, ContextView), frame: Frame) -> Step {
    Step::Continue(Frame { pc: frame.pc + 1, locals: changed.0, ..frame }, changed.1, 0)
}

/// The budget that is left of `budget` after one statement and the `used`
/// statements of a call that it made.
pub open spec fn budget_left(budget: nat, used: nat) -> nat {
    if used < budget {
        (budget - 1 - used) as nat
    } else {
        0
    }
}

/// What the statement at `frame.pc` does, with `budget` left for the call
/// that it makes.
pub open spec fn step_spec(
    fns: Map<Seq<char>, FnDef>,
    inss: Map<Seq<char>, InstDef>,
    stmts: Seq<Stmt>,
    table: Seq<Option<usize>>,
    frame: Frame,
    ctx: ContextView,
    budget: nat,
) -> Step
    decreases budget, 3int,
{
    let stmt = stmts[frame.pc];
    match stmt.kind {
        StmtKind::CallIns => after_call(
            call_ins_spec(inss, stmt.content@, stmt.args@, ctx),
            frame,
        ),
        StmtKind::CallFn => after_call(
            call_fn_spec(fns, inss, stmt.content@, stmt.args@, ctx, budget),
            frame,
        ),
        StmtKind::Loop => loop_spec(stmt.args@, table[frame.pc], frame, ctx),
        StmtKind::EndLoop => end_loop_spec(table[frame.pc], frame, ctx),
        StmtKind::Return => return_spec(stmt.args@, stmt.content@, frame, ctx),
        StmtKind::SetVar => after_assignment(set_var_spec(stmt.args@, frame.locals, ctx), frame),
        StmtKind::SetLocal => after_assignment(
            set_local_spec(stmt.content@, frame.locals, ctx),
            frame,
        ),
        StmtKind::SetGlobal => after_assignment(
            (frame.locals, set_global_spec(stmt.content@, ctx)),
            frame,
        ),
    }
}

/// What a call of the function `name` with `args` does, with a budget of
/// `budget` statements. Without a function of that name the call fails and
/// the run goes on.
pub open spec fn call_fn_spec(
    fns: Map<Seq<char>, FnDef>,
    inss: Map<Seq<char>, InstDef>,
    name: Seq<char>,
    args: Scope,
    ctx: ContextView,
    budget: nat,
) -> Completion
    decreases budget, 2int,
{
    if !fns.contains_key(name) {
        failed(ctx, msg_no_such_fn(name))
    } else {
        run_fn_spec(fns, inss, fns[name].name@, fns[name].stmts@, args, ctx, budget)
    }
}

/// What a run of the function `name` with the statements `stmts` does. An
/// end of a loop without a loop is found before any statement runs, and ends
/// the run. Otherwise the value returned by an earlier run is cleared, and
/// the statements run from the first on, with copies of the arguments for
/// local variables.
pub open spec fn run_fn_spec(
    fns: Map<Seq<char>, FnDef>,
    inss: Map<Seq<char>, InstDef>,
    name: Seq<char>,
    stmts: Seq<Stmt>,
    args: Scope,
    ctx: ContextView,
    budget: nat,
) -> Completion
    decreases budget, 1int,
{
    match loop_table(kinds_of(stmts)) {
        Err(at) => fatal(ctx, msg_unpaired(name, at as nat)),
        Ok(table) => run_stmts_spec(
            fns,
            inss,
            stmts,
            table,
            Frame {
                pc: 0,
                locals: args,
                scratch: Seq::new(stmts.len(), |i: int| None::<Scope>),
                result: Ok(()),
            },
            ctx.with_globals(ctx.globals.remove("$return"@)),
            budget,
        ),
    }
}

/// What the statements do from `frame.pc` on, with a budget of `budget`
/// statements. The call ends when the position runs past the last statement
/// or a statement ends it; with statements left and no budget, the run ends
/// by a fatal error. Each statement takes one from the budget, and a call
/// that it makes takes what the call executed.
pub open spec fn run_stmts_spec(
    fns: Map<Seq<char>, FnDef>,
    inss: Map<Seq<char>, InstDef>,
    stmts: Seq<Stmt>,
    table: Seq<Option<usize>>,
    frame: Frame,
    ctx: ContextView,
    budget: nat,
) -> Completion
    decreases budget, 0int,
{
    if frame.pc < 0 || frame.pc >= stmts.len() {
        Completion { result: frame.result, aborted: false, ctx, used: 0 }
    } else if budget == 0 {
        fatal(ctx, msg_budget())
    } else {
        match step_spec(fns, inss, stmts, table, frame, ctx, (budget - 1) as nat) {
            Step::Finish(c) => c.plus(1),
            Step::Continue(frame1, ctx1, used) => run_stmts_spec(
                fns,
                inss,
                stmts,
                table,
                frame1,
                ctx1,
                budget_left(budget, used),
            ).plus(1 + used),
        }
    }
}

} // verus!
