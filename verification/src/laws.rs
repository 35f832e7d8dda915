//! Laws that hold of every store, every function and every run.

use vstd::prelude::*;
use crate::engine::{ContextView, LogEntry, Severity};
use crate::function::FnDef;
use crate::instruction::{encode_frame, encode_message, InstDef, FRAME_SIZE};
use crate::loops::{
    depth, encloses, has_unpaired_end, kinds_of, lemma_fault_is_first_unpaired_end,
    lemma_table_pairs_loops, loop_table,
};
use crate::semantics::{
    assign_spec, budget_left, call_fn_spec, call_ins_spec, counter, int_of, is_int, loop_scratch, loop_spec,
    msg_budget, msg_counter, msg_invalid_set_global, msg_invalid_set_local, msg_no_such_fn,
    msg_no_such_ins,
    msg_set_var_args, msg_set_var_pair, msg_undefined,
    msg_no_begin, msg_no_end, reported, set_var_spec, x_op_y_report, x_op_y_value,
    fatal, msg_unpaired, or_empty, return_spec, run_fn_spec, run_stmts_spec, step_spec,
    Completion, Frame, Step,
};
use crate::statement::{Stmt, StmtKind};
use crate::number::{
    int_to_text, is_digit, lemma_nat_to_text_digits, lemma_parse_signed_of_text,
    lemma_parse_unsigned_of_text, nat_to_text,
};
use crate::variable::{
    bind, eval_spec, hops_in, is_var_ref, lemma_resolve_needs_no_more_hops, lemma_tagged,
    lemma_untagged, lookup, payload_of, resolve, Scope,
};

verus! {

/// Setting a name to the empty value leaves it unbound; setting it to any
/// other value binds it to that value; no other name is touched.
pub proof fn lemma_set_binding(scope: Scope, name: Seq<char>, value: Seq<char>, other: Seq<char>)
    ensures
        value.len() == 0 ==> !bind(scope, name, value).contains_key(name),
        value.len() == 0 && !scope.contains_key(name) ==> bind(scope, name, value) == scope,
        value.len() > 0 ==> bind(scope, name, value).contains_key(name) && bind(
            scope,
            name,
            value,
        )[name] == value,
        other != name ==> (bind(scope, name, value).contains_key(other) <==> scope.contains_key(
            other,
        )),
        other != name && scope.contains_key(other) ==> bind(scope, name, value)[other]
            == scope[other],
{
}

/// A name that an inner scope binds is looked up there, whatever the outer
/// scopes bind: the first scope shadows the second, and both the third.
pub proof fn lemma_inner_scope_shadows(s0: Scope, s1: Scope, s2: Scope, name: Seq<char>)
    ensures
        s0.contains_key(name) ==> lookup(s0, s1, s2, name) == Some(s0[name]),
        !s0.contains_key(name) && s1.contains_key(name) ==> lookup(s0, s1, s2, name) == Some(
            s1[name],
        ),
        !s0.contains_key(name) && !s1.contains_key(name) && s2.contains_key(name) ==> lookup(
            s0,
            s1,
            s2,
            name,
        ) == Some(s2[name]),
        !s0.contains_key(name) && !s1.contains_key(name) && !s2.contains_key(name) ==> resolve(
            s0,
            s1,
            s2,
            name,
            hops_in(s0, s1, s2),
        ) is None,
{
}

/// A name that is bound to a reference resolves to what the name referred to
/// resolves to, through all the scopes again: chains of references are
/// followed to their end.
pub proof fn lemma_reference_resolves_as_its_target(
    s0: Scope,
    s1: Scope,
    s2: Scope,
    name: Seq<char>,
)
    requires
        s0.dom().finite(),
        s1.dom().finite(),
        s2.dom().finite(),
        lookup(s0, s1, s2, name) matches Some(value) && is_var_ref(value),
    ensures
        resolve(s0, s1, s2, name, hops_in(s0, s1, s2)) == resolve(
            s0,
            s1,
            s2,
            payload_of(lookup(s0, s1, s2, name)->0),
            hops_in(s0, s1, s2),
        ),
{
    lemma_resolve_needs_no_more_hops(s0, s1, s2, name, hops_in(s0, s1, s2) + 1);
}

/// A function in which an end of a loop stands where no loop is open does
/// not run: before any statement is executed the run ends with a fatal
/// error, which names the function and the position of the first such end.
/// The variables and the frames stay as they were.
pub proof fn lemma_unpaired_end_ends_the_run(
    fns: Map<Seq<char>, FnDef>,
    inss: Map<Seq<char>, InstDef>,
    name: Seq<char>,
    stmts: Seq<Stmt>,
    args: Scope,
    ctx: ContextView,
    budget: nat,
)
    requires
        stmts.len() <= usize::MAX,
        has_unpaired_end(kinds_of(stmts)),
    ensures
        ({
            let c = run_fn_spec(fns, inss, name, stmts, args, ctx, budget);
            &&& loop_table(kinds_of(stmts)) matches Err(at) && c == fatal(
                ctx,
                msg_unpaired(name, at as nat),
            ) && stmts[at as int].kind == StmtKind::EndLoop && depth(kinds_of(stmts), at as int)
                == 0
            &&& c.aborted
            &&& c.result is Err
            &&& c.ctx.globals == ctx.globals
            &&& c.ctx.frames == ctx.frames
            &&& c.ctx.log == ctx.log.push(
                LogEntry { severity: Severity::Fatal, text: c.result->Err_0 },
            )
        }),
{
    lemma_fault_is_first_unpaired_end(kinds_of(stmts));
}

/// The statement that ends a loop leads back to the statement that begins
/// that very loop, and nowhere else.
pub proof fn lemma_end_loop_goes_back_to_its_loop(
    fns: Map<Seq<char>, FnDef>,
    inss: Map<Seq<char>, InstDef>,
    stmts: Seq<Stmt>,
    frame: Frame,
    ctx: ContextView,
    budget: nat,
)
    requires
        stmts.len() <= usize::MAX,
        loop_table(kinds_of(stmts)) is Ok,
        0 <= frame.pc < stmts.len(),
        stmts[frame.pc].kind == StmtKind::EndLoop,
    ensures
        ({
            let table = loop_table(kinds_of(stmts))->Ok_0;
            step_spec(fns, inss, stmts, table, frame, ctx, budget) matches Step::Continue(
                next,
                ctx1,
                used,
            ) && used == 0
                && ctx1 == ctx && encloses(kinds_of(stmts), next.pc, frame.pc) && next.locals
                == frame.locals && next.scratch == frame.scratch && next.result == frame.result
        }),
{
    let kinds = kinds_of(stmts);
    lemma_table_pairs_loops(kinds);
    let table = loop_table(kinds)->Ok_0;
}

/// The statement that begins a loop leads either to the next statement, the
/// first of the body, or past the end of that very loop; in a function whose
/// loop is never ended, to a fatal error; and nowhere else.
pub proof fn lemma_loop_goes_into_or_past_its_body(
    fns: Map<Seq<char>, FnDef>,
    inss: Map<Seq<char>, InstDef>,
    stmts: Seq<Stmt>,
    frame: Frame,
    ctx: ContextView,
    budget: nat,
)
    requires
        stmts.len() <= usize::MAX,
        loop_table(kinds_of(stmts)) is Ok,
        0 <= frame.pc < stmts.len(),
        stmts[frame.pc].kind == StmtKind::Loop,
    ensures
        ({
            let table = loop_table(kinds_of(stmts))->Ok_0;
            match step_spec(fns, inss, stmts, table, frame, ctx, budget) {
                Step::Continue(next, ctx1, used) => used == 0 && ctx1 == ctx && (next.pc
                    == frame.pc + 1 || encloses(
                    kinds_of(stmts),
                    frame.pc,
                    next.pc - 1,
                )),
                Step::Finish(c) => c.aborted,
            }
        }),
{
    let kinds = kinds_of(stmts);
    lemma_table_pairs_loops(kinds);
    let table = loop_table(kinds)->Ok_0;
    match table[frame.pc] {
        Some(j) => {
        },
        None => {},
    }
}

/// A return statement ends its call at once, whatever stands after it: the
/// value of its expression is bound to `$return` among the global variables,
/// and the result of the call is that of the last call that a statement made.
pub proof fn lemma_return_ends_the_call(
    fns: Map<Seq<char>, FnDef>,
    inss: Map<Seq<char>, InstDef>,
    stmts: Seq<Stmt>,
    table: Seq<Option<usize>>,
    frame: Frame,
    ctx: ContextView,
    budget: nat,
)
    requires
        0 <= frame.pc < stmts.len(),
        stmts[frame.pc].kind == StmtKind::Return,
        budget > 0,
    ensures
        run_stmts_spec(fns, inss, stmts, table, frame, ctx, budget) == (Completion {
            result: frame.result,
            aborted: false,
            used: 1,
            ctx: ctx.with_globals(
                bind(
                    ctx.globals,
                    "$return"@,
                    or_empty(
                        eval_spec(
                            stmts[frame.pc].args@,
                            frame.locals,
                            ctx.globals,
                            stmts[frame.pc].content@,
                            hops_in(stmts[frame.pc].args@, frame.locals, ctx.globals),
                        ),
                    ),
                ),
            ),
        }),
{
    let stmt = stmts[frame.pc];
    assert(step_spec(fns, inss, stmts, table, frame, ctx, (budget - 1) as nat) == return_spec(
        stmt.args@,
        stmt.content@,
        frame,
        ctx,
    ));
}

/// A run that finds no statement left ends its call with the result of the
/// last call that a statement made, and changes nothing.
pub proof fn lemma_past_the_end_ends_the_call(
    fns: Map<Seq<char>, FnDef>,
    inss: Map<Seq<char>, InstDef>,
    stmts: Seq<Stmt>,
    table: Seq<Option<usize>>,
    frame: Frame,
    ctx: ContextView,
    budget: nat,
)
    requires
        frame.pc >= stmts.len(),
    ensures
        run_stmts_spec(fns, inss, stmts, table, frame, ctx, budget) == (Completion {
            result: frame.result,
            aborted: false,
            ctx,
            used: 0,
        }),
{
}

/// The tagged value that stands for the number `n`.
pub open spec fn int_value(n: int) -> Seq<char> {
    "int:"@ + int_to_text(n)
}

/// What stands for a number of 64 bits is tagged `int` and stands for that
/// number.
pub proof fn lemma_int_value(n: int)
    requires
        i64::MIN <= n <= i64::MAX,
    ensures
        is_int(int_value(n)),
        int_of(int_value(n)) == n,
{
    reveal_strlit("int:");
    reveal_strlit("int");
    reveal_strlit(":");
    let tag = "int"@;
    assert(int_value(n) =~= tag + ":"@ + int_to_text(n));
    lemma_tagged(tag, int_to_text(n));
    lemma_parse_signed_of_text(n);
}

/// Arithmetic on numbers is exact: the sum, the difference and the product of
/// two numbers of 64 bits stand for the sum, the difference and the product,
/// however large, and nothing is reported.
pub proof fn lemma_int_arithmetic(a: int, b: int)
    requires
        i64::MIN <= a <= i64::MAX,
        i64::MIN <= b <= i64::MAX,
    ensures
        x_op_y_value("+"@, int_value(a), int_value(b)) == int_value(a + b),
        x_op_y_value("-"@, int_value(a), int_value(b)) == int_value(a - b),
        x_op_y_value("*"@, int_value(a), int_value(b)) == int_value(a * b),
        x_op_y_report("+"@, int_value(a), int_value(b)) is None,
        x_op_y_report("-"@, int_value(a), int_value(b)) is None,
        x_op_y_report("*"@, int_value(a), int_value(b)) is None,
{
    lemma_int_value(a);
    lemma_int_value(b);
    reveal_strlit("+");
    reveal_strlit("-");
    reveal_strlit("*");
    assert("-"@[0] != "*"@[0]);
}

/// Texts are joined: the sum of two values that are not both tagged `int` is
/// the payload of the first followed by that of the second, tagged `str`.
pub proof fn lemma_text_sum(x: Seq<char>, y: Seq<char>)
    requires
        !(is_int(x) && is_int(y)),
    ensures
        x_op_y_value("+"@, x, y) == "str:"@ + payload_of(x) + payload_of(y),
        x_op_y_report("+"@, x, y) is None,
{
}

/// What was logged and emitted before is still there after, in its place;
/// every frame that was added is a whole frame; and no record that was
/// added is fatal.
pub open spec fn grows(before: ContextView, after: ContextView) -> bool {
    &&& before.log.len() <= after.log.len()
    &&& forall|i: int| 0 <= i < before.log.len() ==> after.log[i] == before.log[i]
    &&& forall|i: int| before.log.len() <= i < after.log.len() ==> after.log[i].severity
        != Severity::Fatal
    &&& before.frames.len() <= after.frames.len()
    &&& forall|i: int| 0 <= i < before.frames.len() ==> after.frames[i] == before.frames[i]
    &&& forall|i: int| before.frames.len() <= i < after.frames.len() ==> after.frames[i].len()
        == FRAME_SIZE
}

/// A call that did not end the run left a context that grew from the one
/// before it. A call that ended the run did the same and then logged one
/// more record: a fatal one, whose text is its result.
pub open spec fn ends_well(before: ContextView, c: Completion) -> bool {
    if c.aborted {
        &&& c.ctx.log.len() > 0
        &&& c.ctx.log.last().severity == Severity::Fatal
        &&& c.result == Err::<(), Seq<char>>(c.ctx.log.last().text)
        &&& grows(before, ContextView { log: c.ctx.log.drop_last(), ..c.ctx })
    } else {
        grows(before, c.ctx)
    }
}

proof fn lemma_grows_on(a: ContextView, b: ContextView, c: ContextView)
    requires
        grows(a, b),
        grows(b, c),
    ensures
        grows(a, c),
{
}

proof fn lemma_ends_well_on(a: ContextView, b: ContextView, c: Completion)
    requires
        grows(a, b),
        ends_well(b, c),
    ensures
        ends_well(a, c),
{
    if c.aborted {
        lemma_grows_on(a, b, ContextView { log: c.ctx.log.drop_last(), ..c.ctx });
    }
}

proof fn lemma_fatal_ends_well(ctx: ContextView, text: Seq<char>)
    ensures
        ends_well(ctx, fatal(ctx, text)),
{
    let c = fatal(ctx, text);
}

proof fn lemma_assign_grows(
    name: Seq<char>,
    op1: Seq<char>,
    value: Seq<char>,
    locals: Scope,
    ctx: ContextView,
)
    ensures
        grows(ctx, assign_spec(name, op1, value, locals, ctx).1),
{
}

proof fn lemma_set_var_grows(args: Scope, locals: Scope, ctx: ContextView)
    ensures
        grows(ctx, set_var_spec(args, locals, ctx).1),
{
    let hops = hops_in(args, locals, ctx.globals);
    let varname = resolve(args, locals, ctx.globals, "$varname"@, hops);
    let op1 = resolve(args, locals, ctx.globals, "$op1"@, hops);
    let operand1 = resolve(args, locals, ctx.globals, "$operand1"@, hops);
    let op2 = resolve(args, locals, ctx.globals, "$op2"@, hops);
    let operand2 = resolve(args, locals, ctx.globals, "$operand2"@, hops);
    if varname is None || op1 is None || operand1 is None {
    } else if op2 is Some && operand2 is Some {
        let ctx1 = reported(ctx, x_op_y_report(op2->0, operand1->0, operand2->0));
        lemma_assign_grows(
            varname->0,
            op1->0,
            x_op_y_value(op2->0, operand1->0, operand2->0),
            locals,
            ctx1,
        );
    } else if op2 is Some || operand2 is Some {
    } else {
        lemma_assign_grows(varname->0, op1->0, operand1->0, locals, ctx);
    }
}

proof fn lemma_call_ins_ends_well(
    inss: Map<Seq<char>, InstDef>,
    name: Seq<char>,
    args: Scope,
    ctx: ContextView,
)
    ensures
        ends_well(ctx, call_ins_spec(inss, name, args, ctx)),
{
    if inss.contains_key(name) {
        match encode_frame(inss[name].args.defs@, args) {
            Ok(frame) => {},
            Err(e) => {
                lemma_fatal_ends_well(ctx, encode_message(e, inss[name].args.defs@));
            },
        }
    }
}

proof fn lemma_step_ends_well(
    fns: Map<Seq<char>, FnDef>,
    inss: Map<Seq<char>, InstDef>,
    stmts: Seq<Stmt>,
    table: Seq<Option<usize>>,
    frame: Frame,
    ctx: ContextView,
    budget: nat,
)
    requires
        0 <= frame.pc < stmts.len(),
    ensures
        match step_spec(fns, inss, stmts, table, frame, ctx, budget) {
            Step::Continue(_, ctx1, _) => grows(ctx, ctx1),
            Step::Finish(c) => ends_well(ctx, c),
        },
    decreases budget, 3int,
{
    let stmt = stmts[frame.pc];
    match stmt.kind {
        StmtKind::CallIns => {
            lemma_call_ins_ends_well(inss, stmt.content@, stmt.args@, ctx);
        },
        StmtKind::CallFn => {
            lemma_call_fn_ends_well(fns, inss, stmt.content@, stmt.args@, ctx, budget);
        },
        StmtKind::Loop => {
            lemma_fatal_ends_well(ctx, msg_no_end());
            lemma_fatal_ends_well(ctx, msg_counter());
        },
        StmtKind::EndLoop => {
            lemma_fatal_ends_well(ctx, msg_no_begin());
        },
        StmtKind::Return => {},
        StmtKind::SetVar => {
            lemma_set_var_grows(stmt.args@, frame.locals, ctx);
        },
        StmtKind::SetLocal => {},
        StmtKind::SetGlobal => {},
    }
}

proof fn lemma_call_fn_ends_well(
    fns: Map<Seq<char>, FnDef>,
    inss: Map<Seq<char>, InstDef>,
    name: Seq<char>,
    args: Scope,
    ctx: ContextView,
    budget: nat,
)
    ensures
        ends_well(ctx, call_fn_spec(fns, inss, name, args, ctx, budget)),
    decreases budget, 2int,
{
    if fns.contains_key(name) {
        lemma_run_fn_ends_well(fns, inss, fns[name].name@, fns[name].stmts@, args, ctx, budget);
    }
}

proof fn lemma_run_fn_ends_well(
    fns: Map<Seq<char>, FnDef>,
    inss: Map<Seq<char>, InstDef>,
    name: Seq<char>,
    stmts: Seq<Stmt>,
    args: Scope,
    ctx: ContextView,
    budget: nat,
)
    ensures
        ends_well(ctx, run_fn_spec(fns, inss, name, stmts, args, ctx, budget)),
    decreases budget, 1int,
{
    match loop_table(kinds_of(stmts)) {
        Err(at) => {
            lemma_fatal_ends_well(ctx, msg_unpaired(name, at as nat));
        },
        Ok(table) => {
            let ctx0 = ctx.with_globals(ctx.globals.remove("$return"@));
            let frame = Frame {
                pc: 0,
                locals: args,
                scratch: Seq::new(stmts.len(), |i: int| None::<Scope>),
                result: Ok(()),
            };
            lemma_run_stmts_ends_well(fns, inss, stmts, table, frame, ctx0, budget);
            lemma_ends_well_on(
                ctx,
                ctx0,
                run_stmts_spec(fns, inss, stmts, table, frame, ctx0, budget),
            );
        },
    }
}

proof fn lemma_run_stmts_ends_well(
    fns: Map<Seq<char>, FnDef>,
    inss: Map<Seq<char>, InstDef>,
    stmts: Seq<Stmt>,
    table: Seq<Option<usize>>,
    frame: Frame,
    ctx: ContextView,
    budget: nat,
)
    ensures
        ends_well(ctx, run_stmts_spec(fns, inss, stmts, table, frame, ctx, budget)),
    decreases budget, 0int,
{
    if frame.pc < 0 || frame.pc >= stmts.len() {
    } else if budget == 0 {
        lemma_fatal_ends_well(ctx, msg_budget());
    } else {
        lemma_step_ends_well(fns, inss, stmts, table, frame, ctx, (budget - 1) as nat);
        match step_spec(fns, inss, stmts, table, frame, ctx, (budget - 1) as nat) {
            Step::Finish(c) => {},
            Step::Continue(frame1, ctx1, used) => {
                let left = budget_left(budget, used);
                lemma_run_stmts_ends_well(fns, inss, stmts, table, frame1, ctx1, left);
                lemma_ends_well_on(
                    ctx,
                    ctx1,
                    run_stmts_spec(fns, inss, stmts, table, frame1, ctx1, left),
                );
            },
        }
    }
}

/// Whatever a call of a function does, it forgets nothing and emits whole
/// frames only: the log and the frames from before the call are still there
/// after it, each frame that it added has the size of a frame, and a fatal
/// record was logged if and only if the run was ended, as the last record
/// and with the text that is the result of the call.
pub proof fn lemma_call_ends_well(
    fns: Map<Seq<char>, FnDef>,
    inss: Map<Seq<char>, InstDef>,
    name: Seq<char>,
    args: Scope,
    ctx: ContextView,
    budget: nat,
)
    ensures
        ends_well(ctx, call_fn_spec(fns, inss, name, args, ctx, budget)),
{
    lemma_call_fn_ends_well(fns, inss, name, args, ctx, budget);
}

/// A call of an instruction emits one whole frame or none, and none when it
/// ends the run.
pub proof fn lemma_instruction_emits_a_whole_frame_or_none(
    inss: Map<Seq<char>, InstDef>,
    name: Seq<char>,
    args: Scope,
    ctx: ContextView,
)
    ensures
        ({
            let c = call_ins_spec(inss, name, args, ctx);
            &&& ends_well(ctx, c)
            &&& c.result is Ok ==> c.ctx.frames.len() == ctx.frames.len() + 1
                && c.ctx.frames.last().len() == FRAME_SIZE && c.ctx.log == ctx.log
            &&& c.result is Err ==> c.ctx.frames == ctx.frames
        }),
{
    lemma_call_ins_ends_well(inss, name, args, ctx);
}

proof fn lemma_step_within_budget(
    fns: Map<Seq<char>, FnDef>,
    inss: Map<Seq<char>, InstDef>,
    stmts: Seq<Stmt>,
    table: Seq<Option<usize>>,
    frame: Frame,
    ctx: ContextView,
    budget: nat,
)
    requires
        0 <= frame.pc < stmts.len(),
    ensures
        match step_spec(fns, inss, stmts, table, frame, ctx, budget) {
            Step::Continue(_, _, used) => used <= budget,
            Step::Finish(c) => c.used <= budget,
        },
    decreases budget, 3int,
{
    let stmt = stmts[frame.pc];
    if stmt.kind == StmtKind::CallFn {
        lemma_call_fn_within_budget(fns, inss, stmt.content@, stmt.args@, ctx, budget);
    }
}

proof fn lemma_call_fn_within_budget(
    fns: Map<Seq<char>, FnDef>,
    inss: Map<Seq<char>, InstDef>,
    name: Seq<char>,
    args: Scope,
    ctx: ContextView,
    budget: nat,
)
    ensures
        call_fn_spec(fns, inss, name, args, ctx, budget).used <= budget,
    decreases budget, 2int,
{
    if fns.contains_key(name) {
        let stmts = fns[name].stmts@;
        match loop_table(kinds_of(stmts)) {
            Err(at) => {},
            Ok(table) => {
                let ctx0 = ctx.with_globals(ctx.globals.remove("$return"@));
                let frame = Frame {
                    pc: 0,
                    locals: args,
                    scratch: Seq::new(stmts.len(), |i: int| None::<Scope>),
                    result: Ok(()),
                };
                lemma_run_stmts_within_budget(fns, inss, stmts, table, frame, ctx0, budget);
            },
        }
    }
}

proof fn lemma_run_stmts_within_budget(
    fns: Map<Seq<char>, FnDef>,
    inss: Map<Seq<char>, InstDef>,
    stmts: Seq<Stmt>,
    table: Seq<Option<usize>>,
    frame: Frame,
    ctx: ContextView,
    budget: nat,
)
    ensures
        run_stmts_spec(fns, inss, stmts, table, frame, ctx, budget).used <= budget,
    decreases budget, 0int,
{
    if frame.pc < 0 || frame.pc >= stmts.len() {
    } else if budget == 0 {
    } else {
        lemma_step_within_budget(fns, inss, stmts, table, frame, ctx, (budget - 1) as nat);
        match step_spec(fns, inss, stmts, table, frame, ctx, (budget - 1) as nat) {
            Step::Finish(c) => {},
            Step::Continue(frame1, ctx1, used) => {
                lemma_run_stmts_within_budget(
                    fns,
                    inss,
                    stmts,
                    table,
                    frame1,
                    ctx1,
                    budget_left(budget, used),
                );
            },
        }
    }
}

/// A call executes no more statements than its budget, those of the calls
/// that it makes among them.
pub proof fn lemma_call_stays_within_budget(
    fns: Map<Seq<char>, FnDef>,
    inss: Map<Seq<char>, InstDef>,
    name: Seq<char>,
    args: Scope,
    ctx: ContextView,
    budget: nat,
)
    ensures
        call_fn_spec(fns, inss, name, args, ctx, budget).used <= budget,
{
    lemma_call_fn_within_budget(fns, inss, name, args, ctx, budget);
}

/// The run was ended because a call had statements left and no budget.
pub open spec fn out_of_budget(c: Completion) -> bool {
    c.aborted && c.result == Err::<(), Seq<char>>(msg_budget())
}

proof fn lemma_step_with_more_budget(
    fns: Map<Seq<char>, FnDef>,
    inss: Map<Seq<char>, InstDef>,
    stmts: Seq<Stmt>,
    table: Seq<Option<usize>>,
    frame: Frame,
    ctx: ContextView,
    budget: nat,
    more: nat,
)
    requires
        0 <= frame.pc < stmts.len(),
        budget <= more,
        !(step_spec(fns, inss, stmts, table, frame, ctx, budget) matches Step::Finish(c)
            && out_of_budget(c)),
    ensures
        step_spec(fns, inss, stmts, table, frame, ctx, more) == step_spec(
            fns,
            inss,
            stmts,
            table,
            frame,
            ctx,
            budget,
        ),
    decreases budget, 3int,
{
    let stmt = stmts[frame.pc];
    if stmt.kind == StmtKind::CallFn {
        lemma_call_fn_with_more_budget(fns, inss, stmt.content@, stmt.args@, ctx, budget, more);
    }
}

proof fn lemma_call_fn_with_more_budget(
    fns: Map<Seq<char>, FnDef>,
    inss: Map<Seq<char>, InstDef>,
    name: Seq<char>,
    args: Scope,
    ctx: ContextView,
    budget: nat,
    more: nat,
)
    requires
        budget <= more,
        !out_of_budget(call_fn_spec(fns, inss, name, args, ctx, budget)),
    ensures
        call_fn_spec(fns, inss, name, args, ctx, more) == call_fn_spec(
            fns,
            inss,
            name,
            args,
            ctx,
            budget,
        ),
    decreases budget, 2int,
{
    if fns.contains_key(name) {
        let stmts = fns[name].stmts@;
        match loop_table(kinds_of(stmts)) {
            Err(at) => {},
            Ok(table) => {
                let ctx0 = ctx.with_globals(ctx.globals.remove("$return"@));
                let frame = Frame {
                    pc: 0,
                    locals: args,
                    scratch: Seq::new(stmts.len(), |i: int| None::<Scope>),
                    result: Ok(()),
                };
                lemma_run_stmts_with_more_budget(
                    fns,
                    inss,
                    stmts,
                    table,
                    frame,
                    ctx0,
                    budget,
                    more,
                );
            },
        }
    }
}

proof fn lemma_run_stmts_with_more_budget(
    fns: Map<Seq<char>, FnDef>,
    inss: Map<Seq<char>, InstDef>,
    stmts: Seq<Stmt>,
    table: Seq<Option<usize>>,
    frame: Frame,
    ctx: ContextView,
    budget: nat,
    more: nat,
)
    requires
        budget <= more,
        !out_of_budget(run_stmts_spec(fns, inss, stmts, table, frame, ctx, budget)),
    ensures
        run_stmts_spec(fns, inss, stmts, table, frame, ctx, more) == run_stmts_spec(
            fns,
            inss,
            stmts,
            table,
            frame,
            ctx,
            budget,
        ),
    decreases budget, 0int,
{
    if frame.pc < 0 || frame.pc >= stmts.len() {
    } else if budget == 0 {
    } else {
        lemma_step_with_more_budget(
            fns,
            inss,
            stmts,
            table,
            frame,
            ctx,
            (budget - 1) as nat,
            (more - 1) as nat,
        );
        match step_spec(fns, inss, stmts, table, frame, ctx, (budget - 1) as nat) {
            Step::Finish(c) => {},
            Step::Continue(frame1, ctx1, used) => {
                lemma_run_stmts_with_more_budget(
                    fns,
                    inss,
                    stmts,
                    table,
                    frame1,
                    ctx1,
                    budget_left(budget, used),
                    budget_left(more, used),
                );
            },
        }
    }
}

/// The budget changes nothing but the runs that it ends: a call that was
/// not ended for want of budget does the same with any larger budget.
pub proof fn lemma_more_budget_changes_nothing(
    fns: Map<Seq<char>, FnDef>,
    inss: Map<Seq<char>, InstDef>,
    name: Seq<char>,
    args: Scope,
    ctx: ContextView,
    budget: nat,
    more: nat,
)
    requires
        budget <= more,
        !out_of_budget(call_fn_spec(fns, inss, name, args, ctx, budget)),
    ensures
        call_fn_spec(fns, inss, name, args, ctx, more) == call_fn_spec(
            fns,
            inss,
            name,
            args,
            ctx,
            budget,
        ),
{
    lemma_call_fn_with_more_budget(fns, inss, name, args, ctx, budget, more);
}

/// The run-time arguments of a loop that has begun `index` of `count` rounds.
pub open spec fn counting(scratch: Scope, index: nat, count: nat) -> bool {
    &&& scratch.contains_key("$index"@)
    &&& scratch["$index"@] == nat_to_text(index)
    &&& scratch.contains_key("$count"@)
    &&& scratch["$count"@] == nat_to_text(count)
}

/// A counter that is bound to the digits of a number of 32 bits stands for
/// that number.
proof fn lemma_counter_of_digits(scratch: Scope, name: Seq<char>, n: nat)
    requires
        scratch.contains_key(name),
        scratch[name] == nat_to_text(n),
        n <= u32::MAX,
    ensures
        counter(scratch, name) == Some(n),
{
    let text = nat_to_text(n);
    lemma_nat_to_text_digits(n);
    lemma_untagged(text);
    reveal_strlit("var");
    lemma_parse_unsigned_of_text(n);
}

/// A loop whose statement holds its count begins with no round done.
pub proof fn lemma_loop_begins_at_zero(args: Scope, count: nat)
    requires
        args.contains_key("$count"@),
        args["$count"@] == nat_to_text(count),
    ensures
        counting(loop_scratch(args, None), 0, count),
{
    reveal_strlit("0");
    reveal_strlit("$index");
    reveal_strlit("$count");
    assert("$index"@[1] != "$count"@[1]);
    assert("0"@ =~= nat_to_text(0));
}

/// A loop runs its body once for each round of its count, and no more: with
/// rounds left it counts one more round and goes on to the first statement
/// of its body; with none left it drops its run-time arguments and goes on
/// past its end.
pub proof fn lemma_loop_counts_its_rounds(
    args: Scope,
    pair: Option<usize>,
    frame: Frame,
    ctx: ContextView,
    index: nat,
    count: nat,
)
    requires
        0 <= frame.pc < frame.scratch.len(),
        frame.scratch[frame.pc] matches Some(scratch) && counting(scratch, index, count),
        index <= count <= u32::MAX,
    ensures
        index < count ==> (loop_spec(args, pair, frame, ctx) matches Step::Continue(
            next,
            ctx1,
            used,
        ) && used == 0 && ctx1 == ctx && next.pc == frame.pc + 1 && next.locals == frame.locals
            && next.result == frame.result && next.scratch.len() == frame.scratch.len() && (
        next.scratch[frame.pc] matches Some(scratch) && counting(
            scratch,
            index + 1,
            count,
        )) && forall|i: int|
            0 <= i < frame.scratch.len() && i != frame.pc ==> next.scratch[i] == frame.scratch[i]),
        index == count ==> match pair {
            Some(end) => loop_spec(args, pair, frame, ctx) == Step::Continue(
                Frame { pc: end + 1, scratch: frame.scratch.update(frame.pc, None), ..frame },
                ctx,
                0,
            ),
            None => loop_spec(args, pair, frame, ctx) == Step::Finish(fatal(ctx, msg_no_end())),
        },
{
    let scratch = frame.scratch[frame.pc]->0;
    lemma_counter_of_digits(scratch, "$index"@, index);
    lemma_counter_of_digits(scratch, "$count"@, count);
    reveal_strlit("$index");
    reveal_strlit("$count");
    lemma_nat_to_text_digits(index + 1);
}

/// The context that `ctx` would be after a history of other log records
/// and frames.
pub open spec fn after_history(log: Seq<LogEntry>, frames: Seq<Seq<u8>>, ctx: ContextView) -> ContextView {
    ContextView { globals: ctx.globals, log: log + ctx.log, frames: frames + ctx.frames }
}

/// The end of a call after a history of other log records and frames.
pub open spec fn completion_after_history(
    log: Seq<LogEntry>,
    frames: Seq<Seq<u8>>,
    c: Completion,
) -> Completion {
    Completion { ctx: after_history(log, frames, c.ctx), ..c }
}

/// What a statement leads to after a history of other log records and frames.
pub open spec fn step_after_history(log: Seq<LogEntry>, frames: Seq<Seq<u8>>, s: Step) -> Step {
    match s {
        Step::Continue(frame, ctx, used) => Step::Continue(
            frame,
            after_history(log, frames, ctx),
            used,
        ),
        Step::Finish(c) => Step::Finish(completion_after_history(log, frames, c)),
    }
}

proof fn lemma_logged_after_history(
    log: Seq<LogEntry>,
    frames: Seq<Seq<u8>>,
    ctx: ContextView,
    severity: Severity,
    text: Seq<char>,
)
    ensures
        after_history(log, frames, ctx).logged(severity, text) == after_history(
            log,
            frames,
            ctx.logged(severity, text),
        ),
{
}

proof fn lemma_reported_after_history(
    log: Seq<LogEntry>,
    frames: Seq<Seq<u8>>,
    ctx: ContextView,
    report: Option<Seq<char>>,
)
    ensures
        reported(after_history(log, frames, ctx), report) == after_history(
            log,
            frames,
            reported(ctx, report),
        ),
{
    if let Some(text) = report {
        lemma_logged_after_history(log, frames, ctx, Severity::Error, text);
    }
}

proof fn lemma_assign_after_history(
    log: Seq<LogEntry>,
    frames: Seq<Seq<u8>>,
    name: Seq<char>,
    op1: Seq<char>,
    value: Seq<char>,
    locals: Scope,
    ctx: ContextView,
)
    ensures
        assign_spec(name, op1, value, locals, after_history(log, frames, ctx)) == (
            assign_spec(name, op1, value, locals, ctx).0,
            after_history(log, frames, assign_spec(name, op1, value, locals, ctx).1),
        ),
{
    if op1 == ":="@ {
    } else if op1 == "="@ {
    } else if op1.len() > 0 && op1.last() == '=' {
        let op = op1.drop_last();
        let none = Map::<Seq<char>, Seq<char>>::empty();
        let before = or_empty(
            resolve(locals, ctx.globals, none, name, hops_in(locals, ctx.globals, none)),
        );
        lemma_reported_after_history(log, frames, ctx, x_op_y_report(op, before, value));
        let ctx1 = reported(ctx, x_op_y_report(op, before, value));
        lemma_logged_after_history(log, frames, ctx1, Severity::Error, msg_undefined(name));
    }
}

proof fn lemma_set_var_after_history(
    log: Seq<LogEntry>,
    frames: Seq<Seq<u8>>,
    args: Scope,
    locals: Scope,
    ctx: ContextView,
)
    ensures
        set_var_spec(args, locals, after_history(log, frames, ctx)) == (
            set_var_spec(args, locals, ctx).0,
            after_history(log, frames, set_var_spec(args, locals, ctx).1),
        ),
{
    let hops = hops_in(args, locals, ctx.globals);
    let varname = resolve(args, locals, ctx.globals, "$varname"@, hops);
    let op1 = resolve(args, locals, ctx.globals, "$op1"@, hops);
    let operand1 = resolve(args, locals, ctx.globals, "$operand1"@, hops);
    let op2 = resolve(args, locals, ctx.globals, "$op2"@, hops);
    let operand2 = resolve(args, locals, ctx.globals, "$operand2"@, hops);
    if varname is None || op1 is None || operand1 is None {
        lemma_logged_after_history(log, frames, ctx, Severity::Error, msg_set_var_args());
    } else if op2 is Some && operand2 is Some {
        let report = x_op_y_report(op2->0, operand1->0, operand2->0);
        lemma_reported_after_history(log, frames, ctx, report);
        lemma_assign_after_history(
            log,
            frames,
            varname->0,
            op1->0,
            x_op_y_value(op2->0, operand1->0, operand2->0),
            locals,
            reported(ctx, report),
        );
    } else if op2 is Some || operand2 is Some {
        lemma_logged_after_history(log, frames, ctx, Severity::Error, msg_set_var_pair());
    } else {
        lemma_assign_after_history(log, frames, varname->0, op1->0, operand1->0, locals, ctx);
    }
}

proof fn lemma_call_ins_after_history(
    log: Seq<LogEntry>,
    frames: Seq<Seq<u8>>,
    inss: Map<Seq<char>, InstDef>,
    name: Seq<char>,
    args: Scope,
    ctx: ContextView,
)
    ensures
        call_ins_spec(inss, name, args, after_history(log, frames, ctx))
            == completion_after_history(log, frames, call_ins_spec(inss, name, args, ctx)),
{
    if !inss.contains_key(name) {
        lemma_logged_after_history(log, frames, ctx, Severity::Error, msg_no_such_ins(name));
    } else {
        match encode_frame(inss[name].args.defs@, args) {
            Ok(frame) => {
            },
            Err(e) => {
                lemma_logged_after_history(
                    log,
                    frames,
                    ctx,
                    Severity::Fatal,
                    encode_message(e, inss[name].args.defs@),
                );
            },
        }
    }
}

proof fn lemma_step_after_history(
    log: Seq<LogEntry>,
    frames: Seq<Seq<u8>>,
    fns: Map<Seq<char>, FnDef>,
    inss: Map<Seq<char>, InstDef>,
    stmts: Seq<Stmt>,
    table: Seq<Option<usize>>,
    frame: Frame,
    ctx: ContextView,
    budget: nat,
)
    requires
        0 <= frame.pc < stmts.len(),
    ensures
        step_spec(fns, inss, stmts, table, frame, after_history(log, frames, ctx), budget)
            == step_after_history(
            log,
            frames,
            step_spec(fns, inss, stmts, table, frame, ctx, budget),
        ),
    decreases budget, 3int,
{
    let stmt = stmts[frame.pc];
    match stmt.kind {
        StmtKind::CallIns => {
            lemma_call_ins_after_history(log, frames, inss, stmt.content@, stmt.args@, ctx);
        },
        StmtKind::CallFn => {
            lemma_call_fn_after_history(
                log,
                frames,
                fns,
                inss,
                stmt.content@,
                stmt.args@,
                ctx,
                budget,
            );
        },
        StmtKind::Loop => {
            lemma_logged_after_history(log, frames, ctx, Severity::Fatal, msg_no_end());
            lemma_logged_after_history(log, frames, ctx, Severity::Fatal, msg_counter());
        },
        StmtKind::EndLoop => {
            lemma_logged_after_history(log, frames, ctx, Severity::Fatal, msg_no_begin());
        },
        StmtKind::Return => {},
        StmtKind::SetVar => {
            lemma_set_var_after_history(log, frames, stmt.args@, frame.locals, ctx);
        },
        StmtKind::SetLocal => {
            lemma_logged_after_history(
                log,
                frames,
                ctx,
                Severity::Error,
                msg_invalid_set_local(stmt.content@),
            );
        },
        StmtKind::SetGlobal => {
            lemma_logged_after_history(
                log,
                frames,
                ctx,
                Severity::Error,
                msg_invalid_set_global(stmt.content@),
            );
        },
    }
}

proof fn lemma_call_fn_after_history(
    log: Seq<LogEntry>,
    frames: Seq<Seq<u8>>,
    fns: Map<Seq<char>, FnDef>,
    inss: Map<Seq<char>, InstDef>,
    name: Seq<char>,
    args: Scope,
    ctx: ContextView,
    budget: nat,
)
    ensures
        call_fn_spec(fns, inss, name, args, after_history(log, frames, ctx), budget)
            == completion_after_history(
            log,
            frames,
            call_fn_spec(fns, inss, name, args, ctx, budget),
        ),
    decreases budget, 2int,
{
    if !fns.contains_key(name) {
        lemma_logged_after_history(log, frames, ctx, Severity::Error, msg_no_such_fn(name));
    } else {
        let stmts = fns[name].stmts@;
        match loop_table(kinds_of(stmts)) {
            Err(at) => {
                lemma_logged_after_history(
                    log,
                    frames,
                    ctx,
                    Severity::Fatal,
                    msg_unpaired(fns[name].name@, at as nat),
                );
            },
            Ok(table) => {
                let ctx0 = ctx.with_globals(ctx.globals.remove("$return"@));
                let frame = Frame {
                    pc: 0,
                    locals: args,
                    scratch: Seq::new(stmts.len(), |i: int| None::<Scope>),
                    result: Ok(()),
                };
                lemma_run_stmts_after_history(
                    log,
                    frames,
                    fns,
                    inss,
                    stmts,
                    table,
                    frame,
                    ctx0,
                    budget,
                );
            },
        }
    }
}

proof fn lemma_run_stmts_after_history(
    log: Seq<LogEntry>,
    frames: Seq<Seq<u8>>,
    fns: Map<Seq<char>, FnDef>,
    inss: Map<Seq<char>, InstDef>,
    stmts: Seq<Stmt>,
    table: Seq<Option<usize>>,
    frame: Frame,
    ctx: ContextView,
    budget: nat,
)
    ensures
        run_stmts_spec(fns, inss, stmts, table, frame, after_history(log, frames, ctx), budget)
            == completion_after_history(
            log,
            frames,
            run_stmts_spec(fns, inss, stmts, table, frame, ctx, budget),
        ),
    decreases budget, 0int,
{
    if frame.pc < 0 || frame.pc >= stmts.len() {
    } else if budget == 0 {
        lemma_logged_after_history(log, frames, ctx, Severity::Fatal, msg_budget());
    } else {
        lemma_step_after_history(
            log,
            frames,
            fns,
            inss,
            stmts,
            table,
            frame,
            ctx,
            (budget - 1) as nat,
        );
        match step_spec(fns, inss, stmts, table, frame, ctx, (budget - 1) as nat) {
            Step::Finish(c) => {},
            Step::Continue(frame1, ctx1, used) => {
                lemma_run_stmts_after_history(
                    log,
                    frames,
                    fns,
                    inss,
                    stmts,
                    table,
                    frame1,
                    ctx1,
                    budget_left(budget, used),
                );
            },
        }
    }
}

/// A call does the same whatever was logged and emitted before it: its
/// result, the variables that it leaves, and the records and frames that it
/// adds depend on the definitions, the arguments and the variables only.
/// So a run that starts from the same variables as an earlier one ends as
/// that one did.
pub proof fn lemma_call_does_not_depend_on_history(
    log: Seq<LogEntry>,
    frames: Seq<Seq<u8>>,
    fns: Map<Seq<char>, FnDef>,
    inss: Map<Seq<char>, InstDef>,
    name: Seq<char>,
    args: Scope,
    ctx: ContextView,
    budget: nat,
)
    ensures
        call_fn_spec(fns, inss, name, args, after_history(log, frames, ctx), budget)
            == completion_after_history(
            log,
            frames,
            call_fn_spec(fns, inss, name, args, ctx, budget),
        ),
{
    lemma_call_fn_after_history(log, frames, fns, inss, name, args, ctx, budget);
}

} // verus!
