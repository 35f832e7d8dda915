use logic_engine::engine::{Context, Engine, Severity};
use logic_engine::function::{call_fn, call_ins, Activation, FnDef, Stepped};
use logic_engine::statement::{Stmt, StmtKind};
use logic_engine::variable::VarBindingList;

fn function_of(name: &str, stmts: Vec<Stmt>) -> FnDef {
    let mut def = FnDef::new(name);
    for stmt in stmts {
        def.add_stmt(stmt);
    }
    def
}

fn run(stmts: Vec<Stmt>, context: &mut Context) -> Result<(), String> {
    let def = function_of("f", stmts);
    def.exec(&VarBindingList::new(), context, &Engine::new())
}

fn log_of(context: &Context) -> Vec<(Severity, String)> {
    context.log.iter().map(|r| (r.severity, r.text.clone())).collect()
}

#[test]
fn new_function_has_no_statements() {
    let mut def = FnDef::new("f");
    assert_eq!(def.name, "f");
    assert!(def.stmts.is_empty());
    assert!(def.args.defs.is_empty());
    def.add_stmt(Stmt::new_end_loop());
    def.add_stmt(Stmt::new_loop(1));
    assert_eq!(def.stmts.len(), 2);
    assert_eq!(def.stmts[0].kind, StmtKind::EndLoop);
    assert_eq!(def.stmts[1].kind, StmtKind::Loop);
}

#[test]
fn loop_table_pairs_nested_loops() {
    let def = function_of(
        "f",
        vec![
            Stmt::new_set_global("a=1"),
            Stmt::new_loop(1),
            Stmt::new_loop(1),
            Stmt::new_end_loop(),
            Stmt::new_loop(1),
            Stmt::new_end_loop(),
            Stmt::new_end_loop(),
        ],
    );
    let table = def.build_loop_table().unwrap();
    assert_eq!(
        table,
        vec![None, Some(6), Some(3), Some(2), Some(5), Some(4), Some(1)]
    );
    assert_eq!(def.find_loop_pair(&table, 1), Some(6));
    assert_eq!(def.find_loop_pair(&table, 6), Some(1));
    assert_eq!(def.find_loop_pair(&table, 0), None);
    assert_eq!(def.find_loop_pair(&table, 7), None);
}

#[test]
fn loop_table_leaves_an_open_loop_without_partner() {
    let def = function_of(
        "f",
        vec![Stmt::new_loop(1), Stmt::new_loop(1), Stmt::new_end_loop()],
    );
    assert_eq!(def.build_loop_table(), Ok(vec![None, Some(2), Some(1)]));
    assert_eq!(FnDef::new("empty").build_loop_table(), Ok(vec![]));
}

#[test]
fn loop_table_reports_the_first_end_without_loop() {
    let def = function_of(
        "f",
        vec![
            Stmt::new_loop(1),
            Stmt::new_end_loop(),
            Stmt::new_end_loop(),
            Stmt::new_end_loop(),
        ],
    );
    assert_eq!(def.build_loop_table(), Err(2));
    assert_eq!(function_of("g", vec![Stmt::new_end_loop()]).build_loop_table(), Err(0));
}

#[test]
fn an_end_without_loop_is_reported_before_any_statement_runs() {
    let mut context = Context::new();
    context.globals.set_binding("$return", "kept");
    let result = run(
        vec![
            Stmt::new_set_global("a=1"),
            Stmt::new_loop(2),
            Stmt::new_end_loop(),
            Stmt::new_end_loop(),
        ],
        &mut context,
    );
    assert_eq!(result, Err("Unpaired endloop in function: f line: 3".to_string()));
    assert_eq!(context.globals.raw_value_of("a"), None);
    assert_eq!(context.globals.raw_value_of("$return"), Some("kept"));
    assert_eq!(
        log_of(&context),
        vec![(Severity::Fatal, "Unpaired endloop in function: f line: 3".to_string())]
    );
}

#[test]
fn an_end_without_loop_in_a_callee_ends_the_run_of_the_caller() {
    let mut engine = Engine::new();
    engine.add_fn(function_of("bad", vec![Stmt::new_end_loop()]));
    engine.add_fn(function_of(
        "good",
        vec![
            Stmt::new_call_fn("bad", VarBindingList::new()),
            Stmt::new_set_global("after=1"),
        ],
    ));
    let mut context = Context::new();
    let result = engine.exec_fn("good", &VarBindingList::new(), &mut context);
    assert_eq!(result, Err("Unpaired endloop in function: bad line: 0".to_string()));
    assert_eq!(context.globals.raw_value_of("after"), None);
}

#[test]
fn a_loop_of_no_rounds_skips_its_body() {
    let mut context = Context::new();
    let result = run(
        vec![
            Stmt::new_loop(0),
            Stmt::new_set_global("body=1"),
            Stmt::new_end_loop(),
            Stmt::new_set_global("after=1"),
        ],
        &mut context,
    );
    assert_eq!(result, Ok(()));
    assert_eq!(context.globals.raw_value_of("body"), None);
    assert_eq!(context.globals.raw_value_of("after"), Some("1"));
}

#[test]
fn a_loop_without_count_runs_no_round() {
    let mut context = Context::new();
    let result = run(
        vec![
            Stmt::new(StmtKind::Loop, ""),
            Stmt::new_set_global("body=1"),
            Stmt::new_end_loop(),
        ],
        &mut context,
    );
    assert_eq!(result, Ok(()));
    assert_eq!(context.globals.raw_value_of("body"), None);
}

#[test]
fn a_loop_whose_count_is_no_number_ends_the_run() {
    let mut args = VarBindingList::new();
    args.set_binding("$count", "many");
    let mut context = Context::new();
    let result = run(
        vec![
            Stmt::new_with_args(StmtKind::Loop, "", args),
            Stmt::new_set_global("body=1"),
            Stmt::new_end_loop(),
        ],
        &mut context,
    );
    assert_eq!(result, Err("Loop counter is no number".to_string()));
    assert_eq!(context.globals.raw_value_of("body"), None);
    assert_eq!(
        log_of(&context),
        vec![(Severity::Fatal, "Loop counter is no number".to_string())]
    );
}

#[test]
fn a_loop_that_is_never_ended_runs_its_body_once() {
    let mut context = Context::new();
    context.globals.set_binding("n", "int:0");
    let result = run(
        vec![Stmt::new_loop(5), Stmt::new_set_var("n", "+=", "int:1")],
        &mut context,
    );
    assert_eq!(result, Ok(()));
    assert_eq!(context.globals.raw_value_of("n"), Some("int:1"));
}

#[test]
fn a_finished_loop_that_is_never_ended_ends_the_run() {
    let mut context = Context::new();
    let result = run(
        vec![Stmt::new_loop(0), Stmt::new_set_global("body=1")],
        &mut context,
    );
    assert_eq!(result, Err("Loop without endloop".to_string()));
    assert_eq!(context.globals.raw_value_of("body"), None);
}

#[test]
fn return_from_inside_a_loop_leaves_nothing_behind() {
    let mut engine = Engine::new();
    engine.add_fn(function_of(
        "f",
        vec![
            Stmt::new_loop(3),
            Stmt::new_set_var("n", "+=", "int:1"),
            Stmt::new_return("var:n"),
            Stmt::new_end_loop(),
        ],
    ));
    let mut context = Context::new();
    context.globals.set_binding("n", "int:0");
    for round in 1..=4 {
        assert_eq!(engine.exec_fn("f", &VarBindingList::new(), &mut context), Ok(()));
        let expected = format!("int:{}", round);
        assert_eq!(context.globals.raw_value_of("n"), Some(expected.as_str()));
        assert_eq!(context.globals.raw_value_of("$return"), Some(expected.as_str()));
    }
}

#[test]
fn return_gives_the_value_of_its_expression() {
    let mut context = Context::new();
    context.globals.set_binding("g", "var:h");
    context.globals.set_binding("h", "int:7");
    assert_eq!(run(vec![Stmt::new_return("var:g")], &mut context), Ok(()));
    assert_eq!(context.globals.raw_value_of("$return"), Some("int:7"));
    assert_eq!(run(vec![Stmt::new_return("str:done")], &mut context), Ok(()));
    assert_eq!(context.globals.raw_value_of("$return"), Some("str:done"));
    assert_eq!(run(vec![Stmt::new_return("var:nothing")], &mut context), Ok(()));
    assert_eq!(context.globals.raw_value_of("$return"), None);
    assert_eq!(run(vec![Stmt::new_return("")], &mut context), Ok(()));
    assert_eq!(context.globals.raw_value_of("$return"), None);
}

#[test]
fn a_run_clears_the_value_returned_before() {
    let mut context = Context::new();
    context.globals.set_binding("$return", "old");
    assert_eq!(run(vec![Stmt::new_set_global("a=1")], &mut context), Ok(()));
    assert_eq!(context.globals.raw_value_of("$return"), None);
}

#[test]
fn set_local_binds_in_the_locals_only() {
    let def = FnDef::new("f");
    let mut locals = VarBindingList::new();
    let mut context = Context::new();
    def.do_set_local("a=int:1", &mut locals, &mut context);
    def.do_set_local("b=x=y", &mut locals, &mut context);
    assert_eq!(locals.raw_value_of("a"), Some("int:1"));
    assert_eq!(locals.raw_value_of("b"), Some("x=y"));
    assert_eq!(context.globals.len(), 0);
    def.do_set_local("a=", &mut locals, &mut context);
    assert_eq!(locals.raw_value_of("a"), None);
    assert!(context.log.is_empty());
}

#[test]
fn set_local_without_a_name_is_reported() {
    let def = FnDef::new("f");
    let mut locals = VarBindingList::new();
    let mut context = Context::new();
    def.do_set_local("=1", &mut locals, &mut context);
    def.do_set_local("novalue", &mut locals, &mut context);
    assert_eq!(locals.len(), 0);
    assert_eq!(
        log_of(&context),
        vec![
            (Severity::Error, "Invalid set local: =1".to_string()),
            (Severity::Error, "Invalid set local: novalue".to_string()),
        ]
    );
}

#[test]
fn set_global_binds_in_the_globals() {
    let def = FnDef::new("f");
    let mut context = Context::new();
    def.do_set_global("g=str:x", &mut context);
    assert_eq!(context.globals.raw_value_of("g"), Some("str:x"));
    def.do_set_global("", &mut context);
    assert_eq!(log_of(&context), vec![(Severity::Error, "Invalid set global: ".to_string())]);
}

#[test]
fn plus_adds_numbers_and_joins_texts() {
    let def = FnDef::new("f");
    let mut context = Context::new();
    assert_eq!(def.do_x_op_y("+", "int:200", "int:2", &mut context), "int:202");
    assert_eq!(def.do_x_op_y("+", "int:-5", "int:2", &mut context), "int:-3");
    assert_eq!(def.do_x_op_y("+", "str:Hello", "World", &mut context), "str:HelloWorld");
    assert_eq!(def.do_x_op_y("+", "int:1", "str:a", &mut context), "str:1a");
    assert_eq!(def.do_x_op_y("+", "", "", &mut context), "str:");
    assert_eq!(def.do_x_op_y("+", "int:x", "int:2", &mut context), "int:2");
    assert_eq!(
        def.do_x_op_y("+", "int:9223372036854775807", "int:1", &mut context),
        "int:9223372036854775808"
    );
    assert!(context.log.is_empty());
}

#[test]
fn minus_and_times_need_numbers() {
    let def = FnDef::new("f");
    let mut context = Context::new();
    assert_eq!(def.do_x_op_y("-", "int:202", "int:2", &mut context), "int:200");
    assert_eq!(def.do_x_op_y("-", "int:2", "int:5", &mut context), "int:-3");
    assert_eq!(def.do_x_op_y("*", "int:-6", "int:7", &mut context), "int:-42");
    assert_eq!(
        def.do_x_op_y("*", "int:-9223372036854775808", "int:-9223372036854775808", &mut context),
        "int:85070591730234615865843651857942052864"
    );
    assert!(context.log.is_empty());
    assert_eq!(def.do_x_op_y("-", "str:a", "int:2", &mut context), "");
    assert_eq!(def.do_x_op_y("*", "int:2", "2", &mut context), "");
    assert_eq!(
        log_of(&context),
        vec![
            (Severity::Error, "No value for: str:a - int:2".to_string()),
            (Severity::Error, "No value for: int:2 * 2".to_string()),
        ]
    );
}

#[test]
fn division_and_unknown_operators_have_no_value() {
    let def = FnDef::new("f");
    let mut context = Context::new();
    assert_eq!(def.do_x_op_y("/", "float:1.0", "float:2.0", &mut context), "");
    assert_eq!(def.do_x_op_y("/", "int:4", "int:2", &mut context), "");
    assert_eq!(def.do_x_op_y("%", "int:4", "int:2", &mut context), "");
    assert_eq!(def.do_x_op_y("", "int:4", "int:2", &mut context), "");
    assert_eq!(
        log_of(&context),
        vec![
            (Severity::Error, "No value for: float:1.0 / float:2.0".to_string()),
            (Severity::Error, "No value for: int:4 / int:2".to_string()),
            (Severity::Error, "Unsupported set var op: %".to_string()),
            (Severity::Error, "Unsupported set var op: ".to_string()),
        ]
    );
}

#[test]
fn assignment_picks_the_scope_by_its_operator() {
    let def = FnDef::new("f");
    let mut locals = VarBindingList::new();
    let mut context = Context::new();
    def.do_assign("a", "=", "int:1", &mut context, &mut locals);
    def.do_assign("a", ":=", "int:2", &mut context, &mut locals);
    assert_eq!(locals.raw_value_of("a"), Some("int:1"));
    assert_eq!(context.globals.raw_value_of("a"), Some("int:2"));
    def.do_assign("a", "+=", "int:10", &mut context, &mut locals);
    assert_eq!(locals.raw_value_of("a"), Some("int:11"));
    assert_eq!(context.globals.raw_value_of("a"), Some("int:2"));
    def.do_assign("g", ":=", "int:5", &mut context, &mut locals);
    def.do_assign("g", "*=", "int:3", &mut context, &mut locals);
    assert_eq!(context.globals.raw_value_of("g"), Some("int:15"));
    assert_eq!(locals.raw_value_of("g"), None);
    def.do_assign("g", "?", "int:3", &mut context, &mut locals);
    assert_eq!(context.globals.raw_value_of("g"), Some("int:15"));
    assert!(context.log.is_empty());
}

#[test]
fn compound_assignment_to_an_unbound_name_is_reported() {
    let def = FnDef::new("f");
    let mut locals = VarBindingList::new();
    let mut context = Context::new();
    def.do_assign("nobody", "+=", "int:1", &mut context, &mut locals);
    assert_eq!(locals.len(), 0);
    assert_eq!(context.globals.len(), 0);
    assert_eq!(
        log_of(&context),
        vec![(Severity::Error, "Assign to undefined var: nobody".to_string())]
    );
}

#[test]
fn compound_assignment_without_value_unbinds() {
    let def = FnDef::new("f");
    let mut locals = VarBindingList::new();
    locals.set_binding("a", "str:x");
    let mut context = Context::new();
    def.do_assign("a", "-=", "int:1", &mut context, &mut locals);
    assert_eq!(locals.raw_value_of("a"), None);
    assert_eq!(
        log_of(&context),
        vec![(Severity::Error, "No value for: str:x - int:1".to_string())]
    );
}

#[test]
fn set_var_needs_name_operator_and_operand() {
    let def = FnDef::new("f");
    let mut locals = VarBindingList::new();
    let mut context = Context::new();
    def.do_set_var(&Stmt::new_set_var("", "=", "int:1"), &mut context, &mut locals);
    def.do_set_var(&Stmt::new_set_var("a", "", "int:1"), &mut context, &mut locals);
    def.do_set_var(&Stmt::new_set_var("a", "=", ""), &mut context, &mut locals);
    def.do_set_var(&Stmt::new_set_var("a", "=", "var:nothing"), &mut context, &mut locals);
    assert_eq!(locals.len(), 0);
    let text = "Set var requires named args at least: varname, op1, operand1".to_string();
    assert_eq!(
        log_of(&context),
        vec![
            (Severity::Error, text.clone()),
            (Severity::Error, text.clone()),
            (Severity::Error, text.clone()),
            (Severity::Error, text),
        ]
    );
}

#[test]
fn set_var_with_half_a_second_operand_does_nothing() {
    let def = FnDef::new("f");
    let mut locals = VarBindingList::new();
    let mut context = Context::new();
    def.do_set_var(&Stmt::new_set_var_ex("a", "=", "int:1", "+", ""), &mut context, &mut locals);
    assert_eq!(locals.len(), 0);
    assert_eq!(
        log_of(&context),
        vec![(Severity::Error, "Both $op2 and $operand2 are required".to_string())]
    );
}

#[test]
fn set_var_resolves_its_arguments_through_locals_and_globals() {
    let def = FnDef::new("f");
    let mut locals = VarBindingList::new();
    locals.set_binding("target", "t");
    locals.set_binding("x", "int:4");
    let mut context = Context::new();
    context.globals.set_binding("y", "int:6");
    let stmt = Stmt::new_set_var_ex("var:target", "=", "var:x", "*", "var:y");
    def.do_set_var(&stmt, &mut context, &mut locals);
    assert_eq!(locals.raw_value_of("t"), Some("int:24"));
}

#[test]
fn step_runs_one_statement() {
    let def = function_of(
        "f",
        vec![Stmt::new_set_local("a=1"), Stmt::new_return("var:a")],
    );
    let engine = Engine::new();
    let table = def.build_loop_table().unwrap();
    let mut frame = Activation::new(&VarBindingList::new(), 2);
    let mut context = Context::new();
    assert!(matches!(
        def.step(&engine, &table, &mut frame, &mut context, 10),
        Stepped::Continue(0)
    ));
    assert_eq!(frame.eip, 1);
    assert_eq!(frame.locals.raw_value_of("a"), Some("1"));
    let stepped = def.step(&engine, &table, &mut frame, &mut context, 10);
    let outcome = match stepped {
        Stepped::Finish(outcome) => outcome,
        Stepped::Continue(_) => panic!("the call went on"),
    };
    assert_eq!(outcome.result, Ok(()));
    assert!(!outcome.aborted);
    assert_eq!(outcome.used, 0);
    assert_eq!(context.globals.raw_value_of("$return"), Some("1"));
}

#[test]
fn run_counts_the_statements_that_it_executed() {
    let mut engine = Engine::new();
    engine.add_fn(function_of(
        "inner",
        vec![Stmt::new_set_global("a=1"), Stmt::new_set_global("b=1")],
    ));
    let outer = function_of(
        "outer",
        vec![
            Stmt::new_loop(3),
            Stmt::new_call_fn("inner", VarBindingList::new()),
            Stmt::new_end_loop(),
            Stmt::new_return("1"),
            Stmt::new_set_global("never=1"),
        ],
    );
    let mut context = Context::new();
    let outcome = outer.run(&VarBindingList::new(), &mut context, &engine, 100);
    assert_eq!(outcome.result, Ok(()));
    assert!(!outcome.aborted);
    // four times the loop, three times the call, two statements each, three
    // times the end of the loop, and the return
    assert_eq!(outcome.used, 4 + 3 + 6 + 3 + 1);
    let exact = outer.run(&VarBindingList::new(), &mut context, &engine, 17);
    assert_eq!(exact.result, Ok(()));
    let short = outer.run(&VarBindingList::new(), &mut context, &engine, 16);
    assert!(short.aborted);
    assert_eq!(short.used, 16);
}

#[test]
fn activation_copies_the_arguments() {
    let mut args = VarBindingList::new();
    args.set_binding("p", "1");
    let frame = Activation::new(&args, 3);
    assert_eq!(frame.eip, 0);
    assert_eq!(frame.locals.raw_value_of("p"), Some("1"));
    assert_eq!(frame.scratch.len(), 3);
    assert!(frame.scratch.iter().all(|s| s.is_none()));
    assert_eq!(frame.result, Ok(()));
}

#[test]
fn run_tells_a_fatal_end_from_a_failed_call() {
    let engine = Engine::new();
    let mut context = Context::new();
    let failed = call_fn(&engine, "missing", &VarBindingList::new(), &mut context, 5);
    assert!(!failed.aborted);
    assert_eq!(failed.result, Err("No such fn: missing".to_string()));
    let missing = call_ins(&engine, "missing", &VarBindingList::new(), &mut context);
    assert!(!missing.aborted);
    let bad = function_of("bad", vec![Stmt::new_end_loop()]);
    let outcome = bad.run(&VarBindingList::new(), &mut context, &engine, 5);
    assert!(outcome.aborted);
    assert_eq!(outcome.result, Err("Unpaired endloop in function: bad line: 0".to_string()));
}

#[test]
fn loop_rounds_multiply_when_loops_are_nested() {
    let mut context = Context::new();
    context.globals.set_binding("n", "int:0");
    let result = run(
        vec![
            Stmt::new_loop(4),
            Stmt::new_loop(5),
            Stmt::new_loop(2),
            Stmt::new_set_var("n", "+=", "int:1"),
            Stmt::new_end_loop(),
            Stmt::new_end_loop(),
            Stmt::new_end_loop(),
        ],
        &mut context,
    );
    assert_eq!(result, Ok(()));
    assert_eq!(context.globals.raw_value_of("n"), Some("int:40"));
}
