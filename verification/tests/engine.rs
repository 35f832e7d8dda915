use logic_engine::engine::{Context, Engine, LogRecord, Severity};
use logic_engine::function::FnDef;
use logic_engine::instruction::InstDef;
use logic_engine::statement::Stmt;
use logic_engine::variable::{VarBindingList, VarDef};

#[test]
fn it_works() {}

#[test]
fn test_exec_fn() {
    let engine = {
        let mut fn1 = FnDef::new("fn1");
        fn1.add_stmt(Stmt::new_call_fn("fn2", VarBindingList::new()));
        fn1.add_stmt(Stmt::new_set_global("a=1"));
        fn1.add_stmt(Stmt::new_return("123")); // returns here
        fn1.add_stmt(Stmt::new_set_global("a=2")); // never execute this statement

        let mut fn2 = FnDef::new("fn2");
        fn2.add_stmt(Stmt::new_set_global("a=3"));

        let mut engine = Engine::new();
        engine.add_fn(fn1);
        engine.add_fn(fn2);
        engine
    };

    let mut context = Context::new();
    let args = VarBindingList::new();
    let result = engine.exec_fn("fn2", &args, &mut context);
    assert!(result.is_ok());
    assert_eq!(context.globals.raw_value_of("a"), Some("3")); // ensures fn2 was executed correctly
    assert_eq!(context.globals.raw_value_of("$return"), None); // fn2 returns nothing

    let result = engine.exec_fn("fn1", &args, &mut context);
    assert!(result.is_ok());
    // ensures fn1 was executed, and it returned before statement "a=2"
    assert_eq!(context.globals.raw_value_of("a"), Some("1"));
    assert_eq!(context.globals.raw_value_of("$return"), Some("123")); // fn1 returns "123"
}

#[test]
fn test_set_var() {
    let engine = {
        let mut fndef = FnDef::new("foo");
        fndef.add_stmt(Stmt::new_set_var("a", "=", "Hello")); // a = "Hello" (str)
        fndef.add_stmt(Stmt::new_set_var("b", "=", "var:a"));
        fndef.add_stmt(Stmt::new_set_var("a", "+=", "World"));
        fndef.add_stmt(Stmt::new_set_var("b", "+=", "var:a"));
        fndef.add_stmt(Stmt::new_set_var("g1", ":=", "100"));
        fndef.add_stmt(Stmt::new_set_var("g2", ":=", "var:b"));
        fndef.add_stmt(Stmt::new_set_var("gi1", ":=", "int:200")); // gi1 = 200 (int)
        fndef.add_stmt(Stmt::new_set_var("gi1", "+=", "int:2")); // gi1 += 2
        fndef.add_stmt(Stmt::new_set_var_ex("gi2", ":=", "var:gi1", "-", "int:2")); // gi2 := gi1 - 2
        let mut engine = Engine::new();
        engine.add_fn(fndef);
        engine
    };
    let mut context = Context::new();

    engine.exec_fn("foo", &VarBindingList::new(), &mut context).expect("ok");
    assert_eq!(context.globals.eval_var("g1", None, None), Some("100".to_string()));
    assert_eq!(context.globals.eval_var("g2", None, None), Some("str:HelloHelloWorld".to_string())); // string join_text
    assert_eq!(context.globals.eval_var("gi1", None, None), Some("int:202".to_string())); // integer add
    assert_eq!(context.globals.eval_var("gi2", None, None), Some("int:200".to_string()));
}

#[test]
fn test_loop() {
    let engine = {
        let mut foo = FnDef::new("foo");
        foo.add_stmt(Stmt::new_set_global("s=str:"));
        foo.add_stmt(Stmt::new_set_global("x=int:0"));
        foo.add_stmt(Stmt::new_set_global("y=int:100"));
        foo.add_stmt(Stmt::new_set_global("z=0"));
        foo.add_stmt(Stmt::new_loop(3)); // loop1  x3
        foo.add_stmt(Stmt::new_set_var("s", "+=", "Hi"));
        foo.add_stmt(Stmt::new_loop(6)); // loop2  x6
        foo.add_stmt(Stmt::new_set_var("x", "+=", "int:1"));
        foo.add_stmt(Stmt::new_end_loop()); // endloop2
        foo.add_stmt(Stmt::new_set_var("y", "-=", "int:5"));
        foo.add_stmt(Stmt::new_end_loop()); // endloop1
        foo.add_stmt(Stmt::new_set_global("z=1"));

        let mut engine = Engine::new();
        engine.add_fn(foo);
        engine
    };

    let mut context = Context::new();
    let args = VarBindingList::new();

    // execute fn foo more than one time (to test cleanup of rtargs of loop statements)
    for _i in 0..2 {
        let result = engine.exec_fn("foo", &args, &mut context);
        assert!(result.is_ok());
        assert_eq!(context.globals.eval_var("z", None, None), Some("1".to_string())); // fn foo exits normally
        assert_eq!(context.globals.eval_var("s", None, None), Some("str:HiHiHi".to_string())); // Hi x3
        assert_eq!(context.globals.eval_var("y", None, None), Some("int:85".to_string())); // 100 - 5x3
        assert_eq!(context.globals.eval_var("x", None, None), Some("int:18".to_string())); // 0 + 1x6x3
    }
}

fn texts(context: &Context) -> Vec<(Severity, String)> {
    context.log.iter().map(|r| (r.severity, r.text.clone())).collect()
}

fn engine_with(defs: Vec<FnDef>) -> Engine {
    let mut engine = Engine::new();
    for def in defs {
        engine.add_fn(def);
    }
    engine
}

fn function(name: &str, stmts: Vec<Stmt>) -> FnDef {
    let mut def = FnDef::new(name);
    for stmt in stmts {
        def.add_stmt(stmt);
    }
    def
}

#[test]
fn context_starts_empty_with_the_largest_budget() {
    let context = Context::new();
    assert_eq!(context.globals.len(), 0);
    assert!(context.log.is_empty());
    assert!(context.frames.is_empty());
    assert_eq!(context.budget, u64::MAX);
}

#[test]
fn log_records_carry_their_severity() {
    let mut context = Context::new();
    context.log_info("a");
    context.log_warning("b");
    context.log_error("c");
    context.log_fatal("d");
    assert_eq!(
        texts(&context),
        vec![
            (Severity::Info, "a".to_string()),
            (Severity::Warning, "b".to_string()),
            (Severity::Error, "c".to_string()),
            (Severity::Fatal, "d".to_string()),
        ]
    );
    let lines: Vec<String> = context.log.iter().map(|r| r.line()).collect();
    assert_eq!(lines, vec!["[info] a", "[Warning] b", "[ERROR] c", "[!!FATAL!!] d"]);
}

#[test]
fn line_of_a_record() {
    let record = LogRecord { severity: Severity::Error, text: "No such fn: x".to_string() };
    assert_eq!(record.line(), "[ERROR] No such fn: x");
}

#[test]
fn registries_find_by_exact_name() {
    let mut engine = Engine::new();
    assert!(engine.find_fn("f").is_none());
    assert!(engine.find_ins("i").is_none());
    engine.add_fn(FnDef::new("f"));
    engine.add_ins(InstDef::new("i", 7));
    assert_eq!(engine.find_fn("f").unwrap().name, "f");
    assert_eq!(engine.find_ins("i").unwrap().canid, 7);
    assert!(engine.find_fn("F").is_none());
    assert!(engine.find_fn("i").is_none());
    assert!(engine.find_ins("f").is_none());
}

#[test]
fn a_later_definition_replaces_an_earlier_one_of_that_name() {
    let mut engine = Engine::new();
    engine.add_ins(InstDef::new("i", 1));
    engine.add_ins(InstDef::new("i", 2));
    assert_eq!(engine.find_ins("i").unwrap().canid, 2);
    engine.add_fn(function("f", vec![Stmt::new_set_global("a=1")]));
    engine.add_fn(function("f", vec![Stmt::new_set_global("a=2")]));
    let mut context = Context::new();
    engine.exec_fn("f", &VarBindingList::new(), &mut context).unwrap();
    assert_eq!(context.globals.raw_value_of("a"), Some("2"));
}

#[test]
fn a_call_of_an_unknown_function_fails_and_is_logged() {
    let engine = Engine::new();
    let mut context = Context::new();
    context.globals.set_binding("$return", "old");
    let result = engine.exec_fn("nope", &VarBindingList::new(), &mut context);
    assert_eq!(result, Err("No such fn: nope".to_string()));
    assert_eq!(texts(&context), vec![(Severity::Error, "No such fn: nope".to_string())]);
    assert_eq!(context.globals.raw_value_of("$return"), Some("old"));
}

#[test]
fn a_call_of_an_unknown_instruction_fails_and_is_logged() {
    let engine = Engine::new();
    let mut context = Context::new();
    let result = engine.exec_ins("nope", &VarBindingList::new(), &mut context);
    assert_eq!(result, Err("No such instruction: nope".to_string()));
    assert_eq!(
        texts(&context),
        vec![(Severity::Error, "No such instruction: nope".to_string())]
    );
    assert!(context.frames.is_empty());
}

fn move_radar() -> InstDef {
    let mut movr = InstDef::new("move radar", 1000);
    movr.args.add(VarDef::new("a", "i32"));
    movr.args.add(VarDef::new("b", "u8"));
    movr.args.add(VarDef::new("c", "u16"));
    movr.args.add(VarDef::new("d", "u8"));
    movr
}

fn radar_args() -> VarBindingList {
    let mut args = VarBindingList::new();
    args.set_binding("a", "1357900");
    args.set_binding("b", "255");
    args.set_binding("c", "25135");
    args.set_binding("d", "0");
    args
}

#[test]
fn exec_ins_emits_the_frame() {
    let mut engine = Engine::new();
    engine.add_ins(move_radar());
    let mut context = Context::new();
    assert_eq!(engine.exec_ins("move radar", &radar_args(), &mut context), Ok(()));
    assert_eq!(context.frames, vec![vec![0x00, 0x14, 0xb8, 0x4c, 0xff, 0x62, 0x2f, 0x00]]);
    assert!(context.log.is_empty());
}

#[test]
fn exec_ins_emits_no_frame_that_cannot_be_encoded() {
    let mut engine = Engine::new();
    engine.add_ins(move_radar());
    let mut context = Context::new();
    let mut args = radar_args();
    args.set_binding("b", "256");
    let result = engine.exec_ins("move radar", &args, &mut context);
    assert_eq!(result, Err("Invalid value of arg: b".to_string()));
    assert!(context.frames.is_empty());
    assert_eq!(texts(&context), vec![(Severity::Fatal, "Invalid value of arg: b".to_string())]);
}

#[test]
fn a_function_emits_one_frame_for_each_call_of_an_instruction() {
    let mut engine = engine_with(vec![function(
        "f",
        vec![
            Stmt::new_loop(2),
            Stmt::new_call_ins("move radar", radar_args()),
            Stmt::new_end_loop(),
        ],
    )]);
    engine.add_ins(move_radar());
    let mut context = Context::new();
    assert_eq!(engine.exec_fn("f", &VarBindingList::new(), &mut context), Ok(()));
    let frame = vec![0x00, 0x14, 0xb8, 0x4c, 0xff, 0x62, 0x2f, 0x00];
    assert_eq!(context.frames, vec![frame.clone(), frame]);
}

#[test]
fn a_frame_that_cannot_be_encoded_ends_the_whole_run() {
    let mut bad = radar_args();
    bad.set_binding("a", "");
    let mut engine = engine_with(vec![
        function(
            "outer",
            vec![
                Stmt::new_set_global("before=1"),
                Stmt::new_call_fn("inner", VarBindingList::new()),
                Stmt::new_set_global("after=1"),
            ],
        ),
        function(
            "inner",
            vec![Stmt::new_call_ins("move radar", bad), Stmt::new_set_global("inner=1")],
        ),
    ]);
    engine.add_ins(move_radar());
    let mut context = Context::new();
    let result = engine.exec_fn("outer", &VarBindingList::new(), &mut context);
    assert_eq!(result, Err("Missing arg: a".to_string()));
    assert_eq!(context.globals.raw_value_of("before"), Some("1"));
    assert_eq!(context.globals.raw_value_of("inner"), None);
    assert_eq!(context.globals.raw_value_of("after"), None);
    assert!(context.frames.is_empty());
    assert_eq!(texts(&context), vec![(Severity::Fatal, "Missing arg: a".to_string())]);
}

#[test]
fn a_failed_call_does_not_stop_the_statements_after_it() {
    let engine = engine_with(vec![function(
        "f",
        vec![
            Stmt::new_call_fn("missing", VarBindingList::new()),
            Stmt::new_set_global("a=1"),
        ],
    )]);
    let mut context = Context::new();
    let result = engine.exec_fn("f", &VarBindingList::new(), &mut context);
    assert_eq!(result, Err("No such fn: missing".to_string()));
    assert_eq!(context.globals.raw_value_of("a"), Some("1"));
}

#[test]
fn the_result_is_that_of_the_last_call() {
    let engine = engine_with(vec![
        function(
            "f",
            vec![
                Stmt::new_call_fn("missing", VarBindingList::new()),
                Stmt::new_call_fn("ok", VarBindingList::new()),
            ],
        ),
        function("ok", vec![]),
        function(
            "g",
            vec![
                Stmt::new_call_ins("missing", VarBindingList::new()),
                Stmt::new_return("1"),
            ],
        ),
    ]);
    let mut context = Context::new();
    assert_eq!(engine.exec_fn("f", &VarBindingList::new(), &mut context), Ok(()));
    assert_eq!(
        engine.exec_fn("g", &VarBindingList::new(), &mut context),
        Err("No such instruction: missing".to_string())
    );
    assert_eq!(context.globals.raw_value_of("$return"), Some("1"));
}

#[test]
fn the_budget_ends_a_function_that_calls_itself() {
    let engine = engine_with(vec![function(
        "again",
        vec![
            Stmt::new_set_var("n", "+=", "int:1"),
            Stmt::new_call_fn("again", VarBindingList::new()),
        ],
    )]);
    let mut context = Context::new();
    context.budget = 20;
    context.globals.set_binding("n", "int:0");
    let result = engine.exec_fn("again", &VarBindingList::new(), &mut context);
    assert_eq!(result, Err("Statement budget used up".to_string()));
    assert_eq!(context.globals.raw_value_of("n"), Some("int:10"));
    assert_eq!(
        texts(&context),
        vec![(Severity::Fatal, "Statement budget used up".to_string())]
    );
    assert_eq!(context.budget, 20);
}

#[test]
fn the_budget_counts_the_statements_of_one_call() {
    let engine = engine_with(vec![function(
        "f",
        vec![
            Stmt::new_set_global("a=1"),
            Stmt::new_set_global("b=1"),
            Stmt::new_set_global("c=1"),
        ],
    )]);
    let mut context = Context::new();
    context.budget = 3;
    assert_eq!(engine.exec_fn("f", &VarBindingList::new(), &mut context), Ok(()));
    let mut context = Context::new();
    context.budget = 2;
    assert_eq!(
        engine.exec_fn("f", &VarBindingList::new(), &mut context),
        Err("Statement budget used up".to_string())
    );
    assert_eq!(context.globals.raw_value_of("b"), Some("1"));
    assert_eq!(context.globals.raw_value_of("c"), None);
    let mut context = Context::new();
    context.budget = 0;
    let empty = engine_with(vec![function("e", vec![])]);
    assert_eq!(empty.exec_fn("e", &VarBindingList::new(), &mut context), Ok(()));
}

#[test]
fn the_budget_counts_the_statements_of_called_functions() {
    let engine = engine_with(vec![
        function(
            "f",
            vec![
                Stmt::new_call_fn("g", VarBindingList::new()),
                Stmt::new_call_fn("g", VarBindingList::new()),
            ],
        ),
        function(
            "g",
            vec![
                Stmt::new_set_global("a=1"),
                Stmt::new_set_global("b=1"),
                Stmt::new_set_var("n", "+=", "int:1"),
            ],
        ),
    ]);
    let mut context = Context::new();
    context.globals.set_binding("n", "int:0");
    context.budget = 8;
    assert_eq!(engine.exec_fn("f", &VarBindingList::new(), &mut context), Ok(()));
    assert_eq!(context.globals.raw_value_of("n"), Some("int:2"));
    context.globals.set_binding("n", "int:0");
    context.budget = 7;
    assert_eq!(
        engine.exec_fn("f", &VarBindingList::new(), &mut context),
        Err("Statement budget used up".to_string())
    );
    assert_eq!(context.globals.raw_value_of("n"), Some("int:1"));
}

#[test]
fn arguments_of_a_call_are_the_locals_of_the_callee() {
    let mut call_args = VarBindingList::new();
    call_args.set_binding("p", "int:5");
    let engine = engine_with(vec![
        function("caller", vec![Stmt::new_call_fn("callee", call_args)]),
        function(
            "callee",
            vec![
                Stmt::new_set_var("p", "+=", "int:1"),
                Stmt::new_set_var("out", ":=", "var:p"),
            ],
        ),
    ]);
    let mut context = Context::new();
    assert_eq!(engine.exec_fn("caller", &VarBindingList::new(), &mut context), Ok(()));
    assert_eq!(context.globals.raw_value_of("out"), Some("int:6"));
    assert_eq!(context.globals.raw_value_of("p"), None);
}

#[test]
fn a_function_that_calls_itself_in_a_loop_keeps_its_own_counters() {
    let engine = engine_with(vec![function(
        "f",
        vec![
            Stmt::new_set_var("depth", "+=", "int:1"),
            Stmt::new_loop(2),
            Stmt::new_set_var("visits", "+=", "int:1"),
            Stmt::new_call_fn("g", VarBindingList::new()),
            Stmt::new_end_loop(),
        ],
    ), function(
        "g",
        vec![
            Stmt::new_loop(3),
            Stmt::new_set_var("inner", "+=", "int:1"),
            Stmt::new_end_loop(),
        ],
    )]);
    let mut context = Context::new();
    context.globals.set_binding("depth", "int:0");
    context.globals.set_binding("visits", "int:0");
    context.globals.set_binding("inner", "int:0");
    assert_eq!(engine.exec_fn("f", &VarBindingList::new(), &mut context), Ok(()));
    assert_eq!(context.globals.raw_value_of("visits"), Some("int:2"));
    assert_eq!(context.globals.raw_value_of("inner"), Some("int:6"));
}
