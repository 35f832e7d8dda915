use logic_engine::statement::{Stmt, StmtKind};
use logic_engine::variable::VarBindingList;

#[test]
fn test_rt_args() {
    let mut init_args = VarBindingList::new();
    init_args.set_binding("z", "200");

    let mut stmt = Stmt::new_loop(6);
    stmt.rtargs_init(&init_args);
    let a = stmt.rtargs_eval_var("a", None, None);
    assert_eq!(a, None);
    stmt.rtargs_set("a", "123");
    let a = stmt.rtargs_eval_var("a", None, None);
    assert_eq!(a, Some("123".to_string()));
    stmt.rtargs_set("b", "var:a");
    let b = stmt.rtargs_eval_var("b", None, None);
    assert_eq!(b, Some("123".to_string()));
    let b = stmt.rtargs_eval("var:b", None, None);
    assert_eq!(b, Some("123".to_string()));
    let c = stmt.rtargs_eval_var("c", None, None);
    assert_eq!(c, None);
    let z = stmt.rtargs_eval_var("z", None, None);
    assert_eq!(z, Some("200".to_string())); // init args works

    stmt.rtargs_clean();
    let a = stmt.rtargs_eval_var("a", None, None);
    assert_eq!(a, None);
    let b = stmt.rtargs_eval_var("b", None, None);
    assert_eq!(b, None);
}

#[test]
fn new_loop_keeps_the_count_in_its_arguments() {
    let stmt = Stmt::new_loop(4294967295);
    assert_eq!(stmt.kind, StmtKind::Loop);
    assert_eq!(stmt.content, "");
    assert_eq!(stmt.args.raw_value_of("$count"), Some("4294967295"));
    assert_eq!(stmt.args.len(), 1);
    assert!(stmt.note.is_none());
    assert!(stmt.rt_args.is_none());
    assert_eq!(Stmt::new_loop(0).args.raw_value_of("$count"), Some("0"));
}

#[test]
fn builders_set_kind_and_content() {
    assert_eq!(Stmt::new_end_loop().kind, StmtKind::EndLoop);
    let ret = Stmt::new_return("var:x");
    assert_eq!(ret.kind, StmtKind::Return);
    assert_eq!(ret.content, "var:x");
    let local = Stmt::new_set_local("a=1");
    assert_eq!(local.kind, StmtKind::SetLocal);
    assert_eq!(local.content, "a=1");
    let global = Stmt::new_set_global("g=2");
    assert_eq!(global.kind, StmtKind::SetGlobal);
    assert_eq!(global.content, "g=2");
    let plain = Stmt::new(StmtKind::SetVar, "x");
    assert_eq!(plain.kind, StmtKind::SetVar);
    assert_eq!(plain.content, "x");
    assert_eq!(plain.args.len(), 0);
}

#[test]
fn call_builders_keep_their_arguments() {
    let mut args = VarBindingList::new();
    args.set_binding("a", "1");
    let ins = Stmt::new_call_ins("move", args.clone());
    assert_eq!(ins.kind, StmtKind::CallIns);
    assert_eq!(ins.content, "move");
    assert_eq!(ins.args.raw_value_of("a"), Some("1"));
    let call = Stmt::new_call_fn("f", args.clone());
    assert_eq!(call.kind, StmtKind::CallFn);
    assert_eq!(call.content, "f");
    assert_eq!(call.args.raw_value_of("a"), Some("1"));
    let with = Stmt::new_with_args(StmtKind::Loop, "", args);
    assert_eq!(with.args.raw_value_of("a"), Some("1"));
}

#[test]
fn new_set_var_binds_three_arguments() {
    let stmt = Stmt::new_set_var("x", "+=", "int:1");
    assert_eq!(stmt.kind, StmtKind::SetVar);
    assert_eq!(stmt.args.raw_value_of("$varname"), Some("x"));
    assert_eq!(stmt.args.raw_value_of("$op1"), Some("+="));
    assert_eq!(stmt.args.raw_value_of("$operand1"), Some("int:1"));
    assert_eq!(stmt.args.raw_value_of("$op2"), None);
    assert_eq!(stmt.args.raw_value_of("$operand2"), None);
}

#[test]
fn new_set_var_ex_leaves_out_what_is_empty() {
    let full = Stmt::new_set_var_ex("x", "=", "int:1", "+", "int:2");
    assert_eq!(full.args.raw_value_of("$op2"), Some("+"));
    assert_eq!(full.args.raw_value_of("$operand2"), Some("int:2"));
    let half = Stmt::new_set_var_ex("x", "=", "int:1", "+", "");
    assert_eq!(half.args.raw_value_of("$op2"), Some("+"));
    assert_eq!(half.args.raw_value_of("$operand2"), None);
    let other = Stmt::new_set_var_ex("x", "=", "int:1", "", "int:2");
    assert_eq!(other.args.raw_value_of("$op2"), None);
    assert_eq!(other.args.raw_value_of("$operand2"), None);
    let bare = Stmt::new_set_var_ex("", "", "", "", "");
    assert_eq!(bare.args.len(), 0);
}

#[test]
fn rtargs_set_with_empty_value_removes() {
    let mut stmt = Stmt::new_loop(1);
    stmt.rtargs_init(&VarBindingList::new());
    stmt.rtargs_set("a", "1");
    stmt.rtargs_set("a", "");
    assert_eq!(stmt.rtargs_eval_var("a", None, None), None);
    assert_eq!(stmt.kind, StmtKind::Loop);
    assert_eq!(stmt.args.raw_value_of("$count"), Some("1"));
}

#[test]
fn rtargs_eval_looks_into_further_scopes() {
    let mut outer = VarBindingList::new();
    outer.set_binding("g", "int:9");
    let mut stmt = Stmt::new_loop(1);
    assert_eq!(stmt.rtargs_eval("int:1", None, None), None);
    stmt.rtargs_init(&VarBindingList::new());
    stmt.rtargs_set("a", "var:g");
    assert_eq!(stmt.rtargs_eval("var:a", Some(&outer), None), Some("int:9".to_string()));
    assert_eq!(stmt.rtargs_eval_var("a", None, Some(&outer)), Some("int:9".to_string()));
    assert_eq!(stmt.rtargs_eval("int:1", None, None), Some("int:1".to_string()));
}
