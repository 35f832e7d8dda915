//! The engine, which holds the definitions of instructions and functions by
//! name, and the context of a run: the global variables, the log and the
//! frames that were emitted.

use vstd::prelude::*;
use vstd::hash_map::StringHashMap;
use vstd::string::StringExecFns;
use crate::function::{call_fn, call_ins, FnDef};
use crate::semantics::{call_fn_spec, call_ins_spec, result_view};
use crate::instruction::InstDef;
use crate::loops::{has_unpaired_end, kinds_of, lemma_fault_is_first_unpaired_end};
use crate::variable::{Scope, VarBindingList};

verus! {

/// How grave a log record is.
#[derive(Debug, Clone, Copy, PartialEq, Eq, Structural)]
pub enum Severity {
    Info,
    Warning,
    Error,
    Fatal,
}

/// One record of the log.
#[derive(Debug)]
pub struct LogRecord {
    pub severity: Severity,
    pub text: String,
}

/// A log record as the contracts see it.
pub ghost struct LogEntry {
    pub severity: Severity,
    pub text: Seq<char>,
}

impl View for LogRecord {
    type V = LogEntry;

    open spec fn view(&self) -> LogEntry {
        LogEntry { severity: self.severity, text: self.text@ }
    }
}

impl LogRecord {
    /// The record as one line of text: the severity in brackets, then the text.
    pub fn line(&self) -> (r: String)
        ensures
            r@ == severity_label(self.severity) + self.text@,
    {
        let label = match self.severity {
            Severity::Info => "[info] ",
            Severity::Warning => "[Warning] ",
            Severity::Error => "[ERROR] ",
            Severity::Fatal => "[!!FATAL!!] ",
        };
        let mut out = String::from_str(label);
        out.append(self.text.as_str());
        out
    }
}

/// The text that a line of the log begins with.
pub open spec fn severity_label(severity: Severity) -> Seq<char> {
    match severity {
        Severity::Info => "[info] "@,
        Severity::Warning => "[Warning] "@,
        Severity::Error => "[ERROR] "@,
        Severity::Fatal => "[!!FATAL!!] "@,
    }
}

/// What a run works on, as the contracts see it.
#[verifier::ext_equal]
pub ghost struct ContextView {
    pub globals: Scope,
    pub log: Seq<LogEntry>,
    pub frames: Seq<Seq<u8>>,
}

impl ContextView {
    /// The context with one more log record.
    pub open spec fn logged(self, severity: Severity, text: Seq<char>) -> ContextView {
        ContextView { log: self.log.push(LogEntry { severity, text }), ..self }
    }

    /// The context with one more frame.
    pub open spec fn emitted(self, frame: Seq<u8>) -> ContextView {
        ContextView { frames: self.frames.push(frame), ..self }
    }

    /// The context with other global variables.
    pub open spec fn with_globals(self, globals: Scope) -> ContextView {
        ContextView { globals, ..self }
    }
}

/// What a run works on. One context serves many runs, one after the other.
#[derive(Debug)]
pub struct Context {
    /// The global variables.
    pub globals: VarBindingList,
    /// What was reported, oldest first.
    pub log: Vec<LogRecord>,
    /// The instruction frames that were emitted, oldest first.
    pub frames: Vec<Vec<u8>>,
    /// How many statements a run may execute, those of the functions that it
    /// calls among them. A call that has statements left and no budget ends
    /// the whole run with a fatal error.
    ///
    /// The budget also bounds how deep calls nest. A host that runs
    /// functions which may call themselves without end sets a budget that
    /// its stack can hold: each nested call takes room on the stack of the
    /// host.
    pub budget: u64,
}

impl View for Context {
    type V = ContextView;

    open spec fn view(&self) -> ContextView {
        ContextView {
            globals: self.globals@,
            log: self.log@.map_values(|r: LogRecord| r@),
            frames: self.frames@.map_values(|f: Vec<u8>| f@),
        }
    }
}

impl Context {
    /// A context without variables, log records or frames, and with the
    /// largest budget there is.
    pub fn new() -> (r: Context)
        ensures
            r@ == (ContextView {
                globals: Map::<Seq<char>, Seq<char>>::empty(),
                log: Seq::<LogEntry>::empty(),
                frames: Seq::<Seq<u8>>::empty(),
            }),
            r.budget == u64::MAX,
    {
        let r = Context {
            globals: VarBindingList::new(),
            log: Vec::new(),
            frames: Vec::new(),
            budget: u64::MAX,
        };
        r
    }

    /// Adds a record to the log.
    pub fn log_record(&mut self, severity: Severity, text: &str)
        ensures
            final(self)@ == old(self)@.logged(severity, text@),
            final(self).budget == old(self).budget,
    {
        let record = LogRecord { severity, text: String::from_str(text) };
        self.log.push(record);
    }

    pub fn log_info(&mut self, text: &str)
        ensures
            final(self)@ == old(self)@.logged(Severity::Info, text@),
            final(self).budget == old(self).budget,
    {
        self.log_record(Severity::Info, text);
    }

    pub fn log_warning(&mut self, text: &str)
        ensures
            final(self)@ == old(self)@.logged(Severity::Warning, text@),
            final(self).budget == old(self).budget,
    {
        self.log_record(Severity::Warning, text);
    }

    pub fn log_error(&mut self, text: &str)
        ensures
            final(self)@ == old(self)@.logged(Severity::Error, text@),
            final(self).budget == old(self).budget,
    {
        self.log_record(Severity::Error, text);
    }

    pub fn log_fatal(&mut self, text: &str)
        ensures
            final(self)@ == old(self)@.logged(Severity::Fatal, text@),
            final(self).budget == old(self).budget,
    {
        self.log_record(Severity::Fatal, text);
    }

    /// Adds a frame to those that were emitted.
    pub fn emit(&mut self, frame: Vec<u8>)
        ensures
            final(self)@ == old(self)@.emitted(frame@),
            final(self).budget == old(self).budget,
    {
        self.frames.push(frame);
    }
}

/// The definitions of instructions and functions, each under its name.
pub struct Engine {
    pub inss: StringHashMap<InstDef>,
    pub fns: StringHashMap<FnDef>,
}

impl Engine {
    pub fn new() -> (r: Engine)
        ensures
            r.inss@ == Map::<Seq<char>, InstDef>::empty(),
            r.fns@ == Map::<Seq<char>, FnDef>::empty(),
    {
        Engine { inss: StringHashMap::new(), fns: StringHashMap::new() }
    }

    /// The instruction of that name.
    pub fn find_ins(&self, name: &str) -> (r: Option<&InstDef>)
        ensures
            match r {
                Some(def) => self.inss@.contains_key(name@) && *def == self.inss@[name@],
                None => !self.inss@.contains_key(name@),
            },
    {
        self.inss.get(name)
    }

    /// The function of that name.
    pub fn find_fn(&self, name: &str) -> (r: Option<&FnDef>)
        ensures
            match r {
                Some(def) => self.fns@.contains_key(name@) && *def == self.fns@[name@],
                None => !self.fns@.contains_key(name@),
            },
    {
        self.fns.get(name)
    }

    /// Runs the function `name` with `args` in `context`. Without a function
    /// of that name the call fails, and the failure is logged.
    pub fn exec_fn(&self, name: &str, args: &VarBindingList, context: &mut Context) -> (r: Result<
        (),
        String,
    >)
        ensures
            ({
                let c = call_fn_spec(
                    self.fns@,
                    self.inss@,
                    name@,
                    args@,
                    old(context)@,
                    old(context).budget as nat,
                );
                &&& result_view(r) == c.result
                &&& final(context)@ == c.ctx
            }),
            !self.fns@.contains_key(name@) || has_unpaired_end(
                kinds_of(self.fns@[name@].stmts@),
            ) ==> {
                &&& r is Err
                &&& final(context)@.globals == old(context)@.globals
                &&& final(context)@.frames == old(context)@.frames
            },
            final(context).budget == old(context).budget,
    {
        proof {
            if self.fns@.contains_key(name@) {
                let stmts = self.fns@[name@].stmts;
                assert(stmts@.len() == stmts.len());
                lemma_fault_is_first_unpaired_end(kinds_of(stmts@));
            }
        }
        let budget = context.budget;
        call_fn(self, name, args, context, budget).result
    }

    /// Calls the instruction `name` with `args`: its frame is added to those
    /// that `context` holds. Without an instruction of that name the call
    /// fails, and the failure is logged.
    pub fn exec_ins(&self, name: &str, args: &VarBindingList, context: &mut Context) -> (r: Result<
        (),
        String,
    >)
        ensures
            ({
                let c = call_ins_spec(self.inss@, name@, args@, old(context)@);
                &&& result_view(r) == c.result
                &&& final(context)@ == c.ctx
            }),
            final(context).budget == old(context).budget,
    {
        call_ins(self, name, args, context).result
    }

    /// Registers an instruction under its name, in place of an earlier one of
    /// that name.
    pub fn add_ins(&mut self, def: InstDef)
        ensures
            final(self).inss@ == old(self).inss@.insert(def.name@, def),
            final(self).fns@ == old(self).fns@,
    {
        let name = def.name.clone();
        self.inss.insert(name, def);
    }

    /// Registers a function under its name, in place of an earlier one of
    /// that name.
    pub fn add_fn(&mut self, def: FnDef)
        ensures
            final(self).fns@ == old(self).fns@.insert(def.name@, def),
            final(self).inss@ == old(self).inss@,
    {
        let name = def.name.clone();
        self.fns.insert(name, def);
    }
}

} // verus!
