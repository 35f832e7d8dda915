//! Instruction definitions and the encoding of an instruction's arguments
//! into a frame of fixed size.
//!
//! The declared arguments are the layout of the frame: one field for each
//! declaration, in the declared order, multi-byte fields in big-endian order.

use vstd::prelude::*;
use vstd::string::StringExecFns;
use crate::number::{nat_to_text, parse_at_most, parse_up_to, unsigned_to_string};
use crate::utils::{join_text, same_text};
use crate::variable::{Scope, VarBindingList, VarDef, VarDefList};

verus! {

/// The number of bytes of a frame.
pub const FRAME_SIZE: usize = 8;

/// Why an instruction could not be encoded. Each variant but the last holds
/// the position of the declared argument at fault.
#[derive(Debug, Clone, Copy, PartialEq, Eq, Structural)]
pub enum EncodeError {
    /// The argument is not bound and its declaration has no default.
    MissingArg(usize),
    /// The declared type is none of those that can be encoded.
    UnsupportedType(usize),
    /// The value is no number, or one that does not fit the declared type.
    InvalidValue(usize),
    /// The fields encode to this many bytes, which is not the frame size.
    FrameSize(usize),
}

/// What is reported of a fault: the name or the declared type of the argument
/// at fault, or the number of bytes that the fields take.
pub open spec fn encode_message(e: EncodeError, defs: Seq<VarDef>) -> Seq<char> {
    match e {
        EncodeError::MissingArg(i) => "Missing arg: "@ + name_at(defs, i),
        EncodeError::UnsupportedType(i) => "Unsupported arg type: "@ + typ_at(defs, i),
        EncodeError::InvalidValue(i) => "Invalid value of arg: "@ + name_at(defs, i),
        EncodeError::FrameSize(n) => "Wrong number of bytes in frame: "@ + nat_to_text(n as nat),
    }
}

/// The name of the declaration at position `i`; empty where there is none.
pub open spec fn name_at(defs: Seq<VarDef>, i: usize) -> Seq<char> {
    if i < defs.len() {
        defs[i as int].name@
    } else {
        Seq::<char>::empty()
    }
}

/// The declared type at position `i`; empty where there is none.
pub open spec fn typ_at(defs: Seq<VarDef>, i: usize) -> Seq<char> {
    if i < defs.len() {
        defs[i as int].typ@
    } else {
        Seq::<char>::empty()
    }
}

impl EncodeError {
    /// The text that reports this fault in an instruction with the declared
    /// arguments `defs`.
    pub fn message(&self, defs: &VarDefList) -> (r: String)
        ensures
            r@ == encode_message(*self, defs.defs@),
    {
        proof {
            reveal_strlit("");
        }
        let none = "";
        match *self {
            EncodeError::MissingArg(i) => {
                let name = if i < defs.defs.len() {
                    defs.defs[i].name.as_str()
                } else {
                    none
                };
                join_text("Missing arg: ", name)
            },
            EncodeError::UnsupportedType(i) => {
                let typ = if i < defs.defs.len() {
                    defs.defs[i].typ.as_str()
                } else {
                    none
                };
                join_text("Unsupported arg type: ", typ)
            },
            EncodeError::InvalidValue(i) => {
                let name = if i < defs.defs.len() {
                    defs.defs[i].name.as_str()
                } else {
                    none
                };
                join_text("Invalid value of arg: ", name)
            },
            EncodeError::FrameSize(n) => {
                let count = unsigned_to_string(n as u128);
                join_text("Wrong number of bytes in frame: ", count.as_str())
            },
        }
    }
}

/// The number of bytes that a field of the declared type takes.
pub open spec fn field_width(typ: Seq<char>) -> Option<nat> {
    if typ == "byte"@ || typ == "i8"@ || typ == "u8"@ {
        Some(1)
    } else if typ == "i16"@ || typ == "u16"@ {
        Some(2)
    } else if typ == "i32"@ || typ == "u32"@ {
        Some(4)
    } else {
        None
    }
}

/// The largest number that fits in `width` bytes.
pub open spec fn max_of_width(width: nat) -> nat {
    if width == 1 {
        0xff
    } else if width == 2 {
        0xffff
    } else {
        0xffff_ffff
    }
}

/// The text that is encoded for a declared argument: the value bound to its
/// name or, without one, its default.
pub open spec fn arg_text(def: VarDef, args: Scope) -> Option<Seq<char>> {
    if args.contains_key(def.name@) {
        Some(args[def.name@])
    } else if def.default@.len() > 0 {
        Some(def.default@)
    } else {
        None
    }
}

/// The `width` low bytes of `value`, most significant byte first.
pub open spec fn be_bytes(value: nat, width: nat) -> Seq<u8>
    decreases width,
{
    if width == 0 {
        Seq::<u8>::empty()
    } else {
        be_bytes(value / 256, (width - 1) as nat).push((value % 256) as u8)
    }
}

/// The number that bytes denote, most significant byte first.
pub open spec fn be_value(bytes: Seq<u8>) -> nat
    decreases bytes.len(),
{
    if bytes.len() == 0 {
        0
    } else {
        be_value(bytes.drop_last()) * 256 + bytes.last() as nat
    }
}

/// The bytes of the field at position `i`, or the fault found in it.
pub open spec fn encode_field(def: VarDef, args: Scope, i: usize) -> Result<Seq<u8>, EncodeError> {
    match arg_text(def, args) {
        None => Err(EncodeError::MissingArg(i)),
        Some(text) => match field_width(def.typ@) {
            None => Err(EncodeError::UnsupportedType(i)),
            Some(width) => match parse_at_most(text, max_of_width(width)) {
                None => Err(EncodeError::InvalidValue(i)),
                Some(value) => Ok(be_bytes(value, width)),
            },
        },
    }
}

/// The bytes of the first `n` fields, or the fault in the first field that has one.
pub open spec fn encode_fields(defs: Seq<VarDef>, args: Scope, n: nat) -> Result<
    Seq<u8>,
    EncodeError,
>
    decreases n,
{
    if n == 0 || n > defs.len() {
        Ok(Seq::<u8>::empty())
    } else {
        match encode_fields(defs, args, (n - 1) as nat) {
            Err(e) => Err(e),
            Ok(front) => match encode_field(defs[n - 1], args, (n - 1) as usize) {
                Err(e) => Err(e),
                Ok(bytes) => Ok(front + bytes),
            },
        }
    }
}

/// The frame of an instruction with the declared arguments `defs`, called
/// with `args`: the bytes of all fields, if they fill a frame exactly.
pub open spec fn encode_frame(defs: Seq<VarDef>, args: Scope) -> Result<Seq<u8>, EncodeError> {
    match encode_fields(defs, args, defs.len()) {
        Err(e) => Err(e),
        Ok(bytes) => if bytes.len() == FRAME_SIZE {
            Ok(bytes)
        } else {
            Err(EncodeError::FrameSize(bytes.len() as usize))
        },
    }
}

/// The number of bytes that the first `n` declared fields take together,
/// where each has a type that can be encoded.
pub open spec fn total_width(defs: Seq<VarDef>, n: nat) -> nat
    decreases n,
{
    if n == 0 || n > defs.len() {
        0
    } else {
        total_width(defs, (n - 1) as nat) + match field_width(defs[n - 1].typ@) {
            Some(width) => width,
            None => 0,
        }
    }
}

/// Fields that can be encoded take as many bytes as their declared types
/// say, whatever their values.
pub proof fn lemma_encoded_length(defs: Seq<VarDef>, args: Scope, n: nat)
    requires
        n <= defs.len(),
    ensures
        encode_fields(defs, args, n) matches Ok(bytes) ==> bytes.len() == total_width(defs, n),
    decreases n,
{
    if n > 0 {
        lemma_encoded_length(defs, args, (n - 1) as nat);
        if let Ok(front) = encode_fields(defs, args, (n - 1) as nat) {
            if let Some(text) = arg_text(defs[n - 1], args) {
                if let Some(width) = field_width(defs[n - 1].typ@) {
                    if let Some(value) = parse_at_most(text, max_of_width(width)) {
                        lemma_be_bytes_len(value, width);
                    }
                }
            }
        }
    }
}

/// A number takes as many bytes as asked for.
pub proof fn lemma_be_bytes_len(value: nat, width: nat)
    ensures
        be_bytes(value, width).len() == width,
    decreases width,
{
    if width > 0 {
        lemma_be_bytes_len(value / 256, (width - 1) as nat);
    }
}

/// Reading the bytes of a number back gives the number, cut to the bytes
/// that were written.
pub proof fn lemma_be_value_of_bytes(value: nat, width: nat)
    ensures
        be_value(be_bytes(value, width)) == value % vstd::arithmetic::power::pow(256, width) as nat,
    decreases width,
{
    vstd::arithmetic::power::lemma_pow_positive(256, width);
    if width == 0 {
        vstd::arithmetic::power::lemma_pow0(256);
    } else {
        let w = (width - 1) as nat;
        lemma_be_value_of_bytes(value / 256, w);
        lemma_be_bytes_len(value / 256, w);
        let b = be_bytes(value, width);
        assert(b.drop_last() =~= be_bytes(value / 256, w));
        vstd::arithmetic::power::lemma_pow_positive(256, w);
        let p = vstd::arithmetic::power::pow(256, w) as nat;
        assert(vstd::arithmetic::power::pow(256, width) == 256 * vstd::arithmetic::power::pow(
            256,
            w,
        )) by {
            vstd::arithmetic::power::lemma_pow1(256);
            vstd::arithmetic::power::lemma_pow_adds(256, 1, w);
        }
        vstd::arithmetic::div_mod::lemma_mod_breakdown(value as int, 256, p as int);
    }
}

/// The definition of an instruction.
#[derive(Debug)]
pub struct InstDef {
    pub name: String,
    pub canid: u32,
    /// The declared arguments: the layout of the frame.
    pub args: VarDefList,
    pub note: String,
}

/// Appends the `width` low bytes of `value` to `data`, most significant first.
fn push_be(data: &mut Vec<u8>, value: u64, width: u8)
    ensures
        final(data)@ == old(data)@ + be_bytes(value as nat, width as nat),
    decreases width,
{
    if width > 0 {
        push_be(data, value / 256, width - 1);
        data.push((value % 256) as u8);
    }
}

/// The number of bytes that a field of the declared type takes.
fn width_of(typ: &str) -> (r: Option<u8>)
    ensures
        match r {
            Some(w) => field_width(typ@) == Some(w as nat),
            None => field_width(typ@) is None,
        },
{
    if same_text(typ, "byte") || same_text(typ, "i8") || same_text(typ, "u8") {
        Some(1)
    } else if same_text(typ, "i16") || same_text(typ, "u16") {
        Some(2)
    } else if same_text(typ, "i32") || same_text(typ, "u32") {
        Some(4)
    } else {
        None
    }
}

/// Appends the bytes of the field at position `i` to `data`; on a fault
/// `data` stays as it is.
fn push_field(def: &VarDef, args: &VarBindingList, i: usize, data: &mut Vec<u8>) -> (r: Result<
    (),
    EncodeError,
>)
    ensures
        match r {
            Ok(()) => encode_field(*def, args@, i) is Ok && final(data)@ == old(data)@
                + encode_field(*def, args@, i)->Ok_0,
            Err(e) => encode_field(*def, args@, i) == Err::<Seq<u8>, EncodeError>(e)
                && final(data)@ == old(data)@,
        },
{
    let text: &str = match args.raw_value_of(def.name.as_str()) {
        Some(value) => value,
        None => {
            if def.default.as_str().is_empty() {
                return Err(EncodeError::MissingArg(i));
            }
            def.default.as_str()
        },
    };
    let width: u8 = match width_of(def.typ.as_str()) {
        Some(w) => w,
        None => {
            return Err(EncodeError::UnsupportedType(i));
        },
    };
    let max: u64 = if width == 1 {
        0xff
    } else if width == 2 {
        0xffff
    } else {
        0xffff_ffff
    };
    match parse_up_to(text, max) {
        Some(value) => {
            push_be(data, value, width);
            Ok(())
        },
        None => Err(EncodeError::InvalidValue(i)),
    }
}

impl InstDef {
    pub fn new(name: &str, canid: u32) -> (r: InstDef)
        ensures
            r.name@ == name@,
            r.canid == canid,
            r.args.defs@ == Seq::<VarDef>::empty(),
            r.note@ == Seq::<char>::empty(),
    {
        InstDef {
            name: String::from_str(name),
            canid,
            args: VarDefList::new(),
            note: String::new(),
        }
    }

    /// The bytes of all fields, one after the other, whatever their number.
    pub fn encode_args(&self, args: &VarBindingList) -> (r: Result<Vec<u8>, EncodeError>)
        ensures
            match r {
                Ok(bytes) => encode_fields(self.args.defs@, args@, self.args.defs@.len()) == Ok::<
                    Seq<u8>,
                    EncodeError,
                >(bytes@),
                Err(e) => encode_fields(self.args.defs@, args@, self.args.defs@.len()) == Err::<
                    Seq<u8>,
                    EncodeError,
                >(e),
            },
    {
        let mut data: Vec<u8> = Vec::new();
        let mut i: usize = 0;
        while i < self.args.defs.len()
            invariant
                i <= self.args.defs@.len(),
                encode_fields(self.args.defs@, args@, i as nat) == Ok::<Seq<u8>, EncodeError>(
                    data@,
                ),
            decreases self.args.defs@.len() - i,
        {
            match push_field(&self.args.defs[i], args, i, &mut data) {
                Ok(()) => {},
                Err(e) => {
                    proof {
                        lemma_encode_fields_fault(
                            self.args.defs@,
                            args@,
                            (i + 1) as nat,
                            self.args.defs@.len(),
                        );
                    }
                    return Err(e);
                },
            }
            i += 1;
        }
        Ok(data)
    }

    /// The frame of this instruction called with `args`. Every declared
    /// argument must have a value or a default, a declared type that can be
    /// encoded and a number that fits it, and the fields must fill a frame
    /// exactly; otherwise the first fault is returned and there is no frame.
    pub fn encode(&self, args: &VarBindingList) -> (r: Result<Vec<u8>, EncodeError>)
        ensures
            match r {
                Ok(frame) => encode_frame(self.args.defs@, args@) == Ok::<Seq<u8>, EncodeError>(
                    frame@,
                ) && frame@.len() == FRAME_SIZE,
                Err(e) => encode_frame(self.args.defs@, args@) == Err::<Seq<u8>, EncodeError>(e),
            },
    {
        match self.encode_args(args) {
            Ok(bytes) => {
                if bytes.len() == FRAME_SIZE {
                    Ok(bytes)
                } else {
                    Err(EncodeError::FrameSize(bytes.len()))
                }
            },
            Err(e) => Err(e),
        }
    }

    /// Appends the fields of this instruction, called with `args`, to `data`,
    /// which then holds one frame.
    pub fn exec(&self, args: &VarBindingList, data: &mut Vec<u8>)
        requires
            encode_fields(self.args.defs@, args@, self.args.defs@.len()) is Ok,
            old(data)@.len() + encode_fields(
                self.args.defs@,
                args@,
                self.args.defs@.len(),
            )->Ok_0.len() == FRAME_SIZE,
        ensures
            final(data)@ == old(data)@ + encode_fields(
                self.args.defs@,
                args@,
                self.args.defs@.len(),
            )->Ok_0,
            final(data)@.len() == FRAME_SIZE,
    {
        match self.encode_args(args) {
            Ok(bytes) => {
                let mut bytes = bytes;
                data.append(&mut bytes);
            },
            Err(_) => {},
        }
    }
}

/// A fault among the first `n` fields is the fault of any longer run of fields.
pub proof fn lemma_encode_fields_fault(defs: Seq<VarDef>, args: Scope, n: nat, m: nat)
    requires
        n <= m <= defs.len(),
        encode_fields(defs, args, n) is Err,
    ensures
        encode_fields(defs, args, m) == encode_fields(defs, args, n),
    decreases m,
{
    if n < m {
        lemma_encode_fields_fault(defs, args, n, (m - 1) as nat);
    }
}

} // verus!
