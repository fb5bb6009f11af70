//! The stack machine's instruction set. Every instruction is a one-byte
//! opcode, followed for `push` by a 16-bit little-endian literal and for the
//! jumps by a 16-bit little-endian absolute address:
//!
//! | mnemonic | bytes        |
//! |----------|--------------|
//! | halt     | 00           |
//! | push n   | 01 lo hi     |
//! | pop      | 02           |
//! | add      | 03           |
//! | sub      | 04           |
//! | mul      | 05           |
//! | dup      | 06           |
//! | jmp L    | 07 lo hi     |
//! | jz L     | 08 lo hi     |
//! | call L   | 09 lo hi     |
//! | ret      | 0a           |
use vstd::prelude::*;
use crate::lexer::{
    all_digits, all_digits_exec, decimal_value, decimal_value_exec, eq_lit, ident_bytes,
    ident_bytes_exec, is_ident, is_ident_exec,
};
use crate::object::RelocKind;
use crate::unit::{AsmErrorKind, AsmState, AsmView, asm_wf, emit, emit_ref};

verus! {

/// Opcode of an instruction without operands.
pub open spec fn plain_opcode(m: Seq<char>) -> Option<u8> {
    if m == "halt"@ {
        Some(0x00u8)
    } else if m == "pop"@ {
        Some(0x02u8)
    } else if m == "add"@ {
        Some(0x03u8)
    } else if m == "sub"@ {
        Some(0x04u8)
    } else if m == "mul"@ {
        Some(0x05u8)
    } else if m == "dup"@ {
        Some(0x06u8)
    } else if m == "ret"@ {
        Some(0x0au8)
    } else {
        None
    }
}

/// Opcode of an instruction that takes a label.
pub open spec fn jump_opcode(m: Seq<char>) -> Option<u8> {
    if m == "jmp"@ {
        Some(0x07u8)
    } else if m == "jz"@ {
        Some(0x08u8)
    } else if m == "call"@ {
        Some(0x09u8)
    } else {
        None
    }
}

/// Assembles one instruction line (`toks` is not empty).
pub open spec fn stack_line(toks: Seq<Seq<char>>, st: AsmView) -> Result<AsmView, AsmErrorKind> {
    let m = toks[0];
    if m == "push"@ {
        if toks.len() != 2 || !all_digits(toks[1]) {
            Err(AsmErrorKind::MalformedOperand)
        } else if decimal_value(toks[1]) > 65535 {
            Err(AsmErrorKind::OperandOutOfRange)
        } else {
            let v = decimal_value(toks[1]);
            emit(st, seq![0x01u8, (v % 256) as u8, (v / 256) as u8])
        }
    } else if let Some(op) = jump_opcode(m) {
        if toks.len() != 2 || !is_ident(toks[1]) {
            Err(AsmErrorKind::MalformedOperand)
        } else {
            emit_ref(st, seq![op, 0u8, 0u8], 1, ident_bytes(toks[1]), RelocKind::Absolute16)
        }
    } else if let Some(op) = plain_opcode(m) {
        if toks.len() != 1 {
            Err(AsmErrorKind::MalformedOperand)
        } else {
            emit(st, seq![op])
        }
    } else {
        Err(AsmErrorKind::UnknownMnemonic)
    }
}

fn plain_opcode_exec(m: &Vec<char>) -> (r: Option<u8>)
    ensures
        r == plain_opcode(m@),
{
    if eq_lit(m, "halt") {
        Some(0x00)
    } else if eq_lit(m, "pop") {
        Some(0x02)
    } else if eq_lit(m, "add") {
        Some(0x03)
    } else if eq_lit(m, "sub") {
        Some(0x04)
    } else if eq_lit(m, "mul") {
        Some(0x05)
    } else if eq_lit(m, "dup") {
        Some(0x06)
    } else if eq_lit(m, "ret") {
        Some(0x0a)
    } else {
        None
    }
}

fn jump_opcode_exec(m: &Vec<char>) -> (r: Option<u8>)
    ensures
        r == jump_opcode(m@),
{
    if eq_lit(m, "jmp") {
        Some(0x07)
    } else if eq_lit(m, "jz") {
        Some(0x08)
    } else if eq_lit(m, "call") {
        Some(0x09)
    } else {
        None
    }
}

pub fn stack_line_exec(toks: &Vec<Vec<char>>, st: &mut AsmState) -> (r: Result<(), AsmErrorKind>)
    requires
        toks@.len() > 0,
        asm_wf(old(st)@),
    ensures
        match r {
            Ok(()) => stack_line(toks@.map_values(|x: Vec<char>| x@), old(st)@) == Ok::<
                AsmView,
                AsmErrorKind,
            >(final(st)@) && asm_wf(final(st)@),
            Err(k) => stack_line(toks@.map_values(|x: Vec<char>| x@), old(st)@) == Err::<
                AsmView,
                AsmErrorKind,
            >(k),
        },
{
    let ghost tv = toks@.map_values(|x: Vec<char>| x@);
    assert(tv[0] == toks[0]@);
    if toks.len() >= 2 {
        assert(tv[1] == toks[1]@);
    }
    let m = &toks[0];
    if eq_lit(m, "push") {
        if toks.len() != 2 || !all_digits_exec(&toks[1]) {
            return Err(AsmErrorKind::MalformedOperand);
        }
        let v = match decimal_value_exec(&toks[1], 65535) {
            Some(v) => v,
            None => return Err(AsmErrorKind::OperandOutOfRange),
        };
        let bytes: Vec<u8> = vec![0x01, (v % 256) as u8, (v / 256) as u8];
        assert(bytes@ =~= seq![0x01u8, (v % 256) as u8, (v / 256) as u8]);
        st.emit(&bytes)
    } else if let Some(op) = jump_opcode_exec(m) {
        if toks.len() != 2 || !is_ident_exec(&toks[1]) {
            return Err(AsmErrorKind::MalformedOperand);
        }
        let bytes: Vec<u8> = vec![op, 0, 0];
        assert(bytes@ =~= seq![op, 0u8, 0u8]);
        st.emit_ref(&bytes, 1, ident_bytes_exec(&toks[1]), RelocKind::Absolute16)
    } else if let Some(op) = plain_opcode_exec(m) {
        if toks.len() != 1 {
            return Err(AsmErrorKind::MalformedOperand);
        }
        let bytes: Vec<u8> = vec![op];
        assert(bytes@ =~= seq![op]);
        st.emit(&bytes)
    } else {
        Err(AsmErrorKind::UnknownMnemonic)
    }
}

} // verus!
