//! The register machine's instruction set: eight registers `r0`..`r7`, and
//! every instruction four bytes long, an opcode and three operand bytes.
//! Immediates and displacements are 16-bit little endian in the last two
//! bytes:
//!
//! | mnemonic        | bytes          |
//! |-----------------|----------------|
//! | halt            | 00 00 00 00    |
//! | li rd, n        | 01 rd lo hi    |
//! | add rd, rs, rt  | 02 rd rs rt    |
//! | sub rd, rs, rt  | 03 rd rs rt    |
//! | mov rd, rs      | 04 rd rs 00    |
//! | call L          | 05 00 lo hi    |
//! | jmp L           | 06 00 lo hi    |
//! | ret             | 07 00 00 00    |
//!
//! `call` and `jmp` carry a relative displacement: the target's address minus
//! the address of the displacement field itself (the instruction's address
//! plus two).
use vstd::prelude::*;
use crate::lexer::{
    all_digits, all_digits_exec, decimal_value, decimal_value_exec, digit_value, eq_lit,
    ident_bytes, ident_bytes_exec, is_digit, is_ident, is_ident_exec,
};
use crate::object::RelocKind;
use crate::unit::{AsmErrorKind, AsmState, AsmView, asm_wf, emit, emit_ref};

verus! {

/// A register operand: `r` and one digit below eight.
pub open spec fn register(tok: Seq<char>) -> Result<u8, AsmErrorKind> {
    if tok.len() != 2 || tok[0] != 'r' || !is_digit(tok[1]) {
        Err(AsmErrorKind::MalformedOperand)
    } else if digit_value(tok[1]) > 7 {
        Err(AsmErrorKind::OperandOutOfRange)
    } else {
        Ok(digit_value(tok[1]) as u8)
    }
}

/// An immediate operand: decimal, at most 65535.
pub open spec fn immediate(tok: Seq<char>) -> Result<int, AsmErrorKind> {
    if !all_digits(tok) {
        Err(AsmErrorKind::MalformedOperand)
    } else if decimal_value(tok) > 65535 {
        Err(AsmErrorKind::OperandOutOfRange)
    } else {
        Ok(decimal_value(tok))
    }
}

pub open spec fn arith_opcode(m: Seq<char>) -> Option<u8> {
    if m == "add"@ {
        Some(0x02u8)
    } else if m == "sub"@ {
        Some(0x03u8)
    } else {
        None
    }
}

pub open spec fn branch_opcode(m: Seq<char>) -> Option<u8> {
    if m == "call"@ {
        Some(0x05u8)
    } else if m == "jmp"@ {
        Some(0x06u8)
    } else {
        None
    }
}

pub open spec fn plain_opcode(m: Seq<char>) -> Option<u8> {
    if m == "halt"@ {
        Some(0x00u8)
    } else if m == "ret"@ {
        Some(0x07u8)
    } else {
        None
    }
}

/// Assembles one instruction line (`toks` is not empty). Operands are read
/// left to right; the first bad one decides the error.
pub open spec fn risc_line(toks: Seq<Seq<char>>, st: AsmView) -> Result<AsmView, AsmErrorKind> {
    let m = toks[0];
    if m == "li"@ {
        if toks.len() != 3 {
            Err(AsmErrorKind::MalformedOperand)
        } else {
            match register(toks[1]) {
                Err(e) => Err(e),
                Ok(rd) => match immediate(toks[2]) {
                    Err(e) => Err(e),
                    Ok(v) => emit(st, seq![0x01u8, rd, (v % 256) as u8, (v / 256) as u8]),
                },
            }
        }
    } else if m == "mov"@ {
        if toks.len() != 3 {
            Err(AsmErrorKind::MalformedOperand)
        } else {
            match register(toks[1]) {
                Err(e) => Err(e),
                Ok(rd) => match register(toks[2]) {
                    Err(e) => Err(e),
                    Ok(rs) => emit(st, seq![0x04u8, rd, rs, 0u8]),
                },
            }
        }
    } else if let Some(op) = arith_opcode(m) {
        if toks.len() != 4 {
            Err(AsmErrorKind::MalformedOperand)
        } else {
            match register(toks[1]) {
                Err(e) => Err(e),
                Ok(rd) => match register(toks[2]) {
                    Err(e) => Err(e),
                    Ok(rs) => match register(toks[3]) {
                        Err(e) => Err(e),
                        Ok(rt) => emit(st, seq![op, rd, rs, rt]),
                    },
                },
            }
        }
    } else if let Some(op) = branch_opcode(m) {
        if toks.len() != 2 || !is_ident(toks[1]) {
            Err(AsmErrorKind::MalformedOperand)
        } else {
            emit_ref(st, seq![op, 0u8, 0u8, 0u8], 2, ident_bytes(toks[1]), RelocKind::Relative16)
        }
    } else if let Some(op) = plain_opcode(m) {
        if toks.len() != 1 {
            Err(AsmErrorKind::MalformedOperand)
        } else {
            emit(st, seq![op, 0u8, 0u8, 0u8])
        }
    } else {
        Err(AsmErrorKind::UnknownMnemonic)
    }
}

fn register_exec(tok: &Vec<char>) -> (r: Result<u8, AsmErrorKind>)
    ensures
        r == register(tok@),
{
    if tok.len() != 2 || tok[0] != 'r' || !('0' <= tok[1] && tok[1] <= '9') {
        return Err(AsmErrorKind::MalformedOperand);
    }
    let d = tok[1] as u32 - '0' as u32;
    if d > 7 {
        Err(AsmErrorKind::OperandOutOfRange)
    } else {
        Ok(d as u8)
    }
}

fn immediate_exec(tok: &Vec<char>) -> (r: Result<u32, AsmErrorKind>)
    ensures
        match r {
            Ok(v) => immediate(tok@) == Ok::<int, AsmErrorKind>(v as int),
            Err(e) => immediate(tok@) == Err::<int, AsmErrorKind>(e),
        },
{
    if !all_digits_exec(tok) {
        return Err(AsmErrorKind::MalformedOperand);
    }
    match decimal_value_exec(tok, 65535) {
        Some(v) => Ok(v),
        None => Err(AsmErrorKind::OperandOutOfRange),
    }
}

fn arith_opcode_exec(m: &Vec<char>) -> (r: Option<u8>)
    ensures
        r == arith_opcode(m@),
{
    if eq_lit(m, "add") {
        Some(0x02)
    } else if eq_lit(m, "sub") {
        Some(0x03)
    } else {
        None
    }
}

fn branch_opcode_exec(m: &Vec<char>) -> (r: Option<u8>)
    ensures
        r == branch_opcode(m@),
{
    if eq_lit(m, "call") {
        Some(0x05)
    } else if eq_lit(m, "jmp") {
        Some(0x06)
    } else {
        None
    }
}

fn plain_opcode_exec(m: &Vec<char>) -> (r: Option<u8>)
    ensures
        r == plain_opcode(m@),
{
    if eq_lit(m, "halt") {
        Some(0x00)
    } else if eq_lit(m, "ret") {
        Some(0x07)
    } else {
        None
    }
}

pub fn risc_line_exec(toks: &Vec<Vec<char>>, st: &mut AsmState) -> (r: Result<(), AsmErrorKind>)
    requires
        toks@.len() > 0,
        asm_wf(old(st)@),
    ensures
        match r {
            Ok(()) => risc_line(toks@.map_values(|x: Vec<char>| x@), old(st)@) == Ok::<
                AsmView,
                AsmErrorKind,
            >(final(st)@) && asm_wf(final(st)@),
            Err(k) => risc_line(toks@.map_values(|x: Vec<char>| x@), old(st)@) == Err::<
                AsmView,
                AsmErrorKind,
            >(k),
        },
{
    let ghost tv = toks@.map_values(|x: Vec<char>| x@);
    assert(forall|i: int| 0 <= i < toks@.len() ==> tv[i] == (#[trigger] toks@[i])@);
    let m = &toks[0];
    if eq_lit(m, "li") {
        if toks.len() != 3 {
            return Err(AsmErrorKind::MalformedOperand);
        }
        let rd = register_exec(&toks[1])?;
        let v = immediate_exec(&toks[2])?;
        let bytes: Vec<u8> = vec![0x01, rd, (v % 256) as u8, (v / 256) as u8];
        assert(bytes@ =~= seq![0x01u8, rd, (v % 256) as u8, (v / 256) as u8]);
        st.emit(&bytes)
    } else if eq_lit(m, "mov") {
        if toks.len() != 3 {
            return Err(AsmErrorKind::MalformedOperand);
        }
        let rd = register_exec(&toks[1])?;
        let rs = register_exec(&toks[2])?;
        let bytes: Vec<u8> = vec![0x04, rd, rs, 0];
        assert(bytes@ =~= seq![0x04u8, rd, rs, 0u8]);
        st.emit(&bytes)
    } else if let Some(op) = arith_opcode_exec(m) {
        if toks.len() != 4 {
            return Err(AsmErrorKind::MalformedOperand);
        }
        let rd = register_exec(&toks[1])?;
        let rs = register_exec(&toks[2])?;
        let rt = register_exec(&toks[3])?;
        let bytes: Vec<u8> = vec![op, rd, rs, rt];
        assert(bytes@ =~= seq![op, rd, rs, rt]);
        st.emit(&bytes)
    } else if let Some(op) = branch_opcode_exec(m) {
        if toks.len() != 2 || !is_ident_exec(&toks[1]) {
            return Err(AsmErrorKind::MalformedOperand);
        }
        let bytes: Vec<u8> = vec![op, 0, 0, 0];
        assert(bytes@ =~= seq![op, 0u8, 0u8, 0u8]);
        st.emit_ref(&bytes, 2, ident_bytes_exec(&toks[1]), RelocKind::Relative16)
    } else if let Some(op) = plain_opcode_exec(m) {
        if toks.len() != 1 {
            return Err(AsmErrorKind::MalformedOperand);
        }
        let bytes: Vec<u8> = vec![op, 0, 0, 0];
        assert(bytes@ =~= seq![op, 0u8, 0u8, 0u8]);
        st.emit(&bytes)
    } else {
        Err(AsmErrorKind::UnknownMnemonic)
    }
}

} // verus!
