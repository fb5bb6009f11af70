use vstd::prelude::*;
use crate::lexer::{
    all_digits, all_digits_exec, content_end, content_end_exec, decimal_value, decimal_value_exec,
    eq_lit, ident_bytes, ident_bytes_exec, is_ident, is_ident_exec,
    lemma_line_end_bounds, line_end, line_end_exec, tokens, tokens_exec,
};
use crate::object::{
    ObjectFile, ObjectView, Section, SectionKind, SectionView, object_wf, section_wf, symbol_wf,
};
use crate::risc::{risc_line, risc_line_exec};
use crate::stack::{stack_line, stack_line_exec};
use crate::unit::{
    AsmError, AsmErrorKind, AsmState, AsmView, asm_wf, define_label, emit, empty_state,
    export_name,
};

verus! {

/// The instruction set to assemble for.
#[derive(PartialEq, Eq, Structural, Clone, Copy, Debug)]
pub enum Target {
    Stack,
    Risc,
}

/// One line's tokens: nothing, a label definition `name:`, an export
/// `.global name`, a literal `.byte n` (one byte) or `.word n` (two bytes,
/// little endian), or an instruction of the target.
pub open spec fn line_step(target: Target, toks: Seq<Seq<char>>, st: AsmView) -> Result<
    AsmView,
    AsmErrorKind,
> {
    if toks.len() == 0 {
        Ok(st)
    } else if toks[0].len() > 0 && toks[0].last() == ':' {
        if toks.len() != 1 || !is_ident(toks[0].drop_last()) {
            Err(AsmErrorKind::MalformedOperand)
        } else {
            define_label(st, ident_bytes(toks[0].drop_last()))
        }
    } else if toks[0] == ".global"@ {
        if toks.len() != 2 || !is_ident(toks[1]) {
            Err(AsmErrorKind::MalformedOperand)
        } else {
            export_name(st, ident_bytes(toks[1]))
        }
    } else if toks[0] == ".byte"@ {
        if toks.len() != 2 || !all_digits(toks[1]) {
            Err(AsmErrorKind::MalformedOperand)
        } else if decimal_value(toks[1]) > 255 {
            Err(AsmErrorKind::OperandOutOfRange)
        } else {
            emit(st, seq![decimal_value(toks[1]) as u8])
        }
    } else if toks[0] == ".word"@ {
        if toks.len() != 2 || !all_digits(toks[1]) {
            Err(AsmErrorKind::MalformedOperand)
        } else if decimal_value(toks[1]) > 65535 {
            Err(AsmErrorKind::OperandOutOfRange)
        } else {
            let v = decimal_value(toks[1]);
            emit(st, seq![(v % 256) as u8, (v / 256) as u8])
        }
    } else {
        match target {
            Target::Stack => stack_line(toks, st),
            Target::Risc => risc_line(toks, st),
        }
    }
}

/// Assembles the lines of `t` from position `p` on; `line` lines came before.
/// Text after `;` on a line is a comment.
pub open spec fn assemble_lines(target: Target, t: Seq<char>, p: int, line: int, st: AsmView) -> Result<
    AsmView,
    AsmError,
>
    decreases t.len() + 1 - p,
    via assemble_lines_decreases
{
    if p < 0 || p >= t.len() {
        Ok(st)
    } else {
        let e = line_end(t, p);
        match line_step(target, tokens(t, p, content_end(t, p, e)), st) {
            Ok(next) => assemble_lines(target, t, e + 1, line + 1, next),
            Err(kind) => Err(AsmError { kind, line: (line + 1) as usize }),
        }
    }
}

#[via_fn]
proof fn assemble_lines_decreases(target: Target, t: Seq<char>, p: int, line: int, st: AsmView) {
    if 0 <= p < t.len() {
        lemma_line_end_bounds(t, p);
    }
}

pub open spec fn text_section_name() -> Seq<u8> {
    seq![0x2eu8, 0x74u8, 0x65u8, 0x78u8, 0x74u8]
}

/// The object file of an assembled unit: one code section and its symbols.
pub open spec fn object_of(st: AsmView) -> ObjectView {
    ObjectView {
        sections: seq![
            SectionView {
                name: text_section_name(),
                kind: SectionKind::Code,
                data: st.code,
                relocations: st.relocs,
            },
        ],
        symbols: st.symbols,
    }
}

/// The object file that assembling `text` for `target` yields, or the first
/// error with its line.
pub open spec fn assemble_source(target: Target, text: Seq<char>) -> Result<ObjectView, AsmError> {
    match assemble_lines(target, text, 0, 0, empty_state()) {
        Ok(st) => Ok(object_of(st)),
        Err(e) => Err(e),
    }
}

proof fn lemma_object_of_wf(st: AsmView)
    requires
        asm_wf(st),
    ensures
        object_wf(object_of(st)),
{
    let o = object_of(st);
    assert(section_wf(o.sections[0], o.symbols.len() as int));
    assert forall|i: int| 0 <= i < o.symbols.len() implies symbol_wf(
        #[trigger] o.symbols[i],
        o.sections.len() as int,
    ) by {
        assert(st.symbols[i] == o.symbols[i]);
    }
}

fn line_step_exec(target: Target, toks: &Vec<Vec<char>>, st: &mut AsmState) -> (r: Result<
    (),
    AsmErrorKind,
>)
    requires
        asm_wf(old(st)@),
    ensures
        match r {
            Ok(()) => line_step(target, toks@.map_values(|x: Vec<char>| x@), old(st)@) == Ok::<
                AsmView,
                AsmErrorKind,
            >(final(st)@) && asm_wf(final(st)@),
            Err(k) => line_step(target, toks@.map_values(|x: Vec<char>| x@), old(st)@) == Err::<
                AsmView,
                AsmErrorKind,
            >(k),
        },
{
    let ghost tv = toks@.map_values(|x: Vec<char>| x@);
    assert(forall|i: int| 0 <= i < toks@.len() ==> tv[i] == (#[trigger] toks@[i])@);
    if toks.len() == 0 {
        return Ok(());
    }
    let first = &toks[0];
    if first.len() > 0 && first[first.len() - 1] == ':' {
        let mut name: Vec<char> = Vec::new();
        let mut i: usize = 0;
        while i + 1 < first.len()
            invariant
                0 < first.len(),
                0 <= i < first.len(),
                name@ == first@.subrange(0, i as int),
            decreases first.len() - i,
        {
            name.push(first[i]);
            assert(name@ =~= first@.subrange(0, i + 1));
            i += 1;
        }
        assert(name@ =~= first@.drop_last());
        if toks.len() != 1 || !is_ident_exec(&name) {
            return Err(AsmErrorKind::MalformedOperand);
        }
        st.define_label(ident_bytes_exec(&name))
    } else if eq_lit(first, ".global") {
        if toks.len() != 2 || !is_ident_exec(&toks[1]) {
            return Err(AsmErrorKind::MalformedOperand);
        }
        st.export_name(ident_bytes_exec(&toks[1]))
    } else if eq_lit(first, ".byte") || eq_lit(first, ".word") {
        let limit: u32 = if eq_lit(first, ".byte") {
            255
        } else {
            65535
        };
        if toks.len() != 2 || !all_digits_exec(&toks[1]) {
            return Err(AsmErrorKind::MalformedOperand);
        }
        let v = match decimal_value_exec(&toks[1], limit) {
            Some(v) => v,
            None => return Err(AsmErrorKind::OperandOutOfRange),
        };
        let bytes: Vec<u8> = if limit == 255 {
            vec![v as u8]
        } else {
            vec![(v % 256) as u8, (v / 256) as u8]
        };
        assert(limit == 255 ==> bytes@ =~= seq![v as u8]);
        assert(limit != 255 ==> bytes@ =~= seq![(v % 256) as u8, (v / 256) as u8]);
        st.emit(&bytes)
    } else {
        match target {
            Target::Stack => stack_line_exec(toks, st),
            Target::Risc => risc_line_exec(toks, st),
        }
    }
}

/// Assembles `text` for `target` into an object file with one code section.
pub fn assemble_chars(text: &Vec<char>, target: Target) -> (r: Result<ObjectFile, AsmError>)
    ensures
        match r {
            Ok(o) => assemble_source(target, text@) == Ok::<ObjectView, AsmError>(o@) && o.wf(),
            Err(e) => assemble_source(target, text@) == Err::<ObjectView, AsmError>(e),
        },
{
    let mut st = AsmState::new();
    let mut p: usize = 0;
    let mut line: usize = 0;
    while p < text.len()
        invariant
            0 <= line <= p <= text.len(),
            asm_wf(st@),
            assemble_lines(target, text@, 0, 0, empty_state()) == assemble_lines(
                target,
                text@,
                p as int,
                line as int,
                st@,
            ),
        decreases text.len() - p,
    {
        let e = line_end_exec(text, p);
        let c = content_end_exec(text, p, e);
        let toks = tokens_exec(text, p, c);
        match line_step_exec(target, &toks, &mut st) {
            Ok(()) => {},
            Err(kind) => {
                return Err(AsmError { kind, line: line + 1 });
            },
        }
        p = if e < text.len() {
            e + 1
        } else {
            text.len()
        };
        line = line + 1;
    }
    proof {
        lemma_object_of_wf(st@);
    }
    let name: Vec<u8> = vec![0x2e, 0x74, 0x65, 0x78, 0x74];
    assert(name@ =~= text_section_name());
    let section = Section { name, kind: SectionKind::Code, data: st.code, relocations: st.relocs };
    let ghost sv = section@;
    let sections: Vec<Section> = vec![section];
    let o = ObjectFile { sections, symbols: st.symbols };
    assert(o@.sections =~= seq![sv]);
    Ok(o)
}

} // verus!
