use vstd::prelude::*;
use crate::object::{
    Executable, ObjectFile, RelocKind, Relocation, Section, SectionKind, Symbol, SymbolKind,
    section_wf, symbol_wf,
};
use crate::codec::{
    ser_bytes, ser_executable, ser_object, ser_reloc, ser_relocs, ser_section, ser_sections,
    ser_symbol, ser_symbol_kind, ser_symbols, u32_le, object_magic, executable_magic,
};

verus! {

pub(crate) fn push_u32(out: &mut Vec<u8>, v: u32)
    ensures
        final(out)@ == old(out)@ + u32_le(v),
{
    out.push(v as u8);
    out.push((v >> 8u32) as u8);
    out.push((v >> 16u32) as u8);
    out.push((v >> 24u32) as u8);
    assert(final(out)@ =~= old(out)@ + u32_le(v));
}

pub(crate) fn push_raw(out: &mut Vec<u8>, b: &Vec<u8>)
    ensures
        final(out)@ == old(out)@ + b@,
{
    let mut i: usize = 0;
    while i < b.len()
        invariant
            0 <= i <= b.len(),
            out@ == old(out)@ + b@.subrange(0, i as int),
        decreases b.len() - i,
    {
        out.push(b[i]);
        assert(b@.subrange(0, i + 1) =~= b@.subrange(0, i as int).push(b@[i as int]));
        assert(out@ =~= old(out)@ + b@.subrange(0, i + 1));
        i += 1;
    }
    assert(b@.subrange(0, b.len() as int) =~= b@);
}

fn push_bytes(out: &mut Vec<u8>, b: &Vec<u8>)
    requires
        b.len() <= u32::MAX,
    ensures
        final(out)@ == old(out)@ + ser_bytes(b@),
{
    push_u32(out, b.len() as u32);
    push_raw(out, b);
    assert(final(out)@ =~= old(out)@ + ser_bytes(b@));
}

fn push_reloc(out: &mut Vec<u8>, r: Relocation)
    ensures
        final(out)@ == old(out)@ + ser_reloc(r),
{
    push_u32(out, r.offset);
    push_u32(out, r.symbol);
    match r.kind {
        RelocKind::Absolute16 => out.push(0),
        RelocKind::Relative16 => out.push(1),
    }
    assert(final(out)@ =~= old(out)@ + ser_reloc(r));
}

fn push_section(out: &mut Vec<u8>, s: &Section)
    requires
        s.name.len() <= u32::MAX,
        s.data.len() <= u32::MAX,
        s.relocations.len() <= u32::MAX,
    ensures
        final(out)@ == old(out)@ + ser_section(s@),
{
    push_bytes(out, &s.name);
    match s.kind {
        SectionKind::Code => out.push(0),
        SectionKind::Data => out.push(1),
    }
    push_bytes(out, &s.data);
    push_u32(out, s.relocations.len() as u32);
    let ghost mid = out@;
    let mut i: usize = 0;
    while i < s.relocations.len()
        invariant
            0 <= i <= s.relocations.len(),
            out@ == mid + ser_relocs(s.relocations@.subrange(0, i as int)),
        decreases s.relocations.len() - i,
    {
        push_reloc(out, s.relocations[i]);
        assert(s.relocations@.subrange(0, i + 1).drop_last() =~= s.relocations@.subrange(0, i as int));
        assert(out@ =~= mid + ser_relocs(s.relocations@.subrange(0, i + 1)));
        i += 1;
    }
    assert(s.relocations@.subrange(0, s.relocations.len() as int) =~= s.relocations@);
    assert(final(out)@ =~= old(out)@ + ser_section(s@));
}

fn push_symbol(out: &mut Vec<u8>, y: &Symbol)
    requires
        y.name.len() <= u32::MAX,
    ensures
        final(out)@ == old(out)@ + ser_symbol(y@),
{
    push_bytes(out, &y.name);
    if y.exported {
        out.push(1);
    } else {
        out.push(0);
    }
    let ghost mid = out@;
    match y.kind {
        SymbolKind::Undefined => out.push(0),
        SymbolKind::Defined { section, offset } => {
            out.push(1);
            push_u32(out, section);
            push_u32(out, offset);
        },
    }
    assert(out@ =~= mid + ser_symbol_kind(y.kind));
    assert(final(out)@ =~= old(out)@ + ser_symbol(y@));
}

/// The canonical bytes of a well-formed object file.
pub fn serialize_object(o: &ObjectFile) -> (r: Vec<u8>)
    requires
        o.wf(),
    ensures
        r@ == ser_object(o@),
{
    let mut out: Vec<u8> = Vec::new();
    out.push(0x4d);
    out.push(0x4f);
    out.push(0x42);
    out.push(0x4a);
    out.push(1);
    assert(out@ =~= object_magic());
    push_u32(&mut out, o.sections.len() as u32);
    let ghost mid = out@;
    let ghost sv = o@.sections;
    let mut i: usize = 0;
    while i < o.sections.len()
        invariant
            o.wf(),
            sv == o@.sections,
            0 <= i <= o.sections.len(),
            out@ == mid + ser_sections(sv.subrange(0, i as int)),
        decreases o.sections.len() - i,
    {
        assert(sv[i as int] == o.sections[i as int]@);
        assert(section_wf(sv[i as int], o@.symbols.len() as int));
        push_section(&mut out, &o.sections[i]);
        assert(sv.subrange(0, i + 1).drop_last() =~= sv.subrange(0, i as int));
        assert(out@ =~= mid + ser_sections(sv.subrange(0, i + 1)));
        i += 1;
    }
    assert(sv.subrange(0, o.sections.len() as int) =~= sv);
    push_u32(&mut out, o.symbols.len() as u32);
    let ghost mid2 = out@;
    let ghost yv = o@.symbols;
    let mut i: usize = 0;
    while i < o.symbols.len()
        invariant
            o.wf(),
            yv == o@.symbols,
            0 <= i <= o.symbols.len(),
            out@ == mid2 + ser_symbols(yv.subrange(0, i as int)),
        decreases o.symbols.len() - i,
    {
        assert(yv[i as int] == o.symbols[i as int]@);
        assert(symbol_wf(yv[i as int], o@.sections.len() as int));
        push_symbol(&mut out, &o.symbols[i]);
        assert(yv.subrange(0, i + 1).drop_last() =~= yv.subrange(0, i as int));
        assert(out@ =~= mid2 + ser_symbols(yv.subrange(0, i + 1)));
        i += 1;
    }
    assert(yv.subrange(0, o.symbols.len() as int) =~= yv);
    assert(out@ =~= ser_object(o@));
    out
}

/// The canonical bytes of an executable whose image length fits the format.
pub fn serialize_executable(e: &Executable) -> (r: Vec<u8>)
    requires
        e.image.len() <= u32::MAX,
    ensures
        r@ == ser_executable(e@),
{
    let mut out: Vec<u8> = Vec::new();
    out.push(0x4d);
    out.push(0x45);
    out.push(0x58);
    out.push(0x45);
    out.push(1);
    assert(out@ =~= executable_magic());
    push_u32(&mut out, e.load_address);
    push_bytes(&mut out, &e.image);
    assert(out@ =~= ser_executable(e@));
    out
}

} // verus!
