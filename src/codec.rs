use vstd::prelude::*;
use crate::object::{
    ExecutableView, ObjectView, RelocKind, Relocation, SectionKind, SectionView, SymbolKind,
    SymbolView, fits_u32, object_wf, section_wf, symbol_wf,
};

verus! {

/// Leading bytes of a serialized object file: "MOBJ" and the format version.
pub open spec fn object_magic() -> Seq<u8> {
    seq![0x4du8, 0x4fu8, 0x42u8, 0x4au8, 1u8]
}

/// Leading bytes of a serialized executable: "MEXE" and the format version.
pub open spec fn executable_magic() -> Seq<u8> {
    seq![0x4du8, 0x45u8, 0x58u8, 0x45u8, 1u8]
}

// ---- encoding ----

pub open spec fn u32_le(v: u32) -> Seq<u8> {
    seq![v as u8, (v >> 8u32) as u8, (v >> 16u32) as u8, (v >> 24u32) as u8]
}

pub open spec fn u32_of(b0: u8, b1: u8, b2: u8, b3: u8) -> u32 {
    (b0 as u32) | ((b1 as u32) << 8u32) | ((b2 as u32) << 16u32) | ((b3 as u32) << 24u32)
}

/// A length-prefixed byte string.
pub open spec fn ser_bytes(b: Seq<u8>) -> Seq<u8> {
    u32_le(b.len() as u32) + b
}

pub open spec fn reloc_tag(k: RelocKind) -> u8 {
    match k {
        RelocKind::Absolute16 => 0,
        RelocKind::Relative16 => 1,
    }
}

pub open spec fn section_tag(k: SectionKind) -> u8 {
    match k {
        SectionKind::Code => 0,
        SectionKind::Data => 1,
    }
}

pub open spec fn ser_reloc(r: Relocation) -> Seq<u8> {
    u32_le(r.offset) + u32_le(r.symbol) + seq![reloc_tag(r.kind)]
}

pub open spec fn ser_relocs(rs: Seq<Relocation>) -> Seq<u8>
    decreases rs.len(),
{
    if rs.len() == 0 {
        Seq::empty()
    } else {
        ser_relocs(rs.drop_last()) + ser_reloc(rs.last())
    }
}

pub open spec fn ser_section(s: SectionView) -> Seq<u8> {
    ser_bytes(s.name) + seq![section_tag(s.kind)] + ser_bytes(s.data) + u32_le(
        s.relocations.len() as u32,
    ) + ser_relocs(s.relocations)
}

pub open spec fn ser_sections(ss: Seq<SectionView>) -> Seq<u8>
    decreases ss.len(),
{
    if ss.len() == 0 {
        Seq::empty()
    } else {
        ser_sections(ss.drop_last()) + ser_section(ss.last())
    }
}

pub open spec fn ser_symbol_kind(k: SymbolKind) -> Seq<u8> {
    match k {
        SymbolKind::Undefined => seq![0u8],
        SymbolKind::Defined { section, offset } => seq![1u8] + u32_le(section) + u32_le(offset),
    }
}

pub open spec fn ser_symbol(y: SymbolView) -> Seq<u8> {
    ser_bytes(y.name) + seq![if y.exported { 1u8 } else { 0u8 }] + ser_symbol_kind(y.kind)
}

pub open spec fn ser_symbols(ys: Seq<SymbolView>) -> Seq<u8>
    decreases ys.len(),
{
    if ys.len() == 0 {
        Seq::empty()
    } else {
        ser_symbols(ys.drop_last()) + ser_symbol(ys.last())
    }
}

/// The canonical byte form of an object file.
pub open spec fn ser_object(o: ObjectView) -> Seq<u8> {
    object_magic() + u32_le(o.sections.len() as u32) + ser_sections(o.sections) + u32_le(
        o.symbols.len() as u32,
    ) + ser_symbols(o.symbols)
}

/// The canonical byte form of an executable.
pub open spec fn ser_executable(e: ExecutableView) -> Seq<u8> {
    executable_magic() + u32_le(e.load_address) + ser_bytes(e.image)
}

// ---- decoding: each parser reads at position `p` and yields the value and
// the position after it ----

pub open spec fn parse_u32(s: Seq<u8>, p: int) -> Option<(u32, int)> {
    if 0 <= p && p + 4 <= s.len() {
        Some((u32_of(s[p], s[p + 1], s[p + 2], s[p + 3]), p + 4))
    } else {
        None
    }
}

pub open spec fn parse_u8(s: Seq<u8>, p: int) -> Option<(u8, int)> {
    if 0 <= p && p + 1 <= s.len() {
        Some((s[p], p + 1))
    } else {
        None
    }
}

pub open spec fn parse_bytes(s: Seq<u8>, p: int) -> Option<(Seq<u8>, int)> {
    match parse_u32(s, p) {
        Some((n, q)) => if q + n <= s.len() {
            Some((s.subrange(q, q + n), q + n))
        } else {
            None
        },
        None => None,
    }
}

pub open spec fn parse_reloc(s: Seq<u8>, p: int) -> Option<(Relocation, int)> {
    match parse_u32(s, p) {
        Some((offset, q)) => match parse_u32(s, q) {
            Some((symbol, t)) => match parse_u8(s, t) {
                Some((tag, u)) => if tag == 0 {
                    Some((Relocation { offset, symbol, kind: RelocKind::Absolute16 }, u))
                } else if tag == 1 {
                    Some((Relocation { offset, symbol, kind: RelocKind::Relative16 }, u))
                } else {
                    None
                },
                None => None,
            },
            None => None,
        },
        None => None,
    }
}

pub open spec fn parse_relocs(s: Seq<u8>, p: int, n: nat) -> Option<(Seq<Relocation>, int)>
    decreases n,
{
    if n == 0 {
        Some((Seq::empty(), p))
    } else {
        match parse_relocs(s, p, (n - 1) as nat) {
            Some((rs, q)) => match parse_reloc(s, q) {
                Some((r, t)) => Some((rs.push(r), t)),
                None => None,
            },
            None => None,
        }
    }
}

pub open spec fn section_kind_of(tag: u8) -> Option<SectionKind> {
    if tag == 0 {
        Some(SectionKind::Code)
    } else if tag == 1 {
        Some(SectionKind::Data)
    } else {
        None
    }
}

pub open spec fn parse_section(s: Seq<u8>, p: int) -> Option<(SectionView, int)> {
    match parse_bytes(s, p) {
        Some((name, q)) => match parse_u8(s, q) {
            Some((tag, t)) => match section_kind_of(tag) {
                Some(kind) => match parse_bytes(s, t) {
                    Some((data, u)) => match parse_u32(s, u) {
                        Some((n, v)) => match parse_relocs(s, v, n as nat) {
                            Some((relocations, w)) => Some(
                                (SectionView { name, kind, data, relocations }, w),
                            ),
                            None => None,
                        },
                        None => None,
                    },
                    None => None,
                },
                None => None,
            },
            None => None,
        },
        None => None,
    }
}

pub open spec fn parse_sections(s: Seq<u8>, p: int, n: nat) -> Option<(Seq<SectionView>, int)>
    decreases n,
{
    if n == 0 {
        Some((Seq::empty(), p))
    } else {
        match parse_sections(s, p, (n - 1) as nat) {
            Some((ss, q)) => match parse_section(s, q) {
                Some((x, t)) => Some((ss.push(x), t)),
                None => None,
            },
            None => None,
        }
    }
}

pub open spec fn parse_symbol_kind(s: Seq<u8>, p: int) -> Option<(SymbolKind, int)> {
    match parse_u8(s, p) {
        Some((tag, q)) => if tag == 0 {
            Some((SymbolKind::Undefined, q))
        } else if tag == 1 {
            match parse_u32(s, q) {
                Some((section, t)) => match parse_u32(s, t) {
                    Some((offset, u)) => Some((SymbolKind::Defined { section, offset }, u)),
                    None => None,
                },
                None => None,
            }
        } else {
            None
        },
        None => None,
    }
}

pub open spec fn parse_symbol(s: Seq<u8>, p: int) -> Option<(SymbolView, int)> {
    match parse_bytes(s, p) {
        Some((name, q)) => match parse_u8(s, q) {
            Some((vis, t)) => if vis <= 1 {
                match parse_symbol_kind(s, t) {
                    Some((kind, u)) => Some((SymbolView { name, exported: vis == 1, kind }, u)),
                    None => None,
                }
            } else {
                None
            },
            None => None,
        },
        None => None,
    }
}

pub open spec fn parse_symbols(s: Seq<u8>, p: int, n: nat) -> Option<(Seq<SymbolView>, int)>
    decreases n,
{
    if n == 0 {
        Some((Seq::empty(), p))
    } else {
        match parse_symbols(s, p, (n - 1) as nat) {
            Some((ys, q)) => match parse_symbol(s, q) {
                Some((y, t)) => Some((ys.push(y), t)),
                None => None,
            },
            None => None,
        }
    }
}

pub open spec fn has_magic(s: Seq<u8>, m: Seq<u8>) -> bool {
    s.len() >= m.len() && s.subrange(0, m.len() as int) == m
}

/// Reads an object file from the start of `s`; yields it with the number of
/// bytes it took.
pub open spec fn parse_object(s: Seq<u8>) -> Option<(ObjectView, int)> {
    if has_magic(s, object_magic()) {
        match parse_u32(s, 5) {
            Some((ns, p)) => match parse_sections(s, p, ns as nat) {
                Some((sections, q)) => match parse_u32(s, q) {
                    Some((ny, t)) => match parse_symbols(s, t, ny as nat) {
                        Some((symbols, u)) => Some((ObjectView { sections, symbols }, u)),
                        None => None,
                    },
                    None => None,
                },
                None => None,
            },
            None => None,
        }
    } else {
        None
    }
}

/// Reads an executable from the start of `s`; yields it with the number of
/// bytes it took.
pub open spec fn parse_executable(s: Seq<u8>) -> Option<(ExecutableView, int)> {
    if has_magic(s, executable_magic()) {
        match parse_u32(s, 5) {
            Some((load_address, p)) => match parse_bytes(s, p) {
                Some((image, q)) => Some((ExecutableView { load_address, image }, q)),
                None => None,
            },
            None => None,
        }
    } else {
        None
    }
}

/// What a successful object read yields: a well-formed object.
pub open spec fn decoded_object(s: Seq<u8>) -> Option<(ObjectView, int)> {
    match parse_object(s) {
        Some((o, n)) => if object_wf(o) {
            Some((o, n))
        } else {
            None
        },
        None => None,
    }
}


// ---- round trip ----

/// `a` stands in `s` at position `p`.
pub open spec fn occurs_at(s: Seq<u8>, p: int, a: Seq<u8>) -> bool {
    0 <= p && p + a.len() <= s.len() && s.subrange(p, p + a.len()) == a
}

proof fn lemma_occurs_split(s: Seq<u8>, p: int, a: Seq<u8>, b: Seq<u8>)
    requires
        occurs_at(s, p, a + b),
    ensures
        occurs_at(s, p, a),
        occurs_at(s, p + a.len(), b),
{
    assert(s.subrange(p, p + a.len()) =~= (a + b).subrange(0, a.len() as int));
    assert((a + b).subrange(0, a.len() as int) =~= a);
    assert(s.subrange(p + a.len(), p + a.len() + b.len()) =~= (a + b).subrange(
        a.len() as int,
        (a.len() + b.len()) as int,
    ));
    assert((a + b).subrange(a.len() as int, (a.len() + b.len()) as int) =~= b);
}

pub proof fn lemma_u32_le_inverse(v: u32)
    ensures
        u32_of(v as u8, (v >> 8u32) as u8, (v >> 16u32) as u8, (v >> 24u32) as u8) == v,
{
    assert(((v as u8) as u32) | ((((v >> 8u32) as u8) as u32) << 8u32) | ((((v >> 16u32) as u8)
        as u32) << 16u32) | ((((v >> 24u32) as u8) as u32) << 24u32) == v) by (bit_vector);
}

proof fn lemma_parse_u32(s: Seq<u8>, p: int, v: u32)
    requires
        occurs_at(s, p, u32_le(v)),
    ensures
        parse_u32(s, p) == Some((v, p + 4)),
{
    lemma_u32_le_inverse(v);
    assert(s[p] == s.subrange(p, p + 4)[0]);
    assert(s[p + 1] == s.subrange(p, p + 4)[1]);
    assert(s[p + 2] == s.subrange(p, p + 4)[2]);
    assert(s[p + 3] == s.subrange(p, p + 4)[3]);
}

proof fn lemma_parse_u8(s: Seq<u8>, p: int, v: u8)
    requires
        occurs_at(s, p, seq![v]),
    ensures
        parse_u8(s, p) == Some((v, p + 1)),
{
    assert(s[p] == s.subrange(p, p + 1)[0]);
}

proof fn lemma_parse_bytes(s: Seq<u8>, p: int, b: Seq<u8>)
    requires
        fits_u32(b.len() as int),
        occurs_at(s, p, ser_bytes(b)),
    ensures
        parse_bytes(s, p) == Some((b, p + ser_bytes(b).len())),
{
    lemma_occurs_split(s, p, u32_le(b.len() as u32), b);
    lemma_parse_u32(s, p, b.len() as u32);
}

proof fn lemma_parse_reloc(s: Seq<u8>, p: int, r: Relocation)
    requires
        occurs_at(s, p, ser_reloc(r)),
    ensures
        parse_reloc(s, p) == Some((r, p + ser_reloc(r).len())),
{
    lemma_occurs_split(s, p, u32_le(r.offset) + u32_le(r.symbol), seq![reloc_tag(r.kind)]);
    lemma_occurs_split(s, p, u32_le(r.offset), u32_le(r.symbol));
    lemma_parse_u32(s, p, r.offset);
    lemma_parse_u32(s, p + 4, r.symbol);
    lemma_parse_u8(s, p + 8, reloc_tag(r.kind));
}

proof fn lemma_parse_relocs(s: Seq<u8>, p: int, rs: Seq<Relocation>)
    requires
        occurs_at(s, p, ser_relocs(rs)),
    ensures
        parse_relocs(s, p, rs.len()) == Some((rs, p + ser_relocs(rs).len())),
    decreases rs.len(),
{
    if rs.len() > 0 {
        let init = rs.drop_last();
        lemma_occurs_split(s, p, ser_relocs(init), ser_reloc(rs.last()));
        lemma_parse_relocs(s, p, init);
        lemma_parse_reloc(s, p + ser_relocs(init).len(), rs.last());
        assert(init.push(rs.last()) =~= rs);
    }
}

pub open spec fn section_fits(x: SectionView) -> bool {
    &&& fits_u32(x.name.len() as int)
    &&& fits_u32(x.data.len() as int)
    &&& fits_u32(x.relocations.len() as int)
}

proof fn lemma_parse_section(s: Seq<u8>, p: int, x: SectionView)
    requires
        section_fits(x),
        occurs_at(s, p, ser_section(x)),
    ensures
        parse_section(s, p) == Some((x, p + ser_section(x).len())),
{
    let a = ser_bytes(x.name);
    let b = seq![section_tag(x.kind)];
    let c = ser_bytes(x.data);
    let d = u32_le(x.relocations.len() as u32);
    let e = ser_relocs(x.relocations);
    lemma_occurs_split(s, p, a + b + c + d, e);
    lemma_occurs_split(s, p, a + b + c, d);
    lemma_occurs_split(s, p, a + b, c);
    lemma_occurs_split(s, p, a, b);
    lemma_parse_bytes(s, p, x.name);
    lemma_parse_u8(s, p + a.len(), section_tag(x.kind));
    lemma_parse_bytes(s, p + a.len() + 1, x.data);
    lemma_parse_u32(s, p + a.len() + 1 + c.len(), x.relocations.len() as u32);
    lemma_parse_relocs(s, p + a.len() + 1 + c.len() + 4, x.relocations);
}

proof fn lemma_parse_sections(s: Seq<u8>, p: int, xs: Seq<SectionView>)
    requires
        forall|i: int| 0 <= i < xs.len() ==> section_fits(#[trigger] xs[i]),
        occurs_at(s, p, ser_sections(xs)),
    ensures
        parse_sections(s, p, xs.len()) == Some((xs, p + ser_sections(xs).len())),
    decreases xs.len(),
{
    if xs.len() > 0 {
        let init = xs.drop_last();
        assert(section_fits(xs[xs.len() - 1]));
        lemma_occurs_split(s, p, ser_sections(init), ser_section(xs.last()));
        lemma_parse_sections(s, p, init);
        lemma_parse_section(s, p + ser_sections(init).len(), xs.last());
        assert(init.push(xs.last()) =~= xs);
    }
}

proof fn lemma_parse_symbol(s: Seq<u8>, p: int, y: SymbolView)
    requires
        fits_u32(y.name.len() as int),
        occurs_at(s, p, ser_symbol(y)),
    ensures
        parse_symbol(s, p) == Some((y, p + ser_symbol(y).len())),
{
    let a = ser_bytes(y.name);
    let b = seq![if y.exported { 1u8 } else { 0u8 }];
    let c = ser_symbol_kind(y.kind);
    lemma_occurs_split(s, p, a + b, c);
    lemma_occurs_split(s, p, a, b);
    lemma_parse_bytes(s, p, y.name);
    lemma_parse_u8(s, p + a.len(), b[0]);
    let t = p + a.len() + 1;
    match y.kind {
        SymbolKind::Undefined => {
            lemma_parse_u8(s, t, 0u8);
        },
        SymbolKind::Defined { section, offset } => {
            lemma_occurs_split(s, t, seq![1u8] + u32_le(section), u32_le(offset));
            lemma_occurs_split(s, t, seq![1u8], u32_le(section));
            lemma_parse_u8(s, t, 1u8);
            lemma_parse_u32(s, t + 1, section);
            lemma_parse_u32(s, t + 5, offset);
        },
    }
}

proof fn lemma_parse_symbols(s: Seq<u8>, p: int, ys: Seq<SymbolView>)
    requires
        forall|i: int| 0 <= i < ys.len() ==> fits_u32((#[trigger] ys[i]).name.len() as int),
        occurs_at(s, p, ser_symbols(ys)),
    ensures
        parse_symbols(s, p, ys.len()) == Some((ys, p + ser_symbols(ys).len())),
    decreases ys.len(),
{
    if ys.len() > 0 {
        let init = ys.drop_last();
        assert(fits_u32(ys[ys.len() - 1].name.len() as int));
        lemma_occurs_split(s, p, ser_symbols(init), ser_symbol(ys.last()));
        lemma_parse_symbols(s, p, init);
        lemma_parse_symbol(s, p + ser_symbols(init).len(), ys.last());
        assert(init.push(ys.last()) =~= ys);
    }
}

/// Reading back the bytes of a well-formed object file, followed by any
/// further bytes, yields that object file and consumes exactly its bytes.
#[verifier::rlimit(50)]
pub proof fn lemma_object_round_trip(x: ObjectView, rest: Seq<u8>)
    requires
        object_wf(x),
    ensures
        decoded_object(ser_object(x) + rest) == Some((x, ser_object(x).len() as int)),
{
    let s = ser_object(x) + rest;
    let a = object_magic();
    let b = u32_le(x.sections.len() as u32);
    let c = ser_sections(x.sections);
    let d = u32_le(x.symbols.len() as u32);
    let e = ser_symbols(x.symbols);
    assert(s.subrange(0, ser_object(x).len() as int) =~= ser_object(x));
    assert(occurs_at(s, 0, ser_object(x)));
    lemma_occurs_split(s, 0, a + b + c + d, e);
    lemma_occurs_split(s, 0, a + b + c, d);
    lemma_occurs_split(s, 0, a + b, c);
    lemma_occurs_split(s, 0, a, b);
    assert(has_magic(s, object_magic()));
    lemma_parse_u32(s, 5, x.sections.len() as u32);
    assert forall|i: int| 0 <= i < x.sections.len() implies section_fits(#[trigger] x.sections[i]) by {
        assert(section_wf(x.sections[i], x.symbols.len() as int));
    }
    lemma_parse_sections(s, 9, x.sections);
    lemma_parse_u32(s, 9 + c.len() as int, x.symbols.len() as u32);
    assert forall|i: int| 0 <= i < x.symbols.len() implies fits_u32(
        (#[trigger] x.symbols[i]).name.len() as int,
    ) by {
        assert(symbol_wf(x.symbols[i], x.sections.len() as int));
    }
    lemma_parse_symbols(s, 13 + c.len() as int, x.symbols);
}

/// Reading back the bytes of an executable whose image length fits the
/// format, followed by any further bytes, yields that executable.
pub proof fn lemma_executable_round_trip(x: ExecutableView, rest: Seq<u8>)
    requires
        fits_u32(x.image.len() as int),
    ensures
        parse_executable(ser_executable(x) + rest) == Some((x, ser_executable(x).len() as int)),
{
    let s = ser_executable(x) + rest;
    let a = executable_magic();
    let b = u32_le(x.load_address);
    assert(s.subrange(0, ser_executable(x).len() as int) =~= ser_executable(x));
    lemma_occurs_split(s, 0, a + b, ser_bytes(x.image));
    lemma_occurs_split(s, 0, a, b);
    lemma_parse_u32(s, 5, x.load_address);
    lemma_parse_bytes(s, 9, x.image);
}

} // verus!
