use vstd::prelude::*;
use crate::object::{
    Executable, ObjectError, ObjectFile, RelocKind, Relocation, Section, SectionKind, Symbol,
    SymbolKind,
};
use crate::codec::{
    decoded_object, executable_magic, has_magic, object_magic, parse_bytes, parse_executable,
    parse_object, parse_reloc, parse_relocs, parse_section, parse_sections, parse_symbol,
    parse_symbol_kind, parse_symbols, parse_u32, parse_u8, section_kind_of,
};

verus! {

fn read_u32(s: &[u8], p: usize) -> (r: Option<(u32, usize)>)
    ensures
        match r {
            Some((v, q)) => parse_u32(s@, p as int) == Some((v, q as int)),
            None => parse_u32(s@, p as int) is None,
        },
{
    if p > s.len() || s.len() - p < 4 {
        return None;
    }
    let v = (s[p] as u32) | ((s[p + 1] as u32) << 8u32) | ((s[p + 2] as u32) << 16u32) | ((s[p
        + 3] as u32) << 24u32);
    Some((v, p + 4))
}

fn read_u8(s: &[u8], p: usize) -> (r: Option<(u8, usize)>)
    ensures
        match r {
            Some((v, q)) => parse_u8(s@, p as int) == Some((v, q as int)),
            None => parse_u8(s@, p as int) is None,
        },
{
    if p >= s.len() {
        return None;
    }
    Some((s[p], p + 1))
}

fn read_bytes(s: &[u8], p: usize) -> (r: Option<(Vec<u8>, usize)>)
    ensures
        match r {
            Some((v, q)) => parse_bytes(s@, p as int) == Some((v@, q as int)),
            None => parse_bytes(s@, p as int) is None,
        },
{
    let (n, q) = match read_u32(s, p) {
        Some(x) => x,
        None => return None,
    };
    if s.len() - q < n as usize {
        return None;
    }
    let end = q + n as usize;
    let mut out: Vec<u8> = Vec::new();
    let mut i: usize = q;
    while i < end
        invariant
            q <= i <= end <= s.len(),
            out@ == s@.subrange(q as int, i as int),
        decreases end - i,
    {
        out.push(s[i]);
        assert(out@ =~= s@.subrange(q as int, i + 1));
        i += 1;
    }
    Some((out, end))
}

fn read_reloc(s: &[u8], p: usize) -> (r: Option<(Relocation, usize)>)
    ensures
        match r {
            Some((v, q)) => parse_reloc(s@, p as int) == Some((v, q as int)),
            None => parse_reloc(s@, p as int) is None,
        },
{
    let (offset, q) = match read_u32(s, p) {
        Some(x) => x,
        None => return None,
    };
    let (symbol, t) = match read_u32(s, q) {
        Some(x) => x,
        None => return None,
    };
    let (tag, u) = match read_u8(s, t) {
        Some(x) => x,
        None => return None,
    };
    if tag == 0 {
        Some((Relocation { offset, symbol, kind: RelocKind::Absolute16 }, u))
    } else if tag == 1 {
        Some((Relocation { offset, symbol, kind: RelocKind::Relative16 }, u))
    } else {
        None
    }
}

proof fn lemma_relocs_fail(s: Seq<u8>, p: int, k: nat, m: nat)
    requires
        k <= m,
        parse_relocs(s, p, k) is None,
    ensures
        parse_relocs(s, p, m) is None,
    decreases m,
{
    if k < m {
        lemma_relocs_fail(s, p, k, (m - 1) as nat);
    }
}

proof fn lemma_sections_fail(s: Seq<u8>, p: int, k: nat, m: nat)
    requires
        k <= m,
        parse_sections(s, p, k) is None,
    ensures
        parse_sections(s, p, m) is None,
    decreases m,
{
    if k < m {
        lemma_sections_fail(s, p, k, (m - 1) as nat);
    }
}

proof fn lemma_symbols_fail(s: Seq<u8>, p: int, k: nat, m: nat)
    requires
        k <= m,
        parse_symbols(s, p, k) is None,
    ensures
        parse_symbols(s, p, m) is None,
    decreases m,
{
    if k < m {
        lemma_symbols_fail(s, p, k, (m - 1) as nat);
    }
}

fn read_relocs(s: &[u8], p: usize, n: u32) -> (r: Option<(Vec<Relocation>, usize)>)
    ensures
        match r {
            Some((v, q)) => parse_relocs(s@, p as int, n as nat) == Some((v@, q as int)),
            None => parse_relocs(s@, p as int, n as nat) is None,
        },
{
    let mut out: Vec<Relocation> = Vec::new();
    let mut pos = p;
    let mut i: u32 = 0;
    while i < n
        invariant
            0 <= i <= n,
            parse_relocs(s@, p as int, i as nat) == Some((out@, pos as int)),
        decreases n - i,
    {
        match read_reloc(s, pos) {
            Some((x, q)) => {
                out.push(x);
                pos = q;
            },
            None => {
                proof {
                    lemma_relocs_fail(s@, p as int, (i + 1) as nat, n as nat);
                }
                return None;
            },
        }
        i += 1;
    }
    Some((out, pos))
}

fn read_section(s: &[u8], p: usize) -> (r: Option<(Section, usize)>)
    ensures
        match r {
            Some((v, q)) => parse_section(s@, p as int) == Some((v@, q as int)),
            None => parse_section(s@, p as int) is None,
        },
{
    let (name, q) = match read_bytes(s, p) {
        Some(x) => x,
        None => return None,
    };
    let (tag, t) = match read_u8(s, q) {
        Some(x) => x,
        None => return None,
    };
    let kind = if tag == 0 {
        SectionKind::Code
    } else if tag == 1 {
        SectionKind::Data
    } else {
        return None;
    };
    assert(section_kind_of(tag) == Some(kind));
    let (data, u) = match read_bytes(s, t) {
        Some(x) => x,
        None => return None,
    };
    let (n, v) = match read_u32(s, u) {
        Some(x) => x,
        None => return None,
    };
    let (relocations, w) = match read_relocs(s, v, n) {
        Some(x) => x,
        None => return None,
    };
    Some((Section { name, kind, data, relocations }, w))
}

fn read_sections(s: &[u8], p: usize, n: u32) -> (r: Option<(Vec<Section>, usize)>)
    ensures
        match r {
            Some((v, q)) => parse_sections(s@, p as int, n as nat) == Some(
                (v@.map_values(|x: Section| x@), q as int),
            ),
            None => parse_sections(s@, p as int, n as nat) is None,
        },
{
    let mut out: Vec<Section> = Vec::new();
    let mut pos = p;
    let mut i: u32 = 0;
    while i < n
        invariant
            0 <= i <= n,
            parse_sections(s@, p as int, i as nat) == Some(
                (out@.map_values(|x: Section| x@), pos as int),
            ),
        decreases n - i,
    {
        match read_section(s, pos) {
            Some((x, q)) => {
                let ghost before = out@.map_values(|x: Section| x@);
                let ghost xv = x@;
                out.push(x);
                assert(out@.map_values(|x: Section| x@) =~= before.push(xv));
                pos = q;
            },
            None => {
                proof {
                    lemma_sections_fail(s@, p as int, (i + 1) as nat, n as nat);
                }
                return None;
            },
        }
        i += 1;
    }
    Some((out, pos))
}

fn read_symbol(s: &[u8], p: usize) -> (r: Option<(Symbol, usize)>)
    ensures
        match r {
            Some((v, q)) => parse_symbol(s@, p as int) == Some((v@, q as int)),
            None => parse_symbol(s@, p as int) is None,
        },
{
    let (name, q) = match read_bytes(s, p) {
        Some(x) => x,
        None => return None,
    };
    let (vis, t) = match read_u8(s, q) {
        Some(x) => x,
        None => return None,
    };
    if vis > 1 {
        return None;
    }
    let (tag, u) = match read_u8(s, t) {
        Some(x) => x,
        None => return None,
    };
    if tag == 0 {
        Some((Symbol { name, exported: vis == 1, kind: SymbolKind::Undefined }, u))
    } else if tag == 1 {
        let (section, w) = match read_u32(s, u) {
            Some(x) => x,
            None => return None,
        };
        let (offset, z) = match read_u32(s, w) {
            Some(x) => x,
            None => return None,
        };
        assert(parse_symbol_kind(s@, t as int) == Some(
            (SymbolKind::Defined { section, offset }, z as int),
        ));
        Some((Symbol { name, exported: vis == 1, kind: SymbolKind::Defined { section, offset } }, z))
    } else {
        None
    }
}

fn read_symbols(s: &[u8], p: usize, n: u32) -> (r: Option<(Vec<Symbol>, usize)>)
    ensures
        match r {
            Some((v, q)) => parse_symbols(s@, p as int, n as nat) == Some(
                (v@.map_values(|y: Symbol| y@), q as int),
            ),
            None => parse_symbols(s@, p as int, n as nat) is None,
        },
{
    let mut out: Vec<Symbol> = Vec::new();
    let mut pos = p;
    let mut i: u32 = 0;
    while i < n
        invariant
            0 <= i <= n,
            parse_symbols(s@, p as int, i as nat) == Some(
                (out@.map_values(|y: Symbol| y@), pos as int),
            ),
        decreases n - i,
    {
        match read_symbol(s, pos) {
            Some((y, q)) => {
                let ghost before = out@.map_values(|y: Symbol| y@);
                let ghost yv = y@;
                out.push(y);
                assert(out@.map_values(|y: Symbol| y@) =~= before.push(yv));
                pos = q;
            },
            None => {
                proof {
                    lemma_symbols_fail(s@, p as int, (i + 1) as nat, n as nat);
                }
                return None;
            },
        }
        i += 1;
    }
    Some((out, pos))
}

fn starts_with(s: &[u8], m: &[u8; 5]) -> (r: bool)
    ensures
        r == has_magic(s@, m@),
{
    if s.len() < 5 {
        return false;
    }
    let mut i: usize = 0;
    while i < 5
        invariant
            s.len() >= 5,
            m@.len() == 5,
            0 <= i <= 5,
            forall|k: int| 0 <= k < i ==> s@[k] == m@[k],
        decreases 5 - i,
    {
        if s[i] != m[i] {
            assert(s@.subrange(0, 5)[i as int] != m@[i as int]);
            return false;
        }
        i += 1;
    }
    assert(s@.subrange(0, 5) =~= m@);
    true
}

/// Reads an object file from the front of `s`, checks its invariant, and
/// returns it with the number of bytes it took; the bytes after those are
/// left for the caller.
pub fn deserialize_object(s: &[u8]) -> (r: Result<(ObjectFile, usize), ObjectError>)
    ensures
        match r {
            Ok((o, n)) => decoded_object(s@) == Some((o@, n as int)) && o.wf(),
            Err(e) => decoded_object(s@) is None && e == ObjectError::MalformedObject,
        },
{
    let magic: [u8; 5] = [0x4d, 0x4f, 0x42, 0x4a, 1];
    assert(magic@ =~= object_magic());
    if !starts_with(s, &magic) {
        return Err(ObjectError::MalformedObject);
    }
    let (ns, p) = match read_u32(s, 5) {
        Some(x) => x,
        None => return Err(ObjectError::MalformedObject),
    };
    let (sections, q) = match read_sections(s, p, ns) {
        Some(x) => x,
        None => return Err(ObjectError::MalformedObject),
    };
    let (ny, t) = match read_u32(s, q) {
        Some(x) => x,
        None => return Err(ObjectError::MalformedObject),
    };
    let (symbols, u) = match read_symbols(s, t, ny) {
        Some(x) => x,
        None => return Err(ObjectError::MalformedObject),
    };
    let o = ObjectFile { sections, symbols };
    assert(parse_object(s@) == Some((o@, u as int)));
    if !o.check_wf() {
        return Err(ObjectError::MalformedObject);
    }
    Ok((o, u))
}

/// Reads an executable from the front of `s`, and returns it with the number
/// of bytes it took.
pub fn deserialize_executable(s: &[u8]) -> (r: Result<(Executable, usize), ObjectError>)
    ensures
        match r {
            Ok((e, n)) => parse_executable(s@) == Some((e@, n as int)),
            Err(e) => parse_executable(s@) is None && e == ObjectError::MalformedObject,
        },
{
    let magic: [u8; 5] = [0x4d, 0x45, 0x58, 0x45, 1];
    assert(magic@ =~= executable_magic());
    if !starts_with(s, &magic) {
        return Err(ObjectError::MalformedObject);
    }
    let (load_address, p) = match read_u32(s, 5) {
        Some(x) => x,
        None => return Err(ObjectError::MalformedObject),
    };
    let (image, q) = match read_bytes(s, p) {
        Some(x) => x,
        None => return Err(ObjectError::MalformedObject),
    };
    Ok((Executable { load_address, image }, q))
}

} // verus!
