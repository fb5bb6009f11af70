use vstd::prelude::*;
use crate::codec::{lemma_u32_le_inverse, u32_le, u32_of};
use crate::encode::{push_raw, push_u32};
use crate::object::{
    ObjectError, ObjectFile, ObjectView, Relocation, Section, SectionView, Symbol, SymbolKind,
    SymbolView, bytes_eq, find_name, find_symbol, fits_u32, lemma_find_name, names_unique,
    object_wf, section_wf, symbol_wf,
};

verus! {

/// A definition private to its unit.
pub open spec fn is_local_def(y: SymbolView) -> bool {
    !y.exported && y.kind is Defined
}

/// An exported definition: the only kind of symbol that binds across units.
pub open spec fn is_export(y: SymbolView) -> bool {
    y.exported && y.kind is Defined
}

/// Both files export a definition of one name.
pub open spec fn merge_clash(b: ObjectView, o: ObjectView) -> bool {
    exists|i: int, j: int|
        0 <= i < b.symbols.len() && 0 <= j < o.symbols.len() && is_export(#[trigger] b.symbols[i])
            && is_export(#[trigger] o.symbols[j]) && b.symbols[i].name == o.symbols[j].name
}

pub open spec fn shift_kind(k: SymbolKind, d: int) -> SymbolKind {
    match k {
        SymbolKind::Undefined => SymbolKind::Undefined,
        SymbolKind::Defined { section, offset } => SymbolKind::Defined {
            section: (section + d) as u32,
            offset,
        },
    }
}

/// Longest name among the first `n` symbols.
pub open spec fn max_name_len(ys: Seq<SymbolView>, n: nat) -> int
    decreases n,
{
    if n == 0 {
        0
    } else {
        let a = max_name_len(ys, (n - 1) as nat);
        let c = ys[n - 1].name.len() as int;
        if a >= c {
            a
        } else {
            c
        }
    }
}

/// A length that exceeds every name of both tables.
pub open spec fn name_bound(b: ObjectView, o: ObjectView) -> int {
    let x = max_name_len(b.symbols, b.symbols.len());
    let y = max_name_len(o.symbols, o.symbols.len());
    (if x >= y {
        x
    } else {
        y
    }) + 1
}

/// The new name of a renamed local: its name padded with `#` to length
/// `bound`, then `j` as four little-endian bytes. It is longer than every name
/// of both files, and the trailing index tells renamed locals apart: local
/// number `j` of the other file gets `j`, local number `i` of the base gets
/// the other file's symbol count plus `i`.
pub open spec fn fresh_name(name: Seq<u8>, bound: int, j: int) -> Seq<u8> {
    name + Seq::new((bound - name.len()) as nat, |_k: int| 0x23u8) + u32_le(j as u32)
}

/// The value of the last four bytes of `name`.
pub open spec fn suffix_value(name: Seq<u8>) -> u32 {
    let n = name.len() as int;
    u32_of(name[n - 4], name[n - 3], name[n - 2], name[n - 1])
}

/// `x` joined with the entry `y` of the same name from the other file: a
/// placeholder takes over `y`'s kind; a definition stays as it is.
pub open spec fn absorb(x: SymbolView, y: SymbolView, d: int) -> SymbolView {
    if x.kind is Undefined {
        SymbolView { name: x.name, exported: x.exported || y.exported, kind: shift_kind(y.kind, d) }
    } else {
        x
    }
}

/// The symbol table after taking in the first `n` symbols of `o`, and where
/// each of them went. A local of `o` gets a fresh name and a new entry.
/// Another symbol joins the entry of its name; where that entry is a local of
/// the base, the local takes a fresh name and the symbol a new entry; where
/// there is no entry of its name, it gets a new one.
pub open spec fn fold_symbols(b: ObjectView, o: ObjectView, bound: int, n: nat) -> (
    Seq<SymbolView>,
    Seq<u32>,
)
    decreases n,
{
    if n == 0 {
        (b.symbols, Seq::empty())
    } else {
        let (t, m) = fold_symbols(b, o, bound, (n - 1) as nat);
        let j = n - 1;
        let y = o.symbols[j];
        let d = b.sections.len() as int;
        if is_local_def(y) {
            (
                t.push(
                    SymbolView {
                        name: fresh_name(y.name, bound, j),
                        exported: false,
                        kind: shift_kind(y.kind, d),
                    },
                ),
                m.push(t.len() as u32),
            )
        } else {
            match find_name(t, y.name, t.len()) {
                Some(i) => if is_local_def(t[i]) {
                    (
                        t.update(
                            i,
                            SymbolView {
                                name: fresh_name(t[i].name, bound, o.symbols.len() + i),
                                ..t[i]
                            },
                        ).push(SymbolView { kind: shift_kind(y.kind, d), ..y }),
                        m.push(t.len() as u32),
                    )
                } else {
                    (t.update(i, absorb(t[i], y, d)), m.push(i as u32))
                },
                None => (t.push(SymbolView { kind: shift_kind(y.kind, d), ..y }), m.push(
                    t.len() as u32,
                )),
            }
        }
    }
}

pub open spec fn remap_reloc(r: Relocation, m: Seq<u32>) -> Relocation {
    Relocation { symbol: m[r.symbol as int], ..r }
}

pub open spec fn remap_section(s: SectionView, m: Seq<u32>) -> SectionView {
    SectionView { relocations: s.relocations.map_values(|r: Relocation| remap_reloc(r, m)), ..s }
}

/// `o` merged into `b`: `o`'s sections follow `b`'s, its symbols are folded
/// into `b`'s table, and its relocations point where its symbols went.
pub open spec fn merged(b: ObjectView, o: ObjectView) -> ObjectView {
    let (t, m) = fold_symbols(b, o, name_bound(b, o), o.symbols.len());
    ObjectView {
        sections: b.sections + o.sections.map_values(|s: SectionView| remap_section(s, m)),
        symbols: t,
    }
}

/// The merged tables, and the fresh names, still fit the binary format.
pub open spec fn merge_fits(b: ObjectView, o: ObjectView) -> bool {
    &&& fits_u32(b.sections.len() + o.sections.len() as int)
    &&& fits_u32(b.symbols.len() + o.symbols.len() as int)
    &&& name_bound(b, o) + 4 <= u32::MAX
}

/// Two files that export a definition of a common name clash: the merge
/// fails with `DuplicateSymbol` and leaves the base unchanged.
pub proof fn lemma_export_clash(b: ObjectView, o: ObjectView, i: int, j: int)
    requires
        0 <= i < b.symbols.len(),
        0 <= j < o.symbols.len(),
        is_export(b.symbols[i]),
        is_export(o.symbols[j]),
        b.symbols[i].name == o.symbols[j].name,
    ensures
        merge_clash(b, o),
{
}

/// When no name is exported as a definition by both files, they do not
/// clash: the merge succeeds, whatever locals and references share names.
pub proof fn lemma_no_clash(b: ObjectView, o: ObjectView)
    requires
        forall|i: int, j: int|
            0 <= i < b.symbols.len() && 0 <= j < o.symbols.len() && is_export(#[trigger] b.symbols[i])
                && is_export(#[trigger] o.symbols[j]) ==> b.symbols[i].name != o.symbols[j].name,
    ensures
        !merge_clash(b, o),
{
}

proof fn lemma_max_name_len(ys: Seq<SymbolView>, n: nat)
    requires
        n <= ys.len(),
    ensures
        0 <= max_name_len(ys, n),
        forall|k: int| 0 <= k < n ==> (#[trigger] ys[k]).name.len() <= max_name_len(ys, n),
    decreases n,
{
    if n > 0 {
        lemma_max_name_len(ys, (n - 1) as nat);
    }
}

proof fn lemma_fresh_name(name: Seq<u8>, bound: int, j: u32)
    requires
        name.len() < bound,
    ensures
        fresh_name(name, bound, j as int).len() == bound + 4,
        suffix_value(fresh_name(name, bound, j as int)) == j,
{
    let f = fresh_name(name, bound, j as int);
    lemma_u32_le_inverse(j);
    assert(f[bound] == u32_le(j)[0]);
    assert(f[bound + 1] == u32_le(j)[1]);
    assert(f[bound + 2] == u32_le(j)[2]);
    assert(f[bound + 3] == u32_le(j)[3]);
}

fn max_name_len_exec(ys: &Vec<Symbol>) -> (r: u64)
    requires
        forall|k: int| 0 <= k < ys@.len() ==> (#[trigger] ys@[k]).name@.len() <= u32::MAX,
    ensures
        r == max_name_len(ys@.map_values(|y: Symbol| y@), ys@.len()),
{
    let ghost v = ys@.map_values(|y: Symbol| y@);
    let mut mx: u64 = 0;
    let mut i: usize = 0;
    while i < ys.len()
        invariant
            v == ys@.map_values(|y: Symbol| y@),
            forall|k: int| 0 <= k < ys@.len() ==> (#[trigger] ys@[k]).name@.len() <= u32::MAX,
            0 <= i <= ys.len(),
            mx == max_name_len(v, i as nat),
            mx <= u32::MAX,
        decreases ys.len() - i,
    {
        assert(v[i as int] == ys@[i as int]@);
        let c = ys[i].name.len() as u64;
        if c > mx {
            mx = c;
        }
        i += 1;
    }
    mx
}

fn is_local_def_exec(y: &Symbol) -> (r: bool)
    ensures
        r == is_local_def(y@),
{
    !y.exported && match y.kind {
        SymbolKind::Defined { .. } => true,
        SymbolKind::Undefined => false,
    }
}

fn fresh_name_exec(name: &Vec<u8>, bound: usize, j: u32) -> (r: Vec<u8>)
    requires
        name@.len() < bound,
    ensures
        r@ == fresh_name(name@, bound as int, j as int),
        r@.len() == bound + 4,
        suffix_value(r@) == j,
{
    let mut out = copy_bytes(name);
    while out.len() < bound
        invariant
            name@.len() <= out@.len() <= bound,
            out@ == name@ + Seq::new((out@.len() - name@.len()) as nat, |_k: int| 0x23u8),
        decreases bound - out.len(),
    {
        out.push(0x23);
        assert(out@ =~= name@ + Seq::new((out@.len() - name@.len()) as nat, |_k: int| 0x23u8));
    }
    push_u32(&mut out, j);
    proof {
        lemma_fresh_name(name@, bound as int, j);
    }
    assert(out@ =~= fresh_name(name@, bound as int, j as int));
    out
}

fn is_export_exec(y: &Symbol) -> (r: bool)
    ensures
        r == is_export(y@),
{
    y.exported && match y.kind {
        SymbolKind::Defined { .. } => true,
        SymbolKind::Undefined => false,
    }
}

/// Whether merging `o` into `b` clashes.
pub fn has_merge_clash(b: &ObjectFile, o: &ObjectFile) -> (r: bool)
    ensures
        r == merge_clash(b@, o@),
{
    let mut i: usize = 0;
    while i < b.symbols.len()
        invariant
            0 <= i <= b.symbols.len(),
            forall|x: int, y: int|
                0 <= x < i && 0 <= y < o.symbols.len() ==> !(is_export(#[trigger] b@.symbols[x])
                    && is_export(#[trigger] o@.symbols[y]) && b@.symbols[x].name == o@.symbols[y].name),
        decreases b.symbols.len() - i,
    {
        let x = &b.symbols[i];
        assert(b@.symbols[i as int] == x@);
        if is_export_exec(x) {
            let mut j: usize = 0;
            while j < o.symbols.len()
                invariant
                    0 <= i < b.symbols.len(),
                    b@.symbols[i as int] == x@,
                    is_export(x@),
                    0 <= j <= o.symbols.len(),
                    forall|xx: int, y: int|
                        0 <= xx < i && 0 <= y < o.symbols.len() ==> !(is_export(#[trigger] b@.symbols[xx])
                            && is_export(#[trigger] o@.symbols[y]) && b@.symbols[xx].name
                            == o@.symbols[y].name),
                    forall|y: int|
                        0 <= y < j ==> !(is_export(#[trigger] o@.symbols[y]) && x@.name
                            == o@.symbols[y].name),
                decreases o.symbols.len() - j,
            {
                let y = &o.symbols[j];
                assert(o@.symbols[j as int] == y@);
                if is_export_exec(y) && bytes_eq(&x.name, &y.name) {
                    return true;
                }
                j += 1;
            }
        }
        i += 1;
    }
    false
}

fn copy_bytes(b: &Vec<u8>) -> (r: Vec<u8>)
    ensures
        r@ == b@,
{
    let mut out: Vec<u8> = Vec::new();
    push_raw(&mut out, b);
    assert(out@ =~= b@);
    out
}

fn shift_kind_exec(k: SymbolKind, d: usize) -> (r: SymbolKind)
    requires
        k matches SymbolKind::Defined { section, .. } ==> section + d <= u32::MAX,
    ensures
        r == shift_kind(k, d as int),
{
    match k {
        SymbolKind::Undefined => SymbolKind::Undefined,
        SymbolKind::Defined { section, offset } => SymbolKind::Defined {
            section: section + d as u32,
            offset,
        },
    }
}

/// The name that symbol number `k` of the other file carries after a merge.
pub open spec fn joined_name(y: SymbolView, bound: int, k: int) -> Seq<u8> {
    if is_local_def(y) {
        fresh_name(y.name, bound, k)
    } else {
        y.name
    }
}

/// Where each symbol of `o` goes when `o` is merged into `b`.
pub open spec fn symbol_map(b: ObjectView, o: ObjectView) -> Seq<u32> {
    fold_symbols(b, o, name_bound(b, o), o.symbols.len()).1
}

/// A relocation of section `q` of the other file keeps its offset and kind
/// in the merged file, and points to the entry its symbol went to.
pub proof fn lemma_merged_relocation(b: ObjectView, o: ObjectView, q: int, k: int)
    requires
        0 <= q < o.sections.len(),
        0 <= k < o.sections[q].relocations.len(),
    ensures
        merged(b, o).sections[b.sections.len() + q].relocations[k] == (Relocation {
            symbol: symbol_map(b, o)[o.sections[q].relocations[k].symbol as int],
            ..o.sections[q].relocations[k]
        }),
{
}

/// The table invariant kept while the other file's symbols are taken in.
pub open spec fn table_inv(b: ObjectView, o: ObjectView, bound: int, t: Seq<SymbolView>, m: Seq<u32>, j: int) -> bool {
    &&& names_unique(t)
    &&& b.symbols.len() <= t.len() <= b.symbols.len() + j
    &&& m.len() == j
    &&& forall|k: int| 0 <= k < j ==> (#[trigger] m[k]) < t.len()
    &&& forall|k: int| 0 <= k < t.len() ==> symbol_wf(#[trigger] t[k], b.sections.len() + o.sections.len() as int)
    &&& forall|k: int|
        0 <= k < t.len() ==> (#[trigger] t[k]).name.len() < bound || (t[k].name.len() == bound + 4
            && (suffix_value(t[k].name) < j || suffix_value(t[k].name) == o.symbols.len() + k))
    &&& forall|k: int|
        0 <= k < t.len() && is_local_def(#[trigger] t[k]) ==> (k < b.symbols.len() && is_local_def(
            b.symbols[k],
        )) || t[k].name.len() == bound + 4
    &&& forall|k: int|
        0 <= k < j ==> (#[trigger] t[m[k] as int]).name == joined_name(o.symbols[k], bound, k)
    &&& forall|k: int|
        0 <= k < j && o.symbols[k].kind is Defined ==> (#[trigger] t[m[k] as int]).kind == shift_kind(
            o.symbols[k].kind,
            b.sections.len() as int,
        )
    &&& forall|idx: int|
        0 <= idx < t.len() && (#[trigger] t[idx]).kind is Defined && (b.symbols.len() <= idx
            || b.symbols[idx].kind is Undefined) ==> exists|k: int| 0 <= k < j && m[k] == idx
    &&& forall|i: int|
        0 <= i < b.symbols.len() ==> {
            &&& (b.symbols[i].kind is Defined ==> (#[trigger] t[i]).kind == b.symbols[i].kind
                && t[i].exported == b.symbols[i].exported)
            &&& (!is_local_def(b.symbols[i]) ==> t[i].name == b.symbols[i].name)
            &&& (is_local_def(b.symbols[i]) ==> t[i].name == b.symbols[i].name || t[i].name
                == fresh_name(b.symbols[i].name, bound, o.symbols.len() + i))
        }
}

/// No earlier symbol of `o` went to an entry that carries the name of symbol
/// number `j`.
proof fn lemma_entry_is_new(
    b: ObjectView,
    o: ObjectView,
    bound: int,
    t: Seq<SymbolView>,
    m: Seq<u32>,
    j: int,
    i: int,
)
    requires
        table_inv(b, o, bound, t, m, j),
        object_wf(o),
        0 <= j < o.symbols.len(),
        o.symbols.len() <= u32::MAX,
        forall|k: int| 0 <= k < o.symbols.len() ==> (#[trigger] o.symbols[k]).name.len() < bound,
        0 <= i < t.len(),
        t[i].name == o.symbols[j].name,
    ensures
        forall|k: int| 0 <= k < j ==> #[trigger] m[k] != i,
{
    assert forall|k: int| 0 <= k < j implies #[trigger] m[k] != i by {
        if m[k] == i {
            assert(t[m[k] as int].name == joined_name(o.symbols[k], bound, k));
            assert(o.symbols[k].name.len() < bound);
            if is_local_def(o.symbols[k]) {
                lemma_fresh_name(o.symbols[k].name, bound, k as u32);
            } else {
                assert(o.symbols[k].name == o.symbols[j].name);
                assert(names_unique(o.symbols));
            }
        }
    }
}

impl ObjectFile {
    /// Absorbs `other`: its sections follow this file's, each of its locals
    /// joins under a fresh name, each other symbol joins the entry of its
    /// name (a placeholder here takes over its definition; a local here gives
    /// way under a fresh name), and its relocations are renumbered. Fails with
    /// `DuplicateSymbol`, leaving this file as it was, exactly when both files
    /// export a definition of one name.
    #[verifier::rlimit(80)]
    pub fn merge(&mut self, other: ObjectFile) -> (r: Result<(), ObjectError>)
        requires
            old(self).wf(),
            other.wf(),
            merge_fits(old(self)@, other@),
        ensures
            r is Err <==> merge_clash(old(self)@, other@),
            match r {
                Ok(()) => {
                    &&& final(self)@ == merged(old(self)@, other@)
                    &&& final(self).wf()
                    &&& final(self)@.sections.subrange(0, old(self)@.sections.len() as int)
                        == old(self)@.sections
                    &&& forall|i: int|
                        0 <= i < old(self)@.symbols.len() ==> {
                            &&& (old(self)@.symbols[i].kind is Defined
                                ==> (#[trigger] final(self)@.symbols[i]).kind == old(self)@.symbols[i].kind
                                && final(self)@.symbols[i].exported == old(self)@.symbols[i].exported)
                            &&& (!is_local_def(old(self)@.symbols[i]) ==> final(self)@.symbols[i].name
                                == old(self)@.symbols[i].name)
                        }
                    &&& symbol_map(old(self)@, other@).len() == other@.symbols.len()
                    &&& forall|k: int|
                        0 <= k < other@.symbols.len() ==> {
                            let e = #[trigger] symbol_map(old(self)@, other@)[k] as int;
                            &&& 0 <= e < final(self)@.symbols.len()
                            &&& final(self)@.symbols[e].name == joined_name(
                                other@.symbols[k],
                                name_bound(old(self)@, other@),
                                k,
                            )
                            &&& (other@.symbols[k].kind is Defined ==> final(self)@.symbols[e].kind
                                == shift_kind(other@.symbols[k].kind, old(self)@.sections.len() as int))
                        }
                    &&& forall|i: int, k: int|
                        0 <= i < old(self)@.symbols.len() && 0 <= k < other@.symbols.len()
                            && (#[trigger] old(self)@.symbols[i]).kind is Undefined && is_export(
                            #[trigger] other@.symbols[k],
                        ) && old(self)@.symbols[i].name == other@.symbols[k].name ==> final(self)@.symbols[i].kind
                            == shift_kind(other@.symbols[k].kind, old(self)@.sections.len() as int)
                    &&& forall|i: int, k: int|
                        0 <= i < old(self)@.symbols.len() && 0 <= k < other@.symbols.len()
                            && is_export(#[trigger] old(self)@.symbols[i]) && (
                        #[trigger] other@.symbols[k]).kind is Undefined && old(self)@.symbols[i].name
                            == other@.symbols[k].name ==> symbol_map(old(self)@, other@)[k] == i
                },
                Err(e) => e == ObjectError::DuplicateSymbol && *final(self) == *old(self),
            },
    {
        if has_merge_clash(self, &other) {
            return Err(ObjectError::DuplicateSymbol);
        }
        let ghost b = self@;
        let ghost o = other@;
        let nbs = self.sections.len();
        let nos = other.sections.len();
        let nby = self.symbols.len();
        let nos_syms = other.symbols.len();
        proof {
            lemma_max_name_len(b.symbols, b.symbols.len());
            lemma_max_name_len(o.symbols, o.symbols.len());
            assert forall|k: int| 0 <= k < self.symbols@.len() implies (#[trigger] self.symbols@[k]).name@.len() <= u32::MAX by {
                assert(b.symbols[k] == self.symbols@[k]@);
                assert(symbol_wf(b.symbols[k], nbs as int));
            }
            assert forall|k: int| 0 <= k < other.symbols@.len() implies (#[trigger] other.symbols@[k]).name@.len() <= u32::MAX by {
                assert(o.symbols[k] == other.symbols@[k]@);
                assert(symbol_wf(o.symbols[k], nos as int));
            }
        }
        let mb = max_name_len_exec(&self.symbols);
        let mo = max_name_len_exec(&other.symbols);
        let bound: usize = (if mb >= mo { mb } else { mo }) as usize + 1;
        assert(bound == name_bound(b, o));
        let mut map: Vec<u32> = Vec::new();
        proof {
            assert forall|k: int| 0 <= k < b.symbols.len() implies symbol_wf(#[trigger] b.symbols[k], b.sections.len() + o.sections.len() as int) by {
                assert(symbol_wf(b.symbols[k], b.sections.len() as int));
            }
            assert(map@ =~= Seq::<u32>::empty());
        }
        let mut j: usize = 0;
        while j < other.symbols.len()
            invariant
                b.sections == self@.sections,
                b.symbols.len() <= u32::MAX,
                o == other@,
                object_wf(o),
                merge_fits(b, o),
                !merge_clash(b, o),
                nbs == b.sections.len(),
                nos == o.sections.len(),
                nby == b.symbols.len(),
                nos_syms == o.symbols.len(),
                bound == name_bound(b, o),
                forall|k: int| 0 <= k < o.symbols.len() ==> (#[trigger] o.symbols[k]).name.len() < bound,
                0 <= j <= other.symbols.len(),
                fold_symbols(b, o, bound as int, j as nat) == (self@.symbols, map@),
                table_inv(b, o, bound as int, self@.symbols, map@, j as int),
            decreases other.symbols.len() - j,
        {
            let ghost t = self@.symbols;
            let ghost tm = map@;
            let y = &other.symbols[j];
            assert(o.symbols[j as int] == y@);
            assert(symbol_wf(o.symbols[j as int], nos as int));
            assert(o.symbols[j as int].name.len() < bound);
            if is_local_def_exec(y) {
                let name = fresh_name_exec(&y.name, bound, j as u32);
                let kind = shift_kind_exec(y.kind, nbs);
                let ghost nv = SymbolView { name: name@, exported: false, kind };
                let k = self.symbols.len() as u32;
                self.symbols.push(Symbol { name, exported: false, kind });
                map.push(k);
                assert(self@.symbols =~= t.push(nv));
                proof {
                    let t1 = self@.symbols;
                    let m1 = map@;
                    assert(m1 =~= tm.push(k));
                    assert forall|q: int| 0 <= q < j + 1 implies (#[trigger] t1[m1[q] as int]).name
                        == joined_name(o.symbols[q], bound as int, q) by {
                        if q < j {
                            assert(t1[m1[q] as int] == t[tm[q] as int]);
                        }
                    }
                    assert forall|q: int| 0 <= q < j + 1 && o.symbols[q].kind is Defined implies (
                    #[trigger] t1[m1[q] as int]).kind == shift_kind(o.symbols[q].kind, nbs as int) by {
                        if q < j {
                            assert(t1[m1[q] as int] == t[tm[q] as int]);
                        }
                    }
                    assert forall|idx: int|
                        0 <= idx < t1.len() && (#[trigger] t1[idx]).kind is Defined && (nby <= idx
                            || b.symbols[idx].kind is Undefined) implies exists|q: int|
                        0 <= q < j + 1 && m1[q] == idx by {
                        if idx == t.len() {
                            assert(m1[j as int] == idx);
                        } else {
                            let q = choose|q: int| 0 <= q < j && tm[q] == idx;
                            assert(m1[q] == idx);
                        }
                    }
                    assert forall|a: int, c: int|
                        0 <= a < self@.symbols.len() && 0 <= c < self@.symbols.len() && a != c implies (#[trigger] self@.symbols[a]).name
                            != (#[trigger] self@.symbols[c]).name by {
                        if a == t.len() && c < t.len() {
                            assert(t[c].name.len() < bound || suffix_value(t[c].name) < j || suffix_value(t[c].name) == nos_syms + c);
                        } else if c == t.len() && a < t.len() {
                            assert(t[a].name.len() < bound || suffix_value(t[a].name) < j || suffix_value(t[a].name) == nos_syms + a);
                        }
                    }
                }
            } else {
                proof {
                    lemma_find_name(t, y.name@, t.len());
                }
                match find_symbol(&self.symbols, &y.name) {
                    Some(i) => {
                        let x = &self.symbols[i];
                        assert(t[i as int] == x@);
                        if is_local_def_exec(x) {
                            // A local of the base gives way: it takes a fresh name.
                            assert(i < nby && is_local_def(b.symbols[i as int]));
                            assert(t[i as int].name == b.symbols[i as int].name);
                            let fresh = fresh_name_exec(&x.name, bound, (nos_syms + i) as u32);
                            let renamed = Symbol { name: fresh, exported: x.exported, kind: x.kind };
                            let ghost rv = renamed@;
                            self.symbols.set(i, renamed);
                            let ghost t2 = t.update(i as int, rv);
                            assert(self@.symbols =~= t2);
                            let ny = Symbol {
                                name: copy_bytes(&y.name),
                                exported: y.exported,
                                kind: shift_kind_exec(y.kind, nbs),
                            };
                            let k = self.symbols.len() as u32;
                            let ghost nv = ny@;
                            self.symbols.push(ny);
                            map.push(k);
                            assert(self@.symbols =~= t2.push(nv));
                            proof {
                                let t1 = self@.symbols;
                                let m1 = map@;
                                assert(m1 =~= tm.push(k));
                                lemma_entry_is_new(b, o, bound as int, t, tm, j as int, i as int);
                                assert forall|q: int| 0 <= q < j + 1 implies (#[trigger] t1[m1[q] as int]).name
                                    == joined_name(o.symbols[q], bound as int, q) by {
                                    if q < j {
                                        assert(m1[q] == tm[q] && tm[q] != i);
                                        assert(t1[m1[q] as int] == t[tm[q] as int]);
                                    }
                                }
                                assert forall|q: int| 0 <= q < j + 1 && o.symbols[q].kind is Defined implies (
                                #[trigger] t1[m1[q] as int]).kind == shift_kind(o.symbols[q].kind, nbs as int) by {
                                    if q < j {
                                        assert(m1[q] == tm[q] && tm[q] != i);
                                        assert(t1[m1[q] as int] == t[tm[q] as int]);
                                    }
                                }

                                            assert forall|idx: int|
                                    0 <= idx < t1.len() && (#[trigger] t1[idx]).kind is Defined && (nby <= idx
                                        || b.symbols[idx].kind is Undefined) implies exists|q: int|
                                    0 <= q < j + 1 && m1[q] == idx by {
                                    if idx == t.len() {
                                        assert(m1[j as int] == idx);
                                    } else {
                                        assert(t1[idx].kind == t[idx].kind);
                                        let q = choose|q: int| 0 <= q < j && tm[q] == idx;
                                        assert(m1[q] == idx);
                                    }
                                }

                                assert forall|a: int, c: int|
                                    0 <= a < self@.symbols.len() && 0 <= c < self@.symbols.len() && a != c implies (#[trigger] self@.symbols[a]).name
                                        != (#[trigger] self@.symbols[c]).name by {
                                    if a == i && c != i && c < t.len() {
                                        assert(t[c].name.len() < bound || suffix_value(t[c].name) < j || suffix_value(t[c].name) == nos_syms + c);
                                    } else if c == i && a != i && a < t.len() {
                                        assert(t[a].name.len() < bound || suffix_value(t[a].name) < j || suffix_value(t[a].name) == nos_syms + a);
                                    } else if a == t.len() && c != i && c < t.len() {
                                        assert(t[c].name != t[i as int].name);
                                    } else if c == t.len() && a != i && a < t.len() {
                                        assert(t[a].name != t[i as int].name);
                                    }
                                }
                            }
                        } else {
                        match x.kind {
                            SymbolKind::Undefined => {
                                let nx = Symbol {
                                    name: copy_bytes(&x.name),
                                    exported: x.exported || y.exported,
                                    kind: shift_kind_exec(y.kind, nbs),
                                };
                                assert(nx@ == absorb(t[i as int], y@, nbs as int));
                                self.symbols.set(i, nx);
                                assert(self@.symbols =~= t.update(i as int, absorb(t[i as int], y@, nbs as int)));
                            },
                            SymbolKind::Defined { .. } => {
                                assert(t.update(i as int, absorb(t[i as int], y@, nbs as int)) =~= t);
                                proof {
                                    lemma_entry_is_new(b, o, bound as int, t, tm, j as int, i as int);
                                    if o.symbols[j as int].kind is Defined {
                                        // Both would be exported definitions of one name.
                                        assert(!is_local_def(t[i as int]));
                                        if i < nby && b.symbols[i as int].kind is Defined {
                                            assert(is_export(b.symbols[i as int]));
                                            assert(is_export(o.symbols[j as int]));
                                            assert(b.symbols[i as int].name == o.symbols[j as int].name);
                                            assert(merge_clash(b, o));
                                        } else {
                                            let q = choose|q: int| 0 <= q < j && tm[q] == i;
                                            assert(tm[q] != i);
                                        }
                                    }
                                }
                            },
                        }
                        map.push(i as u32);
                        proof {
                            let t1 = self@.symbols;
                            let m1 = map@;
                            assert(m1 =~= tm.push(i as u32));
                            lemma_entry_is_new(b, o, bound as int, t, tm, j as int, i as int);
                            assert forall|q: int| 0 <= q < j + 1 implies (#[trigger] t1[m1[q] as int]).name
                                == joined_name(o.symbols[q], bound as int, q) by {
                                if q < j {
                                    assert(m1[q] == tm[q] && tm[q] != i);
                                    assert(t1[m1[q] as int] == t[tm[q] as int]);
                                }
                            }
                            assert forall|q: int| 0 <= q < j + 1 && o.symbols[q].kind is Defined implies (
                            #[trigger] t1[m1[q] as int]).kind == shift_kind(o.symbols[q].kind, nbs as int) by {
                                if q < j {
                                    assert(m1[q] == tm[q] && tm[q] != i);
                                    assert(t1[m1[q] as int] == t[tm[q] as int]);
                                }
                            }

                            assert forall|idx: int|
                                0 <= idx < t1.len() && (#[trigger] t1[idx]).kind is Defined && (nby <= idx
                                    || b.symbols[idx].kind is Undefined) implies exists|q: int|
                                0 <= q < j + 1 && m1[q] == idx by {
                                if idx == i as int {
                                    assert(m1[j as int] == idx);
                                } else {
                                    assert(t1[idx].kind == t[idx].kind);
                                    let q = choose|q: int| 0 <= q < j && tm[q] == idx;
                                    assert(m1[q] == idx);
                                }
                            }
                        }
                        }
                    },
                    None => {
                        let ny = Symbol {
                            name: copy_bytes(&y.name),
                            exported: y.exported,
                            kind: shift_kind_exec(y.kind, nbs),
                        };
                        let k = self.symbols.len() as u32;
                        let ghost nv = ny@;
                        self.symbols.push(ny);
                        map.push(k);
                        assert(self@.symbols =~= t.push(nv));
                        proof {
                            let t1 = self@.symbols;
                            let m1 = map@;
                            assert(m1 =~= tm.push(k));
                            assert forall|q: int| 0 <= q < j + 1 implies (#[trigger] t1[m1[q] as int]).name
                                == joined_name(o.symbols[q], bound as int, q) by {
                                if q < j {
                                    assert(t1[m1[q] as int] == t[tm[q] as int]);
                                }
                            }
                            assert forall|q: int| 0 <= q < j + 1 && o.symbols[q].kind is Defined implies (
                            #[trigger] t1[m1[q] as int]).kind == shift_kind(o.symbols[q].kind, nbs as int) by {
                                if q < j {
                                    assert(t1[m1[q] as int] == t[tm[q] as int]);
                                }
                            }

                            assert forall|idx: int|
                                0 <= idx < t1.len() && (#[trigger] t1[idx]).kind is Defined && (nby <= idx
                                    || b.symbols[idx].kind is Undefined) implies exists|q: int|
                                0 <= q < j + 1 && m1[q] == idx by {
                                if idx == t.len() {
                                    assert(m1[j as int] == idx);
                                } else {
                                    assert(t1[idx].kind == t[idx].kind);
                                    let q = choose|q: int| 0 <= q < j && tm[q] == idx;
                                    assert(m1[q] == idx);
                                }
                            }
                        }
                    },
                }
            }
            j += 1;
        }
        let ghost t = self@.symbols;
        let ghost m = map@;
        proof {
            // Names are unique, so an entry is found by its name.
            assert forall|i: int, k: int|
                0 <= i < b.symbols.len() && 0 <= k < o.symbols.len() && (#[trigger] b.symbols[i]).kind is Undefined
                    && is_export(#[trigger] o.symbols[k]) && b.symbols[i].name == o.symbols[k].name implies t[i].kind
                == shift_kind(o.symbols[k].kind, nbs as int) by {
                assert(t[i].name == b.symbols[i].name);
                assert(t[m[k] as int].name == o.symbols[k].name);
                assert(names_unique(t));
                if m[k] as int != i {
                    assert(t[m[k] as int].name != t[i].name);
                }
            }
            assert forall|i: int, k: int|
                0 <= i < b.symbols.len() && 0 <= k < o.symbols.len() && is_export(#[trigger] b.symbols[i])
                    && (#[trigger] o.symbols[k]).kind is Undefined && b.symbols[i].name == o.symbols[k].name implies m[k]
                == i by {
                assert(t[i].name == b.symbols[i].name);
                assert(t[m[k] as int].name == o.symbols[k].name);
                if m[k] as int != i {
                    assert(t[m[k] as int].name != t[i].name);
                }
            }
        }
        let mut i: usize = 0;
        while i < other.sections.len()
            invariant
                b.symbols.len() <= t.len(),
                t == self@.symbols,
                m == map@,
                o == other@,
                object_wf(o),
                object_wf(b),
                m.len() == o.symbols.len(),
                forall|k: int| 0 <= k < m.len() ==> (#[trigger] m[k]) < t.len(),
                0 <= i <= other.sections.len(),
                self@.sections == b.sections + o.sections.subrange(0, i as int).map_values(
                    |s: SectionView| remap_section(s, m),
                ),
            decreases other.sections.len() - i,
        {
            let s = &other.sections[i];
            assert(o.sections[i as int] == s@);
            assert(section_wf(o.sections[i as int], o.symbols.len() as int));
            let mut relocations: Vec<Relocation> = Vec::new();
            let mut k: usize = 0;
            while k < s.relocations.len()
                invariant
                    section_wf(s@, o.symbols.len() as int),
                    m == map@,
                    m.len() == o.symbols.len(),
                    0 <= k <= s.relocations.len(),
                    relocations@ == s.relocations@.subrange(0, k as int).map_values(
                        |r: Relocation| remap_reloc(r, m),
                    ),
                decreases s.relocations.len() - k,
            {
                let r = s.relocations[k];
                assert(s@.relocations[k as int] == r);
                relocations.push(Relocation { symbol: map[r.symbol as usize], ..r });
                assert(relocations@ =~= s.relocations@.subrange(0, k + 1).map_values(
                    |r: Relocation| remap_reloc(r, m),
                ));
                k += 1;
            }
            assert(s.relocations@.subrange(0, s.relocations.len() as int) =~= s.relocations@);
            let ns = Section {
                name: copy_bytes(&s.name),
                kind: s.kind,
                data: copy_bytes(&s.data),
                relocations,
            };
            assert(ns@ == remap_section(s@, m));
            let ghost before = self@.sections;
            self.sections.push(ns);
            assert(self@.sections =~= before.push(ns@));
            assert(o.sections.subrange(0, i + 1).map_values(|s: SectionView| remap_section(s, m))
                =~= o.sections.subrange(0, i as int).map_values(|s: SectionView| remap_section(s, m)).push(ns@));
            assert(self@.sections =~= b.sections + o.sections.subrange(0, i + 1).map_values(
                |s: SectionView| remap_section(s, m),
            ));
            i += 1;
        }
        assert(o.sections.subrange(0, o.sections.len() as int) =~= o.sections);
        assert(self@ == merged(b, o));
        proof {
            let f = self@;
            assert(f.sections.subrange(0, nbs as int) =~= b.sections);
            assert forall|q: int| 0 <= q < f.sections.len() implies section_wf(
                #[trigger] f.sections[q],
                f.symbols.len() as int,
            ) by {
                if q < nbs {
                    assert(f.sections[q] == b.sections[q]);
                    assert(section_wf(b.sections[q], b.symbols.len() as int));
                } else {
                    let s = o.sections[q - nbs];
                    assert(f.sections[q] == remap_section(s, m));
                    assert(section_wf(s, o.symbols.len() as int));
                    assert forall|k: int| 0 <= k < f.sections[q].relocations.len() implies {
                        &&& (#[trigger] f.sections[q].relocations[k]).symbol < f.symbols.len()
                        &&& f.sections[q].relocations[k].offset + 2 <= f.sections[q].data.len()
                    } by {
                        assert(f.sections[q].relocations[k] == remap_reloc(s.relocations[k], m));
                        assert(s.relocations[k].symbol < o.symbols.len());
                    }
                }
            }
        }
        Ok(())
    }
}

} // verus!
