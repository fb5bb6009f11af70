use vstd::prelude::*;
use crate::encode::push_raw;
use crate::object::{
    Executable, ObjectError, ObjectFile, ObjectView, RelocKind, Relocation, SectionView, Symbol,
    SymbolKind, SymbolView, object_wf, section_wf, symbol_wf,
};

verus! {

/// Size of the address space shared by both targets.
pub const ADDRESS_SPACE: u64 = 65536;

/// Total length of a run of sections laid out back to back.
pub open spec fn layout_size(ss: Seq<SectionView>) -> int
    decreases ss.len(),
{
    if ss.len() == 0 {
        0
    } else {
        layout_size(ss.drop_last()) + ss.last().data.len()
    }
}

/// Address of section `i`: sections are placed in order from address zero.
pub open spec fn section_base(o: ObjectView, i: int) -> int {
    layout_size(o.sections.subrange(0, i))
}

pub open spec fn layout_overflows(o: ObjectView) -> bool {
    layout_size(o.sections) > ADDRESS_SPACE
}

pub open spec fn defined_address(o: ObjectView, y: SymbolView) -> int {
    match y.kind {
        SymbolKind::Defined { section, offset } => section_base(o, section as int) + offset,
        SymbolKind::Undefined => 0,
    }
}

/// Final address of symbol number `k`, when it is defined. Names are unique
/// within an object, so a placeholder has no definition to bind to: merging
/// joins placeholders with their definitions before linking.
pub open spec fn resolve(o: ObjectView, k: int) -> Option<int> {
    let y = o.symbols[k];
    match y.kind {
        SymbolKind::Defined { .. } => Some(defined_address(o, y)),
        SymbolKind::Undefined => None,
    }
}

/// Some relocation targets a symbol that resolves nowhere.
pub open spec fn unresolved(o: ObjectView) -> bool {
    exists|i: int, k: int|
        0 <= i < o.sections.len() && 0 <= k < o.sections[i].relocations.len() && resolve(
            o,
            (#[trigger] o.sections[i].relocations[k]).symbol as int,
        ) is None
}

pub open spec fn reloc_site(o: ObjectView, i: int, r: Relocation) -> int {
    section_base(o, i) + r.offset
}

/// The 16-bit value patched for relocation `r` of section `i`, if it fits.
pub open spec fn reloc_value(o: ObjectView, i: int, r: Relocation) -> Option<int> {
    match resolve(o, r.symbol as int) {
        Some(t) => match r.kind {
            RelocKind::Absolute16 => if 0 <= t < ADDRESS_SPACE {
                Some(t)
            } else {
                None
            },
            RelocKind::Relative16 => {
                let d = t - reloc_site(o, i, r);
                if -32768 <= d < 0 {
                    Some(d + 65536)
                } else if 0 <= d <= 32767 {
                    Some(d)
                } else {
                    None
                }
            },
        },
        None => None,
    }
}

/// Some relocation's value does not fit its width.
pub open spec fn reloc_overflows(o: ObjectView) -> bool {
    exists|i: int, k: int|
        0 <= i < o.sections.len() && 0 <= k < o.sections[i].relocations.len() && reloc_value(
            o,
            i,
            #[trigger] o.sections[i].relocations[k],
        ) is None
}

/// The section contents laid end to end.
pub open spec fn flat(ss: Seq<SectionView>) -> Seq<u8>
    decreases ss.len(),
{
    if ss.len() == 0 {
        Seq::empty()
    } else {
        flat(ss.drop_last()) + ss.last().data
    }
}

/// The patches of relocations `rs` of section `i`: a site and a value each.
pub open spec fn section_patches(o: ObjectView, i: int, rs: Seq<Relocation>) -> Seq<(int, int)>
    decreases rs.len(),
{
    if rs.len() == 0 {
        Seq::empty()
    } else {
        section_patches(o, i, rs.drop_last()).push(
            (reloc_site(o, i, rs.last()), reloc_value(o, i, rs.last()).unwrap_or(0)),
        )
    }
}

/// The patches of the first `n` sections, in order.
pub open spec fn all_patches(o: ObjectView, n: nat) -> Seq<(int, int)>
    decreases n,
{
    if n == 0 {
        Seq::empty()
    } else {
        all_patches(o, (n - 1) as nat) + section_patches(
            o,
            n - 1,
            o.sections[n - 1].relocations,
        )
    }
}

/// Writes `v` as two little-endian bytes at `at`.
pub open spec fn patch(img: Seq<u8>, at: int, v: int) -> Seq<u8> {
    img.update(at, (v % 256) as u8).update(at + 1, (v / 256) as u8)
}

pub open spec fn apply_patches(img: Seq<u8>, ps: Seq<(int, int)>) -> Seq<u8>
    decreases ps.len(),
{
    if ps.len() == 0 {
        img
    } else {
        patch(apply_patches(img, ps.drop_last()), ps.last().0, ps.last().1)
    }
}

/// The linked image of `o`.
pub open spec fn linked_image(o: ObjectView) -> Seq<u8> {
    apply_patches(flat(o.sections), all_patches(o, o.sections.len()))
}


proof fn lemma_layout_step(ss: Seq<SectionView>, i: int)
    requires
        0 <= i < ss.len(),
    ensures
        layout_size(ss.subrange(0, i + 1)) == layout_size(ss.subrange(0, i)) + ss[i].data.len(),
        flat(ss.subrange(0, i + 1)) == flat(ss.subrange(0, i)) + ss[i].data,
{
    assert(ss.subrange(0, i + 1).drop_last() =~= ss.subrange(0, i));
}

proof fn lemma_layout_mono(ss: Seq<SectionView>, i: int, j: int)
    requires
        0 <= i <= j <= ss.len(),
    ensures
        layout_size(ss.subrange(0, i)) <= layout_size(ss.subrange(0, j)),
    decreases j - i,
{
    if i < j {
        lemma_layout_mono(ss, i, j - 1);
        lemma_layout_step(ss, j - 1);
    }
}

proof fn lemma_flat_len(ss: Seq<SectionView>)
    ensures
        flat(ss).len() == layout_size(ss),
    decreases ss.len(),
{
    if ss.len() > 0 {
        lemma_flat_len(ss.drop_last());
    }
}

/// Addresses of all sections of `o`, or `None` when they overflow the
/// address space.
fn section_bases(o: &ObjectFile) -> (r: Option<Vec<u64>>)
    requires
        o.wf(),
    ensures
        match r {
            Some(b) => !layout_overflows(o@) && b@.len() == o@.sections.len() && forall|j: int|
                0 <= j < b@.len() ==> #[trigger] b@[j] == section_base(o@, j),
            None => layout_overflows(o@),
        },
{
    let ghost ss = o@.sections;
    let n = o.sections.len();
    let mut bases: Vec<u64> = Vec::new();
    let mut total: u64 = 0;
    let mut i: usize = 0;
    while i < n
        invariant
            o.wf(),
            ss == o@.sections,
            n == ss.len(),
            0 <= i <= n,
            bases@.len() == i,
            total == layout_size(ss.subrange(0, i as int)),
            total <= ADDRESS_SPACE,
            forall|j: int| 0 <= j < i ==> #[trigger] bases@[j] == section_base(o@, j),
        decreases n - i,
    {
        bases.push(total);
        proof {
            lemma_layout_step(ss, i as int);
            assert(ss[i as int] == o.sections[i as int]@);
            assert(section_wf(ss[i as int], o@.symbols.len() as int));
        }
        let len = o.sections[i].data.len() as u64;
        if len > ADDRESS_SPACE - total {
            proof {
                lemma_layout_mono(ss, i + 1, n as int);
                assert(ss.subrange(0, n as int) =~= ss);
            }
            return None;
        }
        total = total + len;
        i += 1;
    }
    assert(ss.subrange(0, n as int) =~= ss);
    Some(bases)
}

fn defined_address_exec(o: &ObjectFile, bases: &Vec<u64>, y: &Symbol) -> (r: u64)
    requires
        o.wf(),
        bases@.len() == o@.sections.len(),
        forall|j: int| 0 <= j < bases@.len() ==> #[trigger] bases@[j] == section_base(o@, j),
        forall|j: int| 0 <= j < bases@.len() ==> bases@[j] <= ADDRESS_SPACE,
        symbol_wf(y@, o@.sections.len() as int),
    ensures
        y@.kind is Defined ==> r == defined_address(o@, y@),
{
    match y.kind {
        SymbolKind::Defined { section, offset } => {
            assert(bases@[section as int] <= ADDRESS_SPACE);
            bases[section as usize] + offset as u64
        },
        SymbolKind::Undefined => 0,
    }
}

fn resolve_exec(o: &ObjectFile, bases: &Vec<u64>, k: u32) -> (r: Option<u64>)
    requires
        o.wf(),
        k < o@.symbols.len(),
        bases@.len() == o@.sections.len(),
        forall|j: int| 0 <= j < bases@.len() ==> #[trigger] bases@[j] == section_base(o@, j),
        forall|j: int| 0 <= j < bases@.len() ==> bases@[j] <= ADDRESS_SPACE,
    ensures
        match r {
            Some(t) => resolve(o@, k as int) == Some(t as int),
            None => resolve(o@, k as int) is None,
        },
{
    let y = &o.symbols[k as usize];
    assert(o@.symbols[k as int] == y@);
    assert(symbol_wf(o@.symbols[k as int], o@.sections.len() as int));
    match y.kind {
        SymbolKind::Defined { .. } => {
            let t = defined_address_exec(o, bases, y);
            assert(resolve(o@, k as int) == Some(defined_address(o@, y@)));
            Some(t)
        },
        SymbolKind::Undefined => None,
    }
}

/// Patching keeps the length of the laid-out contents.
pub proof fn lemma_linked_image_len(o: ObjectView)
    requires
        object_wf(o),
    ensures
        linked_image(o).len() == layout_size(o.sections),
{
    lemma_flat_len(o.sections);
    lemma_all_patches_in_range(o, o.sections.len());
    assert(o.sections.subrange(0, o.sections.len() as int) =~= o.sections);
    lemma_apply_patches_len(flat(o.sections), all_patches(o, o.sections.len()));
}

proof fn lemma_apply_patches_len(img: Seq<u8>, ps: Seq<(int, int)>)
    requires
        forall|k: int| 0 <= k < ps.len() ==> 0 <= (#[trigger] ps[k]).0 && ps[k].0 + 2 <= img.len(),
    ensures
        apply_patches(img, ps).len() == img.len(),
    decreases ps.len(),
{
    if ps.len() > 0 {
        assert forall|k: int| 0 <= k < ps.drop_last().len() implies 0 <= (
        #[trigger] ps.drop_last()[k]).0 && ps.drop_last()[k].0 + 2 <= img.len() by {
            assert(ps.drop_last()[k] == ps[k]);
        }
        lemma_apply_patches_len(img, ps.drop_last());
    }
}

/// A relocation whose target is a placeholder leaves the object unresolved:
/// linking it fails with `UndefinedSymbol`.
pub proof fn lemma_undefined_target_unresolved(o: ObjectView, i: int, k: int)
    requires
        0 <= i < o.sections.len(),
        0 <= k < o.sections[i].relocations.len(),
        o.sections[i].relocations[k].symbol < o.symbols.len(),
        o.symbols[o.sections[i].relocations[k].symbol as int].kind is Undefined,
    ensures
        unresolved(o),
{
    assert(resolve(o, o.sections[i].relocations[k].symbol as int) is None);
}

/// Distinct patches write distinct byte pairs.
pub open spec fn sites_disjoint(ps: Seq<(int, int)>) -> bool {
    forall|a: int, b: int|
        0 <= a < ps.len() && 0 <= b < ps.len() && a != b ==> (#[trigger] ps[a]).0 + 2 <= (
        #[trigger] ps[b]).0 || ps[b].0 + 2 <= ps[a].0
}

proof fn lemma_apply_patches(img: Seq<u8>, ps: Seq<(int, int)>)
    requires
        sites_disjoint(ps),
        forall|k: int| 0 <= k < ps.len() ==> 0 <= (#[trigger] ps[k]).0 && ps[k].0 + 2 <= img.len(),
    ensures
        apply_patches(img, ps).len() == img.len(),
        forall|k: int|
            0 <= k < ps.len() ==> {
                &&& apply_patches(img, ps)[(#[trigger] ps[k]).0] == (ps[k].1 % 256) as u8
                &&& apply_patches(img, ps)[ps[k].0 + 1] == (ps[k].1 / 256) as u8
            },
    decreases ps.len(),
{
    if ps.len() > 0 {
        let init = ps.drop_last();
        assert forall|a: int, b: int|
            0 <= a < init.len() && 0 <= b < init.len() && a != b implies (#[trigger] init[a]).0 + 2
            <= (#[trigger] init[b]).0 || init[b].0 + 2 <= init[a].0 by {
            assert(init[a] == ps[a] && init[b] == ps[b]);
        }
        assert forall|k: int| 0 <= k < init.len() implies 0 <= (#[trigger] init[k]).0 && init[k].0
            + 2 <= img.len() by {
            assert(init[k] == ps[k]);
        }
        lemma_apply_patches(img, init);
        assert forall|k: int| 0 <= k < ps.len() implies {
            &&& apply_patches(img, ps)[(#[trigger] ps[k]).0] == (ps[k].1 % 256) as u8
            &&& apply_patches(img, ps)[ps[k].0 + 1] == (ps[k].1 / 256) as u8
        } by {
            if k < ps.len() - 1 {
                assert(init[k] == ps[k]);
                assert(ps[k].0 + 2 <= ps.last().0 || ps.last().0 + 2 <= ps[k].0);
            }
        }
    }
}

proof fn lemma_section_patches(o: ObjectView, i: int, rs: Seq<Relocation>)
    ensures
        section_patches(o, i, rs).len() == rs.len(),
        forall|k: int|
            0 <= k < rs.len() ==> #[trigger] section_patches(o, i, rs)[k] == (
                reloc_site(o, i, rs[k]),
                reloc_value(o, i, rs[k]).unwrap_or(0),
            ),
    decreases rs.len(),
{
    if rs.len() > 0 {
        lemma_section_patches(o, i, rs.drop_last());
        assert forall|k: int| 0 <= k < rs.len() implies #[trigger] section_patches(o, i, rs)[k] == (
            reloc_site(o, i, rs[k]),
            reloc_value(o, i, rs[k]).unwrap_or(0),
        ) by {
            if k < rs.len() - 1 {
                assert(rs.drop_last()[k] == rs[k]);
            }
        }
    }
}

proof fn lemma_all_patches_in_range(o: ObjectView, n: nat)
    requires
        object_wf(o),
        n <= o.sections.len(),
    ensures
        forall|k: int|
            0 <= k < all_patches(o, n).len() ==> 0 <= (#[trigger] all_patches(o, n)[k]).0
                && all_patches(o, n)[k].0 + 2 <= layout_size(o.sections.subrange(0, n as int)),
    decreases n,
{
    if n > 0 {
        let i = n - 1;
        let ss = o.sections;
        lemma_all_patches_in_range(o, i as nat);
        lemma_layout_step(ss, i);
        lemma_section_patches(o, i, ss[i].relocations);
        assert(section_wf(ss[i], o.symbols.len() as int));
        let a = all_patches(o, i as nat);
        let b = section_patches(o, i, ss[i].relocations);
        assert forall|k: int| 0 <= k < (a + b).len() implies 0 <= (#[trigger] (a + b)[k]).0 && (a
            + b)[k].0 + 2 <= layout_size(ss.subrange(0, n as int)) by {
            if k < a.len() {
                assert(a[k] == (a + b)[k]);
            } else {
                lemma_layout_mono(ss, 0, i);
                assert(ss.subrange(0, 0) =~= Seq::<SectionView>::empty());
                assert(b[k - a.len()] == (a + b)[k]);
                assert(ss[i].relocations[k - a.len()].offset + 2 <= ss[i].data.len());
            }
        }
    }
}

/// When an object links, and no two relocations patch overlapping bytes,
/// every relocation site of the image holds its patch: the resolved address
/// (absolute) or the displacement from the site (relative), as two
/// little-endian bytes. Each patch is that of one relocation, in section
/// order and then relocation order.
pub proof fn lemma_link_patches_every_site(o: ObjectView)
    requires
        object_wf(o),
        !layout_overflows(o),
        !unresolved(o),
        !reloc_overflows(o),
        sites_disjoint(all_patches(o, o.sections.len())),
    ensures
        linked_image(o).len() == layout_size(o.sections),
        forall|i: int, k: int|
            0 <= i < o.sections.len() && 0 <= k < o.sections[i].relocations.len() ==> #[trigger] section_patches(
                o,
                i,
                o.sections[i].relocations,
            )[k] == (
                reloc_site(o, i, o.sections[i].relocations[k]),
                reloc_value(o, i, o.sections[i].relocations[k]).unwrap(),
            ),
        forall|k: int|
            0 <= k < all_patches(o, o.sections.len()).len() ==> {
                let p = #[trigger] all_patches(o, o.sections.len())[k];
                &&& linked_image(o)[p.0] == (p.1 % 256) as u8
                &&& linked_image(o)[p.0 + 1] == (p.1 / 256) as u8
            },
{
    let ss = o.sections;
    lemma_all_patches_in_range(o, ss.len());
    assert(ss.subrange(0, ss.len() as int) =~= ss);
    lemma_flat_len(ss);
    lemma_apply_patches(flat(ss), all_patches(o, ss.len()));
    assert forall|i: int, k: int|
        0 <= i < o.sections.len() && 0 <= k < o.sections[i].relocations.len() implies #[trigger] section_patches(
            o,
            i,
            o.sections[i].relocations,
        )[k] == (
            reloc_site(o, i, o.sections[i].relocations[k]),
            reloc_value(o, i, o.sections[i].relocations[k]).unwrap(),
        ) by {
        lemma_section_patches(o, i, o.sections[i].relocations);
        assert(reloc_value(o, i, o.sections[i].relocations[k]) is Some);
    }
}

fn resolves_exec(o: &ObjectFile, k: u32) -> (r: bool)
    requires
        o.wf(),
        k < o@.symbols.len(),
    ensures
        r == resolve(o@, k as int) is Some,
{
    let y = &o.symbols[k as usize];
    assert(o@.symbols[k as int] == y@);
    match y.kind {
        SymbolKind::Defined { .. } => true,
        SymbolKind::Undefined => false,
    }
}

fn reloc_value_exec(o: &ObjectFile, bases: &Vec<u64>, i: usize, r: Relocation) -> (res: Option<
    u64,
>)
    requires
        o.wf(),
        i < o@.sections.len(),
        r.symbol < o@.symbols.len(),
        !layout_overflows(o@),
        bases@.len() == o@.sections.len(),
        forall|j: int| 0 <= j < bases@.len() ==> #[trigger] bases@[j] == section_base(o@, j),
        forall|j: int| 0 <= j < bases@.len() ==> bases@[j] <= ADDRESS_SPACE,
    ensures
        match res {
            Some(v) => reloc_value(o@, i as int, r) == Some(v as int) && v < ADDRESS_SPACE,
            None => reloc_value(o@, i as int, r) is None,
        },
{
    let t = match resolve_exec(o, bases, r.symbol) {
        Some(t) => t,
        None => return None,
    };
    match r.kind {
        RelocKind::Absolute16 => if t < ADDRESS_SPACE {
            Some(t)
        } else {
            None
        },
        RelocKind::Relative16 => {
            assert(bases@[i as int] <= ADDRESS_SPACE);
            let site = bases[i] + r.offset as u64;
            if t >= site {
                if t - site <= 32767 {
                    Some(t - site)
                } else {
                    None
                }
            } else {
                if site - t <= 32768 {
                    Some(65536 - (site - t))
                } else {
                    None
                }
            }
        },
    }
}

proof fn lemma_patches_step(img: Seq<u8>, a: Seq<(int, int)>, b: Seq<(int, int)>, x: (int, int))
    ensures
        apply_patches(img, a + b.push(x)) == patch(apply_patches(img, a + b), x.0, x.1),
{
    assert((a + b.push(x)).drop_last() =~= a + b);
}

/// Lays the sections of `o` out from address zero in order, resolves every
/// relocation, and patches its site. Fails with `UndefinedSymbol` when a
/// relocation's target resolves nowhere, else with `LayoutOverflow` when the
/// sections do not fit the address space, else with `RelocationOverflow` when
/// a value does not fit its width.
pub fn link(o: &ObjectFile) -> (r: Result<Executable, ObjectError>)
    requires
        o.wf(),
    ensures
        match r {
            Ok(e) => {
                &&& !layout_overflows(o@)
                &&& !unresolved(o@)
                &&& !reloc_overflows(o@)
                &&& e.load_address == 0
                &&& e.image@ == linked_image(o@)
            },
            Err(ObjectError::UndefinedSymbol) => unresolved(o@),
            Err(ObjectError::LayoutOverflow) => !unresolved(o@) && layout_overflows(o@),
            Err(ObjectError::RelocationOverflow) => {
                &&& !layout_overflows(o@)
                &&& !unresolved(o@)
                &&& reloc_overflows(o@)
            },
            Err(_) => false,
        },
{
    let ghost ov = o@;
    let ghost ss = o@.sections;
    let n = o.sections.len();
    // Every relocation must resolve.
    let mut i: usize = 0;
    while i < n
        invariant
            o.wf(),
            ov == o@,
            ss == o@.sections,
            n == ss.len(),
            0 <= i <= n,
            forall|a: int, k: int|
                0 <= a < i && 0 <= k < ss[a].relocations.len() ==> resolve(
                    ov,
                    (#[trigger] ss[a].relocations[k]).symbol as int,
                ) is Some,
        decreases n - i,
    {
        let sec = &o.sections[i];
        assert(ss[i as int] == sec@);
        assert(section_wf(ss[i as int], ov.symbols.len() as int));
        let mut k: usize = 0;
        while k < sec.relocations.len()
            invariant
                o.wf(),
                ov == o@,
                ss == o@.sections,
                n == ss.len(),
                0 <= i < n,
                ss[i as int] == sec@,
                section_wf(ss[i as int], ov.symbols.len() as int),
                0 <= k <= sec.relocations.len(),
                forall|a: int, k2: int|
                    0 <= a < i && 0 <= k2 < ss[a].relocations.len() ==> resolve(
                        ov,
                        (#[trigger] ss[a].relocations[k2]).symbol as int,
                    ) is Some,
                forall|k2: int|
                    0 <= k2 < k ==> resolve(ov, (#[trigger] ss[i as int].relocations[k2]).symbol as int)
                        is Some,
            decreases sec.relocations.len() - k,
        {
            let r = sec.relocations[k];
            assert(ss[i as int].relocations[k as int] == r);
            if !resolves_exec(o, r.symbol) {
                return Err(ObjectError::UndefinedSymbol);
            }
            k += 1;
        }
        i += 1;
    }
    assert(!unresolved(ov));
    let bases = match section_bases(o) {
        Some(b) => b,
        None => return Err(ObjectError::LayoutOverflow),
    };
    proof {
        assert forall|j: int| 0 <= j < bases@.len() implies bases@[j] <= ADDRESS_SPACE by {
            lemma_layout_mono(ss, j, n as int);
            assert(ss.subrange(0, n as int) =~= ss);
        }
    }
    // Lay the contents end to end.
    let mut img: Vec<u8> = Vec::new();
    let mut i: usize = 0;
    while i < n
        invariant
            ss == o@.sections,
            n == ss.len(),
            0 <= i <= n,
            img@ == flat(ss.subrange(0, i as int)),
        decreases n - i,
    {
        proof {
            lemma_layout_step(ss, i as int);
        }
        assert(ss[i as int] == o.sections[i as int]@);
        push_raw(&mut img, &o.sections[i].data);
        i += 1;
    }
    assert(ss.subrange(0, n as int) =~= ss);
    let ghost base_img = img@;
    proof {
        lemma_flat_len(ss);
    }
    // Patch every relocation site.
    let mut i: usize = 0;
    while i < n
        invariant
            o.wf(),
            ov == o@,
            ss == o@.sections,
            n == ss.len(),
            0 <= i <= n,
            !layout_overflows(o@),
            !unresolved(o@),
            base_img == flat(ss),
            img@.len() == layout_size(ss),
            img@ == apply_patches(base_img, all_patches(ov, i as nat)),
            bases@.len() == n,
            forall|j: int| 0 <= j < bases@.len() ==> #[trigger] bases@[j] == section_base(o@, j),
            forall|j: int| 0 <= j < bases@.len() ==> bases@[j] <= ADDRESS_SPACE,
            forall|a: int, k: int|
                0 <= a < i && 0 <= k < ss[a].relocations.len() ==> reloc_value(
                    ov,
                    a,
                    #[trigger] ss[a].relocations[k],
                ) is Some,
        decreases n - i,
    {
        let sec = &o.sections[i];
        assert(ss[i as int] == sec@);
        assert(section_wf(ss[i as int], ov.symbols.len() as int));
        proof {
            lemma_layout_step(ss, i as int);
            lemma_layout_mono(ss, i + 1, n as int);
            assert(ss.subrange(0, n as int) =~= ss);
        }
        let ghost done = all_patches(ov, i as nat);
        let mut k: usize = 0;
        while k < sec.relocations.len()
            invariant
                o.wf(),
                ov == o@,
                ss == o@.sections,
                n == ss.len(),
                0 <= i < n,
                ss[i as int] == sec@,
                section_wf(ss[i as int], ov.symbols.len() as int),
                section_base(ov, i as int) + sec@.data.len() <= layout_size(ss),
                !layout_overflows(o@),
                !unresolved(o@),
                base_img == flat(ss),
                img@.len() == layout_size(ss),
                done == all_patches(ov, i as nat),
                img@ == apply_patches(
                    base_img,
                    done + section_patches(ov, i as int, sec@.relocations.subrange(0, k as int)),
                ),
                bases@.len() == n,
                forall|j: int| 0 <= j < bases@.len() ==> #[trigger] bases@[j] == section_base(o@, j),
                forall|j: int| 0 <= j < bases@.len() ==> bases@[j] <= ADDRESS_SPACE,
                0 <= k <= sec.relocations.len(),
                forall|a: int, k2: int|
                    0 <= a < i && 0 <= k2 < ss[a].relocations.len() ==> reloc_value(
                        ov,
                        a,
                        #[trigger] ss[a].relocations[k2],
                    ) is Some,
                forall|k2: int|
                    0 <= k2 < k ==> reloc_value(ov, i as int, #[trigger] ss[i as int].relocations[k2])
                        is Some,
            decreases sec.relocations.len() - k,
        {
            let r = sec.relocations[k];
            assert(ss[i as int].relocations[k as int] == r);
            let v = match reloc_value_exec(o, &bases, i, r) {
                Some(v) => v,
                None => {
                    assert(reloc_value(ov, i as int, ss[i as int].relocations[k as int]) is None);
                    assert(reloc_overflows(ov));
                    return Err(ObjectError::RelocationOverflow);
                },
            };
            let site = (bases[i] + r.offset as u64) as usize;
            let ghost prev = sec@.relocations.subrange(0, k as int);
            assert(sec@.relocations.subrange(0, k + 1).drop_last() =~= prev);
            assert(section_patches(ov, i as int, sec@.relocations.subrange(0, k + 1))
                == section_patches(ov, i as int, prev).push((site as int, v as int)));
            proof {
                lemma_patches_step(base_img, done, section_patches(ov, i as int, prev), (site as int, v as int));
            }
            img.set(site, (v % 256) as u8);
            img.set(site + 1, (v / 256) as u8);
            k += 1;
        }
        assert(sec@.relocations.subrange(0, sec@.relocations.len() as int) =~= sec@.relocations);
        i += 1;
    }
    Ok(Executable { load_address: 0, image: img })
}

} // verus!
