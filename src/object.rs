use vstd::prelude::*;

verus! {

/// How a relocation patches the two bytes at its site.
#[derive(PartialEq, Eq, Structural, Clone, Copy, Debug)]
pub enum RelocKind {
    /// The target's address, little endian.
    Absolute16,
    /// The target's address minus the address of the patch site, as a signed
    /// 16-bit little-endian value.
    Relative16,
}

/// A request to patch the two bytes at `offset` of the owning section with
/// the address of symbol number `symbol`.
#[derive(PartialEq, Eq, Structural, Clone, Copy, Debug)]
pub struct Relocation {
    pub offset: u32,
    pub symbol: u32,
    pub kind: RelocKind,
}

#[derive(PartialEq, Eq, Structural, Clone, Copy, Debug)]
pub enum SectionKind {
    Code,
    Data,
}

#[derive(PartialEq, Eq, Structural, Clone, Copy, Debug)]
pub enum SymbolKind {
    /// A placeholder, bound at link time to an exported symbol of that name.
    Undefined,
    Defined { section: u32, offset: u32 },
}

#[derive(Debug)]
pub struct Section {
    pub name: Vec<u8>,
    pub kind: SectionKind,
    pub data: Vec<u8>,
    pub relocations: Vec<Relocation>,
}

#[derive(Debug)]
pub struct Symbol {
    pub name: Vec<u8>,
    pub exported: bool,
    pub kind: SymbolKind,
}

/// The ways the object-file operations fail.
#[derive(PartialEq, Eq, Structural, Clone, Copy, Debug)]
pub enum ObjectError {
    /// Bytes that are truncated or do not describe a well-formed object.
    MalformedObject,
    /// Both object files of a merge export a definition of the same name.
    DuplicateSymbol,
    /// A relocation targets a symbol that is defined nowhere.
    UndefinedSymbol,
    /// A patch value does not fit the relocation's width.
    RelocationOverflow,
    /// The laid-out image exceeds the address space.
    LayoutOverflow,
}

/// A relocatable object: sections addressed by their position, and a symbol
/// table that relocations address by position.
#[derive(Debug)]
pub struct ObjectFile {
    pub sections: Vec<Section>,
    pub symbols: Vec<Symbol>,
}

/// A linked, load-ready image placed at `load_address`.
#[derive(Debug)]
pub struct Executable {
    pub load_address: u32,
    pub image: Vec<u8>,
}

pub ghost struct SectionView {
    pub name: Seq<u8>,
    pub kind: SectionKind,
    pub data: Seq<u8>,
    pub relocations: Seq<Relocation>,
}

pub ghost struct SymbolView {
    pub name: Seq<u8>,
    pub exported: bool,
    pub kind: SymbolKind,
}

pub ghost struct ObjectView {
    pub sections: Seq<SectionView>,
    pub symbols: Seq<SymbolView>,
}

pub ghost struct ExecutableView {
    pub load_address: u32,
    pub image: Seq<u8>,
}

impl View for Section {
    type V = SectionView;

    open spec fn view(&self) -> SectionView {
        SectionView {
            name: self.name@,
            kind: self.kind,
            data: self.data@,
            relocations: self.relocations@,
        }
    }
}

impl View for Symbol {
    type V = SymbolView;

    open spec fn view(&self) -> SymbolView {
        SymbolView { name: self.name@, exported: self.exported, kind: self.kind }
    }
}

impl View for ObjectFile {
    type V = ObjectView;

    open spec fn view(&self) -> ObjectView {
        ObjectView {
            sections: self.sections@.map_values(|s: Section| s@),
            symbols: self.symbols@.map_values(|y: Symbol| y@),
        }
    }
}

impl View for Executable {
    type V = ExecutableView;

    open spec fn view(&self) -> ExecutableView {
        ExecutableView { load_address: self.load_address, image: self.image@ }
    }
}

pub open spec fn fits_u32(n: int) -> bool {
    0 <= n <= u32::MAX
}

pub open spec fn section_wf(s: SectionView, n_symbols: int) -> bool {
    &&& fits_u32(s.name.len() as int)
    &&& fits_u32(s.data.len() as int)
    &&& fits_u32(s.relocations.len() as int)
    &&& forall|k: int|
        0 <= k < s.relocations.len() ==> {
            &&& (#[trigger] s.relocations[k]).symbol < n_symbols
            &&& s.relocations[k].offset + 2 <= s.data.len()
        }
}

pub open spec fn symbol_wf(y: SymbolView, n_sections: int) -> bool {
    &&& fits_u32(y.name.len() as int)
    &&& match y.kind {
        SymbolKind::Undefined => true,
        SymbolKind::Defined { section, offset } => section < n_sections,
    }
}

/// The entries of a symbol table carry distinct names.
pub open spec fn names_unique(symbols: Seq<SymbolView>) -> bool {
    forall|i: int, j: int|
        0 <= i < symbols.len() && 0 <= j < symbols.len() && i != j ==> (#[trigger] symbols[i]).name
            != (#[trigger] symbols[j]).name
}

/// Index of the symbol named `name` among the first `n`, if any.
pub open spec fn find_name(ys: Seq<SymbolView>, name: Seq<u8>, n: nat) -> Option<int>
    decreases n,
{
    if n == 0 {
        None
    } else if ys[n - 1].name == name {
        Some(n - 1)
    } else {
        find_name(ys, name, (n - 1) as nat)
    }
}

pub proof fn lemma_find_name(ys: Seq<SymbolView>, name: Seq<u8>, n: nat)
    requires
        n <= ys.len(),
    ensures
        match find_name(ys, name, n) {
            Some(j) => 0 <= j < n && ys[j].name == name,
            None => forall|i: int| 0 <= i < n ==> (#[trigger] ys[i]).name != name,
        },
    decreases n,
{
    if n > 0 {
        lemma_find_name(ys, name, (n - 1) as nat);
    }
}

/// Index of the symbol named `name` in `ys`, if any.
pub fn find_symbol(ys: &Vec<Symbol>, name: &Vec<u8>) -> (r: Option<usize>)
    ensures
        match r {
            Some(j) => find_name(ys@.map_values(|y: Symbol| y@), name@, ys@.len()) == Some(
                j as int,
            ),
            None => find_name(ys@.map_values(|y: Symbol| y@), name@, ys@.len()) is None,
        },
{
    let ghost v = ys@.map_values(|y: Symbol| y@);
    let mut i = ys.len();
    while i > 0
        invariant
            v == ys@.map_values(|y: Symbol| y@),
            0 <= i <= ys.len(),
            find_name(v, name@, ys@.len()) == find_name(v, name@, i as nat),
        decreases i,
    {
        assert(v[i - 1] == ys[i - 1]@);
        if bytes_eq(&ys[i - 1].name, name) {
            return Some(i - 1);
        }
        i -= 1;
    }
    None
}

/// The invariant of an object file: relocations name existing symbols and
/// patch inside their section, defined symbols name existing sections,
/// symbol names are unique, and every count fits the binary format.
pub open spec fn object_wf(o: ObjectView) -> bool {
    &&& fits_u32(o.sections.len() as int)
    &&& fits_u32(o.symbols.len() as int)
    &&& forall|i: int| 0 <= i < o.sections.len() ==> section_wf(#[trigger] o.sections[i], o.symbols.len() as int)
    &&& forall|i: int| 0 <= i < o.symbols.len() ==> symbol_wf(#[trigger] o.symbols[i], o.sections.len() as int)
    &&& names_unique(o.symbols)
}

impl ObjectFile {
    pub open spec fn wf(&self) -> bool {
        object_wf(self@)
    }

    /// Tests the invariant.
    pub fn check_wf(&self) -> (r: bool)
        ensures
            r == self.wf(),
    {
        let ns = self.sections.len();
        let ny = self.symbols.len();
        if ns > u32::MAX as usize || ny > u32::MAX as usize {
            return false;
        }
        let mut i: usize = 0;
        while i < ns
            invariant
                ns == self.sections.len(),
                ny == self.symbols.len(),
                0 <= i <= ns,
                forall|k: int| 0 <= k < i ==> section_wf(#[trigger] self@.sections[k], ny as int),
            decreases ns - i,
        {
            let sec = &self.sections[i];
            assert(self@.sections[i as int] == sec@);
            if sec.name.len() > u32::MAX as usize || sec.data.len() > u32::MAX as usize
                || sec.relocations.len() > u32::MAX as usize {
                return false;
            }
            let mut j: usize = 0;
            while j < sec.relocations.len()
                invariant
                    ns == self.sections.len(),
                    ny == self.symbols.len(),
                    0 <= i < ns,
                    sec@ == self@.sections[i as int],
                    0 <= j <= sec.relocations.len(),
                    forall|k: int|
                        0 <= k < j ==> {
                            &&& (#[trigger] sec.relocations@[k]).symbol < ny
                            &&& sec.relocations@[k].offset + 2 <= sec.data@.len()
                        },
                decreases sec.relocations.len() - j,
            {
                let r = sec.relocations[j];
                if r.symbol as usize >= ny || sec.data.len() < 2 || r.offset as usize
                    > sec.data.len() - 2 {
                    assert(self@.sections[i as int].relocations[j as int] == r);
                    return false;
                }
                j += 1;
            }
            i += 1;
        }
        let mut i: usize = 0;
        while i < ny
            invariant
                ns == self.sections.len(),
                ny == self.symbols.len(),
                0 <= i <= ny,
                forall|k: int| 0 <= k < i ==> symbol_wf(#[trigger] self@.symbols[k], ns as int),
            decreases ny - i,
        {
            let y = &self.symbols[i];
            assert(self@.symbols[i as int] == y@);
            if y.name.len() > u32::MAX as usize {
                return false;
            }
            match y.kind {
                SymbolKind::Undefined => {},
                SymbolKind::Defined { section, offset } => {
                    if section as usize >= ns {
                        return false;
                    }
                },
            }
            i += 1;
        }
        names_are_unique(&self.symbols)
    }
}

/// Byte strings compared by content.
pub fn bytes_eq(a: &Vec<u8>, b: &Vec<u8>) -> (r: bool)
    ensures
        r == (a@ == b@),
{
    if a.len() != b.len() {
        return false;
    }
    let mut i: usize = 0;
    while i < a.len()
        invariant
            a.len() == b.len(),
            0 <= i <= a.len(),
            forall|k: int| 0 <= k < i ==> a@[k] == b@[k],
        decreases a.len() - i,
    {
        if a[i] != b[i] {
            return false;
        }
        i += 1;
    }
    assert(a@ =~= b@);
    true
}

/// Tests whether the entries of a symbol table carry distinct names.
pub fn names_are_unique(symbols: &Vec<Symbol>) -> (r: bool)
    ensures
        r == names_unique(symbols@.map_values(|y: Symbol| y@)),
{
    let ghost v = symbols@.map_values(|y: Symbol| y@);
    let n = symbols.len();
    let mut i: usize = 0;
    while i < n
        invariant
            n == symbols.len(),
            v == symbols@.map_values(|y: Symbol| y@),
            0 <= i <= n,
            forall|a: int, b: int|
                0 <= a < i && 0 <= b < n && a != b ==> (#[trigger] v[a]).name != (#[trigger] v[b]).name,
        decreases n - i,
    {
        let mut j: usize = 0;
        while j < n
            invariant
                n == symbols.len(),
                v == symbols@.map_values(|y: Symbol| y@),
                0 <= i < n,
                0 <= j <= n,
                forall|a: int, b: int|
                    0 <= a < i && 0 <= b < n && a != b ==> (#[trigger] v[a]).name != (
                    #[trigger] v[b]).name,
                forall|b: int| 0 <= b < j && b != i ==> v[i as int].name != (#[trigger] v[b]).name,
            decreases n - j,
        {
            assert(v[j as int] == symbols[j as int]@);
            assert(v[i as int] == symbols[i as int]@);
            if j != i && bytes_eq(&symbols[i].name, &symbols[j].name) {
                return false;
            }
            j += 1;
        }
        i += 1;
    }
    true
}

} // verus!
