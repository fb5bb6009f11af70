use vstd::prelude::*;
use crate::object::{
    RelocKind, Relocation, Symbol, SymbolKind, SymbolView, find_name, find_symbol, lemma_find_name,
};

verus! {

/// What went wrong while assembling a line.
#[derive(PartialEq, Eq, Structural, Clone, Copy, Debug)]
pub enum AsmErrorKind {
    UnknownMnemonic,
    MalformedOperand,
    DuplicateLabel,
    OperandOutOfRange,
    /// The code or the symbol table outgrows the 16-bit address space.
    ProgramTooLarge,
}

/// An assembly error and the (1-based) line it was found on.
#[derive(PartialEq, Eq, Structural, Clone, Copy, Debug)]
pub struct AsmError {
    pub kind: AsmErrorKind,
    pub line: usize,
}

/// Largest code size and symbol count of one assembled unit.
pub const UNIT_LIMIT: usize = 65536;

/// The unit being assembled: its code, the relocations into the code, and
/// its symbol table.
pub struct AsmState {
    pub code: Vec<u8>,
    pub relocs: Vec<Relocation>,
    pub symbols: Vec<Symbol>,
}

pub ghost struct AsmView {
    pub code: Seq<u8>,
    pub relocs: Seq<Relocation>,
    pub symbols: Seq<SymbolView>,
}

impl View for AsmState {
    type V = AsmView;

    open spec fn view(&self) -> AsmView {
        AsmView {
            code: self.code@,
            relocs: self.relocs@,
            symbols: self.symbols@.map_values(|y: Symbol| y@),
        }
    }
}

pub open spec fn empty_state() -> AsmView {
    AsmView { code: Seq::empty(), relocs: Seq::empty(), symbols: Seq::empty() }
}

/// The invariant of a unit: relocations patch inside the code and name
/// existing symbols, symbols are defined in the code section, and names are
/// unique.
pub open spec fn asm_wf(st: AsmView) -> bool {
    &&& st.code.len() <= UNIT_LIMIT
    &&& st.symbols.len() <= UNIT_LIMIT
    &&& st.relocs.len() <= st.code.len()
    &&& forall|k: int|
        0 <= k < st.relocs.len() ==> {
            &&& (#[trigger] st.relocs[k]).symbol < st.symbols.len()
            &&& st.relocs[k].offset + 2 <= st.code.len()
        }
    &&& forall|i: int|
        0 <= i < st.symbols.len() ==> {
            &&& (#[trigger] st.symbols[i]).name.len() <= 65535
            &&& match st.symbols[i].kind {
                SymbolKind::Defined { section, offset } => section == 0,
                SymbolKind::Undefined => true,
            }
        }
    &&& forall|i: int, j: int|
        0 <= i < st.symbols.len() && 0 <= j < st.symbols.len() && i != j ==> (#[trigger] st.symbols[i]).name
            != (#[trigger] st.symbols[j]).name
}

pub open spec fn here(st: AsmView) -> SymbolKind {
    SymbolKind::Defined { section: 0, offset: st.code.len() as u32 }
}

/// Defines label `name` at the current end of the code.
pub open spec fn define_label(st: AsmView, name: Seq<u8>) -> Result<AsmView, AsmErrorKind> {
    match find_name(st.symbols, name, st.symbols.len()) {
        Some(j) => if st.symbols[j].kind is Defined {
            Err(AsmErrorKind::DuplicateLabel)
        } else {
            Ok(AsmView { symbols: st.symbols.update(j, SymbolView { kind: here(st), ..st.symbols[j] }), ..st })
        },
        None => if st.symbols.len() >= UNIT_LIMIT {
            Err(AsmErrorKind::ProgramTooLarge)
        } else {
            Ok(AsmView { symbols: st.symbols.push(SymbolView { name, exported: false, kind: here(st) }), ..st })
        },
    }
}

/// Marks `name` exported, adding it undefined if it is not yet known.
pub open spec fn export_name(st: AsmView, name: Seq<u8>) -> Result<AsmView, AsmErrorKind> {
    match find_name(st.symbols, name, st.symbols.len()) {
        Some(j) => Ok(AsmView { symbols: st.symbols.update(j, SymbolView { exported: true, ..st.symbols[j] }), ..st }),
        None => if st.symbols.len() >= UNIT_LIMIT {
            Err(AsmErrorKind::ProgramTooLarge)
        } else {
            Ok(AsmView { symbols: st.symbols.push(SymbolView { name, exported: true, kind: SymbolKind::Undefined }), ..st })
        },
    }
}

/// Appends `bytes` to the code.
pub open spec fn emit(st: AsmView, bytes: Seq<u8>) -> Result<AsmView, AsmErrorKind> {
    if st.code.len() + bytes.len() > UNIT_LIMIT {
        Err(AsmErrorKind::ProgramTooLarge)
    } else {
        Ok(AsmView { code: st.code + bytes, ..st })
    }
}

/// Appends `bytes` to the code, with a relocation of kind `kind` at offset
/// `at` of them that targets `name`; an unknown name is added undefined.
pub open spec fn emit_ref(st: AsmView, bytes: Seq<u8>, at: int, name: Seq<u8>, kind: RelocKind) -> Result<AsmView, AsmErrorKind> {
    if st.code.len() + bytes.len() > UNIT_LIMIT {
        Err(AsmErrorKind::ProgramTooLarge)
    } else {
        let reloc = |k: int| Relocation { offset: (st.code.len() + at) as u32, symbol: k as u32, kind };
        match find_name(st.symbols, name, st.symbols.len()) {
            Some(j) => Ok(AsmView { code: st.code + bytes, relocs: st.relocs.push(reloc(j)), symbols: st.symbols }),
            None => if st.symbols.len() >= UNIT_LIMIT {
                Err(AsmErrorKind::ProgramTooLarge)
            } else {
                Ok(AsmView {
                    code: st.code + bytes,
                    relocs: st.relocs.push(reloc(st.symbols.len() as int)),
                    symbols: st.symbols.push(SymbolView { name, exported: false, kind: SymbolKind::Undefined }),
                })
            },
        }
    }
}

impl AsmState {
    pub fn new() -> (r: AsmState)
        ensures
            r@ == empty_state(),
            asm_wf(r@),
    {
        let r = AsmState { code: Vec::new(), relocs: Vec::new(), symbols: Vec::new() };
        assert(r@.symbols =~= Seq::<SymbolView>::empty());
        r
    }

    fn find(&self, name: &Vec<u8>) -> (r: Option<usize>)
        ensures
            match r {
                Some(j) => find_name(self@.symbols, name@, self@.symbols.len()) == Some(j as int),
                None => find_name(self@.symbols, name@, self@.symbols.len()) is None,
            },
    {
        find_symbol(&self.symbols, name)
    }

    fn set_symbol(&mut self, j: usize, y: Symbol)
        requires
            j < old(self).symbols.len(),
        ensures
            final(self)@ == (AsmView { symbols: old(self)@.symbols.update(j as int, y@), ..old(self)@ }),
    {
        let ghost before = self@.symbols;
        self.symbols.set(j, y);
        assert(self@.symbols =~= before.update(j as int, y@));
    }

    fn push_symbol(&mut self, y: Symbol)
        ensures
            final(self)@ == (AsmView { symbols: old(self)@.symbols.push(y@), ..old(self)@ }),
    {
        let ghost before = self@.symbols;
        self.symbols.push(y);
        assert(self@.symbols =~= before.push(y@));
    }

    pub fn define_label(&mut self, name: Vec<u8>) -> (r: Result<(), AsmErrorKind>)
        requires
            asm_wf(old(self)@),
            name@.len() <= 65535,
        ensures
            match r {
                Ok(()) => define_label(old(self)@, name@) == Ok::<AsmView, AsmErrorKind>(final(self)@) && asm_wf(final(self)@),
                Err(k) => define_label(old(self)@, name@) == Err::<AsmView, AsmErrorKind>(k),
            },
    {
        let ghost st = self@;
        proof {
            lemma_find_name(st.symbols, name@, st.symbols.len());
        }
        let at_end = SymbolKind::Defined { section: 0, offset: self.code.len() as u32 };
        match self.find(&name) {
            Some(j) => {
                assert(st.symbols[j as int] == self.symbols[j as int]@);
                match self.symbols[j].kind {
                    SymbolKind::Defined { .. } => Err(AsmErrorKind::DuplicateLabel),
                    SymbolKind::Undefined => {
                        let exported = self.symbols[j].exported;
                        self.set_symbol(j, Symbol { name, exported, kind: at_end });
                        assert(self@.symbols =~= st.symbols.update(j as int, SymbolView { kind: here(st), ..st.symbols[j as int] }));
                        Ok(())
                    },
                }
            },
            None => {
                if self.symbols.len() >= UNIT_LIMIT {
                    return Err(AsmErrorKind::ProgramTooLarge);
                }
                self.push_symbol(Symbol { name, exported: false, kind: at_end });
                Ok(())
            },
        }
    }

    pub fn export_name(&mut self, name: Vec<u8>) -> (r: Result<(), AsmErrorKind>)
        requires
            asm_wf(old(self)@),
            name@.len() <= 65535,
        ensures
            match r {
                Ok(()) => export_name(old(self)@, name@) == Ok::<AsmView, AsmErrorKind>(final(self)@) && asm_wf(final(self)@),
                Err(k) => export_name(old(self)@, name@) == Err::<AsmView, AsmErrorKind>(k),
            },
    {
        let ghost st = self@;
        proof {
            lemma_find_name(st.symbols, name@, st.symbols.len());
        }
        match self.find(&name) {
            Some(j) => {
                assert(st.symbols[j as int] == self.symbols[j as int]@);
                let kind = self.symbols[j].kind;
                self.set_symbol(j, Symbol { name, exported: true, kind });
                assert(self@.symbols =~= st.symbols.update(j as int, SymbolView { exported: true, ..st.symbols[j as int] }));
                Ok(())
            },
            None => {
                if self.symbols.len() >= UNIT_LIMIT {
                    return Err(AsmErrorKind::ProgramTooLarge);
                }
                self.push_symbol(Symbol { name, exported: true, kind: SymbolKind::Undefined });
                Ok(())
            },
        }
    }

    pub fn emit(&mut self, bytes: &Vec<u8>) -> (r: Result<(), AsmErrorKind>)
        requires
            asm_wf(old(self)@),
        ensures
            match r {
                Ok(()) => emit(old(self)@, bytes@) == Ok::<AsmView, AsmErrorKind>(final(self)@) && asm_wf(final(self)@),
                Err(k) => emit(old(self)@, bytes@) == Err::<AsmView, AsmErrorKind>(k),
            },
    {
        if bytes.len() > UNIT_LIMIT - self.code.len() {
            return Err(AsmErrorKind::ProgramTooLarge);
        }
        crate::encode::push_raw(&mut self.code, bytes);
        Ok(())
    }

    pub fn emit_ref(&mut self, bytes: &Vec<u8>, at: usize, name: Vec<u8>, kind: RelocKind) -> (r: Result<(), AsmErrorKind>)
        requires
            asm_wf(old(self)@),
            at + 2 <= bytes@.len(),
            name@.len() <= 65535,
        ensures
            match r {
                Ok(()) => emit_ref(old(self)@, bytes@, at as int, name@, kind) == Ok::<AsmView, AsmErrorKind>(final(self)@) && asm_wf(final(self)@),
                Err(k) => emit_ref(old(self)@, bytes@, at as int, name@, kind) == Err::<AsmView, AsmErrorKind>(k),
            },
    {
        let ghost st = self@;
        proof {
            lemma_find_name(st.symbols, name@, st.symbols.len());
        }
        if bytes.len() > UNIT_LIMIT - self.code.len() {
            return Err(AsmErrorKind::ProgramTooLarge);
        }
        let offset = (self.code.len() + at) as u32;
        let symbol = match self.find(&name) {
            Some(j) => j as u32,
            None => {
                if self.symbols.len() >= UNIT_LIMIT {
                    return Err(AsmErrorKind::ProgramTooLarge);
                }
                let k = self.symbols.len() as u32;
                self.push_symbol(Symbol { name, exported: false, kind: SymbolKind::Undefined });
                k
            },
        };
        crate::encode::push_raw(&mut self.code, bytes);
        self.relocs.push(Relocation { offset, symbol, kind });
        Ok(())
    }
}

} // verus!
