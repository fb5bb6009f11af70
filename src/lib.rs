//! An assembler toolchain for two small machines: a stack machine and a
//! register machine. Source text assembles into relocatable object files,
//! which serialize to a canonical byte form, merge, and link into load-ready
//! executables.
pub mod assemble;
pub mod codec;
pub mod decode;
pub mod encode;
pub mod lexer;
pub mod link;
pub mod merge;
pub mod object;
pub mod risc;
pub mod stack;
pub mod unit;

use vstd::prelude::*;
use vstd::string::StrSliceExecFns;
use crate::assemble::{assemble_chars, assemble_source};
use crate::codec::{decoded_object, parse_executable, ser_executable, ser_object};
use crate::link::{layout_overflows, linked_image, reloc_overflows, unresolved};
use crate::merge::{
    is_export, is_local_def, joined_name, merge_clash, merge_fits, merged, name_bound, shift_kind, symbol_map,
};
use crate::object::{Executable, ExecutableView, ObjectError, ObjectFile, ObjectView};
use crate::unit::AsmError;

pub use crate::assemble::Target;

verus! {

/// A well-formed object file.
pub struct WasmObjectFile(pub ObjectFile);

/// A linked executable.
pub struct WasmExecutable(pub Executable);

impl View for WasmObjectFile {
    type V = ObjectView;

    open spec fn view(&self) -> ObjectView {
        self.0@
    }
}

impl View for WasmExecutable {
    type V = ExecutableView;

    open spec fn view(&self) -> ExecutableView {
        self.0@
    }
}

impl WasmObjectFile {
    pub open spec fn wf(&self) -> bool {
        self.0.wf()
    }

    /// The canonical bytes of this object file.
    pub fn serialize(&self) -> (r: Vec<u8>)
        requires
            self.wf(),
        ensures
            r@ == ser_object(self@),
    {
        crate::encode::serialize_object(&self.0)
    }

    /// Reads an object file from the front of `data`; bytes after it are
    /// ignored. Fails with `MalformedObject` on bytes that are truncated or
    /// describe no well-formed object file.
    pub fn deserialize(data: &[u8]) -> (r: Result<WasmObjectFile, ObjectError>)
        ensures
            match r {
                Ok(o) => decoded_object(data@) matches Some((v, _)) && v == o@ && o.wf(),
                Err(e) => decoded_object(data@) is None && e == ObjectError::MalformedObject,
            },
    {
        match crate::decode::deserialize_object(data) {
            Ok((o, _)) => Ok(WasmObjectFile(o)),
            Err(e) => Err(e),
        }
    }

    /// Absorbs `other` (see `ObjectFile::merge`). Fails with
    /// `DuplicateSymbol`, leaving this file unchanged, when both files export
    /// a definition of one name. Each defined symbol of this file keeps its
    /// section and offset; one that is not a local keeps its name too.
    pub fn merge(&mut self, other: WasmObjectFile) -> (r: Result<(), ObjectError>)
        requires
            old(self).wf(),
            other.wf(),
            merge_fits(old(self)@, other@),
        ensures
            r is Err <==> merge_clash(old(self)@, other@),
            match r {
                Ok(()) => {
                    &&& final(self)@ == merged(old(self)@, other@)
                    &&& final(self).wf()
                    &&& final(self)@.sections.subrange(0, old(self)@.sections.len() as int)
                        == old(self)@.sections
                    &&& forall|i: int|
                        0 <= i < old(self)@.symbols.len() ==> {
                            &&& (old(self)@.symbols[i].kind is Defined
                                ==> (#[trigger] final(self)@.symbols[i]).kind == old(self)@.symbols[i].kind
                                && final(self)@.symbols[i].exported == old(self)@.symbols[i].exported)
                            &&& (!is_local_def(old(self)@.symbols[i]) ==> final(self)@.symbols[i].name
                                == old(self)@.symbols[i].name)
                        }
                    &&& symbol_map(old(self)@, other@).len() == other@.symbols.len()
                    &&& forall|k: int|
                        0 <= k < other@.symbols.len() ==> {
                            let e = #[trigger] symbol_map(old(self)@, other@)[k] as int;
                            &&& 0 <= e < final(self)@.symbols.len()
                            &&& final(self)@.symbols[e].name == joined_name(
                                other@.symbols[k],
                                name_bound(old(self)@, other@),
                                k,
                            )
                            &&& (other@.symbols[k].kind is Defined ==> final(self)@.symbols[e].kind
                                == shift_kind(other@.symbols[k].kind, old(self)@.sections.len() as int))
                        }
                    &&& forall|i: int, k: int|
                        0 <= i < old(self)@.symbols.len() && 0 <= k < other@.symbols.len()
                            && (#[trigger] old(self)@.symbols[i]).kind is Undefined && is_export(
                            #[trigger] other@.symbols[k],
                        ) && old(self)@.symbols[i].name == other@.symbols[k].name ==> final(self)@.symbols[i].kind
                            == shift_kind(other@.symbols[k].kind, old(self)@.sections.len() as int)
                    &&& forall|i: int, k: int|
                        0 <= i < old(self)@.symbols.len() && 0 <= k < other@.symbols.len()
                            && is_export(#[trigger] old(self)@.symbols[i]) && (
                        #[trigger] other@.symbols[k]).kind is Undefined && old(self)@.symbols[i].name
                            == other@.symbols[k].name ==> symbol_map(old(self)@, other@)[k] == i
                },
                Err(e) => e == ObjectError::DuplicateSymbol && final(self)@ == old(self)@,
            },
    {
        self.0.merge(other.0)
    }
}

impl WasmExecutable {
    /// The image length fits the binary format.
    pub open spec fn wf(&self) -> bool {
        self.0.image@.len() <= u32::MAX
    }

    /// The canonical bytes of this executable.
    pub fn serialize(&self) -> (r: Vec<u8>)
        requires
            self.wf(),
        ensures
            r@ == ser_executable(self@),
    {
        crate::encode::serialize_executable(&self.0)
    }

    /// Reads an executable from the front of `data`; bytes after it are
    /// ignored.
    pub fn deserialize(data: &[u8]) -> (r: Result<WasmExecutable, ObjectError>)
        ensures
            match r {
                Ok(e) => parse_executable(data@) matches Some((v, _)) && v == e@ && e.wf(),
                Err(e) => parse_executable(data@) is None && e == ObjectError::MalformedObject,
            },
    {
        match crate::decode::deserialize_executable(data) {
            Ok((e, _)) => Ok(WasmExecutable(e)),
            Err(e) => Err(e),
        }
    }

    /// Links `obj` (see `link::link`): `UndefinedSymbol`, else
    /// `LayoutOverflow`, else `RelocationOverflow`, or the image.
    pub fn from_object_file(obj: WasmObjectFile) -> (r: Result<WasmExecutable, ObjectError>)
        requires
            obj.wf(),
        ensures
            match r {
                Ok(e) => {
                    &&& !layout_overflows(obj@)
                    &&& !unresolved(obj@)
                    &&& !reloc_overflows(obj@)
                    &&& e@ == (ExecutableView { load_address: 0, image: linked_image(obj@) })
                    &&& e.wf()
                },
                Err(ObjectError::UndefinedSymbol) => unresolved(obj@),
                Err(ObjectError::LayoutOverflow) => !unresolved(obj@) && layout_overflows(obj@),
                Err(ObjectError::RelocationOverflow) => {
                    &&& !layout_overflows(obj@)
                    &&& !unresolved(obj@)
                    &&& reloc_overflows(obj@)
                },
                Err(_) => false,
            },
    {
        match crate::link::link(&obj.0) {
            Ok(e) => {
                proof {
                    crate::link::lemma_linked_image_len(obj@);
                }
                Ok(WasmExecutable(e))
            },
            Err(e) => Err(e),
        }
    }
}

fn chars_of(s: &str) -> (r: Vec<char>)
    ensures
        r@ == s@,
{
    if s.is_ascii() {
        let b = s.as_bytes();
        proof {
            vstd::string::is_ascii_spec_bytes(s);
        }
        let mut out: Vec<char> = Vec::new();
        let mut i: usize = 0;
        while i < b.len()
            invariant
                vstd::string::is_ascii(s),
                b@ == Seq::new(s@.len(), |k| s@[k] as u8),
                0 <= i <= b.len(),
                out@ == s@.subrange(0, i as int),
            decreases b.len() - i,
        {
            let c = b[i] as char;
            assert('\0' <= s@[i as int] <= '\u{7f}');
            assert(c == s@[i as int]);
            out.push(c);
            assert(out@ =~= s@.subrange(0, i + 1));
            i += 1;
        }
        assert(out@ =~= s@);
        return out;
    }
    let n = s.unicode_len();
    let mut out: Vec<char> = Vec::new();
    let mut i: usize = 0;
    while i < n
        invariant
            n == s@.len(),
            0 <= i <= n,
            out@ == s@.subrange(0, i as int),
        decreases n - i,
    {
        out.push(s.get_char(i));
        assert(out@ =~= s@.subrange(0, i + 1));
        i += 1;
    }
    assert(out@ =~= s@);
    out
}

/// Assembles `input` for `target`: the object file, or the first error with
/// its line.
pub fn assemble(input: &str, target: Target) -> (r: Result<WasmObjectFile, AsmError>)
    ensures
        match r {
            Ok(o) => assemble_source(target, input@) == Ok::<ObjectView, AsmError>(o@) && o.wf(),
            Err(e) => assemble_source(target, input@) == Err::<ObjectView, AsmError>(e),
        },
{
    let text = chars_of(input);
    match assemble_chars(&text, target) {
        Ok(o) => Ok(WasmObjectFile(o)),
        Err(e) => Err(e),
    }
}

} // verus!
