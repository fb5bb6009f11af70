use toolchain::assemble::assemble_chars;
use toolchain::link::link;
use toolchain::object::{
    ObjectError, ObjectFile, RelocKind, Relocation, Section, SectionKind, Symbol, SymbolKind,
};
use toolchain::unit::{AsmError, AsmErrorKind};
use toolchain::{assemble, Target, WasmExecutable, WasmObjectFile};

fn obj(src: &str, target: Target) -> WasmObjectFile {
    match assemble(src, target) {
        Ok(o) => o,
        Err(e) => panic!("assembly failed: {:?}", e),
    }
}

fn err(src: &str, target: Target) -> AsmError {
    match assemble(src, target) {
        Ok(_) => panic!("assembly succeeded"),
        Err(e) => e,
    }
}

fn exe(o: WasmObjectFile) -> WasmExecutable {
    match WasmExecutable::from_object_file(o) {
        Ok(e) => e,
        Err(e) => panic!("link failed: {:?}", e),
    }
}

#[test]
fn stack_push_push_add() {
    let o = obj("push 1\npush 2\nadd\n", Target::Stack);
    assert_eq!(o.0.sections.len(), 1);
    assert_eq!(o.0.sections[0].kind, SectionKind::Code);
    assert_eq!(o.0.sections[0].data, vec![0x01, 1, 0, 0x01, 2, 0, 0x03]);
    assert!(o.0.sections[0].relocations.is_empty());
    assert!(o.0.symbols.is_empty());
    let e = exe(o);
    assert_eq!(e.0.load_address, 0);
    assert_eq!(e.0.image, vec![0x01, 1, 0, 0x01, 2, 0, 0x03]);
    // Decoding the image gives back the opcodes and their literals.
    let img = &e.0.image;
    assert_eq!((img[0], u16::from_le_bytes([img[1], img[2]])), (0x01, 1));
    assert_eq!((img[3], u16::from_le_bytes([img[4], img[5]])), (0x01, 2));
    assert_eq!(img[6], 0x03);
}

#[test]
fn risc_call_across_units_resolves() {
    let a = obj(".global main\nmain:\n  li r1, 5\n  ret\n", Target::Risc);
    let mut b = obj("call main\nhalt\n", Target::Risc);
    assert_eq!(b.merge(a), Ok(()));
    let e = exe(b);
    // main sits at 8; the displacement field of the call sits at 2.
    assert_eq!(&e.0.image[0..4], &[0x05, 0, 6, 0]);
    assert_eq!(&e.0.image[4..8], &[0x00, 0, 0, 0]);
    assert_eq!(&e.0.image[8..12], &[0x01, 1, 5, 0]);
    assert_eq!(&e.0.image[12..16], &[0x07, 0, 0, 0]);
}

#[test]
fn risc_call_across_units_other_order() {
    let mut a = obj(".global main\nmain:\n  ret\n", Target::Risc);
    let b = obj("halt\ncall main\n", Target::Risc);
    assert_eq!(a.merge(b), Ok(()));
    let e = exe(a);
    // main at 0; the call at 8, its field at 10: displacement -10.
    assert_eq!(&e.0.image[8..12], &[0x05, 0, 0xf6, 0xff]);
}

#[test]
fn global_reference_binds_to_other_units_definition() {
    let mut b = obj(".global main\ncall main\n", Target::Risc);
    let a = obj(".global main\nmain:\nret\n", Target::Risc);
    assert_eq!(b.merge(a), Ok(()));
    let e = exe(b);
    // main at 4; the call's field at 2.
    assert_eq!(&e.0.image[0..4], &[0x05, 0, 2, 0]);
}

#[test]
fn stack_jump_patches_absolute_address() {
    let o = obj("push 0\nloop:\ndup\njz loop\n", Target::Stack);
    assert_eq!(
        o.0.sections[0].relocations,
        vec![Relocation { offset: 5, symbol: 0, kind: RelocKind::Absolute16 }]
    );
    let e = exe(o);
    assert_eq!(e.0.image, vec![0x01, 0, 0, 0x06, 0x08, 3, 0]);
}

#[test]
fn forward_reference_is_resolved_in_unit() {
    let o = obj("jmp end\npush 7\nend:\nhalt\n", Target::Stack);
    assert_eq!(o.0.symbols.len(), 1);
    assert_eq!(o.0.symbols[0].kind, SymbolKind::Defined { section: 0, offset: 6 });
    let e = exe(o);
    assert_eq!(e.0.image, vec![0x07, 6, 0, 0x01, 7, 0, 0x00]);
}

#[test]
fn object_round_trip() {
    let o = obj(".global start\nstart:\npush 3\ncall f\nf:\nret ; done\n", Target::Stack);
    let bytes = o.serialize();
    let back = WasmObjectFile::deserialize(&bytes).unwrap();
    assert_eq!(back.serialize(), bytes);
    assert_eq!(back.0.symbols.len(), 2);
    assert!(back.0.symbols[0].exported);
    assert_eq!(back.0.sections[0].data, o.0.sections[0].data);
}

#[test]
fn object_round_trip_ignores_trailing_bytes() {
    let o = obj("push 9\n", Target::Stack);
    let mut bytes = o.serialize();
    let n = bytes.len();
    bytes.extend_from_slice(&[1, 2, 3]);
    let back = WasmObjectFile::deserialize(&bytes).unwrap();
    assert_eq!(back.serialize(), bytes[..n].to_vec());
}

#[test]
fn executable_round_trip() {
    let e = exe(obj("push 1\npush 2\nadd\n", Target::Stack));
    let bytes = e.serialize();
    assert_eq!(&bytes[0..5], &[0x4d, 0x45, 0x58, 0x45, 1]);
    let back = WasmExecutable::deserialize(&bytes).unwrap();
    assert_eq!(back.0.load_address, 0);
    assert_eq!(back.0.image, e.0.image);
}

#[test]
fn object_bytes_are_exact() {
    let o = obj("halt\n", Target::Stack);
    let expected: Vec<u8> = vec![
        0x4d, 0x4f, 0x42, 0x4a, 1, // magic
        1, 0, 0, 0, // one section
        5, 0, 0, 0, b'.', b't', b'e', b'x', b't', // name
        0, // code
        1, 0, 0, 0, 0x00, // data
        0, 0, 0, 0, // no relocations
        0, 0, 0, 0, // no symbols
    ];
    assert_eq!(o.serialize(), expected);
}

#[test]
fn deserialize_rejects_malformed() {
    assert_eq!(WasmObjectFile::deserialize(&[]).err(), Some(ObjectError::MalformedObject));
    assert_eq!(
        WasmObjectFile::deserialize(&[0x4d, 0x4f, 0x42, 0x4a, 2, 0, 0, 0, 0, 0, 0, 0, 0]).err(),
        Some(ObjectError::MalformedObject)
    );
    let bytes = obj("push 1\n", Target::Stack).serialize();
    for cut in 0..bytes.len() {
        assert_eq!(
            WasmObjectFile::deserialize(&bytes[..cut]).err(),
            Some(ObjectError::MalformedObject)
        );
    }
    assert_eq!(WasmExecutable::deserialize(&[0x4d]).err(), Some(ObjectError::MalformedObject));
}

#[test]
fn deserialize_rejects_dangling_relocation() {
    // A relocation naming symbol 0 of an empty symbol table.
    let bytes: Vec<u8> = vec![
        0x4d, 0x4f, 0x42, 0x4a, 1, 1, 0, 0, 0, 0, 0, 0, 0, 0, 2, 0, 0, 0, 0, 0, 1, 0, 0, 0, 0, 0,
        0, 0, 0, 0, 0, 0, 0, 0, 0, 0, 0, 0,
    ];
    assert_eq!(WasmObjectFile::deserialize(&bytes).err(), Some(ObjectError::MalformedObject));
}

#[test]
fn merge_conflict_leaves_base_unchanged() {
    let mut a = obj(".global main\nmain:\nret\n", Target::Risc);
    let b = obj(".global main\nmain:\nhalt\n", Target::Risc);
    let before = a.serialize();
    assert_eq!(a.merge(b), Err(ObjectError::DuplicateSymbol));
    assert_eq!(a.serialize(), before);
}

#[test]
fn merge_keeps_base_symbols() {
    let mut a = obj("x:\npush 1\ny:\nret\n", Target::Stack);
    let b = obj(".global z\nz:\nhalt\n", Target::Stack);
    assert_eq!(a.merge(b), Ok(()));
    assert_eq!(a.0.sections.len(), 2);
    assert_eq!(a.0.symbols[0].kind, SymbolKind::Defined { section: 0, offset: 0 });
    assert_eq!(a.0.symbols[1].kind, SymbolKind::Defined { section: 0, offset: 3 });
    assert_eq!(a.0.symbols[2].kind, SymbolKind::Defined { section: 1, offset: 0 });
    assert!(a.0.symbols[2].exported);
}

#[test]
fn merge_renumbers_relocations() {
    let mut a = obj("f:\nret\n", Target::Stack);
    let b = obj("g:\njmp g\n", Target::Stack);
    assert_eq!(a.merge(b), Ok(()));
    assert_eq!(
        a.0.sections[1].relocations,
        vec![Relocation { offset: 1, symbol: 1, kind: RelocKind::Absolute16 }]
    );
    let e = exe(a);
    assert_eq!(e.0.image, vec![0x0a, 0x07, 1, 0]);
}

#[test]
fn link_undefined_symbol() {
    let o = obj("call nowhere\n", Target::Stack);
    assert_eq!(
        WasmExecutable::from_object_file(o).err(),
        Some(ObjectError::UndefinedSymbol)
    );
}

#[test]
fn merge_renames_base_local_used_by_other_unit() {
    let mut a = obj("helper:\nret\n", Target::Stack);
    let b = obj("call helper\n", Target::Stack);
    assert_eq!(a.merge(b), Ok(()));
    assert_eq!(a.0.symbols.len(), 2);
    // The base's local gives way under a fresh name, with the other file's
    // symbol count (1) plus its index (0) at the end.
    assert_eq!(a.0.symbols[0].name, b"helper#\x01\0\0\0".to_vec());
    assert_eq!(a.0.symbols[0].kind, SymbolKind::Defined { section: 0, offset: 0 });
    assert_eq!(a.0.symbols[1].name, b"helper".to_vec());
    assert_eq!(a.0.symbols[1].kind, SymbolKind::Undefined);
    // Locals are private: the reference stays unresolved.
    assert_eq!(
        WasmExecutable::from_object_file(a).err(),
        Some(ObjectError::UndefinedSymbol)
    );
}

#[test]
fn merge_base_local_and_other_export_share_a_name() {
    let mut a = obj("a:\nret\n", Target::Stack);
    let b = obj(".global a\na:\nhalt\n", Target::Stack);
    assert_eq!(a.merge(b), Ok(()));
    assert_eq!(a.0.symbols[0].kind, SymbolKind::Defined { section: 0, offset: 0 });
    assert_ne!(a.0.symbols[0].name, b"a".to_vec());
    assert_eq!(a.0.symbols[1].name, b"a".to_vec());
    assert!(a.0.symbols[1].exported);
    assert_eq!(a.0.symbols[1].kind, SymbolKind::Defined { section: 1, offset: 0 });
}

#[test]
fn merge_renames_clashing_locals() {
    let mut a = obj("loop:\njmp loop\n", Target::Stack);
    let b = obj("halt\nloop:\njmp loop\n", Target::Stack);
    assert_eq!(a.merge(b), Ok(()));
    assert_eq!(a.0.symbols.len(), 2);
    assert_eq!(a.0.symbols[0].name, b"loop".to_vec());
    // "loop" padded to one past the longest name, then index 0.
    assert_eq!(a.0.symbols[1].name, b"loop#\0\0\0\0".to_vec());
    assert_eq!(a.0.symbols[1].kind, SymbolKind::Defined { section: 1, offset: 1 });
    assert_eq!(
        a.0.sections[1].relocations,
        vec![Relocation { offset: 2, symbol: 1, kind: RelocKind::Absolute16 }]
    );
    let e = exe(a);
    assert_eq!(e.0.image, vec![0x07, 0, 0, 0x00, 0x07, 4, 0]);
}

#[test]
fn merge_folds_placeholder_into_definition() {
    let mut b = obj("call main\nhalt\n", Target::Risc);
    let a = obj(".global main\nmain:\n  li r1, 5\n  ret\n", Target::Risc);
    assert_eq!(b.merge(a), Ok(()));
    assert_eq!(b.0.symbols.len(), 1);
    assert_eq!(b.0.symbols[0].name, b"main".to_vec());
    assert!(b.0.symbols[0].exported);
    assert_eq!(b.0.symbols[0].kind, SymbolKind::Defined { section: 1, offset: 0 });
    assert_eq!(b.0.sections[0].relocations[0].symbol, 0);
}

#[test]
fn merge_folds_reference_into_base_definition() {
    let mut a = obj(".global main\nmain:\nret\n", Target::Risc);
    let b = obj("call main\n", Target::Risc);
    assert_eq!(a.merge(b), Ok(()));
    assert_eq!(a.0.symbols.len(), 1);
    assert_eq!(a.0.sections[1].relocations[0].symbol, 0);
}

#[test]
fn link_relative_overflow() {
    let mut src = String::from("call far\n");
    for _ in 0..8200 {
        src.push_str("halt\n");
    }
    src.push_str("far:\nret\n");
    let o = obj(&src, Target::Risc);
    assert_eq!(
        WasmExecutable::from_object_file(o).err(),
        Some(ObjectError::RelocationOverflow)
    );
}

#[test]
fn link_layout_overflow() {
    let data = |n: usize| Section {
        name: b".data".to_vec(),
        kind: SectionKind::Data,
        data: vec![0; n],
        relocations: vec![],
    };
    let o = ObjectFile { sections: vec![data(40000), data(30000)], symbols: vec![] };
    assert_eq!(link(&o).err(), Some(ObjectError::LayoutOverflow));
    let fits = ObjectFile { sections: vec![data(40000), data(25536)], symbols: vec![] };
    assert_eq!(link(&fits).unwrap().image.len(), 65536);
}

#[test]
fn link_reports_undefined_before_layout() {
    let o = ObjectFile {
        sections: vec![
            Section {
                name: b".text".to_vec(),
                kind: SectionKind::Code,
                data: vec![0x07, 0, 0],
                relocations: vec![Relocation { offset: 1, symbol: 0, kind: RelocKind::Absolute16 }],
            },
            Section {
                name: b".data".to_vec(),
                kind: SectionKind::Data,
                data: vec![0; 70000],
                relocations: vec![],
            },
        ],
        symbols: vec![Symbol { name: b"gone".to_vec(), exported: false, kind: SymbolKind::Undefined }],
    };
    assert_eq!(link(&o).err(), Some(ObjectError::UndefinedSymbol));
}

#[test]
fn deserialize_rejects_duplicate_names() {
    let o = ObjectFile {
        sections: vec![],
        symbols: vec![
            Symbol { name: b"a".to_vec(), exported: false, kind: SymbolKind::Undefined },
            Symbol { name: b"a".to_vec(), exported: true, kind: SymbolKind::Undefined },
        ],
    };
    assert!(!o.check_wf());
    let bytes: Vec<u8> = vec![
        0x4d, 0x4f, 0x42, 0x4a, 1, 0, 0, 0, 0, 2, 0, 0, 0, 1, 0, 0, 0, b'a', 0, 0, 1, 0, 0, 0,
        b'a', 1, 0,
    ];
    assert_eq!(WasmObjectFile::deserialize(&bytes).err(), Some(ObjectError::MalformedObject));
}

#[test]
fn link_absolute_overflow() {
    let o = ObjectFile {
        sections: vec![Section {
            name: b".text".to_vec(),
            kind: SectionKind::Code,
            data: vec![0x07, 0, 0],
            relocations: vec![Relocation { offset: 1, symbol: 0, kind: RelocKind::Absolute16 }],
        }],
        symbols: vec![Symbol {
            name: b"far".to_vec(),
            exported: false,
            kind: SymbolKind::Defined { section: 0, offset: 70000 },
        }],
    };
    assert_eq!(link(&o).err(), Some(ObjectError::RelocationOverflow));
}

#[test]
fn assembler_unknown_mnemonic() {
    assert_eq!(
        err("push 1\nfrob\n", Target::Stack),
        AsmError { kind: AsmErrorKind::UnknownMnemonic, line: 2 }
    );
    assert_eq!(
        err("push 1\n", Target::Risc),
        AsmError { kind: AsmErrorKind::UnknownMnemonic, line: 1 }
    );
}

#[test]
fn assembler_malformed_operand() {
    assert_eq!(err("push x\n", Target::Stack).kind, AsmErrorKind::MalformedOperand);
    assert_eq!(err("add 1\n", Target::Stack).kind, AsmErrorKind::MalformedOperand);
    assert_eq!(err("li r1\n", Target::Risc).kind, AsmErrorKind::MalformedOperand);
    assert_eq!(err("mov r1, x2\n", Target::Risc).kind, AsmErrorKind::MalformedOperand);
    assert_eq!(err("call 9lives\n", Target::Risc).kind, AsmErrorKind::MalformedOperand);
}

#[test]
fn assembler_out_of_range() {
    assert_eq!(
        err("\n\npush 65536\n", Target::Stack),
        AsmError { kind: AsmErrorKind::OperandOutOfRange, line: 3 }
    );
    assert_eq!(err("li r8, 1\n", Target::Risc).kind, AsmErrorKind::OperandOutOfRange);
    assert_eq!(err("li r1, 99999999999\n", Target::Risc).kind, AsmErrorKind::OperandOutOfRange);
    let o = obj("push 65535\n", Target::Stack);
    assert_eq!(o.0.sections[0].data, vec![0x01, 0xff, 0xff]);
}

#[test]
fn assembler_duplicate_label() {
    assert_eq!(
        err("a:\nhalt\na:\n", Target::Stack),
        AsmError { kind: AsmErrorKind::DuplicateLabel, line: 3 }
    );
}

#[test]
fn assembler_risc_encodings() {
    let o = obj("li r2, 258\nadd r1, r2, r3\nsub r4,r5,r6\nmov r7, r0\n", Target::Risc);
    assert_eq!(
        o.0.sections[0].data,
        vec![0x01, 2, 2, 1, 0x02, 1, 2, 3, 0x03, 4, 5, 6, 0x04, 7, 0, 0]
    );
}

#[test]
fn assembler_empty_source() {
    let o = obj("", Target::Stack);
    assert_eq!(o.0.sections.len(), 1);
    assert!(o.0.sections[0].data.is_empty());
    let e = exe(o);
    assert!(e.0.image.is_empty());
}

#[test]
fn assembler_comments_and_blank_lines() {
    let o = obj("; header\n\n  push 4 ; four\n\t pop\n", Target::Stack);
    assert_eq!(o.0.sections[0].data, vec![0x01, 4, 0, 0x02]);
}

#[test]
fn assembler_non_ascii_comment() {
    let o = obj("halt ; état\n", Target::Stack);
    assert_eq!(o.0.sections[0].data, vec![0x00]);
}

#[test]
fn assemble_chars_matches_assemble() {
    let text: Vec<char> = "push 5\n".chars().collect();
    let o = assemble_chars(&text, Target::Stack).unwrap();
    assert_eq!(o.sections[0].data, vec![0x01, 5, 0]);
}

#[test]
fn literal_directives() {
    let o = obj("halt\ntable:\n.byte 7\n.word 258\n", Target::Stack);
    assert_eq!(o.0.sections[0].data, vec![0x00, 7, 2, 1]);
    assert_eq!(o.0.symbols[0].kind, SymbolKind::Defined { section: 0, offset: 1 });
    assert_eq!(err(".byte 256\n", Target::Risc).kind, AsmErrorKind::OperandOutOfRange);
    assert_eq!(err(".word x\n", Target::Risc).kind, AsmErrorKind::MalformedOperand);
}
