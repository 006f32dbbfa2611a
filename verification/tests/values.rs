use wamex_object::emit::modify::code_abs_to_got::Instruction;
use wamex_object::emit::modify::constant_extraction::{ConstantExtractionEntry, SymbolOp};
use wamex_object::emit::modify::start_fn_gen::StartFnGen;
use wamex_object::emit::modify::FixupError;
use wamex_object::emit::object::OutputGlobalId;
use wamex_object::emit::plan::context::HexDebug;
use wamex_object::emit::relocation::encode::{
    encode_i32, encode_i64, encode_leb128_i32_5byte, encode_leb128_i64_10byte,
    encode_leb128_u32_5byte, encode_leb128_u64_10byte, encode_u32, encode_u64,
};
use wamex_object::emit::relocation::EntityLocation;
use wamex_object::helpers::demangle_full;
use wamex_object::index::TempIndex;
use wamex_object::layouts::{PlacementError, SegmentPlacement};
use wamex_object::linkage::reloc::{
    Encoding, LinkageRelocationEntry, Relative, RelocationEntry, RelocationWidth, SymbolType,
};
use wamex_object::tables::{debug_fmt_mostly_filled, fmt_table};
use wamex_object::typed::snapshot::{EntitiesSnapshot, FlatEntityRef, MultiSnapshot};
use wamex_object::typed::{EntityKind, FileId, FunctionRef, GlobalRef, SymbolId, TableRef};

#[test]
fn numbers_are_written_in_full_length() {
    let mut short = [0; 5];
    encode_leb128_u32_5byte(1, &mut short);
    assert_eq!(short, [0x81, 0x80, 0x80, 0x80, 0x00]);
    encode_leb128_u32_5byte(u32::MAX, &mut short);
    assert_eq!(short, [0xff, 0xff, 0xff, 0xff, 0x0f]);
    encode_leb128_i32_5byte(-1, &mut short);
    assert_eq!(short, [0xff, 0xff, 0xff, 0xff, 0x7f]);
    let mut long = [0; 10];
    encode_leb128_u64_10byte(300, &mut long);
    assert_eq!(long, [0xac, 0x82, 0x80, 0x80, 0x80, 0x80, 0x80, 0x80, 0x80, 0x00]);
    encode_leb128_i64_10byte(-2, &mut long);
    assert_eq!(long, [0xfe, 0xff, 0xff, 0xff, 0xff, 0xff, 0xff, 0xff, 0xff, 0x7f]);
}

#[test]
fn fixed_numbers_are_little_endian() {
    let mut short = [0; 4];
    encode_u32(0x0102_0304, &mut short);
    assert_eq!(short, [4, 3, 2, 1]);
    encode_i32(-2, &mut short);
    assert_eq!(short, [0xfe, 0xff, 0xff, 0xff]);
    let mut long = [0; 8];
    encode_u64(0x0102, &mut long);
    assert_eq!(long, [2, 1, 0, 0, 0, 0, 0, 0]);
    encode_i64(-1, &mut long);
    assert_eq!(long, [0xff; 8]);
}

#[test]
fn placements_are_decoded_to_themselves() {
    let constant: SegmentPlacement = SegmentPlacement::ConstantOffset(5);
    assert_eq!(constant.to_init_expr(), vec![0x41, 0x05, 0x0b]);
    let based = SegmentPlacement::GotBased { global: GlobalRef::from_u32(2), offset: 300 };
    assert_eq!(based.to_init_expr(), vec![0x23, 0x02, 0x41, 0xac, 0x02, 0x6a, 0x0b]);
    for placement in [constant, based] {
        assert_eq!(SegmentPlacement::try_from_const_expr(&placement.to_init_expr()), Ok(placement));
    }
}

#[test]
fn other_expressions_are_no_placements() {
    assert_eq!(
        SegmentPlacement::try_from_const_expr(&[0x41]),
        Err(PlacementError::Malformed)
    );
    // i64.const 1
    assert_eq!(
        SegmentPlacement::try_from_const_expr(&[0x42, 0x01, 0x0b]),
        Err(PlacementError::TooComplex)
    );
}

#[test]
fn names_are_demangled() {
    assert_eq!(demangle_full("_ZN3foo3barE"), "foo::bar");
    assert_eq!(demangle_full("plain"), "plain");
}

#[test]
fn bytes_are_shown_in_hex() {
    assert_eq!(HexDebug(vec![0x0a, 0xff, 0x00]).to_text(), "0aff00");
}

#[test]
fn a_start_function_may_do_nothing() {
    let start = StartFnGen { memory_index: 0, data_inits: vec![] };
    assert_eq!(start.generate_fn(), vec![0x00, 0x0b]);
}

fn extraction() -> ConstantExtractionEntry {
    let entry: LinkageRelocationEntry = RelocationEntry {
        addend: 0,
        offset: 1,
        symbol_id: SymbolId::from_u32(0),
        symbol_op: SymbolType::MemoryAddr,
        relation: Relative::Absolute,
        encoding: Encoding::Sleb,
        width: RelocationWidth::Bits32,
    };
    ConstantExtractionEntry { entry }
}

#[test]
fn constants_become_relative_to_a_base() {
    let mut bytes = vec![];
    let based = SymbolOp::GotBased { got: OutputGlobalId { id: 3 }, value: 300 };
    extraction()
        .replace_const_get_with_global_get(based, Instruction::I32Const, &mut bytes)
        .unwrap();
    assert_eq!(bytes, vec![0x23, 0x03, 0x41, 0xac, 0x02, 0x6a]);
}

#[test]
fn other_instructions_and_places_are_refused() {
    let mut bytes = vec![];
    let based = SymbolOp::GotBased { got: OutputGlobalId { id: 3 }, value: 1 };
    assert_eq!(
        extraction().replace_const_get_with_global_get(based, Instruction::Other, &mut bytes),
        Err(FixupError::UnsupportedInstruction)
    );
    let fixed = SymbolOp::StaticOffset { value: 1 };
    assert_eq!(
        extraction().replace_const_get_with_global_get(fixed, Instruction::I32Const, &mut bytes),
        Err(FixupError::NotBased)
    );
    let before = SymbolOp::GotBased { got: OutputGlobalId { id: 3 }, value: -1 };
    assert_eq!(
        extraction().replace_const_get_with_global_get(before, Instruction::I32Const, &mut bytes),
        Err(FixupError::OffsetOutOfRange)
    );
    assert!(bytes.is_empty());
}

#[test]
fn entities_of_all_files_are_numbered() {
    let first = EntitiesSnapshot {
        functions: 2,
        globals: 1,
        tables: 0,
        memories: 1,
        tags: 0,
        data_symbols: 3,
        types: 1,
    };
    let second = EntitiesSnapshot {
        functions: 1,
        globals: 0,
        tables: 2,
        memories: 0,
        tags: 0,
        data_symbols: 0,
        types: 0,
    };
    let all = MultiSnapshot::new(vec![first, second]);
    assert_eq!(all.total(), 11);
    for id in 0..11 {
        let flat = FlatEntityRef::from_u32(id);
        assert_eq!(all.pack_ref(all.unpack_ref(flat)), flat);
    }
    let table = EntityLocation {
        file_id: FileId::from_u32(1),
        entity: EntityKind::Table(TableRef::from_u32(1)),
    };
    assert_eq!(all.pack_ref(table), FlatEntityRef::from_u32(10));
    assert!(!all.contains(EntityLocation {
        file_id: FileId::from_u32(1),
        entity: EntityKind::Function(FunctionRef::from_u32(1)),
    }));
}

#[test]
fn tables_have_ten_cells_in_a_row() {
    let mut text = String::new();
    let items = (0..11).map(|i| i.to_string()).collect();
    fmt_table(&mut text, "numbers", &items);
    assert_eq!(
        text,
        "  numbers:\n    0  1  2  3  4  5  6  7  8  9 \n    10\n"
    );
    let mut empty = String::new();
    fmt_table(&mut empty, "none", &vec![]);
    assert_eq!(empty, "  none:\n    <empty>\n");
}

#[test]
fn stand_ins_start_lines_too() {
    let items = vec!["1".to_string(), "2".to_string(), "4".to_string()];
    let text = debug_fmt_mostly_filled(&items, &vec![false, false, true], 1, 2, "_");
    assert_eq!(text, "\n1 2 \n_ 4");
    let text = debug_fmt_mostly_filled(&items, &vec![false, true, true], 2, 3, "_");
    assert_eq!(text, "\n 1  _  2 \n _  4");
}
