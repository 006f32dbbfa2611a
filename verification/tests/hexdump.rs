use wamex_object::emit::memory_layout::hexdump::{render_part, DataPart, Ref};
use wamex_object::emit::memory_layout::{
    DataSegmentInfo, DataSpec, DataSymbol, MemoryPlace, SegmentLayout,
};
use wamex_object::index::TempIndex;
use wamex_object::layouts::data::{DataSymbolRef, ItemType};
use wamex_object::layouts::{SegmentId, SegmentPlacement};
use wamex_object::typed::body::EntityBody;
use wamex_object::typed::entities::DefinedEntity;

#[test]
fn show_example() {
    let part = DataPart {
        bytes: vec![
            0x01, 0x00, 0x00, 0x00, 0x20, 0x00, 0x00, 0x00, 0x10, 0x00, 0x00, 0x00, 0xDE, 0xAD,
            0xBE, 0xEF, 0x48, 0x65, 0x6C, 0x6C, 0x6F, 0x00, 0x00, 0x00, 0x34, 0x12, 0x00, 0x00,
            0x00, 0x00, 0x00, 0x00, 0xAA, 0xBB, 0xCC, 0xDD, 0xEE, 0xFF, 0x11, 0x22, 0x33, 0x44,
            0x55, 0x66, 0x77, 0x88, 0x99, 0x00, 0x00, 0x00, 0x00, 0x00, 0xAA, 0xBB, 0xCC, 0xDD,
            0xEE, 0xFF, 0x11, 0x22, 0x33, 0x44, 0x55, 0x66, 0x77, 0x88, 0x99, 0x00,
        ],
        refs: vec![
            Ref {
                range: 0..6,
                name: ".Lanon.faeb22a22ed4190fdf8d8c764500d80d.47".into(),
            },
            Ref {
                range: 8..21,
                name: "very_very_long_human_readable_field_name".into(),
            },
            Ref {
                range: 24..27,
                name: ".Lanon.a91b73428f0e239f7d2e4cbd3eaa0011.02".into(),
            },
            Ref {
                range: 46..47,
                name: "tiny".into(),
            },
        ],
    };

    let mut res = String::new();
    render_part(&mut res, 0, part, false);
    println!("{res}");
    let expected = [
        "00000000  01 00 00 00 20 00 00 00  10 00 00 00 DE AD BE EF  |\u{b7}\u{b7}\u{b7}\u{b7} \u{b7}\u{b7}\u{b7}\u{b7}\u{b7}\u{b7}\u{b7}\u{b7}\u{b7}\u{b7}\u{b7}|",
        "          \u{2514}[1]\u{2500}\u{2500}\u{2500}\u{2500}\u{2500}\u{2500}\u{2500}\u{2500}\u{2500}\u{2500}\u{2500}\u{2500}\u{2500}\u{2518}       \u{2514}[2]\u{2500}\u{2500}\u{2500}\u{2500}\u{2500}\u{2500}\u{2500}\u{2500}\u{2500}\u{2500}\u{2500}\u{2500}\u{2500}\u{2500}\u{2500}\u{2500}\u{2500}\u{2500}\u{2500}\u{2518} ",
        "00000010  48 65 6C 6C 6F 00 00 00  34 12 00 00 00 00 00 00  |Hello\u{b7}\u{b7}\u{b7}4\u{b7}\u{b7}\u{b7}\u{b7}\u{b7}\u{b7}\u{b7}|",
        "          \u{2514}\u{2500}\u{2500}\u{2500}\u{2500}\u{2500}\u{2500}\u{2500}\u{2500}\u{2500}\u{2500}\u{2500}\u{2500}\u{2500}\u{2518}          \u{2514}[3]\u{2500}\u{2500}\u{2500}\u{2500}\u{2518}                ",
    ];
    for (line, expected) in res.lines().zip(expected) {
        assert_eq!(line, expected);
    }
    assert!(res.contains("  REFS (this part)\n"));
    assert!(res.contains("  [2] very_very_long_human_readable_field_name   range=0x0008..0x0015 (13)\n"));
    assert!(res.ends_with("  [4] tiny   range=0x002E..0x002F (1)\n\n"));
}

#[test]
fn colors_follow_references() {
    let part = DataPart {
        bytes: vec![0x41, 0x42],
        refs: vec![Ref { range: 1..2, name: "b".into() }],
    };
    let mut res = String::new();
    render_part(&mut res, 0x10, part, true);
    let cells = "41 \u{1b}[97;41m42\u{1b}[0m ".to_string() + &"   ".repeat(6) + " " + &"   ".repeat(8);
    let expected = "00000010  ".to_string()
        + &cells
        + " |A\u{1b}[97;41mB\u{1b}[0m|\n"
        + "  REFS (this part)\n"
        + "  [\u{1b}[97;41m1\u{1b}[0m ] b   range=0x0011..0x0012 (1)\n\n";
    assert_eq!(res, expected);
}

fn symbol(index: u32, segment: u32, bytes: Vec<u8>) -> DataSymbol {
    DataSymbol {
        index: DataSymbolRef::from_u32(index),
        name: "symbol".into(),
        chunk: DefinedEntity {
            entity_type: ItemType { segment_id: SegmentId::from_u32(segment), alignment: 0 },
            name: None,
            export_as: vec![],
            body: EntityBody::new_empty(bytes),
        },
    }
}

#[test]
fn segments_are_aligned_in_memory() {
    let segment = |name: &str, pow2align: u8| DataSegmentInfo {
        name: name.into(),
        pow2align,
        location: MemoryPlace::ContinuesMemory,
    };
    let spec = DataSpec {
        mem_start: SegmentPlacement::ConstantOffset(5),
        segments: vec![segment("small", 0), segment("large", 7)],
        symbols: vec![symbol(0, 0, vec![1, 2, 3]), symbol(1, 1, vec![4])],
    };
    let (segments, places) = SegmentLayout::build_for_module(&spec);
    let locations: Vec<_> =
        segments.as_slice().iter().map(|segment| segment.memory_location().unwrap()).collect();
    assert_eq!(
        locations,
        vec![SegmentPlacement::ConstantOffset(16), SegmentPlacement::ConstantOffset(144)]
    );
    assert_eq!(places.get(DataSymbolRef::from_u32(0)).unwrap().addr_of_symbol, 0);
    assert_eq!(places.get(DataSymbolRef::from_u32(1)).unwrap().addr_of_symbol, 128);
}
