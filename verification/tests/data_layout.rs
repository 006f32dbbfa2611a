use wamex_object::index::{Temp, TempIndex};
use wamex_object::layouts::data::builder::{
    DataKind, DataSegmentSpec, MemLayoutBuilder, SegmentFlags,
};
use wamex_object::layouts::data::ItemType;
use wamex_object::layouts::SegmentPlacement;
use wamex_object::typed::body::EntityBody;
use wamex_object::typed::entities::DefinedEntity;
use wamex_object::typed::MemoryRef;

// Create a data from scratch and try to seal it.
#[test]
fn create_and_seal() {
    let mem_id = Temp::from_import(0);

    let mut builder = MemLayoutBuilder::new();
    let vs_id = builder.virtual_spaces.push(DataKind::Active {
        memory_ref: mem_id,
        location: SegmentPlacement::ConstantOffset(3), // some unaligned offset
    });

    let segment_id = builder.segments.push(DataSegmentSpec {
        vs_id,
        name: "segment1".into(),
        align: 2,
        segment_flags: SegmentFlags::Writable,
    });

    let item1_id = builder.items.push_defined(DefinedEntity {
        entity_type: ItemType::data_chunk(segment_id, 1),
        name: Some("data1".into()),
        export_as: Vec::new(),
        body: EntityBody::new_empty(vec![3, 4, 5]),
    });

    let _item2_id = builder.items.push_defined(DefinedEntity {
        entity_type: ItemType::data_chunk(segment_id, 2),
        name: Some("data2".into()),
        export_as: Vec::new(),
        body: EntityBody::new_empty(vec![1, 2, 3, 4]),
    });

    let sealed = builder.seal_at(0, |temp: Temp<MemoryRef>| temp.to_stable(0, 0));

    let output = sealed.segments.at(segment_id).data_stream().to_bytes();
    assert_eq!(
        output,
        vec![
            3, 4, 5, // first item
            0, // padding
            1, 2, 3, 4 // data
        ]
    );
    let data_ref = item1_id.to_stable(0, 0);
    let item = sealed.defined.get(data_ref).unwrap();
    assert_eq!(item.segment_id, segment_id);
    assert_eq!(item.offsets.va_address, 4); // offset of first item in VA <- 3 byte offset of storage + padding of 1 byte
    assert_eq!(item.offsets.section_offset, 9); // offset of first item in file 9 byte header
    let segment_offset = sealed.segments.at(segment_id).va_address.location().unwrap().offset();

    assert_eq!(segment_offset, 4); // offset of segment in virtual memory ( 3 byte offset of storage + padding of 1 byte)
}

#[test]
fn multiple_segments_padding() {
    let mem_id = Temp::from_import(0);

    let mut builder = MemLayoutBuilder::new();
    let vs_id = builder.virtual_spaces.push(DataKind::Active {
        memory_ref: mem_id,
        location: SegmentPlacement::ConstantOffset(3), // some unaligned offset
    });

    let segment1_id = builder.segments.push(DataSegmentSpec {
        vs_id,
        name: "segment1".into(),
        align: 2,
        segment_flags: SegmentFlags::Writable,
    });

    let segment2_id = builder.segments.push(DataSegmentSpec {
        vs_id,
        name: "segment2".into(),
        align: 4,
        segment_flags: SegmentFlags::Writable,
    });

    let first_data = builder.items.push_defined(DefinedEntity {
        entity_type: ItemType::data_chunk(segment1_id, 1),
        name: Some("data1".into()),
        export_as: Vec::new(),
        body: EntityBody::new_empty(vec![3, 4, 5]),
    });

    let second_data = builder.items.push_defined(DefinedEntity {
        entity_type: ItemType::data_chunk(segment2_id, 2),
        name: Some("data2".into()),
        export_as: Vec::new(),
        body: EntityBody::new_empty(vec![1, 2, 3, 4]),
    });

    let sealed = builder.seal_at(0, |temp: Temp<MemoryRef>| temp.to_stable(0, 0));

    let segment1 = sealed.segments.at(segment1_id);
    let segment2 = sealed.segments.at(segment2_id);
    // check alignment of first segment
    assert_eq!(segment1.va_address.location().unwrap().offset() % (1 << segment1.pow2align), 0);
    // check alignment of second segment
    assert_eq!(segment2.va_address.location().unwrap().offset() % (1 << segment2.pow2align), 0);

    assert_eq!(segment1.file_offset, 0);
    assert_eq!(segment2.file_offset, 9 + 3); // header of first segment + data len
    let output = segment1.data_stream().to_bytes();
    assert_eq!(
        output,
        vec![
            3, 4, 5, // first item
        ]
    );
    let output = segment2.data_stream().to_bytes();
    assert_eq!(
        output,
        vec![
            1, 2, 3, 4 // data
        ]
    );

    let item = sealed.defined.get(first_data.to_stable(0, 0)).unwrap();
    assert_eq!(item.segment_id, segment1_id);
    assert_eq!(item.offsets.va_address, 4); // offset of first item in VA <- 3 byte offset of storage + padding of 1 byte
    assert_eq!(item.offsets.section_offset, 9); // offset of first item in file 9 byte header

    let item = sealed.defined.get(second_data.to_stable(0, 0)).unwrap();
    assert_eq!(item.segment_id, segment2_id);
    assert_eq!(item.offsets.va_address, 16); // offset of second item in (allign of segment 2)
    assert_eq!(item.offsets.section_offset, 21); // 1st segment header (9) + 1st segment data (3) + 2nd segment header (9)
}
