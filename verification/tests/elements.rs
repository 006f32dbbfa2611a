use wamex_object::index::{Temp, TempIndex};
use wamex_object::layouts::elements::{
    ElementInTable, ElementKind, ElementLayoutBuilder, ElementSegmentSpec,
};
use wamex_object::layouts::{PartId, SegmentId, SegmentPlacement};
use wamex_object::typed::{FunctionRef, GlobalRef, TableRef};

#[test]
fn test_element_kind() {
    let active = ElementKind::<TableRef, GlobalRef>::Active {
        table_ref: TableRef::from_u32(1),
        location: SegmentPlacement::ConstantOffset(10),
    };
    assert!(active.is_active());
    assert_eq!(
        active.location(),
        Some(SegmentPlacement::ConstantOffset(10))
    );
    assert_eq!(active.table(), Some(TableRef::from_u32(1)));

    let passive = ElementKind::<TableRef, GlobalRef>::Passive;
    assert!(!passive.is_active());
    assert_eq!(passive.location(), None);
    assert_eq!(passive.table(), None);

    let declared = ElementKind::<TableRef, GlobalRef>::Declared;
    assert!(!declared.is_active());
    assert_eq!(declared.location(), None);
    assert_eq!(declared.table(), None);
}

#[test]
fn test_build() {
    let mut builder = ElementLayoutBuilder::new();
    let vs_id = builder.virtual_spaces.push(ElementKind::Active {
        table_ref: Temp::from_defined(0),
        location: SegmentPlacement::ConstantOffset(1),
    });
    builder.segments.push(ElementSegmentSpec {
        vs_id,
        name: "segment1".into(),
    });
    builder.items.push(ElementInTable {
        item: FunctionRef::from_u32(42),
        segment_id: SegmentId::from_u32(0),
    });

    let sealed = builder.seal(
        |temp: Temp<TableRef>| TableRef::from_u32(temp.as_defined().unwrap()),
        |temp: Temp<GlobalRef>| GlobalRef::from_u32(temp.as_defined().unwrap()),
    );

    assert_eq!(sealed.segments.len(), 1);
    let segment = sealed.segments.at(SegmentId::from_u32(0));
    assert_eq!(segment.name, "segment1");
    assert_eq!(
        segment.kind,
        ElementKind::Active {
            table_ref: TableRef::from_u32(0),
            location: SegmentPlacement::ConstantOffset(1),
        }
    );
    assert_eq!(segment.parts.len(), 1);
    assert_eq!(
        *segment.parts.at(PartId::from_u32(0)),
        FunctionRef::from_u32(42)
    );
}
