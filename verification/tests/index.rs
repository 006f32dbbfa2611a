use wamex_object::index::{GappedMap, Temp, TempIndex};
use wamex_object::layouts::data::DataSymbolRef;
use wamex_object::typed::SymbolId;

#[test]
fn test_gapped_map() {
    let val = SymbolId::from_u32(0);
    let mut gapped_map = GappedMap::new();

    assert!(gapped_map.last_key().is_none());

    gapped_map.insert(val, val);
    assert_eq!(gapped_map.last_key().unwrap(), val);

    for key in 2..=5 {
        let key = SymbolId::from_u32(key);
        gapped_map.insert(key, val);
        assert_eq!(gapped_map.last_key().unwrap(), key);
    }
    for key in [3, 5] {
        let key = SymbolId::from_u32(key);
        gapped_map.remove(key);
    }

    assert_eq!(gapped_map.last_key().unwrap(), SymbolId::from_u32(4));

    let res: Vec<_> = gapped_map.iter().into_iter().map(|(k, v)| (k, *v)).collect();

    let expected = vec![
        (SymbolId::from_u32(0), val),
        (SymbolId::from_u32(2), val),
        (SymbolId::from_u32(4), val),
    ];

    assert_eq!(res, expected)
}

#[test]
fn test_temp_index() {
    let imports = 0..10;
    let defined = 0..5;
    let extern_ref = 0..3;

    for i in imports.clone() {
        let temp = Temp::<DataSymbolRef>::from_import(i);
        assert_eq!(temp.as_import().unwrap(), DataSymbolRef::new(i));
        assert!(temp.as_defined().is_none());
        assert_eq!(
            temp.to_stable(imports.len(), defined.len()),
            DataSymbolRef::new(i)
        );
    }

    for i in defined.clone() {
        let temp = Temp::<DataSymbolRef>::from_defined(i);
        let expected_ref = DataSymbolRef::new(imports.len() + i);
        assert_eq!(temp.as_defined().unwrap(), i as u32);
        assert!(temp.as_import().is_none());
        assert_eq!(temp.to_stable(imports.len(), defined.len()), expected_ref);
    }
    for i in extern_ref.clone() {
        let temp = Temp::<DataSymbolRef>::from_external(i);
        let expected_ref = DataSymbolRef::new(imports.len() + defined.len() + i);
        assert!(temp.as_import().is_none());
        assert!(temp.as_defined().is_none());
        assert_eq!(temp.to_stable(imports.len(), defined.len()), expected_ref);
    }
}

#[test]
fn entries_are_filled_once() {
    let mut map = GappedMap::new();
    let (a, b) = (SymbolId::from_u32(1), SymbolId::from_u32(2));
    assert_eq!(*map.entry(a).or_insert(b), b);
    assert_eq!(*map.entry(a).or_insert(a), b);
    assert_eq!(*map.entry(b).or_insert_with(|| a), a);
    *map.entry(b).or_insert(b) = b;
    assert_eq!(map.get(b), Some(&b));
    assert_eq!(map.len(), 2);
}
