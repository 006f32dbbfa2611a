use wamex_object::emit::modify::wasm_emitter::{EncodeError, Encoder, SectionList, SeekFrom};

#[test]
fn test_encoder() {
    let mut encoder = Encoder::new(Vec::new(), 5);

    assert_eq!(encoder.offset(), 5);
    assert_eq!(encoder.start()..encoder.end_offset(), 5..5);

    encoder.push_byte(0x01);
    assert_eq!(encoder.offset(), 6);
    assert_eq!(encoder.start()..encoder.end_offset(), 5..6);

    encoder.push_bytes(&[0x02, 0x03, 0x04, 0x05]);
    assert_eq!(encoder.offset(), 10);
    assert_eq!(encoder.start()..encoder.end_offset(), 5..10);

    encoder.seek(SeekFrom::Start(1)).unwrap();

    encoder.push_byte(0xFF);

    assert_eq!(encoder.offset(), 7); // 5 + 1 (seek) + 1 (push)
    assert_eq!(encoder.start()..encoder.end_offset(), 5..10);

    // go to end
    encoder.seek(SeekFrom::End(0)).unwrap();

    encoder.seek(SeekFrom::Current(-2)).unwrap();

    encoder.push_byte(0xEE);
    assert_eq!(encoder.offset(), 9);
    assert_eq!(encoder.start()..encoder.end_offset(), 5..10);

    encoder.seek(SeekFrom::End(-1)).unwrap();

    encoder.push_byte(0xDD);

    assert_eq!(encoder.offset(), 10);
    assert_eq!(encoder.start()..encoder.end_offset(), 5..10);

    // Check final buffer content
    assert_eq!(&encoder.into_inner()[..], &[0x01, 0xFF, 0x03, 0xEE, 0xDD]);
}

#[test]
fn test_section_list() {
    let encoder = Encoder::new(Vec::new(), 0);
    let mut section_list = SectionList::create_section(encoder, 0x12).unwrap();

    let offset = section_list.raw_len_prefixed(&[0x01, 0x02]);

    assert_eq!(offset, 10); // 5 bytes for count + 5 bytes of item len
    let offset = section_list.raw_len_prefixed(&[0x03]);
    assert_eq!(offset, 17); // 5 bytes for count + (5 + 2) bytes for previous item + 5 bytes of this item len
    section_list
        .item_from_encoder(|e: &mut Encoder| {
            e.push_bytes(&[0x04, 0x05, 0x06]);
            Ok::<(), EncodeError>(())
        })
        .unwrap();

    let encoder = section_list.finish();

    assert_eq!(
        &encoder.into_inner()[..],
        &[
            0x12, //section id
            0x95, 0x80, 0x80, 0x80, 0x00, // len
            0x83, 0x80, 0x80, 0x80, 0x00, // count
            0x82, 0x80, 0x80, 0x80, 0x00, // len of first item
            0x01, 0x02, // content of first item
            0x81, 0x80, 0x80, 0x80, 0x00, // len of second item
            0x03, // content of second item
            0x04, 0x05, 0x06 // content of raw third item
        ]
    );
}

#[test]
fn seeking_outside_of_the_written_range_fails() {
    let mut encoder = Encoder::new(Vec::new(), 5);
    encoder.push_bytes(&[1, 2, 3]);
    assert_eq!(encoder.seek(SeekFrom::Start(4)), Err(EncodeError::SeekOutOfRange));
    assert_eq!(encoder.seek(SeekFrom::End(-4)), Err(EncodeError::SeekOutOfRange));
    assert_eq!(encoder.seek(SeekFrom::Current(i64::MIN)), Err(EncodeError::SeekOverflow));
    assert_eq!(encoder.offset(), 8);
}

#[test]
fn what_a_failing_child_wrote_stays_in_the_range() {
    let mut encoder = Encoder::new(Vec::new(), 5);
    encoder.push_bytes(&[1, 2, 3]);
    let result = encoder.with_child_encoder(6, |e: &mut Encoder| {
        e.push_bytes(&[8, 9, 10]);
        Err::<(), EncodeError>(EncodeError::SeekOverflow)
    });
    assert_eq!(result, Err(EncodeError::SeekOverflow));
    assert_eq!(encoder.offset(), 8);
    assert_eq!(encoder.end_offset(), 8);
    assert_eq!(encoder.into_inner(), vec![1, 8, 9]);
}

#[test]
fn a_child_takes_the_encoder_along() {
    let mut encoder = Encoder::new(Vec::new(), 5);
    encoder.push_bytes(&[1, 2, 3]);
    let result = encoder.with_child_encoder(6, |e: &mut Encoder| {
        e.push_bytes(&[8, 9, 10]);
        Ok::<u32, EncodeError>(e.offset())
    });
    assert_eq!(result, Ok(9));
    assert_eq!(encoder.offset(), 9);
    assert_eq!(encoder.into_inner(), vec![1, 8, 9, 10]);
    let mut encoder = Encoder::new(Vec::new(), 5);
    let result = encoder.with_child_encoder(6, |_: &mut Encoder| Ok::<(), EncodeError>(()));
    assert_eq!(result, Err(EncodeError::StartOutOfRange));
}
