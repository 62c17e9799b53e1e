use class_file::ops::{
    CONSTANT_CLASS_TAG, CONSTANT_DOUBLE_TAG, CONSTANT_DYNAMIC_TAG, CONSTANT_FIELDREF_TAG,
    CONSTANT_FLOAT_TAG, CONSTANT_INTEGER_TAG, CONSTANT_INTERFACE_METHODREF_TAG,
    CONSTANT_INVOKE_DYNAMIC_TAG, CONSTANT_LONG_TAG, CONSTANT_METHODREF_TAG,
    CONSTANT_METHOD_HANDLE_TAG, CONSTANT_METHOD_TYPE_TAG, CONSTANT_MODULE_TAG,
    CONSTANT_NAME_AND_TYPE_TAG, CONSTANT_PACKAGE_TAG, CONSTANT_STRING_TAG, CONSTANT_UTF8_TAG,
};
use class_file::{
    read_constant_pool, write_constant_pool, CPEntry, CPIndex, ClassInfo, Codec, ConstantPool,
    ConstantValueInfo, DoubleInfo, DynamicInfo, FieldRefInfo, FloatInfo, IntegerInfo,
    InterfaceMethodRefInfo, InvokeDynamicInfo, LoadableConstant, LongInfo, MethodHandleInfo,
    MethodRefInfo, MethodTypeInfo, ModuleInfo, NameAndTypeInfo, PackageInfo, ReadError, StringInfo,
    UTF8Info, WriteError,
};

fn utf8(text: &str) -> CPEntry {
    CPEntry::UTF8(UTF8Info { data: text.as_bytes().to_vec() })
}

/// One entry of every kind, with the bytes of each.
fn all_entries() -> Vec<(CPEntry, Vec<u8>)> {
    vec![
        (CPEntry::Class(ClassInfo { name_index: CPIndex::new(0x0102) }), vec![7, 1, 2]),
        (
            CPEntry::FieldRef(FieldRefInfo {
                class_index: CPIndex::new(1),
                name_and_type_index: CPIndex::new(2),
            }),
            vec![9, 0, 1, 0, 2],
        ),
        (
            CPEntry::MethodRef(MethodRefInfo {
                class_index: CPIndex::new(3),
                name_and_type_index: CPIndex::new(4),
            }),
            vec![10, 0, 3, 0, 4],
        ),
        (
            CPEntry::InterfaceMethodRef(InterfaceMethodRefInfo {
                class_index: CPIndex::new(5),
                name_and_type_index: CPIndex::new(6),
            }),
            vec![11, 0, 5, 0, 6],
        ),
        (CPEntry::String(StringInfo { string_index: CPIndex::new(7) }), vec![8, 0, 7]),
        (CPEntry::Integer(IntegerInfo { value: 0x01020304 }), vec![3, 1, 2, 3, 4]),
        (CPEntry::Float(FloatInfo { value: 0x3F800000 }), vec![4, 0x3F, 0x80, 0, 0]),
        (
            CPEntry::Long(LongInfo { high_bytes: 0xFFFFFFFF, low_bytes: 1 }),
            vec![5, 0xFF, 0xFF, 0xFF, 0xFF, 0, 0, 0, 1],
        ),
        (
            CPEntry::Double(DoubleInfo { high_bytes: 0x40000000, low_bytes: 0 }),
            vec![6, 0x40, 0, 0, 0, 0, 0, 0, 0],
        ),
        (
            CPEntry::NameAndType(NameAndTypeInfo {
                name_index: CPIndex::new(8),
                descriptor_index: CPIndex::new(9),
            }),
            vec![12, 0, 8, 0, 9],
        ),
        (utf8("Hi"), vec![1, 0, 2, b'H', b'i']),
        (
            CPEntry::MethodHandle(MethodHandleInfo::MethodRef {
                reference_kind: 6,
                reference_index: CPIndex::new(3),
            }),
            vec![15, 6, 0, 3],
        ),
        (
            CPEntry::MethodType(MethodTypeInfo { descriptor_index: CPIndex::new(10) }),
            vec![16, 0, 10],
        ),
        (
            CPEntry::Dynamic(DynamicInfo {
                bootstrap_method_attr_index: 1,
                name_and_type_index: CPIndex::new(10),
            }),
            vec![17, 0, 1, 0, 10],
        ),
        (
            CPEntry::InvokeDynamic(InvokeDynamicInfo {
                bootstrap_method_attr_index: 2,
                name_and_type_index: CPIndex::new(10),
            }),
            vec![18, 0, 2, 0, 10],
        ),
        (CPEntry::Module(ModuleInfo { name_index: CPIndex::new(11) }), vec![19, 0, 11]),
        (CPEntry::Package(PackageInfo { name_index: CPIndex::new(11) }), vec![20, 0, 11]),
    ]
}

#[test]
fn every_entry_is_written_as_its_tag_and_fields() {
    for (entry, bytes) in all_entries() {
        let mut out = vec![];
        entry.to_bytes(&mut out).unwrap();
        assert_eq!(out, bytes, "{:?}", entry);
    }
}

#[test]
fn every_entry_is_read_back() {
    for (entry, bytes) in all_entries() {
        assert_eq!(CPEntry::from_bytes(&bytes, 0), Ok((entry, bytes.len())));
    }
}

#[test]
fn entry_is_read_at_a_position() {
    let bytes = [0xFF, 0xFF, 7, 0, 9, 0xFF];
    assert_eq!(
        CPEntry::from_bytes(&bytes, 2),
        Ok((CPEntry::Class(ClassInfo { name_index: CPIndex::new(9) }), 5))
    );
}

#[test]
fn reading_behind_the_input_is_an_unexpected_end() {
    let bytes = [7u8, 0, 9];
    assert_eq!(CPEntry::from_bytes(&bytes, 3), Err(ReadError::UnexpectedEof));
    assert_eq!(CPEntry::from_bytes(&bytes, 100), Err(ReadError::UnexpectedEof));
    assert_eq!(u16::from_bytes(&bytes, usize::MAX), Err(ReadError::UnexpectedEof));
    assert_eq!(u32::from_bytes(&bytes, usize::MAX), Err(ReadError::UnexpectedEof));
    assert_eq!(u8::from_bytes(&bytes, usize::MAX), Err(ReadError::UnexpectedEof));
}

#[test]
fn tags_of_the_entries() {
    let tags = [
        CONSTANT_CLASS_TAG,
        CONSTANT_FIELDREF_TAG,
        CONSTANT_METHODREF_TAG,
        CONSTANT_INTERFACE_METHODREF_TAG,
        CONSTANT_STRING_TAG,
        CONSTANT_INTEGER_TAG,
        CONSTANT_FLOAT_TAG,
        CONSTANT_LONG_TAG,
        CONSTANT_DOUBLE_TAG,
        CONSTANT_NAME_AND_TYPE_TAG,
        CONSTANT_UTF8_TAG,
        CONSTANT_METHOD_HANDLE_TAG,
        CONSTANT_METHOD_TYPE_TAG,
        CONSTANT_DYNAMIC_TAG,
        CONSTANT_INVOKE_DYNAMIC_TAG,
        CONSTANT_MODULE_TAG,
        CONSTANT_PACKAGE_TAG,
    ];
    let numbers = [7u8, 9, 10, 11, 8, 3, 4, 5, 6, 12, 1, 15, 16, 17, 18, 19, 20];
    assert_eq!(tags, numbers);
    for ((entry, bytes), tag) in all_entries().into_iter().zip(tags) {
        assert_eq!(entry.tag(), tag);
        assert_eq!(bytes[0], tag);
    }
}

#[test]
fn unknown_entry_tags() {
    for tag in [0u8, 2, 13, 14, 21, 255] {
        assert_eq!(
            CPEntry::from_bytes(&[tag, 0, 0, 0, 0, 0, 0, 0, 0], 0),
            Err(ReadError::UnknownTag(tag, "CPEntry"))
        );
    }
}

#[test]
fn method_handle_kinds() {
    for kind in 1u8..=4 {
        assert_eq!(
            MethodHandleInfo::from_bytes(&[kind, 0, 5], 0),
            Ok((
                MethodHandleInfo::FieldRef {
                    reference_kind: kind,
                    reference_index: CPIndex::new(5)
                },
                3
            ))
        );
    }
    for kind in 5u8..=8 {
        assert_eq!(
            MethodHandleInfo::from_bytes(&[kind, 0, 5], 0),
            Ok((
                MethodHandleInfo::MethodRef {
                    reference_kind: kind,
                    reference_index: CPIndex::new(5)
                },
                3
            ))
        );
    }
    assert_eq!(
        MethodHandleInfo::from_bytes(&[9, 0, 5], 0),
        Ok((
            MethodHandleInfo::InterfaceMethodRef {
                reference_kind: 9,
                reference_index: CPIndex::new(5)
            },
            3
        ))
    );
    for kind in [0u8, 10, 55, 255] {
        assert_eq!(
            MethodHandleInfo::from_bytes(&[kind, 0, 5], 0),
            Err(ReadError::UnknownTag(kind, "MethodHandleInfo"))
        );
    }
    assert_eq!(MethodHandleInfo::from_bytes(&[9, 0], 0), Err(ReadError::UnexpectedEof));
}

#[test]
fn pool_round_trip() {
    let entries: Vec<CPEntry> = all_entries().into_iter().map(|(entry, _)| entry).collect();
    let mut expected: Vec<u8> = vec![0, 18];
    for (_, bytes) in all_entries() {
        expected.extend_from_slice(&bytes);
    }
    let mut out = vec![];
    write_constant_pool(&entries, &mut out).unwrap();
    assert_eq!(out, expected);
    assert_eq!(read_constant_pool(&out, 0), Ok((entries, out.len())));
}

#[test]
fn empty_pool_has_count_one() {
    let pool = ConstantPool { entries: vec![] };
    let mut out = vec![];
    pool.to_bytes(&mut out).unwrap();
    assert_eq!(out, vec![0, 1]);
    assert_eq!(ConstantPool::from_bytes(&out, 0), Ok((pool, 2)));
}

#[test]
fn pool_with_count_zero_is_malformed() {
    assert_eq!(read_constant_pool(&[0, 0], 0), Err(ReadError::MalformedCount));
    assert_eq!(ConstantPool::from_bytes(&[0, 0, 7, 0, 1], 0), Err(ReadError::MalformedCount));
}

#[test]
fn largest_pool_has_65534_entries() {
    let entries: Vec<CPEntry> =
        (0..65534).map(|_| CPEntry::Integer(IntegerInfo { value: 0 })).collect();
    let mut out = vec![];
    write_constant_pool(&entries, &mut out).unwrap();
    assert_eq!(&out[..2], &[0xFF, 0xFF]);
    assert_eq!(out.len(), 2 + 5 * 65534);
    let (back, next) = read_constant_pool(&out, 0).unwrap();
    assert_eq!(next, out.len());
    assert_eq!(back.len(), 65534);
}

#[test]
fn pool_too_large() {
    let entries: Vec<CPEntry> =
        (0..65535).map(|_| CPEntry::Integer(IntegerInfo { value: 0 })).collect();
    let mut out = vec![1, 2, 3];
    assert_eq!(write_constant_pool(&entries, &mut out), Err(WriteError::TooLarge(65535)));
    assert_eq!(out, vec![1, 2, 3]);
}

#[test]
fn utf8_too_large() {
    let entry = CPEntry::UTF8(UTF8Info { data: vec![b'a'; 65536] });
    let mut out = vec![];
    assert_eq!(entry.to_bytes(&mut out), Err(WriteError::TooLarge(65536)));
    let entry = CPEntry::UTF8(UTF8Info { data: vec![b'a'; 65535] });
    let mut out = vec![];
    assert_eq!(entry.to_bytes(&mut out), Ok(()));
    assert_eq!(out.len(), 3 + 65535);
    assert_eq!(&out[..3], &[1, 0xFF, 0xFF]);
}

#[test]
fn empty_utf8_is_valid() {
    assert_eq!(CPEntry::from_bytes(&[1, 0, 0], 0), Ok((utf8(""), 3)));
}

#[test]
fn utf8_longer_than_the_input() {
    assert_eq!(CPEntry::from_bytes(&[1, 0, 3, b'a', b'b'], 0), Err(ReadError::UnexpectedEof));
}

fn sample_pool() -> ConstantPool {
    ConstantPool {
        entries: vec![
            CPEntry::Class(ClassInfo { name_index: CPIndex::new(2) }),
            utf8("Sample"),
            CPEntry::Integer(IntegerInfo { value: 42 }),
            CPEntry::Long(LongInfo { high_bytes: 0, low_bytes: 7 }),
            CPEntry::String(StringInfo { string_index: CPIndex::new(2) }),
            CPEntry::Class(ClassInfo { name_index: CPIndex::new(0) }),
        ],
    }
}

#[test]
fn index_is_one_based() {
    let pool = sample_pool();
    let class = pool.index(CPIndex::<ClassInfo>::new(1)).unwrap();
    assert_eq!(class.name_index.index, 2);
    let name = pool.index(class.name_index).unwrap();
    assert_eq!(name.data, b"Sample".to_vec());
    assert_eq!(pool.index(CPIndex::<IntegerInfo>::new(3)), Some(&IntegerInfo { value: 42 }));
}

#[test]
fn index_follows_entries_behind_a_long() {
    // entries are stored one behind the other: the entry behind a long has the next index
    let pool = sample_pool();
    assert_eq!(
        pool.index(CPIndex::<LongInfo>::new(4)),
        Some(&LongInfo { high_bytes: 0, low_bytes: 7 })
    );
    assert!(pool.index(CPIndex::<StringInfo>::new(5)).is_some());
}

#[test]
fn invalid_cp_index() {
    // the class at index 6 has the name index 0
    let pool = sample_pool();
    let class = pool.index(CPIndex::<ClassInfo>::new(6)).unwrap();
    assert_eq!(class.name_index.index, 0);
    assert_eq!(pool.index(class.name_index), None);
}

#[test]
fn index_out_of_range_is_none() {
    let pool = sample_pool();
    assert_eq!(pool.index(CPIndex::<ClassInfo>::new(0)), None);
    assert_eq!(pool.index(CPIndex::<ClassInfo>::new(7)), None);
    assert_eq!(pool.index(CPIndex::<ClassInfo>::new(65535)), None);
    let empty = ConstantPool { entries: vec![] };
    assert_eq!(empty.index(CPIndex::<ClassInfo>::new(1)), None);
}

#[test]
fn index_of_the_wrong_kind_is_none() {
    let pool = sample_pool();
    assert_eq!(pool.index(CPIndex::<UTF8Info>::new(1)), None);
    assert_eq!(pool.index(CPIndex::<ClassInfo>::new(2)), None);
    assert_eq!(pool.index(CPIndex::<FloatInfo>::new(3)), None);
}

#[test]
fn constant_value_admits_five_kinds() {
    let pool = sample_pool();
    assert_eq!(
        pool.index(CPIndex::<ConstantValueInfo>::new(3)),
        Some(ConstantValueInfo::Integer(&IntegerInfo { value: 42 }))
    );
    assert_eq!(
        pool.index(CPIndex::<ConstantValueInfo>::new(4)),
        Some(ConstantValueInfo::Long(&LongInfo { high_bytes: 0, low_bytes: 7 }))
    );
    assert_eq!(
        pool.index(CPIndex::<ConstantValueInfo>::new(5)),
        Some(ConstantValueInfo::String(&StringInfo { string_index: CPIndex::new(2) }))
    );
    assert_eq!(pool.index(CPIndex::<ConstantValueInfo>::new(1)), None);
    assert_eq!(pool.index(CPIndex::<ConstantValueInfo>::new(2)), None);
    let admitted: Vec<u8> = all_entries()
        .into_iter()
        .filter(|(entry, _)| {
            let pool = ConstantPool { entries: vec![entry.clone()] };
            pool.index(CPIndex::<ConstantValueInfo>::new(1)).is_some()
        })
        .map(|(entry, _)| entry.tag())
        .collect();
    assert_eq!(admitted, vec![8, 3, 4, 5, 6]);
}

#[test]
fn loadable_constant_admits_nine_kinds() {
    let pool = sample_pool();
    assert_eq!(
        pool.index(CPIndex::<LoadableConstant>::new(1)),
        Some(LoadableConstant::Class(&ClassInfo { name_index: CPIndex::new(2) }))
    );
    assert_eq!(pool.index(CPIndex::<LoadableConstant>::new(2)), None);
    let mut admitted: Vec<u8> = all_entries()
        .into_iter()
        .filter(|(entry, _)| {
            let pool = ConstantPool { entries: vec![entry.clone()] };
            pool.index(CPIndex::<LoadableConstant>::new(1)).is_some()
        })
        .map(|(entry, _)| entry.tag())
        .collect();
    admitted.sort();
    assert_eq!(admitted, vec![3, 4, 5, 6, 7, 8, 15, 16, 17]);
}

#[test]
fn each_kind_admits_its_own_tag_only() {
    let entries: Vec<CPEntry> = all_entries().into_iter().map(|(entry, _)| entry).collect();
    let pool = ConstantPool { entries };
    for i in 1..=17u16 {
        assert_eq!(pool.index(CPIndex::<ClassInfo>::new(i)).is_some(), i == 1);
        assert_eq!(pool.index(CPIndex::<FieldRefInfo>::new(i)).is_some(), i == 2);
        assert_eq!(pool.index(CPIndex::<MethodRefInfo>::new(i)).is_some(), i == 3);
        assert_eq!(pool.index(CPIndex::<InterfaceMethodRefInfo>::new(i)).is_some(), i == 4);
        assert_eq!(pool.index(CPIndex::<StringInfo>::new(i)).is_some(), i == 5);
        assert_eq!(pool.index(CPIndex::<IntegerInfo>::new(i)).is_some(), i == 6);
        assert_eq!(pool.index(CPIndex::<FloatInfo>::new(i)).is_some(), i == 7);
        assert_eq!(pool.index(CPIndex::<LongInfo>::new(i)).is_some(), i == 8);
        assert_eq!(pool.index(CPIndex::<DoubleInfo>::new(i)).is_some(), i == 9);
        assert_eq!(pool.index(CPIndex::<NameAndTypeInfo>::new(i)).is_some(), i == 10);
        assert_eq!(pool.index(CPIndex::<UTF8Info>::new(i)).is_some(), i == 11);
        assert_eq!(pool.index(CPIndex::<MethodHandleInfo>::new(i)).is_some(), i == 12);
        assert_eq!(pool.index(CPIndex::<MethodTypeInfo>::new(i)).is_some(), i == 13);
        assert_eq!(pool.index(CPIndex::<DynamicInfo>::new(i)).is_some(), i == 14);
        assert_eq!(pool.index(CPIndex::<InvokeDynamicInfo>::new(i)).is_some(), i == 15);
        assert_eq!(pool.index(CPIndex::<ModuleInfo>::new(i)).is_some(), i == 16);
        assert_eq!(pool.index(CPIndex::<PackageInfo>::new(i)).is_some(), i == 17);
    }
}

#[test]
fn pool_iterates_in_storage_order() {
    let pool = sample_pool();
    let mut tags: Vec<u8> = vec![];
    for entry in &pool {
        tags.push(entry.tag());
    }
    assert_eq!(tags, vec![7, 1, 3, 5, 8, 7]);
    let owned: Vec<u8> = pool.into_iter().map(|entry| entry.tag()).collect();
    assert_eq!(owned, vec![7, 1, 3, 5, 8, 7]);
}

#[test]
fn read_non_zero_maps_zero_to_none() {
    assert_eq!(CPIndex::<ClassInfo>::read_non_zero(&[0, 0], 0), Ok((None, 2)));
    assert_eq!(CPIndex::<ClassInfo>::read_non_zero(&[0, 1], 0), Ok((Some(CPIndex::new(1)), 2)));
    assert_eq!(
        CPIndex::<ClassInfo>::read_non_zero(&[9, 1, 0], 1),
        Ok((Some(CPIndex::new(0x0100)), 3))
    );
    assert_eq!(CPIndex::<ClassInfo>::read_non_zero(&[0], 0), Err(ReadError::UnexpectedEof));
}

#[test]
fn write_non_zero_maps_none_to_zero() {
    let mut out = vec![];
    CPIndex::<ClassInfo>::write_non_zero(&None, &mut out).unwrap();
    CPIndex::<ClassInfo>::write_non_zero(&Some(CPIndex::new(0x1234)), &mut out).unwrap();
    assert_eq!(out, vec![0, 0, 0x12, 0x34]);
}

#[test]
fn optional_index_is_none_exactly_for_zero() {
    for value in [0u16, 1, 2, 255, 256, 65535] {
        let bytes = value.to_be_bytes();
        let (index, _) = CPIndex::<UTF8Info>::read_non_zero(&bytes, 0).unwrap();
        assert_eq!(index.is_none(), value == 0);
        let mut out = vec![];
        CPIndex::write_non_zero(&index, &mut out).unwrap();
        assert_eq!(out, bytes.to_vec());
    }
}

#[test]
fn utf8_converts_modified_utf8() {
    let plain = UTF8Info { data: b"java/lang/Object".to_vec() };
    assert_eq!(plain.to_utf8().as_deref(), Some("java/lang/Object"));
    // the two bytes C0 80 stand for the character NUL
    let nul = UTF8Info { data: vec![b'A', 0xC0, 0x80, b'B'] };
    assert_eq!(nul.to_utf8().as_deref(), Some("A\0B"));
    // a character beyond the basic plane is a pair of three-byte surrogates
    let pair = UTF8Info { data: vec![0xED, 0xA0, 0xBD, 0xED, 0xB8, 0x80, b'!'] };
    assert_eq!(pair.to_utf8().as_deref(), Some("\u{1F600}!"));
    // a two-byte character that is cut off
    let cut = UTF8Info { data: vec![b'A', 0xC3] };
    assert_eq!(cut.to_utf8(), None);
}
