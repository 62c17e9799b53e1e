use class_file::attr::annotation::{copy_annotation, copy_value};
use class_file::ops::{FINAL, PUBLIC, STATIC, SUPER};
use class_file::{
    decode_named, name_matches, Annotation, AttributeInfo, Attributes, CPEntry, CPIndex,
    ClassFile, ClassInfo, Codec, ConstantPool, ConstantValue, ElementValue, ElementValuePair,
    FieldInfo, IntegerInfo, MethodInfo, NameAndTypeInfo, ReadError, RuntimeVisibleAnnotations,
    SourceFile, UTF8Info, WriteError,
};

fn utf8(text: &str) -> CPEntry {
    CPEntry::UTF8(UTF8Info { data: text.as_bytes().to_vec() })
}

fn attr(name_index: u16, info: &[u8]) -> AttributeInfo {
    AttributeInfo { attribute_name_index: CPIndex::new(name_index), info: info.to_vec() }
}

/// A class with an interface, a constant field, a method and two attributes.
fn sample() -> ClassFile {
    ClassFile {
        minor_version: 3,
        major_version: 61,
        constant_pool: ConstantPool {
            entries: vec![
                CPEntry::Class(ClassInfo { name_index: CPIndex::new(2) }),
                utf8("demo/Sample"),
                CPEntry::Class(ClassInfo { name_index: CPIndex::new(4) }),
                utf8("java/lang/Object"),
                CPEntry::Class(ClassInfo { name_index: CPIndex::new(6) }),
                utf8("java/lang/Runnable"),
                utf8("LIMIT"),
                utf8("I"),
                utf8("ConstantValue"),
                CPEntry::Integer(IntegerInfo { value: 1000 }),
                utf8("run"),
                utf8("()V"),
                CPEntry::NameAndType(NameAndTypeInfo {
                    name_index: CPIndex::new(11),
                    descriptor_index: CPIndex::new(12),
                }),
                utf8("SourceFile"),
                utf8("Sample.java"),
                utf8("Unheard"),
            ],
        },
        access_flags: PUBLIC | SUPER,
        this_class: CPIndex::new(1),
        super_class: CPIndex::new(3),
        interfaces: vec![CPIndex::new(5)],
        fields: vec![FieldInfo {
            access_flags: PUBLIC | STATIC | FINAL,
            name_index: CPIndex::new(7),
            descriptor_index: CPIndex::new(8),
            attributes: Attributes { attributes: vec![attr(9, &[0, 10])] },
        }],
        methods: vec![MethodInfo {
            access_flags: PUBLIC,
            name_index: CPIndex::new(11),
            descriptor_index: CPIndex::new(12),
            attributes: Attributes { attributes: vec![] },
        }],
        attributes: Attributes {
            attributes: vec![attr(16, &[1, 2, 3, 4, 5]), attr(14, &[0, 15])],
        },
    }
}

#[test]
fn decoding_an_encoding_gives_the_class() {
    let class = sample();
    let mut bytes = vec![];
    class.write(&mut bytes).unwrap();
    assert_eq!(ClassFile::open(&bytes), Ok(class.clone()));
    assert_eq!(ClassFile::from_bytes(&bytes, 0), Ok((class, bytes.len())));
}

#[test]
fn encoding_a_decoding_gives_the_bytes() {
    let mut bytes = vec![];
    sample().write(&mut bytes).unwrap();
    let class = ClassFile::open(&bytes).unwrap();
    let mut again = vec![];
    class.write(&mut again).unwrap();
    assert_eq!(again, bytes);
}

#[test]
fn the_encoding_is_laid_out_field_by_field() {
    let mut bytes = vec![];
    sample().write(&mut bytes).unwrap();
    assert_eq!(&bytes[..10], &[0xCA, 0xFE, 0xBA, 0xBE, 0, 3, 0, 61, 0, 17]);
    let tail = [
        0, 0x21, 0, 1, 0, 3, // flags, this, super
        0, 1, 0, 5, // interfaces
        0, 1, 0, 0x19, 0, 7, 0, 8, 0, 1, 0, 9, 0, 0, 0, 2, 0, 10, // the field
        0, 1, 0, 1, 0, 11, 0, 12, 0, 0, // the method
        0, 2, 0, 16, 0, 0, 0, 5, 1, 2, 3, 4, 5, 0, 14, 0, 0, 0, 2, 0, 15, // attributes
    ];
    assert_eq!(&bytes[bytes.len() - tail.len()..], &tail);
}

#[test]
fn every_index_of_a_well_formed_class_resolves() {
    let class = sample();
    let cp = &class.constant_pool;
    assert!(cp.index(class.this_class).is_some());
    assert!(cp.index(class.super_class).is_some());
    for interface in &class.interfaces {
        let info = cp.index(*interface).unwrap();
        assert!(cp.index(info.name_index).is_some());
    }
    for field in &class.fields {
        assert!(cp.index(field.name_index).is_some());
        assert!(cp.index(field.descriptor_index).is_some());
        for attribute in field.attributes.iter() {
            assert!(cp.index(attribute.attribute_name_index).is_some());
        }
        let value = field.attributes.get::<ConstantValue>(cp).unwrap();
        assert!(cp.index(value.constantvalue_index).is_some());
    }
    for method in &class.methods {
        assert!(cp.index(method.name_index).is_some());
        assert!(cp.index(method.descriptor_index).is_some());
    }
    let source = class.attributes.get::<SourceFile>(cp).unwrap();
    let name = cp.index(source.sourcefile_index).unwrap().to_utf8();
    assert_eq!(name.as_deref(), Some("Sample.java"));
}

#[test]
fn unknown_attributes_pass_through() {
    let mut bytes = vec![];
    sample().write(&mut bytes).unwrap();
    let class = ClassFile::open(&bytes).unwrap();
    let unheard = class.attributes.named(&class.constant_pool, "Unheard").unwrap();
    assert_eq!(unheard.info, vec![1, 2, 3, 4, 5]);
    let mut again = vec![];
    class.write(&mut again).unwrap();
    assert_eq!(again, bytes);
}

#[test]
fn a_class_that_cannot_be_written_leaves_the_output_alone() {
    let mut class = sample();
    class.methods[0].attributes =
        Attributes { attributes: (0..65536).map(|_| attr(9, &[])).collect() };
    let mut out = vec![7, 7, 7];
    assert_eq!(class.write(&mut out), Err(WriteError::TooLarge(65536)));
    assert_eq!(out, vec![7, 7, 7]);
    let mut partial = vec![7, 7, 7];
    assert_eq!(class.to_bytes(&mut partial), Err(WriteError::TooLarge(65536)));
    assert_eq!(&partial[..3], &[7, 7, 7]);
}

#[test]
fn too_many_interfaces() {
    let mut class = sample();
    class.interfaces = (0..65536).map(|_| CPIndex::new(5)).collect();
    let mut out = vec![];
    assert_eq!(class.write(&mut out), Err(WriteError::TooLarge(65536)));
    class.interfaces.pop();
    assert_eq!(class.write(&mut out), Ok(()));
}

#[test]
fn names_match_when_the_text_is_the_same() {
    assert!(name_matches(&Some("Code".to_string()), "Code"));
    assert!(name_matches(&Some(String::new()), ""));
    assert!(!name_matches(&Some("Code".to_string()), "code"));
    assert!(!name_matches(&Some("Code".to_string()), "Cod"));
    assert!(!name_matches(&Some("Cod".to_string()), "Code"));
    assert!(!name_matches(&None, "Code"));
    assert!(!name_matches(&None, ""));
}

#[test]
fn decode_named_takes_any_name() {
    let cp = ConstantPool { entries: vec![utf8("Mine")] };
    let attributes = Attributes { attributes: vec![attr(1, &[0, 9])] };
    assert_eq!(
        decode_named::<SourceFile>(&attributes, &cp, "Mine"),
        Some(SourceFile { sourcefile_index: CPIndex::new(9) })
    );
    assert_eq!(decode_named::<u16>(&attributes, &cp, "Mine"), Some(9));
    assert_eq!(decode_named::<u32>(&attributes, &cp, "Mine"), None);
    assert_eq!(decode_named::<u16>(&attributes, &cp, "Yours"), None);
}

fn nested() -> ElementValue {
    ElementValue::Array(vec![
        ElementValue::Integer(CPIndex::new(1)),
        ElementValue::Annotation(Annotation {
            type_index: CPIndex::new(3),
            element_value_pairs: vec![ElementValuePair {
                element_name_index: CPIndex::new(6),
                value: ElementValue::Array(vec![
                    ElementValue::Class(CPIndex::new(7)),
                    ElementValue::Enum {
                        type_name_index: CPIndex::new(8),
                        const_name_index: CPIndex::new(9),
                    },
                ]),
            }],
        }),
    ])
}

#[test]
fn copies_are_equal_to_what_was_copied() {
    let value = nested();
    assert_eq!(copy_value(&value), value);
    assert_eq!(value.clone(), value);
    let annotation = Annotation {
        type_index: CPIndex::new(1),
        element_value_pairs: vec![
            ElementValuePair { element_name_index: CPIndex::new(2), value: nested() },
            ElementValuePair {
                element_name_index: CPIndex::new(3),
                value: ElementValue::Boolean(CPIndex::new(4)),
            },
        ],
    };
    assert_eq!(copy_annotation(&annotation), annotation);
    assert_eq!(annotation.clone(), annotation);
    assert_eq!(annotation.element_value_pairs[0].clone(), annotation.element_value_pairs[0]);
    let table = RuntimeVisibleAnnotations { table: vec![annotation] };
    assert_eq!(table.clone(), table);
}

#[test]
fn an_index_keeps_its_number_when_copied() {
    let index = CPIndex::<ClassInfo>::new(77);
    let copy = index;
    assert_eq!(index.clone(), copy);
    assert_eq!(copy.index, 77);
}

#[test]
fn a_class_cut_short_anywhere_is_an_unexpected_end() {
    let mut bytes = vec![];
    sample().write(&mut bytes).unwrap();
    for len in 0..bytes.len() {
        assert_eq!(ClassFile::open(&bytes[..len]), Err(ReadError::UnexpectedEof));
    }
}
