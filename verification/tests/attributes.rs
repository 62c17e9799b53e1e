use class_file::{
    read_attr_info, read_code, write_attr_info, write_code, Annotation, AnnotationDefault,
    AttributeInfo, Attributes, BootstrapMethod, BootstrapMethods, CPEntry, CPIndex, ClassFile,
    ClassInfo, Code, Codec, ConstantPool, ConstantValue, Deprecated, ElementValue,
    ElementValuePair, EnclosingMethod, Exception, Exceptions, Exports, FieldInfo, InnerClass,
    InnerClasses, IntegerInfo, LineNumber, LineNumberTable, LocalVarTarget, LocalVariable,
    LocalVariableTable, LocalVariableType, LocalVariableTypeTable, MethodInfo, MethodParameter,
    MethodParameters, Module, ModuleMainClass, ModulePackages, NestHost, NestMembers, Opens,
    ParameterAnnotations, Provides, ReadError, Requires, RuntimeInvisibleAnnotations,
    RuntimeInvisibleParameterAnnotations, RuntimeInvisibleTypeAnnotations,
    RuntimeVisibleAnnotations, RuntimeVisibleParameterAnnotations, RuntimeVisibleTypeAnnotations,
    Signature, SourceDebugExtension, SourceFile, StackMapFrame, StackMapTable, Synthetic,
    TargetInfo, TypeAnnotation, TypePath, TypePathSegment, UTF8Info, VerificationTypeInfo,
    WriteError,
};

fn utf8(text: &str) -> CPEntry {
    CPEntry::UTF8(UTF8Info { data: text.as_bytes().to_vec() })
}

/// A pool whose entry `i + 1` is the string `names[i]`.
fn pool_of(names: &[&str]) -> ConstantPool {
    ConstantPool { entries: names.iter().map(|name| utf8(name)).collect() }
}

fn attr(name_index: u16, info: &[u8]) -> AttributeInfo {
    AttributeInfo { attribute_name_index: CPIndex::new(name_index), info: info.to_vec() }
}

/// Encodes the value, decodes the bytes, and expects the value and the bytes.
fn round_trip<T: Codec + PartialEq + std::fmt::Debug>(value: T, bytes: &[u8]) {
    let mut out = vec![0x55u8];
    value.to_bytes(&mut out).unwrap();
    assert_eq!(out[0], 0x55);
    assert_eq!(&out[1..], bytes);
    assert_eq!(T::from_bytes(bytes, 0), Ok((value, bytes.len())));
    for len in 0..bytes.len() {
        assert_eq!(T::from_bytes(&bytes[..len], 0).err(), Some(ReadError::UnexpectedEof));
    }
}

// ---------------------------------------------------------------- the wire layer

#[test]
fn attribute_info_round_trip() {
    round_trip(attr(3, &[0xDE, 0xAD, 0xBE, 0xEF]), &[0, 3, 0, 0, 0, 4, 0xDE, 0xAD, 0xBE, 0xEF]);
    round_trip(attr(1, &[]), &[0, 1, 0, 0, 0, 0]);
}

#[test]
fn attr_info_is_a_blob_with_a_32_bit_length() {
    assert_eq!(read_attr_info(&[0, 0, 0, 2, 9, 8, 7], 0), Ok((vec![9, 8], 6)));
    assert_eq!(read_attr_info(&[0, 0, 0, 0], 0), Ok((vec![], 4)));
    assert_eq!(read_attr_info(&[0, 0, 0, 3, 9, 8], 0), Err(ReadError::UnexpectedEof));
    assert_eq!(read_attr_info(&[0xFF, 0xFF, 0xFF, 0xFF, 1], 0), Err(ReadError::UnexpectedEof));
    assert_eq!(read_attr_info(&[0, 0, 0], 0), Err(ReadError::UnexpectedEof));
    let mut out = vec![];
    write_attr_info(&vec![1, 2, 3], &mut out).unwrap();
    assert_eq!(out, vec![0, 0, 0, 3, 1, 2, 3]);
}

#[test]
fn code_is_a_blob_with_a_32_bit_length() {
    assert_eq!(read_code(&[7, 0, 0, 0, 2, 0x2A, 0xB1], 1), Ok((vec![0x2A, 0xB1], 7)));
    assert_eq!(read_code(&[0, 0, 1, 0, 0x2A], 0), Err(ReadError::UnexpectedEof));
    let mut out = vec![0xEE];
    write_code(&vec![0xB1], &mut out).unwrap();
    assert_eq!(out, vec![0xEE, 0, 0, 0, 1, 0xB1]);
    let mut out = vec![];
    write_code(&vec![0u8; 300], &mut out).unwrap();
    assert_eq!(&out[..4], &[0, 0, 1, 0x2C]);
    assert_eq!(out.len(), 304);
}

#[test]
fn attributes_round_trip() {
    let attributes = Attributes { attributes: vec![attr(1, &[0, 2]), attr(3, &[1, 2, 3])] };
    round_trip(attributes, &[0, 2, 0, 1, 0, 0, 0, 2, 0, 2, 0, 3, 0, 0, 0, 3, 1, 2, 3]);
    round_trip(Attributes { attributes: vec![] }, &[0, 0]);
}

#[test]
fn too_many_attributes() {
    let attributes = Attributes { attributes: (0..65536).map(|_| attr(1, &[])).collect() };
    let mut out = vec![];
    assert_eq!(attributes.to_bytes(&mut out), Err(WriteError::TooLarge(65536)));
    assert!(out.is_empty());
}

#[test]
fn field_and_method_round_trip() {
    round_trip(
        FieldInfo {
            access_flags: 0x0019,
            name_index: CPIndex::new(5),
            descriptor_index: CPIndex::new(6),
            attributes: Attributes { attributes: vec![attr(7, &[0, 8])] },
        },
        &[0, 0x19, 0, 5, 0, 6, 0, 1, 0, 7, 0, 0, 0, 2, 0, 8],
    );
    round_trip(
        MethodInfo {
            access_flags: 0x0001,
            name_index: CPIndex::new(4),
            descriptor_index: CPIndex::new(5),
            attributes: Attributes { attributes: vec![] },
        },
        &[0, 1, 0, 4, 0, 5, 0, 0],
    );
}

// ---------------------------------------------------------------- looking up by name

#[test]
fn named_finds_the_first_attribute_with_the_name() {
    let cp = pool_of(&["SourceFile", "A.java", "Xyzzy", "SourceFile"]);
    let attributes =
        Attributes { attributes: vec![attr(3, &[9]), attr(4, &[0, 2]), attr(1, &[0, 3])] };
    assert_eq!(attributes.named(&cp, "SourceFile"), Some(&attr(4, &[0, 2])));
    assert_eq!(attributes.named(&cp, "Xyzzy"), Some(&attr(3, &[9])));
    assert_eq!(attributes.named(&cp, "Code"), None);
    assert_eq!(attributes.named(&cp, ""), None);
    assert_eq!(Attributes { attributes: vec![] }.named(&cp, "SourceFile"), None);
}

#[test]
fn named_passes_over_attributes_without_a_name() {
    let mut cp = pool_of(&["SourceFile"]);
    cp.entries.push(CPEntry::Integer(IntegerInfo { value: 1 }));
    cp.entries.push(CPEntry::UTF8(UTF8Info { data: vec![0xC3] }));
    // name index 0, beyond the pool, not a string, not modified UTF-8, and then the real one
    let attributes = Attributes {
        attributes: vec![attr(0, &[1]), attr(9, &[2]), attr(2, &[3]), attr(3, &[4]), attr(1, &[5])],
    };
    assert_eq!(attributes.named(&cp, "SourceFile"), Some(&attr(1, &[5])));
}

#[test]
fn named_compares_the_converted_name() {
    // the name in the pool holds an encoded NUL, the name that is asked for a real one
    let cp = ConstantPool {
        entries: vec![CPEntry::UTF8(UTF8Info { data: vec![b'a', 0xC0, 0x80] })],
    };
    let attributes = Attributes { attributes: vec![attr(1, &[7])] };
    assert_eq!(attributes.named(&cp, "a\0"), Some(&attr(1, &[7])));
    assert_eq!(attributes.named(&cp, "a"), None);
}

#[test]
fn attributes_iterate_in_order() {
    let attributes = Attributes { attributes: vec![attr(3, &[9]), attr(4, &[0, 2])] };
    let names: Vec<u16> = attributes.iter().map(|a| a.attribute_name_index.index).collect();
    assert_eq!(names, vec![3, 4]);
    let payloads: Vec<Vec<u8>> = attributes.into_iter().map(|a| a.info).collect();
    assert_eq!(payloads, vec![vec![9], vec![0, 2]]);
}

#[test]
fn opaque_attribute_preservation() {
    // the class of the first test with one attribute `Xyzzy` in place of none
    let mut data: Vec<u8> = vec![0xCA, 0xFE, 0xBA, 0xBE, 0, 0, 0, 55, 0, 4];
    data.extend_from_slice(&[7, 0, 2]);
    data.extend_from_slice(&[1, 0, 1, b'A']);
    data.extend_from_slice(&[1, 0, 5, b'X', b'y', b'z', b'z', b'y']);
    data.extend_from_slice(&[0, 0x21, 0, 1, 0, 0, 0, 0, 0, 0, 0, 0]);
    data.extend_from_slice(&[0, 1, 0, 3, 0, 0, 0, 4, 0xDE, 0xAD, 0xBE, 0xEF]);
    let class = ClassFile::open(&data).unwrap();
    assert_eq!(class.attributes.attributes, vec![attr(3, &[0xDE, 0xAD, 0xBE, 0xEF])]);
    let mut out = vec![];
    class.write(&mut out).unwrap();
    assert_eq!(out, data);
    assert_eq!(class.attributes.get::<SourceFile>(&class.constant_pool), None);
    assert_eq!(
        class.attributes.named(&class.constant_pool, "Xyzzy").map(|a| a.info.clone()),
        Some(vec![0xDE, 0xAD, 0xBE, 0xEF])
    );
}

// ---------------------------------------------------------------- typed attributes

#[test]
fn get_decodes_the_payload() {
    let cp = pool_of(&["SourceFile", "A.java", "Signature"]);
    let attributes = Attributes { attributes: vec![attr(3, &[0, 9]), attr(1, &[0, 2])] };
    assert_eq!(
        attributes.get::<SourceFile>(&cp),
        Some(SourceFile { sourcefile_index: CPIndex::new(2) })
    );
    assert_eq!(attributes.get::<Signature>(&cp), Some(Signature { class_index: CPIndex::new(9) }));
    assert_eq!(attributes.get::<NestHost>(&cp), None);
}

#[test]
fn get_is_none_for_a_malformed_payload() {
    let cp = pool_of(&["SourceFile", "StackMapTable", "Code"]);
    let attributes = Attributes {
        attributes: vec![attr(1, &[0]), attr(2, &[0, 1, 0x80]), attr(3, &[0, 1, 0, 1, 0, 0])],
    };
    assert_eq!(attributes.get::<SourceFile>(&cp), None);
    assert_eq!(attributes.get::<StackMapTable>(&cp), None);
    assert_eq!(attributes.get::<Code>(&cp), None);
}

#[test]
fn get_looks_at_the_first_attribute_with_the_name_only() {
    let cp = pool_of(&["SourceFile"]);
    let attributes = Attributes { attributes: vec![attr(1, &[0]), attr(1, &[0, 2])] };
    assert_eq!(attributes.get::<SourceFile>(&cp), None);
}

#[test]
fn get_ignores_bytes_behind_the_value() {
    let cp = pool_of(&["SourceFile"]);
    let attributes = Attributes { attributes: vec![attr(1, &[0, 2, 0xFF])] };
    assert_eq!(
        attributes.get::<SourceFile>(&cp),
        Some(SourceFile { sourcefile_index: CPIndex::new(2) })
    );
}

#[test]
fn singletons_say_nothing_but_that_they_are_there() {
    let cp = pool_of(&["Synthetic", "Deprecated"]);
    let attributes = Attributes { attributes: vec![attr(1, &[])] };
    assert_eq!(attributes.get::<Synthetic>(&cp), Some(Synthetic));
    assert_eq!(attributes.get::<Deprecated>(&cp), None);
    round_trip(Synthetic, &[]);
    round_trip(Deprecated, &[]);
}

#[test]
fn source_debug_extension_is_the_whole_payload() {
    let cp = pool_of(&["SourceDebugExtension"]);
    let attributes = Attributes { attributes: vec![attr(1, &[b'S', b'M', 0xC0, 0x80])] };
    let extension = attributes.get::<SourceDebugExtension>(&cp).unwrap();
    assert_eq!(extension.data, vec![b'S', b'M', 0xC0, 0x80]);
    assert_eq!(extension.to_utf8().as_deref(), Some("SM\0"));
    let empty = Attributes { attributes: vec![attr(1, &[])] };
    assert_eq!(
        empty.get::<SourceDebugExtension>(&cp),
        Some(SourceDebugExtension { data: vec![] })
    );
    assert_eq!(Attributes { attributes: vec![] }.get::<SourceDebugExtension>(&cp), None);
}

#[test]
fn code_of_a_default_constructor() {
    let payload = [
        0, 1, 0, 1, 0, 0, 0, 5, 0x2A, 0xB7, 0, 1, 0xB1, 0, 0, 0, 1, 0, 7, 0, 0, 0, 6, 0, 1, 0, 0,
        0, 1,
    ];
    let code = Code {
        max_stack: 1,
        max_locals: 1,
        code: vec![0x2A, 0xB7, 0, 1, 0xB1],
        exception_table: vec![],
        attributes: Attributes { attributes: vec![attr(7, &[0, 1, 0, 0, 0, 1])] },
    };
    round_trip(code.clone(), &payload);
    let cp = pool_of(&["a", "b", "c", "d", "e", "Code", "LineNumberTable"]);
    let attributes = Attributes { attributes: vec![attr(6, &payload)] };
    let found = attributes.get::<Code>(&cp).unwrap();
    assert_eq!(found, code);
    assert_eq!(
        found.attributes.get::<LineNumberTable>(&cp),
        Some(LineNumberTable { table: vec![LineNumber { start_pc: 0, line_number: 1 }] })
    );
}

#[test]
fn code_with_handlers() {
    round_trip(
        Code {
            max_stack: 2,
            max_locals: 3,
            code: vec![],
            exception_table: vec![
                Exception { start_pc: 1, end_pc: 2, handler_pc: 3, catch_type: CPIndex::new(4) },
                Exception { start_pc: 5, end_pc: 6, handler_pc: 7, catch_type: CPIndex::new(0) },
            ],
            attributes: Attributes { attributes: vec![] },
        },
        &[
            0, 2, 0, 3, 0, 0, 0, 0, 0, 2, 0, 1, 0, 2, 0, 3, 0, 4, 0, 5, 0, 6, 0, 7, 0, 0, 0, 0,
        ],
    );
}

#[test]
fn small_attributes_round_trip() {
    round_trip(ConstantValue { constantvalue_index: CPIndex::new(0x0A0B) }, &[0x0A, 0x0B]);
    round_trip(
        EnclosingMethod { class_index: CPIndex::new(1), method_index: CPIndex::new(2) },
        &[0, 1, 0, 2],
    );
    round_trip(Signature { class_index: CPIndex::new(3) }, &[0, 3]);
    round_trip(SourceFile { sourcefile_index: CPIndex::new(4) }, &[0, 4]);
    round_trip(NestHost { host_class_index: CPIndex::new(5) }, &[0, 5]);
    round_trip(ModuleMainClass { main_class_index: CPIndex::new(6) }, &[0, 6]);
    round_trip(
        Exceptions { table: vec![CPIndex::new(1), CPIndex::new(2)] },
        &[0, 2, 0, 1, 0, 2],
    );
    round_trip(NestMembers { classes: vec![CPIndex::new(7)] }, &[0, 1, 0, 7]);
    round_trip(ModulePackages { packages: vec![] }, &[0, 0]);
}

#[test]
fn tables_round_trip() {
    round_trip(
        LineNumberTable {
            table: vec![
                LineNumber { start_pc: 0, line_number: 3 },
                LineNumber { start_pc: 8, line_number: 4 },
            ],
        },
        &[0, 2, 0, 0, 0, 3, 0, 8, 0, 4],
    );
    round_trip(
        LocalVariableTable {
            table: vec![LocalVariable {
                start_pc: 1,
                length: 2,
                name_index: CPIndex::new(3),
                descriptor_index: CPIndex::new(4),
                index: 5,
            }],
        },
        &[0, 1, 0, 1, 0, 2, 0, 3, 0, 4, 0, 5],
    );
    round_trip(
        LocalVariableTypeTable {
            table: vec![LocalVariableType {
                start_pc: 1,
                length: 2,
                name_index: CPIndex::new(3),
                signature_index: CPIndex::new(4),
                index: 5,
            }],
        },
        &[0, 1, 0, 1, 0, 2, 0, 3, 0, 4, 0, 5],
    );
}

#[test]
fn inner_classes_hold_optional_indices() {
    round_trip(
        InnerClasses {
            table: vec![
                InnerClass {
                    inner_class_info_index: CPIndex::new(1),
                    outer_class_info_index: Some(CPIndex::new(2)),
                    inner_name_index: Some(CPIndex::new(3)),
                    inner_class_access_flags: 0x0008,
                },
                InnerClass {
                    inner_class_info_index: CPIndex::new(4),
                    outer_class_info_index: None,
                    inner_name_index: None,
                    inner_class_access_flags: 0,
                },
            ],
        },
        &[0, 2, 0, 1, 0, 2, 0, 3, 0, 8, 0, 4, 0, 0, 0, 0, 0, 0],
    );
}

#[test]
fn an_index_zero_that_is_present_is_written_as_none() {
    let parameter = MethodParameter { name_index: Some(CPIndex::new(0)), access_flags: 0x10 };
    let mut out = vec![];
    parameter.to_bytes(&mut out).unwrap();
    assert_eq!(out, vec![0, 0, 0, 0x10]);
    assert_eq!(
        MethodParameter::from_bytes(&out, 0),
        Ok((MethodParameter { name_index: None, access_flags: 0x10 }, 4))
    );
}

#[test]
fn method_parameters_are_counted_in_one_byte() {
    round_trip(
        MethodParameters {
            table: vec![
                MethodParameter { name_index: Some(CPIndex::new(9)), access_flags: 0x0010 },
                MethodParameter { name_index: None, access_flags: 0x8000 },
            ],
        },
        &[2, 0, 9, 0, 0x10, 0, 0, 0x80, 0],
    );
    let many = MethodParameters {
        table: (0..256).map(|_| MethodParameter { name_index: None, access_flags: 0 }).collect(),
    };
    let mut out = vec![];
    assert_eq!(many.to_bytes(&mut out), Err(WriteError::TooLarge(256)));
    assert!(out.is_empty());
}

#[test]
fn bootstrap_methods_round_trip() {
    round_trip(
        BootstrapMethods {
            table: vec![
                BootstrapMethod {
                    bootstrap_method_ref: CPIndex::new(1),
                    bootstrap_arguments: vec![CPIndex::new(2), CPIndex::new(3)],
                },
                BootstrapMethod {
                    bootstrap_method_ref: CPIndex::new(4),
                    bootstrap_arguments: vec![],
                },
            ],
        },
        &[0, 2, 0, 1, 0, 2, 0, 2, 0, 3, 0, 4, 0, 0],
    );
}

#[test]
fn module_round_trip() {
    round_trip(
        Module {
            module_name_index: CPIndex::new(1),
            module_flags: 0x0020,
            module_version_index: None,
            required: vec![Requires {
                requires_index: CPIndex::new(2),
                requires_flags: 0x8000,
                requires_version_index: Some(CPIndex::new(3)),
            }],
            exports: vec![Exports {
                exports_index: CPIndex::new(4),
                exports_flags: 0,
                exports_to: vec![CPIndex::new(5)],
            }],
            opens: vec![Opens { opens_index: CPIndex::new(6), opens_flags: 0, opens_to: vec![] }],
            uses: vec![CPIndex::new(7)],
            provides: vec![Provides {
                provides: CPIndex::new(8),
                provides_with: vec![CPIndex::new(9), CPIndex::new(10)],
            }],
        },
        &[
            0, 1, 0, 0x20, 0, 0, // name, flags, no version
            0, 1, 0, 2, 0x80, 0, 0, 3, // requires
            0, 1, 0, 4, 0, 0, 0, 1, 0, 5, // exports
            0, 1, 0, 6, 0, 0, 0, 0, // opens
            0, 1, 0, 7, // uses
            0, 1, 0, 8, 0, 2, 0, 9, 0, 10, // provides
        ],
    );
}

#[test]
fn first_count_that_does_not_fit_is_reported() {
    // the exports hold too many modules; the provides, which come later, too many classes
    let module = Module {
        module_name_index: CPIndex::new(1),
        module_flags: 0,
        module_version_index: None,
        required: vec![],
        exports: vec![Exports {
            exports_index: CPIndex::new(4),
            exports_flags: 0,
            exports_to: (0..70000).map(|_| CPIndex::new(5)).collect(),
        }],
        opens: vec![],
        uses: vec![],
        provides: vec![Provides {
            provides: CPIndex::new(8),
            provides_with: (0..80000).map(|_| CPIndex::new(9)).collect(),
        }],
    };
    let mut out = vec![0xAB];
    assert_eq!(module.to_bytes(&mut out), Err(WriteError::TooLarge(70000)));
    assert_eq!(out[0], 0xAB);
}

// ---------------------------------------------------------------- stack maps

fn object(index: u16) -> VerificationTypeInfo {
    VerificationTypeInfo::ObjectVariable(CPIndex::<ClassInfo>::new(index))
}

#[test]
fn verification_types_round_trip() {
    round_trip(VerificationTypeInfo::Top, &[0]);
    round_trip(VerificationTypeInfo::Integer, &[1]);
    round_trip(VerificationTypeInfo::Float, &[2]);
    round_trip(VerificationTypeInfo::Double, &[3]);
    round_trip(VerificationTypeInfo::Long, &[4]);
    round_trip(VerificationTypeInfo::Null, &[5]);
    round_trip(VerificationTypeInfo::UninitializedThis, &[6]);
    round_trip(object(0x0102), &[7, 1, 2]);
    round_trip(VerificationTypeInfo::Uninitialized(0x0304), &[8, 3, 4]);
    for tag in 9u8..=255 {
        assert_eq!(
            VerificationTypeInfo::from_bytes(&[tag, 0, 0], 0),
            Err(ReadError::UnknownTag(tag, "VerificationTypeInfo"))
        );
    }
}

#[test]
fn stack_map_table_dispatch() {
    assert_eq!(StackMapFrame::from_bytes(&[0x00], 0), Ok((StackMapFrame::SameFrame(0), 1)));
    assert_eq!(
        StackMapFrame::from_bytes(&[0xFB, 0x00, 0x05], 0),
        Ok((StackMapFrame::SameFrameExtended(5), 3))
    );
    assert_eq!(
        StackMapFrame::from_bytes(&[0xFD, 0x00, 0x02, 0x01, 0x07, 0x00, 0x09], 0),
        Ok((
            StackMapFrame::AppendFrame {
                offset_delta: 2,
                locals: vec![VerificationTypeInfo::Integer, object(9)]
            },
            7
        ))
    );
    assert_eq!(
        StackMapFrame::from_bytes(&[0x80], 0),
        Err(ReadError::UnknownTag(128, "StackMapFrame"))
    );
}

#[test]
fn frames_round_trip() {
    round_trip(StackMapFrame::SameFrame(0), &[0]);
    round_trip(StackMapFrame::SameFrame(63), &[63]);
    round_trip(
        StackMapFrame::SameLocals1Stack { offset_delta: 0, stack: VerificationTypeInfo::Long },
        &[64, 4],
    );
    round_trip(
        StackMapFrame::SameLocals1Stack { offset_delta: 63, stack: object(2) },
        &[127, 7, 0, 2],
    );
    round_trip(
        StackMapFrame::SameLocals1StackExtended {
            offset_delta: 300,
            stack: VerificationTypeInfo::Null,
        },
        &[247, 1, 44, 5],
    );
    round_trip(StackMapFrame::ChopFrame { offset_delta: 1, chopped: 3 }, &[248, 0, 1]);
    round_trip(StackMapFrame::ChopFrame { offset_delta: 1, chopped: 2 }, &[249, 0, 1]);
    round_trip(StackMapFrame::ChopFrame { offset_delta: 1, chopped: 1 }, &[250, 0, 1]);
    round_trip(StackMapFrame::SameFrameExtended(65535), &[251, 255, 255]);
    round_trip(
        StackMapFrame::AppendFrame { offset_delta: 7, locals: vec![VerificationTypeInfo::Top] },
        &[252, 0, 7, 0],
    );
    round_trip(
        StackMapFrame::AppendFrame {
            offset_delta: 7,
            locals: vec![
                VerificationTypeInfo::Top,
                VerificationTypeInfo::Uninitialized(1),
                VerificationTypeInfo::Float,
            ],
        },
        &[254, 0, 7, 0, 8, 0, 1, 2],
    );
    round_trip(
        StackMapFrame::FullFrame {
            offset_delta: 9,
            locals: vec![VerificationTypeInfo::Integer, object(3)],
            stack: vec![VerificationTypeInfo::Double],
        },
        &[255, 0, 9, 0, 2, 1, 7, 0, 3, 0, 1, 3],
    );
    round_trip(
        StackMapFrame::FullFrame { offset_delta: 0, locals: vec![], stack: vec![] },
        &[255, 0, 0, 0, 0, 0, 0],
    );
}

#[test]
fn every_frame_tag_selects_one_kind_or_none() {
    // behind the tag stand enough bytes for every kind: an offset and verification types `Top`
    for tag in 0u8..=255 {
        let bytes = [tag, 0, 0, 0, 0, 0, 0, 0];
        let frame = StackMapFrame::from_bytes(&bytes, 0);
        match tag {
            0..=63 => assert_eq!(frame, Ok((StackMapFrame::SameFrame(tag), 1))),
            64..=127 => assert_eq!(
                frame,
                Ok((
                    StackMapFrame::SameLocals1Stack {
                        offset_delta: tag - 64,
                        stack: VerificationTypeInfo::Top
                    },
                    2
                ))
            ),
            128..=246 => assert_eq!(frame, Err(ReadError::UnknownTag(tag, "StackMapFrame"))),
            247 => assert_eq!(
                frame,
                Ok((
                    StackMapFrame::SameLocals1StackExtended {
                        offset_delta: 0,
                        stack: VerificationTypeInfo::Top
                    },
                    4
                ))
            ),
            248..=250 => assert_eq!(
                frame,
                Ok((StackMapFrame::ChopFrame { offset_delta: 0, chopped: 251 - tag }, 3))
            ),
            251 => assert_eq!(frame, Ok((StackMapFrame::SameFrameExtended(0), 3))),
            252..=254 => assert_eq!(
                frame,
                Ok((
                    StackMapFrame::AppendFrame {
                        offset_delta: 0,
                        locals: vec![VerificationTypeInfo::Top; (tag - 251) as usize]
                    },
                    3 + (tag - 251) as usize
                ))
            ),
            255 => assert_eq!(
                frame,
                Ok((StackMapFrame::FullFrame { offset_delta: 0, locals: vec![], stack: vec![] }, 7))
            ),
        }
    }
}

#[test]
fn a_bad_verification_type_in_a_frame() {
    assert_eq!(
        StackMapFrame::from_bytes(&[64, 9], 0),
        Err(ReadError::UnknownTag(9, "VerificationTypeInfo"))
    );
    assert_eq!(
        StackMapFrame::from_bytes(&[253, 0, 0, 1, 200], 0),
        Err(ReadError::UnknownTag(200, "VerificationTypeInfo"))
    );
}

#[test]
fn frames_that_cannot_be_written() {
    let mut out = vec![];
    assert_eq!(StackMapFrame::SameFrame(64).to_bytes(&mut out), Err(WriteError::TooLarge(64)));
    assert_eq!(
        StackMapFrame::SameLocals1Stack { offset_delta: 200, stack: VerificationTypeInfo::Top }
            .to_bytes(&mut out),
        Err(WriteError::TooLarge(200))
    );
    assert_eq!(
        StackMapFrame::ChopFrame { offset_delta: 0, chopped: 4 }.to_bytes(&mut out),
        Err(WriteError::TooLarge(4))
    );
    assert_eq!(
        StackMapFrame::AppendFrame { offset_delta: 0, locals: vec![VerificationTypeInfo::Top; 4] }
            .to_bytes(&mut out),
        Err(WriteError::TooLarge(4))
    );
    assert_eq!(
        StackMapFrame::FullFrame {
            offset_delta: 0,
            locals: vec![],
            stack: vec![VerificationTypeInfo::Top; 65536]
        }
        .to_bytes(&mut out)
        .err(),
        Some(WriteError::TooLarge(65536))
    );
}

#[test]
fn stack_map_table_round_trip() {
    round_trip(
        StackMapTable {
            table: vec![
                StackMapFrame::SameFrame(10),
                StackMapFrame::ChopFrame { offset_delta: 2, chopped: 1 },
            ],
        },
        &[0, 2, 10, 250, 0, 2],
    );
    let cp = pool_of(&["StackMapTable"]);
    let attributes = Attributes { attributes: vec![attr(1, &[0, 1, 251, 0, 5])] };
    assert_eq!(
        attributes.get::<StackMapTable>(&cp),
        Some(StackMapTable { table: vec![StackMapFrame::SameFrameExtended(5)] })
    );
}

// ---------------------------------------------------------------- annotations

#[test]
fn element_values_round_trip() {
    round_trip(ElementValue::Byte(CPIndex::new(1)), &[b'B', 0, 1]);
    round_trip(ElementValue::Char(CPIndex::new(2)), &[b'C', 0, 2]);
    round_trip(ElementValue::Double(CPIndex::new(3)), &[b'D', 0, 3]);
    round_trip(ElementValue::Float(CPIndex::new(4)), &[b'F', 0, 4]);
    round_trip(ElementValue::Integer(CPIndex::new(5)), &[b'I', 0, 5]);
    round_trip(ElementValue::Long(CPIndex::new(6)), &[b'J', 0, 6]);
    round_trip(ElementValue::Short(CPIndex::new(7)), &[b'S', 0, 7]);
    round_trip(ElementValue::Boolean(CPIndex::new(8)), &[b'Z', 0, 8]);
    round_trip(ElementValue::String(CPIndex::new(9)), &[b's', 0, 9]);
    round_trip(
        ElementValue::Enum {
            type_name_index: CPIndex::new(10),
            const_name_index: CPIndex::new(11),
        },
        &[b'e', 0, 10, 0, 11],
    );
    round_trip(ElementValue::Class(CPIndex::new(12)), &[b'c', 0, 12]);
    round_trip(
        ElementValue::Annotation(Annotation {
            type_index: CPIndex::new(13),
            element_value_pairs: vec![],
        }),
        &[b'@', 0, 13, 0, 0],
    );
    round_trip(ElementValue::Array(vec![]), &[b'[', 0, 0]);
}

#[test]
fn element_values_nest() {
    let value = ElementValue::Array(vec![
        ElementValue::Integer(CPIndex::new(1)),
        ElementValue::Array(vec![ElementValue::String(CPIndex::new(2))]),
        ElementValue::Annotation(Annotation {
            type_index: CPIndex::new(3),
            element_value_pairs: vec![
                ElementValuePair {
                    element_name_index: CPIndex::new(4),
                    value: ElementValue::Boolean(CPIndex::new(5)),
                },
                ElementValuePair {
                    element_name_index: CPIndex::new(6),
                    value: ElementValue::Array(vec![ElementValue::Class(CPIndex::new(7))]),
                },
            ],
        }),
    ]);
    round_trip(
        value,
        &[
            b'[', 0, 3, // three values
            b'I', 0, 1, // an int
            b'[', 0, 1, b's', 0, 2, // an array of one string
            b'@', 0, 3, 0, 2, // an annotation with two elements
            0, 4, b'Z', 0, 5, // a boolean
            0, 6, b'[', 0, 1, b'c', 0, 7, // an array of one class
        ],
    );
}

#[test]
fn the_thirteen_tags_are_all_there_are() {
    let tags = b"BCDFIJSZsec@[";
    assert_eq!(tags.len(), 13);
    for tag in 0u8..=255 {
        let bytes = [tag, 0, 0, 0, 0, 0, 0];
        let value = ElementValue::from_bytes(&bytes, 0);
        if tags.contains(&tag) {
            assert!(value.is_ok(), "{}", tag);
        } else {
            assert_eq!(value, Err(ReadError::UnknownTag(tag, "ElementValue")));
        }
    }
}

#[test]
fn an_unknown_tag_deep_in_a_value() {
    assert_eq!(
        ElementValue::from_bytes(&[b'[', 0, 2, b'I', 0, 1, b'x', 0, 1], 0),
        Err(ReadError::UnknownTag(b'x', "ElementValue"))
    );
    assert_eq!(
        Annotation::from_bytes(&[0, 1, 0, 1, 0, 2, b'@', 0, 3, 0, 1, 0, 4, 0xFF], 0),
        Err(ReadError::UnknownTag(0xFF, "ElementValue"))
    );
}

#[test]
fn an_array_with_too_many_values() {
    let value = ElementValue::Array(
        (0..65536).map(|_| ElementValue::Integer(CPIndex::new(1))).collect(),
    );
    let mut out = vec![];
    assert_eq!(value.to_bytes(&mut out), Err(WriteError::TooLarge(65536)));
    assert!(out.is_empty());
    let nested = ElementValue::Array(vec![ElementValue::Integer(CPIndex::new(1)), value]);
    let mut out = vec![9];
    assert_eq!(nested.to_bytes(&mut out), Err(WriteError::TooLarge(65536)));
    assert_eq!(out[0], 9);
}

fn marker(type_index: u16) -> Annotation {
    Annotation { type_index: CPIndex::new(type_index), element_value_pairs: vec![] }
}

#[test]
fn annotation_attributes_round_trip() {
    let annotation = Annotation {
        type_index: CPIndex::new(1),
        element_value_pairs: vec![ElementValuePair {
            element_name_index: CPIndex::new(2),
            value: ElementValue::String(CPIndex::new(3)),
        }],
    };
    round_trip(
        RuntimeVisibleAnnotations { table: vec![annotation, marker(4)] },
        &[0, 2, 0, 1, 0, 1, 0, 2, b's', 0, 3, 0, 4, 0, 0],
    );
    round_trip(RuntimeInvisibleAnnotations { table: vec![marker(5)] }, &[0, 1, 0, 5, 0, 0]);
    round_trip(
        AnnotationDefault { default_value: ElementValue::Integer(CPIndex::new(6)) },
        &[b'I', 0, 6],
    );
    let cp = pool_of(&["RuntimeVisibleAnnotations", "AnnotationDefault"]);
    let attributes =
        Attributes { attributes: vec![attr(1, &[0, 1, 0, 5, 0, 0]), attr(2, &[b'c', 0, 9])] };
    assert_eq!(
        attributes.get::<RuntimeVisibleAnnotations>(&cp),
        Some(RuntimeVisibleAnnotations { table: vec![marker(5)] })
    );
    assert_eq!(
        attributes.get::<AnnotationDefault>(&cp),
        Some(AnnotationDefault { default_value: ElementValue::Class(CPIndex::new(9)) })
    );
    assert_eq!(attributes.get::<RuntimeInvisibleAnnotations>(&cp), None);
}

#[test]
fn parameter_annotations_are_counted_in_one_byte() {
    round_trip(
        RuntimeVisibleParameterAnnotations {
            table: vec![
                ParameterAnnotations { annotations: vec![marker(1), marker(2)] },
                ParameterAnnotations { annotations: vec![] },
            ],
        },
        &[2, 0, 2, 0, 1, 0, 0, 0, 2, 0, 0, 0, 0],
    );
    round_trip(RuntimeInvisibleParameterAnnotations { table: vec![] }, &[0]);
}

// ---------------------------------------------------------------- type annotations

#[test]
fn targets_round_trip() {
    for target_type in [0x00u8, 0x01] {
        round_trip(
            TargetInfo::TypeParameter { target_type, type_parameter_index: 7 },
            &[target_type, 7],
        );
    }
    round_trip(TargetInfo::SuperType(0xFFFF), &[0x10, 0xFF, 0xFF]);
    for target_type in [0x11u8, 0x12] {
        round_trip(
            TargetInfo::TypeParameterBound { target_type, type_parameter_index: 1, bound_index: 2 },
            &[target_type, 1, 2],
        );
    }
    for target_type in [0x13u8, 0x14, 0x15] {
        round_trip(TargetInfo::Empty { target_type }, &[target_type]);
    }
    round_trip(TargetInfo::FormalParameter(3), &[0x16, 3]);
    round_trip(TargetInfo::Throws(4), &[0x17, 0, 4]);
    for target_type in [0x40u8, 0x41] {
        round_trip(
            TargetInfo::LocalVar {
                target_type,
                table: vec![
                    LocalVarTarget { start_pc: 1, length: 2, index: 3 },
                    LocalVarTarget { start_pc: 4, length: 5, index: 6 },
                ],
            },
            &[target_type, 0, 2, 0, 1, 0, 2, 0, 3, 0, 4, 0, 5, 0, 6],
        );
    }
    round_trip(TargetInfo::Catch(5), &[0x42, 0, 5]);
    for target_type in [0x43u8, 0x44, 0x45, 0x46] {
        round_trip(TargetInfo::Offset { target_type, offset: 6 }, &[target_type, 0, 6]);
    }
    for target_type in [0x47u8, 0x48, 0x49, 0x4A, 0x4B] {
        round_trip(
            TargetInfo::TypeArgument { target_type, offset: 7, type_argument_index: 8 },
            &[target_type, 0, 7, 8],
        );
    }
}

#[test]
fn unknown_target_types() {
    let known: Vec<u8> = vec![
        0x00, 0x01, 0x10, 0x11, 0x12, 0x13, 0x14, 0x15, 0x16, 0x17, 0x40, 0x41, 0x42, 0x43, 0x44,
        0x45, 0x46, 0x47, 0x48, 0x49, 0x4A, 0x4B,
    ];
    for target_type in 0u8..=255 {
        let target = TargetInfo::from_bytes(&[target_type, 0, 0, 0, 0], 0);
        if known.contains(&target_type) {
            assert!(target.is_ok(), "{}", target_type);
        } else {
            assert_eq!(target, Err(ReadError::UnknownTag(target_type, "TargetInfo")));
        }
    }
}

#[test]
fn type_path_segments() {
    round_trip(TypePathSegment::Array, &[0, 0]);
    round_trip(TypePathSegment::NestedType, &[1, 0]);
    round_trip(TypePathSegment::WildcardBound, &[3, 0]);
    round_trip(TypePathSegment::TypeArgument(9), &[4, 9]);
    for tag in [2u8, 5, 6, 255] {
        assert_eq!(
            TypePathSegment::from_bytes(&[tag, 0], 0),
            Err(ReadError::UnknownTag(tag, "TypePathSegment"))
        );
    }
    // the byte behind the tag of a step that has no argument must be 0
    for tag in [0u8, 1, 3] {
        assert_eq!(TypePathSegment::from_bytes(&[tag, 7], 0), Err(ReadError::Mismatch(0, 7)));
    }
}

#[test]
fn type_annotations_round_trip() {
    let annotation = TypeAnnotation {
        target_info: TargetInfo::Offset { target_type: 0x44, offset: 12 },
        target_path: TypePath {
            data: vec![TypePathSegment::Array, TypePathSegment::TypeArgument(1)],
        },
        type_index: CPIndex::new(5),
        element_value_pairs: vec![ElementValuePair {
            element_name_index: CPIndex::new(6),
            value: ElementValue::Integer(CPIndex::new(7)),
        }],
    };
    let bytes = [0x44, 0, 12, 2, 0, 0, 4, 1, 0, 5, 0, 1, 0, 6, b'I', 0, 7];
    round_trip(annotation, &bytes);
    let mut table = vec![0u8, 1];
    table.extend_from_slice(&bytes);
    let cp = pool_of(&["RuntimeVisibleTypeAnnotations", "RuntimeInvisibleTypeAnnotations"]);
    let attributes = Attributes { attributes: vec![attr(1, &table), attr(2, &[0, 0])] };
    assert_eq!(attributes.get::<RuntimeVisibleTypeAnnotations>(&cp).unwrap().table.len(), 1);
    assert_eq!(
        attributes.get::<RuntimeInvisibleTypeAnnotations>(&cp),
        Some(RuntimeInvisibleTypeAnnotations { table: vec![] })
    );
}

#[test]
fn a_type_path_with_too_many_steps() {
    let path = TypePath { data: vec![TypePathSegment::Array; 256] };
    let mut out = vec![];
    assert_eq!(path.to_bytes(&mut out), Err(WriteError::TooLarge(256)));
    let path = TypePath { data: vec![TypePathSegment::Array; 255] };
    assert_eq!(path.to_bytes(&mut out), Ok(()));
    assert_eq!(out.len(), 1 + 2 * 255);
}
