use class_file::ops::{PUBLIC, SUPER};
use class_file::{ClassFile, Codec, ReadError};

/// The class file of `public class Version55 {}` in the format of Java 11:
/// twelve constants, no interfaces, no fields, the default constructor, and
/// no attributes on the class.
fn version55() -> Vec<u8> {
    let mut data: Vec<u8> = Vec::new();
    data.extend_from_slice(&[0xCA, 0xFE, 0xBA, 0xBE]);
    data.extend_from_slice(&[0x00, 0x00, 0x00, 0x37]);
    data.extend_from_slice(&[0x00, 0x0D]);
    // #1 Methodref java/lang/Object.<init>:()V
    data.extend_from_slice(&[0x0A, 0x00, 0x03, 0x00, 0x0A]);
    // #2 Class Version55, #3 Class java/lang/Object
    data.extend_from_slice(&[0x07, 0x00, 0x0B]);
    data.extend_from_slice(&[0x07, 0x00, 0x0C]);
    // #4 to #9
    for text in ["<init>", "()V", "Code", "LineNumberTable", "SourceFile", "Version55.java"] {
        data.push(0x01);
        data.extend_from_slice(&(text.len() as u16).to_be_bytes());
        data.extend_from_slice(text.as_bytes());
    }
    // #10 NameAndType <init>:()V
    data.extend_from_slice(&[0x0C, 0x00, 0x04, 0x00, 0x05]);
    // #11, #12
    for text in ["Version55", "java/lang/Object"] {
        data.push(0x01);
        data.extend_from_slice(&(text.len() as u16).to_be_bytes());
        data.extend_from_slice(text.as_bytes());
    }
    // access flags, this class, super class, no interfaces, no fields
    data.extend_from_slice(&[0x00, 0x21, 0x00, 0x02, 0x00, 0x03, 0x00, 0x00, 0x00, 0x00]);
    // one method: public <init>()V with a Code attribute
    data.extend_from_slice(&[0x00, 0x01]);
    data.extend_from_slice(&[0x00, 0x01, 0x00, 0x04, 0x00, 0x05, 0x00, 0x01]);
    data.extend_from_slice(&[0x00, 0x06, 0x00, 0x00, 0x00, 0x1D]);
    data.extend_from_slice(&[0x00, 0x01, 0x00, 0x01]);
    data.extend_from_slice(&[0x00, 0x00, 0x00, 0x05, 0x2A, 0xB7, 0x00, 0x01, 0xB1]);
    data.extend_from_slice(&[0x00, 0x00, 0x00, 0x01]);
    data.extend_from_slice(&[0x00, 0x07, 0x00, 0x00, 0x00, 0x06]);
    data.extend_from_slice(&[0x00, 0x01, 0x00, 0x00, 0x00, 0x01]);
    // no attributes on the class
    data.extend_from_slice(&[0x00, 0x00]);
    data
}

#[test]
fn passthrough() {
    let input = version55();

    let class_file = ClassFile::open(&input).expect("Failed to parse input.");

    let mut output = vec![];
    class_file.to_bytes(&mut output).unwrap();

    assert_eq!(input, output);
}

#[test]
fn load_class() {
    let data = version55();
    let class_file = ClassFile::open(&data).expect("Failed to parse \"Version55.class\"");
    assert_eq!(class_file.major_version, 55);
    assert_eq!(class_file.minor_version, 0);
    assert_eq!(class_file.access_flags, PUBLIC | SUPER);

    let cp = &class_file.constant_pool;
    assert_eq!(cp.entries.len(), 12);
    for value in cp {
        println!("{:?}", value);
    }

    let class_name = {
        let this_class = class_file.this_class;
        let class_info = cp
            .index(this_class)
            .expect("Unable to locate \"this_class\" inside of constant pool.");
        let info = cp
            .index(class_info.name_index)
            .expect("Unable to locate \"this_class.name_index\" in constant pool");
        info.to_utf8()
    };
    // The name of the class itself.
    assert_eq!(class_name.as_deref(), Some("Version55"));

    let super_class = {
        let super_class = class_file.super_class;
        let class_info = cp
            .index(super_class)
            .expect("Unable to locate \"super_class\" inside of constant pool.");
        let info = cp
            .index(class_info.name_index)
            .expect("Unable to locate \"super_class.name_index\" in constant pool");
        info.to_utf8()
    };
    // Default for classes that don't specify a super.
    assert_eq!(super_class.as_deref(), Some("java/lang/Object"));

    // No interfaces were implemented.
    assert_eq!(class_file.interfaces.len(), 0);

    // No fields, obviously...
    assert_eq!(class_file.fields.len(), 0);

    // Remember, default constructor!
    assert_eq!(class_file.methods.len(), 1);

    let mut output = vec![];
    class_file.to_bytes(&mut output).unwrap();

    let data_len = data.len();
    println!("{}", data_len);
    let len = output.len();
    println!("{}", len);
    assert_eq!(data, output);
}

#[test]
fn write_appends_and_matches_to_bytes() {
    let data = version55();
    let class_file = ClassFile::open(&data).unwrap();
    let mut output = vec![0xAAu8, 0xBB];
    class_file.write(&mut output).unwrap();
    assert_eq!(&output[..2], &[0xAA, 0xBB]);
    assert_eq!(&output[2..], &data[..]);
}

#[test]
fn bytes_behind_the_class_are_ignored() {
    let mut data = version55();
    let whole = data.len();
    data.extend_from_slice(&[0xDE, 0xAD]);
    let class_file = ClassFile::open(&data).unwrap();
    let mut output = vec![];
    class_file.write(&mut output).unwrap();
    assert_eq!(&output[..], &data[..whole]);
}

#[test]
fn missing_magic() {
    let mut data = version55();
    data[0] = 0;
    data[1] = 0;
    data[2] = 0;
    data[3] = 0;
    assert_eq!(ClassFile::open(&data).err(), Some(ReadError::Mismatch(0xCAFE_BABE, 0x0000_0000)));
}

#[test]
fn wrong_magic_reports_what_was_read() {
    let mut data = version55();
    data[3] = 0xBF;
    assert_eq!(ClassFile::open(&data).err(), Some(ReadError::Mismatch(0xCAFE_BABE, 0xCAFE_BABF)));
}

#[test]
fn truncated_pool() {
    // magic, versions, a count of 10, and three entries only
    let mut data: Vec<u8> = vec![0xCA, 0xFE, 0xBA, 0xBE, 0x00, 0x00, 0x00, 0x37, 0x00, 0x0A];
    data.extend_from_slice(&[0x07, 0x00, 0x02]);
    data.extend_from_slice(&[0x01, 0x00, 0x01, 0x41]);
    data.extend_from_slice(&[0x03, 0x00, 0x00, 0x00, 0x2A]);
    assert_eq!(ClassFile::open(&data).err(), Some(ReadError::UnexpectedEof));
}

#[test]
fn every_truncation_is_an_unexpected_end() {
    let data = version55();
    for len in 0..data.len() {
        assert_eq!(ClassFile::open(&data[..len]).err(), Some(ReadError::UnexpectedEof), "{}", len);
    }
}

#[test]
fn zero_pool_count_is_malformed() {
    let data: Vec<u8> = vec![0xCA, 0xFE, 0xBA, 0xBE, 0x00, 0x00, 0x00, 0x37, 0x00, 0x00, 0x00];
    assert_eq!(ClassFile::open(&data).err(), Some(ReadError::MalformedCount));
}

#[test]
fn unknown_pool_tag() {
    let data: Vec<u8> =
        vec![0xCA, 0xFE, 0xBA, 0xBE, 0x00, 0x00, 0x00, 0x37, 0x00, 0x02, 0x02, 0x00];
    assert_eq!(ClassFile::open(&data).err(), Some(ReadError::UnknownTag(2, "CPEntry")));
}

#[test]
fn serialized_class_starts_with_magic() {
    let class_file = ClassFile::open(&version55()).unwrap();
    let mut output = vec![];
    class_file.write(&mut output).unwrap();
    assert_eq!(&output[..4], &[0xCA, 0xFE, 0xBA, 0xBE]);
}

#[test]
fn serialized_pool_count_is_entries_plus_one() {
    let class_file = ClassFile::open(&version55()).unwrap();
    let mut output = vec![];
    class_file.constant_pool.to_bytes(&mut output).unwrap();
    assert_eq!(&output[..2], &[0x00, 0x0D]);
    assert_eq!(class_file.constant_pool.entries.len() + 1, 13);
}
