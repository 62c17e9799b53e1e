use class_file::codec::expect::{expect_u32, expect_u8};
use class_file::{
    read_blob, read_len, read_table, write_blob, write_bytes, write_len, write_table, CPIndex,
    Codec, LenWidth, LineNumber, ReadError, UTF8Info, WriteError,
};

#[test]
fn integers_are_big_endian() {
    assert_eq!(u8::from_bytes(&[0x12], 0), Ok((0x12, 1)));
    assert_eq!(u16::from_bytes(&[0x12, 0x34], 0), Ok((0x1234, 2)));
    assert_eq!(u32::from_bytes(&[0x12, 0x34, 0x56, 0x78], 0), Ok((0x1234_5678, 4)));
    assert_eq!(u32::from_bytes(&[0xFF, 0xFF, 0xFF, 0xFF], 0), Ok((u32::MAX, 4)));
    assert_eq!(u16::from_bytes(&[0, 0xFF, 0xFE], 1), Ok((0xFFFE, 3)));
    let mut out = vec![];
    0xABu8.to_bytes(&mut out).unwrap();
    0xCAFEu16.to_bytes(&mut out).unwrap();
    0xDEAD_BEEFu32.to_bytes(&mut out).unwrap();
    assert_eq!(out, vec![0xAB, 0xCA, 0xFE, 0xDE, 0xAD, 0xBE, 0xEF]);
}

#[test]
fn integers_agree_with_std() {
    for value in [0u32, 1, 255, 256, 65535, 65536, 0x00FF_FF00, 0x7FFF_FFFF, 0x8000_0000, u32::MAX]
    {
        let mut out = vec![];
        value.to_bytes(&mut out).unwrap();
        assert_eq!(out, value.to_be_bytes().to_vec());
        assert_eq!(u32::from_bytes(&out, 0), Ok((value, 4)));
    }
    for value in 0u16..=65535 {
        let mut out = vec![];
        value.to_bytes(&mut out).unwrap();
        assert_eq!(out, value.to_be_bytes().to_vec());
        assert_eq!(u16::from_bytes(&out, 0), Ok((value, 2)));
    }
}

#[test]
fn integers_cut_off() {
    assert_eq!(u8::from_bytes(&[], 0), Err(ReadError::UnexpectedEof));
    assert_eq!(u16::from_bytes(&[1], 0), Err(ReadError::UnexpectedEof));
    assert_eq!(u32::from_bytes(&[1, 2, 3], 0), Err(ReadError::UnexpectedEof));
    assert_eq!(u16::from_bytes(&[1, 2, 3], 2), Err(ReadError::UnexpectedEof));
}

#[test]
fn lengths_of_three_widths() {
    assert_eq!(read_len(&[7, 8], 0, LenWidth::U8), Ok((7, 1)));
    assert_eq!(read_len(&[1, 2], 0, LenWidth::U16), Ok((258, 2)));
    assert_eq!(read_len(&[0, 1, 0, 0], 0, LenWidth::U32), Ok((65536, 4)));
    assert_eq!(read_len(&[0, 1, 0], 0, LenWidth::U32), Err(ReadError::UnexpectedEof));
    let mut out = vec![];
    write_len(255, LenWidth::U8, &mut out).unwrap();
    write_len(65535, LenWidth::U16, &mut out).unwrap();
    write_len(65536, LenWidth::U32, &mut out).unwrap();
    assert_eq!(out, vec![255, 255, 255, 0, 1, 0, 0]);
}

#[test]
fn lengths_that_do_not_fit() {
    let mut out = vec![1];
    assert_eq!(write_len(256, LenWidth::U8, &mut out), Err(WriteError::TooLarge(256)));
    assert_eq!(write_len(65536, LenWidth::U16, &mut out), Err(WriteError::TooLarge(65536)));
    assert_eq!(out, vec![1]);
}

#[test]
fn blobs() {
    assert_eq!(read_blob(&[2, 9, 8, 7], 0, LenWidth::U8), Ok((vec![9, 8], 3)));
    assert_eq!(read_blob(&[0, 1, 9, 8], 0, LenWidth::U16), Ok((vec![9], 3)));
    assert_eq!(read_blob(&[0], 0, LenWidth::U8), Ok((vec![], 1)));
    assert_eq!(read_blob(&[3, 9, 8], 0, LenWidth::U8), Err(ReadError::UnexpectedEof));
    assert_eq!(read_blob(&[], 0, LenWidth::U8), Err(ReadError::UnexpectedEof));
    let mut out = vec![0xEE];
    write_blob(&[1, 2, 3], LenWidth::U16, &mut out).unwrap();
    assert_eq!(out, vec![0xEE, 0, 3, 1, 2, 3]);
    let mut out = vec![0xEE];
    assert_eq!(write_blob(&[0u8; 256], LenWidth::U8, &mut out), Err(WriteError::TooLarge(256)));
    assert_eq!(out, vec![0xEE]);
    write_bytes(&[4, 5], &mut out);
    assert_eq!(out, vec![0xEE, 4, 5]);
}

#[test]
fn tables() {
    let lines = vec![
        LineNumber { start_pc: 1, line_number: 2 },
        LineNumber { start_pc: 3, line_number: 4 },
    ];
    let mut out = vec![];
    write_table(&lines, LenWidth::U8, &mut out).unwrap();
    assert_eq!(out, vec![2, 0, 1, 0, 2, 0, 3, 0, 4]);
    assert_eq!(read_table::<LineNumber>(&out, 0, LenWidth::U8), Ok((lines.clone(), 9)));
    let mut out = vec![];
    write_table(&lines, LenWidth::U32, &mut out).unwrap();
    assert_eq!(out, vec![0, 0, 0, 2, 0, 1, 0, 2, 0, 3, 0, 4]);
    assert_eq!(read_table::<LineNumber>(&out, 0, LenWidth::U32), Ok((lines, 12)));
    assert_eq!(
        read_table::<LineNumber>(&[0, 2, 0, 1, 0, 2, 0, 3], 0, LenWidth::U16),
        Err(ReadError::UnexpectedEof)
    );
    assert_eq!(read_table::<LineNumber>(&[0, 0], 0, LenWidth::U16), Ok((vec![], 2)));
}

#[test]
fn a_table_reports_what_does_not_fit_in_an_element() {
    let strings = vec![
        UTF8Info { data: vec![1] },
        UTF8Info { data: vec![0; 70000] },
        UTF8Info { data: vec![0; 80000] },
    ];
    let mut out = vec![0xEE];
    assert_eq!(write_table(&strings, LenWidth::U16, &mut out), Err(WriteError::TooLarge(70000)));
    // what was written before the failure stands behind the old content
    assert_eq!(out, vec![0xEE, 0, 3, 0, 1, 1]);
}

#[test]
fn a_table_of_indices() {
    let indices: Vec<CPIndex<UTF8Info>> = vec![CPIndex::new(1), CPIndex::new(0x0203)];
    let mut out = vec![];
    write_table(&indices, LenWidth::U16, &mut out).unwrap();
    assert_eq!(out, vec![0, 2, 0, 1, 2, 3]);
    assert_eq!(read_table::<CPIndex<UTF8Info>>(&out, 0, LenWidth::U16), Ok((indices, 6)));
}

#[test]
fn expected_constants() {
    assert_eq!(expect_u32(&[0xCA, 0xFE, 0xBA, 0xBE], 0, 0xCAFE_BABE), Ok((0xCAFE_BABE, 4)));
    assert_eq!(
        expect_u32(&[0xCA, 0xFE, 0xBA, 0xBF], 0, 0xCAFE_BABE),
        Err(ReadError::Mismatch(0xCAFE_BABE, 0xCAFE_BABF))
    );
    assert_eq!(expect_u32(&[0xCA, 0xFE, 0xBA], 0, 0xCAFE_BABE), Err(ReadError::UnexpectedEof));
    assert_eq!(expect_u8(&[5, 0], 1, 0), Ok((0, 2)));
    assert_eq!(expect_u8(&[5, 9], 1, 0), Err(ReadError::Mismatch(0, 9)));
    assert_eq!(expect_u8(&[5], 1, 0), Err(ReadError::UnexpectedEof));
}
