use wasm_views::memory::{raw_element_count, read_element, write_element};
use wasm_views::{ElementType, TypedMemoryView, ViewError};

#[test]
fn element_count_ignores_trailing_bytes() {
    let memory = [0u8; 10];
    assert_eq!(raw_element_count(ElementType::Uint8, &memory), 10);
    assert_eq!(raw_element_count(ElementType::Int16, &memory), 5);
    assert_eq!(raw_element_count(ElementType::Float32, &memory), 2);
    assert_eq!(raw_element_count(ElementType::Int64, &memory), 1);
    assert_eq!(raw_element_count(ElementType::Float64, &[0u8; 7]), 0);
    assert_eq!(raw_element_count(ElementType::Uint8, &[]), 0);
}

#[test]
fn elements_are_little_endian() {
    let memory = [0x01u8, 0x02, 0x03, 0x04, 0x05, 0x06, 0x07, 0x08];
    assert_eq!(read_element(ElementType::Uint8, &memory, 7), 0x08);
    assert_eq!(read_element(ElementType::Uint16, &memory, 1), 0x0403);
    assert_eq!(read_element(ElementType::Uint32, &memory, 1), 0x0807_0605);
    assert_eq!(read_element(ElementType::Uint64, &memory, 0), 0x0807_0605_0403_0201);
    assert_eq!(read_element(ElementType::Int64, &memory, 0), 0x0807_0605_0403_0201);
}

#[test]
fn signed_elements_are_twos_complement() {
    let memory = [0xffu8, 0xff, 0xff, 0xff, 0xff, 0xff, 0xff, 0xff];
    assert_eq!(read_element(ElementType::Uint8, &memory, 0), 255);
    assert_eq!(read_element(ElementType::Int8, &memory, 0), -1);
    assert_eq!(read_element(ElementType::Uint16, &memory, 0), 65535);
    assert_eq!(read_element(ElementType::Int16, &memory, 0), -1);
    assert_eq!(read_element(ElementType::Uint32, &memory, 0), 4294967295);
    assert_eq!(read_element(ElementType::Int32, &memory, 0), -1);
    assert_eq!(read_element(ElementType::Uint64, &memory, 0), 18446744073709551615);
    assert_eq!(read_element(ElementType::Int64, &memory, 0), -1);
    let low = [0x00u8, 0x80];
    assert_eq!(read_element(ElementType::Int16, &low, 0), -32768);
    assert_eq!(read_element(ElementType::Uint16, &low, 0), 32768);
    assert_eq!(read_element(ElementType::Int8, &low, 1), -128);
}

#[test]
fn write_element_stores_the_encoding() {
    let mut memory = vec![0xaau8; 8];
    write_element(ElementType::Int16, &mut memory, 1, -2);
    assert_eq!(memory, vec![0xaa, 0xaa, 0xfe, 0xff, 0xaa, 0xaa, 0xaa, 0xaa]);
    write_element(ElementType::Uint32, &mut memory, 1, 0x0102_0304);
    assert_eq!(memory, vec![0xaa, 0xaa, 0xfe, 0xff, 0x04, 0x03, 0x02, 0x01]);
    write_element(ElementType::Int64, &mut memory, 0, i64::MIN as i128);
    assert_eq!(memory, vec![0, 0, 0, 0, 0, 0, 0, 0x80]);
    write_element(ElementType::Uint64, &mut memory, 0, u64::MAX as i128);
    assert_eq!(memory, vec![0xff; 8]);
    write_element(ElementType::Uint8, &mut memory, 3, 0);
    assert_eq!(memory, vec![0xff, 0xff, 0xff, 0, 0xff, 0xff, 0xff, 0xff]);
}

#[test]
fn every_type_reads_back_its_extremes() {
    let cases: [(ElementType, i128, i128); 10] = [
        (ElementType::Uint8, 0, u8::MAX as i128),
        (ElementType::Int8, i8::MIN as i128, i8::MAX as i128),
        (ElementType::Uint16, 0, u16::MAX as i128),
        (ElementType::Int16, i16::MIN as i128, i16::MAX as i128),
        (ElementType::Uint32, 0, u32::MAX as i128),
        (ElementType::Int32, i32::MIN as i128, i32::MAX as i128),
        (ElementType::Uint64, 0, u64::MAX as i128),
        (ElementType::Int64, i64::MIN as i128, i64::MAX as i128),
        (ElementType::Float32, 0, u32::MAX as i128),
        (ElementType::Float64, 0, u64::MAX as i128),
    ];
    for (kind, min, max) in cases {
        let view = TypedMemoryView::new(kind, 1);
        let mut memory = vec![0x55u8; 24];
        assert!(kind.accepts(min));
        assert!(kind.accepts(max));
        assert!(!kind.accepts(min - 1));
        assert!(!kind.accepts(max + 1));
        assert_eq!(view.set_index(&mut memory, 0, min), Ok(()));
        assert_eq!(view.get_index(&memory, 0), Ok(min));
        assert_eq!(view.set_index(&mut memory, 1, max), Ok(()));
        assert_eq!(view.get_index(&memory, 1), Ok(max));
        assert_eq!(view.get_index(&memory, 0), Ok(min));
        let refused = Err(ViewError::TypeMismatch { expected: kind });
        assert_eq!(view.set_index(&mut memory, 0, min - 1), refused);
        assert_eq!(view.set_index(&mut memory, 0, max + 1), refused);
        assert_eq!(view.get_index(&memory, 0), Ok(min));
    }
}

#[test]
fn signedness_of_every_type() {
    assert!(!ElementType::Uint8.signed());
    assert!(ElementType::Int8.signed());
    assert!(!ElementType::Uint16.signed());
    assert!(ElementType::Int16.signed());
    assert!(!ElementType::Uint32.signed());
    assert!(ElementType::Int32.signed());
    assert!(!ElementType::Uint64.signed());
    assert!(ElementType::Int64.signed());
    assert!(!ElementType::Float32.signed());
    assert!(!ElementType::Float64.signed());
}

#[test]
fn span_of_every_width() {
    assert_eq!(ElementType::Int8.span(), 1 << 8);
    assert_eq!(ElementType::Uint16.span(), 1 << 16);
    assert_eq!(ElementType::Float32.span(), 1 << 32);
    assert_eq!(ElementType::Int64.span(), 1 << 64);
}

#[test]
fn float_elements_travel_as_bit_patterns() {
    let mut memory = vec![0u8; 16];
    let singles = TypedMemoryView::new(ElementType::Float32, 0);
    let doubles = TypedMemoryView::new(ElementType::Float64, 1);
    assert_eq!(singles.set_index(&mut memory, 1, 1.0f32.to_bits() as i128), Ok(()));
    assert_eq!(&memory[4..8], &[0x00, 0x00, 0x80, 0x3f]);
    assert_eq!(&memory[4..8], &1.0f32.to_le_bytes());
    let bits = singles.get_index(&memory, 1).unwrap();
    assert_eq!(f32::from_bits(bits as u32), 1.0);
    assert_eq!(doubles.set_index(&mut memory, 0, (-2.5f64).to_bits() as i128), Ok(()));
    assert_eq!(&memory[8..16], &(-2.5f64).to_le_bytes());
    let bits = doubles.get_index(&memory, 0).unwrap();
    assert_eq!(f64::from_bits(bits as u64), -2.5);
}
