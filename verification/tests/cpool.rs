use noak::error::{Context, DecodeErrorKind, EncodeErrorKind};
use std::collections::{BTreeSet, HashSet};
use noak::header::Version;
use noak::mutf8::{is_valid, MStr};
use noak::reader::cpool::value;
use noak::reader::cpool::{
    Class, ConstantPool, Double, Dynamic, FieldRef, Float, Index, Integer, InterfaceMethodRef,
    InvokeDynamic, Item, Long, MethodHandle, MethodKind, MethodRef, MethodType, Module,
    NameAndType, Package, Utf8,
};
use noak::reader::decoding::Decoder;
use noak::writer::encoding::encoding_of;
use noak::writer::ClassWriter;

fn index<T>(number: u16) -> Index<T> {
    Index::new(number).unwrap()
}

/// count 11: 1 Utf8 "Foo", 2 Class #1, 3 Utf8 "bar", 4 Utf8 "I", 5 NameAndType #3 #4,
/// 6 FieldRef #2 #5, 7 Long, (8), 9 Integer -2, 10 String #3
fn pool_bytes() -> Vec<u8> {
    let mut bytes = vec![0, 11];
    bytes.extend_from_slice(&[1, 0, 3, b'F', b'o', b'o']);
    bytes.extend_from_slice(&[7, 0, 1]);
    bytes.extend_from_slice(&[1, 0, 3, b'b', b'a', b'r']);
    bytes.extend_from_slice(&[1, 0, 1, b'I']);
    bytes.extend_from_slice(&[12, 0, 3, 0, 4]);
    bytes.extend_from_slice(&[9, 0, 2, 0, 5]);
    bytes.extend_from_slice(&[5, 0, 0, 0, 1, 0, 0, 0, 2]);
    bytes.extend_from_slice(&[3, 0xFF, 0xFF, 0xFF, 0xFE]);
    bytes.extend_from_slice(&[8, 0, 3]);
    bytes
}

#[test]
fn modified_utf8_is_checked() {
    assert!(is_valid(b""));
    assert!(is_valid(b"hello"));
    assert!(is_valid(&[0xC0, 0x80]));
    assert!(is_valid(&[0xDF, 0xBF, 0x41]));
    assert!(is_valid(&[0xE0, 0x80, 0xBF]));
    assert!(is_valid(&[0xED, 0xA0, 0x80, 0xED, 0xB0, 0x80]));
    assert!(!is_valid(&[0x00]));
    assert!(!is_valid(&[0x41, 0x00]));
    assert!(!is_valid(&[0x80]));
    assert!(!is_valid(&[0xBF, 0x41]));
    assert!(!is_valid(&[0xC0]));
    assert!(!is_valid(&[0xC0, 0x41]));
    assert!(!is_valid(&[0xC2, 0xC0]));
    assert!(!is_valid(&[0xE0, 0x80]));
    assert!(!is_valid(&[0xE0, 0x80, 0x41]));
    assert!(!is_valid(&[0xE0, 0x41, 0x80]));
    assert!(!is_valid(&[0xF0, 0x80, 0x80, 0x80]));
    assert!(!is_valid(&[0xFF]));
    let text = MStr::from_mutf8(b"ab").unwrap();
    assert_eq!(text.as_bytes(), b"ab");
    assert_eq!(text.len(), 2);
    let err = MStr::from_mutf8(&[0x61, 0xF0]).unwrap_err();
    assert_eq!(err.kind(), DecodeErrorKind::InvalidMutf8);
    assert_eq!(err.position(), None);
    assert_eq!(err.context(), Context::Nowhere);
}

#[test]
fn indices_are_never_zero() {
    let err = Index::<Class>::new(0).unwrap_err();
    assert_eq!(err.kind(), DecodeErrorKind::InvalidIndex);
    assert_eq!(err.position(), None);
    assert_eq!(Index::<Class>::new(1).unwrap().get(), 1);
    assert_eq!(Index::<Class>::new(0xFFFF).unwrap().get(), 0xFFFF);
    let bytes = [0u8, 0, 0, 7, 0];
    let mut decoder = Decoder::new(&bytes, Context::Fields);
    let err = decoder.read::<Index<Utf8>>().unwrap_err();
    assert_eq!(err.kind(), DecodeErrorKind::InvalidIndex);
    assert_eq!(err.position(), None);
    assert_eq!(err.context(), Context::Fields);
    // nothing was consumed by the failed read
    assert_eq!(decoder.file_position(), 0);
    decoder.advance(2).unwrap();
    assert_eq!(decoder.read::<Index<Utf8>>().unwrap().get(), 7);
    let err = decoder.read::<Index<Utf8>>().unwrap_err();
    assert_eq!(err.kind(), DecodeErrorKind::UnexpectedEoi);
    assert_eq!(err.position(), Some(4));
    assert_eq!(encoding_of(&index::<Utf8>(0x0102)), vec![1, 2]);
}

#[test]
fn pool_is_decoded_slot_by_slot() {
    let mut bytes = pool_bytes();
    bytes.push(0x77);
    let mut decoder = Decoder::new(&bytes, Context::Start);
    let pool = decoder.read::<ConstantPool>().unwrap();
    assert_eq!(decoder.file_position(), bytes.len() - 1);
    assert_eq!(decoder.context(), Context::Start);
    assert_eq!(pool.len(), 10);
    assert_eq!(pool.get(index::<Utf8>(1)).unwrap().content.as_bytes(), b"Foo");
    assert_eq!(pool.get(index::<Class>(2)).unwrap().name.get(), 1);
    let name_and_type = pool.get(index::<NameAndType>(5)).unwrap();
    assert_eq!(name_and_type.name.get(), 3);
    assert_eq!(name_and_type.descriptor.get(), 4);
    let field = pool.get(index::<FieldRef>(6)).unwrap();
    assert_eq!(field.class.get(), 2);
    assert_eq!(field.name_and_type.get(), 5);
    assert_eq!(pool.get(index::<Long>(7)).unwrap().value, 0x0000_0001_0000_0002);
    assert_eq!(pool.get(index::<Integer>(9)).unwrap().value, -2);
    assert_eq!(pool.get(index::<noak::reader::cpool::String>(10)).unwrap().string.get(), 3);
    assert!(matches!(pool.get(index::<Item>(9)).unwrap(), Item::Integer(Integer { value: -2 })));
    assert!(pool.slot(7).is_none());
    assert!(matches!(pool.slot(6), Some(Item::Long(_))));
}

#[test]
fn lookups_check_range_and_kind() {
    let bytes = pool_bytes();
    let mut decoder = Decoder::new(&bytes, Context::Start);
    let pool = decoder.read::<ConstantPool>().unwrap();
    let err = pool.get(index::<Utf8>(2)).unwrap_err();
    assert_eq!(err.kind(), DecodeErrorKind::TagMismatch);
    assert_eq!(err.position(), None);
    assert_eq!(err.context(), Context::ConstantPool(1));
    let err = pool.get(index::<Utf8>(11)).unwrap_err();
    assert_eq!(err.kind(), DecodeErrorKind::InvalidIndex);
    assert_eq!(err.context(), Context::ConstantPool(10));
    let err = pool.get(index::<Utf8>(0xFFFF)).unwrap_err();
    assert_eq!(err.kind(), DecodeErrorKind::InvalidIndex);
    // the slot behind an eight-byte number names no entry
    let err = pool.get(index::<Item>(8)).unwrap_err();
    assert_eq!(err.kind(), DecodeErrorKind::InvalidIndex);
    assert_eq!(err.context(), Context::ConstantPool(7));
    assert!(pool.get(index::<Item>(10)).is_ok());
}

#[test]
fn entries_are_resolved_with_what_they_refer_to() {
    let bytes = pool_bytes();
    let mut decoder = Decoder::new(&bytes, Context::Start);
    let pool = decoder.read::<ConstantPool>().unwrap();
    let foo = MStr::from_mutf8(b"Foo").unwrap();
    let bar = MStr::from_mutf8(b"bar").unwrap();
    let int = MStr::from_mutf8(b"I").unwrap();
    assert_eq!(pool.retrieve(index::<Utf8>(3)).unwrap(), bar);
    assert_eq!(pool.retrieve(index::<Class>(2)).unwrap(), value::Class { name: foo });
    assert_eq!(
        pool.retrieve(index::<NameAndType>(5)).unwrap(),
        value::NameAndType { name: bar, descriptor: int }
    );
    assert_eq!(
        pool.retrieve(index::<FieldRef>(6)).unwrap(),
        value::FieldRef {
            class: value::Class { name: foo },
            name_and_type: value::NameAndType { name: bar, descriptor: int },
        }
    );
    assert_eq!(pool.retrieve(index::<Long>(7)).unwrap(), value::Long { value: 0x1_0000_0002 });
    assert_eq!(pool.retrieve(index::<Integer>(9)).unwrap(), value::Integer { value: -2 });
    assert_eq!(
        pool.retrieve(index::<noak::reader::cpool::String>(10)).unwrap(),
        value::String { string: bar }
    );
}

#[test]
fn resolving_twice_gives_the_same() {
    let bytes = pool_bytes();
    let mut decoder = Decoder::new(&bytes, Context::Start);
    let pool = decoder.read::<ConstantPool>().unwrap();
    let first = pool.retrieve(index::<FieldRef>(6)).unwrap();
    let second = pool.retrieve(index::<FieldRef>(6)).unwrap();
    assert_eq!(first, second);
    let first = pool.retrieve(index::<FieldRef>(5)).unwrap_err();
    let second = pool.retrieve(index::<FieldRef>(5)).unwrap_err();
    assert_eq!(first.kind(), DecodeErrorKind::TagMismatch);
    assert_eq!(first.kind(), second.kind());
    assert_eq!(first.position(), second.position());
    assert_eq!(first.context(), second.context());
}

#[test]
fn resolution_stops_at_the_first_failure() {
    // 1 Class #2 (an Integer), 2 Integer, 3 MethodRef #1 #4, 4 NameAndType #9 #9, 5 MethodRef #6 #4
    let mut bytes = vec![0, 6];
    bytes.extend_from_slice(&[7, 0, 2]);
    bytes.extend_from_slice(&[3, 0, 0, 0, 1]);
    bytes.extend_from_slice(&[10, 0, 1, 0, 4]);
    bytes.extend_from_slice(&[12, 0, 9, 0, 9]);
    bytes.extend_from_slice(&[10, 0, 6, 0, 4]);
    let mut decoder = Decoder::new(&bytes, Context::Start);
    let pool = decoder.read::<ConstantPool>().unwrap();
    let err = pool.retrieve(index::<Class>(1)).unwrap_err();
    assert_eq!(err.kind(), DecodeErrorKind::TagMismatch);
    assert_eq!(err.context(), Context::ConstantPool(1));
    let err = pool.retrieve(index::<MethodRef>(3)).unwrap_err();
    assert_eq!(err.kind(), DecodeErrorKind::TagMismatch);
    assert_eq!(err.context(), Context::ConstantPool(1));
    let err = pool.retrieve(index::<NameAndType>(4)).unwrap_err();
    assert_eq!(err.kind(), DecodeErrorKind::InvalidIndex);
    assert_eq!(err.context(), Context::ConstantPool(8));
    let err = pool.retrieve(index::<MethodRef>(5)).unwrap_err();
    assert_eq!(err.kind(), DecodeErrorKind::InvalidIndex);
    assert_eq!(err.context(), Context::ConstantPool(5));
    let err = pool.retrieve(index::<InterfaceMethodRef>(3)).unwrap_err();
    assert_eq!(err.kind(), DecodeErrorKind::TagMismatch);
    assert_eq!(err.context(), Context::ConstantPool(2));
}

fn every_kind() -> Vec<(Vec<u8>, u16)> {
    vec![
        (vec![1, 0, 2, b'h', b'i'], 1),
        (vec![3, 0x80, 0, 0, 0], 1),
        (vec![4, 0x3F, 0x80, 0, 0], 1),
        (vec![5, 0xFF, 0xFF, 0xFF, 0xFF, 0xFF, 0xFF, 0xFF, 0xFF], 2),
        (vec![6, 0x3F, 0xF0, 0, 0, 0, 0, 0, 0], 2),
        (vec![7, 0, 1], 1),
        (vec![8, 0, 1], 1),
        (vec![9, 0, 7, 0, 12], 1),
        (vec![10, 0, 7, 0, 12], 1),
        (vec![11, 0, 7, 0, 12], 1),
        (vec![12, 0, 1, 0, 1], 1),
        (vec![15, 9, 0, 11], 1),
        (vec![16, 0, 1], 1),
        (vec![17, 0, 0, 0, 12], 1),
        (vec![18, 0xAB, 0xCD, 0, 12], 1),
        (vec![19, 0, 1], 1),
        (vec![20, 0, 1], 1),
    ]
}

#[test]
fn every_kind_of_entry_is_read_and_written_the_same() {
    for (bytes, slots) in every_kind() {
        let mut decoder = Decoder::new(&bytes, Context::Start);
        let item = decoder.read::<Item>().unwrap();
        assert_eq!(decoder.bytes_remaining(), 0);
        assert_eq!(item.to_bytes(), bytes);
        assert_eq!(encoding_of(&item), bytes);
        assert_eq!(item.is_wide(), slots == 2);
    }
}

#[test]
fn entries_hold_what_was_read() {
    let read = |bytes: &'static [u8]| Decoder::new(bytes, Context::Start).read::<Item>().unwrap();
    assert_eq!(read(&[1, 0, 2, b'h', b'i']), Item::Utf8(Utf8 { content: MStr::from_mutf8(b"hi").unwrap() }));
    assert_eq!(read(&[3, 0x80, 0, 0, 0]), Item::Integer(Integer { value: i32::MIN }));
    assert_eq!(read(&[4, 0x3F, 0x80, 0, 0]), Item::Float(Float { bits: 1.0f32.to_bits() }));
    assert_eq!(read(&[5, 0xFF, 0xFF, 0xFF, 0xFF, 0xFF, 0xFF, 0xFF, 0xFF]), Item::Long(Long { value: -1 }));
    assert_eq!(read(&[6, 0x3F, 0xF0, 0, 0, 0, 0, 0, 0]), Item::Double(Double { bits: 1.0f64.to_bits() }));
    assert_eq!(read(&[7, 0, 1]), Item::Class(Class { name: index(1) }));
    assert_eq!(read(&[8, 0, 1]), Item::String(noak::reader::cpool::String { string: index(1) }));
    assert_eq!(read(&[9, 0, 7, 0, 12]), Item::FieldRef(FieldRef { class: index(7), name_and_type: index(12) }));
    assert_eq!(read(&[10, 0, 7, 0, 12]), Item::MethodRef(MethodRef { class: index(7), name_and_type: index(12) }));
    assert_eq!(
        read(&[11, 0, 7, 0, 12]),
        Item::InterfaceMethodRef(InterfaceMethodRef { class: index(7), name_and_type: index(12) })
    );
    assert_eq!(read(&[12, 0, 1, 0, 2]), Item::NameAndType(NameAndType { name: index(1), descriptor: index(2) }));
    assert_eq!(
        read(&[15, 9, 0, 11]),
        Item::MethodHandle(MethodHandle { kind: MethodKind::InvokeInterface, reference: index(11) })
    );
    assert_eq!(read(&[16, 0, 1]), Item::MethodType(MethodType { descriptor: index(1) }));
    assert_eq!(
        read(&[17, 0, 0, 0, 12]),
        Item::Dynamic(Dynamic { bootstrap_method_attr: 0, name_and_type: index(12) })
    );
    assert_eq!(
        read(&[18, 0xAB, 0xCD, 0, 12]),
        Item::InvokeDynamic(InvokeDynamic { bootstrap_method_attr: 0xABCD, name_and_type: index(12) })
    );
    assert_eq!(read(&[19, 0, 1]), Item::Module(Module { name: index(1) }));
    assert_eq!(read(&[20, 0, 1]), Item::Package(Package { name: index(1) }));
}

#[test]
fn method_kinds_have_tags_from_one_to_nine() {
    let kinds = [
        MethodKind::GetField,
        MethodKind::GetStatic,
        MethodKind::PutField,
        MethodKind::PutStatic,
        MethodKind::InvokeVirtual,
        MethodKind::InvokeStatic,
        MethodKind::InvokeSpecial,
        MethodKind::NewInvokeSpecial,
        MethodKind::InvokeInterface,
    ];
    for (i, kind) in kinds.iter().enumerate() {
        assert_eq!(kind.to_tag() as usize, i + 1);
        assert_eq!(MethodKind::from_tag(i as u8 + 1), Some(*kind));
    }
    assert_eq!(MethodKind::from_tag(0), None);
    assert_eq!(MethodKind::from_tag(10), None);
}

#[test]
fn entries_that_mean_nothing_are_refused() {
    let fail = |bytes: &'static [u8]| {
        Decoder::new(bytes, Context::ConstantPool(3)).read::<Item>().unwrap_err()
    };
    for tag in [0u8, 2, 13, 14, 21, 0xFF] {
        let bytes = [tag, 0, 1, 0, 1];
        let err = Decoder::new(&bytes, Context::ConstantPool(3)).read::<Item>().unwrap_err();
        assert_eq!(err.kind(), DecodeErrorKind::InvalidTag);
        assert_eq!(err.position(), None);
        assert_eq!(err.context(), Context::ConstantPool(3));
    }
    let err = fail(&[7, 0, 0]);
    assert_eq!(err.kind(), DecodeErrorKind::InvalidIndex);
    assert_eq!(err.position(), None);
    assert_eq!(fail(&[9, 0, 1, 0, 0]).kind(), DecodeErrorKind::InvalidIndex);
    assert_eq!(fail(&[17, 0, 0, 0, 0]).kind(), DecodeErrorKind::InvalidIndex);
    assert_eq!(fail(&[15, 0, 0, 1]).kind(), DecodeErrorKind::InvalidTag);
    assert_eq!(fail(&[15, 10, 0, 1]).kind(), DecodeErrorKind::InvalidTag);
    let err = fail(&[1, 0, 2, b'a', 0]);
    assert_eq!(err.kind(), DecodeErrorKind::InvalidMutf8);
    assert_eq!(err.position(), None);
    assert_eq!(err.context(), Context::ConstantPool(3));
}

#[test]
fn entries_that_are_cut_off_report_where() {
    let fail = |bytes: &'static [u8]| {
        let err = Decoder::new(bytes, Context::ConstantPool(3)).read::<Item>().unwrap_err();
        assert_eq!(err.kind(), DecodeErrorKind::UnexpectedEoi);
        assert_eq!(err.context(), Context::ConstantPool(3));
        err.position().unwrap()
    };
    assert_eq!(fail(&[]), 0);
    assert_eq!(fail(&[7]), 1);
    assert_eq!(fail(&[7, 0]), 1);
    assert_eq!(fail(&[9, 0, 1]), 3);
    assert_eq!(fail(&[9, 0, 1, 0]), 3);
    assert_eq!(fail(&[5, 0, 0, 0, 0, 0, 0, 0]), 1);
    assert_eq!(fail(&[15]), 1);
    assert_eq!(fail(&[15, 1, 0]), 2);
    assert_eq!(fail(&[1, 0]), 1);
    assert_eq!(fail(&[1, 0, 2, b'a']), 3);
}

#[test]
fn pool_failures_name_the_slot() {
    let mut bytes = vec![0, 4];
    bytes.extend_from_slice(&[5, 0, 0, 0, 0, 0, 0, 0, 1]);
    bytes.extend_from_slice(&[7, 0]);
    let mut decoder = Decoder::new(&bytes, Context::Start);
    let err = decoder.read::<ConstantPool>().unwrap_err();
    assert_eq!(err.kind(), DecodeErrorKind::UnexpectedEoi);
    assert_eq!(err.position(), Some(12));
    assert_eq!(err.context(), Context::ConstantPool(2));
    // a pool is read wholly or not at all
    assert_eq!(decoder.file_position(), 0);
    assert_eq!(decoder.context(), Context::Start);
    assert_eq!(decoder.bytes_remaining(), bytes.len());
    let bytes = [0u8, 3, 3, 0, 0, 0, 1, 99];
    let err = Decoder::new(&bytes, Context::Start).read::<ConstantPool>().unwrap_err();
    assert_eq!(err.kind(), DecodeErrorKind::InvalidTag);
    assert_eq!(err.position(), None);
    assert_eq!(err.context(), Context::ConstantPool(1));
    let err = Decoder::new(&[0], Context::Start).read::<ConstantPool>().unwrap_err();
    assert_eq!(err.kind(), DecodeErrorKind::UnexpectedEoi);
    assert_eq!(err.position(), Some(0));
    assert_eq!(err.context(), Context::Start);
}

#[test]
fn empty_pools_have_no_slots() {
    for count in [0u8, 1] {
        let bytes = [0, count, 0x55];
        let mut decoder = Decoder::new(&bytes, Context::Start);
        let pool = decoder.read::<ConstantPool>().unwrap();
        assert_eq!(pool.len(), 0);
        assert_eq!(decoder.file_position(), 2);
        assert_eq!(pool.get(index::<Item>(1)).unwrap_err().kind(), DecodeErrorKind::InvalidIndex);
    }
}

#[test]
fn method_handle_is_resolved_one_step() {
    // 1 MethodHandle GetField #2, 2 FieldRef #9 #9
    let bytes = [0u8, 3, 15, 1, 0, 2, 9, 0, 9, 0, 9];
    let mut decoder = Decoder::new(&bytes, Context::Start);
    let pool = decoder.read::<ConstantPool>().unwrap();
    let handle = pool.retrieve(index::<MethodHandle>(1)).unwrap();
    assert_eq!(handle.kind, MethodKind::GetField);
    assert_eq!(handle.reference, Item::FieldRef(FieldRef { class: index(9), name_and_type: index(9) }));
}

#[test]
fn ascii_string_constant_survives_the_round_trip() {
    let text = b"java/lang/Object";
    let item = Item::Utf8(Utf8 { content: MStr::from_mutf8(text).unwrap() });
    let mut writer = ClassWriter::new(Version { major: 52, minor: 0 });
    assert_eq!(writer.insert_constant(&item).unwrap().get(), 1);
    let bytes = writer.into_bytes();
    let mut decoder = Decoder::new(&bytes, Context::Start);
    assert_eq!(decoder.read::<u32>().unwrap(), 0xCAFE_BABE);
    decoder.advance(4).unwrap();
    let pool = decoder.read::<ConstantPool>().unwrap();
    assert_eq!(decoder.bytes_remaining(), 0);
    assert_eq!(pool.len(), 1);
    assert_eq!(pool.get(index::<Utf8>(1)).unwrap().content.as_bytes(), text);
    assert_eq!(pool.retrieve(index::<Utf8>(1)).unwrap().as_bytes(), text);
}

#[test]
fn decoded_pool_is_written_as_it_was_read() {
    let bytes = pool_bytes();
    let mut decoder = Decoder::new(&bytes, Context::Start);
    let pool = decoder.read::<ConstantPool>().unwrap();
    let mut writer = ClassWriter::new(Version { major: 52, minor: 0 });
    writer.write(0xEEu8).unwrap();
    writer.insert_pool(&pool).unwrap();
    assert_eq!(writer.slots(), 11);
    let written = writer.into_bytes();
    assert_eq!(&written[8..written.len() - 1], &bytes[..]);
    assert_eq!(written[written.len() - 1], 0xEE);
    let mut every = vec![0u8, 20];
    for (bytes, _) in every_kind() {
        every.extend_from_slice(&bytes);
    }
    let pool = Decoder::new(&every, Context::Start).read::<ConstantPool>().unwrap();
    assert_eq!(pool.len(), 19);
    let mut writer = ClassWriter::new(Version { major: 52, minor: 0 });
    writer.insert_pool(&pool).unwrap();
    assert_eq!(&writer.into_bytes()[8..], &every[..]);
}

#[test]
fn constants_get_the_next_free_number() {
    let mut writer = ClassWriter::new(Version { major: 52, minor: 0 });
    writer.write(0x01u8).unwrap();
    let long = Item::Long(Long { value: 5 });
    let int = Item::Integer(Integer { value: -1 });
    assert_eq!(writer.insert_constant(&int).unwrap().get(), 1);
    assert_eq!(writer.insert_constant(&long).unwrap().get(), 2);
    assert_eq!(writer.insert_constant(&int).unwrap().get(), 4);
    assert_eq!(writer.slots(), 5);
    let bytes = writer.into_bytes();
    assert_eq!(&bytes[8..10], &[0, 5]);
    assert_eq!(&bytes[10..15], &[3, 0xFF, 0xFF, 0xFF, 0xFF]);
    assert_eq!(&bytes[15..24], &[5, 0, 0, 0, 0, 0, 0, 0, 5]);
    assert_eq!(&bytes[24..29], &[3, 0xFF, 0xFF, 0xFF, 0xFF]);
    assert_eq!(&bytes[29..], &[1]);
}

#[test]
fn strings_that_are_too_long_cannot_be_constants() {
    let text = vec![b'a'; 0x1_0000];
    let item = Item::Utf8(Utf8 { content: MStr::from_mutf8(&text).unwrap() });
    let mut writer = ClassWriter::new(Version { major: 52, minor: 0 });
    let err = writer.insert_constant(&item).unwrap_err();
    assert_eq!(err.kind(), EncodeErrorKind::TooManyBytes);
    assert_eq!(err.context(), Context::ConstantPool(1));
    assert_eq!(err.position(), None);
    assert_eq!(writer.slots(), 1);
    let longest = Item::Utf8(Utf8 { content: MStr::from_mutf8(&text[1..]).unwrap() });
    assert_eq!(writer.insert_constant(&longest).unwrap().get(), 1);
    assert_eq!(writer.into_bytes().len(), 10 + 3 + 0xFFFF);
}

#[test]
fn copying_a_pool_stops_at_the_first_entry_that_does_not_fit() {
    let source = [0u8, 4, 3, 0, 0, 0, 1, 3, 0, 0, 0, 2, 3, 0, 0, 0, 3];
    let pool = Decoder::new(&source, Context::Start).read::<ConstantPool>().unwrap();
    let mut writer = ClassWriter::new(Version { major: 52, minor: 0 });
    writer.write(0xEEu8).unwrap();
    for _ in 1..0xFFFDu32 {
        writer.insert_entry(&[3, 0, 0, 0, 7], 1).unwrap();
    }
    assert_eq!(writer.slots(), 0xFFFD);
    let err = writer.insert_pool(&pool).unwrap_err();
    assert_eq!(err.kind(), EncodeErrorKind::TooManyItems);
    assert_eq!(err.context(), Context::ConstantPool(0xFFFF));
    assert_eq!(err.position(), None);
    // the two entries in front of the one that was refused are there
    assert_eq!(writer.slots(), 0xFFFF);
    let bytes = writer.into_bytes();
    assert_eq!(bytes.len(), 10 + 5 * 0xFFFE + 1);
    assert_eq!(&bytes[8..10], &[0xFF, 0xFF]);
    assert_eq!(&bytes[bytes.len() - 11..], &[3, 0, 0, 0, 1, 3, 0, 0, 0, 2, 0xEE]);
}

#[test]
fn resolved_values_can_be_ordered_and_hashed() {
    let a = MStr::from_mutf8(b"a").unwrap();
    let b = MStr::from_mutf8(b"b").unwrap();
    assert!(value::Integer { value: -1 } < value::Integer { value: 2 });
    assert!(value::Long { value: 7 } > value::Long { value: 2 });
    assert!(value::Class { name: a } < value::Class { name: b });
    assert!(
        value::NameAndType { name: a, descriptor: b } < value::NameAndType { name: b, descriptor: a }
    );
    let ordered: BTreeSet<value::Class> =
        [value::Class { name: b }, value::Class { name: a }, value::Class { name: b }].into_iter().collect();
    assert_eq!(ordered.into_iter().collect::<Vec<_>>(), vec![value::Class { name: a }, value::Class { name: b }]);
    let hashed: HashSet<value::FieldRef> = [
        value::FieldRef { class: value::Class { name: a }, name_and_type: value::NameAndType { name: a, descriptor: b } },
        value::FieldRef { class: value::Class { name: a }, name_and_type: value::NameAndType { name: a, descriptor: b } },
    ]
    .into_iter()
    .collect();
    assert_eq!(hashed.len(), 1);
}

#[test]
fn string_constant_among_others_is_read_back_byte_for_byte() {
    let text = b"Ljava/lang/String;";
    let mut writer = ClassWriter::new(Version { major: 52, minor: 0 });
    writer.insert_constant(&Item::Long(Long { value: -9 })).unwrap();
    let string = Item::Utf8(Utf8 { content: MStr::from_mutf8(text).unwrap() });
    let number = writer.insert_constant(&string).unwrap().get();
    assert_eq!(number, 3);
    writer.insert_constant(&Item::Integer(Integer { value: 1 })).unwrap();
    writer.write(0x77u8).unwrap();
    let bytes = writer.into_bytes();
    let mut decoder = Decoder::new(&bytes[8..], Context::Start);
    let pool = decoder.read::<ConstantPool>().unwrap();
    assert_eq!(decoder.bytes_remaining(), 1);
    assert_eq!(pool.len(), 4);
    let read = pool.retrieve(index::<Utf8>(number)).unwrap();
    assert_eq!(read.as_bytes(), text);
    assert_eq!(read.len(), text.len());
    assert_eq!(pool.get(index::<Long>(1)).unwrap().value, -9);
    assert_eq!(pool.get(index::<Integer>(4)).unwrap().value, 1);
}
