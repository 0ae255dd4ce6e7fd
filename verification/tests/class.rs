use noak::error::{Context, EncodeErrorKind};
use noak::header::{AccessFlags, Version, MAGIC};
use noak::mutf8::MStr;
use noak::reader::attributes::Attributes;
use noak::reader::cpool::{Class, ConstantPool, Index, Item, Utf8};
use noak::reader::decoding::{DecodeCounted, Decoder};
use noak::reader::fields::Fields;
use noak::writer::attributes::{
    AttributeWriter, EncoderContext, Insertable, Start, WriteAssembler, WriteDisassembler,
};
use noak::writer::encoding::{CountedWriter, LengthPrefixedEncoder};
use noak::writer::ClassWriter;

#[test]
fn class_without_members_reads_back_with_zero_counts() {
    let mut writer = ClassWriter::new(Version { major: 52, minor: 3 });
    let name = MStr::from_mutf8(b"Empty").unwrap();
    let name = writer.insert_constant(&Item::Utf8(Utf8 { content: name })).unwrap();
    let name: Index<Utf8> = Index::new(name.get()).unwrap();
    let this = writer.insert_constant(&Item::Class(Class { name })).unwrap();
    writer.write(AccessFlags::from_bits(0x0021)).unwrap();
    writer.write(this.get()).unwrap();
    writer.write(0u16).unwrap();
    let interfaces: CountedWriter<LengthPrefixedEncoder, u16> = CountedWriter::new(writer).unwrap();
    let writer = interfaces.finish().unwrap();
    let fields: CountedWriter<LengthPrefixedEncoder, u16> = CountedWriter::new(writer).unwrap();
    let writer = fields.finish().unwrap();
    let methods: CountedWriter<LengthPrefixedEncoder, u16> = CountedWriter::new(writer).unwrap();
    let writer = methods.finish().unwrap();
    let attributes: CountedWriter<LengthPrefixedEncoder, u16> = CountedWriter::new(writer).unwrap();
    let bytes = attributes.finish().unwrap().into_bytes();

    let mut decoder = Decoder::new(&bytes, Context::Start);
    assert_eq!(decoder.read::<u32>().unwrap(), MAGIC);
    assert_eq!(decoder.read::<u16>().unwrap(), 3);
    assert_eq!(decoder.read::<u16>().unwrap(), 52);
    let pool = decoder.read::<ConstantPool>().unwrap();
    assert_eq!(pool.len(), 2);
    assert_eq!(decoder.read::<AccessFlags>().unwrap().bits(), 0x0021);
    let this = decoder.read::<Index<Class>>().unwrap();
    assert_eq!(pool.retrieve(this).unwrap().name.as_bytes(), b"Empty");
    assert_eq!(decoder.read::<u16>().unwrap(), 0);
    let mut interfaces = decoder.read::<DecodeCounted<Index<Class>, u16>>().unwrap();
    assert!(interfaces.next().is_none());
    let mut fields = decoder.read::<Fields>().unwrap();
    assert!(fields.next().is_none());
    // methods are laid out as fields are
    let mut counted = decoder.clone();
    assert_eq!(counted.read::<u16>().unwrap(), 0);
    let mut methods = decoder.read::<Fields>().unwrap();
    assert!(methods.next().is_none());
    let mut counted = decoder.clone();
    assert_eq!(counted.read::<u16>().unwrap(), 0);
    let mut attributes: Attributes = decoder.read().unwrap();
    assert!(attributes.next().is_none());
    assert_eq!(decoder.bytes_remaining(), 0);
}

#[test]
fn raw_attribute_puts_its_name_into_the_pool() {
    let mut class_writer = ClassWriter::new(Version { major: 52, minor: 0 });
    class_writer.write(0x11u8).unwrap();
    let writer: AttributeWriter<ClassWriter, Start> = WriteAssembler::new(class_writer).unwrap();
    let name = MStr::from_mutf8(b"Raw").unwrap();
    let writer = writer.raw_attribute(name, &[0xA1, 0xA2, 0xA3]).unwrap();
    let bytes = writer.finish().unwrap().into_bytes();
    let mut expected = vec![0xCA, 0xFE, 0xBA, 0xBE, 0, 0, 0, 52, 0, 2];
    expected.extend_from_slice(&[1, 0, 3, b'R', b'a', b'w']);
    expected.extend_from_slice(&[0x11, 0, 1, 0, 0, 0, 3, 0xA1, 0xA2, 0xA3]);
    assert_eq!(bytes, expected);
}

#[test]
fn raw_attribute_takes_a_name_that_is_in_the_pool() {
    let mut class_writer = ClassWriter::new(Version { major: 52, minor: 0 });
    let name = MStr::from_mutf8(b"Raw").unwrap();
    let index = name.insert(&mut class_writer).unwrap();
    assert_eq!(index.get(), 1);
    let writer: AttributeWriter<ClassWriter, Start> = WriteAssembler::new(class_writer).unwrap();
    let writer = writer.raw_attribute(index, &[]).unwrap();
    let class_writer = writer.finish().unwrap();
    let writer: AttributeWriter<ClassWriter, Start> = WriteAssembler::new(class_writer).unwrap();
    let writer = writer.raw_attribute(index, &[9]).unwrap();
    let bytes = writer.finish().unwrap().into_bytes();
    let mut expected = vec![0xCA, 0xFE, 0xBA, 0xBE, 0, 0, 0, 52, 0, 2];
    expected.extend_from_slice(&[1, 0, 3, b'R', b'a', b'w']);
    expected.extend_from_slice(&[0, 1, 0, 0, 0, 0]);
    expected.extend_from_slice(&[0, 1, 0, 0, 0, 1, 9]);
    assert_eq!(bytes, expected);
}

#[test]
fn raw_attribute_reads_back() {
    let class_writer = ClassWriter::new(Version { major: 52, minor: 0 });
    let mut attributes: CountedWriter<LengthPrefixedEncoder, u16> =
        CountedWriter::new(class_writer).unwrap();
    let class_writer = attributes.begin().unwrap();
    let writer: AttributeWriter<ClassWriter, Start> = WriteAssembler::new(class_writer).unwrap();
    let name = MStr::from_mutf8(b"Deprecated").unwrap();
    let class_writer = writer.raw_attribute(name, &[1, 2, 3, 4, 5]).unwrap().finish().unwrap();
    attributes.end(class_writer).unwrap();
    let bytes = attributes.finish().unwrap().into_bytes();

    let mut decoder = Decoder::new(&bytes, Context::Start);
    decoder.advance(8).unwrap();
    let pool = decoder.read::<ConstantPool>().unwrap();
    let mut attributes: Attributes = decoder.read().unwrap();
    assert_eq!(decoder.bytes_remaining(), 0);
    let attribute = attributes.next().unwrap().unwrap();
    assert_eq!(pool.retrieve(attribute.name()).unwrap().as_bytes(), b"Deprecated");
    assert_eq!(attribute.content(), &[1, 2, 3, 4, 5]);
    assert!(attributes.next().is_none());
}

#[test]
fn raw_attribute_refuses_a_name_that_is_too_long() {
    let class_writer = ClassWriter::new(Version { major: 52, minor: 0 });
    let writer: AttributeWriter<ClassWriter, Start> = WriteAssembler::new(class_writer).unwrap();
    let text = vec![b'x'; 0x1_0000];
    let name = MStr::from_mutf8(&text).unwrap();
    let err = writer.raw_attribute(name, &[1]).unwrap_err();
    assert_eq!(err.kind(), EncodeErrorKind::TooManyBytes);
    assert_eq!(err.context(), Context::ConstantPool(1));
}

#[test]
fn attribute_writer_counts_the_content() {
    let mut class_writer = ClassWriter::new(Version { major: 52, minor: 0 });
    class_writer.write(0x11u8).unwrap();
    let writer: AttributeWriter<ClassWriter, Start> = WriteAssembler::new(class_writer).unwrap();
    let name = MStr::from_mutf8(b"Code").unwrap();
    let mut encoder = writer.attribute_writer(name).unwrap();
    encoder.write(0x0102u16).unwrap().write(0x03u8).unwrap();
    let bytes = encoder.finish().unwrap().into_bytes();
    let mut expected = vec![0xCA, 0xFE, 0xBA, 0xBE, 0, 0, 0, 52, 0, 2];
    expected.extend_from_slice(&[1, 0, 4, b'C', b'o', b'd', b'e']);
    expected.extend_from_slice(&[0x11, 0, 1, 0, 0, 0, 3, 1, 2, 3]);
    assert_eq!(bytes, expected);
}

#[test]
fn class_writer_is_its_own_context() {
    let mut class_writer = ClassWriter::new(Version { major: 52, minor: 0 });
    class_writer.class_writer().write(0x42u8).unwrap();
    assert_eq!(class_writer.into_bytes()[10..], [0x42]);
}

#[test]
fn decoded_attribute_is_written_as_it_was_read() {
    let bytes = [0u8, 7, 0, 0, 0, 3, 0xA1, 0xA2, 0xA3];
    let attribute = Decoder::new(&bytes, Context::Attributes)
        .read::<noak::reader::attributes::Attribute>()
        .unwrap();
    let class_writer = ClassWriter::new(Version { major: 52, minor: 0 });
    let writer: AttributeWriter<ClassWriter, Start> = WriteAssembler::new(class_writer).unwrap();
    let writer = writer.raw_attribute(attribute.name(), attribute.content()).unwrap();
    let written = writer.finish().unwrap().into_bytes();
    assert_eq!(&written[10..], &bytes[..]);
}
