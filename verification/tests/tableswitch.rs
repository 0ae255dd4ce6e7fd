use noak::error::{Context, EncodeErrorKind};
use noak::header::Version;
use noak::writer::attributes::code::instructions::tableswitch::{
    write_table_switch, TableSwitchWriter,
};
use noak::writer::attributes::code::{CodeWriter, LabelRef};
use noak::writer::encoding::Offset;
use noak::writer::ClassWriter;

fn code() -> CodeWriter {
    CodeWriter::new(ClassWriter::new(Version { major: 52, minor: 0 }))
}

fn written(code_writer: CodeWriter) -> Vec<u8> {
    code_writer.finish().into_bytes()[10..].to_vec()
}

#[test]
fn switch_is_written_in_order() {
    let mut writer = TableSwitchWriter::new(code(), Offset::new(0)).unwrap();
    writer
        .write_default(LabelRef(0x0102_0304))
        .unwrap()
        .write_low(-1)
        .unwrap()
        .write_high(1)
        .unwrap()
        .write_jump(LabelRef(10))
        .unwrap()
        .write_jump(LabelRef(11))
        .unwrap()
        .write_jump(LabelRef(12))
        .unwrap();
    let bytes = written(writer.finish().unwrap());
    let mut expected = vec![0xAA, 0, 0, 0];
    expected.extend_from_slice(&[1, 2, 3, 4]);
    expected.extend_from_slice(&[0xFF, 0xFF, 0xFF, 0xFF]);
    expected.extend_from_slice(&[0, 0, 0, 1]);
    expected.extend_from_slice(&[0, 0, 0, 10, 0, 0, 0, 11, 0, 0, 0, 12]);
    assert_eq!(bytes, expected);
}

#[test]
fn padding_depends_on_where_the_opcode_stands() {
    for (offset, padding) in [(0usize, 3usize), (1, 2), (2, 1), (3, 0), (4, 3), (5, 2), (6, 1), (7, 0), (1023, 0)] {
        let writer = TableSwitchWriter::new(code(), Offset::new(offset)).unwrap();
        let err = writer.finish().unwrap_err();
        assert_eq!(err.kind(), EncodeErrorKind::ValuesMissing);
        let mut code_writer = code();
        for _ in 0..offset % 8 {
            code_writer.write(0u8).unwrap();
        }
        assert_eq!(code_writer.position().get(), offset % 8);
        let mut writer = TableSwitchWriter::new(code_writer, Offset::new(offset)).unwrap();
        writer.write_default(LabelRef(1)).unwrap().write_low(0).unwrap().write_high(0).unwrap();
        writer.write_jump(LabelRef(2)).unwrap();
        let bytes = written(writer.finish().unwrap());
        assert_eq!(bytes.len(), offset % 8 + 1 + padding + 16);
        assert_eq!(bytes[offset % 8], 0xAA);
        assert!(bytes[offset % 8 + 1..offset % 8 + 1 + padding].iter().all(|b| *b == 0));
        assert_eq!(&bytes[offset % 8 + 1 + padding..][..4], &[0, 0, 0, 1]);
    }
}

#[test]
fn high_below_low_is_refused() {
    let mut writer = TableSwitchWriter::new(code(), Offset::new(3)).unwrap();
    writer.write_default(LabelRef(7)).unwrap().write_low(10).unwrap();
    let err = writer.write_high(5).unwrap_err();
    assert_eq!(err.kind(), EncodeErrorKind::IncorrectBounds);
    assert_eq!(err.context(), Context::Code);
    assert_eq!(err.position(), None);
    // no jump label is taken, the writer still waits for a valid upper bound
    let err = writer.write_jump(LabelRef(1)).unwrap_err();
    assert_eq!(err.kind(), EncodeErrorKind::ValuesMissing);
    assert_eq!(err.context(), Context::Code);
    let err = writer.finish().unwrap_err();
    assert_eq!(err.kind(), EncodeErrorKind::ValuesMissing);
}

#[test]
fn one_jump_too_many_is_refused() {
    let mut writer = TableSwitchWriter::new(code(), Offset::new(3)).unwrap();
    writer.write_default(LabelRef(7)).unwrap().write_low(4).unwrap().write_high(6).unwrap();
    for label in 0..3 {
        writer.write_jump(LabelRef(label)).unwrap();
    }
    let err = writer.write_jump(LabelRef(3)).unwrap_err();
    assert_eq!(err.kind(), EncodeErrorKind::CantChangeAnymore);
    assert_eq!(err.context(), Context::Code);
    let bytes = written(writer.finish().unwrap());
    assert_eq!(bytes.len(), 1 + 12 + 12);
}

#[test]
fn steps_cannot_be_skipped_or_repeated() {
    let mut writer = TableSwitchWriter::new(code(), Offset::new(0)).unwrap();
    assert_eq!(writer.write_low(1).unwrap_err().kind(), EncodeErrorKind::ValuesMissing);
    assert_eq!(writer.write_high(1).unwrap_err().kind(), EncodeErrorKind::ValuesMissing);
    assert_eq!(writer.write_jump(LabelRef(1)).unwrap_err().kind(), EncodeErrorKind::ValuesMissing);
    writer.write_default(LabelRef(1)).unwrap();
    assert_eq!(
        writer.write_default(LabelRef(1)).unwrap_err().kind(),
        EncodeErrorKind::CantChangeAnymore
    );
    assert_eq!(writer.write_high(1).unwrap_err().kind(), EncodeErrorKind::ValuesMissing);
    writer.write_low(1).unwrap();
    assert_eq!(writer.write_low(1).unwrap_err().kind(), EncodeErrorKind::CantChangeAnymore);
    assert_eq!(writer.write_jump(LabelRef(1)).unwrap_err().kind(), EncodeErrorKind::ValuesMissing);
    writer.write_high(2).unwrap();
    assert_eq!(writer.write_high(2).unwrap_err().kind(), EncodeErrorKind::CantChangeAnymore);
    assert_eq!(writer.write_low(1).unwrap_err().kind(), EncodeErrorKind::CantChangeAnymore);
    writer.write_jump(LabelRef(1)).unwrap();
    writer.write_jump(LabelRef(2)).unwrap();
    assert_eq!(
        writer.write_default(LabelRef(1)).unwrap_err().kind(),
        EncodeErrorKind::CantChangeAnymore
    );
    // nothing was written by the refused calls
    let bytes = written(writer.finish().unwrap());
    assert_eq!(bytes.len(), 4 + 12 + 8);
}

#[test]
fn finish_needs_every_jump() {
    let mut writer = TableSwitchWriter::new(code(), Offset::new(0)).unwrap();
    writer.write_default(LabelRef(1)).unwrap().write_low(0).unwrap().write_high(1).unwrap();
    writer.write_jump(LabelRef(1)).unwrap();
    let err = writer.finish().unwrap_err();
    assert_eq!(err.kind(), EncodeErrorKind::ValuesMissing);
    assert_eq!(err.context(), Context::Code);
}

#[test]
fn widest_range_is_counted_without_overflow() {
    let mut writer = TableSwitchWriter::new(code(), Offset::new(3)).unwrap();
    writer
        .write_default(LabelRef(0))
        .unwrap()
        .write_low(i32::MIN)
        .unwrap()
        .write_high(i32::MAX)
        .unwrap();
    for label in 0..1000 {
        writer.write_jump(LabelRef(label)).unwrap();
    }
    assert_eq!(writer.finish().unwrap_err().kind(), EncodeErrorKind::ValuesMissing);
}

#[test]
fn code_writer_hands_the_class_writer_back() {
    let mut class_writer = ClassWriter::new(Version { major: 52, minor: 0 });
    class_writer.write(0x99u8).unwrap();
    let mut code_writer = CodeWriter::new(class_writer);
    assert_eq!(code_writer.position().get(), 0);
    code_writer.write(0x0102u16).unwrap();
    assert_eq!(code_writer.position().get(), 2);
    let bytes = code_writer.finish().into_bytes();
    assert_eq!(&bytes[10..], &[0x99, 1, 2]);
}

#[test]
fn whole_switch_is_written_at_once() {
    let mut code_writer = code();
    code_writer.write(0x00u8).unwrap().write(0x00u8).unwrap();
    let jumps = [LabelRef(20), LabelRef(21)];
    let code_writer = write_table_switch(code_writer, LabelRef(9), -1, 0, &jumps).unwrap();
    let mut expected = vec![0, 0, 0xAA, 0];
    expected.extend_from_slice(&[0, 0, 0, 9]);
    expected.extend_from_slice(&[0xFF, 0xFF, 0xFF, 0xFF]);
    expected.extend_from_slice(&[0, 0, 0, 0]);
    expected.extend_from_slice(&[0, 0, 0, 20, 0, 0, 0, 21]);
    assert_eq!(written(code_writer), expected);
}

#[test]
fn whole_switch_needs_one_jump_for_every_key() {
    let jumps = [LabelRef(20), LabelRef(21), LabelRef(22)];
    let err = write_table_switch(code(), LabelRef(9), 10, 5, &jumps).unwrap_err();
    assert_eq!(err.kind(), EncodeErrorKind::IncorrectBounds);
    assert_eq!(err.context(), Context::Code);
    let err = write_table_switch(code(), LabelRef(9), 1, 2, &jumps).unwrap_err();
    assert_eq!(err.kind(), EncodeErrorKind::CantChangeAnymore);
    assert_eq!(err.context(), Context::Code);
    let err = write_table_switch(code(), LabelRef(9), 1, 4, &jumps).unwrap_err();
    assert_eq!(err.kind(), EncodeErrorKind::ValuesMissing);
    assert_eq!(err.context(), Context::Code);
    let err = write_table_switch(code(), LabelRef(9), 1, 4, &[]).unwrap_err();
    assert_eq!(err.kind(), EncodeErrorKind::ValuesMissing);
    let bytes = written(write_table_switch(code(), LabelRef(9), 1, 3, &jumps).unwrap());
    assert_eq!(bytes.len(), 4 + 12 + 12);
    let bytes = written(write_table_switch(code(), LabelRef(9), 7, 7, &jumps[..1]).unwrap());
    assert_eq!(bytes.len(), 4 + 12 + 4);
}
