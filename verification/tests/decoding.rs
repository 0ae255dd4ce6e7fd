use noak::error::{Context, DecodeError, DecodeErrorKind};
use noak::reader::decoding::{
    CountState, Countdown, Decode, DecodeCounted, DecodeCountedCopy, DecodeInto, Decoder,
    LazyDecodeRef,
};

#[test]
fn primitive_read_past_the_end_reports_position_and_context() {
    let input = [0x01u8, 0x02, 0x03];
    let mut decoder = Decoder::new(&input, Context::Start);
    assert_eq!(decoder.read::<u16>().unwrap(), 0x0102);
    let err = decoder.read::<u16>().unwrap_err();
    assert_eq!(err.kind(), DecodeErrorKind::UnexpectedEoi);
    assert_eq!(err.position(), Some(2));
    assert_eq!(err.context(), Context::Start);
    assert_eq!(decoder.file_position(), 2);
    assert_eq!(decoder.bytes_remaining(), 1);
}

#[test]
fn failing_read_on_a_clone_leaves_the_cloned_cursor_alone() {
    let input = [0xAAu8, 0xBB, 0xCC];
    let mut cursor = Decoder::new(&input, Context::ConstantPool(4));
    cursor.advance(1).unwrap();
    let mut clone = cursor.clone();
    let err = clone.read::<u32>().unwrap_err();
    assert_eq!(err.kind(), DecodeErrorKind::UnexpectedEoi);
    assert_eq!(err.position(), Some(1));
    assert_eq!(err.context(), Context::ConstantPool(4));
    assert_eq!(cursor.file_position(), 1);
    assert_eq!(cursor.bytes_remaining(), 2);
    assert_eq!(cursor.buf(), &[0xBB, 0xCC]);
    assert_eq!(clone.file_position(), 1);
    assert_eq!(clone.bytes_remaining(), 2);
}

#[test]
fn every_unsigned_width_is_read_big_endian() {
    let input: Vec<u8> = (1u8..=31).collect();
    let mut decoder = Decoder::new(&input, Context::Nowhere);
    assert_eq!(decoder.read::<u8>().unwrap(), 0x01);
    assert_eq!(decoder.read::<u16>().unwrap(), 0x0203);
    assert_eq!(decoder.read::<u32>().unwrap(), 0x0405_0607);
    assert_eq!(decoder.read::<u64>().unwrap(), 0x0809_0A0B_0C0D_0E0F);
    assert_eq!(
        decoder.read::<u128>().unwrap(),
        0x1011_1213_1415_1617_1819_1A1B_1C1D_1E1F
    );
    assert_eq!(decoder.file_position(), 31);
    assert_eq!(decoder.bytes_remaining(), 0);
}

#[test]
fn every_signed_width_is_read_in_twos_complement() {
    let mut input = Vec::new();
    input.extend_from_slice(&(-1i8).to_be_bytes());
    input.extend_from_slice(&(-2i16).to_be_bytes());
    input.extend_from_slice(&i32::MIN.to_be_bytes());
    input.extend_from_slice(&(-0x0102_0304_0506_0708i64).to_be_bytes());
    input.extend_from_slice(&i128::MIN.to_be_bytes());
    input.extend_from_slice(&0x7Fi8.to_be_bytes());
    input.extend_from_slice(&i64::MAX.to_be_bytes());
    input.extend_from_slice(&(-1i128).to_be_bytes());
    input.extend_from_slice(&i128::MAX.to_be_bytes());
    let mut decoder = Decoder::new(&input, Context::Nowhere);
    assert_eq!(decoder.read::<i8>().unwrap(), -1);
    assert_eq!(decoder.read::<i16>().unwrap(), -2);
    assert_eq!(decoder.read::<i32>().unwrap(), i32::MIN);
    assert_eq!(decoder.read::<i64>().unwrap(), -0x0102_0304_0506_0708);
    assert_eq!(decoder.read::<i128>().unwrap(), i128::MIN);
    assert_eq!(decoder.read::<i8>().unwrap(), 0x7F);
    assert_eq!(decoder.read::<i64>().unwrap(), i64::MAX);
    assert_eq!(decoder.read::<i128>().unwrap(), -1);
    assert_eq!(decoder.read::<i128>().unwrap(), i128::MAX);
    assert_eq!(decoder.bytes_remaining(), 0);
}

#[test]
fn every_primitive_fails_on_too_little_input() {
    let input = [0u8; 15];
    fn check<'a, T: Decode<'a> + std::fmt::Debug>(input: &'a [u8], width: usize) {
        let mut decoder = Decoder::new(&input[..width - 1], Context::Start);
        let err = decoder.read::<T>().unwrap_err();
        assert_eq!(err.kind(), DecodeErrorKind::UnexpectedEoi);
        assert_eq!(err.position(), Some(0));
        assert_eq!(decoder.file_position(), 0);
        assert_eq!(decoder.bytes_remaining(), width - 1);
    }
    check::<u8>(&input, 1);
    check::<i8>(&input, 1);
    check::<u16>(&input, 2);
    check::<i16>(&input, 2);
    check::<u32>(&input, 4);
    check::<i32>(&input, 4);
    check::<u64>(&input, 8);
    check::<i64>(&input, 8);
    check::<u128>(&input, 16);
    check::<i128>(&input, 16);
}

#[test]
fn advance_consumes_from_the_front() {
    let input = [1u8, 2, 3, 4, 5];
    let mut decoder = Decoder::new(&input, Context::Start);
    decoder.advance(2).unwrap();
    assert_eq!(decoder.file_position(), 2);
    assert_eq!(decoder.buf(), &[3, 4, 5]);
    decoder.advance(0).unwrap();
    assert_eq!(decoder.file_position(), 2);
    decoder.advance(3).unwrap();
    assert_eq!(decoder.file_position(), 5);
    assert_eq!(decoder.bytes_remaining(), 0);
    let err = decoder.advance(1).unwrap_err();
    assert_eq!(err.kind(), DecodeErrorKind::UnexpectedEoi);
    assert_eq!(err.position(), Some(5));
    assert_eq!(decoder.file_position(), 5);
}

#[test]
fn read_bytes_fills_the_buffer_or_leaves_it_alone() {
    let input = [1u8, 2, 3, 4, 5];
    let mut decoder = Decoder::new(&input, Context::Start);
    let mut three = [0u8; 3];
    decoder.read_bytes(&mut three).unwrap();
    assert_eq!(three, [1, 2, 3]);
    assert_eq!(decoder.file_position(), 3);
    let mut too_many = [9u8; 3];
    let err = decoder.read_bytes(&mut too_many).unwrap_err();
    assert_eq!(err.kind(), DecodeErrorKind::UnexpectedEoi);
    assert_eq!(err.position(), Some(3));
    assert_eq!(too_many, [9, 9, 9]);
    assert_eq!(decoder.bytes_remaining(), 2);
    let mut none: [u8; 0] = [];
    decoder.read_bytes(&mut none).unwrap();
    assert_eq!(decoder.bytes_remaining(), 2);
}

#[test]
fn split_bytes_off_hands_out_the_front() {
    let input = [1u8, 2, 3, 4, 5];
    let mut decoder = Decoder::new(&input, Context::Start);
    let front = decoder.split_bytes_off(4).unwrap();
    assert_eq!(front, &[1, 2, 3, 4]);
    assert_eq!(decoder.file_position(), 4);
    assert_eq!(decoder.buf(), &[5]);
    let err = decoder.split_bytes_off(2).unwrap_err();
    assert_eq!(err.kind(), DecodeErrorKind::UnexpectedEoi);
    assert_eq!(err.position(), Some(4));
    assert_eq!(decoder.buf(), &[5]);
}

#[test]
fn limit_borrows_a_prefix_with_its_own_context() {
    let input = [1u8, 2, 3, 4, 5];
    let mut decoder = Decoder::new(&input, Context::Start);
    decoder.advance(1).unwrap();
    let mut limited = decoder.limit(2, Context::AttributeContent).unwrap();
    assert_eq!(limited.file_position(), 1);
    assert_eq!(limited.bytes_remaining(), 2);
    assert_eq!(limited.context(), Context::AttributeContent);
    assert_eq!(limited.read::<u16>().unwrap(), 0x0203);
    let err = limited.read::<u8>().unwrap_err();
    assert_eq!(err.kind(), DecodeErrorKind::UnexpectedEoi);
    assert_eq!(err.position(), Some(3));
    assert_eq!(err.context(), Context::AttributeContent);
    // the decoder that was limited has not moved
    assert_eq!(decoder.file_position(), 1);
    assert_eq!(decoder.bytes_remaining(), 4);
    let err = decoder.limit(5, Context::Code).unwrap_err();
    assert_eq!(err.kind(), DecodeErrorKind::UnexpectedEoi);
    assert_eq!(err.position(), Some(1));
    assert_eq!(err.context(), Context::Start);
    assert_eq!(decoder.limit(4, Context::Code).unwrap().bytes_remaining(), 4);
}

#[test]
fn contexts_can_be_set_and_replaced() {
    let input = [1u8, 2];
    let mut decoder = Decoder::new(&input, Context::Start);
    assert_eq!(decoder.context(), Context::Start);
    decoder.set_context(Context::Fields);
    assert_eq!(decoder.context(), Context::Fields);
    let other = decoder.with_context(Context::Code);
    assert_eq!(other.context(), Context::Code);
    assert_eq!(other.file_position(), 0);
    assert_eq!(other.bytes_remaining(), 2);
    assert_eq!(decoder.context(), Context::Fields);
}

#[test]
fn lazy_value_is_decoded_once() {
    let first = [0x12u8, 0x34, 0x56];
    let second = [0xFFu8, 0xFF];
    let mut lazy: LazyDecodeRef<u16> = LazyDecodeRef::NotRead;
    let mut decoder = Decoder::new(&first, Context::Start);
    assert_eq!(*lazy.get(&mut decoder).unwrap(), 0x1234);
    assert_eq!(decoder.file_position(), 2);
    // a kept value is replayed and the decoder is not read from
    assert_eq!(*lazy.get(&mut decoder).unwrap(), 0x1234);
    assert_eq!(decoder.file_position(), 2);
    let mut other = Decoder::new(&second, Context::Start);
    assert_eq!(*lazy.get(&mut other).unwrap(), 0x1234);
    assert_eq!(other.file_position(), 0);
    assert!(matches!(lazy, LazyDecodeRef::Read(0x1234)));
}

#[test]
fn lazy_failure_is_kept_and_replayed() {
    let short = [0x12u8];
    let long = [0x12u8, 0x34];
    let mut lazy: LazyDecodeRef<u16> = LazyDecodeRef::NotRead;
    let mut decoder = Decoder::new(&short, Context::Code);
    let err = lazy.get(&mut decoder).unwrap_err();
    assert_eq!(err.kind(), DecodeErrorKind::UnexpectedEoi);
    assert_eq!(err.position(), Some(0));
    assert_eq!(err.context(), Context::Code);
    // the failure is replayed even where the value could be decoded now
    let mut other = Decoder::new(&long, Context::Start);
    let again = lazy.get(&mut other).unwrap_err();
    assert_eq!(again.kind(), DecodeErrorKind::UnexpectedEoi);
    assert_eq!(again.position(), Some(0));
    assert_eq!(again.context(), Context::Code);
    assert_eq!(other.file_position(), 0);
    assert!(matches!(lazy, LazyDecodeRef::Error(_)));
}

#[test]
fn countdown_stops_at_zero() {
    let mut count: u8 = 2;
    assert!(count.decrement() == CountState::Continue);
    assert_eq!(count, 1);
    assert!(count.decrement() == CountState::Continue);
    assert_eq!(count, 0);
    assert!(count.decrement() == CountState::Break);
    assert_eq!(count, 0);
    let mut wide: u16 = 300;
    assert!(wide.decrement() == CountState::Continue);
    assert_eq!(wide, 299);
    let mut none: u16 = 0;
    assert!(none.decrement() == CountState::Break);
}

#[test]
fn counted_sequence_yields_count_items_then_ends() {
    let input = [0x00u8, 0x01, 0x00, 0x02, 0x00, 0x03, 0xFF];
    let decoder = Decoder::new(&input, Context::Start);
    let mut items: DecodeCounted<u16, u8> = DecodeCounted::new(decoder, 3);
    assert_eq!(items.next().unwrap().unwrap(), 1);
    assert_eq!(items.next().unwrap().unwrap(), 2);
    assert_eq!(items.next().unwrap().unwrap(), 3);
    assert!(items.next().is_none());
    assert!(items.next().is_none());
}

#[test]
fn counted_sequence_ends_at_the_first_failure() {
    let input = [0x00u8, 0x01, 0x00];
    let decoder = Decoder::new(&input, Context::Fields);
    let mut items: DecodeCounted<u16, u16> = DecodeCounted::new(decoder, 5);
    assert_eq!(items.next().unwrap().unwrap(), 1);
    let err = items.next().unwrap().unwrap_err();
    assert_eq!(err.kind(), DecodeErrorKind::UnexpectedEoi);
    assert_eq!(err.position(), Some(2));
    assert_eq!(err.context(), Context::Fields);
    assert!(items.next().is_none());
    assert!(items.next().is_none());
}

#[test]
fn counted_sequence_of_zero_items_is_empty() {
    let input = [0x00u8, 0x01];
    let decoder = Decoder::new(&input, Context::Start);
    let mut items: DecodeCounted<u16, u16> = DecodeCounted::new(decoder, 0);
    assert!(items.next().is_none());
}

#[test]
fn decoding_a_counted_sequence_skips_past_it() {
    let input = [0x02u8, 0x00, 0x0A, 0x00, 0x0B, 0x77];
    let mut decoder = Decoder::new(&input, Context::Start);
    let mut items = decoder.read::<DecodeCounted<u16, u8>>().unwrap();
    assert_eq!(decoder.file_position(), 5);
    assert_eq!(decoder.read::<u8>().unwrap(), 0x77);
    assert_eq!(items.next().unwrap().unwrap(), 0x0A);
    assert_eq!(items.next().unwrap().unwrap(), 0x0B);
    assert!(items.next().is_none());
}

#[test]
fn decoding_a_counted_sequence_fails_if_an_item_is_missing() {
    let input = [0x00u8, 0x03, 0x00, 0x0A, 0x00, 0x0B];
    let mut decoder = Decoder::new(&input, Context::Attributes);
    let result: Result<DecodeCounted<u16, u16>, DecodeError> = decoder.read();
    let err = match result {
        Ok(_) => panic!("three items were asked for and two are there"),
        Err(err) => err,
    };
    assert_eq!(err.kind(), DecodeErrorKind::UnexpectedEoi);
    assert_eq!(err.position(), Some(6));
    assert_eq!(err.context(), Context::Attributes);
    // nothing was consumed, not even the count
    assert_eq!(decoder.file_position(), 0);
    let empty: [u8; 0] = [];
    let mut decoder = Decoder::new(&empty, Context::Attributes);
    let result: Result<DecodeCounted<u16, u16>, DecodeError> = decoder.read();
    assert_eq!(result.err().unwrap().position(), Some(0));
}

#[test]
fn decode_into_reads_the_count_only() {
    let input = [0x00u8, 0x02, 0x00, 0x0A];
    let decoder = Decoder::new(&input, Context::Start);
    let mut items: DecodeCounted<u16, u16> = decoder.read_into().unwrap();
    assert_eq!(items.next().unwrap().unwrap(), 0x0A);
    let err = items.next().unwrap().unwrap_err();
    assert_eq!(err.kind(), DecodeErrorKind::UnexpectedEoi);
    assert_eq!(err.position(), Some(4));
    assert!(items.next().is_none());
    let short = [0x00u8];
    let decoder = Decoder::new(&short, Context::Start);
    let result: Result<DecodeCounted<u16, u16>, DecodeError> =
        <DecodeCounted<u16, u16> as DecodeInto>::decode_into(decoder);
    assert_eq!(result.err().unwrap().kind(), DecodeErrorKind::UnexpectedEoi);
}

#[test]
fn counted_copy_can_be_walked_again_and_again() {
    let input = [0x02u8, 0x01, 0x02, 0x03];
    let mut decoder = Decoder::new(&input, Context::Start);
    let copy = decoder.read::<DecodeCountedCopy<u8, u8>>().unwrap();
    assert_eq!(decoder.file_position(), 3);
    let mut first = copy.iter();
    assert_eq!(first.next().unwrap().unwrap(), 1);
    let mut second = copy.iter();
    assert_eq!(second.next().unwrap().unwrap(), 1);
    assert_eq!(second.next().unwrap().unwrap(), 2);
    assert!(second.next().is_none());
    assert_eq!(first.next().unwrap().unwrap(), 2);
    assert!(first.next().is_none());
    let cloned = copy.clone();
    let mut third = cloned.iter();
    assert_eq!(third.next().unwrap().unwrap(), 1);
    let decoder = Decoder::new(&input, Context::Start);
    let into: DecodeCountedCopy<u8, u8> = decoder.read_into().unwrap();
    let mut fourth = into.iter();
    assert_eq!(fourth.next().unwrap().unwrap(), 1);
    assert_eq!(fourth.next().unwrap().unwrap(), 2);
    assert!(fourth.next().is_none());
}

#[test]
fn lazy_value_can_be_cloned() {
    let input = [0x12u8, 0x34];
    let mut lazy: LazyDecodeRef<u16> = LazyDecodeRef::NotRead;
    assert!(matches!(lazy.clone(), LazyDecodeRef::NotRead));
    let mut decoder = Decoder::new(&input, Context::Start);
    lazy.get(&mut decoder).unwrap();
    let mut copy = lazy.clone();
    assert_eq!(*copy.get(&mut decoder).unwrap(), 0x1234);
    assert_eq!(decoder.file_position(), 2);
    let mut failed: LazyDecodeRef<u32> = LazyDecodeRef::NotRead;
    assert!(failed.get(&mut decoder).is_err());
    let mut copy = failed.clone();
    let err = copy.get(&mut Decoder::new(&[0, 0, 0, 0], Context::Start)).unwrap_err();
    assert_eq!(err.kind(), DecodeErrorKind::UnexpectedEoi);
    assert_eq!(err.position(), Some(2));
}
