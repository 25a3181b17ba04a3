use quic::primitives::uf16::{FpCategory, MAX_INTEGER};
use quic::primitives::{AbsDelta, ByteOrderPrimitives, PosOverflow, U24, U48, UF16};
use quic::protocol::{FlowControl, Role, StreamId, StreamType};

#[test]
fn max_is_correct_value() {
    assert_eq!(UF16::max_value().integer_value() as f32, 4396972769280f32);
}

fn approx(input: u64) -> u16 {
    UF16::approx_from_u64(input).to_binary()
}

#[test]
fn approx_from_keeps_small_numbers() {
    for value in [0u64, 1, 2, 3, 4, 5, 6, 7, 15, 31, 42, 123, 1234, 2046, 2047, 2048, 2049] {
        assert_eq!(approx(value), value as u16);
    }
}

#[test]
fn approx_from_runs_out_of_mantissa() {
    assert_eq!(approx(4094), 4094);
    assert_eq!(approx(4095), 4095);
    assert_eq!(approx(4096), 4096);
    assert_eq!(approx(4097), 4096);
    assert_eq!(approx(4098), 4097);
    assert_eq!(approx(4099), 4097);
    assert_eq!(approx(4100), 4098);
    assert_eq!(approx(4101), 4098);
}

#[test]
fn approx_from_crosses_the_second_transition() {
    assert_eq!(approx(8190), 6143);
    assert_eq!(approx(8191), 6143);
    assert_eq!(approx(8192), 6144);
    assert_eq!(approx(8193), 6144);
    assert_eq!(approx(8194), 6144);
    assert_eq!(approx(8195), 6144);
    assert_eq!(approx(8196), 6145);
    assert_eq!(approx(8197), 6145);
}

#[test]
fn approx_from_halfway_exponents() {
    assert_eq!(approx(0x7FF8000), 0x87FF);
    assert_eq!(approx(0x7FFFFFF), 0x87FF);
    assert_eq!(approx(0x8000000), 0x8800);
    assert_eq!(approx(0xFFF0000), 0x8FFF);
    assert_eq!(approx(0xFFFFFFF), 0x8FFF);
    assert_eq!(approx(0x10000000), 0x9000);
}

#[test]
fn approx_from_largest_exponent() {
    assert_eq!(approx(0x1FFFFFFFFFE), 0xF7FF);
    assert_eq!(approx(0x1FFFFFFFFFF), 0xF7FF);
    assert_eq!(approx(0x20000000000), 0xF800);
    assert_eq!(approx(0x20000000001), 0xF800);
    assert_eq!(approx(0x2003FFFFFFE), 0xF800);
    assert_eq!(approx(0x2003FFFFFFF), 0xF800);
    assert_eq!(approx(0x20040000000), 0xF801);
    assert_eq!(approx(0x20040000001), 0xF801);
}

#[test]
fn approx_from_saturates_at_the_maximum() {
    assert_eq!(approx(0x3FF80000000), 0xFFFE);
    assert_eq!(approx(0x3FFBFFFFFFF), 0xFFFE);
    assert_eq!(approx(0x3FFC0000000), 0xFFFF);
    assert_eq!(approx(0x3FFC0000001), 0xFFFF);
    assert_eq!(approx(0x3FFFFFFFFFF), 0xFFFF);
    assert_eq!(approx(0x40000000000), 0xFFFF);
    assert_eq!(approx(0xFFFFFFFFFFFFFFFF), 0xFFFF);
}

#[test]
fn uf16_integer_values() {
    assert_eq!(UF16::from_binary(0x0800).integer_value(), 2048);
    assert_eq!(UF16::from_binary(0x1000).integer_value(), 4096);
    assert_eq!(UF16::from_binary(0x1001).integer_value(), 4098);
    assert_eq!(UF16::max_value().integer_value(), MAX_INTEGER);
    assert_eq!(UF16::from_u8(200).integer_value(), 200);
    assert_eq!(UF16::zero().integer_value(), 0);
    assert_eq!(UF16::one().integer_value(), 1);
}

#[test]
fn uf16_is_zero_or_normal() {
    assert_eq!(UF16::zero().classify(), FpCategory::Zero);
    assert_eq!(UF16::one().classify(), FpCategory::Normal);
    assert!(UF16::one().is_normal());
    assert!(!UF16::zero().is_normal());
    assert!(UF16::max_value().is_finite());
    assert!(!UF16::max_value().is_nan());
    assert!(!UF16::max_value().is_infinite());
    assert!(!UF16::one().is_subnormal());
}

#[test]
fn uf16_orders_by_value() {
    let small = UF16::from_binary(0x07ff);
    let large = UF16::from_binary(0x0800);
    assert_eq!(small.partial_cmp(&large), Some(std::cmp::Ordering::Less));
    assert_eq!(large.partial_cmp(&small), Some(std::cmp::Ordering::Greater));
    assert_eq!(large.partial_cmp(&large), Some(std::cmp::Ordering::Equal));
}

#[test]
fn uf16_is_read_and_written_in_either_byte_order() {
    let value = UF16::from_binary(0x1234);
    assert_eq!(ByteOrderPrimitives::BigEndian.write_uf16(value), vec![0x12, 0x34]);
    assert_eq!(ByteOrderPrimitives::LittleEndian.write_uf16(value), vec![0x34, 0x12]);
    assert_eq!(ByteOrderPrimitives::BigEndian.read_uf16(&[0x12, 0x34]).to_binary(), 0x1234);
    assert_eq!(ByteOrderPrimitives::LittleEndian.read_uf16(&[0x12, 0x34]).to_binary(), 0x3412);
}

#[test]
fn u24_and_u48_are_read_and_written() {
    let u24 = U24::try_from_u32(0x123456).unwrap();
    assert_eq!(ByteOrderPrimitives::BigEndian.write_u24(u24), vec![0x12, 0x34, 0x56]);
    assert_eq!(ByteOrderPrimitives::LittleEndian.write_u24(u24), vec![0x56, 0x34, 0x12]);
    assert_eq!(ByteOrderPrimitives::BigEndian.read_u24(&[0x12, 0x34, 0x56, 0xff]).into_u32(), 0x123456);
    let u48 = U48::try_from_u64(0x123456789abc).unwrap();
    assert_eq!(
        ByteOrderPrimitives::BigEndian.write_u48(u48),
        vec![0x12, 0x34, 0x56, 0x78, 0x9a, 0xbc]
    );
    assert_eq!(
        ByteOrderPrimitives::LittleEndian.read_u48(&[0xbc, 0x9a, 0x78, 0x56, 0x34, 0x12]).into_u64(),
        0x123456789abc
    );
}

#[test]
fn u24_conversions() {
    assert_eq!(U24::max_value().into_u32(), 0xffffff);
    assert_eq!(U24::min_value().into_u32(), 0);
    assert_eq!(U24::try_from_u32(0x1000000), Err(PosOverflow(0x1000000)));
    assert_eq!(U24::try_from_u64(0xffffff).unwrap().into_u64(), 0xffffff);
    assert_eq!(U24::approx_from_u32(0x1000000).into_u32(), 0xffffff);
    assert_eq!(U24::approx_from_u64(7).into_u64(), 7);
    assert_eq!(U24::from_u16(0xffff).try_into_u8(), Err(PosOverflow(U24::from_u16(0xffff))));
    assert_eq!(U24::from_u8(12).try_into_u8(), Ok(12));
    assert_eq!(U24::from_u16(0xffff).try_into_u16(), Ok(0xffff));
    assert_eq!(U24::from_u16(9).sub(U24::from_u8(4)).into_u32(), 5);
    assert!(U24::from_u8(2).gt(U24::from_u8(1)));
}

#[test]
fn u48_conversions() {
    assert_eq!(U48::max_value().into_u64(), 0xffff_ffff_ffff);
    assert_eq!(U48::try_from_u64(0x1_0000_0000_0000), Err(PosOverflow(0x1_0000_0000_0000)));
    assert_eq!(U48::approx_from_u64(u64::MAX).into_u64(), 0xffff_ffff_ffff);
    assert_eq!(U48::from_u32(u32::MAX).try_into_u32(), Ok(u32::MAX));
    assert!(U48::from_u32(0x1_0000).try_into_u16().is_err());
    assert_eq!(U48::from_u16(300).sub(U48::from_u8(44)).into_u64(), 256);
}

#[test]
fn abs_delta_is_the_distance() {
    assert_eq!(3u64.abs_delta(10), 7);
    assert_eq!(10u32.abs_delta(3), 7);
    assert_eq!(5u16.abs_delta(5), 0);
    assert_eq!(U24::from_u8(3).abs_delta(U24::from_u8(10)).into_u32(), 7);
    assert_eq!(U48::from_u8(10).abs_delta(U48::from_u8(3)).into_u64(), 7);
}

#[test]
fn flow_control_takes_what_both_have_left() {
    let mut connection = FlowControl::with_initial_max(100);
    let mut stream = FlowControl::with_initial_max(30);
    assert_eq!(FlowControl::take(&mut connection, &mut stream, 50), 30);
    assert_eq!(connection.used(), 30);
    assert_eq!(stream.remaining(), 0);
    assert_eq!(FlowControl::take(&mut connection, &mut stream, 5), 0);
    assert!(stream.advance_max(40));
    assert!(!stream.advance_max(35));
    assert_eq!(stream.max(), 40);
    assert_eq!(FlowControl::take(&mut connection, &mut stream, 5), 5);
    assert_eq!(connection.remaining(), 65);
    assert_eq!(FlowControl::new().max(), 0);
}

#[test]
fn stream_ids_carry_their_initiator_and_type() {
    let id = StreamId::from_random(0x100, Role::Client, StreamType::Unidirectional);
    assert_eq!(id.into_inner(), 0x103);
    assert!(id.is_unidirectional());
    assert!(!StreamId::from_u64(0x100).is_unidirectional());
    assert!(StreamId::from_u64(4).is_client_initiated());
    assert!(StreamId::from_u64(5).is_server_initiated());
    assert_eq!(StreamId::first_client_stream_id().next().into_inner(), 3);
    assert!(StreamId::crypto_stream_id().is_crypto_stream());
    assert_eq!(StreamId::first_server_stream_id().into_inner(), 2);
    let generated = StreamId::generate(Role::Server, StreamType::Bidirectional);
    assert!(generated.is_bidirectional() || generated.into_inner() & 2 != 0);
}

#[test]
fn approximating_the_value_of_a_uf16_gives_it_back() {
    for binary in 0..=u16::MAX {
        let value = UF16::from_binary(binary).integer_value();
        assert_eq!(UF16::approx_from_u64(value).to_binary(), binary);
    }
}

#[test]
fn uf16_values_come_in_the_order_of_their_binary_forms() {
    for (a, b) in [(0u16, 1u16), (0x07ff, 0x0800), (0x0fff, 0x1000), (0xf7ff, 0xf800), (0xfffe, 0xffff)] {
        let (x, y) = (UF16::from_binary(a), UF16::from_binary(b));
        assert!(x.integer_value() < y.integer_value());
        assert_eq!(x.partial_cmp(&y), Some(a.cmp(&b)));
        assert_eq!(y.partial_cmp(&x), Some(b.cmp(&a)));
    }
}

#[test]
fn approximation_is_the_largest_uf16_not_above_the_integer() {
    for value in [0u64, 4095, 4096, 4097, 8191, 123456789, 0x3FFBFFFFFFF, 0x3FFC0000000, u64::MAX] {
        let approx = UF16::approx_from_u64(value);
        assert!(approx.integer_value() <= value);
        if approx.to_binary() < u16::MAX {
            assert!(UF16::from_binary(approx.to_binary() + 1).integer_value() > value);
        }
    }
}
