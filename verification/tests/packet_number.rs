use quic::errors::Error;
use quic::packets::packet_number::{PacketNumber, PartialPacketNumber, PartialPacketNumberLength};
use quic::protocol::readable::Readable;
use quic::protocol::writable::Writable;

fn packet_number(value: u64) -> PacketNumber {
    PacketNumber::try_from(value).unwrap()
}

#[test]
fn partial_packet_number_length_one_byte_threshold() {
    assert_eq!(PartialPacketNumberLength::OneByte.threshold(), 0x7f);
}

#[test]
fn partial_packet_number_length_two_bytes_threshold() {
    assert_eq!(PartialPacketNumberLength::TwoBytes.threshold(), 0x3fff);
}

#[test]
fn partial_packet_number_length_four_bytes_threshold() {
    assert_eq!(PartialPacketNumberLength::FourBytes.threshold(), 0x3fffffff);
}

#[test]
fn partial_packet_number_from_small_packet_number_gets_inferred_correctly() {
    let lowest_unacknowledged = packet_number(1);
    for i in 1..10000 {
        let packet_number = packet_number(i);
        let partial_packet_number =
            PartialPacketNumber::from_packet_number(packet_number, lowest_unacknowledged).unwrap();

        let inferred_packet_number = partial_packet_number
            .infer_packet_number(Some(lowest_unacknowledged))
            .unwrap();

        assert_eq!(packet_number, inferred_packet_number);
    }
}

#[test]
fn partial_packet_number_from_small_packet_number_with_increasing_acknowledged_gets_inferred_correctly() {
    for i in 1..10000 {
        let packet_number = packet_number(i);
        let lowest_unacknowledged = PacketNumber::try_from(i / 2).unwrap();
        let partial_packet_number =
            PartialPacketNumber::from_packet_number(packet_number, lowest_unacknowledged).unwrap();

        let inferred_packet_number = partial_packet_number
            .infer_packet_number(Some(lowest_unacknowledged))
            .unwrap();

        assert_eq!(packet_number, inferred_packet_number);
    }
}

#[test]
fn partial_packet_number_from_packet_number_calculates_correctly_1() {
    let lowest_unacknowledged = packet_number(0x6afa2f);
    let packet_number = packet_number(0x6b4264);

    let partial_packet_number =
        PartialPacketNumber::from_packet_number(packet_number, lowest_unacknowledged).unwrap();

    assert_eq!(partial_packet_number, PartialPacketNumber::try_from(0x6B4264).unwrap());
}

#[test]
fn partial_packet_number_from_packet_number_calculates_correctly_2() {
    let lowest_unacknowledged = packet_number(0x6BC102);
    let packet_number = packet_number(0x6bc107);

    let partial_packet_number =
        PartialPacketNumber::from_packet_number(packet_number, lowest_unacknowledged).unwrap();

    assert_eq!(partial_packet_number, PartialPacketNumber::from_u8(0x7u8));
}

#[test]
fn packet_number_infer_of_first_packet_returns_correct_packet_number() {
    let packet_number = PartialPacketNumber::from_u8(1u8).infer_packet_number(None).unwrap();

    assert_eq!(packet_number, PacketNumber::from_u8(1));
}

#[test]
fn packet_number_infer_of_packet_returns_correct_packet_number() {
    let largest_acknowledged = Some(packet_number(5436534));

    let packet_number = PartialPacketNumber::from_u8(234u8)
        .infer_packet_number(largest_acknowledged)
        .unwrap();

    assert_eq!(packet_number, PacketNumber::from_u32(5439722));
}

#[test]
fn infer_of_two_byte_partial_packet_number_returns_correct_packet_number() {
    let largest_acknowledged = Some(packet_number(0xaa82f30e));

    let packet_number = PartialPacketNumber::from_u16(0x1f94u16)
        .infer_packet_number(largest_acknowledged)
        .unwrap();

    assert_eq!(packet_number, PacketNumber::from_u32(0xaa831f94));
}

#[test]
fn next_returns_none_on_overflow() {
    let packet_number = PacketNumber::max_value();

    let next = packet_number.next();

    assert_eq!(next, None);
}

#[test]
fn epochs_returns_correct_epochs() {
    let packet_number = packet_number(5436534);

    let epochs = packet_number.epochs(8);

    assert_eq!(epochs.to_vec(), vec![5436160, 5436416, 5436672]);
}

#[test]
fn epochs_returns_correct_epochs_2() {
    let packet_number = packet_number(5436534);

    let epochs = packet_number.epochs(16);

    assert_eq!(epochs.to_vec(), vec![5308416, 5373952, 5439488]);
}

#[test]
fn epochs_returns_correct_epochs_3() {
    let packet_number = packet_number(5436534);

    let epochs = packet_number.epochs(1);

    assert_eq!(epochs.to_vec(), vec![5436532, 5436534, 5436536]);
}

#[test]
fn epochs_leave_out_the_one_below_zero() {
    let epochs = packet_number(5).epochs(8);

    assert_eq!(epochs.to_vec(), vec![0, 256]);
}

#[test]
fn try_from_rejects_a_value_above_the_maximum() {
    assert_eq!(
        PacketNumber::try_from(1u64 << 62),
        Err(Error::ValueExceedsTheMaximumPacketNumberValue(1u64 << 62))
    );
    assert_eq!(PacketNumber::try_from((1u64 << 62) - 1).unwrap(), PacketNumber::max_value());
}

#[test]
fn partial_try_from_rejects_a_value_above_the_maximum() {
    assert_eq!(
        PartialPacketNumber::try_from(0x4000_0000),
        Err(Error::ValueExceedsTheMaximumPartialPacketNumberValue(0x4000_0000))
    );
}

#[test]
fn from_packet_number_fails_below_the_lowest_unacknowledged() {
    assert_eq!(
        PartialPacketNumber::from_packet_number(packet_number(4), packet_number(5)),
        Err(Error::FailedToBuildPartialPacketNumber)
    );
}

#[test]
fn from_packet_number_fails_when_too_far_ahead() {
    assert_eq!(
        PartialPacketNumber::from_packet_number(packet_number(0x4000_0000), packet_number(0)),
        Err(Error::FailedToBuildPartialPacketNumber)
    );
}

#[test]
fn from_packet_number_takes_the_low_fourteen_bits_at_two_bytes() {
    let partial = PartialPacketNumber::from_packet_number(packet_number(0x12345), packet_number(0x12000)).unwrap();

    assert_eq!(partial.into_u32(), 0x12345 % 0x4000);
}

#[test]
fn infer_fails_when_there_is_no_next_packet_number() {
    assert_eq!(
        PartialPacketNumber::from_u8(1).infer_packet_number(Some(PacketNumber::max_value())),
        Err(Error::FailedToInferPacketNumber)
    );
}

#[test]
fn infer_round_trips_for_a_packet_number_far_from_zero() {
    let lowest_unacknowledged = packet_number(0x1_2345_6789);
    for offset in [0u64, 1, 100, 0x7f, 0x80, 0x3fff, 0x4000, 0x1000_0000] {
        let packet_number = packet_number(0x1_2345_6789 + offset);
        let partial = PartialPacketNumber::from_packet_number(packet_number, lowest_unacknowledged).unwrap();
        let span: u64 = match partial.len() {
            PartialPacketNumberLength::OneByte => 1 << 8,
            PartialPacketNumberLength::TwoBytes => 1 << 16,
            PartialPacketNumberLength::FourBytes => 1 << 32,
        };
        if packet_number.into_u64() % span == partial.into_u32() as u64 && 2 * offset <= span {
            assert_eq!(partial.infer_packet_number(Some(lowest_unacknowledged)).unwrap(), packet_number);
        }
    }
}

#[test]
fn infer_misses_when_the_partial_value_is_not_the_packet_number_modulo_its_span() {
    let lowest_unacknowledged = packet_number(300);
    let packet_number = packet_number(400);
    let partial = PartialPacketNumber::from_packet_number(packet_number, lowest_unacknowledged).unwrap();

    assert_eq!(partial.into_u32(), 144);
    assert_eq!(partial.infer_packet_number(Some(lowest_unacknowledged)).unwrap(), PacketNumber::from_u8(144));
}

#[test]
fn partial_packet_numbers_write_and_read_back_in_each_length() {
    for (value, expected) in [
        (0x25u32, vec![0x25u8]),
        (0x1f94, vec![0x9f, 0x94]),
        (0x6B4264, vec![0xc0, 0x6b, 0x42, 0x64]),
    ] {
        let partial = PartialPacketNumber::try_from(value).unwrap();
        let bytes = partial.bytes_vec().unwrap();
        assert_eq!(bytes, expected);
        let (read, n) = PartialPacketNumber::read(&bytes).unwrap();
        assert_eq!(read, partial);
        assert_eq!(n, bytes.len());
    }
}

#[test]
fn reading_a_partial_packet_number_from_nothing_fails() {
    assert_eq!(PartialPacketNumber::read(&[]), Err(Error::FailedToReadPartialPacketNumber));
    assert_eq!(PartialPacketNumber::read(&[0xc0, 1, 2]), Err(Error::FailedToReadPartialPacketNumber));
}

#[test]
fn increment_wraps_after_the_maximum() {
    assert_eq!(PacketNumber::max_value().increment(), PacketNumber::from_u8(0));
    assert_eq!(PacketNumber::from_u8(7).increment(), PacketNumber::from_u8(8));
    assert!(PacketNumber::from_u8(7).is_immediately_before(&PacketNumber::from_u8(8)));
    assert!(PacketNumber::from_u8(8).is_immediately_after(&PacketNumber::from_u8(7)));
}

#[test]
fn decrement_undoes_increment() {
    let packet_number = PacketNumber::from_u32(70000);
    assert_eq!(packet_number.increment().decrement(), packet_number);
    assert_eq!(packet_number.decrement().increment(), packet_number);
    let mut stepped = PacketNumber::from_u8(1);
    stepped.decrement_ref();
    assert_eq!(stepped.into_u64(), 0);
    stepped.increment_ref();
    assert_eq!(stepped.into_u64(), 1);
    assert!(PacketNumber::max_value().is_immediately_before(&PacketNumber::from_u8(0)));
}

#[test]
fn generate_gives_a_packet_number_below_the_initial_bound() {
    for _ in 0..100 {
        assert!(PacketNumber::generate().into_u64() < 4294966272);
    }
}

#[test]
fn infer_picks_the_candidate_closest_to_the_next_packet_number() {
    let largest_acknowledged = PacketNumber::from_u16(0x1f0);
    let inferred = PartialPacketNumber::from_u8(0x10).infer_packet_number(Some(largest_acknowledged)).unwrap();
    assert_eq!(inferred.into_u64(), 0x210);
    let inferred = PartialPacketNumber::from_u8(0x7f).infer_packet_number(Some(largest_acknowledged)).unwrap();
    assert_eq!(inferred.into_u64(), 0x17f);
}
