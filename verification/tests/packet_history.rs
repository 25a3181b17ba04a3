use quic::packets::packet_history::PacketHistory;
use quic::packets::packet_number::PacketNumber;

#[test]
fn is_duplicate_returns_false_for_empty() {
    let packet_history = PacketHistory::new();

    let packet_number = PacketNumber::try_from(5).unwrap();
    assert_eq!(packet_history.is_duplicate(packet_number), false);
}

#[test]
fn is_duplicate_returns_true_for_received() {
    let mut packet_history = PacketHistory::new();

    let packet_number = PacketNumber::try_from(5).unwrap();
    packet_history.push_packet_number(packet_number);

    assert!(packet_history.is_duplicate(packet_number));
}

#[test]
fn is_duplicate_returns_true_for_ignored() {
    let mut packet_history = PacketHistory::new();

    let packet_number = PacketNumber::try_from(5).unwrap();
    packet_history.push_packet_number(packet_number);

    let ignored = PacketNumber::try_from(200).unwrap();
    packet_history.ignore_packets_up_to_including(ignored);

    assert!(packet_history.is_duplicate(packet_number));
}

#[test]
fn ignore_packets_up_to_including_does_nothing_when_ignoring_already_ignored() {
    let mut packet_history = PacketHistory::new();

    let packet_number = PacketNumber::try_from(5).unwrap();
    packet_history.push_packet_number(packet_number);

    let ignored = PacketNumber::try_from(200).unwrap();
    packet_history.ignore_packets_up_to_including(ignored);

    let ignored_lower = PacketNumber::try_from(4).unwrap();
    packet_history.ignore_packets_up_to_including(ignored_lower);

    assert!(packet_history.is_duplicate(packet_number));
}

fn pn(value: u64) -> PacketNumber {
    PacketNumber::try_from(value).unwrap()
}

#[test]
fn push_reports_whether_the_packet_number_is_new() {
    let mut packet_history = PacketHistory::new();

    assert!(packet_history.push_packet_number(pn(7)));
    assert!(!packet_history.push_packet_number(pn(7)));
}

#[test]
fn received_ranges_merge_adjacent_packet_numbers() {
    let mut packet_history = PacketHistory::new();
    for value in [1u64, 2, 3, 7, 8, 20] {
        packet_history.push_packet_number(pn(value));
    }

    assert_eq!(packet_history.received_ranges(), vec![(1, 4), (7, 9), (20, 21)]);
    assert_eq!(packet_history.highest_range(), Some((20, 21)));
    assert_eq!(PacketHistory::new().highest_range(), None);
}

#[test]
fn ignoring_keeps_the_seen_packet_numbers_above_the_bound() {
    let mut packet_history = PacketHistory::new();
    for value in [1u64, 5, 10, 11] {
        packet_history.push_packet_number(pn(value));
    }

    packet_history.ignore_packets_up_to_including(pn(5));

    assert_eq!(packet_history.received_ranges(), vec![(10, 12)]);
    assert!(packet_history.is_duplicate(pn(10)));
    assert!(packet_history.is_duplicate(pn(3)));
    assert!(!packet_history.is_duplicate(pn(6)));
}

#[test]
fn ignoring_below_every_seen_packet_number_forgets_them() {
    let mut packet_history = PacketHistory::new();
    packet_history.push_packet_number(pn(500));

    packet_history.ignore_packets_up_to_including(pn(200));

    assert!(!packet_history.is_duplicate(pn(500)));
    assert!(packet_history.is_duplicate(pn(200)));
    assert_eq!(packet_history.received_ranges(), vec![]);
}

#[test]
fn a_run_of_pushes_and_ignores_keeps_what_was_ignored_or_pushed_last() {
    let mut history = PacketHistory::new();
    history.push_packet_number(PacketNumber::try_from(5).unwrap());
    history.ignore_packets_up_to_including(PacketNumber::try_from(200).unwrap());
    history.ignore_packets_up_to_including(PacketNumber::try_from(4).unwrap());
    history.push_packet_number(PacketNumber::try_from(300).unwrap());

    assert!(history.is_duplicate(PacketNumber::try_from(5).unwrap()));
    assert!(history.is_duplicate(PacketNumber::try_from(200).unwrap()));
    assert!(history.is_duplicate(PacketNumber::try_from(300).unwrap()));
    assert!(!history.is_duplicate(PacketNumber::try_from(250).unwrap()));
    assert!(!history.is_duplicate(PacketNumber::try_from(301).unwrap()));
}
