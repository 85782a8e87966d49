//! The radio channels and the link-layer connection state.

use tock_core::ble::ble_advertising_hil::BLE_T_IFS;
use tock_core::ble::ble_advertising_hil::DelayStartPoint;
use tock_core::ble::ble_advertising_hil::RadioChannel;
use tock_core::ble::ble_connection_driver::ChannelMap;
use tock_core::ble::ble_connection_driver::ConnectionData;
use tock_core::ble::ble_connection_driver::LLData;

fn lldata(chm: [u8; 5], hop: u8, interval: u16, timeout: u16) -> LLData {
    LLData {
        aa: [0x8E, 0x89, 0xBE, 0xD6],
        crc_init: [0x55, 0x55, 0x55],
        winsize: 1,
        winoffset: 0,
        interval,
        latency: 0,
        timeout,
        chm: ChannelMap(chm),
        hop_and_sca: hop,
    }
}

#[test]
fn delay_start_point_values() {
    assert_eq!(DelayStartPoint::PacketEndBLEStandardDelay.value(), BLE_T_IFS);
    assert_eq!(DelayStartPoint::PacketStartUsecDelay(17).value(), 17);
    assert_eq!(DelayStartPoint::PacketEndUsecDelay(5).value(), 5);
    assert_eq!(DelayStartPoint::AbsoluteTimestamp(99).value(), 99);
    assert_eq!(DelayStartPoint::PreviousPacketStartUsecDelay(3).value(), 3);
}

#[test]
fn advertising_channels_cycle() {
    assert_eq!(
        RadioChannel::AdvertisingChannel37.get_next_advertising_channel(),
        Some(RadioChannel::AdvertisingChannel38)
    );
    assert_eq!(
        RadioChannel::AdvertisingChannel38.get_next_advertising_channel(),
        Some(RadioChannel::AdvertisingChannel39)
    );
    assert_eq!(
        RadioChannel::AdvertisingChannel39.get_next_advertising_channel(),
        None
    );
    assert_eq!(RadioChannel::DataChannel5.get_next_advertising_channel(), None);
}

#[test]
fn channel_index_roundtrip() {
    for idx in 0u8..40 {
        let c = RadioChannel::try_from(idx).unwrap();
        assert_eq!(c.get_channel_index(), idx as u32);
    }
    assert!(RadioChannel::try_from(40).is_err());
    assert!(RadioChannel::try_from(255).is_err());
}

#[test]
fn new_connection_decodes_parameters() {
    let data = lldata([0xFF, 0xFF, 0xFF, 0xFF, 0x1F], 0b1110_0111, 6, 100);
    let conn = ConnectionData::new(data);
    // Access address and CRC seed are big-endian byte assemblies.
    assert_eq!(conn.aa, 0x8E89_BED6);
    assert_eq!(conn.crcinit, 0x0055_5555);
    // The hop increment is the low five bits.
    assert_eq!(conn.hop_increment, 0b111);
    // All 37 data channels enabled.
    assert_eq!(conn.number_used_channels, 37);
    assert_eq!(conn.conn_event_counter, 0);
}

#[test]
fn conn_event_counter_wraps() {
    let mut conn = ConnectionData::new(lldata([0xFF; 5], 7, 6, 100));
    conn.conn_event_counter = u16::MAX;
    conn.increment_conn_event();
    assert_eq!(conn.conn_event_counter, 0);
    conn.increment_conn_event();
    assert_eq!(conn.conn_event_counter, 1);
}

#[test]
fn next_channel_hops_by_increment() {
    // All data channels enabled, hop increment 7: 0 -> 7 -> 14 -> ...
    let mut conn = ConnectionData::new(lldata([0xFF, 0xFF, 0xFF, 0xFF, 0x1F], 7, 6, 100));
    let c1 = conn.next_channel();
    assert_eq!(c1.get_channel_index(), 7);
    let c2 = conn.next_channel();
    assert_eq!(c2.get_channel_index(), 14);
}

#[test]
fn next_channel_remaps_unused_channel() {
    // Only channels 0 and 1 enabled; hop lands on channel 7 which is
    // disabled, so it remaps to the (7 mod 2) = 1st enabled channel.
    let mut conn = ConnectionData::new(lldata([0b11, 0, 0, 0, 0], 7, 6, 100));
    assert_eq!(conn.number_used_channels, 2);
    let c = conn.next_channel();
    assert_eq!(c.get_channel_index(), 1);
}

#[test]
fn channel_map_update_applies_at_instant() {
    let mut conn = ConnectionData::new(lldata([0xFF, 0xFF, 0xFF, 0xFF, 0x1F], 1, 6, 100));
    conn.update_channelmap(ChannelMap([0b1, 0, 0, 0, 0]), 0);
    // The update instant equals the current event counter, so the map with
    // only channel 0 applies; channel 1 is disabled and remaps to 0.
    let c = conn.next_channel();
    assert_eq!(conn.number_used_channels, 1);
    assert_eq!(c.get_channel_index(), 0);
}

#[test]
fn sequence_numbers_advance_on_new_data_and_ack() {
    let mut conn = ConnectionData::new(lldata([0xFF; 5], 7, 6, 100));
    // Peer sends SN=0 (the number we expect: new data) and NESN=1 (it
    // acknowledged our last packet, which had SN 0).
    let flags = 0b0000_0100;
    let (tx, next, resend) = conn.next_sequence_number(flags);
    assert_eq!(next, 1);
    assert_eq!(tx, 1);
    assert!(!resend);
    // Peer repeats SN=0 (old data) and NESN=1 (still waiting for our 1):
    // no change to the expectation, and we must resend.
    let flags2 = 0b0000_0100;
    let (tx2, next2, resend2) = conn.next_sequence_number(flags2);
    assert_eq!(next2, 1);
    assert_eq!(tx2, 1);
    assert!(resend2);
}

#[test]
fn data_pdu_header_decodes_flag_bits() {
    let header = ConnectionData::get_data_pdu_header(0b0001_1110);
    assert!(header.more_data);
    assert_eq!(header.sequence_number, 1);
    assert_eq!(header.next_expected_sequence_number, 1);
    assert_eq!(header.llid, 0b10);
    let header2 = ConnectionData::get_data_pdu_header(0b0000_0001);
    assert!(!header2.more_data);
    assert_eq!(header2.sequence_number, 0);
    assert_eq!(header2.next_expected_sequence_number, 0);
    assert_eq!(header2.llid, 0b01);
}

#[test]
fn connection_interval_tracking() {
    let mut conn = ConnectionData::new(lldata([0xFF; 5], 7, 8, 100));
    // interval = 8 * 1250 - 1000 = 9000 us of effective listening window.
    let (ended, end) = conn.connection_interval_ended(1000);
    assert!(!ended);
    assert_eq!(end, Some(10_000));
    // Within the interval (ends at 1000 + 9000, minus the 150 us guard).
    let (ended2, end2) = conn.connection_interval_ended(5_000);
    assert!(!ended2);
    assert_eq!(end2, Some(10_000));
    // Past the guard point.
    let (ended3, _) = conn.connection_interval_ended(9_850);
    assert!(ended3);
}

#[test]
fn supervision_timeout_scales_units() {
    let conn = ConnectionData::new(lldata([0xFF; 5], 7, 6, 100));
    // 100 * 10 ms with a 25% margin: 100 * 12500 us.
    assert_eq!(conn.calculate_conn_supervision_timeout(), 1_250_000);
}

#[test]
fn connections_compare_by_hop_position() {
    let a = ConnectionData::new(lldata([0xFF; 5], 7, 6, 100));
    let mut b = ConnectionData::new(lldata([0x0F; 5], 3, 12, 50));
    assert!(a == b);
    b.last_unmapped_channel = 5;
    assert!(a != b);
}
