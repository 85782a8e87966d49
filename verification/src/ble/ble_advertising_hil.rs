//! Bluetooth Low Energy radio hardware-interface layer: the radio driver
//! and configuration traits, the callbacks the link layer registers with
//! the radio, and the advertising and data channel indices.

use vstd::prelude::*;

use crate::ble::ble_connection_driver::ConnectionData;
use crate::errorcode::ErrorCode;

verus! {

/// The inter-frame space of the radio protocol, in microseconds: the gap
/// between a received packet and the response transmitted to it.
pub const BLE_T_IFS: u32 = 150;

/// An advertising radio: transmits and receives advertisement packets and
/// reports to the registered clients.
pub trait BleAdvertisementDriver<R: RxClient, TX: TxClient, A: AdvertisementClient> {
    /// Transmit the configured advertisement.
    fn transmit_advertisement(&mut self);

    /// Install the advertisement payload; the previous buffer is handed
    /// back.
    fn set_advertisement_data(&mut self, buf: Vec<u8>, len: usize) -> Vec<u8>;

    /// Listen for an advertisement.
    fn receive_advertisement(&mut self);

    /// Register the receive callback client.
    fn set_receive_client(&mut self, client: &'static R);

    /// Register the transmit callback client.
    fn set_transmit_client(&mut self, client: &'static TX);

    /// Register the advertisement-event callback client.
    fn set_advertisement_client(&mut self, client: &'static A);
}

/// Radio configuration: transmit power, channel, and access address.
pub trait BleConfig {
    /// Set the transmit power in dBm.
    fn set_tx_power(&mut self, power: u8) -> Result<(), ErrorCode>;

    /// Tune to a channel with the given access address and CRC seed.
    fn set_channel(&mut self, channel: RadioChannel, address: u32, crcinit: u32);

    /// Set the access address alone.
    fn set_access_address(&mut self, aa: u32);
}

/// When a delayed radio operation should start, relative to packet edges
/// or an absolute timestamp.
#[derive(Clone, Copy, Debug, PartialEq, Eq, Structural)]
pub enum DelayStartPoint {
    /// The standard inter-frame space after the end of the last packet.
    PacketEndBLEStandardDelay,
    /// A microsecond delay from the start of the last packet.
    PacketStartUsecDelay(u32),
    /// A microsecond delay from the end of the last packet.
    PacketEndUsecDelay(u32),
    /// An absolute timestamp.
    AbsoluteTimestamp(u32),
    /// A microsecond delay from the start of the packet before last.
    PreviousPacketStartUsecDelay(u32),
}

/// The delay value a start point stands for.
pub open spec fn spec_delay_value(d: DelayStartPoint) -> u32 {
    match d {
        DelayStartPoint::PacketEndBLEStandardDelay => BLE_T_IFS,
        DelayStartPoint::PacketStartUsecDelay(v) => v,
        DelayStartPoint::PacketEndUsecDelay(v) => v,
        DelayStartPoint::AbsoluteTimestamp(v) => v,
        DelayStartPoint::PreviousPacketStartUsecDelay(v) => v,
    }
}

impl DelayStartPoint {
    /// The delay in microseconds this start point carries; the standard
    /// delay is the inter-frame space.
    pub fn value(self) -> (r: u32)
        ensures
            r == spec_delay_value(self),
    {
        match self {
            DelayStartPoint::PacketEndUsecDelay(v) => v,
            DelayStartPoint::PacketStartUsecDelay(v) => v,
            DelayStartPoint::PreviousPacketStartUsecDelay(v) => v,
            DelayStartPoint::AbsoluteTimestamp(v) => v,
            DelayStartPoint::PacketEndBLEStandardDelay => BLE_T_IFS,
        }
    }
}

/// What the radio should do after the current operation.
#[derive(Clone, Copy, Debug, PartialEq, Eq, Structural)]
pub enum PhyTransition {
    /// Nothing scheduled.
    NoTransition,
    /// Transmit, starting at the given point.
    MoveToTX(DelayStartPoint),
    /// Receive, starting at the given point, with a timeout in
    /// microseconds.
    MoveToRX(DelayStartPoint, u32),
}

/// How the link layer answers a received packet.
pub enum ResponseAction {
    /// Send a scan response.
    ScanResponse,
    /// Enter a connection with the given state.
    Connection(ConnectionData),
}

/// What to do when the radio's timer expires.
#[derive(Clone, Copy, Debug, PartialEq, Eq, Structural)]
pub enum ActionAfterTimerExpire {
    /// Keep advertising.
    ContinueAdvertising,
    /// Keep the connection alive; carries the connection interval and the
    /// supervision timeout.
    ContinueConnection(u32, u32),
}

/// Whether an incoming frame should be read or skipped.
#[derive(Clone, Copy, Debug, PartialEq, Eq, Structural)]
pub enum ReadAction {
    /// Ignore the frame.
    SkipFrame,
    /// Read the frame.
    ReadFrame,
}

/// What to transmit immediately after an advertisement completes.
#[derive(Clone, Copy, Debug, PartialEq, Eq, Structural)]
pub enum TxImmediate {
    /// Nothing; sleep the radio.
    GoToSleep,
    /// Respond after the inter-frame space.
    RespondAfterTifs,
    /// Transmit at once.
    TX,
}

/// Callbacks for received packets.
pub trait RxClient {
    /// A packet is arriving; decide whether to read it.
    fn receive_start(&mut self, buf: Vec<u8>, len: u8) -> ReadAction;

    /// A packet arrived; decide the next radio transition.
    fn receive_end(
        &mut self,
        buf: Vec<u8>,
        len: u8,
        result: Result<(), ErrorCode>,
        rx_timestamp: u32,
    ) -> PhyTransition;
}

/// Callbacks for transmitted packets.
pub trait TxClient {
    /// A packet was sent; decide the next radio transition.
    fn transmit_end(&mut self, result: Result<(), ErrorCode>) -> PhyTransition;
}

/// Callbacks for advertising events.
pub trait AdvertisementClient {
    /// An advertisement completed; decide what to transmit next.
    fn advertisement_done(&mut self) -> TxImmediate;

    /// The advertising timer expired; decide the next transition.
    fn timer_expired(&mut self) -> PhyTransition;
}

/// The advertising and data channels of the radio protocol (the protocol
/// specification's advertising and data channel indices).
#[derive(Clone, Copy, Debug, PartialEq, Eq, Structural)]
pub enum RadioChannel {
    /// Data channel 0.
    DataChannel0,
    /// Data channel 1.
    DataChannel1,
    /// Data channel 2.
    DataChannel2,
    /// Data channel 3.
    DataChannel3,
    /// Data channel 4.
    DataChannel4,
    /// Data channel 5.
    DataChannel5,
    /// Data channel 6.
    DataChannel6,
    /// Data channel 7.
    DataChannel7,
    /// Data channel 8.
    DataChannel8,
    /// Data channel 9.
    DataChannel9,
    /// Data channel 10.
    DataChannel10,
    /// Data channel 11.
    DataChannel11,
    /// Data channel 12.
    DataChannel12,
    /// Data channel 13.
    DataChannel13,
    /// Data channel 14.
    DataChannel14,
    /// Data channel 15.
    DataChannel15,
    /// Data channel 16.
    DataChannel16,
    /// Data channel 17.
    DataChannel17,
    /// Data channel 18.
    DataChannel18,
    /// Data channel 19.
    DataChannel19,
    /// Data channel 20.
    DataChannel20,
    /// Data channel 21.
    DataChannel21,
    /// Data channel 22.
    DataChannel22,
    /// Data channel 23.
    DataChannel23,
    /// Data channel 24.
    DataChannel24,
    /// Data channel 25.
    DataChannel25,
    /// Data channel 26.
    DataChannel26,
    /// Data channel 27.
    DataChannel27,
    /// Data channel 28.
    DataChannel28,
    /// Data channel 29.
    DataChannel29,
    /// Data channel 30.
    DataChannel30,
    /// Data channel 31.
    DataChannel31,
    /// Data channel 32.
    DataChannel32,
    /// Data channel 33.
    DataChannel33,
    /// Data channel 34.
    DataChannel34,
    /// Data channel 35.
    DataChannel35,
    /// Data channel 36.
    DataChannel36,
    /// Advertising channel 37.
    AdvertisingChannel37,
    /// Advertising channel 38.
    AdvertisingChannel38,
    /// Advertising channel 39.
    AdvertisingChannel39,
}

/// The protocol channel index of a channel.
pub open spec fn spec_channel_index(c: RadioChannel) -> int {
    match c {
        RadioChannel::DataChannel0 => 0,
        RadioChannel::DataChannel1 => 1,
        RadioChannel::DataChannel2 => 2,
        RadioChannel::DataChannel3 => 3,
        RadioChannel::DataChannel4 => 4,
        RadioChannel::DataChannel5 => 5,
        RadioChannel::DataChannel6 => 6,
        RadioChannel::DataChannel7 => 7,
        RadioChannel::DataChannel8 => 8,
        RadioChannel::DataChannel9 => 9,
        RadioChannel::DataChannel10 => 10,
        RadioChannel::DataChannel11 => 11,
        RadioChannel::DataChannel12 => 12,
        RadioChannel::DataChannel13 => 13,
        RadioChannel::DataChannel14 => 14,
        RadioChannel::DataChannel15 => 15,
        RadioChannel::DataChannel16 => 16,
        RadioChannel::DataChannel17 => 17,
        RadioChannel::DataChannel18 => 18,
        RadioChannel::DataChannel19 => 19,
        RadioChannel::DataChannel20 => 20,
        RadioChannel::DataChannel21 => 21,
        RadioChannel::DataChannel22 => 22,
        RadioChannel::DataChannel23 => 23,
        RadioChannel::DataChannel24 => 24,
        RadioChannel::DataChannel25 => 25,
        RadioChannel::DataChannel26 => 26,
        RadioChannel::DataChannel27 => 27,
        RadioChannel::DataChannel28 => 28,
        RadioChannel::DataChannel29 => 29,
        RadioChannel::DataChannel30 => 30,
        RadioChannel::DataChannel31 => 31,
        RadioChannel::DataChannel32 => 32,
        RadioChannel::DataChannel33 => 33,
        RadioChannel::DataChannel34 => 34,
        RadioChannel::DataChannel35 => 35,
        RadioChannel::DataChannel36 => 36,
        RadioChannel::AdvertisingChannel37 => 37,
        RadioChannel::AdvertisingChannel38 => 38,
        RadioChannel::AdvertisingChannel39 => 39,
    }
}

impl RadioChannel {
    /// The advertising channel after this one, advertising in the order
    /// 37, 38, 39.
    pub fn get_next_advertising_channel(&self) -> (r: Option<RadioChannel>)
        ensures
            r == (match *self {
                RadioChannel::AdvertisingChannel37 => Some(RadioChannel::AdvertisingChannel38),
                RadioChannel::AdvertisingChannel38 => Some(RadioChannel::AdvertisingChannel39),
                _ => None::<RadioChannel>,
            }),
    {
        match *self {
            RadioChannel::AdvertisingChannel37 => Some(RadioChannel::AdvertisingChannel38),
            RadioChannel::AdvertisingChannel38 => Some(RadioChannel::AdvertisingChannel39),
            _ => None,
        }
    }

    /// The protocol channel index of this channel.
    pub fn get_channel_index(&self) -> (r: u32)
        ensures
            r == spec_channel_index(*self),
    {
        match *self {
            RadioChannel::DataChannel0 => 0,
            RadioChannel::DataChannel1 => 1,
            RadioChannel::DataChannel2 => 2,
            RadioChannel::DataChannel3 => 3,
            RadioChannel::DataChannel4 => 4,
            RadioChannel::DataChannel5 => 5,
            RadioChannel::DataChannel6 => 6,
            RadioChannel::DataChannel7 => 7,
            RadioChannel::DataChannel8 => 8,
            RadioChannel::DataChannel9 => 9,
            RadioChannel::DataChannel10 => 10,
            RadioChannel::DataChannel11 => 11,
            RadioChannel::DataChannel12 => 12,
            RadioChannel::DataChannel13 => 13,
            RadioChannel::DataChannel14 => 14,
            RadioChannel::DataChannel15 => 15,
            RadioChannel::DataChannel16 => 16,
            RadioChannel::DataChannel17 => 17,
            RadioChannel::DataChannel18 => 18,
            RadioChannel::DataChannel19 => 19,
            RadioChannel::DataChannel20 => 20,
            RadioChannel::DataChannel21 => 21,
            RadioChannel::DataChannel22 => 22,
            RadioChannel::DataChannel23 => 23,
            RadioChannel::DataChannel24 => 24,
            RadioChannel::DataChannel25 => 25,
            RadioChannel::DataChannel26 => 26,
            RadioChannel::DataChannel27 => 27,
            RadioChannel::DataChannel28 => 28,
            RadioChannel::DataChannel29 => 29,
            RadioChannel::DataChannel30 => 30,
            RadioChannel::DataChannel31 => 31,
            RadioChannel::DataChannel32 => 32,
            RadioChannel::DataChannel33 => 33,
            RadioChannel::DataChannel34 => 34,
            RadioChannel::DataChannel35 => 35,
            RadioChannel::DataChannel36 => 36,
            RadioChannel::AdvertisingChannel37 => 37,
            RadioChannel::AdvertisingChannel38 => 38,
            RadioChannel::AdvertisingChannel39 => 39,
        }
    }

    /// The channel with the given protocol index; indices above 39 name no
    /// channel.
    pub fn try_from(value: u8) -> (r: Result<RadioChannel, NoDataChannelForIndex>)
        ensures
            value <= 39 ==> r is Ok && spec_channel_index(r->Ok_0) == value,
            value > 39 ==> r is Err,
    {
        match value {
            0 => Ok(RadioChannel::DataChannel0),
            1 => Ok(RadioChannel::DataChannel1),
            2 => Ok(RadioChannel::DataChannel2),
            3 => Ok(RadioChannel::DataChannel3),
            4 => Ok(RadioChannel::DataChannel4),
            5 => Ok(RadioChannel::DataChannel5),
            6 => Ok(RadioChannel::DataChannel6),
            7 => Ok(RadioChannel::DataChannel7),
            8 => Ok(RadioChannel::DataChannel8),
            9 => Ok(RadioChannel::DataChannel9),
            10 => Ok(RadioChannel::DataChannel10),
            11 => Ok(RadioChannel::DataChannel11),
            12 => Ok(RadioChannel::DataChannel12),
            13 => Ok(RadioChannel::DataChannel13),
            14 => Ok(RadioChannel::DataChannel14),
            15 => Ok(RadioChannel::DataChannel15),
            16 => Ok(RadioChannel::DataChannel16),
            17 => Ok(RadioChannel::DataChannel17),
            18 => Ok(RadioChannel::DataChannel18),
            19 => Ok(RadioChannel::DataChannel19),
            20 => Ok(RadioChannel::DataChannel20),
            21 => Ok(RadioChannel::DataChannel21),
            22 => Ok(RadioChannel::DataChannel22),
            23 => Ok(RadioChannel::DataChannel23),
            24 => Ok(RadioChannel::DataChannel24),
            25 => Ok(RadioChannel::DataChannel25),
            26 => Ok(RadioChannel::DataChannel26),
            27 => Ok(RadioChannel::DataChannel27),
            28 => Ok(RadioChannel::DataChannel28),
            29 => Ok(RadioChannel::DataChannel29),
            30 => Ok(RadioChannel::DataChannel30),
            31 => Ok(RadioChannel::DataChannel31),
            32 => Ok(RadioChannel::DataChannel32),
            33 => Ok(RadioChannel::DataChannel33),
            34 => Ok(RadioChannel::DataChannel34),
            35 => Ok(RadioChannel::DataChannel35),
            36 => Ok(RadioChannel::DataChannel36),
            37 => Ok(RadioChannel::AdvertisingChannel37),
            38 => Ok(RadioChannel::AdvertisingChannel38),
            39 => Ok(RadioChannel::AdvertisingChannel39),
            _ => Err(NoDataChannelForIndex),
        }
    }
}

/// Error of `RadioChannel::try_from`: no channel has the given index.
#[derive(Clone, Copy, Debug, PartialEq, Eq, Structural)]
pub struct NoDataChannelForIndex;

} // verus!
