//! Link-layer connection state: channel-map expansion and hopping,
//! sequence-number bookkeeping, data-packet headers, and connection-interval
//! timing.

use vstd::prelude::*;

use crate::ble::ble_advertising_hil::NoDataChannelForIndex;
use crate::ble::ble_advertising_hil::RadioChannel;
use crate::ble::ble_advertising_hil::spec_channel_index;

verus! {

/// Number of protocol channels, advertising channels included.
pub const NUMBER_CHANNELS: usize = 40;

/// Number of data channels (all channels but the three advertising ones).
pub const NUMBER_DATA_CHANNELS: usize = 37;

/// The 37-bit channel map of a connection, five little-endian bytes.
#[derive(Clone, Copy, Debug)]
pub struct ChannelMap(pub [u8; 5]);

/// The link-layer connection parameters received when a connection is
/// formed.
#[derive(Clone, Copy, Debug)]
pub struct LLData {
    /// Access address bytes, most significant first.
    pub aa: [u8; 4],
    /// CRC initialization bytes, most significant first.
    pub crc_init: [u8; 3],
    /// Transmit window size, in 1.25 ms units.
    pub winsize: u8,
    /// Transmit window offset, in 1.25 ms units.
    pub winoffset: u16,
    /// Connection interval, in 1.25 ms units.
    pub interval: u16,
    /// Peripheral latency, in connection events.
    pub latency: u16,
    /// Supervision timeout, in 10 ms units.
    pub timeout: u16,
    /// The channel map in use.
    pub chm: ChannelMap,
    /// Hop increment (low five bits) and sleep-clock accuracy (high
    /// three).
    pub hop_and_sca: u8,
}

impl LLData {
    /// The connection interval in microseconds (1.25 ms units).
    pub fn connection_interval(&self) -> (r: u32)
        ensures
            r == self.interval * 1250,
    {
        self.interval as u32 * 1250
    }
}

/// How many of the low bits of `b` are set.
pub open spec fn bit_count(b: u8) -> int
    decreases b,
{
    if b == 0 {
        0
    } else {
        (b % 2) + bit_count(b / 2)
    }
}

/// How many bits the channel map sets.
pub open spec fn map_ones(m: ChannelMap) -> int {
    bit_count(m.0[0]) + bit_count(m.0[1]) + bit_count(m.0[2]) + bit_count(m.0[3]) + bit_count(
        m.0[4],
    )
}

/// Two to the `k`-th power.
pub open spec fn pow2(k: int) -> int
    decreases k,
{
    if k <= 0 {
        1
    } else {
        2 * pow2(k - 1)
    }
}

/// The channel-map bit for channel `k`: 1 exactly when bit `k % 8` of map
/// byte `k / 8` is set.
pub open spec fn map_bit(m: ChannelMap, k: int) -> u8 {
    if ((m.0[k / 8] as int) / pow2(k % 8)) % 2 == 1 {
        1
    } else {
        0
    }
}

/// How many entries of `s` are 1.
pub open spec fn seq_ones(s: Seq<u8>) -> int
    decreases s.len(),
{
    if s.len() == 0 {
        0
    } else {
        seq_ones(s.drop_last()) + if s.last() == 1 {
            1int
        } else {
            0int
        }
    }
}

/// Powers of two are positive.
proof fn lemma_pow2_positive(k: int)
    ensures
        pow2(k) >= 1,
    decreases k,
{
    if k > 0 {
        lemma_pow2_positive(k - 1);
    }
}

/// Counting ones never exceeds the length counted over.
proof fn lemma_seq_ones_le_len(s: Seq<u8>)
    ensures
        0 <= seq_ones(s) <= s.len(),
    decreases s.len(),
{
    if s.len() > 0 {
        lemma_seq_ones_le_len(s.drop_last());
    }
}

/// The channel hopping and acknowledgement state of one link-layer
/// connection.
pub struct ConnectionData {
    /// The unmapped channel used by the last connection event.
    pub last_unmapped_channel: u8,
    /// One entry per channel: 1 when the channel map enables it.
    pub channels: [u8; 40],
    /// Counter of connection events, wrapping.
    pub conn_event_counter: u16,
    /// Channel hop increment.
    pub hop_increment: u8,
    /// How many channels the map enables.
    pub number_used_channels: u8,
    /// A channel-map update to apply at the given event counter.
    pub next_channel_map: Option<(ChannelMap, u16)>,
    /// Access address of the connection.
    pub aa: u32,
    /// CRC initialization value.
    pub crcinit: u32,
    /// Sequence number of the next packet transmitted.
    pub transmit_seq_nbr: u8,
    /// Sequence number expected from the peer next.
    pub next_seq_nbr: u8,
    /// Timestamp at which the current connection interval began.
    pub conn_interval_start: Option<u32>,
    /// Length of the current connection interval, in microseconds.
    pub conn_interval_length_usec: Option<u32>,
    /// The connection parameters this state was built from.
    pub lldata: LLData,
}

impl PartialEq for ConnectionData {
    /// Connections compare by the channel-hop position alone.
    fn eq(&self, other: &ConnectionData) -> (r: bool) {
        self.last_unmapped_channel == other.last_unmapped_channel
    }
}

impl Eq for ConnectionData {

}

impl vstd::std_specs::cmp::PartialEqSpecImpl for ConnectionData {
    open spec fn obeys_eq_spec() -> bool {
        true
    }

    open spec fn eq_spec(&self, other: &ConnectionData) -> bool {
        self.last_unmapped_channel == other.last_unmapped_channel
    }
}

impl ConnectionData {
    /// Consistency of the hopping state: channel entries are bits, the
    /// used-channel count matches them, and the hop position and sequence
    /// numbers are in range.
    pub open spec fn wf(self) -> bool {
        &&& self.last_unmapped_channel < 37
        &&& self.hop_increment <= 31
        &&& self.transmit_seq_nbr <= 1
        &&& self.next_seq_nbr <= 1
        &&& self.number_used_channels as int == seq_ones(self.channels@)
        &&& forall|k: int| 0 <= k < 40 ==> #[trigger] self.channels@[k] <= 1
    }

    /// How many channels will be usable for the next hop: the pending map
    /// when it applies at the current event counter, the current count
    /// otherwise.
    pub open spec fn effective_channel_count(self) -> int {
        match self.next_channel_map {
            Some((m, inst)) => if inst == self.conn_event_counter {
                map_ones(m)
            } else {
                self.number_used_channels as int
            },
            None => self.number_used_channels as int,
        }
    }

    /// Build the hopping state for a fresh connection from its link-layer
    /// parameters.
    pub fn new(lldata: LLData) -> (c: ConnectionData)
        ensures
            c.wf(),
            c.lldata == lldata,
            c.conn_event_counter == 0,
            c.last_unmapped_channel == 0,
            c.hop_increment == lldata.hop_and_sca % 32,
            c.number_used_channels as int == map_ones(lldata.chm),
            forall|k: int| 0 <= k < 40 ==> (#[trigger] c.channels@[k]) == map_bit(lldata.chm, k),
            c.aa == (lldata.aa[0] as int) * 0x100_0000 + (lldata.aa[1] as int) * 0x1_0000 + (
            lldata.aa[2] as int) * 0x100 + lldata.aa[3] as int,
            c.crcinit == (lldata.crc_init[0] as int) * 0x1_0000 + (lldata.crc_init[1] as int)
                * 0x100 + lldata.crc_init[2] as int,
            c.transmit_seq_nbr == 0,
            c.next_seq_nbr == 0,
            c.conn_interval_start is None,
            c.conn_interval_length_usec is None,
            c.next_channel_map is None,
    {
        let (channels, number_used_channels) = ConnectionData::expand_channel_map(lldata.chm);
        ConnectionData {
            last_unmapped_channel: 0,
            channels,
            number_used_channels,
            next_channel_map: None,
            hop_increment: lldata.hop_and_sca % 32,
            conn_event_counter: 0,
            aa: (lldata.aa[0] as u32) * 0x100_0000 + (lldata.aa[1] as u32) * 0x1_0000 + (
            lldata.aa[2] as u32) * 0x100 + (lldata.aa[3] as u32),
            crcinit: (lldata.crc_init[0] as u32) * 0x1_0000 + (lldata.crc_init[1] as u32) * 0x100
                + (lldata.crc_init[2] as u32),
            transmit_seq_nbr: 0,
            next_seq_nbr: 0,
            conn_interval_start: None,
            conn_interval_length_usec: None,
            lldata,
        }
    }

    /// Count the connection event, wrapping at the counter's width.
    pub fn increment_conn_event(&mut self)
        ensures
            final(self).conn_event_counter == (if old(self).conn_event_counter == u16::MAX {
                0int
            } else {
                old(self).conn_event_counter + 1
            }),
            *final(self) == (ConnectionData {
                conn_event_counter: final(self).conn_event_counter,
                ..*old(self)
            }),
    {
        self.conn_event_counter = if self.conn_event_counter == u16::MAX {
            0
        } else {
            self.conn_event_counter + 1
        };
    }

    /// Record a channel-map update to apply at connection event `instant`.
    pub fn update_channelmap(&mut self, channel_map: ChannelMap, instant: u16)
        ensures
            *final(self) == (ConnectionData {
                next_channel_map: Some((channel_map, instant)),
                ..*old(self)
            }),
    {
        self.next_channel_map = Some((channel_map, instant));
    }

    /// Expand the packed 37-bit channel map into one entry per channel and
    /// count the enabled channels.
    fn expand_channel_map(chm: ChannelMap) -> (r: ([u8; 40], u8))
        ensures
            forall|k: int| 0 <= k < 40 ==> #[trigger] r.0@[k] <= 1,
            forall|k: int| 0 <= k < 40 ==> #[trigger] r.0@[k] == map_bit(chm, k),
            r.1 as int == seq_ones(r.0@),
            r.1 as int == map_ones(chm),
    {
        let mut channels: [u8; 40] = [0; 40];
        let mut number_used_channels: u8 = 0;
        let mut i: usize = 0;
        while i < 5
            invariant
                i <= 5,
                channels@.len() == 40,
                forall|k: int| 0 <= k < 40 ==> #[trigger] channels@[k] <= 1,
                forall|k: int| 0 <= k < 8 * i ==> #[trigger] channels@[k] == map_bit(chm, k),
                number_used_channels as int == seq_ones(channels@.subrange(0, 8 * i as int)),
                number_used_channels as int == partial_map_ones(chm, i as int),
                number_used_channels <= 40,
            decreases 5 - i,
        {
            let mut byte: u8 = chm.0[i];
            proof {
                reveal_with_fuel(pow2, 9);
            }
            let mut j: usize = 0;
            while j < 8
                invariant
                    i < 5,
                    j <= 8,
                    channels@.len() == 40,
                    forall|k: int| 0 <= k < 40 ==> #[trigger] channels@[k] <= 1,
                    forall|k: int| 0 <= k < 8 * i + j ==> #[trigger] channels@[k] == map_bit(
                        chm,
                        k,
                    ),
                    (byte as int) == (chm.0[i as int] as int) / pow2(j as int),
                    (byte as int) < pow2(8 - (j as int)),
                    number_used_channels as int == seq_ones(
                        channels@.subrange(0, 8 * i + j as int),
                    ),
                    number_used_channels as int + bit_count(byte) == partial_map_ones(
                        chm,
                        i as int,
                    ) + bit_count(chm.0[i as int]),
                    number_used_channels <= 40,
                decreases 8 - j,
            {
                let bit: u8 = byte % 2;
                let ghost prev = channels@;
                channels[i * 8 + j] = bit;
                proof {
                    // The written entry is exactly the map bit of this
                    // channel.
                    assert((8 * i + j as int) / 8 == i as int);
                    assert((8 * i + j as int) % 8 == j as int);
                    assert(map_bit(chm, 8 * i + j as int) == bit);
                    // Halving the byte steps to the next bit.
                    lemma_pow2_positive(j as int);
                    vstd::arithmetic::div_mod::lemma_div_denominator(
                        chm.0[i as int] as int,
                        pow2(j as int),
                        2,
                    );
                    assert(pow2(j as int) * 2 == pow2(j + 1));
                    lemma_seq_ones_le_len(channels@.subrange(0, 8 * i + j + 1));
                    assert(channels@.subrange(0, 8 * i + j as int) =~= prev.subrange(
                        0,
                        8 * i + j as int,
                    ));
                    assert(channels@.subrange(0, 8 * i + j + 1).drop_last() =~= channels@.subrange(
                        0,
                        8 * i + j as int,
                    ));
                    assert(channels@.subrange(0, 8 * i + j + 1).last() == bit);
                }
                if bit == 1 {
                    number_used_channels = number_used_channels + 1;
                }
                byte = byte / 2;
                j = j + 1;
            }
            proof {
                assert(byte == 0);
                assert(channels@.subrange(0, 8 * i + 8) =~= channels@.subrange(0, 8 * (i + 1)));
            }
            i = i + 1;
        }
        proof {
            assert(channels@.subrange(0, 40) =~= channels@);
            reveal_with_fuel(partial_map_ones, 6);
            assert(partial_map_ones(chm, 5) == map_ones(chm));
        }
        (channels, number_used_channels)
    }

    /// The next data channel of the hop sequence. When a pending channel
    /// map applies at the current event counter it is installed first
    /// (and retained otherwise); the unmapped channel advances by the hop
    /// increment; an enabled unmapped channel maps to itself, and a
    /// disabled one remaps to the n-th enabled channel in ascending index
    /// order, where n is the unmapped channel modulo the number of enabled
    /// channels. The caller must not hop on a connection whose effective
    /// channel map is empty.
    pub fn next_channel(&mut self) -> (r: RadioChannel)
        requires
            old(self).wf(),
            old(self).effective_channel_count() > 0,
        ensures
            final(self).wf(),
            final(self).last_unmapped_channel == (old(self).last_unmapped_channel + old(
                self,
            ).hop_increment) % 37,
            final(self).conn_event_counter == old(self).conn_event_counter,
            spec_channel_index(r) < 40,
            final(self).channels@[spec_channel_index(r)] == 1,
            // A pending map update applies exactly at its instant and is
            // retained otherwise.
            ({
                match old(self).next_channel_map {
                    Some((m, inst)) => if inst == old(self).conn_event_counter {
                        &&& final(self).next_channel_map is None
                        &&& (forall|k: int|
                            0 <= k < 40 ==> (#[trigger] final(self).channels@[k]) == map_bit(m, k))
                        &&& final(self).number_used_channels as int == map_ones(m)
                    } else {
                        &&& final(self).next_channel_map == old(self).next_channel_map
                        &&& final(self).channels == old(self).channels
                        &&& final(self).number_used_channels == old(self).number_used_channels
                    },
                    None => {
                        &&& final(self).next_channel_map is None
                        &&& final(self).channels == old(self).channels
                        &&& final(self).number_used_channels == old(self).number_used_channels
                    },
                }
            }),
            // The selection rule: an enabled unmapped channel maps to
            // itself; a disabled one remaps to the enabled channel with
            // exactly (unmapped mod enabled-count) enabled channels below
            // it.
            ({
                let u = final(self).last_unmapped_channel;
                if final(self).channels@[u as int] == 1 {
                    spec_channel_index(r) == u
                } else {
                    seq_ones(final(self).channels@.subrange(0, spec_channel_index(r))) == (
                    u as int) % (final(self).number_used_channels as int)
                }
            }),
    {
        match self.next_channel_map {
            Some((channel_map, instant)) => {
                if instant == self.conn_event_counter {
                    // The update instant arrived: install the new map.
                    let (channels, number_used_channels) = ConnectionData::expand_channel_map(
                        channel_map,
                    );
                    self.channels = channels;
                    self.number_used_channels = number_used_channels;
                    self.next_channel_map = None;
                } else {
                    self.next_channel_map = Some((channel_map, instant));
                }
            },
            None => {},
        }
        let unmapped_channel: u8 = (self.last_unmapped_channel + self.hop_increment) % 37;
        let used: bool = self.channels[unmapped_channel as usize] == 1;
        self.last_unmapped_channel = unmapped_channel;
        let channel: u8 = if used {
            unmapped_channel
        } else {
            // Remap onto the enabled channels: take the n-th enabled
            // channel, where n is the unmapped channel modulo the number
            // of enabled channels.
            let mut table: [u8; 40] = [0; 40];
            let remapping_index: u8 = unmapped_channel % self.number_used_channels;
            let mut idx: usize = 0;
            let mut i: usize = 0;
            while i < 40
                invariant
                    i <= 40,
                    table@.len() == 40,
                    self.wf(),
                    idx as int == seq_ones(self.channels@.subrange(0, i as int)),
                    idx <= i,
                    forall|k: int|
                        0 <= k < idx ==> #[trigger] table@[k] < 40 && self.channels@[table@[k] as int]
                            == 1 && seq_ones(self.channels@.subrange(0, table@[k] as int)) == k,
                decreases 40 - i,
            {
                proof {
                    assert(self.channels@.subrange(0, i as int) == self.channels@.subrange(
                        0,
                        i + 1,
                    ).drop_last());
                }
                if self.channels[i] == 1 {
                    proof {
                        lemma_seq_ones_le_len(self.channels@.subrange(0, i as int));
                    }
                    table[idx] = i as u8;
                    idx = idx + 1;
                }
                i = i + 1;
            }
            proof {
                assert(self.channels@.subrange(0, 40) =~= self.channels@);
            }
            table[remapping_index as usize]
        };
        match RadioChannel::try_from(channel) {
            Ok(c) => c,
            Err(NoDataChannelForIndex) => {
                // Unreachable: the selected channel index is always below
                // the channel count.
                proof {
                    assert(false);
                }
                RadioChannel::DataChannel0
            },
        }
    }

    /// Advance the acknowledgement state from the flags byte of a received
    /// data-packet header: adopt the peer's new sequence number when it is
    /// the one expected, and advance our own transmit number when the peer
    /// acknowledged the last packet. Returns the transmit and
    /// next-expected numbers and whether the last packet must be resent.
    pub fn next_sequence_number(&mut self, buf_head_flags: u8) -> (r: (u8, u8, bool))
        requires
            old(self).wf(),
        ensures
            final(self).wf(),
            *final(self) == (ConnectionData {
                transmit_seq_nbr: final(self).transmit_seq_nbr,
                next_seq_nbr: final(self).next_seq_nbr,
                ..*old(self)
            }),
            ({
                let sn = (buf_head_flags / 8) % 2;
                let nesn = (buf_head_flags / 4) % 2;
                let received_new = sn == old(self).next_seq_nbr;
                let resend = nesn == old(self).transmit_seq_nbr;
                &&& final(self).next_seq_nbr == (if received_new {
                    (old(self).next_seq_nbr + 1) % 2
                } else {
                    old(self).next_seq_nbr as int
                })
                &&& final(self).transmit_seq_nbr == (if !resend {
                    (old(self).transmit_seq_nbr + 1) % 2
                } else {
                    old(self).transmit_seq_nbr as int
                })
                &&& r == (final(self).transmit_seq_nbr, final(self).next_seq_nbr, resend)
            }),
    {
        let header = ConnectionData::get_data_pdu_header(buf_head_flags);
        let sn = header.sequence_number;
        let nesn = header.next_expected_sequence_number;
        // A packet carrying the expected sequence number is new data;
        // adopt the next number. Otherwise it is a resend and the
        // expectation stands.
        let received_new_data_pdu: bool = sn == self.next_seq_nbr;
        if received_new_data_pdu {
            self.next_seq_nbr = (self.next_seq_nbr + 1) % 2;
        }
        // A peer expecting our current number did not acknowledge the last
        // packet; otherwise advance our transmit number.
        let resend_last_data_pdu: bool = nesn == self.transmit_seq_nbr;
        if !resend_last_data_pdu {
            self.transmit_seq_nbr = (self.transmit_seq_nbr + 1) % 2;
        }
        (self.transmit_seq_nbr, self.next_seq_nbr, resend_last_data_pdu)
    }

    /// Decode the flags byte of a data-packet header.
    pub fn get_data_pdu_header(buf_head_flags: u8) -> (r: DataHeader)
        ensures
            r.more_data == ((buf_head_flags / 16) % 2 == 1),
            r.next_expected_sequence_number == (buf_head_flags / 4) % 2,
            r.sequence_number == (buf_head_flags / 8) % 2,
            r.llid == buf_head_flags % 4,
    {
        let more_data = (buf_head_flags / 16) % 2 == 1;
        let nesn = (buf_head_flags / 4) % 2;
        let sn = (buf_head_flags / 8) % 2;
        let llid = buf_head_flags % 4;
        DataHeader { more_data, next_expected_sequence_number: nesn, sequence_number: sn, llid }
    }

    /// Whether the current connection interval has ended by `rx_timestamp`,
    /// listening 1 ms early and allowing the inter-frame gap; also reports
    /// when the interval ends. The first call of an interval records its
    /// start.
    pub fn connection_interval_ended(&mut self, rx_timestamp: u32) -> (r: (bool, Option<u32>))
        requires
            old(self).lldata.interval >= 1,
            old(self).conn_interval_start is Some ==> old(self).conn_interval_start->0 + old(
                self,
            ).lldata.interval * 1250 <= u32::MAX,
            rx_timestamp + old(self).lldata.interval * 1250 <= u32::MAX,
        ensures
            ({
                let interval = old(self).lldata.interval * 1250 - 1000;
                match old(self).conn_interval_start {
                    Some(start_time) => {
                        &&& *final(self) == *old(self)
                        &&& r.0 == (rx_timestamp >= interval + start_time - 150)
                        &&& r.1 == Some((interval + start_time) as u32)
                    },
                    None => {
                        &&& *final(self) == (ConnectionData {
                            conn_interval_start: Some(rx_timestamp),
                            ..*old(self)
                        })
                        &&& r.0 == false
                        &&& r.1 == Some((interval + rx_timestamp) as u32)
                    },
                }
            }),
    {
        // Listen 1 ms before the nominal interval end.
        let interval: u32 = self.lldata.connection_interval() - 1000;
        match self.conn_interval_start {
            Some(start_time) => {
                let interval_ended = rx_timestamp >= (interval + start_time) - 150;
                (interval_ended, Some(interval + start_time))
            },
            None => {
                self.conn_interval_start = Some(rx_timestamp);
                (false, Some(interval + rx_timestamp))
            },
        }
    }

    /// The supervision timeout in microseconds: the parameter is in 10 ms
    /// units, with a 25% margin.
    pub fn calculate_conn_supervision_timeout(&self) -> (r: u32)
        ensures
            r == ((self.lldata.timeout as int) * 5000 / 4) * 10,
    {
        ((self.lldata.timeout as u32) * 1000 * 5 / 4) * 10
    }
}

/// How many bits the first `i` bytes of the channel map set.
pub open spec fn partial_map_ones(m: ChannelMap, i: int) -> int
    decreases i,
{
    if i <= 0 {
        0
    } else {
        partial_map_ones(m, i - 1) + bit_count(m.0[i - 1])
    }
}

/// The flags byte of a data-packet header, decoded.
#[derive(Clone, Copy, Debug, PartialEq, Eq, Structural)]
pub struct DataHeader {
    /// Whether the peer announces more data in this event.
    pub more_data: bool,
    /// The packet's sequence number bit.
    pub sequence_number: u8,
    /// The sequence number the peer expects next.
    pub next_expected_sequence_number: u8,
    /// Logical link identifier of the packet.
    pub llid: u8,
}

} // verus!
