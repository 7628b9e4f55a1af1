//! Device state machine of the emulated cash-handling peripherals: per-device
//! protocol semantics (setup, poll, enable/disable, payout, levels) and the
//! stimulus entry points that simulate note and coin insertion.

use vstd::prelude::*;

use crate::essp_protocol::{
    CMD_COIN_MECH_GLOBAL_INHIBIT, CMD_DISABLE, CMD_ENABLE, CMD_ENABLE_PAYOUT, CMD_GET_ALL_LEVELS,
    CMD_GET_LEVELS_LEGACY, CMD_GET_ROUTING, CMD_HOST_PROTOCOL, CMD_PAYOUT, CMD_POLL,
    CMD_SETUP_REQUEST, CMD_SET_INHIBITS, CMD_SET_ROUTE, CMD_SYNC, EVENT_COINS_VALUE_ADDED,
    EVENT_CREDIT, EVENT_DISABLED, EVENT_DISPENSED, EVENT_DISPENSING, EVENT_READ, EVENT_RESET,
    RESPONSE_COMMAND_NOT_KNOWN, RESPONSE_OK,
};

verus! {

// Device types.
pub const UNIT_TYPE_NV200: u8 = 0x06;
pub const UNIT_TYPE_SMART_HOPPER: u8 = 0x09;

/// A three-letter ISO currency code, one ASCII byte per field.
#[derive(Clone, Copy, Debug, PartialEq, Eq, Structural)]
pub struct CurrencyCode {
    pub b0: u8,
    pub b1: u8,
    pub b2: u8,
}

/// The three wire bytes of a currency code.
pub open spec fn cc_bytes(c: CurrencyCode) -> Seq<u8> {
    seq![c.b0, c.b1, c.b2]
}

/// The BRL currency code ("BRL" in ASCII).
pub open spec fn spec_brl() -> CurrencyCode {
    CurrencyCode { b0: 0x42, b1: 0x52, b2: 0x4C }
}

/// The USD currency code ("USD" in ASCII).
pub open spec fn spec_usd() -> CurrencyCode {
    CurrencyCode { b0: 0x55, b1: 0x53, b2: 0x44 }
}

/// Little-endian wire form of a 32-bit value.
pub open spec fn u32_le_bytes(v: u32) -> Seq<u8> {
    seq![
        (v % 256) as u8,
        ((v / 256) % 256) as u8,
        ((v / 0x10000) % 256) as u8,
        ((v / 0x1000000) % 256) as u8,
    ]
}

/// Little-endian wire form of a 16-bit value.
pub open spec fn u16_le_bytes(v: u16) -> Seq<u8> {
    seq![(v % 256) as u8, (v / 256) as u8]
}

/// Append the little-endian bytes of a 32-bit value.
fn push_u32_le(out: &mut Vec<u8>, v: u32)
    ensures
        final(out)@ == old(out)@ + u32_le_bytes(v),
{
    out.push((v % 256) as u8);
    out.push(((v / 256) % 256) as u8);
    out.push(((v / 0x10000) % 256) as u8);
    out.push(((v / 0x1000000) % 256) as u8);
    proof {
        assert(out@ =~= old(out)@ + u32_le_bytes(v));
    }
}

/// Append the little-endian bytes of a 16-bit value.
fn push_u16_le(out: &mut Vec<u8>, v: u16)
    ensures
        final(out)@ == old(out)@ + u16_le_bytes(v),
{
    out.push((v % 256) as u8);
    out.push((v / 256) as u8);
    proof {
        assert(out@ =~= old(out)@ + u16_le_bytes(v));
    }
}

/// Append the three bytes of a currency code.
fn push_currency(out: &mut Vec<u8>, c: CurrencyCode)
    ensures
        final(out)@ == old(out)@ + cc_bytes(c),
{
    out.push(c.b0);
    out.push(c.b1);
    out.push(c.b2);
    proof {
        assert(out@ =~= old(out)@ + cc_bytes(c));
    }
}

/// An asynchronous notification queued by a device and delivered in batches
/// to the host's POLL command.
#[derive(Clone, Copy, Debug, PartialEq, Eq, Structural)]
pub struct PollEvent {
    pub event_code: u8,
    pub data1: u32,
    pub data2: u32,
    pub currency: CurrencyCode,
}

/// The event a freshly constructed `PollEvent` holds.
pub open spec fn spec_new_event(event_code: u8, data1: u32) -> PollEvent {
    PollEvent { event_code, data1, data2: 0, currency: spec_brl() }
}

/// Wire form of one poll event: the code byte, then a payload whose layout
/// depends on the code.
pub open spec fn spec_event_bytes(e: PollEvent) -> Seq<u8> {
    if e.event_code == EVENT_COINS_VALUE_ADDED || e.event_code == EVENT_DISPENSING
        || e.event_code == EVENT_DISPENSED {
        // 4-byte little-endian value followed by the 3-byte currency code.
        seq![e.event_code] + u32_le_bytes(e.data1) + cc_bytes(e.currency)
    } else if e.event_code == EVENT_READ || e.event_code == EVENT_CREDIT {
        // One byte holding the 1-based channel index (0 = unknown channel).
        seq![e.event_code, (e.data1 % 256) as u8]
    } else {
        // DISABLED, RESET and every reserved code carry no payload.
        seq![e.event_code]
    }
}

impl PollEvent {
    pub fn new(event_code: u8, data1: u32) -> (r: Self)
        ensures
            r == spec_new_event(event_code, data1),
    {
        Self { event_code, data1, data2: 0, currency: CurrencyCode { b0: 0x42, b1: 0x52, b2: 0x4C } }
    }

    /// Encode the event for an event block.
    pub fn to_bytes(&self) -> (r: Vec<u8>)
        ensures
            r@ == spec_event_bytes(*self),
    {
        let mut bytes: Vec<u8> = Vec::new();
        bytes.push(self.event_code);
        if self.event_code == EVENT_COINS_VALUE_ADDED || self.event_code == EVENT_DISPENSING
            || self.event_code == EVENT_DISPENSED {
            push_u32_le(&mut bytes, self.data1);
            push_currency(&mut bytes, self.currency);
        } else if self.event_code == EVENT_READ || self.event_code == EVENT_CREDIT {
            bytes.push((self.data1 % 256) as u8);
        }
        proof {
            assert(bytes@ =~= spec_event_bytes(*self));
        }
        bytes
    }
}

/// A denomination slot communicated to the host by its 1-based index.
#[derive(Clone, Copy, Debug, PartialEq, Eq, Structural)]
pub struct ChannelData {
    pub security: u8,
    /// Denomination value in minor currency units.
    pub value: u32,
    pub currency: CurrencyCode,
}

/// One entry of the denomination-to-count inventory.
#[derive(Clone, Copy, Debug, PartialEq, Eq, Structural)]
pub struct BalanceEntry {
    /// Denomination value in minor currency units.
    pub value: u32,
    /// How many pieces of that denomination the device holds.
    pub count: u16,
}

/// Device state for a single validator.
#[derive(Debug)]
pub struct DeviceState {
    pub address: u8,
    pub unit_type: u8,
    /// Exactly 4 space-padded ASCII bytes.
    pub firmware_version: Vec<u8>,
    pub protocol_version: u8,
    pub currency_code: CurrencyCode,
    pub enabled: bool,
    pub payout_enabled: bool,
    pub inhibit_mask_low: u8,
    pub inhibit_mask_high: u8,
    /// Inventory, a mapping denomination value -> held count (keys unique).
    pub balance: Vec<BalanceEntry>,
    /// Outbound events, oldest first.
    pub event_queue: Vec<PollEvent>,
    /// Fixed at construction; the wire channel number is the 1-based index.
    pub channels: Vec<ChannelData>,
}

impl DeviceState {
    /// Well-formedness: the channel and inventory tables fit their one-byte
    /// wire counters, the firmware version is 4 bytes, and the inventory
    /// keys are unique.
    pub open spec fn wf(self) -> bool {
        &&& self.firmware_version@.len() == 4
        &&& self.channels@.len() <= 255
        &&& self.balance@.len() <= 255
        &&& forall|i: int, j: int|
            0 <= i < j < self.balance@.len() ==> self.balance@[i].value != self.balance@[j].value
    }
}

/// The channel table of a freshly constructed note validator.
pub open spec fn spec_note_channels() -> Seq<ChannelData> {
    seq![
        ChannelData { security: 2, value: 200, currency: spec_brl() },
        ChannelData { security: 2, value: 500, currency: spec_brl() },
        ChannelData { security: 2, value: 1000, currency: spec_brl() },
        ChannelData { security: 2, value: 2000, currency: spec_brl() },
        ChannelData { security: 2, value: 5000, currency: spec_brl() },
        ChannelData { security: 2, value: 10000, currency: spec_brl() },
        ChannelData { security: 2, value: 20000, currency: spec_brl() },
    ]
}

/// The inventory of a freshly constructed note validator.
pub open spec fn spec_note_balance() -> Seq<BalanceEntry> {
    seq![
        BalanceEntry { value: 200, count: 10 },
        BalanceEntry { value: 500, count: 9 },
        BalanceEntry { value: 1000, count: 10 },
        BalanceEntry { value: 2000, count: 13 },
        BalanceEntry { value: 5000, count: 5 },
        BalanceEntry { value: 10000, count: 5 },
        BalanceEntry { value: 20000, count: 5 },
    ]
}

/// The channel table of a freshly constructed coin device.
pub open spec fn spec_coin_channels() -> Seq<ChannelData> {
    seq![
        ChannelData { security: 2, value: 1, currency: spec_usd() },
        ChannelData { security: 2, value: 5, currency: spec_usd() },
        ChannelData { security: 2, value: 10, currency: spec_usd() },
        ChannelData { security: 2, value: 25, currency: spec_usd() },
        ChannelData { security: 2, value: 50, currency: spec_usd() },
        ChannelData { security: 2, value: 100, currency: spec_usd() },
    ]
}

/// The inventory of a freshly constructed coin device.
pub open spec fn spec_coin_balance() -> Seq<BalanceEntry> {
    seq![
        BalanceEntry { value: 1, count: 15 },
        BalanceEntry { value: 5, count: 10 },
        BalanceEntry { value: 10, count: 3 },
        BalanceEntry { value: 25, count: 7 },
        BalanceEntry { value: 50, count: 5 },
        BalanceEntry { value: 100, count: 20 },
    ]
}

/// The firmware version bytes "1.00" every device reports.
pub open spec fn spec_firmware() -> Seq<u8> {
    seq![0x31u8, 0x2Eu8, 0x30u8, 0x30u8]
}

impl DeviceState {
    pub fn new_note_device(address: u8) -> (r: Self)
        ensures
            r.wf(),
            r.address == address,
            r.unit_type == UNIT_TYPE_NV200,
            r.firmware_version@ == spec_firmware(),
            r.protocol_version == 0x06,
            r.currency_code == spec_brl(),
            r.enabled == false,
            r.payout_enabled == false,
            r.inhibit_mask_low == 0,
            r.inhibit_mask_high == 0,
            r.balance@ == spec_note_balance(),
            r.channels@ == spec_note_channels(),
            r.event_queue@ == seq![spec_new_event(EVENT_RESET, 0)],
    {
        let balance: Vec<BalanceEntry> = vec![
            BalanceEntry { value: 200, count: 10 },
            BalanceEntry { value: 500, count: 9 },
            BalanceEntry { value: 1000, count: 10 },
            BalanceEntry { value: 2000, count: 13 },
            BalanceEntry { value: 5000, count: 5 },
            BalanceEntry { value: 10000, count: 5 },
            BalanceEntry { value: 20000, count: 5 },
        ];
        let brl = CurrencyCode { b0: 0x42, b1: 0x52, b2: 0x4C };
        let channels: Vec<ChannelData> = vec![
            ChannelData { security: 2, value: 200, currency: brl },
            ChannelData { security: 2, value: 500, currency: brl },
            ChannelData { security: 2, value: 1000, currency: brl },
            ChannelData { security: 2, value: 2000, currency: brl },
            ChannelData { security: 2, value: 5000, currency: brl },
            ChannelData { security: 2, value: 10000, currency: brl },
            ChannelData { security: 2, value: 20000, currency: brl },
        ];
        let event_queue: Vec<PollEvent> = vec![PollEvent::new(EVENT_RESET, 0)];
        let firmware_version: Vec<u8> = vec![0x31, 0x2E, 0x30, 0x30];
        proof {
            assert(balance@ =~= spec_note_balance());
            assert(channels@ =~= spec_note_channels());
            assert(event_queue@ =~= seq![spec_new_event(EVENT_RESET, 0)]);
            assert(firmware_version@ =~= spec_firmware());
        }
        Self {
            address,
            unit_type: UNIT_TYPE_NV200,
            firmware_version,
            protocol_version: 0x06,
            currency_code: brl,
            enabled: false,
            payout_enabled: false,
            inhibit_mask_low: 0x00,
            inhibit_mask_high: 0x00,
            balance,
            event_queue,
            channels,
        }
    }

    pub fn new_coin_device(address: u8) -> (r: Self)
        ensures
            r.wf(),
            r.address == address,
            r.unit_type == UNIT_TYPE_SMART_HOPPER,
            r.firmware_version@ == spec_firmware(),
            r.protocol_version == 0x06,
            r.currency_code == spec_usd(),
            r.enabled == false,
            r.payout_enabled == false,
            r.inhibit_mask_low == 0,
            r.inhibit_mask_high == 0,
            r.balance@ == spec_coin_balance(),
            r.channels@ == spec_coin_channels(),
            r.event_queue@ == seq![spec_new_event(EVENT_RESET, 0)],
    {
        let balance: Vec<BalanceEntry> = vec![
            BalanceEntry { value: 1, count: 15 },
            BalanceEntry { value: 5, count: 10 },
            BalanceEntry { value: 10, count: 3 },
            BalanceEntry { value: 25, count: 7 },
            BalanceEntry { value: 50, count: 5 },
            BalanceEntry { value: 100, count: 20 },
        ];
        let usd = CurrencyCode { b0: 0x55, b1: 0x53, b2: 0x44 };
        let channels: Vec<ChannelData> = vec![
            ChannelData { security: 2, value: 1, currency: usd },
            ChannelData { security: 2, value: 5, currency: usd },
            ChannelData { security: 2, value: 10, currency: usd },
            ChannelData { security: 2, value: 25, currency: usd },
            ChannelData { security: 2, value: 50, currency: usd },
            ChannelData { security: 2, value: 100, currency: usd },
        ];
        let event_queue: Vec<PollEvent> = vec![PollEvent::new(EVENT_RESET, 0)];
        let firmware_version: Vec<u8> = vec![0x31, 0x2E, 0x30, 0x30];
        proof {
            assert(balance@ =~= spec_coin_balance());
            assert(channels@ =~= spec_coin_channels());
            assert(event_queue@ =~= seq![spec_new_event(EVENT_RESET, 0)]);
            assert(firmware_version@ =~= spec_firmware());
        }
        Self {
            address,
            unit_type: UNIT_TYPE_SMART_HOPPER,
            firmware_version,
            protocol_version: 0x06,
            currency_code: usd,
            enabled: false,
            payout_enabled: false,
            inhibit_mask_low: 0x00,
            inhibit_mask_high: 0x00,
            balance,
            event_queue,
            channels,
        }
    }
}

/// Legacy per-channel value bytes of the setup block: each channel's value
/// divided by the multiplier 100, truncated to one byte.
pub open spec fn legacy_value_bytes(chs: Seq<ChannelData>) -> Seq<u8>
    decreases chs.len(),
{
    if chs.len() == 0 {
        Seq::empty()
    } else {
        seq![((chs[0].value / 100) % 256) as u8] + legacy_value_bytes(chs.skip(1))
    }
}

/// Legacy per-channel security bytes of the setup block.
pub open spec fn legacy_security_bytes(chs: Seq<ChannelData>) -> Seq<u8>
    decreases chs.len(),
{
    if chs.len() == 0 {
        Seq::empty()
    } else {
        seq![chs[0].security] + legacy_security_bytes(chs.skip(1))
    }
}

/// Expanded channel block: per channel currency(3), pad(1), value as 4
/// little-endian bytes, security(1).
pub open spec fn expanded_channel_bytes(chs: Seq<ChannelData>) -> Seq<u8>
    decreases chs.len(),
{
    if chs.len() == 0 {
        Seq::empty()
    } else {
        cc_bytes(chs[0].currency) + seq![0u8] + u32_le_bytes(chs[0].value) + seq![chs[0].security]
            + expanded_channel_bytes(chs.skip(1))
    }
}

/// Header of the setup block, up to and including the channel count.
pub open spec fn spec_setup_header(d: DeviceState) -> Seq<u8> {
    seq![d.unit_type] + d.firmware_version@ + cc_bytes(d.currency_code)
        + seq![0u8, 0u8, 0u8, d.channels@.len() as u8]
}

/// The whole setup block a SETUP_REQUEST is answered with.
pub open spec fn spec_setup_response(d: DeviceState) -> Seq<u8> {
    spec_setup_header(d) + legacy_value_bytes(d.channels@) + legacy_security_bytes(d.channels@)
        + seq![100u8, 0u8, 0u8, d.protocol_version] + expanded_channel_bytes(d.channels@)
}

/// Per-denomination entries of the levels block: count(2 LE), value(4 LE),
/// currency(3) each.
pub open spec fn level_entry_bytes(bal: Seq<BalanceEntry>, c: CurrencyCode) -> Seq<u8>
    decreases bal.len(),
{
    if bal.len() == 0 {
        Seq::empty()
    } else {
        u16_le_bytes(bal[0].count) + u32_le_bytes(bal[0].value) + cc_bytes(c)
            + level_entry_bytes(bal.skip(1), c)
    }
}

/// The whole levels block a GET_ALL_LEVELS is answered with.
pub open spec fn spec_levels_response(d: DeviceState) -> Seq<u8> {
    seq![d.balance@.len() as u8] + level_entry_bytes(d.balance@, d.currency_code)
}

/// Concatenated wire forms of a run of events.
pub open spec fn events_bytes(evs: Seq<PollEvent>) -> Seq<u8>
    decreases evs.len(),
{
    if evs.len() == 0 {
        Seq::empty()
    } else {
        spec_event_bytes(evs[0]) + events_bytes(evs.skip(1))
    }
}

/// How many events one poll response delivers: at most 20.
pub open spec fn spec_poll_count(q: Seq<PollEvent>) -> int {
    if q.len() <= 20 {
        q.len() as int
    } else {
        20
    }
}

/// The event block a POLL is answered with: the delivered count, then the
/// oldest events in order; an empty queue synthesizes one DISABLED event.
pub open spec fn spec_poll_response(q: Seq<PollEvent>) -> Seq<u8> {
    if q.len() == 0 {
        seq![1u8] + spec_event_bytes(spec_new_event(EVENT_DISABLED, 0))
    } else {
        seq![spec_poll_count(q) as u8] + events_bytes(q.take(spec_poll_count(q)))
    }
}

impl DeviceState {
    /// Build the setup block describing this device.
    pub fn build_setup_response(&self) -> (r: Vec<u8>)
        requires
            self.wf(),
        ensures
            r@ == spec_setup_response(*self),
    {
        let mut response: Vec<u8> = Vec::new();
        response.push(self.unit_type);
        response.extend_from_slice(self.firmware_version.as_slice());
        push_currency(&mut response, self.currency_code);
        response.push(0);
        response.push(0);
        response.push(0);
        response.push(self.channels.len() as u8);
        proof {
            assert(response@ =~= spec_setup_header(*self));
        }

        let ghost header = spec_setup_header(*self);
        let mut i: usize = 0;
        proof {
            assert(self.channels@.skip(0) =~= self.channels@);
        }
        while i < self.channels.len()
            invariant
                i <= self.channels@.len(),
                response@ + legacy_value_bytes(self.channels@.skip(i as int)) == header
                    + legacy_value_bytes(self.channels@),
            decreases self.channels@.len() - i,
        {
            let v = self.channels[i].value;
            response.push(((v / 100) % 256) as u8);
            proof {
                assert(self.channels@.skip(i as int).skip(1) =~= self.channels@.skip(i + 1));
            }
            i = i + 1;
        }
        proof {
            assert(self.channels@.skip(self.channels@.len() as int)
                =~= Seq::<ChannelData>::empty());
            assert(response@ =~= header + legacy_value_bytes(self.channels@));
        }

        let ghost with_values = header + legacy_value_bytes(self.channels@);
        let mut j: usize = 0;
        proof {
            assert(self.channels@.skip(0) =~= self.channels@);
        }
        while j < self.channels.len()
            invariant
                j <= self.channels@.len(),
                response@ + legacy_security_bytes(self.channels@.skip(j as int)) == with_values
                    + legacy_security_bytes(self.channels@),
            decreases self.channels@.len() - j,
        {
            response.push(self.channels[j].security);
            proof {
                assert(self.channels@.skip(j as int).skip(1) =~= self.channels@.skip(j + 1));
            }
            j = j + 1;
        }
        proof {
            assert(self.channels@.skip(self.channels@.len() as int)
                =~= Seq::<ChannelData>::empty());
            assert(response@ =~= with_values + legacy_security_bytes(self.channels@));
        }

        response.push(100);
        response.push(0);
        response.push(0);
        response.push(self.protocol_version);
        let ghost with_mult = with_values + legacy_security_bytes(self.channels@)
            + seq![100u8, 0u8, 0u8, self.protocol_version];
        proof {
            assert(response@ =~= with_mult);
        }

        let mut k: usize = 0;
        proof {
            assert(self.channels@.skip(0) =~= self.channels@);
        }
        while k < self.channels.len()
            invariant
                k <= self.channels@.len(),
                response@ + expanded_channel_bytes(self.channels@.skip(k as int)) == with_mult
                    + expanded_channel_bytes(self.channels@),
            decreases self.channels@.len() - k,
        {
            let ch = self.channels[k];
            push_currency(&mut response, ch.currency);
            response.push(0);
            push_u32_le(&mut response, ch.value);
            response.push(ch.security);
            proof {
                assert(self.channels@.skip(k as int).skip(1) =~= self.channels@.skip(k + 1));
            }
            k = k + 1;
        }
        proof {
            assert(self.channels@.skip(self.channels@.len() as int)
                =~= Seq::<ChannelData>::empty());
            assert(response@ =~= spec_setup_response(*self));
        }
        response
    }

    /// Build the levels block reporting the inventory.
    pub fn build_levels_response(&self) -> (r: Vec<u8>)
        requires
            self.wf(),
        ensures
            r@ == spec_levels_response(*self),
    {
        let mut response: Vec<u8> = Vec::new();
        response.push(self.balance.len() as u8);
        let ghost header = seq![self.balance@.len() as u8];
        let mut i: usize = 0;
        proof {
            assert(self.balance@.skip(0) =~= self.balance@);
            assert(response@ =~= header);
        }
        while i < self.balance.len()
            invariant
                i <= self.balance@.len(),
                response@ + level_entry_bytes(self.balance@.skip(i as int), self.currency_code)
                    == header + level_entry_bytes(self.balance@, self.currency_code),
            decreases self.balance@.len() - i,
        {
            let entry = self.balance[i];
            push_u16_le(&mut response, entry.count);
            push_u32_le(&mut response, entry.value);
            push_currency(&mut response, self.currency_code);
            proof {
                assert(self.balance@.skip(i as int).skip(1) =~= self.balance@.skip(i + 1));
            }
            i = i + 1;
        }
        proof {
            assert(self.balance@.skip(self.balance@.len() as int) =~= Seq::<BalanceEntry>::empty());
            assert(response@ =~= spec_levels_response(*self));
        }
        response
    }

    /// Drain up to 20 queued events, oldest first, into an event block; an
    /// empty queue is answered with a single synthesized DISABLED event.
    pub fn build_poll_response(&mut self) -> (r: Vec<u8>)
        ensures
            r@ == spec_poll_response(old(self).event_queue@),
            final(self).event_queue@ == old(self).event_queue@.skip(
                spec_poll_count(old(self).event_queue@),
            ),
            *final(self) == (DeviceState {
                event_queue: final(self).event_queue,
                ..*old(self)
            }),
    {
        let mut response: Vec<u8> = Vec::new();
        if self.event_queue.len() == 0 {
            response.push(1);
            let ev = PollEvent::new(EVENT_DISABLED, 0);
            let ev_bytes = ev.to_bytes();
            response.extend_from_slice(ev_bytes.as_slice());
            proof {
                assert(old(self).event_queue@.skip(0) =~= old(self).event_queue@);
                assert(response@ =~= spec_poll_response(old(self).event_queue@));
            }
            return response;
        }

        let ghost q = old(self).event_queue@;
        let count: usize = if self.event_queue.len() < 20 {
            self.event_queue.len()
        } else {
            20
        };
        response.push(count as u8);
        let ghost header = seq![spec_poll_count(q) as u8];
        let mut k: usize = 0;
        proof {
            assert(response@ =~= header);
            assert(q.subrange(0, count as int) =~= q.take(spec_poll_count(q)));
        }
        while k < count
            invariant
                k <= count,
                count == spec_poll_count(q),
                count <= self.event_queue@.len() + k,
                self.event_queue@ == q.skip(k as int),
                response@ + events_bytes(q.subrange(k as int, count as int)) == header
                    + events_bytes(q.take(spec_poll_count(q))),
                *self == (DeviceState { event_queue: self.event_queue, ..*old(self) }),
            decreases count - k,
        {
            let ev = self.event_queue.remove(0);
            let ev_bytes = ev.to_bytes();
            response.extend_from_slice(ev_bytes.as_slice());
            proof {
                assert(self.event_queue@ =~= q.skip(k + 1));
                assert(q.subrange(k as int, count as int).skip(1)
                    =~= q.subrange(k + 1, count as int));
            }
            k = k + 1;
        }
        proof {
            assert(q.subrange(count as int, count as int) =~= Seq::<PollEvent>::empty());
            assert(response@ =~= spec_poll_response(q));
        }
        response
    }
}

/// Index of the highest-valued inventory entry with a nonzero count, or -1
/// if every count is zero.
pub open spec fn payout_index(bal: Seq<BalanceEntry>) -> int
    decreases bal.len(),
{
    if bal.len() == 0 {
        -1
    } else {
        let rest = payout_index(bal.drop_last());
        let last = bal.len() - 1;
        if bal[last].count > 0 && (rest < 0 || bal[last].value > bal[rest].value) {
            last
        } else {
            rest
        }
    }
}

/// `payout_index` names the highest-valued entry with a nonzero count, and
/// is negative exactly when every count is zero.
pub proof fn lemma_payout_index(bal: Seq<BalanceEntry>)
    ensures
        payout_index(bal) < 0 ==> forall|i: int| 0 <= i < bal.len() ==> bal[i].count == 0,
        payout_index(bal) >= 0 ==> {
            &&& 0 <= payout_index(bal) < bal.len()
            &&& bal[payout_index(bal)].count > 0
            &&& forall|i: int|
                0 <= i < bal.len() && bal[i].count > 0 ==> bal[i].value
                    <= bal[payout_index(bal)].value
        },
    decreases bal.len(),
{
    if bal.len() > 0 {
        lemma_payout_index(bal.drop_last());
        assert(forall|i: int| 0 <= i < bal.len() - 1 ==> bal[i] == bal.drop_last()[i]);
    }
}

/// The inventory after a payout: the highest-valued entry with a nonzero
/// count decremented by one; unchanged when every count is zero.
pub open spec fn spec_payout_balance(bal: Seq<BalanceEntry>) -> Seq<BalanceEntry> {
    let i = payout_index(bal);
    if i >= 0 {
        bal.update(i, BalanceEntry { value: bal[i].value, count: (bal[i].count - 1) as u16 })
    } else {
        bal
    }
}

/// 1-based wire channel index of the first channel holding `value`, or 0
/// when no channel does.
pub open spec fn channel_index_of(chs: Seq<ChannelData>, value: u32) -> int
    decreases chs.len(),
{
    if chs.len() == 0 {
        0
    } else if chs[0].value == value {
        1
    } else {
        let rest = channel_index_of(chs.skip(1), value);
        if rest == 0 {
            0
        } else {
            rest + 1
        }
    }
}

/// `channel_index_of` names the first matching channel, 1-based, and is 0
/// exactly when no channel matches.
pub proof fn lemma_channel_index_of(chs: Seq<ChannelData>, value: u32)
    ensures
        channel_index_of(chs, value) == 0 ==> forall|i: int|
            0 <= i < chs.len() ==> chs[i].value != value,
        channel_index_of(chs, value) != 0 ==> {
            &&& 1 <= channel_index_of(chs, value) <= chs.len()
            &&& chs[channel_index_of(chs, value) - 1].value == value
            &&& forall|i: int| 0 <= i < channel_index_of(chs, value) - 1 ==> chs[i].value != value
        },
    decreases chs.len(),
{
    if chs.len() > 0 && chs[0].value != value {
        lemma_channel_index_of(chs.skip(1), value);
        let rest = channel_index_of(chs.skip(1), value);
        if rest == 0 {
            assert forall|i: int| 0 <= i < chs.len() implies chs[i].value != value by {
                if i >= 1 {
                    assert(chs.skip(1)[i - 1] == chs[i]);
                }
            }
        } else {
            assert(chs[channel_index_of(chs, value) - 1] == chs.skip(1)[rest - 1]);
            assert forall|i: int|
                0 <= i < channel_index_of(chs, value) - 1 implies chs[i].value != value by {
                if i >= 1 {
                    assert(chs.skip(1)[i - 1] == chs[i]);
                }
            }
        }
    }
}

/// Index of the inventory entry holding `value`, or -1 when none does.
pub open spec fn balance_index_of(bal: Seq<BalanceEntry>, value: u32) -> int
    decreases bal.len(),
{
    if bal.len() == 0 {
        -1
    } else if bal[0].value == value {
        0
    } else {
        let rest = balance_index_of(bal.skip(1), value);
        if rest < 0 {
            -1
        } else {
            rest + 1
        }
    }
}

/// `balance_index_of` names the entry holding `value`, and is negative
/// exactly when no entry does.
pub proof fn lemma_balance_index_of(bal: Seq<BalanceEntry>, value: u32)
    ensures
        balance_index_of(bal, value) < 0 ==> forall|i: int|
            0 <= i < bal.len() ==> bal[i].value != value,
        balance_index_of(bal, value) >= 0 ==> {
            &&& 0 <= balance_index_of(bal, value) < bal.len()
            &&& bal[balance_index_of(bal, value)].value == value
        },
    decreases bal.len(),
{
    if bal.len() > 0 && bal[0].value != value {
        lemma_balance_index_of(bal.skip(1), value);
        let rest = balance_index_of(bal.skip(1), value);
        if rest < 0 {
            assert forall|i: int| 0 <= i < bal.len() implies bal[i].value != value by {
                if i >= 1 {
                    assert(bal.skip(1)[i - 1] == bal[i]);
                }
            }
        } else {
            assert(bal[balance_index_of(bal, value)] == bal.skip(1)[rest]);
        }
    }
}

/// The inventory after an insertion of `value`: its entry incremented by
/// one; unchanged when no entry holds `value`.
pub open spec fn spec_increment_balance(bal: Seq<BalanceEntry>, value: u32) -> Seq<BalanceEntry> {
    let i = balance_index_of(bal, value);
    if i >= 0 {
        bal.update(i, BalanceEntry { value, count: (bal[i].count + 1) as u16 })
    } else {
        bal
    }
}

/// The entry for `value` has room for one more piece (a machine limit of
/// the 16-bit counters).
pub open spec fn balance_has_headroom(bal: Seq<BalanceEntry>, value: u32) -> bool {
    balance_index_of(bal, value) >= 0 ==> bal[balance_index_of(bal, value)].count < 0xFFFF
}

impl DeviceState {
    /// Find the inventory entry holding `value`, if any.
    fn find_balance_index(&self, value: u32) -> (r: Option<usize>)
        ensures
            match r {
                Some(i) => i == balance_index_of(self.balance@, value),
                None => balance_index_of(self.balance@, value) < 0,
            },
    {
        let ghost bal = self.balance@;
        let mut i: usize = 0;
        while i < self.balance.len()
            invariant
                i <= bal.len(),
                bal == self.balance@,
                forall|k: int| 0 <= k < i ==> bal[k].value != value,
            decreases bal.len() - i,
        {
            if self.balance[i].value == value {
                proof {
                    lemma_balance_index_of(bal, value);
                    lemma_balance_index_first(bal, value);
                    let bi = balance_index_of(bal, value);
                    // bal[i] matches, so some entry matches and bi names the
                    // first one; nothing before i matches, so bi == i.
                    assert(bi >= 0);
                    if bi < i {
                        assert(bal[bi].value == value);
                        assert(false);
                    }
                    if bi > i {
                        assert(bal[i as int].value != value);
                        assert(false);
                    }
                }
                return Some(i);
            }
            i = i + 1;
        }
        proof {
            lemma_balance_index_of(bal, value);
        }
        None
    }

    /// Decrement the highest-valued nonzero denomination and queue the
    /// DISPENSING and DISPENSED events carrying the requested amount.
    pub fn handle_payout(&mut self, amount: u32)
        requires
            old(self).wf(),
        ensures
            final(self).wf(),
            final(self).balance@ == spec_payout_balance(old(self).balance@),
            final(self).event_queue@ == old(self).event_queue@ + seq![
                spec_new_event(EVENT_DISPENSING, amount),
                spec_new_event(EVENT_DISPENSED, amount),
            ],
            *final(self) == (DeviceState {
                balance: final(self).balance,
                event_queue: final(self).event_queue,
                ..*old(self)
            }),
    {
        self.event_queue.push(PollEvent::new(EVENT_DISPENSING, amount));
        self.event_queue.push(PollEvent::new(EVENT_DISPENSED, amount));
        proof {
            assert(self.event_queue@ =~= old(self).event_queue@ + seq![
                spec_new_event(EVENT_DISPENSING, amount),
                spec_new_event(EVENT_DISPENSED, amount),
            ]);
        }

        let ghost bal = self.balance@;
        let mut best: usize = 0;
        let mut found = false;
        let mut i: usize = 0;
        proof {
            assert(bal.take(0) =~= Seq::<BalanceEntry>::empty());
        }
        while i < self.balance.len()
            invariant
                i <= bal.len(),
                bal == self.balance@,
                !found ==> payout_index(bal.take(i as int)) < 0,
                found ==> best < i && payout_index(bal.take(i as int)) == best,
            decreases bal.len() - i,
        {
            let e = self.balance[i];
            proof {
                assert(bal.take(i + 1).drop_last() =~= bal.take(i as int));
                assert(bal.take(i + 1).last() == bal[i as int]);
            }
            if e.count > 0 && (!found || e.value > self.balance[best].value) {
                best = i;
                found = true;
            }
            i = i + 1;
        }
        proof {
            assert(bal.take(bal.len() as int) =~= bal);
        }
        if found {
            proof {
                lemma_payout_index(bal);
            }
            let cur = self.balance[best];
            self.balance[best] = BalanceEntry { value: cur.value, count: cur.count - 1 };
            proof {
                assert(self.balance@ =~= spec_payout_balance(bal));
                assert forall|i: int, j: int|
                    0 <= i < j < self.balance@.len() implies self.balance@[i].value
                    != self.balance@[j].value by {
                    assert(self.balance@[i].value == bal[i].value);
                    assert(self.balance@[j].value == bal[j].value);
                }
            }
        } else {
            proof {
                assert(self.balance@ =~= spec_payout_balance(bal));
            }
        }
    }
}

/// `balance_index_of` is the first match: nothing before it holds `value`.
pub proof fn lemma_balance_index_first(bal: Seq<BalanceEntry>, value: u32)
    ensures
        balance_index_of(bal, value) >= 0 ==> forall|i: int|
            0 <= i < balance_index_of(bal, value) ==> bal[i].value != value,
    decreases bal.len(),
{
    if bal.len() > 0 && bal[0].value != value && balance_index_of(bal, value) >= 0 {
        lemma_balance_index_of(bal.skip(1), value);
        lemma_balance_index_first(bal.skip(1), value);
        assert forall|i: int|
            0 <= i < balance_index_of(bal, value) implies bal[i].value != value by {
            if i >= 1 {
                assert(bal.skip(1)[i - 1] == bal[i]);
            }
        }
    }
}

impl DeviceState {
    /// Increment the inventory entry for `value`, if one exists.
    fn increment_balance(&mut self, value: u32)
        requires
            old(self).wf(),
            balance_has_headroom(old(self).balance@, value),
        ensures
            final(self).wf(),
            final(self).balance@ == spec_increment_balance(old(self).balance@, value),
            *final(self) == (DeviceState { balance: final(self).balance, ..*old(self) }),
    {
        let ghost bal = self.balance@;
        match self.find_balance_index(value) {
            Some(bi) => {
                proof {
                    lemma_balance_index_of(bal, value);
                }
                let cur = self.balance[bi];
                self.balance[bi] = BalanceEntry { value: cur.value, count: cur.count + 1 };
                proof {
                    lemma_balance_index_of(bal, value);
                    assert(self.balance@ =~= spec_increment_balance(bal, value));
                    assert forall|i: int, j: int|
                        0 <= i < j < self.balance@.len() implies self.balance@[i].value
                        != self.balance@[j].value by {
                        assert(self.balance@[i].value == bal[i].value);
                        assert(self.balance@[j].value == bal[j].value);
                    }
                }
            },
            None => {
                proof {
                    assert(self.balance@ =~= spec_increment_balance(bal, value));
                }
            },
        }
    }

    /// Simulated insertion of a banknote: effective only while enabled, and
    /// only when some channel carries the note's value; queues READ then
    /// CREDIT with the 1-based channel index and increments the inventory.
    pub fn insert_note(&mut self, value: u32)
        requires
            old(self).wf(),
            balance_has_headroom(old(self).balance@, value),
        ensures
            final(self).wf(),
            !old(self).enabled ==> *final(self) == *old(self),
            old(self).enabled ==> {
                let ch = channel_index_of(old(self).channels@, value);
                if ch == 0 {
                    *final(self) == *old(self)
                } else {
                    &&& final(self).balance@ == spec_increment_balance(old(self).balance@, value)
                    &&& final(self).event_queue@ == old(self).event_queue@ + seq![
                        spec_new_event(EVENT_READ, ch as u32),
                        spec_new_event(EVENT_CREDIT, ch as u32),
                    ]
                    &&& *final(self) == (DeviceState {
                        balance: final(self).balance,
                        event_queue: final(self).event_queue,
                        ..*old(self)
                    })
                }
            },
    {
        if !self.enabled {
            return ;
        }
        // Find the 1-based channel for this value; 0 means no channel.
        let ghost chs = self.channels@;
        let mut channel_idx: usize = 0;
        let mut i: usize = 0;
        while i < self.channels.len() && channel_idx == 0
            invariant
                i <= chs.len(),
                chs == self.channels@,
                chs.len() <= 255,
                channel_idx == 0 ==> forall|k: int| 0 <= k < i ==> chs[k].value != value,
                channel_idx != 0 ==> {
                    &&& channel_idx == i
                    &&& 1 <= channel_idx <= chs.len()
                    &&& chs[channel_idx - 1].value == value
                    &&& forall|k: int| 0 <= k < channel_idx - 1 ==> chs[k].value != value
                },
            decreases chs.len() - i,
        {
            if self.channels[i].value == value {
                channel_idx = i + 1;
            }
            i = i + 1;
        }
        proof {
            lemma_channel_index_of(chs, value);
            let ci = channel_index_of(chs, value);
            if channel_idx == 0 {
                assert(ci == 0) by {
                    if ci != 0 {
                        assert(chs[ci - 1].value == value);
                    }
                }
            } else {
                assert(ci == channel_idx) by {
                    if ci == 0 {
                        assert(chs[channel_idx - 1].value != value);
                    } else if ci < channel_idx {
                        assert(chs[ci - 1].value != value);
                    } else if ci > channel_idx {
                        assert(chs[channel_idx - 1].value != value);
                    }
                }
            }
        }

        if channel_idx > 0 {
            self.event_queue.push(PollEvent::new(EVENT_READ, channel_idx as u32));
            self.event_queue.push(PollEvent::new(EVENT_CREDIT, channel_idx as u32));
            proof {
                assert(self.event_queue@ =~= old(self).event_queue@ + seq![
                    spec_new_event(EVENT_READ, channel_idx as u32),
                    spec_new_event(EVENT_CREDIT, channel_idx as u32),
                ]);
            }
            self.increment_balance(value);
        }
    }

    /// Simulated insertion of coins: effective only while enabled; queues a
    /// COINS_VALUE_ADDED event carrying the raw value and increments the
    /// inventory.
    pub fn insert_coins(&mut self, value: u32)
        requires
            old(self).wf(),
            balance_has_headroom(old(self).balance@, value),
        ensures
            final(self).wf(),
            !old(self).enabled ==> *final(self) == *old(self),
            old(self).enabled ==> {
                &&& final(self).balance@ == spec_increment_balance(old(self).balance@, value)
                &&& final(self).event_queue@ == old(self).event_queue@ + seq![
                    spec_new_event(EVENT_COINS_VALUE_ADDED, value),
                ]
                &&& *final(self) == (DeviceState {
                    balance: final(self).balance,
                    event_queue: final(self).event_queue,
                    ..*old(self)
                })
            },
    {
        if self.enabled {
            self.event_queue.push(PollEvent::new(EVENT_COINS_VALUE_ADDED, value));
            proof {
                assert(self.event_queue@ =~= old(self).event_queue@ + seq![
                    spec_new_event(EVENT_COINS_VALUE_ADDED, value),
                ]);
            }
            self.increment_balance(value);
        }
    }
}

/// The 32-bit value read little-endian from four bytes.
pub open spec fn spec_u32_le(b0: u8, b1: u8, b2: u8, b3: u8) -> u32 {
    (b0 + b1 * 0x100 + b2 * 0x10000 + b3 * 0x1000000) as u32
}

/// The opcodes a device acts on.  SETUP_ENCRYPTION is deliberately absent:
/// encryption is always refused to force plaintext mode.
pub open spec fn known_opcode(op: u8) -> bool {
    ||| op == CMD_SYNC
    ||| op == CMD_HOST_PROTOCOL
    ||| op == CMD_SETUP_REQUEST
    ||| op == CMD_ENABLE
    ||| op == CMD_DISABLE
    ||| op == CMD_SET_INHIBITS
    ||| op == CMD_POLL
    ||| op == CMD_GET_ALL_LEVELS
    ||| op == CMD_GET_ROUTING
    ||| op == CMD_GET_LEVELS_LEGACY
    ||| op == CMD_ENABLE_PAYOUT
    ||| op == CMD_PAYOUT
    ||| op == CMD_SET_ROUTE
    ||| op == CMD_COIN_MECH_GLOBAL_INHIBIT
}

/// Status byte of the response: OK for an empty command and every known
/// opcode, COMMAND_NOT_KNOWN for everything else.
pub open spec fn spec_status(cmd: Seq<u8>) -> u8 {
    if cmd.len() == 0 || known_opcode(cmd[0]) {
        RESPONSE_OK
    } else {
        RESPONSE_COMMAND_NOT_KNOWN
    }
}

/// Response payload (after the status byte): the setup, event or levels
/// block for the commands that report one, empty for every other.
pub open spec fn spec_response_data(pre: DeviceState, cmd: Seq<u8>) -> Seq<u8> {
    if cmd.len() == 0 {
        Seq::empty()
    } else if cmd[0] == CMD_SETUP_REQUEST {
        spec_setup_response(pre)
    } else if cmd[0] == CMD_POLL {
        spec_poll_response(pre.event_queue@)
    } else if cmd[0] == CMD_GET_ALL_LEVELS || cmd[0] == CMD_GET_ROUTING
        || cmd[0] == CMD_GET_LEVELS_LEGACY {
        spec_levels_response(pre)
    } else {
        Seq::empty()
    }
}

/// How a command transforms the device state.
pub open spec fn handle_state_rel(pre: DeviceState, post: DeviceState, cmd: Seq<u8>) -> bool {
    if cmd.len() == 0 {
        post == pre
    } else {
        let op = cmd[0];
        if op == CMD_ENABLE {
            post == (DeviceState { enabled: true, ..pre })
        } else if op == CMD_DISABLE {
            &&& post == (DeviceState { enabled: false, event_queue: post.event_queue, ..pre })
            &&& post.event_queue@ == pre.event_queue@.push(spec_new_event(EVENT_DISABLED, 0))
        } else if op == CMD_SET_INHIBITS {
            if cmd.len() >= 3 {
                post == (DeviceState {
                    inhibit_mask_low: cmd[1],
                    inhibit_mask_high: cmd[2],
                    ..pre
                })
            } else {
                post == pre
            }
        } else if op == CMD_POLL {
            &&& post == (DeviceState { event_queue: post.event_queue, ..pre })
            &&& post.event_queue@ == pre.event_queue@.skip(spec_poll_count(pre.event_queue@))
        } else if op == CMD_ENABLE_PAYOUT {
            post == (DeviceState { payout_enabled: true, ..pre })
        } else if op == CMD_PAYOUT {
            if cmd.len() >= 9 {
                let amount = spec_u32_le(cmd[1], cmd[2], cmd[3], cmd[4]);
                &&& post == (DeviceState {
                    balance: post.balance,
                    event_queue: post.event_queue,
                    ..pre
                })
                &&& post.balance@ == spec_payout_balance(pre.balance@)
                &&& post.event_queue@ == pre.event_queue@ + seq![
                    spec_new_event(EVENT_DISPENSING, amount),
                    spec_new_event(EVENT_DISPENSED, amount),
                ]
            } else {
                post == pre
            }
        } else if op == CMD_COIN_MECH_GLOBAL_INHIBIT {
            if cmd.len() >= 2 {
                post == (DeviceState { enabled: cmd[1] != 0, ..pre })
            } else {
                post == pre
            }
        } else {
            // SYNC, HOST_PROTOCOL, SETUP_REQUEST, the levels queries,
            // SET_ROUTE, SETUP_ENCRYPTION and every unknown opcode leave
            // the state unchanged.
            post == pre
        }
    }
}

/// A poll never loses, duplicates or reorders events: what it delivers,
/// followed by what stays queued, is exactly the queue it found.
pub proof fn lemma_poll_no_loss(q: Seq<PollEvent>)
    ensures
        q.take(spec_poll_count(q)) + q.skip(spec_poll_count(q)) == q,
{
    assert(q.take(spec_poll_count(q)) + q.skip(spec_poll_count(q)) =~= q);
}

impl DeviceState {
    /// Interpret a decoded command payload (`cmd[0]` = opcode, the rest its
    /// arguments) and return the status byte and the response payload.
    pub fn handle_command(&mut self, cmd: &[u8]) -> (r: (u8, Vec<u8>))
        requires
            old(self).wf(),
        ensures
            final(self).wf(),
            handle_state_rel(*old(self), *final(self), cmd@),
            r.0 == spec_status(cmd@),
            r.1@ == spec_response_data(*old(self), cmd@),
    {
        if cmd.len() == 0 {
            return (RESPONSE_OK, Vec::new());
        }
        let op = cmd[0];
        if op == CMD_SYNC || op == CMD_HOST_PROTOCOL || op == CMD_SET_ROUTE {
            (RESPONSE_OK, Vec::new())
        } else if op == CMD_SETUP_REQUEST {
            let response = self.build_setup_response();
            (RESPONSE_OK, response)
        } else if op == CMD_ENABLE {
            self.enabled = true;
            (RESPONSE_OK, Vec::new())
        } else if op == CMD_DISABLE {
            self.enabled = false;
            self.event_queue.push(PollEvent::new(EVENT_DISABLED, 0));
            (RESPONSE_OK, Vec::new())
        } else if op == CMD_SET_INHIBITS {
            if cmd.len() >= 3 {
                self.inhibit_mask_low = cmd[1];
                self.inhibit_mask_high = cmd[2];
            }
            (RESPONSE_OK, Vec::new())
        } else if op == CMD_POLL {
            let response = self.build_poll_response();
            (RESPONSE_OK, response)
        } else if op == CMD_GET_ALL_LEVELS || op == CMD_GET_ROUTING
            || op == CMD_GET_LEVELS_LEGACY {
            let response = self.build_levels_response();
            (RESPONSE_OK, response)
        } else if op == CMD_ENABLE_PAYOUT {
            self.payout_enabled = true;
            (RESPONSE_OK, Vec::new())
        } else if op == CMD_PAYOUT {
            if cmd.len() >= 9 {
                let amount: u32 = cmd[1] as u32 + cmd[2] as u32 * 0x100 + cmd[3] as u32 * 0x10000
                    + cmd[4] as u32 * 0x1000000;
                self.handle_payout(amount);
            }
            (RESPONSE_OK, Vec::new())
        } else if op == CMD_COIN_MECH_GLOBAL_INHIBIT {
            if cmd.len() >= 2 {
                self.enabled = cmd[1] != 0;
            }
            (RESPONSE_OK, Vec::new())
        } else {
            // Unknown opcodes, including SETUP_ENCRYPTION, are refused.
            (RESPONSE_COMMAND_NOT_KNOWN, Vec::new())
        }
    }
}

} // verus!
