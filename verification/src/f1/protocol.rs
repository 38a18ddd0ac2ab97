//! What the packet formats have in common: rejections, field access, the
//! packet header and the state that pairs packets into telemetry frames.
use crate::binary32::Binary32;
use crate::text::{byte_list_text, decimal, decimal_text, joined_decimals};
use vstd::prelude::*;
use vstd::string::*;

verus! {

/// Length of the header that starts every packet.
pub const HEADER_LEN: usize = 29;

/// Why a datagram was rejected.
#[derive(Debug, Clone, Copy, PartialEq, Eq, Structural)]
pub enum RejectReason {
    HeaderLength,
    HeaderField,
    PacketFormat,
    GameYear,
    PacketVersion,
    PacketLength,
    PlayerIndex,
    PayloadField,
    InvalidValue,
    Other,
}

/// Number of rejection reasons.
pub const REJECT_REASON_COUNT: usize = 10;

impl RejectReason {
    /// The position of the reason in [`RejectReason::all`].
    pub open spec fn position(self) -> nat {
        match self {
            RejectReason::HeaderLength => 0,
            RejectReason::HeaderField => 1,
            RejectReason::PacketFormat => 2,
            RejectReason::GameYear => 3,
            RejectReason::PacketVersion => 4,
            RejectReason::PacketLength => 5,
            RejectReason::PlayerIndex => 6,
            RejectReason::PayloadField => 7,
            RejectReason::InvalidValue => 8,
            RejectReason::Other => 9,
        }
    }

    /// The name of the reason in logs.
    pub open spec fn name(self) -> Seq<char> {
        match self {
            RejectReason::HeaderLength => "header_length"@,
            RejectReason::HeaderField => "header_field"@,
            RejectReason::PacketFormat => "packet_format"@,
            RejectReason::GameYear => "game_year"@,
            RejectReason::PacketVersion => "packet_version"@,
            RejectReason::PacketLength => "packet_length"@,
            RejectReason::PlayerIndex => "player_index"@,
            RejectReason::PayloadField => "payload_field"@,
            RejectReason::InvalidValue => "invalid_value"@,
            RejectReason::Other => "other"@,
        }
    }

    /// Every reason, each at its own position.
    pub fn all() -> (r: [RejectReason; 10])
        ensures
            forall|i: int| 0 <= i < 10 ==> (#[trigger] r@[i]).position() == i,
    {
        [
            RejectReason::HeaderLength,
            RejectReason::HeaderField,
            RejectReason::PacketFormat,
            RejectReason::GameYear,
            RejectReason::PacketVersion,
            RejectReason::PacketLength,
            RejectReason::PlayerIndex,
            RejectReason::PayloadField,
            RejectReason::InvalidValue,
            RejectReason::Other,
        ]
    }

    /// The position of the reason, below [`REJECT_REASON_COUNT`].
    pub fn index(self) -> (r: usize)
        ensures
            r == self.position(),
            r < REJECT_REASON_COUNT,
    {
        match self {
            RejectReason::HeaderLength => 0,
            RejectReason::HeaderField => 1,
            RejectReason::PacketFormat => 2,
            RejectReason::GameYear => 3,
            RejectReason::PacketVersion => 4,
            RejectReason::PacketLength => 5,
            RejectReason::PlayerIndex => 6,
            RejectReason::PayloadField => 7,
            RejectReason::InvalidValue => 8,
            RejectReason::Other => 9,
        }
    }

    /// The name of the reason in logs.
    pub fn as_str(self) -> (r: &'static str)
        ensures
            r@ == self.name(),
    {
        match self {
            RejectReason::HeaderLength => "header_length",
            RejectReason::HeaderField => "header_field",
            RejectReason::PacketFormat => "packet_format",
            RejectReason::GameYear => "game_year",
            RejectReason::PacketVersion => "packet_version",
            RejectReason::PacketLength => "packet_length",
            RejectReason::PlayerIndex => "player_index",
            RejectReason::PayloadField => "payload_field",
            RejectReason::InvalidValue => "invalid_value",
            RejectReason::Other => "other",
        }
    }
}

/// Two reasons with the same position are the same.
pub proof fn law_reason_positions_are_distinct(a: RejectReason, b: RejectReason)
    ensures
        a.position() == b.position() <==> a == b,
        a.position() < REJECT_REASON_COUNT,
{
}

/// A rejected datagram, with a message for the log.
#[derive(Debug)]
pub struct DecodeRejection {
    pub reason: RejectReason,
    pub detail: String,
}

/// The content of a [`DecodeRejection`].
pub struct Rejected {
    pub reason: RejectReason,
    pub detail: Seq<char>,
}

impl View for DecodeRejection {
    type V = Rejected;

    open spec fn view(&self) -> Rejected {
        Rejected { reason: self.reason, detail: self.detail@ }
    }
}

/// Whether a result is the expected value, or the expected rejection.
pub open spec fn outcome<T>(r: Result<T, DecodeRejection>, expected: Result<T, Rejected>) -> bool {
    match (r, expected) {
        (Ok(value), Ok(wanted)) => value == wanted,
        (Err(rejection), Err(wanted)) => rejection@ == wanted,
        _ => false,
    }
}

/// A rejection for the given reason.
pub open spec fn rejection<T>(reason: RejectReason, detail: Seq<char>) -> Result<T, Rejected> {
    Err(Rejected { reason, detail })
}

/// Makes a rejection.
pub fn reject(reason: RejectReason, detail: String) -> (r: DecodeRejection)
    ensures
        r@ == (Rejected { reason, detail: detail@ }),
{
    DecodeRejection { reason, detail }
}

/// The reason of a rejection.
pub fn reject_reason(error: &DecodeRejection) -> (r: RejectReason)
    ensures
        r == error@.reason,
{
    error.reason
}

/// The little-endian number in the `count` bytes from `offset` on.
pub open spec fn little_endian(bytes: Seq<u8>, offset: int, count: nat) -> nat
    decreases count,
{
    if count == 0 {
        0
    } else {
        (bytes[offset] + 256 * little_endian(bytes, offset + 1, (count - 1) as nat)) as nat
    }
}

/// Whether `count` bytes can be read from `offset` on.
pub open spec fn holds(bytes: Seq<u8>, offset: int, count: int) -> bool {
    offset + count <= bytes.len()
}

/// The byte at `offset`.
pub open spec fn u8_at(bytes: Seq<u8>, offset: int) -> Result<u8, Rejected> {
    if holds(bytes, offset, 1) {
        Ok(bytes[offset])
    } else {
        rejection(RejectReason::PayloadField, "truncated F1 u8"@)
    }
}

/// The two's-complement byte at `offset`.
pub open spec fn i8_at(bytes: Seq<u8>, offset: int) -> Result<i8, Rejected> {
    match u8_at(bytes, offset) {
        Ok(byte) => Ok(if byte < 128 {
            byte as i8
        } else {
            (byte - 256) as i8
        }),
        Err(rejected) => Err(rejected),
    }
}

/// The 16-bit number at `offset`.
pub open spec fn u16_at(bytes: Seq<u8>, offset: int) -> Result<u16, Rejected> {
    if holds(bytes, offset, 2) {
        Ok(little_endian(bytes, offset, 2) as u16)
    } else {
        rejection(RejectReason::PayloadField, "truncated F1 u16"@)
    }
}

/// The 32-bit number at `offset`.
pub open spec fn u32_at(bytes: Seq<u8>, offset: int) -> Result<u32, Rejected> {
    if holds(bytes, offset, 4) {
        Ok(little_endian(bytes, offset, 4) as u32)
    } else {
        rejection(RejectReason::PayloadField, "truncated F1 u32"@)
    }
}

/// The 64-bit number at `offset`.
pub open spec fn u64_at(bytes: Seq<u8>, offset: int) -> Result<u64, Rejected> {
    if holds(bytes, offset, 8) {
        Ok(little_endian(bytes, offset, 8) as u64)
    } else {
        rejection(RejectReason::PayloadField, "truncated F1 u64"@)
    }
}

/// The single-precision number at `offset`.
pub open spec fn f32_at(bytes: Seq<u8>, offset: int) -> Result<Binary32, Rejected> {
    if holds(bytes, offset, 4) {
        Ok(Binary32 { bits: little_endian(bytes, offset, 4) as u32 })
    } else {
        rejection(RejectReason::PayloadField, "truncated F1 f32"@)
    }
}

/// The four single-precision numbers at `offset`, in the order of the packet.
pub open spec fn arr4_at(bytes: Seq<u8>, offset: int) -> Result<[Binary32; 4], Rejected> {
    match f32_at(bytes, offset + 12) {
        Ok(_) => Ok(
            [
                f32_at(bytes, offset)->Ok_0,
                f32_at(bytes, offset + 4)->Ok_0,
                f32_at(bytes, offset + 8)->Ok_0,
                f32_at(bytes, offset + 12)->Ok_0,
            ],
        ),
        Err(rejected) => Err(rejected),
    }
}

proof fn lemma_little_endian_4(bytes: Seq<u8>, offset: int)
    ensures
        little_endian(bytes, offset, 2) == bytes[offset] + 256 * bytes[offset + 1],
        little_endian(bytes, offset, 4) == bytes[offset] + 256 * bytes[offset + 1] + 65536 * bytes[offset + 2]
            + 16777216 * bytes[offset + 3],
{
    reveal_with_fuel(little_endian, 5);
}

/// Reads the byte at `offset`.
pub fn read_u8(bytes: &[u8], offset: usize) -> (r: Result<u8, DecodeRejection>)
    ensures
        outcome(r, u8_at(bytes@, offset as int)),
{
    if offset < bytes.len() {
        Ok(bytes[offset])
    } else {
        Err(reject(RejectReason::PayloadField, "truncated F1 u8".to_owned()))
    }
}

/// Reads the two's-complement byte at `offset`.
pub fn read_i8(bytes: &[u8], offset: usize) -> (r: Result<i8, DecodeRejection>)
    ensures
        outcome(r, i8_at(bytes@, offset as int)),
{
    let byte: u8 = read_u8(bytes, offset)?;
    if byte < 128 {
        Ok(byte as i8)
    } else {
        Ok((byte as i16 - 256) as i8)
    }
}

/// Reads the 16-bit number at `offset`.
pub fn read_u16(bytes: &[u8], offset: usize) -> (r: Result<u16, DecodeRejection>)
    ensures
        outcome(r, u16_at(bytes@, offset as int)),
{
    if bytes.len() < 2 || offset > bytes.len() - 2 {
        return Err(reject(RejectReason::PayloadField, "truncated F1 u16".to_owned()));
    }
    proof {
        lemma_little_endian_4(bytes@, offset as int);
    }
    Ok(bytes[offset] as u16 + 256 * (bytes[offset + 1] as u16))
}

fn le_u32(bytes: &[u8], offset: usize) -> (r: u32)
    requires
        offset + 4 <= bytes@.len(),
    ensures
        r == little_endian(bytes@, offset as int, 4),
{
    proof {
        lemma_little_endian_4(bytes@, offset as int);
    }
    bytes[offset] as u32 + 256 * (bytes[offset + 1] as u32) + 65536 * (bytes[offset + 2] as u32) + 16777216 * (
    bytes[offset + 3] as u32)
}

/// Reads the 32-bit number at `offset`.
pub fn read_u32(bytes: &[u8], offset: usize) -> (r: Result<u32, DecodeRejection>)
    ensures
        outcome(r, u32_at(bytes@, offset as int)),
{
    if bytes.len() < 4 || offset > bytes.len() - 4 {
        return Err(reject(RejectReason::PayloadField, "truncated F1 u32".to_owned()));
    }
    Ok(le_u32(bytes, offset))
}

/// Reads the 64-bit number at `offset`.
pub fn read_u64(bytes: &[u8], offset: usize) -> (r: Result<u64, DecodeRejection>)
    ensures
        outcome(r, u64_at(bytes@, offset as int)),
{
    if bytes.len() < 8 || offset > bytes.len() - 8 {
        return Err(reject(RejectReason::PayloadField, "truncated F1 u64".to_owned()));
    }
    let low: u64 = le_u32(bytes, offset) as u64;
    let high: u64 = le_u32(bytes, offset + 4) as u64;
    proof {
        reveal_with_fuel(little_endian, 9);
    }
    Ok(low + 4294967296 * high)
}

/// Reads the single-precision number at `offset`.
pub fn read_f32(bytes: &[u8], offset: usize) -> (r: Result<Binary32, DecodeRejection>)
    ensures
        outcome(r, f32_at(bytes@, offset as int)),
{
    if bytes.len() < 4 || offset > bytes.len() - 4 {
        return Err(reject(RejectReason::PayloadField, "truncated F1 f32".to_owned()));
    }
    Ok(Binary32 { bits: le_u32(bytes, offset) })
}

/// Reads four single-precision numbers from `offset` on, in the order of the
/// packet.
pub fn read_arr4(bytes: &[u8], offset: usize) -> (r: Result<[Binary32; 4], DecodeRejection>)
    ensures
        outcome(r, arr4_at(bytes@, offset as int)),
{
    if bytes.len() < 16 || offset > bytes.len() - 16 {
        return Err(reject(RejectReason::PayloadField, "truncated F1 f32".to_owned()));
    }
    let values: [Binary32; 4] = [
        read_f32(bytes, offset)?,
        read_f32(bytes, offset + 4)?,
        read_f32(bytes, offset + 8)?,
        read_f32(bytes, offset + 12)?,
    ];
    proof {
        assert(values@ =~= arr4_at(bytes@, offset as int)->Ok_0@);
    }
    Ok(values)
}

/// The format identifier at the start of a packet.
pub open spec fn format_of(bytes: Seq<u8>) -> Result<u16, Rejected> {
    if bytes.len() < 2 {
        rejection(RejectReason::HeaderField, "F1 packet missing format identifier"@)
    } else {
        Ok(little_endian(bytes, 0, 2) as u16)
    }
}

/// Reads the format identifier at the start of a packet.
pub fn packet_format(bytes: &[u8]) -> (r: Result<u16, DecodeRejection>)
    ensures
        outcome(r, format_of(bytes@)),
{
    if bytes.len() < 2 {
        return Err(reject(RejectReason::HeaderField, "F1 packet missing format identifier".to_owned()));
    }
    proof {
        lemma_little_endian_4(bytes@, 0);
    }
    Ok(bytes[0] as u16 + 256 * (bytes[1] as u16))
}

/// The header fields that decoders use.
#[derive(Debug, Clone, Copy, PartialEq, Eq, Structural)]
pub struct Header {
    pub packet_version: u8,
    pub packet_id: u8,
    pub session_uid: u64,
    pub session_time: Binary32,
    pub frame_identifier: u32,
    pub overall_frame_identifier: u32,
    pub player_car_index: usize,
}

/// The header fields of a packet that is long enough to have them.
pub open spec fn header_fields(bytes: Seq<u8>) -> Header {
    Header {
        packet_version: bytes[5],
        packet_id: bytes[6],
        session_uid: little_endian(bytes, 7, 8) as u64,
        session_time: Binary32 { bits: little_endian(bytes, 15, 4) as u32 },
        frame_identifier: little_endian(bytes, 19, 4) as u32,
        overall_frame_identifier: little_endian(bytes, 23, 4) as u32,
        player_car_index: bytes[27] as usize,
    }
}

/// The header of a packet, or why it is not acceptable: too short, another
/// format, a foreign game year (zero is always accepted) or a player index
/// beyond the car limit, tested in this order.
pub open spec fn header_of(bytes: Seq<u8>, expected_format: u16, accepted_game_years: Seq<u8>, max_cars: usize) -> Result<
    Header,
    Rejected,
> {
    let format = little_endian(bytes, 0, 2) as u16;
    if bytes.len() < HEADER_LEN {
        rejection(
            RejectReason::HeaderLength,
            "F1 packet shorter than header: "@ + decimal(bytes.len()) + "; expected at least 29"@,
        )
    } else if format != expected_format {
        rejection(
            RejectReason::PacketFormat,
            "wrong F1 UDP format "@ + decimal(format as nat) + "; expected "@ + decimal(expected_format as nat),
        )
    } else if bytes[2] != 0 && !accepted_game_years.contains(bytes[2]) {
        rejection(
            RejectReason::GameYear,
            "wrong F1 game year "@ + decimal(bytes[2] as nat) + "; expected one of "@ + ("["@ + joined_decimals(
                accepted_game_years,
            ) + "]"@),
        )
    } else if bytes[27] >= max_cars {
        rejection(
            RejectReason::PlayerIndex,
            "invalid F1 player car index "@ + decimal(bytes[27] as nat) + "; car count is "@ + decimal(
                max_cars as nat,
            ),
        )
    } else {
        Ok(header_fields(bytes))
    }
}

fn contains_byte(items: &[u8], wanted: u8) -> (r: bool)
    ensures
        r == items@.contains(wanted),
{
    let mut i: usize = 0;
    while i < items.len()
        invariant
            i <= items@.len(),
            forall|j: int| 0 <= j < i ==> items@[j] != wanted,
        decreases items@.len() - i,
    {
        if items[i] == wanted {
            return true;
        }
        i = i + 1;
    }
    false
}

/// Reads the header that all packet formats share. Variant decoders supply
/// their own identity and car limit.
pub fn parse_header(bytes: &[u8], expected_format: u16, accepted_game_years: &[u8], max_cars: usize) -> (r: Result<
    Header,
    DecodeRejection,
>)
    ensures
        outcome(r, header_of(bytes@, expected_format, accepted_game_years@, max_cars)),
{
    if bytes.len() < HEADER_LEN {
        let mut detail = "F1 packet shorter than header: ".to_owned();
        detail.append(decimal_text(bytes.len() as u64).as_str());
        detail.append("; expected at least 29");
        return Err(reject(RejectReason::HeaderLength, detail));
    }
    let format: u16 = packet_format(bytes)?;
    if format != expected_format {
        let mut detail = "wrong F1 UDP format ".to_owned();
        detail.append(decimal_text(format as u64).as_str());
        detail.append("; expected ");
        detail.append(decimal_text(expected_format as u64).as_str());
        return Err(reject(RejectReason::PacketFormat, detail));
    }
    let game_year: u8 = bytes[2];
    if game_year != 0 && !contains_byte(accepted_game_years, game_year) {
        let mut detail = "wrong F1 game year ".to_owned();
        detail.append(decimal_text(game_year as u64).as_str());
        detail.append("; expected one of ");
        detail.append(byte_list_text(accepted_game_years).as_str());
        return Err(reject(RejectReason::GameYear, detail));
    }
    let player_car_index: usize = bytes[27] as usize;
    if player_car_index >= max_cars {
        let mut detail = "invalid F1 player car index ".to_owned();
        detail.append(decimal_text(player_car_index as u64).as_str());
        detail.append("; car count is ");
        detail.append(decimal_text(max_cars as u64).as_str());
        return Err(reject(RejectReason::PlayerIndex, detail));
    }
    Ok(
        Header {
            packet_version: bytes[5],
            packet_id: bytes[6],
            session_uid: read_u64(bytes, 7)?,
            session_time: read_f32(bytes, 15)?,
            frame_identifier: read_u32(bytes, 19)?,
            overall_frame_identifier: read_u32(bytes, 23)?,
            player_car_index,
        },
    )
}

/// Whether a packet has the supported version and the expected length, the
/// version being tested first.
pub open spec fn packet_check(bytes: Seq<u8>, expected_len: usize, version: u8) -> Result<(), Rejected> {
    if version != 1 {
        rejection(
            RejectReason::PacketVersion,
            "unsupported F1 packet version "@ + decimal(version as nat) + "; expected 1"@,
        )
    } else if bytes.len() != expected_len {
        rejection(
            RejectReason::PacketLength,
            "wrong F1 packet length "@ + decimal(bytes.len()) + "; expected "@ + decimal(expected_len as nat),
        )
    } else {
        Ok(())
    }
}

/// Requires the supported version and the expected length.
pub fn require_packet(bytes: &[u8], expected_len: usize, version: u8) -> (r: Result<(), DecodeRejection>)
    ensures
        outcome(r, packet_check(bytes@, expected_len, version)),
{
    if version != 1 {
        let mut detail = "unsupported F1 packet version ".to_owned();
        detail.append(decimal_text(version as u64).as_str());
        detail.append("; expected 1");
        return Err(reject(RejectReason::PacketVersion, detail));
    }
    if bytes.len() != expected_len {
        let mut detail = "wrong F1 packet length ".to_owned();
        detail.append(decimal_text(bytes.len() as u64).as_str());
        detail.append("; expected ");
        detail.append(decimal_text(expected_len as u64).as_str());
        return Err(reject(RejectReason::PacketLength, detail));
    }
    Ok(())
}

/// Where the data of one car starts in an array that follows the header.
pub open spec fn item_offset(index: usize, item_len: usize) -> Result<usize, Rejected> {
    if HEADER_LEN + index * item_len <= usize::MAX {
        Ok((HEADER_LEN + index * item_len) as usize)
    } else {
        rejection(RejectReason::PlayerIndex, "F1 player data offset overflow"@)
    }
}

/// Where the data of the player's car starts.
pub fn player_offset(index: usize, item_len: usize) -> (r: Result<usize, DecodeRejection>)
    ensures
        outcome(r, item_offset(index, item_len)),
{
    match index.checked_mul(item_len) {
        Some(offset) => match HEADER_LEN.checked_add(offset) {
            Some(total) => Ok(total),
            None => Err(reject(RejectReason::PlayerIndex, "F1 player data offset overflow".to_owned())),
        },
        None => Err(reject(RejectReason::PlayerIndex, "F1 player data offset overflow".to_owned())),
    }
}

} // verus!
