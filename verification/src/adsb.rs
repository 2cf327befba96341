//! Frame decoder: walks the Mode-S Beast wire header, validates the
//! downlink-format selector, extracts the aircraft address, dispatches on
//! the embedded type code, and decodes the bit-packed payload fields.

use crate::bits::{field_val, lemma_field_val_bound, lemma_field_val_subrange, take_bits};
use crate::text::{ascii_chars, ascii_to_string, hex_byte, hex_digit_byte};
use vstd::arithmetic::power2::lemma2_to64;
use vstd::prelude::*;

verus! {

/// A decode failure, by the stage that refused the input.
#[derive(Clone, Copy, Debug, PartialEq, Eq, Structural)]
pub enum DecodeError {
    /// The buffer does not start with the Beast sync/type marker; the
    /// caller should resynchronize on the byte stream.
    NotAFrame,
    /// The header matched but a selector field holds a value this decoder
    /// does not accept.
    InvalidFormat,
    /// The buffer ended before the fields being read were complete.
    TooShort,
}

/// One decoded payload variant; exactly one case is populated per frame,
/// chosen by the type-code field alone.
#[derive(Debug)]
pub enum AdsbMessage {
    /// An aircraft-identification report: the decoded callsign.
    Identification(String),
    /// An airborne-position report with a barometric altitude source; the
    /// raw 12-bit altitude field, not feet.
    BarometricAltitude(u64),
    /// An airborne-position report with a GNSS altitude source; the raw
    /// 12-bit altitude field, not feet.
    GnssAltitude(u64),
    /// A message family this decoder does not interpret; holds the type
    /// code. Not an error.
    Unknown(u8),
}

/// The mathematical value of a payload variant.
pub enum MessageView {
    Identification(Seq<char>),
    BarometricAltitude(nat),
    GnssAltitude(nat),
    Unknown(nat),
}

impl View for AdsbMessage {
    type V = MessageView;

    open spec fn view(&self) -> MessageView {
        match self {
            AdsbMessage::Identification(cs) => MessageView::Identification(cs@),
            AdsbMessage::BarometricAltitude(a) => MessageView::BarometricAltitude(*a as nat),
            AdsbMessage::GnssAltitude(a) => MessageView::GnssAltitude(*a as nat),
            AdsbMessage::Unknown(tc) => MessageView::Unknown(*tc as nat),
        }
    }
}

/// A decoded frame: downlink format, capability, aircraft address in its
/// canonical lowercase six-hex-digit form, and the dispatched payload.
#[derive(Debug)]
pub struct ADSBFrame {
    pub downlink_format: u8,
    pub capability: u8,
    pub icao: String,
    pub payload: AdsbMessage,
}

/// The mathematical value of a decoded frame.
pub struct FrameView {
    pub downlink_format: nat,
    pub capability: nat,
    pub icao: Seq<char>,
    pub payload: MessageView,
}

impl View for ADSBFrame {
    type V = FrameView;

    open spec fn view(&self) -> FrameView {
        FrameView {
            downlink_format: self.downlink_format as nat,
            capability: self.capability as nat,
            icao: self.icao@,
            payload: self.payload@,
        }
    }
}

/// What the header matcher returns on `s`: `Ok` when the two marker bytes
/// are present and the buffer covers the full nine-byte header, a
/// resynchronization failure when a marker byte differs, exhaustion when
/// the buffer ends first.
pub open spec fn spec_header(s: Seq<u8>) -> Result<(), DecodeError> {
    if s.len() < 1 {
        Err(DecodeError::TooShort)
    } else if s[0] != 0x1a {
        Err(DecodeError::NotAFrame)
    } else if s.len() < 2 {
        Err(DecodeError::TooShort)
    } else if s[1] != 0x33 {
        Err(DecodeError::NotAFrame)
    } else if s.len() < 9 {
        Err(DecodeError::TooShort)
    } else {
        Ok(())
    }
}

/// Recognizes the fixed Beast header: sync byte 0x1a, message-type byte
/// 0x33, then six timestamp bytes and one signal-level byte, both opaque
/// and discarded.
pub fn mode_s_beast_header(input: &[u8]) -> (r: Result<(), DecodeError>)
    ensures
        r == spec_header(input@),
{
    if input.len() < 1 {
        Err(DecodeError::TooShort)
    } else if input[0] != 0x1a {
        Err(DecodeError::NotAFrame)
    } else if input.len() < 2 {
        Err(DecodeError::TooShort)
    } else if input[1] != 0x33 {
        Err(DecodeError::NotAFrame)
    } else if input.len() < 9 {
        Err(DecodeError::TooShort)
    } else {
        Ok(())
    }
}

/// Reads the 5-bit downlink-format field and the 3-bit capability field
/// from the first byte of `input`; the pair starts and ends on a byte
/// boundary. Fails only when the input is empty.
pub fn df_ca(input: &[u8]) -> (r: Option<(u8, u8)>)
    ensures
        match r {
            Some(p) => {
                &&& input@.len() >= 1
                &&& p.0 == field_val(input@, 0, 5)
                &&& p.1 == field_val(input@, 5, 3)
            },
            None => input@.len() < 1,
        },
{
    let df = match take_bits(input, 0, 5) {
        Some(v) => v,
        None => {
            return None;
        },
    };
    let ca = match take_bits(input, 5, 3) {
        Some(v) => v,
        None => {
            return None;
        },
    };
    proof {
        lemma_field_val_bound(input@, 0, 5);
        lemma_field_val_bound(input@, 5, 3);
        lemma2_to64();
    }
    Some((df as u8, ca as u8))
}

/// The canonical address text of `s`: each of its bytes as two lowercase
/// hexadecimal digits, in order.
pub open spec fn hex_chars(s: Seq<u8>) -> Seq<char>
    decreases s.len(),
{
    if s.len() == 0 {
        Seq::empty()
    } else {
        hex_byte(s[0]) + hex_chars(s.drop_first())
    }
}

/// Reads the next three bytes verbatim and renders them as the lowercase
/// six-hex-digit aircraft address. Fails only when fewer than three bytes
/// remain.
pub fn icao(input: &[u8]) -> (r: Option<String>)
    ensures
        match r {
            Some(st) => input@.len() >= 3 && st@ == hex_chars(input@.subrange(0, 3)),
            None => input@.len() < 3,
        },
{
    if input.len() < 3 {
        return None;
    }
    let mut v: Vec<u8> = Vec::new();
    let b0 = input[0];
    let b1 = input[1];
    let b2 = input[2];
    v.push(hex_digit_byte(b0 / 16));
    v.push(hex_digit_byte(b0 % 16));
    v.push(hex_digit_byte(b1 / 16));
    v.push(hex_digit_byte(b1 % 16));
    v.push(hex_digit_byte(b2 / 16));
    v.push(hex_digit_byte(b2 % 16));
    let st = ascii_to_string(&v);
    proof {
        let sub = input@.subrange(0, 3);
        assert(sub.drop_first() =~= input@.subrange(1, 3));
        assert(input@.subrange(1, 3).drop_first() =~= input@.subrange(2, 3));
        assert(input@.subrange(2, 3).drop_first() =~= Seq::<u8>::empty());
        assert(hex_chars(Seq::<u8>::empty()) =~= Seq::<char>::empty());
        assert(hex_chars(input@.subrange(2, 3)) =~= hex_byte(b2));
        assert(hex_chars(input@.subrange(1, 3)) =~= hex_byte(b1) + hex_byte(b2));
        assert(hex_chars(sub) =~= hex_byte(b0) + (hex_byte(b1) + hex_byte(b2)));
        assert(st@ =~= hex_byte(b0) + (hex_byte(b1) + hex_byte(b2)));
        assert(st@ =~= hex_chars(sub));
    }
    Some(st)
}

/// Reads the 5-bit type-code field from the start of `input`, leaving the
/// cursor at bit offset five; every downstream payload field is placed
/// relative to that offset. Fails only when the input is empty.
pub fn typecode(input: &[u8]) -> (r: Option<u8>)
    ensures
        match r {
            Some(tc) => input@.len() >= 1 && tc == field_val(input@, 0, 5),
            None => input@.len() < 1,
        },
{
    let tc = match take_bits(input, 0, 5) {
        Some(v) => v,
        None => {
            return None;
        },
    };
    proof {
        lemma_field_val_bound(input@, 0, 5);
        lemma2_to64();
    }
    Some(tc as u8)
}

/// Reads the 3-bit aircraft-category field that follows the type code,
/// restoring byte alignment. Fails only when the input is empty.
pub fn aircraft_category(input: &[u8]) -> (r: Option<u8>)
    ensures
        match r {
            Some(c) => input@.len() >= 1 && c == field_val(input@, 5, 3),
            None => input@.len() < 1,
        },
{
    let c = match take_bits(input, 5, 3) {
        Some(v) => v,
        None => {
            return None;
        },
    };
    proof {
        lemma_field_val_bound(input@, 5, 3);
        lemma2_to64();
    }
    Some(c as u8)
}

/// The `i`-th of the eight 6-bit callsign codes packed into `s`.
pub open spec fn cs_code(s: Seq<u8>, i: int) -> nat {
    field_val(s, 6 * i, 6)
}

/// The character byte for one 6-bit callsign code: codes one through
/// twenty-six become the uppercase letters by setting bit 0x40; all other
/// codes pass through as raw byte values.
pub open spec fn cs_mapped(c: nat) -> u8
    recommends
        c < 64,
{
    if 1 <= c < 27 {
        (c + 64) as u8
    } else {
        c as u8
    }
}

/// The eight character bytes of the packed callsign in `s`.
pub open spec fn cs_bytes(s: Seq<u8>) -> Seq<u8> {
    Seq::new(8, |i: int| cs_mapped(cs_code(s, i)))
}

/// `b` without its trailing space bytes.
pub open spec fn trim_spaces(b: Seq<u8>) -> Seq<u8>
    decreases b.len(),
{
    if b.len() > 0 && b.last() == 32 {
        trim_spaces(b.drop_last())
    } else {
        b
    }
}

/// The decoded callsign text of the packed bytes `s`: the eight mapped
/// character bytes with trailing spaces trimmed, read as characters.
pub open spec fn callsign_chars(s: Seq<u8>) -> Seq<char> {
    ascii_chars(trim_spaces(cs_bytes(s)))
}

/// Decodes the 8-character callsign from eight consecutive 6-bit codes
/// (48 bits, byte-aligned entry and exit) and trims trailing spaces.
/// Fails only when fewer than six bytes remain.
pub fn callsign(input: &[u8]) -> (r: Option<String>)
    ensures
        match r {
            Some(st) => input@.len() >= 6 && st@ == callsign_chars(input@),
            None => input@.len() < 6,
        },
{
    if input.len() < 6 {
        return None;
    }
    let mut v: Vec<u8> = Vec::new();
    let mut i: usize = 0;
    while i < 8
        invariant
            i <= 8,
            input@.len() >= 6,
            v@.len() == i,
            forall|j: int| 0 <= j < i ==> v@[j] == cs_bytes(input@)[j],
            forall|j: int| 0 <= j < i ==> v@[j] < 128,
        decreases 8 - i,
    {
        let c = match take_bits(input, 6 * i, 6) {
            Some(c) => c,
            None => {
                return None;
            },
        };
        proof {
            lemma_field_val_bound(input@, 6 * i as int, 6);
            lemma2_to64();
        }
        let cb = c as u8;
        let mapped: u8 = if 1 <= cb && cb < 27 {
            assert((cb | 0x40) == cb + 64) by (bit_vector)
                requires
                    1 <= cb && cb < 27,
            ;
            cb | 0x40
        } else {
            cb
        };
        v.push(mapped);
        i = i + 1;
    }
    assert(v@ =~= cs_bytes(input@));
    while v.len() > 0 && v[v.len() - 1] == 32
        invariant
            trim_spaces(v@) == trim_spaces(cs_bytes(input@)),
            forall|j: int| 0 <= j < v@.len() ==> v@[j] < 128,
        decreases v.len(),
    {
        let ghost before = v@;
        v.pop();
        assert(v@ =~= before.drop_last());
    }
    assert(v@ == trim_spaces(v@));
    let st = ascii_to_string(&v);
    Some(st)
}

/// Whether the exec result `r` denotes the model result `m`.
pub open spec fn msg_matches(r: Result<AdsbMessage, DecodeError>, m: Result<
    MessageView,
    DecodeError,
>) -> bool {
    match r {
        Ok(v) => m == Ok::<MessageView, DecodeError>(v@),
        Err(e) => m == Err::<MessageView, DecodeError>(e),
    }
}

/// What the identification decoder returns on the payload bytes `s`
/// (`s` starts at the type-code byte): the callsign decoded from the six
/// bytes after the type-code/category byte.
pub open spec fn spec_identification(s: Seq<u8>) -> Result<MessageView, DecodeError> {
    if s.len() < 1 {
        Err(DecodeError::TooShort)
    } else if !(1 <= field_val(s, 0, 5) < 5) {
        Err(DecodeError::InvalidFormat)
    } else if s.len() < 7 {
        Err(DecodeError::TooShort)
    } else {
        Ok(MessageView::Identification(callsign_chars(s.subrange(1, 7))))
    }
}

/// Decodes an identification payload: type code in one through four, a
/// 3-bit aircraft category (read and discarded), then the 8-character
/// callsign.
pub fn identification(input: &[u8]) -> (r: Result<AdsbMessage, DecodeError>)
    ensures
        msg_matches(r, spec_identification(input@)),
{
    let tc = match typecode(input) {
        Some(tc) => tc,
        None => {
            return Err(DecodeError::TooShort);
        },
    };
    if !(1 <= tc && tc < 5) {
        return Err(DecodeError::InvalidFormat);
    }
    match aircraft_category(input) {
        Some(_) => (),
        None => {
            return Err(DecodeError::TooShort);
        },
    };
    if input.len() < 7 {
        return Err(DecodeError::TooShort);
    }
    let rest = vstd::slice::slice_subrange(input, 1, 7);
    match callsign(rest) {
        Some(cs) => Ok(AdsbMessage::Identification(cs)),
        None => {
            assert(false);
            Err(DecodeError::TooShort)
        },
    }
}

/// What an airborne-position decoder returns on the payload bytes `s`
/// for a type-code range `[lo, hi)`: the raw 12-bit altitude field that
/// follows the type code, the 2-bit surveillance status, and the 1-bit
/// single-antenna flag.
pub open spec fn spec_position(s: Seq<u8>, lo: nat, hi: nat) -> Result<nat, DecodeError> {
    if s.len() < 1 {
        Err(DecodeError::TooShort)
    } else if !(lo <= field_val(s, 0, 5) < hi) {
        Err(DecodeError::InvalidFormat)
    } else if s.len() < 3 {
        Err(DecodeError::TooShort)
    } else {
        Ok(field_val(s, 8, 12))
    }
}

/// What the barometric-altitude decoder returns on the payload bytes `s`.
pub open spec fn spec_barometric(s: Seq<u8>) -> Result<MessageView, DecodeError> {
    match spec_position(s, 9, 19) {
        Ok(a) => Ok(MessageView::BarometricAltitude(a)),
        Err(e) => Err(e),
    }
}

/// What the GNSS-altitude decoder returns on the payload bytes `s`.
pub open spec fn spec_gnss(s: Seq<u8>) -> Result<MessageView, DecodeError> {
    match spec_position(s, 20, 23) {
        Ok(a) => Ok(MessageView::GnssAltitude(a)),
        Err(e) => Err(e),
    }
}

/// Reads the raw altitude field shared by both airborne-position shapes:
/// skips the 2-bit surveillance status and the 1-bit single-antenna flag
/// after the type code, then reads 12 bits.
fn position_altitude(input: &[u8], lo: u8, hi: u8) -> (r: Result<u64, DecodeError>)
    requires
        lo < hi < 32,
    ensures
        match r {
            Ok(a) => spec_position(input@, lo as nat, hi as nat) == Ok::<nat, DecodeError>(
                a as nat,
            ),
            Err(e) => spec_position(input@, lo as nat, hi as nat) == Err::<nat, DecodeError>(e),
        },
{
    let tc = match typecode(input) {
        Some(tc) => tc,
        None => {
            return Err(DecodeError::TooShort);
        },
    };
    if !(lo <= tc && tc < hi) {
        return Err(DecodeError::InvalidFormat);
    }
    // Skip surveillance status and single antenna flag
    match take_bits(input, 5, 3) {
        Some(_) => (),
        None => {
            return Err(DecodeError::TooShort);
        },
    };
    let alt = match take_bits(input, 8, 12) {
        Some(v) => v,
        None => {
            return Err(DecodeError::TooShort);
        },
    };
    Ok(alt)
}

/// Decodes a barometric-altitude airborne-position payload: type code in
/// nine through eighteen, raw altitude bits surfaced unconverted.
pub fn barometric_altitude(input: &[u8]) -> (r: Result<AdsbMessage, DecodeError>)
    ensures
        msg_matches(r, spec_barometric(input@)),
{
    match position_altitude(input, 9, 19) {
        Ok(a) => Ok(AdsbMessage::BarometricAltitude(a)),
        Err(e) => Err(e),
    }
}

/// Decodes a GNSS-altitude airborne-position payload: type code twenty
/// through twenty-two; same on-wire layout as the barometric shape, kept
/// separate because the encoding source differs.
pub fn gnss_altitude(input: &[u8]) -> (r: Result<AdsbMessage, DecodeError>)
    ensures
        msg_matches(r, spec_gnss(input@)),
{
    match position_altitude(input, 20, 23) {
        Ok(a) => Ok(AdsbMessage::GnssAltitude(a)),
        Err(e) => Err(e),
    }
}

/// What the terminal decoder returns on the payload bytes `s`: the type
/// code itself, for message families this decoder does not interpret.
pub open spec fn spec_unknown(s: Seq<u8>) -> Result<MessageView, DecodeError> {
    if s.len() < 1 {
        Err(DecodeError::TooShort)
    } else {
        Ok(MessageView::Unknown(field_val(s, 0, 5)))
    }
}

/// Wraps an uninterpreted type code; consumes nothing beyond the type
/// code itself. This is not an error.
pub fn unknown(input: &[u8]) -> (r: Result<AdsbMessage, DecodeError>)
    ensures
        msg_matches(r, spec_unknown(input@)),
{
    match typecode(input) {
        Some(tc) => Ok(AdsbMessage::Unknown(tc)),
        None => Err(DecodeError::TooShort),
    }
}

/// What the whole decoder returns on the buffer `s`: the header is
/// matched, the downlink-format/capability pair is read and the format
/// validated against {17, 18}, the address is read, and the payload is
/// dispatched on the type-code range, in that order, the first failing
/// step deciding the error.
pub open spec fn spec_decode(s: Seq<u8>) -> Result<FrameView, DecodeError> {
    match spec_header(s) {
        Err(e) => Err(e),
        Ok(_) => {
            if s.len() < 10 {
                Err(DecodeError::TooShort)
            } else {
                let df = field_val(s, 72, 5);
                let ca = field_val(s, 77, 3);
                if !(17 <= df < 19) {
                    Err(DecodeError::InvalidFormat)
                } else if s.len() < 13 {
                    Err(DecodeError::TooShort)
                } else if s.len() < 14 {
                    Err(DecodeError::TooShort)
                } else {
                    let p = s.subrange(13, s.len() as int);
                    let tc = field_val(s, 104, 5);
                    let m = if 1 <= tc < 5 {
                        spec_identification(p)
                    } else if 9 <= tc < 19 {
                        spec_barometric(p)
                    } else if 20 <= tc < 23 {
                        spec_gnss(p)
                    } else {
                        spec_unknown(p)
                    };
                    match m {
                        Err(e) => Err(e),
                        Ok(payload) => Ok(
                            FrameView {
                                downlink_format: df,
                                capability: ca,
                                icao: hex_chars(s.subrange(10, 13)),
                                payload,
                            },
                        ),
                    }
                }
            }
        },
    }
}

/// Whether the exec result `r` denotes the model result `m`.
pub open spec fn frame_matches(r: Result<ADSBFrame, DecodeError>, m: Result<
    FrameView,
    DecodeError,
>) -> bool {
    match r {
        Ok(f) => m == Ok::<FrameView, DecodeError>(f@),
        Err(e) => m == Err::<FrameView, DecodeError>(e),
    }
}

/// Decodes one frame from the start of `input`, ignoring any trailing
/// bytes beyond the message's fixed layout: header, format/capability
/// with the format validated, address, then the payload dispatched on the
/// type-code range. Any step's failure short-circuits the whole decode.
pub fn adsb_frame(input: &[u8]) -> (r: Result<ADSBFrame, DecodeError>)
    ensures
        frame_matches(r, spec_decode(input@)),
{
    match mode_s_beast_header(input) {
        Ok(_) => (),
        Err(e) => {
            return Err(e);
        },
    };
    if input.len() < 10 {
        return Err(DecodeError::TooShort);
    }
    let dfca_bytes = vstd::slice::slice_subrange(input, 9, 10);
    let (df, ca) = match df_ca(dfca_bytes) {
        Some(p) => p,
        None => {
            return Err(DecodeError::TooShort);
        },
    };
    proof {
        lemma_field_val_subrange(input@, 9, 10, 0, 5);
        lemma_field_val_subrange(input@, 9, 10, 5, 3);
    }
    if !(17 <= df && df < 19) {
        return Err(DecodeError::InvalidFormat);
    }
    if input.len() < 13 {
        return Err(DecodeError::TooShort);
    }
    let addr_bytes = vstd::slice::slice_subrange(input, 10, 13);
    let addr = match icao(addr_bytes) {
        Some(st) => st,
        None => {
            return Err(DecodeError::TooShort);
        },
    };
    proof {
        assert(addr_bytes@.subrange(0, 3) =~= input@.subrange(10, 13));
    }
    if input.len() < 14 {
        return Err(DecodeError::TooShort);
    }
    let payload_bytes = vstd::slice::slice_subrange(input, 13, input.len());
    proof {
        lemma_field_val_subrange(input@, 13, input@.len() as int, 0, 5);
    }
    let tc = match typecode(payload_bytes) {
        Some(tc) => tc,
        None => {
            return Err(DecodeError::TooShort);
        },
    };
    let msg = if 1 <= tc && tc < 5 {
        identification(payload_bytes)
    } else if 9 <= tc && tc < 19 {
        barometric_altitude(payload_bytes)
    } else if 20 <= tc && tc < 23 {
        gnss_altitude(payload_bytes)
    } else {
        unknown(payload_bytes)
    };
    match msg {
        Ok(payload) => Ok(
            ADSBFrame { downlink_format: df, capability: ca, icao: addr, payload },
        ),
        Err(e) => Err(e),
    }
}

/// Decodes one frame from the start of `input`: the entry point around
/// [`adsb_frame`]. Returns the typed failure unchanged.
pub fn parse_adsb_frame(input: &[u8]) -> (r: Result<ADSBFrame, DecodeError>)
    ensures
        frame_matches(r, spec_decode(input@)),
{
    adsb_frame(input)
}

/// Decoding is a function of the buffer alone: any two frame values that
/// the decoder's contract admits for the same buffer are structurally
/// equal, so decoding the same buffer twice yields equal frames.
pub proof fn lemma_decode_deterministic(s: Seq<u8>, f1: FrameView, f2: FrameView)
    requires
        spec_decode(s) == Ok::<FrameView, DecodeError>(f1),
        spec_decode(s) == Ok::<FrameView, DecodeError>(f2),
    ensures
        f1 == f2,
{
}

/// A buffer whose downlink-format field is outside {17, 18} — in
/// particular one that decodes to zero — never yields a frame.
pub proof fn lemma_rejects_downlink_format(s: Seq<u8>)
    requires
        !(17 <= field_val(s, 72, 5) < 19),
    ensures
        spec_decode(s) is Err,
{
}

impl PartialEq for AdsbMessage {
    /// Structural equality: same variant, equal contents.
    fn eq(&self, other: &AdsbMessage) -> (r: bool) {
        match (self, other) {
            (AdsbMessage::Identification(a), AdsbMessage::Identification(b)) => a.eq(b),
            (AdsbMessage::BarometricAltitude(a), AdsbMessage::BarometricAltitude(b)) => *a == *b,
            (AdsbMessage::GnssAltitude(a), AdsbMessage::GnssAltitude(b)) => *a == *b,
            (AdsbMessage::Unknown(a), AdsbMessage::Unknown(b)) => *a == *b,
            _ => false,
        }
    }
}

impl vstd::std_specs::cmp::PartialEqSpecImpl for AdsbMessage {
    open spec fn obeys_eq_spec() -> bool {
        true
    }

    open spec fn eq_spec(&self, other: &AdsbMessage) -> bool {
        self@ == other@
    }
}

impl PartialEq for ADSBFrame {
    /// Structural equality: all four fields equal.
    fn eq(&self, other: &ADSBFrame) -> (r: bool) {
        self.downlink_format == other.downlink_format && self.capability == other.capability
            && self.icao == other.icao && self.payload == other.payload
    }
}

impl vstd::std_specs::cmp::PartialEqSpecImpl for ADSBFrame {
    open spec fn obeys_eq_spec() -> bool {
        true
    }

    open spec fn eq_spec(&self, other: &ADSBFrame) -> bool {
        self@ == other@
    }
}

} // verus!
