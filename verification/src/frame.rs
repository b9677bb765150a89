//! The wire frame: a fixed 49-byte header, an opaque payload, and a
//! trailing end-of-line delimiter. Framing is delimiter-based, not
//! length-prefixed; the delimiter scan keeps the last occurrence, so a
//! payload that happens to contain delimiter-like bytes still decodes.
use vstd::prelude::*;

verus! {

/// Flag bit: payload is compressed.
pub const FLAG_COMPRESSED: u8 = 0x01;

/// Flag bit: payload is encrypted.
pub const FLAG_ENCRYPTED: u8 = 0x02;

/// Flag bit: payload is hex-encoded.
pub const FLAG_ENCODED: u8 = 0x04;

/// Flag bit: payload carries a trailing checksum.
pub const FLAG_SIGNATURE: u8 = 0x08;

/// The exact flag set a client must announce for its payload to be
/// treated as a message; anything else is answered with an upgrade
/// request instead of being processed.
pub const FLAG_OPTIMIZED: u8 = FLAG_COMPRESSED | FLAG_ENCRYPTED | FLAG_ENCODED | FLAG_SIGNATURE;

/// Status bit: the frame was accepted.
pub const STATUS_OK: u8 = 0x01;

/// Status bit: the frame was rejected or the server failed.
pub const STATUS_ERROR: u8 = 0x02;

/// Status bit: the sender should stand by.
pub const STATUS_WAITING: u8 = 0x04;

/// Status bit: the frame was understood but its content was unusable.
pub const STATUS_MALFORMED: u8 = 0x10;

/// Status bit: the receiver must read the `reserved` field.
pub const STATUS_RESERVED: u8 = 0x40;

/// Composite status asking the client to resend with the flag set named
/// in `reserved`: WAITING, MALFORMED and RESERVED together.
pub const STATUS_SIDEGRADE: u8 = STATUS_WAITING | STATUS_MALFORMED | STATUS_RESERVED;

/// Version word this relay stamps into the headers it builds.
pub const PROTOCOL_VERSION: u16 = 1;

/// Byte length of the fixed header that starts every frame.
pub const HEADER_LENGTH: usize = 49;

/// Fixed metadata at the front of every frame. `flags` describes the
/// payload encoding a request announces; `status` carries the outcome on
/// a response; `reserved` carries the flag set a SIDEGRADE response asks
/// the client to switch to.
pub struct ProtocolHeader {
    pub version: u16,
    pub flags: u8,
    pub payload_length: u64,
    pub reserved: u8,
    pub status: u8,
    pub origin_address: [u8; 4],
    pub encryption_key: [u8; 32],
}

/// The mathematical image of a header: the field values the byte layout
/// stores, with the two byte arrays as sequences.
#[verifier::ext_equal]
pub struct HeaderModel {
    pub version: u16,
    pub flags: u8,
    pub payload_length: u64,
    pub reserved: u8,
    pub status: u8,
    pub origin_address: Seq<u8>,
    pub encryption_key: Seq<u8>,
}

impl HeaderModel {
    /// The byte arrays have the lengths the layout gives them.
    pub open spec fn wf(self) -> bool {
        self.origin_address.len() == 4 && self.encryption_key.len() == 32
    }
}

impl View for ProtocolHeader {
    type V = HeaderModel;

    open spec fn view(&self) -> HeaderModel {
        HeaderModel {
            version: self.version,
            flags: self.flags,
            payload_length: self.payload_length,
            reserved: self.reserved,
            status: self.status,
            origin_address: self.origin_address@,
            encryption_key: self.encryption_key@,
        }
    }
}

/// Decoding failure: the bytes do not hold a full header.
#[derive(Debug)]
pub enum FrameError {
    MalformedFrame,
}

/// Big-endian bytes of a 16-bit word.
pub open spec fn spec_u16_be(x: u16) -> Seq<u8> {
    seq![((x >> 8) & 0xff) as u8, (x & 0xff) as u8]
}

/// The 16-bit word two big-endian bytes store.
pub open spec fn spec_u16_from_be(b0: u8, b1: u8) -> u16 {
    (b0 as u16) << 8 | (b1 as u16)
}

/// Big-endian bytes of a 64-bit word.
pub open spec fn spec_u64_be(x: u64) -> Seq<u8> {
    seq![
        ((x >> 56) & 0xff) as u8,
        ((x >> 48) & 0xff) as u8,
        ((x >> 40) & 0xff) as u8,
        ((x >> 32) & 0xff) as u8,
        ((x >> 24) & 0xff) as u8,
        ((x >> 16) & 0xff) as u8,
        ((x >> 8) & 0xff) as u8,
        (x & 0xff) as u8,
    ]
}

/// The 64-bit word eight big-endian bytes store.
pub open spec fn spec_u64_from_be(s: Seq<u8>) -> u64
    recommends
        s.len() == 8,
{
    (s[0] as u64) << 56 | (s[1] as u64) << 48 | (s[2] as u64) << 40 | (s[3] as u64) << 32 | (
    s[4] as u64) << 24 | (s[5] as u64) << 16 | (s[6] as u64) << 8 | (s[7] as u64)
}

/// The delimiter that terminates every frame: the bytes of `-EOL-`.
pub open spec fn spec_eol() -> Seq<u8> {
    seq![45u8, 69u8, 79u8, 76u8, 45u8]
}

/// The 49 bytes a header serializes to.
pub open spec fn spec_header_bytes(h: HeaderModel) -> Seq<u8> {
    spec_u16_be(h.version) + seq![h.flags] + spec_u64_be(h.payload_length) + seq![h.reserved]
        + seq![h.status] + h.origin_address + h.encryption_key
}

/// The header whose fields the first 49 bytes of `s` store.
pub open spec fn spec_parse_header(s: Seq<u8>) -> HeaderModel
    recommends
        s.len() >= 49,
{
    HeaderModel {
        version: spec_u16_from_be(s[0], s[1]),
        flags: s[2],
        payload_length: spec_u64_from_be(s.subrange(3, 11)),
        reserved: s[11],
        status: s[12],
        origin_address: s.subrange(13, 17),
        encryption_key: s.subrange(17, 49),
    }
}

/// Whether the delimiter starts at position `i` of `b`.
pub open spec fn eol_at(b: Seq<u8>, i: int) -> bool {
    0 <= i && i + 5 <= b.len() && b[i] == 45u8 && b[i + 1] == 69u8 && b[i + 2] == 79u8 && b[i + 3]
        == 76u8 && b[i + 4] == 45u8
}

/// The start of the last delimiter occurrence that begins before `n`,
/// if any does.
pub open spec fn last_eol_from(b: Seq<u8>, n: int) -> Option<int>
    decreases n,
{
    if n < 5 {
        None
    } else if eol_at(b, n - 5) {
        Some(n - 5)
    } else {
        last_eol_from(b, n - 1)
    }
}

/// A found delimiter start lies at least five bytes before `n`.
pub proof fn lemma_last_eol_bounds(b: Seq<u8>, n: int)
    ensures
        match last_eol_from(b, n) {
            Some(i) => eol_at(b, i) && i + 5 <= n,
            None => true,
        },
    decreases n,
{
    if n < 5 {
    } else if eol_at(b, n - 5) {
    } else {
        lemma_last_eol_bounds(b, n - 1);
    }
}

/// A frame chunk with everything from the last delimiter on removed; a
/// chunk with no delimiter is kept whole.
pub open spec fn spec_strip_eol(b: Seq<u8>) -> Seq<u8> {
    match last_eol_from(b, b.len() as int) {
        Some(i) => b.take(i),
        None => b,
    }
}

/// What a frame chunk decodes to: the header the leading bytes store and
/// the payload between header and delimiter, or nothing when too little
/// remains for a header.
pub open spec fn spec_decode_frame(b: Seq<u8>) -> Option<(HeaderModel, Seq<u8>)> {
    let s = spec_strip_eol(b);
    if s.len() < 49 {
        None
    } else {
        Some((spec_parse_header(s), s.skip(49)))
    }
}

/// The bytes a header and payload serialize to: header bytes, payload
/// bytes, delimiter.
pub open spec fn spec_encode_frame(h: HeaderModel, payload: Seq<u8>) -> Seq<u8> {
    spec_header_bytes(h) + payload + spec_eol()
}

/// The header of a response frame: this relay's version, no flags, an
/// empty payload, zeroed addresses, and the given status and reserved
/// bytes.
pub open spec fn spec_response(status: u8, reserved: u8) -> HeaderModel {
    HeaderModel {
        version: PROTOCOL_VERSION,
        flags: 0,
        payload_length: 0,
        reserved,
        status,
        origin_address: Seq::new(4, |i: int| 0u8),
        encryption_key: Seq::new(32, |i: int| 0u8),
    }
}

/// Serialize a frame: header bytes, the payload verbatim, then the
/// delimiter. Total for every header and payload.
pub fn encode_frame(header: &ProtocolHeader, payload: &[u8]) -> (r: Vec<u8>)
    ensures
        r@ =~= spec_encode_frame(header@, payload@),
{
    let mut out: Vec<u8> = Vec::new();
    let v = header.version;
    proof {
        assert((v >> 8) & 0xff < 256 && v & 0xff < 256) by (bit_vector);
    }
    out.push(((v >> 8) & 0xff) as u8);
    out.push((v & 0xff) as u8);
    out.push(header.flags);
    let l = header.payload_length;
    proof {
        assert((l >> 56) & 0xff < 256 && (l >> 48) & 0xff < 256 && (l >> 40) & 0xff < 256 && (l
            >> 32) & 0xff < 256 && (l >> 24) & 0xff < 256 && (l >> 16) & 0xff < 256 && (l >> 8)
            & 0xff < 256 && l & 0xff < 256) by (bit_vector);
    }
    out.push(((l >> 56) & 0xff) as u8);
    out.push(((l >> 48) & 0xff) as u8);
    out.push(((l >> 40) & 0xff) as u8);
    out.push(((l >> 32) & 0xff) as u8);
    out.push(((l >> 24) & 0xff) as u8);
    out.push(((l >> 16) & 0xff) as u8);
    out.push(((l >> 8) & 0xff) as u8);
    out.push((l & 0xff) as u8);
    out.push(header.reserved);
    out.push(header.status);
    out.push(header.origin_address[0]);
    out.push(header.origin_address[1]);
    out.push(header.origin_address[2]);
    out.push(header.origin_address[3]);
    assert(out@ =~= spec_u16_be(header.version) + seq![header.flags] + spec_u64_be(
        header.payload_length,
    ) + seq![header.reserved] + seq![header.status] + header.origin_address@);
    let mut i: usize = 0;
    while i < 32
        invariant
            i <= 32,
            out@ =~= spec_u16_be(header.version) + seq![header.flags] + spec_u64_be(
                header.payload_length,
            ) + seq![header.reserved] + seq![header.status] + header.origin_address@
                + header.encryption_key@.take(i as int),
        decreases 32 - i,
    {
        out.push(header.encryption_key[i]);
        i = i + 1;
    }
    assert(out@ =~= spec_header_bytes(header@));
    let mut j: usize = 0;
    while j < payload.len()
        invariant
            j <= payload.len(),
            out@ =~= spec_header_bytes(header@) + payload@.take(j as int),
        decreases payload.len() - j,
    {
        out.push(payload[j]);
        j = j + 1;
    }
    out.push(45u8);
    out.push(69u8);
    out.push(79u8);
    out.push(76u8);
    out.push(45u8);
    assert(out@ =~= spec_encode_frame(header@, payload@));
    out
}

/// Find where the last delimiter occurrence starts, scanning from the
/// back of the chunk.
fn find_last_eol(bytes: &[u8]) -> (r: Option<usize>)
    ensures
        match r {
            Some(i) => last_eol_from(bytes@, bytes@.len() as int) == Some(i as int),
            None => last_eol_from(bytes@, bytes@.len() as int) is None,
        },
{
    let mut n: usize = bytes.len();
    while n >= 5
        invariant
            n <= bytes.len(),
            last_eol_from(bytes@, bytes@.len() as int) == last_eol_from(bytes@, n as int),
        decreases n,
    {
        if bytes[n - 5] == 45u8 && bytes[n - 4] == 69u8 && bytes[n - 3] == 79u8 && bytes[n - 2]
            == 76u8 && bytes[n - 1] == 45u8 {
            assert(eol_at(bytes@, n - 5));
            return Some(n - 5);
        }
        assert(!eol_at(bytes@, n - 5));
        n = n - 1;
    }
    None
}

/// Parse a frame chunk: strip from the last delimiter on, read the
/// header fields, and hand back the payload bytes in between. Fails
/// exactly when what remains is shorter than a header.
pub fn decode_frame(bytes: &[u8]) -> (r: Result<(ProtocolHeader, Vec<u8>), FrameError>)
    ensures
        match r {
            Ok(hp) => spec_decode_frame(bytes@) == Some((hp.0@, hp.1@)),
            Err(_) => spec_decode_frame(bytes@) is None,
        },
{
    let m: usize = match find_last_eol(bytes) {
        Some(i) => i,
        None => bytes.len(),
    };
    proof {
        lemma_last_eol_bounds(bytes@, bytes@.len() as int);
    }
    let ghost stripped = spec_strip_eol(bytes@);
    assert(stripped =~= bytes@.take(m as int));
    if m < HEADER_LENGTH {
        return Err(FrameError::MalformedFrame);
    }
    let version: u16 = ((bytes[0] as u16) << 8u16) | (bytes[1] as u16);
    let flags: u8 = bytes[2];
    let payload_length: u64 = ((bytes[3] as u64) << 56u64) | ((bytes[4] as u64) << 48u64) | ((
    bytes[5] as u64) << 40u64) | ((bytes[6] as u64) << 32u64) | ((bytes[7] as u64) << 24u64) | ((
    bytes[8] as u64) << 16u64) | ((bytes[9] as u64) << 8u64) | (bytes[10] as u64);
    let reserved: u8 = bytes[11];
    let status: u8 = bytes[12];
    let origin_address: [u8; 4] = [bytes[13], bytes[14], bytes[15], bytes[16]];
    let encryption_key: [u8; 32] = [bytes[17], bytes[18], bytes[19], bytes[20], bytes[21], bytes[22
    ], bytes[23], bytes[24], bytes[25], bytes[26], bytes[27], bytes[28], bytes[29], bytes[30],
    bytes[31], bytes[32], bytes[33], bytes[34], bytes[35], bytes[36], bytes[37], bytes[38],
    bytes[39], bytes[40], bytes[41], bytes[42], bytes[43], bytes[44], bytes[45], bytes[46],
    bytes[47], bytes[48]];
    let header = ProtocolHeader {
        version,
        flags,
        payload_length,
        reserved,
        status,
        origin_address,
        encryption_key,
    };
    assert(header@.version == spec_parse_header(stripped).version);
    assert(header@.payload_length == spec_parse_header(stripped).payload_length) by {
        assert(stripped.subrange(3, 11) =~= seq![
            bytes@[3],
            bytes@[4],
            bytes@[5],
            bytes@[6],
            bytes@[7],
            bytes@[8],
            bytes@[9],
            bytes@[10],
        ]);
    }
    assert(header@.origin_address =~= spec_parse_header(stripped).origin_address);
    assert(header@.encryption_key =~= spec_parse_header(stripped).encryption_key);
    assert(header@ =~= spec_parse_header(stripped));
    let mut payload: Vec<u8> = Vec::new();
    let mut j: usize = HEADER_LENGTH;
    while j < m
        invariant
            HEADER_LENGTH <= j <= m <= bytes@.len(),
            payload@ =~= bytes@.subrange(49, j as int),
        decreases m - j,
    {
        payload.push(bytes[j]);
        j = j + 1;
    }
    assert(payload@ =~= stripped.skip(49));
    Ok((header, payload))
}

/// Round trip: decoding an encoded frame gives back the header and the
/// payload, whatever bytes the payload holds — the scan for the last
/// delimiter always lands on the one the encoder appended.
pub proof fn lemma_frame_round_trip(h: HeaderModel, payload: Seq<u8>)
    requires
        h.wf(),
    ensures
        spec_decode_frame(spec_encode_frame(h, payload)) == Some((h, payload)),
{
    let enc = spec_encode_frame(h, payload);
    let n = enc.len() as int;
    assert(spec_header_bytes(h).len() == 49);
    assert(n == 54 + payload.len());
    assert(eol_at(enc, n - 5));
    assert(last_eol_from(enc, n) == Some(n - 5));
    let s = spec_strip_eol(enc);
    assert(s =~= spec_header_bytes(h) + payload);
    assert(s.len() == 49 + payload.len());
    let p = spec_parse_header(s);
    let v = h.version;
    assert(s[0] == ((v >> 8) & 0xff) as u8 && s[1] == (v & 0xff) as u8);
    assert(spec_u16_from_be(((v >> 8) & 0xff) as u8, (v & 0xff) as u8) == v) by {
        assert((v >> 8) & 0xff < 256 && v & 0xff < 256) by (bit_vector);
        assert(((v >> 8) & 0xff) << 8 | (v & 0xff) == v) by (bit_vector);
    }
    assert(p.version == h.version);
    let l = h.payload_length;
    assert(s.subrange(3, 11) =~= spec_u64_be(l));
    assert(spec_u64_from_be(spec_u64_be(l)) == l) by {
        assert((l >> 56) & 0xff < 256 && (l >> 48) & 0xff < 256 && (l >> 40) & 0xff < 256 && (l
            >> 32) & 0xff < 256 && (l >> 24) & 0xff < 256 && (l >> 16) & 0xff < 256 && (l >> 8)
            & 0xff < 256 && l & 0xff < 256) by (bit_vector);
        assert(((l >> 56) & 0xff) << 56 | ((l >> 48) & 0xff) << 48 | ((l >> 40) & 0xff) << 40 | ((l
            >> 32) & 0xff) << 32 | ((l >> 24) & 0xff) << 24 | ((l >> 16) & 0xff) << 16 | ((l >> 8)
            & 0xff) << 8 | (l & 0xff) == l) by (bit_vector);
    }
    assert(p.payload_length == h.payload_length);
    assert(p.origin_address =~= h.origin_address);
    assert(p.encryption_key =~= h.encryption_key);
    assert(p =~= h);
    assert(s.skip(49) =~= payload);
}

} // verus!
