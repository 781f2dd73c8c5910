//! Binary framing of the upload channel.
//!
//! Every frame carries one `Packet`: a kind byte followed by the body.
//! Kind 0 is a binary chunk (`u64` big-endian index, `u64` big-endian size,
//! then exactly `size` payload bytes), kind 1 a JSON envelope (a tag byte and
//! the UTF-8 JSON text for that tag's shape), kind 2 the bodiless next-ack.
//! The codec frames and checks bytes; turning JSON text into values is the
//! caller's concern.

use vstd::prelude::*;

verus! {

use vstd::bytes::{spec_u64_to_le_bytes, spec_u64_from_le_bytes, u64_to_le_bytes, u64_from_le_bytes,
    lemma_auto_spec_u64_to_from_le_bytes};
use vstd::slice::{slice_subrange, slice_to_vec, slice_index_get};

/// Big-endian encoding of a `u64`: the little-endian bytes reversed.
pub open spec fn spec_u64_to_be_bytes(x: u64) -> Seq<u8> {
    spec_u64_to_le_bytes(x).reverse()
}

/// The `u64` read from eight big-endian bytes.
pub open spec fn spec_u64_from_be_bytes(s: Seq<u8>) -> u64
    recommends
        s.len() == 8,
{
    spec_u64_from_le_bytes(s.reverse())
}

pub proof fn lemma_u64_be_bytes_round_trip(x: u64)
    ensures
        spec_u64_to_be_bytes(x).len() == 8,
        spec_u64_from_be_bytes(spec_u64_to_be_bytes(x)) == x,
{
    lemma_auto_spec_u64_to_from_le_bytes();
    assert(spec_u64_to_le_bytes(x).reverse().reverse() =~= spec_u64_to_le_bytes(x));
}

pub fn u64_to_be_bytes(x: u64) -> (s: Vec<u8>)
    ensures
        s@ == spec_u64_to_be_bytes(x),
        s@.len() == 8,
{
    let le = u64_to_le_bytes(x);
    let mut out: Vec<u8> = Vec::new();
    let mut i: usize = 0;
    while i < 8
        invariant
            le@ == spec_u64_to_le_bytes(x),
            le@.len() == 8,
            i <= 8,
            out@.len() == i,
            forall|j: int| 0 <= j < i ==> out@[j] == le@[8 - 1 - j],
        decreases 8 - i,
    {
        out.push(le[8 - 1 - i]);
        i = i + 1;
    }
    proof {
        assert(out@ =~= spec_u64_to_le_bytes(x).reverse());
    }
    out
}

/// One frame of the upload channel.
pub enum Packet {
    /// Kind 0: a chunk of file bytes with its ordinal.
    Binary(Chunk),
    /// Kind 1: a JSON envelope.
    Json(JsonData),
    /// Kind 2: the server's acknowledgement asking for the next chunk.
    Next,
}

/// Body of a binary chunk frame: `size` must equal `data.len()`.
pub struct Chunk {
    pub idx: u64,
    pub size: u64,
    pub data: Vec<u8>,
}

/// Body of a JSON envelope frame. Tags 1 to 4 carry the UTF-8 JSON text of
/// the corresponding shape; the codec treats that text as opaque bytes.
pub enum JsonData {
    /// Tag 0, no payload.
    ConnectionAccepted,
    /// Tag 1: `{name, size, chunk_size}`.
    InitializeUpload(Vec<u8>),
    /// Tag 2: `{chunk_index}`.
    ReadyForUpload(Vec<u8>),
    /// Tag 3: `{chunk_index}`.
    SetChunkIndex(Vec<u8>),
    /// Tag 4: the full file record.
    UploadComplete(Vec<u8>),
}

/// The shape carried by an InitializeUpload envelope: the upload's name,
/// its byte size, and the chunk size the client will use.
#[derive(Clone, Debug)]
pub struct JsonInitializeUpload {
    pub name: String,
    pub size: u64,
    pub chunk_size: u64,
}

/// The shape carried by ReadyForUpload and SetChunkIndex envelopes: a
/// chunk ordinal.
#[derive(Clone, Copy, Debug)]
pub struct JsonChunkIndex {
    pub chunk_index: u64,
}

/// Why a byte sequence failed to decode as a `Packet`.
#[derive(Clone, Copy, Debug, PartialEq, Eq, Structural)]
pub enum PacketError {
    /// Fewer bytes than the frame's own fields announce.
    MissingBytes,
    /// Bytes left over beyond what the frame's fields allow.
    InvalidByteAccess,
    /// A kind byte outside the grammar.
    InvalidPacketType,
    /// A JSON envelope tag outside the grammar.
    InvalidDataType,
    /// The JSON text did not parse as the tag's shape; raised by the layer
    /// that reads the JSON, never by the byte codec itself.
    JsonError,
}

/// Mathematical model of a chunk body.
pub struct ChunkV {
    pub idx: u64,
    pub size: u64,
    pub data: Seq<u8>,
}

/// Mathematical model of a JSON envelope body.
pub enum JsonDataV {
    ConnectionAccepted,
    InitializeUpload(Seq<u8>),
    ReadyForUpload(Seq<u8>),
    SetChunkIndex(Seq<u8>),
    UploadComplete(Seq<u8>),
}

/// Mathematical model of a packet.
pub enum PacketV {
    Binary(ChunkV),
    Json(JsonDataV),
    Next,
}

impl View for Chunk {
    type V = ChunkV;

    open spec fn view(&self) -> ChunkV {
        ChunkV { idx: self.idx, size: self.size, data: self.data@ }
    }
}

impl View for JsonData {
    type V = JsonDataV;

    open spec fn view(&self) -> JsonDataV {
        match self {
            JsonData::ConnectionAccepted => JsonDataV::ConnectionAccepted,
            JsonData::InitializeUpload(p) => JsonDataV::InitializeUpload(p@),
            JsonData::ReadyForUpload(p) => JsonDataV::ReadyForUpload(p@),
            JsonData::SetChunkIndex(p) => JsonDataV::SetChunkIndex(p@),
            JsonData::UploadComplete(p) => JsonDataV::UploadComplete(p@),
        }
    }
}

impl View for Packet {
    type V = PacketV;

    open spec fn view(&self) -> PacketV {
        match self {
            Packet::Binary(c) => PacketV::Binary(c@),
            Packet::Json(j) => PacketV::Json(j@),
            Packet::Next => PacketV::Next,
        }
    }
}

impl ChunkV {
    /// A chunk body is well formed when it carries exactly the bytes its
    /// size field announces.
    pub open spec fn wf(self) -> bool {
        self.data.len() == self.size
    }
}

impl JsonDataV {
    /// An envelope is well formed when tags that carry JSON text carry at
    /// least one byte of it (no JSON value is empty text).
    pub open spec fn wf(self) -> bool {
        match self {
            JsonDataV::ConnectionAccepted => true,
            JsonDataV::InitializeUpload(p) => p.len() > 0,
            JsonDataV::ReadyForUpload(p) => p.len() > 0,
            JsonDataV::SetChunkIndex(p) => p.len() > 0,
            JsonDataV::UploadComplete(p) => p.len() > 0,
        }
    }

    /// The tag byte of this envelope.
    pub open spec fn spec_data_type(self) -> u8 {
        match self {
            JsonDataV::ConnectionAccepted => 0,
            JsonDataV::InitializeUpload(_) => 1,
            JsonDataV::ReadyForUpload(_) => 2,
            JsonDataV::SetChunkIndex(_) => 3,
            JsonDataV::UploadComplete(_) => 4,
        }
    }
}

impl PacketV {
    /// A packet constructible from the frame grammar.
    pub open spec fn wf(self) -> bool {
        match self {
            PacketV::Binary(c) => c.wf(),
            PacketV::Json(j) => j.wf(),
            PacketV::Next => true,
        }
    }

    /// The kind byte of this packet.
    pub open spec fn spec_packet_type(self) -> u8 {
        match self {
            PacketV::Binary(_) => 0,
            PacketV::Json(_) => 1,
            PacketV::Next => 2,
        }
    }
}

/// Encoding of an envelope body: the tag byte, then the JSON text.
pub open spec fn spec_encode_json(j: JsonDataV) -> Seq<u8> {
    match j {
        JsonDataV::ConnectionAccepted => seq![0u8],
        JsonDataV::InitializeUpload(p) => seq![1u8] + p,
        JsonDataV::ReadyForUpload(p) => seq![2u8] + p,
        JsonDataV::SetChunkIndex(p) => seq![3u8] + p,
        JsonDataV::UploadComplete(p) => seq![4u8] + p,
    }
}

/// Encoding of a chunk body: index, size, payload.
pub open spec fn spec_encode_chunk(c: ChunkV) -> Seq<u8> {
    spec_u64_to_be_bytes(c.idx) + spec_u64_to_be_bytes(c.size) + c.data
}

/// Encoding of a whole packet: the kind byte, then the body.
pub open spec fn spec_encode(p: PacketV) -> Seq<u8> {
    match p {
        PacketV::Binary(c) => seq![0u8] + spec_encode_chunk(c),
        PacketV::Json(j) => seq![1u8] + spec_encode_json(j),
        PacketV::Next => seq![2u8],
    }
}

/// Decoding of a chunk body (the bytes after kind byte 0).
pub open spec fn spec_decode_chunk(s: Seq<u8>) -> Result<ChunkV, PacketError> {
    if s.len() < 16 {
        Err(PacketError::MissingBytes)
    } else {
        let idx = spec_u64_from_be_bytes(s.subrange(0, 8));
        let size = spec_u64_from_be_bytes(s.subrange(8, 16));
        let data = s.subrange(16, s.len() as int);
        if data.len() < size {
            Err(PacketError::MissingBytes)
        } else if data.len() > size {
            Err(PacketError::InvalidByteAccess)
        } else {
            Ok(ChunkV { idx, size, data })
        }
    }
}

/// Decoding of an envelope body (the bytes after kind byte 1).
pub open spec fn spec_decode_json(s: Seq<u8>) -> Result<JsonDataV, PacketError> {
    if s.len() < 1 {
        Err(PacketError::MissingBytes)
    } else {
        let tag = s[0];
        let payload = s.subrange(1, s.len() as int);
        if tag == 0 {
            if payload.len() > 0 {
                Err(PacketError::InvalidByteAccess)
            } else {
                Ok(JsonDataV::ConnectionAccepted)
            }
        } else if tag <= 4 {
            if payload.len() == 0 {
                Err(PacketError::MissingBytes)
            } else if tag == 1 {
                Ok(JsonDataV::InitializeUpload(payload))
            } else if tag == 2 {
                Ok(JsonDataV::ReadyForUpload(payload))
            } else if tag == 3 {
                Ok(JsonDataV::SetChunkIndex(payload))
            } else {
                Ok(JsonDataV::UploadComplete(payload))
            }
        } else {
            Err(PacketError::InvalidDataType)
        }
    }
}

/// Decoding of a whole frame.
pub open spec fn spec_decode(s: Seq<u8>) -> Result<PacketV, PacketError> {
    if s.len() == 0 {
        Err(PacketError::MissingBytes)
    } else {
        let kind = s[0];
        let body = s.subrange(1, s.len() as int);
        if kind == 0 {
            match spec_decode_chunk(body) {
                Ok(c) => Ok(PacketV::Binary(c)),
                Err(e) => Err(e),
            }
        } else if kind == 1 {
            match spec_decode_json(body) {
                Ok(j) => Ok(PacketV::Json(j)),
                Err(e) => Err(e),
            }
        } else if kind == 2 {
            if body.len() == 0 {
                Ok(PacketV::Next)
            } else {
                Err(PacketError::InvalidByteAccess)
            }
        } else {
            Err(PacketError::InvalidPacketType)
        }
    }
}

pub fn u64_from_be_bytes(s: &[u8]) -> (x: u64)
    requires
        s@.len() == 8,
    ensures
        x == spec_u64_from_be_bytes(s@),
{
    let mut rev: Vec<u8> = Vec::new();
    let mut i: usize = 0;
    while i < 8
        invariant
            s@.len() == 8,
            i <= 8,
            rev@.len() == i,
            forall|j: int| 0 <= j < i ==> rev@[j] == s@[8 - 1 - j],
        decreases 8 - i,
    {
        rev.push(*slice_index_get(s, 8 - 1 - i));
        i = i + 1;
    }
    proof {
        assert(rev@ =~= s@.reverse());
    }
    u64_from_le_bytes(rev.as_slice())
}

impl Packet {
    /// The kind byte that opens this packet's encoding.
    pub fn packet_type(&self) -> (r: u8)
        ensures
            r == self@.spec_packet_type(),
    {
        match self {
            Packet::Binary(_) => 0,
            Packet::Json(_) => 1,
            Packet::Next => 2,
        }
    }

    /// Encode this packet as the bytes of one frame.
    pub fn to_bytes(&self) -> (r: Vec<u8>)
        ensures
            r@ == spec_encode(self@),
    {
        let mut buf: Vec<u8> = Vec::new();
        buf.push(self.packet_type());
        match self {
            Packet::Binary(c) => {
                let mut body = c.to_bytes();
                buf.append(&mut body);
            },
            Packet::Json(j) => {
                let mut body = j.to_bytes();
                buf.append(&mut body);
            },
            Packet::Next => {},
        }
        proof {
            assert(buf@ =~= spec_encode(self@));
        }
        buf
    }

    /// Decode the bytes of one frame.
    pub fn from_bytes(bytes: &[u8]) -> (r: Result<Packet, PacketError>)
        ensures
            match r {
                Ok(p) => spec_decode(bytes@) == Ok::<PacketV, PacketError>(p@),
                Err(e) => spec_decode(bytes@) == Err::<PacketV, PacketError>(e),
            },
    {
        if bytes.len() == 0 {
            return Err(PacketError::MissingBytes);
        }
        let kind = *slice_index_get(bytes, 0);
        let body = slice_subrange(bytes, 1, bytes.len());
        if kind == 0 {
            match Chunk::from_bytes(body) {
                Ok(c) => Ok(Packet::Binary(c)),
                Err(e) => Err(e),
            }
        } else if kind == 1 {
            match JsonData::from_bytes(body) {
                Ok(j) => Ok(Packet::Json(j)),
                Err(e) => Err(e),
            }
        } else if kind == 2 {
            if body.len() == 0 {
                Ok(Packet::Next)
            } else {
                Err(PacketError::InvalidByteAccess)
            }
        } else {
            Err(PacketError::InvalidPacketType)
        }
    }
}

impl Chunk {
    /// Encode this chunk body: big-endian index, big-endian size, payload.
    pub fn to_bytes(&self) -> (r: Vec<u8>)
        ensures
            r@ == spec_encode_chunk(self@),
    {
        let mut buf = u64_to_be_bytes(self.idx);
        let mut size_bytes = u64_to_be_bytes(self.size);
        buf.append(&mut size_bytes);
        buf.extend_from_slice(self.data.as_slice());
        proof {
            assert(buf@ =~= spec_encode_chunk(self@));
        }
        buf
    }

    /// Decode a chunk body, checking that the payload length equals the
    /// announced size.
    pub fn from_bytes(bytes: &[u8]) -> (r: Result<Chunk, PacketError>)
        ensures
            match r {
                Ok(c) => spec_decode_chunk(bytes@) == Ok::<ChunkV, PacketError>(c@),
                Err(e) => spec_decode_chunk(bytes@) == Err::<ChunkV, PacketError>(e),
            },
    {
        if bytes.len() < 16 {
            return Err(PacketError::MissingBytes);
        }
        let idx = u64_from_be_bytes(slice_subrange(bytes, 0, 8));
        let size = u64_from_be_bytes(slice_subrange(bytes, 8, 16));
        let data = slice_to_vec(slice_subrange(bytes, 16, bytes.len()));
        if (data.len() as u64) < size {
            Err(PacketError::MissingBytes)
        } else if (data.len() as u64) > size {
            Err(PacketError::InvalidByteAccess)
        } else {
            Ok(Chunk { idx, size, data })
        }
    }
}

impl JsonData {
    /// The tag byte that opens this envelope's encoding.
    pub fn data_type(&self) -> (r: u8)
        ensures
            r == self@.spec_data_type(),
    {
        match self {
            JsonData::ConnectionAccepted => 0,
            JsonData::InitializeUpload(_) => 1,
            JsonData::ReadyForUpload(_) => 2,
            JsonData::SetChunkIndex(_) => 3,
            JsonData::UploadComplete(_) => 4,
        }
    }

    /// Encode this envelope body: the tag byte, then the JSON text.
    pub fn to_bytes(&self) -> (r: Vec<u8>)
        ensures
            r@ == spec_encode_json(self@),
    {
        let mut buf: Vec<u8> = Vec::new();
        buf.push(self.data_type());
        match self {
            JsonData::ConnectionAccepted => {},
            JsonData::InitializeUpload(p) => { buf.extend_from_slice(p.as_slice()); },
            JsonData::ReadyForUpload(p) => { buf.extend_from_slice(p.as_slice()); },
            JsonData::SetChunkIndex(p) => { buf.extend_from_slice(p.as_slice()); },
            JsonData::UploadComplete(p) => { buf.extend_from_slice(p.as_slice()); },
        }
        proof {
            assert(buf@ =~= spec_encode_json(self@));
        }
        buf
    }

    /// Decode an envelope body.
    pub fn from_bytes(bytes: &[u8]) -> (r: Result<JsonData, PacketError>)
        ensures
            match r {
                Ok(j) => spec_decode_json(bytes@) == Ok::<JsonDataV, PacketError>(j@),
                Err(e) => spec_decode_json(bytes@) == Err::<JsonDataV, PacketError>(e),
            },
    {
        if bytes.len() < 1 {
            return Err(PacketError::MissingBytes);
        }
        let tag = *slice_index_get(bytes, 0);
        let payload = slice_to_vec(slice_subrange(bytes, 1, bytes.len()));
        if tag == 0 {
            if payload.len() > 0 {
                Err(PacketError::InvalidByteAccess)
            } else {
                Ok(JsonData::ConnectionAccepted)
            }
        } else if tag <= 4 {
            if payload.len() == 0 {
                Err(PacketError::MissingBytes)
            } else if tag == 1 {
                Ok(JsonData::InitializeUpload(payload))
            } else if tag == 2 {
                Ok(JsonData::ReadyForUpload(payload))
            } else if tag == 3 {
                Ok(JsonData::SetChunkIndex(payload))
            } else {
                Ok(JsonData::UploadComplete(payload))
            }
        } else {
            Err(PacketError::InvalidDataType)
        }
    }
}

/// Decoding inverts encoding: every packet constructible from the frame
/// grammar comes back unchanged from its own encoding.
pub proof fn lemma_packet_round_trip(p: PacketV)
    requires
        p.wf(),
    ensures
        spec_decode(spec_encode(p)) == Ok::<PacketV, PacketError>(p),
{
    let s = spec_encode(p);
    match p {
        PacketV::Binary(c) => {
            lemma_u64_be_bytes_round_trip(c.idx);
            lemma_u64_be_bytes_round_trip(c.size);
            let body = s.subrange(1, s.len() as int);
            assert(body =~= spec_encode_chunk(c));
            assert(body.subrange(0, 8) =~= spec_u64_to_be_bytes(c.idx));
            assert(body.subrange(8, 16) =~= spec_u64_to_be_bytes(c.size));
            assert(body.subrange(16, body.len() as int) =~= c.data);
        },
        PacketV::Json(j) => {
            let body = s.subrange(1, s.len() as int);
            assert(body =~= spec_encode_json(j));
            match j {
                JsonDataV::ConnectionAccepted => {
                    assert(body.subrange(1, body.len() as int) =~= Seq::<u8>::empty());
                },
                JsonDataV::InitializeUpload(pl) => {
                    assert(body.subrange(1, body.len() as int) =~= pl);
                },
                JsonDataV::ReadyForUpload(pl) => {
                    assert(body.subrange(1, body.len() as int) =~= pl);
                },
                JsonDataV::SetChunkIndex(pl) => {
                    assert(body.subrange(1, body.len() as int) =~= pl);
                },
                JsonDataV::UploadComplete(pl) => {
                    assert(body.subrange(1, body.len() as int) =~= pl);
                },
            }
        },
        PacketV::Next => {
            assert(s.subrange(1, s.len() as int) =~= Seq::<u8>::empty());
        },
    }
}

/// Truncating a valid encoding is detected by the byte codec, except where
/// the cut falls inside the JSON text of an envelope: the frame layer hands
/// JSON text on as opaque bytes, so such a cut is for the JSON reader to
/// reject. Every other truncation fails with `MissingBytes` or
/// `InvalidByteAccess`.
pub proof fn lemma_truncation_fails(p: PacketV, m: int)
    requires
        p.wf(),
        0 <= m < spec_encode(p).len(),
    ensures
        ({
            let r = spec_decode(spec_encode(p).subrange(0, m));
            ||| r == Err::<PacketV, PacketError>(PacketError::MissingBytes)
            ||| r == Err::<PacketV, PacketError>(PacketError::InvalidByteAccess)
            ||| (p matches PacketV::Json(j) && j.spec_data_type() >= 1 && m > 2)
        }),
{
    let s = spec_encode(p);
    let t = s.subrange(0, m);
    if m == 0 {
        assert(t.len() == 0);
    } else {
        assert(t[0] == s[0]);
        match p {
            PacketV::Binary(c) => {
                lemma_u64_be_bytes_round_trip(c.idx);
                lemma_u64_be_bytes_round_trip(c.size);
                let body = t.subrange(1, t.len() as int);
                assert(body.len() == m - 1);
                if m - 1 < 16 {
                    assert(spec_decode_chunk(body) == Err::<ChunkV, PacketError>(
                        PacketError::MissingBytes));
                } else {
                    assert(s.len() == 17 + c.size);
                    let data = body.subrange(16, body.len() as int);
                    assert(data.len() == m - 17 < c.size);
                    assert(body.subrange(8, 16) =~= s.subrange(9, 17));
                    assert(s.subrange(9, 17) =~= spec_u64_to_be_bytes(c.size));
                    assert(spec_decode_chunk(body) == Err::<ChunkV, PacketError>(
                        PacketError::MissingBytes));
                }
            },
            PacketV::Json(j) => {
                let body = t.subrange(1, t.len() as int);
                match j {
                    JsonDataV::ConnectionAccepted => {
                        assert(s.len() == 2);
                        assert(m == 1);
                        assert(body.len() == 0);
                    },
                    _ => {
                        if m == 1 {
                            assert(body.len() == 0);
                        } else if m == 2 {
                            assert(body.len() == 1);
                            assert(body[0] == s[1]);
                            assert(body.subrange(1, 1).len() == 0);
                        }
                    },
                }
            },
            PacketV::Next => {
                assert(s.len() == 1);
            },
        }
    }
}

} // verus!
