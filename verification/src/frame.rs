//! The multiplexed frame codec: a 4-byte header (24-bit little-endian
//! payload length, then one tag byte) followed by the payload.  The tag
//! travels offset by `+0x07` on the wire; logical tag 0 is Data, the only
//! kind whose payload this core interprets.
use vstd::prelude::*;

verus! {

/// The message taxonomy of the multiplexed phase.  Only `Data` carries a
/// payload that this core reads; the other kinds are recognised and
/// passed along as bare events.
#[derive(Clone, Debug)]
pub enum RsyncMessage {
    Data { data: Vec<u8> },
    XferError,
    Info,
    Error,
    Warning,
    SocketError,
    Utf8Error,
    Log,
    Client,
    Redo,
    Stats,
    IoError,
    IoTimeout,
    Noop,
    ErrorExit,
    Success,
    Deleted,
    NoSend,
}

impl RsyncMessage {
    /// The logical tag of each message kind.
    pub open spec fn spec_tag(&self) -> u8 {
        match self {
            RsyncMessage::Data { .. } => 0,
            RsyncMessage::XferError => 1,
            RsyncMessage::Info => 2,
            RsyncMessage::Error => 3,
            RsyncMessage::Warning => 4,
            RsyncMessage::SocketError => 5,
            RsyncMessage::Utf8Error => 6,
            RsyncMessage::Log => 7,
            RsyncMessage::Client => 8,
            RsyncMessage::Redo => 9,
            RsyncMessage::Stats => 10,
            RsyncMessage::IoError => 11,
            RsyncMessage::IoTimeout => 12,
            RsyncMessage::Noop => 13,
            RsyncMessage::ErrorExit => 14,
            RsyncMessage::Success => 15,
            RsyncMessage::Deleted => 16,
            RsyncMessage::NoSend => 17,
        }
    }

    /// The payload a message carries on the wire: Data's bytes, nothing
    /// for every other kind.
    pub open spec fn spec_payload(&self) -> Seq<u8> {
        match self {
            RsyncMessage::Data { data } => data@,
            _ => Seq::empty(),
        }
    }

    /// The logical tag, executably.
    pub fn tag_byte(&self) -> (r: u8)
        ensures
            r == self.spec_tag(),
    {
        match self {
            RsyncMessage::Data { .. } => 0,
            RsyncMessage::XferError => 1,
            RsyncMessage::Info => 2,
            RsyncMessage::Error => 3,
            RsyncMessage::Warning => 4,
            RsyncMessage::SocketError => 5,
            RsyncMessage::Utf8Error => 6,
            RsyncMessage::Log => 7,
            RsyncMessage::Client => 8,
            RsyncMessage::Redo => 9,
            RsyncMessage::Stats => 10,
            RsyncMessage::IoError => 11,
            RsyncMessage::IoTimeout => 12,
            RsyncMessage::Noop => 13,
            RsyncMessage::ErrorExit => 14,
            RsyncMessage::Success => 15,
            RsyncMessage::Deleted => 16,
            RsyncMessage::NoSend => 17,
        }
    }

    /// The message a logical tag names, carrying `data` when the tag is
    /// Data's.  Tags above 17 name nothing.
    pub fn from_tag(tag: u8, data: Vec<u8>) -> (r: Option<RsyncMessage>)
        ensures
            match r {
                Some(m) => tag <= 17 && m.spec_tag() == tag && m.spec_payload() == if tag == 0 {
                    data@
                } else {
                    Seq::<u8>::empty()
                },
                None => tag > 17,
            },
    {
        match tag {
            0 => Some(RsyncMessage::Data { data }),
            1 => Some(RsyncMessage::XferError),
            2 => Some(RsyncMessage::Info),
            3 => Some(RsyncMessage::Error),
            4 => Some(RsyncMessage::Warning),
            5 => Some(RsyncMessage::SocketError),
            6 => Some(RsyncMessage::Utf8Error),
            7 => Some(RsyncMessage::Log),
            8 => Some(RsyncMessage::Client),
            9 => Some(RsyncMessage::Redo),
            10 => Some(RsyncMessage::Stats),
            11 => Some(RsyncMessage::IoError),
            12 => Some(RsyncMessage::IoTimeout),
            13 => Some(RsyncMessage::Noop),
            14 => Some(RsyncMessage::ErrorExit),
            15 => Some(RsyncMessage::Success),
            16 => Some(RsyncMessage::Deleted),
            17 => Some(RsyncMessage::NoSend),
            _ => None,
        }
    }
}

/// The 4 header bytes for a payload length and a logical tag: the length
/// little-endian in the low 24 bits, then the tag offset by +0x07.
pub open spec fn header_bytes(len: nat, tag: u8) -> Seq<u8> {
    seq![
        (len % 256) as u8,
        ((len / 256) % 256) as u8,
        ((len / 65536) % 256) as u8,
        ((tag + 7) % 256) as u8,
    ]
}

/// The whole wire form of a message: header, then payload.
pub open spec fn frame_bytes(m: &RsyncMessage) -> Seq<u8> {
    header_bytes(m.spec_payload().len(), m.spec_tag()) + m.spec_payload()
}

/// The logical tag a wire tag byte names: the +0x07 offset undone, with
/// wrap-around.
pub open spec fn wire_to_tag(b: u8) -> u8 {
    if b >= 7 {
        (b - 7) as u8
    } else {
        (b + 249) as u8
    }
}

/// The payload length declared by a 4-byte header.
pub open spec fn header_len(h: Seq<u8>) -> nat
    recommends
        h.len() >= 4,
{
    (h[0] as nat) + 256 * (h[1] as nat) + 65536 * (h[2] as nat)
}

/// Packs the multiplex header for a message.  The payload must fit the
/// 24-bit length field.
pub fn msg_to_header(message: &RsyncMessage) -> (r: [u8; 4])
    requires
        message.spec_payload().len() < 0x1000000,
    ensures
        r@ == header_bytes(message.spec_payload().len(), message.spec_tag()),
        r@[3] == message.spec_tag() + 7,
{
    let length: usize = match message {
        RsyncMessage::Data { data } => data.len(),
        _ => 0,
    };
    let tag: u8 = self_tag_plus_offset(message);
    let r: [u8; 4] = [
        (length % 256) as u8,
        ((length / 256) % 256) as u8,
        ((length / 65536) % 256) as u8,
        tag,
    ];
    r
}

/// The wire tag byte of a message: its logical tag offset by +0x07.
fn self_tag_plus_offset(message: &RsyncMessage) -> (r: u8)
    ensures
        r == message.spec_tag() + 7,
        r == (message.spec_tag() + 7) % 256,
{
    message.tag_byte() + 7
}

/// Unpacks a header: the logical tag and the declared payload length.
pub fn msg_from_header(data: &[u8]) -> (r: (u8, u32))
    requires
        data@.len() >= 4,
    ensures
        r.0 == wire_to_tag(data@[3]),
        r.1 as nat == header_len(data@),
{
    let tag: u8 = if data[3] >= 7 {
        data[3] - 7
    } else {
        data[3] + 249
    };
    let length: u32 = (data[0] as u32) + 256 * (data[1] as u32) + 65536 * (data[2] as u32);
    (tag, length)
}

/// Law: a Data frame round-trips through a multiplexed stream.  A stream
/// that starts with the wire form of a Data payload `p` (as
/// `send_message` queues it) parses back, per `read_message`'s contract,
/// as logical tag 0 with payload exactly `p`, consuming exactly the
/// frame and leaving the rest of the stream untouched.
pub proof fn lemma_data_frame_round_trip(p: Seq<u8>, rest: Seq<u8>)
    requires
        p.len() < 0x1000000,
    ensures
        ({
            let stream = header_bytes(p.len(), 0) + p + rest;
            &&& stream.len() == 4 + p.len() + rest.len()
            &&& wire_to_tag(stream[3]) == 0
            &&& header_len(stream) == p.len()
            &&& stream.subrange(4, 4 + p.len() as int) == p
            &&& stream.skip(4 + p.len() as int) == rest
        }),
{
    lemma_header_round_trip(p.len(), 0);
    let h = header_bytes(p.len(), 0);
    let stream = h + p + rest;
    assert(stream[0] == h[0]);
    assert(stream[1] == h[1]);
    assert(stream[2] == h[2]);
    assert(stream[3] == h[3]);
    assert(stream.subrange(4, 4 + p.len() as int) =~= p);
    assert(stream.skip(4 + p.len() as int) =~= rest);
}

/// Law: the header round-trips — what `msg_to_header` packs,
/// `msg_from_header` reads back as the same logical tag and length; and a
/// Data frame's wire tag byte is exactly 0x07.
pub proof fn lemma_header_round_trip(len: nat, tag: u8)
    requires
        len < 0x1000000,
        tag <= 17,
    ensures
        header_len(header_bytes(len, tag)) == len,
        wire_to_tag(header_bytes(len, tag)[3]) == tag,
        tag == 0 ==> header_bytes(len, tag)[3] == 0x07,
{
    let h = header_bytes(len, tag);
    assert(h[0] == (len % 256) as u8);
    assert(h[1] == ((len / 256) % 256) as u8);
    assert(h[2] == ((len / 65536) % 256) as u8);
    assert(header_len(h) == len % 256 + 256 * ((len / 256) % 256) + 65536 * ((len / 65536) % 256));
    vstd::arithmetic::div_mod::lemma_breakdown(len as int, 256, 256);
    assert(len % 65536 == 256 * ((len / 256) % 256) + len % 256);
    vstd::arithmetic::div_mod::lemma_breakdown(len as int, 65536, 256);
    assert(len % 16777216 == 65536 * ((len / 65536) % 256) + len % 65536);
    vstd::arithmetic::div_mod::lemma_small_mod(len, 0x1000000);
}

} // verus!
