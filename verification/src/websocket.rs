//! The server side of the WebSocket protocol: handshake, binary frames out, text frames in.

use vstd::prelude::*;
use vstd::utf8::*;

use crate::bytes::{
    be16, be64, be_value, law_be16_reads_back, law_be64_reads_back, push_all, push_u16, push_u64,
    read_be,
};
use crate::digest::{base64, base64_encode, digest, sha1};

verus! {

/// The text that a handshake appends to the client's key.
pub const GUID: &'static str = "258EAFA5-E914-47DA-95CA-C5AB0DC85B11";

/// The longest text payload that is read.
pub const MAX_TEXT: usize = 65536;

/// The answer to a handshake key: base64 of the SHA-1 of the key and the GUID.
pub fn ws_accept(key: &str) -> (r: String)
    ensures
        r@ == base64(digest(encode_utf8(key@ + GUID@))),
{
    let mut input: String = key.to_owned();
    input.append(GUID);
    let d: [u8; 20] = sha1(input.as_str().as_bytes());
    base64_encode(d.as_slice())
}

/// The length field of an unmasked frame.
pub open spec fn length_field(n: nat) -> Seq<u8> {
    if n < 126 {
        seq![n as u8]
    } else if n <= 0xFFFF {
        seq![126u8] + be16(n as u16)
    } else {
        seq![127u8] + be64(n as u64)
    }
}

/// A final, unmasked binary frame around `payload`.
pub open spec fn binary_frame(payload: Seq<u8>) -> Seq<u8> {
    seq![0x82u8] + length_field(payload.len()) + payload
}

/// The binary frame that carries `payload`.
pub fn ws_binary_frame(payload: &[u8]) -> (r: Vec<u8>)
    ensures
        r@ == binary_frame(payload@),
{
    let len: usize = payload.len();
    let mut frame: Vec<u8> = Vec::new();
    frame.push(0x82);
    if len < 126 {
        frame.push(len as u8);
    } else if len <= 0xFFFF {
        frame.push(126);
        push_u16(&mut frame, len as u16);
    } else {
        frame.push(127);
        push_u64(&mut frame, len as u64);
    }
    proof {
        assert(frame@ == seq![0x82u8] + length_field(payload@.len()));
    }
    push_all(&mut frame, payload);
    frame
}

/// What part of a client's frame is to be read next.
#[derive(Clone, Copy)]
pub enum WsPhase {
    /// The two bytes that open a frame.
    Head,
    /// A 16-bit length.
    Len16 { masked: bool },
    /// A 64-bit length.
    Len64 { masked: bool },
    /// The mask of a payload of `len` bytes.
    Mask { len: usize },
    /// A payload of `len` bytes.
    Body { len: usize, mask: Option<(u8, u8, u8, u8)> },
}

/// What follows from a part that was read.
pub enum WsOutcome {
    /// Another part is to be read.
    More(WsPhase),
    /// The frame was a text.
    Text(String),
    /// The frame is given up.
    Refused,
}

/// [`WsOutcome`] with the text as a sequence of characters.
pub ghost enum WsNext {
    More(WsPhase),
    Text(Seq<char>),
    Refused,
}

impl View for WsOutcome {
    type V = WsNext;

    open spec fn view(&self) -> WsNext {
        match self {
            WsOutcome::More(p) => WsNext::More(*p),
            WsOutcome::Text(s) => WsNext::Text(s@),
            WsOutcome::Refused => WsNext::Refused,
        }
    }
}

impl WsPhase {
    /// The number of bytes of this part.
    pub open spec fn size(self) -> nat {
        match self {
            WsPhase::Head => 2,
            WsPhase::Len16 { masked } => 2,
            WsPhase::Len64 { masked } => 8,
            WsPhase::Mask { len } => 4,
            WsPhase::Body { len, mask } => len as nat,
        }
    }

    /// How many parts can still follow.
    pub open spec fn rank(self) -> nat {
        match self {
            WsPhase::Head => 3,
            WsPhase::Len16 { masked } => 2,
            WsPhase::Len64 { masked } => 2,
            WsPhase::Mask { len } => 1,
            WsPhase::Body { len, mask } => 0,
        }
    }

    /// The number of bytes to read for this part.
    pub fn want(&self) -> (n: usize)
        ensures
            n == self.size(),
    {
        match self {
            WsPhase::Head => 2,
            WsPhase::Len16 { masked } => 2,
            WsPhase::Len64 { masked } => 8,
            WsPhase::Mask { len } => 4,
            WsPhase::Body { len, mask } => *len,
        }
    }
}

/// The byte of a mask that covers payload byte `i`.
pub open spec fn mask_byte(m: (u8, u8, u8, u8), i: int) -> u8 {
    if i % 4 == 0 {
        m.0
    } else if i % 4 == 1 {
        m.1
    } else if i % 4 == 2 {
        m.2
    } else {
        m.3
    }
}

/// A payload with its mask put on, or taken off.
pub open spec fn masked_with(p: Seq<u8>, m: (u8, u8, u8, u8)) -> Seq<u8> {
    Seq::new(p.len(), |i: int| p[i] ^ mask_byte(m, i))
}

/// What follows once the payload's length is known.
pub open spec fn after_length(masked: bool, n: nat) -> WsNext {
    if n > MAX_TEXT {
        WsNext::Refused
    } else if masked {
        WsNext::More(WsPhase::Mask { len: n as usize })
    } else {
        WsNext::More(WsPhase::Body { len: n as usize, mask: None })
    }
}

/// What a payload is, unmasked: a text where it is UTF-8.
pub open spec fn as_text(p: Seq<u8>) -> WsNext {
    if valid_utf8(p) {
        WsNext::Text(decode_utf8(p))
    } else {
        WsNext::Refused
    }
}

/// What follows from the bytes `b` of part `p`.
pub open spec fn follows(p: WsPhase, b: Seq<u8>) -> WsNext {
    match p {
        WsPhase::Head => if b[0] % 16 != 1 {
            WsNext::Refused
        } else if b[1] % 128 == 126 {
            WsNext::More(WsPhase::Len16 { masked: b[1] >= 128 })
        } else if b[1] % 128 == 127 {
            WsNext::More(WsPhase::Len64 { masked: b[1] >= 128 })
        } else {
            after_length(b[1] >= 128, (b[1] % 128) as nat)
        },
        WsPhase::Len16 { masked } => after_length(masked, be_value(b)),
        WsPhase::Len64 { masked } => after_length(masked, be_value(b)),
        WsPhase::Mask { len } => WsNext::More(
            WsPhase::Body { len, mask: Some((b[0], b[1], b[2], b[3])) },
        ),
        WsPhase::Body { len, mask } => match mask {
            Some(m) => as_text(masked_with(b, m)),
            None => as_text(b),
        },
    }
}

/// `String::from_utf8` of std: the decoded text where the bytes are valid UTF-8, else an error.
#[verifier::external_body]
fn utf8_text(bytes: Vec<u8>) -> (r: Option<String>)
    ensures
        match r {
            Some(s) => valid_utf8(bytes@) && s@ == decode_utf8(bytes@),
            None => !valid_utf8(bytes@),
        },
{
    String::from_utf8(bytes).ok()
}

fn length_known(masked: bool, n: u64) -> (r: WsOutcome)
    ensures
        r@ == after_length(masked, n as nat),
{
    if n > MAX_TEXT as u64 {
        WsOutcome::Refused
    } else if masked {
        WsOutcome::More(WsPhase::Mask { len: n as usize })
    } else {
        WsOutcome::More(WsPhase::Body { len: n as usize, mask: None })
    }
}

/// Takes the bytes of a part.
pub fn ws_feed(phase: &WsPhase, bytes: &[u8]) -> (r: WsOutcome)
    requires
        bytes@.len() == phase.size(),
    ensures
        r@ == follows(*phase, bytes@),
{
    match phase {
        WsPhase::Head => {
            if bytes[0] % 16 != 1 {
                return WsOutcome::Refused;
            }
            let masked: bool = bytes[1] >= 128;
            let n: u8 = bytes[1] % 128;
            if n == 126 {
                WsOutcome::More(WsPhase::Len16 { masked })
            } else if n == 127 {
                WsOutcome::More(WsPhase::Len64 { masked })
            } else {
                length_known(masked, n as u64)
            }
        },
        WsPhase::Len16 { masked } => length_known(*masked, read_be(bytes)),
        WsPhase::Len64 { masked } => length_known(*masked, read_be(bytes)),
        WsPhase::Mask { len } => WsOutcome::More(
            WsPhase::Body { len: *len, mask: Some((bytes[0], bytes[1], bytes[2], bytes[3])) },
        ),
        WsPhase::Body { len, mask } => {
            let mut payload: Vec<u8> = Vec::new();
            match mask {
                Some(m) => {
                    let mut i: usize = 0;
                    while i < bytes.len()
                        invariant
                            i <= bytes.len(),
                            payload@ == masked_with(bytes@, *m).take(i as int),
                        decreases bytes.len() - i,
                    {
                        let k: u8 = if i % 4 == 0 {
                            m.0
                        } else if i % 4 == 1 {
                            m.1
                        } else if i % 4 == 2 {
                            m.2
                        } else {
                            m.3
                        };
                        payload.push(bytes[i] ^ k);
                        i = i + 1;
                    }
                    proof {
                        assert(payload@ == masked_with(bytes@, *m));
                    }
                },
                None => {
                    push_all(&mut payload, bytes);
                    proof {
                        assert(payload@ == bytes@);
                    }
                },
            }
            match utf8_text(payload) {
                Some(s) => WsOutcome::Text(s),
                None => WsOutcome::Refused,
            }
        },
    }
}

/// The text that part `p` and the parts after it make of a stream, with what the stream holds
/// behind them.
pub open spec fn read_text(p: WsPhase, stream: Seq<u8>) -> Option<(Seq<char>, Seq<u8>)>
    decreases p.rank(),
{
    if stream.len() < p.size() {
        None
    } else {
        let rest = stream.skip(p.size() as int);
        match follows(p, stream.take(p.size() as int)) {
            WsNext::More(q) => if q.rank() < p.rank() {
                read_text(q, rest)
            } else {
                None
            },
            WsNext::Text(t) => Some((t, rest)),
            WsNext::Refused => None,
        }
    }
}

/// Reads one text frame from the front of `stream`; with the text comes the number of bytes
/// that the frame took.
pub fn ws_recv_text(stream: &[u8]) -> (r: Option<(String, usize)>)
    ensures
        match r {
            Some((s, n)) => n <= stream@.len() && read_text(WsPhase::Head, stream@) == Some(
                (s@, stream@.skip(n as int)),
            ),
            None => read_text(WsPhase::Head, stream@) is None,
        },
{
    let mut phase: WsPhase = WsPhase::Head;
    let mut at: usize = 0;
    proof {
        assert(stream@.skip(0) == stream@);
    }
    loop
        invariant
            at <= stream@.len(),
            read_text(phase, stream@.skip(at as int)) == read_text(WsPhase::Head, stream@),
        decreases phase.rank(),
    {
        let n: usize = phase.want();
        if stream.len() - at < n {
            return None;
        }
        let part: &[u8] = vstd::slice::slice_subrange(stream, at, at + n);
        proof {
            let s = stream@.skip(at as int);
            assert(part@ == s.take(n as int));
            assert(s.skip(n as int) == stream@.skip(at + n));
        }
        let out: WsOutcome = ws_feed(&phase, part);
        at = at + n;
        match out {
            WsOutcome::More(q) => {
                phase = q;
            },
            WsOutcome::Text(s) => {
                return Some((s, at));
            },
            WsOutcome::Refused => {
                return None;
            },
        }
    }
}

/// Law: putting a mask on twice gives the payload back.
pub proof fn law_unmasking_undoes_masking(p: Seq<u8>, m: (u8, u8, u8, u8))
    ensures
        masked_with(masked_with(p, m), m) == p,
{
    let once = masked_with(p, m);
    let twice = masked_with(once, m);
    assert forall|i: int| 0 <= i < p.len() implies twice[i] == p[i] by {
        let x = p[i];
        let k = mask_byte(m, i);
        assert((x ^ k) ^ k == x) by (bit_vector);
    }
    assert(twice == p);
}

/// The length field of a masked frame.
pub open spec fn masked_length_field(n: nat) -> Seq<u8> {
    if n < 126 {
        seq![(128 + n) as u8]
    } else if n <= 0xFFFF {
        seq![254u8] + be16(n as u16)
    } else {
        seq![255u8] + be64(n as u64)
    }
}

/// The frame in which a client sends a text under the mask `m`.
pub open spec fn client_frame(text: Seq<char>, m: (u8, u8, u8, u8)) -> Seq<u8> {
    let p = encode_utf8(text);
    seq![0x81u8] + masked_length_field(p.len()) + seq![m.0, m.1, m.2, m.3] + masked_with(p, m)
}

proof fn lemma_body_read(p: Seq<u8>, m: (u8, u8, u8, u8), rest: Seq<u8>)
    requires
        p.len() <= MAX_TEXT,
        valid_utf8(p),
    ensures
        read_text(
            WsPhase::Mask { len: p.len() as usize },
            seq![m.0, m.1, m.2, m.3] + masked_with(p, m) + rest,
        ) == Some((decode_utf8(p), rest)),
{
    let four = seq![m.0, m.1, m.2, m.3];
    let body = masked_with(p, m);
    let s = four + body + rest;
    let phase = WsPhase::Mask { len: p.len() as usize };
    assert(s.take(4) == four);
    assert(s.skip(4) == body + rest);
    let next = WsPhase::Body { len: p.len() as usize, mask: Some(m) };
    assert(follows(phase, four) == WsNext::More(next));
    let t = body + rest;
    assert(t.take(p.len() as int) == body);
    assert(t.skip(p.len() as int) == rest);
    law_unmasking_undoes_masking(p, m);
    assert(read_text(next, t) == Some((decode_utf8(p), rest)));
}

/// A part of a frame that is read leads to the next.
proof fn lemma_step(p: WsPhase, b: Seq<u8>, q: WsPhase, rest: Seq<u8>)
    requires
        b.len() == p.size(),
        follows(p, b) == WsNext::More(q),
        q.rank() < p.rank(),
    ensures
        read_text(p, b + rest) == read_text(q, rest),
{
    let s = b + rest;
    assert(s.take(b.len() as int) =~= b);
    assert(s.skip(b.len() as int) =~= rest);
}

/// The start of a client's frame around `n` bytes leads to its mask.
proof fn lemma_start_read(n: nat, tail: Seq<u8>)
    requires
        n <= MAX_TEXT,
    ensures
        read_text(WsPhase::Head, seq![0x81u8] + masked_length_field(n) + tail) == read_text(
            WsPhase::Mask { len: n as usize },
            tail,
        ),
{
    let q = WsPhase::Mask { len: n as usize };
    if n < 126 {
        let b = seq![0x81u8, (128 + n) as u8];
        assert(seq![0x81u8] + masked_length_field(n) =~= b);
        lemma_step(WsPhase::Head, b, q, tail);
    } else if n <= 0xFFFF {
        let b = seq![0x81u8, 254u8];
        let field = be16(n as u16);
        law_be16_reads_back(n as u16);
        let mid = WsPhase::Len16 { masked: true };
        assert(seq![0x81u8] + masked_length_field(n) + tail =~= b + (field + tail));
        lemma_step(WsPhase::Head, b, mid, field + tail);
        lemma_step(mid, field, q, tail);
    } else {
        let b = seq![0x81u8, 255u8];
        let field = be64(n as u64);
        law_be64_reads_back(n as u64);
        let mid = WsPhase::Len64 { masked: true };
        assert(seq![0x81u8] + masked_length_field(n) + tail =~= b + (field + tail));
        lemma_step(WsPhase::Head, b, mid, field + tail);
        lemma_step(mid, field, q, tail);
    }
}

/// Law: a text of at most [`MAX_TEXT`] bytes that a client sends, under any mask, is read back as
/// it was sent, and what follows its frame is left for the next one.
pub proof fn law_client_text_is_read_back(text: Seq<char>, m: (u8, u8, u8, u8), rest: Seq<u8>)
    requires
        encode_utf8(text).len() <= MAX_TEXT,
    ensures
        read_text(WsPhase::Head, client_frame(text, m) + rest) == Some((text, rest)),
{
    let p = encode_utf8(text);
    encode_utf8_valid_utf8(text);
    encode_utf8_decode_utf8(text);
    let start = seq![0x81u8] + masked_length_field(p.len());
    let four = seq![m.0, m.1, m.2, m.3];
    let body = masked_with(p, m);
    let tail = four + body + rest;
    assert(client_frame(text, m) + rest =~= start + tail);
    lemma_start_read(p.len(), tail);
    lemma_body_read(p, m, rest);
}

/// Law: a binary frame is not read as a text.
pub proof fn law_binary_frame_is_no_text(payload: Seq<u8>, rest: Seq<u8>)
    ensures
        read_text(WsPhase::Head, binary_frame(payload) + rest) is None,
{
    let s = binary_frame(payload) + rest;
    assert(s.take(2)[0] == 0x82);
}

/// Law: a binary frame opens with the byte 130. Behind it stands the length: up to 125 in one byte, up to
/// 65535 in two behind the byte 126, and else in eight behind the byte 127; the payload is the rest.
pub proof fn law_frame_layout(p: Seq<u8>)
    requires
        p.len() <= u64::MAX,
    ensures
        ({
            let f = binary_frame(p);
            &&& f[0] == 130
            &&& p.len() <= 125 ==> f[1] == p.len() && f.skip(2) == p
            &&& 125 < p.len() <= 65535 ==> f[1] == 126 && be_value(f.subrange(2, 4)) == p.len()
                && f.skip(4) == p
            &&& p.len() > 65535 ==> f[1] == 127 && be_value(f.subrange(2, 10)) == p.len() && f.skip(
                10,
            ) == p
        }),
{
    let f = binary_frame(p);
    let n = p.len();
    if n < 126 {
        assert(f.skip(2) =~= p);
    } else if n <= 0xFFFF {
        law_be16_reads_back(n as u16);
        assert(f.subrange(2, 4) =~= be16(n as u16));
        assert(f.skip(4) =~= p);
    } else {
        law_be64_reads_back(n as u64);
        assert(f.subrange(2, 10) =~= be64(n as u64));
        assert(f.skip(10) =~= p);
    }
}

/// Law: the four bytes of a mask cover the payload in turn.
pub proof fn law_mask_goes_round(p: Seq<u8>, m: (u8, u8, u8, u8), k: int)
    requires
        0 <= k,
        4 * k + 3 < p.len(),
    ensures
        masked_with(p, m).len() == p.len(),
        masked_with(p, m)[4 * k] == p[4 * k] ^ m.0,
        masked_with(p, m)[4 * k + 1] == p[4 * k + 1] ^ m.1,
        masked_with(p, m)[4 * k + 2] == p[4 * k + 2] ^ m.2,
        masked_with(p, m)[4 * k + 3] == p[4 * k + 3] ^ m.3,
{
}

/// Law: of the frames of a client only texts are read, with the low half of their first byte 1, and no
/// payload of more than 64 kibibytes.
pub proof fn law_what_is_refused(b: Seq<u8>, masked: bool, n: nat)
    requires
        b.len() == 2,
    ensures
        b[0] % 16 != 1 ==> follows(WsPhase::Head, b) is Refused,
        b[0] % 16 == 1 ==> !(follows(WsPhase::Head, b) is Refused),
        n > 65536 ==> after_length(masked, n) is Refused,
        n <= 65536 && masked ==> after_length(masked, n) == WsNext::More(
            WsPhase::Mask { len: n as usize },
        ),
        n <= 65536 && !masked ==> after_length(masked, n) == WsNext::More(
            WsPhase::Body { len: n as usize, mask: None },
        ),
        b[0] % 16 == 1 && b[1] == 126 ==> follows(WsPhase::Head, b) == WsNext::More(
            WsPhase::Len16 { masked: false },
        ),
        b[0] % 16 == 1 && b[1] == 255 ==> follows(WsPhase::Head, b) == WsNext::More(
            WsPhase::Len64 { masked: true },
        ),
        WsPhase::Head.size() == 2,
        (WsPhase::Len16 { masked }).size() == 2,
        (WsPhase::Len64 { masked }).size() == 8,
        (WsPhase::Mask { len: 0 }).size() == 4,
{
}

/// Law: the text that a handshake puts behind the key is the one of the protocol.
pub proof fn law_handshake_text()
    ensures
        GUID@.len() == 36,
        GUID@ == "258EAFA5-E914-47DA-95CA-C5AB0DC85B11"@,
{
    reveal_strlit("258EAFA5-E914-47DA-95CA-C5AB0DC85B11");
}

} // verus!
