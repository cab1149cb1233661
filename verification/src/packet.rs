//! The ICMP Echo message codec: encoding an Echo Request into wire bytes for
//! ICMPv4 or ICMPv6, decoding received bytes into an Echo Reply, and locating
//! the ICMP message inside a received IPv4 datagram.

use crate::checksum::{
    checksum_ok, checksum_valid, compute_checksum, lemma_checksum_detects_byte_change,
    lemma_checksum_insert, spec_checksum,
};
use vstd::arithmetic::div_mod::lemma_fundamental_div_mod;
use vstd::prelude::*;

verus! {

/// Bytes in an ICMP Echo header: type, code, 16-bit checksum, 16-bit
/// identifier, 16-bit sequence number.
pub const ICMP_HEADER_SIZE: usize = 8;

/// The two ICMP variants. They select the Echo type values and the checksum
/// policy: for V4 the encoder computes and stores the Internet checksum; for V6
/// the field is left zero and the kernel fills in the pseudo-header checksum.
#[derive(Clone, Copy, Debug, PartialEq, Eq, Structural)]
pub enum IcmpVariant {
    V4,
    V6,
}

/// The type byte of an Echo Request for each variant.
pub open spec fn echo_request_type(v: IcmpVariant) -> u8 {
    match v {
        IcmpVariant::V4 => 8,
        IcmpVariant::V6 => 128,
    }
}

/// The type byte of an Echo Reply for each variant.
pub open spec fn echo_reply_type(v: IcmpVariant) -> u8 {
    match v {
        IcmpVariant::V4 => 0,
        IcmpVariant::V6 => 129,
    }
}

/// High byte of a 16-bit field in network (big-endian) order.
pub open spec fn hi_byte(x: u16) -> u8 {
    (x / 256) as u8
}

/// Low byte of a 16-bit field in network (big-endian) order.
pub open spec fn lo_byte(x: u16) -> u8 {
    (x % 256) as u8
}

/// The 16-bit value read back from two bytes in network order.
pub open spec fn be16(hi: u8, lo: u8) -> u16 {
    ((hi as nat) * 256 + (lo as nat)) as u16
}

/// The wire bytes of an Echo message: type byte, zero code byte, checksum
/// field, identifier and sequence number in network order, then the payload.
pub open spec fn spec_message(t: u8, ck: u16, ident: u16, seq_cnt: u16, payload: Seq<u8>) -> Seq<
    u8,
> {
    seq![
        t,
        0u8,
        hi_byte(ck),
        lo_byte(ck),
        hi_byte(ident),
        lo_byte(ident),
        hi_byte(seq_cnt),
        lo_byte(seq_cnt),
    ] + payload
}

/// What encoding writes over a destination buffer: the message with a zero
/// checksum field, the rest of the buffer (`tail`) untouched; for V4 the
/// Internet checksum of that whole buffer is then stored in the checksum field.
pub open spec fn spec_encode(
    v: IcmpVariant,
    t: u8,
    ident: u16,
    seq_cnt: u16,
    payload: Seq<u8>,
    tail: Seq<u8>,
) -> Seq<u8> {
    let zeroed = spec_message(t, 0u16, ident, seq_cnt, payload) + tail;
    match v {
        IcmpVariant::V4 => {
            let ck = spec_checksum(zeroed);
            zeroed.update(2, hi_byte(ck)).update(3, lo_byte(ck))
        },
        IcmpVariant::V6 => zeroed,
    }
}

/// Encoding failure: the destination buffer is shorter than header plus
/// payload.
#[derive(Clone, Copy, Debug, PartialEq, Eq, Structural)]
pub enum EncodeError {
    BufferTooSmall,
}

/// Decoding failure: buffer too short for the expected header, a type or code
/// byte that is not the expected Echo Reply value, or a checksum mismatch.
#[derive(Clone, Copy, Debug, PartialEq, Eq, Structural)]
pub enum DecodeError {
    TooShort,
    WrongKind,
    Checksum,
}

/// What decoding an Echo Reply yields from received bytes: the identifier, the
/// sequence number, and every byte after the header as payload.
pub open spec fn spec_decode(v: IcmpVariant, s: Seq<u8>) -> Result<
    (u16, u16, Seq<u8>),
    DecodeError,
> {
    if s.len() < ICMP_HEADER_SIZE {
        Err(DecodeError::TooShort)
    } else if s[0] != echo_reply_type(v) || s[1] != 0 {
        Err(DecodeError::WrongKind)
    } else if v == IcmpVariant::V4 && !checksum_ok(s) {
        Err(DecodeError::Checksum)
    } else {
        Ok((be16(s[4], s[5]), be16(s[6], s[7]), s.skip(ICMP_HEADER_SIZE as int)))
    }
}

/// An Echo Request: a 16-bit session identifier, a 16-bit sequence number, and
/// an opaque payload carried behind the header.
#[derive(Debug)]
pub struct EchoRequest {
    pub ident: u16,
    pub seq_cnt: u16,
    pub payload: Vec<u8>,
}

impl EchoRequest {
    /// Writes the request into `buffer` as an Echo Request of the given
    /// variant, leaving bytes past header and payload as they were; fails,
    /// leaving the buffer untouched, exactly when the buffer is too short.
    pub fn encode(&self, variant: IcmpVariant, buffer: &mut Vec<u8>) -> (r: Result<
        (),
        EncodeError,
    >)
        ensures
            old(buffer)@.len() < ICMP_HEADER_SIZE + self.payload@.len() ==> (r == Err::<
                (),
                EncodeError,
            >(EncodeError::BufferTooSmall) && final(buffer)@ == old(buffer)@),
            old(buffer)@.len() >= ICMP_HEADER_SIZE + self.payload@.len() ==> (r == Ok::<
                (),
                EncodeError,
            >(()) && final(buffer)@ == spec_encode(
                variant,
                echo_request_type(variant),
                self.ident,
                self.seq_cnt,
                self.payload@,
                old(buffer)@.skip(ICMP_HEADER_SIZE as int + self.payload@.len() as int),
            )),
    {
        let plen = self.payload.len();
        if buffer.len() < ICMP_HEADER_SIZE || buffer.len() - ICMP_HEADER_SIZE < plen {
            return Err(EncodeError::BufferTooSmall);
        }
        let t: u8 = match variant {
            IcmpVariant::V4 => 8,
            IcmpVariant::V6 => 128,
        };
        let mut out: Vec<u8> = Vec::new();
        out.push(t);
        out.push(0);
        out.push(0);
        out.push(0);
        out.push((self.ident / 256) as u8);
        out.push((self.ident % 256) as u8);
        out.push((self.seq_cnt / 256) as u8);
        out.push((self.seq_cnt % 256) as u8);
        let ghost header = out@;
        assert(header =~= spec_message(t, 0u16, self.ident, self.seq_cnt, Seq::<u8>::empty()));
        let mut k: usize = 0;
        while k < plen
            invariant
                k <= plen,
                plen == self.payload@.len(),
                out@ == header + self.payload@.take(k as int),
            decreases plen - k,
        {
            out.push(self.payload[k]);
            proof {
                assert(header + self.payload@.take(k + 1) =~= (header + self.payload@.take(
                    k as int,
                )).push(self.payload@[k as int]));
            }
            k = k + 1;
        }
        assert(out@ =~= header + self.payload@);
        let start: usize = ICMP_HEADER_SIZE + plen;
        let mut j: usize = start;
        while j < buffer.len()
            invariant
                start <= j <= buffer@.len(),
                start == ICMP_HEADER_SIZE + plen,
                plen == self.payload@.len(),
                buffer@ == old(buffer)@,
                out@ == header + self.payload@ + buffer@.subrange(start as int, j as int),
            decreases buffer@.len() - j,
        {
            out.push(buffer[j]);
            proof {
                assert(header + self.payload@ + buffer@.subrange(start as int, j + 1) =~= (header
                    + self.payload@ + buffer@.subrange(start as int, j as int)).push(
                    buffer@[j as int],
                ));
            }
            j = j + 1;
        }
        let ghost zeroed = spec_message(t, 0u16, self.ident, self.seq_cnt, self.payload@) + old(
            buffer,
        )@.skip(start as int);
        assert(out@ =~= zeroed);
        match variant {
            IcmpVariant::V4 => {
                let ck = compute_checksum(&out);
                out.set(2, (ck / 256) as u8);
                out.set(3, (ck % 256) as u8);
            },
            IcmpVariant::V6 => {},
        }
        *buffer = out;
        Ok(())
    }
}

/// An Echo Reply as parsed from received bytes.
#[derive(Debug)]
pub struct EchoReply {
    pub ident: u16,
    pub seq_cnt: u16,
    pub payload: Vec<u8>,
}

impl EchoReply {
    /// Decodes received bytes as an Echo Reply of the given variant: checks the
    /// length, the expected reply type and code bytes, and (for V4 only) that
    /// the checksum over the whole buffer recomputes to zero; then extracts the
    /// identifier, the sequence number, and the remaining bytes as payload.
    pub fn decode(variant: IcmpVariant, data: &Vec<u8>) -> (r: Result<EchoReply, DecodeError>)
        ensures
            (match spec_decode(variant, data@) {
                Ok((id, sq, pl)) => r is Ok && r->Ok_0.ident == id && r->Ok_0.seq_cnt == sq
                    && r->Ok_0.payload@ == pl,
                Err(e) => r is Err && r->Err_0 == e,
            }),
    {
        if data.len() < ICMP_HEADER_SIZE {
            return Err(DecodeError::TooShort);
        }
        let expected: u8 = match variant {
            IcmpVariant::V4 => 0,
            IcmpVariant::V6 => 129,
        };
        if data[0] != expected || data[1] != 0 {
            return Err(DecodeError::WrongKind);
        }
        let is_v4 = match variant {
            IcmpVariant::V4 => true,
            IcmpVariant::V6 => false,
        };
        if is_v4 && !checksum_valid(data) {
            return Err(DecodeError::Checksum);
        }
        let ident = (data[4] as u16) * 256 + (data[5] as u16);
        let seq_cnt = (data[6] as u16) * 256 + (data[7] as u16);
        let mut payload: Vec<u8> = Vec::new();
        let mut k: usize = ICMP_HEADER_SIZE;
        while k < data.len()
            invariant
                ICMP_HEADER_SIZE <= k <= data@.len(),
                payload@ == data@.subrange(ICMP_HEADER_SIZE as int, k as int),
            decreases data@.len() - k,
        {
            proof {
                assert(data@.subrange(ICMP_HEADER_SIZE as int, k + 1) =~= data@.subrange(
                    ICMP_HEADER_SIZE as int,
                    k as int,
                ).push(data@[k as int]));
            }
            payload.push(data[k]);
            k = k + 1;
        }
        assert(payload@ =~= data@.skip(ICMP_HEADER_SIZE as int));
        Ok(EchoReply { ident, seq_cnt, payload })
    }
}

/// What parsing the outer IPv4 header yields: the bytes after the declared
/// header length (low nibble of the first byte, times four), where the embedded
/// ICMP message begins; a failure when the buffer is empty or shorter than the
/// declared header.
pub open spec fn spec_ipv4_decode(s: Seq<u8>) -> Result<Seq<u8>, DecodeError> {
    if s.len() < 1 {
        Err(DecodeError::TooShort)
    } else {
        let hl = (s[0] % 16) as int * 4;
        if hl > s.len() {
            Err(DecodeError::TooShort)
        } else {
            Ok(s.skip(hl))
        }
    }
}

/// A view of a received IPv4 datagram: the declared header length and the bytes
/// that follow it, which hold the embedded ICMP message.
#[derive(Debug)]
pub struct IpV4Packet {
    pub header_len: usize,
    pub data: Vec<u8>,
}

impl IpV4Packet {
    /// Parses the outer IPv4 header of a received datagram.
    pub fn decode(raw: &Vec<u8>) -> (r: Result<IpV4Packet, DecodeError>)
        ensures
            (match spec_ipv4_decode(raw@) {
                Ok(pl) => r is Ok && r->Ok_0.data@ == pl && r->Ok_0.header_len == (raw@[0]
                    % 16) as int * 4,
                Err(e) => r is Err && r->Err_0 == e,
            }),
    {
        if raw.len() < 1 {
            return Err(DecodeError::TooShort);
        }
        let hl: usize = ((raw[0] % 16) as usize) * 4;
        if hl > raw.len() {
            return Err(DecodeError::TooShort);
        }
        let mut data: Vec<u8> = Vec::new();
        let mut k: usize = hl;
        while k < raw.len()
            invariant
                hl <= k <= raw@.len(),
                data@ == raw@.subrange(hl as int, k as int),
            decreases raw@.len() - k,
        {
            proof {
                assert(raw@.subrange(hl as int, k + 1) =~= raw@.subrange(hl as int, k as int).push(
                    raw@[k as int],
                ));
            }
            data.push(raw[k]);
            k = k + 1;
        }
        assert(data@ =~= raw@.skip(hl as int));
        Ok(IpV4Packet { header_len: hl, data })
    }
}

/// Reading back the two network-order bytes of a 16-bit field gives the field.
proof fn lemma_be16_roundtrip(x: u16)
    ensures
        be16(hi_byte(x), lo_byte(x)) == x,
{
    lemma_fundamental_div_mod(x as int, 256);
}

/// Law: decoding an Echo message laid out by this codec recovers the identifier,
/// the sequence number and the payload that were written, with the V4 checksum
/// passing its test. The decoder accepts the Echo Reply type byte, so the law
/// speaks of a reply-typed message.
pub proof fn lemma_round_trip(v: IcmpVariant, ident: u16, seq_cnt: u16, payload: Seq<u8>)
    ensures
        spec_decode(v, spec_encode(v, echo_reply_type(v), ident, seq_cnt, payload, Seq::empty()))
            == Ok::<(u16, u16, Seq<u8>), DecodeError>((ident, seq_cnt, payload)),
{
    let t = echo_reply_type(v);
    let zeroed = spec_message(t, 0u16, ident, seq_cnt, payload) + Seq::<u8>::empty();
    let enc = spec_encode(v, t, ident, seq_cnt, payload, Seq::empty());
    assert(zeroed.len() == 8 + payload.len());
    lemma_be16_roundtrip(ident);
    lemma_be16_roundtrip(seq_cnt);
    assert(hi_byte(0u16) == 0 && lo_byte(0u16) == 0);
    match v {
        IcmpVariant::V4 => {
            let ck = spec_checksum(zeroed);
            lemma_fundamental_div_mod(ck as int, 256);
            assert((hi_byte(ck) as nat) * 256 + (lo_byte(ck) as nat) == ck);
            lemma_checksum_insert(zeroed, 2, hi_byte(ck), lo_byte(ck));
            assert(checksum_ok(enc));
            assert(enc[0] == t && enc[1] == 0);
            assert(enc[4] == hi_byte(ident) && enc[5] == lo_byte(ident));
            assert(enc[6] == hi_byte(seq_cnt) && enc[7] == lo_byte(seq_cnt));
            assert(enc.skip(8) =~= payload);
        },
        IcmpVariant::V6 => {
            assert(enc.skip(8) =~= payload);
        },
    }
}

/// Law: corrupting any single byte of a V4 Echo Reply that decodes successfully
/// makes decoding fail with a checksum error, for every byte after the type and
/// code bytes (changing one of those two fails the kind test instead).
pub proof fn lemma_decode_detects_corruption(b1: Seq<u8>, b2: Seq<u8>, i: int)
    requires
        b1.len() == b2.len(),
        2 <= i < b1.len(),
        b1[i] != b2[i],
        forall|j: int| 0 <= j < b1.len() && j != i ==> b1[j] == b2[j],
        spec_decode(IcmpVariant::V4, b1) is Ok,
    ensures
        spec_decode(IcmpVariant::V4, b2) == Err::<(u16, u16, Seq<u8>), DecodeError>(
            DecodeError::Checksum,
        ),
{
    lemma_checksum_detects_byte_change(b1, b2, i);
}

} // verus!
