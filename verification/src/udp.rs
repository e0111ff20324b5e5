//! Confidential, authenticated datagrams for the optional motion fast path.
use crate::bytes::{self, push_le, read_le};
use crate::packet::{self, Packet};
use chacha20poly1305::aead::{Aead, KeyInit, Payload as AeadPayload};
use chacha20poly1305::{ChaCha20Poly1305, Nonce};
use vstd::prelude::*;

verus! {

pub const KEY_LEN: usize = 32;

pub const TAG_LEN: usize = 16;

/// Counter, epoch, motion packet, tag.
pub const MOTION_DATAGRAM_LEN: usize = 8 + 8 + 33 + TAG_LEN;

/// Counter, epoch, kind, nonce, tag.
pub const CONTROL_DATAGRAM_LEN: usize = 8 + 8 + 1 + 8 + TAG_LEN;

pub const MAX_DATAGRAM_LEN: usize = MOTION_DATAGRAM_LEN;

pub const HELLO_TAG: u8 = 6;

pub const ACK_TAG: u8 = 7;

/// Distinct nonce prefixes allow both directions to share one session key.
#[derive(Clone, Copy, Debug, PartialEq, Eq, Structural)]
pub enum Direction {
    HostToDevice,
    DeviceToHost,
}

#[derive(Clone, Copy, Debug, PartialEq, Eq, Structural)]
pub enum Payload {
    MotionBin {
        source_id: u32,
        sequence: u64,
        period_us: u32,
        source_time_us: u64,
        dx: i32,
        dy: i32,
    },
    Hello { nonce: u64 },
    Ack { nonce: u64 },
}

/// The counter is unique per sending direction and session key. Never wrap or
/// reuse it; receivers should reject counters at or below the last accepted one.
#[derive(Clone, Copy, Debug, PartialEq, Eq, Structural)]
pub struct Datagram {
    pub counter: u64,
    pub epoch: u64,
    pub payload: Payload,
}

/// What ChaCha20-Poly1305 makes of a message under a key, a nonce and associated
/// data: the ciphertext with its tag.
pub uninterp spec fn aead_seal(
    key: Seq<u8>,
    nonce: Seq<u8>,
    aad: Seq<u8>,
    message: Seq<u8>,
) -> Seq<u8>;

/// The message that ChaCha20-Poly1305 finds in a sealed one, where its tag is right.
pub uninterp spec fn aead_open(
    key: Seq<u8>,
    nonce: Seq<u8>,
    aad: Seq<u8>,
    sealed: Seq<u8>,
) -> Option<Seq<u8>>;

/// `Aead::encrypt` of `chacha20poly1305::ChaCha20Poly1305`. The result is a
/// function of the arguments, one tag longer than the message, and `decrypt`
/// with the same key, nonce and associated data gives the message back.
#[verifier::external_body]
fn seal(key: &[u8; KEY_LEN], nonce: &[u8; 12], aad: &[u8], message: &[u8]) -> (r: Vec<u8>)
    requires
        message@.len() < 0x4000_0000,
        aad@.len() < 0x4000_0000,
    ensures
        r@ == aead_seal(key@, nonce@, aad@, message@),
        r@.len() == message@.len() + TAG_LEN,
        aead_open(key@, nonce@, aad@, r@) == Some(message@),
{
    let cipher = ChaCha20Poly1305::new_from_slice(key).expect("valid session key");
    cipher.encrypt(&Nonce::from(*nonce), AeadPayload { msg: message, aad }).expect(
        "short datagram fits the AEAD message limit",
    )
}

/// `Aead::decrypt` of `chacha20poly1305::ChaCha20Poly1305`. The result is a
/// function of the arguments; a message that is found is one tag shorter.
/// Nothing is claimed of what was sealed under another key, nonce or associated
/// data, or changed since: that it is refused is only overwhelmingly likely.
#[verifier::external_body]
fn open(key: &[u8; KEY_LEN], nonce: &[u8; 12], aad: &[u8], sealed: &[u8]) -> (r: Option<Vec<u8>>)
    ensures
        match r {
            Some(message) => aead_open(key@, nonce@, aad@, sealed@) == Some(message@)
                && message@.len() + TAG_LEN == sealed@.len(),
            None => aead_open(key@, nonce@, aad@, sealed@) is None,
        },
{
    let cipher = ChaCha20Poly1305::new_from_slice(key).ok()?;
    cipher.decrypt(&Nonce::from(*nonce), AeadPayload { msg: sealed, aad }).ok()
}

impl Direction {
    /// Four letters for the direction, then the counter.
    pub open spec fn spec_nonce(self, counter: u64) -> Seq<u8> {
        (match self {
            Direction::HostToDevice => seq![0x68u8, 0x32, 0x64, 0],
            Direction::DeviceToHost => seq![0x64u8, 0x32, 0x68, 0],
        }) + bytes::le_bytes(counter as nat, 8)
    }

    pub fn nonce(self, counter: u64) -> (r: [u8; 12])
        ensures
            r@ == self.spec_nonce(counter),
    {
        let mut c: Vec<u8> = Vec::new();
        push_le(&mut c, counter, 8);
        proof {
            bytes::lemma_le_bytes_len(counter as nat, 8);
        }
        let r: [u8; 12] = match self {
            Direction::HostToDevice => [
                0x68,
                0x32,
                0x64,
                0,
                c[0],
                c[1],
                c[2],
                c[3],
                c[4],
                c[5],
                c[6],
                c[7],
            ],
            Direction::DeviceToHost => [
                0x64,
                0x32,
                0x68,
                0,
                c[0],
                c[1],
                c[2],
                c[3],
                c[4],
                c[5],
                c[6],
                c[7],
            ],
        };
        assert(r@ =~= self.spec_nonce(counter));
        r
    }
}

/// The name of the protocol, "adb-input/udp/v2" and a zero byte.
pub open spec fn domain() -> Seq<u8> {
    seq![
        0x61u8,
        0x64,
        0x62,
        0x2d,
        0x69,
        0x6e,
        0x70,
        0x75,
        0x74,
        0x2f,
        0x75,
        0x64,
        0x70,
        0x2f,
        0x76,
        0x32,
        0,
    ]
}

/// The associated data of a datagram: the protocol's name and the counter.
pub open spec fn spec_aad(counter: u64) -> Seq<u8> {
    domain() + bytes::le_bytes(counter as nat, 8)
}

pub fn aad(counter: u64) -> (r: [u8; 25])
    ensures
        r@ == spec_aad(counter),
{
    let mut c: Vec<u8> = Vec::new();
    push_le(&mut c, counter, 8);
    proof {
        bytes::lemma_le_bytes_len(counter as nat, 8);
    }
    let r: [u8; 25] = [
        0x61,
        0x64,
        0x62,
        0x2d,
        0x69,
        0x6e,
        0x70,
        0x75,
        0x74,
        0x2f,
        0x75,
        0x64,
        0x70,
        0x2f,
        0x76,
        0x32,
        0,
        c[0],
        c[1],
        c[2],
        c[3],
        c[4],
        c[5],
        c[6],
        c[7],
    ];
    assert(r@ =~= spec_aad(counter));
    r
}

impl Payload {
    /// The bytes that stand for a payload.
    pub open spec fn wire(self) -> Seq<u8> {
        match self {
            Payload::MotionBin { source_id, sequence, period_us, source_time_us, dx, dy } => (
            Packet::MotionBin { source_id, sequence, period_us, source_time_us, dx, dy }).wire(),
            Payload::Hello { nonce } => seq![HELLO_TAG] + bytes::le_bytes(nonce as nat, 8),
            Payload::Ack { nonce } => seq![ACK_TAG] + bytes::le_bytes(nonce as nat, 8),
        }
    }
}

impl Datagram {
    /// What is encrypted: the epoch and the payload.
    pub open spec fn spec_plaintext(self) -> Seq<u8> {
        bytes::le_bytes(self.epoch as nat, 8) + self.payload.wire()
    }

    /// The datagram with this counter and this plaintext, if there is one.
    pub open spec fn parsed(counter: u64, plaintext: Seq<u8>) -> Option<Datagram> {
        if exists|d: Datagram|
            d.counter == counter && #[trigger] d.spec_plaintext() == plaintext {
            Some(
                choose|d: Datagram|
                    d.counter == counter && #[trigger] d.spec_plaintext() == plaintext,
            )
        } else {
            None
        }
    }

    /// The bytes of a datagram: its counter, and its plaintext sealed.
    pub open spec fn sealed(self, key: Seq<u8>, direction: Direction) -> Seq<u8> {
        bytes::le_bytes(self.counter as nat, 8) + aead_seal(
            key,
            direction.spec_nonce(self.counter),
            spec_aad(self.counter),
            self.spec_plaintext(),
        )
    }

    /// The datagram that some bytes hold: one of the two lengths, authentic for
    /// its counter and direction, and well formed.
    pub open spec fn opened(key: Seq<u8>, direction: Direction, data: Seq<u8>) -> Option<Datagram> {
        if data.len() != MOTION_DATAGRAM_LEN && data.len() != CONTROL_DATAGRAM_LEN {
            None
        } else {
            let counter = bytes::le_value(data.take(8)) as u64;
            match aead_open(key, direction.spec_nonce(counter), spec_aad(counter), data.skip(8)) {
                Some(plaintext) => Datagram::parsed(counter, plaintext),
                None => None,
            }
        }
    }

    /// What is encrypted: the epoch and the payload.
    pub fn plaintext(&self) -> (r: Vec<u8>)
        ensures
            r@ == self.spec_plaintext(),
    {
        let mut out: Vec<u8> = Vec::new();
        push_le(&mut out, self.epoch, 8);
        match self.payload {
            Payload::MotionBin { source_id, sequence, period_us, source_time_us, dx, dy } => {
                let body: Vec<u8> = Packet::MotionBin {
                    source_id,
                    sequence,
                    period_us,
                    source_time_us,
                    dx,
                    dy,
                }.encode();
                out.extend_from_slice(body.as_slice());
            },
            Payload::Hello { nonce } => {
                out.push(HELLO_TAG);
                push_le(&mut out, nonce, 8);
            },
            Payload::Ack { nonce } => {
                out.push(ACK_TAG);
                push_le(&mut out, nonce, 8);
            },
        }
        assert(out@ =~= self.spec_plaintext());
        out
    }

    /// The datagram with this counter and this plaintext, if there is one.
    pub fn from_plaintext(counter: u64, plaintext: &[u8]) -> (r: Option<Datagram>)
        ensures
            r == Datagram::parsed(counter, plaintext@),
    {
        proof {
            bytes::lemma_pow256_values();
            assert forall|d: Datagram| d.spec_plaintext().len() >= 17 && d.spec_plaintext()[8]
                == d.payload.wire()[0] && d.spec_plaintext().len() == 8
                + d.payload.wire().len() by {
                lemma_plaintext_shape(d);
            }
            assert forall|d: Datagram| #[trigger] d.spec_plaintext() == plaintext@ implies (
            match d.payload {
                Payload::MotionBin { .. } => plaintext@.len() == 41 && plaintext@[8] == 5,
                Payload::Hello { .. } => plaintext@.len() == 17 && plaintext@[8] == HELLO_TAG,
                Payload::Ack { .. } => plaintext@.len() == 17 && plaintext@[8] == ACK_TAG,
            }) by {
                lemma_plaintext_shape(d);
            }
        }
        let len: usize = plaintext.len();
        if len != 17 && len != 41 {
            return None;
        }
        let epoch: u64 = read_le(plaintext, 0, 8);
        let tag: u8 = plaintext[8];
        let payload: Payload = if len == 17 && tag == HELLO_TAG {
            Payload::Hello { nonce: read_le(plaintext, 9, 8) }
        } else if len == 17 && tag == ACK_TAG {
            Payload::Ack { nonce: read_le(plaintext, 9, 8) }
        } else if len == 41 && tag == 5 {
            let mut reader: &[u8] = vstd::slice::slice_subrange(plaintext, 8, len);
            let ghost wire = reader@;
            match Packet::read(&mut reader) {
                Ok(
                    Some(
                        Packet::MotionBin {
                            source_id,
                            sequence,
                            period_us,
                            source_time_us,
                            dx,
                            dy,
                        },
                    ),
                ) => {
                    let found = Payload::MotionBin {
                        source_id,
                        sequence,
                        period_us,
                        source_time_us,
                        dx,
                        dy,
                    };
                    proof {
                        packet::lemma_wire_shape(
                            Packet::MotionBin {
                                source_id,
                                sequence,
                                period_us,
                                source_time_us,
                                dx,
                                dy,
                            },
                        );
                        assert(wire =~= found.wire());
                    }
                    found
                },
                other => {
                    proof {
                        assert(other matches Ok(Some(p)));
                        let p = other->Ok_0->Some_0;
                        packet::lemma_wire_shape(p);
                        assert(wire[0] == p.wire()[0]);
                    }
                    return None;
                },
            }
        } else {
            return None;
        };
        let d = Datagram { counter, epoch, payload };
        proof {
            assert(d.spec_plaintext() =~= plaintext@);
            let other = choose|e: Datagram|
                e.counter == counter && #[trigger] e.spec_plaintext() == plaintext@;
            law_plaintext_unambiguous(d, other);
        }
        Some(d)
    }

    /// The bytes of this datagram, sealed for one direction.
    pub fn encode(&self, key: &[u8; KEY_LEN], direction: Direction) -> (r: Vec<u8>)
        ensures
            r@ == self.sealed(key@, direction),
            r@.len() == (match self.payload {
                Payload::MotionBin { .. } => MOTION_DATAGRAM_LEN,
                _ => CONTROL_DATAGRAM_LEN,
            }),
            Datagram::opened(key@, direction, r@) == Some(*self),
    {
        let plaintext: Vec<u8> = self.plaintext();
        let nonce: [u8; 12] = direction.nonce(self.counter);
        let associated: [u8; 25] = aad(self.counter);
        proof {
            lemma_plaintext_shape(*self);
            bytes::lemma_pow256_values();
            bytes::lemma_le_bytes_len(self.counter as nat, 8);
            bytes::lemma_le_value_of_bytes(self.counter as nat, 8);
        }
        let sealed: Vec<u8> = seal(key, &nonce, associated.as_slice(), plaintext.as_slice());
        let mut out: Vec<u8> = Vec::new();
        push_le(&mut out, self.counter, 8);
        out.extend_from_slice(sealed.as_slice());
        proof {
            assert(out@ =~= self.sealed(key@, direction));
            assert(out@.take(8) =~= bytes::le_bytes(self.counter as nat, 8));
            assert(out@.skip(8) =~= sealed@);
            assert(self.spec_plaintext() == plaintext@);
            let other = choose|e: Datagram|
                e.counter == self.counter && #[trigger] e.spec_plaintext() == plaintext@;
            law_plaintext_unambiguous(*self, other);
        }
        out
    }

    /// The datagram that `data` holds for one direction, if it is authentic.
    pub fn decode(key: &[u8; KEY_LEN], expected_direction: Direction, data: &[u8]) -> (r: Option<
        Datagram,
    >)
        ensures
            r == Datagram::opened(key@, expected_direction, data@),
    {
        let len: usize = data.len();
        if len != MOTION_DATAGRAM_LEN && len != CONTROL_DATAGRAM_LEN {
            return None;
        }
        let counter: u64 = read_le(data, 0, 8);
        proof {
            assert(data@.subrange(0, 8) =~= data@.take(8));
        }
        let nonce: [u8; 12] = expected_direction.nonce(counter);
        let associated: [u8; 25] = aad(counter);
        let rest: &[u8] = vstd::slice::slice_subrange(data, 8, len);
        proof {
            assert(rest@ =~= data@.skip(8));
        }
        match open(key, &nonce, associated.as_slice(), rest) {
            Some(plaintext) => Datagram::from_plaintext(counter, plaintext.as_slice()),
            None => None,
        }
    }
}

proof fn lemma_plaintext_shape(d: Datagram)
    ensures
        d.spec_plaintext().len() == (match d.payload {
            Payload::MotionBin { .. } => 41int,
            _ => 17int,
        }),
        d.payload.wire().len() == d.spec_plaintext().len() - 8,
        d.spec_plaintext()[8] == d.payload.wire()[0],
        d.payload.wire()[0] == (match d.payload {
            Payload::MotionBin { .. } => 5u8,
            Payload::Hello { .. } => HELLO_TAG,
            Payload::Ack { .. } => ACK_TAG,
        }),
        d.spec_plaintext().take(8) == bytes::le_bytes(d.epoch as nat, 8),
        d.spec_plaintext().skip(8) == d.payload.wire(),
{
    assert forall|x: nat, n: nat| (#[trigger] bytes::le_bytes(x, n)).len() == n by {
        bytes::lemma_le_bytes_len(x, n);
    }
    assert(d.spec_plaintext().take(8) =~= bytes::le_bytes(d.epoch as nat, 8));
    assert(d.spec_plaintext().skip(8) =~= d.payload.wire());
}

/// Two datagrams with one counter and one plaintext are the same.
pub proof fn law_plaintext_unambiguous(a: Datagram, b: Datagram)
    requires
        a.counter == b.counter,
        a.spec_plaintext() == b.spec_plaintext(),
    ensures
        a == b,
{
    lemma_plaintext_shape(a);
    lemma_plaintext_shape(b);
    bytes::lemma_pow256_values();
    bytes::lemma_le_value_of_bytes(a.epoch as nat, 8);
    bytes::lemma_le_value_of_bytes(b.epoch as nat, 8);
    let w = a.payload.wire();
    match (a.payload, b.payload) {
        (
            Payload::MotionBin { source_id, sequence, period_us, source_time_us, dx, dy },
            Payload::MotionBin {
                source_id: source_id2,
                sequence: sequence2,
                period_us: period_us2,
                source_time_us: source_time_us2,
                dx: dx2,
                dy: dy2,
            },
        ) => {
            let p = Packet::MotionBin { source_id, sequence, period_us, source_time_us, dx, dy };
            let q = Packet::MotionBin {
                source_id: source_id2,
                sequence: sequence2,
                period_us: period_us2,
                source_time_us: source_time_us2,
                dx: dx2,
                dy: dy2,
            };
            assert(p.wire() + seq![] =~= q.wire() + seq![]);
            packet::law_wire_unambiguous(p, q, seq![], seq![]);
        },
        (Payload::Hello { nonce: m }, Payload::Hello { nonce: n }) => {
            lemma_nonce(w, HELLO_TAG, m, n);
        },
        (Payload::Ack { nonce: m }, Payload::Ack { nonce: n }) => {
            lemma_nonce(w, ACK_TAG, m, n);
        },
        _ => {},
    }
}

proof fn lemma_nonce(w: Seq<u8>, tag: u8, m: u64, n: u64)
    requires
        w == seq![tag] + bytes::le_bytes(m as nat, 8),
        w == seq![tag] + bytes::le_bytes(n as nat, 8),
    ensures
        m == n,
{
    bytes::lemma_pow256_values();
    bytes::lemma_le_value_of_bytes(m as nat, 8);
    bytes::lemma_le_value_of_bytes(n as nat, 8);
    assert(w.skip(1) =~= bytes::le_bytes(m as nat, 8));
    assert(w.skip(1) =~= bytes::le_bytes(n as nat, 8));
}

/// No nonce is used twice under one key while counters are not reused: another
/// counter or the other direction gives another nonce.
pub proof fn law_nonces_never_repeat(a: Direction, m: u64, b: Direction, n: u64)
    requires
        a.spec_nonce(m) == b.spec_nonce(n),
    ensures
        a == b,
        m == n,
{
    bytes::lemma_pow256_values();
    bytes::lemma_le_bytes_len(m as nat, 8);
    bytes::lemma_le_bytes_len(n as nat, 8);
    bytes::lemma_le_value_of_bytes(m as nat, 8);
    bytes::lemma_le_value_of_bytes(n as nat, 8);
    assert((a is HostToDevice) == (a.spec_nonce(m)[0] == 0x68u8));
    assert((b is HostToDevice) == (b.spec_nonce(n)[0] == 0x68u8));
    assert(a.spec_nonce(m).skip(4) =~= bytes::le_bytes(m as nat, 8));
    assert(b.spec_nonce(n).skip(4) =~= bytes::le_bytes(n as nat, 8));
}

/// A datagram that was cut or lengthened by a byte does not open, under any key and
/// in either direction.
pub proof fn law_other_lengths_do_not_open(
    d: Datagram,
    key: Seq<u8>,
    direction: Direction,
    data: Seq<u8>,
    byte: u8,
    other: Seq<u8>,
    toward: Direction,
)
    requires
        Datagram::opened(key, direction, data) == Some(d),
    ensures
        data.len() == MOTION_DATAGRAM_LEN || data.len() == CONTROL_DATAGRAM_LEN,
        Datagram::opened(other, toward, data.drop_last()) is None,
        Datagram::opened(other, toward, data.push(byte)) is None,
{
}

/// In the other direction the cipher is asked with another nonce, and a datagram that
/// the cipher refuses there does not open. That it refuses is up to the cipher.
pub proof fn law_other_direction_is_up_to_the_cipher(
    d: Datagram,
    key: Seq<u8>,
    direction: Direction,
    other: Direction,
    data: Seq<u8>,
)
    requires
        Datagram::opened(key, direction, data) == Some(d),
        other != direction,
    ensures
        other.spec_nonce(d.counter) != direction.spec_nonce(d.counter),
        aead_open(key, other.spec_nonce(d.counter), spec_aad(d.counter), data.skip(8)) is None
            ==> Datagram::opened(key, other, data) is None,
{
    if other.spec_nonce(d.counter) == direction.spec_nonce(d.counter) {
        law_nonces_never_repeat(other, d.counter, direction, d.counter);
    }
}

/// The parts of a datagram stand at fixed places. The counter comes first, in the open; the
/// epoch and the payload follow it under the seal, the payload with its kind before it.
pub proof fn law_datagrams_have_their_layout(d: Datagram, key: Seq<u8>, direction: Direction)
    ensures
        ({
            let w = d.spec_plaintext();
            &&& packet::number_at(d.sealed(key, direction), 0, 8) == d.counter
            &&& packet::number_at(w, 0, 8) == d.epoch
            &&& match d.payload {
                Payload::Hello { nonce } => w.len() == 17 && w[8] == 6 && packet::number_at(w, 9, 8)
                    == nonce,
                Payload::Ack { nonce } => w.len() == 17 && w[8] == 7 && packet::number_at(w, 9, 8)
                    == nonce,
                Payload::MotionBin { source_id, sequence, period_us, source_time_us, dx, dy } => {
                    let m = w.skip(8);
                    &&& m.len() == 33 && m[0] == 5
                    &&& packet::number_at(m, 1, 4) == source_id
                    &&& packet::number_at(m, 5, 8) == sequence
                    &&& packet::number_at(m, 13, 4) == period_us
                    &&& packet::number_at(m, 17, 8) == source_time_us
                    &&& packet::signed_at(m, 25) == dx
                    &&& packet::signed_at(m, 29) == dy
                },
            }
        }),
{
    bytes::lemma_pow256_values();
    bytes::lemma_le_bytes_len(d.counter as nat, 8);
    bytes::lemma_le_bytes_len(d.epoch as nat, 8);
    let w = d.spec_plaintext();
    let s = d.sealed(key, direction);
    assert(s.subrange(0, 8) =~= bytes::le_bytes(d.counter as nat, 8));
    packet::lemma_number_placed(s, 0, d.counter as nat, 8);
    assert(w.subrange(0, 8) =~= bytes::le_bytes(d.epoch as nat, 8));
    packet::lemma_number_placed(w, 0, d.epoch as nat, 8);
    match d.payload {
        Payload::Hello { nonce } => {
            bytes::lemma_le_bytes_len(nonce as nat, 8);
            assert(w.subrange(9, 17) =~= bytes::le_bytes(nonce as nat, 8));
            packet::lemma_number_placed(w, 9, nonce as nat, 8);
        },
        Payload::Ack { nonce } => {
            bytes::lemma_le_bytes_len(nonce as nat, 8);
            assert(w.subrange(9, 17) =~= bytes::le_bytes(nonce as nat, 8));
            packet::lemma_number_placed(w, 9, nonce as nat, 8);
        },
        Payload::MotionBin { source_id, sequence, period_us, source_time_us, dx, dy } => {
            let p = Packet::MotionBin { source_id, sequence, period_us, source_time_us, dx, dy };
            packet::law_packets_have_their_layout(p);
            assert(w.skip(8) =~= p.wire());
        },
    }
}

/// The number that goes into the seal is the direction's name followed by the counter.
pub proof fn law_seals_name_direction_and_counter(direction: Direction, counter: u64)
    ensures
        ({
            let nonce = direction.spec_nonce(counter);
            &&& nonce.len() == 12
            &&& nonce[0] == (if direction is HostToDevice {
                0x68u8
            } else {
                0x64
            })
            &&& nonce[1] == 0x32
            &&& nonce[2] == (if direction is HostToDevice {
                0x64u8
            } else {
                0x68
            })
            &&& nonce[3] == 0
            &&& packet::number_at(nonce, 4, 8) == counter
            &&& spec_aad(counter).len() == 25
            &&& forall|i: int|
                0 <= i < 16 ==> #[trigger] spec_aad(counter)[i] as u32 == "adb-input/udp/v2"@[i] as u32
            &&& spec_aad(counter)[16] == 0
            &&& packet::number_at(spec_aad(counter), 17, 8) == counter
        }),
{
    bytes::lemma_pow256_values();
    bytes::lemma_le_bytes_len(counter as nat, 8);
    let nonce = direction.spec_nonce(counter);
    assert(nonce.subrange(4, 12) =~= bytes::le_bytes(counter as nat, 8));
    packet::lemma_number_placed(nonce, 4, counter as nat, 8);
    let aad = spec_aad(counter);
    reveal_strlit("adb-input/udp/v2");
    assert(aad.subrange(17, 25) =~= bytes::le_bytes(counter as nat, 8));
    packet::lemma_number_placed(aad, 17, counter as nat, 8);
}

} // verus!
