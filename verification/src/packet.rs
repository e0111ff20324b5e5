//! Wire packets.
use crate::bytes::{self, push_le, read_le, signed32};
use vstd::prelude::*;

verus! {

/// The greeting of an agent that speaks this protocol.
pub const READY: &'static str = "ADB-INPUT 6";

/// Seconds without input after which an agent gives up its devices.
pub const WATCHDOG_SECS: u64 = 5;

#[derive(Debug, PartialEq, Eq)]
pub enum Packet {
    Heartbeat { source_time_us: u64 },
    Keyboard { control_id: u64, report: [u8; 8] },
    Mouse {
        control_id: u64,
        buttons: u8,
        dx: i32,
        dy: i32,
        wheel: i32,
        source_id: u32,
        source_time_us: u64,
    },
    MotionBin {
        source_id: u32,
        sequence: u64,
        period_us: u32,
        source_time_us: u64,
        dx: i32,
        dy: i32,
    },
    Stop,
    Release { epoch: u64, control_id: u64 },
    Arm { epoch: u64, control_id: u64, source_time_us: u64 },
    UdpKey([u8; 32]),
}

/// Why no packet could be read.
#[derive(Debug, PartialEq, Eq, Clone, Copy)]
pub enum ReadError {
    /// The input ends inside a packet.
    UnexpectedEof,
    /// The first byte is no packet's tag.
    UnknownPacket,
}

/// How many bytes follow the tag of a packet.
pub open spec fn spec_body_len(tag: u8) -> Option<usize> {
    match tag {
        0 => Some(8),
        1 => Some(16),
        2 => Some(33),
        3 => Some(0),
        4 => Some(16),
        5 => Some(32),
        6 => Some(32),
        7 => Some(24),
        _ => None,
    }
}

impl Packet {
    /// The bytes that stand for a packet: its tag, then its fields in order, integers
    /// little-endian and signed ones by their bits.
    pub open spec fn wire(self) -> Seq<u8> {
        match self {
            Packet::Heartbeat { source_time_us } => seq![0u8] + bytes::le_bytes(source_time_us as nat, 8),
            Packet::Keyboard { control_id, report } => seq![1u8] + bytes::le_bytes(control_id as nat, 8)
                + report@,
            Packet::Mouse { control_id, buttons, dx, dy, wheel, source_id, source_time_us } => seq![
                2u8,
            ] + bytes::le_bytes(control_id as nat, 8) + seq![buttons] + bytes::le_bytes(bytes::bits32(dx) as nat, 4)
                + bytes::le_bytes(bytes::bits32(dy) as nat, 4) + bytes::le_bytes(bytes::bits32(wheel) as nat, 4) + bytes::le_bytes(
                source_id as nat,
                4,
            ) + bytes::le_bytes(source_time_us as nat, 8),
            Packet::Stop => seq![3u8],
            Packet::Release { epoch, control_id } => seq![4u8] + bytes::le_bytes(epoch as nat, 8)
                + bytes::le_bytes(control_id as nat, 8),
            Packet::MotionBin { source_id, sequence, period_us, source_time_us, dx, dy } => seq![
                5u8,
            ] + bytes::le_bytes(source_id as nat, 4) + bytes::le_bytes(sequence as nat, 8) + bytes::le_bytes(
                period_us as nat,
                4,
            ) + bytes::le_bytes(source_time_us as nat, 8) + bytes::le_bytes(bytes::bits32(dx) as nat, 4) + bytes::le_bytes(
                bytes::bits32(dy) as nat,
                4,
            ),
            Packet::UdpKey(key) => seq![6u8] + key@,
            Packet::Arm { epoch, control_id, source_time_us } => seq![7u8] + bytes::le_bytes(
                epoch as nat,
                8,
            ) + bytes::le_bytes(control_id as nat, 8) + bytes::le_bytes(source_time_us as nat, 8),
        }
    }

    /// What reading one packet from `input` gives: the packet, if there is one, and what is left.
    /// No packet is read from an empty input; an unknown tag is consumed; an input that
    /// ends inside a packet is consumed whole.
    pub open spec fn reads(
        input: Seq<u8>,
        result: Result<Option<Packet>, ReadError>,
        rest: Seq<u8>,
    ) -> bool {
        if input.len() == 0 {
            result == Ok::<Option<Packet>, ReadError>(None) && rest == input
        } else {
            match spec_body_len(input[0]) {
                None => result == Err::<Option<Packet>, ReadError>(ReadError::UnknownPacket) && rest
                    == input.skip(1),
                Some(len) => if input.len() < 1 + len {
                    result == Err::<Option<Packet>, ReadError>(ReadError::UnexpectedEof)
                        && rest.len() == 0
                } else {
                    &&& result matches Ok(Some(packet))
                    &&& input == packet.wire() + rest
                },
            }
        }
    }

    /// How many bytes follow `tag` in a packet, if any packet starts with it.
    pub fn body_len(tag: u8) -> (r: Option<usize>)
        ensures
            r == spec_body_len(tag),
    {
        match tag {
            0 => Some(8),
            1 => Some(16),
            2 => Some(33),
            3 => Some(0),
            4 => Some(16),
            5 => Some(32),
            6 => Some(32),
            7 => Some(24),
            _ => None,
        }
    }

    /// The bytes that stand for this packet.
    pub fn encode(&self) -> (r: Vec<u8>)
        ensures
            r@ == self.wire(),
    {
        let mut out: Vec<u8> = Vec::new();
        match self {
            Packet::Heartbeat { source_time_us } => {
                out.push(0);
                push_le(&mut out, *source_time_us, 8);
            },
            Packet::Keyboard { control_id, report } => {
                out.push(1);
                push_le(&mut out, *control_id, 8);
                out.extend_from_slice(report.as_slice());
            },
            Packet::Mouse { control_id, buttons, dx, dy, wheel, source_id, source_time_us } => {
                out.push(2);
                push_le(&mut out, *control_id, 8);
                out.push(*buttons);
                push_le(&mut out, (*dx as u32) as u64, 4);
                push_le(&mut out, (*dy as u32) as u64, 4);
                push_le(&mut out, (*wheel as u32) as u64, 4);
                push_le(&mut out, *source_id as u64, 4);
                push_le(&mut out, *source_time_us, 8);
            },
            Packet::Stop => {
                out.push(3);
            },
            Packet::Release { epoch, control_id } => {
                out.push(4);
                push_le(&mut out, *epoch, 8);
                push_le(&mut out, *control_id, 8);
            },
            Packet::Arm { epoch, control_id, source_time_us } => {
                out.push(7);
                push_le(&mut out, *epoch, 8);
                push_le(&mut out, *control_id, 8);
                push_le(&mut out, *source_time_us, 8);
            },
            Packet::UdpKey(key) => {
                out.push(6);
                out.extend_from_slice(key.as_slice());
            },
            Packet::MotionBin { source_id, sequence, period_us, source_time_us, dx, dy } => {
                out.push(5);
                push_le(&mut out, *source_id as u64, 4);
                push_le(&mut out, *sequence, 8);
                push_le(&mut out, *period_us as u64, 4);
                push_le(&mut out, *source_time_us, 8);
                push_le(&mut out, (*dx as u32) as u64, 4);
                push_le(&mut out, (*dy as u32) as u64, 4);
            },
        }
        assert(out@ =~= self.wire());
        out
    }

    /// Reads one packet from the front of `reader` and advances past it.
    pub fn read(reader: &mut &[u8]) -> (r: Result<Option<Packet>, ReadError>)
        ensures
            Packet::reads(old(reader)@, r, final(reader)@),
    {
        proof {
            bytes::lemma_pow256_values();
        }
        let data: &[u8] = *reader;
        let len: usize = data.len();
        if len == 0 {
            return Ok(None);
        }
        let tag: u8 = data[0];
        let body: usize = match Packet::body_len(tag) {
            Some(body) => body,
            None => {
                *reader = vstd::slice::slice_subrange(data, 1, len);
                return Err(ReadError::UnknownPacket);
            },
        };
        if len < 1 + body {
            *reader = vstd::slice::slice_subrange(data, len, len);
            return Err(ReadError::UnexpectedEof);
        }
        let packet = if tag == 0 {
            Packet::Heartbeat { source_time_us: read_le(data, 1, 8) }
        } else if tag == 1 {
            let control_id: u64 = read_le(data, 1, 8);
            let report: [u8; 8] = [
                data[9],
                data[10],
                data[11],
                data[12],
                data[13],
                data[14],
                data[15],
                data[16],
            ];
            assert(report@ =~= data@.subrange(9, 17));
            Packet::Keyboard { control_id, report }
        } else if tag == 2 {
            Packet::Mouse {
                control_id: read_le(data, 1, 8),
                buttons: data[9],
                dx: signed32(read_le(data, 10, 4) as u32),
                dy: signed32(read_le(data, 14, 4) as u32),
                wheel: signed32(read_le(data, 18, 4) as u32),
                source_id: read_le(data, 22, 4) as u32,
                source_time_us: read_le(data, 26, 8),
            }
        } else if tag == 3 {
            Packet::Stop
        } else if tag == 4 {
            Packet::Release { epoch: read_le(data, 1, 8), control_id: read_le(data, 9, 8) }
        } else if tag == 5 {
            Packet::MotionBin {
                source_id: read_le(data, 1, 4) as u32,
                sequence: read_le(data, 5, 8),
                period_us: read_le(data, 13, 4) as u32,
                source_time_us: read_le(data, 17, 8),
                dx: signed32(read_le(data, 25, 4) as u32),
                dy: signed32(read_le(data, 29, 4) as u32),
            }
        } else if tag == 6 {
            Packet::UdpKey(copy_key(data, 1))
        } else {
            Packet::Arm {
                epoch: read_le(data, 1, 8),
                control_id: read_le(data, 9, 8),
                source_time_us: read_le(data, 17, 8),
            }
        };
        *reader = vstd::slice::slice_subrange(data, 1 + body, len);
        assert(data@ =~= packet.wire() + reader@);
        Ok(Some(packet))
    }
}

/// The 32 bytes from position `at`.
pub fn copy_key(data: &[u8], at: usize) -> (key: [u8; 32])
    requires
        at + 32 <= data@.len(),
    ensures
        key@ == data@.subrange(at as int, at + 32),
{
    let len: usize = data.len();
    let mut key: [u8; 32] = [0u8; 32];
    let mut i: usize = 0;
    while i < 32
        invariant
            i <= 32,
            at + 32 <= data@.len(),
            data@.len() == len,
            forall|j: int| 0 <= j < i ==> key@[j] == data@[at + j],
        decreases 32 - i,
    {
        key[i] = data[at + i];
        i = i + 1;
    }
    assert(key@ =~= data@.subrange(at as int, at + 32));
    key
}

/// Every packet begins with a known tag and its bytes are as many as the tag says.
pub proof fn lemma_wire_shape(packet: Packet)
    ensures
        packet.wire().len() > 0,
        spec_body_len(packet.wire()[0]) == Some((packet.wire().len() - 1) as usize),
        packet.wire().len() <= 34,
{
    assert forall|x: nat, n: nat| (#[trigger] bytes::le_bytes(x, n)).len() == n by {
        bytes::lemma_le_bytes_len(x, n);
    }
}

proof fn lemma_cut(a: Seq<u8>, b: Seq<u8>, c: Seq<u8>, d: Seq<u8>)
    requires
        a.len() == c.len(),
        a + b == c + d,
    ensures
        a == c,
        b == d,
{
    assert(a =~= (a + b).take(a.len() as int));
    assert(c =~= (c + d).take(c.len() as int));
    assert(b =~= (a + b).skip(a.len() as int));
    assert(d =~= (c + d).skip(c.len() as int));
}

proof fn lemma_number(a: nat, b: nat, n: nat)
    requires
        a < bytes::pow256(n),
        b < bytes::pow256(n),
        bytes::le_bytes(a, n) == bytes::le_bytes(b, n),
    ensures
        a == b,
{
    bytes::lemma_le_value_of_bytes(a, n);
    bytes::lemma_le_value_of_bytes(b, n);
}

/// A stream of packets reads in one way only: where the bytes of two packets, each
/// followed by anything, are the same bytes, the packets are the same and so is what follows.
pub proof fn law_wire_unambiguous(p: Packet, q: Packet, after_p: Seq<u8>, after_q: Seq<u8>)
    requires
        p.wire() + after_p == q.wire() + after_q,
    ensures
        p == q,
        after_p == after_q,
{
    lemma_wire_shape(p);
    lemma_wire_shape(q);
    bytes::lemma_pow256_values();
    assert((p.wire() + after_p)[0] == p.wire()[0]);
    assert((q.wire() + after_q)[0] == q.wire()[0]);
    assert(p.wire().len() == q.wire().len());
    lemma_cut(p.wire(), after_p, q.wire(), after_q);
    assert forall|x: nat, n: nat| (#[trigger] bytes::le_bytes(x, n)).len() == n by {
        bytes::lemma_le_bytes_len(x, n);
    }
    let w = p.wire();
    match (p, q) {
        (Packet::Heartbeat { source_time_us: a }, Packet::Heartbeat { source_time_us: b }) => {
            lemma_field(w, bytes::le_bytes(a as nat, 8), bytes::le_bytes(b as nat, 8), 1);
            lemma_number(a as nat, b as nat, 8);
        },
        (
            Packet::Keyboard { control_id: a, report: ra },
            Packet::Keyboard { control_id: b, report: rb },
        ) => {
            lemma_field(w, bytes::le_bytes(a as nat, 8), bytes::le_bytes(b as nat, 8), 1);
            lemma_number(a as nat, b as nat, 8);
            lemma_field(w, ra@, rb@, 9);
            assert(ra =~= rb);
        },
        (
            Packet::Mouse {
                control_id: a0,
                buttons: a1,
                dx: a2,
                dy: a3,
                wheel: a4,
                source_id: a5,
                source_time_us: a6,
            },
            Packet::Mouse {
                control_id: b0,
                buttons: b1,
                dx: b2,
                dy: b3,
                wheel: b4,
                source_id: b5,
                source_time_us: b6,
            },
        ) => {
            lemma_field(w, bytes::le_bytes(a0 as nat, 8), bytes::le_bytes(b0 as nat, 8), 1);
            lemma_number(a0 as nat, b0 as nat, 8);
            assert(w[9] == a1 && w[9] == b1);
            lemma_signed(w, a2, b2, 10);
            lemma_signed(w, a3, b3, 14);
            lemma_signed(w, a4, b4, 18);
            lemma_field(w, bytes::le_bytes(a5 as nat, 4), bytes::le_bytes(b5 as nat, 4), 22);
            lemma_number(a5 as nat, b5 as nat, 4);
            lemma_field(w, bytes::le_bytes(a6 as nat, 8), bytes::le_bytes(b6 as nat, 8), 26);
            lemma_number(a6 as nat, b6 as nat, 8);
        },
        (
            Packet::MotionBin {
                source_id: a0,
                sequence: a1,
                period_us: a2,
                source_time_us: a3,
                dx: a4,
                dy: a5,
            },
            Packet::MotionBin {
                source_id: b0,
                sequence: b1,
                period_us: b2,
                source_time_us: b3,
                dx: b4,
                dy: b5,
            },
        ) => {
            lemma_field(w, bytes::le_bytes(a0 as nat, 4), bytes::le_bytes(b0 as nat, 4), 1);
            lemma_number(a0 as nat, b0 as nat, 4);
            lemma_field(w, bytes::le_bytes(a1 as nat, 8), bytes::le_bytes(b1 as nat, 8), 5);
            lemma_number(a1 as nat, b1 as nat, 8);
            lemma_field(w, bytes::le_bytes(a2 as nat, 4), bytes::le_bytes(b2 as nat, 4), 13);
            lemma_number(a2 as nat, b2 as nat, 4);
            lemma_field(w, bytes::le_bytes(a3 as nat, 8), bytes::le_bytes(b3 as nat, 8), 17);
            lemma_number(a3 as nat, b3 as nat, 8);
            lemma_signed(w, a4, b4, 25);
            lemma_signed(w, a5, b5, 29);
        },
        (
            Packet::Release { epoch: a0, control_id: a1 },
            Packet::Release { epoch: b0, control_id: b1 },
        ) => {
            lemma_field(w, bytes::le_bytes(a0 as nat, 8), bytes::le_bytes(b0 as nat, 8), 1);
            lemma_number(a0 as nat, b0 as nat, 8);
            lemma_field(w, bytes::le_bytes(a1 as nat, 8), bytes::le_bytes(b1 as nat, 8), 9);
            lemma_number(a1 as nat, b1 as nat, 8);
        },
        (
            Packet::Arm { epoch: a0, control_id: a1, source_time_us: a2 },
            Packet::Arm { epoch: b0, control_id: b1, source_time_us: b2 },
        ) => {
            lemma_field(w, bytes::le_bytes(a0 as nat, 8), bytes::le_bytes(b0 as nat, 8), 1);
            lemma_number(a0 as nat, b0 as nat, 8);
            lemma_field(w, bytes::le_bytes(a1 as nat, 8), bytes::le_bytes(b1 as nat, 8), 9);
            lemma_number(a1 as nat, b1 as nat, 8);
            lemma_field(w, bytes::le_bytes(a2 as nat, 8), bytes::le_bytes(b2 as nat, 8), 17);
            lemma_number(a2 as nat, b2 as nat, 8);
        },
        (Packet::UdpKey(ka), Packet::UdpKey(kb)) => {
            lemma_field(w, ka@, kb@, 1);
            assert(ka =~= kb);
        },
        _ => {},
    }
}

proof fn lemma_field(w: Seq<u8>, a: Seq<u8>, b: Seq<u8>, at: int)
    requires
        0 <= at,
        at + a.len() <= w.len(),
        a.len() == b.len(),
        forall|i: int| 0 <= i < a.len() ==> a[i] == #[trigger] w[at + i],
        forall|i: int| 0 <= i < b.len() ==> b[i] == #[trigger] w[at + i],
    ensures
        a == b,
{
    assert forall|i: int| 0 <= i < a.len() implies a[i] == b[i] by {
        assert(w[at + i] == a[i]);
    }
    assert(a =~= b);
}

proof fn lemma_signed(w: Seq<u8>, a: i32, b: i32, at: int)
    requires
        0 <= at,
        at + 4 <= w.len(),
        bytes::le_bytes(bytes::bits32(a) as nat, 4).len() == 4,
        bytes::le_bytes(bytes::bits32(b) as nat, 4).len() == 4,
        forall|i: int|
            0 <= i < 4 ==> bytes::le_bytes(bytes::bits32(a) as nat, 4)[i] == #[trigger] w[at + i],
        forall|i: int|
            0 <= i < 4 ==> bytes::le_bytes(bytes::bits32(b) as nat, 4)[i] == #[trigger] w[at + i],
    ensures
        a == b,
{
    bytes::lemma_pow256_values();
    lemma_field(
        w,
        bytes::le_bytes(bytes::bits32(a) as nat, 4),
        bytes::le_bytes(bytes::bits32(b) as nat, 4),
        at,
    );
    lemma_number(bytes::bits32(a) as nat, bytes::bits32(b) as nat, 4);
    bytes::lemma_bits32_injective(a, b);
}

/// Reading back what was written: whatever follows the bytes of a packet, a reader is
/// given that packet and is left at what follows.
pub proof fn law_read_gives_back_what_was_encoded(
    packet: Packet,
    after: Seq<u8>,
    result: Result<Option<Packet>, ReadError>,
    rest: Seq<u8>,
)
    requires
        Packet::reads(packet.wire() + after, result, rest),
    ensures
        result == Ok::<Option<Packet>, ReadError>(Some(packet)),
        rest == after,
{
    lemma_wire_shape(packet);
    assert((packet.wire() + after)[0] == packet.wire()[0]);
    let found = result->Ok_0->0;
    law_wire_unambiguous(packet, found, after, rest);
}

/// The number in `n` bytes from place `at`, low bytes first.
pub open spec fn number_at(s: Seq<u8>, at: int, n: nat) -> int
    decreases n,
{
    if n == 0 {
        0
    } else {
        s[at] + 256 * number_at(s, at + 1, (n - 1) as nat)
    }
}

/// The signed number in four bytes from place `at`, in two's complement.
pub open spec fn signed_at(s: Seq<u8>, at: int) -> int {
    if s[at + 3] >= 128 {
        number_at(s, at, 4) - 0x1_0000_0000
    } else {
        number_at(s, at, 4)
    }
}

proof fn lemma_number_at(before: Seq<u8>, x: nat, n: nat, after: Seq<u8>)
    requires
        x < bytes::pow256(n),
    ensures
        number_at(before + bytes::le_bytes(x, n) + after, before.len() as int, n) == x,
    decreases n,
{
    let s = before + bytes::le_bytes(x, n) + after;
    bytes::lemma_le_bytes_len(x, n);
    if n > 0 {
        let p = bytes::pow256((n - 1) as nat);
        assert(x / 256 < p) by (nonlinear_arith)
            requires
                x < 256 * p,
        ;
        let first = seq![(x % 256) as u8];
        bytes::lemma_le_bytes_len(x / 256, (n - 1) as nat);
        lemma_number_at(before + first, x / 256, (n - 1) as nat, after);
        assert(s =~= (before + first) + bytes::le_bytes(x / 256, (n - 1) as nat) + after);
    }
}

pub proof fn lemma_number_placed(s: Seq<u8>, at: int, x: nat, n: nat)
    requires
        0 <= at,
        at + n <= s.len(),
        s.subrange(at, at + n) == bytes::le_bytes(x, n),
        x < bytes::pow256(n),
    ensures
        number_at(s, at, n) == x,
{
    lemma_number_at(s.take(at), x, n, s.skip(at + n));
    assert(s =~= s.take(at) + s.subrange(at, at + n) + s.skip(at + n));
}

proof fn lemma_signed_placed(s: Seq<u8>, at: int, x: i32)
    requires
        0 <= at,
        at + 4 <= s.len(),
        s.subrange(at, at + 4) == bytes::le_bytes(bytes::bits32(x) as nat, 4),
    ensures
        signed_at(s, at) == x,
{
    bytes::lemma_pow256_values();
    lemma_number_placed(s, at, bytes::bits32(x) as nat, 4);
    reveal_with_fuel(number_at, 5);
    assert(number_at(s, at, 4) == s[at] + 256 * (s[at + 1] + 256 * (s[at + 2] + 256 * s[at + 3])));
    assert(x < 0 ==> x as u32 == x + 0x1_0000_0000) by (bit_vector);
    assert(x >= 0 ==> x as u32 == x) by (bit_vector);
}

/// Each packet has its number in the first byte and its fields at fixed places after it,
/// low bytes first.
#[verifier::rlimit(40)]
pub proof fn law_packets_have_their_layout(p: Packet)
    ensures
        ({
            let w = p.wire();
            match p {
                Packet::Heartbeat { source_time_us } => w.len() == 9 && w[0] == 0 && number_at(
                    w,
                    1,
                    8,
                ) == source_time_us,
                Packet::Keyboard { control_id, report } => w.len() == 17 && w[0] == 1 && number_at(
                    w,
                    1,
                    8,
                ) == control_id && w.skip(9) == report@,
                Packet::Mouse { control_id, buttons, dx, dy, wheel, source_id, source_time_us } => {
                    &&& w.len() == 34 && w[0] == 2
                    &&& number_at(w, 1, 8) == control_id
                    &&& w[9] == buttons
                    &&& signed_at(w, 10) == dx
                    &&& signed_at(w, 14) == dy
                    &&& signed_at(w, 18) == wheel
                    &&& number_at(w, 22, 4) == source_id
                    &&& number_at(w, 26, 8) == source_time_us
                },
                Packet::Stop => w.len() == 1 && w[0] == 3,
                Packet::Release { epoch, control_id } => w.len() == 17 && w[0] == 4 && number_at(
                    w,
                    1,
                    8,
                ) == epoch && number_at(w, 9, 8) == control_id,
                Packet::MotionBin { source_id, sequence, period_us, source_time_us, dx, dy } => {
                    &&& w.len() == 33 && w[0] == 5
                    &&& number_at(w, 1, 4) == source_id
                    &&& number_at(w, 5, 8) == sequence
                    &&& number_at(w, 13, 4) == period_us
                    &&& number_at(w, 17, 8) == source_time_us
                    &&& signed_at(w, 25) == dx
                    &&& signed_at(w, 29) == dy
                },
                Packet::UdpKey(key) => w.len() == 33 && w[0] == 6 && w.skip(1) == key@,
                Packet::Arm { epoch, control_id, source_time_us } => w.len() == 25 && w[0] == 7
                    && number_at(w, 1, 8) == epoch && number_at(w, 9, 8) == control_id
                    && number_at(w, 17, 8) == source_time_us,
            }
        }),
{
    bytes::lemma_pow256_values();
    assert forall|x: nat, n: nat| (#[trigger] bytes::le_bytes(x, n)).len() == n by {
        bytes::lemma_le_bytes_len(x, n);
    }
    let w = p.wire();
    match p {
        Packet::Heartbeat { source_time_us } => {
            assert(w.subrange(1, 9) =~= bytes::le_bytes(source_time_us as nat, 8));
            lemma_number_placed(w, 1, source_time_us as nat, 8);
        },
        Packet::Keyboard { control_id, report } => {
            assert(w.subrange(1, 9) =~= bytes::le_bytes(control_id as nat, 8));
            lemma_number_placed(w, 1, control_id as nat, 8);
            assert(w.skip(9) =~= report@);
        },
        Packet::Mouse { control_id, buttons, dx, dy, wheel, source_id, source_time_us } => {
            assert(w.subrange(1, 9) =~= bytes::le_bytes(control_id as nat, 8));
            lemma_number_placed(w, 1, control_id as nat, 8);
            assert(w.subrange(10, 14) =~= bytes::le_bytes(bytes::bits32(dx) as nat, 4));
            lemma_signed_placed(w, 10, dx);
            assert(w.subrange(14, 18) =~= bytes::le_bytes(bytes::bits32(dy) as nat, 4));
            lemma_signed_placed(w, 14, dy);
            assert(w.subrange(18, 22) =~= bytes::le_bytes(bytes::bits32(wheel) as nat, 4));
            lemma_signed_placed(w, 18, wheel);
            assert(w.subrange(22, 26) =~= bytes::le_bytes(source_id as nat, 4));
            lemma_number_placed(w, 22, source_id as nat, 4);
            assert(w.subrange(26, 34) =~= bytes::le_bytes(source_time_us as nat, 8));
            lemma_number_placed(w, 26, source_time_us as nat, 8);
        },
        Packet::Stop => {},
        Packet::Release { epoch, control_id } => {
            assert(w.subrange(1, 9) =~= bytes::le_bytes(epoch as nat, 8));
            lemma_number_placed(w, 1, epoch as nat, 8);
            assert(w.subrange(9, 17) =~= bytes::le_bytes(control_id as nat, 8));
            lemma_number_placed(w, 9, control_id as nat, 8);
        },
        Packet::MotionBin { source_id, sequence, period_us, source_time_us, dx, dy } => {
            assert(w.subrange(1, 5) =~= bytes::le_bytes(source_id as nat, 4));
            lemma_number_placed(w, 1, source_id as nat, 4);
            assert(w.subrange(5, 13) =~= bytes::le_bytes(sequence as nat, 8));
            lemma_number_placed(w, 5, sequence as nat, 8);
            assert(w.subrange(13, 17) =~= bytes::le_bytes(period_us as nat, 4));
            lemma_number_placed(w, 13, period_us as nat, 4);
            assert(w.subrange(17, 25) =~= bytes::le_bytes(source_time_us as nat, 8));
            lemma_number_placed(w, 17, source_time_us as nat, 8);
            assert(w.subrange(25, 29) =~= bytes::le_bytes(bytes::bits32(dx) as nat, 4));
            lemma_signed_placed(w, 25, dx);
            assert(w.subrange(29, 33) =~= bytes::le_bytes(bytes::bits32(dy) as nat, 4));
            lemma_signed_placed(w, 29, dy);
        },
        Packet::UdpKey(key) => {
            assert(w.skip(1) =~= key@);
        },
        Packet::Arm { epoch, control_id, source_time_us } => {
            assert(w.subrange(1, 9) =~= bytes::le_bytes(epoch as nat, 8));
            lemma_number_placed(w, 1, epoch as nat, 8);
            assert(w.subrange(9, 17) =~= bytes::le_bytes(control_id as nat, 8));
            lemma_number_placed(w, 9, control_id as nat, 8);
            assert(w.subrange(17, 25) =~= bytes::le_bytes(source_time_us as nat, 8));
            lemma_number_placed(w, 17, source_time_us as nat, 8);
        },
    }
}

/// Reading an input gives a packet where the first byte is one of the eight numbers and
/// as many bytes follow as that packet has; it takes exactly those bytes. An empty input
/// gives none, another number is an error that takes one byte, and a cut packet an error
/// that takes everything.
pub proof fn law_reading_takes_whole_packets(
    input: Seq<u8>,
    result: Result<Option<Packet>, ReadError>,
    rest: Seq<u8>,
)
    requires
        Packet::reads(input, result, rest),
    ensures
        input.len() == 0 <==> result == Ok::<Option<Packet>, ReadError>(None),
        input.len() > 0 && input[0] > 7 <==> result == Err::<Option<Packet>, ReadError>(
            ReadError::UnknownPacket,
        ),
        result is Err && input[0] > 7 ==> rest == input.skip(1),
        result is Err && input[0] <= 7 ==> rest.len() == 0,
        result matches Ok(Some(packet)) ==> input == packet.wire() + rest && packet.wire()[0]
            == input[0],
        input.len() >= 34 && input[0] <= 7 ==> result is Ok,
{
    if let Ok(Some(packet)) = result {
        lemma_wire_shape(packet);
        assert(input[0] == packet.wire()[0]);
    }
}

/// The kind of a packet tells how long it is, and only the eight kinds are known.
pub proof fn law_kinds_tell_the_length(p: Packet, tag: u8)
    ensures
        spec_body_len(p.wire()[0]) matches Some(n) && p.wire().len() == n + 1,
        spec_body_len(tag) is Some <==> tag < 8,
{
    law_packets_have_their_layout(p);
}

} // verus!
