//! Internet addresses as text.
use crate::text::{self, decimal_text, split};
use vstd::prelude::*;
use vstd::string::*;

verus! {

/// The number of an IPv4 field: at most 255, in decimal without leading zeros.
pub open spec fn octet(s: Seq<char>) -> Option<nat> {
    if s.len() > 3 || (s.len() > 1 && s[0] == '0') {
        None
    } else {
        text::parsed(s, 255)
    }
}

/// The four numbers of an IPv4 address.
pub open spec fn ipv4(s: Seq<char>) -> Option<Seq<nat>> {
    let fields = text::pieces(s, '.');
    if fields.len() == 4 && forall|i: int| 0 <= i < 4 ==> octet(#[trigger] fields[i]) is Some {
        Some(Seq::new(4, |i: int| octet(fields[i])->0))
    } else {
        None
    }
}

pub open spec fn is_hex(c: char) -> bool {
    '0' <= c <= '9' || 'a' <= c <= 'f' || 'A' <= c <= 'F'
}

pub open spec fn hex_value(c: char) -> nat {
    if '0' <= c <= '9' {
        (c as nat - 48) as nat
    } else if 'a' <= c <= 'f' {
        (c as nat - 87) as nat
    } else {
        (c as nat - 55) as nat
    }
}

pub open spec fn hex_number(s: Seq<char>) -> nat
    decreases s.len(),
{
    if s.len() == 0 {
        0
    } else {
        16 * hex_number(s.drop_last()) + hex_value(s.last())
    }
}

/// The number of an IPv6 field: one to four hexadecimal digits.
pub open spec fn group(s: Seq<char>) -> Option<nat> {
    if 1 <= s.len() <= 4 && forall|i: int| 0 <= i < s.len() ==> is_hex(#[trigger] s[i]) {
        Some(hex_number(s))
    } else {
        None
    }
}

pub open spec fn pairs(octets: Seq<nat>) -> Seq<nat> {
    seq![256 * octets[0] + octets[1], 256 * octets[2] + octets[3]]
}

/// The numbers of fields between colons. With `dotted`, the last field may be an
/// IPv4 address, which stands for two.
pub open spec fn groups(fields: Seq<Seq<char>>, dotted: bool) -> Option<Seq<nat>>
    decreases fields.len(),
{
    if fields.len() == 0 {
        Some(seq![])
    } else {
        match groups(fields.drop_last(), false) {
            None => None,
            Some(before) => match group(fields.last()) {
                Some(number) => Some(before.push(number)),
                None => if dotted && ipv4(fields.last()) is Some {
                    Some(before + pairs(ipv4(fields.last())->0))
                } else {
                    None
                },
            },
        }
    }
}

/// The numbers of one side of the gap; nothing stands for none.
pub open spec fn side(s: Seq<char>, dotted: bool) -> Option<Seq<nat>> {
    if s.len() == 0 {
        Some(seq![])
    } else {
        groups(text::pieces(s, ':'), dotted)
    }
}

/// Where two colons first follow each other.
pub open spec fn gap(s: Seq<char>) -> Option<int>
    decreases s.len(),
{
    if s.len() < 2 {
        None
    } else if s[0] == ':' && s[1] == ':' {
        Some(0)
    } else {
        match gap(s.drop_first()) {
            Some(i) => Some(i + 1),
            None => None,
        }
    }
}

pub open spec fn zeros(n: nat) -> Seq<nat> {
    Seq::new(n, |i: int| 0nat)
}

/// The eight numbers of an IPv6 address. Two colons stand for the zeros, at least
/// one, that are missing.
pub open spec fn ipv6(s: Seq<char>) -> Option<Seq<nat>> {
    match gap(s) {
        None => match groups(text::pieces(s, ':'), true) {
            Some(all) if all.len() == 8 => Some(all),
            _ => None,
        },
        Some(at) => match (side(s.take(at), false), side(s.skip(at + 2), true)) {
            (Some(head), Some(tail)) if head.len() + tail.len() <= 7 => Some(
                head + zeros((8 - head.len() - tail.len()) as nat) + tail,
            ),
            _ => None,
        },
    }
}

/// An IPv4 address as text.
pub open spec fn show4(octets: Seq<nat>) -> Seq<char> {
    text::decimal(octets[0]) + seq!['.'] + text::decimal(octets[1]) + seq!['.'] + text::decimal(
        octets[2],
    ) + seq!['.'] + text::decimal(octets[3])
}

pub open spec fn hex_digit(d: nat) -> char {
    if d < 10 {
        (48 + d) as char
    } else {
        (87 + d) as char
    }
}

/// A number in lower-case hexadecimal, without leading zeros.
pub open spec fn hex(n: nat) -> Seq<char>
    decreases n,
{
    if n < 16 {
        seq![hex_digit(n)]
    } else {
        hex(n / 16).push(hex_digit(n % 16))
    }
}

/// Numbers in hexadecimal with colons between them.
pub open spec fn joined(numbers: Seq<nat>) -> Seq<char>
    decreases numbers.len(),
{
    if numbers.len() == 0 {
        seq![]
    } else if numbers.len() == 1 {
        hex(numbers[0])
    } else {
        joined(numbers.drop_last()) + seq![':'] + hex(numbers.last())
    }
}

/// How many zeros stand in a row from place `i`.
pub open spec fn zeros_from(numbers: Seq<nat>, i: int) -> nat
    decreases numbers.len() - i,
{
    if 0 <= i < numbers.len() && numbers[i] == 0 {
        1 + zeros_from(numbers, i + 1)
    } else {
        0
    }
}

/// The first of the longest rows of zeros among the first `n` places.
pub open spec fn longest_row(numbers: Seq<nat>, n: nat) -> int
    decreases n,
{
    if n <= 1 {
        0
    } else {
        let best = longest_row(numbers, (n - 1) as nat);
        if zeros_from(numbers, n - 1) > zeros_from(numbers, best) {
            n - 1
        } else {
            best
        }
    }
}

/// Whether an IPv6 address stands for an IPv4 one.
pub open spec fn is_mapped(numbers: Seq<nat>) -> bool {
    numbers.take(5) == zeros(5) && numbers[5] == 0xffff
}

/// An IPv6 address as text, in its canonical form: the first of the longest rows
/// of zeros, of two at least, is left out, and a mapped IPv4 address is dotted.
pub open spec fn show6(numbers: Seq<nat>) -> Seq<char> {
    if is_mapped(numbers) {
        "::ffff:"@ + show4(
            seq![numbers[6] / 256, numbers[6] % 256, numbers[7] / 256, numbers[7] % 256],
        )
    } else {
        let at = longest_row(numbers, 8);
        let n = zeros_from(numbers, at) as int;
        if n > 1 {
            joined(numbers.take(at)) + "::"@ + joined(numbers.skip(at + n))
        } else {
            joined(numbers)
        }
    }
}

/// What an address is in its canonical form, if `s` is one.
pub open spec fn canonical(s: Seq<char>) -> Option<Seq<char>> {
    match ipv4(s) {
        Some(octets) => Some(show4(octets)),
        None => match ipv6(s) {
            Some(numbers) => Some(show6(numbers)),
            None => None,
        },
    }
}

pub open spec fn nats(v: Seq<u16>) -> Seq<nat> {
    v.map_values(|x: u16| x as nat)
}

fn parse_octet(s: &[char]) -> (r: Option<u16>)
    ensures
        match r {
            Some(n) => octet(s@) == Some(n as nat) && n <= 255,
            None => octet(s@) is None,
        },
{
    if s.len() > 3 || (s.len() > 1 && s[0] == '0') {
        return None;
    }
    match text::parse(s, 255) {
        Some(n) => Some(n as u16),
        None => None,
    }
}

/// The four numbers of an IPv4 address.
pub fn parse_ipv4(s: &[char]) -> (r: Option<Vec<u16>>)
    ensures
        match r {
            Some(octets) => ipv4(s@) == Some(nats(octets@)) && octets@.len() == 4 && forall|i: int|
                0 <= i < 4 ==> #[trigger] octets@[i] <= 255,
            None => ipv4(s@) is None,
        },
{
    let fields: Vec<Vec<char>> = split(s, '.');
    let ghost pieces = text::pieces(s@, '.');
    if fields.len() != 4 {
        return None;
    }
    let mut octets: Vec<u16> = Vec::new();
    let mut i: usize = 0;
    while i < 4
        invariant
            i <= 4,
            fields@.len() == 4,
            pieces == text::each(fields@),
            pieces == text::pieces(s@, '.'),
            octets@.len() == i,
            forall|j: int|
                0 <= j < i ==> octet(#[trigger] pieces[j]) == Some(octets@[j] as nat),
            forall|j: int| 0 <= j < i ==> #[trigger] octets@[j] <= 255,
        decreases 4 - i,
    {
        assert(pieces[i as int] == fields@[i as int]@);
        match parse_octet(fields[i].as_slice()) {
            Some(n) => octets.push(n),
            None => {
                assert(octet(pieces[i as int]) is None);
                return None;
            },
        }
        i = i + 1;
    }
    proof {
        assert(nats(octets@) =~= Seq::new(4, |i: int| octet(pieces[i])->0));
    }
    Some(octets)
}

fn hex_of(c: char) -> (r: Option<u16>)
    ensures
        r is Some == is_hex(c),
        r matches Some(d) ==> d == hex_value(c) && d < 16,
{
    if '0' <= c && c <= '9' {
        Some((c as u32 - 48) as u16)
    } else if 'a' <= c && c <= 'f' {
        Some((c as u32 - 87) as u16)
    } else if 'A' <= c && c <= 'F' {
        Some((c as u32 - 55) as u16)
    } else {
        None
    }
}

fn parse_group(s: &[char]) -> (r: Option<u16>)
    ensures
        match r {
            Some(n) => group(s@) == Some(n as nat),
            None => group(s@) is None,
        },
{
    if s.len() < 1 || s.len() > 4 {
        return None;
    }
    let mut n: u32 = 0;
    let mut i: usize = 0;
    let ghost mut most: nat = 1;
    while i < s.len()
        invariant
            i <= s@.len() <= 4,
            n == hex_number(s@.take(i as int)),
            n < most,
            i == 0 ==> most == 1,
            i == 1 ==> most == 16,
            i == 2 ==> most == 256,
            i == 3 ==> most == 4096,
            i == 4 ==> most == 65536,
            forall|j: int| 0 <= j < i ==> is_hex(#[trigger] s@[j]),
        decreases s@.len() - i,
    {
        proof {
            assert(s@.take(i + 1).drop_last() =~= s@.take(i as int));
        }
        match hex_of(s[i]) {
            Some(d) => {
                n = n * 16 + d as u32;
                proof {
                    most = 16 * most;
                }
            },
            None => {
                assert(!is_hex(s@[i as int]));
                return None;
            },
        }
        i = i + 1;
    }
    assert(s@.take(i as int) =~= s@);
    Some(n as u16)
}

fn parse_groups(fields: &Vec<Vec<char>>, dotted: bool) -> (r: Option<Vec<u16>>)
    ensures
        match r {
            Some(numbers) => groups(text::each(fields@), dotted) == Some(nats(numbers@))
                && numbers@.len() <= fields@.len() + 1,
            None => groups(text::each(fields@), dotted) is None,
        },
{
    let ghost all = text::each(fields@);
    let mut numbers: Vec<u16> = Vec::new();
    let mut i: usize = 0;
    assert(nats(numbers@) =~= seq![]);
    while i < fields.len()
        invariant
            i <= fields@.len(),
            all == text::each(fields@),
            numbers@.len() == i,
            groups(all.take(i as int), false) == Some(nats(numbers@)),
        decreases fields@.len() - i,
    {
        let ghost so_far = nats(numbers@);
        proof {
            assert(all.take(i + 1).drop_last() =~= all.take(i as int));
            assert(all.take(i + 1).last() == fields@[i as int]@);
        }
        match parse_group(fields[i].as_slice()) {
            Some(n) => {
                numbers.push(n);
                assert(nats(numbers@) =~= so_far.push(n as nat));
            },
            None => {
                if dotted && i + 1 == fields.len() {
                    proof {
                        assert(all.take(i + 1) =~= all);
                    }
                    return match parse_ipv4(fields[i].as_slice()) {
                        Some(octets) => {
                            numbers.push(octets[0] * 256 + octets[1]);
                            numbers.push(octets[2] * 256 + octets[3]);
                            assert(nats(numbers@) =~= so_far + pairs(nats(octets@)));
                            Some(numbers)
                        },
                        None => None,
                    };
                }
                proof {
                    lemma_groups_fail(all, i as int, dotted);
                }
                return None;
            },
        }
        i = i + 1;
    }
    proof {
        assert(all.take(i as int) =~= all);
        lemma_groups_dotted(all);
    }
    Some(numbers)
}

/// Numbers without a dotted field are the same with one allowed.
proof fn lemma_groups_dotted(fields: Seq<Seq<char>>)
    requires
        groups(fields, false) is Some,
    ensures
        groups(fields, true) == groups(fields, false),
{
}

/// A field that is no number spoils what comes after it.
proof fn lemma_groups_fail(fields: Seq<Seq<char>>, i: int, dotted: bool)
    requires
        0 <= i < fields.len(),
        group(fields[i]) is None,
        !dotted || i + 1 < fields.len(),
    ensures
        groups(fields, dotted) is None,
    decreases fields.len(),
{
    if i < fields.len() - 1 {
        assert(fields.drop_last()[i] == fields[i]);
        lemma_groups_fail(fields.drop_last(), i, false);
    }
}

fn find_gap(s: &[char]) -> (r: Option<usize>)
    ensures
        match r {
            Some(i) => gap(s@) == Some(i as int) && i + 2 <= s@.len(),
            None => gap(s@) is None,
        },
{
    let len: usize = s.len();
    let mut i: usize = 0;
    assert(s@.skip(0) =~= s@);
    while i < len
        invariant
            i <= len,
            len == s@.len(),
            gap(s@) == (match gap(s@.skip(i as int)) {
                Some(j) => Some(j + i),
                None => None,
            }),
        decreases len - i,
    {
        proof {
            assert(s@.skip(i as int).drop_first() =~= s@.skip(i + 1));
        }
        if len - i < 2 {
            return None;
        }
        if s[i] == ':' && s[i + 1] == ':' {
            return Some(i);
        }
        i = i + 1;
    }
    None
}

fn parse_side(s: &[char], dotted: bool) -> (r: Option<Vec<u16>>)
    ensures
        match r {
            Some(numbers) => side(s@, dotted) == Some(nats(numbers@)),
            None => side(s@, dotted) is None,
        },
{
    if s.len() == 0 {
        let r: Vec<u16> = Vec::new();
        assert(nats(r@) =~= seq![]);
        return Some(r);
    }
    let fields: Vec<Vec<char>> = split(s, ':');
    parse_groups(&fields, dotted)
}

/// The eight numbers of an IPv6 address.
pub fn parse_ipv6(s: &[char]) -> (r: Option<Vec<u16>>)
    ensures
        match r {
            Some(numbers) => ipv6(s@) == Some(nats(numbers@)) && numbers@.len() == 8,
            None => ipv6(s@) is None,
        },
{
    let len: usize = s.len();
    match find_gap(s) {
        None => {
            let fields: Vec<Vec<char>> = split(s, ':');
            match parse_groups(&fields, true) {
                Some(numbers) => if numbers.len() == 8 {
                    Some(numbers)
                } else {
                    None
                },
                None => None,
            }
        },
        Some(at) => {
            let before: &[char] = vstd::slice::slice_subrange(s, 0, at);
            let behind: &[char] = vstd::slice::slice_subrange(s, at + 2, len);
            assert(before@ =~= s@.take(at as int));
            assert(behind@ =~= s@.skip(at + 2));
            let head: Vec<u16> = match parse_side(before, false) {
                Some(head) => head,
                None => return None,
            };
            let tail: Vec<u16> = match parse_side(behind, true) {
                Some(tail) => tail,
                None => return None,
            };
            if head.len() > 7 || tail.len() > 7 - head.len() {
                return None;
            }
            let missing: usize = 8 - head.len() - tail.len();
            let ghost start = head@;
            let mut numbers: Vec<u16> = head;
            let mut i: usize = 0;
            while i < missing
                invariant
                    i <= missing,
                    nats(numbers@) =~= nats(start) + zeros(i as nat),
                    numbers@.len() == start.len() + i,
                decreases missing - i,
            {
                let ghost so_far = numbers@;
                numbers.push(0);
                proof {
                    assert(nats(numbers@) =~= nats(so_far).push(0));
                    assert(zeros((i + 1) as nat) =~= zeros(i as nat).push(0));
                }
                i = i + 1;
            }
            let ghost filled = numbers@;
            let mut j: usize = 0;
            while j < tail.len()
                invariant
                    j <= tail@.len(),
                    numbers@ =~= filled + tail@.take(j as int),
                decreases tail@.len() - j,
            {
                numbers.push(tail[j]);
                j = j + 1;
            }
            assert(nats(numbers@) =~= nats(start) + zeros(missing as nat) + nats(tail@));
            Some(numbers)
        },
    }
}

fn show_ipv4(a: u16, b: u16, c: u16, d: u16) -> (r: String)
    ensures
        r@ == show4(seq![a as nat, b as nat, c as nat, d as nat]),
{
    let mut out: String = decimal_text(a as u64);
    out.push('.');
    out.append(decimal_text(b as u64).as_str());
    out.push('.');
    out.append(decimal_text(c as u64).as_str());
    out.push('.');
    out.append(decimal_text(d as u64).as_str());
    assert(out@ =~= show4(seq![a as nat, b as nat, c as nat, d as nat]));
    out
}

fn hex_text(n: u16) -> (r: String)
    ensures
        r@ == hex(n as nat),
    decreases n,
{
    let d: u16 = n % 16;
    let c: char = if d < 10 {
        (48 + d as u8) as char
    } else {
        (87 + d as u8) as char
    };
    if n < 16 {
        let mut out: String = String::new();
        out.push(c);
        assert(out@ =~= hex(n as nat));
        out
    } else {
        let mut out: String = hex_text(n / 16);
        out.push(c);
        out
    }
}

fn push_joined(out: &mut String, numbers: &Vec<u16>, from: usize, to: usize)
    requires
        from <= to <= numbers@.len(),
    ensures
        final(out)@ == old(out)@ + joined(nats(numbers@).subrange(from as int, to as int)),
{
    let ghost was = out@;
    let ghost all = nats(numbers@);
    let mut i: usize = from;
    proof {
        assert(all.subrange(from as int, from as int) =~= seq![]);
        assert(out@ =~= was + joined(seq![]));
    }
    while i < to
        invariant
            from <= i <= to <= numbers@.len(),
            all == nats(numbers@),
            out@ == was + joined(all.subrange(from as int, i as int)),
        decreases to - i,
    {
        proof {
            let next = all.subrange(from as int, i + 1);
            assert(next.drop_last() =~= all.subrange(from as int, i as int));
            assert(next.last() == numbers@[i as int] as nat);
        }
        if i > from {
            out.push(':');
        }
        out.append(hex_text(numbers[i]).as_str());
        proof {
            assert(out@ =~= was + joined(all.subrange(from as int, i + 1)));
        }
        i = i + 1;
    }
}

fn count_zeros(numbers: &Vec<u16>, from: usize) -> (r: usize)
    requires
        from <= numbers@.len(),
    ensures
        r == zeros_from(nats(numbers@), from as int),
        from + r <= numbers@.len(),
{
    let ghost all = nats(numbers@);
    let len: usize = numbers.len();
    let mut i: usize = from;
    while i < len && numbers[i] == 0
        invariant
            from <= i <= len,
            len == numbers@.len(),
            all == nats(numbers@),
            zeros_from(all, from as int) == (i - from) + zeros_from(all, i as int),
        decreases len - i,
    {
        i = i + 1;
    }
    i - from
}

/// An IPv6 address as text, in its canonical form.
pub fn show_ipv6(numbers: &Vec<u16>) -> (r: String)
    requires
        numbers@.len() == 8,
    ensures
        r@ == show6(nats(numbers@)),
{
    let ghost all = nats(numbers@);
    let mapped: bool = numbers[0] == 0 && numbers[1] == 0 && numbers[2] == 0 && numbers[3] == 0
        && numbers[4] == 0 && numbers[5] == 0xffff;
    proof {
        assert(mapped == is_mapped(all)) by {
            assert(all.take(5)[0] == numbers@[0] as nat);
            assert(all.take(5)[1] == numbers@[1] as nat);
            assert(all.take(5)[2] == numbers@[2] as nat);
            assert(all.take(5)[3] == numbers@[3] as nat);
            assert(all.take(5)[4] == numbers@[4] as nat);
            assert(zeros(5)[0] == 0 && zeros(5)[1] == 0 && zeros(5)[2] == 0 && zeros(5)[3] == 0
                && zeros(5)[4] == 0);
            if mapped {
                assert(all.take(5) =~= zeros(5));
            }
        }
    }
    if mapped {
        let mut out: String = text::text("::ffff:");
        let dotted: String = show_ipv4(
            numbers[6] / 256,
            numbers[6] % 256,
            numbers[7] / 256,
            numbers[7] % 256,
        );
        out.append(dotted.as_str());
        return out;
    }
    let mut best: usize = 0;
    let mut i: usize = 1;
    while i < 8
        invariant
            1 <= i <= 8,
            best < i,
            numbers@.len() == 8,
            all == nats(numbers@),
            best == longest_row(all, i as nat),
        decreases 8 - i,
    {
        if count_zeros(numbers, i) > count_zeros(numbers, best) {
            best = i;
        }
        i = i + 1;
    }
    let n: usize = count_zeros(numbers, best);
    let mut out: String = String::new();
    if n > 1 {
        push_joined(&mut out, numbers, 0, best);
        out.append("::");
        push_joined(&mut out, numbers, best + n, 8);
        assert(all.subrange(0, best as int) =~= all.take(best as int));
        assert(all.subrange(best + n, 8) =~= all.skip(best + n));
        assert(out@ =~= show6(all));
    } else {
        push_joined(&mut out, numbers, 0, 8);
        assert(all.subrange(0, 8) =~= all);
        assert(out@ =~= show6(all));
    }
    out
}

/// An address in its canonical form, if `s` is one.
pub fn canonical_text(s: &[char]) -> (r: Option<String>)
    ensures
        match r {
            Some(address) => canonical(s@) == Some(address@),
            None => canonical(s@) is None,
        },
{
    match parse_ipv4(s) {
        Some(octets) => {
            proof {
                assert(nats(octets@) =~= seq![
                    octets@[0] as nat,
                    octets@[1] as nat,
                    octets@[2] as nat,
                    octets@[3] as nat,
                ]);
            }
            Some(show_ipv4(octets[0], octets[1], octets[2], octets[3]))
        },
        None => match parse_ipv6(s) {
            Some(numbers) => Some(show_ipv6(&numbers)),
            None => None,
        },
    }
}

/// The characters of addresses.
pub open spec fn is_address_char(c: char) -> bool {
    is_hex(c) || c == '.' || c == ':'
}

proof fn lemma_octet_shown(n: nat)
    requires
        n <= 255,
    ensures
        octet(text::decimal(n)) == Some(n),
        !text::decimal(n).contains('.'),
        !text::decimal(n).contains(':'),
        forall|i: int| 0 <= i < text::decimal(n).len() ==> is_hex(#[trigger] text::decimal(n)[i]),
{
    text::lemma_decimal_shape(n);
    if n >= 10 {
        text::lemma_decimal_shape(n / 10);
        if n >= 100 {
            text::lemma_decimal_shape(n / 100);
            assert((n / 10) / 10 == n / 100);
        }
    }
    let s = text::decimal(n);
    assert forall|i: int| 0 <= i < s.len() implies is_hex(#[trigger] s[i]) by {
        assert(text::is_digit(s[i]));
    }
    if s.contains('.') {
        let i = choose|i: int| 0 <= i < s.len() && s[i] == '.';
        assert(text::is_digit(s[i]));
    }
    if s.contains(':') {
        let i = choose|i: int| 0 <= i < s.len() && s[i] == ':';
        assert(text::is_digit(s[i]));
    }
}

pub open spec fn are_octets(o: Seq<nat>) -> bool {
    o.len() == 4 && o[0] <= 255 && o[1] <= 255 && o[2] <= 255 && o[3] <= 255
}

/// An IPv4 address reads back from its text.
pub proof fn law_ipv4_reads_back(o: Seq<nat>)
    requires
        are_octets(o),
    ensures
        ipv4(show4(o)) == Some(o),
{
    let (a, b, c, d) = (
        text::decimal(o[0]),
        text::decimal(o[1]),
        text::decimal(o[2]),
        text::decimal(o[3]),
    );
    lemma_octet_shown(o[0]);
    lemma_octet_shown(o[1]);
    lemma_octet_shown(o[2]);
    lemma_octet_shown(o[3]);
    text::lemma_one_piece(a, '.');
    text::lemma_last_piece(a, '.', b);
    text::lemma_last_piece(a + seq!['.'] + b, '.', c);
    text::lemma_last_piece(a + seq!['.'] + b + seq!['.'] + c, '.', d);
    let fields = text::pieces(show4(o), '.');
    assert(fields =~= seq![a, b, c, d]);
    assert forall|i: int| 0 <= i < 4 implies octet(#[trigger] fields[i]) is Some by {
        if i == 0 {
            assert(fields[i] == a);
        } else if i == 1 {
            assert(fields[i] == b);
        } else if i == 2 {
            assert(fields[i] == c);
        } else {
            assert(fields[i] == d);
        }
    }
    assert(Seq::new(4, |i: int| octet(fields[i])->0) =~= o);
}

/// An IPv4 address is its own text in canonical form.
pub proof fn law_ipv4_text_is_canonical(s: Seq<char>)
    requires
        ipv4(s) is Some,
    ensures
        show4(ipv4(s)->0) == s,
        are_octets(ipv4(s)->0),
{
    let fields = text::pieces(s, '.');
    let o = ipv4(s)->0;
    assert(octet(fields[0]) is Some && octet(fields[1]) is Some && octet(fields[2]) is Some
        && octet(fields[3]) is Some);
    assert(o[0] == octet(fields[0])->0 && o[1] == octet(fields[1])->0 && o[2] == octet(fields[2])->0
        && o[3] == octet(fields[3])->0);
    text::lemma_decimal_of_number(fields[0]);
    text::lemma_decimal_of_number(fields[1]);
    text::lemma_decimal_of_number(fields[2]);
    text::lemma_decimal_of_number(fields[3]);
    lemma_pieces_joined(s, '.');
    let three = fields.drop_last();
    let two = three.drop_last();
    let one = two.drop_last();
    assert(one =~= seq![fields[0]]);
    assert(glued(one, '.') == fields[0]) by {
        assert(one.drop_last() =~= seq![]);
    }
    assert(glued(two, '.') =~= fields[0] + seq!['.'] + fields[1]);
    assert(glued(three, '.') =~= fields[0] + seq!['.'] + fields[1] + seq!['.'] + fields[2]);
    assert(s =~= show4(o));
}

/// Pieces with a separator between them.
pub open spec fn glued(fields: Seq<Seq<char>>, c: char) -> Seq<char>
    decreases fields.len(),
{
    if fields.len() == 0 {
        seq![]
    } else if fields.len() == 1 {
        fields[0]
    } else {
        glued(fields.drop_last(), c) + seq![c] + fields.last()
    }
}

proof fn lemma_pieces_joined(s: Seq<char>, c: char)
    ensures
        glued(text::pieces(s, c), c) == s,
        text::pieces(s, c).len() > 0,
    decreases s.len(),
{
    let fields = text::pieces(s, c);
    if s.len() == 0 {
        assert(fields[0] =~= s);
    } else {
        let before = text::pieces(s.drop_last(), c);
        lemma_pieces_joined(s.drop_last(), c);
        if s.last() == c {
            assert(fields.drop_last() =~= before);
            assert(glued(fields, c) =~= s);
        } else {
            assert(fields.drop_last() =~= before.drop_last());
            assert(fields.last() == before.last().push(s.last()));
            if before.len() == 1 {
                assert(fields[0] == fields.last());
            }
            assert(glued(fields, c) =~= glued(before, c).push(s.last()));
            assert(s.drop_last().push(s.last()) =~= s);
        }
    }
}

proof fn lemma_hex_shown(n: nat)
    ensures
        hex(n).len() > 0,
        hex_number(hex(n)) == n,
        forall|i: int| 0 <= i < hex(n).len() ==> is_hex(#[trigger] hex(n)[i]),
        n < 16 ==> hex(n).len() == 1,
        n >= 16 ==> hex(n).len() == hex(n / 16).len() + 1,
    decreases n,
{
    let s = hex(n);
    if n < 16 {
        assert(s.drop_last() =~= seq![]);
        assert(hex_number(s.drop_last()) == 0);
        assert(s.last() == hex_digit(n));
    } else {
        lemma_hex_shown(n / 16);
        assert(s.drop_last() =~= hex(n / 16));
        assert forall|i: int| 0 <= i < s.len() implies is_hex(#[trigger] s[i]) by {
            if i < s.len() - 1 {
                assert(is_hex(hex(n / 16)[i]));
            }
        }
    }
}

proof fn lemma_group_shown(n: nat)
    requires
        n <= 0xffff,
    ensures
        group(hex(n)) == Some(n),
        !hex(n).contains(':'),
        !hex(n).contains('.'),
        hex(n).len() > 0,
{
    lemma_hex_shown(n);
    if n >= 16 {
        lemma_hex_shown(n / 16);
        if n >= 256 {
            lemma_hex_shown(n / 256);
            assert((n / 16) / 16 == n / 256);
            if n >= 4096 {
                lemma_hex_shown(n / 4096);
                assert((n / 256) / 16 == n / 4096);
            }
        }
    }
    let s = hex(n);
    if s.contains(':') {
        let i = choose|i: int| 0 <= i < s.len() && s[i] == ':';
        assert(is_hex(s[i]));
    }
    if s.contains('.') {
        let i = choose|i: int| 0 <= i < s.len() && s[i] == '.';
        assert(is_hex(s[i]));
    }
}

pub open spec fn are_groups(n: Seq<nat>) -> bool {
    forall|i: int| 0 <= i < n.len() ==> #[trigger] n[i] <= 0xffff
}

/// Joined numbers read back, have no gap, and begin and end with a digit.
proof fn lemma_joined(n: Seq<nat>)
    requires
        are_groups(n),
        n.len() > 0,
    ensures
        groups(text::pieces(joined(n), ':'), false) == Some(n),
        joined(n).len() > 0,
        joined(n).last() != ':',
        joined(n)[0] != ':',
        gap(joined(n)) is None,
        forall|i: int| 0 <= i < joined(n).len() ==> is_address_char(#[trigger] joined(n)[i]),
        !joined(n).contains('.'),
    decreases n.len(),
{
    let last = n.last();
    assert(n[n.len() - 1] <= 0xffff);
    lemma_group_shown(last);
    lemma_hex_shown(last);
    let h = hex(last);
    assert(is_hex(h[0]) && is_hex(h[h.len() - 1]));
    if n.len() == 1 {
        text::lemma_one_piece(h, ':');
        let fields = text::pieces(h, ':');
        assert(fields =~= seq![h]);
        assert(fields.drop_last() =~= seq![]);
        assert(groups(fields.drop_last(), false) == Some(Seq::<nat>::empty()));
        assert(Seq::<nat>::empty().push(last) =~= n);
        lemma_no_gap(h);
    } else {
        let before = n.drop_last();
        assert forall|i: int| 0 <= i < before.len() implies #[trigger] before[i] <= 0xffff by {
            assert(n[i] <= 0xffff);
        }
        lemma_joined(before);
        let x = joined(before);
        let s = x + seq![':'] + h;
        text::lemma_last_piece(x, ':', h);
        let fields = text::pieces(s, ':');
        assert(fields.drop_last() =~= text::pieces(x, ':'));
        assert(before.push(last) =~= n);
        assert(s.last() == h.last());
        assert(s[0] == x[0]);
        lemma_gap_after(x, h);
        assert forall|i: int| 0 <= i < s.len() implies is_address_char(#[trigger] s[i]) by {
            if i < x.len() {
                assert(is_address_char(x[i]));
            } else if i > x.len() {
                assert(is_hex(h[i - x.len() - 1]));
            }
        }
        if s.contains('.') {
            let i = choose|i: int| 0 <= i < s.len() && s[i] == '.';
            if i < x.len() {
                assert(x[i] == '.');
            } else if i > x.len() {
                assert(is_hex(h[i - x.len() - 1]));
            }
        }
    }
}

proof fn lemma_no_gap(s: Seq<char>)
    requires
        !s.contains(':'),
    ensures
        gap(s) is None,
    decreases s.len(),
{
    if s.len() >= 2 {
        assert(s[0] != ':');
        assert(!s.drop_first().contains(':')) by {
            if s.drop_first().contains(':') {
                let i = choose|i: int| 0 <= i < s.drop_first().len() && s.drop_first()[i] == ':';
                assert(s[i + 1] == ':');
            }
        }
        lemma_no_gap(s.drop_first());
    }
}

/// A colon between text without a gap and text without colons makes no gap.
proof fn lemma_gap_after(x: Seq<char>, h: Seq<char>)
    requires
        gap(x) is None,
        x.len() > 0,
        x.last() != ':',
        h.len() > 0,
        !h.contains(':'),
    ensures
        gap(x + seq![':'] + h) is None,
    decreases x.len(),
{
    let s = x + seq![':'] + h;
    if x.len() == 1 {
        let rest = s.drop_first();
        assert(rest =~= seq![':'] + h);
        assert(rest.drop_first() =~= h);
        lemma_no_gap(h);
        assert(h[0] != ':');
        assert(gap(rest) is None);
    } else {
        assert(s.drop_first() =~= x.drop_first() + seq![':'] + h);
        assert(x.drop_first().last() == x.last());
        assert(gap(x.drop_first()) is None);
        lemma_gap_after(x.drop_first(), h);
        assert(s[0] == x[0] && s[1] == x[1]);
    }
}

/// The gap of text with two colons in it, where what comes before has none and
/// does not end with a colon.
proof fn lemma_gap_found(x: Seq<char>, y: Seq<char>)
    requires
        gap(x) is None,
        x.len() > 0 ==> x.last() != ':',
    ensures
        gap(x + seq![':', ':'] + y) == Some(x.len() as int),
    decreases x.len(),
{
    let s = x + seq![':', ':'] + y;
    if x.len() == 0 {
        assert(s[0] == ':' && s[1] == ':');
    } else {
        assert(s.drop_first() =~= x.drop_first() + seq![':', ':'] + y);
        if x.len() > 1 {
            assert(x.drop_first().last() == x.last());
        }
        assert(gap(x.drop_first()) is None);
        lemma_gap_found(x.drop_first(), y);
        assert(s[0] == x[0]);
        if x.len() == 1 {
            assert(x[0] == x.last());
        } else {
            assert(s[1] == x[1]);
        }
    }
}

proof fn lemma_zeros_from(n: Seq<nat>, i: int)
    requires
        0 <= i <= n.len(),
    ensures
        i + zeros_from(n, i) <= n.len(),
        forall|j: int| i <= j < i + zeros_from(n, i) ==> #[trigger] n[j] == 0,
    decreases n.len() - i,
{
    if i < n.len() && n[i] == 0 {
        lemma_zeros_from(n, i + 1);
    }
}

proof fn lemma_longest_row(n: Seq<nat>, m: nat)
    requires
        m <= n.len(),
    ensures
        0 <= longest_row(n, m),
        m > 0 ==> longest_row(n, m) < m,
        m == 0 ==> longest_row(n, m) == 0,
    decreases m,
{
    if m > 1 {
        lemma_longest_row(n, (m - 1) as nat);
    }
}

pub open spec fn ffff() -> Seq<char> {
    seq!['f', 'f', 'f', 'f']
}

proof fn lemma_ffff()
    ensures
        group(ffff()) == Some(0xffffnat),
        !ffff().contains(':'),
{
    reveal_with_fuel(hex_number, 5);
    let s = ffff();
    assert(s.drop_last() =~= seq!['f', 'f', 'f']);
    assert(s.drop_last().drop_last() =~= seq!['f', 'f']);
    assert(s.drop_last().drop_last().drop_last() =~= seq!['f']);
    assert(s.drop_last().drop_last().drop_last().drop_last() =~= Seq::<char>::empty());
}

proof fn lemma_mapped_tail(o: Seq<nat>)
    requires
        are_octets(o),
    ensures
        groups(text::pieces(ffff() + seq![':'] + show4(o), ':'), true) == Some(
            seq![0xffffnat] + pairs(o),
        ),
{
    let dotted = show4(o);
    lemma_ffff();
    law_ipv4_reads_back(o);
    lemma_show4_chars(o);
    text::lemma_one_piece(ffff(), ':');
    text::lemma_last_piece(ffff(), ':', dotted);
    let fields = text::pieces(ffff() + seq![':'] + dotted, ':');
    assert(fields =~= seq![ffff(), dotted]);
    assert(fields.drop_last() =~= seq![ffff()]);
    assert(fields.drop_last().drop_last() =~= Seq::<Seq<char>>::empty());
    assert(groups(Seq::<Seq<char>>::empty(), false) == Some(Seq::<nat>::empty()));
    assert(Seq::<nat>::empty().push(0xffffnat) =~= seq![0xffffnat]);
    assert(groups(fields.drop_last(), false) == Some(seq![0xffffnat]));
    assert(group(dotted) is None) by {
        let i = text::decimal(o[0]).len() as int;
        assert(dotted[i] == '.');
        assert(!is_hex(dotted[i]));
    }
}

proof fn lemma_mapped_text(n: Seq<nat>)
    requires
        n.len() == 8,
        are_groups(n),
        is_mapped(n),
    ensures
        ipv6(show6(n)) == Some(n),
        ipv4(show6(n)) is None,
        show6(n).contains(':'),
        forall|i: int| 0 <= i < show6(n).len() ==> is_address_char(#[trigger] show6(n)[i]),
{
    reveal_strlit("::ffff:");
    assert(n[6] <= 0xffff && n[7] <= 0xffff);
    let o = seq![n[6] / 256, n[6] % 256, n[7] / 256, n[7] % 256];
    assert(are_octets(o));
    law_ipv4_reads_back(o);
    lemma_show4_chars(o);
    let dotted = show4(o);
    let s = show6(n);
    let tail = ffff() + seq![':'] + dotted;
    assert(s =~= Seq::<char>::empty() + seq![':', ':'] + tail);
    lemma_gap_found(Seq::<char>::empty(), tail);
    assert(s.take(0) =~= Seq::<char>::empty());
    assert(s.skip(2) =~= tail);
    lemma_mapped_tail(o);
    let numbers = seq![0xffffnat] + pairs(o);
    assert(numbers =~= seq![0xffffnat, n[6], n[7]]);
    assert(n.take(5) == zeros(5));
    assert forall|i: int| 0 <= i < 5 implies n[i] == 0 by {
        assert(n.take(5)[i] == zeros(5)[i]);
    }
    assert(Seq::<nat>::empty() + zeros(5) + numbers =~= n);
    assert(s[0] == ':');
    lemma_colon_is_not_ipv4(s);
    assert forall|i: int| 0 <= i < s.len() implies is_address_char(#[trigger] s[i]) by {
        if i >= 7 {
            assert(s[i] == dotted[i - 7]);
        }
    }
}

proof fn lemma_show4_chars(o: Seq<nat>)
    requires
        are_octets(o),
    ensures
        forall|i: int| 0 <= i < show4(o).len() ==> is_address_char(#[trigger] show4(o)[i]),
        !show4(o).contains(':'),
{
    lemma_octet_shown(o[0]);
    lemma_octet_shown(o[1]);
    lemma_octet_shown(o[2]);
    lemma_octet_shown(o[3]);
    let (a, b, c, d) = (
        text::decimal(o[0]),
        text::decimal(o[1]),
        text::decimal(o[2]),
        text::decimal(o[3]),
    );
    let s = show4(o);
    assert forall|i: int| 0 <= i < s.len() implies is_address_char(#[trigger] s[i]) && s[i]
        != ':' by {
        let p = a.len() as int;
        let q = p + 1 + b.len();
        let r = q + 1 + c.len();
        if i < p {
            assert(s[i] == a[i]);
            assert(is_hex(a[i]));
        } else if i == p || i == q || i == r {
            assert(s[i] == '.');
        } else if i < q {
            assert(s[i] == b[i - p - 1]);
            assert(is_hex(b[i - p - 1]));
        } else if i < r {
            assert(s[i] == c[i - q - 1]);
            assert(is_hex(c[i - q - 1]));
        } else {
            assert(s[i] == d[i - r - 1]);
            assert(is_hex(d[i - r - 1]));
        }
    }
}

/// Text with a colon is no IPv4 address.
proof fn lemma_colon_is_not_ipv4(s: Seq<char>)
    requires
        s.contains(':'),
    ensures
        ipv4(s) is None,
{
    if ipv4(s) is Some {
        law_ipv4_text_is_canonical(s);
        lemma_show4_chars(ipv4(s)->0);
    }
}

/// An IPv6 address reads back from its canonical text.
pub proof fn law_ipv6_reads_back(n: Seq<nat>)
    requires
        n.len() == 8,
        are_groups(n),
    ensures
        ipv6(show6(n)) == Some(n),
        ipv4(show6(n)) is None,
        show6(n).contains(':'),
        forall|i: int| 0 <= i < show6(n).len() ==> is_address_char(#[trigger] show6(n)[i]),
{
    if is_mapped(n) {
        lemma_mapped_text(n);
    } else {
        lemma_longest_row(n, 8);
        let at = longest_row(n, 8);
        lemma_zeros_from(n, at);
        let z = zeros_from(n, at) as int;
        let s = show6(n);
        if z > 1 {
            let head = n.take(at);
            let tail = n.skip(at + z);
            assert forall|i: int| 0 <= i < head.len() implies #[trigger] head[i] <= 0xffff by {
                assert(n[i] <= 0xffff);
            }
            assert forall|i: int| 0 <= i < tail.len() implies #[trigger] tail[i] <= 0xffff by {
                assert(n[i + at + z] <= 0xffff);
            }
            let x = joined(head);
            let y = joined(tail);
            reveal_strlit("::");
            assert("::"@ =~= seq![':', ':']);
            assert(s =~= x + seq![':', ':'] + y);
            if head.len() > 0 {
                lemma_joined(head);
            } else {
                assert(gap(x) is None);
            }
            if tail.len() > 0 {
                lemma_joined(tail);
                lemma_groups_dotted(text::pieces(y, ':'));
            }
            lemma_gap_found(x, y);
            assert(s.take(x.len() as int) =~= x);
            assert(s.skip(x.len() as int + 2) =~= y);
            assert(head =~= Seq::<nat>::empty() || head.len() > 0);
            assert(tail =~= Seq::<nat>::empty() || tail.len() > 0);
            assert(side(x, false) == Some(head));
            assert(side(y, true) == Some(tail));
            assert(head + zeros(z as nat) + tail =~= n);
            assert(s[x.len() as int] == ':');
            assert forall|i: int| 0 <= i < s.len() implies is_address_char(#[trigger] s[i]) by {
                if i < x.len() {
                    assert(s[i] == x[i]);
                } else if i >= x.len() + 2 {
                    assert(s[i] == y[i - x.len() - 2]);
                }
            }
        } else {
            lemma_joined(n);
            lemma_groups_dotted(text::pieces(s, ':'));
            assert(s == joined(n.drop_last()) + seq![':'] + hex(n.last()));
            assert(s[joined(n.drop_last()).len() as int] == ':');
        }
        lemma_colon_is_not_ipv4(s);
    }
}

/// The numbers of an IPv6 address are 16-bit numbers.
pub proof fn lemma_ipv6_numbers(s: Seq<char>)
    requires
        ipv6(s) is Some,
    ensures
        ipv6(s)->0.len() == 8,
        are_groups(ipv6(s)->0),
{
    match gap(s) {
        None => {
            lemma_groups_small(text::pieces(s, ':'), true);
        },
        Some(at) => {
            lemma_groups_small(text::pieces(s.take(at), ':'), false);
            lemma_groups_small(text::pieces(s.skip(at + 2), ':'), true);
        },
    }
}

proof fn lemma_groups_small(fields: Seq<Seq<char>>, dotted: bool)
    ensures
        groups(fields, dotted) matches Some(n) ==> are_groups(n),
    decreases fields.len(),
{
    if fields.len() > 0 {
        lemma_groups_small(fields.drop_last(), false);
        let last = fields.last();
        if group(last) is Some {
            lemma_hex_number_small(last);
        } else if ipv4(last) is Some {
            law_ipv4_text_is_canonical(last);
        }
    }
}

proof fn lemma_hex_number_small(s: Seq<char>)
    requires
        group(s) is Some,
    ensures
        group(s)->0 <= 0xffff,
{
    reveal_with_fuel(hex_number, 5);
    assert forall|i: int| 0 <= i < s.len() implies hex_value(#[trigger] s[i]) < 16 by {
        assert(is_hex(s[i]));
    }
    let a = s.drop_last();
    let b = a.drop_last();
    let c = b.drop_last();
    assert(hex_value(s[s.len() - 1]) < 16);
    if s.len() >= 2 {
        assert(hex_value(s[s.len() - 2]) < 16);
        assert(a.last() == s[s.len() - 2]);
    }
    if s.len() >= 3 {
        assert(hex_value(s[s.len() - 3]) < 16);
        assert(b.last() == s[s.len() - 3]);
    }
    if s.len() >= 4 {
        assert(hex_value(s[s.len() - 4]) < 16);
        assert(c.last() == s[s.len() - 4]);
    }
}

/// The canonical form of an address is its own canonical form.
pub proof fn law_canonical_addresses_are_stable(s: Seq<char>)
    requires
        canonical(s) is Some,
    ensures
        canonical(canonical(s)->0) == canonical(s),
        forall|i: int|
            0 <= i < canonical(s)->0.len() ==> is_address_char(#[trigger] canonical(s)->0[i]),
        canonical(s)->0.len() > 0,
{
    if ipv4(s) is Some {
        law_ipv4_text_is_canonical(s);
        lemma_show4_chars(ipv4(s)->0);
    } else {
        lemma_ipv6_numbers(s);
        law_ipv6_reads_back(ipv6(s)->0);
    }
}

/// Text without colons is no IPv6 address.
pub proof fn lemma_no_colon_no_ipv6(s: Seq<char>)
    requires
        !s.contains(':'),
    ensures
        ipv6(s) is None,
{
    lemma_no_gap(s);
    text::lemma_one_piece(s, ':');
    let fields = text::pieces(s, ':');
    assert(fields.drop_last() =~= Seq::<Seq<char>>::empty());
    assert(groups(fields.drop_last(), false) == Some(Seq::<nat>::empty()));
}

/// An address with a colon that is its own canonical form is an IPv6 address.
pub proof fn lemma_colon_is_ipv6(s: Seq<char>)
    requires
        s.contains(':'),
        canonical(s) == Some(s),
    ensures
        ipv6(s) is Some,
        show6(ipv6(s)->0) == s,
{
    lemma_colon_is_not_ipv4(s);
}

/// The characters of addresses in canonical form.
pub open spec fn is_shown_char(c: char) -> bool {
    '0' <= c <= '9' || 'a' <= c <= 'f' || c == '.' || c == ':'
}

/// Text of a length up to `n` in the characters of canonical addresses that does not
/// end with a dot.
pub open spec fn is_shown(s: Seq<char>, n: nat) -> bool {
    &&& s.len() <= n
    &&& s.len() > 0 ==> s.last() != '.'
    &&& forall|i: int| 0 <= i < s.len() ==> is_shown_char(#[trigger] s[i])
}

proof fn lemma_shown_with(x: Seq<char>, c: char, y: Seq<char>, n: nat, m: nat)
    requires
        is_shown(x, n),
        is_shown(y, m),
        is_shown_char(c),
        y.len() > 0 || c != '.',
    ensures
        is_shown(x + seq![c] + y, n + 1 + m),
{
    let s = x + seq![c] + y;
    assert forall|i: int| 0 <= i < s.len() implies is_shown_char(#[trigger] s[i]) by {
        if i < x.len() {
            assert(is_shown_char(x[i]));
        } else if i > x.len() {
            assert(is_shown_char(y[i - x.len() - 1]));
        }
    }
    if y.len() > 0 {
        assert(s.last() == y.last());
    } else {
        assert(s.last() == c);
    }
}

proof fn lemma_hex_is_shown(n: nat)
    ensures
        is_shown(hex(n), hex(n).len()),
    decreases n,
{
    if n >= 16 {
        lemma_hex_is_shown(n / 16);
        assert forall|i: int| 0 <= i < hex(n).len() implies is_shown_char(
            #[trigger] hex(n)[i],
        ) by {
            if i < hex(n).len() - 1 {
                assert(is_shown_char(hex(n / 16)[i]));
            }
        }
    }
}

proof fn lemma_octet_is_shown(n: nat)
    requires
        n <= 255,
    ensures
        text::decimal(n).len() > 0,
        is_shown(text::decimal(n), 3),
{
    let s = text::decimal(n);
    lemma_octet_shown(n);
    text::lemma_decimal_shape(n);
    assert forall|i: int| 0 <= i < s.len() implies is_shown_char(#[trigger] s[i]) by {
        assert(text::is_digit(s[i]));
    }
}

proof fn lemma_show4_is_shown(o: Seq<nat>)
    requires
        are_octets(o),
    ensures
        show4(o).len() > 0,
        is_shown(show4(o), 15),
{
    let (a, b, c, d) = (
        text::decimal(o[0]),
        text::decimal(o[1]),
        text::decimal(o[2]),
        text::decimal(o[3]),
    );
    lemma_octet_is_shown(o[0]);
    lemma_octet_is_shown(o[1]);
    lemma_octet_is_shown(o[2]);
    lemma_octet_is_shown(o[3]);
    lemma_shown_with(a, '.', b, 3, 3);
    lemma_shown_with(a + seq!['.'] + b, '.', c, 7, 3);
    lemma_shown_with(a + seq!['.'] + b + seq!['.'] + c, '.', d, 11, 3);
}

proof fn lemma_joined_is_shown(n: Seq<nat>)
    requires
        are_groups(n),
    ensures
        is_shown(joined(n), 5 * n.len()),
    decreases n.len(),
{
    if n.len() > 0 {
        let h = hex(n.last());
        assert(n[n.len() - 1] <= 0xffff);
        lemma_group_shown(n.last());
        lemma_hex_is_shown(n.last());
        if n.len() > 1 {
            let before = n.drop_last();
            assert forall|i: int| 0 <= i < before.len() implies #[trigger] before[i] <= 0xffff by {
                assert(n[i] <= 0xffff);
            }
            lemma_joined_is_shown(before);
            lemma_shown_with(joined(before), ':', h, 5 * before.len(), 4);
        }
    }
}

proof fn lemma_show6_is_shown(n: Seq<nat>)
    requires
        n.len() == 8,
        are_groups(n),
    ensures
        is_shown(show6(n), 42),
{
    if is_mapped(n) {
        assert(n[6] <= 0xffff && n[7] <= 0xffff);
        let o = seq![n[6] / 256, n[6] % 256, n[7] / 256, n[7] % 256];
        lemma_show4_is_shown(o);
        reveal_strlit("::ffff:");
        let s = show6(n);
        assert forall|i: int| 0 <= i < s.len() implies is_shown_char(#[trigger] s[i]) by {
            if i >= 7 {
                assert(s[i] == show4(o)[i - 7]);
            }
        }
        assert(s.last() == show4(o).last());
    } else {
        lemma_longest_row(n, 8);
        let at = longest_row(n, 8);
        lemma_zeros_from(n, at);
        let z = zeros_from(n, at) as int;
        if z > 1 {
            let head = n.take(at);
            let tail = n.skip(at + z);
            assert forall|i: int| 0 <= i < head.len() implies #[trigger] head[i] <= 0xffff by {
                assert(n[i] <= 0xffff);
            }
            assert forall|i: int| 0 <= i < tail.len() implies #[trigger] tail[i] <= 0xffff by {
                assert(n[i + at + z] <= 0xffff);
            }
            lemma_joined_is_shown(head);
            lemma_joined_is_shown(tail);
            let none = Seq::<char>::empty();
            lemma_shown_with(joined(head), ':', none, 5 * head.len(), 0);
            lemma_shown_with(
                joined(head) + seq![':'] + none,
                ':',
                joined(tail),
                5 * head.len() + 1,
                5 * tail.len(),
            );
            reveal_strlit("::");
            assert(show6(n) =~= joined(head) + seq![':'] + none + seq![':'] + joined(tail));
        } else {
            lemma_joined_is_shown(n);
        }
    }
}

/// An address in canonical form is short and in lower case, and does not end with a
/// dot.
pub proof fn law_canonical_addresses_are_short(s: Seq<char>)
    requires
        canonical(s) is Some,
    ensures
        is_shown(canonical(s)->0, 42),
{
    if ipv4(s) is Some {
        law_ipv4_text_is_canonical(s);
        lemma_show4_is_shown(ipv4(s)->0);
    } else {
        lemma_ipv6_numbers(s);
        lemma_show6_is_shown(ipv6(s)->0);
    }
}

} // verus!
