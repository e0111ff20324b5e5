//! Keys, as a terminal sends them in bytes.
use vstd::prelude::*;
use vstd::string::*;
use vstd::utf8;

verus! {

#[derive(Debug, PartialEq, Eq)]
pub enum Key {
    Up,
    Down,
    Left,
    Right,
    Home,
    End,
    Delete,
    Backspace,
    Enter,
    Tab,
    Escape,
    Interrupt,
    Char(char),
    Paste(String),
}

/// A key, with pasted text as characters.
#[verifier::ext_equal]
pub enum KeyView {
    Up,
    Down,
    Left,
    Right,
    Home,
    End,
    Delete,
    Backspace,
    Enter,
    Tab,
    Escape,
    Interrupt,
    Char(char),
    Paste(Seq<char>),
}

impl View for Key {
    type V = KeyView;

    open spec fn view(&self) -> KeyView {
        match self {
            Key::Up => KeyView::Up,
            Key::Down => KeyView::Down,
            Key::Left => KeyView::Left,
            Key::Right => KeyView::Right,
            Key::Home => KeyView::Home,
            Key::End => KeyView::End,
            Key::Delete => KeyView::Delete,
            Key::Backspace => KeyView::Backspace,
            Key::Enter => KeyView::Enter,
            Key::Tab => KeyView::Tab,
            Key::Escape => KeyView::Escape,
            Key::Interrupt => KeyView::Interrupt,
            Key::Char(c) => KeyView::Char(*c),
            Key::Paste(s) => KeyView::Paste(s@),
        }
    }
}

/// The text of bytes that may not be UTF-8, with replacement characters.
pub uninterp spec fn lossy_text(bytes: Seq<u8>) -> Seq<char>;

/// `String::from_utf8_lossy` of std: a function of the bytes, which reads UTF-8 as
/// what it encodes.
#[verifier::external_body]
fn lossy(bytes: &[u8]) -> (r: String)
    ensures
        r@ == lossy_text(bytes@),
        utf8::valid_utf8(bytes@) ==> r@ == utf8::decode_utf8(bytes@),
{
    String::from_utf8_lossy(bytes).into_owned()
}

/// `std::str::from_utf8`: the text of bytes that are UTF-8, and nothing of others.
#[verifier::external_body]
fn strict(bytes: &[u8]) -> (r: Option<String>)
    ensures
        match r {
            Some(s) => utf8::valid_utf8(bytes@) && s@ == utf8::decode_utf8(bytes@),
            None => !utf8::valid_utf8(bytes@),
        },
{
    match std::str::from_utf8(bytes) {
        Ok(s) => Some(s.to_owned()),
        Err(_) => None,
    }
}

/// Pasted text that is longer without an end is dropped.
pub const PASTE_LIMIT: usize = 8192;

/// What announces pasted text.
pub open spec fn paste_start() -> Seq<u8> {
    seq![27u8, 91, 50, 48, 48, 126]
}

/// What ends pasted text.
pub open spec fn paste_end() -> Seq<u8> {
    seq![27u8, 91, 50, 48, 49, 126]
}

pub open spec fn starts(s: Seq<u8>, prefix: Seq<u8>) -> bool {
    prefix.len() <= s.len() && s.take(prefix.len() as int) == prefix
}

/// The first place where `part` occurs in `s`.
pub open spec fn first_at(s: Seq<u8>, part: Seq<u8>) -> Option<int>
    decreases s.len(),
{
    if starts(s, part) {
        Some(0)
    } else if s.len() == 0 {
        None
    } else {
        match first_at(s.skip(1), part) {
            Some(i) => Some(i + 1),
            None => None,
        }
    }
}

/// The key whose escape sequence `s` begins with, and the sequence's length.
pub open spec fn sequence_key(s: Seq<u8>) -> Option<(int, KeyView)> {
    if s.len() >= 3 && s[1] == 91 {
        match s[2] {
            65 => Some((3, KeyView::Up)),
            66 => Some((3, KeyView::Down)),
            67 => Some((3, KeyView::Right)),
            68 => Some((3, KeyView::Left)),
            72 => Some((3, KeyView::Home)),
            70 => Some((3, KeyView::End)),
            51 => if s.len() >= 4 && s[3] == 126 {
                Some((4, KeyView::Delete))
            } else {
                None
            },
            _ => None,
        }
    } else if s.len() >= 3 && s[1] == 79 {
        match s[2] {
            72 => Some((3, KeyView::Home)),
            70 => Some((3, KeyView::End)),
            65 => Some((3, KeyView::Up)),
            66 => Some((3, KeyView::Down)),
            _ => None,
        }
    } else {
        None
    }
}

/// The key of a single byte.
pub open spec fn byte_key(b: u8) -> Option<KeyView> {
    match b {
        3 => Some(KeyView::Interrupt),
        4 => Some(KeyView::Interrupt),
        10 => Some(KeyView::Enter),
        13 => Some(KeyView::Enter),
        9 => Some(KeyView::Tab),
        8 => Some(KeyView::Backspace),
        127 => Some(KeyView::Backspace),
        1 => Some(KeyView::Home),
        5 => Some(KeyView::End),
        _ => None,
    }
}

/// How many bytes the character takes that begins with `first`.
pub open spec fn char_width(first: u8) -> int {
    if first < 128 {
        1
    } else if first < 224 {
        2
    } else if first < 240 {
        3
    } else {
        4
    }
}

/// What escape bytes decode to.
pub open spec fn decode_escape(s: Seq<u8>, expire: bool) -> (Seq<u8>, Option<KeyView>) {
    if starts(s, paste_start()) {
        if s.contains(3) {
            (seq![], Some(KeyView::Interrupt))
        } else {
            match first_at(s.skip(6), paste_end()) {
                Some(end) => (
                    s.skip(12 + end),
                    Some(KeyView::Paste(lossy_text(s.subrange(6, 6 + end)))),
                ),
                None => (
                    if s.len() > PASTE_LIMIT {
                        seq![]
                    } else {
                        s
                    },
                    None,
                ),
            }
        }
    } else {
        match sequence_key(s) {
            Some((n, key)) => (s.skip(n), Some(key)),
            None => if expire {
                (s.skip(1), Some(KeyView::Escape))
            } else {
                (s, None)
            },
        }
    }
}

/// The next key of some bytes, and the bytes after it. Control characters without
/// a key and bytes that are no UTF-8 are passed over; an escape character is a key
/// of its own only with `expire`.
pub open spec fn decode(s: Seq<u8>, expire: bool) -> (Seq<u8>, Option<KeyView>)
    decreases s.len(),
{
    if s.len() == 0 {
        (s, None)
    } else if s[0] == 27 {
        decode_escape(s, expire)
    } else if byte_key(s[0]) is Some {
        (s.skip(1), byte_key(s[0]))
    } else if s[0] < 32 {
        decode(s.skip(1), expire)
    } else {
        let n = char_width(s[0]);
        if s.len() < n {
            (s, None)
        } else if utf8::valid_utf8(s.take(n)) {
            (s.skip(n), Some(KeyView::Char(utf8::decode_utf8(s.take(n))[0])))
        } else {
            decode(s.skip(1), expire)
        }
    }
}

/// The pasted bytes that escape bytes begin with, where they have come to an end.
pub open spec fn pasted_escape(s: Seq<u8>) -> Option<Seq<u8>> {
    if starts(s, paste_start()) && !s.contains(3) {
        match first_at(s.skip(6), paste_end()) {
            Some(end) => Some(s.subrange(6, 6 + end)),
            None => None,
        }
    } else {
        None
    }
}

/// The pasted bytes that the next key of some bytes stands for, if it does.
pub open spec fn pasted(s: Seq<u8>) -> Option<Seq<u8>>
    decreases s.len(),
{
    if s.len() == 0 {
        None
    } else if s[0] == 27 {
        pasted_escape(s)
    } else if byte_key(s[0]) is Some {
        None
    } else if s[0] < 32 {
        pasted(s.skip(1))
    } else {
        let n = char_width(s[0]);
        if s.len() < n || utf8::valid_utf8(s.take(n)) {
            None
        } else {
            pasted(s.skip(1))
        }
    }
}

/// Keys from the bytes of a terminal.
#[derive(Debug)]
pub struct Decoder {
    pub bytes: Vec<u8>,
}

impl View for Decoder {
    type V = Seq<u8>;

    open spec fn view(&self) -> Seq<u8> {
        self.bytes@
    }
}

fn begins_with(s: &[u8], at: usize, part: &[u8]) -> (r: bool)
    requires
        at <= s@.len(),
    ensures
        r == starts(s@.skip(at as int), part@),
{
    let len: usize = s.len();
    if part.len() > len - at {
        return false;
    }
    let ghost rest = s@.skip(at as int);
    let mut i: usize = 0;
    while i < part.len()
        invariant
            i <= part@.len(),
            len == s@.len(),
            at <= len,
            part@.len() <= len - at,
            rest == s@.skip(at as int),
            forall|j: int| 0 <= j < i ==> rest[j] == part@[j],
        decreases part@.len() - i,
    {
        assert(rest[i as int] == s@[at + i]);
        if s[at + i] != part[i] {
            proof {
                assert(rest.take(part@.len() as int)[i as int] != part@[i as int]);
            }
            return false;
        }
        i = i + 1;
    }
    assert(rest.take(part@.len() as int) =~= part@);
    true
}

fn find(s: &[u8], from: usize, part: &[u8]) -> (r: Option<usize>)
    requires
        from <= s@.len(),
        part@.len() > 0,
    ensures
        match r {
            Some(i) => first_at(s@.skip(from as int), part@) == Some(i as int) && from + i
                + part@.len() <= s@.len(),
            None => first_at(s@.skip(from as int), part@) is None,
        },
{
    let len: usize = s.len();
    let mut at: usize = from;
    let ghost whole = first_at(s@.skip(from as int), part@);
    loop
        invariant
            from <= at <= len,
            len == s@.len(),
            part@.len() > 0,
            whole == first_at(s@.skip(from as int), part@),
            whole == (match first_at(s@.skip(at as int), part@) {
                Some(i) => Some(i + (at - from)),
                None => None,
            }),
        decreases len - at,
    {
        if begins_with(s, at, part) {
            return Some(at - from);
        }
        if at == len {
            return None;
        }
        proof {
            assert(s@.skip(at as int).skip(1) =~= s@.skip(at + 1));
        }
        at = at + 1;
    }
}

fn has_byte(s: &[u8], b: u8) -> (r: bool)
    ensures
        r == s@.contains(b),
{
    let mut i: usize = 0;
    while i < s.len()
        invariant
            i <= s@.len(),
            forall|j: int| 0 <= j < i ==> s@[j] != b,
        decreases s@.len() - i,
    {
        if s[i] == b {
            assert(s@[i as int] == b);
            return true;
        }
        i = i + 1;
    }
    false
}

fn lookup_sequence(s: &[u8]) -> (r: Option<(usize, Key)>)
    ensures
        match r {
            Some((n, key)) => sequence_key(s@) == Some((n as int, key@)) && n <= s@.len(),
            None => sequence_key(s@) is None,
        },
{
    let len: usize = s.len();
    if len < 3 {
        return None;
    }
    if s[1] == 91 {
        match s[2] {
            65 => Some((3, Key::Up)),
            66 => Some((3, Key::Down)),
            67 => Some((3, Key::Right)),
            68 => Some((3, Key::Left)),
            72 => Some((3, Key::Home)),
            70 => Some((3, Key::End)),
            51 => if len >= 4 && s[3] == 126 {
                Some((4, Key::Delete))
            } else {
                None
            },
            _ => None,
        }
    } else if s[1] == 79 {
        match s[2] {
            72 => Some((3, Key::Home)),
            70 => Some((3, Key::End)),
            65 => Some((3, Key::Up)),
            66 => Some((3, Key::Down)),
            _ => None,
        }
    } else {
        None
    }
}

fn lookup_byte(b: u8) -> (r: Option<Key>)
    ensures
        match r {
            Some(key) => byte_key(b) == Some(key@),
            None => byte_key(b) is None,
        },
{
    match b {
        3 => Some(Key::Interrupt),
        4 => Some(Key::Interrupt),
        10 => Some(Key::Enter),
        13 => Some(Key::Enter),
        9 => Some(Key::Tab),
        8 => Some(Key::Backspace),
        127 => Some(Key::Backspace),
        1 => Some(Key::Home),
        5 => Some(Key::End),
        _ => None,
    }
}

impl Decoder {
    pub fn new() -> (r: Decoder)
        ensures
            r@ == Seq::<u8>::empty(),
    {
        Decoder { bytes: Vec::new() }
    }

    /// Takes in the bytes that were read.
    pub fn push(&mut self, bytes: &[u8])
        ensures
            final(self)@ == old(self)@ + bytes@,
    {
        self.bytes.extend_from_slice(bytes);
    }

    fn drop_front(&mut self, n: usize)
        requires
            n <= old(self)@.len(),
        ensures
            final(self)@ == old(self)@.skip(n as int),
    {
        let ghost was = self@;
        let mut rest: Vec<u8> = Vec::new();
        let mut i: usize = n;
        while i < self.bytes.len()
            invariant
                n <= i <= self.bytes@.len(),
                self.bytes@ == was,
                rest@ =~= was.subrange(n as int, i as int),
            decreases self.bytes@.len() - i,
        {
            rest.push(self.bytes[i]);
            i = i + 1;
        }
        self.bytes = rest;
        assert(self@ =~= was.skip(n as int));
    }

    fn next_escape(&mut self, expire_escape: bool) -> (r: Option<Key>)
        requires
            old(self)@.len() > 0,
        ensures
            ({
                let (rest, key) = decode_escape(old(self)@, expire_escape);
                &&& final(self)@ == rest
                &&& match r {
                    Some(r) => key == Some(r@),
                    None => key is None,
                }
            }),
            pasted_escape(old(self)@) matches Some(part) ==> (utf8::valid_utf8(part) ==> (
            r matches Some(key) && key@ == KeyView::Paste(utf8::decode_utf8(part)))),
    {
        let start: [u8; 6] = [27, 91, 50, 48, 48, 126];
        let end: [u8; 6] = [27, 91, 50, 48, 49, 126];
        proof {
            assert(start@ =~= paste_start());
            assert(end@ =~= paste_end());
            assert(self@.skip(0) =~= self@);
        }
        let len: usize = self.bytes.len();
        if begins_with(self.bytes.as_slice(), 0, start.as_slice()) {
            if has_byte(self.bytes.as_slice(), 3) {
                self.bytes = Vec::new();
                return Some(Key::Interrupt);
            }
            match find(self.bytes.as_slice(), 6, end.as_slice()) {
                Some(at) => {
                    let pasted: String = lossy(
                        vstd::slice::slice_subrange(self.bytes.as_slice(), 6, 6 + at),
                    );
                    self.drop_front(12 + at);
                    return Some(Key::Paste(pasted));
                },
                None => {
                    if len > PASTE_LIMIT {
                        self.bytes = Vec::new();
                    }
                    return None;
                },
            }
        }
        match lookup_sequence(self.bytes.as_slice()) {
            Some((n, key)) => {
                self.drop_front(n);
                Some(key)
            },
            None => {
                if !expire_escape {
                    return None;
                }
                self.drop_front(1);
                Some(Key::Escape)
            },
        }
    }

    /// The next key, if the bytes hold one. With `expire_escape`, nothing is
    /// waited for after an escape character. Pasted UTF-8 is the text that it encodes.
    pub fn next(&mut self, expire_escape: bool) -> (r: Option<Key>)
        ensures
            ({
                let (rest, key) = decode(old(self)@, expire_escape);
                &&& final(self)@ == rest
                &&& match r {
                    Some(r) => key == Some(r@),
                    None => key is None,
                }
            }),
            pasted(old(self)@) matches Some(part) ==> (utf8::valid_utf8(part) ==> (r matches Some(key)
                && key@ == KeyView::Paste(utf8::decode_utf8(part)))),
        decreases old(self)@.len(),
    {
        let len: usize = self.bytes.len();
        if len == 0 {
            return None;
        }
        let first: u8 = self.bytes[0];
        if first == 27 {
            return self.next_escape(expire_escape);
        }
        if let Some(key) = lookup_byte(first) {
            self.drop_front(1);
            return Some(key);
        }
        if first < 32 {
            self.drop_front(1);
            return self.next(expire_escape);
        }
        let n: usize = if first < 128 {
            1
        } else if first < 224 {
            2
        } else if first < 240 {
            3
        } else {
            4
        };
        if len < n {
            return None;
        }
        let head: &[u8] = vstd::slice::slice_subrange(self.bytes.as_slice(), 0, n);
        assert(head@ =~= self@.take(n as int));
        match strict(head) {
            Some(s) => {
                proof {
                    reveal_with_fuel(utf8::decode_utf8, 2);
                    assert(s@.len() > 0);
                }
                let c: char = s.as_str().get_char(0);
                self.drop_front(n);
                Some(Key::Char(c))
            },
            None => {
                self.drop_front(1);
                self.next(expire_escape)
            },
        }
    }
}

/// Waiting for more bytes changes nothing: where the bytes so far hold no key,
/// what is kept of them decodes together with further bytes as all of them would.
pub proof fn law_waiting_changes_nothing(s: Seq<u8>, more: Seq<u8>)
    requires
        s.len() <= PASTE_LIMIT,
        decode(s, false).1 is None,
    ensures
        decode(decode(s, false).0 + more, false) == decode(s + more, false),
    decreases s.len(),
{
    if s.len() > 0 && s[0] != 27 && byte_key(s[0]) is None {
        let n = char_width(s[0]);
        assert((s + more).skip(1) =~= s.skip(1) + more);
        if s[0] < 32 {
            law_waiting_changes_nothing(s.skip(1), more);
        } else if s.len() >= n {
            assert((s + more).take(n) =~= s.take(n));
            law_waiting_changes_nothing(s.skip(1), more);
        }
    }
}

/// A key is decoded from at least one byte, so decoding comes to an end.
pub proof fn law_keys_use_up_bytes(s: Seq<u8>, expire: bool)
    ensures
        decode(s, expire).0.len() <= s.len(),
        decode(s, expire).1 is Some ==> decode(s, expire).0.len() < s.len(),
    decreases s.len(),
{
    if s.len() > 0 {
        if s[0] == 27 {
            if starts(s, paste_start()) {
                lemma_first_at(s.skip(6), paste_end());
            }
        } else if byte_key(s[0]) is None {
            law_keys_use_up_bytes(s.skip(1), expire);
        }
    }
}

proof fn lemma_first_at(s: Seq<u8>, part: Seq<u8>)
    ensures
        first_at(s, part) matches Some(i) ==> 0 <= i && i + part.len() <= s.len(),
    decreases s.len(),
{
    if !starts(s, part) && s.len() > 0 {
        lemma_first_at(s.skip(1), part);
    }
}

proof fn lemma_starts_more(s: Seq<u8>, more: Seq<u8>, part: Seq<u8>)
    ensures
        part.len() <= s.len() ==> starts(s + more, part) == starts(s, part),
        starts(s, part) ==> starts(s + more, part),
{
    if part.len() <= s.len() {
        assert((s + more).take(part.len() as int) =~= s.take(part.len() as int));
    }
}

/// What is found in some bytes is found there with more bytes after them, and what
/// is found first within them was there before.
proof fn lemma_first_at_more(s: Seq<u8>, more: Seq<u8>, part: Seq<u8>)
    requires
        part.len() > 0,
    ensures
        first_at(s, part) matches Some(i) ==> first_at(s + more, part) == Some(i),
        first_at(s + more, part) matches Some(i) ==> (i + part.len() <= s.len() ==> first_at(
            s,
            part,
        ) == Some(i)),
    decreases s.len(),
{
    lemma_starts_more(s, more, part);
    if s.len() > 0 {
        lemma_first_at_more(s.skip(1), more, part);
        assert((s + more).skip(1) =~= s.skip(1) + more);
        lemma_first_at(s.skip(1), part);
    } else {
        lemma_first_at(s + more, part);
    }
}

/// The keys that bytes give while nothing else comes, and the bytes that are left.
pub open spec fn drained(s: Seq<u8>) -> (Seq<u8>, Seq<KeyView>)
    decreases s.len(),
{
    proof {
        law_keys_use_up_bytes(s, false);
    }
    let (rest, key) = decode(s, false);
    match key {
        Some(key) => (drained(rest).0, seq![key] + drained(rest).1),
        None => (rest, seq![]),
    }
}

pub open spec fn all_bytes(pieces: Seq<Seq<u8>>) -> Seq<u8>
    decreases pieces.len(),
{
    if pieces.len() == 0 {
        seq![]
    } else {
        all_bytes(pieces.drop_last()) + pieces.last()
    }
}

/// The keys of bytes that come in pieces, where the keys are taken after each piece,
/// and the bytes that are left.
pub open spec fn drained_in_turn(pieces: Seq<Seq<u8>>) -> (Seq<u8>, Seq<KeyView>)
    decreases pieces.len(),
{
    if pieces.len() == 0 {
        (seq![], seq![])
    } else {
        let (rest, keys) = drained_in_turn(pieces.drop_last());
        let (left, more) = drained(rest + pieces.last());
        (left, keys + more)
    }
}

/// Whether pasted text that begins at place `i` is neither interrupted nor dropped:
/// no interrupt follows its start, and it comes to its end within the limit.
pub open spec fn paste_stays(s: Seq<u8>, i: int) -> bool {
    &&& !s.skip(i).contains(3)
    &&& match first_at(s.skip(i).skip(6), paste_end()) {
        Some(end) => end + 11 <= PASTE_LIMIT,
        None => s.len() - i <= PASTE_LIMIT,
    }
}

/// Whether all text that is pasted stays.
pub open spec fn pastes_stay(s: Seq<u8>) -> bool {
    forall|i: int|
        0 <= i < s.len() && #[trigger] starts(s.skip(i), paste_start()) ==> paste_stays(s, i)
}

/// Whether pasted text that begins at place `i` of some bytes survives a cut after
/// them: where it has ended, no interrupt follows its start; where it has not, no
/// interrupt has come yet, and it is within the limit.
pub open spec fn paste_survives(s: Seq<u8>, more: Seq<u8>, i: int) -> bool {
    match first_at(s.skip(i).skip(6), paste_end()) {
        Some(_) => !(s + more).skip(i).contains(3),
        None => !s.skip(i).contains(3) && s.len() - i <= PASTE_LIMIT,
    }
}

/// Whether all text whose paste begins before a cut survives it.
pub open spec fn pastes_survive(s: Seq<u8>, more: Seq<u8>) -> bool {
    forall|i: int|
        0 <= i < s.len() && #[trigger] starts(s.skip(i), paste_start()) ==> paste_survives(
            s,
            more,
            i,
        )
}

proof fn lemma_pastes_survive_after(s: Seq<u8>, more: Seq<u8>, n: int)
    requires
        pastes_survive(s, more),
        0 <= n <= s.len(),
    ensures
        pastes_survive(s.skip(n), more),
{
    let t = s.skip(n);
    assert forall|i: int| 0 <= i < t.len() && #[trigger] starts(
        t.skip(i),
        paste_start(),
    ) implies paste_survives(t, more, i) by {
        assert(t.skip(i) =~= s.skip(n + i));
        assert((t + more).skip(i) =~= (s + more).skip(n + i));
        assert(paste_survives(s, more, n + i));
    }
}

/// One step: a key does not depend on the bytes after it, and bytes without a key
/// may be cut down to what is kept of them.
proof fn lemma_decode_with_more(s: Seq<u8>, more: Seq<u8>)
    requires
        pastes_survive(s, more),
    ensures
        ({
            let (rest, key) = decode(s, false);
            &&& rest.len() <= s.len()
            &&& rest == s.skip(s.len() - rest.len())
            &&& match key {
                Some(key) => decode(s + more, false) == (rest + more, Some(key)),
                None => decode(rest + more, false) == decode(s + more, false),
            }
        }),
    decreases s.len(),
{
    let whole = s + more;
    assert(s.skip(0) =~= s);
    assert(whole.skip(0) =~= whole);
    if s.len() > 0 {
        assert(whole.skip(1) =~= s.skip(1) + more);
        if s[0] == 27 {
            lemma_escape_with_more(s, more);
        } else if byte_key(s[0]) is None {
            let n = char_width(s[0]);
            if s[0] < 32 || s.len() >= n {
                assert(s[0] >= 32 ==> whole.take(n) =~= s.take(n));
                assert(s[0] >= 32 ==> whole.skip(n) =~= s.skip(n) + more);
                lemma_pastes_survive_after(s, more, 1);
                lemma_decode_with_more(s.skip(1), more);
                let rest = decode(s.skip(1), false).0;
                assert(s.skip(1).skip(s.len() - 1 - rest.len()) =~= s.skip(s.len() - rest.len()));
            }
        }
    }
}

proof fn lemma_escape_with_more(s: Seq<u8>, more: Seq<u8>)
    requires
        s.len() > 0,
        s[0] == 27,
        pastes_survive(s, more),
    ensures
        ({
            let (rest, key) = decode(s, false);
            &&& rest.len() <= s.len()
            &&& rest == s.skip(s.len() - rest.len())
            &&& match key {
                Some(key) => decode(s + more, false) == (rest + more, Some(key)),
                None => decode(rest + more, false) == decode(s + more, false),
            }
        }),
{
    let whole = s + more;
    assert(s.skip(0) =~= s);
    assert(whole.skip(0) =~= whole);
    assert(whole[0] == 27);
    lemma_starts_more(s, more, paste_start());
    if starts(s, paste_start()) {
        assert(paste_survives(s, more, 0));
        assert(!s.contains(3)) by {
            if s.contains(3) {
                let i = choose|i: int| 0 <= i < s.len() && s[i] == 3;
                assert(whole[i] == 3);
            }
        }
        assert(whole.skip(6) =~= s.skip(6) + more);
        lemma_first_at_more(s.skip(6), more, paste_end());
        lemma_first_at(s.skip(6), paste_end());
        match first_at(s.skip(6), paste_end()) {
            Some(end) => {
                assert(whole.subrange(6, 6 + end) =~= s.subrange(6, 6 + end));
                assert(whole.skip(12 + end) =~= s.skip(12 + end) + more);
            },
            None => {
                assert(s.len() <= PASTE_LIMIT);
            },
        }
    } else if let Some((n, key)) = sequence_key(s) {
        assert(!starts(whole, paste_start())) by {
            if starts(whole, paste_start()) {
                let head = whole.take(6);
                assert(head[1] == 91 && head[2] == 50);
                assert(whole[1] == 91 && whole[2] == 50);
            }
        }
        assert(whole.skip(n) =~= s.skip(n) + more);
    }
}

proof fn lemma_drained_with_more(s: Seq<u8>, more: Seq<u8>)
    requires
        pastes_survive(s, more),
    ensures
        ({
            let (rest, keys) = drained(s);
            let (left, further) = drained(rest + more);
            drained(s + more) == (left, keys + further)
        }),
    decreases s.len(),
{
    let (rest, key) = decode(s, false);
    lemma_decode_with_more(s, more);
    match key {
        Some(key) => {
            law_keys_use_up_bytes(s, false);
            let n = s.len() - rest.len();
            lemma_pastes_survive_after(s, more, n);
            lemma_drained_with_more(rest, more);
            let (last, keys) = drained(rest);
            let further = drained(last + more).1;
            assert(seq![key] + (keys + further) =~= (seq![key] + keys) + further);
        },
        None => {
            let further = drained(rest + more).1;
            assert(Seq::<KeyView>::empty() + further =~= further);
        },
    }
}

/// Bytes that come in two pieces give the same keys as all of them at once, and the
/// same bytes are left, where pasted text survives the cut between the pieces.
pub proof fn law_fragments_decode_as_one(s: Seq<u8>, more: Seq<u8>)
    requires
        pastes_survive(s, more),
    ensures
        drained(drained(s).0 + more).0 == drained(s + more).0,
        drained(s).1 + drained(drained(s).0 + more).1 == drained(s + more).1,
{
    lemma_drained_with_more(s, more);
}

/// Pasted text that stays survives every cut.
proof fn lemma_pastes_stay_before(s: Seq<u8>, more: Seq<u8>)
    requires
        pastes_stay(s + more),
    ensures
        pastes_stay(s),
        pastes_survive(s, more),
{
    let whole = s + more;
    assert forall|i: int| 0 <= i < s.len() && #[trigger] starts(
        s.skip(i),
        paste_start(),
    ) implies paste_stays(s, i) && paste_survives(s, more, i) by {
        let part = s.skip(i);
        assert(whole.skip(i) =~= part + more);
        lemma_starts_more(part, more, paste_start());
        assert(paste_stays(whole, i));
        if part.contains(3) {
            let j = choose|j: int| 0 <= j < part.len() && part[j] == 3;
            assert(whole.skip(i)[j] == 3);
        }
        assert((part + more).skip(6) =~= part.skip(6) + more);
        lemma_first_at_more(part.skip(6), more, paste_end());
    }
}

/// However bytes are cut into pieces, they give the same keys in the same order, and
/// the same bytes are left. Left out are bytes with an interrupt after the start of
/// pasted text, and pasted text beyond the limit, which a cut may change.
pub proof fn law_any_pieces_decode_as_one(pieces: Seq<Seq<u8>>)
    requires
        pastes_stay(all_bytes(pieces)),
    ensures
        drained_in_turn(pieces) == drained(all_bytes(pieces)),
    decreases pieces.len(),
{
    if pieces.len() > 0 {
        let before = pieces.drop_last();
        lemma_pastes_stay_before(all_bytes(before), pieces.last());
        law_any_pieces_decode_as_one(before);
        lemma_drained_with_more(all_bytes(before), pieces.last());
    }
}

/// However few enough bytes without an interrupt are cut into pieces, they give the
/// same keys in the same order, and the same bytes are left.
pub proof fn law_short_pieces_decode_as_one(pieces: Seq<Seq<u8>>)
    requires
        all_bytes(pieces).len() <= PASTE_LIMIT,
        !all_bytes(pieces).contains(3),
    ensures
        drained_in_turn(pieces) == drained(all_bytes(pieces)),
{
    let s = all_bytes(pieces);
    assert forall|i: int| 0 <= i < s.len() && #[trigger] starts(
        s.skip(i),
        paste_start(),
    ) implies paste_stays(s, i) by {
        if s.skip(i).contains(3) {
            let j = choose|j: int| 0 <= j < s.skip(i).len() && s.skip(i)[j] == 3;
            assert(s[i + j] == 3);
        }
        lemma_first_at(s.skip(i).skip(6), paste_end());
    }
    law_any_pieces_decode_as_one(pieces);
}

/// The arrows, Home, End and Delete are decoded from the sequences that terminals send for
/// them, whatever comes after.
pub proof fn law_cursor_keys_are_decoded(rest: Seq<u8>, expire: bool)
    ensures
        decode(seq![27u8, 91, 65] + rest, expire) == (rest, Some(KeyView::Up)),
        decode(seq![27u8, 91, 66] + rest, expire) == (rest, Some(KeyView::Down)),
        decode(seq![27u8, 91, 67] + rest, expire) == (rest, Some(KeyView::Right)),
        decode(seq![27u8, 91, 68] + rest, expire) == (rest, Some(KeyView::Left)),
        decode(seq![27u8, 91, 72] + rest, expire) == (rest, Some(KeyView::Home)),
        decode(seq![27u8, 91, 70] + rest, expire) == (rest, Some(KeyView::End)),
        decode(seq![27u8, 79, 65] + rest, expire) == (rest, Some(KeyView::Up)),
        decode(seq![27u8, 79, 66] + rest, expire) == (rest, Some(KeyView::Down)),
        decode(seq![27u8, 79, 72] + rest, expire) == (rest, Some(KeyView::Home)),
        decode(seq![27u8, 79, 70] + rest, expire) == (rest, Some(KeyView::End)),
        decode(seq![27u8, 91, 51, 126] + rest, expire) == (rest, Some(KeyView::Delete)),
{
    lemma_sequence(seq![27u8, 91, 65], rest, expire, KeyView::Up);
    lemma_sequence(seq![27u8, 91, 66], rest, expire, KeyView::Down);
    lemma_sequence(seq![27u8, 91, 67], rest, expire, KeyView::Right);
    lemma_sequence(seq![27u8, 91, 68], rest, expire, KeyView::Left);
    lemma_sequence(seq![27u8, 91, 72], rest, expire, KeyView::Home);
    lemma_sequence(seq![27u8, 91, 70], rest, expire, KeyView::End);
    lemma_sequence(seq![27u8, 79, 65], rest, expire, KeyView::Up);
    lemma_sequence(seq![27u8, 79, 66], rest, expire, KeyView::Down);
    lemma_sequence(seq![27u8, 79, 72], rest, expire, KeyView::Home);
    lemma_sequence(seq![27u8, 79, 70], rest, expire, KeyView::End);
    lemma_sequence(seq![27u8, 91, 51, 126], rest, expire, KeyView::Delete);
}

proof fn lemma_sequence(sequence: Seq<u8>, rest: Seq<u8>, expire: bool, key: KeyView)
    requires
        sequence.len() >= 3,
        sequence[0] == 27,
        sequence[2] != 50,
        sequence_key(sequence + rest) == Some((sequence.len() as int, key)),
    ensures
        decode(sequence + rest, expire) == (rest, Some(key)),
{
    let s = sequence + rest;
    if starts(s, paste_start()) {
        assert(s.take(6)[2] == paste_start()[2]);
        assert(s[2] == 50);
    }
    assert(s.skip(sequence.len() as int) =~= rest);
}

/// The keys that send a single byte: Enter, Tab and Backspace, control with A and E for the
/// ends of the line, and control with C and D to stop.
pub proof fn law_single_byte_keys_are_decoded(rest: Seq<u8>, expire: bool)
    ensures
        decode(seq![13u8] + rest, expire) == (rest, Some(KeyView::Enter)),
        decode(seq![10u8] + rest, expire) == (rest, Some(KeyView::Enter)),
        decode(seq![9u8] + rest, expire) == (rest, Some(KeyView::Tab)),
        decode(seq![127u8] + rest, expire) == (rest, Some(KeyView::Backspace)),
        decode(seq![8u8] + rest, expire) == (rest, Some(KeyView::Backspace)),
        decode(seq![1u8] + rest, expire) == (rest, Some(KeyView::Home)),
        decode(seq![5u8] + rest, expire) == (rest, Some(KeyView::End)),
        decode(seq![3u8] + rest, expire) == (rest, Some(KeyView::Interrupt)),
        decode(seq![4u8] + rest, expire) == (rest, Some(KeyView::Interrupt)),
{
    assert((seq![13u8] + rest).skip(1) =~= rest);
    assert((seq![10u8] + rest).skip(1) =~= rest);
    assert((seq![9u8] + rest).skip(1) =~= rest);
    assert((seq![127u8] + rest).skip(1) =~= rest);
    assert((seq![8u8] + rest).skip(1) =~= rest);
    assert((seq![1u8] + rest).skip(1) =~= rest);
    assert((seq![5u8] + rest).skip(1) =~= rest);
    assert((seq![3u8] + rest).skip(1) =~= rest);
    assert((seq![4u8] + rest).skip(1) =~= rest);
}

/// Every character but the control characters is decoded from its encoding, whatever comes
/// after.
pub proof fn law_characters_are_decoded(c: char, rest: Seq<u8>, expire: bool)
    requires
        c as u32 >= 32,
        c as u32 != 127,
    ensures
        decode(utf8::encode_utf8(seq![c]) + rest, expire) == (rest, Some(KeyView::Char(c))),
{
    let one = seq![c];
    let bytes = utf8::encode_utf8(one);
    let s = bytes + rest;
    utf8::encode_utf8_first_scalar(one);
    utf8::encode_utf8_valid_utf8(one);
    utf8::encode_utf8_decode_utf8(one);
    utf8::char_is_scalar(c);
    let u = c as u32;
    assert(one.drop_first() =~= Seq::<char>::empty());
    assert(utf8::encode_utf8(Seq::<char>::empty()) =~= Seq::<u8>::empty());
    assert(bytes =~= utf8::encode_scalar(u));
    utf8::utf8_byte_ranges_bitwise(bytes[0]);
    if utf8::has_width_1_encoding(u) {
        assert(u < 128 ==> (u & 0x7F) as u8 == u) by (bit_vector);
        assert(bytes[0] == u);
    }
    let n = char_width(s[0]);
    assert(n == bytes.len());
    assert(s.take(n) =~= bytes);
    assert(s.skip(n) =~= rest);
}

/// An escape character alone is kept while more may follow, and is the escape key once
/// nothing does.
pub proof fn law_escape_waits_for_more()
    ensures
        decode(seq![27u8], false) == (seq![27u8], None::<KeyView>),
        decode(seq![27u8], true) == (Seq::<u8>::empty(), Some(KeyView::Escape)),
{
    assert(seq![27u8].skip(1) =~= Seq::<u8>::empty());
}

/// Text that is pasted is one key, which stands for exactly the bytes between its marks,
/// where neither an escape character nor an interrupt is among them.
pub proof fn law_pasted_bytes_are_one_key(part: Seq<u8>, rest: Seq<u8>, expire: bool)
    requires
        !part.contains(27),
        !part.contains(3),
        !rest.contains(3),
    ensures
        decode(
            seq![27u8, 91, 50, 48, 48, 126] + part + seq![27u8, 91, 50, 48, 49, 126] + rest,
            expire,
        ) == (rest, Some(KeyView::Paste(lossy_text(part)))),
{
    let start = seq![27u8, 91, 50, 48, 48, 126];
    let end = seq![27u8, 91, 50, 48, 49, 126];
    let s = start + part + end + rest;
    assert(s.take(6) =~= start);
    assert(!s.contains(3)) by {
        if s.contains(3) {
            let i = choose|i: int| 0 <= i < s.len() && s[i] == 3;
            if 6 <= i < 6 + part.len() {
                assert(part[i - 6] == 3);
            } else if i >= 12 + part.len() {
                assert(rest[i - 12 - part.len()] == 3);
            }
        }
    }
    assert(s.skip(6) =~= part + (end + rest));
    assert((end + rest).take(6) =~= end);
    lemma_found_after(part, end + rest);
    assert(s.subrange(6, 6 + part.len() as int) =~= part);
    assert(s.skip(12 + part.len() as int) =~= rest);
}

proof fn lemma_found_after(part: Seq<u8>, after: Seq<u8>)
    requires
        !part.contains(27),
        starts(after, paste_end()),
    ensures
        first_at(part + after, paste_end()) == Some(part.len() as int),
    decreases part.len(),
{
    let s = part + after;
    if part.len() == 0 {
        assert(s =~= after);
    } else {
        assert(part[0] != 27);
        if starts(s, paste_end()) {
            assert(s.take(6)[0] == paste_end()[0]);
        }
        let less = part.drop_first();
        assert(s.skip(1) =~= less + after);
        assert(!less.contains(27)) by {
            if less.contains(27) {
                let i = choose|i: int| 0 <= i < less.len() && less[i] == 27;
                assert(part[i + 1] == 27);
            }
        }
        lemma_found_after(less, after);
    }
}

} // verus!
