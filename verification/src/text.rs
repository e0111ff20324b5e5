//! Text as sequences of characters: trimming, splitting, searching, and decimal
//! numbers.
use vstd::prelude::*;
use vstd::string::*;

verus! {

/// `String::push` of std: the character is appended.
pub assume_specification[ String::push ](s: &mut String, c: char)
    ensures
        final(s)@ == old(s)@.push(c),
;

/// The characters of `s`.
pub fn chars_of(s: &str) -> (r: Vec<char>)
    ensures
        r@ == s@,
{
    let mut out: Vec<char> = Vec::new();
    for c in it: s.chars()
        invariant
            out@ == s@.take(it.index() as int),
            it.seq() == s@,
    {
        proof {
            assert(s@.take(it.index() + 1) =~= s@.take(it.index() as int).push(c));
        }
        out.push(c);
    }
    assert(s@.take(s@.len() as int) =~= s@);
    out
}

/// A string of these characters.
pub fn text_of(chars: &[char]) -> (r: String)
    ensures
        r@ == chars@,
{
    let mut out: String = String::new();
    let mut i: usize = 0;
    while i < chars.len()
        invariant
            i <= chars@.len(),
            out@ == chars@.take(i as int),
        decreases chars@.len() - i,
    {
        proof {
            assert(chars@.take(i + 1) =~= chars@.take(i as int).push(chars@[i as int]));
        }
        out.push(chars[i]);
        i = i + 1;
    }
    assert(chars@.take(i as int) =~= chars@);
    out
}

/// A copy of `s`.
pub fn text(s: &str) -> (r: String)
    ensures
        r@ == s@,
{
    let mut out: String = String::new();
    out.append(s);
    assert(out@ =~= s@);
    out
}

/// Whether two strings hold the same characters.
pub fn same(a: &str, b: &str) -> (r: bool)
    ensures
        r == (a@ == b@),
{
    same_chars(chars_of(a).as_slice(), chars_of(b).as_slice())
}

pub fn same_chars(a: &[char], b: &[char]) -> (r: bool)
    ensures
        r == (a@ == b@),
{
    if a.len() != b.len() {
        return false;
    }
    let mut i: usize = 0;
    while i < a.len()
        invariant
            a@.len() == b@.len(),
            i <= a@.len(),
            forall|j: int| 0 <= j < i ==> a@[j] == b@[j],
        decreases a@.len() - i,
    {
        if a[i] != b[i] {
            return false;
        }
        i = i + 1;
    }
    assert(a@ =~= b@);
    true
}

/// The characters of Unicode's property White_Space.
pub open spec fn is_space(c: char) -> bool {
    let u = c as u32;
    ||| 0x9 <= u <= 0xd
    ||| u == 0x20
    ||| u == 0x85
    ||| u == 0xa0
    ||| u == 0x1680
    ||| 0x2000 <= u <= 0x200a
    ||| u == 0x2028
    ||| u == 0x2029
    ||| u == 0x202f
    ||| u == 0x205f
    ||| u == 0x3000
}

pub fn space(c: char) -> (r: bool)
    ensures
        r == is_space(c),
{
    let u: u32 = c as u32;
    (0x9 <= u && u <= 0xd) || u == 0x20 || u == 0x85 || u == 0xa0 || u == 0x1680 || (0x2000 <= u && u
        <= 0x200a) || u == 0x2028 || u == 0x2029 || u == 0x202f || u == 0x205f || u == 0x3000
}

/// The characters of Unicode's general category Cc.
pub open spec fn is_control(c: char) -> bool {
    c as u32 <= 0x1f || 0x7f <= c as u32 <= 0x9f
}

pub fn control(c: char) -> (r: bool)
    ensures
        r == is_control(c),
{
    let u: u32 = c as u32;
    u <= 0x1f || (0x7f <= u && u <= 0x9f)
}

/// An ASCII character that is not a control character.
pub open spec fn is_printable(c: char) -> bool {
    0x20 <= c as u32 <= 0x7e
}

pub fn printable(c: char) -> (r: bool)
    ensures
        r == is_printable(c),
{
    let u: u32 = c as u32;
    0x20 <= u && u <= 0x7e
}

pub open spec fn is_digit(c: char) -> bool {
    '0' <= c <= '9'
}

/// `s` without its leading white space.
pub open spec fn trimmed_start(s: Seq<char>) -> Seq<char>
    decreases s.len(),
{
    if s.len() > 0 && is_space(s[0]) {
        trimmed_start(s.drop_first())
    } else {
        s
    }
}

/// `s` without its trailing white space.
pub open spec fn trimmed_end(s: Seq<char>) -> Seq<char>
    decreases s.len(),
{
    if s.len() > 0 && is_space(s.last()) {
        trimmed_end(s.drop_last())
    } else {
        s
    }
}

pub open spec fn trimmed(s: Seq<char>) -> Seq<char> {
    trimmed_end(trimmed_start(s))
}

/// `s` without white space at its ends.
pub fn trim(s: &[char]) -> (r: &[char])
    ensures
        r@ == trimmed(s@),
        r@.len() <= s@.len(),
{
    let len: usize = s.len();
    let mut from: usize = 0;
    assert(s@.skip(0) =~= s@);
    while from < len && space(s[from])
        invariant
            from <= len,
            len == s@.len(),
            trimmed_start(s@) == trimmed_start(s@.skip(from as int)),
        decreases len - from,
    {
        proof {
            assert(s@.skip(from as int).drop_first() =~= s@.skip(from + 1));
        }
        from = from + 1;
    }
    let ghost rest = s@.skip(from as int);
    assert(trimmed_start(s@) == rest);
    let mut to: usize = len;
    assert(s@.subrange(from as int, to as int) =~= rest);
    while to > from && space(s[to - 1])
        invariant
            from <= to <= len,
            len == s@.len(),
            trimmed_end(rest) == trimmed_end(s@.subrange(from as int, to as int)),
        decreases to,
    {
        proof {
            assert(s@.subrange(from as int, to as int).drop_last() =~= s@.subrange(
                from as int,
                to - 1,
            ));
        }
        to = to - 1;
    }
    vstd::slice::slice_subrange(s, from, to)
}

/// The trimmed characters of `s`, owned.
pub fn trimmed_chars(s: &str) -> (r: Vec<char>)
    ensures
        r@ == trimmed(s@),
{
    let all: Vec<char> = chars_of(s);
    let cut: &[char] = trim(all.as_slice());
    copied(cut)
}

pub fn copied(s: &[char]) -> (r: Vec<char>)
    ensures
        r@ == s@,
{
    let mut out: Vec<char> = Vec::new();
    let mut i: usize = 0;
    while i < s.len()
        invariant
            i <= s@.len(),
            out@ =~= s@.take(i as int),
        decreases s@.len() - i,
    {
        out.push(s[i]);
        i = i + 1;
    }
    assert(out@ =~= s@);
    out
}

/// The pieces of `s` between the occurrences of `c`; without any, `s` itself.
pub open spec fn pieces(s: Seq<char>, c: char) -> Seq<Seq<char>>
    decreases s.len(),
{
    if s.len() == 0 {
        seq![seq![]]
    } else {
        let before = pieces(s.drop_last(), c);
        if s.last() == c {
            before.push(seq![])
        } else {
            before.drop_last().push(before.last().push(s.last()))
        }
    }
}

proof fn lemma_pieces_some(s: Seq<char>, c: char)
    ensures
        pieces(s, c).len() > 0,
    decreases s.len(),
{
    if s.len() > 0 {
        lemma_pieces_some(s.drop_last(), c);
    }
}

/// The characters of each piece.
pub open spec fn each(v: Seq<Vec<char>>) -> Seq<Seq<char>> {
    v.map_values(|piece: Vec<char>| piece@)
}

/// The pieces of `s` between the occurrences of `c`.
pub fn split(s: &[char], c: char) -> (r: Vec<Vec<char>>)
    ensures
        each(r@) == pieces(s@, c),
        r@.len() > 0,
{
    let mut out: Vec<Vec<char>> = Vec::new();
    let mut current: Vec<char> = Vec::new();
    let mut i: usize = 0;
    assert(each(out@).push(current@) =~= pieces(s@.take(0), c));
    while i < s.len()
        invariant
            i <= s@.len(),
            each(out@).push(current@) =~= pieces(s@.take(i as int), c),
        decreases s@.len() - i,
    {
        let ghost before = s@.take(i as int);
        let ghost done = each(out@);
        let ghost open = current@;
        proof {
            lemma_pieces_some(before, c);
            assert(s@.take(i + 1).drop_last() =~= before);
            assert(pieces(before, c).drop_last() =~= done);
            assert(pieces(before, c).last() == open);
        }
        if s[i] == c {
            out.push(current);
            current = Vec::new();
            proof {
                assert(each(out@) =~= done.push(open));
                assert(current@ =~= seq![]);
            }
        } else {
            current.push(s[i]);
        }
        i = i + 1;
    }
    assert(s@.take(i as int) =~= s@);
    out.push(current);
    assert(each(out@) =~= pieces(s@, c));
    out
}

/// The words of `s`: its longest runs without white space.
pub open spec fn words(s: Seq<char>) -> Seq<Seq<char>>
    decreases s.len(),
{
    if s.len() == 0 {
        seq![]
    } else if is_space(s.last()) {
        words(s.drop_last())
    } else if s.len() == 1 || is_space(s[s.len() - 2]) {
        words(s.drop_last()).push(seq![s.last()])
    } else {
        let before = words(s.drop_last());
        before.drop_last().push(before.last().push(s.last()))
    }
}

pub fn split_words(s: &[char]) -> (r: Vec<Vec<char>>)
    ensures
        each(r@) == words(s@),
{
    let mut out: Vec<Vec<char>> = Vec::new();
    let mut current: Vec<char> = Vec::new();
    let mut i: usize = 0;
    assert(each(out@) =~= words(s@.take(0)));
    while i < s.len()
        invariant
            i <= s@.len(),
            current@.len() == 0 ==> (i == 0 || is_space(s@[i - 1])) && each(out@) =~= words(
                s@.take(i as int),
            ),
            current@.len() > 0 ==> i > 0 && !is_space(s@[i - 1]) && each(out@).push(current@)
                =~= words(s@.take(i as int)),
        decreases s@.len() - i,
    {
        let ghost before = s@.take(i as int);
        let ghost done = each(out@);
        let ghost open = current@;
        proof {
            assert(s@.take(i + 1).drop_last() =~= before);
            if open.len() > 0 {
                assert(words(before).drop_last() =~= done);
                assert(words(before).last() == open);
                assert(s@.take(i + 1)[i - 1] == s@[i - 1]);
            } else if i > 0 {
                assert(s@.take(i + 1)[i - 1] == s@[i - 1]);
            }
        }
        if space(s[i]) {
            if current.len() > 0 {
                out.push(current);
                current = Vec::new();
                assert(each(out@) =~= done.push(open));
            }
        } else {
            current.push(s[i]);
            assert(open.len() == 0 ==> current@ =~= seq![s@[i as int]]);
        }
        i = i + 1;
    }
    assert(s@.take(i as int) =~= s@);
    if current.len() > 0 {
        let ghost done = each(out@);
        let ghost open = current@;
        out.push(current);
        assert(each(out@) =~= done.push(open));
    }
    out
}

/// Whether `s` begins with `prefix`.
pub open spec fn begins(s: Seq<char>, prefix: Seq<char>) -> bool {
    prefix.len() <= s.len() && s.take(prefix.len() as int) == prefix
}

pub fn starts_with(s: &[char], prefix: &[char]) -> (r: bool)
    ensures
        r == begins(s@, prefix@),
{
    if prefix.len() > s.len() {
        return false;
    }
    let head: &[char] = vstd::slice::slice_subrange(s, 0, prefix.len());
    assert(head@ =~= s@.take(prefix@.len() as int));
    same_chars(head, prefix)
}

/// Whether `part` occurs in `s`.
pub open spec fn occurs(s: Seq<char>, part: Seq<char>) -> bool {
    exists|i: int| 0 <= i <= s.len() && begins(#[trigger] s.skip(i), part)
}

pub fn contains(s: &[char], part: &[char]) -> (r: bool)
    ensures
        r == occurs(s@, part@),
{
    let len: usize = s.len();
    let mut i: usize = 0;
    while i < len
        invariant
            i <= len,
            len == s@.len(),
            forall|j: int| 0 <= j < i ==> !begins(#[trigger] s@.skip(j), part@),
        decreases len - i,
    {
        let rest: &[char] = vstd::slice::slice_subrange(s, i, len);
        assert(rest@ =~= s@.skip(i as int));
        if starts_with(rest, part) {
            return true;
        }
        i = i + 1;
    }
    let rest: &[char] = vstd::slice::slice_subrange(s, len, len);
    assert(rest@ =~= s@.skip(len as int));
    starts_with(rest, part)
}

/// Whether `c` occurs in `s`.
pub fn has(s: &[char], c: char) -> (r: bool)
    ensures
        r == s@.contains(c),
{
    let mut i: usize = 0;
    while i < s.len()
        invariant
            i <= s@.len(),
            forall|j: int| 0 <= j < i ==> s@[j] != c,
        decreases s@.len() - i,
    {
        if s[i] == c {
            assert(s@[i as int] == c);
            return true;
        }
        i = i + 1;
    }
    false
}

/// An ASCII letter in lower case, another character as it is.
pub open spec fn lower(c: char) -> char {
    if 'A' <= c <= 'Z' {
        (c as u32 + 32) as char
    } else {
        c
    }
}

pub open spec fn lowered(s: Seq<char>) -> Seq<char> {
    s.map_values(|c: char| lower(c))
}

pub fn to_lower(s: &[char]) -> (r: Vec<char>)
    ensures
        r@ == lowered(s@),
{
    let mut out: Vec<char> = Vec::new();
    let mut i: usize = 0;
    while i < s.len()
        invariant
            i <= s@.len(),
            out@ =~= lowered(s@.take(i as int)),
        decreases s@.len() - i,
    {
        let c: char = s[i];
        if 'A' <= c && c <= 'Z' {
            out.push((c as u8 + 32) as char);
        } else {
            out.push(c);
        }
        i = i + 1;
    }
    assert(s@.take(i as int) =~= s@);
    out
}

/// `s` with every `from` written as `to`.
pub open spec fn replaced(s: Seq<char>, from: char, to: char) -> Seq<char> {
    s.map_values(
        |c: char|
            if c == from {
                to
            } else {
                c
            },
    )
}

pub fn replace(s: &[char], from: char, to: char) -> (r: Vec<char>)
    ensures
        r@ == replaced(s@, from, to),
{
    let mut out: Vec<char> = Vec::new();
    let mut i: usize = 0;
    while i < s.len()
        invariant
            i <= s@.len(),
            out@ =~= replaced(s@.take(i as int), from, to),
        decreases s@.len() - i,
    {
        if s[i] == from {
            out.push(to);
        } else {
            out.push(s[i]);
        }
        i = i + 1;
    }
    assert(s@.take(i as int) =~= s@);
    out
}

/// The decimal digit of a number below ten.
pub open spec fn digit(d: nat) -> char {
    (48 + d) as char
}

/// A number in decimal, without leading zeros.
pub open spec fn decimal(n: nat) -> Seq<char>
    decreases n,
{
    if n < 10 {
        seq![digit(n)]
    } else {
        decimal(n / 10).push(digit(n % 10))
    }
}

/// A number in decimal.
pub fn decimal_text(n: u64) -> (r: String)
    ensures
        r@ == decimal(n as nat),
    decreases n,
{
    if n < 10 {
        let mut out: String = String::new();
        out.push((48u8 + n as u8) as char);
        assert(out@ =~= decimal(n as nat));
        out
    } else {
        let mut out: String = decimal_text(n / 10);
        out.push((48u8 + (n % 10) as u8) as char);
        out
    }
}

pub open spec fn all_digits(s: Seq<char>) -> bool {
    forall|i: int| 0 <= i < s.len() ==> is_digit(#[trigger] s[i])
}

/// The number that a run of decimal digits stands for.
pub open spec fn number(s: Seq<char>) -> nat
    decreases s.len(),
{
    if s.len() == 0 {
        0
    } else {
        10 * number(s.drop_last()) + (s.last() as nat - 48) as nat
    }
}

/// The number that `s` stands for, where it is made of digits, at least one, and
/// does not exceed `most`.
pub open spec fn parsed(s: Seq<char>, most: nat) -> Option<nat> {
    if s.len() > 0 && all_digits(s) && number(s) <= most {
        Some(number(s))
    } else {
        None
    }
}

pub fn parse(s: &[char], most: u64) -> (r: Option<u64>)
    requires
        most < 0x1000_0000_0000_0000,
    ensures
        match r {
            Some(n) => parsed(s@, most as nat) == Some(n as nat),
            None => parsed(s@, most as nat) is None,
        },
{
    if s.len() == 0 {
        return None;
    }
    let mut total: u64 = 0;
    let mut i: usize = 0;
    let mut over: bool = false;
    while i < s.len()
        invariant
            i <= s@.len(),
            most < 0x1000_0000_0000_0000,
            forall|j: int| 0 <= j < i ==> is_digit(#[trigger] s@[j]),
            over ==> number(s@.take(i as int)) > most,
            !over ==> total == number(s@.take(i as int)) && total <= most,
        decreases s@.len() - i,
    {
        let c: char = s[i];
        if c < '0' || c > '9' {
            assert(!is_digit(s@[i as int]));
            return None;
        }
        proof {
            assert(s@.take(i + 1).drop_last() =~= s@.take(i as int));
        }
        if !over {
            total = total * 10 + (c as u64 - 48);
            if total > most {
                over = true;
                total = 0;
            }
        }
        i = i + 1;
    }
    assert(s@.take(i as int) =~= s@);
    if over {
        None
    } else {
        Some(total)
    }
}

proof fn lemma_decimal(n: nat)
    ensures
        decimal(n).len() > 0,
        all_digits(decimal(n)),
        number(decimal(n)) == n,
    decreases n,
{
    if n < 10 {
        assert(decimal(n).drop_last() =~= seq![]);
        assert(number(decimal(n).drop_last()) == 0);
        assert(decimal(n).last() == digit(n));
    } else {
        lemma_decimal(n / 10);
        let s = decimal(n);
        assert(s.drop_last() =~= decimal(n / 10));
        assert forall|i: int| 0 <= i < s.len() implies is_digit(#[trigger] s[i]) by {
            if i < s.len() - 1 {
                assert(is_digit(decimal(n / 10)[i]));
            }
        }
    }
}

/// A number reads back from its decimal form.
pub proof fn law_decimal_reads_back(n: nat, most: nat)
    requires
        n <= most,
    ensures
        parsed(decimal(n), most) == Some(n),
{
    lemma_decimal(n);
}

/// Text without the separator is one piece.
pub proof fn lemma_one_piece(s: Seq<char>, c: char)
    requires
        !s.contains(c),
    ensures
        pieces(s, c) == seq![s],
    decreases s.len(),
{
    if s.len() == 0 {
        assert(s =~= seq![]);
        assert(pieces(s, c) =~= seq![s]);
    } else {
        assert(s.last() == s[s.len() - 1]);
        assert(!s.drop_last().contains(c)) by {
            if s.drop_last().contains(c) {
                let i = choose|i: int| 0 <= i < s.drop_last().len() && s.drop_last()[i] == c;
                assert(s[i] == c);
            }
        }
        lemma_one_piece(s.drop_last(), c);
        assert(s.drop_last().push(s.last()) =~= s);
        assert(pieces(s, c) =~= seq![s]);
    }
}

/// What follows the last separator is the last piece.
pub proof fn lemma_last_piece(x: Seq<char>, c: char, y: Seq<char>)
    requires
        !y.contains(c),
    ensures
        pieces(x + seq![c] + y, c) == pieces(x, c).push(y),
    decreases y.len(),
{
    let s = x + seq![c] + y;
    lemma_pieces_some(x, c);
    if y.len() == 0 {
        assert(s.drop_last() =~= x);
        assert(s.last() == c);
        assert(y =~= seq![]);
    } else {
        assert(s.last() == y.last());
        assert(y[y.len() - 1] == y.last());
        assert(!y.drop_last().contains(c)) by {
            if y.drop_last().contains(c) {
                let i = choose|i: int| 0 <= i < y.drop_last().len() && y.drop_last()[i] == c;
                assert(y[i] == c);
            }
        }
        lemma_last_piece(x, c, y.drop_last());
        assert(s.drop_last() =~= x + seq![c] + y.drop_last());
        assert(y.drop_last().push(y.last()) =~= y);
        assert(pieces(s, c) =~= pieces(x, c).push(y));
    }
}

/// A decimal number begins with a zero only where it is zero, and its length
/// grows with it.
pub proof fn lemma_decimal_shape(n: nat)
    ensures
        decimal(n).len() > 0,
        all_digits(decimal(n)),
        number(decimal(n)) == n,
        n > 0 ==> decimal(n)[0] != '0',
        n < 10 ==> decimal(n).len() == 1,
        n >= 10 ==> decimal(n).len() == decimal(n / 10).len() + 1,
    decreases n,
{
    lemma_decimal(n);
    if n >= 10 {
        lemma_decimal_shape(n / 10);
        assert(decimal(n)[0] == decimal(n / 10)[0]);
    }
}

/// Digits without a leading zero are the decimal form of their number.
pub proof fn lemma_decimal_of_number(s: Seq<char>)
    requires
        s.len() > 0,
        all_digits(s),
        s.len() > 1 ==> s[0] != '0',
    ensures
        decimal(number(s)) == s,
        s.len() > 1 ==> number(s) >= 10,
    decreases s.len(),
{
    let d = (s.last() as nat - 48) as nat;
    assert(is_digit(s[s.len() - 1]));
    if s.len() == 1 {
        assert(number(s.drop_last()) == 0);
        assert(decimal(d) =~= s);
    } else {
        let before = s.drop_last();
        assert forall|i: int| 0 <= i < before.len() implies is_digit(#[trigger] before[i]) by {
            assert(is_digit(s[i]));
        }
        lemma_decimal_of_number(before);
        assert(number(before) > 0) by {
            if before.len() == 1 {
                assert(before[0] == s[0]);
                assert(is_digit(s[0]));
                assert(number(before.drop_last()) == 0);
                assert(number(before) == (before[0] as nat - 48) as nat);
            }
        }
        assert(number(s) == 10 * number(before) + d);
        assert(number(s) / 10 == number(before));
        assert(number(s) % 10 == d);
        assert(decimal(number(s)) =~= s);
    }
}

/// Text without white space has nothing to trim.
pub proof fn lemma_nothing_to_trim(s: Seq<char>)
    requires
        forall|i: int| 0 <= i < s.len() ==> !is_space(#[trigger] s[i]),
    ensures
        trimmed(s) == s,
{
    if s.len() > 0 {
        assert(!is_space(s[0]));
        assert(!is_space(s[s.len() - 1]));
    }
}

/// Trimming takes away white space at both ends and nothing else: what is left neither
/// begins nor ends with it, and stands in the text between nothing but white space.
pub proof fn law_trimming_takes_only_spaces(s: Seq<char>)
    ensures
        ({
            let t = trimmed(s);
            &&& t.len() > 0 ==> !is_space(t[0]) && !is_space(t.last())
            &&& exists|a: int|
                #![trigger s.subrange(a, a + t.len())]
                {
                    &&& 0 <= a && a + t.len() <= s.len()
                    &&& s.subrange(a, a + t.len()) == t
                    &&& forall|i: int| 0 <= i < a ==> is_space(#[trigger] s[i])
                    &&& forall|i: int| a + t.len() <= i < s.len() ==> is_space(#[trigger] s[i])
                }
        }),
{
    let front = trimmed_start(s);
    lemma_trimmed_front(s);
    lemma_trimmed_back(front);
    let t = trimmed(s);
    let a = s.len() - front.len();
    assert(s.subrange(a, a + t.len()) =~= t) by {
        assert forall|i: int| 0 <= i < t.len() implies s[a + i] == t[i] by {
            assert(t[i] == front[i]);
            assert(front[i] == s[a + i]);
        }
    }
    assert forall|i: int| a + t.len() <= i < s.len() implies is_space(#[trigger] s[i]) by {
        assert(front[i - a] == s[i]);
    }
    if t.len() > 0 {
        assert(t[0] == front[0]);
    }
}

proof fn lemma_trimmed_front(s: Seq<char>)
    ensures
        ({
            let t = trimmed_start(s);
            &&& t.len() <= s.len()
            &&& t == s.skip(s.len() - t.len())
            &&& t.len() > 0 ==> !is_space(t[0])
            &&& forall|i: int| 0 <= i < s.len() - t.len() ==> is_space(#[trigger] s[i])
        }),
    decreases s.len(),
{
    let t = trimmed_start(s);
    if s.len() > 0 && is_space(s[0]) {
        let rest = s.drop_first();
        lemma_trimmed_front(rest);
        assert(rest.skip(rest.len() - t.len()) =~= s.skip(s.len() - t.len()));
        assert forall|i: int| 0 <= i < s.len() - t.len() implies is_space(#[trigger] s[i]) by {
            if i > 0 {
                assert(rest[i - 1] == s[i]);
            }
        }
    } else {
        assert(s.skip(0) =~= s);
    }
}

proof fn lemma_trimmed_back(s: Seq<char>)
    ensures
        ({
            let t = trimmed_end(s);
            &&& t.len() <= s.len()
            &&& t == s.take(t.len() as int)
            &&& t.len() > 0 ==> !is_space(t.last())
            &&& forall|i: int| t.len() <= i < s.len() ==> is_space(#[trigger] s[i])
        }),
    decreases s.len(),
{
    let t = trimmed_end(s);
    if s.len() > 0 && is_space(s.last()) {
        let rest = s.drop_last();
        lemma_trimmed_back(rest);
        assert(rest.take(t.len() as int) =~= s.take(t.len() as int));
        assert forall|i: int| t.len() <= i < s.len() implies is_space(#[trigger] s[i]) by {
            if i < rest.len() {
                assert(rest[i] == s[i]);
            }
        }
    } else {
        assert(s.take(s.len() as int) =~= s);
    }
}

/// Numbers are read in base ten: one digit more makes ten times the number and the digit.
/// A number that is too large is not read, nor is text that holds anything but digits, nor
/// no text at all.
pub proof fn law_numbers_are_read_in_base_ten(s: Seq<char>, c: char, most: nat)
    requires
        48 <= c as u32 <= 57,
    ensures
        parsed(s, most) matches Some(n) ==> parsed(s.push(c), most) == (if 10 * n + (c as u32 - 48)
            <= most {
            Some((10 * n + (c as u32 - 48)) as nat)
        } else {
            None::<nat>
        }),
        parsed(seq![c], most) == (if c as u32 - 48 <= most {
            Some((c as u32 - 48) as nat)
        } else {
            None::<nat>
        }),
        parsed(s, most) matches Some(n) ==> n <= most && s.len() > 0,
        forall|i: int|
            0 <= i < s.len() && !(48 <= #[trigger] s[i] as u32 <= 57) ==> parsed(s, most) is None,
{
    let t = s.push(c);
    assert(is_digit(c));
    assert(t.drop_last() =~= s);
    assert(t.last() == c);
    if all_digits(s) {
        assert forall|i: int| 0 <= i < t.len() implies is_digit(#[trigger] t[i]) by {
            if i < s.len() {
                assert(is_digit(s[i]));
            }
        }
    }
    let one = seq![c];
    assert(one.drop_last() =~= Seq::<char>::empty());
    assert(number(Seq::<char>::empty()) == 0);
    assert(one.last() == c);
    assert forall|i: int|
        0 <= i < s.len() && !(48 <= #[trigger] s[i] as u32 <= 57) implies parsed(s, most) is None by {
        assert(!is_digit(s[i]));
    }
}

/// A run without white space that follows white space, or nothing, is one word more.
pub proof fn lemma_one_word_more(s: Seq<char>, word: Seq<char>)
    requires
        s.len() == 0 || is_space(s.last()),
        word.len() > 0,
        forall|i: int| 0 <= i < word.len() ==> !is_space(#[trigger] word[i]),
    ensures
        words(s + word) == words(s).push(word),
    decreases word.len(),
{
    let t = s + word;
    let less = word.drop_last();
    assert(t.drop_last() =~= s + less);
    assert(t.last() == word.last());
    assert(!is_space(word[word.len() - 1]));
    if less.len() == 0 {
        assert(s + less =~= s);
        assert(word =~= seq![word.last()]);
        if s.len() > 0 {
            assert(t[t.len() - 2] == s.last());
        }
    } else {
        assert forall|i: int| 0 <= i < less.len() implies !is_space(#[trigger] less[i]) by {
            assert(less[i] == word[i]);
        }
        lemma_one_word_more(s, less);
        assert(t[t.len() - 2] == less.last());
        assert(!is_space(less[less.len() - 1]));
        let before = words(s + less);
        assert(before.drop_last() =~= words(s));
        assert(before.last() == less);
        assert(less.push(word.last()) =~= word);
    }
}

/// White space at the end makes no word.
pub proof fn lemma_no_word_more(s: Seq<char>, gap: Seq<char>)
    requires
        forall|i: int| 0 <= i < gap.len() ==> is_space(#[trigger] gap[i]),
    ensures
        words(s + gap) == words(s),
    decreases gap.len(),
{
    if gap.len() == 0 {
        assert(s + gap =~= s);
    } else {
        let less = gap.drop_last();
        assert((s + gap).drop_last() =~= s + less);
        assert((s + gap).last() == gap.last());
        assert(is_space(gap[gap.len() - 1]));
        assert forall|i: int| 0 <= i < less.len() implies is_space(#[trigger] less[i]) by {
            assert(less[i] == gap[i]);
        }
        lemma_no_word_more(s, less);
    }
}

} // verus!
