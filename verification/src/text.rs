//! Text as sequences of characters: the few string operations that the other
//! modules need, each with an exact contract.

use vstd::prelude::*;

verus! {

/// `String::push` appends one character to the end of the string.
pub assume_specification[ String::push ](s: &mut String, c: char)
    ensures
        final(s)@ == old(s)@.push(c),
;

/// The characters of each string of a list.
pub open spec fn texts(list: Seq<String>) -> Seq<Seq<char>> {
    list.map_values(|s: String| s@)
}

/// The characters that carry the Unicode property `White_Space`.
pub open spec fn is_white_space(c: char) -> bool {
    let n = c as u32;
    ||| 0x9 <= n <= 0xd
    ||| n == 0x20
    ||| n == 0x85
    ||| n == 0xa0
    ||| n == 0x1680
    ||| 0x2000 <= n <= 0x200a
    ||| n == 0x2028
    ||| n == 0x2029
    ||| n == 0x202f
    ||| n == 0x205f
    ||| n == 0x3000
}

/// A text that holds nothing but white space.
pub open spec fn is_blank(s: Seq<char>) -> bool {
    forall|i: int| 0 <= i < s.len() ==> is_white_space(#[trigger] s[i])
}

/// `s` without the white space at its start.
pub open spec fn trim_start(s: Seq<char>) -> Seq<char>
    decreases s.len(),
{
    if s.len() > 0 && is_white_space(s.first()) {
        trim_start(s.drop_first())
    } else {
        s
    }
}

/// `s` without the white space at its end.
pub open spec fn trim_end(s: Seq<char>) -> Seq<char>
    decreases s.len(),
{
    if s.len() > 0 && is_white_space(s.last()) {
        trim_end(s.drop_last())
    } else {
        s
    }
}

/// `s` without the white space at both ends.
pub open spec fn trimmed(s: Seq<char>) -> Seq<char> {
    trim_end(trim_start(s))
}

/// `s` without the run of `c` at its end.
pub open spec fn without_trailing(s: Seq<char>, c: char) -> Seq<char>
    decreases s.len(),
{
    if s.len() > 0 && s.last() == c {
        without_trailing(s.drop_last(), c)
    } else {
        s
    }
}

/// The pieces of `s` between the occurrences of `sep`: one more piece than
/// there are separators, so an empty text is one empty piece.
pub open spec fn pieces(s: Seq<char>, sep: char) -> Seq<Seq<char>>
    decreases s.len(),
{
    if s.len() == 0 {
        seq![Seq::<char>::empty()]
    } else {
        let before = pieces(s.drop_last(), sep);
        if s.last() == sep {
            before.push(Seq::<char>::empty())
        } else {
            before.drop_last().push(before.last().push(s.last()))
        }
    }
}

/// The parts in order, with `sep` between neighbours.
pub open spec fn joined(parts: Seq<Seq<char>>, sep: Seq<char>) -> Seq<char>
    decreases parts.len(),
{
    if parts.len() == 0 {
        Seq::<char>::empty()
    } else if parts.len() == 1 {
        parts[0]
    } else {
        joined(parts.drop_last(), sep) + sep + parts.last()
    }
}

/// Lexicographic order by code point, which for UTF-8 is also the order of the bytes.
pub open spec fn precedes(a: Seq<char>, b: Seq<char>) -> bool
    decreases a.len(),
{
    if b.len() == 0 {
        false
    } else if a.len() == 0 {
        true
    } else if a.first() != b.first() {
        (a.first() as u32) < (b.first() as u32)
    } else {
        precedes(a.drop_first(), b.drop_first())
    }
}

/// `c` is one of the ASCII digits.
pub open spec fn is_digit(c: char) -> bool {
    0x30 <= (c as u32) <= 0x39
}

/// The number that a run of ASCII digits denotes in base ten.
pub open spec fn digits_value(s: Seq<char>) -> nat
    decreases s.len(),
{
    if s.len() == 0 {
        0
    } else {
        (10 * digits_value(s.drop_last()) + (s.last() as u32 - 0x30)) as nat
    }
}

/// `s` without one leading plus sign.
pub open spec fn unsigned_part(s: Seq<char>) -> Seq<char> {
    if s.len() > 0 && s.first() == '+' {
        s.drop_first()
    } else {
        s
    }
}

/// The number that `s` denotes: an optional plus sign, then one or more ASCII
/// digits and nothing else.
pub open spec fn decimal_value(s: Seq<char>) -> Option<nat> {
    let digits = unsigned_part(s);
    if digits.len() > 0 && (forall|i: int| 0 <= i < digits.len() ==> is_digit(#[trigger] digits[i])) {
        Some(digits_value(digits))
    } else {
        None
    }
}

/// Why a text denotes no number that is small enough.
#[derive(Clone, Copy, Debug, PartialEq, Eq, Structural)]
pub enum NumberFault {
    /// The text is empty.
    Empty,
    /// Where a digit should stand, there is something else or nothing.
    InvalidDigit,
    /// The digits denote a number that is too large.
    TooLarge,
}

/// The first `k` characters are digits and denote a number above `max`.
pub open spec fn exceeds_at(digits: Seq<char>, k: int, max: nat) -> bool {
    &&& 0 <= k <= digits.len()
    &&& forall|i: int| 0 <= i < k ==> is_digit(#[trigger] digits[i])
    &&& digits_value(digits.take(k)) > max
}

/// Why `s` denotes no number up to `max`. Of two reasons the one that shows
/// first counts: where the leading digits already exceed `max`, the number is
/// too large, whatever follows them.
pub open spec fn decimal_fault(s: Seq<char>, max: nat) -> NumberFault {
    if s.len() == 0 {
        NumberFault::Empty
    } else if exists|k: int| exceeds_at(unsigned_part(s), k, max) {
        NumberFault::TooLarge
    } else {
        NumberFault::InvalidDigit
    }
}

impl NumberFault {
    /// The message that reports the fault.
    pub open spec fn message_text(self) -> Seq<char> {
        match self {
            NumberFault::Empty => "cannot parse integer from empty string"@,
            NumberFault::InvalidDigit => "invalid digit found in string"@,
            NumberFault::TooLarge => "number too large to fit in target type"@,
        }
    }

    /// The message that reports the fault.
    pub fn message(&self) -> (res: String)
        ensures
            res@ == self.message_text(),
    {
        match self {
            NumberFault::Empty => "cannot parse integer from empty string".to_owned(),
            NumberFault::InvalidDigit => "invalid digit found in string".to_owned(),
            NumberFault::TooLarge => "number too large to fit in target type".to_owned(),
        }
    }
}

/// The ASCII digit for `d`, which is below ten.
pub open spec fn digit_char(d: nat) -> char {
    (0x30 + d) as char
}

/// The shortest decimal notation of `n`.
pub open spec fn decimal_text(n: nat) -> Seq<char>
    decreases n,
{
    if n < 10 {
        seq![digit_char(n)]
    } else {
        decimal_text(n / 10).push(digit_char(n % 10))
    }
}

/// The shortest decimal notation of `n`, with a minus sign where it is negative.
pub open spec fn signed_decimal_text(n: int) -> Seq<char> {
    if n < 0 {
        "-"@ + decimal_text((-n) as nat)
    } else {
        decimal_text(n as nat)
    }
}

/// The lower-case hexadecimal digit for `d`, which is below sixteen.
pub open spec fn hex_char(d: nat) -> char {
    if d < 10 {
        (0x30 + d) as char
    } else {
        (0x57 + d) as char
    }
}

/// Two lower-case hexadecimal digits for each byte, the high half first.
pub open spec fn hex_text(bytes: Seq<u8>) -> Seq<char>
    decreases bytes.len(),
{
    if bytes.len() == 0 {
        Seq::<char>::empty()
    } else {
        hex_text(bytes.drop_last()).push(hex_char((bytes.last() / 16) as nat)).push(
            hex_char((bytes.last() % 16) as nat),
        )
    }
}

/// The characters of `s`.
pub fn to_chars(s: &str) -> (chars: Vec<char>)
    ensures
        chars@ == s@,
{
    let mut chars: Vec<char> = Vec::new();
    for c in it: s.chars()
        invariant
            chars@ == it.seq().take(it.index() as int),
    {
        chars.push(c);
    }
    chars
}

/// Whether two texts hold the same characters.
pub fn same_text(a: &str, b: &str) -> (same: bool)
    ensures
        same == (a@ == b@),
{
    a.to_owned() == b.to_owned()
}

/// Whether `c` is white space.
pub fn white_space(c: char) -> (yes: bool)
    ensures
        yes == is_white_space(c),
{
    let n: u32 = c as u32;
    (0x9 <= n && n <= 0xd) || n == 0x20 || n == 0x85 || n == 0xa0 || n == 0x1680 || (0x2000 <= n
        && n <= 0x200a) || n == 0x2028 || n == 0x2029 || n == 0x202f || n == 0x205f || n == 0x3000
}

/// Whether `s` holds nothing but white space.
pub fn blank(s: &str) -> (yes: bool)
    ensures
        yes == is_blank(s@),
{
    let chars = to_chars(s);
    let mut i: usize = 0;
    while i < chars.len()
        invariant
            i <= chars.len(),
            chars@ == s@,
            forall|j: int| 0 <= j < i ==> is_white_space(#[trigger] s@[j]),
        decreases chars.len() - i,
    {
        if !white_space(chars[i]) {
            return false;
        }
        i += 1;
    }
    true
}

/// `s` without the white space at both ends.
pub fn trim(s: &str) -> (res: String)
    ensures
        res@ == trimmed(s@),
{
    let chars = to_chars(s);
    let mut from: usize = 0;
    let mut to: usize = chars.len();
    assert(s@.subrange(0, s@.len() as int) =~= s@);
    while from < to && white_space(chars[from])
        invariant
            from <= to,
            to == chars.len(),
            chars@ == s@,
            trim_start(s@) == trim_start(s@.subrange(from as int, to as int)),
        decreases to - from,
    {
        assert(s@.subrange(from as int, to as int).drop_first() =~= s@.subrange(
            from + 1,
            to as int,
        ));
        from += 1;
    }
    assert(trim_start(s@) == s@.subrange(from as int, to as int));
    while from < to && white_space(chars[to - 1])
        invariant
            from <= to <= chars.len(),
            chars@ == s@,
            trimmed(s@) == trim_end(s@.subrange(from as int, to as int)),
        decreases to - from,
    {
        assert(s@.subrange(from as int, to as int).drop_last() =~= s@.subrange(
            from as int,
            to - 1,
        ));
        to -= 1;
    }
    s.substring_char(from, to).to_owned()
}

/// `s` without the run of `c` at its end.
pub fn trim_end_matches(s: &str, c: char) -> (res: String)
    ensures
        res@ == without_trailing(s@, c),
{
    let chars = to_chars(s);
    let mut to: usize = chars.len();
    assert(s@.take(s@.len() as int) =~= s@);
    while to > 0 && chars[to - 1] == c
        invariant
            to <= chars.len(),
            chars@ == s@,
            without_trailing(s@, c) == without_trailing(s@.take(to as int), c),
        decreases to,
    {
        assert(s@.take(to as int).drop_last() =~= s@.take(to - 1));
        to -= 1;
    }
    s.substring_char(0, to).to_owned()
}

/// The pieces of `s` between the occurrences of `sep`.
pub fn split_on(s: &str, sep: char) -> (res: Vec<String>)
    ensures
        texts(res@) == pieces(s@, sep),
{
    let chars = to_chars(s);
    let mut res: Vec<String> = Vec::new();
    let mut piece: String = String::new();
    let mut i: usize = 0;
    assert(texts(res@).push(piece@) =~= pieces(s@.take(0), sep));
    while i < chars.len()
        invariant
            i <= chars.len(),
            chars@ == s@,
            texts(res@).push(piece@) == pieces(s@.take(i as int), sep),
        decreases chars.len() - i,
    {
        let ghost before = texts(res@).push(piece@);
        assert(s@.take(i + 1).drop_last() =~= s@.take(i as int));
        assert(before.drop_last() =~= texts(res@));
        if chars[i] == sep {
            let ghost done = res@;
            res.push(piece);
            assert(texts(res@) =~= texts(done).push(piece@));
            piece = String::new();
        } else {
            piece.push(chars[i]);
        }
        i += 1;
    }
    assert(s@.take(s@.len() as int) =~= s@);
    let ghost done = res@;
    res.push(piece);
    assert(texts(res@) =~= texts(done).push(piece@));
    res
}

/// The parts in order, with `sep` between neighbours.
pub fn join(parts: &Vec<String>, sep: &str) -> (res: String)
    ensures
        res@ == joined(texts(parts@), sep@),
{
    let mut res: String = String::new();
    let mut i: usize = 0;
    let ghost all = texts(parts@);
    while i < parts.len()
        invariant
            i <= parts.len(),
            all == texts(parts@),
            res@ == joined(all.take(i as int), sep@),
        decreases parts.len() - i,
    {
        assert(all.take(i + 1).drop_last() =~= all.take(i as int));
        assert(all.take(i + 1).last() == parts@[i as int]@);
        if i > 0 {
            res.append(sep);
        }
        res.append(parts[i].as_str());
        i += 1;
    }
    assert(all.take(all.len() as int) =~= all);
    res
}

/// Whether `s` begins with `prefix`.
pub fn starts_with(s: &str, prefix: &str) -> (yes: bool)
    ensures
        yes == prefix@.is_prefix_of(s@),
{
    let chars = to_chars(s);
    let head = to_chars(prefix);
    if head.len() > chars.len() {
        return false;
    }
    let found = occurs(&chars, &head, 0);
    assert(found == (s@.subrange(0, prefix@.len() as int) == prefix@));
    found
}

/// Whether `s` ends with `suffix`.
pub fn ends_with(s: &str, suffix: &str) -> (yes: bool)
    ensures
        yes == suffix@.is_suffix_of(s@),
{
    let chars = to_chars(s);
    let tail = to_chars(suffix);
    if tail.len() > chars.len() {
        return false;
    }
    occurs(&chars, &tail, chars.len() - tail.len())
}

/// Whether `wanted` stands in `chars` from position `at` on.
fn occurs(chars: &Vec<char>, wanted: &Vec<char>, at: usize) -> (yes: bool)
    requires
        at + wanted@.len() <= chars@.len(),
    ensures
        yes == (chars@.subrange(at as int, at + wanted@.len()) == wanted@),
{
    let mut j: usize = 0;
    while j < wanted.len()
        invariant
            at + wanted.len() <= chars.len(),
            j <= wanted.len(),
            forall|k: int| 0 <= k < j ==> chars@[at + k] == #[trigger] wanted@[k],
        decreases wanted.len() - j,
    {
        if chars[at + j] != wanted[j] {
            assert(chars@.subrange(at as int, at + wanted@.len())[j as int] != wanted@[j as int]);
            return false;
        }
        j += 1;
    }
    assert(chars@.subrange(at as int, at + wanted@.len()) =~= wanted@);
    true
}

/// Whether `a` stands before `b` in the order of texts.
pub fn text_less(a: &str, b: &str) -> (less: bool)
    ensures
        less == precedes(a@, b@),
{
    let x = to_chars(a);
    let y = to_chars(b);
    let mut i: usize = 0;
    assert(x@.skip(0) =~= x@ && y@.skip(0) =~= y@);
    while i < x.len() && i < y.len()
        invariant
            i <= x.len(),
            i <= y.len(),
            x@ == a@,
            y@ == b@,
            precedes(a@, b@) == precedes(x@.skip(i as int), y@.skip(i as int)),
        decreases x.len() - i,
    {
        if x[i] != y[i] {
            return (x[i] as u32) < (y[i] as u32);
        }
        assert(x@.skip(i as int).drop_first() =~= x@.skip(i + 1));
        assert(y@.skip(i as int).drop_first() =~= y@.skip(i + 1));
        i += 1;
    }
    i < y.len()
}

/// The number that `s` denotes, where it denotes one and it is at most `max`.
pub fn parse_decimal(s: &str, max: u64) -> (res: Result<u64, NumberFault>)
    ensures
        match res {
            Ok(n) => decimal_value(s@) == Some(n as nat) && n <= max,
            Err(fault) => (decimal_value(s@) matches Some(value) ==> value > max) && fault
                == decimal_fault(s@, max as nat),
        },
{
    let chars = to_chars(s);
    if chars.len() == 0 {
        return Err(NumberFault::Empty);
    }
    let start: usize = if chars[0] == '+' {
        1
    } else {
        0
    };
    let ghost digits = unsigned_part(s@);
    assert(digits =~= s@.skip(start as int));
    let mut value: u64 = 0;
    let mut i: usize = start;
    assert(digits.take(0).len() == 0);
    while i < chars.len()
        invariant
            0 < chars.len(),
            start <= i <= chars.len(),
            chars@ == s@,
            digits == unsigned_part(s@),
            digits == s@.skip(start as int),
            forall|k: int| 0 <= k < i - start ==> is_digit(#[trigger] digits[k]),
            forall|k: int| k <= i - start ==> !exceeds_at(digits, k, max as nat),
            value == digits_value(digits.take(i - start)) && value <= max,
        decreases chars.len() - i,
    {
        let n: u32 = chars[i] as u32;
        assert(digits[i - start] == chars@[i as int]);
        if n < 0x30 || n > 0x39 {
            assert(!is_digit(digits[i - start]));
            return Err(NumberFault::InvalidDigit);
        }
        let d: u64 = (n - 0x30) as u64;
        assert(digits.take(i + 1 - start).drop_last() =~= digits.take(i - start));
        if d > max || value > max / 10 || value * 10 > max - d {
            proof {
                assert(exceeds_at(digits, i + 1 - start, max as nat));
                if decimal_value(s@) is Some {
                    lemma_longer_is_larger(digits, i + 1 - start, digits.len() as int);
                    assert(digits.take(digits.len() as int) =~= digits);
                }
            }
            return Err(NumberFault::TooLarge);
        }
        value = value * 10 + d;
        i += 1;
    }
    assert(digits.take(digits.len() as int) =~= digits);
    if start == chars.len() {
        return Err(NumberFault::InvalidDigit);
    }
    Ok(value)
}

/// More digits denote no smaller number.
proof fn lemma_longer_is_larger(digits: Seq<char>, k: int, n: int)
    requires
        0 <= k <= n <= digits.len(),
        forall|i: int| 0 <= i < n ==> is_digit(#[trigger] digits[i]),
    ensures
        digits_value(digits.take(k)) <= digits_value(digits.take(n)),
    decreases n,
{
    if k < n {
        lemma_longer_is_larger(digits, k, n - 1);
        assert(digits.take(n).drop_last() =~= digits.take(n - 1));
        assert(is_digit(digits[n - 1]));
    }
}

/// The shortest decimal notation of `n`.
pub fn decimal(n: u64) -> (res: String)
    ensures
        res@ == decimal_text(n as nat),
    decreases n,
{
    let digit: char = (0x30 + (n % 10) as u8) as char;
    if n < 10 {
        let mut res: String = String::new();
        res.push(digit);
        assert(res@ =~= seq![digit_char(n as nat)]);
        res
    } else {
        let mut res: String = decimal(n / 10);
        res.push(digit);
        res
    }
}

/// The shortest decimal notation of `n`, with a minus sign where it is negative.
pub fn signed_decimal(n: i32) -> (res: String)
    ensures
        res@ == signed_decimal_text(n as int),
{
    if n < 0 {
        let mut res = "-".to_owned();
        res.append(decimal((-(n as i64)) as u64).as_str());
        res
    } else {
        decimal(n as u64)
    }
}

/// Two lower-case hexadecimal digits for each byte.
pub fn lower_hex(bytes: &[u8]) -> (res: String)
    ensures
        res@ == hex_text(bytes@),
{
    let mut res: String = String::new();
    let mut i: usize = 0;
    while i < bytes.len()
        invariant
            i <= bytes.len(),
            res@ == hex_text(bytes@.take(i as int)),
        decreases bytes.len() - i,
    {
        assert(bytes@.take(i + 1).drop_last() =~= bytes@.take(i as int));
        res.push(hex_digit(bytes[i] / 16));
        res.push(hex_digit(bytes[i] % 16));
        i += 1;
    }
    assert(bytes@.take(bytes@.len() as int) =~= bytes@);
    res
}

/// The lower-case hexadecimal digit for `d`.
fn hex_digit(d: u8) -> (c: char)
    requires
        d < 16,
    ensures
        c == hex_char(d as nat),
{
    if d < 10 {
        (0x30 + d) as char
    } else {
        (0x57 + d) as char
    }
}

/// A text without separators is one piece.
proof fn lemma_pieces_plain(s: Seq<char>, sep: char)
    requires
        !s.contains(sep),
    ensures
        pieces(s, sep) == seq![s],
    decreases s.len(),
{
    if s.len() > 0 {
        assert(s[s.len() - 1] != sep);
        assert forall|i: int| 0 <= i < s.len() - 1 implies s.drop_last()[i] != sep by {
            assert(s[i] != sep);
        }
        lemma_pieces_plain(s.drop_last(), sep);
        assert(s.drop_last().push(s.last()) =~= s);
        assert(pieces(s, sep) =~= seq![s]);
    } else {
        assert(s =~= Seq::<char>::empty());
    }
}

/// There is at least one piece.
proof fn lemma_pieces_nonempty(s: Seq<char>, sep: char)
    ensures
        pieces(s, sep).len() > 0,
    decreases s.len(),
{
    if s.len() > 0 {
        lemma_pieces_nonempty(s.drop_last(), sep);
    }
}

/// A separator cuts a text into the pieces before it and those after it.
proof fn lemma_pieces_cut(a: Seq<char>, b: Seq<char>, sep: char)
    ensures
        pieces(a.push(sep) + b, sep) == pieces(a, sep) + pieces(b, sep),
    decreases b.len(),
{
    let whole = a.push(sep) + b;
    if b.len() == 0 {
        assert(whole =~= a.push(sep));
        assert(whole.drop_last() =~= a);
        assert(pieces(whole, sep) =~= pieces(a, sep) + pieces(b, sep));
    } else {
        lemma_pieces_cut(a, b.drop_last(), sep);
        lemma_pieces_nonempty(b.drop_last(), sep);
        assert(whole.drop_last() =~= a.push(sep) + b.drop_last());
        assert(whole.last() == b.last());
        assert(pieces(whole, sep) =~= pieces(a, sep) + pieces(b, sep));
    }
}

/// Splitting undoes joining: parts that hold no separator come back as they were.
pub proof fn law_split_undoes_join(parts: Seq<Seq<char>>, sep: char)
    requires
        parts.len() > 0,
        forall|i: int| 0 <= i < parts.len() ==> !(#[trigger] parts[i]).contains(sep),
    ensures
        pieces(joined(parts, seq![sep]), sep) == parts,
    decreases parts.len(),
{
    if parts.len() == 1 {
        lemma_pieces_plain(parts[0], sep);
        assert(parts =~= seq![parts[0]]);
    } else {
        let front = parts.drop_last();
        assert forall|i: int| 0 <= i < front.len() implies !(#[trigger] front[i]).contains(
            sep,
        ) by {
            assert(front[i] == parts[i]);
        }
        law_split_undoes_join(front, sep);
        assert(!parts[parts.len() - 1].contains(sep));
        lemma_pieces_plain(parts.last(), sep);
        lemma_pieces_cut(joined(front, seq![sep]), parts.last(), sep);
        assert(joined(parts, seq![sep]) =~= joined(front, seq![sep]).push(sep) + parts.last());
        assert(front + seq![parts.last()] =~= parts);
    }
}

/// Joining undoes splitting: the pieces with the separator between them are
/// the text, and none of them holds the separator.
pub proof fn law_join_undoes_split(s: Seq<char>, sep: char)
    ensures
        joined(pieces(s, sep), seq![sep]) == s,
        forall|i: int|
            0 <= i < pieces(s, sep).len() ==> !(#[trigger] pieces(s, sep)[i]).contains(sep),
    decreases s.len(),
{
    let all = pieces(s, sep);
    if s.len() == 0 {
        assert(s =~= Seq::<char>::empty());
    } else {
        let before = pieces(s.drop_last(), sep);
        law_join_undoes_split(s.drop_last(), sep);
        lemma_pieces_nonempty(s.drop_last(), sep);
        if s.last() == sep {
            assert(all.drop_last() =~= before);
            assert(joined(all, seq![sep]) =~= s.drop_last() + seq![sep]);
            assert(s =~= s.drop_last() + seq![sep]);
            assert forall|i: int| 0 <= i < all.len() implies !(#[trigger] all[i]).contains(sep) by {
                if i < before.len() {
                    assert(all[i] == before[i]);
                }
            }
        } else {
            assert(all.drop_last() =~= before.drop_last());
            assert(all.last() == before.last().push(s.last()));
            if before.len() > 1 {
                assert(joined(all, seq![sep]) =~= joined(before, seq![sep]).push(s.last()));
            }
            assert(s =~= s.drop_last().push(s.last()));
            assert forall|i: int| 0 <= i < all.len() implies !(#[trigger] all[i]).contains(sep) by {
                if i < before.len() - 1 {
                    assert(all[i] == before[i]);
                } else {
                    assert(!before[before.len() - 1].contains(sep));
                    assert forall|k: int| 0 <= k < all[i].len() implies all[i][k] != sep by {
                        if k < before.last().len() {
                            assert(all[i][k] == before.last()[k]);
                        }
                    }
                }
            }
        }
    }
}

/// No text stands before itself.
pub proof fn law_order_is_strict(a: Seq<char>)
    ensures
        !precedes(a, a),
    decreases a.len(),
{
    if a.len() > 0 {
        law_order_is_strict(a.drop_first());
    }
}

/// What stands before a text stands before all that it stands before.
pub proof fn law_order_is_transitive(a: Seq<char>, b: Seq<char>, c: Seq<char>)
    requires
        precedes(a, b),
        precedes(b, c),
    ensures
        precedes(a, c),
    decreases a.len(),
{
    if a.len() > 0 && a.first() == b.first() && b.first() == c.first() {
        law_order_is_transitive(a.drop_first(), b.drop_first(), c.drop_first());
    }
}

/// Different characters have different code points.
proof fn lemma_code_points_differ(x: char, y: char)
    requires
        x != y,
    ensures
        x as u32 != y as u32,
{
}

/// Any two texts are equal or stand in order.
pub proof fn law_order_is_total(a: Seq<char>, b: Seq<char>)
    ensures
        a == b || precedes(a, b) || precedes(b, a),
    decreases a.len(),
{
    if a.len() == 0 && b.len() == 0 {
        assert(a =~= b);
    } else if a.len() > 0 && b.len() > 0 && a.first() == b.first() {
        law_order_is_total(a.drop_first(), b.drop_first());
        if a.drop_first() == b.drop_first() {
            assert(a =~= seq![a.first()] + a.drop_first());
            assert(b =~= seq![b.first()] + b.drop_first());
        }
    } else if a.len() > 0 && b.len() > 0 {
        lemma_code_points_differ(a.first(), b.first());
    }
}

/// What is left after trimming is a stretch of the text: white space lies before
/// and after it, and neither begins nor ends it.
pub proof fn law_trimming_cuts_white_space(s: Seq<char>)
    ensures
        exists|i: int, j: int|
            {
                &&& 0 <= i <= j <= s.len()
                &&& trimmed(s) == #[trigger] s.subrange(i, j)
                &&& forall|k: int| 0 <= k < i ==> is_white_space(#[trigger] s[k])
                &&& forall|k: int| j <= k < s.len() ==> is_white_space(#[trigger] s[k])
                &&& i < j ==> !is_white_space(s[i]) && !is_white_space(s[j - 1])
            },
        trimmed(s).len() == 0 <==> is_blank(s),
{
    let i = lemma_trim_start(s);
    let rest = s.skip(i);
    let j = i + lemma_trim_end(rest);
    assert(trimmed(s) =~= s.subrange(i, j));
    assert forall|k: int| j <= k < s.len() implies is_white_space(#[trigger] s[k]) by {
        assert(s[k] == rest[k - i]);
    }
    if i < j {
        assert(s[j - 1] == rest[j - 1 - i]);
        assert(rest[0] == s[i]);
    }
}

/// How much white space stands at the start of a text.
proof fn lemma_trim_start(s: Seq<char>) -> (i: int)
    ensures
        0 <= i <= s.len(),
        trim_start(s) == s.skip(i),
        forall|k: int| 0 <= k < i ==> is_white_space(#[trigger] s[k]),
        i < s.len() ==> !is_white_space(s[i]),
    decreases s.len(),
{
    if s.len() > 0 && is_white_space(s.first()) {
        let rest = s.drop_first();
        let i = lemma_trim_start(rest);
        assert(rest.skip(i) =~= s.skip(i + 1));
        assert forall|k: int| 0 <= k < i + 1 implies is_white_space(#[trigger] s[k]) by {
            if k > 0 {
                assert(s[k] == rest[k - 1]);
            }
        }
        if i < rest.len() {
            assert(rest[i] == s[i + 1]);
        }
        i + 1
    } else {
        assert(s.skip(0) =~= s);
        0
    }
}

/// Where the white space at the end of a text begins.
proof fn lemma_trim_end(s: Seq<char>) -> (j: int)
    ensures
        0 <= j <= s.len(),
        trim_end(s) == s.take(j),
        forall|k: int| j <= k < s.len() ==> is_white_space(#[trigger] s[k]),
        j > 0 ==> !is_white_space(s[j - 1]),
    decreases s.len(),
{
    if s.len() > 0 && is_white_space(s.last()) {
        let rest = s.drop_last();
        let j = lemma_trim_end(rest);
        assert(rest.take(j) =~= s.take(j));
        assert forall|k: int| j <= k < s.len() implies is_white_space(#[trigger] s[k]) by {
            if k < rest.len() {
                assert(s[k] == rest[k]);
            }
        }
        if j > 0 {
            assert(s[j - 1] == rest[j - 1]);
        }
        j
    } else {
        assert(s.take(s.len() as int) =~= s);
        s.len() as int
    }
}

/// Cutting a run at the end of a text takes all of it and nothing else.
pub proof fn law_trailing_run_is_cut(s: Seq<char>, c: char)
    ensures
        exists|k: int|
            {
                &&& 0 <= k <= s.len()
                &&& without_trailing(s, c) == #[trigger] s.take(k)
                &&& forall|i: int| k <= i < s.len() ==> #[trigger] s[i] == c
                &&& k > 0 ==> s[k - 1] != c
            },
    decreases s.len(),
{
    if s.len() > 0 && s.last() == c {
        let rest = s.drop_last();
        law_trailing_run_is_cut(rest, c);
        let k = choose|k: int|
            {
                &&& 0 <= k <= rest.len()
                &&& without_trailing(rest, c) == #[trigger] rest.take(k)
                &&& forall|i: int| k <= i < rest.len() ==> #[trigger] rest[i] == c
                &&& k > 0 ==> rest[k - 1] != c
            };
        assert(s.take(k) =~= rest.take(k));
        assert forall|i: int| k <= i < s.len() implies #[trigger] s[i] == c by {
            if i < rest.len() {
                assert(s[i] == rest[i]);
            }
        }
        if k > 0 {
            assert(s[k - 1] == rest[k - 1]);
        }
    } else {
        assert(s.take(s.len() as int) =~= s);
    }
}

/// Joining puts the separator between neighbours and nowhere else.
pub proof fn law_joining_step_by_step(parts: Seq<Seq<char>>, part: Seq<char>, sep: Seq<char>)
    ensures
        joined(Seq::<Seq<char>>::empty(), sep).len() == 0,
        joined(seq![part], sep) == part,
        parts.len() > 0 ==> joined(parts.push(part), sep) == joined(parts, sep) + sep + part,
{
    assert(parts.push(part).drop_last() =~= parts);
}

/// A text stands before another exactly if it is a shorter beginning of it, or
/// if at the first place where they differ it has the smaller code point.
pub proof fn law_order_goes_by_code_points(a: Seq<char>, b: Seq<char>)
    ensures
        precedes(a, b) <==> (a.len() < b.len() && b.take(a.len() as int) == a) || exists|i: int|
            0 <= i < a.len() && i < b.len() && #[trigger] a.take(i) == b.take(i) && (a[i] as u32)
                < (b[i] as u32),
    decreases a.len(),
{
    if a.len() == 0 {
        assert(b.take(0) =~= a);
    } else if b.len() == 0 {
    } else if a.first() != b.first() {
        lemma_code_points_differ(a.first(), b.first());
        assert(a.take(0) =~= b.take(0));
        if a.len() < b.len() && b.take(a.len() as int) == a {
            assert(b.take(a.len() as int)[0] == b[0]);
        }
        if exists|i: int|
            0 <= i < a.len() && i < b.len() && #[trigger] a.take(i) == b.take(i) && (a[i] as u32) < (
            b[i] as u32) {
            let i = choose|i: int|
                0 <= i < a.len() && i < b.len() && #[trigger] a.take(i) == b.take(i) && (
                a[i] as u32) < (b[i] as u32);
            if i > 0 {
                assert(a.take(i)[0] == b.take(i)[0]);
            }
        }
    } else {
        let x = a.drop_first();
        let y = b.drop_first();
        law_order_goes_by_code_points(x, y);
        if x.len() < y.len() && y.take(x.len() as int) == x {
            assert(b.take(a.len() as int) =~= seq![b.first()] + y.take(x.len() as int));
            assert(a =~= seq![a.first()] + x);
        }
        if a.len() < b.len() && b.take(a.len() as int) == a {
            assert(y.take(x.len() as int) =~= b.take(a.len() as int).drop_first());
        }
        if exists|i: int|
            0 <= i < x.len() && i < y.len() && #[trigger] x.take(i) == y.take(i) && (x[i] as u32) < (
            y[i] as u32) {
            let i = choose|i: int|
                0 <= i < x.len() && i < y.len() && #[trigger] x.take(i) == y.take(i) && (
                x[i] as u32) < (y[i] as u32);
            assert(a.take(i + 1) =~= seq![a.first()] + x.take(i));
            assert(b.take(i + 1) =~= seq![b.first()] + y.take(i));
            assert(a[i + 1] == x[i] && b[i + 1] == y[i]);
            assert(a.take(i + 1) == b.take(i + 1));
        }
        if exists|i: int|
            0 <= i < a.len() && i < b.len() && #[trigger] a.take(i) == b.take(i) && (a[i] as u32) < (
            b[i] as u32) {
            let i = choose|i: int|
                0 <= i < a.len() && i < b.len() && #[trigger] a.take(i) == b.take(i) && (
                a[i] as u32) < (b[i] as u32);
            assert(i > 0);
            assert(x.take(i - 1) =~= a.take(i).drop_first());
            assert(y.take(i - 1) =~= b.take(i).drop_first());
            assert(a[i] == x[i - 1] && b[i] == y[i - 1]);
            assert(x.take(i - 1) == y.take(i - 1));
        }
    }
}

/// Every digit counts ten times as much as the one after it.
pub proof fn law_digits_are_positional(a: Seq<char>, b: Seq<char>, d: nat)
    requires
        d < 10,
        forall|i: int| 0 <= i < b.len() ==> is_digit(#[trigger] b[i]),
    ensures
        digits_value(seq![(0x30 + d) as char]) == d,
        digits_value(a + b) == digits_value(a) * vstd::arithmetic::power::pow(10, b.len())
            + digits_value(b),
    decreases b.len(),
{
    assert(digits_value(seq![(0x30 + d) as char].drop_last()) == 0);
    assert(seq![(0x30 + d) as char].last() as u32 == 0x30 + d);
    if b.len() == 0 {
        assert(a + b =~= a);
        vstd::arithmetic::power::lemma_pow0(10);
    } else {
        let rest = b.drop_last();
        assert forall|i: int| 0 <= i < rest.len() implies is_digit(#[trigger] rest[i]) by {
            assert(rest[i] == b[i]);
        }
        law_digits_are_positional(a, rest, d);
        assert((a + b).drop_last() =~= a + rest);
        assert(is_digit(b[b.len() - 1]));
        let x = digits_value(a) as int;
        let p = vstd::arithmetic::power::pow(10, rest.len());
        assert(vstd::arithmetic::power::pow(10, b.len()) == 10 * p) by {
            reveal(vstd::arithmetic::power::pow);
        }
        assert(10 * (x * p) == x * (10 * p)) by (nonlinear_arith);
    }
}

/// The decimal notation of a number denotes it, with a plus sign or without, and
/// has no leading zero.
pub proof fn law_decimal_notation_reads_back(n: nat)
    ensures
        decimal_value(decimal_text(n)) == Some(n),
        decimal_value(seq!['+'] + decimal_text(n)) == Some(n),
        decimal_text(n).len() > 1 ==> decimal_text(n)[0] != '0',
{
    lemma_decimal_digits(n);
    let text = decimal_text(n);
    assert((seq!['+'] + text).drop_first() =~= text);
    assert(is_digit(text[0]));
}

/// The decimal notation consists of digits.
proof fn lemma_decimal_digits(n: nat)
    ensures
        decimal_text(n).len() > 0,
        forall|i: int| 0 <= i < decimal_text(n).len() ==> is_digit(#[trigger] decimal_text(n)[i]),
        digits_value(decimal_text(n)) == n,
        n > 0 ==> decimal_text(n)[0] != '0',
        n < 10 ==> decimal_text(n).len() == 1,
    decreases n,
{
    let text = decimal_text(n);
    if n < 10 {
        assert(digits_value(text.drop_last()) == 0);
    } else {
        lemma_decimal_digits(n / 10);
        let front = decimal_text(n / 10);
        assert(text.drop_last() =~= front);
        assert(text[0] == front[0]);
        assert forall|i: int| 0 <= i < text.len() implies is_digit(#[trigger] text[i]) by {
            if i < front.len() {
                assert(text[i] == front[i]);
            }
        }
    }
}

/// What denotes a number is one or more digits after at most one plus sign; where
/// something else comes first, or nothing, there is no number.
pub proof fn law_numbers_are_digits_only(s: Seq<char>)
    ensures
        decimal_value(s) is Some <==> ({
            let from: int = if s.len() > 0 && s[0] == '+' { 1 } else { 0 };
            from < s.len() && forall|i: int|
                from <= i < s.len() ==> 0x30 <= (#[trigger] s[i] as u32) <= 0x39
        }),
{
    let from: int = if s.len() > 0 && s[0] == '+' { 1 } else { 0 };
    let digits = unsigned_part(s);
    assert(digits =~= s.skip(from));
    if decimal_value(s) is Some {
        assert forall|i: int| from <= i < s.len() implies 0x30 <= (#[trigger] s[i] as u32) <= 0x39 by {
            assert(digits[i - from] == s[i]);
            assert(is_digit(digits[i - from]));
        }
    }
    if from < s.len() && forall|i: int| from <= i < s.len() ==> 0x30 <= (#[trigger] s[i] as u32) <= 0x39 {
        assert forall|i: int| 0 <= i < digits.len() implies is_digit(#[trigger] digits[i]) by {
            assert(digits[i] == s[i + from]);
        }
    }
}

/// The fault of a text is the one that a reader meets first: digits that exceed
/// the limit before anything else, or something else within the limit.
pub proof fn law_number_fault_is_met_first(digits: Seq<char>, rest: Seq<char>, max: nat)
    requires
        forall|i: int| 0 <= i < digits.len() ==> is_digit(#[trigger] digits[i]),
        rest.len() > 0 ==> !is_digit(rest[0]),
        digits.len() > 0,
    ensures
        digits_value(digits) > max ==> decimal_fault(digits + rest, max) == NumberFault::TooLarge,
        digits_value(digits) <= max ==> decimal_fault(digits + rest, max)
            == NumberFault::InvalidDigit,
        decimal_fault(Seq::empty(), max) == NumberFault::Empty,
{
    let s = digits + rest;
    assert(is_digit(digits[0]));
    assert(unsigned_part(s) == s);
    assert(s.take(digits.len() as int) =~= digits);
    assert forall|i: int| 0 <= i < digits.len() implies is_digit(#[trigger] s[i]) by {
        assert(s[i] == digits[i]);
    }
    if digits_value(digits) > max {
        assert(exceeds_at(s, digits.len() as int, max));
    } else {
        assert forall|k: int| !#[trigger] exceeds_at(s, k, max) by {
            if exceeds_at(s, k, max) {
                if k > digits.len() {
                    assert(s[digits.len() as int] == rest[0]);
                    assert(is_digit(s[digits.len() as int]));
                } else {
                    lemma_longer_is_larger(s, k, digits.len() as int);
                }
            }
        }
    }
}

/// Every byte has its two digits at its place, the high half first.
pub proof fn law_hex_digits_stand_in_order(bytes: Seq<u8>, i: int)
    requires
        0 <= i < bytes.len(),
    ensures
        hex_text(bytes).len() == 2 * bytes.len(),
        hex_text(bytes)[2 * i] == "0123456789abcdef"@[bytes[i] as int / 16],
        hex_text(bytes)[2 * i + 1] == "0123456789abcdef"@[bytes[i] as int % 16],
    decreases bytes.len(),
{
    reveal_strlit("0123456789abcdef");
    let front = bytes.drop_last();
    if front.len() > 0 {
        law_hex_digits_stand_in_order(front, if i < front.len() { i } else { 0 });
        if i < front.len() {
            assert(hex_text(bytes)[2 * i] == hex_text(front)[2 * i]);
            assert(hex_text(bytes)[2 * i + 1] == hex_text(front)[2 * i + 1]);
        }
    } else {
        assert(hex_text(front).len() == 0);
    }
}

/// The characters of each string of a list are found at its place.
pub proof fn law_texts_keep_their_places(list: Seq<String>)
    ensures
        texts(list).len() == list.len(),
        forall|i: int| 0 <= i < list.len() ==> #[trigger] texts(list)[i] == list[i]@,
{
}

/// A separator ends the pieces before it and begins those after it, and a text
/// without one is a single piece.
pub proof fn law_pieces_around_a_separator(
    a: Seq<char>,
    b: Seq<char>,
    plain: Seq<char>,
    sep: char,
)
    requires
        !plain.contains(sep),
    ensures
        pieces(a.push(sep) + b, sep) == pieces(a, sep) + pieces(b, sep),
        pieces(plain, sep) == seq![plain],
{
    lemma_pieces_cut(a, b, sep);
    lemma_pieces_plain(plain, sep);
}

} // verus!
