//! Text as sequences of characters: the small vocabulary that the other modules state their
//! contracts in, and executable counterparts.

use vstd::prelude::*;

verus! {

/// `String::push` of std appends one character.
pub assume_specification[ String::push ](s: &mut String, c: char)
    ensures
        final(s)@ == old(s)@.push(c),
;

/// The characters of `text`.
pub fn to_chars(text: &str) -> (out: Vec<char>)
    ensures
        out@ == text@,
{
    let mut out: Vec<char> = Vec::new();
    for c in it: text.chars()
        invariant
            out@ == it.seq().take(it.index()),
            it.seq() == text@,
    {
        out.push(c);
        assert(it.seq().take(it.index() + 1) == it.seq().take(it.index()).push(c));
    }
    assert(text@.take(text@.len() as int) == text@);
    out
}

/// The text made of `chars`.
pub fn from_chars(chars: &[char]) -> (out: String)
    ensures
        out@ == chars@,
{
    let mut out = String::new();
    let mut i: usize = 0;
    while i < chars.len()
        invariant
            i <= chars.len(),
            out@ == chars@.take(i as int),
        decreases chars.len() - i,
    {
        out.push(chars[i]);
        i = i + 1;
        assert(chars@.take(i as int) == chars@.take(i - 1).push(chars@[i - 1]));
    }
    assert(chars@.take(chars@.len() as int) == chars@);
    out
}

/// The decimal digit for `d`, which is below ten.
pub open spec fn digit(d: nat) -> char {
    (48 + d) as char
}

/// `n` in decimal, without leading zeros.
pub open spec fn decimal(n: nat) -> Seq<char>
    decreases n,
{
    if n < 10 {
        seq![digit(n)]
    } else {
        decimal(n / 10).push(digit(n % 10))
    }
}

/// `n` in decimal, as `format!("{n}")` writes it.
pub fn long_decimal_text(n: u128) -> (out: String)
    ensures
        out@ == decimal(n as nat),
    decreases n,
{
    if n < 10 {
        let mut out = String::new();
        out.push((48u8 + n as u8) as char);
        out
    } else {
        let mut out = long_decimal_text(n / 10);
        out.push((48u8 + (n % 10) as u8) as char);
        out
    }
}

/// `n` in decimal, as `format!("{n}")` writes it.
pub fn decimal_text(n: u64) -> (out: String)
    ensures
        out@ == decimal(n as nat),
{
    long_decimal_text(n as u128)
}

/// `n`, which is below a hundred, in two decimal digits.
pub open spec fn two_digits(n: nat) -> Seq<char> {
    if n < 10 {
        seq!['0'] + decimal(n)
    } else {
        decimal(n)
    }
}

/// `n` in decimal, padded with zeros to two digits, as `format!("{n:02}")` writes it.
pub fn two_digit_text(n: u64) -> (out: String)
    ensures
        out@ == two_digits(n as nat),
{
    let mut out = String::new();
    if n < 10 {
        out.push('0');
    }
    let digits = decimal_text(n);
    out.append(digits.as_str());
    out
}

/// `n` in decimal, with a minus sign when it is negative.
pub open spec fn signed_decimal(n: int) -> Seq<char> {
    if n < 0 {
        seq!['-'] + decimal((-n) as nat)
    } else {
        decimal(n as nat)
    }
}

/// `n` in decimal, as `format!("{n}")` writes it.
pub fn signed_decimal_text(n: i64) -> (out: String)
    ensures
        out@ == signed_decimal(n as int),
{
    if n >= 0 {
        return decimal_text(n as u64);
    }
    let mut out = String::new();
    out.push('-');
    let magnitude: u64 = if n == i64::MIN {
        0x8000_0000_0000_0000
    } else {
        (-n) as u64
    };
    let digits = decimal_text(magnitude);
    out.append(digits.as_str());
    out
}

/// The characters with the Unicode property White_Space.
pub open spec fn is_space(c: char) -> bool {
    ||| 0x09 <= c as u32 <= 0x0d
    ||| c as u32 == 0x20
    ||| c as u32 == 0x85
    ||| c as u32 == 0xa0
    ||| c as u32 == 0x1680
    ||| 0x2000 <= c as u32 <= 0x200a
    ||| 0x2028 <= c as u32 <= 0x2029
    ||| c as u32 == 0x202f
    ||| c as u32 == 0x205f
    ||| c as u32 == 0x3000
}

/// Whether `c` has the Unicode property White_Space.
pub fn is_whitespace(c: char) -> (out: bool)
    ensures
        out == is_space(c),
{
    let u: u32 = c as u32;
    (0x09 <= u && u <= 0x0d) || u == 0x20 || u == 0x85 || u == 0xa0 || u == 0x1680 || (0x2000 <= u
        && u <= 0x200a) || (0x2028 <= u && u <= 0x2029) || u == 0x202f || u == 0x205f || u == 0x3000
}

/// What is cut off at the ends of a text.
#[derive(Debug, Clone, Copy, PartialEq, Eq, Structural)]
pub enum Edge {
    /// White space.
    Space,
    /// White space and the ideographic comma.
    SpaceOrComma,
    /// The double quotation mark.
    Quote,
    /// The slash.
    Slash,
}

impl Edge {
    /// Whether `c` is cut off.
    pub open spec fn holds(self, c: char) -> bool {
        match self {
            Edge::Space => is_space(c),
            Edge::SpaceOrComma => is_space(c) || c == '、',
            Edge::Quote => c == '"',
            Edge::Slash => c == '/',
        }
    }

    fn has(self, c: char) -> (out: bool)
        ensures
            out == self.holds(c),
    {
        match self {
            Edge::Space => is_whitespace(c),
            Edge::SpaceOrComma => is_whitespace(c) || c == '、',
            Edge::Quote => c == '"',
            Edge::Slash => c == '/',
        }
    }
}

/// `s` without the edge characters at its start.
pub open spec fn trim_start(edge: Edge, s: Seq<char>) -> Seq<char>
    decreases s.len(),
{
    if s.len() > 0 && edge.holds(s[0]) {
        trim_start(edge, s.skip(1))
    } else {
        s
    }
}

/// `s` without the edge characters at its end.
pub open spec fn trim_end(edge: Edge, s: Seq<char>) -> Seq<char>
    decreases s.len(),
{
    if s.len() > 0 && edge.holds(s.last()) {
        trim_end(edge, s.drop_last())
    } else {
        s
    }
}

/// `s` without the edge characters at either end.
pub open spec fn trimmed(edge: Edge, s: Seq<char>) -> Seq<char> {
    trim_end(edge, trim_start(edge, s))
}

/// Cutting at the end only takes characters away, and leaves none of the edge there.
pub proof fn lemma_trim_end(edge: Edge, s: Seq<char>)
    ensures
        trim_end(edge, s) == s.take(trim_end(edge, s).len() as int),
        trim_end(edge, s).len() <= s.len(),
        trim_end(edge, s).len() > 0 ==> !edge.holds(trim_end(edge, s).last()),
    decreases s.len(),
{
    if s.len() > 0 && edge.holds(s.last()) {
        lemma_trim_end(edge, s.drop_last());
        let t = trim_end(edge, s.drop_last());
        assert(s.drop_last().take(t.len() as int) == s.take(t.len() as int));
    } else {
        assert(s.take(s.len() as int) == s);
    }
}

/// Cutting at the start only takes characters away, and leaves none of the edge there.
pub proof fn lemma_trim_start(edge: Edge, s: Seq<char>)
    ensures
        trim_start(edge, s).len() <= s.len(),
        trim_start(edge, s) == s.skip(s.len() - trim_start(edge, s).len()),
        trim_start(edge, s).len() > 0 ==> !edge.holds(trim_start(edge, s)[0]),
    decreases s.len(),
{
    if s.len() > 0 && edge.holds(s[0]) {
        lemma_trim_start(edge, s.skip(1));
        let t = trim_start(edge, s.skip(1));
        assert(s.skip(1).skip(s.skip(1).len() - t.len()) == s.skip(s.len() - t.len()));
    } else {
        assert(s.skip(0) == s);
    }
}

/// A trimmed text has no edge character at either end.
pub proof fn lemma_trimmed(edge: Edge, s: Seq<char>)
    ensures
        trimmed(edge, s).len() <= s.len(),
        trimmed(edge, s).len() > 0 ==> !edge.holds(trimmed(edge, s)[0]) && !edge.holds(
            trimmed(edge, s).last(),
        ),
{
    lemma_trim_start(edge, s);
    lemma_trim_end(edge, trim_start(edge, s));
}

/// `text` without the edge characters at its end.
pub fn trim_text_end(edge: Edge, text: &str) -> (out: String)
    ensures
        out@ == trim_end(edge, text@),
{
    let chars = to_chars(text);
    let mut end: usize = chars.len();
    assert(chars@.take(end as int) == chars@);
    while end > 0 && edge.has(chars[end - 1])
        invariant
            end <= chars.len(),
            trim_end(edge, chars@.take(end as int)) == trim_end(edge, chars@),
        decreases end,
    {
        assert(chars@.take(end as int).drop_last() == chars@.take(end - 1));
        end = end - 1;
    }
    let kept = vstd::slice::slice_subrange(chars.as_slice(), 0, end);
    assert(kept@ == chars@.take(end as int));
    from_chars(kept)
}

/// `text` without the edge characters at either end.
pub fn trim_text(edge: Edge, text: &str) -> (out: String)
    ensures
        out@ == trimmed(edge, text@),
{
    let chars = to_chars(text);
    let mut start: usize = 0;
    assert(chars@.skip(0) == chars@);
    while start < chars.len() && edge.has(chars[start])
        invariant
            start <= chars.len(),
            trim_start(edge, chars@.skip(start as int)) == trim_start(edge, chars@),
        decreases chars.len() - start,
    {
        assert(chars@.skip(start as int).skip(1) == chars@.skip(start + 1));
        start = start + 1;
    }
    let kept = vstd::slice::slice_subrange(chars.as_slice(), start, chars.len());
    assert(kept@ == chars@.skip(start as int));
    let rest = from_chars(kept);
    trim_text_end(edge, rest.as_str())
}

/// Whether two texts are the same.
pub fn same(a: &str, b: &str) -> (out: bool)
    ensures
        out == (a@ == b@),
{
    a.to_owned() == b.to_owned()
}

/// Whether `p` stands in `s` at index `i`.
pub open spec fn stands_at(s: Seq<char>, p: Seq<char>, i: int) -> bool {
    0 <= i && i + p.len() <= s.len() && s.subrange(i, i + p.len()) == p
}

/// Whether `s` begins with `p`.
pub open spec fn begins(s: Seq<char>, p: Seq<char>) -> bool {
    stands_at(s, p, 0)
}

/// Whether `s` ends with `p`.
pub open spec fn ends(s: Seq<char>, p: Seq<char>) -> bool {
    stands_at(s, p, s.len() - p.len())
}

/// Whether `p` occurs anywhere in `s`.
pub open spec fn occurs(s: Seq<char>, p: Seq<char>) -> bool {
    exists|i: int| stands_at(s, p, i)
}

/// Whether `part` stands in `chars` at index `at`.
pub fn has_at(chars: &[char], part: &[char], at: usize) -> (out: bool)
    ensures
        out == stands_at(chars@, part@, at as int),
{
    if at > chars.len() || part.len() > chars.len() - at {
        return false;
    }
    let mut i: usize = 0;
    while i < part.len()
        invariant
            i <= part.len(),
            at + part.len() <= chars.len(),
            forall|j: int| 0 <= j < i ==> chars@[at + j] == part@[j],
        decreases part.len() - i,
    {
        if chars[at + i] != part[i] {
            assert(chars@.subrange(at as int, at + part@.len())[i as int] == chars@[at + i]);
            return false;
        }
        i = i + 1;
    }
    assert(chars@.subrange(at as int, at + part@.len()) == part@);
    true
}

/// Whether `text` begins with `part`.
pub fn starts_with(text: &str, part: &str) -> (out: bool)
    ensures
        out == begins(text@, part@),
{
    let chars = to_chars(text);
    let part = to_chars(part);
    has_at(chars.as_slice(), part.as_slice(), 0)
}

/// Whether `text` ends with `part`.
pub fn ends_with(text: &str, part: &str) -> (out: bool)
    ensures
        out == ends(text@, part@),
{
    let chars = to_chars(text);
    let part = to_chars(part);
    if part.len() > chars.len() {
        return false;
    }
    has_at(chars.as_slice(), part.as_slice(), chars.len() - part.len())
}

/// Whether `part` occurs in `text`.
pub fn contains(text: &str, part: &str) -> (out: bool)
    ensures
        out == occurs(text@, part@),
{
    let chars = to_chars(text);
    let wanted = to_chars(part);
    let mut i: usize = 0;
    while i < chars.len()
        invariant
            i <= chars.len(),
            chars@ == text@,
            wanted@ == part@,
            forall|j: int| 0 <= j < i ==> !stands_at(chars@, wanted@, j),
        decreases chars.len() - i,
    {
        if has_at(chars.as_slice(), wanted.as_slice(), i) {
            assert(stands_at(text@, part@, i as int));
            return true;
        }
        i = i + 1;
    }
    let at_end = has_at(chars.as_slice(), wanted.as_slice(), i);
    assert(at_end ==> stands_at(text@, part@, i as int));
    at_end
}

/// `text` without `part` at its start, if it begins with `part`.
pub fn strip_prefix(text: &str, part: &str) -> (out: Option<String>)
    ensures
        out is Some <==> begins(text@, part@),
        out matches Some(rest) ==> rest@ == text@.skip(part@.len() as int),
{
    let chars = to_chars(text);
    let part = to_chars(part);
    if !has_at(chars.as_slice(), part.as_slice(), 0) {
        return None;
    }
    let rest = vstd::slice::slice_subrange(chars.as_slice(), part.len(), chars.len());
    assert(rest@ == text@.skip(part@.len() as int));
    Some(from_chars(rest))
}

/// `s` with every occurrence of `from` replaced by `to`, found from left to right without overlap.
pub open spec fn substituted(s: Seq<char>, from: Seq<char>, to: Seq<char>) -> Seq<char>
    recommends
        from.len() > 0,
    decreases s.len(),
{
    if s.len() == 0 || from.len() == 0 {
        s
    } else if begins(s, from) {
        to + substituted(s.skip(from.len() as int), from, to)
    } else {
        seq![s[0]] + substituted(s.skip(1), from, to)
    }
}

/// `text` with every occurrence of `from` replaced by `to`, as `str::replace` does it.
pub fn replace_text(text: &str, from: &str, to: &str) -> (out: String)
    requires
        from@.len() > 0,
    ensures
        out@ == substituted(text@, from@, to@),
{
    let chars = to_chars(text);
    let wanted = to_chars(from);
    let mut out = String::new();
    let mut i: usize = 0;
    assert(chars@.skip(0) == chars@);
    while i < chars.len()
        invariant
            i <= chars.len(),
            wanted@ == from@,
            from@.len() > 0,
            out@ + substituted(chars@.skip(i as int), from@, to@) == substituted(
                chars@,
                from@,
                to@,
            ),
        decreases chars.len() - i,
    {
        let ghost rest = chars@.skip(i as int);
        let ghost before = out@;
        if has_at(chars.as_slice(), wanted.as_slice(), i) {
            assert(rest.subrange(0, from@.len() as int) == chars@.subrange(
                i as int,
                i + from@.len(),
            ));
            assert(begins(rest, from@));
            assert(rest.skip(from@.len() as int) == chars@.skip(i + from@.len()));
            out.append(to);
            i = i + wanted.len();
            assert(before + (to@ + substituted(chars@.skip(i as int), from@, to@)) == out@
                + substituted(chars@.skip(i as int), from@, to@));
        } else {
            assert(begins(rest, from@) ==> rest.subrange(0, from@.len() as int) == chars@.subrange(
                i as int,
                i + from@.len(),
            ));
            assert(!begins(rest, from@));
            assert(rest.skip(1) == chars@.skip(i + 1));
            out.push(chars[i]);
            i = i + 1;
            assert(before + (seq![rest[0]] + substituted(chars@.skip(i as int), from@, to@)) == out@
                + substituted(chars@.skip(i as int), from@, to@));
        }
    }
    assert(out@ + chars@.skip(i as int) == out@);
    out
}

/// Whether `c` is one of the ten ASCII digits.
pub open spec fn is_digit(c: char) -> bool {
    '0' <= c <= '9'
}

/// Whether every character of `s` is an ASCII digit.
pub open spec fn all_digits(s: Seq<char>) -> bool {
    forall|i: int| 0 <= i < s.len() ==> is_digit(#[trigger] s[i])
}

/// The number that the ASCII digits `s` write.
pub open spec fn number(s: Seq<char>) -> nat
    decreases s.len(),
{
    if s.len() == 0 {
        0
    } else {
        number(s.drop_last()) * 10 + (s.last() as nat - 48) as nat
    }
}

/// The number that `s` writes in decimal digits with an optional plus sign, if it is at most `max`.
pub open spec fn unsigned_number(s: Seq<char>, max: nat) -> Option<nat> {
    let digits = if s.len() > 0 && s[0] == '+' {
        s.skip(1)
    } else {
        s
    };
    if digits.len() > 0 && all_digits(digits) && number(digits) <= max {
        Some(number(digits))
    } else {
        None
    }
}

/// What an unsigned 64-bit number written as `s` reads as, if it is one.
pub open spec fn parsed_u64(s: Seq<char>) -> Option<nat> {
    unsigned_number(s, u64::MAX as nat)
}

/// What a signed 64-bit number written as `s` reads as, if it is one.
pub open spec fn parsed_i64(s: Seq<char>) -> Option<int> {
    if s.len() > 0 && s[0] == '-' {
        if s.len() > 1 && all_digits(s.skip(1)) && number(s.skip(1)) <= 0x8000_0000_0000_0000 {
            Some(-number(s.skip(1)))
        } else {
            None
        }
    } else {
        match unsigned_number(s, i64::MAX as nat) {
            Some(n) => Some(n as int),
            None => None,
        }
    }
}

/// A prefix of digits never writes a larger number.
proof fn lemma_number_prefix(s: Seq<char>, n: int)
    requires
        0 <= n <= s.len(),
    ensures
        number(s.take(n)) <= number(s),
    decreases s.len(),
{
    if n < s.len() {
        lemma_number_prefix(s.drop_last(), n);
        assert(s.drop_last().take(n) == s.take(n));
    } else {
        assert(s.take(n) == s);
    }
}

/// The digits of `chars` from `from` on, as a number, if there are any and nothing else, and the
/// number is at most `max`.
fn read_digits(chars: &[char], from: usize, max: u64) -> (out: Option<u64>)
    requires
        from <= chars.len(),
    ensures
        ({
            let digits = chars@.skip(from as int);
            &&& out is Some <==> digits.len() > 0 && all_digits(digits) && number(digits) <= max
            &&& out matches Some(n) ==> n == number(digits)
        }),
{
    let ghost digits = chars@.skip(from as int);
    if from == chars.len() {
        return None;
    }
    let mut n: u64 = 0;
    let mut i: usize = from;
    assert(digits.take(0) == Seq::<char>::empty());
    while i < chars.len()
        invariant
            from <= i <= chars.len(),
            digits == chars@.skip(from as int),
            n == number(digits.take(i - from)),
            n <= max,
            all_digits(digits.take(i - from)),
        decreases chars.len() - i,
    {
        let c = chars[i];
        assert(digits[i - from] == c);
        if !('0' <= c && c <= '9') {
            return None;
        }
        let d: u64 = (c as u32 - 48) as u64;
        assert(digits.take(i - from + 1).drop_last() == digits.take(i - from));
        assert(number(digits.take(i - from + 1)) == n * 10 + d);
        proof {
            lemma_number_prefix(digits, i - from + 1);
        }
        if n > max / 10 || d > max - n * 10 {
            assert(number(digits.take(i - from + 1)) > max) by {
                if n > max / 10 {
                    assert(n * 10 > max) by (nonlinear_arith)
                        requires
                            n > max / 10,
                    ;
                }
            }
            return None;
        }
        n = n * 10 + d;
        i = i + 1;
        assert(forall|j: int|
            0 <= j < i - from ==> #[trigger] digits.take(i - from)[j] == if j < i - from - 1 {
                digits.take(i - from - 1)[j]
            } else {
                c
            });
    }
    assert(digits.take(i - from) == digits);
    Some(n)
}

/// The unsigned number that `text` writes, as `str::parse::<u64>` reads it.
pub fn parse_u64(text: &str) -> (out: Option<u64>)
    ensures
        out is Some <==> parsed_u64(text@) is Some,
        out matches Some(n) ==> parsed_u64(text@) == Some(n as nat),
{
    let chars = to_chars(text);
    let from: usize = if chars.len() > 0 && chars[0] == '+' {
        1
    } else {
        0
    };
    assert(chars@.skip(0) == chars@);
    read_digits(chars.as_slice(), from, u64::MAX)
}

/// The signed number that `text` writes, as `str::parse::<i64>` reads it.
pub fn parse_i64(text: &str) -> (out: Option<i64>)
    ensures
        out is Some <==> parsed_i64(text@) is Some,
        out matches Some(n) ==> parsed_i64(text@) == Some(n as int),
{
    let chars = to_chars(text);
    assert(chars@.skip(0) == chars@);
    if chars.len() > 0 && chars[0] == '-' {
        return match read_digits(chars.as_slice(), 1, 0x8000_0000_0000_0000) {
            Some(n) => {
                if n == 0x8000_0000_0000_0000 {
                    Some(i64::MIN)
                } else {
                    Some(-(n as i64))
                }
            },
            None => None,
        };
    }
    let from: usize = if chars.len() > 0 && chars[0] == '+' {
        1
    } else {
        0
    };
    match read_digits(chars.as_slice(), from, i64::MAX as u64) {
        Some(n) => Some(n as i64),
        None => None,
    }
}

/// A number is never the empty text, and only digits write it.
pub proof fn lemma_decimal_digits(n: nat)
    ensures
        decimal(n).len() > 0,
        all_digits(decimal(n)),
        number(decimal(n)) == n,
    decreases n,
{
    reveal_with_fuel(number, 2);
    if n < 10 {
        assert(seq![digit(n)].drop_last() == Seq::<char>::empty());
    } else {
        lemma_decimal_digits(n / 10);
        assert(decimal(n).drop_last() == decimal(n / 10));
    }
}

/// Reading a number back from its decimal form gives the number.
pub proof fn decimal_reads_back(n: u64)
    ensures
        parsed_u64(decimal(n as nat)) == Some(n as nat),
{
    lemma_decimal_digits(n as nat);
    assert(is_digit(decimal(n as nat)[0]));
}

/// Reading a signed number back from its decimal form gives the number.
pub proof fn signed_decimal_reads_back(n: i64)
    ensures
        parsed_i64(signed_decimal(n as int)) == Some(n as int),
{
    if n < 0 {
        lemma_decimal_digits((-n) as nat);
        assert(signed_decimal(n as int).skip(1) == decimal((-n) as nat));
    } else {
        lemma_decimal_digits(n as nat);
        assert(is_digit(decimal(n as nat)[0]));
    }
}

/// The first index of `s` whose character is one of `stops`, or the length of `s`.
pub open spec fn first_stop(s: Seq<char>, stops: Seq<char>) -> int
    decreases s.len(),
{
    if s.len() == 0 || stops.contains(s[0]) {
        0
    } else {
        1 + first_stop(s.skip(1), stops)
    }
}

/// `s` up to the first of `stops`.
pub open spec fn until(s: Seq<char>, stops: Seq<char>) -> Seq<char> {
    s.take(first_stop(s, stops))
}

/// The last index of `s` whose character is `c`, or -1.
pub open spec fn last_index(s: Seq<char>, c: char) -> int
    decreases s.len(),
{
    if s.len() == 0 {
        -1
    } else if s.last() == c {
        s.len() - 1
    } else {
        last_index(s.drop_last(), c)
    }
}

/// `s` behind the last `c`, or all of it.
pub open spec fn after_last(s: Seq<char>, c: char) -> Seq<char> {
    s.skip(last_index(s, c) + 1)
}

/// The first stop is where it is said to be.
pub proof fn lemma_first_stop(s: Seq<char>, stops: Seq<char>)
    ensures
        0 <= first_stop(s, stops) <= s.len(),
        forall|i: int| 0 <= i < first_stop(s, stops) ==> !stops.contains(#[trigger] s[i]),
        first_stop(s, stops) < s.len() ==> stops.contains(s[first_stop(s, stops)]),
    decreases s.len(),
{
    if s.len() > 0 && !stops.contains(s[0]) {
        let t = s.skip(1);
        lemma_first_stop(t, stops);
        assert forall|i: int| 0 <= i < first_stop(s, stops) implies !stops.contains(
            #[trigger] s[i],
        ) by {
            if i > 0 {
                assert(t[i - 1] == s[i]);
            }
        }
    }
}

/// The last index is where it is said to be.
pub proof fn lemma_last_index(s: Seq<char>, c: char)
    ensures
        -1 <= last_index(s, c) < s.len(),
        last_index(s, c) >= 0 ==> s[last_index(s, c)] == c,
        forall|i: int| last_index(s, c) < i < s.len() ==> #[trigger] s[i] != c,
    decreases s.len(),
{
    if s.len() > 0 && s.last() != c {
        let t = s.drop_last();
        lemma_last_index(t, c);
        assert forall|i: int| last_index(s, c) < i < s.len() implies #[trigger] s[i] != c by {
            if i < t.len() {
                assert(t[i] == s[i]);
            }
        }
    }
}

/// Whether `c` is one of `stops`.
fn is_one_of(c: char, stops: &[char]) -> (out: bool)
    ensures
        out == stops@.contains(c),
{
    let mut i: usize = 0;
    while i < stops.len()
        invariant
            i <= stops.len(),
            forall|j: int| 0 <= j < i ==> stops@[j] != c,
        decreases stops.len() - i,
    {
        if stops[i] == c {
            return true;
        }
        i = i + 1;
    }
    false
}

/// The first index of `text` whose character is one of `stops`, or the length of `text`.
pub fn find_stop(text: &[char], stops: &[char]) -> (out: usize)
    ensures
        out == first_stop(text@, stops@),
        out <= text.len(),
{
    let mut i: usize = 0;
    assert(text@.skip(0) == text@);
    while i < text.len() && !is_one_of(text[i], stops)
        invariant
            i <= text.len(),
            i + first_stop(text@.skip(i as int), stops@) == first_stop(text@, stops@),
        decreases text.len() - i,
    {
        assert(text@.skip(i as int).skip(1) == text@.skip(i + 1));
        i = i + 1;
    }
    i
}

/// The last index of `text` whose character is `c`.
pub fn find_last(text: &[char], c: char) -> (out: Option<usize>)
    ensures
        out is None <==> last_index(text@, c) == -1,
        out matches Some(i) ==> i == last_index(text@, c) && i < text.len(),
{
    let mut i: usize = text.len();
    assert(text@.take(i as int) == text@);
    while i > 0 && text[i - 1] != c
        invariant
            i <= text.len(),
            last_index(text@.take(i as int), c) == last_index(text@, c),
        decreases i,
    {
        assert(text@.take(i as int).drop_last() == text@.take(i - 1));
        i = i - 1;
    }
    proof {
        lemma_last_index(text@, c);
    }
    if i == 0 {
        None
    } else {
        Some(i - 1)
    }
}

/// `c` in lower case if it is an ASCII letter.
pub open spec fn ascii_lower_char(c: char) -> char {
    if 'A' <= c <= 'Z' {
        (c as u32 + 32) as char
    } else {
        c
    }
}

/// `s` with its ASCII letters in lower case.
pub open spec fn ascii_lower(s: Seq<char>) -> Seq<char> {
    Seq::new(s.len(), |i: int| ascii_lower_char(s[i]))
}

/// The text of `chars` with its ASCII letters in lower case.
pub fn ascii_lower_text(chars: &[char]) -> (out: String)
    ensures
        out@ == ascii_lower(chars@),
{
    let mut out = String::new();
    let mut i: usize = 0;
    while i < chars.len()
        invariant
            i <= chars.len(),
            out@ == ascii_lower(chars@).take(i as int),
        decreases chars.len() - i,
    {
        let c = chars[i];
        if 'A' <= c && c <= 'Z' {
            out.push((c as u8 + 32) as char);
        } else {
            out.push(c);
        }
        i = i + 1;
        assert(ascii_lower(chars@).take(i as int) == ascii_lower(chars@).take(i - 1).push(
            ascii_lower_char(c),
        ));
    }
    assert(ascii_lower(chars@).take(i as int) == ascii_lower(chars@));
    out
}

/// `parts` with `separator` between each two of them.
pub open spec fn joined(parts: Seq<Seq<char>>, separator: Seq<char>) -> Seq<char>
    decreases parts.len(),
{
    if parts.len() == 0 {
        Seq::empty()
    } else if parts.len() == 1 {
        parts[0]
    } else {
        joined(parts.drop_last(), separator) + separator + parts.last()
    }
}

/// The views of `parts`.
pub open spec fn views(parts: Seq<String>) -> Seq<Seq<char>> {
    Seq::new(parts.len(), |i: int| parts[i]@)
}

/// `parts` with `separator` between each two of them.
pub fn join(parts: &Vec<String>, separator: &str) -> (out: String)
    ensures
        out@ == joined(views(parts@), separator@),
{
    let mut out = String::new();
    let mut i: usize = 0;
    while i < parts.len()
        invariant
            i <= parts.len(),
            out@ == joined(views(parts@).take(i as int), separator@),
        decreases parts.len() - i,
    {
        if i > 0 {
            out.append(separator);
        }
        out.append(parts[i].as_str());
        i = i + 1;
        assert(views(parts@).take(i as int).drop_last() == views(parts@).take(i - 1));
        if i == 1 {
            assert(views(parts@).take(1)[0] == parts@[0]@);
        }
    }
    assert(views(parts@).take(i as int) == views(parts@));
    out
}

/// `text` in lower case, by the Unicode property Lowercase.
pub uninterp spec fn lower_case(text: Seq<char>) -> Seq<char>;

/// `str::to_lowercase` of std depends on the text alone; its result is named, since stating the
/// Unicode tables takes pages.
pub assume_specification[ str::to_lowercase ](s: &str) -> (out: String)
    ensures
        out@ == lower_case(s@),
;

/// Edge characters before a text that does not begin with one are cut off.
proof fn lemma_front_cut(edge: Edge, front: Seq<char>, s: Seq<char>)
    requires
        forall|i: int| 0 <= i < front.len() ==> edge.holds(#[trigger] front[i]),
        s.len() > 0 ==> !edge.holds(s[0]),
    ensures
        trim_start(edge, front + s) == s,
    decreases front.len(),
{
    if front.len() == 0 {
        assert(front + s =~= s);
    } else {
        assert((front + s)[0] == front[0]);
        assert((front + s).skip(1) =~= front.skip(1) + s);
        assert forall|i: int| 0 <= i < front.skip(1).len() implies edge.holds(
            #[trigger] front.skip(1)[i],
        ) by {
            assert(front.skip(1)[i] == front[i + 1]);
        }
        lemma_front_cut(edge, front.skip(1), s);
    }
}

/// Edge characters behind a text that does not end with one are cut off.
proof fn lemma_back_cut(edge: Edge, s: Seq<char>, back: Seq<char>)
    requires
        forall|i: int| 0 <= i < back.len() ==> edge.holds(#[trigger] back[i]),
        s.len() > 0 ==> !edge.holds(s.last()),
    ensures
        trim_end(edge, s + back) == s,
    decreases back.len(),
{
    if back.len() == 0 {
        assert(s + back =~= s);
    } else {
        let rest = back.drop_last();
        assert((s + back).last() == back[back.len() - 1]);
        assert((s + back).drop_last() =~= s + rest);
        assert forall|i: int| 0 <= i < rest.len() implies edge.holds(#[trigger] rest[i]) by {
            assert(rest[i] == back[i]);
        }
        lemma_back_cut(edge, s, rest);
    }
}

/// Trimming takes off all edge characters at both ends and nothing else: what stands between them is
/// what is left. Of edge characters alone nothing is left.
pub proof fn trimming_takes_the_edges_off(
    edge: Edge,
    front: Seq<char>,
    s: Seq<char>,
    back: Seq<char>,
)
    requires
        forall|i: int| 0 <= i < front.len() ==> edge.holds(#[trigger] front[i]),
        forall|i: int| 0 <= i < back.len() ==> edge.holds(#[trigger] back[i]),
        s.len() > 0 ==> !edge.holds(s[0]) && !edge.holds(s.last()),
    ensures
        s.len() > 0 ==> trimmed(edge, front + s + back) == s,
        s.len() > 0 ==> trim_end(edge, s + back) == s,
        trimmed(edge, front) == Seq::<char>::empty(),
{
    if s.len() > 0 {
        assert(front + s + back =~= front + (s + back));
        assert((s + back)[0] == s[0]);
        lemma_front_cut(edge, front, s + back);
        lemma_back_cut(edge, s, back);
    }
    assert(front + Seq::<char>::empty() =~= front);
    lemma_front_cut(edge, front, Seq::empty());
}

/// White space, of ordinary and of full width, tabs and line ends are cut off where white space is,
/// and the pause where it is meant too. Letters, digits and other signs are not.
pub proof fn what_the_edges_are(c: char)
    ensures
        c == ' ' || c == '　' || c == '\t' || c == '\n' || c == '\r' ==> Edge::Space.holds(c),
        Edge::SpaceOrComma.holds(c) <==> Edge::Space.holds(c) || c == '、',
        Edge::Quote.holds(c) <==> c == '"',
        Edge::Slash.holds(c) <==> c == '/',
        '!' <= c <= '~' ==> !Edge::Space.holds(c),
        'ぁ' <= c <= '龥' ==> !Edge::Space.holds(c),
{
}

/// Small letters take the place of the capital letters from A to Z; every other character stays as it
/// is, and so does the length.
pub proof fn small_letters_take_the_place_of_capitals(s: Seq<char>, i: int, n: nat)
    requires
        0 <= i < s.len(),
        n < 26,
    ensures
        ascii_lower(s).len() == s.len(),
        s[i] == (65 + n) as char ==> ascii_lower(s)[i] == (97 + n) as char,
        !('A' <= s[i] <= 'Z') ==> ascii_lower(s)[i] == s[i],
        ascii_lower(ascii_lower(s)) == ascii_lower(s),
{
    assert(ascii_lower(ascii_lower(s)) =~= ascii_lower(s)) by {
        assert forall|j: int| 0 <= j < s.len() implies ascii_lower(ascii_lower(s))[j]
            == #[trigger] ascii_lower(s)[j] by {
            assert(ascii_lower(s)[j] == ascii_lower_char(s[j]));
        }
    }
}

/// A join holds its parts in their order with the separator between each two of them.
pub proof fn a_join_holds_its_parts(
    front: Seq<Seq<char>>,
    back: Seq<Seq<char>>,
    separator: Seq<char>,
)
    requires
        front.len() > 0,
        back.len() > 0,
    ensures
        joined(front + back, separator) == joined(front, separator) + separator + joined(
            back,
            separator,
        ),
        joined(seq![front[0]], separator) == front[0],
        joined(Seq::empty(), separator) == Seq::<char>::empty(),
    decreases back.len(),
{
    let all = front + back;
    assert(all.last() == back.last());
    if back.len() == 1 {
        assert(all.drop_last() =~= front);
        assert(joined(back, separator) == back[0]);
    } else {
        let rest = back.drop_last();
        a_join_holds_its_parts(front, rest, separator);
        assert(all.drop_last() =~= front + rest);
        assert(joined(front, separator) + separator + joined(rest, separator) + separator
            + back.last() =~= joined(front, separator) + separator + (joined(rest, separator)
            + separator + back.last()));
    }
}

/// A text that is put together holds each of its parts.
pub proof fn a_part_stands_where_it_was_put(before: Seq<char>, part: Seq<char>, after: Seq<char>)
    ensures
        stands_at(before + part + after, part, before.len() as int),
        begins(before + part, before),
        ends(part + after, after),
        occurs(before + part + after, part),
{
    let whole = before + part + after;
    assert(whole.subrange(before.len() as int, (before.len() + part.len()) as int) =~= part);
    assert((before + part).subrange(0, before.len() as int) =~= before);
    assert((part + after).subrange(part.len() as int, (part + after).len() as int) =~= after);
    assert(stands_at(whole, part, before.len() as int));
}

/// Parts that are put together one after the other can be put together in any grouping.
pub(crate) proof fn lemma_grouping(a: Seq<char>, b: Seq<char>, c: Seq<char>)
    ensures
        a + b + c == a + (b + c),
{
    assert(a + b + c =~= a + (b + c));
}

/// What a text holds, it still holds when something is added behind it.
pub(crate) proof fn lemma_still_occurs(text: Seq<char>, more: Seq<char>, part: Seq<char>)
    requires
        occurs(text, part),
    ensures
        occurs(text + more, part),
{
    let i = choose|i: int| stands_at(text, part, i);
    assert((text + more).subrange(i, i + part.len()) =~= text.subrange(i, i + part.len()));
    assert(stands_at(text + more, part, i));
}

/// Digits are read as their number, also with a plus before them, as long as it is not too great. Nothing
/// else is read but digits with a minus where a number may be negative.
pub proof fn only_digits_are_read(s: Seq<char>)
    ensures
        s.len() > 0 && all_digits(s) ==> {
            &&& parsed_u64(s) == if number(s) <= u64::MAX {
                Some(number(s))
            } else {
                None
            }
            &&& parsed_u64(seq!['+'] + s) == parsed_u64(s)
            &&& parsed_i64(s) == if number(s) <= i64::MAX {
                Some(number(s) as int)
            } else {
                None
            }
            &&& parsed_i64(seq!['+'] + s) == parsed_i64(s)
            &&& number(s) <= i64::MAX ==> parsed_i64(seq!['-'] + s) == Some(-number(s))
        },
        s.len() == 0 || !all_digits(s) ==> {
            &&& parsed_u64(seq!['+'] + s) is None
            &&& parsed_i64(seq!['+'] + s) is None
            &&& parsed_i64(seq!['-'] + s) is None
        },
        !all_digits(s) && s[0] != '+' ==> parsed_u64(s) is None,
        parsed_u64(Seq::empty()) is None,
        parsed_i64(Seq::empty()) is None,
{
    let plus = seq!['+'] + s;
    let minus = seq!['-'] + s;
    assert(plus.skip(1) =~= s);
    assert(minus.skip(1) =~= s);
    assert(plus[0] == '+' && minus[0] == '-');
    if s.len() > 0 && all_digits(s) {
        assert(is_digit(s[0]));
    }
}

} // verus!
