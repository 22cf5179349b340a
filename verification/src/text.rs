//! Text building blocks shared by the library: decimal and hexadecimal
//! rendering and character-level string access.
use vstd::prelude::*;
use vstd::string::{StrSliceExecFns, StringExecFns};

verus! {

/// The ASCII decimal digit for `d` (`d < 10`).
pub open spec fn digit_char(d: nat) -> char {
    (('0' as u8) + d) as char
}

/// Decimal rendering of a natural number, most significant digit first,
/// without leading zeros (zero renders as `"0"`).
pub open spec fn decimal(n: nat) -> Seq<char>
    decreases n,
{
    if n < 10 {
        seq![digit_char(n)]
    } else {
        decimal(n / 10).push(digit_char(n % 10))
    }
}

/// Decimal rendering of an integer with a leading `-` when negative.
pub open spec fn signed_decimal(n: int) -> Seq<char> {
    if n < 0 {
        seq!['-'] + decimal((-n) as nat)
    } else {
        decimal(n as nat)
    }
}

/// Appends one character to a string (`String::push`).
#[verifier::external_body]
pub fn push_char(s: &mut String, c: char)
    ensures
        final(s)@ == old(s)@.push(c),
{
    s.push(c);
}

/// Appends the decimal rendering of `n`.
pub fn push_decimal(s: &mut String, n: u64)
    ensures
        final(s)@ == old(s)@ + decimal(n as nat),
    decreases n,
{
    if n >= 10 {
        push_decimal(s, n / 10);
    }
    let d = (n % 10) as u8;
    push_char(s, (48u8 + d) as char);
    assert(s@ =~= old(s)@ + decimal(n as nat));
}

/// Appends the decimal rendering of `n`, with a leading `-` when negative.
pub fn push_signed_decimal(s: &mut String, n: i64)
    ensures
        final(s)@ == old(s)@ + signed_decimal(n as int),
{
    if n < 0 {
        push_char(s, '-');
        let magnitude: u64 = if n == i64::MIN {
            9223372036854775808u64
        } else {
            (-n) as u64
        };
        push_decimal(s, magnitude);
        assert(s@ =~= old(s)@ + signed_decimal(n as int));
    } else {
        push_decimal(s, n as u64);
    }
}

/// A new string holding `text` followed by the decimal rendering of `n`.
pub fn text_with_signed(text: &str, n: i64) -> (s: String)
    ensures
        s@ == text@ + signed_decimal(n as int),
{
    let mut s = String::from_str(text);
    push_signed_decimal(&mut s, n);
    s
}

/// The text `String::from_utf8_lossy` makes of `bytes`: valid UTF-8 decoded,
/// each invalid sequence replaced by U+FFFD.
pub uninterp spec fn utf8_lossy(bytes: Seq<u8>) -> Seq<char>;

/// `String::from_utf8_lossy`, owned. Its result is named by `utf8_lossy`;
/// for valid UTF-8 input the documentation promises the decoded text.
#[verifier::external_body]
pub(crate) fn lossy_text(bytes: &[u8]) -> (text: String)
    ensures
        text@ == utf8_lossy(bytes@),
        vstd::utf8::valid_utf8(bytes@) ==> text@ == vstd::utf8::decode_utf8(bytes@),
{
    String::from_utf8_lossy(bytes).into_owned()
}

/// Whether every byte is ASCII (below 0x80).
pub open spec fn all_ascii(bytes: Seq<u8>) -> bool {
    forall|i: int| 0 <= i < bytes.len() ==> #[trigger] bytes[i] < 128
}

/// The characters with the codes of `bytes`, one per byte.
pub open spec fn ascii_chars(bytes: Seq<u8>) -> Seq<char> {
    bytes.map_values(|b: u8| b as char)
}

/// ASCII bytes are valid UTF-8, and each decodes to the character with its
/// code.
pub proof fn ascii_decodes_bytewise(bytes: Seq<u8>)
    requires
        all_ascii(bytes),
    ensures
        vstd::utf8::valid_utf8(bytes),
        vstd::utf8::decode_utf8(bytes) == ascii_chars(bytes),
    decreases bytes.len(),
{
    if bytes.len() > 0 {
        let b = bytes[0];
        assert(b < 128);
        assert(b & 0x7f == b) by (bit_vector)
            requires
                b < 128,
        ;
        let rest = bytes.drop_first();
        assert(vstd::utf8::pop_first_scalar(bytes) =~= rest);
        assert forall|i: int| 0 <= i < rest.len() implies #[trigger] rest[i] < 128 by {
            assert(rest[i] == bytes[i + 1]);
        }
        ascii_decodes_bytewise(rest);
        assert(ascii_chars(bytes) =~= seq![b as char] + ascii_chars(rest));
    }
}

/// Whether `needle` occurs as a contiguous run in `haystack`.
pub open spec fn contains_text(haystack: Seq<char>, needle: Seq<char>) -> bool {
    exists|i: int|
        0 <= i && i + needle.len() <= haystack.len() && #[trigger] haystack.subrange(
            i,
            i + needle.len(),
        ) == needle
}

/// The characters of `s`.
pub fn chars_of(s: &str) -> (chars: Vec<char>)
    ensures
        chars@ == s@,
{
    let n = s.unicode_len();
    let mut chars: Vec<char> = Vec::new();
    let mut i: usize = 0;
    while i < n
        invariant
            n == s@.len(),
            i <= n,
            chars@ == s@.subrange(0, i as int),
        decreases n - i,
    {
        chars.push(s.get_char(i));
        assert(chars@ =~= s@.subrange(0, i + 1));
        i += 1;
    }
    assert(chars@ =~= s@);
    chars
}

/// Whether `haystack` holds `needle` at position `at`.
fn matches_at(haystack: &[char], needle: &[char], at: usize) -> (found: bool)
    requires
        at + needle@.len() <= haystack.len(),
    ensures
        found == (haystack@.subrange(at as int, at + needle@.len()) == needle@),
{
    let mut j: usize = 0;
    while j < needle.len()
        invariant
            j <= needle@.len(),
            at + needle@.len() <= haystack.len(),
            forall|k: int| 0 <= k < j ==> haystack@[at + k] == needle@[k],
        decreases needle@.len() - j,
    {
        if haystack[at + j] != needle[j] {
            assert(haystack@.subrange(at as int, at + needle@.len())[j as int] != needle@[j as int]);
            return false;
        }
        j += 1;
    }
    assert(haystack@.subrange(at as int, at + needle@.len()) =~= needle@);
    true
}

/// Whether `needle` occurs in `haystack`.
pub fn contains_chars(haystack: &[char], needle: &[char]) -> (found: bool)
    ensures
        found == contains_text(haystack@, needle@),
{
    if needle.len() > haystack.len() {
        return false;
    }
    if needle.len() == 0 {
        assert(haystack@.subrange(0int, 0int + needle@.len()) =~= needle@);
        return true;
    }
    let last = haystack.len() - needle.len();
    let mut at: usize = 0;
    while at <= last
        invariant
            last + needle@.len() == haystack.len(),
            needle@.len() > 0,
            forall|i: int|
                0 <= i < at ==> #[trigger] haystack@.subrange(i, i + needle@.len()) != needle@,
        decreases last + 1 - at,
    {
        if matches_at(haystack, needle, at) {
            return true;
        }
        at += 1;
    }
    false
}

/// Whether `needle` occurs in `haystack`.
pub fn contains_str(haystack: &str, needle: &str) -> (found: bool)
    ensures
        found == contains_text(haystack@, needle@),
{
    let h = chars_of(haystack);
    let n = chars_of(needle);
    contains_chars(h.as_slice(), n.as_slice())
}

/// `String::from_utf8`: the bytes as text when they are valid UTF-8, and
/// `None` otherwise (the error is dropped).
#[verifier::external_body]
pub(crate) fn utf8_text(bytes: Vec<u8>) -> (text: Option<String>)
    ensures
        match text {
            Some(t) => vstd::utf8::valid_utf8(bytes@) && t@ == vstd::utf8::decode_utf8(bytes@),
            None => !vstd::utf8::valid_utf8(bytes@),
        },
{
    String::from_utf8(bytes).ok()
}

/// Whether `s` begins with `prefix`.
pub open spec fn has_prefix(s: Seq<char>, prefix: Seq<char>) -> bool {
    prefix.len() <= s.len() && s.subrange(0, prefix.len() as int) == prefix
}

/// Whether `s` begins with `prefix`.
pub fn starts_with(s: &str, prefix: &str) -> (found: bool)
    ensures
        found == has_prefix(s@, prefix@),
{
    let chars = chars_of(s);
    let head = chars_of(prefix);
    if head.len() > chars.len() {
        return false;
    }
    let mut i: usize = 0;
    while i < head.len()
        invariant
            chars@ == s@,
            head@ == prefix@,
            head@.len() <= chars@.len(),
            i <= head@.len(),
            forall|k: int| 0 <= k < i ==> chars@[k] == head@[k],
        decreases head@.len() - i,
    {
        if chars[i] != head[i] {
            assert(s@.subrange(0, prefix@.len() as int)[i as int] != prefix@[i as int]);
            return false;
        }
        i += 1;
    }
    assert(s@.subrange(0, prefix@.len() as int) =~= prefix@);
    true
}

/// Whether `s` ends with `suffix`.
pub open spec fn has_suffix(s: Seq<char>, suffix: Seq<char>) -> bool {
    suffix.len() <= s.len() && s.subrange(s.len() - suffix.len(), s.len() as int) == suffix
}

/// Whether `s` ends with `suffix`.
pub fn ends_with(s: &str, suffix: &str) -> (found: bool)
    ensures
        found == has_suffix(s@, suffix@),
{
    let chars = chars_of(s);
    let tail = chars_of(suffix);
    if tail.len() > chars.len() {
        return false;
    }
    matches_at(chars.as_slice(), tail.as_slice(), chars.len() - tail.len())
}

/// Whether `a` sorts strictly before `b`, comparing characters by code point
/// from position `k` on (a proper prefix sorts first).
pub open spec fn text_lt_from(a: Seq<char>, b: Seq<char>, k: nat) -> bool
    decreases a.len() - k,
{
    if k >= b.len() {
        false
    } else if k >= a.len() {
        true
    } else if a[k as int] != b[k as int] {
        a[k as int] < b[k as int]
    } else {
        text_lt_from(a, b, k + 1)
    }
}

/// Whether `a` sorts strictly before `b` in lexicographic code-point order,
/// the order `str` comparison uses.
pub open spec fn text_lt(a: Seq<char>, b: Seq<char>) -> bool {
    text_lt_from(a, b, 0)
}

proof fn lemma_text_lt_from_irreflexive(a: Seq<char>, k: nat)
    ensures
        !text_lt_from(a, a, k),
    decreases a.len() - k,
{
    if k < a.len() {
        lemma_text_lt_from_irreflexive(a, k + 1);
    }
}

proof fn lemma_text_lt_from_transitive(a: Seq<char>, b: Seq<char>, c: Seq<char>, k: nat)
    requires
        text_lt_from(a, b, k),
        text_lt_from(b, c, k),
    ensures
        text_lt_from(a, c, k),
    decreases a.len() - k,
{
    if k < a.len() && k < b.len() && k < c.len() && a[k as int] == b[k as int] && b[k as int]
        == c[k as int] {
        lemma_text_lt_from_transitive(a, b, c, k + 1);
    }
}

/// Text order is a strict order: never `a < a`, and `a < b < c` gives
/// `a < c`.
pub proof fn text_order_is_strict(a: Seq<char>, b: Seq<char>, c: Seq<char>)
    ensures
        !text_lt(a, a),
        text_lt(a, b) && text_lt(b, c) ==> text_lt(a, c),
{
    lemma_text_lt_from_irreflexive(a, 0);
    if text_lt(a, b) && text_lt(b, c) {
        lemma_text_lt_from_transitive(a, b, c, 0);
    }
}

/// How `a` and `b` compare: whether `a` sorts first, and whether they are
/// equal.
pub fn compare_text(a: &str, b: &str) -> (order: (bool, bool))
    ensures
        order.0 == text_lt(a@, b@),
        order.1 == (a@ == b@),
{
    let x = chars_of(a);
    let y = chars_of(b);
    let mut i: usize = 0;
    while i < x.len() && i < y.len() && x[i] == y[i]
        invariant
            x@ == a@,
            y@ == b@,
            i <= x@.len(),
            i <= y@.len(),
            text_lt(a@, b@) == text_lt_from(a@, b@, i as nat),
            a@.subrange(0, i as int) == b@.subrange(0, i as int),
        decreases x@.len() - i,
    {
        assert(a@.subrange(0, i + 1) =~= a@.subrange(0, i as int).push(a@[i as int]));
        assert(b@.subrange(0, i + 1) =~= b@.subrange(0, i as int).push(b@[i as int]));
        i += 1;
    }
    if i < x.len() && i < y.len() {
        assert(a@[i as int] != b@[i as int]);
        (x[i] < y[i], false)
    } else if i < y.len() {
        assert(a@.len() != b@.len());
        (true, false)
    } else if i < x.len() {
        assert(a@.len() != b@.len());
        (false, false)
    } else {
        assert(a@ =~= a@.subrange(0, i as int));
        assert(b@ =~= b@.subrange(0, i as int));
        (false, true)
    }
}

/// Appends `t` to `s`.
pub fn push_str(s: &mut String, t: &str)
    ensures
        final(s)@ == old(s)@ + t@,
{
    let chars = chars_of(t);
    let mut k: usize = 0;
    while k < chars.len()
        invariant
            chars@ == t@,
            k <= chars@.len(),
            s@ == old(s)@ + chars@.take(k as int),
        decreases chars@.len() - k,
    {
        push_char(s, chars[k]);
        assert(chars@.take(k + 1) =~= chars@.take(k as int).push(chars@[k as int]));
        k += 1;
    }
    assert(chars@.take(chars@.len() as int) =~= chars@);
}

/// Whether `c` is white space as `char::is_whitespace` counts it (the
/// Unicode `White_Space` property).
pub open spec fn is_white_space(c: char) -> bool {
    ('\u{9}' <= c && c <= '\u{d}') || c == ' ' || c == '\u{85}' || c == '\u{a0}' || c == '\u{1680}'
        || ('\u{2000}' <= c && c <= '\u{200a}') || c == '\u{2028}' || c == '\u{2029}' || c
        == '\u{202f}' || c == '\u{205f}' || c == '\u{3000}'
}

fn white_space(c: char) -> (w: bool)
    ensures
        w == is_white_space(c),
{
    ('\u{9}' <= c && c <= '\u{d}') || c == ' ' || c == '\u{85}' || c == '\u{a0}' || c == '\u{1680}'
        || ('\u{2000}' <= c && c <= '\u{200a}') || c == '\u{2028}' || c == '\u{2029}' || c
        == '\u{202f}' || c == '\u{205f}' || c == '\u{3000}'
}

/// Whether `c` is white space in XML: space, tab, carriage return or line
/// feed.
pub open spec fn is_xml_space(c: char) -> bool {
    c == ' ' || c == '\t' || c == '\r' || c == '\n'
}

/// Whether `c` is white space: in XML's sense when `xml`, else in
/// Unicode's.
pub open spec fn is_space(c: char, xml: bool) -> bool {
    if xml {
        is_xml_space(c)
    } else {
        is_white_space(c)
    }
}

fn space(c: char, xml: bool) -> (w: bool)
    ensures
        w == is_space(c, xml),
{
    if xml {
        c == ' ' || c == '\t' || c == '\r' || c == '\n'
    } else {
        white_space(c)
    }
}

/// Number of white-space characters at the start of `s`.
pub open spec fn leading_space(s: Seq<char>, xml: bool) -> nat
    decreases s.len(),
{
    if s.len() > 0 && is_space(s[0], xml) {
        1 + leading_space(s.drop_first(), xml)
    } else {
        0
    }
}

/// Number of white-space characters at the end of `s`.
pub open spec fn trailing_space(s: Seq<char>, xml: bool) -> nat
    decreases s.len(),
{
    if s.len() > 0 && is_space(s.last(), xml) {
        1 + trailing_space(s.drop_last(), xml)
    } else {
        0
    }
}

/// `s` without white space at either end.
pub open spec fn trimmed_by(s: Seq<char>, xml: bool) -> Seq<char> {
    let front = s.skip(leading_space(s, xml) as int);
    front.take(front.len() - trailing_space(front, xml))
}

/// `s` without Unicode white space at either end (`str::trim`).
pub open spec fn trimmed(s: Seq<char>) -> Seq<char> {
    trimmed_by(s, false)
}

/// `s` without XML white space at either end.
pub open spec fn xml_trimmed(s: Seq<char>) -> Seq<char> {
    trimmed_by(s, true)
}

proof fn lemma_leading_space(s: Seq<char>, xml: bool, k: int)
    requires
        0 <= k <= s.len(),
        forall|i: int| 0 <= i < k ==> is_space(#[trigger] s[i], xml),
        k == s.len() || !is_space(s[k], xml),
    ensures
        leading_space(s, xml) == k,
    decreases k,
{
    if k > 0 {
        lemma_leading_space(s.drop_first(), xml, k - 1);
    }
}

proof fn lemma_trailing_space(s: Seq<char>, xml: bool, k: int)
    requires
        0 <= k <= s.len(),
        forall|i: int| s.len() - k <= i < s.len() ==> is_space(#[trigger] s[i], xml),
        k == s.len() || !is_space(s[s.len() - k - 1], xml),
    ensures
        trailing_space(s, xml) == k,
    decreases k,
{
    if k > 0 {
        lemma_trailing_space(s.drop_last(), xml, k - 1);
    }
}

/// `chars` without white space at either end.
fn trim_chars(chars: &[char], xml: bool) -> (t: Vec<char>)
    ensures
        t@ == trimmed_by(chars@, xml),
{
    let n = chars.len();
    let mut a: usize = 0;
    while a < n && space(chars[a], xml)
        invariant
            n == chars@.len(),
            a <= n,
            forall|i: int| 0 <= i < a ==> is_space(#[trigger] chars@[i], xml),
        decreases n - a,
    {
        a += 1;
    }
    proof {
        lemma_leading_space(chars@, xml, a as int);
    }
    let ghost front = chars@.skip(a as int);
    let mut b: usize = n;
    while b > a && space(chars[b - 1], xml)
        invariant
            n == chars@.len(),
            a <= b <= n,
            front == chars@.skip(a as int),
            forall|i: int| b <= i < n ==> is_space(#[trigger] chars@[i], xml),
        decreases b - a,
    {
        b -= 1;
    }
    proof {
        assert forall|i: int| front.len() - (n - b) <= i < front.len() implies is_space(
            #[trigger] front[i],
            xml,
        ) by {
            assert(front[i] == chars@[a + i]);
        }
        if b > a {
            assert(front[front.len() - (n - b) - 1] == chars@[b - 1]);
        }
        lemma_trailing_space(front, xml, (n - b) as int);
    }
    let mut t: Vec<char> = Vec::new();
    let mut k: usize = a;
    while k < b
        invariant
            a <= k <= b <= n,
            n == chars@.len(),
            t@ == chars@.subrange(a as int, k as int),
        decreases b - k,
    {
        t.push(chars[k]);
        assert(t@ =~= chars@.subrange(a as int, k + 1));
        k += 1;
    }
    assert(t@ =~= trimmed_by(chars@, xml));
    t
}

/// `s` without white space at either end (`str::trim`).
pub fn trim_text(s: &str) -> (t: Vec<char>)
    ensures
        t@ == trimmed(s@),
{
    let chars = chars_of(s);
    trim_chars(chars.as_slice(), false)
}

/// `chars` without XML white space at either end.
pub fn xml_trim(chars: &[char]) -> (t: Vec<char>)
    ensures
        t@ == xml_trimmed(chars@),
{
    trim_chars(chars, true)
}

/// Why `u64::from_str` refuses a text.
#[derive(Clone, Copy, Debug, PartialEq, Eq, Structural)]
pub enum NumberError {
    Empty,
    InvalidDigit,
    Overflow,
}

/// The value of a run of decimal digits.
pub open spec fn digit_value(digits: Seq<char>) -> nat
    decreases digits.len(),
{
    if digits.len() == 0 {
        0
    } else {
        digit_value(digits.drop_last()) * 10 + ((digits.last() as nat) - 48) as nat
    }
}

/// Whether `c` is an ASCII digit.
pub open spec fn ascii_digit(c: char) -> bool {
    '0' <= c && c <= '9'
}

/// The digits of a number: the text without one leading `+`.
pub open spec fn number_body(s: Seq<char>) -> Seq<char> {
    if s.len() > 0 && s[0] == '+' {
        s.drop_first()
    } else {
        s
    }
}

/// `u64::from_str`: an optional `+` and at least one ASCII digit, with a
/// value that fits in 64 bits; the error says why not (an empty text is
/// `Empty`, a lone sign `InvalidDigit`).
pub open spec fn parse_u64(s: Seq<char>) -> Result<u64, NumberError> {
    let body = number_body(s);
    if s.len() == 0 {
        Err(NumberError::Empty)
    } else if body.len() == 0 {
        Err(NumberError::InvalidDigit)
    } else if !(forall|i: int| 0 <= i < body.len() ==> ascii_digit(#[trigger] body[i])) {
        Err(NumberError::InvalidDigit)
    } else if digit_value(body) > u64::MAX {
        Err(NumberError::Overflow)
    } else {
        Ok(digit_value(body) as u64)
    }
}

proof fn lemma_digit_value_prefix(digits: Seq<char>, k: int)
    requires
        0 <= k <= digits.len(),
        forall|i: int| 0 <= i < digits.len() ==> ascii_digit(#[trigger] digits[i]),
    ensures
        digit_value(digits.take(k)) <= digit_value(digits),
    decreases digits.len(),
{
    if k < digits.len() {
        lemma_digit_value_prefix(digits.drop_last(), k);
        assert(digits.drop_last().take(k) =~= digits.take(k));
    } else {
        assert(digits.take(k) =~= digits);
    }
}

/// Parses `s` as `u64::from_str` does.
pub fn parse_u64_text(s: &[char]) -> (value: Result<u64, NumberError>)
    ensures
        value == parse_u64(s@),
{
    let n = s.len();
    let mut start: usize = 0;
    if n > 0 && s[0] == '+' {
        start = 1;
    }
    let ghost body = s@.subrange(start as int, n as int);
    assert(body =~= number_body(s@));
    if n == 0 {
        return Err(NumberError::Empty);
    }
    if start == n {
        return Err(NumberError::InvalidDigit);
    }
    let mut i: usize = start;
    while i < n
        invariant
            start <= i <= n,
            n == s@.len(),
            body == s@.subrange(start as int, n as int),
            body == number_body(s@),
            forall|k: int| 0 <= k < i - start ==> ascii_digit(#[trigger] body[k]),
        decreases n - i,
    {
        if !('0' <= s[i] && s[i] <= '9') {
            assert(body[i - start] == s@[i as int]);
            assert(!ascii_digit(body[i - start]));
            assert(!(forall|j: int| 0 <= j < body.len() ==> ascii_digit(#[trigger] body[j])));
            return Err(NumberError::InvalidDigit);
        }
        i += 1;
    }
    let mut value: u128 = 0;
    let mut k: usize = start;
    while k < n
        invariant
            start <= k <= n,
            n == s@.len(),
            body == s@.subrange(start as int, n as int),
            body == number_body(s@),
            forall|j: int| 0 <= j < body.len() ==> ascii_digit(#[trigger] body[j]),
            value == digit_value(body.take(k - start)),
            value <= u64::MAX,
        decreases n - k,
    {
        assert(body.take(k + 1 - start).drop_last() =~= body.take(k - start));
        assert(body[k - start] == s@[k as int]);
        value = value * 10 + (s[k] as u32 - 48) as u128;
        if value > 0xffff_ffff_ffff_ffffu128 {
            proof {
                lemma_digit_value_prefix(body, k + 1 - start);
            }
            return Err(NumberError::Overflow);
        }
        k += 1;
    }
    assert(body.take(n - start) =~= body);
    Ok(value as u64)
}

/// The string of the characters `chars`.
pub fn string_from(chars: &[char]) -> (s: String)
    ensures
        s@ == chars@,
{
    let mut s = String::new();
    let mut k: usize = 0;
    while k < chars.len()
        invariant
            k <= chars@.len(),
            s@ == chars@.take(k as int),
        decreases chars@.len() - k,
    {
        push_char(&mut s, chars[k]);
        assert(chars@.take(k + 1) =~= chars@.take(k as int).push(chars@[k as int]));
        k += 1;
    }
    assert(chars@.take(chars@.len() as int) =~= chars@);
    s
}

} // verus!
