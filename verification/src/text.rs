//! Small text helpers shared by the error messages of the library.
use vstd::prelude::*;
use vstd::string::{StrSliceExecFns, StringExecFns};

verus! {

/// The decimal digit character of `d`, for `d < 10`.
pub open spec fn digit_char(d: nat) -> char {
    if d == 0 {
        '0'
    } else if d == 1 {
        '1'
    } else if d == 2 {
        '2'
    } else if d == 3 {
        '3'
    } else if d == 4 {
        '4'
    } else if d == 5 {
        '5'
    } else if d == 6 {
        '6'
    } else if d == 7 {
        '7'
    } else if d == 8 {
        '8'
    } else {
        '9'
    }
}

/// The decimal notation of `n`, without leading zeros.
pub open spec fn spec_decimal(n: nat) -> Seq<char>
    decreases n,
{
    if n < 10 {
        seq![digit_char(n)]
    } else {
        spec_decimal(n / 10).push(digit_char(n % 10))
    }
}

/// The one-character string of a decimal digit.
fn digit_str(d: u64) -> (r: &'static str)
    requires
        d < 10,
    ensures
        r@ == seq![digit_char(d as nat)],
{
    proof {
        reveal_strlit("0");
        reveal_strlit("1");
        reveal_strlit("2");
        reveal_strlit("3");
        reveal_strlit("4");
        reveal_strlit("5");
        reveal_strlit("6");
        reveal_strlit("7");
        reveal_strlit("8");
        reveal_strlit("9");
    }
    match d {
        0 => "0",
        1 => "1",
        2 => "2",
        3 => "3",
        4 => "4",
        5 => "5",
        6 => "6",
        7 => "7",
        8 => "8",
        _ => "9",
    }
}

/// Appends the decimal notation of `n`.
pub fn append_decimal(out: &mut String, n: u64)
    ensures
        final(out)@ == old(out)@ + spec_decimal(n as nat),
    decreases n,
{
    if n >= 10 {
        append_decimal(out, n / 10);
    }
    out.append(digit_str(n % 10));
    assert(final(out)@ =~= old(out)@ + spec_decimal(n as nat));
}

/// A string made of a fixed prefix and the decimal notation of `n`.
pub fn prefixed_decimal(prefix: &str, n: u64) -> (r: String)
    ensures
        r@ == prefix@ + spec_decimal(n as nat),
{
    let mut s = String::from_str(prefix);
    append_decimal(&mut s, n);
    s
}

/// The `width` lowest binary digits of `n`, most significant first.
pub open spec fn spec_binary(n: nat, width: nat) -> Seq<char>
    decreases width,
{
    if width == 0 {
        Seq::empty()
    } else {
        spec_binary(n / 2, (width - 1) as nat).push(if n % 2 == 1 {
            '1'
        } else {
            '0'
        })
    }
}

/// Appends the `width` lowest binary digits of `n`.
pub fn append_binary(out: &mut String, n: u64, width: u64)
    ensures
        final(out)@ == old(out)@ + spec_binary(n as nat, width as nat),
    decreases width,
{
    proof {
        reveal_strlit("0");
        reveal_strlit("1");
    }
    if width > 0 {
        append_binary(out, n / 2, width - 1);
        if n % 2 == 1 {
            out.append("1");
        } else {
            out.append("0");
        }
    }
    assert(final(out)@ =~= old(out)@ + spec_binary(n as nat, width as nat));
}

/// Why a text is not a decimal integer of the expected type, as Rust's
/// integer parsing reports it.
#[derive(Debug, Clone, Copy, PartialEq, Eq, Structural)]
pub enum IntParseFailure {
    /// The text is empty.
    Empty,
    /// A character is not a decimal digit, or a sign stands alone.
    InvalidDigit,
    /// The value is above the largest value of the type.
    PosOverflow,
    /// The value is below the smallest value of the type.
    NegOverflow,
}

/// The text that Rust's integer parse error displays for a failure.
pub open spec fn int_failure_text(f: IntParseFailure) -> Seq<char> {
    match f {
        IntParseFailure::Empty => "cannot parse integer from empty string"@,
        IntParseFailure::InvalidDigit => "invalid digit found in string"@,
        IntParseFailure::PosOverflow => "number too large to fit in target type"@,
        IntParseFailure::NegOverflow => "number too small to fit in target type"@,
    }
}

/// Reading decimal digits of `s` from index `i` on, left to right, after
/// the value `acc` of those before: the value, or the first failure, where
/// a value above `limit` is an overflow.
pub open spec fn scan_decimal(s: Seq<char>, i: int, acc: int, limit: int) -> Result<int, bool>
    decreases s.len() - i,
{
    if i < 0 || i >= s.len() {
        Ok(acc)
    } else if !('0' <= s[i] <= '9') {
        Err(false)
    } else if acc * 10 + (s[i] as int - '0' as int) > limit {
        Err(true)
    } else {
        scan_decimal(s, i + 1, acc * 10 + (s[i] as int - '0' as int), limit)
    }
}

/// Parsing a `u32` as `str::parse::<u32>` does: an optional `+`, then
/// decimal digits.
pub open spec fn spec_parse_u32(s: Seq<char>) -> Result<u32, IntParseFailure> {
    if s.len() == 0 {
        Err(IntParseFailure::Empty)
    } else {
        let start: int = if s[0] == '+' { 1 } else { 0 };
        if start >= s.len() {
            Err(IntParseFailure::InvalidDigit)
        } else {
            match scan_decimal(s, start, 0, u32::MAX as int) {
                Ok(v) => Ok(v as u32),
                Err(overflow) => if overflow {
                    Err(IntParseFailure::PosOverflow)
                } else {
                    Err(IntParseFailure::InvalidDigit)
                },
            }
        }
    }
}

/// Parsing an `i32` as `str::parse::<i32>` does: an optional sign, then
/// decimal digits.
pub open spec fn spec_parse_i32(s: Seq<char>) -> Result<i32, IntParseFailure> {
    if s.len() == 0 {
        Err(IntParseFailure::Empty)
    } else {
        let negative = s[0] == '-';
        let start: int = if s[0] == '+' || s[0] == '-' { 1 } else { 0 };
        if start >= s.len() {
            Err(IntParseFailure::InvalidDigit)
        } else {
            let limit: int = if negative { 2147483648 } else { 2147483647 };
            match scan_decimal(s, start, 0, limit) {
                Ok(v) => Ok((if negative { -v } else { v }) as i32),
                Err(overflow) => if !overflow {
                    Err(IntParseFailure::InvalidDigit)
                } else if negative {
                    Err(IntParseFailure::NegOverflow)
                } else {
                    Err(IntParseFailure::PosOverflow)
                },
            }
        }
    }
}

/// A scan that succeeds gives a value between the value so far and the
/// limit.
pub proof fn lemma_scan_bounds(s: Seq<char>, i: int, acc: int, limit: int)
    requires
        0 <= acc <= limit,
    ensures
        scan_decimal(s, i, acc, limit) matches Ok(v) ==> 0 <= v <= limit,
    decreases s.len() - i,
{
    if 0 <= i < s.len() && '0' <= s[i] <= '9' && acc * 10 + (s[i] as int - '0' as int) <= limit {
        lemma_scan_bounds(s, i + 1, acc * 10 + (s[i] as int - '0' as int), limit);
    }
}

/// Reads decimal digits from index `start` on, with values above `limit`
/// an overflow.
fn scan_digits(s: &str, start: usize, limit: u64) -> (r: Result<u64, bool>)
    requires
        start <= s@.len(),
        limit <= u32::MAX + 1,
    ensures
        match scan_decimal(s@, start as int, 0, limit as int) {
            Ok(v) => r == Ok::<u64, bool>(v as u64),
            Err(o) => r == Err::<u64, bool>(o),
        },
{
    let n = s.unicode_len();
    let mut i = start;
    let mut acc: u64 = 0;
    while i < n
        invariant
            n == s@.len(),
            start <= i <= n,
            acc <= limit,
            limit <= u32::MAX + 1,
            scan_decimal(s@, start as int, 0, limit as int) == scan_decimal(
                s@,
                i as int,
                acc as int,
                limit as int,
            ),
        decreases n - i,
    {
        let c = s.get_char(i);
        if !('0' <= c && c <= '9') {
            return Err(false);
        }
        let d = (c as u32 - '0' as u32) as u64;
        let next = acc * 10 + d;
        if next > limit {
            return Err(true);
        }
        acc = next;
        i = i + 1;
    }
    Ok(acc)
}

/// Parses a `u32` as `str::parse::<u32>` does.
pub fn parse_u32(s: &str) -> (r: Result<u32, IntParseFailure>)
    ensures
        r == spec_parse_u32(s@),
{
    let n = s.unicode_len();
    if n == 0 {
        return Err(IntParseFailure::Empty);
    }
    let start: usize = if s.get_char(0) == '+' { 1 } else { 0 };
    if start >= n {
        return Err(IntParseFailure::InvalidDigit);
    }
    proof {
        lemma_scan_bounds(s@, start as int, 0, u32::MAX as int);
    }
    match scan_digits(s, start, 4294967295) {
        Ok(v) => Ok(v as u32),
        Err(overflow) => if overflow {
            Err(IntParseFailure::PosOverflow)
        } else {
            Err(IntParseFailure::InvalidDigit)
        },
    }
}

/// Parses an `i32` as `str::parse::<i32>` does.
pub fn parse_i32(s: &str) -> (r: Result<i32, IntParseFailure>)
    ensures
        r == spec_parse_i32(s@),
{
    let n = s.unicode_len();
    if n == 0 {
        return Err(IntParseFailure::Empty);
    }
    let first = s.get_char(0);
    let negative = first == '-';
    let start: usize = if first == '+' || first == '-' { 1 } else { 0 };
    if start >= n {
        return Err(IntParseFailure::InvalidDigit);
    }
    let limit: u64 = if negative { 2147483648 } else { 2147483647 };
    proof {
        lemma_scan_bounds(s@, start as int, 0, limit as int);
    }
    match scan_digits(s, start, limit) {
        Ok(v) => if negative {
            Ok((0 - (v as i64)) as i32)
        } else {
            Ok(v as i32)
        },
        Err(overflow) => if !overflow {
            Err(IntParseFailure::InvalidDigit)
        } else if negative {
            Err(IntParseFailure::NegOverflow)
        } else {
            Err(IntParseFailure::PosOverflow)
        },
    }
}

impl IntParseFailure {
    /// The text that Rust's integer parse error displays for this failure.
    pub fn as_str(&self) -> (r: &'static str)
        ensures
            r@ == int_failure_text(*self),
    {
        match self {
            IntParseFailure::Empty => "cannot parse integer from empty string",
            IntParseFailure::InvalidDigit => "invalid digit found in string",
            IntParseFailure::PosOverflow => "number too large to fit in target type",
            IntParseFailure::NegOverflow => "number too small to fit in target type",
        }
    }
}


/// Whether a character has the Unicode White_Space property, as
/// `char::is_whitespace` documents it.
pub open spec fn is_unicode_whitespace(c: char) -> bool {
    ||| c == '\t' || c == '\n' || c == '\u{0B}' || c == '\u{0C}' || c == '\r' || c == ' '
    ||| c == '\u{85}' || c == '\u{A0}' || c == '\u{1680}'
    ||| ('\u{2000}' <= c && c <= '\u{200A}')
    ||| c == '\u{2028}' || c == '\u{2029}' || c == '\u{202F}' || c == '\u{205F}'
    ||| c == '\u{3000}'
}

/// Whether a character is ASCII whitespace, as `char::is_ascii_whitespace`
/// documents it: space, tab, line feed, form feed, carriage return.
pub open spec fn is_ascii_whitespace(c: char) -> bool {
    c == ' ' || c == '\t' || c == '\n' || c == '\u{0C}' || c == '\r'
}

/// A text without its leading whitespace.
pub open spec fn trim_start(s: Seq<char>) -> Seq<char>
    decreases s.len(),
{
    if s.len() > 0 && is_unicode_whitespace(s[0]) {
        trim_start(s.drop_first())
    } else {
        s
    }
}

/// A text without its trailing whitespace.
pub open spec fn trim_end(s: Seq<char>) -> Seq<char>
    decreases s.len(),
{
    if s.len() > 0 && is_unicode_whitespace(s.last()) {
        trim_end(s.drop_last())
    } else {
        s
    }
}

/// A text without its leading and trailing whitespace, as `str::trim`
/// gives it.
pub open spec fn spec_trim(s: Seq<char>) -> Seq<char> {
    trim_end(trim_start(s))
}

/// A text with every ASCII whitespace character taken out.
pub open spec fn without_ascii_whitespace(s: Seq<char>) -> Seq<char>
    decreases s.len(),
{
    if s.len() == 0 {
        s
    } else if is_ascii_whitespace(s.last()) {
        without_ascii_whitespace(s.drop_last())
    } else {
        without_ascii_whitespace(s.drop_last()).push(s.last())
    }
}

/// Whether a character has the Unicode White_Space property.
pub fn unicode_whitespace(c: char) -> (r: bool)
    ensures
        r == is_unicode_whitespace(c),
{
    c == '\t' || c == '\n' || c == '\u{0B}' || c == '\u{0C}' || c == '\r' || c == ' ' || c
        == '\u{85}' || c == '\u{A0}' || c == '\u{1680}' || ('\u{2000}' <= c && c <= '\u{200A}')
        || c == '\u{2028}' || c == '\u{2029}' || c == '\u{202F}' || c == '\u{205F}' || c
        == '\u{3000}'
}

/// The text without its leading and trailing whitespace.
pub fn trim(s: &str) -> (r: &str)
    ensures
        r@ == spec_trim(s@),
{
    let n = s.unicode_len();
    let mut start: usize = 0;
    assert(s@.subrange(0, n as int) =~= s@);
    while start < n && unicode_whitespace(s.get_char(start))
        invariant
            n == s@.len(),
            start <= n,
            trim_start(s@) == trim_start(s@.subrange(start as int, n as int)),
        decreases n - start,
    {
        let ghost t = s@.subrange(start as int, n as int);
        assert(t.drop_first() =~= s@.subrange(start + 1, n as int));
        start = start + 1;
    }
    let ghost head = s@.subrange(start as int, n as int);
    assert(trim_start(head) == head);
    let mut end: usize = n;
    while end > start && unicode_whitespace(s.get_char(end - 1))
        invariant
            n == s@.len(),
            start <= end <= n,
            trim_end(head) == trim_end(s@.subrange(start as int, end as int)),
        decreases end - start,
    {
        let ghost t = s@.subrange(start as int, end as int);
        assert(t.drop_last() =~= s@.subrange(start as int, end - 1));
        end = end - 1;
    }
    let r = s.substring_char(start, end);
    assert(trim_end(r@) == r@);
    r
}

/// The text with every ASCII whitespace character taken out.
pub fn strip_ascii_whitespace(s: &str) -> (r: String)
    ensures
        r@ == without_ascii_whitespace(s@),
{
    let n = s.unicode_len();
    let mut out = String::new();
    let mut i: usize = 0;
    assert(s@.subrange(0, 0) =~= Seq::<char>::empty());
    while i < n
        invariant
            n == s@.len(),
            i <= n,
            out@ == without_ascii_whitespace(s@.subrange(0, i as int)),
        decreases n - i,
    {
        let c = s.get_char(i);
        let ghost prefix = s@.subrange(0, i + 1);
        assert(prefix.drop_last() =~= s@.subrange(0, i as int));
        assert(prefix.last() == c);
        if !(c == ' ' || c == '\t' || c == '\n' || c == '\u{0C}' || c == '\r') {
            out.append(s.substring_char(i, i + 1));
            assert(s@.subrange(i as int, i + 1) =~= seq![c]);
        }
        i = i + 1;
    }
    assert(s@.subrange(0, n as int) =~= s@);
    out
}


/// Why a text is not a floating-point literal, as Rust's float parsing
/// reports it.
#[derive(Debug, Clone, Copy, PartialEq, Eq, Structural)]
pub enum FloatParseFailure {
    /// The text is empty.
    Empty,
    /// The text does not follow the grammar of a float literal.
    Invalid,
}

/// The text that Rust's float parse error displays for a failure.
pub open spec fn float_failure_text(f: FloatParseFailure) -> Seq<char> {
    match f {
        FloatParseFailure::Empty => "cannot parse float from empty string"@,
        FloatParseFailure::Invalid => "invalid float literal"@,
    }
}

impl FloatParseFailure {
    /// The text that Rust's float parse error displays for this failure.
    pub fn as_str(&self) -> (r: &'static str)
        ensures
            r@ == float_failure_text(*self),
    {
        match self {
            FloatParseFailure::Empty => "cannot parse float from empty string",
            FloatParseFailure::Invalid => "invalid float literal",
        }
    }
}

/// Whether a character is an ASCII decimal digit.
pub open spec fn is_ascii_digit(c: char) -> bool {
    '0' <= c && c <= '9'
}

/// A character with ASCII upper case letters lowered.
pub open spec fn ascii_lower(c: char) -> char {
    if 'A' <= c && c <= 'Z' {
        ((c as u32) + 32) as char
    } else {
        c
    }
}

/// Whether a text spells a lower-case word, ignoring ASCII case.
pub open spec fn spells_word(s: Seq<char>, word: Seq<char>) -> bool {
    &&& s.len() == word.len()
    &&& forall|i: int| 0 <= i < s.len() ==> #[trigger] ascii_lower(s[i]) == word[i]
}

/// The index of the first `e` or `E` of a text from index `i` on, or its
/// length when there is none.
pub open spec fn exponent_start(s: Seq<char>, i: int) -> int
    decreases s.len() - i,
{
    if i < 0 || i >= s.len() {
        s.len() as int
    } else if ascii_lower(s[i]) == 'e' {
        i
    } else {
        exponent_start(s, i + 1)
    }
}

/// Decimal digits around at most one point, with at least one digit.
pub open spec fn is_mantissa(s: Seq<char>) -> bool {
    &&& forall|i: int| 0 <= i < s.len() ==> #[trigger] is_ascii_digit(s[i]) || s[i] == '.'
    &&& forall|i: int, j: int|
        0 <= i < j < s.len() && #[trigger] s[i] == '.' ==> #[trigger] s[j] != '.'
    &&& exists|i: int| 0 <= i < s.len() && #[trigger] is_ascii_digit(s[i])
}

/// An `e` or `E`, an optional sign, and at least one decimal digit.
pub open spec fn is_exponent(s: Seq<char>) -> bool {
    let digits_from: int = if s.len() > 1 && (s[1] == '+' || s[1] == '-') {
        2
    } else {
        1
    };
    &&& s.len() > digits_from
    &&& ascii_lower(s[0]) == 'e'
    &&& forall|i: int| digits_from <= i < s.len() ==> #[trigger] is_ascii_digit(s[i])
}

/// The unsigned part of a float literal: `inf`, `infinity` or `nan` in any
/// case, or a mantissa with an optional exponent.
pub open spec fn is_unsigned_float(s: Seq<char>) -> bool {
    let k = exponent_start(s, 0);
    ||| spells_word(s, "inf"@)
    ||| spells_word(s, "infinity"@)
    ||| spells_word(s, "nan"@)
    ||| is_mantissa(s.take(k)) && (k == s.len() || is_exponent(s.skip(k)))
}

/// Whether Rust's `f64::from_str` accepts a text, by the grammar that its
/// documentation gives: an optional sign, then the unsigned part.
pub open spec fn spec_check_float(s: Seq<char>) -> Result<(), FloatParseFailure> {
    if s.len() == 0 {
        Err(FloatParseFailure::Empty)
    } else {
        let body = if s[0] == '+' || s[0] == '-' {
            s.drop_first()
        } else {
            s
        };
        if is_unsigned_float(body) {
            Ok(())
        } else {
            Err(FloatParseFailure::Invalid)
        }
    }
}

/// Lowers an ASCII upper case letter.
fn lower_char(c: char) -> (r: char)
    ensures
        r == ascii_lower(c),
{
    if 'A' <= c && c <= 'Z' {
        ((c as u8) + 32) as char
    } else {
        c
    }
}

/// The characters of a text.
fn chars_of(s: &str) -> (r: Vec<char>)
    ensures
        r@ == s@,
{
    let n = s.unicode_len();
    let mut cs: Vec<char> = Vec::new();
    let mut i: usize = 0;
    while i < n
        invariant
            n == s@.len(),
            i <= n,
            cs@ == s@.subrange(0, i as int),
        decreases n - i,
    {
        cs.push(s.get_char(i));
        i = i + 1;
        assert(cs@ =~= s@.subrange(0, i as int));
    }
    assert(s@.subrange(0, n as int) =~= s@);
    cs
}

/// Whether the characters from `start` on spell a word, ignoring ASCII
/// case.
fn spells(cs: &[char], start: usize, word: &str) -> (r: bool)
    requires
        start <= cs@.len(),
    ensures
        r == spells_word(cs@.subrange(start as int, cs@.len() as int), word@),
{
    let n = word.unicode_len();
    let ghost t = cs@.subrange(start as int, cs@.len() as int);
    if cs.len() - start != n {
        return false;
    }
    let mut p: usize = start;
    while p < cs.len()
        invariant
            n == word@.len(),
            cs@.len() == start + n,
            start <= p <= cs@.len(),
            t == cs@.subrange(start as int, cs@.len() as int),
            forall|k: int| 0 <= k < p - start ==> #[trigger] ascii_lower(t[k]) == word@[k],
        decreases cs@.len() - p,
    {
        assert(t[p - start] == cs@[p as int]);
        if lower_char(cs[p]) != word.get_char(p - start) {
            return false;
        }
        p = p + 1;
    }
    true
}

/// The index of the first exponent marker from `start` on, or the length.
fn find_exponent(cs: &[char], start: usize) -> (r: usize)
    requires
        start <= cs@.len(),
    ensures
        start <= r <= cs@.len(),
        r - start == exponent_start(cs@.subrange(start as int, cs@.len() as int), 0),
{
    let ghost t = cs@.subrange(start as int, cs@.len() as int);
    let mut k: usize = start;
    while k < cs.len() && lower_char(cs[k]) != 'e'
        invariant
            start <= k <= cs@.len(),
            t == cs@.subrange(start as int, cs@.len() as int),
            exponent_start(t, 0) == exponent_start(t, k - start),
        decreases cs@.len() - k,
    {
        assert(t[k - start] == cs@[k as int]);
        k = k + 1;
    }
    if k < cs.len() {
        assert(t[k - start] == cs@[k as int]);
    }
    k
}

/// Whether the characters from `start` to `end` form a mantissa.
fn is_mantissa_range(cs: &[char], start: usize, end: usize) -> (r: bool)
    requires
        start <= end <= cs@.len(),
    ensures
        r == is_mantissa(cs@.subrange(start as int, end as int)),
{
    let ghost m = cs@.subrange(start as int, end as int);
    let mut i: usize = start;
    let mut seen_point = false;
    let mut seen_digit = false;
    while i < end
        invariant
            start <= i <= end <= cs@.len(),
            m == cs@.subrange(start as int, end as int),
            forall|j: int| 0 <= j < i - start ==> #[trigger] is_ascii_digit(m[j]) || m[j] == '.',
            forall|a: int, b: int|
                0 <= a < b < i - start && #[trigger] m[a] == '.' ==> #[trigger] m[b] != '.',
            seen_point <==> exists|j: int| 0 <= j < i - start && #[trigger] m[j] == '.',
            seen_digit <==> exists|j: int| 0 <= j < i - start && #[trigger] is_ascii_digit(m[j]),
        decreases end - i,
    {
        let c = cs[i];
        assert(m[i - start] == c);
        if '0' <= c && c <= '9' {
            assert(is_ascii_digit(m[i - start]));
            seen_digit = true;
            proof {
                if seen_point {
                    let w = choose|w: int| 0 <= w < i - start && #[trigger] m[w] == '.';
                    assert(0 <= w < i + 1 - start && m[w] == '.');
                }
            }
        } else if c == '.' && !seen_point {
            seen_point = true;
            proof {
                if seen_digit {
                    let w = choose|w: int| 0 <= w < i - start && #[trigger] is_ascii_digit(m[w]);
                    assert(0 <= w < i + 1 - start && is_ascii_digit(m[w]));
                }
            }
        } else {
            proof {
                if c == '.' {
                    let w = choose|w: int| 0 <= w < i - start && #[trigger] m[w] == '.';
                    assert(0 <= w < i - start && m[w] == '.' && m[i - start] == '.');
                } else {
                    assert(!is_ascii_digit(m[i - start]) && m[i - start] != '.');
                }
            }
            return false;
        }
        i = i + 1;
    }
    seen_digit
}

/// Whether the characters from `start` to the end form an exponent.
fn is_exponent_range(cs: &[char], start: usize) -> (r: bool)
    requires
        start <= cs@.len(),
    ensures
        r == is_exponent(cs@.subrange(start as int, cs@.len() as int)),
{
    let n = cs.len();
    let ghost x = cs@.subrange(start as int, n as int);
    if n - start < 2 || lower_char(cs[start]) != 'e' {
        return false;
    }
    let mut j: usize = start + 1;
    if cs[j] == '+' || cs[j] == '-' {
        j = j + 1;
    }
    if j >= n {
        return false;
    }
    let ghost digits_from: int = j - start;
    while j < n
        invariant
            start + digits_from <= j <= n,
            n == cs@.len(),
            x == cs@.subrange(start as int, n as int),
            digits_from == (if x.len() > 1 && (x[1] == '+' || x[1] == '-') {
                2int
            } else {
                1int
            }),
            forall|m: int| digits_from <= m < j - start ==> #[trigger] is_ascii_digit(x[m]),
        decreases n - j,
    {
        assert(x[j - start] == cs@[j as int]);
        if !('0' <= cs[j] && cs[j] <= '9') {
            assert(!is_ascii_digit(x[j - start]));
            return false;
        }
        j = j + 1;
    }
    true
}

/// Checks a text against the grammar of a float literal that Rust's
/// `f64::from_str` accepts.
pub fn check_float(s: &str) -> (r: Result<(), FloatParseFailure>)
    ensures
        r == spec_check_float(s@),
{
    let cs = chars_of(s);
    let n = cs.len();
    if n == 0 {
        return Err(FloatParseFailure::Empty);
    }
    let start: usize = if cs[0] == '+' || cs[0] == '-' {
        1
    } else {
        0
    };
    let ghost body = cs@.subrange(start as int, n as int);
    assert(body =~= (if s@[0] == '+' || s@[0] == '-' {
        s@.drop_first()
    } else {
        s@
    }));
    proof {
        reveal_strlit("inf");
        reveal_strlit("infinity");
        reveal_strlit("nan");
    }
    if spells(cs.as_slice(), start, "inf") || spells(cs.as_slice(), start, "infinity") || spells(
        cs.as_slice(),
        start,
        "nan",
    ) {
        return Ok(());
    }
    let k = find_exponent(cs.as_slice(), start);
    assert(body.take(k - start) =~= cs@.subrange(start as int, k as int));
    if !is_mantissa_range(cs.as_slice(), start, k) {
        return Err(FloatParseFailure::Invalid);
    }
    if k == n {
        return Ok(());
    }
    assert(body.skip(k - start) =~= cs@.subrange(k as int, n as int));
    if is_exponent_range(cs.as_slice(), k) {
        Ok(())
    } else {
        Err(FloatParseFailure::Invalid)
    }
}

} // verus!
