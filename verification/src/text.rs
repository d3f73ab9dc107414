//! Character-level helpers shared by the parsers and printers.
use vstd::prelude::*;
use vstd::std_specs::iter::IteratorSpec;

verus! {

/// Unicode `White_Space` characters, as `char::is_whitespace` classifies them.
pub open spec fn is_ws(c: char) -> bool {
    ||| c == '\t' || c == '\n' || c == '\x0B' || c == '\x0C' || c == '\r' || c == ' '
    ||| c == '\u{85}' || c == '\u{A0}' || c == '\u{1680}'
    ||| ('\u{2000}' <= c && c <= '\u{200A}')
    ||| c == '\u{2028}' || c == '\u{2029}' || c == '\u{202F}' || c == '\u{205F}' || c == '\u{3000}'
}

pub fn is_whitespace(c: char) -> (r: bool)
    ensures r == is_ws(c),
{
    c == '\t' || c == '\n' || c == '\x0B' || c == '\x0C' || c == '\r' || c == ' ' || c == '\u{85}'
        || c == '\u{A0}' || c == '\u{1680}' || ('\u{2000}' <= c && c <= '\u{200A}') || c
        == '\u{2028}' || c == '\u{2029}' || c == '\u{202F}' || c == '\u{205F}' || c == '\u{3000}'
}

/// Every character is whitespace (vacuously true of the empty text).
pub open spec fn all_ws(s: Seq<char>) -> bool {
    forall|i: int| 0 <= i < s.len() ==> is_ws(#[trigger] s[i])
}

/// The text without its leading whitespace.
pub open spec fn trim_start(s: Seq<char>) -> Seq<char>
    decreases s.len(),
{
    if s.len() > 0 && is_ws(s[0]) {
        trim_start(s.drop_first())
    } else {
        s
    }
}

/// The text without its trailing whitespace.
pub open spec fn trim_end(s: Seq<char>) -> Seq<char>
    decreases s.len(),
{
    if s.len() > 0 && is_ws(s.last()) {
        trim_end(s.drop_last())
    } else {
        s
    }
}

/// The text without leading and trailing whitespace, as `str::trim` gives it.
pub open spec fn trim(s: Seq<char>) -> Seq<char> {
    trim_end(trim_start(s))
}

pub open spec fn ascii_lower(c: char) -> char {
    if 'A' <= c && c <= 'Z' {
        (((c as u8) + 32) as u8) as char
    } else {
        c
    }
}

/// Equality up to ASCII case, as `str::eq_ignore_ascii_case` decides it.
pub open spec fn eq_ignore_case(a: Seq<char>, b: Seq<char>) -> bool {
    a.len() == b.len() && forall|i: int| 0 <= i < a.len() ==> ascii_lower(#[trigger] a[i])
        == ascii_lower(b[i])
}

pub open spec fn is_digit(c: char) -> bool {
    '0' <= c && c <= '9'
}

pub open spec fn digit_value(c: char) -> nat {
    ((c as u32) - ('0' as u32)) as nat
}

pub open spec fn all_digits(s: Seq<char>) -> bool {
    forall|i: int| 0 <= i < s.len() ==> is_digit(#[trigger] s[i])
}

/// The number that a run of decimal digits denotes.
pub open spec fn decimal_value(s: Seq<char>) -> nat
    decreases s.len(),
{
    if s.len() == 0 {
        0
    } else {
        decimal_value(s.drop_last()) * 10 + digit_value(s.last())
    }
}

/// The digits of a `u64` text: an optional leading `+` is dropped.
pub open spec fn unsigned_digits(s: Seq<char>) -> Seq<char> {
    if s.len() > 0 && s[0] == '+' {
        s.drop_first()
    } else {
        s
    }
}

/// What `u64::from_str` gives: one or more decimal digits after an optional
/// `+`, whose value fits.
pub open spec fn parse_u64_spec(s: Seq<char>) -> Option<u64> {
    let d = unsigned_digits(s);
    if d.len() > 0 && all_digits(d) && decimal_value(d) <= u64::MAX {
        Some(decimal_value(d) as u64)
    } else {
        None
    }
}

pub open spec fn digit_char(n: nat) -> char {
    ((n % 10) + ('0' as u32)) as char
}

/// The shortest decimal text of a number.
pub open spec fn decimal_text(n: nat) -> Seq<char>
    decreases n,
{
    if n < 10 {
        seq![digit_char(n)]
    } else {
        decimal_text(n / 10).push(digit_char(n % 10))
    }
}

pub proof fn lemma_decimal_text_digits(n: nat)
    ensures
        all_digits(decimal_text(n)),
        decimal_text(n).len() > 0,
        decimal_value(decimal_text(n)) == n,
        decimal_text(n)[0] != '+',
    decreases n,
{
    lemma_digit_char(n);
    if n < 10 {
        let s = decimal_text(n);
        assert(s.drop_last() =~= Seq::<char>::empty());
        assert(decimal_value(s.drop_last()) == 0);
        assert(decimal_value(s) == digit_value(s.last()));
    }
    if n >= 10 {
        lemma_decimal_text_digits(n / 10);
        let s = decimal_text(n);
        assert(s.last() == digit_char(n % 10));
        lemma_digit_char(n % 10);
        assert((n / 10) * 10 + n % 10 == n);
        assert(s.drop_last() =~= decimal_text(n / 10));
        assert(decimal_value(s) == decimal_value(s.drop_last()) * 10 + digit_value(s.last()));
        assert(s.drop_last() =~= decimal_text(n / 10));
        assert forall|i: int| 0 <= i < s.len() implies is_digit(#[trigger] s[i]) by {
            if i < s.len() - 1 {
                assert(s[i] == decimal_text(n / 10)[i]);
            }
        }
    }
}

/// A number printed in decimal reads back as itself.
pub proof fn lemma_digit_char(n: nat)
    ensures
        is_digit(digit_char(n)),
        digit_value(digit_char(n)) == n % 10,
        digit_char(n) != '+',
{
    assert(n % 10 < 10);
}

pub proof fn lemma_parse_decimal_text(n: u64)
    ensures
        parse_u64_spec(decimal_text(n as nat)) == Some(n),
{
    lemma_decimal_text_digits(n as nat);
}

pub fn to_chars(s: &str) -> (v: Vec<char>)
    ensures
        v@ == s@,
{
    let mut out: Vec<char> = Vec::new();
    let mut it = s.chars();
    loop
        invariant
            it.obeys_prophetic_iter_laws(),
            s@ == out@ + it.remaining(),
        ensures
            s@ == out@,
        decreases s@.len() - out@.len(),
    {
        match it.next() {
            Some(c) => {
                out.push(c);
            },
            None => {
                break ;
            },
        }
    }
    out
}

/// Appends one character (`String::push`).
#[verifier::external_body]
pub fn push_char(s: &mut String, c: char)
    ensures
        final(s)@ == old(s)@.push(c),
{
    s.push(c);
}

pub fn from_chars(v: &[char]) -> (s: String)
    ensures
        s@ == v@,
{
    let mut s = String::new();
    let mut i: usize = 0;
    while i < v.len()
        invariant
            i <= v.len(),
            s@ == v@.subrange(0, i as int),
        decreases v.len() - i,
    {
        push_char(&mut s, v[i]);
        i = i + 1;
    }
    assert(v@.subrange(0, v@.len() as int) =~= v@);
    s
}

pub fn append_chars(s: &mut String, v: &[char])
    ensures
        final(s)@ == old(s)@ + v@,
{
    let mut i: usize = 0;
    while i < v.len()
        invariant
            i <= v.len(),
            s@ == old(s)@ + v@.subrange(0, i as int),
        decreases v.len() - i,
    {
        push_char(s, v[i]);
        i = i + 1;
    }
    assert(v@.subrange(0, v@.len() as int) =~= v@);
}

pub fn string_of(s: &str) -> (r: String)
    ensures
        r@ == s@,
{
    s.to_owned()
}

pub fn concat(a: &str, b: &str) -> (r: String)
    ensures
        r@ == a@ + b@,
{
    let mut r = a.to_owned();
    r.append(b);
    r
}

pub fn chars_eq(a: &[char], b: &[char]) -> (r: bool)
    ensures
        r == (a@ == b@),
{
    if a.len() != b.len() {
        return false;
    }
    let mut i: usize = 0;
    while i < a.len()
        invariant
            i <= a.len(),
            a.len() == b.len(),
            forall|j: int| 0 <= j < i ==> a@[j] == b@[j],
        decreases a.len() - i,
    {
        if a[i] != b[i] {
            return false;
        }
        i = i + 1;
    }
    assert(a@ =~= b@);
    true
}

/// Whether the text equals the literal `lit`.
pub fn text_is(s: &str, lit: &str) -> (r: bool)
    ensures
        r == (s@ == lit@),
{
    let a = to_chars(s);
    let b = to_chars(lit);
    chars_eq(a.as_slice(), b.as_slice())
}

pub fn subchars(v: &[char], start: usize, end: usize) -> (r: Vec<char>)
    requires
        start <= end <= v@.len(),
    ensures
        r@ == v@.subrange(start as int, end as int),
{
    let mut r: Vec<char> = Vec::new();
    let mut i = start;
    while i < end
        invariant
            start <= i <= end <= v@.len(),
            r@ == v@.subrange(start as int, i as int),
        decreases end - i,
    {
        r.push(v[i]);
        i = i + 1;
    }
    r
}

pub proof fn lemma_trim_start_skip(s: Seq<char>, k: int)
    requires
        0 <= k <= s.len(),
        forall|i: int| 0 <= i < k ==> is_ws(#[trigger] s[i]),
    ensures
        trim_start(s) == trim_start(s.subrange(k, s.len() as int)),
    decreases k,
{
    if k > 0 {
        assert(is_ws(s[0]));
        let t = s.drop_first();
        assert forall|i: int| 0 <= i < k - 1 implies is_ws(#[trigger] t[i]) by {
            assert(t[i] == s[i + 1]);
        }
        lemma_trim_start_skip(t, k - 1);
        assert(t.subrange(k - 1, t.len() as int) =~= s.subrange(k, s.len() as int));
    } else {
        assert(s.subrange(0, s.len() as int) =~= s);
    }
}

pub proof fn lemma_trim_end_cut(s: Seq<char>, k: int)
    requires
        0 <= k <= s.len(),
        forall|i: int| k <= i < s.len() ==> is_ws(#[trigger] s[i]),
    ensures
        trim_end(s) == trim_end(s.subrange(0, k)),
    decreases s.len() - k,
{
    if k < s.len() {
        assert(is_ws(s.last()));
        let t = s.drop_last();
        assert forall|i: int| k <= i < t.len() implies is_ws(#[trigger] t[i]) by {
            assert(t[i] == s[i]);
        }
        lemma_trim_end_cut(t, k);
        assert(t.subrange(0, k) =~= s.subrange(0, k));
    } else {
        assert(s.subrange(0, k) =~= s);
    }
}

/// The bounds of the trimmed text inside `v`.
pub fn trim_bounds(v: &[char]) -> (r: (usize, usize))
    ensures
        r.0 <= r.1 <= v@.len(),
        v@.subrange(r.0 as int, r.1 as int) == trim(v@),
{
    let mut start: usize = 0;
    while start < v.len() && is_whitespace(v[start])
        invariant
            start <= v@.len(),
            forall|i: int| 0 <= i < start ==> is_ws(#[trigger] v@[i]),
        decreases v.len() - start,
    {
        start = start + 1;
    }
    proof {
        lemma_trim_start_skip(v@, start as int);
    }
    let ghost rest = v@.subrange(start as int, v@.len() as int);
    assert(start == v@.len() || !is_ws(rest[0]));
    assert(trim_start(rest) == rest);
    let mut end: usize = v.len();
    while end > start && is_whitespace(v[end - 1])
        invariant
            start <= end <= v@.len(),
            forall|i: int| end <= i < v@.len() ==> is_ws(#[trigger] v@[i]),
        decreases end,
    {
        end = end - 1;
    }
    proof {
        let k = (end - start) as int;
        assert forall|i: int| k <= i < rest.len() implies is_ws(#[trigger] rest[i]) by {
            assert(rest[i] == v@[start + i]);
        }
        lemma_trim_end_cut(rest, k);
        assert(rest.subrange(0, k) =~= v@.subrange(start as int, end as int));
        let u = v@.subrange(start as int, end as int);
        assert(u.len() == 0 || !is_ws(u.last()));
    }
    (start, end)
}

/// `str::trim`, on characters.
pub fn trim_chars(v: &[char]) -> (r: Vec<char>)
    ensures
        r@ == trim(v@),
{
    let (a, b) = trim_bounds(v);
    subchars(v, a, b)
}

pub fn to_ascii_lower(c: char) -> (r: char)
    ensures
        r == ascii_lower(c),
{
    if 'A' <= c && c <= 'Z' {
        ((c as u8) + 32) as char
    } else {
        c
    }
}

pub fn eq_ignore_ascii_case(a: &[char], b: &[char]) -> (r: bool)
    ensures
        r == eq_ignore_case(a@, b@),
{
    if a.len() != b.len() {
        return false;
    }
    let mut i: usize = 0;
    while i < a.len()
        invariant
            i <= a.len(),
            a.len() == b.len(),
            forall|j: int| 0 <= j < i ==> ascii_lower(#[trigger] a@[j]) == ascii_lower(b@[j]),
        decreases a.len() - i,
    {
        if to_ascii_lower(a[i]) != to_ascii_lower(b[i]) {
            return false;
        }
        i = i + 1;
    }
    true
}

/// `u64::from_str` on characters.
pub fn parse_u64(v: &[char]) -> (r: Option<u64>)
    ensures
        r == parse_u64_spec(v@),
{
    let start: usize = if v.len() > 0 && v[0] == '+' {
        1
    } else {
        0
    };
    let ghost d = unsigned_digits(v@);
    assert(d =~= v@.subrange(start as int, v@.len() as int));
    if start == v.len() {
        return None;
    }
    let mut acc: u64 = 0;
    let mut i = start;
    while i < v.len()
        invariant
            start <= i <= v@.len(),
            start < v@.len(),
            d == unsigned_digits(v@),
            d =~= v@.subrange(start as int, v@.len() as int),
            all_digits(v@.subrange(start as int, i as int)),
            acc as nat == decimal_value(v@.subrange(start as int, i as int)),
        decreases v.len() - i,
    {
        let c = v[i];
        let ghost pre = v@.subrange(start as int, i as int);
        let ghost next = v@.subrange(start as int, i + 1);
        assert(next.drop_last() =~= pre);
        if !('0' <= c && c <= '9') {
            assert(d[i - start] == c);
            assert(!is_digit(d[i - start]));
            assert(!all_digits(d));
            return None;
        }
        assert(next =~= d.subrange(0, (i + 1 - start) as int));
        assert(decimal_value(next) == acc * 10 + digit_value(c));
        let digit = ((c as u32) - ('0' as u32)) as u64;
        match acc.checked_mul(10) {
            Some(m) => match m.checked_add(digit) {
                Some(n) => {
                    acc = n;
                },
                None => {
                    proof {
                        lemma_decimal_prefix_bound(d, (i + 1 - start) as int);
                    }
                    assert(decimal_value(next) > u64::MAX);
                    return None;
                },
            },
            None => {
                proof {
                    lemma_decimal_prefix_bound(d, (i + 1 - start) as int);
                }
                assert(acc * 10 > u64::MAX);
                assert(decimal_value(next) > u64::MAX);
                return None;
            },
        }
        i = i + 1;
    }
    Some(acc)
}

/// A longer run of digits is worth at least as much as its prefix.
pub proof fn lemma_decimal_prefix_bound(d: Seq<char>, k: int)
    requires
        0 <= k <= d.len(),
    ensures
        all_digits(d) ==> decimal_value(d.subrange(0, k)) * pow10((d.len() - k) as nat)
            <= decimal_value(d),
        all_digits(d) ==> decimal_value(d.subrange(0, k)) <= decimal_value(d),
    decreases d.len() - k,
{
    if k < d.len() {
        lemma_decimal_prefix_bound(d.drop_last(), k);
        assert(d.drop_last().subrange(0, k) =~= d.subrange(0, k));
        if all_digits(d) {
            assert(all_digits(d.drop_last()));
            let a = decimal_value(d.subrange(0, k));
            let p = pow10((d.len() - 1 - k) as nat);
            let x = decimal_value(d.drop_last());
            assert(a * p <= x);
            assert(pow10((d.len() - k) as nat) == 10 * p);
            assert(decimal_value(d) >= x * 10);
            assert(a * (10 * p) <= x * 10) by (nonlinear_arith)
                requires
                    a * p <= x,
            ;
            assert(decimal_value(d.subrange(0, k)) == a);
            assert(a * pow10((d.len() - k) as nat) <= decimal_value(d));
            assert(p >= 1) by {
                lemma_pow10_pos((d.len() - 1 - k) as nat);
            }
            assert(a <= a * p) by (nonlinear_arith)
                requires
                    p >= 1,
            ;
        }
    } else {
        assert(d.subrange(0, k) =~= d);
        assert((d.len() - k) as nat == 0);
        assert(pow10(0) == 1);
    }
}

pub open spec fn pow10(n: nat) -> nat
    decreases n,
{
    if n == 0 {
        1
    } else {
        10 * pow10((n - 1) as nat)
    }
}

pub proof fn lemma_pow10_pos(n: nat)
    ensures
        pow10(n) >= 1,
    decreases n,
{
    if n > 0 {
        lemma_pow10_pos((n - 1) as nat);
    }
}

/// The decimal text of a `u64` (`u64::to_string`).
pub fn u64_text(n: u64) -> (s: String)
    ensures
        s@ == decimal_text(n as nat),
{
    let mut digits: Vec<char> = Vec::new();
    let mut m = n;
    // digits holds the low-order digits, most significant last
    while m >= 10
        invariant
            decimal_text(n as nat) == decimal_text(m as nat) + reverse_of(digits@),
        decreases m,
    {
        let d = (m % 10) as u32;
        let c = ((d + ('0' as u32)) as u8) as char;
        assert(c == digit_char((m % 10) as nat));
        let ghost old_digits = digits@;
        digits.push(c);
        assert(reverse_of(digits@) =~= seq![c] + reverse_of(old_digits));
        assert(decimal_text(m as nat) == decimal_text((m / 10) as nat).push(c));
        assert(decimal_text(m as nat) + reverse_of(old_digits) =~= decimal_text((m / 10) as nat)
            + (seq![c] + reverse_of(old_digits)));
        m = m / 10;
    }
    let first = ((m as u32 + ('0' as u32)) as u8) as char;
    assert(first == digit_char(m as nat));
    let mut s = String::new();
    push_char(&mut s, first);
    let mut i = digits.len();
    while i > 0
        invariant
            i <= digits.len(),
            decimal_text(n as nat) == decimal_text(m as nat) + reverse_of(digits@),
            decimal_text(m as nat) == seq![first],
            s@ == seq![first] + reverse_of(digits@).subrange(0, (digits.len() - i) as int),
        decreases i,
    {
        i = i - 1;
        let ghost before = reverse_of(digits@).subrange(0, (digits.len() - i - 1) as int);
        push_char(&mut s, digits[i]);
        assert(reverse_of(digits@)[(digits.len() - i - 1) as int] == digits@[i as int]);
        assert(reverse_of(digits@).subrange(0, (digits.len() - i) as int) =~= before.push(
            digits@[i as int],
        ));
    }
    assert(reverse_of(digits@).subrange(0, digits.len() as int) =~= reverse_of(digits@));
    s
}

pub open spec fn reverse_of(s: Seq<char>) -> Seq<char> {
    Seq::new(s.len(), |i: int| s[s.len() - 1 - i])
}


/// `p` is a prefix of `s`.
pub open spec fn has_prefix(s: Seq<char>, p: Seq<char>) -> bool {
    p.len() <= s.len() && s.subrange(0, p.len() as int) == p
}

/// Whether `s` starts with `p`.
pub fn starts_with(s: &str, p: &str) -> (r: bool)
    ensures
        r == has_prefix(s@, p@),
{
    let a = to_chars(s);
    let b = to_chars(p);
    if b.len() > a.len() {
        return false;
    }
    let mut i: usize = 0;
    while i < b.len()
        invariant
            i <= b.len() <= a.len(),
            a@ == s@,
            b@ == p@,
            forall|j: int| 0 <= j < i ==> a@[j] == b@[j],
        decreases b.len() - i,
    {
        if a[i] != b[i] {
            assert(s@.subrange(0, p@.len() as int)[i as int] != p@[i as int]);
            return false;
        }
        i = i + 1;
    }
    assert(s@.subrange(0, p@.len() as int) =~= p@);
    true
}

/// Whether every character of `s` is whitespace.
pub fn all_whitespace(s: &str) -> (r: bool)
    ensures
        r == all_ws(s@),
{
    let a = to_chars(s);
    let mut i: usize = 0;
    while i < a.len()
        invariant
            i <= a.len(),
            a@ == s@,
            forall|j: int| 0 <= j < i ==> is_ws(#[trigger] a@[j]),
        decreases a.len() - i,
    {
        if !is_whitespace(a[i]) {
            return false;
        }
        i = i + 1;
    }
    true
}

/// The message of the error `std::str::from_utf8` reports for `b`.
pub uninterp spec fn utf8_error_message(b: Seq<u8>) -> Seq<char>;

/// Reads bytes as UTF-8 text (`std::str::from_utf8`): the decoded text when
/// the bytes are valid UTF-8, else the error's message.
#[verifier::external_body]
pub fn utf8_text(bytes: &[u8]) -> (r: Result<&str, String>)
    ensures
        r is Ok <==> vstd::utf8::valid_utf8(bytes@),
        r matches Ok(s) ==> s@ == vstd::utf8::decode_utf8(bytes@),
        r matches Err(m) ==> m@ == utf8_error_message(bytes@),
{
    std::str::from_utf8(bytes).map_err(|error| error.to_string())
}

/// The message of the error `u64::from_str` reports for `s`.
pub uninterp spec fn u64_error_message(s: Seq<char>) -> Seq<char>;

/// Parses a decimal `u64` (`u64::from_str`): an optional `+` and one or more
/// digits whose value fits; else the error's message.
#[verifier::external_body]
pub fn parse_u64_text(s: &str) -> (r: Result<u64, String>)
    ensures
        match parse_u64_spec(s@) {
            Some(n) => r == Ok::<u64, String>(n),
            None => (r matches Err(m) && m@ == u64_error_message(s@)),
        },
{
    s.parse::<u64>().map_err(|error| error.to_string())
}

/// A text without whitespace at either end is its own trim.
pub proof fn lemma_trim_plain(s: Seq<char>)
    requires
        s.len() > 0 ==> !is_ws(s[0]) && !is_ws(s.last()),
    ensures
        trim(s) == s,
{
}

/// The text trimmed of whitespace.
pub fn trim_text(s: &str) -> (r: String)
    ensures
        r@ == trim(s@),
{
    let chars = to_chars(s);
    let t = trim_chars(chars.as_slice());
    from_chars(t.as_slice())
}

/// Whether `s` equals `lit` when ASCII letters are compared without case.
pub fn text_eq_ignore_case(s: &str, lit: &str) -> (r: bool)
    ensures
        r == eq_ignore_case(s@, lit@),
{
    let a = to_chars(s);
    let b = to_chars(lit);
    eq_ignore_ascii_case(a.as_slice(), b.as_slice())
}

/// The parts joined with `sep` between each two of them.
pub open spec fn joined(parts: Seq<Seq<char>>, sep: Seq<char>) -> Seq<char>
    decreases parts.len(),
{
    if parts.len() == 0 {
        Seq::empty()
    } else if parts.len() == 1 {
        parts[0]
    } else {
        joined(parts.drop_last(), sep) + sep + parts.last()
    }
}

pub proof fn lemma_joined_push(parts: Seq<Seq<char>>, sep: Seq<char>, p: Seq<char>)
    ensures
        joined(parts.push(p), sep) == if parts.len() == 0 {
            p
        } else {
            joined(parts, sep) + sep + p
        },
{
    assert(parts.push(p).drop_last() =~= parts);
}

/// How `str::split(',')` reads `s` up to its end: the pieces closed by a
/// comma, and the piece still open.
pub open spec fn comma_state(s: Seq<char>) -> (Seq<Seq<char>>, Seq<char>)
    decreases s.len(),
{
    if s.len() == 0 {
        (Seq::empty(), Seq::empty())
    } else {
        let before = comma_state(s.drop_last());
        if s.last() == ',' {
            (before.0.push(before.1), Seq::empty())
        } else {
            (before.0, before.1.push(s.last()))
        }
    }
}

/// The pieces of `s` between commas, as `str::split(',')` yields them.
pub open spec fn comma_pieces(s: Seq<char>) -> Seq<Seq<char>> {
    comma_state(s).0.push(comma_state(s).1)
}

/// Each piece trimmed of whitespace.
pub open spec fn trimmed_all(ps: Seq<Seq<char>>) -> Seq<Seq<char>> {
    ps.map_values(|p: Seq<char>| trim(p))
}

pub proof fn lemma_trimmed_push(ps: Seq<Seq<char>>, p: Seq<char>)
    ensures
        trimmed_all(ps.push(p)) == trimmed_all(ps).push(trim(p)),
{
    assert(trimmed_all(ps.push(p)) =~= trimmed_all(ps).push(trim(p)));
}

/// The pieces of `s` between commas, each trimmed of whitespace.
pub fn comma_pieces_trimmed(s: &str) -> (r: Vec<String>)
    ensures
        r@.len() == trimmed_all(comma_pieces(s@)).len(),
        forall|i: int| 0 <= i < r@.len() ==> #[trigger] r@[i]@ == trimmed_all(comma_pieces(s@))[i],
{
    let cs = to_chars(s);
    let mut out: Vec<String> = Vec::new();
    let mut open: Vec<char> = Vec::new();
    let mut i: usize = 0;
    assert(cs@.subrange(0, 0) =~= Seq::<char>::empty());
    while i < cs.len()
        invariant
            i <= cs.len(),
            cs@ == s@,
            comma_state(cs@.subrange(0, i as int)).1 == open@,
            out@.len() == comma_state(cs@.subrange(0, i as int)).0.len(),
            forall|j: int| 0 <= j < out@.len() ==> #[trigger] out@[j]@ == trimmed_all(comma_state(cs@.subrange(0, i as int)).0)[j],
        decreases cs.len() - i,
    {
        let ghost pre = cs@.subrange(0, i as int);
        assert(cs@.subrange(0, i + 1).drop_last() =~= pre);
        assert(cs@.subrange(0, i + 1).last() == cs@[i as int]);
        if cs[i] == ',' {
            let piece = trim_chars(open.as_slice());
            proof {
                lemma_trimmed_push(comma_state(pre).0, comma_state(pre).1);
            }
            out.push(from_chars(piece.as_slice()));
            open = Vec::new();
        } else {
            open.push(cs[i]);
        }
        i = i + 1;
    }
    assert(cs@.subrange(0, cs@.len() as int) =~= s@);
    let piece = trim_chars(open.as_slice());
    proof {
        lemma_trimmed_push(comma_state(s@).0, comma_state(s@).1);
    }
    out.push(from_chars(piece.as_slice()));
    out
}

/// Whether the text ends with `c`.
pub fn ends_with_char(s: &str, c: char) -> (r: bool)
    ensures
        r == (s@.len() > 0 && s@.last() == c),
{
    let cs = to_chars(s);
    cs.len() > 0 && cs[cs.len() - 1] == c
}

} // verus!
