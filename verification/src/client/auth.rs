//! Credentials sent with every request.
use vstd::prelude::*;

use crate::text::string_of;

verus! {

/// Credentials sent with every request.
pub enum Auth {
    /// No `Authorization` header.
    Anonymous,
    /// HTTP Basic (RFC 7617).
    Basic { username: String, password: String },
    /// `Authorization: Bearer <token>`.
    Bearer(String),
}

pub enum AuthV {
    Anonymous,
    Basic { username: Seq<char>, password: Seq<char> },
    Bearer(Seq<char>),
}

impl View for Auth {
    type V = AuthV;

    open spec fn view(&self) -> AuthV {
        match self {
            Auth::Anonymous => AuthV::Anonymous,
            Auth::Basic { username, password } => AuthV::Basic { username: username@, password: password@ },
            Auth::Bearer(t) => AuthV::Bearer(t@),
        }
    }
}

/// The base64 digit of the six bits `k` (RFC 4648, table 1).
pub open spec fn b64_digit(k: int) -> char {
    if k < 26 {
        (k + 65) as char
    } else if k < 52 {
        (k - 26 + 97) as char
    } else if k < 62 {
        (k - 52 + 48) as char
    } else if k == 62 {
        '+'
    } else {
        '/'
    }
}

/// Standard base64 with padding (RFC 4648, section 4): each three bytes
/// become four digits; a last group of one or two bytes is padded with `=`.
pub open spec fn base64_spec(b: Seq<u8>) -> Seq<char>
    decreases b.len(),
{
    if b.len() == 0 {
        Seq::empty()
    } else if b.len() == 1 {
        seq![b64_digit((b[0] as int) / 4), b64_digit(((b[0] as int) % 4) * 16), '=', '=']
    } else if b.len() == 2 {
        seq![
            b64_digit((b[0] as int) / 4),
            b64_digit(((b[0] as int) % 4) * 16 + (b[1] as int) / 16),
            b64_digit(((b[1] as int) % 16) * 4),
            '=',
        ]
    } else {
        seq![
            b64_digit((b[0] as int) / 4),
            b64_digit(((b[0] as int) % 4) * 16 + (b[1] as int) / 16),
            b64_digit(((b[1] as int) % 16) * 4 + (b[2] as int) / 64),
            b64_digit((b[2] as int) % 64),
        ] + base64_spec(b.subrange(3, b.len() as int))
    }
}

fn digit(k: u8) -> (c: char)
    requires
        k < 64,
    ensures
        c == b64_digit(k as int),
{
    if k < 26 {
        (k + 65) as char
    } else if k < 52 {
        (k - 26 + 97) as char
    } else if k < 62 {
        (k - 52 + 48) as char
    } else if k == 62 {
        '+'
    } else {
        '/'
    }
}

/// Standard base64 with padding, of the bytes `input`.
pub fn base64(input: &[u8]) -> (r: String)
    ensures
        r@ == base64_spec(input@),
{
    let n = input.len();
    let mut out = String::new();
    let mut i: usize = 0;
    assert(input@.subrange(0, n as int) =~= input@);
    while i < n
        invariant
            i <= n,
            n == input@.len(),
            out@ + base64_spec(input@.subrange(i as int, n as int)) == base64_spec(input@),
        decreases n - i,
    {
        let rest = n - i;
        let ghost tail = input@.subrange(i as int, n as int);
        let b0 = input[i];
        crate::text::push_char(&mut out, digit(b0 / 4));
        if rest == 1 {
            crate::text::push_char(&mut out, digit((b0 % 4) * 16));
            crate::text::push_char(&mut out, '=');
            crate::text::push_char(&mut out, '=');
            assert(input@.subrange(n as int, n as int) =~= Seq::<u8>::empty());
            i = n;
        } else if rest == 2 {
            let b1 = input[i + 1];
            crate::text::push_char(&mut out, digit((b0 % 4) * 16 + b1 / 16));
            crate::text::push_char(&mut out, digit((b1 % 16) * 4));
            crate::text::push_char(&mut out, '=');
            assert(input@.subrange(n as int, n as int) =~= Seq::<u8>::empty());
            i = n;
        } else {
            let b1 = input[i + 1];
            let b2 = input[i + 2];
            crate::text::push_char(&mut out, digit((b0 % 4) * 16 + b1 / 16));
            crate::text::push_char(&mut out, digit((b1 % 16) * 4 + b2 / 64));
            crate::text::push_char(&mut out, digit(b2 % 64));
            assert(tail.subrange(3, tail.len() as int) =~= input@.subrange(i + 3, n as int));
            i = i + 3;
        }
    }
    assert(out@ + Seq::<char>::empty() =~= out@);
    out
}

/// Whether bytes can be a header value: each is a tab, or at least 32 and
/// not 127.
pub open spec fn valid_header_bytes(b: Seq<u8>) -> bool {
    forall|i: int| 0 <= i < b.len() ==> #[trigger] b[i] == 9 || (32 <= b[i] && b[i] != 127)
}

/// Whether a text can be a header value: its UTF-8 bytes can.
pub open spec fn valid_header_text(s: Seq<char>) -> bool {
    valid_header_bytes(vstd::utf8::encode_utf8(s))
}

/// Whether `http::HeaderValue::from_str` accepts `text`: it refuses the
/// text exactly when one of its UTF-8 bytes is below 32 and not a tab, or
/// is 127.
#[verifier::external_body]
pub(crate) fn is_valid_header_value(text: &str) -> (r: bool)
    ensures
        r == valid_header_text(text@),
{
    http::HeaderValue::from_str(text).is_ok()
}

/// The text of the `Authorization` header for these credentials, before
/// the check that it is a valid header value.
pub open spec fn authorization_text(a: AuthV) -> Option<Seq<char>> {
    match a {
        AuthV::Anonymous => None,
        AuthV::Basic { username, password } => Some("Basic "@ + base64_spec(vstd::utf8::encode_utf8(username + ":"@ + password))),
        AuthV::Bearer(t) => Some("Bearer "@ + t),
    }
}

impl Auth {
    /// Basic credentials.
    pub fn basic(username: &str, password: &str) -> (r: Auth)
        ensures
            r@ == (AuthV::Basic { username: username@, password: password@ }),
    {
        Auth::Basic { username: string_of(username), password: string_of(password) }
    }

    /// A bearer token.
    pub fn bearer(token: &str) -> (r: Auth)
        ensures
            r@ == AuthV::Bearer(token@),
    {
        Auth::Bearer(string_of(token))
    }

    /// The `Authorization` header value: none for [`Auth::Anonymous`], nor when
    /// the text is not a valid header value (a control character in the
    /// token or the user name).
    pub fn header_value(&self) -> (r: Option<String>)
        ensures
            match authorization_text(self@) {
                Some(t) => if valid_header_text(t) {
                    r matches Some(x) && x@ == t
                } else {
                    r is None
                },
                None => r is None,
            },
    {
        let text = match self {
            Auth::Anonymous => return None,
            Auth::Basic { username, password } => {
                let mut plain = username.clone();
                plain.append(":");
                plain.append(password.as_str());
                let encoded = base64(plain.as_str().as_bytes());
                let mut t = string_of("Basic ");
                t.append(encoded.as_str());
                t
            },
            Auth::Bearer(token) => {
                let mut t = string_of("Bearer ");
                t.append(token.as_str());
                t
            },
        };
        if is_valid_header_value(text.as_str()) {
            Some(text)
        } else {
            None
        }
    }

    /// A description that names the kind of credentials and the user name,
    /// and hides the secrets.
    pub fn debug_text(&self) -> (r: String)
        ensures
            r@ == match self@ {
                AuthV::Anonymous => "None"@,
                AuthV::Basic { username, .. } => "Basic { username: "@ + str_debug(username) + ", secret: \"***\" }"@,
                AuthV::Bearer(_) => "Bearer(***)"@,
            },
    {
        match self {
            Auth::Anonymous => string_of("None"),
            Auth::Basic { username, .. } => {
                let mut t = string_of("Basic { username: ");
                let quoted = debug_quoted(username.as_str());
                t.append(quoted.as_str());
                t.append(", secret: \"***\" }");
                t
            },
            Auth::Bearer(_) => string_of("Bearer(***)"),
        }
    }
}

/// What `Debug` writes for a text: the text in double quotes, with its
/// quotes, backslashes and unprintable characters escaped.
pub uninterp spec fn str_debug(text: Seq<char>) -> Seq<char>;

/// The text as `Debug` writes it (`<str as Debug>::fmt`).
#[verifier::external_body]
fn debug_quoted(text: &str) -> (r: String)
    ensures
        r@ == str_debug(text@),
{
    format!("{text:?}")
}

/// Whether a header's value is a secret that HTTP clients should keep out
/// of logs: the `Authorization` header, which holds the credentials.
pub fn is_sensitive_header(name: &str) -> (r: bool)
    ensures
        r == (name@ == "authorization"@),
{
    crate::text::text_is(name, "authorization")
}

/// Base64 writes four digits for every three bytes begun.
pub proof fn lemma_base64_len(b: Seq<u8>)
    ensures
        base64_spec(b).len() == 4 * ((b.len() + 2) / 3),
    decreases b.len(),
{
    if b.len() >= 3 {
        lemma_base64_len(b.subrange(3, b.len() as int));
    }
}

/// The six bits a base64 digit stands for (RFC 4648, table 1).
pub open spec fn b64_value(c: char) -> int {
    if 'A' <= c && c <= 'Z' {
        c as int - 65
    } else if 'a' <= c && c <= 'z' {
        c as int - 97 + 26
    } else if '0' <= c && c <= '9' {
        c as int - 48 + 52
    } else if c == '+' {
        62
    } else {
        63
    }
}

/// Whether a character is a digit of the base64 alphabet.
pub open spec fn is_b64_digit(c: char) -> bool {
    ('A' <= c && c <= 'Z') || ('a' <= c && c <= 'z') || ('0' <= c && c <= '9') || c == '+' || c == '/'
}

/// The bytes that padded base64 text stands for (RFC 4648, section 4):
/// each four digits give three bytes, fewer where they end in `=`.
pub open spec fn base64_decoded(s: Seq<char>) -> Seq<u8>
    decreases s.len(),
{
    if s.len() < 4 {
        Seq::empty()
    } else {
        let n = b64_value(s[0]) * 262144 + b64_value(s[1]) * 4096 + (if s[2] == '=' {
            0
        } else {
            b64_value(s[2]) * 64
        }) + (if s[3] == '=' {
            0
        } else {
            b64_value(s[3])
        });
        (if s[2] == '=' {
            seq![(n / 65536) as u8]
        } else if s[3] == '=' {
            seq![(n / 65536) as u8, ((n / 256) % 256) as u8]
        } else {
            seq![(n / 65536) as u8, ((n / 256) % 256) as u8, (n % 256) as u8]
        }) + base64_decoded(s.subrange(4, s.len() as int))
    }
}

proof fn lemma_b64_digit(k: int)
    requires
        0 <= k < 64,
    ensures
        is_b64_digit(b64_digit(k)),
        b64_value(b64_digit(k)) == k,
        b64_digit(k) != '=',
{
}

#[verifier::spinoff_prover]
proof fn lemma_three_bytes(b0: int, b1: int, b2: int)
    requires
        0 <= b0 < 256,
        0 <= b1 < 256,
        0 <= b2 < 256,
    ensures
        ({
            let n = (b0 / 4) * 262144 + ((b0 % 4) * 16 + b1 / 16) * 4096 + ((b1 % 16) * 4 + b2 / 64) * 64 + b2 % 64;
            n / 65536 == b0 && (n / 256) % 256 == b1 && n % 256 == b2
        }),
{
    let n = (b0 / 4) * 262144 + ((b0 % 4) * 16 + b1 / 16) * 4096 + ((b1 % 16) * 4 + b2 / 64) * 64 + b2 % 64;
    assert(n == b0 * 65536 + b1 * 256 + b2) by (nonlinear_arith)
        requires
            0 <= b0 < 256,
            0 <= b1 < 256,
            0 <= b2 < 256,
            n == (b0 / 4) * 262144 + ((b0 % 4) * 16 + b1 / 16) * 4096 + ((b1 % 16) * 4 + b2 / 64) * 64 + b2 % 64,
    ;
    assert(n / 65536 == b0 && (n / 256) % 256 == b1 && n % 256 == b2) by (nonlinear_arith)
        requires
            0 <= b0 < 256,
            0 <= b1 < 256,
            0 <= b2 < 256,
            n == b0 * 65536 + b1 * 256 + b2,
    ;
}

/// Base64 text is made of digits of the alphabet, but for the `=` that
/// pad its last group, and it decodes back to the bytes it was made from.
#[verifier::spinoff_prover]
#[verifier::rlimit(50)]
pub proof fn lemma_base64_decodes(b: Seq<u8>)
    ensures
        base64_decoded(base64_spec(b)) == b,
        forall|i: int|
            0 <= i < base64_spec(b).len() - (3 - b.len() % 3) % 3 ==> is_b64_digit(#[trigger] base64_spec(b)[i]),
        forall|i: int|
            base64_spec(b).len() - (3 - b.len() % 3) % 3 <= i < base64_spec(b).len() ==> #[trigger] base64_spec(b)[i] == '=',
    decreases b.len(),
{
    lemma_base64_len(b);
    let s = base64_spec(b);
    if b.len() == 0 {
        assert(b =~= Seq::<u8>::empty());
    } else if b.len() == 1 {
        let b0 = b[0] as int;
        lemma_b64_digit(b0 / 4);
        lemma_b64_digit((b0 % 4) * 16);
        lemma_three_bytes(b0, 0, 0);
        let n = b64_value(s[0]) * 262144 + b64_value(s[1]) * 4096;
        assert(n == (b0 / 4) * 262144 + ((b0 % 4) * 16 + 0int / 16) * 4096 + ((0int % 16) * 4 + 0int / 64) * 64 + 0int % 64);
        assert(s.subrange(4, 4) =~= Seq::<char>::empty());
        assert(base64_decoded(s) == seq![(n / 65536) as u8] + base64_decoded(Seq::<char>::empty()));
        assert(base64_decoded(s) =~= b);
    } else if b.len() == 2 {
        let b0 = b[0] as int;
        let b1 = b[1] as int;
        lemma_b64_digit(b0 / 4);
        lemma_b64_digit((b0 % 4) * 16 + b1 / 16);
        lemma_b64_digit((b1 % 16) * 4);
        lemma_three_bytes(b0, b1, 0);
        let n = b64_value(s[0]) * 262144 + b64_value(s[1]) * 4096 + b64_value(s[2]) * 64;
        assert(n == (b0 / 4) * 262144 + ((b0 % 4) * 16 + b1 / 16) * 4096 + ((b1 % 16) * 4 + 0int / 64) * 64 + 0int % 64);
        assert(s.subrange(4, 4) =~= Seq::<char>::empty());
        assert(base64_decoded(s) == seq![(n / 65536) as u8, ((n / 256) % 256) as u8] + base64_decoded(Seq::<char>::empty()));
        assert(base64_decoded(s) =~= b);
    } else {
        let b0 = b[0] as int;
        let b1 = b[1] as int;
        let b2 = b[2] as int;
        let rest = b.subrange(3, b.len() as int);
        lemma_base64_decodes(rest);
        lemma_base64_len(rest);
        lemma_b64_digit(b0 / 4);
        lemma_b64_digit((b0 % 4) * 16 + b1 / 16);
        lemma_b64_digit((b1 % 16) * 4 + b2 / 64);
        lemma_b64_digit(b2 % 64);
        lemma_three_bytes(b0, b1, b2);
        let head = seq![
            b64_digit(b0 / 4),
            b64_digit((b0 % 4) * 16 + b1 / 16),
            b64_digit((b1 % 16) * 4 + b2 / 64),
            b64_digit(b2 % 64),
        ];
        assert(s == head + base64_spec(rest));
        assert(s.subrange(4, s.len() as int) =~= base64_spec(rest));
        assert(b =~= seq![b[0], b[1], b[2]] + rest);
        assert(base64_decoded(s) =~= b);
        assert(rest.len() % 3 == b.len() % 3);
        assert forall|i: int|
            0 <= i < s.len() - (3 - b.len() % 3) % 3 implies is_b64_digit(#[trigger] s[i]) by {
            if i >= 4 {
                assert(s[i] == base64_spec(rest)[i - 4]);
            }
        }
        assert forall|i: int| s.len() - (3 - b.len() % 3) % 3 <= i < s.len() implies #[trigger] s[i] == '=' by {
            assert(s[i] == base64_spec(rest)[i - 4]);
        }
    }
}

} // verus!
