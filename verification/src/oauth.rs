//! The pieces of an authorization-code login: tokens, challenges, URLs and
//! the redirect that ends it.

use crate::auth;
use crate::auth::{AuthFault, CodexAuthError};
use crate::text;
use base64::Engine;
use ring::rand::SecureRandom;
use vstd::prelude::*;
use vstd::string::*;

verus! {

pub const OAUTH_REDIRECT_PORT: u16 = 1455;

/// How long a login waits for the browser, in seconds.
pub const LOGIN_TIMEOUT: u64 = 600;

/// The SHA-256 digest of a text.
pub uninterp spec fn sha256(bytes: Seq<u8>) -> Seq<u8>;

/// The text made of bytes that are not UTF-8, with a replacement character
/// for what is not.
pub uninterp spec fn replaced_text(bytes: Seq<u8>) -> Seq<char>;

/// The text that bytes stand for, with a replacement character for what is
/// not UTF-8.
pub open spec fn lossy_text(bytes: Seq<u8>) -> Seq<char> {
    if vstd::utf8::valid_utf8(bytes) {
        vstd::utf8::decode_utf8(bytes)
    } else {
        replaced_text(bytes)
    }
}

/// `ring::digest::digest` with SHA-256, which yields 32 bytes. The length
/// bound is that of the algorithm.
#[verifier::external_body]
fn digest(bytes: &[u8]) -> (r: Vec<u8>)
    requires
        bytes@.len() < 0x1000_0000_0000_0000,
    ensures
        r@ == sha256(bytes@),
        r@.len() == 32,
{
    ring::digest::digest(&ring::digest::SHA256, bytes).as_ref().to_vec()
}

/// `ring::rand::SystemRandom::fill`: as many bytes as asked for, or nothing.
/// Which bytes is left to chance.
#[verifier::external_body]
fn random_bytes(count: usize) -> (r: Option<Vec<u8>>)
    ensures
        r matches Some(bytes) ==> bytes@.len() == count,
{
    let mut bytes = vec![0u8; count];
    ring::rand::SystemRandom::new().fill(&mut bytes).ok()?;
    Some(bytes)
}

/// `String::from_utf8_lossy`. Bytes that are UTF-8 give the text they encode;
/// what others give is named by [`replaced_text`].
#[verifier::external_body]
fn lossy(bytes: &Vec<u8>) -> (r: String)
    ensures
        r@ == (if vstd::utf8::valid_utf8(bytes@) {
            vstd::utf8::decode_utf8(bytes@)
        } else {
            replaced_text(bytes@)
        }),
{
    String::from_utf8_lossy(bytes).into_owned()
}

/// Byte `i`, or zero past the end.
pub open spec fn byte_at(bytes: Seq<u8>, i: int) -> int {
    if 0 <= i < bytes.len() {
        bytes[i] as int
    } else {
        0
    }
}

/// The `i`-th group of six bits.
pub open spec fn sextet(bytes: Seq<u8>, i: int) -> int {
    let g = 3 * (i / 4);
    if i % 4 == 0 {
        byte_at(bytes, g) / 4
    } else if i % 4 == 1 {
        (byte_at(bytes, g) % 4) * 16 + byte_at(bytes, g + 1) / 16
    } else if i % 4 == 2 {
        (byte_at(bytes, g + 1) % 16) * 4 + byte_at(bytes, g + 2) / 64
    } else {
        byte_at(bytes, g + 2) % 64
    }
}

/// The character of a group of six bits in the URL-safe alphabet.
pub open spec fn base64_char(v: int) -> char {
    if v < 26 {
        (65 + v) as char
    } else if v < 52 {
        (97 + v - 26) as char
    } else if v < 62 {
        (48 + v - 52) as char
    } else if v == 62 {
        '-'
    } else {
        '_'
    }
}

/// The URL-safe Base64 text of bytes, without padding.
pub open spec fn base64_text(bytes: Seq<u8>) -> Seq<char> {
    Seq::new(((4 * bytes.len() + 2) / 3) as nat, |i: int| base64_char(sextet(bytes, i)))
}

/// `base64::Engine::encode` of `URL_SAFE_NO_PAD`: the text that RFC 4648
/// gives. The length bound keeps its buffer in range.
#[verifier::external_body]
fn encode_base64(bytes: &Vec<u8>) -> (r: String)
    requires
        bytes@.len() <= usize::MAX / 2,
    ensures
        r@ == base64_text(bytes@),
{
    base64::engine::general_purpose::URL_SAFE_NO_PAD.encode(bytes)
}

/// `base64::Engine::decode` of `URL_SAFE_NO_PAD`, which takes no padding and
/// no stray bits: it gives back the bytes whose text it is handed, and fails
/// on a text that no bytes have.
#[verifier::external_body]
pub(crate) fn decode_base64(content: &str) -> (r: Option<Vec<u8>>)
    ensures
        r matches Some(bytes) ==> base64_text(bytes@) == content@,
        r is None ==> forall|bytes: Seq<u8>| #[trigger] base64_text(bytes) != content@,
{
    base64::engine::general_purpose::URL_SAFE_NO_PAD.decode(content).ok()
}

/// Whether a character may stand in a token.
pub open spec fn is_token_char(c: char) -> bool {
    ('A' <= c <= 'Z') || ('a' <= c <= 'z') || ('0' <= c <= '9') || c == '-' || c == '_'
}

/// Whether a text is a token of `count` random bytes.
pub open spec fn is_token(s: Seq<char>, count: int) -> bool {
    &&& s.len() == (4 * count + 2) / 3
    &&& forall|i: int| 0 <= i < s.len() ==> is_token_char(#[trigger] s[i])
}

proof fn lemma_token(bytes: Seq<u8>)
    ensures
        is_token(base64_text(bytes), bytes.len() as int),
{
    let s = base64_text(bytes);
    assert forall|i: int| 0 <= i < s.len() implies is_token_char(#[trigger] s[i]) by {
        let v = sextet(bytes, i);
        let g = 3 * (i / 4);
        assert(0 <= byte_at(bytes, g) <= 255);
        assert(0 <= byte_at(bytes, g + 1) <= 255);
        assert(0 <= byte_at(bytes, g + 2) <= 255);
        assert(0 <= v < 64);
        assert(s[i] == base64_char(v));
    }
}

/// A token that stands for bytes someone holds.
pub fn token_of(bytes: &Vec<u8>) -> (r: String)
    requires
        bytes@.len() <= usize::MAX / 2,
    ensures
        r@ == base64_text(bytes@),
        is_token(r@, bytes@.len() as int),
{
    proof {
        lemma_token(bytes@);
    }
    encode_base64(bytes)
}

fn random_token(byte_count: usize) -> (r: Result<String, CodexAuthError>)
    requires
        byte_count <= usize::MAX / 2,
    ensures
        r matches Ok(token) ==> is_token(token@, byte_count as int),
        r matches Err(e) ==> e@ == AuthFault::OAuthRandom,
{
    match random_bytes(byte_count) {
        Some(bytes) => Ok(token_of(&bytes)),
        None => Err(CodexAuthError::OAuthRandom),
    }
}

/// A PKCE verifier: 32 random bytes, as 43 characters.
pub fn pkce_verifier() -> (r: Result<String, CodexAuthError>)
    ensures
        r matches Ok(token) ==> is_token(token@, 32),
        r matches Err(e) ==> e@ == AuthFault::OAuthRandom,
{
    random_token(32)
}

/// An opaque state that ties a redirect to the login that asked for it.
pub fn oauth_state() -> (r: Result<String, CodexAuthError>)
    ensures
        r matches Ok(token) ==> is_token(token@, 16),
        r matches Err(e) ==> e@ == AuthFault::OAuthRandom,
{
    random_token(16)
}

/// The S256 challenge of a PKCE verifier.
pub fn pkce_challenge(verifier: &str) -> (r: String)
    requires
        vstd::utf8::encode_utf8(verifier@).len() < 0x1000_0000_0000_0000,
    ensures
        r@ == base64_text(sha256(vstd::utf8::encode_utf8(verifier@))),
        is_token(r@, 32),
{
    let hash = digest(verifier.as_bytes());
    token_of(&hash)
}

/// Whether a byte stands for itself in a URL.
pub open spec fn is_unreserved(b: u8) -> bool {
    (65 <= b <= 90) || (97 <= b <= 122) || (48 <= b <= 57) || b == 45 || b == 95 || b == 46 || b
        == 126
}

/// Whether a byte stands for itself in a form.
pub open spec fn is_form_safe(b: u8) -> bool {
    (65 <= b <= 90) || (97 <= b <= 122) || (48 <= b <= 57) || b == 42 || b == 45 || b == 46 || b
        == 95
}

/// Whether a byte stands for itself.
pub open spec fn is_plain(b: u8, form: bool) -> bool {
    if form {
        is_form_safe(b)
    } else {
        is_unreserved(b)
    }
}

/// The upper-case hexadecimal digit of a value.
pub open spec fn hex_char(v: int) -> char {
    if v < 10 {
        (48 + v) as char
    } else {
        (55 + v) as char
    }
}

/// A byte as it stands in a URL, or in a form, where a space is a plus sign.
pub open spec fn encoded_byte(b: u8, form: bool) -> Seq<char> {
    if is_plain(b, form) {
        seq![b as char]
    } else if form && b == 32 {
        seq!['+']
    } else {
        seq!['%', hex_char(b as int / 16), hex_char(b as int % 16)]
    }
}

/// The first `n` bytes as they stand in a URL, or in a form.
pub open spec fn encoded_bytes(bytes: Seq<u8>, n: int, form: bool) -> Seq<char>
    decreases n,
{
    if n <= 0 {
        Seq::empty()
    } else {
        encoded_bytes(bytes, n - 1, form) + encoded_byte(bytes[n - 1], form)
    }
}

/// A text as it stands in a URL's query.
pub open spec fn url_encoded(s: Seq<char>) -> Seq<char> {
    let bytes = vstd::utf8::encode_utf8(s);
    encoded_bytes(bytes, bytes.len() as int, false)
}

/// A text as it stands in a form.
pub open spec fn form_encoded(s: Seq<char>) -> Seq<char> {
    let bytes = vstd::utf8::encode_utf8(s);
    encoded_bytes(bytes, bytes.len() as int, true)
}

fn hex_digit(v: u8) -> (r: char)
    requires
        v < 16,
    ensures
        r == hex_char(v as int),
{
    if v < 10 {
        (48 + v) as char
    } else {
        (55 + v) as char
    }
}

fn encode(input: &str, form: bool) -> (r: String)
    ensures
        r@ == (if form {
            form_encoded(input@)
        } else {
            url_encoded(input@)
        }),
{
    let bytes = input.as_bytes();
    let mut r = String::new();
    let mut i: usize = 0;
    while i < bytes.len()
        invariant
            i <= bytes@.len(),
            bytes@ == vstd::utf8::encode_utf8(input@),
            r@ == encoded_bytes(bytes@, i as int, form),
        decreases bytes@.len() - i,
    {
        let b: u8 = bytes[i];
        let ghost before = r@;
        if (65 <= b && b <= 90) || (97 <= b && b <= 122) || (48 <= b && b <= 57) || b == 45 || b
            == 95 || b == 46 || (b == 126 && !form) || (b == 42 && form) {
            r.push(b as char);
        } else if form && b == 32 {
            r.push('+');
        } else {
            r.push('%');
            r.push(hex_digit(b / 16));
            r.push(hex_digit(b % 16));
        }
        proof {
            assert(r@ =~= before + encoded_byte(b, form));
        }
        i += 1;
    }
    r
}

/// Percent-encodes a value for use in a URL's query.
pub fn url_encode(input: &str) -> (r: String)
    ensures
        r@ == url_encoded(input@),
{
    encode(input, false)
}

/// The value of a hexadecimal digit.
pub open spec fn hex_of(b: u8) -> Option<u8> {
    if 48 <= b <= 57 {
        Some((b - 48) as u8)
    } else if 97 <= b <= 102 {
        Some((b - 87) as u8)
    } else if 65 <= b <= 70 {
        Some((b - 55) as u8)
    } else {
        None
    }
}

fn hex_value(b: u8) -> (r: Option<u8>)
    ensures
        r == hex_of(b),
        r matches Some(v) ==> v < 16,
{
    if 48 <= b && b <= 57 {
        Some(b - 48)
    } else if 97 <= b && b <= 102 {
        Some(b - 87)
    } else if 65 <= b && b <= 70 {
        Some(b - 55)
    } else {
        None
    }
}

/// Whether an escaped byte stands at `i`.
pub open spec fn escape_at(bytes: Seq<u8>, i: int) -> Option<u8> {
    if 0 <= i && i + 2 < bytes.len() && bytes[i] == 37 {
        match (hex_of(bytes[i + 1]), hex_of(bytes[i + 2])) {
            (Some(high), Some(low)) => Some((high * 16 + low) as u8),
            _ => None,
        }
    } else {
        None
    }
}

/// The bytes from `i` on with escapes undone and `+` read as a space.
pub open spec fn decoded_bytes(bytes: Seq<u8>, i: int) -> Seq<u8>
    decreases bytes.len() - i,
{
    if i < 0 || i >= bytes.len() {
        Seq::empty()
    } else if bytes[i] == 43 {
        seq![32u8] + decoded_bytes(bytes, i + 1)
    } else {
        match escape_at(bytes, i) {
            Some(b) => seq![b] + decoded_bytes(bytes, i + 3),
            None => seq![bytes[i]] + decoded_bytes(bytes, i + 1),
        }
    }
}

/// A query component with its escapes undone.
pub open spec fn percent_decoded(s: Seq<char>) -> Seq<char> {
    lossy_text(decoded_bytes(vstd::utf8::encode_utf8(s), 0))
}

/// The bytes of a query component with its escapes undone.
pub fn percent_decode_bytes(input: &str) -> (r: Vec<u8>)
    ensures
        r@ == decoded_bytes(vstd::utf8::encode_utf8(input@), 0),
{
    let bytes = input.as_bytes();
    let count: usize = bytes.len();
    let mut out: Vec<u8> = Vec::new();
    let mut i: usize = 0;
    proof {
        assert(out@ + decoded_bytes(bytes@, 0) =~= decoded_bytes(bytes@, 0));
    }
    while i < count
        invariant
            count == bytes@.len(),
            i <= count,
            out@ + decoded_bytes(bytes@, i as int) == decoded_bytes(bytes@, 0),
        decreases count - i,
    {
        let ghost before = out@;
        let b: u8 = bytes[i];
        let mut next: u8 = b;
        let mut step: usize = 1;
        if b == 43 {
            next = 32;
        } else if b == 37 && count - i > 2 {
            if let Some(high) = hex_value(bytes[i + 1]) {
                if let Some(low) = hex_value(bytes[i + 2]) {
                    next = high * 16 + low;
                    step = 3;
                }
            }
        }
        out.push(next);
        proof {
            let rest = decoded_bytes(bytes@, i + step);
            assert(decoded_bytes(bytes@, i as int) == seq![next] + rest);
            assert(before + (seq![next] + rest) =~= before.push(next) + rest);
        }
        i += step;
    }
    proof {
        assert(out@ + Seq::<u8>::empty() =~= out@);
    }
    out
}

/// Decodes one percent-encoded query component.
pub fn percent_decode(input: &str) -> (r: String)
    ensures
        r@ == percent_decoded(input@),
        ({
            let bytes = decoded_bytes(vstd::utf8::encode_utf8(input@), 0);
            vstd::utf8::valid_utf8(bytes) ==> r@ == vstd::utf8::decode_utf8(bytes)
        }),
{
    let bytes = percent_decode_bytes(input);
    lossy(&bytes)
}

/// The byte of a single-byte character.
spec fn char_byte(c: char) -> u8 {
    (c as u32) as u8
}

/// The bytes of a text of single-byte characters.
spec fn ascii_bytes(s: Seq<char>) -> Seq<u8> {
    Seq::new(s.len(), |i: int| char_byte(s[i]))
}

proof fn lemma_ascii(s: Seq<char>)
    requires
        forall|i: int| 0 <= i < s.len() ==> (#[trigger] s[i]) as u32 <= 0x7f,
    ensures
        vstd::utf8::encode_utf8(s) == ascii_bytes(s),
    decreases s.len(),
{
    if s.len() > 0 {
        let rest = s.drop_first();
        assert forall|i: int| 0 <= i < rest.len() implies (#[trigger] rest[i]) as u32 <= 0x7f by {
            assert(rest[i] == s[i + 1]);
        }
        lemma_ascii(rest);
        let c = s[0] as u32;
        assert(c <= 0x7f);
        assert((c & 0x7f) as u8 == c as u8) by (bit_vector)
            requires
                c <= 0x7f,
        ;
        assert(vstd::utf8::encode_scalar(c) =~= seq![c as u8]);
        assert(vstd::utf8::encode_utf8(s) =~= seq![c as u8] + ascii_bytes(rest));
        assert(ascii_bytes(s) =~= seq![c as u8] + ascii_bytes(rest));
    } else {
        assert(ascii_bytes(s) =~= Seq::empty());
    }
}

proof fn lemma_encoded_ascii(bytes: Seq<u8>, n: int, form: bool)
    requires
        0 <= n <= bytes.len(),
    ensures
        forall|i: int|
            0 <= i < encoded_bytes(bytes, n, form).len() ==> (#[trigger] encoded_bytes(bytes, n, form)[i])
                as u32 <= 0x7f,
    decreases n,
{
    if n > 0 {
        lemma_encoded_ascii(bytes, n - 1, form);
        let before = encoded_bytes(bytes, n - 1, form);
        let more = encoded_byte(bytes[n - 1], form);
        let all = encoded_bytes(bytes, n, form);
        assert forall|i: int| 0 <= i < all.len() implies (#[trigger] all[i]) as u32 <= 0x7f by {
            if i < before.len() {
                assert(all[i] == before[i]);
            } else {
                assert(all[i] == more[i - before.len()]);
            }
        }
    }
}

/// The bytes of the encoding of the bytes from `k` on.
spec fn encoded_from(bytes: Seq<u8>, k: int, form: bool) -> Seq<u8>
    decreases bytes.len() - k,
{
    if k < 0 || k >= bytes.len() {
        Seq::empty()
    } else {
        ascii_bytes(encoded_byte(bytes[k], form)) + encoded_from(bytes, k + 1, form)
    }
}

proof fn lemma_encoded_from(bytes: Seq<u8>, k: int, form: bool)
    requires
        0 <= k <= bytes.len(),
    ensures
        ascii_bytes(encoded_bytes(bytes, k, form)) + encoded_from(bytes, k, form) == encoded_from(bytes, 0, form),
    decreases k,
{
    if k > 0 {
        lemma_encoded_from(bytes, k - 1, form);
        let a = ascii_bytes(encoded_bytes(bytes, k - 1, form));
        let b = ascii_bytes(encoded_byte(bytes[k - 1], form));
        assert(ascii_bytes(encoded_bytes(bytes, k, form)) =~= a + b);
        assert((a + b) + encoded_from(bytes, k, form) =~= a + (b + encoded_from(bytes, k, form)));
    } else {
        assert(ascii_bytes(encoded_bytes(bytes, 0, form)) =~= Seq::empty());
        assert(Seq::<u8>::empty() + encoded_from(bytes, 0, form) =~= encoded_from(bytes, 0, form));
    }
}

/// Decoding `all` from `i` on, where the encoding of `bytes[k..]` stands.
proof fn lemma_decode_encoded(all: Seq<u8>, i: int, bytes: Seq<u8>, k: int, form: bool)
    requires
        0 <= k <= bytes.len(),
        0 <= i <= all.len(),
        all.skip(i) == encoded_from(bytes, k, form),
    ensures
        decoded_bytes(all, i) == bytes.skip(k),
    decreases bytes.len() - k,
{
    if k < bytes.len() {
        let b = bytes[k];
        let head = ascii_bytes(encoded_byte(b, form));
        let rest = encoded_from(bytes, k + 1, form);
        let here = all.skip(i);
        assert(here == head + rest);
        assert(here.len() == all.len() - i);
        assert(bytes.skip(k) =~= seq![b] + bytes.skip(k + 1));
        if is_plain(b, form) || (form && b == 32) {
            let shown: u8 = if is_plain(b, form) {
                b
            } else {
                43
            };
            assert(head.len() == 1 && head[0] == shown);
            assert(here[0] == shown);
            assert(all[i] == shown);
            assert(all.skip(i + 1) =~= rest) by {
                assert forall|x: int| 0 <= x < rest.len() implies all.skip(i + 1)[x] == rest[x] by {
                    assert(here[x + 1] == rest[x]);
                }
            }
            lemma_decode_encoded(all, i + 1, bytes, k + 1, form);
        } else {
            let high = b as int / 16;
            let low = b as int % 16;
            assert(head.len() == 3);
            assert(head[0] == 37);
            assert(head[1] == char_byte(hex_char(high)));
            assert(head[2] == char_byte(hex_char(low)));
            assert(here[0] == 37 && here[1] == head[1] && here[2] == head[2]);
            assert(all[i] == 37 && all[i + 1] == head[1] && all[i + 2] == head[2]);
            assert(hex_of(head[1]) == Some(high as u8));
            assert(hex_of(head[2]) == Some(low as u8));
            assert(escape_at(all, i) == Some(b));
            assert(all.skip(i + 3) =~= rest) by {
                assert forall|x: int| 0 <= x < rest.len() implies all.skip(i + 3)[x] == rest[x] by {
                    assert(here[x + 3] == rest[x]);
                }
            }
            lemma_decode_encoded(all, i + 3, bytes, k + 1, form);
        }
    } else {
        assert(all.skip(i).len() == 0);
        assert(bytes.skip(k) =~= Seq::empty());
    }
}

/// Decoding an encoded text gives its bytes back, from a URL and from a form.
pub proof fn decoding_undoes_encoding(s: Seq<char>)
    ensures
        decoded_bytes(vstd::utf8::encode_utf8(url_encoded(s)), 0) == vstd::utf8::encode_utf8(s),
        decoded_bytes(vstd::utf8::encode_utf8(form_encoded(s)), 0) == vstd::utf8::encode_utf8(s),
        vstd::utf8::valid_utf8(vstd::utf8::encode_utf8(s)),
        vstd::utf8::decode_utf8(vstd::utf8::encode_utf8(s)) == s,
{
    lemma_decodes(s, false);
    lemma_decodes(s, true);
    vstd::utf8::encode_utf8_valid_utf8(s);
    vstd::utf8::encode_utf8_decode_utf8(s);
}

proof fn lemma_decodes(s: Seq<char>, form: bool)
    ensures
        ({
            let bytes = vstd::utf8::encode_utf8(s);
            decoded_bytes(
                vstd::utf8::encode_utf8(encoded_bytes(bytes, bytes.len() as int, form)),
                0,
            ) == bytes
        }),
{
    let bytes = vstd::utf8::encode_utf8(s);
    let n = bytes.len() as int;
    let encoded = encoded_bytes(bytes, n, form);
    lemma_encoded_ascii(bytes, n, form);
    lemma_ascii(encoded);
    lemma_encoded_from(bytes, n, form);
    let all = vstd::utf8::encode_utf8(encoded);
    assert(all =~= ascii_bytes(encoded) + encoded_from(bytes, n, form));
    assert(all.skip(0) =~= encoded_from(bytes, 0, form));
    lemma_decode_encoded(all, 0, bytes, 0, form);
    assert(bytes.skip(0) =~= bytes);
}

/// The parameters of a query, in order.
#[derive(Debug)]
pub struct Params {
    pairs: Vec<(String, String)>,
}

/// The value of one parameter.
pub struct Param {
    pub key: Seq<char>,
    pub value: Seq<char>,
}

impl View for Params {
    type V = Seq<Param>;

    closed spec fn view(&self) -> Seq<Param> {
        self.pairs@.map_values(|p: (String, String)| Param { key: p.0@, value: p.1@ })
    }
}

/// The value of the last of the first `n` parameters called `key`.
pub open spec fn param(params: Seq<Param>, n: int, key: Seq<char>) -> Option<Seq<char>>
    decreases n,
{
    if n <= 0 {
        None
    } else if params[n - 1].key == key {
        Some(params[n - 1].value)
    } else {
        param(params, n - 1, key)
    }
}

/// The value of a parameter; a later one replaces an earlier one.
pub open spec fn param_of(params: Seq<Param>, key: Seq<char>) -> Option<Seq<char>> {
    param(params, params.len() as int, key)
}

impl Params {
    pub fn get(&self, key: &str) -> (r: Option<&String>)
        ensures
            (match r {
                Some(v) => Some(v@),
                None => None,
            }) == param_of(self@, key@),
    {
        let mut n: usize = self.pairs.len();
        let ghost all = self@;
        proof {
            assert(all.len() == self.pairs@.len());
        }
        while n > 0
            invariant
                n <= self.pairs@.len(),
                all == self@,
                all.len() == self.pairs@.len(),
                param(all, all.len() as int, key@) == param(all, n as int, key@),
            decreases n,
        {
            proof {
                assert(all[n - 1] == (Param {
                    key: self.pairs@[n - 1].0@,
                    value: self.pairs@[n - 1].1@,
                }));
            }
            if text::same(self.pairs[n - 1].0.as_str(), key) {
                return Some(&self.pairs[n - 1].1);
            }
            n -= 1;
        }
        None
    }
}

/// The parameter that one piece of a query is.
pub open spec fn param_piece(piece: Seq<char>) -> Param {
    let at = text::index_from(piece, 0, '=');
    if at < piece.len() {
        Param {
            key: percent_decoded(piece.take(at)),
            value: percent_decoded(piece.skip(at + 1)),
        }
    } else {
        Param { key: percent_decoded(piece), value: Seq::empty() }
    }
}

/// The parameters of the first `n` pieces of a query; empty pieces are none.
pub open spec fn params_of(pieces: Seq<Seq<char>>, n: int) -> Seq<Param>
    decreases n,
{
    if n <= 0 {
        Seq::empty()
    } else if pieces[n - 1].len() == 0 {
        params_of(pieces, n - 1)
    } else {
        params_of(pieces, n - 1).push(param_piece(pieces[n - 1]))
    }
}

/// The parameters of a query.
pub open spec fn query_params(query: Seq<char>) -> Seq<Param> {
    let pieces = text::split(query, '&');
    params_of(pieces, pieces.len() as int)
}

/// The two sides of the first `c` in a text, if there is one.
pub open spec fn cut(s: Seq<char>, c: char) -> Option<(Seq<char>, Seq<char>)> {
    let at = text::index_from(s, 0, c);
    if at < s.len() {
        Some((s.take(at), s.skip(at + 1)))
    } else {
        None
    }
}

fn split_once(s: &str, c: char) -> (r: Option<(String, String)>)
    ensures
        (match r {
            Some((a, b)) => Some((a@, b@)),
            None => None,
        }) == cut(s@, c),
{
    let chars = text::chars_of(s);
    let count: usize = chars.len();
    let mut i: usize = 0;
    while i < count
        invariant
            count == chars@.len(),
            chars@ == s@,
            i <= count,
            text::index_from(s@, 0, c) == text::index_from(s@, i as int, c),
        decreases count - i,
    {
        if chars[i] == c {
            let a = text::text_of(&chars, 0, i);
            let b = text::text_of(&chars, i + 1, count);
            proof {
                assert(a@ =~= s@.take(i as int));
                assert(b@ =~= s@.skip(i + 1));
            }
            return Some((a, b));
        }
        i += 1;
    }
    None
}

/// Parses a form-encoded query.
pub fn parse_query(query: &str) -> (r: Params)
    ensures
        r@ == query_params(query@),
{
    let pieces = text::split_on(query, '&');
    let ghost all = text::texts(pieces@);
    let mut r = Params { pairs: Vec::new() };
    let mut i: usize = 0;
    proof {
        assert(r@ =~= Seq::empty());
        assert(all.len() == pieces@.len());
    }
    while i < pieces.len()
        invariant
            i <= pieces@.len(),
            all == text::texts(pieces@),
            r@ == params_of(all, i as int),
        decreases pieces@.len() - i,
    {
        let piece = pieces[i].as_str();
        let ghost before = r@;
        proof {
            assert(all[i as int] == pieces@[i as int]@);
        }
        if !piece.is_empty() {
            let (key, value) = match split_once(piece, '=') {
                Some((k, v)) => (percent_decode(k.as_str()), percent_decode(v.as_str())),
                None => (percent_decode(piece), String::new()),
            };
            let ghost new = Param { key: key@, value: value@ };
            r.pairs.push((key, value));
            proof {
                assert(new == param_piece(piece@));
                assert(r@ =~= before.push(new));
            }
        }
        i += 1;
    }
    r
}

/// The authorization code that a redirect brought.
#[derive(Debug)]
pub struct OAuthCode {
    pub code: String,
}

/// What a redirect with these parameters comes to. A refusal is reported
/// first, then a state that does not match, then a missing code.
pub open spec fn redirect_outcome(params: Seq<Param>, expected: Seq<char>) -> Result<
    Seq<char>,
    AuthFault,
> {
    match param_of(params, "error"@) {
        Some(error) => {
            let described = match param_of(params, "error_description"@) {
                Some(d) => if text::is_blank(d) {
                    error
                } else {
                    d
                },
                None => error,
            };
            Err(AuthFault::OAuthDenied(described))
        },
        None => if param_of(params, "state"@) != Some(expected) {
            Err(AuthFault::OAuthStateMismatch)
        } else {
            match param_of(params, "code"@) {
                Some(code) => if text::is_blank(code) {
                    Err(AuthFault::OAuthRedirect("redirect is missing the authorization code"@))
                } else {
                    Ok(code)
                },
                None => Err(
                    AuthFault::OAuthRedirect("redirect is missing the authorization code"@),
                ),
            }
        },
    }
}

/// The path and the query of a request target.
pub open spec fn target_parts(target: Seq<char>) -> (Seq<char>, Seq<char>) {
    match cut(target, '?') {
        Some(parts) => parts,
        None => (target, ""@),
    }
}

/// What a redirect to `target` comes to.
pub open spec fn redirect_to(target: Seq<char>, expected: Seq<char>) -> Result<
    Seq<char>,
    AuthFault,
> {
    let (path, query) = target_parts(target);
    if path != "/auth/callback"@ {
        Err(AuthFault::OAuthRedirect("unexpected redirect path "@ + path))
    } else {
        redirect_outcome(query_params(query), expected)
    }
}

/// The outcome of a redirect as a mathematical value.
pub open spec fn redirected(r: Result<OAuthCode, CodexAuthError>) -> Result<Seq<char>, AuthFault> {
    match r {
        Ok(code) => Ok(code.code@),
        Err(e) => Err(e@),
    }
}

/// Checks the parameters of a redirect and takes the code from them.
pub fn check_redirect(params: &Params, expected_state: &str) -> (r: Result<
    OAuthCode,
    CodexAuthError,
>)
    ensures
        redirected(r) == redirect_outcome(params@, expected_state@),
{
    if let Some(error) = params.get("error") {
        let described = match params.get("error_description") {
            Some(d) => if text::blank(d.as_str()) {
                error.clone()
            } else {
                d.clone()
            },
            None => error.clone(),
        };
        return Err(CodexAuthError::OAuthDenied(described));
    }
    let matching = match params.get("state") {
        Some(state) => text::same(state.as_str(), expected_state),
        None => false,
    };
    if !matching {
        return Err(CodexAuthError::OAuthStateMismatch);
    }
    if let Some(code) = params.get("code") {
        if !text::blank(code.as_str()) {
            return Ok(OAuthCode { code: code.clone() });
        }
    }
    Err(
        CodexAuthError::OAuthRedirect("redirect is missing the authorization code".to_owned()),
    )
}

/// Parses the target of a redirect and checks its state.
pub fn parse_redirect(target: &str, expected_state: &str) -> (r: Result<OAuthCode, CodexAuthError>)
    ensures
        redirected(r) == redirect_to(target@, expected_state@),
{
    let (path, query) = match split_once(target, '?') {
        Some(parts) => parts,
        None => (target.to_owned(), "".to_owned()),
    };
    if !text::same(path.as_str(), "/auth/callback") {
        return Err(
            CodexAuthError::OAuthRedirect(
                text::concat("unexpected redirect path ", path.as_str()),
            ),
        );
    }
    let params = parse_query(query.as_str());
    check_redirect(&params, expected_state)
}

/// The word at position `i` of a request line, or nothing.
pub open spec fn word_at(words: Seq<Seq<char>>, i: int) -> Seq<char> {
    if i < words.len() {
        words[i]
    } else {
        Seq::empty()
    }
}

/// What the request line of a redirect comes to.
pub open spec fn request_outcome(line: Seq<char>, expected: Seq<char>) -> Result<
    Seq<char>,
    AuthFault,
> {
    let words = text::words(line);
    let method = word_at(words, 0);
    if method != "GET"@ {
        Err(AuthFault::OAuthRedirect("expected a GET redirect, got "@ + method))
    } else {
        redirect_to(word_at(words, 1), expected)
    }
}

/// Index of the first newline from `i` on, or the end.
pub open spec fn line_end(bytes: Seq<u8>, i: int) -> int
    decreases bytes.len() - i,
{
    if 0 <= i < bytes.len() && bytes[i] != 10 {
        line_end(bytes, i + 1)
    } else {
        i
    }
}

/// The first line of a request, without a carriage return before its newline.
pub open spec fn first_line(bytes: Seq<u8>) -> Seq<u8> {
    let end = line_end(bytes, 0);
    if end > 0 && bytes[end - 1] == 13 {
        bytes.take(end - 1)
    } else {
        bytes.take(end)
    }
}

/// The request line, once all of it has been received.
pub fn request_line(received: &Vec<u8>) -> (r: Option<String>)
    ensures
        r is Some == (line_end(received@, 0) < received@.len()),
        r matches Some(line) ==> line@ == lossy_text(first_line(received@)),
{
    let mut end: usize = 0;
    while end < received.len() && received[end] != 10
        invariant
            end <= received@.len(),
            line_end(received@, 0) == line_end(received@, end as int),
        decreases received@.len() - end,
    {
        end += 1;
    }
    if end >= received.len() {
        return None;
    }
    let stop: usize = if end > 0 && received[end - 1] == 13 {
        end - 1
    } else {
        end
    };
    let mut line: Vec<u8> = Vec::new();
    let mut i: usize = 0;
    while i < stop
        invariant
            i <= stop <= received@.len(),
            line@ == received@.take(i as int),
        decreases stop - i,
    {
        line.push(received[i]);
        i += 1;
        proof {
            assert(received@.take(i as int) =~= received@.take(i - 1).push(received@[i - 1]));
        }
    }
    Some(lossy(&line))
}

/// Takes the authorization code from the request line of a redirect.
pub fn code_from_request(line: &str, expected_state: &str) -> (r: Result<
    OAuthCode,
    CodexAuthError,
>)
    ensures
        redirected(r) == request_outcome(line@, expected_state@),
{
    let words = text::words_of(line);
    let ghost all = text::texts(words@);
    proof {
        assert(all.len() == words@.len());
        if all.len() > 0 {
            assert(all[0] == words@[0]@);
        }
        if all.len() > 1 {
            assert(all[1] == words@[1]@);
        }
    }
    let method = if words.len() > 0 {
        words[0].clone()
    } else {
        String::new()
    };
    let target = if words.len() > 1 {
        words[1].clone()
    } else {
        String::new()
    };
    proof {
        assert(method@ =~= word_at(all, 0));
        assert(target@ =~= word_at(all, 1));
    }
    if !text::same(method.as_str(), "GET") {
        return Err(
            CodexAuthError::OAuthRedirect(
                text::concat("expected a GET redirect, got ", method.as_str()),
            ),
        );
    }
    parse_redirect(target.as_str(), expected_state)
}

/// A redirect is only accepted by the login that asked for it: a code is
/// taken only from one that brings the expected state back.
pub proof fn codes_need_the_expected_state(params: Seq<Param>, expected: Seq<char>)
    ensures
        redirect_outcome(params, expected) is Ok ==> param_of(params, "state"@) == Some(expected)
            && param_of(params, "error"@) is None,
{
}

/// A text as it stands in a URL's query, or in a form.
pub open spec fn component(s: Seq<char>, form: bool) -> Seq<char> {
    if form {
        form_encoded(s)
    } else {
        url_encoded(s)
    }
}

/// A parameter as it stands in a query, or in a form.
pub open spec fn pair_text(p: Param, form: bool) -> Seq<char> {
    component(p.key, form) + "="@ + component(p.value, form)
}

pub open spec fn pairs_of(params: Seq<Param>, form: bool) -> Seq<Seq<char>> {
    params.map_values(|p: Param| pair_text(p, form))
}

/// Parameters as a query, or as a form.
pub open spec fn query_text(params: Seq<Param>, form: bool) -> Seq<char> {
    text::join(pairs_of(params, form), "&"@)
}

proof fn lemma_encoded_is_no_separator(bytes: Seq<u8>, n: int, form: bool)
    requires
        0 <= n <= bytes.len(),
    ensures
        forall|i: int|
            0 <= i < encoded_bytes(bytes, n, form).len() ==> (#[trigger] encoded_bytes(bytes, n, form)[i])
                != '&' && encoded_bytes(bytes, n, form)[i] != '=',
    decreases n,
{
    if n > 0 {
        lemma_encoded_is_no_separator(bytes, n - 1, form);
        let before = encoded_bytes(bytes, n - 1, form);
        let more = encoded_byte(bytes[n - 1], form);
        let all = encoded_bytes(bytes, n, form);
        assert forall|i: int| 0 <= i < all.len() implies (#[trigger] all[i]) != '&' && all[i]
            != '=' by {
            if i < before.len() {
                assert(all[i] == before[i]);
            } else {
                assert(all[i] == more[i - before.len()]);
            }
        }
    }
}

proof fn lemma_component_reads_back(s: Seq<char>, form: bool)
    ensures
        percent_decoded(component(s, form)) == s,
        forall|i: int|
            0 <= i < component(s, form).len() ==> (#[trigger] component(s, form)[i]) != '&'
                && component(s, form)[i] != '=',
{
    let bytes = vstd::utf8::encode_utf8(s);
    decoding_undoes_encoding(s);
    lemma_encoded_is_no_separator(bytes, bytes.len() as int, form);
}

proof fn lemma_pair_reads_back(p: Param, form: bool)
    ensures
        param_piece(pair_text(p, form)) == p,
        pair_text(p, form).len() > 0,
        forall|i: int| 0 <= i < pair_text(p, form).len() ==> #[trigger] pair_text(p, form)[i] != '&',
{
    reveal_strlit("=");
    lemma_component_reads_back(p.key, form);
    lemma_component_reads_back(p.value, form);
    let key = component(p.key, form);
    let value = component(p.value, form);
    let piece = pair_text(p, form);
    assert(piece.len() == key.len() + 1 + value.len());
    assert forall|i: int| 0 <= i < key.len() implies #[trigger] piece[i] != '=' by {
        assert(piece[i] == key[i]);
    }
    assert(piece[key.len() as int] == '=');
    text::lemma_index_is(piece, 0, key.len() as int, '=');
    assert(piece.take(key.len() as int) =~= key);
    assert(piece.skip(key.len() as int + 1) =~= value);
    assert forall|i: int| 0 <= i < piece.len() implies #[trigger] piece[i] != '&' by {
        if i < key.len() {
            assert(piece[i] == key[i]);
        } else if i > key.len() {
            assert(piece[i] == value[i - key.len() - 1]);
        }
    }
}

/// A query or a form gives back the parameters it was made of, in order.
pub proof fn queries_read_back(params: Seq<Param>, form: bool)
    ensures
        query_params(query_text(params, form)) == params,
{
    let pieces = pairs_of(params, form);
    reveal_strlit("&");
    assert("&"@ =~= seq!['&']);
    if params.len() == 0 {
        let q = query_text(params, form);
        assert(q.len() == 0);
        assert(q.skip(0).len() == 0);
        assert(text::split(q, '&') == seq![q.skip(0)]);
        assert(params_of(text::split(q, '&'), 1) == params_of(text::split(q, '&'), 0));
        assert(query_params(q) =~= params);
    } else {
        assert forall|k: int, x: int|
            0 <= k < pieces.len() && 0 <= x < pieces[k].len() implies #[trigger] pieces[k][x]
            != '&' by {
            lemma_pair_reads_back(params[k], form);
        }
        text::lemma_split_joined(pieces, '&');
        lemma_params_read_back(params, params.len() as int, form);
        assert(params.take(params.len() as int) =~= params);
    }
}

proof fn lemma_params_read_back(params: Seq<Param>, n: int, form: bool)
    requires
        0 <= n <= params.len(),
    ensures
        params_of(pairs_of(params, form), n) == params.take(n),
    decreases n,
{
    if n > 0 {
        lemma_params_read_back(params, n - 1, form);
        lemma_pair_reads_back(params[n - 1], form);
        assert(params.take(n) =~= params.take(n - 1).push(params[n - 1]));
    } else {
        assert(params.take(0) =~= Seq::empty());
    }
}

fn encoded_pair(key: &str, value: &str, form: bool) -> (r: String)
    ensures
        r@ == pair_text((Param { key: key@, value: value@ }), form),
{
    text::concat3(encode(key, form).as_str(), "=", encode(value, form).as_str())
}

/// The parameters with which a login begins.
pub open spec fn login_params(
    redirect_uri: Seq<char>,
    challenge: Seq<char>,
    state: Seq<char>,
) -> Seq<Param> {
    seq![
        Param { key: "response_type"@, value: "code"@ },
        Param { key: "client_id"@, value: "app_EMoamEEZ73f0CkXaXp7hrann"@ },
        Param { key: "redirect_uri"@, value: redirect_uri },
        Param { key: "scope"@, value: "openid profile email offline_access"@ },
        Param { key: "code_challenge"@, value: challenge },
        Param { key: "code_challenge_method"@, value: "S256"@ },
        Param { key: "state"@, value: state },
        Param { key: "id_token_add_organizations"@, value: "true"@ },
        Param { key: "codex_cli_simplified_flow"@, value: "true"@ },
        Param { key: "originator"@, value: "lam-agent"@ },
    ]
}

/// The URL at which a login begins.
pub open spec fn authorize_url(
    base: Seq<char>,
    redirect_uri: Seq<char>,
    challenge: Seq<char>,
    state: Seq<char>,
) -> Seq<char> {
    base + "?"@ + query_text(login_params(redirect_uri, challenge, state), false)
}

/// Builds the URL at which a login begins. The authorization server checks
/// its parameters strictly.
pub fn build_authorize_url(
    authorize_base: &str,
    redirect_uri: &str,
    challenge: &str,
    state: &str,
) -> (r: String)
    ensures
        r@ == authorize_url(authorize_base@, redirect_uri@, challenge@, state@),
{
    let mut pairs: Vec<String> = Vec::new();
    pairs.push(encoded_pair("response_type", "code", false));
    pairs.push(encoded_pair("client_id", "app_EMoamEEZ73f0CkXaXp7hrann", false));
    pairs.push(encoded_pair("redirect_uri", redirect_uri, false));
    pairs.push(encoded_pair("scope", "openid profile email offline_access", false));
    pairs.push(encoded_pair("code_challenge", challenge, false));
    pairs.push(encoded_pair("code_challenge_method", "S256", false));
    pairs.push(encoded_pair("state", state, false));
    pairs.push(encoded_pair("id_token_add_organizations", "true", false));
    pairs.push(encoded_pair("codex_cli_simplified_flow", "true", false));
    pairs.push(encoded_pair("originator", "lam-agent", false));
    proof {
        let want = login_params(redirect_uri@, challenge@, state@);
        assert(text::texts(pairs@) =~= pairs_of(want, false));
    }
    let query = text::joined(&pairs, "&");
    text::concat3(authorize_base, "?", query.as_str())
}

/// A login begins with exactly these parameters, in this order: they are what
/// the query of its URL reads as.
pub proof fn logins_ask_for_what_they_need(
    redirect_uri: Seq<char>,
    challenge: Seq<char>,
    state: Seq<char>,
)
    ensures
        query_params(query_text(login_params(redirect_uri, challenge, state), false)) == login_params(
            redirect_uri,
            challenge,
            state,
        ),
{
    queries_read_back(login_params(redirect_uri, challenge, state), false);
}

/// The parameters with which a code is exchanged for tokens.
pub open spec fn exchange_params(
    code: Seq<char>,
    verifier: Seq<char>,
    redirect_uri: Seq<char>,
) -> Seq<Param> {
    seq![
        Param { key: "grant_type"@, value: "authorization_code"@ },
        Param { key: "client_id"@, value: "app_EMoamEEZ73f0CkXaXp7hrann"@ },
        Param { key: "code"@, value: code },
        Param { key: "redirect_uri"@, value: redirect_uri },
        Param { key: "code_verifier"@, value: verifier },
    ]
}

/// The form with which a code is exchanged for tokens, as
/// `application/x-www-form-urlencoded` writes it.
pub open spec fn exchange_text(
    code: Seq<char>,
    verifier: Seq<char>,
    redirect_uri: Seq<char>,
) -> Seq<char> {
    query_text(exchange_params(code, verifier, redirect_uri), true)
}

/// The form with which a code is exchanged for tokens.
pub fn exchange_form(code: &str, verifier: &str, redirect_uri: &str) -> (r: String)
    ensures
        r@ == exchange_text(code@, verifier@, redirect_uri@),
{
    let mut pairs: Vec<String> = Vec::new();
    pairs.push(encoded_pair("grant_type", "authorization_code", true));
    pairs.push(encoded_pair("client_id", "app_EMoamEEZ73f0CkXaXp7hrann", true));
    pairs.push(encoded_pair("code", code, true));
    pairs.push(encoded_pair("redirect_uri", redirect_uri, true));
    pairs.push(encoded_pair("code_verifier", verifier, true));
    proof {
        let want = exchange_params(code@, verifier@, redirect_uri@);
        assert(text::texts(pairs@) =~= pairs_of(want, true));
    }
    text::joined(&pairs, "&")
}

/// The address to which the browser is redirected.
pub fn redirect_uri(port: u16) -> (r: String)
    ensures
        r@ == "http://localhost:"@ + text::decimal(port as nat) + "/auth/callback"@,
{
    text::concat3(
        "http://localhost:",
        text::decimal_text(port as u64).as_str(),
        "/auth/callback",
    )
}

} // verus!
