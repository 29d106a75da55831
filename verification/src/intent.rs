//! Titles for tool calls whose arguments are still streaming in.
//!
//! The arguments of an `eval` call are one JSON object that carries an
//! `intent` string. Its text is shown as soon as any of it has arrived, so the
//! scan has to read an object that may end anywhere.

use crate::text;
use vstd::prelude::*;
use vstd::string::*;

verus! {

/// Arguments longer than this many bytes are not scanned.
pub const STREAMED_INTENT_SCAN_LIMIT: usize = 16384;

/// Longest intent shown in a title, in characters.
pub const STREAMED_INTENT_MAX_CHARS: usize = 120;

/// The text of a complete JSON string, when the bytes are one.
pub uninterp spec fn json_string(bytes: Seq<u8>) -> Option<Seq<char>>;

/// The byte offset behind the first JSON value, when the bytes begin with one.
pub uninterp spec fn json_value_end(bytes: Seq<u8>) -> Option<nat>;

/// Calls `serde_json::from_slice::<String>`; the decoded text is named by
/// [`json_string`].
#[verifier::external_body]
pub(crate) fn decode_string(bytes: &[u8]) -> (r: Option<String>)
    ensures
        text::opt_text(r) == json_string(bytes@),
{
    serde_json::from_slice::<String>(bytes).ok()
}

/// Takes the first value from `serde_json::Deserializer::from_slice(..)` as a
/// stream and reports its `byte_offset`, named by [`json_value_end`]. The
/// offset counts bytes read, so it never exceeds their number.
#[verifier::external_body]
pub(crate) fn value_end(bytes: &[u8]) -> (r: Option<usize>)
    ensures
        r is Some == json_value_end(bytes@) is Some,
        r is Some ==> r->0 == json_value_end(bytes@)->0,
        r is Some ==> r->0 <= bytes@.len(),
{
    let mut values = serde_json::Deserializer::from_slice(bytes).into_iter::<serde_json::Value>();
    values.next()?.ok()?;
    Some(values.byte_offset())
}

/// As much of a streamed string as is known.
#[derive(Debug)]
pub struct StreamedIntent {
    pub text: String,
    pub complete: bool,
}

/// The value of an optional [`StreamedIntent`].
pub open spec fn intent_value(i: Option<StreamedIntent>) -> Option<(Seq<char>, bool)> {
    match i {
        Some(i) => Some((i.text@, i.complete)),
        None => None,
    }
}

pub open spec fn is_json_space(b: u8) -> bool {
    b == 9 || b == 10 || b == 12 || b == 13 || b == 32
}

/// The byte at `i`, when there is one.
pub open spec fn byte_at(bytes: Seq<u8>, i: int) -> Option<u8> {
    if 0 <= i < bytes.len() {
        Some(bytes[i])
    } else {
        None
    }
}

/// First index at or after `i` whose byte is not whitespace.
pub open spec fn past_space(bytes: Seq<u8>, i: int) -> int
    decreases bytes.len() - i,
{
    if 0 <= i < bytes.len() && is_json_space(bytes[i]) {
        past_space(bytes, i + 1)
    } else {
        i
    }
}

/// Index of the first unescaped quote at or after `i`.
pub open spec fn closing_quote(bytes: Seq<u8>, i: int, escaped: bool) -> Option<int>
    decreases bytes.len() - i,
{
    if i < 0 || i >= bytes.len() {
        None
    } else if escaped {
        closing_quote(bytes, i + 1, false)
    } else if bytes[i] == 92 {
        closing_quote(bytes, i + 1, true)
    } else if bytes[i] == 34 {
        Some(i)
    } else {
        closing_quote(bytes, i + 1, false)
    }
}

pub open spec fn is_hex(b: u8) -> bool {
    (48 <= b <= 57) || (65 <= b <= 70) || (97 <= b <= 102)
}

/// Length of a character in UTF-8, by its first byte.
pub open spec fn utf8_step(b: u8) -> int {
    if b < 0xC0 {
        1
    } else if b < 0xE0 {
        2
    } else if b < 0xF0 {
        3
    } else {
        4
    }
}

/// Whether a single-letter escape may follow the backslash.
pub open spec fn is_escape(b: u8) -> bool {
    b == 34 || b == 92 || b == 47 || b == 98 || b == 102 || b == 110 || b == 114 || b == 116
}

/// How the element of a string that begins at `i` goes on.
pub enum Element {
    /// The closing quote.
    Close,
    /// A character or escape that ends before the given index.
    Whole(int),
    /// Not part of a JSON string.
    Invalid,
    /// Cut off by the end of the input.
    Cut,
}

/// The string element at `i`.
pub open spec fn element(bytes: Seq<u8>, i: int) -> Element {
    if i < 0 || i >= bytes.len() {
        Element::Cut
    } else if bytes[i] == 34 {
        Element::Close
    } else if bytes[i] == 92 {
        if i + 1 >= bytes.len() {
            Element::Cut
        } else if bytes[i + 1] == 117 {
            if i + 6 > bytes.len() {
                Element::Cut
            } else if is_hex(bytes[i + 2]) && is_hex(bytes[i + 3]) && is_hex(bytes[i + 4])
                && is_hex(bytes[i + 5]) {
                Element::Whole(i + 6)
            } else {
                Element::Invalid
            }
        } else if is_escape(bytes[i + 1]) {
            Element::Whole(i + 2)
        } else {
            Element::Invalid
        }
    } else if bytes[i] < 0x20 {
        Element::Invalid
    } else {
        Element::Whole(i + utf8_step(bytes[i]))
    }
}

/// The longest decodable content among the candidate ends `ends[..n]`.
pub open spec fn longest_prefix(bytes: Seq<u8>, start: int, ends: Seq<usize>, n: int) -> Option<
    (Seq<char>, bool),
>
    decreases n,
{
    if n <= 0 {
        None
    } else {
        match json_string(quoted(bytes, start, ends[n - 1] as int)) {
            Some(s) => Some((s, false)),
            None => longest_prefix(bytes, start, ends, n - 1),
        }
    }
}

/// The bytes `start..end` between quotes.
pub open spec fn quoted(bytes: Seq<u8>, start: int, end: int) -> Seq<u8> {
    seq![34u8] + bytes.subrange(start, end) + seq![34u8]
}

/// What is known of the string whose content starts at `start`, scanned from
/// `i` on with the element boundaries `ends` behind it.
pub open spec fn string_from(bytes: Seq<u8>, start: int, i: int, ends: Seq<usize>) -> Option<
    (Seq<char>, bool),
>
    decreases bytes.len() - i,
{
    match element(bytes, i) {
        Element::Close => match json_string(bytes.subrange(start - 1, i + 1)) {
            Some(s) => Some((s, true)),
            None => None,
        },
        Element::Invalid => None,
        Element::Cut => longest_prefix(bytes, start, ends, ends.len() as int),
        Element::Whole(next) => if next > bytes.len() {
            None
        } else {
            string_from(bytes, start, next, ends.push(next as usize))
        },
    }
}

/// What is known of the JSON string that begins at `start`.
pub open spec fn partial_string(bytes: Seq<u8>, start: int) -> Option<(Seq<char>, bool)> {
    if byte_at(bytes, start) != Some(34u8) {
        None
    } else {
        string_from(bytes, start + 1, start + 1, seq![(start + 1) as usize])
    }
}

/// What is known of the `intent` field, from the field at `i` on.
pub open spec fn intent_from(bytes: Seq<u8>, i: int) -> Option<(Seq<char>, bool)>
    decreases bytes.len() - i,
    when 0 <= i
    via intent_from_ends
{
    let a = past_space(bytes, i);
    let b = if byte_at(bytes, a) == Some(44u8) {
        past_space(bytes, a + 1)
    } else {
        a
    };
    if byte_at(bytes, b) != Some(34u8) {
        None
    } else {
        match closing_quote(bytes, b + 1, false) {
            None => None,
            Some(q) => match json_string(bytes.subrange(b, q + 1)) {
                None => None,
                Some(key) => {
                    let c = past_space(bytes, q + 1);
                    if byte_at(bytes, c) != Some(58u8) {
                        None
                    } else {
                        let v = past_space(bytes, c + 1);
                        if key == "intent"@ {
                            partial_string(bytes, v)
                        } else if v > bytes.len() {
                            None
                        } else {
                            match json_value_end(bytes.skip(v)) {
                                None => None,
                                Some(n) => if v + n <= bytes.len() {
                                    intent_from(bytes, v + n)
                                } else {
                                    None
                                },
                            }
                        }
                    }
                },
            },
        }
    }
}

#[via_fn]
proof fn intent_from_ends(bytes: Seq<u8>, i: int) {
    if 0 <= i {
        lemma_fields_advance(bytes, i);
    }
}

proof fn lemma_fields_advance(bytes: Seq<u8>, i: int)
    requires
        0 <= i,
    ensures
        ({
            let a = past_space(bytes, i);
            let b = if byte_at(bytes, a) == Some(44u8) {
                past_space(bytes, a + 1)
            } else {
                a
            };
            byte_at(bytes, b) == Some(34u8) ==> {
                &&& i <= b
                &&& closing_quote(bytes, b + 1, false) matches Some(q) ==> {
                    &&& b < q < bytes.len()
                    &&& q + 1 <= past_space(bytes, q + 1)
                    &&& past_space(bytes, q + 1) + 1 <= past_space(
                        bytes,
                        past_space(bytes, q + 1) + 1,
                    )
                }
            }
        }),
{
    lemma_past_space(bytes, i);
    let a = past_space(bytes, i);
    lemma_past_space(bytes, a + 1);
    let b = if byte_at(bytes, a) == Some(44u8) {
        past_space(bytes, a + 1)
    } else {
        a
    };
    if byte_at(bytes, b) == Some(34u8) {
        lemma_closing_quote(bytes, b + 1, false);
        if closing_quote(bytes, b + 1, false) is Some {
            let q = closing_quote(bytes, b + 1, false)->0;
            lemma_past_space(bytes, q + 1);
            lemma_past_space(bytes, past_space(bytes, q + 1) + 1);
        }
    }
}

proof fn lemma_past_space(bytes: Seq<u8>, i: int)
    requires
        0 <= i,
    ensures
        i <= past_space(bytes, i),
        i <= bytes.len() ==> past_space(bytes, i) <= bytes.len(),
    decreases bytes.len() - i,
{
    if i < bytes.len() && is_json_space(bytes[i]) {
        lemma_past_space(bytes, i + 1);
    }
}

proof fn lemma_closing_quote(bytes: Seq<u8>, i: int, escaped: bool)
    requires
        0 <= i,
    ensures
        closing_quote(bytes, i, escaped) matches Some(q) ==> i <= q < bytes.len(),
    decreases bytes.len() - i,
{
    if i < bytes.len() {
        lemma_closing_quote(bytes, i + 1, false);
        lemma_closing_quote(bytes, i + 1, true);
    }
}

/// What is known of the `intent` field of a streamed object.
pub open spec fn known_intent(bytes: Seq<u8>) -> Option<(Seq<char>, bool)> {
    let open = past_space(bytes, 0);
    if bytes.len() > STREAMED_INTENT_SCAN_LIMIT || byte_at(bytes, open) != Some(123u8) {
        None
    } else {
        intent_from(bytes, open + 1)
    }
}

/// The text a title shows for an intent: its words, cut to the longest length
/// shown.
pub open spec fn shown_intent(intent: (Seq<char>, bool)) -> Seq<char> {
    let raw = if intent.1 {
        text::trim(intent.0)
    } else {
        text::trim_start(intent.0)
    };
    let words = text::squash(raw);
    if words.len() <= STREAMED_INTENT_MAX_CHARS {
        words
    } else {
        words.take(STREAMED_INTENT_MAX_CHARS as int)
    }
}

/// The title a streamed tool call gets from its arguments, when they tell one.
pub open spec fn intent_title(
    tool_name: Seq<char>,
    arguments: Seq<char>,
    address: Seq<char>,
) -> Option<Seq<char>> {
    match known_intent(vstd::utf8::encode_utf8(arguments)) {
        Some(intent) => if tool_name == "eval"@ && shown_intent(intent).len() > 0 {
            Some(address + " · "@ + shown_intent(intent))
        } else {
            None
        },
        None => None,
    }
}

/// First index at or after `cursor` whose byte is not whitespace.
pub fn skip_json_whitespace(bytes: &[u8], cursor: usize) -> (r: usize)
    ensures
        r == past_space(bytes@, cursor as int),
        cursor <= r,
        cursor <= bytes@.len() ==> r <= bytes@.len(),
{
    let mut i: usize = cursor;
    proof {
        lemma_past_space(bytes@, cursor as int);
    }
    while i < bytes.len() && (bytes[i] == 9 || bytes[i] == 10 || bytes[i] == 12 || bytes[i] == 13
        || bytes[i] == 32)
        invariant
            cursor <= i,
            past_space(bytes@, cursor as int) == past_space(bytes@, i as int),
        decreases bytes@.len() - i,
    {
        i += 1;
    }
    i
}

/// Index of the quote that closes the string opened at `start`.
pub fn complete_json_string_end(bytes: &[u8], start: usize) -> (r: Option<usize>)
    requires
        start < usize::MAX,
    ensures
        r is Some == closing_quote(bytes@, start + 1, false) is Some,
        r matches Some(q) ==> q == closing_quote(bytes@, start + 1, false)->0 && start < q
            < bytes@.len(),
{
    let mut cursor: usize = start + 1;
    let mut escaped = false;
    while cursor < bytes.len()
        invariant
            start < cursor,
            closing_quote(bytes@, start + 1, false) == closing_quote(
                bytes@,
                cursor as int,
                escaped,
            ),
        decreases bytes@.len() - cursor,
    {
        let byte: u8 = bytes[cursor];
        if escaped {
            escaped = false;
        } else if byte == 92 {
            escaped = true;
        } else if byte == 34 {
            return Some(cursor);
        }
        cursor += 1;
    }
    None
}

/// The bytes `i..j`.
fn sub_bytes(bytes: &[u8], i: usize, j: usize) -> (r: Vec<u8>)
    requires
        i <= j <= bytes@.len(),
    ensures
        r@ == bytes@.subrange(i as int, j as int),
{
    let mut r: Vec<u8> = Vec::new();
    let mut k: usize = i;
    while k < j
        invariant
            i <= k <= j <= bytes@.len(),
            r@ == bytes@.subrange(i as int, k as int),
        decreases j - k,
    {
        r.push(bytes[k]);
        proof {
            assert(bytes@.subrange(i as int, k + 1) =~= bytes@.subrange(i as int, k as int).push(
                bytes@[k as int],
            ));
        }
        k += 1;
    }
    r
}

fn hex(b: u8) -> (r: bool)
    ensures
        r == is_hex(b),
{
    (48 <= b && b <= 57) || (65 <= b && b <= 70) || (97 <= b && b <= 102)
}

/// The longest decodable content among the candidate ends.
fn decode_longest(bytes: &[u8], start: usize, ends: &Vec<usize>) -> (r: Option<StreamedIntent>)
    requires
        start <= bytes@.len(),
        forall|k: int| 0 <= k < ends@.len() ==> start <= #[trigger] ends@[k] <= bytes@.len(),
    ensures
        intent_value(r) == longest_prefix(bytes@, start as int, ends@, ends@.len() as int),
{
    let mut n: usize = ends.len();
    while n > 0
        invariant
            n <= ends@.len(),
            start <= bytes@.len(),
            forall|k: int| 0 <= k < ends@.len() ==> start <= #[trigger] ends@[k] <= bytes@.len(),
            longest_prefix(bytes@, start as int, ends@, ends@.len() as int) == longest_prefix(
                bytes@,
                start as int,
                ends@,
                n as int,
            ),
        decreases n,
    {
        let end: usize = ends[n - 1];
        let mut candidate: Vec<u8> = Vec::new();
        candidate.push(34);
        let mut content = sub_bytes(bytes, start, end);
        candidate.append(&mut content);
        candidate.push(34);
        proof {
            assert(candidate@ =~= quoted(bytes@, start as int, end as int));
        }
        if let Some(text) = decode_string(candidate.as_slice()) {
            return Some(StreamedIntent { text, complete: false });
        }
        n -= 1;
    }
    None
}

/// As much as is known of the JSON string that begins at `start`.
pub fn partial_json_string(bytes: &[u8], start: usize) -> (r: Option<StreamedIntent>)
    ensures
        intent_value(r) == partial_string(bytes@, start as int),
{
    if start >= bytes.len() || bytes[start] != 34 {
        return None;
    }
    let content: usize = start + 1;
    let mut ends: Vec<usize> = Vec::new();
    ends.push(content);
    let mut i: usize = content;
    let len: usize = bytes.len();
    proof {
        assert(ends@ =~= seq![(start + 1) as usize]);
    }
    while i < len
        invariant
            len == bytes@.len(),
            content == start + 1,
            content <= i <= len,
            bytes@[start as int] == 34,
            forall|k: int| 0 <= k < ends@.len() ==> content <= #[trigger] ends@[k] <= len,
            partial_string(bytes@, start as int) == string_from(
                bytes@,
                content as int,
                i as int,
                ends@,
            ),
        decreases len - i,
    {
        let byte: u8 = bytes[i];
        let step: usize;
        if byte == 34 {
            let whole = sub_bytes(bytes, start, i + 1);
            return match decode_string(whole.as_slice()) {
                Some(text) => Some(StreamedIntent { text, complete: true }),
                None => None,
            };
        } else if byte == 92 {
            if len - i < 2 {
                return decode_longest(bytes, content, &ends);
            }
            let escape: u8 = bytes[i + 1];
            if escape == 117 {
                if len - i < 6 {
                    return decode_longest(bytes, content, &ends);
                }
                if !(hex(bytes[i + 2]) && hex(bytes[i + 3]) && hex(bytes[i + 4]) && hex(
                    bytes[i + 5],
                )) {
                    return None;
                }
                step = 6;
            } else if escape == 34 || escape == 92 || escape == 47 || escape == 98 || escape == 102
                || escape == 110 || escape == 114 || escape == 116 {
                step = 2;
            } else {
                return None;
            }
        } else if byte < 0x20 {
            return None;
        } else {
            step =
            if byte < 0xC0 {
                1
            } else if byte < 0xE0 {
                2
            } else if byte < 0xF0 {
                3
            } else {
                4
            };
            if len - i < step {
                return None;
            }
        }
        i = i + step;
        ends.push(i);
    }
    decode_longest(bytes, content, &ends)
}

/// The index behind the JSON value that begins at `start`.
pub fn skip_complete_json_value(bytes: &[u8], start: usize) -> (r: Option<usize>)
    requires
        start <= bytes@.len(),
    ensures
        r is Some == json_value_end(bytes@.skip(start as int)) is Some,
        r matches Some(e) ==> e == start + json_value_end(bytes@.skip(start as int))->0 && start
            <= e <= bytes@.len(),
{
    let rest = sub_bytes(bytes, start, bytes.len());
    proof {
        assert(rest@ =~= bytes@.skip(start as int));
    }
    match value_end(rest.as_slice()) {
        Some(n) => Some(start + n),
        None => None,
    }
}

/// As much as is known of the `intent` field of a streamed object.
pub fn partial_eval_intent(arguments: &str) -> (r: Option<StreamedIntent>)
    ensures
        intent_value(r) == known_intent(vstd::utf8::encode_utf8(arguments@)),
{
    let bytes = arguments.as_bytes();
    if bytes.len() > STREAMED_INTENT_SCAN_LIMIT {
        return None;
    }
    let open: usize = skip_json_whitespace(bytes, 0);
    if open >= bytes.len() || bytes[open] != 123 {
        return None;
    }
    let mut cursor: usize = open + 1;
    loop
        invariant
            bytes@ == vstd::utf8::encode_utf8(arguments@),
            cursor <= bytes@.len(),
            known_intent(bytes@) == intent_from(bytes@, cursor as int),
        decreases bytes@.len() - cursor,
    {
        proof {
            lemma_fields_advance(bytes@, cursor as int);
        }
        let mut at: usize = skip_json_whitespace(bytes, cursor);
        if at < bytes.len() && bytes[at] == 44 {
            at = skip_json_whitespace(bytes, at + 1);
        }
        if at >= bytes.len() || bytes[at] != 34 {
            return None;
        }
        let quote: usize = match complete_json_string_end(bytes, at) {
            Some(quote) => quote,
            None => {
                return None;
            },
        };
        let key_bytes = sub_bytes(bytes, at, quote + 1);
        let key: String = match decode_string(key_bytes.as_slice()) {
            Some(key) => key,
            None => {
                return None;
            },
        };
        let colon: usize = skip_json_whitespace(bytes, quote + 1);
        if colon >= bytes.len() || bytes[colon] != 58 {
            return None;
        }
        let value: usize = skip_json_whitespace(bytes, colon + 1);
        if text::same(key.as_str(), "intent") {
            return partial_json_string(bytes, value);
        }
        match skip_complete_json_value(bytes, value) {
            Some(next) => {
                cursor = next;
            },
            None => {
                return None;
            },
        }
    }
}

/// The title that a known intent gives a tool call; `None` when there is
/// nothing to show.
pub fn title_for_intent(address: &str, intent: &StreamedIntent) -> (r: Option<String>)
    ensures
        text::opt_text(r) == (if shown_intent((intent.text@, intent.complete)).len() > 0 {
            Some(address@ + " · "@ + shown_intent((intent.text@, intent.complete)))
        } else {
            None
        }),
{
    let raw = if intent.complete {
        text::trimmed(intent.text.as_str())
    } else {
        text::trimmed_start(intent.text.as_str())
    };
    let words = text::squashed(raw.as_str());
    let shown = text::first_chars(words.as_str(), STREAMED_INTENT_MAX_CHARS);
    if shown.as_str().is_empty() {
        None
    } else {
        Some(text::concat3(address, " · ", shown.as_str()))
    }
}

/// The title a streamed tool call gets from its arguments.
pub fn streamed_eval_title(tool_name: &str, arguments: &str, address: &str) -> (r: Option<String>)
    ensures
        text::opt_text(r) == intent_title(tool_name@, arguments@, address@),
{
    if !text::same(tool_name, "eval") {
        return None;
    }
    match partial_eval_intent(arguments) {
        Some(intent) => title_for_intent(address, &intent),
        None => None,
    }
}

/// A shown intent never exceeds the longest length shown.
pub proof fn shown_intents_are_short(intent: (Seq<char>, bool))
    ensures
        shown_intent(intent).len() <= STREAMED_INTENT_MAX_CHARS,
{
}

} // verus!
