//! Character-level text operations, specified over sequences of characters.

use vstd::prelude::*;
use vstd::string::*;

verus! {

/// Whether a character has the Unicode `White_Space` property.
pub open spec fn is_space(c: char) -> bool {
    ||| '\u{0009}' <= c <= '\u{000D}'
    ||| c == '\u{0020}'
    ||| c == '\u{0085}'
    ||| c == '\u{00A0}'
    ||| c == '\u{1680}'
    ||| '\u{2000}' <= c <= '\u{200A}'
    ||| '\u{2028}' <= c <= '\u{2029}'
    ||| c == '\u{202F}'
    ||| c == '\u{205F}'
    ||| c == '\u{3000}'
}

/// The Unicode lowercase form of a text.
pub uninterp spec fn lowercase(s: Seq<char>) -> Seq<char>;

/// Calls `char::is_whitespace`, which holds of exactly the characters with the
/// `White_Space` property, listed in [`is_space`].
#[verifier::external_body]
pub(crate) fn whitespace(c: char) -> (r: bool)
    ensures
        r == is_space(c),
{
    c.is_whitespace()
}

/// Calls `str::to_lowercase`; the result is named by [`lowercase`].
#[verifier::external_body]
pub(crate) fn to_lowercase(s: &str) -> (r: String)
    ensures
        r@ == lowercase(s@),
{
    s.to_lowercase()
}

/// Compares two string slices with `==`: equal exactly when they hold the same
/// characters.
#[verifier::external_body]
pub(crate) fn same(a: &str, b: &str) -> (r: bool)
    ensures
        r == (a@ == b@),
{
    a == b
}

/// `String::push` appends one character.
pub assume_specification[ String::push ](s: &mut String, c: char)
    ensures
        final(s)@ == old(s)@.push(c),
;

/// The character sequences held by a list of strings.
pub open spec fn texts(v: Seq<String>) -> Seq<Seq<char>> {
    v.map_values(|s: String| s@)
}

/// The characters of an optional string.
pub open spec fn opt_text(v: Option<String>) -> Option<Seq<char>> {
    match v {
        Some(s) => Some(s@),
        None => None,
    }
}

/// First index at or after `i` whose character is not whitespace (`space`),
/// or is whitespace (`!space`); the length when there is none.
pub open spec fn span(s: Seq<char>, i: int, space: bool) -> int
    decreases s.len() - i,
{
    if 0 <= i < s.len() && is_space(s[i]) == space {
        span(s, i + 1, space)
    } else {
        i
    }
}

/// Smallest prefix length, at most `n`, after which only whitespace
/// (`space`), or only non-whitespace (`!space`), follows up to `n`.
pub open spec fn rspan(s: Seq<char>, n: int, space: bool) -> int
    decreases n,
{
    if 0 < n <= s.len() && is_space(s[n - 1]) == space {
        rspan(s, n - 1, space)
    } else {
        n
    }
}

/// Index of the first `c` at or after `i`, or the length when there is none.
pub open spec fn index_from(s: Seq<char>, i: int, c: char) -> int
    decreases s.len() - i,
{
    if 0 <= i < s.len() && s[i] != c {
        index_from(s, i + 1, c)
    } else {
        i
    }
}

/// First index at or after `i` whose character differs from `c`.
pub open spec fn skip_char(s: Seq<char>, i: int, c: char) -> int
    decreases s.len() - i,
{
    if 0 <= i < s.len() && s[i] == c {
        skip_char(s, i + 1, c)
    } else {
        i
    }
}

pub open spec fn trim_start(s: Seq<char>) -> Seq<char> {
    s.skip(span(s, 0, true))
}

pub open spec fn trim_end(s: Seq<char>) -> Seq<char> {
    s.take(rspan(s, s.len() as int, true))
}

pub open spec fn trim(s: Seq<char>) -> Seq<char> {
    trim_end(trim_start(s))
}

/// Whether a text holds nothing but whitespace.
pub open spec fn is_blank(s: Seq<char>) -> bool {
    trim(s).len() == 0
}

/// The maximal runs of non-whitespace from index `i` on.
pub open spec fn words_from(s: Seq<char>, i: int) -> Seq<Seq<char>>
    decreases s.len() - i,
{
    let start = span(s, i, true);
    if i < 0 || start >= s.len() {
        Seq::empty()
    } else {
        let end = span(s, start, false);
        proof {
            lemma_span(s, i, true);
            lemma_span(s, start, false);
        }
        seq![s.subrange(start, end)] + words_from(s, end)
    }
}

/// The whitespace-separated words of a text.
pub open spec fn words(s: Seq<char>) -> Seq<Seq<char>> {
    words_from(s, 0)
}

/// The pieces of a text between occurrences of `c`, from index `i` on.
pub open spec fn split_from(s: Seq<char>, i: int, c: char) -> Seq<Seq<char>>
    decreases s.len() - i,
{
    let j = index_from(s, i, c);
    if i < 0 || j >= s.len() {
        seq![s.skip(i)]
    } else {
        proof {
            lemma_index_from(s, i, c);
        }
        seq![s.subrange(i, j)] + split_from(s, j + 1, c)
    }
}

/// The pieces of a text between occurrences of `c`.
pub open spec fn split(s: Seq<char>, c: char) -> Seq<Seq<char>> {
    split_from(s, 0, c)
}

/// The parts in order with `sep` between neighbours.
pub open spec fn join(parts: Seq<Seq<char>>, sep: Seq<char>) -> Seq<char>
    decreases parts.len(),
{
    if parts.len() == 0 {
        Seq::empty()
    } else if parts.len() == 1 {
        parts[0]
    } else {
        join(parts.drop_last(), sep) + sep + parts.last()
    }
}

/// All words of a text separated by single spaces.
pub open spec fn squash(s: Seq<char>) -> Seq<char> {
    join(words(s), " "@)
}

/// Whether `needle` occurs in `hay`.
pub open spec fn contains(hay: Seq<char>, needle: Seq<char>) -> bool {
    exists|i: int| occurs_at(hay, needle, i)
}

/// Whether `needle` occurs in `hay` at index `i`.
pub open spec fn occurs_at(hay: Seq<char>, needle: Seq<char>, i: int) -> bool {
    0 <= i <= hay.len() - needle.len() && hay.subrange(i, i + needle.len()) == needle
}

pub open spec fn starts_with(s: Seq<char>, prefix: Seq<char>) -> bool {
    prefix.len() <= s.len() && s.take(prefix.len() as int) == prefix
}

pub open spec fn ends_with(s: Seq<char>, suffix: Seq<char>) -> bool {
    suffix.len() <= s.len() && s.skip(s.len() - suffix.len()) == suffix
}

/// What follows `prefix`, when the text starts with it.
pub open spec fn strip_prefix(s: Seq<char>, prefix: Seq<char>) -> Option<Seq<char>> {
    if starts_with(s, prefix) {
        Some(s.skip(prefix.len() as int))
    } else {
        None
    }
}

/// What precedes `suffix`, when the text ends with it.
pub open spec fn strip_suffix(s: Seq<char>, suffix: Seq<char>) -> Option<Seq<char>> {
    if ends_with(s, suffix) {
        Some(s.take(s.len() - suffix.len()))
    } else {
        None
    }
}

/// The text with every leading repetition of a nonempty `prefix` removed.
pub open spec fn strip_all(s: Seq<char>, prefix: Seq<char>) -> Seq<char>
    decreases s.len(),
{
    if prefix.len() > 0 && starts_with(s, prefix) {
        strip_all(s.skip(prefix.len() as int), prefix)
    } else {
        s
    }
}

/// `n` copies of `c`.
pub open spec fn repeated(c: char, n: nat) -> Seq<char> {
    Seq::new(n, |i: int| c)
}

/// The decimal digit with value `d`.
pub open spec fn digit_char(d: nat) -> char {
    (48 + d) as char
}

/// The decimal notation of a number.
pub open spec fn decimal(n: nat) -> Seq<char>
    decreases n,
{
    if n < 10 {
        seq![digit_char(n)]
    } else {
        decimal(n / 10).push(digit_char(n % 10))
    }
}

pub open spec fn is_digit(c: char) -> bool {
    '0' <= c <= '9'
}

pub open spec fn all_digits(s: Seq<char>) -> bool {
    forall|i: int| 0 <= i < s.len() ==> is_digit(#[trigger] s[i])
}

/// The value of a sequence of decimal digits.
pub open spec fn digits_value(s: Seq<char>) -> nat
    decreases s.len(),
{
    if s.len() == 0 {
        0
    } else {
        digits_value(s.drop_last()) * 10 + (s.last() as nat - 48) as nat
    }
}

/// The number a text denotes: decimal digits after an optional plus sign,
/// within the range of 64 bits.
pub open spec fn parsed_u64(s: Seq<char>) -> Option<u64> {
    let digits = if s.len() > 0 && s[0] == '+' {
        s.skip(1)
    } else {
        s
    };
    if digits.len() > 0 && all_digits(digits) && digits_value(digits) <= u64::MAX {
        Some(digits_value(digits) as u64)
    } else {
        None
    }
}

/// A span ends at or after its start, inside the text, and covers only
/// characters of its class.
pub proof fn lemma_span(s: Seq<char>, i: int, space: bool)
    requires
        0 <= i <= s.len(),
    ensures
        i <= span(s, i, space) <= s.len(),
        forall|k: int| i <= k < span(s, i, space) ==> is_space(#[trigger] s[k]) == space,
        span(s, i, space) < s.len() ==> is_space(s[span(s, i, space)]) != space,
    decreases s.len() - i,
{
    if i < s.len() && is_space(s[i]) == space {
        lemma_span(s, i + 1, space);
    }
}

/// The converse of [`lemma_span`]: a boundary of the class is the span's end.
pub proof fn lemma_span_is(s: Seq<char>, i: int, j: int, space: bool)
    requires
        0 <= i <= j <= s.len(),
        forall|k: int| i <= k < j ==> is_space(#[trigger] s[k]) == space,
        j < s.len() ==> is_space(s[j]) != space,
    ensures
        span(s, i, space) == j,
    decreases j - i,
{
    if i < j {
        lemma_span_is(s, i + 1, j, space);
    }
}

pub proof fn lemma_rspan(s: Seq<char>, n: int, space: bool)
    requires
        0 <= n <= s.len(),
    ensures
        0 <= rspan(s, n, space) <= n,
        forall|k: int| rspan(s, n, space) <= k < n ==> is_space(#[trigger] s[k]) == space,
        rspan(s, n, space) > 0 ==> is_space(s[rspan(s, n, space) - 1]) != space,
    decreases n,
{
    if n > 0 && is_space(s[n - 1]) == space {
        lemma_rspan(s, n - 1, space);
    }
}

pub proof fn lemma_index_from(s: Seq<char>, i: int, c: char)
    requires
        0 <= i <= s.len(),
    ensures
        i <= index_from(s, i, c) <= s.len(),
        forall|k: int| i <= k < index_from(s, i, c) ==> #[trigger] s[k] != c,
        index_from(s, i, c) < s.len() ==> s[index_from(s, i, c)] == c,
    decreases s.len() - i,
{
    if i < s.len() && s[i] != c {
        lemma_index_from(s, i + 1, c);
    }
}

/// Appending a part to a nonempty join puts a separator before it.
pub proof fn lemma_join_push(parts: Seq<Seq<char>>, part: Seq<char>, sep: Seq<char>)
    ensures
        join(parts.push(part), sep) == if parts.len() == 0 {
            part
        } else {
            join(parts, sep) + sep + part
        },
{
    let all = parts.push(part);
    assert(all.drop_last() =~= parts);
    if parts.len() == 0 {
        assert(all.len() == 1);
    }
}

/// What follows a prefix is searched as if it stood alone.
proof fn lemma_span_shift(a: Seq<char>, b: Seq<char>, j: int, space: bool)
    requires
        0 <= j <= b.len(),
    ensures
        span(a + b, a.len() + j, space) == a.len() + span(b, j, space),
{
    lemma_span(b, j, space);
    let end = span(b, j, space);
    assert forall|k: int| a.len() + j <= k < a.len() + end implies is_space(#[trigger] (a + b)[k])
        == space by {
        assert((a + b)[k] == b[k - a.len()]);
    }
    lemma_span_is(a + b, a.len() + j, a.len() + end, space);
}

/// What follows a prefix falls into words as if it stood alone.
proof fn lemma_words_shift(a: Seq<char>, b: Seq<char>, j: int)
    requires
        0 <= j <= b.len(),
    ensures
        words_from(a + b, a.len() + j) == words_from(b, j),
    decreases b.len() - j,
{
    lemma_span(b, j, true);
    lemma_span_shift(a, b, j, true);
    let start = span(b, j, true);
    if start < b.len() {
        lemma_span(b, start, false);
        lemma_span_shift(a, b, start, false);
        let end = span(b, start, false);
        lemma_words_shift(a, b, end);
        assert((a + b).subrange(a.len() + start, a.len() + end) =~= b.subrange(start, end));
    }
}

/// Whether a text is one word: not empty, and without whitespace.
pub open spec fn is_word(s: Seq<char>) -> bool {
    s.len() > 0 && forall|k: int| 0 <= k < s.len() ==> !is_space(#[trigger] s[k])
}

/// The words of a text are words.
pub proof fn lemma_words_are_words(s: Seq<char>, i: int, k: int)
    requires
        0 <= i <= s.len(),
        0 <= k < words_from(s, i).len(),
    ensures
        is_word(words_from(s, i)[k]),
    decreases s.len() - i,
{
    lemma_span(s, i, true);
    let start = span(s, i, true);
    if start < s.len() {
        lemma_span(s, start, false);
        let end = span(s, start, false);
        if k > 0 {
            lemma_words_are_words(s, end, k - 1);
        } else {
            let w = s.subrange(start, end);
            assert forall|x: int| 0 <= x < w.len() implies !is_space(#[trigger] w[x]) by {
                assert(w[x] == s[start + x]);
            }
        }
    }
}

/// A join begins with its first part.
proof fn lemma_join_front(parts: Seq<Seq<char>>, sep: Seq<char>)
    requires
        parts.len() > 1,
    ensures
        join(parts, sep) == parts[0] + sep + join(parts.skip(1), sep),
    decreases parts.len(),
{
    let rest = parts.skip(1);
    if parts.len() == 2 {
        assert(rest.len() == 1);
        assert(parts.drop_last().len() == 1);
        assert(join(parts.drop_last(), sep) == parts[0]);
    } else {
        lemma_join_front(parts.drop_last(), sep);
        assert(parts.drop_last().skip(1) =~= rest.drop_last());
        assert(join(parts, sep) =~= parts[0] + sep + join(rest, sep));
    }
}

/// Words joined by single spaces fall into the same words again.
proof fn lemma_joined_words(parts: Seq<Seq<char>>)
    requires
        forall|k: int| 0 <= k < parts.len() ==> is_word(#[trigger] parts[k]),
    ensures
        words(join(parts, " "@)) == parts,
    decreases parts.len(),
{
    reveal_strlit(" ");
    let s = join(parts, " "@);
    if parts.len() == 0 {
        assert(words(s) =~= parts);
    } else {
        let w = parts[0];
        assert(is_word(w));
        let rest = if parts.len() == 1 {
            Seq::empty()
        } else {
            " "@ + join(parts.skip(1), " "@)
        };
        if parts.len() > 1 {
            lemma_join_front(parts, " "@);
        }
        assert(s =~= w + rest);
        assert forall|k: int| 0 <= k < w.len() implies is_space(#[trigger] s[k]) == false by {
            assert(s[k] == w[k]);
        }
        lemma_span_is(s, 0, 0, true);
        lemma_span_is(s, 0, w.len() as int, false);
        assert(s.subrange(0, w.len() as int) =~= w);
        lemma_words_shift(w, rest, 0);
        assert(words(s) == seq![w] + words_from(rest, 0));
        if parts.len() > 1 {
            let tail = join(parts.skip(1), " "@);
            assert forall|k: int| 0 <= k < parts.skip(1).len() implies is_word(
                #[trigger] parts.skip(1)[k],
            ) by {
                assert(parts.skip(1)[k] == parts[k + 1]);
            }
            lemma_joined_words(parts.skip(1));
            lemma_words_shift(" "@, tail, 0);
            assert(rest[0] == ' ');
            assert(span(rest, 0, true) == span(rest, 1, true));
            assert(words_from(rest, 0) =~= words_from(rest, 1));
        } else {
            assert(words_from(rest, 0) =~= Seq::empty());
        }
        assert(words(s) =~= parts);
    }
}

/// A text on one line has the words it had, and putting it on one line again
/// changes nothing.
pub proof fn squashing_keeps_the_words(s: Seq<char>)
    ensures
        words(squash(s)) == words(s),
        squash(squash(s)) == squash(s),
{
    assert forall|k: int| 0 <= k < words(s).len() implies is_word(#[trigger] words(s)[k]) by {
        lemma_words_are_words(s, 0, k);
    }
    lemma_joined_words(words(s));
}

/// The converse of [`lemma_index_from`].
pub proof fn lemma_index_is(s: Seq<char>, i: int, j: int, c: char)
    requires
        0 <= i <= j <= s.len(),
        forall|k: int| i <= k < j ==> #[trigger] s[k] != c,
        j < s.len() ==> s[j] == c,
    ensures
        index_from(s, i, c) == j,
    decreases j - i,
{
    if i < j {
        lemma_index_is(s, i + 1, j, c);
    }
}

proof fn lemma_split_shift(a: Seq<char>, b: Seq<char>, j: int, c: char)
    requires
        0 <= j <= b.len(),
    ensures
        split_from(a + b, a.len() + j, c) == split_from(b, j, c),
    decreases b.len() - j,
{
    lemma_index_from(b, j, c);
    let end = index_from(b, j, c);
    assert forall|k: int| a.len() + j <= k < a.len() + end implies #[trigger] (a + b)[k] != c by {
        assert((a + b)[k] == b[k - a.len()]);
    }
    lemma_index_is(a + b, a.len() + j, a.len() + end, c);
    if end < b.len() {
        lemma_split_shift(a, b, end + 1, c);
        assert((a + b).subrange(a.len() + j, a.len() + end) =~= b.subrange(j, end));
    } else {
        assert((a + b).skip(a.len() + j) =~= b.skip(j));
    }
}

proof fn lemma_split_from_parts(a: Seq<char>, b: Seq<char>, i: int, c: char)
    requires
        0 <= i <= a.len(),
    ensures
        split_from(a.push(c) + b, i, c) == split_from(a, i, c) + split(b, c),
    decreases a.len() - i,
{
    let s = a.push(c) + b;
    lemma_index_from(a, i, c);
    let end = index_from(a, i, c);
    assert forall|k: int| i <= k < end implies #[trigger] s[k] != c by {
        assert(s[k] == a[k]);
    }
    assert(s[end] == c);
    lemma_index_is(s, i, end, c);
    assert(s.subrange(i, end) =~= a.subrange(i, end));
    if end < a.len() {
        lemma_split_from_parts(a, b, end + 1, c);
        assert(split_from(s, i, c) =~= split_from(a, i, c) + split(b, c));
    } else {
        lemma_split_shift(a.push(c), b, 0, c);
        assert(a.subrange(i, end) =~= a.skip(i));
    }
}

/// Around an occurrence of `c` a text falls into the pieces of both sides.
pub proof fn lemma_split_around(a: Seq<char>, b: Seq<char>, c: char)
    ensures
        split(a.push(c) + b, c) == split(a, c) + split(b, c),
        split(a, c).len() > 0,
{
    lemma_split_from_parts(a, b, 0, c);
}

/// Parts without `c`, joined by it, are the pieces between its occurrences.
pub proof fn lemma_split_joined(parts: Seq<Seq<char>>, c: char)
    requires
        parts.len() > 0,
        forall|k: int, x: int|
            0 <= k < parts.len() && 0 <= x < parts[k].len() ==> #[trigger] parts[k][x] != c,
    ensures
        split(join(parts, seq![c]), c) == parts,
    decreases parts.len(),
{
    let last = parts.last();
    assert forall|x: int| 0 <= x < last.len() implies #[trigger] last[x] != c by {
        assert(parts[parts.len() - 1][x] != c);
    }
    lemma_index_is(last, 0, last.len() as int, c);
    assert(last.skip(0) =~= last);
    assert(split(last, c) =~= seq![last]);
    if parts.len() > 1 {
        let front = parts.drop_last();
        assert forall|k: int, x: int|
            0 <= k < front.len() && 0 <= x < front[k].len() implies #[trigger] front[k][x] != c by {
            assert(parts[k][x] != c);
        }
        lemma_split_joined(front, c);
        lemma_split_around(join(front, seq![c]), last, c);
        assert(join(parts, seq![c]) =~= join(front, seq![c]).push(c) + last);
        assert(split(join(parts, seq![c]), c) =~= parts);
    } else {
        assert(parts =~= seq![last]);
    }
}

/// The characters of a string slice.
pub fn chars_of(s: &str) -> (r: Vec<char>)
    ensures
        r@ == s@,
{
    let mut r: Vec<char> = Vec::new();
    for c in it: s.chars()
        invariant
            it.seq() == s@,
            r@ == s@.take(it.index() as int),
    {
        proof {
            assert(s@.take(it.index() + 1) =~= s@.take(it.index() as int).push(
                s@[it.index() as int],
            ));
        }
        r.push(c);
    }
    proof {
        assert(s@.take(s@.len() as int) =~= s@);
    }
    r
}

/// The characters in `lo..hi` as a string.
pub fn text_of(chars: &Vec<char>, lo: usize, hi: usize) -> (r: String)
    requires
        lo <= hi <= chars@.len(),
    ensures
        r@ == chars@.subrange(lo as int, hi as int),
{
    let mut r = String::new();
    let mut i: usize = lo;
    while i < hi
        invariant
            lo <= i <= hi <= chars@.len(),
            r@ == chars@.subrange(lo as int, i as int),
        decreases hi - i,
    {
        proof {
            assert(chars@.subrange(lo as int, i + 1) =~= chars@.subrange(lo as int, i as int).push(
                chars@[i as int],
            ));
        }
        r.push(chars[i]);
        i += 1;
    }
    r
}

/// `a` followed by `b`.
pub fn concat(a: &str, b: &str) -> (r: String)
    ensures
        r@ == a@ + b@,
{
    let mut r = a.to_owned();
    r.append(b);
    r
}

/// `a`, `b` and `c` in order.
pub fn concat3(a: &str, b: &str, c: &str) -> (r: String)
    ensures
        r@ == a@ + b@ + c@,
{
    let mut r = a.to_owned();
    r.append(b);
    r.append(c);
    r
}

fn span_of(chars: &Vec<char>, from: usize, space: bool) -> (r: usize)
    requires
        from <= chars@.len(),
    ensures
        r == span(chars@, from as int, space),
        from <= r <= chars@.len(),
{
    let mut i: usize = from;
    while i < chars.len() && whitespace(chars[i]) == space
        invariant
            from <= i <= chars@.len(),
            span(chars@, from as int, space) == span(chars@, i as int, space),
        decreases chars@.len() - i,
    {
        i += 1;
    }
    i
}

fn rspan_of(chars: &Vec<char>, from: usize, space: bool) -> (r: usize)
    requires
        from <= chars@.len(),
    ensures
        r == rspan(chars@, from as int, space),
        r <= from,
{
    let mut i: usize = from;
    while i > 0 && whitespace(chars[i - 1]) == space
        invariant
            i <= from <= chars@.len(),
            rspan(chars@, from as int, space) == rspan(chars@, i as int, space),
        decreases i,
    {
        i -= 1;
    }
    i
}

/// Length of the prefix that ends before the word preceding `n`: trailing
/// whitespace is skipped first, then the word itself.
pub fn word_boundary_before(chars: &Vec<char>, n: usize) -> (r: usize)
    requires
        n <= chars@.len(),
    ensures
        r == rspan(chars@, rspan(chars@, n as int, true), false),
        r <= n,
{
    let end = rspan_of(chars, n, true);
    rspan_of(chars, end, false)
}

/// The text without its leading whitespace.
pub fn trimmed_start(s: &str) -> (r: String)
    ensures
        r@ == trim_start(s@),
{
    let chars = chars_of(s);
    let start = span_of(&chars, 0, true);
    let r = text_of(&chars, start, chars.len());
    proof {
        assert(r@ =~= trim_start(s@));
    }
    r
}

/// The text without its trailing whitespace.
pub fn trimmed_end(s: &str) -> (r: String)
    ensures
        r@ == trim_end(s@),
{
    let chars = chars_of(s);
    let end = rspan_of(&chars, chars.len(), true);
    let r = text_of(&chars, 0, end);
    proof {
        assert(r@ =~= trim_end(s@));
    }
    r
}

/// The text without surrounding whitespace.
pub fn trimmed(s: &str) -> (r: String)
    ensures
        r@ == trim(s@),
{
    let start = trimmed_start(s);
    trimmed_end(start.as_str())
}

/// Whether the text holds nothing but whitespace.
pub fn blank(s: &str) -> (r: bool)
    ensures
        r == is_blank(s@),
{
    let t = trimmed(s);
    t.as_str().is_empty()
}

/// The whitespace-separated words of a text.
pub fn words_of(s: &str) -> (r: Vec<String>)
    ensures
        texts(r@) == words(s@),
{
    let chars = chars_of(s);
    let mut r: Vec<String> = Vec::new();
    let mut i: usize = 0;
    let mut start = span_of(&chars, 0, true);
    while start < chars.len()
        invariant
            chars@ == s@,
            0 <= i <= start <= chars@.len(),
            start == span(s@, i as int, true),
            texts(r@) + words_from(s@, i as int) == words(s@),
        decreases chars@.len() - start,
    {
        let end = span_of(&chars, start, false);
        proof {
            lemma_span(s@, i as int, true);
            lemma_span(s@, start as int, false);
        }
        let ghost before = texts(r@);
        r.push(text_of(&chars, start, end));
        proof {
            let word = s@.subrange(start as int, end as int);
            assert(texts(r@) =~= before.push(word));
            assert(texts(r@) + words_from(s@, end as int) =~= before + (seq![word] + words_from(
                s@,
                end as int,
            )));
        }
        i = end;
        start = span_of(&chars, end, true);
    }
    proof {
        assert(texts(r@) + words_from(s@, i as int) =~= texts(r@));
    }
    r
}

/// The parts in order with `sep` between neighbours.
pub fn joined(parts: &Vec<String>, sep: &str) -> (r: String)
    ensures
        r@ == join(texts(parts@), sep@),
{
    let mut r = String::new();
    let mut i: usize = 0;
    while i < parts.len()
        invariant
            i <= parts@.len(),
            r@ == join(texts(parts@).take(i as int), sep@),
        decreases parts@.len() - i,
    {
        proof {
            let done = texts(parts@).take(i as int);
            assert(texts(parts@).take(i + 1) =~= done.push(parts@[i as int]@));
            lemma_join_push(done, parts@[i as int]@, sep@);
        }
        if i > 0 {
            r.append(sep);
            r.append(parts[i].as_str());
        } else {
            r = parts[i].clone();
        }
        i += 1;
    }
    proof {
        assert(texts(parts@).take(parts@.len() as int) =~= texts(parts@));
    }
    r
}

/// All words of a text separated by single spaces.
pub fn squashed(s: &str) -> (r: String)
    ensures
        r@ == squash(s@),
{
    let parts = words_of(s);
    joined(&parts, " ")
}

/// The pieces of a text between occurrences of `c`.
pub fn split_on(s: &str, c: char) -> (r: Vec<String>)
    ensures
        texts(r@) == split(s@, c),
        r@.len() > 0,
{
    let chars = chars_of(s);
    let mut r: Vec<String> = Vec::new();
    let mut start: usize = 0;
    let mut i: usize = 0;
    while i < chars.len()
        invariant
            chars@ == s@,
            0 <= start <= i <= chars@.len(),
            index_from(s@, start as int, c) == index_from(s@, i as int, c),
            texts(r@) + split_from(s@, start as int, c) == split(s@, c),
        decreases chars@.len() - i,
    {
        if chars[i] == c {
            let ghost before = texts(r@);
            r.push(text_of(&chars, start, i));
            proof {
                let piece = s@.subrange(start as int, i as int);
                assert(texts(r@) =~= before.push(piece));
                assert(texts(r@) + split_from(s@, i + 1, c) =~= before + (seq![piece] + split_from(
                    s@,
                    i + 1,
                    c,
                )));
            }
            start = i + 1;
        }
        i += 1;
    }
    let ghost before = texts(r@);
    r.push(text_of(&chars, start, chars.len()));
    proof {
        assert(s@.subrange(start as int, s@.len() as int) =~= s@.skip(start as int));
        assert(texts(r@) =~= before + seq![s@.skip(start as int)]);
    }
    r
}

/// Whether the characters `chars[at..]` begin with `needle`.
fn occurs(chars: &Vec<char>, needle: &Vec<char>, at: usize) -> (r: bool)
    requires
        at + needle@.len() <= chars@.len(),
    ensures
        r == occurs_at(chars@, needle@, at as int),
{
    let total = chars.len();
    let mut i: usize = 0;
    while i < needle.len()
        invariant
            i <= needle@.len(),
            total == chars@.len(),
            at + needle@.len() <= total,
            forall|k: int| 0 <= k < i ==> chars@[at + k] == #[trigger] needle@[k],
        decreases needle@.len() - i,
    {
        if chars[at + i] != needle[i] {
            proof {
                let window = chars@.subrange(at as int, at + needle@.len());
                assert(window[i as int] != needle@[i as int]);
            }
            return false;
        }
        i += 1;
    }
    proof {
        assert(chars@.subrange(at as int, at + needle@.len()) =~= needle@);
    }
    true
}

/// Whether the text begins with `prefix`.
pub fn has_prefix(s: &str, prefix: &str) -> (r: bool)
    ensures
        r == starts_with(s@, prefix@),
{
    let chars = chars_of(s);
    let head = chars_of(prefix);
    if head.len() > chars.len() {
        return false;
    }
    let r = occurs(&chars, &head, 0);
    proof {
        assert(s@.subrange(0, prefix@.len() as int) =~= s@.take(prefix@.len() as int));
    }
    r
}

/// What follows `prefix`, when the text begins with it.
pub fn without_prefix(s: &str, prefix: &str) -> (r: Option<String>)
    ensures
        opt_text(r) == strip_prefix(s@, prefix@),
{
    if has_prefix(s, prefix) {
        let chars = chars_of(s);
        let skip = prefix.unicode_len();
        let r = text_of(&chars, skip, chars.len());
        proof {
            assert(r@ =~= s@.skip(prefix@.len() as int));
        }
        Some(r)
    } else {
        None
    }
}

/// Whether the text ends with `suffix`.
pub fn has_suffix(s: &str, suffix: &str) -> (r: bool)
    ensures
        r == ends_with(s@, suffix@),
{
    let chars = chars_of(s);
    let tail = chars_of(suffix);
    if tail.len() > chars.len() {
        return false;
    }
    let at = chars.len() - tail.len();
    let r = occurs(&chars, &tail, at);
    proof {
        assert(s@.subrange(at as int, at + suffix@.len()) =~= s@.skip(at as int));
    }
    r
}

/// What precedes `suffix`, when the text ends with it.
pub fn without_suffix(s: &str, suffix: &str) -> (r: Option<String>)
    ensures
        opt_text(r) == strip_suffix(s@, suffix@),
{
    if has_suffix(s, suffix) {
        let chars = chars_of(s);
        let keep = chars.len() - suffix.unicode_len();
        let r = text_of(&chars, 0, keep);
        proof {
            assert(r@ =~= s@.take(keep as int));
        }
        Some(r)
    } else {
        None
    }
}

/// The text with every leading repetition of `prefix` removed.
pub fn without_all(s: &str, prefix: &str) -> (r: String)
    ensures
        r@ == strip_all(s@, prefix@),
{
    let mut r = s.to_owned();
    while !prefix.is_empty() && has_prefix(r.as_str(), prefix)
        invariant
            strip_all(s@, prefix@) == strip_all(r@, prefix@),
        decreases r@.len(),
    {
        let chars = chars_of(r.as_str());
        let skip = prefix.unicode_len();
        let rest = text_of(&chars, skip, chars.len());
        proof {
            assert(rest@ =~= r@.skip(prefix@.len() as int));
        }
        r = rest;
    }
    r
}

/// The text without its leading occurrences of `c`.
pub fn without_leading(s: &str, c: char) -> (r: String)
    ensures
        r@ == s@.skip(skip_char(s@, 0, c)),
{
    let chars = chars_of(s);
    let mut i: usize = 0;
    while i < chars.len() && chars[i] == c
        invariant
            chars@ == s@,
            i <= chars@.len(),
            skip_char(s@, 0, c) == skip_char(s@, i as int, c),
        decreases chars@.len() - i,
    {
        i += 1;
    }
    let r = text_of(&chars, i, chars.len());
    proof {
        assert(r@ =~= s@.skip(i as int));
    }
    r
}

/// Whether `needle` occurs in the text.
pub fn has_text(s: &str, needle: &str) -> (r: bool)
    ensures
        r == contains(s@, needle@),
{
    let chars = chars_of(s);
    let part = chars_of(needle);
    if part.len() > chars.len() {
        return false;
    }
    let last = chars.len() - part.len();
    let mut i: usize = 0;
    loop
        invariant
            chars@ == s@,
            part@ == needle@,
            last == chars@.len() - part@.len(),
            i <= last,
            forall|k: int| 0 <= k < i ==> !occurs_at(s@, needle@, k),
        decreases last - i,
    {
        if occurs(&chars, &part, i) {
            return true;
        }
        if i == last {
            proof {
                assert forall|k: int| !occurs_at(s@, needle@, k) by {
                    if 0 <= k < i {
                    }
                }
            }
            return false;
        }
        i += 1;
    }
}

/// Whether the text holds the character `c`.
pub fn has_char(s: &str, c: char) -> (r: bool)
    ensures
        r == s@.contains(c),
{
    let chars = chars_of(s);
    let mut i: usize = 0;
    while i < chars.len()
        invariant
            chars@ == s@,
            i <= chars@.len(),
            forall|k: int| 0 <= k < i ==> #[trigger] s@[k] != c,
        decreases chars@.len() - i,
    {
        if chars[i] == c {
            return true;
        }
        i += 1;
    }
    false
}

/// `n` copies of `c`.
pub fn repeat(c: char, n: usize) -> (r: String)
    ensures
        r@ == repeated(c, n as nat),
{
    let mut r = String::new();
    let mut i: usize = 0;
    while i < n
        invariant
            i <= n,
            r@ == repeated(c, i as nat),
        decreases n - i,
    {
        r.push(c);
        proof {
            assert(r@ =~= repeated(c, (i + 1) as nat));
        }
        i += 1;
    }
    r
}

/// The first `n` characters of a text, or all of it.
pub fn first_chars(s: &str, n: usize) -> (r: String)
    ensures
        r@ == if s@.len() <= n {
            s@
        } else {
            s@.take(n as int)
        },
{
    let chars = chars_of(s);
    if chars.len() <= n {
        return s.to_owned();
    }
    let r = text_of(&chars, 0, n);
    proof {
        assert(r@ =~= s@.take(n as int));
    }
    r
}

/// The decimal notation of a number.
pub fn decimal_text(n: u64) -> (r: String)
    ensures
        r@ == decimal(n as nat),
{
    decimal_wide(n as u128)
}

/// The decimal notation of a wide number.
pub fn decimal_wide(n: u128) -> (r: String)
    ensures
        r@ == decimal(n as nat),
    decreases n,
{
    let digit = digit_of((n % 10) as u8);
    if n < 10 {
        let mut r = String::new();
        r.push(digit);
        proof {
            assert(r@ =~= seq![digit_char(n as nat)]);
        }
        r
    } else {
        let mut r = decimal_wide(n / 10);
        r.push(digit);
        r
    }
}

fn digit_of(d: u8) -> (r: char)
    requires
        d < 10,
    ensures
        r == digit_char(d as nat),
{
    (48 + d) as char
}

/// The number a text denotes, as [`parsed_u64`] says.
pub fn parse_u64(s: &str) -> (r: Option<u64>)
    ensures
        r == parsed_u64(s@),
{
    let chars = chars_of(s);
    let start: usize = if chars.len() > 0 && chars[0] == '+' {
        1
    } else {
        0
    };
    let ghost digits = s@.skip(start as int);
    proof {
        assert(s@.skip(0) =~= s@);
    }
    if start >= chars.len() {
        return None;
    }
    let mut value: u64 = 0;
    let mut i: usize = start;
    while i < chars.len()
        invariant
            chars@ == s@,
            start <= i <= chars@.len(),
            digits == s@.skip(start as int),
            parsed_u64(s@) == (if digits.len() > 0 && all_digits(digits) && digits_value(digits)
                <= u64::MAX {
                Some(digits_value(digits) as u64)
            } else {
                None::<u64>
            }),
            value == digits_value(digits.take(i - start)),
            all_digits(digits.take(i - start)),
        decreases chars@.len() - i,
    {
        let c = chars[i];
        if !('0' <= c && c <= '9') {
            proof {
                assert(digits[i - start] == c);
                assert(!is_digit(digits[i - start]));
            }
            return None;
        }
        let d: u64 = (c as u32 - 48) as u64;
        proof {
            let next = digits.take(i - start + 1);
            assert(next.drop_last() =~= digits.take(i - start));
            assert(next.last() == c);
            assert(digits_value(next) == value * 10 + d);
            assert(all_digits(next)) by {
                assert forall|k: int| 0 <= k < next.len() implies is_digit(#[trigger] next[k]) by {
                    if k < i - start {
                        assert(next[k] == digits.take(i - start)[k]);
                    }
                }
            }
            if value * 10 + d > u64::MAX {
                lemma_digits_value_grows(digits, i - start + 1);
            }
        }
        match value.checked_mul(10) {
            None => {
                return None;
            },
            Some(shifted) => match shifted.checked_add(d) {
                None => {
                    return None;
                },
                Some(sum) => {
                    value = sum;
                },
            },
        }
        i += 1;
    }
    proof {
        assert(digits.take(digits.len() as int) =~= digits);
    }
    Some(value)
}

/// More digits never denote a smaller number.
proof fn lemma_digits_value_grows(s: Seq<char>, n: int)
    requires
        0 <= n <= s.len(),
    ensures
        digits_value(s.take(n)) <= digits_value(s),
    decreases s.len() - n,
{
    if n == s.len() {
        assert(s.take(n) =~= s);
    } else {
        lemma_digits_value_grows(s, n + 1);
        assert(s.take(n + 1).drop_last() =~= s.take(n));
    }
}

/// Largest index below `n` of the character `c`.
pub open spec fn last_index_of(s: Seq<char>, n: int, c: char) -> Option<int>
    decreases n,
{
    if n <= 0 || n > s.len() {
        None
    } else if s[n - 1] == c {
        Some(n - 1)
    } else {
        last_index_of(s, n - 1, c)
    }
}

/// How often `c` occurs in a text.
pub open spec fn count_of(s: Seq<char>, c: char) -> nat
    decreases s.len(),
{
    if s.len() == 0 {
        0
    } else {
        count_of(s.drop_last(), c) + if s.last() == c {
            1nat
        } else {
            0
        }
    }
}

/// What follows the last `c`, or the whole text when there is none.
pub open spec fn after_last(s: Seq<char>, c: char) -> Seq<char> {
    match last_index_of(s, s.len() as int, c) {
        Some(i) => s.skip(i + 1),
        None => s,
    }
}

proof fn lemma_last_index_of(s: Seq<char>, n: int, c: char)
    requires
        0 <= n <= s.len(),
    ensures
        last_index_of(s, n, c) matches Some(i) ==> 0 <= i < n && s[i] == c,
    decreases n,
{
    if n > 0 && s[n - 1] != c {
        lemma_last_index_of(s, n - 1, c);
    }
}

/// Largest index of the character `c`.
pub fn rfind(chars: &Vec<char>, c: char) -> (r: Option<usize>)
    ensures
        r is Some == last_index_of(chars@, chars@.len() as int, c) is Some,
        r matches Some(i) ==> i == last_index_of(chars@, chars@.len() as int, c)->0 && i
            < chars@.len(),
{
    let mut n: usize = chars.len();
    while n > 0
        invariant
            n <= chars@.len(),
            last_index_of(chars@, chars@.len() as int, c) == last_index_of(chars@, n as int, c),
        decreases n,
    {
        if chars[n - 1] == c {
            return Some(n - 1);
        }
        n -= 1;
    }
    None
}

/// How often `c` occurs in a text.
pub fn count_char(s: &str, c: char) -> (r: usize)
    ensures
        r == count_of(s@, c),
        r <= s@.len(),
{
    let chars = chars_of(s);
    let mut n: usize = 0;
    let mut i: usize = 0;
    proof {
        assert(s@.take(0) =~= Seq::empty());
    }
    while i < chars.len()
        invariant
            chars@ == s@,
            i <= chars@.len(),
            n <= i,
            n == count_of(s@.take(i as int), c),
        decreases chars@.len() - i,
    {
        proof {
            assert(s@.take(i + 1).drop_last() =~= s@.take(i as int));
        }
        if chars[i] == c {
            n += 1;
        }
        i += 1;
    }
    proof {
        assert(s@.take(s@.len() as int) =~= s@);
    }
    n
}

/// What follows the last `c`, or the whole text when there is none.
pub fn tail_after(s: &str, c: char) -> (r: String)
    ensures
        r@ == after_last(s@, c),
{
    let chars = chars_of(s);
    let total: usize = chars.len();
    match rfind(&chars, c) {
        Some(i) => {
            let r = text_of(&chars, i + 1, total);
            proof {
                assert(r@ =~= s@.skip(i + 1));
            }
            r
        },
        None => s.to_owned(),
    }
}

} // verus!
