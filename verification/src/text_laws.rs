//! What the text helpers give, in terms of characters.

use crate::cells;
use crate::config;
use crate::text;
use vstd::prelude::*;

verus! {

/// Trimming takes the whitespace off both ends and nothing else.
pub proof fn trimming_removes_outer_whitespace(s: Seq<char>) -> (ends: (int, int))
    ensures
        ({
            let (i, j) = ends;
            &&& 0 <= i <= j <= s.len()
            &&& text::trim(s) == s.subrange(i, j)
            &&& forall|k: int| 0 <= k < i || j <= k < s.len() ==> text::is_space(#[trigger] s[k])
            &&& i < j ==> !text::is_space(s[i]) && !text::is_space(s[j - 1])
        }),
{
    let i = text::span(s, 0, true);
    text::lemma_span(s, 0, true);
    let rest = s.skip(i);
    let n = text::rspan(rest, rest.len() as int, true);
    text::lemma_rspan(rest, rest.len() as int, true);
    let j = i + n;
    assert(rest.take(n) =~= s.subrange(i, j));
    assert forall|k: int| 0 <= k < i || j <= k < s.len() implies text::is_space(
        #[trigger] s[k],
    ) by {
        if j <= k {
            assert(rest[k - i] == s[k]);
        }
    }
    if i < j {
        assert(rest[n - 1] == s[j - 1]);
        assert(text::is_space(rest[n - 1]) != true);
    }
    (i, j)
}

/// A text that begins and ends in no whitespace is its own trimmed form.
pub proof fn trimmed_texts_stay(s: Seq<char>)
    requires
        s.len() > 0 ==> !text::is_space(s[0]) && !text::is_space(s.last()),
    ensures
        text::trim(s) == s,
        text::trim_start(s) == s,
        text::trim_end(s) == s,
{
    let (i, j) = trimming_removes_outer_whitespace(s);
    if s.len() > 0 {
        assert(i == 0 && j == s.len());
        assert(s.subrange(0, s.len() as int) =~= s);
        assert(text::span(s, 0, true) == 0);
        assert(text::rspan(s, s.len() as int, true) == s.len());
    }
    assert(s.skip(0) =~= s);
    assert(s.take(s.len() as int) =~= s);
}

/// A prefix comes off exactly the texts that it was put before.
pub proof fn prefixes_come_off(prefix: Seq<char>, rest: Seq<char>)
    ensures
        text::starts_with(prefix + rest, prefix),
        text::strip_prefix(prefix + rest, prefix) == Some(rest),
{
    assert((prefix + rest).take(prefix.len() as int) =~= prefix);
    assert((prefix + rest).skip(prefix.len() as int) =~= rest);
}

/// A text that starts with a prefix is the prefix and what comes off.
pub proof fn stripped_texts_are_the_rest(s: Seq<char>, prefix: Seq<char>)
    ensures
        text::strip_prefix(s, prefix) matches Some(rest) ==> s == prefix + rest,
        text::strip_prefix(s, prefix) is None ==> forall|rest: Seq<char>| s != #[trigger] (prefix
            + rest),
{
    if text::starts_with(s, prefix) {
        assert(s =~= prefix + s.skip(prefix.len() as int));
    }
    assert forall|rest: Seq<char>| text::strip_prefix(s, prefix) is None implies s
        != #[trigger] (prefix + rest) by {
        prefixes_come_off(prefix, rest);
    }
}

/// A text is contained wherever something may precede and follow it.
pub proof fn containing_is_having_inside(before: Seq<char>, needle: Seq<char>, after: Seq<char>)
    ensures
        text::contains(before + needle + after, needle),
{
    let hay = before + needle + after;
    assert(hay.subrange(before.len() as int, (before.len() + needle.len()) as int) =~= needle);
    assert(text::occurs_at(hay, needle, before.len() as int));
}

/// What contains a text is that text with something before and behind it.
pub proof fn contained_texts_have_surroundings(hay: Seq<char>, needle: Seq<char>) -> (parts: (
    Seq<char>,
    Seq<char>,
))
    requires
        text::contains(hay, needle),
    ensures
        hay == parts.0 + needle + parts.1,
{
    let i = choose|i: int| text::occurs_at(hay, needle, i);
    let before = hay.take(i);
    let after = hay.skip(i + needle.len());
    assert(before + hay.subrange(i, i + needle.len()) + after =~= hay);
    (before, after)
}

/// Splitting at a character and joining with it again gives the text back,
/// and no piece holds the character.
pub proof fn splitting_is_undone_by_joining(s: Seq<char>, c: char)
    ensures
        text::join(text::split(s, c), seq![c]) == s,
        forall|k: int|
            0 <= k < text::split(s, c).len() ==> !(#[trigger] text::split(s, c)[k]).contains(c),
{
    lemma_split_from(s, 0, c);
    assert(s.skip(0) =~= s);
}

proof fn lemma_split_from(s: Seq<char>, i: int, c: char)
    requires
        0 <= i <= s.len(),
    ensures
        text::split_from(s, i, c).len() > 0,
        text::join(text::split_from(s, i, c), seq![c]) == s.skip(i),
        forall|k: int|
            0 <= k < text::split_from(s, i, c).len() ==> !(#[trigger] text::split_from(
                s,
                i,
                c,
            )[k]).contains(c),
    decreases s.len() - i,
{
    let j = text::index_from(s, i, c);
    text::lemma_index_from(s, i, c);
    lemma_no_earlier(s, i, c);
    if j < s.len() {
        lemma_split_from(s, j + 1, c);
        let rest = text::split_from(s, j + 1, c);
        let first = s.subrange(i, j);
        lemma_join_front(first, rest, seq![c]);
        assert(first + seq![c] + s.skip(j + 1) =~= s.skip(i)) by {
            assert(s[j] == c);
        }
        let all = text::split_from(s, i, c);
        assert forall|k: int| 0 <= k < all.len() implies !(#[trigger] all[k]).contains(c) by {
            if k > 0 {
                assert(all[k] == rest[k - 1]);
            }
        }
    } else {
        let all = text::split_from(s, i, c);
        assert(all =~= seq![s.skip(i)]);
        assert(!s.skip(i).contains(c));
    }
}

proof fn lemma_no_earlier(s: Seq<char>, i: int, c: char)
    requires
        0 <= i <= s.len(),
    ensures
        forall|k: int| i <= k < text::index_from(s, i, c) ==> #[trigger] s[k] != c,
        text::index_from(s, i, c) < s.len() ==> s[text::index_from(s, i, c)] == c,
    decreases s.len() - i,
{
    if i < s.len() && s[i] != c {
        lemma_no_earlier(s, i + 1, c);
    }
}

proof fn lemma_join_front(first: Seq<char>, rest: Seq<Seq<char>>, sep: Seq<char>)
    requires
        rest.len() > 0,
    ensures
        text::join(seq![first] + rest, sep) == first + sep + text::join(rest, sep),
    decreases rest.len(),
{
    let all = seq![first] + rest;
    assert(all.last() == rest.last());
    if rest.len() == 1 {
        assert(all.drop_last() =~= seq![first]);
        assert(text::join(all.drop_last(), sep) == first);
    } else {
        assert(all.drop_last() =~= seq![first] + rest.drop_last());
        lemma_join_front(first, rest.drop_last(), sep);
        assert(first + sep + text::join(rest.drop_last(), sep) + sep + rest.last() =~= first + sep
            + (text::join(rest.drop_last(), sep) + sep + rest.last()));
    }
}

/// The decimal notation of a number consists of digits, and reading it gives
/// the number back.
pub proof fn decimals_read_back(n: u64)
    ensures
        text::parsed_u64(text::decimal(n as nat)) == Some(n),
        text::all_digits(text::decimal(n as nat)),
        text::decimal(n as nat).len() > 0,
{
    config::lemma_decimal_value(n as nat);
    lemma_decimal_digits(n as nat);
    let d = text::decimal(n as nat);
    assert(text::is_digit(d[0]));
}

pub proof fn lemma_decimal_digits(n: nat)
    ensures
        text::all_digits(text::decimal(n)),
        text::decimal(n).len() > 0,
    decreases n,
{
    let d = text::decimal(n);
    if n >= 10 {
        lemma_decimal_digits(n / 10);
        let rest = text::decimal(n / 10);
        assert forall|i: int| 0 <= i < d.len() implies text::is_digit(#[trigger] d[i]) by {
            if i < rest.len() {
                assert(d[i] == rest[i]);
            }
        }
    }
}

/// A number reads from digits alone, or digits behind a plus sign, by place
/// value.
pub proof fn numbers_read_by_place_value(s: Seq<char>, c: char, value: u64)
    requires
        text::parsed_u64(s) == Some(value),
        s.len() > 0,
        text::is_digit(s[0]),
        text::is_digit(c),
        10 * value + (c as u64 - 48) <= u64::MAX,
    ensures
        text::parsed_u64(s.push(c)) == Some((10 * value + (c as u64 - 48)) as u64),
{
    assert(s.push(c).drop_last() =~= s);
    assert(s.push(c)[0] == s[0]);
}

/// The last component of a path holds no separator and ends the path.
pub proof fn last_components_end_the_path(s: Seq<char>, c: char)
    ensures
        !text::after_last(s, c).contains(c),
        text::ends_with(s, text::after_last(s, c)),
        text::after_last(s, c).len() < s.len() ==> s[s.len() - text::after_last(s, c).len() - 1]
            == c,
{
    lemma_last_index(s, s.len() as int, c);
    let tail = text::after_last(s, c);
    assert(s.skip(s.len() - tail.len()) =~= tail);
    if tail.contains(c) {
        let k = tail.index_of(c);
        assert(tail[k] == s[s.len() - tail.len() + k]);
    }
}

proof fn lemma_last_index(s: Seq<char>, n: int, c: char)
    requires
        0 <= n <= s.len(),
    ensures
        text::last_index_of(s, n, c) matches Some(i) ==> 0 <= i < n && s[i] == c && forall|k: int|
            i < k < n ==> #[trigger] s[k] != c,
        text::last_index_of(s, n, c) is None ==> forall|k: int| 0 <= k < n ==> #[trigger] s[k] != c,
    decreases n,
{
    if n > 0 && s[n - 1] != c {
        lemma_last_index(s, n - 1, c);
    }
}

/// A text without its whitespace.
pub open spec fn without_whitespace(s: Seq<char>) -> Seq<char>
    decreases s.len(),
{
    if s.len() == 0 {
        s
    } else if text::is_space(s[0]) {
        without_whitespace(s.skip(1))
    } else {
        seq![s[0]] + without_whitespace(s.skip(1))
    }
}

proof fn lemma_without_add(a: Seq<char>, b: Seq<char>)
    ensures
        without_whitespace(a + b) == without_whitespace(a) + without_whitespace(b),
    decreases a.len(),
{
    if a.len() > 0 {
        assert((a + b).skip(1) =~= a.skip(1) + b);
        assert((a + b)[0] == a[0]);
        lemma_without_add(a.skip(1), b);
        assert(seq![a[0]] + (without_whitespace(a.skip(1)) + without_whitespace(b)) =~= seq![a[0]]
            + without_whitespace(a.skip(1)) + without_whitespace(b));
    } else {
        assert(a + b =~= b);
        assert(without_whitespace(a) + without_whitespace(b) =~= without_whitespace(b));
    }
}

proof fn lemma_without_uniform(s: Seq<char>, space: bool)
    requires
        forall|k: int| 0 <= k < s.len() ==> text::is_space(#[trigger] s[k]) == space,
    ensures
        without_whitespace(s) == if space {
            Seq::empty()
        } else {
            s
        },
    decreases s.len(),
{
    if s.len() > 0 {
        assert forall|k: int| 0 <= k < s.skip(1).len() implies text::is_space(
            #[trigger] s.skip(1)[k],
        ) == space by {
            assert(s.skip(1)[k] == s[k + 1]);
        }
        lemma_without_uniform(s.skip(1), space);
        assert(seq![s[0]] + s.skip(1) =~= s);
    }
}

proof fn lemma_concat_front(w: Seq<char>, rest: Seq<Seq<char>>)
    ensures
        cells::concat_all(seq![w] + rest) == w + cells::concat_all(rest),
    decreases rest.len(),
{
    let all = seq![w] + rest;
    if rest.len() > 0 {
        assert(all.drop_last() =~= seq![w] + rest.drop_last());
        assert(all.last() == rest.last());
        lemma_concat_front(w, rest.drop_last());
        assert(w + cells::concat_all(rest.drop_last()) + rest.last() =~= w + (cells::concat_all(
            rest.drop_last(),
        ) + rest.last()));
    } else {
        assert(all =~= seq![w]);
        assert(all.drop_last() =~= Seq::<Seq<char>>::empty());
        assert(cells::concat_all(all.drop_last()) =~= Seq::empty());
        assert(all.last() == w);
        assert(cells::concat_all(all) =~= w);
        assert(cells::concat_all(rest) =~= Seq::empty());
        assert(w + cells::concat_all(rest) =~= w);
    }
}

proof fn lemma_words_hold(s: Seq<char>, i: int)
    requires
        0 <= i <= s.len(),
    ensures
        cells::concat_all(text::words_from(s, i)) == without_whitespace(s.skip(i)),
    decreases s.len() - i,
{
    let start = text::span(s, i, true);
    text::lemma_span(s, i, true);
    let gap = s.subrange(i, start);
    assert forall|k: int| 0 <= k < gap.len() implies text::is_space(#[trigger] gap[k]) == true by {
        assert(gap[k] == s[i + k]);
    }
    lemma_without_uniform(gap, true);
    if start < s.len() {
        let end = text::span(s, start, false);
        text::lemma_span(s, start, false);
        let word = s.subrange(start, end);
        assert forall|k: int| 0 <= k < word.len() implies text::is_space(#[trigger] word[k])
            == false by {
            assert(word[k] == s[start + k]);
        }
        lemma_without_uniform(word, false);
        lemma_words_hold(s, end);
        lemma_concat_front(word, text::words_from(s, end));
        lemma_without_add(gap, s.skip(start));
        lemma_without_add(word, s.skip(end));
        assert(s.skip(i) =~= gap + s.skip(start));
        assert(s.skip(start) =~= word + s.skip(end));
        assert(without_whitespace(gap) + (word + without_whitespace(s.skip(end))) =~= word
            + without_whitespace(s.skip(end)));
    } else {
        assert(s.skip(i) =~= gap);
        assert(text::words_from(s, i) =~= Seq::empty());
    }
}

/// No character but whitespace is lost when a text is taken apart into words,
/// and their order is kept.
pub proof fn words_hold_the_text(s: Seq<char>)
    ensures
        cells::concat_all(text::words(s)) == without_whitespace(s),
{
    lemma_words_hold(s, 0);
    assert(s.skip(0) =~= s);
}

/// Whether whitespace in a text is single spaces between other characters.
pub open spec fn single_spaced(s: Seq<char>) -> bool {
    forall|i: int|
        0 <= i < s.len() && text::is_space(#[trigger] s[i]) ==> s[i] == ' ' && 0 < i < s.len() - 1
            && !text::is_space(s[i - 1]) && !text::is_space(s[i + 1])
}

proof fn lemma_single_spaced(parts: Seq<Seq<char>>)
    requires
        forall|k: int| 0 <= k < parts.len() ==> text::is_word(#[trigger] parts[k]),
    ensures
        single_spaced(text::join(parts, " "@)),
        parts.len() > 0 ==> text::join(parts, " "@).len() > 0 && !text::is_space(
            text::join(parts, " "@).last(),
        ),
    decreases parts.len(),
{
    let all = text::join(parts, " "@);
    if parts.len() == 1 {
        assert(text::is_word(parts[0]));
        assert(!text::is_space(parts[0][parts[0].len() - 1]));
    } else if parts.len() > 1 {
        let front = parts.drop_last();
        assert forall|k: int| 0 <= k < front.len() implies text::is_word(#[trigger] front[k]) by {
            assert(front[k] == parts[k]);
        }
        lemma_single_spaced(front);
        reveal_strlit(" ");
        let head = text::join(front, " "@);
        let word = parts[parts.len() - 1];
        let n = head.len() as int;
        assert(text::is_word(word));
        assert(all =~= head + " "@ + word);
        assert(all.len() == n + 1 + word.len());
        assert(all[n] == ' ');
        assert(all[n - 1] == head.last());
        assert(all[n + 1] == word[0]);
        assert(!text::is_space(word[0]));
        assert forall|i: int| 0 <= i < all.len() && text::is_space(#[trigger] all[i]) implies all[i]
            == ' ' && 0 < i < all.len() - 1 && !text::is_space(all[i - 1]) && !text::is_space(
            all[i + 1],
        ) by {
            if i < n {
                assert(all[i] == head[i]);
                assert(i < n - 1);
                assert(all[i - 1] == head[i - 1]);
                assert(all[i + 1] == head[i + 1]);
            } else if i > n {
                assert(all[i] == word[i - n - 1]);
                assert(!text::is_space(word[i - n - 1]));
            }
        }
        assert(all.last() == word[word.len() - 1]);
        assert(!text::is_space(word[word.len() - 1]));
    }
}

/// A text on one line has single spaces between its words and none around
/// them.
pub proof fn one_line_texts_are_single_spaced(s: Seq<char>)
    ensures
        single_spaced(text::squash(s)),
{
    assert forall|k: int| 0 <= k < text::words(s).len() implies text::is_word(
        #[trigger] text::words(s)[k],
    ) by {
        text::lemma_words_are_words(s, 0, k);
    }
    lemma_single_spaced(text::words(s));
}

proof fn lemma_count_add(a: Seq<char>, b: Seq<char>, c: char)
    ensures
        text::count_of(a + b, c) == text::count_of(a, c) + text::count_of(b, c),
    decreases b.len(),
{
    if b.len() > 0 {
        assert((a + b).drop_last() =~= a + b.drop_last());
        lemma_count_add(a, b.drop_last(), c);
    } else {
        assert(a + b =~= a);
    }
}

/// Counting a character counts each of its places once.
pub proof fn counts_add_up(a: Seq<char>, b: Seq<char>, c: char, d: char)
    ensures
        text::count_of(Seq::<char>::empty(), c) == 0,
        text::count_of(a + seq![d] + b, c) == text::count_of(a, c) + text::count_of(b, c) + if d
            == c {
            1nat
        } else {
            0
        },
{
    lemma_count_add(a + seq![d], b, c);
    assert((a + seq![d]).drop_last() =~= a);
}

} // verus!
