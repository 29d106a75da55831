//! Terminal-cell measurement: display widths, grapheme clusters, slicing and
//! eliding text by the cells it occupies.

use crate::text;
use unicode_segmentation::UnicodeSegmentation;
use unicode_width::{UnicodeWidthChar, UnicodeWidthStr};
use vstd::prelude::*;
use vstd::string::*;

verus! {

/// Display width of a text in terminal cells.
pub uninterp spec fn text_width(s: Seq<char>) -> nat;

/// Display width of one character in terminal cells; `None` for a control
/// character.
pub uninterp spec fn char_width(c: char) -> Option<usize>;

/// The extended grapheme clusters of a text, in order.
pub uninterp spec fn clusters(s: Seq<char>) -> Seq<Seq<char>>;

/// Calls `UnicodeWidthStr::width`; the width is named by [`text_width`].
#[verifier::external_body]
pub(crate) fn width_of(s: &str) -> (r: usize)
    ensures
        r == text_width(s@),
{
    UnicodeWidthStr::width(s)
}

/// Calls `UnicodeWidthChar::width`; the width is named by [`char_width`].
#[verifier::external_body]
pub(crate) fn width_of_char(c: char) -> (r: Option<usize>)
    ensures
        r == char_width(c),
{
    UnicodeWidthChar::width(c)
}

/// Calls `UnicodeSegmentation::graphemes` for extended clusters, named by
/// [`clusters`]. The clusters are nonempty slices of the text that follow one
/// another from its start to its end.
#[verifier::external_body]
pub(crate) fn graphemes_of(s: &str) -> (r: Vec<String>)
    ensures
        text::texts(r@) == clusters(s@),
        concat_all(text::texts(r@)) == s@,
        forall|i: int| 0 <= i < r@.len() ==> (#[trigger] r@[i])@.len() > 0,
{
    s.graphemes(true).map(str::to_owned).collect()
}

/// The texts in order, without separators.
pub open spec fn concat_all(parts: Seq<Seq<char>>) -> Seq<char>
    decreases parts.len(),
{
    if parts.len() == 0 {
        Seq::empty()
    } else {
        concat_all(parts.drop_last()) + parts.last()
    }
}

/// Cells a character takes; control characters take none.
pub open spec fn cells(c: char) -> nat {
    match char_width(c) {
        Some(w) => w as nat,
        None => 0,
    }
}

/// Sum bounded by the largest representable cell offset.
pub open spec fn sat_add(a: nat, b: nat) -> nat {
    if a + b <= usize::MAX {
        a + b
    } else {
        usize::MAX as nat
    }
}

/// Cell offset at which cluster `i` begins when the first begins at `start`.
pub open spec fn cell_offset(parts: Seq<Seq<char>>, start: nat, i: int) -> nat
    decreases i,
{
    if i <= 0 {
        start
    } else {
        sat_add(cell_offset(parts, start, i - 1), text_width(parts[i - 1]))
    }
}

/// Whether cluster `i` overlaps the cells `from..=to`.
pub open spec fn overlaps(parts: Seq<Seq<char>>, i: int, from: nat, to: nat) -> bool {
    cell_offset(parts, 0, i) <= to && cell_offset(parts, 0, i + 1) > from
}

/// The clusters among the first `n` that overlap the cells `from..=to`.
pub open spec fn overlapping(parts: Seq<Seq<char>>, n: int, from: nat, to: nat) -> Seq<char>
    decreases n,
{
    if n <= 0 {
        Seq::empty()
    } else if overlaps(parts, n - 1, from, to) {
        overlapping(parts, n - 1, from, to) + parts[n - 1]
    } else {
        overlapping(parts, n - 1, from, to)
    }
}

/// The part of a text that occupies the cells `from..=to`, clusters whole.
pub open spec fn cell_slice(s: Seq<char>, from: nat, to: nat) -> Seq<char> {
    overlapping(clusters(s), clusters(s).len() as int, from, to)
}

proof fn lemma_offset_monotone(parts: Seq<Seq<char>>, start: nat, i: int, j: int)
    requires
        0 <= i <= j,
        start <= usize::MAX,
    ensures
        cell_offset(parts, start, i) <= cell_offset(parts, start, j) <= usize::MAX,
    decreases j,
{
    if i < j {
        lemma_offset_monotone(parts, start, i, j - 1);
    } else if j > 0 {
        lemma_offset_monotone(parts, start, j - 1, j - 1);
    }
}

/// The clusters among `k..n` that overlap the cells `from..=to`.
pub open spec fn overlapping_behind(
    parts: Seq<Seq<char>>,
    k: int,
    n: int,
    from: nat,
    to: nat,
) -> Seq<char>
    decreases n,
{
    if n <= k || n <= 0 {
        Seq::empty()
    } else if overlaps(parts, n - 1, from, to) {
        overlapping_behind(parts, k, n - 1, from, to) + parts[n - 1]
    } else {
        overlapping_behind(parts, k, n - 1, from, to)
    }
}

/// Clusters that end before the first of the cells are not among those that
/// overlap them.
pub proof fn lemma_behind(parts: Seq<Seq<char>>, k: int, n: int, from: nat, to: nat)
    requires
        0 <= k <= n,
        cell_offset(parts, 0, k) <= from,
    ensures
        overlapping(parts, n, from, to) == overlapping_behind(parts, k, n, from, to),
    decreases n,
{
    if n > 0 {
        if n > k {
            lemma_behind(parts, k, n - 1, from, to);
        } else {
            lemma_offset_monotone(parts, 0, n - 1, n);
            lemma_behind(parts, n - 1, n - 1, from, to);
            assert(!overlaps(parts, n - 1, from, to));
        }
    }
}

/// A slice holds no character that its text does not hold.
pub proof fn lemma_slice_lacks(parts: Seq<Seq<char>>, n: int, from: nat, to: nat, c: char)
    requires
        0 <= n <= parts.len(),
        forall|x: int|
            0 <= x < concat_all(parts).len() ==> #[trigger] concat_all(parts)[x] != c,
    ensures
        forall|x: int|
            0 <= x < overlapping(parts, n, from, to).len() ==> #[trigger] overlapping(
                parts,
                n,
                from,
                to,
            )[x] != c,
    decreases n,
{
    if n > 0 {
        lemma_slice_lacks(parts, n - 1, from, to, c);
        lemma_part_of_all(parts, n - 1);
        let before = concat_all(parts.take(n - 1));
        let part = parts[n - 1];
        assert forall|x: int| 0 <= x < part.len() implies #[trigger] part[x] != c by {
            assert(concat_all(parts)[before.len() + x] == part[x]);
        }
        let head = overlapping(parts, n - 1, from, to);
        let all = overlapping(parts, n, from, to);
        assert forall|x: int| 0 <= x < all.len() implies #[trigger] all[x] != c by {
            if x < head.len() {
                assert(all[x] == head[x]);
            } else {
                assert(all[x] == part[x - head.len()]);
            }
        }
    }
}

/// Each part stands in the whole behind the parts before it.
proof fn lemma_part_of_all(parts: Seq<Seq<char>>, i: int)
    requires
        0 <= i < parts.len(),
    ensures
        ({
            let before = concat_all(parts.take(i));
            &&& before.len() + parts[i].len() <= concat_all(parts).len()
            &&& forall|x: int|
                0 <= x < parts[i].len() ==> concat_all(parts)[before.len() + x]
                    == #[trigger] parts[i][x]
        }),
    decreases parts.len(),
{
    if i < parts.len() - 1 {
        lemma_part_of_all(parts.drop_last(), i);
        assert(parts.drop_last().take(i) =~= parts.take(i));
    } else {
        assert(parts.drop_last() =~= parts.take(i));
    }
}

proof fn lemma_nothing_overlaps_later(
    parts: Seq<Seq<char>>,
    i: int,
    n: int,
    from: nat,
    to: nat,
)
    requires
        0 <= i <= n,
        cell_offset(parts, 0, i) > to,
    ensures
        overlapping(parts, n, from, to) == overlapping(parts, i, from, to),
    decreases n - i,
{
    if i < n {
        lemma_nothing_overlaps_later(parts, i, n - 1, from, to);
        lemma_offset_monotone(parts, 0, i, n - 1);
    }
}

/// One grapheme cluster with the half-open range of cells it occupies.
#[derive(Clone, Debug)]
pub struct CellRun {
    pub text: String,
    pub start: usize,
    pub end: usize,
}

/// Each grapheme cluster of `text` with its half-open terminal-cell range,
/// beginning at `start_cell`.
pub fn grapheme_cells(text: &str, start_cell: usize) -> (r: Vec<CellRun>)
    ensures
        concat_all(clusters(text@)) == text@,
        r@.len() == clusters(text@).len(),
        forall|i: int|
            0 <= i < r@.len() ==> (#[trigger] r@[i]).text@ == clusters(text@)[i] && r@[i].start
                == cell_offset(clusters(text@), start_cell as nat, i) && r@[i].end == cell_offset(
                clusters(text@),
                start_cell as nat,
                i + 1,
            ),
{
    let parts = graphemes_of(text);
    let mut r: Vec<CellRun> = Vec::new();
    let mut cell: usize = start_cell;
    let mut i: usize = 0;
    while i < parts.len()
        invariant
            text::texts(parts@) == clusters(text@),
            i <= parts@.len(),
            r@.len() == i,
            cell == cell_offset(clusters(text@), start_cell as nat, i as int),
            forall|k: int|
                0 <= k < i ==> (#[trigger] r@[k]).text@ == clusters(text@)[k] && r@[k].start
                    == cell_offset(clusters(text@), start_cell as nat, k) && r@[k].end
                    == cell_offset(clusters(text@), start_cell as nat, k + 1),
        decreases parts@.len() - i,
    {
        let start = cell;
        cell = cell.saturating_add(width_of(parts[i].as_str()));
        proof {
            assert(clusters(text@)[i as int] == parts@[i as int]@);
        }
        r.push(CellRun { text: parts[i].clone(), start, end: cell });
        i += 1;
    }
    r
}

/// The substring of `text` occupying terminal cells `from_cell..=to_cell`.
/// Every grapheme that overlaps the range is kept whole.
pub fn slice_cells(text: &str, from_cell: usize, to_cell: usize) -> (r: String)
    ensures
        r@ == cell_slice(text@, from_cell as nat, to_cell as nat),
        concat_all(clusters(text@)) == text@,
{
    let runs = grapheme_cells(text, 0);
    let ghost parts = clusters(text@);
    let mut out = String::new();
    let mut i: usize = 0;
    while i < runs.len()
        invariant
            parts == clusters(text@),
            concat_all(parts) == text@,
            runs@.len() == parts.len(),
            i <= runs@.len(),
            out@ == overlapping(parts, i as int, from_cell as nat, to_cell as nat),
            forall|k: int|
                0 <= k < runs@.len() ==> (#[trigger] runs@[k]).text@ == parts[k] && runs@[k].start
                    == cell_offset(parts, 0, k) && runs@[k].end == cell_offset(parts, 0, k + 1),
        decreases runs@.len() - i,
    {
        let run = &runs[i];
        if run.start > to_cell {
            proof {
                lemma_nothing_overlaps_later(
                    parts,
                    i as int,
                    parts.len() as int,
                    from_cell as nat,
                    to_cell as nat,
                );
            }
            return out;
        }
        if run.end > from_cell {
            out.append(run.text.as_str());
        }
        i += 1;
    }
    out
}

/// How many characters from index `i` on fit, beside one ellipsis cell, into
/// `width` cells of which `used` are taken.
pub open spec fn fit_count(s: Seq<char>, i: int, used: nat, width: nat) -> int
    decreases s.len() - i,
{
    if 0 <= i < s.len() && used + cells(s[i]) + 1 <= width {
        fit_count(s, i + 1, used + cells(s[i]), width)
    } else {
        i
    }
}

/// A text cut at its end to `width` cells, with an ellipsis for what is lost.
pub open spec fn elided_end(s: Seq<char>, width: nat) -> Seq<char> {
    if text_width(s) <= width {
        s
    } else if width == 0 {
        Seq::empty()
    } else if width == 1 {
        seq!['…']
    } else {
        s.take(fit_count(s, 0, 0, width)).push('…')
    }
}

/// First index of the longest suffix ending at `n` that fits into `width`
/// cells of which `used` are taken.
pub open spec fn suffix_start(s: Seq<char>, n: int, used: nat, width: nat) -> int
    decreases n,
{
    if 0 < n <= s.len() && used + cells(s[n - 1]) <= width {
        suffix_start(s, n - 1, used + cells(s[n - 1]), width)
    } else {
        n
    }
}

/// Prefix length left when every trailing `c` before `n` is dropped.
pub open spec fn drop_trailing(s: Seq<char>, n: int, c: char) -> int
    decreases n,
{
    if 0 < n <= s.len() && s[n - 1] == c {
        drop_trailing(s, n - 1, c)
    } else {
        n
    }
}

/// A text cut in its middle to `width` cells, with an ellipsis at the cut.
pub open spec fn elided_middle(s: Seq<char>, width: nat) -> Seq<char> {
    if text_width(s) <= width {
        s
    } else if width <= 1 {
        elided_end(s, width)
    } else {
        let left_width = ((width - 1) / 2) as nat;
        let right_width = (width - left_width - 1) as nat;
        let head = elided_end(s, left_width + 1);
        head.take(drop_trailing(head, head.len() as int, '…')).push('…') + s.skip(
            suffix_start(s, s.len() as int, 0, right_width),
        )
    }
}

/// Cuts `text` at its end to `width` cells.
pub fn elide_end(text: &str, width: usize) -> (r: String)
    ensures
        r@ == elided_end(text@, width as nat),
{
    if width_of(text) <= width {
        return text.to_owned();
    }
    let mut result = String::new();
    if width == 0 {
        return result;
    }
    if width == 1 {
        result.push('…');
        proof {
            assert(result@ =~= seq!['…']);
        }
        return result;
    }
    let chars = text::chars_of(text);
    let mut used: usize = 0;
    let mut i: usize = 0;
    while i < chars.len() && char_fits(chars[i], used, width - 1)
        invariant
            chars@ == text@,
            i <= chars@.len(),
            2 <= width,
            used <= width - 1,
            result@ == text@.take(i as int),
            fit_count(text@, 0, 0, width as nat) == fit_count(
                text@,
                i as int,
                used as nat,
                width as nat,
            ),
        decreases chars@.len() - i,
    {
        proof {
            assert(text@.take(i + 1) =~= text@.take(i as int).push(text@[i as int]));
        }
        result.push(chars[i]);
        used = used + cells_of(chars[i]);
        i += 1;
    }
    result.push('…');
    result
}

/// Cells a character takes.
pub(crate) fn cells_of(c: char) -> (r: usize)
    ensures
        r == cells(c),
{
    match width_of_char(c) {
        Some(w) => w,
        None => 0,
    }
}

/// Whether the character fits into the cells left of `limit`.
fn char_fits(c: char, used: usize, limit: usize) -> (r: bool)
    requires
        used <= limit,
    ensures
        r == (used + cells(c) <= limit),
{
    cells_of(c) <= limit - used
}

/// Cuts `text` in its middle to `width` cells.
pub fn elide_middle(text: &str, width: usize) -> (r: String)
    ensures
        r@ == elided_middle(text@, width as nat),
{
    if width_of(text) <= width {
        return text.to_owned();
    }
    if width <= 1 {
        return elide_end(text, width);
    }
    let left_width: usize = (width - 1) / 2;
    let right_width: usize = width - left_width - 1;
    let head = elide_end(text, left_width + 1);
    let head_chars = text::chars_of(head.as_str());
    let mut keep: usize = head_chars.len();
    while keep > 0 && head_chars[keep - 1] == '…'
        invariant
            head_chars@ == head@,
            keep <= head_chars@.len(),
            drop_trailing(head@, head@.len() as int, '…') == drop_trailing(
                head@,
                keep as int,
                '…',
            ),
        decreases keep,
    {
        keep -= 1;
    }
    let mut result = text::text_of(&head_chars, 0, keep);
    proof {
        assert(result@ =~= head@.take(keep as int));
    }
    result.push('…');
    let chars = text::chars_of(text);
    let mut used: usize = 0;
    let mut start: usize = chars.len();
    while start > 0 && char_fits(chars[start - 1], used, right_width)
        invariant
            chars@ == text@,
            start <= chars@.len(),
            used <= right_width,
            suffix_start(text@, text@.len() as int, 0, right_width as nat) == suffix_start(
                text@,
                start as int,
                used as nat,
                right_width as nat,
            ),
        decreases start,
    {
        used = used + cells_of(chars[start - 1]);
        start -= 1;
    }
    let tail = text::text_of(&chars, start, chars.len());
    proof {
        assert(tail@ =~= text@.skip(start as int));
    }
    result.append(tail.as_str());
    result
}

/// A text cut to `width` characters, the last an ellipsis when any are lost.
pub open spec fn elided_chars(s: Seq<char>, width: nat) -> Seq<char> {
    if width == 0 {
        Seq::empty()
    } else if s.len() <= width {
        s
    } else {
        s.take(width - 1).push('…')
    }
}

/// Cuts `text` to `width` characters.
pub fn elide_end_plain(text: &str, width: usize) -> (r: String)
    ensures
        r@ == elided_chars(text@, width as nat),
{
    if width == 0 {
        return String::new();
    }
    let chars = text::chars_of(text);
    if chars.len() <= width {
        return text.to_owned();
    }
    let mut result = text::text_of(&chars, 0, width - 1);
    proof {
        assert(result@ =~= text@.take(width - 1));
    }
    result.push('…');
    result
}

/// Cutting by characters never yields more than the requested count.
pub proof fn elided_chars_fit(s: Seq<char>, width: nat)
    ensures
        elided_chars(s, width).len() <= width,
{
}

/// The number as a 16-bit cell count, or the largest such count.
pub fn to_u16(value: usize) -> (r: u16)
    ensures
        r == if value <= u16::MAX {
            value as int
        } else {
            u16::MAX as int
        },
{
    if value <= 0xffff {
        value as u16
    } else {
        0xffff
    }
}

/// Everything up to the last cell is the whole text.
pub proof fn whole_slice_is_the_text(s: Seq<char>)
    requires
        concat_all(clusters(s)) == s,
        forall|i: int| 0 <= i < clusters(s).len() ==> text_width(#[trigger] clusters(s)[i]) > 0,
        cell_offset(clusters(s), 0, clusters(s).len() as int) < usize::MAX,
    ensures
        cell_slice(s, 0, usize::MAX as nat) == s,
{
    let parts = clusters(s);
    lemma_whole(parts, parts.len() as int);
    assert(parts.take(parts.len() as int) =~= parts);
}

proof fn lemma_whole(parts: Seq<Seq<char>>, n: int)
    requires
        0 <= n <= parts.len(),
        forall|i: int| 0 <= i < parts.len() ==> text_width(#[trigger] parts[i]) > 0,
        cell_offset(parts, 0, parts.len() as int) < usize::MAX,
    ensures
        overlapping(parts, n, 0, usize::MAX as nat) == concat_all(parts.take(n)),
    decreases n,
{
    if n > 0 {
        lemma_whole(parts, n - 1);
        lemma_offset_monotone(parts, 0, n - 1, n);
        lemma_offset_monotone(parts, 0, n, parts.len() as int);
        assert(parts.take(n).drop_last() =~= parts.take(n - 1));
        assert(text_width(parts[n - 1]) > 0);
    }
}

} // verus!
