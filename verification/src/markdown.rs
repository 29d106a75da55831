//! Wrapping rendered Markdown lines into display rows.

use crate::cells;
use crate::input;
use crate::styling;
use crate::styling::{extend_spans, styled_graphemes, Line, Span, Strip, TextStyle};
use crate::text;
use crate::text_wrap;
use crate::text_wrap::{is_breakable_whitespace, wrap_items, WrapItem};
use pulldown_cmark::{Event, Options, Tag, TagEnd};
use vstd::prelude::*;
use vstd::string::*;

verus! {

/// What an event of the Markdown parser is, as far as it matters here.
#[derive(Clone, Copy, Debug, PartialEq, Eq, Structural)]
pub enum Mark {
    SoftBreak,
    /// A list begins; whether its items are numbered.
    ListStart(bool),
    /// An item of the innermost list begins.
    Item,
    ListEnd,
    /// Any other event.
    Other,
}

/// The parser's extensions, as `pulldown_cmark::Options` numbers them.
pub const TABLES: u32 = 1 << 1;

pub const FOOTNOTES: u32 = 1 << 2;

pub const STRIKETHROUGH: u32 = 1 << 3;

pub const TASK_LISTS: u32 = 1 << 4;

pub const HEADING_ATTRIBUTES: u32 = 1 << 6;

pub const YAML_METADATA: u32 = 1 << 7;

pub const MATH: u32 = 1 << 10;

pub const GITHUB_FLAVOR: u32 = 1 << 11;

pub const DEFINITION_LISTS: u32 = 1 << 12;

pub const SUPERSCRIPT: u32 = 1 << 13;

pub const SUBSCRIPT: u32 = 1 << 14;

/// The extensions that the renderer turns on.
pub const EXTENSIONS: u32 = TABLES | FOOTNOTES | STRIKETHROUGH | TASK_LISTS | HEADING_ATTRIBUTES
    | YAML_METADATA | MATH | GITHUB_FLAVOR | DEFINITION_LISTS | SUPERSCRIPT | SUBSCRIPT;

/// What the Markdown parser of `pulldown-cmark` reports of a source with the
/// given extensions on: for each event what it is, and the byte offset of its
/// start.
pub uninterp spec fn parser_events(source: Seq<char>, extensions: u32) -> Seq<(Mark, usize)>;

/// What the parser reports of a source as it is rendered.
pub open spec fn markdown_events(source: Seq<char>) -> Seq<(Mark, usize)> {
    parser_events(source, EXTENSIONS)
}

/// `pulldown_cmark::Parser::new_ext` with the given extensions, read to its
/// end. The events are a function of the source and the extensions.
#[verifier::external_body]
fn parse(source: &str, extensions: u32) -> (r: Vec<(Mark, usize)>)
    ensures
        r@ == parser_events(source@, extensions),
{
    let on = Options::from_bits_truncate(extensions);
    pulldown_cmark::Parser::new_ext(source, on).into_offset_iter().map(|(event, range)| {
        let mark = match event {
            Event::SoftBreak => Mark::SoftBreak,
            Event::Start(Tag::List(first)) => Mark::ListStart(first.is_some()),
            Event::Start(Tag::Item) => Mark::Item,
            Event::End(TagEnd::List(_)) => Mark::ListEnd,
            _ => Mark::Other,
        };
        (mark, range.start)
    }).collect()
}

/// The parser's events for a source as it is rendered.
pub(crate) fn events_of(source: &str) -> (r: Vec<(Mark, usize)>)
    ensures
        r@ == markdown_events(source@),
{
    parse(source, EXTENSIONS)
}

/// The lists that are open after the first `n` events, from the outermost in,
/// each by whether its items are numbered.
pub open spec fn open_lists(events: Seq<(Mark, usize)>, n: int) -> Seq<bool>
    decreases n,
{
    if n <= 0 {
        Seq::empty()
    } else {
        let before = open_lists(events, n - 1);
        match events[n - 1].0 {
            Mark::ListStart(numbered) => before.push(numbered),
            Mark::ListEnd => if before.len() > 0 {
                before.drop_last()
            } else {
                before
            },
            _ => before,
        }
    }
}

/// The deepest nesting at which a numbered item can be rendered.
pub const MAX_LIST_DEPTH: usize = 16384;

/// Whether event `n` begins an item with a number that lies too deep.
pub open spec fn too_deep(events: Seq<(Mark, usize)>, n: int) -> bool {
    let open = open_lists(events, n);
    &&& events[n].0 == Mark::Item
    &&& open.len() > MAX_LIST_DEPTH
    &&& open.last()
}

/// Whether every numbered item of a source can be rendered.
pub open spec fn depth_fits(events: Seq<(Mark, usize)>) -> bool {
    forall|n: int| 0 <= n < events.len() ==> !#[trigger] too_deep(events, n)
}

/// Whether no numbered item of a source is nested deeper than can be
/// rendered.
pub fn list_depth_fits(events: &Vec<(Mark, usize)>) -> (r: bool)
    ensures
        r == depth_fits(events@),
{
    let mut open: Vec<bool> = Vec::new();
    let mut i: usize = 0;
    proof {
        assert(open@ =~= Seq::empty());
    }
    while i < events.len()
        invariant
            i <= events@.len(),
            open@ == open_lists(events@, i as int),
            forall|n: int| 0 <= n < i ==> !#[trigger] too_deep(events@, n),
        decreases events@.len() - i,
    {
        match events[i].0 {
            Mark::ListStart(numbered) => {
                open.push(numbered);
            },
            Mark::ListEnd => {
                let ghost before = open@;
                open.pop();
                proof {
                    assert(before.len() > 0 ==> open@ =~= before.drop_last());
                    assert(before.len() == 0 ==> open@ =~= before);
                }
            },
            Mark::Item => {
                let depth: usize = open.len();
                if depth > MAX_LIST_DEPTH && open[depth - 1] {
                    proof {
                        assert(too_deep(events@, i as int));
                    }
                    return false;
                }
            },
            _ => {},
        }
        proof {
            assert(!too_deep(events@, i as int));
        }
        i += 1;
    }
    true
}

/// The offsets of the soft breaks among the first `n` events.
pub open spec fn soft_breaks(events: Seq<(Mark, usize)>, n: int) -> Seq<usize>
    decreases n,
{
    if n <= 0 {
        Seq::empty()
    } else if events[n - 1].0 == Mark::SoftBreak {
        soft_breaks(events, n - 1).push(events[n - 1].1)
    } else {
        soft_breaks(events, n - 1)
    }
}

/// The source from character `i` on, with two spaces put in at each of the
/// byte offsets `breaks[k..]` that is reached.
pub open spec fn hard_broken(s: Seq<char>, i: int, breaks: Seq<usize>, k: int) -> Seq<char>
    decreases s.len() - i, breaks.len() - k,
{
    if i < 0 || i > s.len() {
        Seq::empty()
    } else if 0 <= k < breaks.len() && breaks[k] == input::byte_offset(s, i) {
        "  "@ + hard_broken(s, i, breaks, k + 1)
    } else if i < s.len() {
        seq![s[i]] + hard_broken(s, i + 1, breaks, k)
    } else {
        Seq::empty()
    }
}

pub proof fn lemma_encode_append(a: Seq<char>, b: Seq<char>)
    ensures
        vstd::utf8::encode_utf8(a + b) == vstd::utf8::encode_utf8(a) + vstd::utf8::encode_utf8(b),
    decreases a.len(),
{
    if a.len() == 0 {
        assert(a + b =~= b);
        assert(vstd::utf8::encode_utf8(a) + vstd::utf8::encode_utf8(b)
            =~= vstd::utf8::encode_utf8(b));
    } else {
        lemma_encode_append(a.drop_first(), b);
        assert((a + b).drop_first() =~= a.drop_first() + b);
        let h = vstd::utf8::encode_scalar(a[0] as u32);
        let t = vstd::utf8::encode_utf8(a.drop_first());
        assert(h + (t + vstd::utf8::encode_utf8(b)) =~= (h + t) + vstd::utf8::encode_utf8(b));
    }
}

proof fn lemma_byte_step(s: Seq<char>, i: int)
    requires
        0 <= i < s.len(),
    ensures
        input::byte_offset(s, i + 1) == input::byte_offset(s, i) + vstd::utf8::encode_utf8(
            s.subrange(i, i + 1),
        ).len(),
{
    lemma_encode_append(s.take(i), s.subrange(i, i + 1));
    assert(s.take(i) + s.subrange(i, i + 1) =~= s.take(i + 1));
}

proof fn lemma_byte_bound(s: Seq<char>, i: int)
    requires
        0 <= i <= s.len(),
    ensures
        0 <= input::byte_offset(s, i) <= input::byte_offset(s, s.len() as int),
{
    lemma_encode_append(s.take(i), s.skip(i));
    assert(s.take(i) + s.skip(i) =~= s);
    assert(s.take(s.len() as int) =~= s);
}

/// Puts two spaces in at each of the byte offsets `breaks`, which turns the
/// soft line breaks that begin there into hard ones.
pub fn hard_breaks(source: &str, breaks: &Vec<usize>) -> (r: String)
    ensures
        r@ == hard_broken(source@, 0, breaks@, 0),
{
    let chars = text::chars_of(source);
    let size: usize = source.as_bytes().len();
    let n: usize = chars.len();
    let mut r = String::new();
    let mut i: usize = 0;
    let mut k: usize = 0;
    let mut offset: usize = 0;
    proof {
        assert(source@.take(0) =~= Seq::empty());
        assert(source@.take(source@.len() as int) =~= source@);
        assert(r@ + hard_broken(source@, 0, breaks@, 0) =~= hard_broken(source@, 0, breaks@, 0));
    }
    loop
        invariant
            chars@ == source@,
            n == source@.len(),
            i <= n,
            k <= breaks@.len(),
            size == input::byte_offset(source@, source@.len() as int),
            offset == input::byte_offset(source@, i as int),
            r@ + hard_broken(source@, i as int, breaks@, k as int) == hard_broken(
                source@,
                0,
                breaks@,
                0,
            ),
        decreases n - i, breaks@.len() - k,
    {
        let ghost done = r@;
        if k < breaks.len() && breaks[k] == offset {
            r.append("  ");
            k += 1;
            proof {
                let rest = hard_broken(source@, i as int, breaks@, k as int);
                assert((done + "  "@) + rest =~= done + ("  "@ + rest));
            }
        } else if i < n {
            proof {
                lemma_byte_step(source@, i as int);
                lemma_byte_bound(source@, i + 1);
            }
            r.push(chars[i]);
            let one = text::text_of(&chars, i, i + 1);
            offset = offset + one.as_str().as_bytes().len();
            i += 1;
            proof {
                let rest = hard_broken(source@, i as int, breaks@, k as int);
                assert(done.push(source@[i - 1]) + rest =~= done + (seq![source@[i - 1]] + rest));
            }
        } else {
            proof {
                assert(done + Seq::<char>::empty() =~= done);
            }
            return r;
        }
    }
}

/// The source with the soft line breaks that its parser sees turned into hard
/// ones.
pub open spec fn with_hard_breaks(source: Seq<char>) -> Seq<char> {
    let events = markdown_events(source);
    hard_broken(source, 0, soft_breaks(events, events.len() as int), 0)
}

/// The Markdown source with the soft line breaks that its parser sees turned
/// into hard ones, so that line breaks in prose survive rendering.
pub fn preserve_markdown_newlines(markdown: &str) -> (r: String)
    ensures
        r@ == with_hard_breaks(markdown@),
{
    let events = events_of(markdown);
    let mut breaks: Vec<usize> = Vec::new();
    let mut i: usize = 0;
    while i < events.len()
        invariant
            i <= events@.len(),
            breaks@ == soft_breaks(events@, i as int),
        decreases events@.len() - i,
    {
        if events[i].0 == Mark::SoftBreak {
            breaks.push(events[i].1);
        }
        i += 1;
    }
    hard_breaks(markdown, &breaks)
}

/// A leading structural prefix of a rendered Markdown line.
#[derive(Clone, Copy, Debug, PartialEq, Eq, Structural)]
pub enum StructuralPrefix {
    /// Blockquote marker: repeated on every wrapped row.
    Repeat { width: usize, count: usize },
    /// List, task, footnote or definition marker: appears once; continuation
    /// rows hang beneath the content.
    Hang { width: usize, count: usize },
}

impl StructuralPrefix {
    /// Cells the prefix takes.
    pub open spec fn cells(self) -> usize {
        match self {
            StructuralPrefix::Repeat { width, .. } => width,
            StructuralPrefix::Hang { width, .. } => width,
        }
    }

    /// Grapheme clusters of the prefix.
    pub open spec fn parts(self) -> usize {
        match self {
            StructuralPrefix::Repeat { count, .. } => count,
            StructuralPrefix::Hang { count, .. } => count,
        }
    }

    pub fn width(self) -> (r: usize)
        ensures
            r == self.cells(),
    {
        match self {
            StructuralPrefix::Repeat { width, .. } => width,
            StructuralPrefix::Hang { width, .. } => width,
        }
    }

    pub fn count(self) -> (r: usize)
        ensures
            r == self.parts(),
    {
        match self {
            StructuralPrefix::Repeat { count, .. } => count,
            StructuralPrefix::Hang { count, .. } => count,
        }
    }
}

/// Whether a text is `x` or a space: the state of a checkbox.
pub open spec fn is_checkbox_state(s: Seq<char>) -> bool {
    s == "x"@ || s == " "@
}

/// Whether a text is a task-list checkbox: `[x] ` or `[ ] `, after any space.
pub open spec fn is_checkbox(s: Seq<char>) -> bool {
    match text::strip_prefix(text::trim_start(s), "["@) {
        None => false,
        Some(rest) => match text::strip_suffix(rest, "] "@) {
            None => false,
            Some(state) => is_checkbox_state(state),
        },
    }
}

fn checkbox_state(s: &str) -> (r: bool)
    ensures
        r == is_checkbox_state(s@),
{
    text::same(s, "x") || text::same(s, " ")
}

/// Whether a span is a task-list checkbox marker.
pub fn is_task_marker(span: &str) -> (r: bool)
    ensures
        r == is_checkbox(span@),
{
    let trimmed = text::trimmed_start(span);
    match text::without_prefix(trimmed.as_str(), "[") {
        None => false,
        Some(rest) => match text::without_suffix(rest.as_str(), "] ") {
            None => false,
            Some(state) => checkbox_state(state.as_str()),
        },
    }
}

/// The text without the spaces at its end.
pub open spec fn without_spaces(s: Seq<char>) -> Seq<char> {
    s.take(cells::drop_trailing(s, s.len() as int, ' '))
}

pub open spec fn is_ordered_marker(m: Seq<char>) -> bool {
    match text::strip_suffix(m, "."@) {
        None => false,
        Some(digits) => digits.len() > 0 && text::all_digits(digits),
    }
}

pub open spec fn is_bullet_marker(m: Seq<char>) -> bool {
    m == "-"@ || m == "*"@ || m == "+"@
}

pub open spec fn is_task_item(m: Seq<char>) -> bool {
    match text::strip_prefix(m, "- ["@) {
        None => false,
        Some(rest) => match text::strip_suffix(rest, "]"@) {
            None => false,
            Some(state) => is_checkbox_state(state),
        },
    }
}

pub open spec fn is_footnote_marker(m: Seq<char>) -> bool {
    match text::strip_prefix(m, "["@) {
        None => false,
        Some(rest) => match text::strip_suffix(rest, "]:"@) {
            None => false,
            Some(label) => label.len() > 0,
        },
    }
}

/// Whether `m` marks a list, task, footnote or definition item.
pub open spec fn is_item_marker(m: Seq<char>) -> bool {
    is_bullet_marker(m) || is_ordered_marker(m) || is_task_item(m) || is_footnote_marker(m) || m
        == ":"@
}

/// How many of the spans from `i` on are quote markers in an unbroken run.
pub open spec fn quotes(spans: Seq<styling::Ink>, i: int) -> nat
    decreases spans.len() - i,
{
    if 0 <= i < spans.len() && spans[i].text == ">"@ {
        1 + quotes(spans, i + 1)
    } else {
        0
    }
}

/// The structural prefix a rendered line begins with.
pub open spec fn line_prefix(line: Strip) -> Option<StructuralPrefix> {
    let quoted = quotes(line.spans, 0);
    if quoted > 0 {
        let width = cells::sat_add(quoted, 1) as usize;
        Some(StructuralPrefix::Repeat { width, count: width })
    } else if line.spans.len() == 0 {
        None
    } else {
        let first = line.spans[0].text;
        let trimmed = text::trim_start(first);
        let marker = text::trim_start(without_spaces(trimmed));
        if !text::ends_with(trimmed, " "@) || !is_item_marker(marker) {
            None
        } else if is_ordered_marker(marker) && line.spans.len() > 1 && is_checkbox(
            line.spans[1].text,
        ) {
            let second = line.spans[1].text;
            Some(
                StructuralPrefix::Hang {
                    width: cells::sat_add(
                        cells::text_width(first),
                        cells::text_width(second),
                    ) as usize,
                    count: cells::sat_add(
                        cells::clusters(first).len(),
                        cells::clusters(second).len(),
                    ) as usize,
                },
            )
        } else {
            Some(
                StructuralPrefix::Hang {
                    width: cells::text_width(first) as usize,
                    count: cells::clusters(first).len() as usize,
                },
            )
        }
    }
}

fn trimmed_spaces(s: &str) -> (r: String)
    ensures
        r@ == without_spaces(s@),
{
    let chars = text::chars_of(s);
    let mut n: usize = chars.len();
    while n > 0 && chars[n - 1] == ' '
        invariant
            n <= chars@.len(),
            chars@ == s@,
            cells::drop_trailing(s@, s@.len() as int, ' ') == cells::drop_trailing(
                s@,
                n as int,
                ' ',
            ),
        decreases n,
    {
        n -= 1;
    }
    proof {
        assert(chars@.subrange(0, n as int) =~= s@.take(n as int));
    }
    text::text_of(&chars, 0, n)
}

fn only_digits(s: &str) -> (r: bool)
    ensures
        r == text::all_digits(s@),
{
    let chars = text::chars_of(s);
    let mut i: usize = 0;
    while i < chars.len()
        invariant
            i <= chars@.len(),
            chars@ == s@,
            forall|k: int| 0 <= k < i ==> text::is_digit(#[trigger] chars@[k]),
        decreases chars@.len() - i,
    {
        let c = chars[i];
        if !('0' <= c && c <= '9') {
            return false;
        }
        i += 1;
    }
    true
}

fn ordered_marker(m: &str) -> (r: bool)
    ensures
        r == is_ordered_marker(m@),
{
    match text::without_suffix(m, ".") {
        None => false,
        Some(digits) => !digits.as_str().is_empty() && only_digits(digits.as_str()),
    }
}

fn task_item(m: &str) -> (r: bool)
    ensures
        r == is_task_item(m@),
{
    match text::without_prefix(m, "- [") {
        None => false,
        Some(rest) => match text::without_suffix(rest.as_str(), "]") {
            None => false,
            Some(state) => checkbox_state(state.as_str()),
        },
    }
}

fn footnote_marker(m: &str) -> (r: bool)
    ensures
        r == is_footnote_marker(m@),
{
    match text::without_prefix(m, "[") {
        None => false,
        Some(rest) => match text::without_suffix(rest.as_str(), "]:") {
            None => false,
            Some(label) => !label.as_str().is_empty(),
        },
    }
}

fn item_marker(m: &str) -> (r: bool)
    ensures
        r == is_item_marker(m@),
{
    text::same(m, "-") || text::same(m, "*") || text::same(m, "+") || ordered_marker(m)
        || task_item(m) || footnote_marker(m) || text::same(m, ":")
}

fn leading_quotes(spans: &Vec<Span>) -> (r: usize)
    ensures
        r == quotes(styling::inks(spans@), 0),
{
    let mut i: usize = 0;
    proof {
        assert(styling::inks(spans@).len() == spans@.len());
    }
    while i < spans.len()
        invariant
            i <= spans@.len(),
            quotes(styling::inks(spans@), 0) == i + quotes(styling::inks(spans@), i as int),
        decreases spans@.len() - i,
    {
        proof {
            assert(styling::inks(spans@)[i as int] == spans@[i as int]@);
        }
        if !text::same(spans[i].content.as_str(), ">") {
            return i;
        }
        i += 1;
    }
    i
}

/// The structural prefix (`> `, `- `, `1. `, `- [x] `, `1. [ ] `,
/// `[label]: `, `: `) that a rendered line begins with.
pub fn leading_structural_prefix(line: &Line) -> (r: Option<StructuralPrefix>)
    ensures
        r == line_prefix(line@),
{
    let quoted = leading_quotes(&line.spans);
    if quoted > 0 {
        let width: usize = quoted.saturating_add(1);
        return Some(StructuralPrefix::Repeat { width, count: width });
    }
    if line.spans.len() == 0 {
        return None;
    }
    let first = line.spans[0].content.as_str();
    let trimmed = text::trimmed_start(first);
    proof {
        assert(line@.spans[0] == line.spans@[0]@);
    }
    if !text::has_suffix(trimmed.as_str(), " ") {
        return None;
    }
    let cut = trimmed_spaces(trimmed.as_str());
    let marker = text::trimmed_start(cut.as_str());
    if !item_marker(marker.as_str()) {
        return None;
    }
    let width: usize = cells::width_of(first);
    let parts = cells::graphemes_of(first);
    proof {
        assert(text::texts(parts@).len() == parts@.len());
    }
    let count: usize = parts.len();
    if ordered_marker(marker.as_str()) && line.spans.len() > 1 {
        let second = line.spans[1].content.as_str();
        proof {
            assert(line@.spans[1] == line.spans@[1]@);
        }
        if is_task_marker(second) {
            let more = cells::graphemes_of(second);
            proof {
                assert(text::texts(more@).len() == more@.len());
            }
            return Some(
                StructuralPrefix::Hang {
                    width: width.saturating_add(cells::width_of(second)),
                    count: count.saturating_add(more.len()),
                },
            );
        }
    }
    Some(StructuralPrefix::Hang { width, count })
}

/// Whether a style belongs to code, whose whitespace is significant.
pub open spec fn is_code(style: TextStyle) -> bool {
    style.bg == Some(styling::panel_color())
}

fn is_code_style(style: TextStyle) -> (r: bool)
    ensures
        r == is_code(style),
{
    match style.bg {
        Some(color) => color == styling::panel(),
        None => false,
    }
}

/// The style of each character of the first `n` spans.
pub open spec fn char_styles(spans: Seq<styling::Ink>, n: int, under: TextStyle) -> Seq<TextStyle>
    decreases n,
{
    if n <= 0 {
        Seq::empty()
    } else {
        char_styles(spans, n - 1, under) + Seq::new(
            spans[n - 1].text.len(),
            |i: int| under.under(spans[n - 1].style),
        )
    }
}

/// Characters before cluster `i`.
pub open spec fn chars_before(parts: Seq<Seq<char>>, i: int) -> int
    decreases i,
{
    if i <= 0 {
        0
    } else {
        chars_before(parts, i - 1) + parts[i - 1].len()
    }
}

/// The clusters of a line, each in the style of its first character.
pub open spec fn cluster_inks(line: Strip, base: TextStyle) -> Seq<styling::Ink> {
    let parts = cells::clusters(line.text());
    let styles = char_styles(line.spans, line.spans.len() as int, base.under(line.style));
    Seq::new(
        parts.len(),
        |i: int| styling::Ink { text: parts[i], style: styles[chars_before(parts, i)] },
    )
}

/// The cells and break class of each cluster; whitespace in code is no
/// soft-wrap point.
pub open spec fn styled_items(items: Seq<styling::Ink>) -> Seq<WrapItem> {
    Seq::new(
        items.len(),
        |i: int|
            WrapItem {
                width: cells::text_width(items[i].text) as usize,
                breakable: items[i].text.len() > 0 && text_wrap::breakable(items[i].text[0])
                    && !is_code(items[i].style),
            },
    )
}

/// Whitespace in code never becomes a soft-wrap point.
pub proof fn code_whitespace_never_breaks(items: Seq<styling::Ink>, i: int)
    requires
        0 <= i < items.len(),
        is_code(items[i].style),
    ensures
        !styled_items(items)[i].breakable,
{
}

/// `n` unstyled spaces, or nothing.
pub open spec fn gap(n: int) -> Seq<styling::Ink> {
    if n > 0 {
        seq![styling::Ink { text: text::repeated(' ', n as nat), style: TextStyle::bare() }]
    } else {
        Seq::empty()
    }
}

/// What precedes the content of row `k`: the prefix on the first row and, for
/// a repeated one, on every row; otherwise the space it takes.
pub open spec fn row_lead(
    items: Seq<styling::Ink>,
    prefix: Option<StructuralPrefix>,
    k: int,
) -> Seq<styling::Ink> {
    match prefix {
        None => Seq::empty(),
        Some(p) => if k == 0 || p is Repeat {
            styling::coalesced(items, 0, p.parts() as int)
        } else if p.parts() > 0 {
            gap(p.cells() as int)
        } else {
            Seq::empty()
        },
    }
}

/// Clusters and cells of an optional prefix.
pub open spec fn prefix_parts(prefix: Option<StructuralPrefix>) -> int {
    match prefix {
        None => 0,
        Some(p) => p.parts() as int,
    }
}

pub open spec fn prefix_cells(prefix: Option<StructuralPrefix>) -> int {
    match prefix {
        None => 0,
        Some(p) => p.cells() as int,
    }
}

/// A display row and how many of its leading cells are synthetic indentation.
pub struct Shown {
    pub line: Strip,
    pub indent: int,
}

/// Cells left for the content of a line behind its indent and prefix.
pub open spec fn content_cells(width: int, base_indent: int, prefix: Option<StructuralPrefix>) -> nat {
    let left = width - base_indent - prefix_cells(prefix);
    if left < 1 {
        1
    } else {
        left as nat
    }
}

/// The rows in which the content of a line is laid out.
pub open spec fn content_rows(
    items: Seq<styling::Ink>,
    width: int,
    base_indent: int,
    prefix: Option<StructuralPrefix>,
) -> Seq<text_wrap::WrapRow> {
    text_wrap::wrapped(
        styled_items(items.skip(prefix_parts(prefix))),
        content_cells(width, base_indent, prefix),
    )
}

/// StyledRow `k` of a wrapped line.
pub open spec fn shown_row(
    items: Seq<styling::Ink>,
    prefix: Option<StructuralPrefix>,
    base_indent: int,
    row: text_wrap::WrapRow,
    k: int,
) -> Shown {
    let content = items.skip(prefix_parts(prefix));
    Shown {
        line: Strip::of(
            gap(base_indent) + row_lead(items, prefix, k) + gap(row.indent as int)
                + styling::coalesced(content, row.start as int, row.end as int),
        ),
        indent: if k == 0 || (prefix matches Some(p) && p is Repeat) {
            row.indent as int
        } else {
            cells::sat_add(row.indent as nat, prefix_cells(prefix) as nat) as int
        },
    }
}

/// The rows of a line whose clusters are `items`.
pub open spec fn shown_rows(
    items: Seq<styling::Ink>,
    prefix: Option<StructuralPrefix>,
    width: int,
    base_indent: int,
) -> Seq<Shown> {
    let rows = content_rows(items, width, base_indent, prefix);
    Seq::new(rows.len(), |k: int| shown_row(items, prefix, base_indent, rows[k], k))
}

/// The prefix that stays attached to a line in a container of `width` cells:
/// one that takes the whole width is ordinary content.
pub open spec fn attached_prefix(line: Strip, width: int) -> Option<StructuralPrefix> {
    match line_prefix(line) {
        Some(p) => if p.cells() < width {
            Some(p)
        } else {
            None
        },
        None => None,
    }
}

pub open spec fn lone_blank() -> Seq<Shown> {
    seq![Shown { line: Strip::blank(), indent: 0 }]
}

/// The display rows of a rendered line; `None` when its prefix has more
/// clusters than the line.
pub open spec fn wrapped_line(
    line: Strip,
    width: int,
    base: TextStyle,
    base_indent: int,
) -> Option<Seq<Shown>> {
    if width == 0 || line.text().len() == 0 {
        Some(lone_blank())
    } else {
        let items = cluster_inks(line, base);
        let prefix = attached_prefix(line, width);
        if prefix_parts(prefix) > items.len() {
            None
        } else {
            Some(shown_rows(items, prefix, width, base_indent))
        }
    }
}

/// A display row with its synthetic indentation.
#[derive(Debug)]
pub struct StyledRow {
    pub line: Line,
    pub indent: usize,
}

impl View for StyledRow {
    type V = Shown;

    open spec fn view(&self) -> Shown {
        Shown { line: self.line@, indent: self.indent as int }
    }
}

/// The values of a list of display rows.
pub open spec fn shown_of(v: Seq<StyledRow>) -> Seq<Shown> {
    v.map_values(|r: StyledRow| r@)
}

fn push_styles(styles: &mut Vec<TextStyle>, style: TextStyle, n: usize)
    ensures
        final(styles)@ == old(styles)@ + Seq::new(n as nat, |i: int| style),
{
    let mut i: usize = 0;
    proof {
        assert(styles@ =~= old(styles)@ + Seq::new(0, |i: int| style));
    }
    while i < n
        invariant
            i <= n,
            styles@ == old(styles)@ + Seq::new(i as nat, |i: int| style),
        decreases n - i,
    {
        styles.push(style);
        i += 1;
        proof {
            assert(styles@ =~= old(styles)@ + Seq::new(i as nat, |i: int| style));
        }
    }
}

proof fn lemma_char_styles_len(spans: Seq<styling::Ink>, n: int, under: TextStyle)
    requires
        0 <= n <= spans.len(),
    ensures
        char_styles(spans, n, under).len() == styling::ink_text(spans, n).len(),
    decreases n,
{
    if n > 0 {
        lemma_char_styles_len(spans, n - 1, under);
    }
}

proof fn lemma_chars_before(parts: Seq<Seq<char>>, i: int)
    requires
        0 <= i < parts.len(),
    ensures
        0 <= chars_before(parts, i),
        chars_before(parts, i) + parts[i].len() <= cells::concat_all(parts).len(),
    decreases parts.len(),
{
    lemma_chars_before_is(parts, i);
    if i < parts.len() - 1 {
        lemma_chars_before(parts.drop_last(), i);
        lemma_chars_before_prefix(parts, i);
    } else {
        lemma_chars_before_is(parts, i);
        assert(parts.take(i) =~= parts.drop_last());
    }
}

proof fn lemma_chars_before_prefix(parts: Seq<Seq<char>>, i: int)
    requires
        0 <= i < parts.len(),
    ensures
        chars_before(parts.drop_last(), i) == chars_before(parts, i),
    decreases i,
{
    if i > 0 {
        lemma_chars_before_prefix(parts, i - 1);
    }
}

proof fn lemma_chars_before_is(parts: Seq<Seq<char>>, i: int)
    requires
        0 <= i <= parts.len(),
    ensures
        chars_before(parts, i) == cells::concat_all(parts.take(i)).len(),
    decreases i,
{
    if i > 0 {
        lemma_chars_before_is(parts, i - 1);
        assert(parts.take(i).drop_last() =~= parts.take(i - 1));
    } else {
        assert(parts.take(0) =~= Seq::empty());
    }
}

/// The grapheme clusters of a line, each in the style of its first character.
fn styled_clusters(line: &Line, base: TextStyle) -> (r: Vec<Span>)
    ensures
        styling::inks(r@) == cluster_inks(line@, base),
{
    let under = base.patch(line.style);
    let content = line.plain_text();
    let mut styles: Vec<TextStyle> = Vec::new();
    let mut i: usize = 0;
    let ghost spans = line@.spans;
    while i < line.spans.len()
        invariant
            i <= line.spans@.len(),
            spans == styling::inks(line.spans@),
            styles@ == char_styles(spans, i as int, under),
        decreases line.spans@.len() - i,
    {
        proof {
            assert(spans[i as int] == line.spans@[i as int]@);
        }
        let over = under.patch(line.spans[i].style);
        let n: usize = line.spans[i].content.as_str().unicode_len();
        let ghost before = styles@;
        push_styles(&mut styles, over, n);
        proof {
            assert(styles@ =~= before + Seq::new(
                spans[i as int].text.len(),
                |k: int| under.under(spans[i as int].style),
            ));
        }
        i += 1;
    }
    let parts = cells::graphemes_of(content.as_str());
    let ghost all = text::texts(parts@);
    let ghost want = cluster_inks(line@, base);
    let mut r: Vec<Span> = Vec::new();
    let mut at: usize = 0;
    let mut k: usize = 0;
    let total: usize = styles.len();
    proof {
        assert(spans.len() == line.spans@.len());
        lemma_char_styles_len(spans, spans.len() as int, under);
        assert(all.len() == parts@.len());
        assert(styling::inks(r@) =~= want.take(0));
    }
    while k < parts.len()
        invariant
            k <= parts@.len(),
            all == text::texts(parts@),
            all.len() == parts@.len(),
            all == cells::clusters(line@.text()),
            cells::concat_all(all) == line@.text(),
            want == cluster_inks(line@, base),
            want.len() == all.len(),
            forall|j: int| 0 <= j < parts@.len() ==> (#[trigger] parts@[j])@.len() > 0,
            styles@ == char_styles(
                line@.spans,
                line@.spans.len() as int,
                base.under(line@.style),
            ),
            styles@.len() == line@.text().len(),
            total == styles@.len(),
            at == chars_before(all, k as int),
            styling::inks(r@) == want.take(k as int),
        decreases parts@.len() - k,
    {
        let ghost before = r@;
        proof {
            assert(all[k as int] == parts@[k as int]@);
            lemma_chars_before(all, k as int);
        }
        let n: usize = parts[k].as_str().unicode_len();
        r.push(Span::styled(parts[k].clone(), styles[at]));
        at = at + n;
        proof {
            assert(styling::inks(r@) =~= styling::inks(before).push(want[k as int]));
            assert(want.take(k + 1) =~= want.take(k as int).push(want[k as int]));
        }
        k += 1;
    }
    proof {
        assert(want.take(want.len() as int) =~= want);
    }
    r
}

fn measure_styled(items: &Vec<Span>, from: usize) -> (r: Vec<WrapItem>)
    requires
        from <= items@.len(),
    ensures
        r@ == styled_items(styling::inks(items@).skip(from as int)),
{
    let ghost rest = styling::inks(items@).skip(from as int);
    let ghost want = styled_items(rest);
    let mut r: Vec<WrapItem> = Vec::new();
    let mut i: usize = from;
    proof {
        assert(styling::inks(items@).len() == items@.len());
        assert(r@ =~= want.take(0));
    }
    while i < items.len()
        invariant
            from <= i <= items@.len(),
            rest == styling::inks(items@).skip(from as int),
            rest.len() == items@.len() - from,
            want == styled_items(rest),
            r@ == want.take(i - from),
        decreases items@.len() - i,
    {
        let part = items[i].content.as_str();
        let item = WrapItem {
            width: cells::width_of(part),
            breakable: !part.is_empty() && is_breakable_whitespace(part.get_char(0))
                && !is_code_style(items[i].style),
        };
        proof {
            assert(rest[i - from] == styling::inks(items@)[i as int]);
            assert(styling::inks(items@)[i as int] == items@[i as int]@);
            assert(want[i - from] == item);
            assert(want.take(i - from + 1) =~= want.take(i - from).push(item));
        }
        r.push(item);
        i += 1;
    }
    proof {
        assert(want.take(want.len() as int) =~= want);
    }
    r
}

fn push_gap(spans: &mut Vec<Span>, n: usize)
    ensures
        styling::inks(final(spans)@) == styling::inks(old(spans)@) + gap(n as int),
{
    if n > 0 {
        let ghost before = spans@;
        spans.push(Span::raw(text::repeat(' ', n)));
        proof {
            assert(styling::inks(spans@) =~= styling::inks(before) + gap(n as int));
        }
    } else {
        proof {
            assert(styling::inks(spans@) =~= styling::inks(spans@) + gap(n as int));
        }
    }
}

proof fn lemma_coalesced_skip(items: Seq<styling::Ink>, m: int, lo: int, hi: int)
    requires
        0 <= m <= items.len(),
        0 <= lo,
        hi <= items.len() - m,
    ensures
        styling::coalesced(items.skip(m), lo, hi) == styling::coalesced(items, m + lo, m + hi),
    decreases hi - lo,
{
    if lo < hi {
        lemma_coalesced_skip(items, m, lo, hi - 1);
    }
}

/// Lays out one row of a line.
fn build_row(
    items: &Vec<Span>,
    prefix: Option<StructuralPrefix>,
    base_indent: usize,
    row: text_wrap::WrapRow,
    first: bool,
    Ghost(k): Ghost<int>,
) -> (r: StyledRow)
    requires
        prefix_parts(prefix) <= items@.len(),
        row.start <= row.end <= items@.len() - prefix_parts(prefix),
        first == (k == 0),
    ensures
        r@ == shown_row(styling::inks(items@), prefix, base_indent as int, row, k),
{
    let ghost all = styling::inks(items@);
    let total: usize = items.len();
    let mut spans: Vec<Span> = Vec::new();
    proof {
        assert(all.len() == items@.len());
        assert(styling::inks(spans@) =~= Seq::empty());
    }
    push_gap(&mut spans, base_indent);
    proof {
        assert(styling::inks(spans@) =~= gap(base_indent as int));
    }
    let mut count: usize = 0;
    let mut indent: usize = row.indent;
    assert(prefix_parts(prefix) + row.end <= total);
    if let Some(p) = prefix {
        count = p.count();
        let repeats = match p {
            StructuralPrefix::Repeat { .. } => true,
            StructuralPrefix::Hang { .. } => false,
        };
        if first || repeats {
            let lead = styled_graphemes(items, 0, count);
            extend_spans(&mut spans, &lead);
        } else {
            if count > 0 {
                push_gap(&mut spans, p.width());
            }
            indent = indent.saturating_add(p.width());
        }
    }
    proof {
        assert(styling::inks(spans@) =~= gap(base_indent as int) + row_lead(all, prefix, k));
        lemma_coalesced_skip(all, count as int, row.start as int, row.end as int);
    }
    push_gap(&mut spans, row.indent);
    let body = styled_graphemes(items, count + row.start, count + row.end);
    extend_spans(&mut spans, &body);
    StyledRow { line: Line::from_spans(spans), indent }
}

/// Wraps a line given by its clusters into display rows.
fn wrap_clusters(
    items: &Vec<Span>,
    prefix: Option<StructuralPrefix>,
    width: usize,
    base_indent: usize,
) -> (r: Vec<StyledRow>)
    requires
        prefix_parts(prefix) <= items@.len(),
    ensures
        shown_of(r@) == shown_rows(
            styling::inks(items@),
            prefix,
            width as int,
            base_indent as int,
        ),
{
    let (count, taken): (usize, usize) = match prefix {
        Some(p) => (p.count(), p.width()),
        None => (0, 0),
    };
    let measured = measure_styled(items, count);
    let left: usize = width.saturating_sub(base_indent).saturating_sub(taken);
    let content: usize = if left < 1 {
        1
    } else {
        left
    };
    let rows = wrap_items(&measured, content);
    let ghost all = styling::inks(items@);
    let ghost want = shown_rows(all, prefix, width as int, base_indent as int);
    let mut r: Vec<StyledRow> = Vec::new();
    let mut k: usize = 0;
    proof {
        assert(all.len() == items@.len());
        assert(rows@ == content_rows(all, width as int, base_indent as int, prefix));
        assert(shown_of(r@) =~= want.take(0));
    }
    while k < rows.len()
        invariant
            k <= rows@.len(),
            all == styling::inks(items@),
            all.len() == items@.len(),
            measured@ == styled_items(all.skip(prefix_parts(prefix))),
            prefix_parts(prefix) <= items@.len(),
            rows@ == content_rows(all, width as int, base_indent as int, prefix),
            rows@ == text_wrap::wrapped(measured@, content as nat),
            want == shown_rows(all, prefix, width as int, base_indent as int),
            want.len() == rows@.len(),
            shown_of(r@) == want.take(k as int),
        decreases rows@.len() - k,
    {
        let ghost before = r@;
        proof {
            text_wrap::rows_cover_items(measured@, content as nat, k as int);
        }
        r.push(build_row(items, prefix, base_indent, rows[k], k == 0, Ghost(k as int)));
        proof {
            assert(shown_of(r@) =~= shown_of(before).push(want[k as int]));
            assert(want.take(k + 1) =~= want.take(k as int).push(want[k as int]));
        }
        k += 1;
    }
    proof {
        assert(want.take(want.len() as int) =~= want);
    }
    r
}

/// Wraps one rendered line into display rows, each with its synthetic
/// continuation indent. A structural prefix stays attached to the first row;
/// quote markers repeat on every row, the others hang-indent the rows behind.
/// `None` when the prefix has more clusters than the line.
pub fn wrap_styled_line_indented(
    line: &Line,
    width: usize,
    base: TextStyle,
    base_indent: usize,
) -> (r: Option<Vec<StyledRow>>)
    ensures
        r is Some == wrapped_line(line@, width as int, base, base_indent as int) is Some,
        r matches Some(rows) ==> shown_of(rows@) == wrapped_line(
            line@,
            width as int,
            base,
            base_indent as int,
        )->0,
{
    let content = line.plain_text();
    if width == 0 || content.as_str().is_empty() {
        let mut rows: Vec<StyledRow> = Vec::new();
        rows.push(StyledRow { line: Line::blank(), indent: 0 });
        proof {
            assert(shown_of(rows@) =~= lone_blank());
        }
        return Some(rows);
    }
    let items = styled_clusters(line, base);
    let prefix = match leading_structural_prefix(line) {
        Some(p) => if p.width() < width {
            Some(p)
        } else {
            None
        },
        None => None,
    };
    let count: usize = match prefix {
        Some(p) => p.count(),
        None => 0,
    };
    proof {
        assert(styling::inks(items@).len() == items@.len());
    }
    if count > items.len() {
        return None;
    }
    Some(wrap_clusters(&items, prefix, width, base_indent))
}

/// A text without its spaces.
pub open spec fn unspaced(s: Seq<char>) -> Seq<char>
    decreases s.len(),
{
    if s.len() == 0 {
        s
    } else if s[0] == ' ' {
        unspaced(s.skip(1))
    } else {
        seq![s[0]] + unspaced(s.skip(1))
    }
}

proof fn lemma_unspaced_append(a: Seq<char>, b: Seq<char>)
    ensures
        unspaced(a + b) == unspaced(a) + unspaced(b),
    decreases a.len(),
{
    if a.len() == 0 {
        assert(a + b =~= b);
    } else {
        assert((a + b).skip(1) =~= a.skip(1) + b);
        lemma_unspaced_append(a.skip(1), b);
        assert(seq![a[0]] + (unspaced(a.skip(1)) + unspaced(b)) =~= seq![a[0]] + unspaced(
            a.skip(1),
        ) + unspaced(b));
    }
}

proof fn lemma_hard_broken_unspaced(s: Seq<char>, i: int, breaks: Seq<usize>, k: int)
    requires
        0 <= i <= s.len(),
    ensures
        unspaced(hard_broken(s, i, breaks, k)) == unspaced(s.skip(i)),
    decreases s.len() - i, breaks.len() - k,
{
    if 0 <= k < breaks.len() && breaks[k] == input::byte_offset(s, i) {
        lemma_hard_broken_unspaced(s, i, breaks, k + 1);
        lemma_unspaced_append("  "@, hard_broken(s, i, breaks, k + 1));
        assert(unspaced("  "@) =~= Seq::empty()) by {
            reveal_strlit("  ");
            reveal_with_fuel(unspaced, 3);
            assert("  "@.skip(1).skip(1) =~= Seq::empty());
        }
        assert(Seq::<char>::empty() + unspaced(s.skip(i)) =~= unspaced(s.skip(i)));
    } else if i < s.len() {
        lemma_hard_broken_unspaced(s, i + 1, breaks, k);
        let one = seq![s[i]];
        lemma_unspaced_append(one, hard_broken(s, i + 1, breaks, k));
        lemma_unspaced_append(one, s.skip(i + 1));
        assert(one + s.skip(i + 1) =~= s.skip(i));
    } else {
        assert(s.skip(i) =~= Seq::empty());
    }
}

/// Hard line breaks only put spaces in: every other character of the source
/// stays, in order.
pub proof fn hard_breaks_only_insert_spaces(s: Seq<char>, breaks: Seq<usize>)
    ensures
        unspaced(hard_broken(s, 0, breaks, 0)) == unspaced(s),
{
    lemma_hard_broken_unspaced(s, 0, breaks, 0);
    assert(s.skip(0) =~= s);
}

/// A row of a wrapped line stays within the container with its indent and its
/// prefix, unless a single cluster is wider than what they leave.
pub proof fn styled_rows_fit_the_container(
    items: Seq<styling::Ink>,
    width: int,
    base_indent: int,
    prefix: Option<StructuralPrefix>,
    k: int,
)
    requires
        prefix_parts(prefix) <= items.len() <= usize::MAX,
        0 <= base_indent,
        base_indent + prefix_cells(prefix) < width,
        0 <= k < content_rows(items, width, base_indent, prefix).len(),
    ensures
        ({
            let content = styled_items(items.skip(prefix_parts(prefix)));
            let row = content_rows(items, width, base_indent, prefix)[k];
            let room = width - base_indent - prefix_cells(prefix);
            base_indent + prefix_cells(prefix) + row.indent + text_wrap::total(
                content,
                row.start as int,
                row.end as int,
            ) <= width || (row.indent == 0 && text_wrap::lone_wide_item(
                content,
                row.start as int,
                row.end as int,
                room,
            ))
        }),
{
    let content = styled_items(items.skip(prefix_parts(prefix)));
    text_wrap::rows_fit_the_container(content, content_cells(width, base_indent, prefix), k);
}

} // verus!
