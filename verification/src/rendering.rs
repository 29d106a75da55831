//! Markdown as `tui-markdown` renders it, in the interface's own styles.

use crate::config;
use crate::markdown;
use crate::markdown::{events_of, list_depth_fits};
use crate::styling;
use crate::styling::{Color, Line, Span, TextStyle};
use crate::text;
use vstd::prelude::*;
use vstd::string::*;

verus! {

/// `ratatui`'s style, which the style sheet hands to the renderer.
#[verifier::external_type_specification]
#[verifier::external_body]
pub struct ExSheetStyle(ratatui::style::Style);

/// A style as the renderer gives it: its colors by name, its emphasis as bits.
#[derive(Debug)]
pub struct RawStyle {
    pub fg: Option<String>,
    pub bg: Option<String>,
    pub underline: Option<String>,
    pub add: u16,
    pub sub: u16,
}

/// The value of a [`RawStyle`].
pub struct RawTone {
    pub fg: Option<Seq<char>>,
    pub bg: Option<Seq<char>>,
    pub underline: Option<Seq<char>>,
    pub add: u16,
    pub sub: u16,
}

impl View for RawStyle {
    type V = RawTone;

    open spec fn view(&self) -> RawTone {
        RawTone {
            fg: text::opt_text(self.fg),
            bg: text::opt_text(self.bg),
            underline: text::opt_text(self.underline),
            add: self.add,
            sub: self.sub,
        }
    }
}

/// A span as the renderer gives it.
#[derive(Debug)]
pub struct RawSpan {
    pub content: String,
    pub style: RawStyle,
}

/// The value of a [`RawSpan`].
pub struct RawInk {
    pub text: Seq<char>,
    pub style: RawTone,
}

impl View for RawSpan {
    type V = RawInk;

    open spec fn view(&self) -> RawInk {
        RawInk { text: self.content@, style: self.style@ }
    }
}

/// A line as the renderer gives it.
#[derive(Debug)]
pub struct RawLine {
    pub style: RawStyle,
    pub spans: Vec<RawSpan>,
}

/// The value of a [`RawLine`].
pub struct RawStrip {
    pub style: RawTone,
    pub spans: Seq<RawInk>,
}

pub open spec fn raw_inks(v: Seq<RawSpan>) -> Seq<RawInk> {
    v.map_values(|s: RawSpan| s@)
}

impl View for RawLine {
    type V = RawStrip;

    open spec fn view(&self) -> RawStrip {
        RawStrip { style: self.style@, spans: raw_inks(self.spans@) }
    }
}

pub open spec fn raw_strips(v: Seq<RawLine>) -> Seq<RawStrip> {
    v.map_values(|l: RawLine| l@)
}

/// What a style sheet says: the style of each heading by its level, from one
/// on, the other styles, and the markers.
pub struct Sheet {
    pub headings: Seq<TextStyle>,
    pub code: TextStyle,
    pub link: TextStyle,
    pub blockquote: TextStyle,
    pub heading_meta: TextStyle,
    pub metadata_block: TextStyle,
    pub heading_marker: Seq<char>,
    pub code_block_fence: Seq<char>,
}

/// What [`MarkdownStyle`] says.
pub open spec fn markdown_sheet() -> Sheet {
    Sheet {
        headings: Seq::new(6, |i: int| heading_tone((i + 1) as u8)),
        code: code_tone(),
        link: link_tone(),
        blockquote: quote_tone(),
        heading_meta: TextStyle::ink(styling::dim_color()),
        metadata_block: TextStyle::ink(styling::dim_color()),
        heading_marker: ""@,
        code_block_fence: ""@,
    }
}

/// The lines that `tui-markdown` makes of a source with a style sheet.
pub uninterp spec fn rendered_markdown(source: Seq<char>, sheet: Sheet) -> Seq<RawStrip>;

/// `tui_markdown::from_str_with_options` with [`MarkdownStyle`]; the lines are
/// a function of the source and of what that sheet says, and are named by
/// [`rendered_markdown`]. Colors are told by their names. The renderer pads
/// the number of a list item by four columns for each list around it, and
/// such a padding has to fit 16 bits.
#[verifier::external_body]
fn render(source: &str) -> (r: Vec<RawLine>)
    requires
        markdown::depth_fits(markdown::markdown_events(source@)),
    ensures
        raw_strips(r@) == rendered_markdown(source@, markdown_sheet()),
{
    let options = tui_markdown::Options::new(MarkdownStyle);
    let plain = |s: ratatui::style::Style| RawStyle {
        fg: s.fg.map(|c| c.to_string()),
        bg: s.bg.map(|c| c.to_string()),
        underline: s.underline_color.map(|c| c.to_string()),
        add: s.add_modifier.bits(),
        sub: s.sub_modifier.bits(),
    };
    let span = |s: &ratatui::text::Span| RawSpan { content: s.content.to_string(), style: plain(s.style) };
    tui_markdown::from_str_with_options(source, &options).lines.iter()
        .map(|l| RawLine { style: plain(l.style), spans: l.spans.iter().map(span).collect() })
        .collect()
}

/// The `ratatui` style whose colors have these names and whose emphasis is
/// these bits.
pub uninterp spec fn sheet_look(
    fg: Option<Seq<char>>,
    bg: Option<Seq<char>>,
    add: u16,
) -> ratatui::style::Style;

/// A `ratatui` style with colors given by name, through
/// `ratatui::style::Color::from_str`, and emphasis given as bits; named by
/// [`sheet_look`]. The style is opaque: what it holds is left unsaid.
#[verifier::external_body]
fn sheet_style(fg: Option<String>, bg: Option<String>, add: u16) -> (r: ratatui::style::Style)
    ensures
        r == sheet_look(text::opt_text(fg), text::opt_text(bg), add),
{
    ratatui::style::Style {
        fg: fg.and_then(|name| name.parse().ok()),
        bg: bg.and_then(|name| name.parse().ok()),
        add_modifier: ratatui::style::Modifier::from_bits_retain(add),
        ..ratatui::style::Style::default()
    }
}

/// The upper-case hexadecimal digits.
pub open spec fn digits() -> Seq<char> {
    seq!['0', '1', '2', '3', '4', '5', '6', '7', '8', '9', 'A', 'B', 'C', 'D', 'E', 'F']
}

fn digit(n: u8) -> (r: char)
    requires
        n < 16,
    ensures
        r == digits()[n as int],
{
    match n {
        0 => '0',
        1 => '1',
        2 => '2',
        3 => '3',
        4 => '4',
        5 => '5',
        6 => '6',
        7 => '7',
        8 => '8',
        9 => '9',
        10 => 'A',
        11 => 'B',
        12 => 'C',
        13 => 'D',
        14 => 'E',
        _ => 'F',
    }
}

/// The name of a color.
pub open spec fn color_text(c: Color) -> Seq<char> {
    match c {
        Color::Reset => "Reset"@,
        Color::Black => "Black"@,
        Color::Red => "Red"@,
        Color::Green => "Green"@,
        Color::Yellow => "Yellow"@,
        Color::Blue => "Blue"@,
        Color::Magenta => "Magenta"@,
        Color::Cyan => "Cyan"@,
        Color::Gray => "Gray"@,
        Color::DarkGray => "DarkGray"@,
        Color::LightRed => "LightRed"@,
        Color::LightGreen => "LightGreen"@,
        Color::LightYellow => "LightYellow"@,
        Color::LightBlue => "LightBlue"@,
        Color::LightMagenta => "LightMagenta"@,
        Color::LightCyan => "LightCyan"@,
        Color::White => "White"@,
        Color::Rgb(r, g, b) => seq![
            '#',
            digits()[r as int / 16],
            digits()[r as int % 16],
            digits()[g as int / 16],
            digits()[g as int % 16],
            digits()[b as int / 16],
            digits()[b as int % 16],
        ],
        Color::Indexed(n) => text::decimal(n as nat),
    }
}

/// The name of a color: a word, `#` and six hexadecimal digits, or a number.
pub fn color_name(c: Color) -> (r: String)
    ensures
        r@ == color_text(c),
{
    match c {
        Color::Reset => "Reset".to_owned(),
        Color::Black => "Black".to_owned(),
        Color::Red => "Red".to_owned(),
        Color::Green => "Green".to_owned(),
        Color::Yellow => "Yellow".to_owned(),
        Color::Blue => "Blue".to_owned(),
        Color::Magenta => "Magenta".to_owned(),
        Color::Cyan => "Cyan".to_owned(),
        Color::Gray => "Gray".to_owned(),
        Color::DarkGray => "DarkGray".to_owned(),
        Color::LightRed => "LightRed".to_owned(),
        Color::LightGreen => "LightGreen".to_owned(),
        Color::LightYellow => "LightYellow".to_owned(),
        Color::LightBlue => "LightBlue".to_owned(),
        Color::LightMagenta => "LightMagenta".to_owned(),
        Color::LightCyan => "LightCyan".to_owned(),
        Color::White => "White".to_owned(),
        Color::Rgb(r, g, b) => {
            let mut name = String::new();
            name.push('#');
            name.push(digit(r / 16));
            name.push(digit(r % 16));
            name.push(digit(g / 16));
            name.push(digit(g % 16));
            name.push(digit(b / 16));
            name.push(digit(b % 16));
            proof {
                assert(name@ =~= color_text(c));
            }
            name
        },
        Color::Indexed(n) => text::decimal_text(n as u64),
    }
}

/// The value of an upper-case hexadecimal digit.
pub open spec fn digit_value(c: char) -> Option<int> {
    if '0' <= c <= '9' {
        Some(c as int - 48)
    } else if 'A' <= c <= 'F' {
        Some(c as int - 55)
    } else {
        None
    }
}

fn value_of(c: char) -> (r: Option<u8>)
    ensures
        (match r {
            Some(v) => Some(v as int),
            None => None,
        }) == digit_value(c),
        r matches Some(v) ==> v < 16,
{
    let code: u32 = c as u32;
    if '0' <= c && c <= '9' {
        Some((code - 48) as u8)
    } else if 'A' <= c && c <= 'F' {
        Some((code - 55) as u8)
    } else {
        None
    }
}

/// The byte that two hexadecimal digits from `i` on stand for.
pub open spec fn byte_named(name: Seq<char>, i: int) -> Option<int> {
    match (digit_value(name[i]), digit_value(name[i + 1])) {
        (Some(high), Some(low)) => Some(16 * high + low),
        _ => None,
    }
}

fn byte_at(chars: &Vec<char>, i: usize) -> (r: Option<u8>)
    requires
        i + 1 < chars@.len(),
    ensures
        (match r {
            Some(v) => Some(v as int),
            None => None,
        }) == byte_named(chars@, i as int),
{
    let n: usize = chars.len();
    assert(i + 1 < n);
    match (value_of(chars[i]), value_of(chars[i + 1])) {
        (Some(high), Some(low)) => Some(16 * high + low),
        _ => None,
    }
}

/// The color of a palette number below `n` with this name.
pub open spec fn index_named(name: Seq<char>, n: int) -> Option<Color>
    decreases n,
{
    if n <= 0 {
        None
    } else if name == text::decimal((n - 1) as nat) {
        Some(Color::Indexed((n - 1) as u8))
    } else {
        index_named(name, n - 1)
    }
}

/// The color with this name, if it is the name of one.
pub open spec fn color_named(name: Seq<char>) -> Option<Color> {
    if name == "Reset"@ {
        Some(Color::Reset)
    } else if name == "Black"@ {
        Some(Color::Black)
    } else if name == "Red"@ {
        Some(Color::Red)
    } else if name == "Green"@ {
        Some(Color::Green)
    } else if name == "Yellow"@ {
        Some(Color::Yellow)
    } else if name == "Blue"@ {
        Some(Color::Blue)
    } else if name == "Magenta"@ {
        Some(Color::Magenta)
    } else if name == "Cyan"@ {
        Some(Color::Cyan)
    } else if name == "Gray"@ {
        Some(Color::Gray)
    } else if name == "DarkGray"@ {
        Some(Color::DarkGray)
    } else if name == "LightRed"@ {
        Some(Color::LightRed)
    } else if name == "LightGreen"@ {
        Some(Color::LightGreen)
    } else if name == "LightYellow"@ {
        Some(Color::LightYellow)
    } else if name == "LightBlue"@ {
        Some(Color::LightBlue)
    } else if name == "LightMagenta"@ {
        Some(Color::LightMagenta)
    } else if name == "LightCyan"@ {
        Some(Color::LightCyan)
    } else if name == "White"@ {
        Some(Color::White)
    } else if name.len() == 7 && name[0] == '#' {
        match (byte_named(name, 1), byte_named(name, 3), byte_named(name, 5)) {
            (Some(r), Some(g), Some(b)) => Some(Color::Rgb(r as u8, g as u8, b as u8)),
            _ => None,
        }
    } else {
        index_named(name, 256)
    }
}

fn find_index(name: &str) -> (r: Option<Color>)
    ensures
        r == index_named(name@, 256),
{
    let mut n: u16 = 256;
    while n > 0
        invariant
            n <= 256,
            index_named(name@, 256) == index_named(name@, n as int),
        decreases n,
    {
        n -= 1;
        let number = text::decimal_text(n as u64);
        if text::same(number.as_str(), name) {
            return Some(Color::Indexed(n as u8));
        }
    }
    None
}

/// The color with this name, if it is the name of one.
pub fn parse_color(name: &str) -> (r: Option<Color>)
    ensures
        r == color_named(name@),
{
    if text::same(name, "Reset") {
        return Some(Color::Reset);
    }
    if text::same(name, "Black") {
        return Some(Color::Black);
    }
    if text::same(name, "Red") {
        return Some(Color::Red);
    }
    if text::same(name, "Green") {
        return Some(Color::Green);
    }
    if text::same(name, "Yellow") {
        return Some(Color::Yellow);
    }
    if text::same(name, "Blue") {
        return Some(Color::Blue);
    }
    if text::same(name, "Magenta") {
        return Some(Color::Magenta);
    }
    if text::same(name, "Cyan") {
        return Some(Color::Cyan);
    }
    if text::same(name, "Gray") {
        return Some(Color::Gray);
    }
    if text::same(name, "DarkGray") {
        return Some(Color::DarkGray);
    }
    if text::same(name, "LightRed") {
        return Some(Color::LightRed);
    }
    if text::same(name, "LightGreen") {
        return Some(Color::LightGreen);
    }
    if text::same(name, "LightYellow") {
        return Some(Color::LightYellow);
    }
    if text::same(name, "LightBlue") {
        return Some(Color::LightBlue);
    }
    if text::same(name, "LightMagenta") {
        return Some(Color::LightMagenta);
    }
    if text::same(name, "LightCyan") {
        return Some(Color::LightCyan);
    }
    if text::same(name, "White") {
        return Some(Color::White);
    }
    let chars = text::chars_of(name);
    if chars.len() == 7 && chars[0] == '#' {
        return match (byte_at(&chars, 1), byte_at(&chars, 3), byte_at(&chars, 5)) {
            (Some(r), Some(g), Some(b)) => Some(Color::Rgb(r, g, b)),
            _ => None,
        };
    }
    find_index(name)
}

proof fn lemma_decimal_start(n: nat)
    ensures
        text::decimal(n).len() >= 1,
        '0' <= text::decimal(n)[0] <= '9',
    decreases n,
{
    if n >= 10 {
        lemma_decimal_start(n / 10);
    }
}

proof fn lemma_index(n: nat, m: int)
    requires
        n < m <= 256,
    ensures
        index_named(text::decimal(n), m) == Some(Color::Indexed(n as u8)),
    decreases m,
{
    if m - 1 != n {
        config::lemma_decimal_value(n);
        config::lemma_decimal_value((m - 1) as nat);
        lemma_index(n, m - 1);
    }
}

/// A color is told by its name: the name of a color is the name of no other.
pub proof fn names_stand_for_their_colors(c: Color)
    ensures
        color_named(color_text(c)) == Some(c),
{
    reveal_strlit("Reset");
    reveal_strlit("Black");
    reveal_strlit("Red");
    reveal_strlit("Green");
    reveal_strlit("Yellow");
    reveal_strlit("Blue");
    reveal_strlit("Magenta");
    reveal_strlit("Cyan");
    reveal_strlit("Gray");
    reveal_strlit("DarkGray");
    reveal_strlit("LightRed");
    reveal_strlit("LightGreen");
    reveal_strlit("LightYellow");
    reveal_strlit("LightBlue");
    reveal_strlit("LightMagenta");
    reveal_strlit("LightCyan");
    reveal_strlit("White");
    let name = color_text(c);
    match c {
        Color::Rgb(r, g, b) => {
            assert forall|k: int| 0 <= k < 16 implies digit_value(#[trigger] digits()[k]) == Some(
                k,
            ) by {}
            assert(name[0] == '#');
        },
        Color::Indexed(n) => {
            lemma_decimal_start(n as nat);
            lemma_index(n as nat, 256);
        },
        _ => {},
    }
}

/// The color that an optional name stands for.
pub open spec fn tint(name: Option<Seq<char>>) -> Option<Color> {
    match name {
        Some(n) => color_named(n),
        None => None,
    }
}

/// A rendered style as one of the interface.
pub open spec fn style_shown(raw: RawTone) -> TextStyle {
    TextStyle {
        fg: tint(raw.fg),
        bg: tint(raw.bg),
        underline_color: tint(raw.underline),
        add_modifier: raw.add,
        sub_modifier: raw.sub,
    }
}

/// A rendered span as one of the interface.
pub open spec fn ink_shown(raw: RawInk) -> styling::Ink {
    styling::Ink { text: raw.text, style: style_shown(raw.style) }
}

/// A rendered line as one of the interface.
pub open spec fn strip_shown(raw: RawStrip) -> styling::Strip {
    styling::Strip {
        style: style_shown(raw.style),
        spans: raw.spans.map_values(|s: RawInk| ink_shown(s)),
    }
}

/// The lines that a source is shown as.
pub open spec fn lines_shown(source: Seq<char>) -> Seq<styling::Strip> {
    rendered_markdown(source, markdown_sheet()).map_values(|l: RawStrip| strip_shown(l))
}

fn tint_of(name: &Option<String>) -> (r: Option<Color>)
    ensures
        r == tint(text::opt_text(*name)),
{
    match name {
        Some(n) => parse_color(n.as_str()),
        None => None,
    }
}

fn show_style(raw: &RawStyle) -> (r: TextStyle)
    ensures
        r == style_shown(raw@),
{
    TextStyle {
        fg: tint_of(&raw.fg),
        bg: tint_of(&raw.bg),
        underline_color: tint_of(&raw.underline),
        add_modifier: raw.add,
        sub_modifier: raw.sub,
    }
}

fn show_line(raw: &RawLine) -> (r: Line)
    ensures
        r@ == strip_shown(raw@),
{
    let mut spans: Vec<Span> = Vec::new();
    let mut i: usize = 0;
    let ghost want = raw@.spans.map_values(|s: RawInk| ink_shown(s));
    proof {
        assert(styling::inks(spans@) =~= want.take(0));
        assert(raw@.spans.len() == raw.spans@.len());
    }
    while i < raw.spans.len()
        invariant
            i <= raw.spans@.len(),
            raw@.spans.len() == raw.spans@.len(),
            want == raw@.spans.map_values(|s: RawInk| ink_shown(s)),
            styling::inks(spans@) == want.take(i as int),
        decreases raw.spans@.len() - i,
    {
        let ghost before = spans@;
        let span = Span {
            content: raw.spans[i].content.clone(),
            style: show_style(&raw.spans[i].style),
        };
        proof {
            assert(raw@.spans[i as int] == raw.spans@[i as int]@);
            assert(span@ == want[i as int]);
            assert(want.take(i + 1) =~= want.take(i as int).push(want[i as int]));
        }
        spans.push(span);
        proof {
            assert(styling::inks(spans@) =~= styling::inks(before).push(want[i as int]));
        }
        i += 1;
    }
    proof {
        assert(want.take(want.len() as int) =~= want);
    }
    Line { style: show_style(&raw.style), spans }
}

/// The lines that a Markdown source is shown as. `None` when a numbered item is
/// nested deeper than the renderer can lay it out.
pub fn render_markdown(source: &str) -> (r: Option<Vec<Line>>)
    ensures
        r is Some == markdown::depth_fits(markdown::markdown_events(source@)),
        r matches Some(lines) ==> styling::strips(lines@) == lines_shown(source@),
{
    let events = events_of(source);
    if !list_depth_fits(&events) {
        return None;
    }
    let raw = render(source);
    let mut lines: Vec<Line> = Vec::new();
    let mut i: usize = 0;
    let ghost want = lines_shown(source@);
    proof {
        assert(raw_strips(raw@).len() == raw@.len());
        assert(want.len() == raw@.len());
        assert(styling::strips(lines@) =~= want.take(0));
    }
    while i < raw.len()
        invariant
            i <= raw@.len(),
            want.len() == raw@.len(),
            raw_strips(raw@) == rendered_markdown(source@, markdown_sheet()),
            want == lines_shown(source@),
            styling::strips(lines@) == want.take(i as int),
        decreases raw@.len() - i,
    {
        let ghost before = lines@;
        let line = show_line(&raw[i]);
        proof {
            assert(raw_strips(raw@)[i as int] == raw@[i as int]@);
            assert(line@ == want[i as int]);
            assert(want.take(i + 1) =~= want.take(i as int).push(want[i as int]));
        }
        lines.push(line);
        proof {
            assert(styling::strips(lines@) =~= styling::strips(before).push(want[i as int]));
        }
        i += 1;
    }
    proof {
        assert(want.take(want.len() as int) =~= want);
    }
    Some(lines)
}

/// The style of a heading.
pub open spec fn heading_tone(level: u8) -> TextStyle {
    TextStyle {
        add_modifier: styling::BOLD,
        ..TextStyle::ink(
            if level == 1 {
                styling::accent_color()
            } else if level == 2 {
                Color::White
            } else {
                Color::Gray
            },
        )
    }
}

/// The style of a heading: its color tells its level.
pub fn heading_style(level: u8) -> (r: TextStyle)
    ensures
        r == heading_tone(level),
{
    let color = if level == 1 {
        styling::accent()
    } else if level == 2 {
        Color::White
    } else {
        Color::Gray
    };
    TextStyle { add_modifier: styling::BOLD, ..TextStyle::fg(color) }
}

/// The style of code.
pub open spec fn code_tone() -> TextStyle {
    TextStyle { bg: Some(styling::panel_color()), ..TextStyle::ink(Color::LightCyan) }
}

/// The style of a link.
pub open spec fn link_tone() -> TextStyle {
    TextStyle { add_modifier: styling::UNDERLINED, ..TextStyle::ink(styling::accent_color()) }
}

/// The style of a quotation.
pub open spec fn quote_tone() -> TextStyle {
    TextStyle { add_modifier: styling::ITALIC, ..TextStyle::ink(styling::dim_color()) }
}

/// The style of code.
pub fn code_style() -> (r: TextStyle)
    ensures
        r == code_tone(),
        markdown::is_code(r),
{
    TextStyle { bg: Some(styling::panel()), ..TextStyle::fg(Color::LightCyan) }
}

/// The style of a link.
pub fn link_style() -> (r: TextStyle)
    ensures
        r == link_tone(),
{
    TextStyle { add_modifier: styling::UNDERLINED, ..TextStyle::fg(styling::accent()) }
}

/// The style of a quotation.
pub fn quote_style() -> (r: TextStyle)
    ensures
        r == quote_tone(),
{
    TextStyle { add_modifier: styling::ITALIC, ..TextStyle::fg(styling::dim()) }
}

/// The name of an optional color.
pub open spec fn tint_text(color: Option<Color>) -> Option<Seq<char>> {
    match color {
        Some(c) => Some(color_text(c)),
        None => None,
    }
}

/// The `ratatui` style with the colors and the added emphasis of a style.
pub open spec fn on_sheet(style: TextStyle) -> ratatui::style::Style {
    sheet_look(tint_text(style.fg), tint_text(style.bg), style.add_modifier)
}

/// A style for the renderer: its colors and the emphasis it adds.
fn for_sheet(style: TextStyle) -> (r: ratatui::style::Style)
    ensures
        r == on_sheet(style),
{
    let fg = match style.fg {
        Some(color) => Some(color_name(color)),
        None => None,
    };
    let bg = match style.bg {
        Some(color) => Some(color_name(color)),
        None => None,
    };
    sheet_style(fg, bg, style.add_modifier)
}

/// The style sheet of rendered Markdown. Headings and code blocks are told by
/// their styles, without markers.
#[derive(Clone, Copy, Debug)]
pub struct MarkdownStyle;

impl tui_markdown::StyleSheet for MarkdownStyle {
    fn heading(&self, level: u8) -> (r: ratatui::style::Style)
        ensures
            r == on_sheet(heading_tone(level)),
    {
        for_sheet(heading_style(level))
    }

    fn code(&self) -> (r: ratatui::style::Style)
        ensures
            r == on_sheet(markdown_sheet().code),
    {
        for_sheet(code_style())
    }

    fn link(&self) -> (r: ratatui::style::Style)
        ensures
            r == on_sheet(markdown_sheet().link),
    {
        for_sheet(link_style())
    }

    fn blockquote(&self) -> (r: ratatui::style::Style)
        ensures
            r == on_sheet(markdown_sheet().blockquote),
    {
        for_sheet(quote_style())
    }

    fn heading_meta(&self) -> (r: ratatui::style::Style)
        ensures
            r == on_sheet(markdown_sheet().heading_meta),
    {
        for_sheet(TextStyle::fg(styling::dim()))
    }

    fn metadata_block(&self) -> (r: ratatui::style::Style)
        ensures
            r == on_sheet(markdown_sheet().metadata_block),
    {
        for_sheet(TextStyle::fg(styling::dim()))
    }

    fn heading_marker(&self, _level: u8) -> (r: &str)
        ensures
            r@ == markdown_sheet().heading_marker,
    {
        ""
    }

    fn code_block_fence(&self) -> (r: &str)
        ensures
            r@ == markdown_sheet().code_block_fence,
    {
        ""
    }
}

} // verus!
