use vstd::prelude::*;
use crate::fmt::{contains_text, text_contains};
use crate::messages::lines::{line_feed, split_lines, split_on, texts_of};

verus! {

/// A colour of the terminal.
#[derive(Debug, Clone, Copy, PartialEq, Eq, Structural)]
pub enum Color {
    Black,
    Red,
    Green,
    Yellow,
    Blue,
    Magenta,
    Cyan,
    White,
}

/// The texts that make a line of the script log stand out, by the colour of the
/// background that they give it.
#[derive(Debug, Clone, PartialEq, Eq, Default)]
pub struct ScriptslogColors {
    pub black: Vec<String>,
    pub red: Vec<String>,
    pub green: Vec<String>,
    pub yellow: Vec<String>,
    pub blue: Vec<String>,
    pub magenta: Vec<String>,
    pub cyan: Vec<String>,
    pub white: Vec<String>,
}

/// A text that makes a line stand out, and the colours that it gives the line.
#[derive(Debug, Clone, PartialEq, Eq)]
pub struct ScriptslogHighlightRecord {
    pub pattern: String,
    pub fg: Color,
    pub bg: Color,
}

/// What a highlight record holds.
pub struct HighlightView {
    pub pattern: Seq<char>,
    pub fg: Color,
    pub bg: Color,
}

impl View for ScriptslogHighlightRecord {
    type V = HighlightView;

    open spec fn view(&self) -> HighlightView {
        HighlightView { pattern: self.pattern@, fg: self.fg, bg: self.bg }
    }
}

/// What a list of highlight records holds.
pub open spec fn highlights_of(records: Seq<ScriptslogHighlightRecord>) -> Seq<HighlightView> {
    records.map_values(|r: ScriptslogHighlightRecord| r@)
}

/// The records of the patterns of one colour.
pub open spec fn records_for(patterns: Seq<String>, fg: Color, bg: Color) -> Seq<HighlightView> {
    patterns.map_values(|p: String| HighlightView { pattern: p@, fg, bg })
}

/// The records of all patterns: those on black first, then on red, green, yellow,
/// blue, magenta, cyan and white; the writing is white on the dark colours and black on
/// the light ones.
pub open spec fn records_of(colors: ScriptslogColors) -> Seq<HighlightView> {
    records_for(colors.black@, Color::White, Color::Black) + records_for(
        colors.red@,
        Color::White,
        Color::Red,
    ) + records_for(colors.green@, Color::Black, Color::Green) + records_for(
        colors.yellow@,
        Color::Black,
        Color::Yellow,
    ) + records_for(colors.blue@, Color::White, Color::Blue) + records_for(
        colors.magenta@,
        Color::White,
        Color::Magenta,
    ) + records_for(colors.cyan@, Color::Black, Color::Cyan) + records_for(
        colors.white@,
        Color::Black,
        Color::White,
    )
}

fn push_records(
    colored: &mut Vec<ScriptslogHighlightRecord>,
    patterns: Vec<String>,
    fg: Color,
    bg: Color,
)
    ensures
        highlights_of(final(colored)@) == highlights_of(old(colored)@) + records_for(
            patterns@,
            fg,
            bg,
        ),
{
    let ghost start = highlights_of(colored@);
    let ghost all = records_for(patterns@, fg, bg);
    let mut rest = patterns;
    let mut i: usize = 0;
    let count = rest.len();
    assert(start + all.take(0) =~= start);
    while i < count
        invariant
            i <= count,
            count == patterns@.len(),
            rest@.len() == count,
            forall|k: int| i <= k < count ==> rest@[k] == patterns@[k],
            all == records_for(patterns@, fg, bg),
            highlights_of(colored@) == start + all.take(i as int),
        decreases count - i,
    {
        let ghost before = highlights_of(colored@);
        let mut pattern = String::new();
        std::mem::swap(&mut pattern, &mut rest[i]);
        let record = ScriptslogHighlightRecord { pattern, fg, bg };
        let ghost added = record@;
        colored.push(record);
        assert(highlights_of(colored@) =~= before.push(added));
        assert(all.take(i + 1) =~= all.take(i as int).push(added));
        i += 1;
    }
    assert(all.take(i as int) =~= all);
}

pub fn scriptslog_colors_to_highlight_records(colors: ScriptslogColors) -> (colored: Vec<
    ScriptslogHighlightRecord,
>)
    ensures
        highlights_of(colored@) == records_of(colors),
{
    let mut colored: Vec<ScriptslogHighlightRecord> = Vec::new();
    assert(highlights_of(colored@) =~= Seq::<HighlightView>::empty());
    push_records(&mut colored, colors.black, Color::White, Color::Black);
    assert(highlights_of(colored@) =~= records_for(colors.black@, Color::White, Color::Black));
    push_records(&mut colored, colors.red, Color::White, Color::Red);
    push_records(&mut colored, colors.green, Color::Black, Color::Green);
    push_records(&mut colored, colors.yellow, Color::Black, Color::Yellow);
    push_records(&mut colored, colors.blue, Color::White, Color::Blue);
    push_records(&mut colored, colors.magenta, Color::White, Color::Magenta);
    push_records(&mut colored, colors.cyan, Color::Black, Color::Cyan);
    push_records(&mut colored, colors.white, Color::Black, Color::White);
    colored
}

/// A line of the script log as it is printed: in colours, or plain.
#[derive(Debug, Clone, PartialEq, Eq)]
pub struct LogLine {
    pub text: String,
    pub colors: Option<(Color, Color)>,
}

/// What a printed line holds.
pub struct LogLineView {
    pub text: Seq<char>,
    pub colors: Option<(Color, Color)>,
}

impl View for LogLine {
    type V = LogLineView;

    open spec fn view(&self) -> LogLineView {
        LogLineView { text: self.text@, colors: self.colors }
    }
}

/// What a list of printed lines holds.
pub open spec fn printed_of(lines: Seq<LogLine>) -> Seq<LogLineView> {
    lines.map_values(|line: LogLine| line@)
}

/// The colours of a line: those of the first record whose pattern occurs in it.
pub open spec fn colors_of(line: Seq<char>, highlights: Seq<HighlightView>) -> Option<
    (Color, Color),
>
    decreases highlights.len(),
{
    if highlights.len() == 0 {
        None
    } else if text_contains(line, highlights[0].pattern) {
        Some((highlights[0].fg, highlights[0].bg))
    } else {
        colors_of(line, highlights.skip(1))
    }
}

/// The lines that are printed: every line that a pattern occurs in, in that pattern's
/// colours, and the other lines plain unless they are filtered out.
pub open spec fn printed_lines(
    lines: Seq<Seq<char>>,
    highlights: Seq<HighlightView>,
    filter_non_highlighted: bool,
) -> Seq<LogLineView>
    decreases lines.len(),
{
    if lines.len() == 0 {
        Seq::empty()
    } else {
        let front = printed_lines(lines.drop_last(), highlights, filter_non_highlighted);
        let colors = colors_of(lines.last(), highlights);
        if colors is None && filter_non_highlighted {
            front
        } else {
            front.push(LogLineView { text: lines.last(), colors })
        }
    }
}

fn line_colors(line: &str, highlights: &Vec<ScriptslogHighlightRecord>) -> (colors: Option<
    (Color, Color),
>)
    ensures
        colors == colors_of(line@, highlights_of(highlights@)),
{
    let ghost all = highlights_of(highlights@);
    let mut i: usize = 0;
    assert(all.skip(0) =~= all);
    while i < highlights.len()
        invariant
            i <= highlights.len(),
            all == highlights_of(highlights@),
            colors_of(line@, all) == colors_of(line@, all.skip(i as int)),
        decreases highlights.len() - i,
    {
        assert(all.skip(i as int)[0] == highlights@[i as int]@);
        assert(all.skip(i as int).skip(1) =~= all.skip(i + 1));
        if contains_text(line, highlights[i].pattern.as_str()) {
            return Some((highlights[i].fg, highlights[i].bg));
        }
        i += 1;
    }
    None
}

/// The lines to print for a piece of the script log.
pub fn scriptslog_printer(
    text: &String,
    highlights: &Vec<ScriptslogHighlightRecord>,
    filter_non_highlighted: bool,
) -> (printed: Vec<LogLine>)
    ensures
        printed_of(printed@) == printed_lines(
            split_on(text@, line_feed()),
            highlights_of(highlights@),
            filter_non_highlighted,
        ),
{
    let lines = split_lines(text.as_str());
    let ghost all = texts_of(lines@);
    let mut printed: Vec<LogLine> = Vec::new();
    let mut rest = lines;
    let count = rest.len();
    let mut i: usize = 0;
    assert(all.take(0) =~= Seq::<Seq<char>>::empty());
    assert(printed_of(printed@) =~= Seq::<LogLineView>::empty());
    while i < count
        invariant
            i <= count,
            count == all.len(),
            rest@.len() == count,
            forall|k: int| i <= k < count ==> rest@[k]@ == all[k],
            printed_of(printed@) == printed_lines(
                all.take(i as int),
                highlights_of(highlights@),
                filter_non_highlighted,
            ),
        decreases count - i,
    {
        assert(all.take(i + 1).drop_last() =~= all.take(i as int));
        assert(all.take(i + 1).last() == all[i as int]);
        let colors = line_colors(rest[i].as_str(), highlights);
        if colors.is_some() || !filter_non_highlighted {
            let ghost before = printed_of(printed@);
            let mut line = String::new();
            std::mem::swap(&mut line, &mut rest[i]);
            let entry = LogLine { text: line, colors };
            let ghost added = entry@;
            printed.push(entry);
            assert(printed_of(printed@) =~= before.push(added));
        }
        i += 1;
    }
    assert(all.take(i as int) =~= all);
    printed
}

} // verus!
