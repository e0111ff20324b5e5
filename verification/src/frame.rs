//! Frames of text for a terminal.
use crate::editor::{self, clip};
use crate::text;
use vstd::prelude::*;
use vstd::string::*;

verus! {

/// The smallest terminal that a screen is drawn on.
pub const MIN_WIDTH: usize = 30;

pub const MIN_HEIGHT: usize = 10;

#[derive(Clone, Copy, Debug, PartialEq, Eq, Structural, Default)]
pub enum Style {
    #[default]
    Normal,
    Muted,
    Accent,
    Error,
    Strong,
}

#[derive(Debug, PartialEq, Eq)]
pub struct Line {
    pub text: String,
    pub style: Style,
}

/// A screen: its lines, and the footer below them.
#[derive(Debug, PartialEq, Eq)]
pub struct Screen {
    pub lines: Vec<Line>,
    pub footer: String,
}

#[verifier::ext_equal]
pub struct LineView {
    pub text: Seq<char>,
    pub style: Style,
}

#[verifier::ext_equal]
pub struct ScreenView {
    pub lines: Seq<LineView>,
    pub footer: Seq<char>,
}

impl View for Line {
    type V = LineView;

    open spec fn view(&self) -> LineView {
        LineView { text: self.text@, style: self.style }
    }
}

pub open spec fn line_views(lines: Seq<Line>) -> Seq<LineView> {
    lines.map_values(|line: Line| line@)
}

impl View for Screen {
    type V = ScreenView;

    open spec fn view(&self) -> ScreenView {
        ScreenView { lines: line_views(self.lines@), footer: self.footer@ }
    }
}

impl Line {
    pub fn new(text: &str, style: Style) -> (r: Line)
        ensures
            r@ == (LineView { text: text@, style }),
    {
        Line { text: text::text(text), style }
    }
}

/// One more line.
pub fn push_line(lines: &mut Vec<Line>, text: &str, style: Style)
    ensures
        line_views(final(lines)@) == line_views(old(lines)@).push(LineView { text: text@, style }),
{
    let ghost was = line_views(lines@);
    let line: Line = Line::new(text, style);
    lines.push(line);
    assert(line_views(lines@) =~= was.push(line@));
}

pub open spec fn spaces(n: nat) -> Seq<char> {
    Seq::new(n, |i: int| ' ')
}

/// What switches the terminal to a style.
pub open spec fn code(style: Style, color: bool) -> Seq<char> {
    if color {
        match style {
            Style::Normal => "\x1b[0m"@,
            Style::Muted => "\x1b[90m"@,
            Style::Accent => "\x1b[1;36m"@,
            Style::Error => "\x1b[31m"@,
            Style::Strong => "\x1b[1m"@,
        }
    } else {
        ""@
    }
}

pub open spec fn margin(width: int) -> int {
    if width >= 50 {
        2
    } else {
        1
    }
}

pub open spec fn minus(a: int, b: int) -> int {
    if a > b {
        a - b
    } else {
        0
    }
}

/// The name of the program on the left, and its version on the right.
pub open spec fn header(width: int, version: Seq<char>) -> Seq<char> {
    "adb-input"@ + spaces(minus(width, 2 * margin(width) + 11 + version.len()) as nat) + "v"@
        + version
}

/// What stands in row `y` of a screen.
pub open spec fn content(
    screen: ScreenView,
    width: int,
    height: int,
    version: Seq<char>,
    y: int,
) -> LineView {
    if y == 1 {
        LineView { text: header(width, version), style: Style::Strong }
    } else if y == height - 2 {
        LineView { text: screen.footer, style: Style::Muted }
    } else if 3 <= y < height - 3 && y - 3 < screen.lines.len() {
        screen.lines[y - 3]
    } else {
        LineView { text: seq![], style: Style::Normal }
    }
}

pub open spec fn row_end(height: int, y: int) -> Seq<char> {
    if y + 1 < height {
        "\r\n"@
    } else {
        seq![]
    }
}

/// Row `y` of a screen: cleared, and its content within the margins.
pub open spec fn row(
    screen: ScreenView,
    width: int,
    height: int,
    color: bool,
    version: Seq<char>,
    y: int,
) -> Seq<char> {
    let line = content(screen, width, height, version, y);
    "\x1b[0m\x1b[2K"@ + spaces(margin(width) as nat) + code(line.style, color) + editor::clipped(
        line.text,
        minus(width, margin(width) * 2 + 1),
    ) + row_end(height, y)
}

/// Row `y` of a terminal that is too small.
pub open spec fn small_row(width: int, height: int, y: int) -> Seq<char> {
    "\x1b[0m\x1b[2K"@ + (if y == 1 {
        editor::clipped("Resize terminal (minimum 30 x 10)"@, minus(width, 1))
    } else if y == 3 {
        editor::clipped("Esc to go back"@, minus(width, 1))
    } else {
        seq![]
    }) + row_end(height, y)
}

pub open spec fn rows(
    screen: ScreenView,
    width: int,
    height: int,
    color: bool,
    version: Seq<char>,
    n: nat,
) -> Seq<char>
    decreases n,
{
    if n == 0 {
        seq![]
    } else {
        rows(screen, width, height, color, version, (n - 1) as nat) + (if width < MIN_WIDTH
            || height < MIN_HEIGHT {
            small_row(width, height, n - 1)
        } else {
            row(screen, width, height, color, version, n - 1)
        })
    }
}

/// A whole frame: every row from the top, and no style left on.
pub open spec fn drawn(
    screen: ScreenView,
    width: int,
    height: int,
    color: bool,
    version: Seq<char>,
) -> Seq<char> {
    "\x1b[H"@ + rows(screen, width, height, color, version, height as nat) + "\x1b[0m"@
}

fn blanks(n: usize) -> (r: String)
    ensures
        r@ == spaces(n as nat),
{
    let mut out: String = String::new();
    let mut i: usize = 0;
    while i < n
        invariant
            i <= n,
            out@ =~= spaces(i as nat),
        decreases n - i,
    {
        out.push(' ');
        i = i + 1;
    }
    out
}

fn style_code(style: Style, color: bool) -> (r: &'static str)
    ensures
        r@ == code(style, color),
{
    if color {
        match style {
            Style::Normal => "\x1b[0m",
            Style::Muted => "\x1b[90m",
            Style::Accent => "\x1b[1;36m",
            Style::Error => "\x1b[31m",
            Style::Strong => "\x1b[1m",
        }
    } else {
        ""
    }
}

fn header_text(width: usize, margin: usize, version: &str) -> (r: String)
    requires
        margin == self::margin(width as int),
    ensures
        r@ == header(width as int, version@),
{
    let mut out: String = text::text("adb-input");
    let used: usize = version.unicode_len().saturating_add(2 * margin + 11);
    let gap: String = blanks(
        if width > used {
            width - used
        } else {
            0
        },
    );
    out.append(gap.as_str());
    out.append("v");
    out.append(version);
    out
}

fn end_row(out: &mut String, height: usize, y: usize)
    requires
        y < height,
    ensures
        final(out)@ == old(out)@ + row_end(height as int, y as int),
{
    if y + 1 < height {
        out.append("\r\n");
    }
    assert(out@ =~= old(out)@ + row_end(height as int, y as int));
}

fn push_small_row(out: &mut String, width: usize, height: usize, y: usize)
    requires
        y < height,
    ensures
        final(out)@ == old(out)@ + small_row(width as int, height as int, y as int),
{
    let room: usize = if width > 1 {
        width - 1
    } else {
        0
    };
    let ghost was = out@;
    out.append("\x1b[0m\x1b[2K");
    if y == 1 {
        out.append(clip("Resize terminal (minimum 30 x 10)", room).as_str());
    }
    if y == 3 {
        out.append(clip("Esc to go back", room).as_str());
    }
    end_row(out, height, y);
    assert(out@ =~= was + small_row(width as int, height as int, y as int));
}

fn push_row(
    out: &mut String,
    screen: &Screen,
    width: usize,
    height: usize,
    color: bool,
    version: &str,
    y: usize,
)
    requires
        y < height,
        width >= MIN_WIDTH,
        height >= MIN_HEIGHT,
    ensures
        final(out)@ == old(out)@ + row(
            screen@,
            width as int,
            height as int,
            color,
            version@,
            y as int,
        ),
{
    let ghost was = out@;
    let margin: usize = if width >= 50 {
        2
    } else {
        1
    };
    let ghost line = content(screen@, width as int, height as int, version@, y as int);
    let (text, style): (String, Style) = if y == 1 {
        (header_text(width, margin, version), Style::Strong)
    } else if y == height - 2 {
        (text::text(screen.footer.as_str()), Style::Muted)
    } else if y >= 3 && y < height - 3 && y - 3 < screen.lines.len() {
        let found: &Line = &screen.lines[y - 3];
        assert(line == found@);
        (text::text(found.text.as_str()), found.style)
    } else {
        (String::new(), Style::Normal)
    };
    assert(text@ =~= line.text && style == line.style);
    out.append("\x1b[0m\x1b[2K");
    out.append(blanks(margin).as_str());
    out.append(style_code(style, color));
    out.append(clip(text.as_str(), width - (margin * 2 + 1)).as_str());
    end_row(out, height, y);
    assert(out@ =~= was + row(screen@, width as int, height as int, color, version@, y as int));
}

/// The frame that shows a screen on a terminal of this size.
pub fn draw(screen: &Screen, width: usize, height: usize, color: bool, version: &str) -> (r: String)
    ensures
        r@ == drawn(screen@, width as int, height as int, color, version@),
{
    let mut out: String = text::text("\x1b[H");
    let mut y: usize = 0;
    let small: bool = width < MIN_WIDTH || height < MIN_HEIGHT;
    assert(out@ =~= "\x1b[H"@ + rows(screen@, width as int, height as int, color, version@, 0));
    while y < height
        invariant
            y <= height,
                small == (width < MIN_WIDTH || height < MIN_HEIGHT),
            out@ == "\x1b[H"@ + rows(
                screen@,
                width as int,
                height as int,
                color,
                version@,
                y as nat,
            ),
        decreases height - y,
    {
        if small {
            push_small_row(&mut out, width, height, y);
        } else {
            push_row(&mut out, screen, width, height, color, version, y);
        }
        proof {
            assert(out@ =~= "\x1b[H"@ + rows(
                screen@,
                width as int,
                height as int,
                color,
                version@,
                (y + 1) as nat,
            ));
        }
        y = y + 1;
    }
    out.append("\x1b[0m");
    out
}

/// Without colour, the frame of a screen does not depend on the styles of its
/// lines.
pub proof fn law_monochrome_ignores_styles(
    a: ScreenView,
    b: ScreenView,
    width: int,
    height: int,
    version: Seq<char>,
    n: nat,
)
    requires
        a.footer == b.footer,
        a.lines.len() == b.lines.len(),
        forall|i: int| 0 <= i < a.lines.len() ==> (#[trigger] a.lines[i]).text == b.lines[i].text,
    ensures
        rows(a, width, height, false, version, n) == rows(b, width, height, false, version, n),
    decreases n,
{
    if n > 0 {
        law_monochrome_ignores_styles(a, b, width, height, version, (n - 1) as nat);
        let y = n - 1;
        assert(content(a, width, height, version, y).text == content(
            b,
            width,
            height,
            version,
            y,
        ).text) by {
            if 3 <= y < height - 3 && y - 3 < a.lines.len() {
                assert(a.lines[y - 3].text == b.lines[y - 3].text);
            }
        }
    }
}

/// Whether a frame is written: only where it differs from the one written last.
pub fn redraws(last: &str, frame: &str) -> (r: bool)
    ensures
        r == (last@ != frame@),
{
    !text::same(last, frame)
}

/// Whether frames are drawn in color: not where that is turned off, nor on a
/// terminal that is called dumb.
pub fn colored(no_color: bool, term: &str) -> (r: bool)
    ensures
        r == takes_color(no_color, term@),
        r == (!no_color && term@ != "dumb"@),
{
    !no_color && !text::same(term, "dumb")
}

/// The columns and rows of a terminal. One that does not tell has a usual size.
pub fn terminal_size(reported: Option<(u16, u16)>) -> (r: (usize, usize))
    ensures
        r == size_of(reported),
        r == (match reported {
            Some((columns, rows)) if columns > 0 && rows > 0 => (columns as usize, rows as usize),
            _ => (80usize, 24usize),
        }),
{
    match reported {
        Some((columns, rows)) => if columns > 0 && rows > 0 {
            (columns as usize, rows as usize)
        } else {
            (80, 24)
        },
        None => (80, 24),
    }
}

/// The row that is drawn after `y` others holds the screen's line that belongs there: the
/// program's name and version in the second row, the keys in the last row but one, and the
/// lines between them from the fourth row on. Each is cut to the width, less a margin on
/// both sides.
pub proof fn law_lines_stand_in_their_rows(
    screen: ScreenView,
    width: int,
    height: int,
    version: Seq<char>,
    y: int,
)
    requires
        width >= 30,
        height >= 10,
        0 <= y < height,
    ensures
        ({
            let before = rows(screen, width, height, false, version, y as nat);
            let after = rows(screen, width, height, false, version, (y + 1) as nat);
            let room = if width >= 50 {
                width - 5
            } else {
                width - 3
            };
            let edge = if width >= 50 {
                "\x1b[0m\x1b[2K"@ + seq![' ', ' ']
            } else {
                "\x1b[0m\x1b[2K"@ + seq![' ']
            };
            let end = if y == height - 1 {
                Seq::<char>::empty()
            } else {
                seq!['\r', '\n']
            };
            let shown = if y == height - 2 {
                screen.footer
            } else if y >= 3 && y <= height - 4 && y - 3 < screen.lines.len() {
                screen.lines[y - 3].text
            } else {
                Seq::<char>::empty()
            };
            y != 1 ==> after == before + edge + editor::clipped(shown, room) + end
        }),
{
    reveal_strlit("\r\n");
    reveal_strlit("");
    reveal_strlit("\x1b[0m\x1b[2K");
    let line = content(screen, width, height, version, y);
    let edge = if width >= 50 {
        "\x1b[0m\x1b[2K"@ + seq![' ', ' ']
    } else {
        "\x1b[0m\x1b[2K"@ + seq![' ']
    };
    assert("\x1b[0m\x1b[2K"@ + spaces(margin(width) as nat) =~= edge);
    assert(row_end(height, y) =~= if y == height - 1 {
        Seq::<char>::empty()
    } else {
        seq!['\r', '\n']
    });
    let text = editor::clipped(line.text, minus(width, margin(width) * 2 + 1));
    let before = rows(screen, width, height, false, version, y as nat);
    assert(rows(screen, width, height, false, version, (y + 1) as nat) =~= before + edge + text
        + row_end(height, y));
}

/// The first line shows the program's name at its left and the version at its right, and
/// fills the width, where there is room for both.
pub proof fn law_header_shows_name_and_version(width: int, version: Seq<char>)
    requires
        width >= 30,
        version.len() <= 10,
    ensures
        ({
            let s = header(width, version);
            let n = version.len();
            &&& s.take(9) == seq!['a', 'd', 'b', '-', 'i', 'n', 'p', 'u', 't']
            &&& s.skip(s.len() - n) == version
            &&& s[s.len() - n - 1] == 'v'
            &&& forall|i: int| 9 <= i < s.len() - n - 1 ==> #[trigger] s[i] == ' '
            &&& s.len() == (if width >= 50 {
                width - 5
            } else {
                width - 3
            })
        }),
{
    reveal_strlit("adb-input");
    reveal_strlit("v");
    let s = header(width, version);
    assert(s.take(9) =~= seq!['a', 'd', 'b', '-', 'i', 'n', 'p', 'u', 't']);
    assert(s.skip(s.len() - version.len()) =~= version);
}

/// Where the terminal is too small, nothing of the screen is drawn, only that it is.
pub proof fn law_small_terminals_are_told(
    a: ScreenView,
    b: ScreenView,
    width: int,
    height: int,
    color: bool,
    version: Seq<char>,
    n: nat,
)
    requires
        width < 30 || height < 10,
    ensures
        rows(a, width, height, color, version, n) == rows(b, width, height, color, version, n),
        rows(a, width, height, color, version, 2) == rows(
            a,
            width,
            height,
            color,
            version,
            1,
        ) + ("\x1b[0m\x1b[2K"@ + editor::clipped(
            "Resize terminal (minimum 30 x 10)"@,
            if width > 1 {
                width - 1
            } else {
                0
            },
        ) + (if height > 2 {
            "\r\n"@
        } else {
            Seq::<char>::empty()
        })),
    decreases n,
{
    if n > 0 {
        law_small_terminals_are_told(a, b, width, height, color, version, (n - 1) as nat);
    }
}

/// Errors are red, what is secondary is grey, and what is chosen is bright.
pub proof fn law_styles_have_their_colors()
    ensures
        code(Style::Error, true) == "\x1b[31m"@,
        code(Style::Muted, true) == "\x1b[90m"@,
        code(Style::Accent, true) == "\x1b[1;36m"@,
        code(Style::Strong, true) == "\x1b[1m"@,
        code(Style::Normal, true) == "\x1b[0m"@,
{
}

/// Whether a terminal is drawn in color.
pub open spec fn takes_color(no_color: bool, term: Seq<char>) -> bool {
    !no_color && term != "dumb"@
}

/// The columns and rows to draw in, where they are known and where they are not.
pub open spec fn size_of(reported: Option<(u16, u16)>) -> (usize, usize) {
    match reported {
        Some((columns, rows)) if columns > 0 && rows > 0 => (columns as usize, rows as usize),
        _ => (80usize, 24usize),
    }
}

/// Color is used unless it is not wanted or the terminal has none.
pub proof fn law_color_can_be_refused(no_color: bool, term: Seq<char>)
    ensures
        takes_color(true, term) == false,
        takes_color(no_color, seq!['d', 'u', 'm', 'b']) == false,
        term != seq!['d', 'u', 'm', 'b'] ==> takes_color(false, term),
{
    reveal_strlit("dumb");
    assert("dumb"@ =~= seq!['d', 'u', 'm', 'b']);
}

/// A size is taken as reported, columns first; where one of the two is nothing, or nothing
/// was reported, it is 80 by 24.
pub proof fn law_sizes_are_taken_as_reported(columns: u16, rows: u16)
    ensures
        columns > 0 && rows > 0 ==> size_of(Some((columns, rows))).0 == columns && size_of(
            Some((columns, rows)),
        ).1 == rows,
        columns == 0 || rows == 0 ==> size_of(Some((columns, rows))) == (80usize, 24usize),
        size_of(None) == (80usize, 24usize),
{
}

} // verus!
