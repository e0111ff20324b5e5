//! Screens and menus.
use crate::adb::{DeviceInfo, InfoView};
use crate::desktop::Mode;
use crate::frame::{self, push_line, Line, LineView, Screen, ScreenView, Style};
use crate::roster::{self, caption, is_on};
use crate::terminal::{Key, KeyView};
use crate::text;
use vstd::prelude::*;
use vstd::string::*;

verus! {

pub open spec fn plain_line(text: Seq<char>, style: Style) -> LineView {
    LineView { text, style }
}

/// A title, a message, and a footer.
pub open spec fn message_screen(title: Seq<char>, message: Seq<char>, footer: Seq<char>) -> ScreenView {
    ScreenView {
        lines: seq![
            plain_line(title, Style::Strong),
            plain_line(""@, Style::Normal),
            plain_line(message, Style::Muted),
        ],
        footer,
    }
}

pub fn screen(title: &str, message: &str, footer: &str) -> (r: Screen)
    ensures
        r@ == message_screen(title@, message@, footer@),
{
    let mut lines: Vec<Line> = Vec::new();
    push_line(&mut lines, title, Style::Strong);
    push_line(&mut lines, "", Style::Normal);
    push_line(&mut lines, message, Style::Muted);
    let r = Screen { lines, footer: text::text(footer) };
    assert(r@ =~= message_screen(title@, message@, footer@));
    r
}

pub open spec fn glyph(elapsed_ms: int) -> Seq<char> {
    let turn = (elapsed_ms / 120) % 4;
    if turn == 0 {
        "-"@
    } else if turn == 1 {
        "\\"@
    } else if turn == 2 {
        "|"@
    } else {
        "/"@
    }
}

/// What is shown while something is being done.
pub fn working(title: &str, elapsed_ms: u64) -> (r: Screen)
    ensures
        r@ == message_screen(
            title@,
            glyph(elapsed_ms as int) + " Working..."@,
            "Please wait"@,
        ),
{
    let turn: u64 = (elapsed_ms / 120) % 4;
    let mut message: String = text::text(
        if turn == 0 {
            "-"
        } else if turn == 1 {
            "\\"
        } else if turn == 2 {
            "|"
        } else {
            "/"
        },
    );
    message.append(" Working...");
    screen(title, message.as_str(), "Please wait")
}

/// The lines that describe the chosen device.
pub open spec fn device_lines(device: Option<InfoView>) -> Seq<LineView> {
    match device {
        Some(device) => seq![
            plain_line(
                (if roster::on(device) {
                    "*"@
                } else {
                    "!"@
                }) + " "@ + roster::caption_of(device),
                Style::Strong,
            ),
            plain_line(
                "  "@ + device.serial + "  /  "@ + (if roster::on(device) {
                    "Connected"@
                } else {
                    device.state
                }),
                Style::Muted,
            ),
            plain_line(""@, Style::Normal),
        ],
        None => seq![
            plain_line("No device connected"@, Style::Muted),
            plain_line(""@, Style::Normal),
        ],
    }
}

/// The title, and the chosen device where there is room for it.
pub open spec fn menu_head(title: Seq<char>, device: Option<InfoView>, rows: int) -> Seq<LineView> {
    if rows >= 9 {
        seq![plain_line(title, Style::Muted)] + device_lines(device)
    } else {
        seq![plain_line(title, Style::Muted)]
    }
}

pub open spec fn item_line(items: Seq<Seq<char>>, selected: int, i: int) -> LineView {
    if i == selected {
        plain_line("> "@ + items[i], Style::Accent)
    } else {
        plain_line("  "@ + items[i], Style::Normal)
    }
}

pub open spec fn notice_lines(notice: Seq<char>, error: bool, rows: int) -> Seq<LineView> {
    if notice.len() > 0 && rows >= 8 {
        seq![
            plain_line(""@, Style::Normal),
            plain_line(
                notice,
                if error {
                    Style::Error
                } else {
                    Style::Muted
                },
            ),
        ]
    } else {
        seq![]
    }
}

/// How many items there is room for, one at least.
pub open spec fn item_count(head: int, notice: int, rows: int) -> int {
    if rows > head + notice + 1 {
        rows - head - notice
    } else {
        1
    }
}

/// The first item that is shown, so that the selected one is.
pub open spec fn first_item(selected: int, count: int) -> int {
    frame::minus(selected, count - 1)
}

/// The lines of a menu on a terminal of this height.
pub open spec fn menu_lines(
    title: Seq<char>,
    device: Option<InfoView>,
    items: Seq<Seq<char>>,
    selected: int,
    notice: Seq<char>,
    error: bool,
    height: int,
) -> Seq<LineView> {
    let rows = frame::minus(height, 6);
    let head = menu_head(title, device, rows);
    let tail = notice_lines(notice, error, rows);
    let count = item_count(head.len() as int, tail.len() as int, rows);
    let start = first_item(selected, count);
    let shown = if start >= items.len() {
        0
    } else if start + count <= items.len() {
        count
    } else {
        items.len() - start
    };
    head + Seq::new(shown as nat, |k: int| item_line(items, selected, start + k)) + tail
}

pub open spec fn menu_footer(width: int) -> Seq<char> {
    if width < 50 {
        "Up/Down  Enter  Esc"@
    } else {
        "Up/Down Select   Enter Continue   Esc Back"@
    }
}

/// A menu on a terminal of this size.
pub open spec fn menu_screen(
    title: Seq<char>,
    device: Option<InfoView>,
    items: Seq<Seq<char>>,
    selected: int,
    notice: Seq<char>,
    error: bool,
    width: int,
    height: int,
) -> ScreenView {
    ScreenView {
        lines: menu_lines(title, device, items, selected, notice, error, height),
        footer: menu_footer(width),
    }
}

pub open spec fn texts(items: Seq<String>) -> Seq<Seq<char>> {
    items.map_values(|item: String| item@)
}

fn push_device(lines: &mut Vec<Line>, device: Option<&DeviceInfo>)
    ensures
        frame::line_views(final(lines)@) == frame::line_views(old(lines)@) + device_lines(
            match device {
                Some(device) => Some(device@),
                None => None,
            },
        ),
{
    let ghost was = frame::line_views(lines@);
    match device {
        Some(device) => {
            let online: bool = is_on(device);
            let mut name: String = text::text(
                if online {
                    "*"
                } else {
                    "!"
                },
            );
            name.append(" ");
            name.append(caption(device).as_str());
            push_line(lines, name.as_str(), Style::Strong);
            let mut detail: String = text::text("  ");
            detail.append(device.serial.as_str());
            detail.append("  /  ");
            detail.append(
                if online {
                    "Connected"
                } else {
                    device.state.as_str()
                },
            );
            push_line(lines, detail.as_str(), Style::Muted);
        },
        None => {
            push_line(lines, "No device connected", Style::Muted);
        },
    }
    push_line(lines, "", Style::Normal);
    assert(frame::line_views(lines@) =~= was + device_lines(
        match device {
            Some(device) => Some(device@),
            None => None,
        },
    ));
}

/// A menu on a terminal of this size: a title, the chosen device, the items, and a
/// notice.
#[verifier::rlimit(40)]
#[verifier::spinoff_prover]
pub fn menu(
    title: &str,
    device: Option<&DeviceInfo>,
    items: &Vec<String>,
    selected: usize,
    notice: &str,
    notice_error: bool,
    width: usize,
    height: usize,
) -> (r: Screen)
    ensures
        r@ == menu_screen(
            title@,
            match device {
                Some(device) => Some(device@),
                None => None,
            },
            texts(items@),
            selected as int,
            notice@,
            notice_error,
            width as int,
            height as int,
        ),
{
    let ghost chosen = match device {
        Some(device) => Some(device@),
        None => None,
    };
    let rows: usize = if height > 6 {
        height - 6
    } else {
        0
    };
    let ghost head = menu_head(title@, chosen, rows as int);
    let ghost tail = notice_lines(notice@, notice_error, rows as int);
    let mut lines: Vec<Line> = Vec::new();
    push_line(&mut lines, title, Style::Muted);
    assert(frame::line_views(lines@) =~= seq![plain_line(title@, Style::Muted)]);
    if rows >= 9 {
        push_device(&mut lines, device);
    }
    assert(frame::line_views(lines@) == head);
    let reserve: usize = if !notice.is_empty() && rows >= 8 {
        2
    } else {
        0
    };
    let used: usize = lines.len() + reserve;
    let count: usize = if rows > used + 1 {
        rows - used
    } else {
        1
    };
    let start: usize = if selected > count - 1 {
        selected - (count - 1)
    } else {
        0
    };
    let ghost all = texts(items@);
    let len: usize = items.len();
    let mut i: usize = start;
    let mut left: usize = count;
    while left > 0 && i < len
        invariant
            left <= count,
            start <= i,
            i <= len || i == start,
            i == start + (count - left),
            len == items@.len(),
            all == texts(items@),
            frame::line_views(lines@) =~= head + Seq::new(
                (i - start) as nat,
                |k: int| item_line(all, selected as int, start + k),
            ),
        decreases left,
    {
        let here: bool = i == selected;
        let mut text: String = text::text(
            if here {
                "> "
            } else {
                "  "
            },
        );
        text.append(items[i].as_str());
        push_line(
            &mut lines,
            text.as_str(),
            if here {
                Style::Accent
            } else {
                Style::Normal
            },
        );
        i = i + 1;
        left = left - 1;
    }
    let ghost body = frame::line_views(lines@);
    if reserve > 0 {
        push_line(&mut lines, "", Style::Normal);
        push_line(
            &mut lines,
            notice,
            if notice_error {
                Style::Error
            } else {
                Style::Muted
            },
        );
    }
    assert(frame::line_views(lines@) =~= body + tail);
    Screen {
        lines,
        footer: text::text(
            if width < 50 {
                "Up/Down  Enter  Esc"
            } else {
                "Up/Down Select   Enter Continue   Esc Back"
            },
        ),
    }
}

/// What a key does to a selection.
#[derive(Clone, Copy, Debug, PartialEq, Eq, Structural)]
pub enum Choice {
    /// This item is selected.
    Stay(usize),
    Picked(usize),
    Back,
}

/// What a key does to the selection of one of `count` items.
pub open spec fn chosen(selected: usize, count: int, key: Option<KeyView>) -> Choice {
    match key {
        Some(KeyView::Up) => Choice::Stay(frame::minus(selected as int, 1) as usize),
        Some(KeyView::Char(c)) => if c == 'k' {
            Choice::Stay(frame::minus(selected as int, 1) as usize)
        } else if c == 'j' {
            Choice::Stay(below(selected, count))
        } else {
            Choice::Stay(selected)
        },
        Some(KeyView::Down) => Choice::Stay(below(selected, count)),
        Some(KeyView::Enter) => if count > 0 {
            Choice::Picked(selected)
        } else {
            Choice::Stay(selected)
        },
        Some(KeyView::Escape) => Choice::Back,
        Some(KeyView::Interrupt) => Choice::Back,
        _ => Choice::Stay(selected),
    }
}

/// The item below, or the last one.
pub open spec fn below(selected: usize, count: int) -> usize {
    if selected + 1 < count {
        (selected + 1) as usize
    } else if count > 0 {
        (count - 1) as usize
    } else {
        0
    }
}

pub open spec fn key_option(key: Option<Key>) -> Option<KeyView> {
    match key {
        Some(key) => Some(key@),
        None => None,
    }
}

/// What a key does to the selection of one of `count` items.
pub fn pick(selected: usize, count: usize, key: &Option<Key>) -> (r: Choice)
    requires
        selected < count || (selected == 0 && count == 0),
    ensures
        r == chosen(selected, count as int, key_option(*key)),
        r matches Choice::Picked(i) ==> i < count,
        r matches Choice::Stay(i) ==> i < count || (i == 0 && count == 0),
{
    let above: usize = if selected > 0 {
        selected - 1
    } else {
        0
    };
    let beneath: usize = if count == 0 {
        0
    } else if selected < count - 1 {
        selected + 1
    } else {
        count - 1
    };
    match key {
        Some(Key::Up) => Choice::Stay(above),
        Some(Key::Down) => Choice::Stay(beneath),
        Some(Key::Char(c)) => if *c == 'k' {
            Choice::Stay(above)
        } else if *c == 'j' {
            Choice::Stay(beneath)
        } else {
            Choice::Stay(selected)
        },
        Some(Key::Enter) => if count > 0 {
            Choice::Picked(selected)
        } else {
            Choice::Stay(selected)
        },
        Some(Key::Escape) => Choice::Back,
        Some(Key::Interrupt) => Choice::Back,
        _ => Choice::Stay(selected),
    }
}

pub open spec fn mode_title(mode: Mode) -> Seq<char> {
    match mode {
        Mode::Local => "DESKTOP"@,
        Mode::Remote => "PHONE"@,
        _ => "SWITCHING"@,
    }
}

pub open spec fn mode_text(mode: Mode) -> Seq<char> {
    match mode {
        Mode::Local => "Your keyboard and mouse control this desktop."@,
        Mode::Remote => "Your keyboard and mouse control your phone."@,
        _ => "Release the shortcut keys to finish switching."@,
    }
}

/// What is shown while input is shared.
pub open spec fn session_view(device: InfoView, mode: Mode, notice: Seq<char>) -> ScreenView {
    ScreenView {
        lines: seq![
            plain_line("* "@ + roster::caption_of(device) + " / Connected"@, Style::Muted),
            plain_line(""@, Style::Normal),
            plain_line(mode_title(mode), Style::Accent),
            plain_line(mode_text(mode), Style::Normal),
        ] + (if notice.len() > 0 {
            seq![plain_line(""@, Style::Normal), plain_line(notice, Style::Error)]
        } else {
            seq![]
        }),
        footer: "Ctrl+; Switch   Ctrl+C Stop (desktop)"@,
    }
}

pub fn session_screen(device: &DeviceInfo, mode: Mode, notice: &str) -> (r: Screen)
    ensures
        r@ == session_view(device@, mode, notice@),
{
    let mut lines: Vec<Line> = Vec::new();
    let mut heading: String = text::text("* ");
    heading.append(caption(device).as_str());
    heading.append(" / Connected");
    push_line(&mut lines, heading.as_str(), Style::Muted);
    push_line(&mut lines, "", Style::Normal);
    let (target, description): (&str, &str) = match mode {
        Mode::Local => ("DESKTOP", "Your keyboard and mouse control this desktop."),
        Mode::Remote => ("PHONE", "Your keyboard and mouse control your phone."),
        _ => ("SWITCHING", "Release the shortcut keys to finish switching."),
    };
    push_line(&mut lines, target, Style::Accent);
    push_line(&mut lines, description, Style::Normal);
    if !notice.is_empty() {
        push_line(&mut lines, "", Style::Normal);
        push_line(&mut lines, notice, Style::Error);
    }
    let r = Screen { lines, footer: text::text("Ctrl+; Switch   Ctrl+C Stop (desktop)") };
    assert(r@ =~= session_view(device@, mode, notice@));
    r
}

/// Whether a session goes on after a key: it is stopped from the desktop only.
pub fn session_goes_on(mode: Mode, key: &Option<Key>) -> (r: bool)
    ensures
        r == goes_on(mode, key_option(*key)),
        r == !(mode == Mode::Local && (key_option(*key) == Some(KeyView::Escape) || key_option(*key)
            == Some(KeyView::Interrupt))),
{
    let stop: bool = match key {
        Some(Key::Escape) => true,
        Some(Key::Interrupt) => true,
        _ => false,
    };
    !(mode == Mode::Local && stop)
}

/// The selected item is always in view.
pub proof fn law_selected_item_is_shown(
    title: Seq<char>,
    device: Option<InfoView>,
    items: Seq<Seq<char>>,
    selected: int,
    notice: Seq<char>,
    error: bool,
    height: int,
)
    requires
        0 <= selected < items.len(),
    ensures
        menu_lines(title, device, items, selected, notice, error, height).contains(
            item_line(items, selected, selected),
        ),
{
    let rows = frame::minus(height, 6);
    let head = menu_head(title, device, rows);
    let tail = notice_lines(notice, error, rows);
    let count = item_count(head.len() as int, tail.len() as int, rows);
    let start = first_item(selected, count);
    let lines = menu_lines(title, device, items, selected, notice, error, height);
    let k = selected - start;
    assert(0 <= k < count);
    assert(lines[head.len() + k] == item_line(items, selected, selected));
}

/// A menu fits a terminal that it is drawn on, where there is room for one item.
pub proof fn law_menus_fit(
    title: Seq<char>,
    device: Option<InfoView>,
    items: Seq<Seq<char>>,
    selected: int,
    notice: Seq<char>,
    error: bool,
    height: int,
)
    requires
        0 <= selected < items.len(),
        height >= frame::MIN_HEIGHT,
    ensures
        menu_lines(title, device, items, selected, notice, error, height).len() <= height - 6,
{
    let rows = frame::minus(height, 6);
    let head = menu_head(title, device, rows);
    assert(device_lines(device).len() <= 3);
}

/// The arrows and the letters k and j move the selection up and down by one, and stop at
/// the ends. Enter picks the selected item, escape goes back, and nothing else does
/// anything.
pub proof fn law_keys_move_the_selection(selected: usize, count: int, key: KeyView)
    requires
        0 <= selected < count <= usize::MAX,
    ensures
        ({
            let choice = chosen(selected, count, Some(key));
            let up = key is Up || key == KeyView::Char('k');
            let down = key is Down || key == KeyView::Char('j');
            &&& up && selected > 0 ==> choice == Choice::Stay((selected - 1) as usize)
            &&& up && selected == 0 ==> choice == Choice::Stay(0)
            &&& down && selected + 1 < count ==> choice == Choice::Stay((selected + 1) as usize)
            &&& down && selected + 1 == count ==> choice == Choice::Stay(selected)
            &&& key is Enter ==> choice == Choice::Picked(selected)
            &&& key is Escape || key is Interrupt ==> choice == Choice::Back
            &&& !up && !down && !(key is Enter) && !(key is Escape) && !(key is Interrupt)
                ==> choice == Choice::Stay(selected)
        }),
        chosen(selected, count, None) == Choice::Stay(selected),
        chosen(0, 0, Some(KeyView::Enter)) == Choice::Stay(0),
        chosen(0, 0, Some(KeyView::Down)) == Choice::Stay(0),
        chosen(0, 0, Some(KeyView::Up)) == Choice::Stay(0),
{
}

/// Where there is room for them, all items of a menu stand below each other in their order
/// under the title, the selected one with a pointer before it and the others without.
pub proof fn law_items_are_shown_in_order(
    title: Seq<char>,
    device: Option<InfoView>,
    items: Seq<Seq<char>>,
    selected: int,
    notice: Seq<char>,
    error: bool,
    height: int,
    i: int,
)
    requires
        0 <= selected < items.len(),
        0 <= i < items.len(),
        items.len() + 12 <= height,
    ensures
        ({
            let lines = menu_lines(title, device, items, selected, notice, error, height);
            let first = if height < 15 {
                1int
            } else if device is Some {
                4
            } else {
                3
            };
            &&& lines[0].text == title
            &&& lines.len() == first + items.len() + (if notice.len() > 0 && height >= 14 {
                2int
            } else {
                0
            })
            &&& lines[first + i].text == (if i == selected {
                seq!['>', ' ']
            } else {
                seq![' ', ' ']
            }) + items[i]
            &&& lines[first + i].style == Style::Accent <==> i == selected
            &&& notice.len() > 0 && height >= 14 ==> lines.last().text == notice && (
            lines.last().style == Style::Error <==> error)
        }),
{
    reveal_strlit("> ");
    reveal_strlit("  ");
    assert("> "@ =~= seq!['>', ' ']);
    assert("  "@ =~= seq![' ', ' ']);
    let rows = frame::minus(height, 6);
    let head = menu_head(title, device, rows);
    assert(device_lines(device).len() == if device is Some {
        3int
    } else {
        2
    });
}

/// The chosen device is shown with its name and serial number, and whether it is
/// connected, where there is room for it.
pub proof fn law_chosen_device_is_shown(
    title: Seq<char>,
    device: InfoView,
    items: Seq<Seq<char>>,
    selected: int,
    notice: Seq<char>,
    error: bool,
    height: int,
)
    requires
        height >= 15,
    ensures
        ({
            let lines = menu_lines(title, Some(device), items, selected, notice, error, height);
            let name = match device.model {
                Some(model) => model,
                None => device.serial,
            };
            let online = device.state == "device"@;
            &&& lines.len() >= 4
            &&& lines[1].text == (if online {
                seq!['*', ' ']
            } else {
                seq!['!', ' ']
            }) + name
            &&& lines[2].text == "  "@ + device.serial + "  /  "@ + (if online {
                "Connected"@
            } else {
                device.state
            })
        }),
{
    reveal_strlit("*");
    reveal_strlit("!");
    reveal_strlit(" ");
    assert("*"@ + " "@ =~= seq!['*', ' ']);
    assert("!"@ + " "@ =~= seq!['!', ' ']);
    let rows = frame::minus(height, 6);
    let head = menu_head(title, Some(device), rows);
    let lines = menu_lines(title, Some(device), items, selected, notice, error, height);
    assert(head[1] == device_lines(Some(device))[0]);
    assert(head[2] == device_lines(Some(device))[1]);
    assert(lines[1] == head[1] && lines[2] == head[2]);
}

/// While input is shared, the screen names the device and says where the keyboard and the
/// mouse are.
pub proof fn law_session_tells_where_input_goes(device: InfoView, mode: Mode, notice: Seq<char>)
    ensures
        ({
            let lines = session_view(device, mode, notice).lines;
            let name = match device.model {
                Some(model) => model,
                None => device.serial,
            };
            &&& lines[0].text == "* "@ + name + " / Connected"@
            &&& mode == Mode::Local ==> lines[2].text == "DESKTOP"@ && lines[3].text
                == "Your keyboard and mouse control this desktop."@
            &&& mode == Mode::Remote ==> lines[2].text == "PHONE"@ && lines[3].text
                == "Your keyboard and mouse control your phone."@
            &&& mode == Mode::Arming || mode == Mode::Releasing ==> lines[2].text == "SWITCHING"@
                && lines[3].text == "Release the shortcut keys to finish switching."@
            &&& notice.len() > 0 ==> lines.len() == 6 && lines[5].text == notice
            &&& notice.len() == 0 ==> lines.len() == 4
        }),
{
}

/// Whether control of the phone goes on after a key on the terminal.
pub open spec fn goes_on(mode: Mode, key: Option<KeyView>) -> bool {
    !(mode == Mode::Local && (key == Some(KeyView::Escape) || key == Some(KeyView::Interrupt)))
}

/// Control ends with Escape or an interrupt, but only while input is on the desktop: while
/// it is on the phone no key of the terminal ends it.
pub proof fn law_control_ends_on_the_desktop_only(mode: Mode, key: Option<KeyView>)
    ensures
        mode != Mode::Local ==> goes_on(mode, key),
        mode == Mode::Local ==> (!goes_on(mode, key) <==> key == Some(KeyView::Escape) || key
            == Some(KeyView::Interrupt)),
{
}

/// The mark of work that goes on turns through four shapes in not quite half a second, and
/// then begins again.
pub proof fn law_the_mark_turns(elapsed_ms: int)
    requires
        elapsed_ms >= 0,
    ensures
        glyph(elapsed_ms).len() == 1,
        glyph(elapsed_ms + 480) == glyph(elapsed_ms),
        glyph(elapsed_ms + 120) != glyph(elapsed_ms),
        glyph(elapsed_ms + 240) != glyph(elapsed_ms),
        elapsed_ms < 120 ==> glyph(elapsed_ms) == "-"@,
{
    reveal_strlit("-");
    reveal_strlit("\\");
    reveal_strlit("|");
    reveal_strlit("/");
    let n = elapsed_ms / 120;
    assert((elapsed_ms + 120) / 120 == n + 1);
    assert((elapsed_ms + 240) / 120 == n + 2);
    assert((elapsed_ms + 480) / 120 == n + 4);
    assert("-"@[0] == '-' && "\\"@[0] == '\\' && "|"@[0] == '|' && "/"@[0] == '/');
}

} // verus!
