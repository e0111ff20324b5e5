//! A line editor, and text that is safe to show in a terminal.
use crate::terminal::{Key, KeyView};
use crate::text::{self, chars_of, printable, text_of};
use vstd::prelude::*;
use vstd::string::*;

verus! {

/// The longest text that typing makes.
pub const EDITOR_LIMIT: usize = 256;

/// `s` with a question mark for everything but printable ASCII. Device and error
/// text then holds no escape sequence, and each character takes one cell.
pub open spec fn cleaned(s: Seq<char>) -> Seq<char> {
    s.map_values(
        |c: char|
            if text::is_printable(c) {
                c
            } else {
                '?'
            },
    )
}

/// `s` cleaned and cut to `width` cells, with dots where there is room for them.
pub open spec fn clipped(s: Seq<char>, width: int) -> Seq<char> {
    let clean = cleaned(s);
    if clean.len() <= width {
        clean
    } else if width < 3 {
        clean.take(width)
    } else {
        clean.take(width - 3) + "..."@
    }
}

/// `s` cleaned and cut to `width` cells.
pub fn clip(s: &str, width: usize) -> (r: String)
    ensures
        r@ == clipped(s@, width as int),
{
    let chars: Vec<char> = chars_of(s);
    let mut clean: Vec<char> = Vec::new();
    let mut i: usize = 0;
    while i < chars.len()
        invariant
            i <= chars@.len(),
            chars@ == s@,
            clean@ =~= cleaned(s@.take(i as int)),
        decreases chars@.len() - i,
    {
        if printable(chars[i]) {
            clean.push(chars[i]);
        } else {
            clean.push('?');
        }
        i = i + 1;
    }
    assert(s@.take(i as int) =~= s@);
    if clean.len() <= width {
        return text_of(clean.as_slice());
    }
    if width < 3 {
        let cut: &[char] = vstd::slice::slice_subrange(clean.as_slice(), 0, width);
        assert(cut@ =~= cleaned(s@).take(width as int));
        return text_of(cut);
    }
    let cut: &[char] = vstd::slice::slice_subrange(clean.as_slice(), 0, width - 3);
    assert(cut@ =~= cleaned(s@).take(width - 3));
    let mut out: String = text_of(cut);
    out.append("...");
    out
}

/// The text that is edited, the place of the cursor, and whether all of the text
/// is selected.
#[verifier::ext_equal]
pub struct EditorView {
    pub text: Seq<char>,
    pub cursor: int,
    pub selected: bool,
}

impl EditorView {
    pub open spec fn wf(self) -> bool {
        0 <= self.cursor <= self.text.len()
    }

    /// One character typed. It replaces a selection; without room it is dropped.
    pub open spec fn typed(self, c: char) -> EditorView {
        let ready = if self.selected {
            EditorView { text: seq![], cursor: 0, selected: false }
        } else {
            self
        };
        if ready.text.len() < EDITOR_LIMIT {
            EditorView {
                text: ready.text.insert(ready.cursor, c),
                cursor: ready.cursor + 1,
                ..ready
            }
        } else {
            ready
        }
    }

    /// The printable characters of pasted text, typed one by one.
    pub open spec fn pasted(self, s: Seq<char>) -> EditorView
        decreases s.len(),
    {
        if s.len() == 0 {
            self
        } else {
            let before = self.pasted(s.drop_last());
            if text::is_printable(s.last()) {
                before.typed(s.last())
            } else {
                before
            }
        }
    }

    pub open spec fn key(self, key: KeyView) -> EditorView {
        match key {
            KeyView::Char(c) => if text::is_printable(c) {
                self.typed(c)
            } else {
                self
            },
            KeyView::Paste(s) => self.pasted(s),
            KeyView::Delete => if self.selected {
                EditorView { text: seq![], cursor: 0, selected: false }
            } else if self.cursor < self.text.len() {
                EditorView { text: self.text.remove(self.cursor), ..self }
            } else {
                self
            },
            KeyView::Backspace => if self.selected {
                EditorView { text: seq![], cursor: 0, selected: false }
            } else if self.cursor > 0 {
                EditorView {
                    text: self.text.remove(self.cursor - 1),
                    cursor: self.cursor - 1,
                    ..self
                }
            } else {
                self
            },
            KeyView::Left => if self.selected {
                EditorView { cursor: 0, selected: false, ..self }
            } else if self.cursor > 0 {
                EditorView { cursor: self.cursor - 1, ..self }
            } else {
                self
            },
            KeyView::Right => if self.selected {
                EditorView { cursor: self.text.len() as int, selected: false, ..self }
            } else if self.cursor < self.text.len() {
                EditorView { cursor: self.cursor + 1, ..self }
            } else {
                self
            },
            KeyView::Home => EditorView { cursor: 0, selected: false, ..self },
            KeyView::End => EditorView {
                cursor: self.text.len() as int,
                selected: false,
                ..self
            },
            _ => self,
        }
    }

    pub open spec fn shown(self, masked: bool) -> Seq<char> {
        if masked {
            Seq::new(self.text.len(), |i: int| '*')
        } else {
            self.text
        }
    }

    /// The text with its cursor, from as far left as leaves the cursor in view,
    /// or the whole selection in brackets.
    pub open spec fn display(self, masked: bool, width: int) -> Seq<char> {
        let shown = self.shown(masked);
        if self.selected {
            clipped("["@ + shown + "]"@, width)
        } else {
            let room = if width > 2 {
                width - 2
            } else {
                0
            };
            let start = if self.cursor > room {
                self.cursor - room
            } else {
                0
            };
            clipped(
                shown.subrange(start, self.cursor) + seq!['|'] + shown.skip(self.cursor),
                width,
            )
        }
    }
}

/// An editor of one line.
#[derive(Debug)]
pub struct Editor {
    pub text: Vec<char>,
    pub cursor: usize,
    pub selected: bool,
}

impl View for Editor {
    type V = EditorView;

    open spec fn view(&self) -> EditorView {
        EditorView { text: self.text@, cursor: self.cursor as int, selected: self.selected }
    }
}

impl Editor {
    pub open spec fn wf(self) -> bool {
        self@.wf()
    }

    /// An editor of nothing.
    pub fn new() -> (r: Editor)
        ensures
            r.wf(),
            r@ == (EditorView { text: seq![], cursor: 0, selected: false }),
    {
        let r = Editor { text: Vec::new(), cursor: 0, selected: false };
        assert(r@.text =~= seq![]);
        r
    }

    /// An editor of `value`, all of it selected.
    pub fn selected(value: &str) -> (r: Editor)
        ensures
            r.wf(),
            r@ == (EditorView {
                text: value@,
                cursor: value@.len() as int,
                selected: value@.len() > 0,
            }),
    {
        let text: Vec<char> = chars_of(value);
        let cursor: usize = text.len();
        Editor { cursor, selected: cursor > 0, text }
    }

    pub fn value(&self) -> (r: String)
        ensures
            r@ == self@.text,
    {
        text_of(self.text.as_slice())
    }

    fn clear(&mut self)
        ensures
            final(self).wf(),
            final(self)@ == (EditorView { text: seq![], cursor: 0, selected: false }),
    {
        self.text = Vec::new();
        self.cursor = 0;
        self.selected = false;
        assert(self@.text =~= seq![]);
    }

    fn typed(&mut self, c: char)
        requires
            old(self).wf(),
        ensures
            final(self).wf(),
            final(self)@ == old(self)@.typed(c),
    {
        if self.selected {
            self.clear();
        }
        if self.text.len() < EDITOR_LIMIT {
            self.text.insert(self.cursor, c);
            self.cursor = self.cursor + 1;
        }
    }

    fn pasted(&mut self, s: &str)
        requires
            old(self).wf(),
        ensures
            final(self).wf(),
            final(self)@ == old(self)@.pasted(s@),
    {
        let chars: Vec<char> = chars_of(s);
        let ghost was = self@;
        let mut i: usize = 0;
        while i < chars.len()
            invariant
                i <= chars@.len(),
                chars@ == s@,
                self.wf(),
                self@ == was.pasted(s@.take(i as int)),
            decreases chars@.len() - i,
        {
            proof {
                assert(s@.take(i + 1).drop_last() =~= s@.take(i as int));
            }
            if printable(chars[i]) {
                self.typed(chars[i]);
            }
            i = i + 1;
        }
        assert(s@.take(i as int) =~= s@);
    }

    /// Takes in one key.
    pub fn key(&mut self, key: Key)
        requires
            old(self).wf(),
        ensures
            final(self).wf(),
            final(self)@ == old(self)@.key(key@),
    {
        match key {
            Key::Char(c) => {
                if printable(c) {
                    self.typed(c);
                }
            },
            Key::Paste(s) => {
                self.pasted(s.as_str());
            },
            Key::Delete => {
                if self.selected {
                    self.clear();
                } else if self.cursor < self.text.len() {
                    self.text.remove(self.cursor);
                }
            },
            Key::Backspace => {
                if self.selected {
                    self.clear();
                } else if self.cursor > 0 {
                    self.cursor = self.cursor - 1;
                    self.text.remove(self.cursor);
                }
            },
            Key::Left => {
                if self.selected {
                    self.cursor = 0;
                    self.selected = false;
                } else if self.cursor > 0 {
                    self.cursor = self.cursor - 1;
                }
            },
            Key::Right => {
                if self.selected {
                    self.cursor = self.text.len();
                    self.selected = false;
                } else if self.cursor < self.text.len() {
                    self.cursor = self.cursor + 1;
                }
            },
            Key::Home => {
                self.cursor = 0;
                self.selected = false;
            },
            Key::End => {
                self.cursor = self.text.len();
                self.selected = false;
            },
            _ => {},
        }
        assert(self@ =~= old(self)@.key(key@));
    }

    fn shown(&self, masked: bool) -> (r: Vec<char>)
        ensures
            r@ == self@.shown(masked),
    {
        let mut out: Vec<char> = Vec::new();
        let mut i: usize = 0;
        while i < self.text.len()
            invariant
                i <= self.text@.len(),
                out@ =~= self@.shown(masked).take(i as int),
            decreases self.text@.len() - i,
        {
            if masked {
                out.push('*');
            } else {
                out.push(self.text[i]);
            }
            i = i + 1;
        }
        assert(self@.shown(masked).take(i as int) =~= self@.shown(masked));
        out
    }

    /// What is shown of the editor in `width` cells, with stars for a secret.
    pub fn display(&self, masked: bool, width: usize) -> (r: String)
        requires
            self.wf(),
        ensures
            r@ == self@.display(masked, width as int),
    {
        let shown: Vec<char> = self.shown(masked);
        let mut out: String = String::new();
        if self.selected {
            out.append("[");
            out.append(text_of(shown.as_slice()).as_str());
            out.append("]");
            assert(out@ =~= "["@ + shown@ + "]"@);
            return clip(out.as_str(), width);
        }
        let room: usize = if width > 2 {
            width - 2
        } else {
            0
        };
        let start: usize = if self.cursor > room {
            self.cursor - room
        } else {
            0
        };
        let len: usize = shown.len();
        let head: &[char] = vstd::slice::slice_subrange(shown.as_slice(), start, self.cursor);
        let tail: &[char] = vstd::slice::slice_subrange(shown.as_slice(), self.cursor, len);
        out.append(text_of(head).as_str());
        out.push('|');
        out.append(text_of(tail).as_str());
        assert(out@ =~= shown@.subrange(start as int, self.cursor as int) + seq!['|'] + shown@.skip(
            self.cursor as int,
        ));
        clip(out.as_str(), width)
    }
}

/// Clipped text fits its width and holds nothing but printable ASCII.
pub proof fn law_clipped_text_is_safe(s: Seq<char>, width: int, i: int)
    requires
        width >= 0,
        0 <= i < clipped(s, width).len(),
    ensures
        clipped(s, width).len() <= width,
        text::is_printable(clipped(s, width)[i]),
{
    reveal_strlit("...");
}

/// A masked display shows nothing of the text: two texts of one length, edited
/// alike, look the same.
pub proof fn law_masked_display_hides_the_text(a: EditorView, b: EditorView, width: int)
    requires
        a.text.len() == b.text.len(),
        a.cursor == b.cursor,
        a.selected == b.selected,
    ensures
        a.display(true, width) == b.display(true, width),
{
    assert(a.shown(true) =~= b.shown(true));
}

/// A character that is typed and erased again leaves the editor as it was, where
/// nothing was selected and there was room for it.
pub proof fn law_backspace_undoes_typing(e: EditorView, c: char)
    requires
        e.wf(),
        !e.selected,
        e.text.len() < EDITOR_LIMIT,
        text::is_printable(c),
    ensures
        e.key(KeyView::Char(c)).key(KeyView::Backspace) == e,
{
    assert(e.text.insert(e.cursor, c).remove(e.cursor) =~= e.text);
    assert(e.key(KeyView::Char(c)).key(KeyView::Backspace) =~= e);
}

/// Typing or pasting never makes the text longer than the limit.
pub proof fn law_typed_text_is_bounded(e: EditorView, key: KeyView)
    requires
        e.wf(),
        e.text.len() <= EDITOR_LIMIT,
    ensures
        e.key(key).wf(),
        e.key(key).text.len() <= EDITOR_LIMIT,
{
    if let KeyView::Paste(s) = key {
        lemma_pasted_bounded(e, s);
    }
}

proof fn lemma_pasted_bounded(e: EditorView, s: Seq<char>)
    requires
        e.wf(),
        e.text.len() <= EDITOR_LIMIT,
    ensures
        e.pasted(s).wf(),
        e.pasted(s).text.len() <= EDITOR_LIMIT,
    decreases s.len(),
{
    if s.len() > 0 {
        lemma_pasted_bounded(e, s.drop_last());
    }
}

/// A character is put in at the cursor, between what stands before and behind it, and the
/// cursor goes behind it. In place of a selection it is the whole text.
pub proof fn law_typing_puts_in_at_the_cursor(e: EditorView, c: char)
    requires
        e.wf(),
        ' ' <= c <= '~',
        e.selected || e.text.len() < 256,
    ensures
        ({
            let after = e.key(KeyView::Char(c));
            &&& !after.selected
            &&& e.selected ==> after.text == seq![c] && after.cursor == 1
            &&& !e.selected ==> after.text == e.text.take(e.cursor) + seq![c] + e.text.skip(
                e.cursor,
            ) && after.cursor == e.cursor + 1
        }),
{
    let after = e.key(KeyView::Char(c));
    if e.selected {
        assert(after.text =~= seq![c]);
    } else {
        assert(after.text =~= e.text.take(e.cursor) + seq![c] + e.text.skip(e.cursor));
    }
}

/// A character that cannot be printed, and one for which there is no room, changes nothing.
pub proof fn law_other_characters_are_not_typed(e: EditorView, c: char)
    requires
        e.wf(),
        !(32 <= c as u32 <= 126) || (!e.selected && e.text.len() >= 256),
    ensures
        e.key(KeyView::Char(c)) == e,
{
}

/// Backspace takes away the character before the cursor, and delete the one behind it;
/// the rest stays. Both clear a selection.
pub proof fn law_erasing_takes_one_character(e: EditorView)
    requires
        e.wf(),
    ensures
        ({
            let after = e.key(KeyView::Backspace);
            &&& e.selected ==> after.text.len() == 0 && after.cursor == 0 && !after.selected
            &&& !e.selected && e.cursor > 0 ==> after.text == e.text.take(e.cursor - 1)
                + e.text.skip(e.cursor) && after.cursor == e.cursor - 1
            &&& !e.selected && e.cursor == 0 ==> after == e
        }),
        ({
            let after = e.key(KeyView::Delete);
            &&& e.selected ==> after.text.len() == 0 && after.cursor == 0 && !after.selected
            &&& !e.selected && e.cursor < e.text.len() ==> after.text == e.text.take(e.cursor)
                + e.text.skip(e.cursor + 1) && after.cursor == e.cursor
            &&& !e.selected && e.cursor == e.text.len() ==> after == e
        }),
{
    if !e.selected && e.cursor > 0 {
        assert(e.key(KeyView::Backspace).text =~= e.text.take(e.cursor - 1) + e.text.skip(
            e.cursor,
        ));
    }
    if !e.selected && e.cursor < e.text.len() {
        assert(e.key(KeyView::Delete).text =~= e.text.take(e.cursor) + e.text.skip(e.cursor + 1));
    }
}

/// The keys that move the cursor leave the text and end a selection. They go by one
/// character, or to the beginning or the end, and from a selection always that far.
pub proof fn law_moving_keeps_the_text(e: EditorView)
    requires
        e.wf(),
    ensures
        ({
            let (left, right) = (e.key(KeyView::Left), e.key(KeyView::Right));
            let (home, end) = (e.key(KeyView::Home), e.key(KeyView::End));
            &&& left.text == e.text && right.text == e.text && home.text == e.text && end.text
                == e.text
            &&& !left.selected && !right.selected && !home.selected && !end.selected
            &&& home.cursor == 0
            &&& end.cursor == e.text.len()
            &&& e.selected ==> left.cursor == 0 && right.cursor == e.text.len()
            &&& !e.selected && e.cursor > 0 ==> left.cursor == e.cursor - 1
            &&& !e.selected && e.cursor == 0 ==> left.cursor == 0
            &&& !e.selected && e.cursor < e.text.len() ==> right.cursor == e.cursor + 1
            &&& !e.selected && e.cursor == e.text.len() ==> right.cursor == e.cursor
        }),
{
}

/// Text that is pasted is put in at the cursor as it is, where all of it can be printed
/// and there is room for it. In place of a selection it is the whole text.
pub proof fn law_pasting_puts_in_at_the_cursor(e: EditorView, s: Seq<char>)
    requires
        e.wf(),
        s.len() > 0,
        forall|i: int| 0 <= i < s.len() ==> ' ' <= #[trigger] s[i] <= '~',
        e.selected ==> s.len() <= 256,
        !e.selected ==> e.text.len() + s.len() <= 256,
    ensures
        ({
            let after = e.key(KeyView::Paste(s));
            &&& !after.selected
            &&& e.selected ==> after.text == s && after.cursor == s.len()
            &&& !e.selected ==> after.text == e.text.take(e.cursor) + s + e.text.skip(e.cursor)
                && after.cursor == e.cursor + s.len()
        }),
    decreases s.len(),
{
    let before = s.drop_last();
    let last = s.last();
    assert(s[s.len() - 1] == last);
    let so_far = e.pasted(before);
    if before.len() > 0 {
        assert forall|i: int| 0 <= i < before.len() implies ' ' <= #[trigger] before[i] <= '~' by {
            assert(before[i] == s[i]);
        }
        law_pasting_puts_in_at_the_cursor(e, before);
    }
    let after = e.key(KeyView::Paste(s));
    assert(before.push(last) =~= s);
    if e.selected {
        assert(after.text =~= s);
    } else {
        if before.len() == 0 {
            assert(so_far.text =~= e.text.take(e.cursor) + before + e.text.skip(e.cursor));
        }
        assert(after.text =~= e.text.take(e.cursor) + s + e.text.skip(e.cursor));
    }
}

/// Text that fits and can be printed is shown as it is. What is too long begins the same
/// and ends with three dots.
pub proof fn law_text_is_shown_as_it_is(s: Seq<char>, width: int, i: int)
    requires
        forall|k: int| 0 <= k < s.len() ==> ' ' <= #[trigger] s[k] <= '~',
        width >= 0,
    ensures
        s.len() <= width ==> clipped(s, width) == s,
        s.len() > width >= 3 ==> {
            &&& clipped(s, width).len() == width
            &&& 0 <= i < width - 3 ==> clipped(s, width)[i] == s[i]
            &&& width - 3 <= i < width ==> clipped(s, width)[i] == '.'
        },
        s.len() > width && width < 3 ==> clipped(s, width) == s.take(width),
{
    reveal_strlit("...");
    assert(cleaned(s) =~= s);
}

/// What cannot be printed is shown as a question mark, one for each character.
pub proof fn law_unprintable_characters_are_marked(s: Seq<char>, width: int, i: int)
    requires
        s.len() <= width,
        0 <= i < s.len(),
    ensures
        clipped(s, width).len() == s.len(),
        clipped(s, width)[i] == (if 32 <= s[i] as u32 <= 126 {
            s[i]
        } else {
            '?'
        }),
{
    assert(cleaned(s)[i] == if text::is_printable(s[i]) {
        s[i]
    } else {
        '?'
    });
}

/// Text that fits is shown with a bar at the cursor, or in brackets where it is selected;
/// a secret is shown as one star for each character.
pub proof fn law_editors_show_their_text(e: EditorView, width: int)
    requires
        e.wf(),
        forall|k: int| 0 <= k < e.text.len() ==> ' ' <= #[trigger] e.text[k] <= '~',
        e.text.len() + 2 <= width,
    ensures
        e.selected ==> e.display(false, width) == seq!['['] + e.text + seq![']'],
        !e.selected ==> e.display(false, width) == e.text.take(e.cursor) + seq!['|'] + e.text.skip(
            e.cursor,
        ),
        ({
            let stars = Seq::new(e.text.len(), |i: int| '*');
            &&& e.selected ==> e.display(true, width) == seq!['['] + stars + seq![']']
            &&& !e.selected ==> e.display(true, width) == stars.take(e.cursor) + seq!['|']
                + stars.skip(e.cursor)
        }),
{
    reveal_strlit("[");
    reveal_strlit("]");
    let stars = Seq::new(e.text.len(), |i: int| '*');
    if e.selected {
        assert("["@ + e.text + "]"@ =~= seq!['['] + e.text + seq![']']);
        assert("["@ + stars + "]"@ =~= seq!['['] + stars + seq![']']);
        assert(e.shown(true) =~= stars);
        law_text_is_shown_as_it_is(seq!['['] + e.text + seq![']'], width, 0);
        law_text_is_shown_as_it_is(seq!['['] + stars + seq![']'], width, 0);
    } else {
        assert(e.text.subrange(0, e.cursor) =~= e.text.take(e.cursor));
        assert(e.shown(true) =~= stars);
        assert(stars.subrange(0, e.cursor) =~= stars.take(e.cursor));
        law_text_is_shown_as_it_is(
            e.text.take(e.cursor) + seq!['|'] + e.text.skip(e.cursor),
            width,
            0,
        );
        law_text_is_shown_as_it_is(
            stars.take(e.cursor) + seq!['|'] + stars.skip(e.cursor),
            width,
            0,
        );
    }
}

} // verus!
