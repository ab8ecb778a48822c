//! The view state the renderer draws, and the scrolling that keeps the
//! cursor on screen.  Drawing itself (GPU, fonts, colours) is the
//! application's part.

use crate::editor::{line_text_of, EditorBuffer, EditorView};
use crate::notes::{body_of, strip_front_matter};
use crate::rope::line_count;
use crate::text::push_char;
use crate::input::Mode;
use vstd::prelude::*;
use vstd::string::{StrSliceExecFns, StringExecFns};
use mojiban::{MarkdownParser, TextWeight};

verus! {

broadcast use vstd::string::group_string_axioms;

/// Visual state passed to the renderer each frame.
pub struct ViewState {
    /// The current editor buffer.
    pub buffer: EditorBuffer,
    /// Current editor mode.
    pub mode: Mode,
    /// Scroll offset in lines.
    pub scroll_offset: usize,
    /// Whether to show the preview panel.
    pub show_preview: bool,
    /// Whether to show the note list sidebar.
    pub show_note_list: bool,
    /// Note list items (title strings).
    pub note_list: Vec<String>,
    /// Selected index in note list.
    pub note_list_selected: usize,
    /// Status line message.
    pub status_message: String,
    /// Command/search bar text.
    pub command_text: String,
    /// Search query for highlighting.
    pub search_query: String,
    /// Backlinks for current note.
    pub backlinks: Vec<String>,
}

impl Default for ViewState {
    fn default() -> (s: Self)
        ensures
            s.buffer.wf(),
            s.buffer@ == crate::editor::fresh_view(Seq::<char>::empty()),
            s.mode == Mode::Normal,
            s.scroll_offset == 0,
            !s.show_preview,
            s.show_note_list,
            s.note_list@.len() == 0,
            s.note_list_selected == 0,
            s.status_message@.len() == 0,
            s.command_text@.len() == 0,
            s.search_query@.len() == 0,
            s.backlinks@.len() == 0,
    {
        Self {
            buffer: EditorBuffer::new(),
            mode: Mode::Normal,
            scroll_offset: 0,
            show_preview: false,
            show_note_list: true,
            note_list: Vec::new(),
            note_list_selected: 0,
            status_message: String::new(),
            command_text: String::new(),
            search_query: String::new(),
            backlinks: Vec::new(),
        }
    }
}

/// The scroll offset that shows line `line` in a window of `visible`
/// lines scrolled to `scroll`: unchanged if the line is shown, else the
/// least scrolling that shows it.
pub open spec fn scrolled_to(scroll: usize, line: usize, visible: usize) -> usize {
    if visible == 0 {
        scroll
    } else if line < scroll {
        line
    } else if line >= scroll + visible {
        (line + 1 - visible) as usize
    } else {
        scroll
    }
}

/// After scrolling, the line is inside the window.
pub proof fn law_scrolled_line_visible(scroll: usize, line: usize, visible: usize)
    requires
        visible > 0,
    ensures
        scrolled_to(scroll, line, visible) <= line < scrolled_to(scroll, line, visible) + visible,
{
}

/// A line already inside the window leaves the scroll offset unchanged.
pub proof fn law_visible_line_keeps_scroll(scroll: usize, line: usize, visible: usize)
    requires
        scroll <= line < scroll + visible,
    ensures
        scrolled_to(scroll, line, visible) == scroll,
{
}

/// The character of the decimal digit `d`.
pub open spec fn digit_char(d: nat) -> char {
    if d == 0 {
        '0'
    } else if d == 1 {
        '1'
    } else if d == 2 {
        '2'
    } else if d == 3 {
        '3'
    } else if d == 4 {
        '4'
    } else if d == 5 {
        '5'
    } else if d == 6 {
        '6'
    } else if d == 7 {
        '7'
    } else if d == 8 {
        '8'
    } else {
        '9'
    }
}

/// `n` in decimal digits.
pub open spec fn decimal(n: nat) -> Seq<char>
    decreases n,
{
    if n < 10 {
        seq![digit_char(n)]
    } else {
        decimal(n / 10).push(digit_char(n % 10))
    }
}

fn digit(d: usize) -> (c: char)
    requires
        d < 10,
    ensures
        c == digit_char(d as nat),
{
    if d == 0 {
        '0'
    } else if d == 1 {
        '1'
    } else if d == 2 {
        '2'
    } else if d == 3 {
        '3'
    } else if d == 4 {
        '4'
    } else if d == 5 {
        '5'
    } else if d == 6 {
        '6'
    } else if d == 7 {
        '7'
    } else if d == 8 {
        '8'
    } else {
        '9'
    }
}

/// Appends `n` in decimal digits to `s`.
pub fn push_decimal(s: &mut String, n: usize)
    ensures
        final(s)@ == old(s)@ + decimal(n as nat),
    decreases n,
{
    if n >= 10 {
        push_decimal(s, n / 10);
    }
    push_char(s, digit(n % 10));
}

/// The label of a mode on the status line.
pub open spec fn mode_label(m: Mode) -> Seq<char> {
    match m {
        Mode::Normal => "NORMAL"@,
        Mode::Insert => "INSERT"@,
        Mode::Visual => "VISUAL"@,
        Mode::Command => "COMMAND"@,
        Mode::Search => "SEARCH"@,
    }
}

/// The status line: the command being typed, or the search being typed in
/// search mode, or else the mode, a `[+]` for unsaved changes, the file,
/// the 1-based cursor position and the number of lines.
pub open spec fn status_of(command: Seq<char>, search: Seq<char>, mode: Mode, b: EditorView) -> Seq<
    char,
> {
    if command.len() > 0 {
        ":"@ + command
    } else if search.len() > 0 && mode == Mode::Search {
        "/"@ + search
    } else {
        " "@ + mode_label(mode) + " | "@ + (if b.modified {
            "[+] "@
        } else {
            ""@
        }) + (match b.file_path {
            Some(p) => p,
            None => "untitled"@,
        }) + " | "@ + decimal((b.cursor.line + 1) as nat) + ":"@ + decimal(
            (b.cursor.col + 1) as nat,
        ) + " | "@ + decimal(line_count(b.text)) + " lines"@
    }
}

impl ViewState {
    /// Ensure the cursor is visible in a window of `visible` lines by
    /// adjusting the scroll offset.
    pub fn ensure_cursor_visible(&mut self, visible: usize)
        requires
            visible > 0 && old(self).buffer@.cursor.line >= old(self).scroll_offset
                ==> old(self).scroll_offset + visible <= usize::MAX,
        ensures
            final(self).scroll_offset == scrolled_to(
                old(self).scroll_offset,
                old(self).buffer@.cursor.line,
                visible,
            ),
            final(self).buffer == old(self).buffer,
            final(self).mode == old(self).mode,
            final(self).show_preview == old(self).show_preview,
            final(self).show_note_list == old(self).show_note_list,
            final(self).note_list == old(self).note_list,
            final(self).note_list_selected == old(self).note_list_selected,
            final(self).status_message == old(self).status_message,
            final(self).command_text == old(self).command_text,
            final(self).search_query == old(self).search_query,
            final(self).backlinks == old(self).backlinks,
    {
        let cursor_line = self.buffer.cursor().line;
        if visible == 0 {
            return;
        }
        if cursor_line < self.scroll_offset {
            self.scroll_offset = cursor_line;
        } else if cursor_line >= self.scroll_offset + visible {
            self.scroll_offset = cursor_line - visible + 1;
        }
    }
    /// The text of the status line.
    pub fn status_line(&self) -> (s: String)
        requires
            self.buffer@.cursor.line < usize::MAX,
            self.buffer@.cursor.col < usize::MAX,
        ensures
            s@ == status_of(self.command_text@, self.search_query@, self.mode, self.buffer@),
    {
        proof {
            reveal_strlit(":");
            reveal_strlit("/");
        }
        if self.command_text.as_str().unicode_len() > 0 {
            let mut s = String::from_str(":");
            s.append(self.command_text.as_str());
            return s;
        }
        if self.search_query.as_str().unicode_len() > 0 && self.mode == Mode::Search {
            let mut s = String::from_str("/");
            s.append(self.search_query.as_str());
            return s;
        }
        let cursor = self.buffer.cursor();
        let mut s = String::from_str(" ");
        s.append(self.mode.label());
        s.append(" | ");
        if self.buffer.is_modified() {
            s.append("[+] ");
        } else {
            s.append("");
        }
        match self.buffer.file_path() {
            Some(p) => s.append(p),
            None => s.append("untitled"),
        }
        s.append(" | ");
        push_decimal(&mut s, cursor.line + 1);
        s.append(":");
        push_decimal(&mut s, cursor.col + 1);
        s.append(" | ");
        push_decimal(&mut s, self.buffer.line_count());
        s.append(" lines");
        s
    }
}


// ---------------------------------------------------------------------
// Editor rows and the note list
// ---------------------------------------------------------------------

/// One row of the editor pane: the line number, the text drawn, and
/// whether the cursor is on it.
pub struct EditorRow {
    /// The 1-based line number, right-aligned to four columns.
    pub number: String,
    /// The line's text, or a single space for an empty line.
    pub text: String,
    /// Whether this is the cursor's line (drawn brighter).
    pub current: bool,
}

/// `s` right-aligned in `w` columns: padded with spaces on the left when
/// shorter.
pub open spec fn right_aligned(s: Seq<char>, w: nat) -> Seq<char> {
    if s.len() < w {
        Seq::new((w - s.len()) as nat, |i: int| ' ') + s
    } else {
        s
    }
}

/// The text drawn for a line: the line itself, or one space if it is empty.
pub open spec fn shown_text(line: Seq<char>) -> Seq<char> {
    if line.len() == 0 {
        " "@
    } else {
        line
    }
}

/// How many rows a window of `visible` lines scrolled to `scroll` shows
/// of a text of `total` lines.
pub open spec fn row_count(total: nat, scroll: usize, visible: usize) -> nat {
    if scroll >= total {
        0
    } else if visible < total - scroll {
        visible as nat
    } else {
        (total - scroll) as nat
    }
}

/// A note list entry: `> ` before the selected title, two spaces before
/// the others.
pub open spec fn list_entry(title: Seq<char>, selected: bool) -> Seq<char> {
    (if selected {
        "> "@
    } else {
        "  "@
    }) + title
}

// ---------------------------------------------------------------------
// Markdown preview
// ---------------------------------------------------------------------

/// The styled lines of rendered markdown: each line a list of spans, each
/// span its text and whether it is bold.
pub open spec fn span_lines(v: Seq<Vec<(String, bool)>>) -> Seq<Seq<(Seq<char>, bool)>> {
    v.map_values(|l: Vec<(String, bool)>| l@.map_values(|p: (String, bool)| (p.0@, p.1)))
}

/// What the markdown parser makes of `md`: its lines of spans, each span
/// with whether it is bold.
pub uninterp spec fn markdown_spans(md: Seq<char>) -> Seq<Seq<(Seq<char>, bool)>>;

/// Parse markdown into lines of spans (`mojiban::MarkdownParser::parse`),
/// keeping of each span its text and whether its weight is bold.
#[verifier::external_body]
fn parse_markdown(md: &str) -> (r: Vec<Vec<(String, bool)>>)
    ensures
        span_lines(r@) == markdown_spans(md@),
{
    let lines = MarkdownParser::new().parse(md);
    lines.into_iter().map(|line| {
        line.spans.into_iter().map(|span| {
            let bold = match span.style.weight {
                TextWeight::Bold => true,
                _ => false,
            };
            (span.text, bold)
        }).collect()
    }).collect()
}

/// Whether a line of spans has any text.
pub open spec fn has_text(l: Seq<(Seq<char>, bool)>) -> bool {
    exists|j: int| 0 <= j < l.len() && (#[trigger] l[j]).0.len() > 0
}

pub open spec fn has_text_pred() -> spec_fn(Seq<(Seq<char>, bool)>) -> bool {
    |l: Seq<(Seq<char>, bool)>| has_text(l)
}

/// The number of lines a window of `visible` lines takes of `n`.
pub open spec fn window(n: nat, visible: usize) -> int {
    if visible < n {
        visible as int
    } else {
        n as int
    }
}

/// The preview's lines out of the parsed `lines`: the first `visible`
/// lines, without those that hold no text.
pub fn shown_preview(lines: &Vec<Vec<(String, bool)>>, visible: usize) -> (r: Vec<
    Vec<(String, bool)>,
>)
    ensures
        span_lines(r@) == span_lines(lines@).take(window(lines@.len(), visible)).filter(
            has_text_pred(),
        ),
{
    let k = if visible < lines.len() {
        visible
    } else {
        lines.len()
    };
    let ghost all = span_lines(lines@);
    let mut r: Vec<Vec<(String, bool)>> = Vec::new();
    let mut i: usize = 0;
    while i < k
        invariant
            k <= lines@.len(),
            all == span_lines(lines@),
            i <= k,
            span_lines(r@) == all.take(i as int).filter(has_text_pred()),
        decreases k - i,
    {
        let line = &lines[i];
        let mut copy: Vec<(String, bool)> = Vec::new();
        let mut any = false;
        let mut j: usize = 0;
        while j < line.len()
            invariant
                j <= line@.len(),
                copy@.len() == j,
                forall|m: int| 0 <= m < j ==> copy@[m].0@ == line@[m].0@ && copy@[m].1 == line@[m].1,
                any == exists|m: int| 0 <= m < j && (#[trigger] line@[m]).0@.len() > 0,
            decreases line@.len() - j,
        {
            let text = line[j].0.clone();
            if text.as_str().unicode_len() > 0 {
                any = true;
            }
            copy.push((text, line[j].1));
            j = j + 1;
        }
        let ghost l = all[i as int];
        proof {
            assert(l =~= line@.map_values(|p: (String, bool)| (p.0@, p.1)));
            assert(copy@.map_values(|p: (String, bool)| (p.0@, p.1)) =~= l);
            if any {
                let m = choose|m: int| 0 <= m < j && (#[trigger] line@[m]).0@.len() > 0;
                assert(l[m].0.len() > 0);
            }
            if has_text(l) {
                let m = choose|m: int| 0 <= m < l.len() && (#[trigger] l[m]).0.len() > 0;
                assert(line@[m].0@.len() > 0);
            }
            reveal_with_fuel(Seq::filter, 1);
            assert(all.take(i + 1).drop_last() =~= all.take(i as int));
            assert(all.take(i + 1).last() == l);
        }
        let ghost before = span_lines(r@);
        if any {
            r.push(copy);
            assert(span_lines(r@) =~= before.push(l));
        }
        i = i + 1;
    }
    r
}

/// The lines the markdown preview shows for a note's `content` in a pane
/// of `visible` lines: its body without front matter, parsed, cut to the
/// first `visible` lines, without those that hold no text.
pub fn preview_lines(content: &str, visible: usize) -> (r: Vec<Vec<(String, bool)>>)
    ensures
        span_lines(r@) == markdown_spans(body_of(content@)).take(
            window(markdown_spans(body_of(content@)).len(), visible),
        ).filter(has_text_pred()),
{
    let body = strip_front_matter(content);
    let lines = parse_markdown(body);
    shown_preview(&lines, visible)
}

impl ViewState {
    /// The rows of the editor pane in a window of `visible` lines: from the
    /// scroll offset on, as many lines as fit and exist, each with its
    /// 1-based number right-aligned in four columns and its text (a space
    /// for an empty line), and whether the cursor is on it.
    pub fn editor_rows(&self, visible: usize) -> (rows: Vec<EditorRow>)
        ensures
            rows@.len() == row_count(line_count(self.buffer@.text), self.scroll_offset, visible),
            forall|i: int|
                0 <= i < rows@.len() ==> {
                    let line = self.scroll_offset + i;
                    &&& (#[trigger] rows@[i]).number@ == right_aligned(decimal((line + 1) as nat), 4)
                    &&& rows@[i].text@ == shown_text(line_text_of(self.buffer@.text, line))
                    &&& rows@[i].current == (line == self.buffer@.cursor.line)
                },
    {
        let total = self.buffer.line_count();
        let cursor = self.buffer.cursor();
        let n: usize = if self.scroll_offset >= total {
            0
        } else if visible < total - self.scroll_offset {
            visible
        } else {
            total - self.scroll_offset
        };
        let mut rows: Vec<EditorRow> = Vec::new();
        let mut i: usize = 0;
        while i < n
            invariant
                total == line_count(self.buffer@.text),
                cursor == self.buffer@.cursor,
                n == row_count(total as nat, self.scroll_offset, visible),
                n > 0 ==> self.scroll_offset + n <= total,
                i <= n,
                rows@.len() == i,
                forall|m: int|
                    0 <= m < i ==> {
                        let line = self.scroll_offset + m;
                        &&& (#[trigger] rows@[m]).number@ == right_aligned(
                            decimal((line + 1) as nat),
                            4,
                        )
                        &&& rows@[m].text@ == shown_text(line_text_of(self.buffer@.text, line))
                        &&& rows@[m].current == (line == self.buffer@.cursor.line)
                    },
            decreases n - i,
        {
            let line = self.scroll_offset + i;
            let mut digits = String::new();
            let ghost empty = digits@;
            push_decimal(&mut digits, line + 1);
            assert(empty.len() == 0);
            assert(digits@ =~= decimal((line + 1) as nat));
            let mut number = String::new();
            let mut pad = digits.as_str().unicode_len();
            while pad < 4
                invariant
                    digits@ == decimal((line + 1) as nat),
                    digits@.len() <= pad,
                    pad > 4 ==> pad == digits@.len(),
                    number@ == Seq::new((pad - digits@.len()) as nat, |k: int| ' '),
                decreases 4 - pad,
            {
                push_char(&mut number, ' ');
                assert(number@ =~= Seq::new((pad + 1 - digits@.len()) as nat, |k: int| ' '));
                pad = pad + 1;
            }
            number.append(digits.as_str());
            assert(number@ =~= right_aligned(decimal((line + 1) as nat), 4));
            let t = self.buffer.line_text(line);
            let text = if t.as_str().unicode_len() == 0 {
                String::from_str(" ")
            } else {
                t
            };
            let ghost before = rows@;
            rows.push(EditorRow { number, text, current: line == cursor.line });
            assert(rows@ =~= before.push(rows@[i as int]));
            i = i + 1;
        }
        rows
    }

    /// The entries of the note list in a pane of `visible` lines: the first
    /// titles that fit, the selected one marked with `> `.
    pub fn note_list_rows(&self, visible: usize) -> (rows: Vec<String>)
        ensures
            rows@.len() == window(self.note_list@.len(), visible),
            forall|i: int|
                0 <= i < rows@.len() ==> (#[trigger] rows@[i])@ == list_entry(
                    self.note_list@[i]@,
                    i == self.note_list_selected,
                ),
    {
        let n = if visible < self.note_list.len() {
            visible
        } else {
            self.note_list.len()
        };
        let mut rows: Vec<String> = Vec::new();
        let mut i: usize = 0;
        while i < n
            invariant
                n == window(self.note_list@.len(), visible),
                n <= self.note_list@.len(),
                i <= n,
                rows@.len() == i,
                forall|m: int|
                    0 <= m < i ==> (#[trigger] rows@[m])@ == list_entry(
                        self.note_list@[m]@,
                        m == self.note_list_selected,
                    ),
            decreases n - i,
        {
            let mut entry = if i == self.note_list_selected {
                String::from_str("> ")
            } else {
                String::from_str("  ")
            };
            entry.append(self.note_list[i].as_str());
            rows.push(entry);
            i = i + 1;
        }
        rows
    }
}

} // verus!
