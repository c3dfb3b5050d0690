use vstd::prelude::*;

verus! {

/// Horizontal placement of a piece of text in a row: at an exact column,
/// centered, or one column short of the right edge.
#[derive(Clone, Copy)]
pub enum InsertHorizontalPosition {
    Exact(usize),
    Center,
    Right,
}

/// Vertical placement of a block of text: at an exact row, centered, or
/// against the bottom.
pub enum InsertVerticalPosition {
    Exact(usize),
    Center,
    Bottom,
}

/// A fixed piece of text with its position and length.
#[derive(Clone, Copy)]
pub struct PlainText {
    pub text: &'static str,
    pub position_x: usize,
    pub position_y: usize,
    pub length: usize,
}

/// A fixed piece of text that acts as a button: pressing inside its
/// extent fires the named action.
#[derive(Clone, Copy)]
pub struct ButtonText {
    pub text: &'static str,
    pub position_x: usize,
    pub position_y: usize,
    pub length: usize,
    pub on_click: &'static str,
}

/// A row element: plain text or a button.
pub enum Text {
    Plain(PlainText),
    Button(ButtonText),
}

impl Text {
    /// The element's text.
    pub open spec fn spec_text(self) -> Seq<char> {
        match self {
            Text::Plain(plain) => plain.text@,
            Text::Button(button) => button.text@,
        }
    }

    /// The element's column.
    pub open spec fn spec_x(self) -> usize {
        match self {
            Text::Plain(plain) => plain.position_x,
            Text::Button(button) => button.position_x,
        }
    }

    /// The element's row.
    pub open spec fn spec_y(self) -> usize {
        match self {
            Text::Plain(plain) => plain.position_y,
            Text::Button(button) => button.position_y,
        }
    }
}

/// Access to a row element's text, position and length.
pub trait TextContent {
    fn text(&self) -> &'static str;

    fn position_x(&self) -> usize;

    fn position_y(&self) -> usize;

    fn length(&self) -> usize;
}

impl PlainText {
    /// Makes plain text of the text's own length, placed horizontally as
    /// asked within a row of the given width, on the given row.
    pub fn new(
        text: &'static str,
        screen_width: usize,
        horizontal_position: InsertHorizontalPosition,
        vertical_position: usize,
    ) -> (t: PlainText)
        requires
            text@.len() + 1 <= screen_width,
        ensures
            t.text == text,
            t.length == text@.len(),
            t.position_y == vertical_position,
            t.position_x == (match horizontal_position {
                InsertHorizontalPosition::Exact(pos) => pos,
                InsertHorizontalPosition::Center => ((screen_width - t.length) / 2) as usize,
                InsertHorizontalPosition::Right => (screen_width - t.length - 1) as usize,
            }),
    {
        let text_len = text.unicode_len();
        let start_position = match horizontal_position {
            InsertHorizontalPosition::Exact(pos) => pos,
            InsertHorizontalPosition::Center => (screen_width - text_len) / 2,
            InsertHorizontalPosition::Right => screen_width - text_len - 1,
        };
        PlainText {
            text,
            position_x: start_position,
            position_y: vertical_position,
            length: text_len,
        }
    }
}

impl TextContent for PlainText {
    fn text(&self) -> (r: &'static str)
        ensures
            r == self.text,
    {
        self.text
    }

    fn position_x(&self) -> (r: usize)
        ensures
            r == self.position_x,
    {
        self.position_x
    }

    fn position_y(&self) -> (r: usize)
        ensures
            r == self.position_y,
    {
        self.position_y
    }

    fn length(&self) -> (r: usize)
        ensures
            r == self.length,
    {
        self.length
    }
}

impl ButtonText {
    /// Makes button text placed as `PlainText::new` places plain text,
    /// firing the given action when pressed.
    pub fn new(
        text: &'static str,
        screen_width: usize,
        horizontal_position: InsertHorizontalPosition,
        vertical_position: usize,
        callback: &'static str,
    ) -> (t: ButtonText)
        requires
            text@.len() + 1 <= screen_width,
        ensures
            t.text == text,
            t.length == text@.len(),
            t.position_y == vertical_position,
            t.on_click == callback,
            t.position_x == (match horizontal_position {
                InsertHorizontalPosition::Exact(pos) => pos,
                InsertHorizontalPosition::Center => ((screen_width - t.length) / 2) as usize,
                InsertHorizontalPosition::Right => (screen_width - t.length - 1) as usize,
            }),
    {
        let text_len = text.unicode_len();
        let start_position = match horizontal_position {
            InsertHorizontalPosition::Exact(pos) => pos,
            InsertHorizontalPosition::Center => (screen_width - text_len) / 2,
            InsertHorizontalPosition::Right => screen_width - text_len - 1,
        };
        ButtonText {
            text,
            position_x: start_position,
            position_y: vertical_position,
            length: text_len,
            on_click: callback,
        }
    }
}

impl TextContent for ButtonText {
    fn text(&self) -> (r: &'static str)
        ensures
            r == self.text,
    {
        self.text
    }

    fn position_x(&self) -> (r: usize)
        ensures
            r == self.position_x,
    {
        self.position_x
    }

    fn position_y(&self) -> (r: usize)
        ensures
            r == self.position_y,
    {
        self.position_y
    }

    fn length(&self) -> (r: usize)
        ensures
            r == self.length,
    {
        self.length
    }
}

/// A row's characters after splicing `piece` in at column x, the rest of
/// the row untouched.
pub open spec fn row_spliced(old_row: Seq<char>, x: int, piece: Seq<char>) -> Seq<char> {
    old_row.subrange(0, x) + piece + old_row.subrange(x + piece.len(), old_row.len() as int)
}

/// Builds the given row with `piece` spliced in at column x.
fn splice_chars(row: &String, x: usize, piece: &str) -> (out: String)
    requires
        x + piece@.len() <= row@.len(),
    ensures
        out@ == row_spliced(row@, x as int, piece@),
{
    let n = row.as_str().unicode_len();
    let len = piece.unicode_len();
    let mut out = row.as_str().substring_char(0, x).to_owned();
    out.append(piece);
    out.append(row.as_str().substring_char(x + len, n));
    out
}

/// A grid of text rows, each a fixed-width string, and the buttons
/// standing on each row.
pub struct RowContents {
    pub rows: Vec<String>,
    pub buttons: Vec<Vec<ButtonText>>,
    pub width: usize,
    pub height: usize,
}

impl RowContents {
    /// Exactly one string of `width` characters per row, and one button
    /// list per row.
    pub open spec fn wf(self) -> bool {
        &&& self.rows@.len() == self.height
        &&& forall|r: int| 0 <= r < self.height ==> (#[trigger] self.rows@[r])@.len() == self.width
        &&& self.buttons@.len() == self.height
    }

    /// Makes a blank grid: every row all spaces, no buttons.
    pub fn new(width: usize, height: usize) -> (rc: RowContents)
        ensures
            rc.wf(),
            rc.width == width,
            rc.height == height,
            forall|r: int|
                0 <= r < height ==> (#[trigger] rc.rows@[r])@ == Seq::new(
                    width as nat,
                    |i: int| ' ',
                ),
            forall|r: int| 0 <= r < height ==> (#[trigger] rc.buttons@[r])@ == Seq::<
                ButtonText,
            >::empty(),
    {
        let mut blank = String::new();
        let mut j: usize = 0;
        proof {
            reveal_strlit(" ");
        }
        while j < width
            invariant
                j <= width,
                blank@ == Seq::new(j as nat, |i: int| ' '),
            decreases width - j,
        {
            blank.append(" ");
            proof {
                reveal_strlit(" ");
                assert(blank@ =~= Seq::new(j as nat + 1, |i: int| ' '));
            }
            j += 1;
        }
        let mut rows: Vec<String> = Vec::new();
        let mut buttons: Vec<Vec<ButtonText>> = Vec::new();
        let mut r: usize = 0;
        while r < height
            invariant
                r <= height,
                rows@.len() == r,
                buttons@.len() == r,
                blank@ == Seq::new(width as nat, |i: int| ' '),
                forall|k: int|
                    0 <= k < r ==> (#[trigger] rows@[k])@ == Seq::new(width as nat, |i: int| ' '),
                forall|k: int| 0 <= k < r ==> (#[trigger] buttons@[k])@ == Seq::<
                    ButtonText,
                >::empty(),
            decreases height - r,
        {
            rows.push(blank.clone());
            buttons.push(Vec::new());
            r += 1;
        }
        RowContents { rows, buttons, width, height }
    }

    /// Writes one element into its row and records it when it is a button.
    pub fn edit_single_row(&mut self, text: Text)
        requires
            old(self).wf(),
            text.spec_y() < old(self).height,
            text.spec_x() + text.spec_text().len() <= old(self).width,
        ensures
            final(self).wf(),
            final(self).width == old(self).width,
            final(self).height == old(self).height,
            final(self).rows@[text.spec_y() as int]@ == row_spliced(
                old(self).rows@[text.spec_y() as int]@,
                text.spec_x() as int,
                text.spec_text(),
            ),
            forall|r: int|
                0 <= r < final(self).height && r != text.spec_y() ==> #[trigger] final(self).rows@[r]
                    == old(self).rows@[r],
            match text {
                Text::Button(button) => {
                    &&& final(self).buttons@[text.spec_y() as int]@ == old(
                        self,
                    ).buttons@[text.spec_y() as int]@.push(button)
                    &&& forall|r: int|
                        0 <= r < final(self).height && r != text.spec_y() ==> #[trigger] final(self).buttons@[r]
                            == old(self).buttons@[r]
                },
                Text::Plain(_) => final(self).buttons == old(self).buttons,
            },
    {
        let (content, x, y): (&'static str, usize, usize) = match &text {
            Text::Plain(plain_text) => (plain_text.text, plain_text.position_x, plain_text.position_y),
            Text::Button(button_text) => {
                self.buttons[button_text.position_y].push(*button_text);
                (button_text.text, button_text.position_x, button_text.position_y)
            },
        };
        let updated = splice_chars(&self.rows[y], x, content);
        self.rows.set(y, updated);
    }

    /// The row in which line i of a block lands, given the block's start
    /// row and the spacing between lines.
    pub open spec fn row_target(start: int, spacing: int, i: int) -> int {
        start + i + i * spacing
    }

    /// Where a block of `count` lines starts vertically; the block is
    /// taken as `count` lines with one blank line after each but the last.
    pub open spec fn spec_start_row(height: int, count: int, vpos: InsertVerticalPosition) -> int {
        let full = count + (count - 1);
        match vpos {
            InsertVerticalPosition::Exact(pos) => pos as int,
            InsertVerticalPosition::Center => (height - full) / 2,
            InsertVerticalPosition::Bottom => height - full,
        }
    }

    /// The column where a line of the given length lands under the given
    /// horizontal placement.
    pub open spec fn spec_line_x(
        width: int,
        len: int,
        hpos: InsertHorizontalPosition,
    ) -> int {
        match hpos {
            InsertHorizontalPosition::Exact(pos) => pos as int,
            InsertHorizontalPosition::Center => (width - len) / 2,
            InsertHorizontalPosition::Right => width - len - 1,
        }
    }

    /// Writes a block of lines, one per target row, spacing rows apart;
    /// every line is re-placed horizontally as asked and becomes plain
    /// text on its target row.
    pub fn edit_multiple_rows(
        &mut self,
        text: Vec<Text>,
        row_spacing: usize,
        vertical_position: InsertVerticalPosition,
        horizontal_position: InsertHorizontalPosition,
    )
        requires
            old(self).wf(),
            text@.len() >= 1,
            (vertical_position matches InsertVerticalPosition::Center || vertical_position
                matches InsertVerticalPosition::Bottom) ==> 2 * text@.len() - 1 <= old(
                self,
            ).height,
            forall|i: int|
                0 <= i < text@.len() ==> (#[trigger] text@[i]).spec_text().len() + 1 <= old(
                    self,
                ).width,
            forall|i: int|
                0 <= i < text@.len() ==> 0 <= #[trigger] RowContents::row_target(
                    RowContents::spec_start_row(
                        old(self).height as int,
                        text@.len() as int,
                        vertical_position,
                    ),
                    row_spacing as int,
                    i,
                ) < old(self).height,
            forall|i: int|
                0 <= i < text@.len() ==> RowContents::spec_line_x(
                    old(self).width as int,
                    (#[trigger] text@[i]).spec_text().len() as int,
                    horizontal_position,
                ) + text@[i].spec_text().len() <= old(self).width,
        ensures
            final(self).wf(),
            final(self).width == old(self).width,
            final(self).height == old(self).height,
            final(self).buttons == old(self).buttons,
            ({
                let start = RowContents::spec_start_row(
                    old(self).height as int,
                    text@.len() as int,
                    vertical_position,
                );
                &&& forall|i: int|
                    0 <= i < text@.len() ==> final(self).rows@[RowContents::row_target(
                        start,
                        row_spacing as int,
                        i,
                    )]@ == row_spliced(
                        old(self).rows@[RowContents::row_target(start, row_spacing as int, i)]@,
                        RowContents::spec_line_x(
                            old(self).width as int,
                            (#[trigger] text@[i]).spec_text().len() as int,
                            horizontal_position,
                        ),
                        text@[i].spec_text(),
                    )
                &&& forall|r: int|
                    0 <= r < old(self).height && !(exists|i: int|
                        0 <= i < text@.len() && r == RowContents::row_target(
                            start,
                            row_spacing as int,
                            i,
                        )) ==> #[trigger] final(self).rows@[r] == old(self).rows@[r]
            }),
    {
        let plain_text_height = text.len();
        let start_vertical_position = match vertical_position {
            InsertVerticalPosition::Exact(pos) => pos,
            InsertVerticalPosition::Center => {
                let full_text_height = plain_text_height + (plain_text_height - 1);
                (self.height - full_text_height) / 2
            },
            InsertVerticalPosition::Bottom => {
                let full_text_height = plain_text_height + (plain_text_height - 1);
                self.height - full_text_height
            },
        };
        let ghost start = RowContents::spec_start_row(
            old(self).height as int,
            text@.len() as int,
            vertical_position,
        );
        let mut i: usize = 0;
        while i < text.len()
            invariant
                i <= text@.len(),
                self.wf(),
                self.width == old(self).width,
                self.height == old(self).height,
                self.buttons == old(self).buttons,
                start == start_vertical_position,
                start == RowContents::spec_start_row(
                    old(self).height as int,
                    text@.len() as int,
                    vertical_position,
                ),
                forall|k: int|
                    0 <= k < text@.len() ==> (#[trigger] text@[k]).spec_text().len() + 1 <= old(
                        self,
                    ).width,
                forall|k: int|
                    0 <= k < text@.len() ==> 0 <= #[trigger] RowContents::row_target(
                        start,
                        row_spacing as int,
                        k,
                    ) < old(self).height,
                forall|k: int|
                    0 <= k < text@.len() ==> RowContents::spec_line_x(
                        old(self).width as int,
                        (#[trigger] text@[k]).spec_text().len() as int,
                        horizontal_position,
                    ) + text@[k].spec_text().len() <= old(self).width,
                forall|k: int|
                    0 <= k < i ==> self.rows@[RowContents::row_target(
                        start,
                        row_spacing as int,
                        k,
                    )]@ == row_spliced(
                        old(self).rows@[RowContents::row_target(start, row_spacing as int, k)]@,
                        RowContents::spec_line_x(
                            old(self).width as int,
                            (#[trigger] text@[k]).spec_text().len() as int,
                            horizontal_position,
                        ),
                        text@[k].spec_text(),
                    ),
                forall|r: int|
                    0 <= r < old(self).height && !(exists|k: int|
                        0 <= k < i && r == RowContents::row_target(start, row_spacing as int, k))
                        ==> #[trigger] self.rows@[r] == old(self).rows@[r],
            decreases text@.len() - i,
        {
            proof {
                lemma_contents_row_targets_increase(start, row_spacing as int, i as int);
                assert(0 <= RowContents::row_target(start, row_spacing as int, i as int) < old(
                    self,
                ).height);
            }
            let row_number = start_vertical_position + i + i * row_spacing;
            let line_text = match &text[i] {
                Text::Plain(plain_text) => plain_text.text,
                Text::Button(button_text) => button_text.text,
            };
            let placed = PlainText::new(line_text, self.width, horizontal_position, row_number);
            self.edit_single_row(Text::Plain(placed));
            proof {
                assert forall|r: int|
                    0 <= r < old(self).height && !(exists|k: int|
                        0 <= k < i + 1 && r == RowContents::row_target(
                            start,
                            row_spacing as int,
                            k,
                        )) implies self.rows@[r] == old(self).rows@[r] by {
                    assert(r != RowContents::row_target(start, row_spacing as int, i as int));
                    assert(!(exists|k: int|
                        0 <= k < i && r == RowContents::row_target(
                            start,
                            row_spacing as int,
                            k,
                        )));
                    assert(self.rows@[r] == old(self).rows@[r]);
                }
            }
            i += 1;
        }
    }
}

/// Earlier lines of a block land on strictly lower rows than line i.
proof fn lemma_contents_row_targets_increase(start: int, spacing: int, i: int)
    requires
        spacing >= 0,
        i >= 0,
    ensures
        forall|j: int|
            0 <= j < i ==> #[trigger] RowContents::row_target(start, spacing, j)
                < RowContents::row_target(start, spacing, i),
{
    assert forall|j: int|
        0 <= j < i implies #[trigger] RowContents::row_target(start, spacing, j)
        < RowContents::row_target(start, spacing, i) by {
        assert(j * spacing <= i * spacing) by (nonlinear_arith)
            requires
                0 <= j < i,
                spacing >= 0,
        ;
    }
}

/// Relies on std's `String::push`: it appends exactly the given character.
pub assume_specification[ String::push ](s: &mut String, ch: char)
    ensures
        final(s)@ == old(s)@.push(ch),
;

/// The characters the grid's rows flatten to: each row in order, a
/// clear-to-end-of-line sequence after each.
pub open spec fn compiled_rows(rows: Seq<String>) -> Seq<char>
    decreases rows.len(),
{
    if rows.len() == 0 {
        Seq::empty()
    } else {
        compiled_rows(rows.drop_last()) + rows.last()@ + seq!['\u{1b}', '[', 'K']
    }
}

/// A text buffer for terminal output: accumulated content and the row
/// grid it is compiled from.
pub struct EditorContents {
    pub content: String,
    pub row_contents: RowContents,
    pub height: usize,
}

impl EditorContents {
    /// Makes an empty buffer over a blank grid of the given size.
    pub fn new(width: usize, height: usize) -> (e: EditorContents)
        ensures
            e.content@ == Seq::<char>::empty(),
            e.height == height,
            e.row_contents.wf(),
            e.row_contents.width == width,
            e.row_contents.height == height,
    {
        EditorContents { content: String::new(), row_contents: RowContents::new(width, height), height }
    }

    /// Appends one character to the buffer.
    pub fn push(&mut self, ch: char)
        ensures
            final(self).content@ == old(self).content@.push(ch),
            final(self).row_contents == old(self).row_contents,
            final(self).height == old(self).height,
    {
        self.content.push(ch);
    }

    /// Appends a string to the buffer.
    pub fn push_str(&mut self, string: &str)
        ensures
            final(self).content@ == old(self).content@ + string@,
            final(self).row_contents == old(self).row_contents,
            final(self).height == old(self).height,
    {
        self.content.append(string);
    }

    /// Flattens the grid's rows into the buffer, a clear-to-end-of-line
    /// code closing each row; writing the buffer out is the caller's
    /// concern.
    pub fn rows_to_string(&mut self)
        requires
            old(self).row_contents.wf(),
            old(self).height == old(self).row_contents.height,
        ensures
            final(self).content@ == old(self).content@ + compiled_rows(
                old(self).row_contents.rows@,
            ),
            final(self).row_contents == old(self).row_contents,
            final(self).height == old(self).height,
    {
        let mut i: usize = 0;
        proof {
            assert(self.row_contents.rows@.subrange(0, 0) =~= Seq::<String>::empty());
        }
        while i < self.height
            invariant
                i <= self.height,
                self.row_contents == old(self).row_contents,
                self.height == old(self).height,
                self.row_contents.wf(),
                self.height == self.row_contents.height,
                self.content@ == old(self).content@ + compiled_rows(
                    self.row_contents.rows@.subrange(0, i as int),
                ),
            decreases self.height - i,
        {
            let row = self.row_contents.rows[i].clone();
            self.content.append(row.as_str());
            let clear = crate::ansi::clear_until_newline_ansi();
            self.content.append(clear.as_str());
            proof {
                let rows = self.row_contents.rows@;
                assert(rows.subrange(0, i as int + 1).drop_last() =~= rows.subrange(0, i as int));
                assert(rows.subrange(0, i as int + 1).last() == rows[i as int]);
                assert(self.content@ =~= old(self).content@ + compiled_rows(
                    rows.subrange(0, i as int + 1),
                ));
            }
            i += 1;
        }
        proof {
            assert(self.row_contents.rows@.subrange(0, self.height as int)
                =~= self.row_contents.rows@);
        }
    }
}

} // verus!
