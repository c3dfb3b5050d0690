use vstd::prelude::*;

use crate::ansi;
use crate::chess;
use crate::chess::Board;
use crate::chess::ChessPieces;

verus! {

/// Horizontal placement of a piece of text in a row: at an exact column,
/// centered, or flush against the right edge.
#[derive(Clone, Copy)]
pub enum InsertHorizontalPosition {
    Exact(usize),
    Center,
    Right,
}

/// Vertical placement of a piece of text on the screen: at an exact row,
/// centered, or on the bottom row.
#[derive(Clone, Copy)]
pub enum InsertVerticalPosition {
    Exact(usize),
    Center,
    Bottom,
}

/// A piece of plain text with its position and its visible length (its
/// character count after ANSI sequences are stripped).
#[derive(Clone, Debug)]
pub struct PlainText {
    pub text: String,
    pub position_x: usize,
    pub position_y: usize,
    pub length: usize,
}

/// A piece of text that acts as a button: clicking inside its extent
/// fires the named action.
#[derive(Clone, Debug)]
pub struct ButtonText {
    pub text: String,
    pub position_x: usize,
    pub position_y: usize,
    pub length: usize,
    pub on_click: &'static str,
}

/// A screen element: plain text or a button.
#[derive(Clone, Debug)]
pub enum Text {
    Plain(PlainText),
    Button(ButtonText),
}

impl Text {
    /// The element's text, as the string value it holds.
    pub open spec fn spec_string(self) -> String {
        match self {
            Text::Plain(plain) => plain.text,
            Text::Button(button) => button.text,
        }
    }

    /// The element's text.
    pub open spec fn spec_text(self) -> Seq<char> {
        self.spec_string()@
    }

    /// The element's column.
    pub open spec fn spec_x(self) -> usize {
        match self {
            Text::Plain(plain) => plain.position_x,
            Text::Button(button) => button.position_x,
        }
    }

    /// The element's row.
    pub open spec fn spec_y(self) -> usize {
        match self {
            Text::Plain(plain) => plain.position_y,
            Text::Button(button) => button.position_y,
        }
    }

    /// The element's stored visible length.
    pub open spec fn spec_length(self) -> usize {
        match self {
            Text::Plain(plain) => plain.length,
            Text::Button(button) => button.length,
        }
    }

    /// The element's fields are consistent: its stored length is the
    /// visible length of its text.
    pub open spec fn wf(self) -> bool {
        self.spec_length() == ansi::strip_sgr(self.spec_text()).len()
    }

    /// Makes a new element at (position_x, position_y): a button when an
    /// action name is given, otherwise plain text. The visible length is
    /// measured on the text with ANSI sequences stripped.
    pub fn new(text: String, position_x: usize, position_y: usize, on_click: Option<&'static str>)
        -> (t: Text)
        ensures
            t.wf(),
            t.spec_string() == text,
            t.spec_x() == position_x,
            t.spec_y() == position_y,
            match on_click {
                Option::None => t is Plain,
                Option::Some(action) => t matches Text::Button(b) && b == (ButtonText {
                    text,
                    position_x,
                    position_y,
                    length: ansi::strip_sgr(text@).len() as usize,
                    on_click: action,
                }),
            },
    {
        let clean_string = ansi::strip_sgr_codes(text.as_str());
        let length = clean_string.as_str().unicode_len();
        match on_click {
            Option::None => Text::Plain(PlainText { text, position_x, position_y, length }),
            Option::Some(on_click) => Text::Button(
                ButtonText { text, position_x, position_y, length, on_click },
            ),
        }
    }
}

impl Text {
    /// Hands back an equal element.
    pub fn duplicate(&self) -> (t: Text)
        ensures
            t == *self,
    {
        match self {
            Text::Plain(plain) => Text::Plain(
                PlainText {
                    text: plain.text.clone(),
                    position_x: plain.position_x,
                    position_y: plain.position_y,
                    length: plain.length,
                },
            ),
            Text::Button(button) => Text::Button(
                ButtonText {
                    text: button.text.clone(),
                    position_x: button.position_x,
                    position_y: button.position_y,
                    length: button.length,
                    on_click: button.on_click,
                },
            ),
        }
    }
}

/// The positions of the escape characters in the text, in increasing
/// order.
pub open spec fn esc_indices(s: Seq<char>) -> Seq<int>
    decreases s.len(),
{
    if s.len() == 0 {
        Seq::empty()
    } else {
        let rest = esc_indices(s.drop_last());
        if s.last() == '\u{1b}' {
            rest.push(s.len() - 1)
        } else {
            rest
        }
    }
}

/// How a styled text of visible length `text_len` splits into per-column
/// strings. With more than one escape sequence present, the text is read
/// as leading codes, the visible characters, and trailing codes (the
/// middle escape position marking where the trailing codes start): each
/// visible character becomes one string, the leading codes joining the
/// first and the trailing codes joining the last. Otherwise every
/// character stands alone.
pub open spec fn split_ansi_spec(s: Seq<char>, text_len: int) -> Seq<Seq<char>> {
    let idx = esc_indices(s);
    if idx.len() > 1 {
        let back = idx[idx.len() as int / 2];
        let front = s.subrange(0, back - text_len);
        let middle = s.subrange(back - text_len, back);
        let tail = s.subrange(back, s.len() as int);
        Seq::new(
            middle.len(),
            |i: int|
                (if i == 0 {
                    front + seq![middle[i]]
                } else {
                    seq![middle[i]]
                }) + (if i == middle.len() - 1 {
                    tail
                } else {
                    Seq::empty()
                }),
        )
    } else {
        Seq::new(s.len(), |i: int| seq![s[i]])
    }
}

/// The splitting above is well defined for this text and length: when two
/// or more escapes are present, the visible length is at least one and
/// fits before the middle escape.
pub open spec fn splittable(s: Seq<char>, text_len: int) -> bool {
    let idx = esc_indices(s);
    idx.len() > 1 ==> 1 <= text_len <= idx[idx.len() as int / 2]
}

/// A well-formed element whose split fits a row of the given width.
pub open spec fn text_fits(t: Text, width: int) -> bool {
    &&& t.wf()
    &&& splittable(t.spec_text(), t.spec_length() as int)
    &&& t.spec_x() + split_ansi_spec(t.spec_text(), t.spec_length() as int).len() <= width
}

/// Earlier lines of a block land on strictly lower rows than line i.
proof fn lemma_row_targets_increase(start: int, spacing: int, i: int)
    requires
        spacing >= 0,
        i >= 0,
    ensures
        forall|j: int|
            0 <= j < i ==> #[trigger] ScreenRows::row_target(start, spacing, j)
                < ScreenRows::row_target(start, spacing, i),
{
    assert forall|j: int|
        0 <= j < i implies #[trigger] ScreenRows::row_target(start, spacing, j)
        < ScreenRows::row_target(start, spacing, i) by {
        assert(j * spacing <= i * spacing) by (nonlinear_arith)
            requires
                0 <= j < i,
                spacing >= 0,
        ;
    }
}

/// A row's cells after writing the given pieces starting at column x:
/// piece j stands in cell x + j, every other cell is untouched.
pub open spec fn row_written(
    old_row: Seq<String>,
    new_row: Seq<String>,
    x: int,
    pieces: Seq<Seq<char>>,
) -> bool {
    &&& new_row.len() == old_row.len()
    &&& forall|j: int| 0 <= j < pieces.len() ==> (#[trigger] new_row[x + j])@ == pieces[j]
    &&& forall|j: int|
        0 <= j < old_row.len() && !(x <= j < x + pieces.len()) ==> #[trigger] new_row[j]
            == old_row[j]
}

/// Access to a screen element's text, position and visible length.
pub trait TextContent {
    fn text(&self) -> String;

    fn position_x(&self) -> usize;

    fn position_y(&self) -> usize;

    fn length(&self) -> usize;
}

impl TextContent for Text {
    fn text(&self) -> (r: String)
        ensures
            r == self.spec_string(),
    {
        match self {
            Text::Plain(plain) => plain.text.clone(),
            Text::Button(button) => button.text.clone(),
        }
    }

    fn position_x(&self) -> (r: usize)
        ensures
            r == self.spec_x(),
    {
        match self {
            Text::Plain(plain) => plain.position_x,
            Text::Button(button) => button.position_x,
        }
    }

    fn position_y(&self) -> (r: usize)
        ensures
            r == self.spec_y(),
    {
        match self {
            Text::Plain(plain) => plain.position_y,
            Text::Button(button) => button.position_y,
        }
    }

    fn length(&self) -> (r: usize)
        ensures
            r == self.spec_length(),
    {
        match self {
            Text::Plain(plain) => plain.length,
            Text::Button(button) => button.length,
        }
    }
}

/// The character grid of one screen: a cell per column and row, and the
/// buttons standing on each row.
pub struct ScreenRows {
    pub rows: Vec<Vec<String>>,
    pub buttons: Vec<Vec<ButtonText>>,
    pub width: usize,
    pub height: usize,
}

impl ScreenRows {
    /// The grid is exactly height rows of width cells, with one button
    /// list per row.
    pub open spec fn wf(self) -> bool {
        &&& self.rows@.len() == self.height
        &&& forall|r: int| 0 <= r < self.height ==> (#[trigger] self.rows@[r])@.len() == self.width
        &&& self.buttons@.len() == self.height
    }

    /// Makes a blank grid: every cell one space, no buttons.
    pub fn new(width: usize, height: usize) -> (sr: ScreenRows)
        ensures
            sr.wf(),
            sr.width == width,
            sr.height == height,
            forall|r: int, j: int|
                0 <= r < height && 0 <= j < width ==> (#[trigger] sr.rows@[r]@[j])@ == seq![' '],
            forall|r: int| 0 <= r < height ==> (#[trigger] sr.buttons@[r])@ == Seq::<
                ButtonText,
            >::empty(),
    {
        let mut rows: Vec<Vec<String>> = Vec::new();
        let mut buttons: Vec<Vec<ButtonText>> = Vec::new();
        let mut r: usize = 0;
        proof {
            reveal_strlit(" ");
        }
        while r < height
            invariant
                r <= height,
                rows@.len() == r,
                buttons@.len() == r,
                forall|k: int| 0 <= k < r ==> (#[trigger] rows@[k])@.len() == width,
                forall|k: int, j: int|
                    0 <= k < r && 0 <= j < width ==> (#[trigger] rows@[k]@[j])@ == seq![' '],
                forall|k: int| 0 <= k < r ==> (#[trigger] buttons@[k])@ == Seq::<
                    ButtonText,
                >::empty(),
            decreases height - r,
        {
            let mut row: Vec<String> = Vec::new();
            let mut j: usize = 0;
            while j < width
                invariant
                    j <= width,
                    row@.len() == j,
                    forall|k: int| 0 <= k < j ==> (#[trigger] row@[k])@ == seq![' '],
                decreases width - j,
            {
                let cell = " ".to_owned();
                proof {
                    reveal_strlit(" ");
                    assert(cell@ =~= seq![' ']);
                }
                row.push(cell);
                j += 1;
            }
            rows.push(row);
            buttons.push(Vec::new());
            r += 1;
        }
        ScreenRows { rows, buttons, width, height }
    }

    /// Splits a styled text of visible length `text_len` into per-column
    /// strings: one per visible character, the leading ANSI codes joined
    /// onto the first and the trailing codes onto the last.
    pub fn split_ansi_string(text: String, text_len: usize) -> (pieces: Vec<String>)
        requires
            splittable(text@, text_len as int),
        ensures
            pieces@.len() == split_ansi_spec(text@, text_len as int).len(),
            forall|i: int|
                0 <= i < pieces@.len() ==> (#[trigger] pieces@[i])@ == split_ansi_spec(
                    text@,
                    text_len as int,
                )[i],
    {
        let n = text.as_str().unicode_len();
        let mut escape_indices: Vec<usize> = Vec::new();
        let mut i: usize = 0;
        proof {
            assert(text@.subrange(0, 0) =~= Seq::<char>::empty());
        }
        while i < n
            invariant
                i <= n,
                n == text@.len(),
                escape_indices@.map_values(|v: usize| v as int) == esc_indices(
                    text@.subrange(0, i as int),
                ),
                forall|k: int|
                    0 <= k < escape_indices@.len() ==> #[trigger] escape_indices@[k] < i,
            decreases n - i,
        {
            let c = text.as_str().get_char(i);
            proof {
                assert(text@.subrange(0, i as int + 1).drop_last() =~= text@.subrange(0, i as int));
                assert(text@.subrange(0, i as int + 1).last() == text@[i as int]);
            }
            if c == '\u{1b}' {
                escape_indices.push(i);
            }
            proof {
                assert(escape_indices@.map_values(|v: usize| v as int) =~= esc_indices(
                    text@.subrange(0, i as int + 1),
                ));
            }
            i += 1;
        }
        proof {
            assert(text@.subrange(0, n as int) =~= text@);
        }
        let mut strings: Vec<String> = Vec::new();
        if escape_indices.len() > 1 {
            let back_escape_index = escape_indices[escape_indices.len() / 2];
            proof {
                assert(esc_indices(text@)[esc_indices(text@).len() as int / 2]
                    == back_escape_index as int);
            }
            let front_start = back_escape_index - text_len;
            let ghost pieces = split_ansi_spec(text@, text_len as int);
            let mut k: usize = 0;
            while k < text_len
                invariant
                    k <= text_len,
                    n == text@.len(),
                    splittable(text@, text_len as int),
                    1 <= text_len <= back_escape_index,
                    front_start == back_escape_index - text_len,
                    esc_indices(text@)[esc_indices(text@).len() as int / 2]
                        == back_escape_index as int,
                    esc_indices(text@).len() > 1,
                    back_escape_index < text@.len(),
                    pieces == split_ansi_spec(text@, text_len as int),
                    strings@.len() == k,
                    forall|j: int| 0 <= j < k ==> (#[trigger] strings@[j])@ == pieces[j],
                decreases text_len - k,
            {
                let mut piece = String::new();
                if k == 0 {
                    let front = text.as_str().substring_char(0, front_start);
                    piece.append(front);
                }
                let ch = text.as_str().substring_char(front_start + k, front_start + k + 1);
                piece.append(ch);
                if k == text_len - 1 {
                    let tail = text.as_str().substring_char(back_escape_index, n);
                    piece.append(tail);
                }
                proof {
                    assert(piece@ =~= pieces[k as int]);
                }
                strings.push(piece);
                k += 1;
            }
        } else {
            let mut k: usize = 0;
            while k < n
                invariant
                    k <= n,
                    n == text@.len(),
                    esc_indices(text@).len() <= 1,
                    strings@.len() == k,
                    forall|j: int|
                        0 <= j < k ==> (#[trigger] strings@[j])@ == split_ansi_spec(
                            text@,
                            text_len as int,
                        )[j],
                decreases n - k,
            {
                let piece = text.as_str().substring_char(k, k + 1).to_owned();
                proof {
                    assert(piece@ =~= split_ansi_spec(text@, text_len as int)[k as int]);
                }
                strings.push(piece);
                k += 1;
            }
        }
        strings
    }

    /// Writes one element into its row, cell by cell, and records it when
    /// it is a button.
    pub fn edit_single_row(&mut self, text: Text)
        requires
            old(self).wf(),
            text_fits(text, old(self).width as int),
            text.spec_y() < old(self).height,
        ensures
            final(self).wf(),
            final(self).width == old(self).width,
            final(self).height == old(self).height,
            row_written(
                old(self).rows@[text.spec_y() as int]@,
                final(self).rows@[text.spec_y() as int]@,
                text.spec_x() as int,
                split_ansi_spec(text.spec_text(), text.spec_length() as int),
            ),
            forall|r: int|
                0 <= r < final(self).height && r != text.spec_y() ==> #[trigger] final(self).rows@[r]
                    == old(self).rows@[r],
            match text {
                Text::Button(button) => {
                    &&& final(self).buttons@[text.spec_y() as int]@ == old(
                        self,
                    ).buttons@[text.spec_y() as int]@.push(button)
                    &&& forall|r: int|
                        0 <= r < final(self).height && r != text.spec_y() ==> #[trigger] final(self).buttons@[r]
                            == old(self).buttons@[r]
                },
                Text::Plain(_) => final(self).buttons == old(self).buttons,
            },
    {
        let text_len = text.length();
        let split_text = Self::split_ansi_string(text.text(), text_len);
        let y = text.position_y();
        let x = text.position_x();
        let ghost pieces = split_ansi_spec(text.spec_text(), text.spec_length() as int);
        let mut i: usize = 0;
        while i < split_text.len()
            invariant
                i <= split_text@.len(),
                self.wf(),
                self.width == old(self).width,
                self.height == old(self).height,
                self.buttons == old(self).buttons,
                y == text.spec_y() && y < self.height,
                x == text.spec_x(),
                pieces == split_ansi_spec(text.spec_text(), text.spec_length() as int),
                split_text@.len() == pieces.len(),
                x + pieces.len() <= self.width,
                forall|j: int|
                    0 <= j < split_text@.len() ==> (#[trigger] split_text@[j])@ == pieces[j],
                self.rows@[y as int]@.len() == self.width,
                forall|j: int|
                    0 <= j < i ==> (#[trigger] self.rows@[y as int]@[x + j])@ == pieces[j],
                forall|j: int|
                    0 <= j < self.width && !(x <= j < x + i) ==> #[trigger] self.rows@[y as int]@[j]
                        == old(self).rows@[y as int]@[j],
                forall|r: int|
                    0 <= r < self.height && r != y ==> #[trigger] self.rows@[r] == old(
                        self,
                    ).rows@[r],
            decreases split_text@.len() - i,
        {
            let piece = split_text[i].clone();
            proof {
                assert(piece@ == pieces[i as int]);
            }
            self.rows[y].set(i + x, piece);
            i += 1;
        }
        match text {
            Text::Button(button) => {
                self.buttons[y].push(button);
            },
            _ => {},
        };
    }

    /// Collects the positions of the escape characters in the text.
    fn collect_escape_indices(text: &str) -> (idx: Vec<usize>)
        ensures
            idx@.map_values(|v: usize| v as int) == esc_indices(text@),
            forall|k: int| 0 <= k < idx@.len() ==> #[trigger] idx@[k] < text@.len(),
    {
        let n = text.unicode_len();
        let mut escape_indices: Vec<usize> = Vec::new();
        let mut i: usize = 0;
        proof {
            assert(text@.subrange(0, 0) =~= Seq::<char>::empty());
        }
        while i < n
            invariant
                i <= n,
                n == text@.len(),
                escape_indices@.map_values(|v: usize| v as int) == esc_indices(
                    text@.subrange(0, i as int),
                ),
                forall|k: int|
                    0 <= k < escape_indices@.len() ==> #[trigger] escape_indices@[k] < i,
            decreases n - i,
        {
            let c = text.get_char(i);
            proof {
                assert(text@.subrange(0, i as int + 1).drop_last() =~= text@.subrange(0, i as int));
                assert(text@.subrange(0, i as int + 1).last() == text@[i as int]);
            }
            if c == '\u{1b}' {
                escape_indices.push(i);
            }
            proof {
                assert(escape_indices@.map_values(|v: usize| v as int) =~= esc_indices(
                    text@.subrange(0, i as int + 1),
                ));
            }
            i += 1;
        }
        proof {
            assert(text@.subrange(0, n as int) =~= text@);
        }
        escape_indices
    }

    /// Writes one element into its row when it fits there, and reports
    /// whether it did: an element whose row is off the grid, or whose
    /// text cannot be split into cells, or whose split overruns the row,
    /// leaves the grid untouched.
    pub fn try_edit_single_row(&mut self, text: Text) -> (edited: bool)
        requires
            old(self).wf(),
            text.wf(),
        ensures
            final(self).wf(),
            final(self).width == old(self).width,
            final(self).height == old(self).height,
            edited == (text_fits(text, old(self).width as int) && text.spec_y() < old(self).height),
            edited ==> row_written(
                old(self).rows@[text.spec_y() as int]@,
                final(self).rows@[text.spec_y() as int]@,
                text.spec_x() as int,
                split_ansi_spec(text.spec_text(), text.spec_length() as int),
            ) && (forall|r: int|
                0 <= r < final(self).height && r != text.spec_y() ==> #[trigger] final(self).rows@[r]
                    == old(self).rows@[r]) && (match text {
                Text::Button(button) => {
                    &&& final(self).buttons@[text.spec_y() as int]@ == old(
                        self,
                    ).buttons@[text.spec_y() as int]@.push(button)
                    &&& forall|r: int|
                        0 <= r < final(self).height && r != text.spec_y() ==> #[trigger] final(self).buttons@[r]
                            == old(self).buttons@[r]
                },
                Text::Plain(_) => final(self).buttons == old(self).buttons,
            }),
            !edited ==> *final(self) == *old(self),
    {
        let y = text.position_y();
        if y >= self.height {
            return false;
        }
        let text_string = text.text();
        let text_len = text.length();
        let n = text_string.as_str().unicode_len();
        let idx = Self::collect_escape_indices(text_string.as_str());
        let split_len: usize = if idx.len() > 1 {
            let back = idx[idx.len() / 2];
            proof {
                assert(esc_indices(text.spec_text())[esc_indices(text.spec_text()).len() as int
                    / 2] == back as int);
            }
            if !(1 <= text_len && text_len <= back) {
                return false;
            }
            text_len
        } else {
            n
        };
        let x = text.position_x();
        if x > self.width || self.width - x < split_len {
            return false;
        }
        self.edit_single_row(text);
        true
    }

    /// The row in which line i of a block of lines lands, given the
    /// block's start row and the spacing between lines.
    pub open spec fn row_target(start: int, spacing: int, i: int) -> int {
        start + i + i * spacing
    }

    /// Where a block of `count` lines with the given spacing starts
    /// vertically on a screen of the given height.
    pub open spec fn spec_start_row(
        height: int,
        count: int,
        spacing: int,
        vpos: InsertVerticalPosition,
    ) -> int {
        let full = count + (if spacing >= 1 {
            spacing - 1
        } else {
            0
        });
        match vpos {
            InsertVerticalPosition::Exact(pos) => pos as int,
            InsertVerticalPosition::Center => (height - full) / 2,
            InsertVerticalPosition::Bottom => height - full,
        }
    }

    /// Writes a block of lines, one per target row, spacing rows apart;
    /// each line keeps its own column and becomes a fresh element on its
    /// target row (buttons keep their action).
    pub fn edit_multiple_rows(
        &mut self,
        text: &[Text],
        row_spacing: usize,
        vertical_position: InsertVerticalPosition,
    )
        requires
            old(self).wf(),
            forall|i: int|
                0 <= i < text@.len() ==> text_fits(#[trigger] text@[i], old(self).width as int),
            (vertical_position matches InsertVerticalPosition::Center || vertical_position
                matches InsertVerticalPosition::Bottom) ==> text@.len() + (if row_spacing >= 1 {
                row_spacing - 1
            } else {
                0
            }) <= old(self).height,
            forall|i: int|
                0 <= i < text@.len() ==> 0 <= #[trigger] ScreenRows::row_target(
                    ScreenRows::spec_start_row(
                        old(self).height as int,
                        text@.len() as int,
                        row_spacing as int,
                        vertical_position,
                    ),
                    row_spacing as int,
                    i,
                ) < old(self).height,
        ensures
            final(self).wf(),
            final(self).width == old(self).width,
            final(self).height == old(self).height,
            ({
                let start = ScreenRows::spec_start_row(
                    old(self).height as int,
                    text@.len() as int,
                    row_spacing as int,
                    vertical_position,
                );
                &&& forall|i: int|
                    0 <= i < text@.len() ==> row_written(
                        old(self).rows@[ScreenRows::row_target(start, row_spacing as int, i)]@,
                        final(self).rows@[ScreenRows::row_target(start, row_spacing as int, i)]@,
                        (#[trigger] text@[i]).spec_x() as int,
                        split_ansi_spec(text@[i].spec_text(), text@[i].spec_length() as int),
                    )
                &&& forall|r: int|
                    0 <= r < old(self).height && !(exists|i: int|
                        0 <= i < text@.len() && r == ScreenRows::row_target(
                            start,
                            row_spacing as int,
                            i,
                        )) ==> #[trigger] final(self).rows@[r] == old(self).rows@[r]
                        && final(self).buttons@[r] == old(self).buttons@[r]
                &&& forall|i: int|
                    0 <= i < text@.len() ==> match #[trigger] text@[i] {
                        Text::Button(b) => final(self).buttons@[ScreenRows::row_target(
                            start,
                            row_spacing as int,
                            i,
                        )]@ == old(self).buttons@[ScreenRows::row_target(
                            start,
                            row_spacing as int,
                            i,
                        )]@.push(
                            ButtonText {
                                text: b.text,
                                position_x: b.position_x,
                                position_y: ScreenRows::row_target(
                                    start,
                                    row_spacing as int,
                                    i,
                                ) as usize,
                                length: b.length,
                                on_click: b.on_click,
                            },
                        ),
                        Text::Plain(_) => final(self).buttons@[ScreenRows::row_target(
                            start,
                            row_spacing as int,
                            i,
                        )] == old(self).buttons@[ScreenRows::row_target(
                            start,
                            row_spacing as int,
                            i,
                        )],
                    }
            }),
    {
        let plain_text_height = text.len();
        let start_vertical_position = match vertical_position {
            InsertVerticalPosition::Exact(pos) => pos,
            InsertVerticalPosition::Center => {
                let full_text_height = plain_text_height + (if row_spacing >= 1 {
                    row_spacing - 1
                } else {
                    0
                });
                (self.height - full_text_height) / 2
            },
            InsertVerticalPosition::Bottom => {
                let full_text_height = plain_text_height + (if row_spacing >= 1 {
                    row_spacing - 1
                } else {
                    0
                });
                self.height - full_text_height
            },
        };
        let ghost start = ScreenRows::spec_start_row(
            old(self).height as int,
            text@.len() as int,
            row_spacing as int,
            vertical_position,
        );
        proof {
            assert(start_vertical_position == start);
        }
        let mut i: usize = 0;
        while i < text.len()
            invariant
                i <= text@.len(),
                self.wf(),
                self.width == old(self).width,
                self.height == old(self).height,
                start == start_vertical_position,
                start == ScreenRows::spec_start_row(
                    old(self).height as int,
                    text@.len() as int,
                    row_spacing as int,
                    vertical_position,
                ),
                forall|k: int|
                    0 <= k < text@.len() ==> text_fits(#[trigger] text@[k], old(self).width as int),
                forall|k: int|
                    0 <= k < text@.len() ==> 0 <= #[trigger] ScreenRows::row_target(
                        start,
                        row_spacing as int,
                        k,
                    ) < old(self).height,
                forall|k: int|
                    0 <= k < i ==> row_written(
                        old(self).rows@[ScreenRows::row_target(start, row_spacing as int, k)]@,
                        self.rows@[ScreenRows::row_target(start, row_spacing as int, k)]@,
                        (#[trigger] text@[k]).spec_x() as int,
                        split_ansi_spec(text@[k].spec_text(), text@[k].spec_length() as int),
                    ),
                forall|r: int|
                    0 <= r < old(self).height && !(exists|k: int|
                        0 <= k < i && r == ScreenRows::row_target(start, row_spacing as int, k))
                        ==> #[trigger] self.rows@[r] == old(self).rows@[r] && self.buttons@[r]
                        == old(self).buttons@[r],
                forall|k: int|
                    0 <= k < i ==> match #[trigger] text@[k] {
                        Text::Button(b) => self.buttons@[ScreenRows::row_target(
                            start,
                            row_spacing as int,
                            k,
                        )]@ == old(self).buttons@[ScreenRows::row_target(
                            start,
                            row_spacing as int,
                            k,
                        )]@.push(
                            ButtonText {
                                text: b.text,
                                position_x: b.position_x,
                                position_y: ScreenRows::row_target(
                                    start,
                                    row_spacing as int,
                                    k,
                                ) as usize,
                                length: b.length,
                                on_click: b.on_click,
                            },
                        ),
                        Text::Plain(_) => self.buttons@[ScreenRows::row_target(
                            start,
                            row_spacing as int,
                            k,
                        )] == old(self).buttons@[ScreenRows::row_target(
                            start,
                            row_spacing as int,
                            k,
                        )],
                    },
            decreases text@.len() - i,
        {
            proof {
                lemma_row_targets_increase(start, row_spacing as int, i as int);
                assert(0 <= ScreenRows::row_target(start, row_spacing as int, i as int) < old(
                    self,
                ).height);
            }
            let row_number = start_vertical_position + i + i * row_spacing;
            let line = &text[i];
            let line_text = line.text();
            let text_object = Text::new(
                line_text,
                line.position_x(),
                row_number,
                match line {
                    Text::Plain(_) => Option::None,
                    Text::Button(button) => Option::Some(button.on_click),
                },
            );
            self.edit_single_row(text_object);
            proof {
                assert forall|r: int|
                    0 <= r < old(self).height && !(exists|k: int|
                        0 <= k < i + 1 && r == ScreenRows::row_target(start, row_spacing as int, k))
                    implies self.rows@[r] == old(self).rows@[r] && self.buttons@[r] == old(
                    self,
                ).buttons@[r] by {
                    assert(r != ScreenRows::row_target(start, row_spacing as int, i as int));
                    assert(!(exists|k: int|
                        0 <= k < i && r == ScreenRows::row_target(start, row_spacing as int, k)));
                    assert(self.rows@[r] == old(self).rows@[r]);
                    assert(self.buttons@[r] == old(self).buttons@[r]);
                }
            }
            i += 1;
        }
    }

    /// Paints a chess board onto the grid: one element per tile, written
    /// where it fits. The elements are all plain text, so no buttons are
    /// added.
    pub fn paint_board(&mut self, board: &Board)
        requires
            old(self).wf(),
            board.wf(),
        ensures
            final(self).wf(),
            final(self).width == old(self).width,
            final(self).height == old(self).height,
            final(self).buttons == old(self).buttons,
    {
        let board_rows = board.display_board();
        let mut r: usize = 0;
        while r < 8
            invariant
                self.wf(),
                self.width == old(self).width,
                self.height == old(self).height,
                self.buttons == old(self).buttons,
                r <= 8,
                board_rows@.len() == 8,
                forall|a: int| 0 <= a < 8 ==> (#[trigger] board_rows@[a])@.len() == 8,
                forall|a: int, b: int|
                    0 <= a < 8 && 0 <= b < 8 ==> (#[trigger] board_rows@[a]@[b]).wf()
                        && board_rows@[a]@[b] is Plain,
            decreases 8 - r,
        {
            let mut f: usize = 0;
            while f < 8
                invariant
                    self.wf(),
                    self.width == old(self).width,
                    self.height == old(self).height,
                    self.buttons == old(self).buttons,
                    r < 8,
                    f <= 8,
                    board_rows@.len() == 8,
                    forall|a: int| 0 <= a < 8 ==> (#[trigger] board_rows@[a])@.len() == 8,
                    forall|a: int, b: int|
                        0 <= a < 8 && 0 <= b < 8 ==> (#[trigger] board_rows@[a]@[b]).wf()
                            && board_rows@[a]@[b] is Plain,
                decreases 8 - f,
            {
                let t = board_rows[r][f].duplicate();
                let _edited = self.try_edit_single_row(t);
                f += 1;
            }
            r += 1;
        }
    }

    /// Blanks every cell of the named row.
    pub fn clear_row(&mut self, row: InsertVerticalPosition)
        requires
            old(self).wf(),
            old(self).height >= 1,
            row matches InsertVerticalPosition::Exact(num) ==> num < old(self).height,
        ensures
            final(self).wf(),
            final(self).width == old(self).width,
            final(self).height == old(self).height,
            final(self).buttons == old(self).buttons,
            ({
                let row_num = (match row {
                    InsertVerticalPosition::Bottom => old(self).height - 1,
                    InsertVerticalPosition::Center => old(self).height as int / 2,
                    InsertVerticalPosition::Exact(num) => num as int,
                });
                &&& forall|j: int|
                    0 <= j < final(self).width ==> (#[trigger] final(self).rows@[row_num]@[j])@
                        == seq![' ']
                &&& forall|r: int|
                    0 <= r < final(self).height && r != row_num ==> #[trigger] final(self).rows@[r]
                        == old(self).rows@[r]
            }),
    {
        let row_num = match row {
            InsertVerticalPosition::Bottom => self.height - 1,
            InsertVerticalPosition::Center => self.height / 2,
            InsertVerticalPosition::Exact(num) => num,
        };
        let mut fresh: Vec<String> = Vec::new();
        let mut j: usize = 0;
        proof {
            reveal_strlit(" ");
        }
        while j < self.width
            invariant
                j <= self.width,
                fresh@.len() == j,
                forall|k: int| 0 <= k < j ==> (#[trigger] fresh@[k])@ == seq![' '],
            decreases self.width - j,
        {
            let cell = " ".to_owned();
            proof {
                reveal_strlit(" ");
                assert(cell@ =~= seq![' ']);
            }
            fresh.push(cell);
            j += 1;
        }
        self.rows.set(row_num, fresh);
    }
}

/// The characters a row of cells shows, in cell order.
pub open spec fn row_chars(row: Seq<String>) -> Seq<char>
    decreases row.len(),
{
    if row.len() == 0 {
        Seq::empty()
    } else {
        row_chars(row.drop_last()) + row.last()@
    }
}

/// The characters a whole grid compiles to: each row's cells in order,
/// a clear-to-end-of-line sequence after each row.
pub open spec fn compiled_screen(rows: Seq<Vec<String>>) -> Seq<char>
    decreases rows.len(),
{
    if rows.len() == 0 {
        Seq::empty()
    } else {
        compiled_screen(rows.drop_last()) + row_chars(rows.last()@) + seq!['\u{1b}', '[', 'K']
    }
}

/// A game a screen may hold is in a pressable state: its board is
/// well formed, and while a move is in progress the selection points at
/// a tile on the board.
pub open spec fn game_ok(g: Option<Board>) -> bool {
    match g {
        Option::None => true,
        Option::Some(b) => b.wf() && (b.moving ==> (b.selected_piece matches Some(sel) && sel.0
            < 8 && sel.1 < 8)),
    }
}

/// How one press at (cursor_x, cursor_y) takes a screen's game from `pre`
/// to `post`, with `r` saying whether the press falls through to the
/// button scan and whether it won the game. This is the selection state
/// machine: a press outside the board (or with no game) changes nothing;
/// picking an opposing piece while idle is ignored; while a move is in
/// progress the pressed tile is submitted as the destination, a captured
/// king resetting the game to the starting position; otherwise the tile
/// is picked up: it becomes the selection and a move is marked in
/// progress.
pub open spec fn pressed(
    pre: Screen,
    post: Screen,
    cursor_x: usize,
    cursor_y: usize,
    r: (bool, bool),
) -> bool {
    match pre.game {
        Option::None => post.game is None && r == (true, false),
        Option::Some(b) => {
            if !(cursor_x < 16 && cursor_y < 8) {
                &&& post.game == pre.game
                &&& r == (true, false)
            } else {
                let cy = cursor_y as int;
                let cf = (cursor_x / 2) as int;
                let piece = b.spec_tile(cy, cf);
                if piece.symbol != ChessPieces::Empty && piece.white != b.white_move
                    && !b.moving {
                    &&& post.game == pre.game
                    &&& r == (false, false)
                } else if b.moving {
                    b.selected_piece matches Some(sel) && {
                        let mover = b.spec_tile(sel.0 as int, sel.1 as int);
                        let legal = b.spec_filter_possible_moves(mover);
                        if legal.contains((cursor_y, cursor_x / 2)) {
                            if b.spec_tile(cy, cf).symbol == ChessPieces::King {
                                &&& post.game matches Some(g) && g.wf() && g.white_move
                                    && !g.moving && g.selected_piece is None && (forall|
                                    rr: int,
                                    ff: int,
                                |
                                    0 <= rr < 8 && 0 <= ff < 8 ==> #[trigger] g.spec_tile(rr, ff)
                                        == chess::standard_tile(rr, ff))
                                &&& r == (false, true)
                            } else {
                                &&& post.game matches Some(g) && chess::move_applied(
                                    b,
                                    g,
                                    mover,
                                    cy,
                                    cf,
                                )
                                &&& r == (false, false)
                            }
                        } else {
                            &&& post.game matches Some(g) && chess::move_rejected(b, g)
                            &&& r == (false, false)
                        }
                    }
                } else {
                    &&& post.game matches Some(g) && chess::grid_eq(b, g) && g.white_move
                        == b.white_move && g.moving == true && g.selected_piece == Some(
                        (cursor_y, cursor_x / 2),
                    )
                    &&& r == (true, false)
                }
            }
        },
    }
}

/// One full-terminal screen: its pending output, its character grid, its
/// size, and the chess game it shows, when it shows one. Button actions
/// are dispatched by the caller from the names recorded on the grid.
pub struct Screen {
    pub content: String,
    pub screen_rows: ScreenRows,
    pub width: usize,
    pub height: usize,
    pub game: Option<Board>,
}

impl Screen {
    /// The grid matches the screen's size.
    pub open spec fn wf(self) -> bool {
        &&& self.screen_rows.wf()
        &&& self.screen_rows.width == self.width
        &&& self.screen_rows.height == self.height
    }

    /// Makes a blank screen of the given size, showing the given game.
    pub fn new(width: usize, height: usize, board: Option<Board>) -> (s: Screen)
        ensures
            s.wf(),
            s.width == width,
            s.height == height,
            s.game == board,
            s.content@ == Seq::<char>::empty(),
            forall|r: int, j: int|
                0 <= r < height && 0 <= j < width ==> (#[trigger] s.screen_rows.rows@[r]@[j])@
                    == seq![' '],
            forall|r: int| 0 <= r < height ==> (#[trigger] s.screen_rows.buttons@[r])@ == Seq::<
                ButtonText,
            >::empty(),
    {
        Screen {
            content: String::new(),
            screen_rows: ScreenRows::new(width, height),
            width,
            height,
            game: board,
        }
    }

    /// Appends to the pending output.
    pub fn push_str(&mut self, string: &str)
        ensures
            final(self).content@ == old(self).content@ + string@,
            final(self).screen_rows == old(self).screen_rows,
            final(self).width == old(self).width,
            final(self).height == old(self).height,
            final(self).game == old(self).game,
    {
        self.content.append(string);
    }

    /// Flattens the grid into the pending output: each row's cells in
    /// order, with a clear-to-end-of-line code closing each row.
    pub fn compile_screen(&mut self)
        requires
            old(self).wf(),
        ensures
            final(self).wf(),
            final(self).content@ == old(self).content@ + compiled_screen(
                old(self).screen_rows.rows@,
            ),
            final(self).screen_rows == old(self).screen_rows,
            final(self).width == old(self).width,
            final(self).height == old(self).height,
            final(self).game == old(self).game,
    {
        let mut r: usize = 0;
        proof {
            assert(self.screen_rows.rows@.subrange(0, 0) =~= Seq::<Vec<String>>::empty());
        }
        while r < self.screen_rows.rows.len()
            invariant
                self.wf(),
                r <= self.screen_rows.rows@.len(),
                self.screen_rows == old(self).screen_rows,
                self.width == old(self).width,
                self.height == old(self).height,
                self.game == old(self).game,
                self.content@ == old(self).content@ + compiled_screen(
                    self.screen_rows.rows@.subrange(0, r as int),
                ),
            decreases self.screen_rows.rows@.len() - r,
        {
            let mut j: usize = 0;
            let ghost row_start = self.content@;
            while j < self.width
                invariant
                    self.wf(),
                    r < self.screen_rows.rows@.len(),
                    j <= self.width,
                    self.screen_rows == old(self).screen_rows,
                    self.width == old(self).width,
                    self.height == old(self).height,
                    self.game == old(self).game,
                    self.content@ == row_start + row_chars(
                        self.screen_rows.rows@[r as int]@.subrange(0, j as int),
                    ),
                decreases self.width - j,
            {
                let ghost cells = self.screen_rows.rows@[r as int]@;
                proof {
                    assert(cells.subrange(0, 0) =~= Seq::<String>::empty());
                    assert(cells.subrange(0, j as int + 1).drop_last() =~= cells.subrange(
                        0,
                        j as int,
                    ));
                    assert(cells.subrange(0, j as int + 1).last() == cells[j as int]);
                }
                let cell = self.screen_rows.rows[r][j].clone();
                self.content.append(cell.as_str());
                j += 1;
            }
            let clear = ansi::clear_until_newline_ansi();
            self.content.append(clear.as_str());
            proof {
                let rows = self.screen_rows.rows@;
                assert(rows[r as int]@.subrange(0, self.width as int) =~= rows[r as int]@);
                assert(rows.subrange(0, r as int + 1).drop_last() =~= rows.subrange(0, r as int));
                assert(rows.subrange(0, r as int + 1).last() == rows[r as int]);
                assert(self.content@ =~= old(self).content@ + compiled_screen(
                    rows.subrange(0, r as int + 1),
                ));
            }
            r += 1;
        }
        proof {
            assert(self.screen_rows.rows@.subrange(0, self.screen_rows.rows@.len() as int)
                =~= self.screen_rows.rows@);
        }
    }

    /// Drives the game shown on this screen by one press at the given
    /// cursor position, repainting the board as it goes. The first result
    /// says whether the caller should go on to scan this row's buttons;
    /// the second says whether the press won the game (the board is then
    /// reset to the starting position). A press outside the board area,
    /// or on a screen without a game, does nothing here.
    ///
    /// Pressing a tile follows the selection state machine: picking an
    /// opposing piece while idle is ignored; picking any other tile while
    /// idle selects it, marks a move in progress and highlights the legal
    /// destinations; the next press submits that tile as the destination
    /// of the selected piece's move.
    pub fn press_board(&mut self, cursor_x: usize, cursor_y: usize) -> (r: (bool, bool))
        requires
            old(self).wf(),
            game_ok(old(self).game),
        ensures
            final(self).wf(),
            final(self).width == old(self).width,
            final(self).height == old(self).height,
            final(self).content == old(self).content,
            final(self).screen_rows.buttons == old(self).screen_rows.buttons,
            game_ok(final(self).game),
            pressed(*old(self), *final(self), cursor_x, cursor_y, r),
    {
        if cursor_x < 16 && cursor_y < 8 && self.game.is_some() {
            let mut board = self.game.take().unwrap();
            self.screen_rows.paint_board(&board);
            let piece = board.query_board(cursor_y, cursor_x / 2).0;
            if piece.symbol != ChessPieces::Empty && piece.white != board.white_move
                && !board.moving {
                self.game = Some(board);
                return (false, false);
            }
            if board.moving {
                let sel = board.selected_piece.unwrap();
                let selected_piece = board.query_board(sel.0, sel.1).0;
                let did_win = board.move_piece(selected_piece, cursor_y, cursor_x / 2);
                self.screen_rows.paint_board(&board);
                if did_win {
                    let fresh = Board::new();
                    self.screen_rows.paint_board(&fresh);
                    self.game = Some(fresh);
                    return (false, true);
                }
                self.game = Some(board);
                return (false, false);
            }
            let piece_moves = board.filter_possible_moves(piece);
            proof {
                chess::lemma_possible_moves_in_bounds(board, piece);
                assert forall|t: (usize, usize)| #[trigger]
                    piece_moves@.contains(t) implies t.0 < 8 && t.1 < 8 by {
                    chess::lemma_filter_legal_contains(
                        board,
                        piece.white,
                        board.spec_possible_moves(piece),
                        t,
                    );
                }
            }
            let mut i: usize = 0;
            while i < piece_moves.len()
                invariant
                    self.wf(),
                    self.width == old(self).width,
                    self.height == old(self).height,
                    self.content == old(self).content,
                    self.screen_rows.buttons == old(self).screen_rows.buttons,
                    self.game is None,
                    board.wf(),
                    i <= piece_moves@.len(),
                    forall|t: (usize, usize)| #[trigger]
                        piece_moves@.contains(t) ==> t.0 < 8 && t.1 < 8,
                decreases piece_moves@.len() - i,
            {
                let tile = piece_moves[i];
                proof {
                    assert(piece_moves@.contains(piece_moves@[i as int]));
                }
                let highlighted = board.tile_at(tile.0, tile.1);
                let symbol = highlighted.get_symbol();
                let piece_text = ansi::style_on_dark_green(symbol.as_str());
                let t = Text::new(piece_text, tile.1 * 2, tile.0, None);
                let _edited = self.screen_rows.try_edit_single_row(t);
                i += 1;
            }
            let ghost before_pickup = board;
            board.moving = true;
            proof {
                chess::lemma_same_pieces_wf(before_pickup, board);
            }
            let ghost mid = board;
            let _selected = board.set_selected(cursor_y, cursor_x / 2);
            proof {
                assert(chess::grid_eq(before_pickup, board)) by {
                    assert forall|rr: int, ff: int|
                        0 <= rr < 8 && 0 <= ff < 8 implies #[trigger] before_pickup.spec_tile(
                        rr,
                        ff,
                    ) == #[trigger] board.spec_tile(rr, ff) by {
                        assert(mid.spec_tile(rr, ff) == before_pickup.spec_tile(rr, ff));
                        assert(board.spec_tile(rr, ff) == mid.spec_tile(rr, ff));
                    }
                }
            }
            self.game = Some(board);
            return (true, false);
        }
        (true, false)
    }
}

impl PlainText {
    /// Makes plain text placed horizontally as asked within a screen of
    /// the given width, and vertically as asked within its height; the
    /// visible length is measured with ANSI sequences stripped.
    pub fn new(
        text: String,
        screen_width: usize,
        screen_height: usize,
        horizontal_position: InsertHorizontalPosition,
        vertical_position: InsertVerticalPosition,
    ) -> (t: PlainText)
        requires
            ansi::strip_sgr(text@).len() <= screen_width,
            screen_height >= 1,
        ensures
            t.text == text,
            t.length == ansi::strip_sgr(text@).len(),
            t.position_x == (match horizontal_position {
                InsertHorizontalPosition::Exact(pos) => pos,
                InsertHorizontalPosition::Center => ((screen_width - t.length) / 2) as usize,
                InsertHorizontalPosition::Right => (screen_width - t.length) as usize,
            }),
            t.position_y == (match vertical_position {
                InsertVerticalPosition::Exact(pos) => pos,
                InsertVerticalPosition::Center => (screen_height / 2) as usize,
                InsertVerticalPosition::Bottom => (screen_height - 1) as usize,
            }),
    {
        let clean_string = ansi::strip_sgr_codes(text.as_str());
        let text_len = clean_string.as_str().unicode_len();
        let horizontal_start_position = match horizontal_position {
            InsertHorizontalPosition::Exact(pos) => pos,
            InsertHorizontalPosition::Center => (screen_width - text_len) / 2,
            InsertHorizontalPosition::Right => screen_width - text_len,
        };
        let vertical_start_position = match vertical_position {
            InsertVerticalPosition::Exact(pos) => pos,
            InsertVerticalPosition::Center => screen_height / 2,
            InsertVerticalPosition::Bottom => screen_height - 1,
        };
        PlainText {
            text,
            position_x: horizontal_start_position,
            position_y: vertical_start_position,
            length: text_len,
        }
    }
}

impl ButtonText {
    /// Makes button text placed as `PlainText::new` places plain text,
    /// except that right-flush placement leaves one column free.
    pub fn new(
        text: String,
        screen_width: usize,
        screen_height: usize,
        horizontal_position: InsertHorizontalPosition,
        vertical_position: InsertVerticalPosition,
        on_click: &'static str,
    ) -> (t: ButtonText)
        requires
            ansi::strip_sgr(text@).len() + 1 <= screen_width,
            screen_height >= 1,
        ensures
            t.text == text,
            t.on_click == on_click,
            t.length == ansi::strip_sgr(text@).len(),
            t.position_x == (match horizontal_position {
                InsertHorizontalPosition::Exact(pos) => pos,
                InsertHorizontalPosition::Center => ((screen_width - t.length) / 2) as usize,
                InsertHorizontalPosition::Right => (screen_width - t.length - 1) as usize,
            }),
            t.position_y == (match vertical_position {
                InsertVerticalPosition::Exact(pos) => pos,
                InsertVerticalPosition::Center => (screen_height / 2) as usize,
                InsertVerticalPosition::Bottom => (screen_height - 1) as usize,
            }),
    {
        let clean_string = ansi::strip_sgr_codes(text.as_str());
        let text_len = clean_string.as_str().unicode_len();
        let horizontal_start_position = match horizontal_position {
            InsertHorizontalPosition::Exact(pos) => pos,
            InsertHorizontalPosition::Center => (screen_width - text_len) / 2,
            InsertHorizontalPosition::Right => screen_width - text_len - 1,
        };
        let vertical_start_position = match vertical_position {
            InsertVerticalPosition::Exact(pos) => pos,
            InsertVerticalPosition::Center => screen_height / 2,
            InsertVerticalPosition::Bottom => screen_height - 1,
        };
        ButtonText {
            text,
            position_x: horizontal_start_position,
            position_y: vertical_start_position,
            length: text_len,
            on_click,
        }
    }
}

/// The newline-separated lines of a text, in order; a text always has at
/// least one.
pub open spec fn split_lines(s: Seq<char>) -> Seq<Seq<char>>
    decreases s.len(),
{
    if s.len() == 0 {
        seq![Seq::<char>::empty()]
    } else {
        let rest = split_lines(s.skip(1));
        if s[0] == '\n' {
            seq![Seq::<char>::empty()] + rest
        } else {
            seq![seq![s[0]] + rest[0]] + rest.skip(1)
        }
    }
}

/// A text splits into at least one line.
proof fn lemma_split_lines_nonempty(s: Seq<char>)
    ensures
        split_lines(s).len() >= 1,
    decreases s.len(),
{
    if s.len() > 0 {
        lemma_split_lines_nonempty(s.skip(1));
    }
}

impl PlainText {
    /// Splits a multi-line text into one plain element per line, line i
    /// standing on row i, each placed horizontally as asked by its own
    /// raw length.
    pub fn from_multi_lines(
        text: String,
        screen_width: usize,
        horizontal_position: InsertHorizontalPosition,
    ) -> (out: Vec<Text>)
        requires
            forall|i: int|
                0 <= i < split_lines(text@).len() ==> (#[trigger] split_lines(text@)[i]).len() + 1
                    <= screen_width,
        ensures
            out@.len() == split_lines(text@).len(),
            forall|i: int|
                0 <= i < out@.len() ==> {
                    let line = split_lines(text@)[i];
                    (#[trigger] out@[i]) matches Text::Plain(p) && p.text@ == line && p.position_y
                        == i && p.length == line.len() && p.position_x == (
                    match horizontal_position {
                        InsertHorizontalPosition::Exact(pos) => pos as int,
                        InsertHorizontalPosition::Center => (screen_width - line.len()) / 2,
                        InsertHorizontalPosition::Right => screen_width - line.len() - 1,
                    })
                },
    {
        let ghost target = split_lines(text@);
        let n = text.as_str().unicode_len();
        let mut out: Vec<Text> = Vec::new();
        let mut cur = String::new();
        let ghost mut done: Seq<Seq<char>> = Seq::empty();
        let mut i: usize = 0;
        proof {
            assert(text@.skip(0) =~= text@);
            assert(done + seq![cur@ + split_lines(text@)[0]] + split_lines(text@).skip(1)
                =~= target);
        }
        while i < n
            invariant
                i <= n,
                n == text@.len(),
                target == split_lines(text@),
                forall|k: int|
                    0 <= k < target.len() ==> (#[trigger] target[k]).len() + 1 <= screen_width,
                target == done + seq![cur@ + split_lines(text@.skip(i as int))[0]] + split_lines(
                    text@.skip(i as int),
                ).skip(1),
                out@.len() == done.len(),
                forall|k: int|
                    0 <= k < done.len() ==> {
                        let line = done[k];
                        (#[trigger] out@[k]) matches Text::Plain(p) && p.text@ == line
                            && p.position_y == k && p.length == line.len() && p.position_x == (
                        match horizontal_position {
                            InsertHorizontalPosition::Exact(pos) => pos as int,
                            InsertHorizontalPosition::Center => (screen_width - line.len()) / 2,
                            InsertHorizontalPosition::Right => screen_width - line.len() - 1,
                        })
                    },
            decreases n - i,
        {
            let c = text.as_str().get_char(i);
            proof {
                lemma_split_lines_nonempty(text@.skip(i as int + 1));
                assert(text@.skip(i as int)[0] == text@[i as int]);
                assert(text@.skip(i as int).skip(1) =~= text@.skip(i as int + 1));
            }
            if c == '\n' {
                proof {
                    assert(done.len() < target.len());
                    assert(target[done.len() as int] =~= cur@);
                }
                let text_len = cur.as_str().unicode_len();
                let horizontal_start_position = match horizontal_position {
                    InsertHorizontalPosition::Exact(pos) => pos,
                    InsertHorizontalPosition::Center => (screen_width - text_len) / 2,
                    InsertHorizontalPosition::Right => screen_width - text_len - 1,
                };
                out.push(
                    Text::Plain(
                        PlainText {
                            text: cur,
                            position_x: horizontal_start_position,
                            position_y: out.len(),
                            length: text_len,
                        },
                    ),
                );
                cur = String::new();
                proof {
                    done = done.push(target[done.len() as int]);
                    assert(target =~= done + seq![
                        cur@ + split_lines(text@.skip(i as int + 1))[0],
                    ] + split_lines(text@.skip(i as int + 1)).skip(1));
                }
            } else {
                let ghost cur0 = cur@;
                cur.push(c);
                proof {
                    assert(cur@ + split_lines(text@.skip(i as int + 1))[0] =~= cur0 + (seq![c]
                        + split_lines(text@.skip(i as int + 1))[0]));
                    assert(target =~= done + seq![
                        cur@ + split_lines(text@.skip(i as int + 1))[0],
                    ] + split_lines(text@.skip(i as int + 1)).skip(1));
                }
            }
            i += 1;
        }
        proof {
            assert(text@.skip(n as int) =~= Seq::<char>::empty());
            assert(target =~= done.push(cur@));
            assert(done.len() < target.len());
            assert(target[done.len() as int] =~= cur@);
        }
        let text_len = cur.as_str().unicode_len();
        let horizontal_start_position = match horizontal_position {
            InsertHorizontalPosition::Exact(pos) => pos,
            InsertHorizontalPosition::Center => (screen_width - text_len) / 2,
            InsertHorizontalPosition::Right => screen_width - text_len - 1,
        };
        out.push(
            Text::Plain(
                PlainText {
                    text: cur,
                    position_x: horizontal_start_position,
                    position_y: out.len(),
                    length: text_len,
                },
            ),
        );
        out
    }
}

} // verus!
