use vstd::prelude::*;

use crossterm::style::{Color, Stylize};

verus! {

/// An SGR control sequence: the escape character, '[', a body, and 'm'.
pub open spec fn sgr_seq(body: Seq<char>) -> Seq<char> {
    seq!['\u{1b}', '['] + body + seq!['m']
}

/// Content wrapped in a foreground color: the color's set sequence before
/// it and the foreground reset after it. With colors disabled by the
/// environment the sequences carry empty bodies.
pub open spec fn fg_wrapped(code: Seq<char>, s: Seq<char>, colors: bool) -> Seq<char> {
    if colors {
        sgr_seq(seq!['3', '8', ';'] + code) + s + sgr_seq(seq!['3', '9'])
    } else {
        sgr_seq(Seq::empty()) + s + sgr_seq(Seq::empty())
    }
}

/// Content wrapped in a background color, as `fg_wrapped` for backgrounds.
pub open spec fn bg_wrapped(code: Seq<char>, s: Seq<char>, colors: bool) -> Seq<char> {
    if colors {
        sgr_seq(seq!['4', '8', ';'] + code) + s + sgr_seq(seq!['4', '9'])
    } else {
        sgr_seq(Seq::empty()) + s + sgr_seq(Seq::empty())
    }
}

/// Content wrapped in the hidden attribute and the full reset; attributes
/// are emitted whether or not colors are disabled.
pub open spec fn hidden_wrapped(s: Seq<char>) -> Seq<char> {
    sgr_seq(seq!['8']) + s + sgr_seq(seq!['0'])
}

/// Relies on crossterm's `Stylize::white` and the `Display` of the styled
/// content it builds: the content is written between the white-foreground
/// sequence (code 38;5;15) and the foreground reset (39); when the
/// NO_COLOR environment setting disables colors, both bodies are empty.
#[verifier::external_body]
pub(crate) fn style_white(s: &str) -> (r: String)
    ensures
        exists|colors: bool| r@ == fg_wrapped(seq!['5', ';', '1', '5'], s@, colors),
{
    s.white().to_string()
}

/// Relies on crossterm's `Stylize::red` (code 38;5;9), otherwise exactly
/// as `style_white`.
#[verifier::external_body]
pub(crate) fn style_red(s: &str) -> (r: String)
    ensures
        exists|colors: bool| r@ == fg_wrapped(seq!['5', ';', '9'], s@, colors),
{
    s.red().to_string()
}

/// Relies on crossterm's `Stylize::hidden` and the `Display` of the styled
/// content: the content is written between the hidden attribute (8) and
/// the full reset (0); attribute sequences ignore the NO_COLOR setting.
#[verifier::external_body]
pub(crate) fn style_hidden(s: &str) -> (r: String)
    ensures
        r@ == hidden_wrapped(s@),
{
    s.hidden().to_string()
}

/// Relies on crossterm's `Stylize::on` with the 256-color value 237: the
/// content is written between the background sequence (48;5;237) and the
/// background reset (49); with NO_COLOR both bodies are empty.
#[verifier::external_body]
pub(crate) fn style_on_grey(s: &str) -> (r: String)
    ensures
        exists|colors: bool| r@ == bg_wrapped(seq!['5', ';', '2', '3', '7'], s@, colors),
{
    s.on(Color::AnsiValue(237)).to_string()
}

/// Relies on crossterm's `Stylize::on_dark_green` (code 48;5;2), otherwise
/// exactly as `style_on_grey`.
#[verifier::external_body]
pub(crate) fn style_on_dark_green(s: &str) -> (r: String)
    ensures
        exists|colors: bool| r@ == bg_wrapped(seq!['5', ';', '2'], s@, colors),
{
    s.on_dark_green().to_string()
}

/// Relies on crossterm's `Clear(ClearType::UntilNewLine)` command: its
/// ANSI form is the clear-to-end-of-line sequence, and writing it to a
/// string cannot fail.
#[verifier::external_body]
pub(crate) fn clear_until_newline_ansi() -> (r: String)
    ensures
        r@ == seq!['\u{1b}', '[', 'K'],
{
    let mut s = String::new();
    let _ = crossterm::Command::write_ansi(
        &crossterm::terminal::Clear(crossterm::terminal::ClearType::UntilNewLine),
        &mut s,
    );
    s
}

/// The index of the first 'm' in the text, or -1 when there is none.
pub open spec fn m_dist(t: Seq<char>) -> int
    decreases t.len(),
{
    if t.len() == 0 {
        -1
    } else if t[0] == 'm' {
        0
    } else {
        let r = m_dist(t.skip(1));
        if r < 0 {
            -1
        } else {
            1 + r
        }
    }
}

/// The length of the SGR sequence standing at the head of the text: the
/// escape character, '[', one or more characters other than 'm', and 'm'.
/// -1 when no such sequence starts here.
pub open spec fn head_sgr_len(s: Seq<char>) -> int {
    if s.len() >= 2 && s[0] == '\u{1b}' && s[1] == '[' {
        let d = m_dist(s.skip(2));
        if d >= 1 {
            3 + d
        } else {
            -1
        }
    } else {
        -1
    }
}

/// The text with every SGR sequence removed, scanning left to right and
/// consuming each sequence whole.
pub open spec fn strip_sgr(s: Seq<char>) -> Seq<char>
    decreases s.len(),
{
    if s.len() == 0 {
        Seq::empty()
    } else {
        let l = head_sgr_len(s);
        if 1 <= l <= s.len() {
            strip_sgr(s.skip(l))
        } else {
            seq![s[0]] + strip_sgr(s.skip(1))
        }
    }
}

/// Relies on regex's `Regex::replace_all` with the constant pattern
/// "\u{1b}\\[[^m]+m" and an empty replacement: each leftmost,
/// non-overlapping occurrence of an SGR sequence is removed; the pattern
/// is valid, so compiling it cannot fail.
#[verifier::external_body]
pub(crate) fn strip_sgr_codes(text: &str) -> (r: String)
    ensures
        r@ == strip_sgr(text@),
{
    let re = regex::Regex::new("\u{1b}\\[[^m]+m").unwrap();
    re.replace_all(text, "").to_string()
}

} // verus!
