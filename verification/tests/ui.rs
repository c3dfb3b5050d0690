use terminal_chess::chess::{Board, ChessPieces};
use terminal_chess::contents;
use terminal_chess::render::{CursorController, Direction, Render, RenderError};
use terminal_chess::screen::{
    ButtonText, InsertHorizontalPosition, InsertVerticalPosition, PlainText, Screen, ScreenRows,
    Text, TextContent,
};
use terminal_chess::terminal_management::{KeyInput, Terminal};

#[test]
fn text_length_strips_ansi_sequences() {
    let styled = "\u{1b}[38;5;15mA\u{1b}[39m".to_string();
    let t = Text::new(styled, 3, 2, None);
    assert_eq!(t.length(), 1);
    assert_eq!(t.position_x(), 3);
    assert_eq!(t.position_y(), 2);

    let plain = Text::new("abc".to_string(), 0, 0, None);
    assert_eq!(plain.length(), 3);

    // A bare escape-bracket-m run is not an SGR sequence and survives.
    let degenerate = Text::new("\u{1b}[mA".to_string(), 0, 0, None);
    assert_eq!(degenerate.length(), 4);
}

#[test]
fn text_new_builds_buttons_with_their_action() {
    let t = Text::new("Play".to_string(), 1, 5, Some("next_screen"));
    match t {
        Text::Button(b) => {
            assert_eq!(b.on_click, "next_screen");
            assert_eq!(b.length, 4);
            assert_eq!(b.position_x, 1);
            assert_eq!(b.position_y, 5);
        },
        Text::Plain(_) => panic!("an action name makes a button"),
    }
}

#[test]
fn split_ansi_string_attaches_codes_to_the_ends() {
    let styled = "\u{1b}[38;5;9mAB\u{1b}[39m".to_string();
    let pieces = ScreenRows::split_ansi_string(styled, 2);
    assert_eq!(
        pieces,
        vec!["\u{1b}[38;5;9mA".to_string(), "B\u{1b}[39m".to_string()]
    );

    let bare = ScreenRows::split_ansi_string("hey".to_string(), 3);
    assert_eq!(bare, vec!["h".to_string(), "e".to_string(), "y".to_string()]);
}

#[test]
fn screen_rows_edit_single_row_writes_cells() {
    let mut rows = ScreenRows::new(6, 3);
    rows.edit_single_row(Text::new("hi".to_string(), 1, 2, None));
    assert_eq!(rows.rows[2][0], " ");
    assert_eq!(rows.rows[2][1], "h");
    assert_eq!(rows.rows[2][2], "i");
    assert_eq!(rows.rows[2][3], " ");
    assert!(rows.buttons[2].is_empty());

    rows.edit_single_row(Text::new("ok".to_string(), 0, 1, Some("reset_game")));
    assert_eq!(rows.buttons[1].len(), 1);
    assert_eq!(rows.buttons[1][0].on_click, "reset_game");
}

#[test]
fn screen_rows_clear_row_blanks_it() {
    let mut rows = ScreenRows::new(4, 3);
    rows.edit_single_row(Text::new("xyz".to_string(), 0, 1, None));
    rows.clear_row(InsertVerticalPosition::Exact(1));
    for j in 0..4 {
        assert_eq!(rows.rows[1][j], " ");
    }
}

#[test]
fn screen_rows_edit_multiple_rows_spaces_lines_out() {
    let mut rows = ScreenRows::new(10, 8);
    let lines = vec![
        Text::new("aa".to_string(), 0, 0, None),
        Text::new("bb".to_string(), 0, 0, None),
    ];
    rows.edit_multiple_rows(&lines, 1, InsertVerticalPosition::Exact(2));
    // Line 0 lands on row 2, line 1 on row 4 (one blank row between).
    assert_eq!(rows.rows[2][0], "a");
    assert_eq!(rows.rows[2][1], "a");
    assert_eq!(rows.rows[3][0], " ");
    assert_eq!(rows.rows[4][0], "b");
    assert_eq!(rows.rows[4][1], "b");
}

#[test]
fn plain_text_placement_measures_visible_length() {
    let centered = PlainText::new(
        "abcd".to_string(),
        10,
        4,
        InsertHorizontalPosition::Center,
        InsertVerticalPosition::Bottom,
    );
    assert_eq!(centered.position_x, 3);
    assert_eq!(centered.position_y, 3);
    assert_eq!(centered.length, 4);

    let button = ButtonText::new(
        "abcd".to_string(),
        10,
        4,
        InsertHorizontalPosition::Right,
        InsertVerticalPosition::Exact(1),
        "go",
    );
    assert_eq!(button.position_x, 5);
    assert_eq!(button.position_y, 1);
}

#[test]
fn from_multi_lines_places_one_text_per_line() {
    let texts = PlainText::from_multi_lines(
        "ab\ncde".to_string(),
        10,
        InsertHorizontalPosition::Exact(1),
    );
    assert_eq!(texts.len(), 2);
    match &texts[0] {
        Text::Plain(p) => {
            assert_eq!(p.text, "ab");
            assert_eq!(p.position_y, 0);
            assert_eq!(p.position_x, 1);
            assert_eq!(p.length, 2);
        },
        _ => panic!("lines are plain"),
    }
    match &texts[1] {
        Text::Plain(p) => {
            assert_eq!(p.text, "cde");
            assert_eq!(p.position_y, 1);
        },
        _ => panic!("lines are plain"),
    }
}

#[test]
fn compile_screen_joins_rows_with_clear_codes() {
    let mut screen = Screen::new(2, 2, None);
    screen.push_str("go:");
    screen.compile_screen();
    assert_eq!(screen.content, "go:  \u{1b}[K  \u{1b}[K");
}

#[test]
fn pressing_a_board_tile_selects_then_moves() {
    let mut screen = Screen::new(40, 20, Some(Board::new()));
    // Select the white pawn at (6, 4): on-screen column 8 is file 4.
    let (scan, advance) = screen.press_board(8, 6);
    assert!(scan);
    assert!(!advance);
    let board = screen.game.as_ref().unwrap();
    assert_eq!(board.selected_piece, Some((6, 4)));
    assert!(board.moving);
    assert!(board.white_move);

    // Submit the double advance to (4, 4).
    let (scan, advance) = screen.press_board(8, 4);
    assert!(!scan);
    assert!(!advance);
    let board = screen.game.as_ref().unwrap();
    assert_eq!(board.tile_at(4, 4).symbol, ChessPieces::Pawn);
    assert_eq!(board.tile_at(6, 4).symbol, ChessPieces::Empty);
    assert!(!board.white_move);
}

#[test]
fn pressing_an_opposing_piece_while_idle_is_ignored() {
    let mut screen = Screen::new(40, 20, Some(Board::new()));
    // Black's rook at (0, 0) cannot be picked up on white's turn.
    let (scan, advance) = screen.press_board(0, 0);
    assert!(!scan);
    assert!(!advance);
    let board = screen.game.as_ref().unwrap();
    assert!(board.selected_piece.is_none());
    assert!(!board.moving);
}

#[test]
fn capturing_the_king_resets_the_game_and_advances() {
    let board = Board::from_placement("8/8/8/8/8/8/8/R3k3").unwrap();
    let mut screen = Screen::new(40, 20, Some(board));
    let (_, advance) = screen.press_board(0, 7);
    assert!(!advance);
    let (_, advance) = screen.press_board(8, 7);
    assert!(advance);
    let fresh = screen.game.as_ref().unwrap();
    assert_eq!(fresh.tile_at(7, 4).symbol, ChessPieces::King);
    assert!(fresh.white_move);
}

#[test]
fn cursor_moves_stop_at_the_edges() {
    let mut cc = CursorController::new(4, 3);
    cc.move_cursor(Direction::Up);
    assert_eq!((cc.cursor_x, cc.cursor_y), (0, 0));
    cc.move_cursor(Direction::Right);
    cc.move_cursor(Direction::Down);
    assert_eq!((cc.cursor_x, cc.cursor_y), (1, 1));
    cc.move_cursor_far(Direction::Right);
    assert_eq!(cc.cursor_x, 3);
    cc.move_cursor(Direction::Right);
    assert_eq!(cc.cursor_x, 3);
    cc.move_cursor_half(Direction::Up);
    assert_eq!(cc.cursor_y, 1);
}

#[test]
fn render_rejects_tiny_terminals() {
    let screen = Screen::new(5, 5, None);
    match Render::new(screen, 5, 5) {
        Err(RenderError::TerminalSizeError(msg)) => {
            assert_eq!(msg, "Terminal size is too small!");
        },
        _ => panic!("a five-by-five terminal is too small"),
    }
    let screen = Screen::new(40, 20, None);
    assert!(Render::new(screen, 40, 20).is_ok());
}

#[test]
fn press_button_scans_buttons_and_navigates() {
    let mut home = Screen::new(40, 20, None);
    home.screen_rows.edit_single_row(Text::new(
        "Play".to_string(),
        0,
        0,
        Some("next_screen"),
    ));
    home.screen_rows.edit_single_row(Text::new(
        "Cheer".to_string(),
        10,
        0,
        Some("cheer"),
    ));
    let mut render = Render::new(home, 40, 20).unwrap();
    render.set_screen(0);
    // Cursor starts at (0, 0), on the navigation button.
    let actions = render.press_button();
    assert!(actions.is_empty());
    assert_eq!(render.current_screen, 1);

    render.set_screen(0);
    render.cursor_controller.cursor_x = 12;
    let actions = render.press_button();
    assert_eq!(actions, vec!["cheer"]);
    assert_eq!(render.current_screen, 0);
}

#[test]
fn new_screen_pushes_onto_the_stack() {
    let mut render = Render::new(Screen::new(40, 20, None), 40, 20).unwrap();
    render.new_screen(Screen::new(40, 20, Some(Board::new())));
    assert_eq!(render.screens.len(), 2);
    assert_eq!(render.current_screen, 1);
    render.set_screen(0);
    assert_eq!(render.current_screen, 0);
}

#[test]
fn terminal_dispatches_keys() {
    let mut render = Render::new(Screen::new(40, 20, None), 40, 20).unwrap();
    render.set_screen(0);
    let mut terminal = Terminal::new(render);
    let (keep, actions) = terminal.process_key(KeyInput::Move(Direction::Down));
    assert!(keep);
    assert!(actions.is_empty());
    assert_eq!(terminal.render.cursor_controller.cursor_y, 1);
    let (keep, _) = terminal.process_key(KeyInput::Other);
    assert!(keep);
    let (keep, _) = terminal.process_key(KeyInput::Quit);
    assert!(!keep);
}

#[test]
fn press_button_handles_back_and_reset_navigation() {
    let mut home = Screen::new(40, 20, None);
    home.screen_rows
        .edit_single_row(Text::new("Back".to_string(), 0, 0, Some("last_screen")));
    home.screen_rows
        .edit_single_row(Text::new("Reset".to_string(), 10, 0, Some("reset_game")));
    let mut render = Render::new(home, 40, 20).unwrap();
    render.new_screen(Screen::new(40, 20, None));
    render.set_screen(0);
    // A back press at the bottom of the stack stays put.
    let actions = render.press_button();
    assert!(actions.is_empty());
    assert_eq!(render.current_screen, 0);

    render.set_screen(1);
    render.cursor_controller.cursor_y = 0;
    render.cursor_controller.cursor_x = 11;
    // The second screen has no buttons; nothing fires there.
    let actions = render.press_button();
    assert!(actions.is_empty());
    assert_eq!(render.current_screen, 1);
}

#[test]
fn text_that_does_not_fit_leaves_the_grid_untouched() {
    let mut rows = ScreenRows::new(4, 2);
    let too_wide = Text::new("abcdef".to_string(), 0, 0, None);
    assert!(!rows.try_edit_single_row(too_wide));
    let off_grid = Text::new("a".to_string(), 0, 9, None);
    assert!(!rows.try_edit_single_row(off_grid));
    for r in 0..2 {
        for j in 0..4 {
            assert_eq!(rows.rows[r][j], " ");
        }
    }
    let fits = Text::new("ab".to_string(), 2, 1, None);
    assert!(rows.try_edit_single_row(fits));
    assert_eq!(rows.rows[1][2], "a");
    assert_eq!(rows.rows[1][3], "b");
}

#[test]
fn terminal_press_path_returns_button_actions() {
    let mut home = Screen::new(40, 20, None);
    home.screen_rows
        .edit_single_row(Text::new("Cheer".to_string(), 0, 0, Some("cheer")));
    let mut render = Render::new(home, 40, 20).unwrap();
    render.set_screen(0);
    let mut terminal = Terminal::new(render);
    let (keep, actions) = terminal.process_key(KeyInput::Press);
    assert!(keep);
    assert_eq!(actions, vec!["cheer"]);
}

#[test]
fn editor_rows_compile_with_clear_codes() {
    let mut editor = contents::EditorContents::new(2, 2);
    editor
        .row_contents
        .edit_single_row(contents::Text::Plain(contents::PlainText::new(
            "a",
            2,
            contents::InsertHorizontalPosition::Exact(0),
            0,
        )));
    editor.rows_to_string();
    assert_eq!(editor.content, "a \u{1b}[K  \u{1b}[K");
}

#[test]
fn contents_rows_splice_text() {
    let mut rc = contents::RowContents::new(5, 2);
    rc.edit_single_row(contents::Text::Plain(contents::PlainText::new(
        "ab",
        5,
        contents::InsertHorizontalPosition::Exact(1),
        1,
    )));
    assert_eq!(rc.rows[0], "     ");
    assert_eq!(rc.rows[1], " ab  ");

    rc.edit_single_row(contents::Text::Button(contents::ButtonText::new(
        "x",
        5,
        contents::InsertHorizontalPosition::Right,
        0,
        "go",
    )));
    assert_eq!(rc.rows[0], "   x ");
    assert_eq!(rc.buttons[0].len(), 1);
    assert_eq!(rc.buttons[0][0].on_click, "go");
}

#[test]
fn contents_edit_multiple_rows_replaces_lines() {
    let mut rc = contents::RowContents::new(8, 6);
    let lines = vec![
        contents::Text::Plain(contents::PlainText::new(
            "aa",
            8,
            contents::InsertHorizontalPosition::Exact(0),
            0,
        )),
        contents::Text::Plain(contents::PlainText::new(
            "bb",
            8,
            contents::InsertHorizontalPosition::Exact(0),
            0,
        )),
    ];
    rc.edit_multiple_rows(
        lines,
        0,
        contents::InsertVerticalPosition::Exact(1),
        contents::InsertHorizontalPosition::Exact(2),
    );
    assert_eq!(rc.rows[1], "  aa    ");
    assert_eq!(rc.rows[2], "  bb    ");
}

#[test]
fn editor_contents_accumulates_text() {
    let mut editor = contents::EditorContents::new(4, 2);
    editor.push('a');
    editor.push_str("bc");
    assert_eq!(editor.content, "abc");
    assert_eq!(editor.height, 2);
}
