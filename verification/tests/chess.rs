use terminal_chess::chess::{Board, ChessPieces, DecodeError, MoveOutcome, Piece};

const STANDARD: &str = "rnbqkbnr/pppppppp/8/8/8/8/PPPPPPPP/RNBQKBNR w KQkq - 0 1";

fn empty_board_with(placement: &str) -> Board {
    Board::from_placement(placement).expect("placement should decode")
}

#[test]
fn standard_position_canonical_layout() {
    let board = Board::new();
    assert!(board.white_move);
    assert!(!board.moving);
    assert!(board.selected_piece.is_none());
    let back_rank = [
        ChessPieces::Rook,
        ChessPieces::Knight,
        ChessPieces::Bishop,
        ChessPieces::Queen,
        ChessPieces::King,
        ChessPieces::Bishop,
        ChessPieces::Knight,
        ChessPieces::Rook,
    ];
    for f in 0..8 {
        assert_eq!(board.tile_at(0, f).symbol, back_rank[f]);
        assert!(!board.tile_at(0, f).white);
        assert_eq!(board.tile_at(1, f).symbol, ChessPieces::Pawn);
        assert!(!board.tile_at(1, f).white);
        assert_eq!(board.tile_at(6, f).symbol, ChessPieces::Pawn);
        assert!(board.tile_at(6, f).white);
        assert_eq!(board.tile_at(7, f).symbol, back_rank[f]);
        assert!(board.tile_at(7, f).white);
        for r in 2..6 {
            assert_eq!(board.tile_at(r, f).symbol, ChessPieces::Empty);
        }
    }
    assert_eq!(board.tile_at(0, 0).symbol, ChessPieces::Rook);
    assert_eq!(board.tile_at(7, 4).symbol, ChessPieces::King);
}

#[test]
fn decoding_the_standard_string_matches_the_standard_position() {
    let decoded = empty_board_with(STANDARD);
    let direct = Board::new();
    for r in 0..8 {
        for f in 0..8 {
            assert_eq!(decoded.tile_at(r, f), direct.tile_at(r, f));
        }
    }
}

#[test]
fn decoder_tracks_positions_and_case() {
    let board = empty_board_with("8/8/3q4/8/8/2N5/8/8");
    let queen = board.tile_at(2, 3);
    assert_eq!(queen.symbol, ChessPieces::Queen);
    assert!(!queen.white);
    assert_eq!(queen.rank, 2);
    assert_eq!(queen.file, 3);
    let knight = board.tile_at(5, 2);
    assert_eq!(knight.symbol, ChessPieces::Knight);
    assert!(knight.white);
}

#[test]
fn decoder_expands_every_digit_in_a_rank() {
    let board = empty_board_with("r3r3/8/8/8/8/8/8/4K3");
    assert_eq!(board.tile_at(0, 0).symbol, ChessPieces::Rook);
    assert_eq!(board.tile_at(0, 4).symbol, ChessPieces::Rook);
    for f in [1, 2, 3, 5, 6, 7] {
        assert_eq!(board.tile_at(0, f).symbol, ChessPieces::Empty);
    }
    assert_eq!(board.tile_at(7, 4).symbol, ChessPieces::King);
}

#[test]
fn decoder_rejects_wrong_rank_counts() {
    assert_eq!(
        Board::from_placement("8/8/8/8/8/8/8").unwrap_err(),
        DecodeError::RankCount(7)
    );
    assert_eq!(
        Board::from_placement("8/8/8/8/8/8/8/8/8").unwrap_err(),
        DecodeError::RankCount(9)
    );
}

#[test]
fn decoder_names_the_offending_rank() {
    assert_eq!(
        Board::from_placement("9/8/8/8/8/8/8/8").unwrap_err(),
        DecodeError::RankWidth(0)
    );
    assert_eq!(
        Board::from_placement("8/8/8/ppp/8/8/8/8").unwrap_err(),
        DecodeError::RankWidth(3)
    );
    // A width error is reported before the rank count is judged.
    assert_eq!(
        Board::from_placement("8/8/ppppppppp/8").unwrap_err(),
        DecodeError::RankWidth(2)
    );
}

#[test]
fn unknown_letters_decode_to_empty_tiles() {
    assert_eq!(ChessPieces::from_fen('q'), ChessPieces::Queen);
    assert_eq!(ChessPieces::from_fen('K'), ChessPieces::King);
    assert_eq!(ChessPieces::from_fen('x'), ChessPieces::Empty);
    let board = empty_board_with("xxxxxxxx/8/8/8/8/8/8/8");
    assert_eq!(board.tile_at(0, 0).symbol, ChessPieces::Empty);
}

#[test]
fn pawn_double_advance_offered_from_start_rank() {
    let board = Board::new();
    let pawn = board.tile_at(6, 4);
    let moves = board.possible_moves(pawn);
    assert!(moves.contains(&(5, 4)));
    assert!(moves.contains(&(4, 4)));
    assert_eq!(moves.len(), 2);
}

#[test]
fn pawn_double_advance_withheld_when_blocked() {
    // A blocker directly ahead removes both advances.
    let near = empty_board_with("8/8/8/8/8/4n3/4P3/8");
    let pawn = near.tile_at(6, 4);
    let moves = near.possible_moves(pawn);
    assert!(moves.is_empty());

    // A blocker on the double-advance tile leaves only the single step.
    let far = empty_board_with("8/8/8/8/4n3/8/4P3/8");
    let pawn = far.tile_at(6, 4);
    let moves = far.possible_moves(pawn);
    assert_eq!(moves, vec![(5, 4)]);

    // Off the starting rank only the single step is offered.
    let advanced = empty_board_with("8/8/8/8/8/4P3/8/8");
    let pawn = advanced.tile_at(5, 4);
    let moves = advanced.possible_moves(pawn);
    assert_eq!(moves, vec![(4, 4)]);
}

#[test]
fn pawn_captures_diagonally_forward() {
    let board = empty_board_with("8/8/8/3ppp2/4P3/8/8/8");
    let pawn = board.tile_at(4, 4);
    let moves = board.possible_moves(pawn);
    // Ahead is blocked; both forward diagonals hold black pieces.
    assert_eq!(moves, vec![(3, 3), (3, 5)]);
}

#[test]
fn rook_ray_never_skips_a_blocker() {
    // A piece of either color one step out excludes the tile two steps out.
    let own = empty_board_with("8/8/8/8/4RP2/8/8/8");
    let rook = own.tile_at(4, 4);
    let legal = own.filter_possible_moves(rook);
    assert!(!legal.contains(&(4, 5)));
    assert!(!legal.contains(&(4, 6)));

    let enemy = empty_board_with("8/8/8/8/4Rp2/8/8/8");
    let rook = enemy.tile_at(4, 4);
    let legal = enemy.filter_possible_moves(rook);
    assert!(legal.contains(&(4, 5)));
    assert!(!legal.contains(&(4, 6)));
}

#[test]
fn ray_blocker_included_iff_opposite_color() {
    // Blocker two steps out with an empty tile between.
    let capture = empty_board_with("8/8/8/8/4R1p1/8/8/8");
    let rook = capture.tile_at(4, 4);
    let legal = capture.filter_possible_moves(rook);
    assert!(legal.contains(&(4, 5)));
    assert!(legal.contains(&(4, 6)));
    assert!(!legal.contains(&(4, 7)));

    let own = empty_board_with("8/8/8/8/4R1P1/8/8/8");
    let rook = own.tile_at(4, 4);
    let legal = own.filter_possible_moves(rook);
    assert!(legal.contains(&(4, 5)));
    assert!(!legal.contains(&(4, 6)));
    assert!(!legal.contains(&(4, 7)));
}

#[test]
fn queen_unions_rook_and_bishop_rays() {
    let board = empty_board_with("8/8/8/8/4Q3/8/8/8");
    let queen = board.tile_at(4, 4);
    let moves = board.possible_moves(queen);
    // 14 orthogonal tiles and 13 diagonal ones on an empty board.
    assert_eq!(moves.len(), 27);
    assert!(moves.contains(&(4, 0)));
    assert!(moves.contains(&(0, 4)));
    assert!(moves.contains(&(0, 0)));
    assert!(moves.contains(&(7, 7)));
    assert!(moves.contains(&(1, 7)));
    assert!(moves.contains(&(7, 1)));
}

#[test]
fn leaper_destinations_stay_on_the_board() {
    let corner_knight = empty_board_with("N7/8/8/8/8/8/8/8");
    let knight = corner_knight.tile_at(0, 0);
    let corner_moves = corner_knight.possible_moves(knight);
    for &(r, f) in corner_moves.iter() {
        assert!(r < 8 && f < 8);
    }
    assert_eq!(corner_moves.len(), 2);

    let center_knight = empty_board_with("8/8/8/8/4N3/8/8/8");
    let knight = center_knight.tile_at(4, 4);
    let center_moves = center_knight.possible_moves(knight);
    assert_eq!(center_moves.len(), 8);
    assert!(corner_moves.len() < center_moves.len());

    let corner_king = empty_board_with("8/8/8/8/8/8/8/7K");
    let king = corner_king.tile_at(7, 7);
    let corner_king_moves = corner_king.possible_moves(king);
    assert_eq!(corner_king_moves.len(), 3);

    let center_king = empty_board_with("8/8/8/8/4K3/8/8/8");
    let king = center_king.tile_at(4, 4);
    let center_king_moves = center_king.possible_moves(king);
    assert_eq!(center_king_moves.len(), 8);
    assert!(corner_king_moves.len() < center_king_moves.len());
}

#[test]
fn knight_moves_match_offsets_in_order() {
    let board = empty_board_with("8/8/8/8/4N3/8/8/8");
    let knight = board.tile_at(4, 4);
    let moves = board.possible_moves(knight);
    // Offsets are (file delta, rank delta) pairs, tried in a fixed order.
    assert_eq!(
        moves,
        vec![(5, 6), (3, 6), (5, 2), (3, 2), (6, 5), (2, 5), (6, 3), (2, 3)]
    );
}

#[test]
fn rejected_move_leaves_the_board_unchanged() {
    let mut board = Board::new();
    board.moving = true;
    let pawn = board.tile_at(6, 4);
    let before = Board::new();
    let outcome = board.apply_move(pawn, 3, 4);
    assert_eq!(outcome, MoveOutcome::Rejected);
    for r in 0..8 {
        for f in 0..8 {
            assert_eq!(board.tile_at(r, f), before.tile_at(r, f));
        }
    }
    assert!(board.white_move);
    assert!(!board.moving);
}

#[test]
fn capturing_the_king_is_reported_and_still_flips_the_turn() {
    let mut board = empty_board_with("8/8/8/8/8/8/8/R3k3");
    let rook = board.tile_at(7, 0);
    let outcome = board.apply_move(rook, 7, 4);
    assert_eq!(outcome, MoveOutcome::Captured(ChessPieces::King));
    assert!(!board.white_move);
    assert_eq!(board.tile_at(7, 4).symbol, ChessPieces::Rook);
    assert_eq!(board.tile_at(7, 0).symbol, ChessPieces::Empty);

    let mut again = empty_board_with("8/8/8/8/8/8/8/R3k3");
    let rook = again.tile_at(7, 0);
    assert!(again.move_piece(rook, 7, 4));
}

#[test]
fn double_advance_from_the_standard_position() {
    let mut board = Board::new();
    let pawn = board.tile_at(6, 4);
    let outcome = board.apply_move(pawn, 4, 4);
    assert_eq!(outcome, MoveOutcome::Moved);
    assert!(!board.white_move);
    assert_eq!(board.tile_at(6, 4).symbol, ChessPieces::Empty);
    let moved = board.tile_at(4, 4);
    assert_eq!(moved.symbol, ChessPieces::Pawn);
    assert!(moved.white);
    assert_eq!(moved.rank, 4);
    assert_eq!(moved.file, 4);
}

#[test]
fn lone_bishop_reaches_both_full_diagonals() {
    let board = empty_board_with("8/8/8/8/8/8/8/2B5");
    let bishop = board.tile_at(7, 2);
    let legal = board.filter_possible_moves(bishop);
    let expected = [(6, 3), (5, 4), (4, 5), (3, 6), (2, 7), (6, 1), (5, 0)];
    assert_eq!(legal.len(), expected.len());
    for tile in expected.iter() {
        assert!(legal.contains(tile));
    }
}

#[test]
fn move_piece_updates_cached_coordinates() {
    let mut board = empty_board_with("8/8/8/8/8/8/8/R7");
    let rook = board.tile_at(7, 0);
    assert!(!board.move_piece(rook, 3, 0));
    let moved = board.tile_at(3, 0);
    assert_eq!(moved.rank, 3);
    assert_eq!(moved.file, 0);
    let vacated = board.tile_at(7, 0);
    assert_eq!(vacated.symbol, ChessPieces::Empty);
    assert_eq!(vacated.rank, 7);
    assert_eq!(vacated.file, 0);
    assert!(vacated.white);
}

#[test]
fn selection_helpers_record_and_clear() {
    let mut board = Board::new();
    let copy = board.set_selected(6, 4);
    assert_eq!(board.selected_piece, Some((6, 4)));
    assert_eq!(copy.selected_piece, Some((6, 4)));
    assert_eq!(copy.tile_at(6, 4), board.tile_at(6, 4));
    board.clear_selection();
    assert!(board.selected_piece.is_none());
}

#[test]
fn empty_tile_has_no_moves() {
    let board = Board::new();
    let none = Piece::none();
    assert_eq!(none.symbol, ChessPieces::Empty);
    let moves = board.possible_moves(board.tile_at(4, 4));
    assert!(moves.is_empty());
}

#[test]
fn directional_helpers_walk_to_the_first_blocker() {
    let board = Board::new();
    // The white queen's rook on the standard board: blocked on every side.
    assert!(board.valid_positions_left(7, 0, true).is_empty());
    assert!(board.valid_positions_right(7, 0, true).is_empty());
    assert!(board.valid_positions_up(7, 0, true).is_empty());
    // After clearing the pawn in front, the file opens up to black's pawn.
    let open = empty_board_with("rnbqkbnr/pppppppp/8/8/8/8/1PPPPPPP/RNBQKBNR");
    let up = open.valid_positions_up(7, 0, true);
    assert_eq!(up, vec![(6, 0), (5, 0), (4, 0), (3, 0), (2, 0), (1, 0)]);
    let diag = open.valid_positions_diagonal_positive(4, 4, true);
    assert!(diag.contains(&(3, 5)));
    let neg = open.piece_moves_diagonal_negative(4, 4, true);
    assert!(neg.contains(&(3, 3)));
}

#[test]
fn symbols_name_the_piece_kinds() {
    assert_eq!(ChessPieces::King.to_symbol(), "\u{2654}");
    assert_eq!(ChessPieces::Pawn.to_symbol(), "\u{2659}");
    assert_eq!(ChessPieces::Empty.to_symbol(), "_");
}

#[test]
fn piece_display_text_wraps_the_symbol_in_color_codes() {
    let hidden = Piece::none().get_symbol();
    assert_eq!(hidden, "\u{1b}[8m_\u{1b}[0m");

    let pawn = Piece { symbol: ChessPieces::Pawn, file: 0, rank: 6, white: true };
    let white_text = pawn.get_symbol();
    assert!(
        white_text == "\u{1b}[38;5;15m\u{2659}\u{1b}[39m"
            || white_text == "\u{1b}[m\u{2659}\u{1b}[m"
    );

    let black_pawn = Piece { symbol: ChessPieces::Pawn, file: 0, rank: 1, white: false };
    let red_text = black_pawn.get_symbol();
    assert!(
        red_text == "\u{1b}[38;5;9m\u{2659}\u{1b}[39m" || red_text == "\u{1b}[m\u{2659}\u{1b}[m"
    );
}

#[test]
fn query_board_checkers_odd_tiles() {
    let board = Board::new();
    let (piece, text) = board.query_board(7, 0);
    assert_eq!(piece.symbol, ChessPieces::Rook);
    // (7, 0) has odd rank + file: the symbol is wrapped in a background.
    assert!(text.contains('\u{2656}'));
    assert!(text.starts_with("\u{1b}[48;5;237m") || text.starts_with("\u{1b}[m"));
    let (_, plain) = board.query_board(7, 1);
    assert!(plain.contains('\u{2658}'));
}

#[test]
fn display_board_places_one_text_per_tile() {
    let board = Board::new();
    let rows = board.display_board();
    assert_eq!(rows.len(), 8);
    for (r, row) in rows.iter().enumerate() {
        assert_eq!(row.len(), 8);
        for (f, t) in row.iter().enumerate() {
            match t {
                terminal_chess::screen::Text::Plain(p) => {
                    assert_eq!(p.position_y, r);
                    assert_eq!(p.position_x, f * 2);
                    assert_eq!(p.length, 1);
                },
                _ => panic!("board tiles render as plain text"),
            }
        }
    }
}
