use vstd::prelude::*;

use crate::ansi;
use crate::screen::Text;

verus! {

/// The kind of occupant of a board tile. `Empty` marks a tile with no piece.
#[derive(Clone, Copy, PartialEq, Eq, Structural, Debug)]
pub enum ChessPieces {
    Empty,
    King,
    Queen,
    Rook,
    Bishop,
    Knight,
    Pawn,
}

/// One tile's occupant. `file` and `rank` cache the piece's own grid
/// position and must agree with the slot it occupies (see `Board::wf`).
#[derive(Clone, Copy, PartialEq, Eq, Structural, Debug)]
pub struct Piece {
    pub symbol: ChessPieces,
    pub file: usize,
    pub rank: usize,
    pub white: bool,
}

impl ChessPieces {
    /// The piece kind one placement letter denotes. Uppercase and
    /// lowercase letters name the same kind; any other character denotes
    /// an empty tile.
    pub open spec fn spec_from_fen(piece: char) -> ChessPieces {
        match piece {
            'K' | 'k' => ChessPieces::King,
            'Q' | 'q' => ChessPieces::Queen,
            'B' | 'b' => ChessPieces::Bishop,
            'R' | 'r' => ChessPieces::Rook,
            'N' | 'n' => ChessPieces::Knight,
            'P' | 'p' => ChessPieces::Pawn,
            _ => ChessPieces::Empty,
        }
    }

    /// Converts a placement character into a piece kind.
    pub fn from_fen(piece: char) -> (kind: ChessPieces)
        ensures
            kind == ChessPieces::spec_from_fen(piece),
    {
        match piece {
            'K' | 'k' => ChessPieces::King,
            'Q' | 'q' => ChessPieces::Queen,
            'B' | 'b' => ChessPieces::Bishop,
            'R' | 'r' => ChessPieces::Rook,
            'N' | 'n' => ChessPieces::Knight,
            'P' | 'p' => ChessPieces::Pawn,
            _ => ChessPieces::Empty,
        }
    }

    /// The display character of each piece kind; an underscore marks an
    /// empty tile.
    pub open spec fn spec_symbol(self) -> Seq<char> {
        match self {
            ChessPieces::Empty => seq!['_'],
            ChessPieces::King => seq!['\u{2654}'],
            ChessPieces::Queen => seq!['\u{2655}'],
            ChessPieces::Rook => seq!['\u{2656}'],
            ChessPieces::Bishop => seq!['\u{2657}'],
            ChessPieces::Knight => seq!['\u{2658}'],
            ChessPieces::Pawn => seq!['\u{2659}'],
        }
    }

    /// Returns the display character for the piece kind.
    pub fn to_symbol(&self) -> (s: String)
        ensures
            s@ == self.spec_symbol(),
    {
        let symbol = match self {
            ChessPieces::Empty => "_",
            ChessPieces::King => "\u{2654}",
            ChessPieces::Queen => "\u{2655}",
            ChessPieces::Rook => "\u{2656}",
            ChessPieces::Bishop => "\u{2657}",
            ChessPieces::Knight => "\u{2658}",
            ChessPieces::Pawn => "\u{2659}",
        };
        proof {
            reveal_strlit("_");
            reveal_strlit("\u{2654}");
            reveal_strlit("\u{2655}");
            reveal_strlit("\u{2656}");
            reveal_strlit("\u{2657}");
            reveal_strlit("\u{2658}");
            reveal_strlit("\u{2659}");
            assert(symbol@ =~= self.spec_symbol());
        }
        symbol.to_owned()
    }
}

/// The display text of a piece: its symbol, hidden for an empty tile,
/// white-colored for a white piece, red for a black one. The flag says
/// whether the environment has colors enabled.
pub open spec fn symbol_text(p: Piece, colors: bool) -> Seq<char> {
    if p.white {
        if p.symbol == ChessPieces::Empty {
            ansi::hidden_wrapped(p.symbol.spec_symbol())
        } else {
            ansi::fg_wrapped(seq!['5', ';', '1', '5'], p.symbol.spec_symbol(), colors)
        }
    } else {
        ansi::fg_wrapped(seq!['5', ';', '9'], p.symbol.spec_symbol(), colors)
    }
}

/// The display text of the tile at (rank, file): the occupant's symbol,
/// on tiles where rank + file is odd additionally on a grey background.
pub open spec fn tile_text(p: Piece, rank: int, file: int, c1: bool, c2: bool) -> Seq<char> {
    if (rank + file) % 2 == 0 {
        symbol_text(p, c1)
    } else {
        ansi::bg_wrapped(seq!['5', ';', '2', '3', '7'], symbol_text(p, c1), c2)
    }
}

impl Piece {
    /// The empty-tile sentinel; its color is never consulted and defaults to white.
    pub fn none() -> (p: Piece)
        ensures
            p == (Piece { symbol: ChessPieces::Empty, file: 0, rank: 0, white: true }),
    {
        Piece { symbol: ChessPieces::Empty, file: 0, rank: 0, white: true }
    }

    /// Returns the piece's display text: its symbol with the color (or,
    /// for an empty tile, the hiding) applied.
    pub fn get_symbol(&self) -> (s: String)
        ensures
            exists|colors: bool| s@ == symbol_text(*self, colors),
    {
        let symbol = self.symbol.to_symbol();
        match self.white {
            true => {
                if self.symbol == ChessPieces::Empty {
                    let styled = ansi::style_hidden(symbol.as_str());
                    proof {
                        assert(styled@ == symbol_text(*self, true));
                    }
                    styled
                } else {
                    let styled = ansi::style_white(symbol.as_str());
                    proof {
                        let c = choose|c: bool|
                            styled@ == ansi::fg_wrapped(seq!['5', ';', '1', '5'], symbol@, c);
                        assert(styled@ == symbol_text(*self, c));
                    }
                    styled
                }
            },
            false => {
                let styled = ansi::style_red(symbol.as_str());
                proof {
                    let c = choose|c: bool|
                        styled@ == ansi::fg_wrapped(seq!['5', ';', '9'], symbol@, c);
                    assert(styled@ == symbol_text(*self, c));
                }
                styled
            },
        }
    }
}

/// A chess position: an 8x8 grid of tiles (rank-major, rank 0 is the first
/// rank of the placement string), the side to move, and the caller-driven
/// interaction state (current selection and whether a move is in progress).
#[derive(Clone, Debug)]
pub struct Board {
    pub pieces: Vec<Vec<Piece>>,
    pub selected_piece: Option<(usize, usize)>,
    pub white_move: bool,
    pub moving: bool,
}

/// The two boards hold piece-for-piece equal grids.
pub open spec fn grid_eq(a: Board, b: Board) -> bool {
    forall|r: int, f: int|
        0 <= r < 8 && 0 <= f < 8 ==> #[trigger] a.spec_tile(r, f) == #[trigger] b.spec_tile(r, f)
}

/// The canonical starting occupant of tile (r, f): black's back rank on
/// rank 0 and its pawns on rank 1, white's pawns on rank 6 and its back
/// rank on rank 7, empty tiles in between.
pub open spec fn standard_tile(r: int, f: int) -> Piece {
    let kind = if r == 0 || r == 7 {
        if f == 0 || f == 7 {
            ChessPieces::Rook
        } else if f == 1 || f == 6 {
            ChessPieces::Knight
        } else if f == 2 || f == 5 {
            ChessPieces::Bishop
        } else if f == 3 {
            ChessPieces::Queen
        } else {
            ChessPieces::King
        }
    } else if r == 1 || r == 6 {
        ChessPieces::Pawn
    } else {
        ChessPieces::Empty
    };
    let white = r >= 2;
    Piece { symbol: kind, rank: r as usize, file: f as usize, white }
}

/// The eight knight offsets, as (file delta, rank delta) pairs, in the
/// order they are tried.
pub open spec fn knight_offsets() -> Seq<(i32, i32)> {
    seq![(2i32, 1i32), (2i32, -1i32), (-2i32, 1i32), (-2i32, -1i32), (1i32, 2i32), (1i32, -2i32), (-1i32, 2i32), (-1i32, -2i32)]
}

/// The eight king offsets, as (file delta, rank delta) pairs, in the
/// order they are tried.
pub open spec fn king_offsets() -> Seq<(i32, i32)> {
    seq![(-1i32, -1i32), (-1i32, 0i32), (-1i32, 1i32), (1i32, -1i32), (1i32, 0i32), (1i32, 1i32), (0i32, 1i32), (0i32, -1i32)]
}

/// Why a placement string was rejected: a rank (named by its index) that
/// does not expand to exactly eight tiles, or a wrong number of ranks.
#[derive(Clone, Copy, PartialEq, Eq, Structural, Debug)]
pub enum DecodeError {
    RankWidth(usize),
    RankCount(usize),
}

/// The placement field of a record: every character before the first space.
pub open spec fn placement_field(s: Seq<char>) -> Seq<char>
    decreases s.len(),
{
    if s.len() == 0 {
        s
    } else if s[0] == ' ' {
        Seq::empty()
    } else {
        seq![s[0]] + placement_field(s.skip(1))
    }
}

/// The '/'-separated rank substrings of a placement field, in order; a
/// field always has at least one.
pub open spec fn split_ranks(s: Seq<char>) -> Seq<Seq<char>>
    decreases s.len(),
{
    if s.len() == 0 {
        seq![Seq::<char>::empty()]
    } else {
        let rest = split_ranks(s.skip(1));
        if s[0] == '/' {
            seq![Seq::<char>::empty()] + rest
        } else {
            seq![seq![s[0]] + rest[0]] + rest.skip(1)
        }
    }
}

/// A placement character is a digit, standing for that many empty tiles.
pub open spec fn is_fen_digit(c: char) -> bool {
    48 <= c as u32 <= 57
}

/// The count of empty tiles a digit stands for.
pub open spec fn fen_digit_val(c: char) -> int {
    c as u32 - 48
}

/// An uppercase placement letter denotes a white piece.
pub open spec fn fen_upper(c: char) -> bool {
    65 <= c as u32 <= 90
}

/// The run of tiles one placement character denotes: a digit stands for
/// that many empty tiles, anything else for a single piece of its kind.
pub open spec fn char_tiles(c: char) -> Seq<(ChessPieces, bool)> {
    if is_fen_digit(c) {
        Seq::new(fen_digit_val(c) as nat, |i: int| (ChessPieces::Empty, true))
    } else {
        seq![(ChessPieces::spec_from_fen(c), fen_upper(c))]
    }
}

/// A rank substring expanded to the run of tiles it denotes.
pub open spec fn rank_tiles(line: Seq<char>) -> Seq<(ChessPieces, bool)>
    decreases line.len(),
{
    if line.len() == 0 {
        Seq::empty()
    } else {
        char_tiles(line[0]) + rank_tiles(line.skip(1))
    }
}

/// The tile runs of every rank substring of the record, in order.
pub open spec fn row_runs(s: Seq<char>) -> Seq<Seq<(ChessPieces, bool)>> {
    split_ranks(placement_field(s)).map_values(|line: Seq<char>| rank_tiles(line))
}

/// The index of the first row that does not hold exactly eight tiles,
/// or -1 when every row does.
pub open spec fn first_bad_row(rows: Seq<Seq<(ChessPieces, bool)>>) -> int
    decreases rows.len(),
{
    if rows.len() == 0 {
        -1
    } else if rows[0].len() != 8 {
        0
    } else {
        let r = first_bad_row(rows.skip(1));
        if r < 0 {
            -1
        } else {
            1 + r
        }
    }
}

/// The piece a decoded tile run entry stands for, at its grid position.
pub open spec fn piece_of(t: (ChessPieces, bool), r: int, f: int) -> Piece {
    Piece { symbol: t.0, white: t.1, rank: r as usize, file: f as usize }
}

/// A field splits into at least one rank substring.
proof fn lemma_split_ranks_nonempty(s: Seq<char>)
    ensures
        split_ranks(s).len() >= 1,
    decreases s.len(),
{
    if s.len() > 0 {
        lemma_split_ranks_nonempty(s.skip(1));
    }
}

/// Scanning for the first bad row can skip any prefix of good rows: when
/// the row right after a good prefix is bad it is the first bad one, and
/// when the good prefix is the whole list there is none.
proof fn lemma_first_bad_row_prefix(rows: Seq<Seq<(ChessPieces, bool)>>, k: int)
    requires
        0 <= k <= rows.len(),
        forall|j: int| 0 <= j < k ==> (#[trigger] rows[j]).len() == 8,
    ensures
        k < rows.len() && rows[k].len() != 8 ==> first_bad_row(rows) == k,
        k == rows.len() ==> first_bad_row(rows) == -1,
    decreases k, rows.len(),
{
    if rows.len() == 0 {
    } else if k == 0 {
        if rows[0].len() == 8 {
            lemma_first_bad_row_prefix(rows.skip(1), 0);
        }
    } else {
        assert(rows[0].len() == 8);
        assert forall|j: int| 0 <= j < k - 1 implies (#[trigger] rows.skip(1)[j]).len() == 8 by {
            assert(rows.skip(1)[j] == rows[j + 1]);
        }
        lemma_first_bad_row_prefix(rows.skip(1), k - 1);
    }
}

/// The result of submitting a move: rejected outright, moved onto an empty
/// tile, or captured the named piece kind.
#[derive(Clone, Copy, PartialEq, Eq, Structural, Debug)]
pub enum MoveOutcome {
    Rejected,
    Moved,
    Captured(ChessPieces),
}

/// What a successful move does to the board: the destination receives a
/// copy of the mover with refreshed coordinates, the origin becomes an
/// empty tile, the turn flips, and the interaction state is untouched.
pub open spec fn move_applied(pre: Board, post: Board, piece: Piece, nr: int, nf: int) -> bool {
    &&& forall|i: int, j: int|
        0 <= i < 8 && 0 <= j < 8 ==> #[trigger] post.spec_tile(i, j) == (if i == piece.rank && j
            == piece.file {
            Piece { symbol: ChessPieces::Empty, rank: piece.rank, file: piece.file, white: true }
        } else if i == nr && j == nf {
            Piece { symbol: piece.symbol, rank: nr as usize, file: nf as usize, white: piece.white }
        } else {
            pre.spec_tile(i, j)
        })
    &&& post.white_move == !pre.white_move
    &&& post.moving == pre.moving
    &&& post.selected_piece == pre.selected_piece
}

/// What a rejected move does to the board: nothing, except that the
/// in-progress-move flag is cleared.
pub open spec fn move_rejected(pre: Board, post: Board) -> bool {
    &&& grid_eq(pre, post)
    &&& post.white_move == pre.white_move
    &&& post.selected_piece == pre.selected_piece
    &&& post.moving == false
}

/// Two boards that share the same grid value are piece-for-piece equal.
proof fn lemma_pieces_eq_grid_eq(a: Board, b: Board)
    requires
        a.pieces == b.pieces,
    ensures
        grid_eq(a, b),
{
    assert forall|r: int, f: int|
        0 <= r < 8 && 0 <= f < 8 implies #[trigger] a.spec_tile(r, f) == #[trigger] b.spec_tile(
        r,
        f,
    ) by {}
}

/// Well-formedness carries over to any board with the same tiles.
proof fn lemma_grid_eq_wf(a: Board, b: Board)
    requires
        a.wf(),
        b.pieces@.len() == 8,
        forall|i: int| 0 <= i < 8 ==> (#[trigger] b.pieces@[i])@.len() == 8,
        grid_eq(a, b),
    ensures
        b.wf(),
{
    assert forall|r: int, f: int|
        0 <= r < 8 && 0 <= f < 8 implies (#[trigger] b.spec_tile(r, f)).rank == r && b.spec_tile(
        r,
        f,
    ).file == f by {
        assert(a.spec_tile(r, f) == b.spec_tile(r, f));
        assert(a.spec_tile(r, f).rank == r && a.spec_tile(r, f).file == f);
    }
}

/// The (rank, file) position k steps from (r, f) along direction (dr, df).
pub open spec fn ray_pos(r: int, f: int, dr: int, df: int, k: nat) -> (int, int)
    decreases k,
{
    if k == 0 {
        (r, f)
    } else {
        ray_pos(r + dr, f + df, dr, df, (k - 1) as nat)
    }
}

/// The position lies on the board.
pub open spec fn in_board(p: (int, int)) -> bool {
    0 <= p.0 < 8 && 0 <= p.1 < 8
}

/// An on-board position as a tile address.
pub open spec fn pos_tile(p: (int, int)) -> (usize, usize) {
    ((p.0 as usize), (p.1 as usize))
}

/// Every tile of a ray lies strictly on the ray's side of the origin:
/// along an axis the direction moves on, the tile is beyond the origin,
/// and along an axis it does not move on, the tile matches the origin.
proof fn lemma_ray_direction(b: Board, r: int, f: int, dr: int, df: int, white: bool, n: nat)
    ensures
        forall|t: (usize, usize)| #[trigger]
            b.ray_step(r, f, dr, df, white, n).contains(t) ==> ((dr == 0 ==> t.0 == r) && (dr > 0
                ==> t.0 > r) && (dr < 0 ==> t.0 < r) && (df == 0 ==> t.1 == f) && (df > 0 ==> t.1
                > f) && (df < 0 ==> t.1 < f)),
    decreases n,
{
    if n > 0 {
        let r2 = r + dr;
        let f2 = f + df;
        lemma_ray_direction(b, r2, f2, dr, df, white, (n - 1) as nat);
        assert forall|t: (usize, usize)| #[trigger]
            b.ray_step(r, f, dr, df, white, n).contains(t) implies ((dr == 0 ==> t.0 == r) && (dr
            > 0 ==> t.0 > r) && (dr < 0 ==> t.0 < r) && (df == 0 ==> t.1 == f) && (df > 0 ==> t.1
            > f) && (df < 0 ==> t.1 < f)) by {
            let s = b.ray_step(r, f, dr, df, white, n);
            let i = choose|i: int| 0 <= i < s.len() && s[i] == t;
            if 0 <= r2 < 8 && 0 <= f2 < 8 && !b.occupied(r2, f2) && i > 0 {
                let rest = b.ray_step(r2, f2, dr, df, white, (n - 1) as nat);
                assert(rest[i - 1] == t);
                assert(rest.contains(t));
            }
        }
    }
}

/// A ray offers its blocker exactly when the blocker holds the opposite
/// color: with the first k - 1 tiles along the ray empty and the k-th
/// occupied, the k-th tile is in the ray's result iff it is a capture.
proof fn lemma_ray_blocker_step(
    b: Board,
    r: int,
    f: int,
    dr: int,
    df: int,
    white: bool,
    k: nat,
    n: nat,
)
    requires
        1 <= k <= n,
        forall|j: nat|
            1 <= j < k ==> in_board(#[trigger] ray_pos(r, f, dr, df, j)) && !b.occupied(
                ray_pos(r, f, dr, df, j).0,
                ray_pos(r, f, dr, df, j).1,
            ),
        in_board(ray_pos(r, f, dr, df, k)),
        b.occupied(ray_pos(r, f, dr, df, k).0, ray_pos(r, f, dr, df, k).1),
    ensures
        b.ray_step(r, f, dr, df, white, n).contains(pos_tile(ray_pos(r, f, dr, df, k)))
            <==> b.spec_tile(
            ray_pos(r, f, dr, df, k).0,
            ray_pos(r, f, dr, df, k).1,
        ).white != white,
    decreases k,
{
    broadcast use vstd::seq_lib::lemma_seq_concat_contains_all_elements;

    reveal_with_fuel(ray_pos, 3);
    let pk = ray_pos(r, f, dr, df, k);
    let tk = pos_tile(pk);
    let r2 = r + dr;
    let f2 = f + df;
    if k == 1 {
        assert(pk == (r2, f2));
        let s = b.ray_step(r, f, dr, df, white, n);
        if b.spec_tile(r2, f2).white != white {
            assert(s == seq![tk]);
            assert(s[0] == tk);
        } else {
            assert(s =~= Seq::empty());
        }
    } else {
        assert(in_board(ray_pos(r, f, dr, df, 1)) && !b.occupied(
            ray_pos(r, f, dr, df, 1).0,
            ray_pos(r, f, dr, df, 1).1,
        ));
        assert(ray_pos(r, f, dr, df, 1) == (r2, f2));
        assert forall|j: nat|
            1 <= j < k - 1 implies in_board(#[trigger] ray_pos(r2, f2, dr, df, j)) && !b.occupied(
            ray_pos(r2, f2, dr, df, j).0,
            ray_pos(r2, f2, dr, df, j).1,
        ) by {
            assert(ray_pos(r, f, dr, df, (j + 1) as nat) == ray_pos(r2, f2, dr, df, j));
        }
        assert(ray_pos(r2, f2, dr, df, (k - 1) as nat) == pk);
        lemma_ray_blocker_step(b, r2, f2, dr, df, white, (k - 1) as nat, (n - 1) as nat);
        let head = seq![((r2 as usize), (f2 as usize))];
        let rest = b.ray_step(r2, f2, dr, df, white, (n - 1) as nat);
        assert(b.ray_step(r, f, dr, df, white, n) == head + rest);
        // The head tile is empty while the blocker is occupied, so they differ.
        if tk == head[0] {
            assert(pk.0 == r2 && pk.1 == f2);
            assert(false);
        }
        assert((head + rest).contains(tk) <==> rest.contains(tk));
    }
}

/// The blocker of a ray-cast is offered as a destination exactly when it
/// holds the opposite color (a capture); a same-colored blocker is
/// excluded. The blocker is the first occupied tile along the ray, k
/// steps out, every nearer tile being empty.
pub proof fn lemma_blocker_included_iff_capture(
    b: Board,
    r: int,
    f: int,
    dr: int,
    df: int,
    white: bool,
    k: nat,
)
    requires
        1 <= k <= 7,
        forall|j: nat|
            1 <= j < k ==> in_board(#[trigger] ray_pos(r, f, dr, df, j)) && !b.occupied(
                ray_pos(r, f, dr, df, j).0,
                ray_pos(r, f, dr, df, j).1,
            ),
        in_board(ray_pos(r, f, dr, df, k)),
        b.occupied(ray_pos(r, f, dr, df, k).0, ray_pos(r, f, dr, df, k).1),
    ensures
        b.ray(r, f, dr, df, white).contains(pos_tile(ray_pos(r, f, dr, df, k))) <==> b.spec_tile(
            ray_pos(r, f, dr, df, k).0,
            ray_pos(r, f, dr, df, k).1,
        ).white != white,
{
    lemma_ray_blocker_step(b, r, f, dr, df, white, k, 8);
}

/// A single ray cannot reach past a blocker standing one step out: the
/// tile two steps out along any direction is not offered by any ray once
/// the tile one step out along that direction is occupied.
proof fn lemma_ray_excludes_beyond_blocker(
    b: Board,
    r: int,
    f: int,
    dr: int,
    df: int,
    white: bool,
    d2r: int,
    d2f: int,
)
    requires
        -1 <= dr <= 1,
        -1 <= df <= 1,
        !(dr == 0 && df == 0),
        -1 <= d2r <= 1,
        -1 <= d2f <= 1,
        !(d2r == 0 && d2f == 0),
        in_board(ray_pos(r, f, d2r, d2f, 1)),
        b.occupied(ray_pos(r, f, d2r, d2f, 1).0, ray_pos(r, f, d2r, d2f, 1).1),
        in_board(ray_pos(r, f, d2r, d2f, 2)),
    ensures
        !b.ray(r, f, dr, df, white).contains(pos_tile(ray_pos(r, f, d2r, d2f, 2))),
{
    reveal_with_fuel(ray_pos, 4);
    let p1 = ray_pos(r, f, d2r, d2f, 1);
    let p2 = ray_pos(r, f, d2r, d2f, 2);
    assert(p1 == (r + d2r, f + d2f));
    assert(p2 == (r + d2r + d2r, f + d2f + d2f));
    let t2 = pos_tile(p2);
    if dr == d2r && df == d2f {
        // Along the blocked direction itself the ray stops at the blocker.
        if b.ray(r, f, dr, df, white).contains(t2) {
            let s = b.ray(r, f, dr, df, white);
            let i = choose|i: int| 0 <= i < s.len() && s[i] == t2;
            assert(b.occupied(r + dr, f + df));
            assert(s.len() >= 1);
            assert(s == seq![((r + dr) as usize, (f + df) as usize)]);
            assert(t2 == ((r + dr) as usize, (f + df) as usize));
            assert(p2.0 == p1.0 && p2.1 == p1.1);
            assert(false);
        }
    } else {
        // Along any other direction the tile lies off the ray's line.
        lemma_ray_direction(b, r, f, dr, df, white, 8);
        if b.ray(r, f, dr, df, white).contains(t2) {
            assert(false);
        }
    }
}

/// Ray-casts never skip a blocking piece: when the tile one step along a
/// ray direction from a rook or queen is occupied (by either color), the
/// tile two steps along that direction is not among the piece's legal
/// moves.
pub proof fn lemma_ray_never_skips_blocker(b: Board, p: Piece, d2r: int, d2f: int)
    requires
        b.wf(),
        p.rank < 8,
        p.file < 8,
        p.symbol == ChessPieces::Rook || p.symbol == ChessPieces::Queen,
        -1 <= d2r <= 1,
        -1 <= d2f <= 1,
        !(d2r == 0 && d2f == 0),
        in_board(ray_pos(p.rank as int, p.file as int, d2r, d2f, 1)),
        b.occupied(
            ray_pos(p.rank as int, p.file as int, d2r, d2f, 1).0,
            ray_pos(p.rank as int, p.file as int, d2r, d2f, 1).1,
        ),
        in_board(ray_pos(p.rank as int, p.file as int, d2r, d2f, 2)),
    ensures
        !b.spec_filter_possible_moves(p).contains(
            pos_tile(ray_pos(p.rank as int, p.file as int, d2r, d2f, 2)),
        ),
{
    broadcast use vstd::seq_lib::lemma_seq_concat_contains_all_elements;

    let r = p.rank as int;
    let f = p.file as int;
    let white = p.white;
    let t2 = pos_tile(ray_pos(r, f, d2r, d2f, 2));
    lemma_ray_excludes_beyond_blocker(b, r, f, 0, -1, white, d2r, d2f);
    lemma_ray_excludes_beyond_blocker(b, r, f, 0, 1, white, d2r, d2f);
    lemma_ray_excludes_beyond_blocker(b, r, f, -1, 0, white, d2r, d2f);
    lemma_ray_excludes_beyond_blocker(b, r, f, 1, 0, white, d2r, d2f);
    lemma_ray_excludes_beyond_blocker(b, r, f, -1, 1, white, d2r, d2f);
    lemma_ray_excludes_beyond_blocker(b, r, f, 1, -1, white, d2r, d2f);
    lemma_ray_excludes_beyond_blocker(b, r, f, -1, -1, white, d2r, d2f);
    lemma_ray_excludes_beyond_blocker(b, r, f, 1, 1, white, d2r, d2f);
    assert(!b.spec_possible_moves(p).contains(t2));
    lemma_filter_legal_contains(b, white, b.spec_possible_moves(p), t2);
}

/// The double advance of a pawn is offered exactly when the pawn stands
/// on its starting rank and both tiles ahead of it are empty.
pub proof fn lemma_pawn_double_advance(b: Board, p: Piece)
    requires
        p.symbol == ChessPieces::Pawn,
        p.rank < 8,
        p.file < 8,
    ensures
        p.white && p.rank >= 2 ==> (b.spec_possible_moves(p).contains(
            (((p.rank - 2) as usize), p.file),
        ) <==> p.rank == 6 && !b.occupied(p.rank - 1, p.file as int) && !b.occupied(
            p.rank - 2,
            p.file as int,
        )),
        !p.white ==> (b.spec_possible_moves(p).contains(
            ((p.rank + 2) as usize, p.file),
        ) <==> p.rank == 1 && !b.occupied(p.rank + 1, p.file as int) && !b.occupied(
            p.rank + 2,
            p.file as int,
        )),
{
    broadcast use vstd::seq_lib::lemma_seq_concat_contains_all_elements;

    lemma_possible_moves_in_bounds(b, p);
    let s = b.spec_possible_moves(p);
    if p.white {
        if p.rank >= 2 {
            lemma_pawn_double_advance_white(b, p);
        }
    } else {
        let t = (((p.rank + 2) as usize), p.file);
        if p.rank == 1 && !b.occupied(p.rank + 1, p.file as int) && !b.occupied(
            p.rank + 2,
            p.file as int,
        ) {
            assert(s.contains(t)) by {
                assert(s[1] == t);
            }
        }
        if s.contains(t) {
            let i = choose|i: int| 0 <= i < s.len() && s[i] == t;
            if !(p.rank == 1 && !b.occupied(p.rank + 1, p.file as int) && !b.occupied(
                p.rank + 2,
                p.file as int,
            )) {
                assert(t.0 < 8);
                assert(false);
            }
        }
    }
}

/// The white half of the double-advance law, for a pawn standing low
/// enough that the destination two ranks ahead exists.
proof fn lemma_pawn_double_advance_white(b: Board, p: Piece)
    requires
        p.symbol == ChessPieces::Pawn,
        p.white,
        2 <= p.rank < 8,
        p.file < 8,
    ensures
        b.spec_possible_moves(p).contains((((p.rank - 2) as usize), p.file)) <==> p.rank == 6
            && !b.occupied(p.rank - 1, p.file as int) && !b.occupied(p.rank - 2, p.file as int),
{
    broadcast use vstd::seq_lib::lemma_seq_concat_contains_all_elements;

    lemma_possible_moves_in_bounds(b, p);
    let s = b.spec_possible_moves(p);
    {
        let t = (((p.rank - 2) as usize), p.file);
        if p.rank == 6 && !b.occupied(p.rank - 1, p.file as int) && !b.occupied(
            p.rank - 2,
            p.file as int,
        ) {
            assert(s.contains(t)) by {
                assert(s[1] == t);
            }
        }
        if s.contains(t) {
            let i = choose|i: int| 0 <= i < s.len() && s[i] == t;
            if !(p.rank == 6 && !b.occupied(p.rank - 1, p.file as int) && !b.occupied(
                p.rank - 2,
                p.file as int,
            )) {
                assert(t.0 < 8);
                assert(false);
            }
        }
    }
}

/// Reports whether the tile (rank, file) occurs in the list.
fn contains_tile(v: &Vec<(usize, usize)>, rank: usize, file: usize) -> (found: bool)
    ensures
        found == v@.contains((rank, file)),
{
    let mut i: usize = 0;
    while i < v.len()
        invariant
            i <= v@.len(),
            forall|k: int| 0 <= k < i ==> #[trigger] v@[k] != (rank, file),
        decreases v@.len() - i,
    {
        let t = v[i];
        if t.0 == rank && t.1 == file {
            proof {
                assert(v@[i as int] == (rank, file));
            }
            return true;
        }
        i += 1;
    }
    proof {
        assert forall|k: int| 0 <= k < v@.len() implies #[trigger] v@[k] != (rank, file) by {}
    }
    false
}

/// Every tile a ray yields lies on the board.
pub proof fn lemma_ray_step_bounds(b: Board, r: int, f: int, dr: int, df: int, white: bool, n: nat)
    ensures
        forall|t: (usize, usize)| #[trigger]
            b.ray_step(r, f, dr, df, white, n).contains(t) ==> t.0 < 8 && t.1 < 8,
    decreases n,
{
    if n > 0 {
        let r2 = r + dr;
        let f2 = f + df;
        lemma_ray_step_bounds(b, r2, f2, dr, df, white, (n - 1) as nat);
        assert forall|t: (usize, usize)| #[trigger]
            b.ray_step(r, f, dr, df, white, n).contains(t) implies t.0 < 8 && t.1 < 8 by {
            let s = b.ray_step(r, f, dr, df, white, n);
            let i = choose|i: int| 0 <= i < s.len() && s[i] == t;
            if 0 <= r2 < 8 && 0 <= f2 < 8 && !b.occupied(r2, f2) && i > 0 {
                let rest = b.ray_step(r2, f2, dr, df, white, (n - 1) as nat);
                assert(rest[i - 1] == t);
                assert(rest.contains(t));
            }
        }
    }
}

/// Every destination a leaper offset set yields lies on the board.
pub proof fn lemma_leaper_bounds(b: Board, rank: int, file: int, offs: Seq<(i32, i32)>)
    ensures
        forall|t: (usize, usize)| #[trigger]
            b.leaper_moves(rank, file, offs).contains(t) ==> t.0 < 8 && t.1 < 8,
    decreases offs.len(),
{
    if offs.len() > 0 {
        lemma_leaper_bounds(b, rank, file, offs.drop_first());
        let f2 = file + offs[0].0;
        let r2 = rank + offs[0].1;
        assert forall|t: (usize, usize)| #[trigger]
            b.leaper_moves(rank, file, offs).contains(t) implies t.0 < 8 && t.1 < 8 by {
            let s = b.leaper_moves(rank, file, offs);
            let rest = b.leaper_moves(rank, file, offs.drop_first());
            let i = choose|i: int| 0 <= i < s.len() && s[i] == t;
            if 0 <= f2 < 8 && 0 <= r2 < 8 {
                if i > 0 {
                    assert(rest[i - 1] == t);
                    assert(rest.contains(t));
                }
            } else {
                assert(rest[i] == t);
                assert(rest.contains(t));
            }
        }
    }
}

/// Every candidate destination of a piece on the board lies on the board.
pub proof fn lemma_possible_moves_in_bounds(b: Board, p: Piece)
    requires
        p.rank < 8,
        p.file < 8,
    ensures
        forall|t: (usize, usize)| #[trigger]
            b.spec_possible_moves(p).contains(t) ==> t.0 < 8 && t.1 < 8,
{
    broadcast use vstd::seq_lib::lemma_seq_concat_contains_all_elements;

    let r = p.rank as int;
    let f = p.file as int;
    lemma_ray_step_bounds(b, r, f, 0, -1, p.white, 8);
    lemma_ray_step_bounds(b, r, f, 0, 1, p.white, 8);
    lemma_ray_step_bounds(b, r, f, -1, 0, p.white, 8);
    lemma_ray_step_bounds(b, r, f, 1, 0, p.white, 8);
    lemma_ray_step_bounds(b, r, f, -1, 1, p.white, 8);
    lemma_ray_step_bounds(b, r, f, 1, -1, p.white, 8);
    lemma_ray_step_bounds(b, r, f, -1, -1, p.white, 8);
    lemma_ray_step_bounds(b, r, f, 1, 1, p.white, 8);
    lemma_leaper_bounds(b, r, f, knight_offsets());
    lemma_leaper_bounds(b, r, f, king_offsets());
}

/// A destination is among the filtered moves exactly when it is among the
/// unfiltered ones and is allowed: the blocker of a ray, in particular,
/// survives the filter exactly when it holds the opposite color.
pub proof fn lemma_filter_legal_contains(
    b: Board,
    white: bool,
    s: Seq<(usize, usize)>,
    t: (usize, usize),
)
    ensures
        b.filter_legal(white, s).contains(t) <==> s.contains(t) && b.spec_move_allowed(white, t),
{
    let pred = |x: (usize, usize)| b.spec_move_allowed(white, x);
    if b.filter_legal(white, s).contains(t) {
        s.lemma_filter_contains_rev(pred, t);
        let i = choose|i: int|
            0 <= i < s.filter(pred).len() && s.filter(pred)[i] == t;
        s.lemma_filter_pred(pred, i);
    }
    if s.contains(t) && b.spec_move_allowed(white, t) {
        let i = choose|i: int| 0 <= i < s.len() && s[i] == t;
        s.lemma_filter_contains(pred, i);
    }
}

/// A board sharing another's grid value is piece-for-piece equal to it
/// and inherits its well-formedness, whatever its scalar fields hold.
pub proof fn lemma_same_pieces_wf(a: Board, b: Board)
    requires
        a.wf(),
        a.pieces == b.pieces,
    ensures
        b.wf(),
        grid_eq(a, b),
{
    lemma_pieces_eq_grid_eq(a, b);
    lemma_grid_eq_wf(a, b);
}

impl Board {
    /// The occupant of tile (r, f).
    pub open spec fn spec_tile(self, r: int, f: int) -> Piece {
        self.pieces@[r]@[f]
    }

    /// Tile (r, f) holds a piece.
    pub open spec fn occupied(self, r: int, f: int) -> bool {
        self.spec_tile(r, f).symbol != ChessPieces::Empty
    }

    /// Well-formedness: the grid is exactly 8x8 and every tile's occupant
    /// caches its own coordinates.
    pub open spec fn wf(self) -> bool {
        &&& self.pieces@.len() == 8
        &&& forall|r: int| 0 <= r < 8 ==> (#[trigger] self.pieces@[r])@.len() == 8
        &&& forall|r: int, f: int|
            0 <= r < 8 && 0 <= f < 8 ==> (#[trigger] self.spec_tile(r, f)).rank == r
                && self.spec_tile(r, f).file == f
    }

    /// Returns the occupant of the given tile.
    pub fn tile_at(&self, rank: usize, file: usize) -> (p: Piece)
        requires
            self.wf(),
            rank < 8,
            file < 8,
        ensures
            p == self.spec_tile(rank as int, file as int),
    {
        self.pieces[rank][file]
    }

    /// Returns the occupant of the given tile together with its display
    /// text, checkered onto a grey background where rank + file is odd.
    pub fn query_board(&self, rank: usize, file: usize) -> (r: (Piece, String))
        requires
            self.wf(),
            rank < 8,
            file < 8,
        ensures
            r.0 == self.spec_tile(rank as int, file as int),
            exists|c1: bool, c2: bool|
                r.1@ == tile_text(
                    self.spec_tile(rank as int, file as int),
                    rank as int,
                    file as int,
                    c1,
                    c2,
                ),
    {
        let piece = self.pieces[rank][file];
        let piece_checker = (rank + file) % 2;
        let piece_text = if piece_checker == 0 {
            let t = piece.get_symbol();
            proof {
                let c1 = choose|c1: bool| t@ == symbol_text(piece, c1);
                assert(t@ == tile_text(piece, rank as int, file as int, c1, true));
            }
            t
        } else {
            let symbol = piece.get_symbol();
            let t = ansi::style_on_grey(symbol.as_str());
            proof {
                let c1 = choose|c1: bool| symbol@ == symbol_text(piece, c1);
                let c2 = choose|c2: bool|
                    t@ == ansi::bg_wrapped(seq!['5', ';', '2', '3', '7'], symbol@, c2);
                assert(t@ == tile_text(piece, rank as int, file as int, c1, c2));
            }
            t
        };
        (piece, piece_text)
    }

    /// Renders the board as one plain text element per tile, each placed
    /// two columns apart on its rank's row and holding the tile's display
    /// text.
    pub fn display_board(&self) -> (out: Vec<Vec<Text>>)
        requires
            self.wf(),
        ensures
            out@.len() == 8,
            forall|r: int| 0 <= r < 8 ==> (#[trigger] out@[r])@.len() == 8,
            forall|r: int, f: int|
                0 <= r < 8 && 0 <= f < 8 ==> {
                    let t = #[trigger] out@[r]@[f];
                    &&& t.wf()
                    &&& t is Plain
                    &&& t.spec_x() == f * 2
                    &&& t.spec_y() == r
                    &&& exists|c1: bool, c2: bool|
                        t.spec_text() == tile_text(self.spec_tile(r, f), r, f, c1, c2)
                },
    {
        let mut board_rows: Vec<Vec<Text>> = Vec::new();
        let mut rank: usize = 0;
        while rank < 8
            invariant
                self.wf(),
                rank <= 8,
                board_rows@.len() == rank,
                forall|r: int| 0 <= r < rank ==> (#[trigger] board_rows@[r])@.len() == 8,
                forall|r: int, f: int|
                    0 <= r < rank && 0 <= f < 8 ==> {
                        let t = #[trigger] board_rows@[r]@[f];
                        &&& t.wf()
                        &&& t is Plain
                        &&& t.spec_x() == f * 2
                        &&& t.spec_y() == r
                        &&& exists|c1: bool, c2: bool|
                            t.spec_text() == tile_text(self.spec_tile(r, f), r, f, c1, c2)
                    },
            decreases 8 - rank,
        {
            let mut row: Vec<Text> = Vec::new();
            let mut file: usize = 0;
            while file < 8
                invariant
                    self.wf(),
                    rank < 8,
                    file <= 8,
                    row@.len() == file,
                    forall|f: int|
                        0 <= f < file ==> {
                            let t = #[trigger] row@[f];
                            &&& t.wf()
                            &&& t is Plain
                            &&& t.spec_x() == f * 2
                            &&& t.spec_y() == rank
                            &&& exists|c1: bool, c2: bool|
                                t.spec_text() == tile_text(
                                    self.spec_tile(rank as int, f),
                                    rank as int,
                                    f,
                                    c1,
                                    c2,
                                )
                        },
                decreases 8 - file,
            {
                let piece_text = self.query_board(rank, file).1;
                let t = Text::new(piece_text, file * 2, rank, None);
                row.push(t);
                file += 1;
            }
            board_rows.push(row);
            rank += 1;
        }
        board_rows
    }

    /// Overwrites the occupant of tile (r, f), leaving every other tile and
    /// all scalar fields as they were.
    fn set_tile(&mut self, r: usize, f: usize, p: Piece)
        requires
            r < 8,
            f < 8,
            old(self).pieces@.len() == 8,
            forall|i: int| 0 <= i < 8 ==> (#[trigger] old(self).pieces@[i])@.len() == 8,
        ensures
            final(self).pieces@.len() == 8,
            forall|i: int| 0 <= i < 8 ==> (#[trigger] final(self).pieces@[i])@.len() == 8,
            forall|i: int, j: int|
                0 <= i < 8 && 0 <= j < 8 ==> #[trigger] final(self).spec_tile(i, j) == (if i
                    == r && j == f {
                    p
                } else {
                    old(self).spec_tile(i, j)
                }),
            final(self).selected_piece == old(self).selected_piece,
            final(self).white_move == old(self).white_move,
            final(self).moving == old(self).moving,
    {
        self.pieces[r].set(f, p);
    }

    /// Hands back a piece-for-piece copy of the board.
    fn duplicate(&self) -> (b: Board)
        requires
            self.pieces@.len() == 8,
            forall|i: int| 0 <= i < 8 ==> (#[trigger] self.pieces@[i])@.len() == 8,
        ensures
            b.pieces@.len() == 8,
            forall|i: int| 0 <= i < 8 ==> (#[trigger] b.pieces@[i])@.len() == 8,
            grid_eq(*self, b),
            b.selected_piece == self.selected_piece,
            b.white_move == self.white_move,
            b.moving == self.moving,
    {
        let mut rows: Vec<Vec<Piece>> = Vec::new();
        let mut r: usize = 0;
        while r < 8
            invariant
                r <= 8,
                rows@.len() == r,
                self.pieces@.len() == 8,
                forall|i: int| 0 <= i < 8 ==> (#[trigger] self.pieces@[i])@.len() == 8,
                forall|i: int| 0 <= i < r ==> (#[trigger] rows@[i])@.len() == 8,
                forall|i: int, j: int|
                    0 <= i < r && 0 <= j < 8 ==> #[trigger] rows@[i]@[j] == self.pieces@[i]@[j],
            decreases 8 - r,
        {
            let mut row: Vec<Piece> = Vec::new();
            let mut f: usize = 0;
            while f < 8
                invariant
                    f <= 8,
                    r < 8,
                    row@.len() == f,
                    self.pieces@.len() == 8,
                    forall|i: int| 0 <= i < 8 ==> (#[trigger] self.pieces@[i])@.len() == 8,
                    forall|j: int| 0 <= j < f ==> #[trigger] row@[j] == self.pieces@[r as int]@[j],
                decreases 8 - f,
            {
                row.push(self.pieces[r][f]);
                f += 1;
            }
            rows.push(row);
            r += 1;
        }
        Board {
            pieces: rows,
            selected_piece: self.selected_piece,
            white_move: self.white_move,
            moving: self.moving,
        }
    }

    /// The tiles a ray reaches from (r, f) in direction (dr, df), nearest
    /// first, with at most `n` steps: empty tiles up to the first occupied
    /// one, which is kept exactly when it holds the opposite color.
    pub open spec fn ray_step(self, r: int, f: int, dr: int, df: int, white: bool, n: nat) -> Seq<
        (usize, usize),
    >
        decreases n,
    {
        if n == 0 {
            Seq::empty()
        } else {
            let r2 = r + dr;
            let f2 = f + df;
            if !(0 <= r2 < 8 && 0 <= f2 < 8) {
                Seq::empty()
            } else if !self.occupied(r2, f2) {
                seq![((r2 as usize), (f2 as usize))] + self.ray_step(
                    r2,
                    f2,
                    dr,
                    df,
                    white,
                    (n - 1) as nat,
                )
            } else if self.spec_tile(r2, f2).white != white {
                seq![((r2 as usize), (f2 as usize))]
            } else {
                Seq::empty()
            }
        }
    }

    /// The full ray-cast from (r, f) in direction (dr, df): eight steps
    /// suffice to cross the board.
    pub open spec fn ray(self, r: int, f: int, dr: int, df: int, white: bool) -> Seq<
        (usize, usize),
    > {
        self.ray_step(r, f, dr, df, white, 8)
    }

    /// Walks outward from (rank, file) one tile at a time in direction
    /// (dr, df), collecting the ray's tiles nearest first.
    #[verifier::rlimit(50)]
    fn ray_walk(&self, rank: usize, file: usize, dr: i32, df: i32, white: bool) -> (moves: Vec<
        (usize, usize),
    >)
        requires
            self.wf(),
            rank < 8,
            file < 8,
            -1 <= dr <= 1,
            -1 <= df <= 1,
            dr != 0 || df != 0,
        ensures
            moves@ == self.ray(rank as int, file as int, dr as int, df as int, white),
    {
        let mut moves: Vec<(usize, usize)> = Vec::new();
        let mut r: usize = rank;
        let mut f: usize = file;
        let ghost mut d: int = 0;
        loop
            invariant_except_break
                self.ray(rank as int, file as int, dr as int, df as int, white) == moves@
                    + self.ray_step(r as int, f as int, dr as int, df as int, white, (8 - d) as nat),
            invariant
                self.wf(),
                rank < 8,
                file < 8,
                r < 8,
                f < 8,
                -1 <= dr <= 1,
                -1 <= df <= 1,
                dr != 0 || df != 0,
                0 <= d <= 7,
                dr == 0 ==> r == rank,
                dr == 1 ==> r == rank + d,
                dr == -1 ==> r == rank - d,
                df == 0 ==> f == file,
                df == 1 ==> f == file + d,
                df == -1 ==> f == file - d,
            ensures
                moves@ == self.ray(rank as int, file as int, dr as int, df as int, white),
            decreases 8 - d,
        {
            let r2: i32 = r as i32 + dr;
            let f2: i32 = f as i32 + df;
            if r2 < 0 || r2 >= 8 || f2 < 0 || f2 >= 8 {
                proof {
                    assert(self.ray_step(
                        r as int,
                        f as int,
                        dr as int,
                        df as int,
                        white,
                        (8 - d) as nat,
                    ) =~= Seq::empty());
                    assert(moves@ + Seq::empty() =~= moves@);
                }
                break ;
            }
            let nr: usize = r2 as usize;
            let nf: usize = f2 as usize;
            let t = self.tile_at(nr, nf);
            if t.symbol == ChessPieces::Empty {
                moves.push((nr, nf));
                r = nr;
                f = nf;
                proof {
                    d = d + 1;
                    assert(self.ray(rank as int, file as int, dr as int, df as int, white)
                        =~= moves@ + self.ray_step(
                        r as int,
                        f as int,
                        dr as int,
                        df as int,
                        white,
                        (8 - d) as nat,
                    ));
                }
            } else {
                if t.white != white {
                    proof {
                        assert(self.ray_step(
                            r as int,
                            f as int,
                            dr as int,
                            df as int,
                            white,
                            (8 - d) as nat,
                        ) =~= seq![(nr, nf)]);
                    }
                    moves.push((nr, nf));
                    proof {
                        assert(moves@ =~= self.ray(
                            rank as int,
                            file as int,
                            dr as int,
                            df as int,
                            white,
                        ));
                    }
                } else {
                    proof {
                        assert(self.ray_step(
                            r as int,
                            f as int,
                            dr as int,
                            df as int,
                            white,
                            (8 - d) as nat,
                        ) =~= Seq::empty());
                        assert(moves@ =~= self.ray(
                            rank as int,
                            file as int,
                            dr as int,
                            df as int,
                            white,
                        ));
                    }
                }
                break ;
            }
        }
        moves
    }

    /// The tiles a rook-like mover reaches to the left of (rank, file).
    pub fn valid_positions_left(&self, rank: usize, file: usize, white: bool) -> (moves: Vec<
        (usize, usize),
    >)
        requires
            self.wf(),
            rank < 8,
            file < 8,
        ensures
            moves@ == self.ray(rank as int, file as int, 0, -1, white),
    {
        self.ray_walk(rank, file, 0, -1, white)
    }

    /// The tiles a rook-like mover reaches to the right of (rank, file).
    pub fn valid_positions_right(&self, rank: usize, file: usize, white: bool) -> (moves: Vec<
        (usize, usize),
    >)
        requires
            self.wf(),
            rank < 8,
            file < 8,
        ensures
            moves@ == self.ray(rank as int, file as int, 0, 1, white),
    {
        self.ray_walk(rank, file, 0, 1, white)
    }

    /// The tiles a rook-like mover reaches above (rank, file), toward rank 0.
    pub fn valid_positions_up(&self, rank: usize, file: usize, white: bool) -> (moves: Vec<
        (usize, usize),
    >)
        requires
            self.wf(),
            rank < 8,
            file < 8,
        ensures
            moves@ == self.ray(rank as int, file as int, -1, 0, white),
    {
        self.ray_walk(rank, file, -1, 0, white)
    }

    /// The tiles a rook-like mover reaches below (rank, file), toward rank 7.
    pub fn valid_positions_down(&self, rank: usize, file: usize, white: bool) -> (moves: Vec<
        (usize, usize),
    >)
        requires
            self.wf(),
            rank < 8,
            file < 8,
        ensures
            moves@ == self.ray(rank as int, file as int, 1, 0, white),
    {
        self.ray_walk(rank, file, 1, 0, white)
    }

    /// The tiles reached along the diagonal on which rank + file is
    /// constant: first the half above the origin (nearest tile first),
    /// then the half below it.
    pub fn valid_positions_diagonal_positive(&self, rank: usize, file: usize, white: bool) -> (moves:
        Vec<(usize, usize)>)
        requires
            self.wf(),
            rank < 8,
            file < 8,
        ensures
            moves@ == self.ray(rank as int, file as int, -1, 1, white) + self.ray(
                rank as int,
                file as int,
                1,
                -1,
                white,
            ),
    {
        let mut moves = self.ray_walk(rank, file, -1, 1, white);
        let mut below = self.ray_walk(rank, file, 1, -1, white);
        moves.append(&mut below);
        moves
    }

    /// The tiles reached along the diagonal on which file - rank is
    /// constant: first the half above the origin (nearest tile first),
    /// then the half below it.
    pub fn piece_moves_diagonal_negative(&self, rank: usize, file: usize, white: bool) -> (moves:
        Vec<(usize, usize)>)
        requires
            self.wf(),
            rank < 8,
            file < 8,
        ensures
            moves@ == self.ray(rank as int, file as int, -1, -1, white) + self.ray(
                rank as int,
                file as int,
                1,
                1,
                white,
            ),
    {
        let mut moves = self.ray_walk(rank, file, -1, -1, white);
        let mut below = self.ray_walk(rank, file, 1, 1, white);
        moves.append(&mut below);
        moves
    }

    /// Every move of a pawn at (rank, file): the single advance when the
    /// tile ahead is empty, behind it the double advance from the starting
    /// rank when both tiles ahead are empty, then the two forward-diagonal
    /// captures onto tiles held by the opposite color. White moves toward
    /// rank 0, black toward rank 7; a pawn on the far edge has no forward
    /// tile and so no advance.
    pub open spec fn pawn_moves(self, rank: int, file: int, white: bool) -> Seq<(usize, usize)> {
        if white {
            (if rank >= 1 && !self.occupied(rank - 1, file) {
                seq![(((rank - 1) as usize), (file as usize))] + (if rank == 6 && !self.occupied(
                    rank - 2,
                    file,
                ) {
                    seq![(((rank - 2) as usize), (file as usize))]
                } else {
                    Seq::empty()
                })
            } else {
                Seq::empty()
            }) + (if rank >= 1 && file >= 1 && self.spec_tile(rank - 1, file - 1).white != white
                && self.occupied(rank - 1, file - 1) {
                seq![(((rank - 1) as usize), ((file - 1) as usize))]
            } else {
                Seq::empty()
            }) + (if rank >= 1 && file <= 6 && self.spec_tile(rank - 1, file + 1).white != white
                && self.occupied(rank - 1, file + 1) {
                seq![(((rank - 1) as usize), ((file + 1) as usize))]
            } else {
                Seq::empty()
            })
        } else {
            (if rank <= 6 && !self.occupied(rank + 1, file) {
                seq![(((rank + 1) as usize), (file as usize))] + (if rank == 1 && !self.occupied(
                    rank + 2,
                    file,
                ) {
                    seq![(((rank + 2) as usize), (file as usize))]
                } else {
                    Seq::empty()
                })
            } else {
                Seq::empty()
            }) + (if rank <= 6 && file >= 1 && self.spec_tile(rank + 1, file - 1).white != white
                && self.occupied(rank + 1, file - 1) {
                seq![(((rank + 1) as usize), ((file - 1) as usize))]
            } else {
                Seq::empty()
            }) + (if rank <= 6 && file <= 6 && self.spec_tile(rank + 1, file + 1).white != white
                && self.occupied(rank + 1, file + 1) {
                seq![(((rank + 1) as usize), ((file + 1) as usize))]
            } else {
                Seq::empty()
            })
        }
    }

    /// The destinations a leaper (knight or king) reaches from
    /// (rank, file): each offset (file delta, rank delta) in order, kept
    /// exactly when both coordinates land inside the board.
    pub open spec fn leaper_moves(self, rank: int, file: int, offs: Seq<(i32, i32)>) -> Seq<
        (usize, usize),
    >
        decreases offs.len(),
    {
        if offs.len() == 0 {
            Seq::empty()
        } else {
            let f2 = file + offs[0].0;
            let r2 = rank + offs[0].1;
            let rest = self.leaper_moves(rank, file, offs.drop_first());
            if 0 <= f2 < 8 && 0 <= r2 < 8 {
                seq![((r2 as usize), (f2 as usize))] + rest
            } else {
                rest
            }
        }
    }

    /// Collects the in-bounds destinations of the given offset set, in order.
    fn leaper_walk(&self, rank: usize, file: usize, offsets: &Vec<(i32, i32)>) -> (moves: Vec<
        (usize, usize),
    >)
        requires
            rank < 8,
            file < 8,
            forall|i: int|
                0 <= i < offsets@.len() ==> -2 <= (#[trigger] offsets@[i]).0 <= 2 && -2
                    <= offsets@[i].1 <= 2,
        ensures
            moves@ == self.leaper_moves(rank as int, file as int, offsets@),
    {
        let mut moves: Vec<(usize, usize)> = Vec::new();
        let mut i: usize = 0;
        proof {
            assert(offsets@.skip(0) =~= offsets@);
            assert(moves@ + self.leaper_moves(rank as int, file as int, offsets@)
                =~= self.leaper_moves(rank as int, file as int, offsets@));
        }
        while i < offsets.len()
            invariant
                rank < 8,
                file < 8,
                i <= offsets@.len(),
                forall|k: int|
                    0 <= k < offsets@.len() ==> -2 <= (#[trigger] offsets@[k]).0 <= 2 && -2
                        <= offsets@[k].1 <= 2,
                self.leaper_moves(rank as int, file as int, offsets@) == moves@
                    + self.leaper_moves(rank as int, file as int, offsets@.skip(i as int)),
            decreases offsets@.len() - i,
        {
            let off = offsets[i];
            let f2: i32 = file as i32 + off.0;
            let r2: i32 = rank as i32 + off.1;
            proof {
                assert(offsets@.skip(i as int)[0] == offsets@[i as int]);
                assert(offsets@.skip(i as int).drop_first() =~= offsets@.skip(i as int + 1));
            }
            if f2 >= 0 && r2 >= 0 && f2 < 8 && r2 < 8 {
                moves.push((r2 as usize, f2 as usize));
            }
            proof {
                assert(self.leaper_moves(rank as int, file as int, offsets@) =~= moves@
                    + self.leaper_moves(rank as int, file as int, offsets@.skip(i as int + 1)));
            }
            i += 1;
        }
        proof {
            assert(offsets@.skip(offsets@.len() as int) =~= Seq::<(i32, i32)>::empty());
            assert(moves@ =~= self.leaper_moves(rank as int, file as int, offsets@));
        }
        moves
    }

    /// The four orthogonal rays of a rook, in the order left, right, up,
    /// down.
    pub open spec fn rook_moves(self, rank: int, file: int, white: bool) -> Seq<(usize, usize)> {
        self.ray(rank, file, 0, -1, white) + self.ray(rank, file, 0, 1, white) + self.ray(
            rank,
            file,
            -1,
            0,
            white,
        ) + self.ray(rank, file, 1, 0, white)
    }

    /// The four diagonal rays of a bishop: the two halves of the positive
    /// diagonal, then the two halves of the negative diagonal.
    pub open spec fn bishop_moves(self, rank: int, file: int, white: bool) -> Seq<(usize, usize)> {
        self.ray(rank, file, -1, 1, white) + self.ray(rank, file, 1, -1, white) + self.ray(
            rank,
            file,
            -1,
            -1,
            white,
        ) + self.ray(rank, file, 1, 1, white)
    }

    /// Every candidate destination of the given piece, before the
    /// own-color filter.
    pub open spec fn spec_possible_moves(self, p: Piece) -> Seq<(usize, usize)> {
        match p.symbol {
            ChessPieces::Pawn => self.pawn_moves(p.rank as int, p.file as int, p.white),
            ChessPieces::Rook => self.rook_moves(p.rank as int, p.file as int, p.white),
            ChessPieces::Knight => self.leaper_moves(
                p.rank as int,
                p.file as int,
                knight_offsets(),
            ),
            ChessPieces::Bishop => self.bishop_moves(p.rank as int, p.file as int, p.white),
            ChessPieces::Queen => self.rook_moves(p.rank as int, p.file as int, p.white)
                + self.bishop_moves(p.rank as int, p.file as int, p.white),
            ChessPieces::King => self.leaper_moves(p.rank as int, p.file as int, king_offsets()),
            ChessPieces::Empty => Seq::empty(),
        }
    }

    /// Computes every candidate destination of the given piece, dispatching
    /// on its kind.
    #[verifier::rlimit(50)]
    pub fn possible_moves(&self, origin_piece: Piece) -> (moves: Vec<(usize, usize)>)
        requires
            self.wf(),
            origin_piece.rank < 8,
            origin_piece.file < 8,
        ensures
            moves@ == self.spec_possible_moves(origin_piece),
    {
        let rank = origin_piece.rank;
        let file = origin_piece.file;
        let white = origin_piece.white;
        match origin_piece.symbol {
            ChessPieces::Pawn => {
                let mut moves: Vec<(usize, usize)> = Vec::new();
                if white {
                    if rank >= 1 {
                        let query_front_tile = self.tile_at(rank - 1, file);
                        if query_front_tile.symbol == ChessPieces::Empty {
                            moves.push((rank - 1, file));
                            if rank == 6 {
                                let query_far_front_tile = self.tile_at(rank - 2, file);
                                if query_far_front_tile.symbol == ChessPieces::Empty {
                                    moves.push((rank - 2, file));
                                }
                            }
                        }
                        if file > 0 {
                            let query_left_diagonal_tile = self.tile_at(rank - 1, file - 1);
                            if query_left_diagonal_tile.white != white
                                && query_left_diagonal_tile.symbol != ChessPieces::Empty {
                                moves.push((rank - 1, file - 1));
                            }
                        }
                        if file < 7 {
                            let query_right_diagonal_tile = self.tile_at(rank - 1, file + 1);
                            if query_right_diagonal_tile.white != white
                                && query_right_diagonal_tile.symbol != ChessPieces::Empty {
                                moves.push((rank - 1, file + 1));
                            }
                        }
                    }
                } else {
                    if rank < 7 {
                        let query_front_tile = self.tile_at(rank + 1, file);
                        if query_front_tile.symbol == ChessPieces::Empty {
                            moves.push((rank + 1, file));
                            if rank == 1 {
                                let query_far_front_tile = self.tile_at(rank + 2, file);
                                if query_far_front_tile.symbol == ChessPieces::Empty {
                                    moves.push((rank + 2, file));
                                }
                            }
                        }
                        if file > 0 {
                            let query_left_diagonal_tile = self.tile_at(rank + 1, file - 1);
                            if query_left_diagonal_tile.white != white
                                && query_left_diagonal_tile.symbol != ChessPieces::Empty {
                                moves.push((rank + 1, file - 1));
                            }
                        }
                        if file < 7 {
                            let query_right_diagonal_tile = self.tile_at(rank + 1, file + 1);
                            if query_right_diagonal_tile.white != white
                                && query_right_diagonal_tile.symbol != ChessPieces::Empty {
                                moves.push((rank + 1, file + 1));
                            }
                        }
                    }
                }
                proof {
                    assert(moves@ =~= self.pawn_moves(rank as int, file as int, white));
                }
                moves
            },
            ChessPieces::Rook => {
                let mut moves = self.valid_positions_left(rank, file, white);
                let mut right_moves = self.valid_positions_right(rank, file, white);
                let mut up_moves = self.valid_positions_up(rank, file, white);
                let mut down_moves = self.valid_positions_down(rank, file, white);
                moves.append(&mut right_moves);
                moves.append(&mut up_moves);
                moves.append(&mut down_moves);
                moves
            },
            ChessPieces::Knight => {
                let mut offsets: Vec<(i32, i32)> = Vec::new();
                offsets.push((2, 1));
                offsets.push((2, -1));
                offsets.push((-2, 1));
                offsets.push((-2, -1));
                offsets.push((1, 2));
                offsets.push((1, -2));
                offsets.push((-1, 2));
                offsets.push((-1, -2));
                proof {
                    assert(offsets@ =~= knight_offsets());
                }
                self.leaper_walk(rank, file, &offsets)
            },
            ChessPieces::Bishop => {
                let mut moves = self.valid_positions_diagonal_positive(rank, file, white);
                let mut moves_negative_diag = self.piece_moves_diagonal_negative(
                    rank,
                    file,
                    white,
                );
                moves.append(&mut moves_negative_diag);
                proof {
                    assert(moves@ =~= self.bishop_moves(rank as int, file as int, white));
                }
                moves
            },
            ChessPieces::Queen => {
                let mut moves = self.valid_positions_left(rank, file, white);
                let mut right_moves = self.valid_positions_right(rank, file, white);
                let mut up_moves = self.valid_positions_up(rank, file, white);
                let mut down_moves = self.valid_positions_down(rank, file, white);
                moves.append(&mut right_moves);
                moves.append(&mut up_moves);
                moves.append(&mut down_moves);
                let mut moves_positive_diag = self.valid_positions_diagonal_positive(
                    rank,
                    file,
                    white,
                );
                let mut moves_negative_diag = self.piece_moves_diagonal_negative(
                    rank,
                    file,
                    white,
                );
                moves.append(&mut moves_positive_diag);
                moves.append(&mut moves_negative_diag);
                proof {
                    assert(moves@ =~= self.rook_moves(rank as int, file as int, white)
                        + self.bishop_moves(rank as int, file as int, white));
                }
                moves
            },
            ChessPieces::King => {
                let mut offsets: Vec<(i32, i32)> = Vec::new();
                offsets.push((-1, -1));
                offsets.push((-1, 0));
                offsets.push((-1, 1));
                offsets.push((1, -1));
                offsets.push((1, 0));
                offsets.push((1, 1));
                offsets.push((0, 1));
                offsets.push((0, -1));
                proof {
                    assert(offsets@ =~= king_offsets());
                }
                self.leaper_walk(rank, file, &offsets)
            },
            ChessPieces::Empty => {
                Vec::new()
            },
        }
    }

    /// The canonical occupant of tile (rank, file) in the starting position.
    fn standard_piece_at(rank: usize, file: usize) -> (p: Piece)
        requires
            rank < 8,
            file < 8,
        ensures
            p == standard_tile(rank as int, file as int),
    {
        let kind = if rank == 0 || rank == 7 {
            if file == 0 || file == 7 {
                ChessPieces::Rook
            } else if file == 1 || file == 6 {
                ChessPieces::Knight
            } else if file == 2 || file == 5 {
                ChessPieces::Bishop
            } else if file == 3 {
                ChessPieces::Queen
            } else {
                ChessPieces::King
            }
        } else if rank == 1 || rank == 6 {
            ChessPieces::Pawn
        } else {
            ChessPieces::Empty
        };
        Piece { symbol: kind, file, rank, white: rank >= 2 }
    }

    /// Builds the standard starting position: white to move, nothing
    /// selected, every tile holding its canonical occupant.
    pub fn new() -> (b: Board)
        ensures
            b.wf(),
            forall|r: int, f: int|
                0 <= r < 8 && 0 <= f < 8 ==> #[trigger] b.spec_tile(r, f) == standard_tile(r, f),
            b.white_move == true,
            b.moving == false,
            b.selected_piece is None,
    {
        let mut rows: Vec<Vec<Piece>> = Vec::new();
        let mut r: usize = 0;
        while r < 8
            invariant
                r <= 8,
                rows@.len() == r,
                forall|k: int| 0 <= k < r ==> (#[trigger] rows@[k])@.len() == 8,
                forall|k: int, j: int|
                    0 <= k < r && 0 <= j < 8 ==> #[trigger] rows@[k]@[j] == standard_tile(k, j),
            decreases 8 - r,
        {
            let mut row: Vec<Piece> = Vec::new();
            let mut f: usize = 0;
            while f < 8
                invariant
                    r < 8,
                    f <= 8,
                    row@.len() == f,
                    forall|j: int|
                        0 <= j < f ==> #[trigger] row@[j] == standard_tile(r as int, j),
                decreases 8 - f,
            {
                row.push(Board::standard_piece_at(r, f));
                f += 1;
            }
            rows.push(row);
            r += 1;
        }
        Board { pieces: rows, selected_piece: None, white_move: true, moving: false }
    }

    /// Decodes a placement string into a board holding the described
    /// position, with white to move and nothing selected.
    pub fn from_placement(fen: &str) -> (result: Result<Board, DecodeError>)
        ensures
            ({
                let rows = row_runs(fen@);
                let bad = first_bad_row(rows);
                match result {
                    Ok(b) => {
                        &&& bad == -1
                        &&& rows.len() == 8
                        &&& b.wf()
                        &&& forall|r: int, f: int|
                            0 <= r < 8 && 0 <= f < 8 ==> #[trigger] b.spec_tile(r, f) == piece_of(
                                rows[r][f],
                                r,
                                f,
                            )
                        &&& b.white_move == true
                        &&& b.moving == false
                        &&& b.selected_piece is None
                    },
                    Err(e) => {
                        if bad >= 0 {
                            e == DecodeError::RankWidth(bad as usize)
                        } else {
                            rows.len() != 8 && e == DecodeError::RankCount(rows.len() as usize)
                        }
                    },
                }
            }),
    {
        match Board::from_fen(fen) {
            Ok(pieces) => {
                let b = Board { pieces, selected_piece: None, white_move: true, moving: false };
                Ok(b)
            },
            Err(e) => Err(e),
        }
    }

    /// Decodes a placement string into an 8x8 grid of tiles. The string's
    /// first space-separated field must hold exactly eight '/'-separated
    /// rank substrings, each expanding to exactly eight tiles; otherwise
    /// the offending rank (or the rank count) is reported.
    pub fn from_fen(fen: &str) -> (result: Result<Vec<Vec<Piece>>, DecodeError>)
        ensures
            ({
                let rows = row_runs(fen@);
                let bad = first_bad_row(rows);
                match result {
                    Ok(grid) => {
                        &&& bad == -1
                        &&& rows.len() == 8
                        &&& grid@.len() == 8
                        &&& forall|r: int| 0 <= r < 8 ==> (#[trigger] grid@[r])@.len() == 8
                        &&& forall|r: int, f: int|
                            0 <= r < 8 && 0 <= f < 8 ==> #[trigger] grid@[r]@[f] == piece_of(
                                rows[r][f],
                                r,
                                f,
                            )
                    },
                    Err(e) => {
                        if bad >= 0 {
                            e == DecodeError::RankWidth(bad as usize)
                        } else {
                            rows.len() != 8 && e == DecodeError::RankCount(rows.len() as usize)
                        }
                    },
                }
            }),
    {
        let ghost target: Seq<Seq<(ChessPieces, bool)>> = row_runs(fen@);
        let n = fen.unicode_len();
        let mut grid: Vec<Vec<Piece>> = Vec::new();
        let mut row: Vec<Piece> = Vec::new();
        let ghost mut done: Seq<Seq<(ChessPieces, bool)>> = Seq::empty();
        let ghost mut cur: Seq<(ChessPieces, bool)> = Seq::empty();
        let mut i: usize = 0;
        proof {
            assert(fen@.skip(0) =~= fen@);
            assert(done + seq![
                cur + rank_tiles(split_ranks(placement_field(fen@))[0]),
            ] + split_ranks(placement_field(fen@)).skip(1).map_values(
                |line: Seq<char>| rank_tiles(line),
            ) =~= target);
        }
        loop
            invariant_except_break
                i <= n,
                target == done + seq![
                    cur + rank_tiles(split_ranks(placement_field(fen@.skip(i as int)))[0]),
                ] + split_ranks(placement_field(fen@.skip(i as int))).skip(1).map_values(
                    |line: Seq<char>| rank_tiles(line),
                ),
            invariant
                n == fen@.len(),
                target == row_runs(fen@),
                grid@.len() == done.len(),
                forall|k: int| 0 <= k < done.len() ==> (#[trigger] done[k]).len() == 8,
                forall|k: int| 0 <= k < done.len() ==> (#[trigger] grid@[k])@.len() == 8,
                forall|k: int, j: int|
                    0 <= k < done.len() && 0 <= j < 8 ==> #[trigger] grid@[k]@[j] == piece_of(
                        done[k][j],
                        k,
                        j,
                    ),
                row@.len() == cur.len(),
                forall|j: int|
                    0 <= j < cur.len() ==> #[trigger] row@[j] == piece_of(
                        cur[j],
                        done.len() as int,
                        j,
                    ),
            ensures
                target == done.push(cur),
            decreases n - i,
        {
            proof {
                lemma_split_ranks_nonempty(placement_field(fen@.skip(i as int)));
            }
            if i >= n {
                proof {
                    assert(placement_field(fen@.skip(i as int)) =~= Seq::<char>::empty());
                    assert(target =~= done.push(cur));
                }
                break ;
            }
            let c = fen.get_char(i);
            proof {
                assert(fen@.skip(i as int)[0] == c);
                assert(fen@.skip(i as int).skip(1) =~= fen@.skip(i as int + 1));
            }
            if c == ' ' {
                proof {
                    assert(placement_field(fen@.skip(i as int)) =~= Seq::<char>::empty());
                    assert(target =~= done.push(cur));
                }
                break ;
            }
            proof {
                lemma_split_ranks_nonempty(placement_field(fen@.skip(i as int + 1)));
                assert(placement_field(fen@.skip(i as int)) =~= seq![c] + placement_field(
                    fen@.skip(i as int + 1),
                ));
                assert((seq![c] + placement_field(fen@.skip(i as int + 1))).skip(1)
                    =~= placement_field(fen@.skip(i as int + 1)));
            }
            if c == '/' {
                if row.len() != 8 {
                    proof {
                        let rows = target;
                        assert(rows[done.len() as int] =~= cur);
                        lemma_first_bad_row_prefix(rows, done.len() as int);
                    }
                    return Err(DecodeError::RankWidth(grid.len()));
                }
                grid.push(row);
                row = Vec::new();
                proof {
                    let field2 = placement_field(fen@.skip(i as int + 1));
                    assert(split_ranks(placement_field(fen@.skip(i as int))) =~= seq![
                        Seq::<char>::empty(),
                    ] + split_ranks(field2));
                    done = done.push(cur);
                    cur = Seq::empty();
                    assert(target =~= done + seq![
                        cur + rank_tiles(split_ranks(field2)[0]),
                    ] + split_ranks(field2).skip(1).map_values(
                        |line: Seq<char>| rank_tiles(line),
                    ));
                }
            } else {
                let u: u32 = c as u32;
                let ghost cur0 = cur;
                let ghost sr_here = split_ranks(placement_field(fen@.skip(i as int)));
                let ghost rest = split_ranks(placement_field(fen@.skip(i as int + 1)));
                proof {
                    assert(sr_here =~= seq![seq![c] + rest[0]] + rest.skip(1));
                    assert((seq![c] + rest[0]).skip(1) =~= rest[0]);
                    assert(rank_tiles(seq![c] + rest[0]) =~= char_tiles(c) + rank_tiles(rest[0]));
                    assert(sr_here.skip(1) =~= rest.skip(1));
                }
                if 48 <= u && u <= 57 {
                    let count = (u - 48) as usize;
                    let mut k: usize = 0;
                    while k < count
                        invariant
                            k <= count,
                            count == fen_digit_val(c),
                            is_fen_digit(c),
                            row@.len() == cur.len(),
                            cur == cur0 + Seq::new(
                                k as nat,
                                |t: int| (ChessPieces::Empty, true),
                            ),
                            grid@.len() == done.len(),
                            forall|j: int|
                                0 <= j < cur.len() ==> #[trigger] row@[j] == piece_of(
                                    cur[j],
                                    done.len() as int,
                                    j,
                                ),
                        decreases count - k,
                    {
                        row.push(
                            Piece {
                                symbol: ChessPieces::Empty,
                                file: row.len(),
                                rank: grid.len(),
                                white: true,
                            },
                        );
                        proof {
                            cur = cur.push((ChessPieces::Empty, true));
                            assert(cur =~= cur0 + Seq::new(
                                (k + 1) as nat,
                                |t: int| (ChessPieces::Empty, true),
                            ));
                        }
                        k += 1;
                    }
                    proof {
                        assert(cur =~= cur0 + char_tiles(c));
                    }
                } else {
                    let white = 65 <= u && u <= 90;
                    row.push(
                        Piece {
                            symbol: ChessPieces::from_fen(c),
                            file: row.len(),
                            rank: grid.len(),
                            white,
                        },
                    );
                    proof {
                        cur = cur.push((ChessPieces::spec_from_fen(c), fen_upper(c)));
                        assert(cur =~= cur0 + char_tiles(c));
                    }
                }
                proof {
                    assert(cur + rank_tiles(rest[0]) =~= cur0 + rank_tiles(sr_here[0]));
                    assert(target =~= done + seq![cur + rank_tiles(rest[0])] + rest.skip(
                        1,
                    ).map_values(|line: Seq<char>| rank_tiles(line)));
                }
            }
            i += 1;
        }
        if row.len() != 8 {
            proof {
                assert(target[done.len() as int] =~= cur);
                lemma_first_bad_row_prefix(target, done.len() as int);
            }
            return Err(DecodeError::RankWidth(grid.len()));
        }
        grid.push(row);
        proof {
            done = done.push(cur);
            lemma_first_bad_row_prefix(target, done.len() as int);
        }
        if grid.len() != 8 {
            return Err(DecodeError::RankCount(grid.len()));
        }
        Ok(grid)
    }

    /// A destination is allowed when its tile is empty or holds the
    /// opposite color.
    pub open spec fn spec_move_allowed(self, white: bool, t: (usize, usize)) -> bool {
        !self.occupied(t.0 as int, t.1 as int) || self.spec_tile(t.0 as int, t.1 as int).white
            != white
    }

    /// Keeps exactly the allowed destinations of `s`, in order.
    pub open spec fn filter_legal(self, white: bool, s: Seq<(usize, usize)>) -> Seq<
        (usize, usize),
    > {
        s.filter(|t: (usize, usize)| self.spec_move_allowed(white, t))
    }

    /// The piece's candidate moves with destinations onto its own color
    /// removed: this engine's notion of the legal moves.
    pub open spec fn spec_filter_possible_moves(self, p: Piece) -> Seq<(usize, usize)> {
        self.filter_legal(p.white, self.spec_possible_moves(p))
    }

    /// Filters the candidate moves down to those not landing on the
    /// mover's own pieces.
    pub fn filter_possible_moves(&self, origin_piece: Piece) -> (filtered: Vec<(usize, usize)>)
        requires
            self.wf(),
            origin_piece.rank < 8,
            origin_piece.file < 8,
        ensures
            filtered@ == self.spec_filter_possible_moves(origin_piece),
    {
        let possible_moves = self.possible_moves(origin_piece);
        proof {
            lemma_possible_moves_in_bounds(*self, origin_piece);
        }
        let mut filtered: Vec<(usize, usize)> = Vec::new();
        let mut i: usize = 0;
        proof {
            reveal(Seq::filter);
            assert(possible_moves@.subrange(0, 0) =~= Seq::<(usize, usize)>::empty());
        }
        while i < possible_moves.len()
            invariant
                self.wf(),
                i <= possible_moves@.len(),
                possible_moves@ == self.spec_possible_moves(origin_piece),
                forall|t: (usize, usize)| #[trigger]
                    possible_moves@.contains(t) ==> t.0 < 8 && t.1 < 8,
                filtered@ == self.filter_legal(
                    origin_piece.white,
                    possible_moves@.subrange(0, i as int),
                ),
            decreases possible_moves@.len() - i,
        {
            let tile = possible_moves[i];
            proof {
                assert(possible_moves@.contains(possible_moves@[i as int]));
            }
            let piece = self.tile_at(tile.0, tile.1);
            if piece.symbol == ChessPieces::Empty || piece.white != origin_piece.white {
                filtered.push(tile);
            }
            proof {
                reveal(Seq::filter);
                assert(possible_moves@.subrange(0, i as int + 1).drop_last() =~= possible_moves@
                    .subrange(0, i as int));
                assert(possible_moves@.subrange(0, i as int + 1).last() == tile);
            }
            i += 1;
        }
        proof {
            assert(possible_moves@.subrange(0, possible_moves@.len() as int) =~= possible_moves@);
        }
        filtered
    }

    /// Moves the given piece to (new_rank, new_file) when that destination
    /// is among its legal moves, reporting what the move did; an illegal
    /// destination leaves the position unchanged, clears the
    /// in-progress-move flag and reports `Rejected`.
    pub fn apply_move(&mut self, piece: Piece, new_rank: usize, new_file: usize) -> (outcome:
        MoveOutcome)
        requires
            old(self).wf(),
            piece.rank < 8,
            piece.file < 8,
        ensures
            final(self).wf(),
            ({
                let legal = old(self).spec_filter_possible_moves(piece);
                if legal.contains((new_rank, new_file)) {
                    &&& move_applied(*old(self), *final(self), piece, new_rank as int, new_file as int)
                    &&& outcome == (if old(self).occupied(new_rank as int, new_file as int) {
                        MoveOutcome::Captured(
                            old(self).spec_tile(new_rank as int, new_file as int).symbol,
                        )
                    } else {
                        MoveOutcome::Moved
                    })
                } else {
                    &&& move_rejected(*old(self), *final(self))
                    &&& outcome == MoveOutcome::Rejected
                }
            }),
    {
        let possible_moves = self.filter_possible_moves(piece);
        if contains_tile(&possible_moves, new_rank, new_file) {
            proof {
                lemma_possible_moves_in_bounds(*self, piece);
                lemma_filter_legal_contains(
                    *self,
                    piece.white,
                    self.spec_possible_moves(piece),
                    (new_rank, new_file),
                );
                assert(self.spec_possible_moves(piece).contains((new_rank, new_file)));
            }
            let piece_at_position = self.tile_at(new_rank, new_file);
            let old_rank = piece.rank;
            let old_file = piece.file;
            let moved_piece = Piece {
                symbol: piece.symbol,
                rank: new_rank,
                file: new_file,
                white: piece.white,
            };
            self.set_tile(new_rank, new_file, moved_piece);
            let ghost mid = *self;
            self.set_tile(
                old_rank,
                old_file,
                Piece { symbol: ChessPieces::Empty, rank: old_rank, file: old_file, white: true },
            );
            let ghost done = *self;
            self.white_move = !self.white_move;
            proof {
                assert forall|i: int, j: int|
                    0 <= i < 8 && 0 <= j < 8 implies (#[trigger] self.spec_tile(i, j)) == (if i
                    == piece.rank && j == piece.file {
                    Piece {
                        symbol: ChessPieces::Empty,
                        rank: piece.rank,
                        file: piece.file,
                        white: true,
                    }
                } else if i == new_rank && j == new_file {
                    Piece {
                        symbol: piece.symbol,
                        rank: new_rank,
                        file: new_file,
                        white: piece.white,
                    }
                } else {
                    old(self).spec_tile(i, j)
                }) && self.spec_tile(i, j).rank == i && self.spec_tile(i, j).file == j by {
                    assert(self.spec_tile(i, j) == done.spec_tile(i, j));
                    assert(done.spec_tile(i, j) == (if i == old_rank && j == old_file {
                        Piece {
                            symbol: ChessPieces::Empty,
                            rank: old_rank,
                            file: old_file,
                            white: true,
                        }
                    } else {
                        mid.spec_tile(i, j)
                    }));
                    assert(mid.spec_tile(i, j) == (if i == new_rank && j == new_file {
                        moved_piece
                    } else {
                        old(self).spec_tile(i, j)
                    }));
                    assert(old(self).spec_tile(i, j).rank == i && old(self).spec_tile(i, j).file
                        == j);
                }
            }
            if piece_at_position.symbol == ChessPieces::Empty {
                MoveOutcome::Moved
            } else {
                MoveOutcome::Captured(piece_at_position.symbol)
            }
        } else {
            self.moving = false;
            proof {
                lemma_pieces_eq_grid_eq(*old(self), *self);
                lemma_grid_eq_wf(*old(self), *self);
            }
            MoveOutcome::Rejected
        }
    }

    /// Moves a piece as `apply_move` does, reporting whether the move
    /// captured a king: this engine's only terminal condition.
    pub fn move_piece(&mut self, piece: Piece, new_rank: usize, new_file: usize) -> (captured_king:
        bool)
        requires
            old(self).wf(),
            piece.rank < 8,
            piece.file < 8,
        ensures
            final(self).wf(),
            ({
                let legal = old(self).spec_filter_possible_moves(piece);
                if legal.contains((new_rank, new_file)) {
                    &&& move_applied(*old(self), *final(self), piece, new_rank as int, new_file as int)
                    &&& captured_king == (old(self).spec_tile(
                        new_rank as int,
                        new_file as int,
                    ).symbol == ChessPieces::King)
                } else {
                    &&& move_rejected(*old(self), *final(self))
                    &&& captured_king == false
                }
            }),
    {
        let outcome = self.apply_move(piece, new_rank, new_file);
        match outcome {
            MoveOutcome::Captured(kind) => kind == ChessPieces::King,
            _ => false,
        }
    }

    /// Records (rank, file) as the current selection and hands back a copy
    /// of the updated board. Ownership and turn checks are the caller's
    /// responsibility.
    pub fn set_selected(&mut self, rank: usize, file: usize) -> (b: Board)
        requires
            old(self).wf(),
        ensures
            final(self).wf(),
            grid_eq(*old(self), *final(self)),
            final(self).white_move == old(self).white_move,
            final(self).moving == old(self).moving,
            final(self).selected_piece == Some((rank, file)),
            b.wf(),
            grid_eq(*final(self), b),
            b.selected_piece == final(self).selected_piece,
            b.white_move == final(self).white_move,
            b.moving == final(self).moving,
    {
        self.selected_piece = Some((rank, file));
        proof {
            lemma_pieces_eq_grid_eq(*old(self), *self);
            lemma_grid_eq_wf(*old(self), *self);
        }
        let b = self.duplicate();
        proof {
            lemma_grid_eq_wf(*self, b);
        }
        b
    }

    /// Drops the current selection.
    pub fn clear_selection(&mut self)
        requires
            old(self).wf(),
        ensures
            final(self).wf(),
            grid_eq(*old(self), *final(self)),
            final(self).white_move == old(self).white_move,
            final(self).moving == old(self).moving,
            final(self).selected_piece is None,
    {
        self.selected_piece = None;
        proof {
            lemma_pieces_eq_grid_eq(*old(self), *self);
            lemma_grid_eq_wf(*old(self), *self);
        }
    }
}

} // verus!
