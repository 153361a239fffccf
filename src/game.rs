use vstd::array::spec_array_update;
use vstd::prelude::*;

verus! {

/// Cells of the board are indexed `0..24`; the sentinel for "no cell" is `NULL_INDEX`.
pub type Idx = i32;

pub const NULL_INDEX: Idx = -1;

/// Plies of the placement phase on the nine-piece board.
pub const NINE: i32 = 18;

/// Plies of the placement phase on the twelve-piece board.
pub const TWELVE: i32 = 24;

/// The deepest iteration the search goes to, and the capacity of a principal variation.
pub const MAX_DEPTH: i32 = 50;

/// Plies without advancement at which the game is drawn.
pub const FIFTY_MOVE_PLIES: i32 = 100;

#[derive(Clone, Copy, Debug, PartialEq, Eq, Structural)]
pub enum Player {
    White,
    Black,
}

/// The content of a cell.
#[derive(Clone, Copy, Debug, PartialEq, Eq, Structural)]
pub enum Node {
    Empty,
    White,
    Black,
}

/// The board geometry: without diagonals (nine pieces a side) or with them (twelve).
#[derive(Clone, Copy, Debug, PartialEq, Eq, Structural)]
pub enum Variant {
    Nine,
    Twelve,
}

impl Variant {
    pub open spec fn spec_threshold(self) -> int {
        match self {
            Variant::Nine => NINE as int,
            Variant::Twelve => TWELVE as int,
        }
    }

    /// The ply at which the placement phase ends.
    pub fn threshold(&self) -> (r: i32)
        ensures
            r == self.spec_threshold(),
    {
        match self {
            Variant::Nine => NINE,
            Variant::Twelve => TWELVE,
        }
    }
}

pub open spec fn spec_opponent(p: Player) -> Player {
    match p {
        Player::White => Player::Black,
        Player::Black => Player::White,
    }
}

pub open spec fn node_of(p: Player) -> Node {
    match p {
        Player::White => Node::White,
        Player::Black => Node::Black,
    }
}

/// The other player.
pub fn opponent(player: Player) -> (r: Player)
    ensures
        r == spec_opponent(player),
{
    match player {
        Player::White => Player::Black,
        Player::Black => Player::White,
    }
}

/// The cell content that stands for a player's piece.
pub fn as_node(player: Player) -> (r: Node)
    ensures
        r == node_of(player),
{
    match player {
        Player::White => Node::White,
        Player::Black => Node::Black,
    }
}

#[derive(Clone, Copy, Debug, PartialEq, Eq, Structural)]
pub enum Move {
    Place { place_index: Idx },
    PlaceCapture { place_index: Idx, capture_index: Idx },
    Move { source_index: Idx, destination_index: Idx },
    MoveCapture { source_index: Idx, destination_index: Idx, capture_index: Idx },
}

pub open spec fn is_cell(i: int) -> bool {
    0 <= i < 24
}

impl Move {
    pub fn new_place(place_index: Idx) -> (r: Self)
        ensures
            r == (Move::Place { place_index }),
    {
        Move::Place { place_index }
    }

    pub fn new_place_capture(place_index: Idx, capture_index: Idx) -> (r: Self)
        ensures
            r == (Move::PlaceCapture { place_index, capture_index }),
    {
        Move::PlaceCapture { place_index, capture_index }
    }

    pub fn new_move(source_index: Idx, destination_index: Idx) -> (r: Self)
        ensures
            r == (Move::Move { source_index, destination_index }),
    {
        Move::Move { source_index, destination_index }
    }

    pub fn new_move_capture(source_index: Idx, destination_index: Idx, capture_index: Idx) -> (r: Self)
        ensures
            r == (Move::MoveCapture { source_index, destination_index, capture_index }),
    {
        Move::MoveCapture { source_index, destination_index, capture_index }
    }

    pub open spec fn spec_is_advancement(self) -> bool {
        !(self is Move)
    }

    /// Whether the move places or captures: only a plain slide is no advancement.
    pub fn is_advancement(&self) -> (r: bool)
        ensures
            r == self.spec_is_advancement(),
    {
        match self {
            Move::Move { .. } => false,
            _ => true,
        }
    }

    /// All indices of the move name cells of the board.
    pub open spec fn on_board(self) -> bool {
        match self {
            Move::Place { place_index } => is_cell(place_index as int),
            Move::PlaceCapture { place_index, capture_index } => is_cell(place_index as int)
                && is_cell(capture_index as int),
            Move::Move { source_index, destination_index } => is_cell(source_index as int)
                && is_cell(destination_index as int),
            Move::MoveCapture { source_index, destination_index, capture_index } => is_cell(
                source_index as int,
            ) && is_cell(destination_index as int) && is_cell(capture_index as int),
        }
    }

    /// Whether all indices of the move name cells of the board.
    pub fn is_on_board(&self) -> (r: bool)
        ensures
            r == self.on_board(),
    {
        match *self {
            Move::Place { place_index } => 0 <= place_index && place_index < 24,
            Move::PlaceCapture { place_index, capture_index } => 0 <= place_index && place_index
                < 24 && 0 <= capture_index && capture_index < 24,
            Move::Move { source_index, destination_index } => 0 <= source_index && source_index
                < 24 && 0 <= destination_index && destination_index < 24,
            Move::MoveCapture { source_index, destination_index, capture_index } => 0
                <= source_index && source_index < 24 && 0 <= destination_index && destination_index
                < 24 && 0 <= capture_index && capture_index < 24,
        }
    }
}

impl Default for Move {
    fn default() -> (r: Self)
        ensures
            r == (Move::Place { place_index: NULL_INDEX }),
    {
        Move::Place { place_index: NULL_INDEX }
    }
}

pub type Board = [Node; 24];

/// Number of cells among the first `n` that hold `node`.
pub open spec fn count_upto(b: Seq<Node>, node: Node, n: int) -> int
    decreases n,
{
    if n <= 0 {
        0
    } else {
        count_upto(b, node, n - 1) + if b[n - 1] == node {
            1int
        } else {
            0int
        }
    }
}

pub open spec fn count_of(b: Seq<Node>, node: Node) -> int {
    count_upto(b, node, 24)
}

pub proof fn lemma_count_bounds(b: Seq<Node>, node: Node, n: int)
    requires
        n >= 0,
    ensures
        0 <= count_upto(b, node, n) <= n,
    decreases n,
{
    if n > 0 {
        lemma_count_bounds(b, node, n - 1);
    }
}

/// Number of cells of a board that hold `node`.
pub fn count_pieces(board: &Board, node: Node) -> (r: i32)
    ensures
        r == count_of(board@, node),
{
    let mut result: i32 = 0;
    let mut i: usize = 0;
    while i < 24
        invariant
            i <= 24,
            result == count_upto(board@, node, i as int),
        decreases 24 - i,
    {
        proof {
            lemma_count_bounds(board@, node, i as int);
        }
        if board[i] == node {
            result = result + 1;
        }
        i = i + 1;
    }
    result
}

/// A board, the player to move and the plies played since the start of the game.
#[derive(Clone, Copy, Debug, PartialEq, Eq)]
pub struct Position {
    pub board: Board,
    pub player: Player,
    pub plies: i32,
}

impl Default for Position {
    fn default() -> (r: Self)
        ensures
            r.is_initial(),
    {
        Position { board: [Node::Empty; 24], player: Player::White, plies: 0 }
    }
}

impl Position {
    /// The empty board, White to move, no ply played.
    pub open spec fn is_initial(self) -> bool {
        &&& forall|i: int| 0 <= i < 24 ==> self.board@[i] == Node::Empty
        &&& self.player == Player::White
        &&& self.plies == 0
    }

    pub open spec fn spec_count(self) -> int {
        count_of(self.board@, node_of(self.player))
    }

    /// The number of pieces of the player to move.
    pub fn count_player_pieces(&self) -> (r: i32)
        ensures
            r == self.spec_count(),
    {
        count_pieces(&self.board, as_node(self.player))
    }

    pub open spec fn spec_game_over_material(self, variant: Variant) -> bool {
        self.plies >= variant.spec_threshold() && self.spec_count() < 3
    }

    /// Past the placement phase, the player to move has lost once fewer than three pieces remain.
    pub fn is_game_over_material(&self, variant: Variant) -> (r: bool)
        ensures
            r == self.spec_game_over_material(variant),
    {
        if self.plies < variant.threshold() {
            return false;
        }
        self.count_player_pieces() < 3
    }

    pub open spec fn spec_eq(self, other: Position, variant: Variant) -> bool {
        self.board@ == other.board@ && self.player == other.player && self.plies
            >= variant.spec_threshold() && other.plies >= variant.spec_threshold()
    }

    /// Whether two positions count as the same for repetition: equal boards and players,
    /// both past the placement phase.
    pub fn eq(&self, other: &Position, variant: Variant) -> (r: bool)
        ensures
            r == self.spec_eq(*other, variant),
    {
        let thr = variant.threshold();
        if self.player != other.player || self.plies < thr || other.plies < thr {
            return false;
        }
        let mut i: usize = 0;
        while i < 24
            invariant
                i <= 24,
                forall|j: int| 0 <= j < i ==> self.board@[j] == other.board@[j],
            decreases 24 - i,
        {
            if self.board[i] != other.board[i] {
                return false;
            }
            i = i + 1;
        }
        assert(self.board@ =~= other.board@);
        true
    }

    /// What `play_move` asks of a move: its cells are on the board, a placed or moved piece
    /// lands on an empty cell, a moved piece is the mover's, and a captured piece is the
    /// opponent's.
    pub open spec fn applicable(self, m: Move) -> bool {
        let b = self.board@;
        let me = node_of(self.player);
        let them = node_of(spec_opponent(self.player));
        m.on_board() && match m {
            Move::Place { place_index } => b[place_index as int] == Node::Empty,
            Move::PlaceCapture { place_index, capture_index } => b[place_index as int]
                == Node::Empty && b[capture_index as int] == them,
            Move::Move { source_index, destination_index } => b[source_index as int] == me
                && b[destination_index as int] == Node::Empty,
            Move::MoveCapture { source_index, destination_index, capture_index } =>
                b[source_index as int] == me && b[destination_index as int] == Node::Empty
                    && b[capture_index as int] == them,
        }
    }

    /// The board after the mover plays `m`.
    pub open spec fn board_after(self, m: Move) -> Seq<Node> {
        let b = self.board@;
        let me = node_of(self.player);
        match m {
            Move::Place { place_index } => b.update(place_index as int, me),
            Move::PlaceCapture { place_index, capture_index } => b.update(
                place_index as int,
                me,
            ).update(capture_index as int, Node::Empty),
            Move::Move { source_index, destination_index } => b.update(
                source_index as int,
                Node::Empty,
            ).update(destination_index as int, me),
            Move::MoveCapture { source_index, destination_index, capture_index } => b.update(
                source_index as int,
                Node::Empty,
            ).update(destination_index as int, me).update(capture_index as int, Node::Empty),
        }
    }

    /// Whether `play_move` may be called with `m` (see `applicable`).
    pub fn can_apply(&self, m: &Move) -> (r: bool)
        ensures
            r == self.applicable(*m),
    {
        let me = as_node(self.player);
        let them = as_node(opponent(self.player));
        match *m {
            Move::Place { place_index } => 0 <= place_index && place_index < 24
                && self.board[place_index as usize] == Node::Empty,
            Move::PlaceCapture { place_index, capture_index } => 0 <= place_index && place_index
                < 24 && 0 <= capture_index && capture_index < 24 && self.board[place_index as usize]
                == Node::Empty && self.board[capture_index as usize] == them,
            Move::Move { source_index, destination_index } => 0 <= source_index && source_index
                < 24 && 0 <= destination_index && destination_index < 24
                && self.board[source_index as usize] == me && self.board[destination_index as usize]
                == Node::Empty,
            Move::MoveCapture { source_index, destination_index, capture_index } => 0
                <= source_index && source_index < 24 && 0 <= destination_index && destination_index
                < 24 && 0 <= capture_index && capture_index < 24 && self.board[source_index as usize]
                == me && self.board[destination_index as usize] == Node::Empty
                && self.board[capture_index as usize] == them,
        }
    }

    /// The position after the mover plays `m`.
    pub open spec fn spec_play(self, m: Move) -> Position {
        let b = self.board;
        let me = node_of(self.player);
        let board = match m {
            Move::Place { place_index } => spec_array_update(b, place_index as int, me),
            Move::PlaceCapture { place_index, capture_index } => spec_array_update(
                spec_array_update(b, place_index as int, me),
                capture_index as int,
                Node::Empty,
            ),
            Move::Move { source_index, destination_index } => spec_array_update(
                spec_array_update(b, source_index as int, Node::Empty),
                destination_index as int,
                me,
            ),
            Move::MoveCapture { source_index, destination_index, capture_index } =>
                spec_array_update(
                spec_array_update(
                    spec_array_update(b, source_index as int, Node::Empty),
                    destination_index as int,
                    me,
                ),
                capture_index as int,
                Node::Empty,
            ),
        };
        Position { board, player: spec_opponent(self.player), plies: (self.plies + 1) as i32 }
    }

    /// Plays `move_`: the board changes as `board_after` says, the turn passes and the ply
    /// count grows by one.
    pub fn play_move(&mut self, move_: &Move)
        requires
            old(self).applicable(*move_),
            old(self).plies < i32::MAX,
        ensures
            *final(self) == old(self).spec_play(*move_),
            final(self).board@ == old(self).board_after(*move_),
            final(self).player == spec_opponent(old(self).player),
            final(self).plies == old(self).plies + 1,
    {
        let me = as_node(self.player);
        match *move_ {
            Move::Place { place_index } => {
                self.board[place_index as usize] = me;
            },
            Move::PlaceCapture { place_index, capture_index } => {
                self.board[place_index as usize] = me;
                self.board[capture_index as usize] = Node::Empty;
            },
            Move::Move { source_index, destination_index } => {
                self.board[source_index as usize] = Node::Empty;
                self.board[destination_index as usize] = me;
            },
            Move::MoveCapture { source_index, destination_index, capture_index } => {
                self.board[source_index as usize] = Node::Empty;
                self.board[destination_index as usize] = me;
                self.board[capture_index as usize] = Node::Empty;
            },
        }
        self.player = opponent(self.player);
        self.plies = self.plies + 1;
        proof {
            broadcast use vstd::array::axiom_spec_array_update;

            assert(self.board =~= old(self).spec_play(*move_).board);
        }
    }
}

/// A position with the plies played since the last advancement (a placement or a capture).
#[derive(Clone, Copy, Debug, PartialEq, Eq)]
pub struct GamePosition {
    pub position: Position,
    pub plies_no_advancement: i32,
}

impl Default for GamePosition {
    fn default() -> (r: Self)
        ensures
            r.position.is_initial(),
            r.plies_no_advancement == 0,
    {
        GamePosition { position: Position::default(), plies_no_advancement: 0 }
    }
}

impl GamePosition {
    pub open spec fn spec_fifty_move_rule(self) -> bool {
        self.plies_no_advancement >= FIFTY_MOVE_PLIES
    }

    /// The game is drawn once a hundred or more plies have passed without advancement.
    pub fn is_fifty_move_rule(&self) -> (r: bool)
        ensures
            r == self.spec_fifty_move_rule(),
    {
        self.plies_no_advancement >= FIFTY_MOVE_PLIES
    }

    /// The position after `m`; an advancement resets the counter, a plain slide adds one.
    pub open spec fn spec_play(self, m: Move) -> GamePosition {
        GamePosition {
            position: self.position.spec_play(m),
            plies_no_advancement: if m.spec_is_advancement() {
                0
            } else {
                (self.plies_no_advancement + 1) as i32
            },
        }
    }

    pub open spec fn can_play(self, m: Move) -> bool {
        &&& self.position.applicable(m)
        &&& self.position.plies < i32::MAX
        &&& self.plies_no_advancement < i32::MAX
    }

    /// Whether `play_move` may be called with `m`.
    pub fn can_play_move(&self, m: &Move) -> (r: bool)
        ensures
            r == self.can_play(*m),
    {
        self.position.can_apply(m) && self.position.plies < i32::MAX && self.plies_no_advancement
            < i32::MAX
    }

    /// Plays `move_` on the position and updates the counter of plies without advancement.
    pub fn play_move(&mut self, move_: &Move)
        requires
            old(self).can_play(*move_),
        ensures
            *final(self) == old(self).spec_play(*move_),
            final(self).position.board@ == old(self).position.board_after(*move_),
    {
        self.position.play_move(move_);
        if move_.is_advancement() {
            self.plies_no_advancement = 0;
        } else {
            self.plies_no_advancement = self.plies_no_advancement + 1;
        }
    }
}


/// The state a search starts from: a position, the moves played from it since, and the
/// limits of the search.
#[derive(Clone, Debug)]
pub struct Game {
    pub position: Position,
    pub moves: Vec<Move>,
    pub ponder: bool,
    pub wtime: Option<u32>,
    pub btime: Option<u32>,
    pub depth: Option<i32>,
    pub movetime: Option<u32>,
}

impl Game {
    /// The initial position with no moves played and no limits.
    pub fn new() -> (r: Self)
        ensures
            r.position.is_initial(),
            r.moves@.len() == 0,
            !r.ponder,
            r.wtime is None && r.btime is None && r.depth is None && r.movetime is None,
    {
        Game {
            position: Position::default(),
            moves: Vec::new(),
            ponder: false,
            wtime: None,
            btime: None,
            depth: None,
            movetime: None,
        }
    }
}

/// A principal variation: the line of moves the search holds best, first move first.
#[derive(Clone, Debug)]
pub struct PvLine {
    pub moves: Vec<Move>,
}

impl PvLine {
    pub fn new() -> (r: Self)
        ensures
            r.moves@.len() == 0,
    {
        PvLine { moves: Vec::new() }
    }
}

} // verus!
