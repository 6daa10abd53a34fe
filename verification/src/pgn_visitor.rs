//! The per-game PGN visitor adapter.
//!
//! A `GameVisitor` receives the events of one game from the streaming PGN
//! parser: each SAN move, the outcome, variation starts, and the end of the
//! game. It maintains a live position through the chess rules engine to
//! validate every mainline move, collects the validated moves as plain
//! descriptors, and on `end_game` encodes and saves the game unless it was
//! marked to be skipped.

use vstd::prelude::*;

use crate::chess::{GameOutcome, Uci};
use crate::dedup::{game_digest, SeenHashes};
use crate::encoding::{tokens_bytes, wf_game_tokens};
use crate::tokenizer::{start_token_value, Token, Tokenizer};
use crate::visitor::{token_values, Visitor};

verus! {

#[verifier::external_type_specification]
#[verifier::external_body]
pub struct ExChess(shakmaty::Chess);

#[verifier::external_type_specification]
#[verifier::external_body]
pub struct ExSanPlus(shakmaty::san::SanPlus);

#[verifier::external_type_specification]
#[verifier::external_body]
pub struct ExMove(shakmaty::Move);

#[verifier::external_type_specification]
#[verifier::external_body]
pub struct ExRole(shakmaty::Role);

/// The position is the standard chess starting position.
pub uninterp spec fn is_start_pos(p: shakmaty::Chess) -> bool;

/// What the SAN resolves to against the position: the unique matching
/// legal move, or nothing.
pub uninterp spec fn san_resolution(s: shakmaty::san::SanPlus, p: shakmaty::Chess) -> Option<
    shakmaty::Move,
>;

/// The position after playing the move, if it is legal there.
pub uninterp spec fn played_position(p: shakmaty::Chess, m: shakmaty::Move) -> Option<
    shakmaty::Chess,
>;

/// The plain-value UCI descriptor of a move, castling written as the
/// king's two-square move.
pub uninterp spec fn uci_of(m: shakmaty::Move) -> Uci;

/// Relies on shakmaty::Chess::default: the standard chess starting
/// position.
#[verifier::external_body]
fn starting_position() -> (r: shakmaty::Chess)
    ensures
        is_start_pos(r),
{
    shakmaty::Chess::default()
}

/// Relies on shakmaty::san::San::to_move: resolves a SAN against the
/// position, returning the unique matching legal move, or failing; a
/// function of the SAN and the position alone.
#[verifier::external_body]
fn san_to_move(san: &shakmaty::san::SanPlus, pos: &shakmaty::Chess) -> (r: Option<shakmaty::Move>)
    ensures
        r == san_resolution(*san, *pos),
{
    san.san.to_move(pos).ok()
}

/// Relies on shakmaty::Position::play on a cloned position: the position
/// after the move if it is legal, nothing otherwise; a function of the
/// position and the move alone.
#[verifier::external_body]
fn play_move(pos: &shakmaty::Chess, m: &shakmaty::Move) -> (r: Option<shakmaty::Chess>)
    ensures
        r == played_position(*pos, *m),
{
    shakmaty::Position::play(pos.clone(), m).ok()
}

/// Relies on shakmaty::Role having exactly these six variants.
#[verifier::external_body]
fn role_value(r: shakmaty::Role) -> crate::chess::PieceRole {
    match r {
        shakmaty::Role::Pawn => crate::chess::PieceRole::Pawn,
        shakmaty::Role::Knight => crate::chess::PieceRole::Knight,
        shakmaty::Role::Bishop => crate::chess::PieceRole::Bishop,
        shakmaty::Role::Rook => crate::chess::PieceRole::Rook,
        shakmaty::Role::Queen => crate::chess::PieceRole::Queen,
        shakmaty::Role::King => crate::chess::PieceRole::King,
    }
}

/// Move descriptors whose squares lie on the board.
pub open spec fn uci_wf(m: Uci) -> bool {
    match m {
        Uci::Normal { from, to, promotion } => from < 64 && to < 64,
        Uci::Put { role, to } => to < 64,
        Uci::Null => true,
    }
}

/// Relies on shakmaty::Move::to_uci in standard castling mode (castling
/// becomes the king's two-square move) and on shakmaty::Square being an
/// index 0..64: converts the move to plain values, a function of the move
/// alone.
#[verifier::external_body]
fn move_to_uci(m: &shakmaty::Move) -> (r: Uci)
    ensures
        r == uci_of(*m),
        uci_wf(r),
{
    match m.to_uci(shakmaty::CastlingMode::Standard) {
        shakmaty::uci::UciMove::Normal { from, to, promotion } => Uci::Normal {
            from: from as u8,
            to: to as u8,
            promotion: promotion.map(role_value),
        },
        shakmaty::uci::UciMove::Put { role, to } => Uci::Put {
            role: role_value(role),
            to: to as u8,
        },
        shakmaty::uci::UciMove::Null => Uci::Null,
    }
}

/// Tokens of a move list under a dictionary, taking the id of each move.
/// Meaningful where every lookup succeeds.
pub open spec fn move_tokens(t: &Tokenizer, moves: Seq<Uci>) -> Seq<u16>
    decreases moves.len(),
{
    if moves.len() == 0 {
        Seq::empty()
    } else {
        seq![t.spec_lookup(moves[0])->Some_0] + move_tokens(t, moves.drop_first())
    }
}

/// Every move of the list has a dictionary token.
pub open spec fn encode_ok(t: &Tokenizer, moves: Seq<Uci>) -> bool {
    forall|i: int| 0 <= i < moves.len() ==> (#[trigger] t.spec_lookup(moves[i])) is Some
}

/// The token sequence of a whole game: start sentinel, move tokens, end
/// sentinel.
pub open spec fn game_tokens(t: &Tokenizer, o: GameOutcome, moves: Seq<Uci>) -> Seq<u16> {
    seq![start_token_value(o)] + move_tokens(t, moves) + seq![3u16]
}

/// Move tokens are the looked-up ids, one per move, all proper move ids.
pub proof fn lemma_move_tokens_props(t: &Tokenizer, moves: Seq<Uci>)
    requires
        t.wf(),
        encode_ok(t, moves),
    ensures
        move_tokens(t, moves).len() == moves.len(),
        forall|k: int|
            0 <= k < moves.len() ==> (#[trigger] move_tokens(t, moves)[k]) == t.spec_lookup(
                moves[k],
            )->Some_0 && move_tokens(t, moves)[k] >= 4,
    decreases moves.len(),
{
    if moves.len() > 0 {
        assert(encode_ok(t, moves.drop_first())) by {
            assert(forall|i: int|
                0 <= i < moves.drop_first().len() ==> moves.drop_first()[i] == moves[i + 1]
                    && (#[trigger] t.spec_lookup(moves.drop_first()[i])) == t.spec_lookup(
                    moves[i + 1],
                ));
        }
        lemma_move_tokens_props(t, moves.drop_first());
        assert(t.spec_lookup(moves[0]) is Some);
        crate::tokenizer::lemma_ids_contiguous(t);
        assert forall|k: int| 0 <= k < moves.len() implies (#[trigger] move_tokens(t, moves)[k])
            == t.spec_lookup(moves[k])->Some_0 && move_tokens(t, moves)[k] >= 4 by {
            if k == 0 {
                assert(move_tokens(t, moves)[0] == t.spec_lookup(moves[0])->Some_0);
            } else {
                assert(move_tokens(t, moves)[k] == move_tokens(t, moves.drop_first())[k - 1]);
                assert(moves.drop_first()[k - 1] == moves[k]);
            }
        }
    }
}

/// Per-game parse state: the skip flag, the validated mainline so far, the
/// recorded outcome, and the live position.
pub struct GameVisitor {
    pub skip_current_game: bool,
    pub current_game_moves: Vec<Uci>,
    pub current_game_outcome: GameOutcome,
    pub current_pos: shakmaty::Chess,
}

impl GameVisitor {
    /// Fresh state at the standard starting position.
    pub fn new() -> (g: GameVisitor)
        ensures
            !g.skip_current_game,
            g.current_game_moves@ == Seq::<Uci>::empty(),
            g.current_game_outcome == GameOutcome::Draw,
            is_start_pos(g.current_pos),
    {
        GameVisitor {
            skip_current_game: false,
            current_game_moves: Vec::new(),
            current_game_outcome: GameOutcome::Draw,
            current_pos: starting_position(),
        }
    }

    /// Handles one SAN move: resolves it against the live position and
    /// plays it. If the SAN resolves to a legal move that plays, the
    /// position advances to the played position, the move's descriptor is
    /// appended, and the skip flag is untouched; if resolution or play
    /// fails, the game is marked skipped and position and moves stay. The
    /// skip flag is never cleared here.
    pub fn san(&mut self, san_plus: &shakmaty::san::SanPlus)
        ensures
            final(self).current_game_outcome == old(self).current_game_outcome,
            old(self).skip_current_game ==> final(self).skip_current_game,
            match san_resolution(*san_plus, old(self).current_pos) {
                Some(m) => match played_position(old(self).current_pos, m) {
                    Some(p2) => {
                        &&& final(self).skip_current_game == old(self).skip_current_game
                        &&& final(self).current_pos == p2
                        &&& final(self).current_game_moves@ == old(
                            self,
                        ).current_game_moves@.push(uci_of(m))
                        &&& uci_wf(uci_of(m))
                    },
                    None => {
                        &&& final(self).skip_current_game
                        &&& final(self).current_pos == old(self).current_pos
                        &&& final(self).current_game_moves == old(self).current_game_moves
                    },
                },
                None => {
                    &&& final(self).skip_current_game
                    &&& final(self).current_pos == old(self).current_pos
                    &&& final(self).current_game_moves == old(self).current_game_moves
                },
            },
    {
        match san_to_move(san_plus, &self.current_pos) {
            Some(m) => {
                match play_move(&self.current_pos, &m) {
                    Some(pos) => {
                        self.current_pos = pos;
                        let u = move_to_uci(&m);
                        self.current_game_moves.push(u);
                    },
                    None => {
                        self.skip_current_game = true;
                    },
                }
            },
            None => {
                self.skip_current_game = true;
            },
        }
    }

    /// Records the game outcome; an absent outcome marks the game skipped.
    pub fn outcome(&mut self, outcome: Option<GameOutcome>)
        ensures
            final(self).current_game_moves == old(self).current_game_moves,
            match outcome {
                Some(o) => final(self).current_game_outcome == o && final(self).skip_current_game
                    == old(self).skip_current_game,
                None => final(self).current_game_outcome == GameOutcome::Draw
                    && final(self).skip_current_game,
            },
    {
        match outcome {
            Some(o) => {
                self.current_game_outcome = o;
            },
            None => {
                self.skip_current_game = true;
                self.current_game_outcome = GameOutcome::Draw;
            },
        }
    }

    /// Variations are never entered: only the mainline is tokenized.
    pub fn begin_variation(&self) -> (skip: bool)
        ensures
            skip,
    {
        true
    }

    /// There is room to append a game of `n_moves` moves to the batch.
    pub open spec fn room_for(v: Visitor, n_moves: int) -> bool {
        &&& v.output@.len() + 2 * (n_moves + 2) <= usize::MAX
        &&& v.duplicate_games < u64::MAX
    }

    /// Finishes the game: unless it was marked skipped, encodes it
    /// (start sentinel, one token per validated move, end sentinel) and
    /// saves it into the batch, deduplicating by digest. Any failure drops
    /// the game without touching the batch. All per-game state is reset.
    /// Returns whether no failure occurred.
    pub fn end_game(
        &mut self,
        visitor: &mut Visitor,
        tokenizer: &Tokenizer,
        seen: &mut SeenHashes,
    ) -> (ok: bool)
        requires
            tokenizer.wf(),
            old(visitor).inv(),
            old(visitor).current_ply == 0,
        ensures
            !final(self).skip_current_game,
            final(self).current_game_moves@ == Seq::<Uci>::empty(),
            final(self).current_game_outcome == GameOutcome::Draw,
            is_start_pos(final(self).current_pos),
            final(visitor).inv(),
            final(visitor).current_ply == 0,
            final(visitor).current_outcome is None,
            final(visitor).start_seen == old(visitor).start_seen,
            ({
                let moves = old(self).current_game_moves@;
                let oc = old(self).current_game_outcome;
                let g = game_tokens(tokenizer, oc, moves);
                if old(self).skip_current_game {
                    &&& *final(visitor) == (Visitor { current_outcome: None, ..*old(visitor) })
                    &&& *final(seen) == *old(seen)
                    &&& ok == true
                } else if !encode_ok(tokenizer, moves) || !Self::room_for(
                    *old(visitor),
                    moves.len() as int,
                ) {
                    &&& *final(visitor) == (Visitor { current_outcome: None, ..*old(visitor) })
                    &&& *final(seen) == *old(seen)
                    &&& ok == false
                } else if !old(seen).spec_set().contains(game_digest(g)) {
                    &&& final(seen).spec_set() == old(seen).spec_set().insert(game_digest(g))
                    &&& final(visitor).games@ == old(visitor).games@.push(g)
                    &&& final(visitor).output@ == old(visitor).output@ + tokens_bytes(g)
                    &&& final(visitor).game_indexes@ == old(visitor).game_indexes@.push(
                        old(visitor).output@.len() as u64,
                    )
                    &&& final(visitor).duplicate_games == old(visitor).duplicate_games
                    &&& final(visitor).ply == old(visitor).ply + moves.len()
                    &&& final(visitor).white_winning_games == old(visitor).white_winning_games + (
                    if oc == GameOutcome::WhiteWins {
                        1int
                    } else {
                        0int
                    })
                    &&& final(visitor).black_winning_games == old(visitor).black_winning_games + (
                    if oc == GameOutcome::BlackWins {
                        1int
                    } else {
                        0int
                    })
                    &&& final(visitor).draw_games == old(visitor).draw_games + (
                    if oc == GameOutcome::Draw {
                        1int
                    } else {
                        0int
                    })
                    &&& ok == true
                } else {
                    &&& *final(seen) == *old(seen)
                    &&& *final(visitor) == (Visitor {
                        current_outcome: None,
                        duplicate_games: (old(visitor).duplicate_games + 1) as u64,
                        ..*old(visitor)
                    })
                    &&& ok == true
                }
            }),
            (old(visitor).digests_fresh() && old(visitor).synced(old(seen))) ==> (
            final(visitor).digests_fresh() && final(visitor).synced(final(seen))),
    {
        let ghost moves_g = self.current_game_moves@;
        let ghost oc = self.current_game_outcome;
        let mut error = false;
        if !self.skip_current_game {
            let mut current_game: Vec<Token> = Vec::new();
            match visitor.begin_game(tokenizer, self.current_game_outcome) {
                Ok(mut pgn) => {
                    current_game.append(&mut pgn);
                },
                Err(_) => {
                    error = true;
                },
            }
            proof {
                assert(token_values(current_game@) =~= seq![start_token_value(oc)] + move_tokens(
                    tokenizer,
                    moves_g.subrange(0, 0),
                ));
            }
            let mut i: usize = 0;
            while i < self.current_game_moves.len()
                invariant
                    tokenizer.wf(),
                    i <= self.current_game_moves@.len(),
                    self.current_game_moves@ == moves_g,
                    self.current_game_outcome == oc,
                    visitor.output == old(visitor).output,
                    visitor.game_indexes == old(visitor).game_indexes,
                    visitor.games == old(visitor).games,
                    visitor.start_seen == old(visitor).start_seen,
                    visitor.white_winning_games == old(visitor).white_winning_games,
                    visitor.black_winning_games == old(visitor).black_winning_games,
                    visitor.draw_games == old(visitor).draw_games,
                    visitor.duplicate_games == old(visitor).duplicate_games,
                    visitor.ply == old(visitor).ply,
                    visitor.current_outcome == Some(oc),
                    visitor.current_ply <= i,
                    !error ==> visitor.current_ply == i && token_values(current_game@) == seq![
                        start_token_value(oc),
                    ] + move_tokens(tokenizer, moves_g.subrange(0, i as int)) && (forall|k: int|
                        0 <= k < i ==> (#[trigger] tokenizer.spec_lookup(moves_g[k])) is Some),
                    error ==> !encode_ok(tokenizer, moves_g),
                decreases self.current_game_moves@.len() - i,
            {
                let ghost cg_before = current_game@;
                let m = self.current_game_moves[i];
                match visitor.game_move(tokenizer, m) {
                    Ok(mut pgn) => {
                        let ghost pgn_snap = pgn@;
                        current_game.append(&mut pgn);
                        proof {
                            if !error {
                                assert(token_values(current_game@) =~= token_values(cg_before)
                                    + token_values(pgn_snap));
                                lemma_move_tokens_prefix_push(tokenizer, moves_g, i as int);
                                assert(token_values(current_game@) =~= seq![
                                    start_token_value(oc),
                                ] + move_tokens(tokenizer, moves_g.subrange(0, i + 1 as int)));
                            }
                        }
                    },
                    Err(_) => {
                        proof {
                            assert(tokenizer.spec_lookup(moves_g[i as int]) is None);
                        }
                        error = true;
                    },
                }
                i += 1;
            }
            if !error {
                match visitor.end_game(tokenizer) {
                    Ok(mut pgn) => {
                        current_game.append(&mut pgn);
                    },
                    Err(_) => {
                        error = true;
                    },
                }
                proof {
                    assert(moves_g.subrange(0, moves_g.len() as int) =~= moves_g);
                    assert(token_values(current_game@) =~= game_tokens(tokenizer, oc, moves_g));
                    assert(encode_ok(tokenizer, moves_g));
                    let g = game_tokens(tokenizer, oc, moves_g);
                    lemma_move_tokens_props(tokenizer, moves_g);
                    assert(current_game@.len() == moves_g.len() + 2);
                    assert(wf_game_tokens(g)) by {
                        assert(g.len() == moves_g.len() + 2);
                        assert(g[0] == start_token_value(oc));
                        assert(g[g.len() - 1] == 3);
                        assert forall|k: int| 1 <= k < g.len() - 1 implies #[trigger] g[k]
                            >= 4 by {
                            assert(g[k] == move_tokens(tokenizer, moves_g)[k - 1]);
                        }
                    }
                }
                let out_len = visitor.output.len();
                if current_game.len() <= (usize::MAX - out_len) / 2 && visitor.duplicate_games
                    < u64::MAX {
                    match visitor.save_game(current_game, seen) {
                        Ok(_) => {},
                        Err(_) => {
                            error = true;
                        },
                    }
                } else {
                    error = true;
                }
            }
        }
        visitor.current_ply = 0;
        visitor.current_outcome = None;
        self.skip_current_game = false;
        self.current_game_outcome = GameOutcome::Draw;
        self.current_game_moves = Vec::new();
        self.current_pos = starting_position();
        !error
    }
}

/// Extending the encoded prefix by one looked-up move token.
proof fn lemma_move_tokens_prefix_push(t: &Tokenizer, moves: Seq<Uci>, i: int)
    requires
        0 <= i < moves.len(),
        t.spec_lookup(moves[i]) is Some,
    ensures
        move_tokens(t, moves.subrange(0, i + 1)) == move_tokens(t, moves.subrange(0, i)) + seq![
            t.spec_lookup(moves[i])->Some_0,
        ],
{
    lemma_move_tokens_app_one(t, moves.subrange(0, i), moves[i]);
    assert(moves.subrange(0, i + 1) =~= moves.subrange(0, i).push(moves[i]));
}

/// `move_tokens` distributes over appending one move.
proof fn lemma_move_tokens_app_one(t: &Tokenizer, moves: Seq<Uci>, m: Uci)
    requires
        t.spec_lookup(m) is Some,
    ensures
        move_tokens(t, moves.push(m)) == move_tokens(t, moves) + seq![t.spec_lookup(m)->Some_0],
    decreases moves.len(),
{
    if moves.len() == 0 {
        assert(moves.push(m).drop_first() =~= moves);
        assert(move_tokens(t, moves.push(m)) =~= move_tokens(t, moves) + seq![
            t.spec_lookup(m)->Some_0,
        ]);
    } else {
        lemma_move_tokens_app_one(t, moves.drop_first(), m);
        assert(moves.push(m).drop_first() =~= moves.drop_first().push(m));
        assert(move_tokens(t, moves.push(m)) =~= move_tokens(t, moves) + seq![
            t.spec_lookup(m)->Some_0,
        ]);
    }
}

} // verus!
