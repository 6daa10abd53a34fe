//! Per-file accumulation of encoded games.
//!
//! A `Visitor` receives one file's games, encodes them, filters duplicates
//! against the shared digest set, and accumulates the survivors in a local
//! byte buffer together with a local offset index and per-outcome counters.
//! The whole batch is later committed to the global stream in one step.

use vstd::prelude::*;

use crate::chess::{GameOutcome, Uci};
use crate::dedup::{
    count_start, digests_avoid, digests_distinct, digests_in, game_digest, sha256_hex_digest,
    total_moves, lemma_count_start_push, lemma_count_start_bound, SeenHashes,
};
use crate::encoding::{
    be16, concat_bytes, lemma_concat_bytes_push, lemma_tokens_bytes_app, lemma_tokens_bytes_inverse,
    offset_of, push_token_bytes, tokens_bytes, wf_game_tokens,
};
use crate::tokenizer::{start_token_value, Token, TokenError, Tokenizer};

verus! {

/// A stream of well-formed games serializes to two bytes per token:
/// two per move plus four for the sentinels of each game.
pub proof fn lemma_stream_len(games: Seq<Seq<u16>>)
    requires
        forall|i: int| 0 <= i < games.len() ==> wf_game_tokens(#[trigger] games[i]),
    ensures
        concat_bytes(games).len() == 2 * total_moves(games) + 4 * games.len(),
        0 <= total_moves(games),
    decreases games.len(),
{
    if games.len() > 0 {
        assert(forall|i: int|
            0 <= i < games.drop_first().len() ==> wf_game_tokens(
                #[trigger] games.drop_first()[i],
            ));
        lemma_stream_len(games.drop_first());
        lemma_tokens_bytes_inverse(games[0]);
    }
}

/// The token values of a token list.
pub open spec fn token_values(ts: Seq<Token>) -> Seq<u16> {
    ts.map_values(|t: Token| t.value)
}

/// Accumulator for one input file's retained games.
pub struct Visitor {
    /// Concatenated encoded bytes of this file's retained games.
    pub output: Vec<u8>,
    /// Byte offset of each retained game within `output`.
    pub game_indexes: Vec<u64>,
    /// Outcome of the game currently being encoded.
    pub current_outcome: Option<GameOutcome>,
    /// Plies of the game currently being encoded.
    pub current_ply: u64,
    pub white_winning_games: u64,
    pub black_winning_games: u64,
    pub draw_games: u64,
    pub duplicate_games: u64,
    pub ply: u64,
    /// The retained games of this batch, as token sequences.
    pub games: Ghost<Seq<Seq<u16>>>,
    /// The digest set as it was when this batch began.
    pub start_seen: Ghost<Set<Seq<u8>>>,
}

impl Visitor {
    /// Structural invariant: the buffer is the concatenation of the
    /// retained games, the indexes are their offsets, and the counters
    /// count them.
    pub open spec fn inv(&self) -> bool {
        &&& self.output@ == concat_bytes(self.games@)
        &&& self.game_indexes@.len() == self.games@.len()
        &&& forall|i: int| 0 <= i < self.games@.len() ==> wf_game_tokens(#[trigger] self.games@[i])
        &&& forall|i: int|
            0 <= i < self.games@.len() ==> (#[trigger] self.game_indexes@[i]) as int == offset_of(
                self.games@,
                i,
            )
        &&& self.white_winning_games == count_start(self.games@, 0)
        &&& self.black_winning_games == count_start(self.games@, 1)
        &&& self.draw_games == count_start(self.games@, 2)
        &&& self.ply == total_moves(self.games@)
    }

    /// Deduplication bookkeeping that does not mention the current digest
    /// set: the batch's digests are pairwise distinct and none of them was
    /// seen before the batch began.
    pub open spec fn digests_fresh(&self) -> bool {
        &&& digests_distinct(self.games@)
        &&& digests_avoid(self.games@, self.start_seen@)
    }

    /// Agreement with the shared digest set: the initial set only grew and
    /// this batch's digests are all registered in it.
    pub open spec fn synced(&self, seen: &SeenHashes) -> bool {
        &&& self.start_seen@.subset_of(seen.spec_set())
        &&& digests_in(self.games@, seen.spec_set())
    }

    /// A fresh accumulator, snapshotting the current digest set.
    pub fn new(seen: &SeenHashes) -> (v: Visitor)
        ensures
            v.inv(),
            v.digests_fresh(),
            v.synced(seen),
            v.games@ == Seq::<Seq<u16>>::empty(),
            v.start_seen@ == seen.spec_set(),
            v.output@.len() == 0,
            v.game_indexes@.len() == 0,
            v.current_outcome is None,
            v.current_ply == 0,
            v.white_winning_games == 0,
            v.black_winning_games == 0,
            v.draw_games == 0,
            v.duplicate_games == 0,
            v.ply == 0,
    {
        Visitor {
            output: Vec::new(),
            game_indexes: Vec::new(),
            current_outcome: None,
            current_ply: 0,
            white_winning_games: 0,
            black_winning_games: 0,
            draw_games: 0,
            duplicate_games: 0,
            ply: 0,
            games: Ghost(Seq::empty()),
            start_seen: Ghost(seen.spec_set()),
        }
    }

    /// Starts a game: records the outcome and yields its start sentinel.
    pub fn begin_game(&mut self, tokenizer: &Tokenizer, outcome: GameOutcome) -> (r: Result<
        Vec<Token>,
        TokenError,
    >)
        ensures
            *final(self) == (Visitor { current_outcome: Some(outcome), ..*old(self) }),
            r matches Ok(v) && token_values(v@) == seq![start_token_value(outcome)],
    {
        match tokenizer.game_start_token(Some(outcome)) {
            Ok(t) => {
                self.current_outcome = Some(outcome);
                let mut v: Vec<Token> = Vec::new();
                v.push(t);
                proof {
                    assert(token_values(v@) =~= seq![start_token_value(outcome)]);
                }
                Ok(v)
            },
            Err(e) => Err(e),
        }
    }

    /// Encodes one move: yields its dictionary token, or fails if the
    /// dictionary does not contain the descriptor.
    pub fn game_move(&mut self, tokenizer: &Tokenizer, m: Uci) -> (r: Result<Vec<Token>, TokenError>)
        requires
            tokenizer.wf(),
            old(self).current_ply < u64::MAX,
        ensures
            match tokenizer.spec_lookup(m) {
                Some(t) => *final(self) == (Visitor {
                    current_ply: (old(self).current_ply + 1) as u64,
                    ..*old(self)
                }) && (r matches Ok(v) && token_values(v@) == seq![t]),
                None => *final(self) == *old(self) && r == Err::<Vec<Token>, TokenError>(
                    TokenError::UnknownMove,
                ),
            },
    {
        match tokenizer.uci_to_token(m) {
            Ok(t) => {
                self.current_ply = self.current_ply + 1;
                let mut v: Vec<Token> = Vec::new();
                v.push(t);
                proof {
                    assert(token_values(v@) =~= seq![t.value]);
                }
                Ok(v)
            },
            Err(e) => Err(e),
        }
    }

    /// Hashes the finished game, drops it if its digest was already seen,
    /// and otherwise registers the digest and appends the game to the
    /// batch, recording its offset and updating the counters.
    pub fn save_game(&mut self, game: Vec<Token>, seen: &mut SeenHashes) -> (r: Result<
        (),
        TokenError,
    >)
        requires
            old(self).inv(),
            wf_game_tokens(token_values(game@)),
            old(self).current_outcome matches Some(o) && token_values(game@)[0]
                == start_token_value(o),
            game@.len() == old(self).current_ply + 2,
            old(self).output@.len() + 2 * game@.len() <= usize::MAX,
            old(self).duplicate_games < u64::MAX,
        ensures
            r is Ok,
            final(self).inv(),
            final(self).current_ply == 0,
            final(self).current_outcome is None,
            final(self).start_seen == old(self).start_seen,
            ({
                let g = token_values(game@);
                if !old(seen).spec_set().contains(game_digest(g)) {
                    &&& final(seen).spec_set() == old(seen).spec_set().insert(game_digest(g))
                    &&& final(self).games@ == old(self).games@.push(g)
                    &&& final(self).output@ == old(self).output@ + tokens_bytes(g)
                    &&& final(self).game_indexes@ == old(self).game_indexes@.push(
                        old(self).output@.len() as u64,
                    )
                    &&& final(self).duplicate_games == old(self).duplicate_games
                    &&& final(self).ply == old(self).ply + old(self).current_ply
                    &&& final(self).white_winning_games == old(self).white_winning_games + (
                    if g[0] == 0 {
                        1int
                    } else {
                        0int
                    })
                    &&& final(self).black_winning_games == old(self).black_winning_games + (
                    if g[0] == 1 {
                        1int
                    } else {
                        0int
                    })
                    &&& final(self).draw_games == old(self).draw_games + (
                    if g[0] == 2 {
                        1int
                    } else {
                        0int
                    })
                } else {
                    &&& *final(seen) == *old(seen)
                    &&& *final(self) == (Visitor {
                        current_ply: 0,
                        current_outcome: None,
                        duplicate_games: (old(self).duplicate_games + 1) as u64,
                        ..*old(self)
                    })
                }
            }),
            (old(self).digests_fresh() && old(self).synced(old(seen))) ==> (
            final(self).digests_fresh() && final(self).synced(final(seen))),
    {
        let ghost g = token_values(game@);
        let mut bytes: Vec<u8> = Vec::new();
        let mut i: usize = 0;
        while i < game.len()
            invariant
                i <= game@.len(),
                bytes@ == tokens_bytes(token_values(game@.subrange(0, i as int))),
                bytes@.len() == 2 * i,
                2 * game@.len() <= usize::MAX,
            decreases game@.len() - i,
        {
            let ghost prefix = token_values(game@.subrange(0, i as int));
            push_token_bytes(&mut bytes, game[i].value);
            proof {
                lemma_tokens_bytes_app(prefix, seq![game@[i as int].value]);
                assert(token_values(game@.subrange(0, i + 1 as int)) =~= prefix + seq![
                    game@[i as int].value,
                ]);
                assert(seq![game@[i as int].value].drop_first() =~= Seq::<u16>::empty());
                assert(tokens_bytes(Seq::<u16>::empty()) == Seq::<u8>::empty());
                assert(tokens_bytes(seq![game@[i as int].value]) =~= be16(game@[i as int].value));
            }
            i += 1;
        }
        proof {
            assert(game@.subrange(0, game@.len() as int) =~= game@);
        }
        let hash = sha256_hex_digest(&bytes);
        if !seen.contains(&hash) {
            let ghost old_games = self.games@;
            let ghost old_seen_set = seen.spec_set();
            seen.insert(hash);
            let off = self.output.len();
            self.game_indexes.push(off as u64);
            self.output.append(&mut bytes);
            match self.current_outcome {
                Some(GameOutcome::WhiteWins) => {
                    proof {
                        lemma_count_start_bound(old_games, 0);
                        lemma_stream_len(old_games);
                    }
                    self.white_winning_games = self.white_winning_games + 1;
                },
                Some(GameOutcome::BlackWins) => {
                    proof {
                        lemma_count_start_bound(old_games, 1);
                        lemma_stream_len(old_games);
                    }
                    self.black_winning_games = self.black_winning_games + 1;
                },
                Some(GameOutcome::Draw) => {
                    proof {
                        lemma_count_start_bound(old_games, 2);
                        lemma_stream_len(old_games);
                    }
                    self.draw_games = self.draw_games + 1;
                },
                None => {},
            }
            proof {
                lemma_stream_len(old_games);
            }
            self.ply = self.ply + self.current_ply;
            self.games = Ghost(old_games.push(g));
            proof {
                lemma_concat_bytes_push(old_games, g);
                lemma_count_start_push(old_games, g, 0);
                lemma_count_start_push(old_games, g, 1);
                lemma_count_start_push(old_games, g, 2);
                lemma_tokens_bytes_inverse(g);
                assert forall|k: int| 0 <= k < self.games@.len() implies (
                #[trigger] self.game_indexes@[k]) as int == offset_of(self.games@, k) by {
                    assert(self.games@.subrange(0, k) =~= if k < old_games.len() {
                        old_games.subrange(0, k)
                    } else {
                        old_games
                    });
                }
                assert(self.inv());
                if old(self).digests_fresh() && old(self).synced(old(seen)) {
                    assert forall|k: int| 0 <= k < self.games@.len() implies seen.spec_set()
                        .contains(#[trigger] game_digest(self.games@[k])) by {
                        if k < old_games.len() {
                            assert(old_seen_set.contains(game_digest(old_games[k])));
                        }
                    }
                    assert forall|k: int, l: int| 0 <= k < l < self.games@.len() implies
                        #[trigger] game_digest(self.games@[k]) != #[trigger] game_digest(
                        self.games@[l],
                    ) by {
                        if l == old_games.len() {
                            assert(old_seen_set.contains(game_digest(old_games[k])));
                            assert(!old_seen_set.contains(game_digest(g)));
                        }
                    }
                }
            }
        } else {
            self.duplicate_games = self.duplicate_games + 1;
        }
        self.current_ply = 0;
        self.current_outcome = None;
        Ok(())
    }

    /// Ends a game: yields the end sentinel.
    pub fn end_game(&mut self, tokenizer: &Tokenizer) -> (r: Result<Vec<Token>, TokenError>)
        ensures
            *final(self) == *old(self),
            r matches Ok(v) && token_values(v@) == seq![3u16],
    {
        let t = tokenizer.game_end_token();
        let mut v: Vec<Token> = Vec::new();
        v.push(t);
        proof {
            assert(token_values(v@) =~= seq![3u16]);
        }
        Ok(v)
    }
}

} // verus!
