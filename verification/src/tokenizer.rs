//! The move dictionary: a fixed mapping from UCI move descriptors to small
//! integer tokens.
//!
//! Token ids `0`, `1` and `2` are the start-of-game sentinels for a white
//! win, a black win and a draw; id `3` is the end-of-game sentinel. Ids from
//! `4` upward are assigned to moves, consecutively and in a fixed
//! enumeration order: for each origin square in ascending order, first every
//! destination reachable by some single-piece attack pattern, then (for
//! origins on the two pre-promotion ranks) the promotion variants.

use vstd::prelude::*;

use crate::chess::{
    dict_domain, dist, file_of, promotion_role, queen_or_knight, rank_of, GameOutcome, PieceRole,
    Uci,
};
use crate::chess::is_attack;

verus! {

/// Number of slots in the lookup table: 64 origins x 64 destinations x
/// (no promotion or one of four promotion pieces).
pub const TABLE_SIZE: usize = 20480;

/// The end-of-game sentinel id.
pub const END_TOKEN: u16 = 3;

/// A 16-bit dictionary token. Written to the data stream big-endian.
#[derive(Clone, Copy, Debug, PartialEq, Eq, Structural)]
pub struct Token {
    pub value: u16,
}

/// Errors of the tokenization layer.
#[derive(Clone, Copy, Debug, PartialEq, Eq, Structural)]
pub enum TokenError {
    /// The game outcome was absent, so no start sentinel exists for it.
    MissingOutcome,
    /// The move descriptor has no dictionary token.
    UnknownMove,
}

impl TokenError {
    /// Human-readable error text.
    pub fn message(&self) -> (r: String)
        ensures
            *self == TokenError::MissingOutcome ==> r@ == "Outcome not specified"@,
            *self == TokenError::UnknownMove ==> r@ == "Invalid uci string found"@,
    {
        match self {
            TokenError::MissingOutcome => String::from_str("Outcome not specified"),
            TokenError::UnknownMove => String::from_str("Invalid uci string found"),
        }
    }
}

/// The start sentinel id for an outcome.
pub open spec fn start_token_value(o: GameOutcome) -> u16 {
    match o {
        GameOutcome::WhiteWins => 0,
        GameOutcome::BlackWins => 1,
        GameOutcome::Draw => 2,
    }
}

/// Promotion fields that can be keyed at all: none, or one of the four
/// promotion pieces.
pub open spec fn promo_ok(p: Option<PieceRole>) -> bool {
    match p {
        None => true,
        Some(r) => promotion_role(r),
    }
}

/// Slot index 0..5 of a promotion field.
pub open spec fn promo_index(p: Option<PieceRole>) -> int {
    match p {
        None => 0,
        Some(PieceRole::Bishop) => 1,
        Some(PieceRole::Knight) => 2,
        Some(PieceRole::Rook) => 3,
        Some(PieceRole::Queen) => 4,
        Some(_) => 0,
    }
}

/// Descriptors that map to a table slot: normal moves between board squares
/// with an admissible promotion field.
pub open spec fn encodable(m: Uci) -> bool {
    match m {
        Uci::Normal { from, to, promotion } => from < 64 && to < 64 && promo_ok(promotion),
        _ => false,
    }
}

/// The table slot of an encodable descriptor.
pub open spec fn move_code(m: Uci) -> int {
    match m {
        Uci::Normal { from, to, promotion } => (from * 64 + to) * 5 + promo_index(promotion),
        _ => 0,
    }
}

/// Every dictionary-domain descriptor is encodable and its slot is in range.
pub proof fn lemma_domain_encodable(m: Uci)
    requires
        dict_domain(m),
    ensures
        encodable(m),
        0 <= move_code(m) < TABLE_SIZE,
{
}

/// Encodable slots are in range.
pub proof fn lemma_code_in_range(m: Uci)
    requires
        encodable(m),
    ensures
        0 <= move_code(m) < TABLE_SIZE,
{
}

/// Distinct encodable descriptors occupy distinct table slots.
pub proof fn lemma_code_injective(m1: Uci, m2: Uci)
    requires
        encodable(m1),
        encodable(m2),
        move_code(m1) == move_code(m2),
    ensures
        m1 == m2,
{
    match (m1, m2) {
        (
            Uci::Normal { from: f1, to: t1, promotion: p1 },
            Uci::Normal { from: f2, to: t2, promotion: p2 },
        ) => {
            let q1 = f1 * 64 + t1;
            let q2 = f2 * 64 + t2;
            vstd::arithmetic::div_mod::lemma_fundamental_div_mod_converse(
                move_code(m1),
                5,
                q1 as int,
                promo_index(p1),
            );
            vstd::arithmetic::div_mod::lemma_fundamental_div_mod_converse(
                move_code(m2),
                5,
                q2 as int,
                promo_index(p2),
            );
            assert(q1 == q2 && promo_index(p1) == promo_index(p2));
            vstd::arithmetic::div_mod::lemma_fundamental_div_mod_converse(
                q1 as int,
                64,
                f1 as int,
                t1 as int,
            );
            vstd::arithmetic::div_mod::lemma_fundamental_div_mod_converse(
                q2 as int,
                64,
                f2 as int,
                t2 as int,
            );
            assert(f1 == f2 && t1 == t2);
            assert(p1 == p2);
        },
        _ => {},
    }
}

/// A normal move descriptor.
pub open spec fn normal_move(f: u8, t: u8, p: Option<PieceRole>) -> Uci {
    Uci::Normal { from: f, to: t, promotion: p }
}

/// The four promotion variants of one origin/destination pair, in
/// enumeration order.
pub open spec fn promo_seq(from: u8, to: u8) -> Seq<Uci> {
    seq![
        normal_move(from, to, Some(PieceRole::Bishop)),
        normal_move(from, to, Some(PieceRole::Knight)),
        normal_move(from, to, Some(PieceRole::Rook)),
        normal_move(from, to, Some(PieceRole::Queen)),
    ]
}

/// The plain moves from `from` to destinations below `to`, ascending.
pub open spec fn normal_keys_upto(from: u8, to: int) -> Seq<Uci>
    decreases to,
{
    if to <= 0 {
        Seq::empty()
    } else {
        normal_keys_upto(from, to - 1) + (if queen_or_knight(from as int, to - 1) {
            seq![normal_move(from, (to - 1) as u8, None)]
        } else {
            Seq::empty()
        })
    }
}

/// The promotion variants from `from` onto the first `n` squares at and
/// above `base` (the far back rank), ascending, four pieces per target.
pub open spec fn promo_keys_upto(from: u8, base: int, n: int) -> Seq<Uci>
    decreases n,
{
    if n <= 0 {
        Seq::empty()
    } else {
        promo_keys_upto(from, base, n - 1) + (if dist(
            file_of(from as int),
            file_of(base + n - 1),
        ) <= 1 {
            promo_seq(from, (base + n - 1) as u8)
        } else {
            Seq::empty()
        })
    }
}

/// All dictionary keys contributed by one origin square, in enumeration
/// order: plain moves, then white promotions for seventh-rank origins,
/// then black promotions for second-rank origins.
pub open spec fn square_keys(from: u8) -> Seq<Uci> {
    normal_keys_upto(from, 64) + (if rank_of(from as int) == 6 {
        promo_keys_upto(from, 56, 8)
    } else {
        Seq::empty()
    }) + (if rank_of(from as int) == 1 {
        promo_keys_upto(from, 0, 8)
    } else {
        Seq::empty()
    })
}

/// The keys contributed by the first `from` origin squares.
pub open spec fn keys_upto(from: int) -> Seq<Uci>
    decreases from,
{
    if from <= 0 {
        Seq::empty()
    } else {
        keys_upto(from - 1) + square_keys((from - 1) as u8)
    }
}

/// The whole dictionary key enumeration, in construction order.
pub open spec fn dict_keys() -> Seq<Uci> {
    keys_upto(64)
}

/// The whole dictionary: the enumerated keys paired with consecutive ids
/// from 4. `create_token_map` produces exactly this list, which makes the
/// construction deterministic.
pub open spec fn dict_entries() -> Seq<(Uci, u16)> {
    Seq::new(dict_keys().len(), |i: int| (dict_keys()[i], (4 + i) as u16))
}

/// The keys of an entry list.
pub open spec fn keys_of(es: Seq<(Uci, u16)>) -> Seq<Uci> {
    es.map_values(|e: (Uci, u16)| e.0)
}

/// The move dictionary. `token_map` is a slot-indexed lookup table;
/// `entries` lists the same mapping as (descriptor, id) pairs in id order.
pub struct Tokenizer {
    token_map: Vec<Option<u16>>,
    entries: Vec<(Uci, u16)>,
}

impl Tokenizer {
    /// The (descriptor, id) pairs, in the order ids were assigned.
    pub closed spec fn spec_entries(&self) -> Seq<(Uci, u16)> {
        self.entries@
    }

    /// The id, if any, of a descriptor.
    pub closed spec fn spec_lookup(&self, m: Uci) -> Option<u16> {
        if encodable(m) {
            self.token_map@[move_code(m)]
        } else {
            None
        }
    }

    /// Well-formedness: ids are `4, 5, ...` in entry order, every entry key
    /// is in the dictionary domain, and the table and the entry list state
    /// the same mapping.
    pub closed spec fn wf(&self) -> bool {
        &&& self.token_map@.len() == TABLE_SIZE as int
        &&& forall|i: int|
            0 <= i < self.entries@.len() ==> dict_domain((#[trigger] self.entries@[i]).0)
        &&& forall|i: int| 0 <= i < self.entries@.len() ==> (#[trigger] self.entries@[i]).1 == 4 + i
        &&& forall|i: int|
            0 <= i < self.entries@.len() ==> self.token_map@[move_code(
                (#[trigger] self.entries@[i]).0,
            )] == Some(self.entries@[i].1)
        &&& forall|c: int|
            0 <= c < TABLE_SIZE ==> ((#[trigger] self.token_map@[c]) matches Some(t) ==> 4 <= t
                && t - 4 < self.entries@.len() && move_code(self.entries@[t - 4].0) == c)
    }

    /// The dictionary is exactly total on its intended domain.
    pub open spec fn complete(&self) -> bool {
        forall|m: Uci| (#[trigger] self.spec_lookup(m)) is Some <==> dict_domain(m)
    }

    /// An empty dictionary: every lookup misses.
    pub fn new() -> (t: Tokenizer)
        ensures
            t.wf(),
            t.spec_entries().len() == 0,
            forall|m: Uci| (#[trigger] t.spec_lookup(m)) is None,
    {
        let mut table: Vec<Option<u16>> = Vec::new();
        let mut i: usize = 0;
        while i < TABLE_SIZE
            invariant
                i <= TABLE_SIZE,
                table@.len() == i,
                forall|c: int| 0 <= c < i ==> (#[trigger] table@[c]) is None,
            decreases TABLE_SIZE - i,
        {
            table.push(None);
            i += 1;
        }
        let t = Tokenizer { token_map: table, entries: Vec::new() };
        proof {
            assert forall|m: Uci| (#[trigger] t.spec_lookup(m)) is None by {
                if encodable(m) {
                    lemma_code_in_range(m);
                }
            }
        }
        t
    }

    /// Exec computation of `move_code`.
    fn move_code_exec(m: &Uci) -> (r: usize)
        requires
            encodable(*m),
        ensures
            r as int == move_code(*m),
            r < TABLE_SIZE,
    {
        proof {
            lemma_code_in_range(*m);
        }
        match m {
            Uci::Normal { from, to, promotion } => {
                let p: usize = match promotion {
                    None => 0,
                    Some(PieceRole::Bishop) => 1,
                    Some(PieceRole::Knight) => 2,
                    Some(PieceRole::Rook) => 3,
                    Some(PieceRole::Queen) => 4,
                    Some(_) => 0,
                };
                ((*from as usize) * 64 + (*to as usize)) * 5 + p
            },
            _ => 0,
        }
    }

    /// Adds one (descriptor, id) pair. The descriptor must be new and the
    /// id must continue the consecutive assignment.
    fn insert_move(&mut self, m: Uci, idx: u16)
        requires
            old(self).wf(),
            dict_domain(m),
            old(self).spec_lookup(m) is None,
            idx as int == 4 + old(self).spec_entries().len(),
        ensures
            final(self).wf(),
            final(self).spec_entries() == old(self).spec_entries().push((m, idx)),
            forall|m2: Uci|
                (#[trigger] final(self).spec_lookup(m2)) == if m2 == m {
                    Some(idx)
                } else {
                    old(self).spec_lookup(m2)
                },
    {
        proof {
            lemma_domain_encodable(m);
        }
        let code = Self::move_code_exec(&m);
        self.token_map.set(code, Some(idx));
        self.entries.push((m, idx));
        proof {
            assert forall|m2: Uci|
                (#[trigger] self.spec_lookup(m2)) == if m2 == m {
                    Some(idx)
                } else {
                    old(self).spec_lookup(m2)
                } by {
                if encodable(m2) && move_code(m2) == move_code(m) {
                    lemma_code_injective(m2, m);
                }
            }
            assert forall|c: int|
                0 <= c < TABLE_SIZE implies ((#[trigger] self.token_map@[c]) matches Some(t)
                ==> 4 <= t && t - 4 < self.entries@.len() && move_code(self.entries@[t - 4].0)
                == c) by {
                if c != move_code(m) {
                    assert(self.token_map@[c] == old(self).token_map@[c]);
                }
            }
        }
    }
    /// Builds the dictionary: for each origin square in ascending order,
    /// every destination reachable by a single-piece attack pattern, then
    /// the promotion variants for origins on the two pre-promotion ranks.
    /// Ids are assigned consecutively from 4; the resulting entry list is
    /// exactly `dict_entries()`, so any two builds agree completely.
    pub fn create_token_map(&mut self)
        requires
            old(self).wf(),
            old(self).spec_entries().len() == 0,
        ensures
            final(self).wf(),
            final(self).complete(),
            final(self).spec_entries() == dict_entries(),
    {
        let mut idx: u16 = 4;
        let mut from: u8 = 0;
        proof {
            assert(keys_of(self.spec_entries()) =~= keys_upto(0));
        }
        while from < 64
            invariant
                self.wf(),
                from <= 64,
                idx as int == 4 + self.spec_entries().len(),
                self.spec_entries().len() <= 96 * (from as int),
                keys_of(self.spec_entries()) == keys_upto(from as int),
                forall|f2: u8, t2: u8, p: Option<PieceRole>|
                    (#[trigger] self.spec_lookup(normal_move(f2, t2, p))) is Some <==> (
                    dict_domain(normal_move(f2, t2, p)) && f2 < from),
            decreases 64 - from,
        {
            let mut to: u8 = 0;
            proof {
                assert(keys_upto(from as int) + normal_keys_upto(from, 0) =~= keys_upto(
                    from as int,
                ));
            }
            while to < 64
                invariant
                    self.wf(),
                    from < 64,
                    to <= 64,
                    idx as int == 4 + self.spec_entries().len(),
                    self.spec_entries().len() <= 96 * (from as int) + (to as int),
                    keys_of(self.spec_entries()) == keys_upto(from as int) + normal_keys_upto(
                        from,
                        to as int,
                    ),
                    forall|f2: u8, t2: u8, p: Option<PieceRole>|
                        (#[trigger] self.spec_lookup(normal_move(f2, t2, p))) is Some <==> (
                        dict_domain(normal_move(f2, t2, p)) && (f2 < from || (f2 == from
                            && p is None && t2 < to))),
                decreases 64 - to,
            {
                let ghost ks = keys_of(self.spec_entries());
                if is_attack(from, to) {
                    proof {
                        assert(self.spec_lookup(normal_move(from, to, None)) is None);
                    }
                    self.insert_move(Uci::Normal { from, to, promotion: None }, idx);
                    idx = idx + 1;
                    proof {
                        assert(keys_of(self.spec_entries()) =~= ks.push(normal_move(from, to, None)));
                        assert(keys_of(self.spec_entries()) =~= keys_upto(from as int)
                            + normal_keys_upto(from, to as int + 1));
                    }
                } else {
                    proof {
                        assert(keys_upto(from as int) + normal_keys_upto(from, to as int + 1) =~= ks);
                    }
                }
                to = to + 1;
            }
            if from / 8 == 6 {
                let mut to: u8 = 56;
                proof {
                    assert(keys_of(self.spec_entries()) + promo_keys_upto(from, 56, 0)
                        =~= keys_of(self.spec_entries()));
                }
                while to < 64
                    invariant
                        self.wf(),
                        from < 64,
                        rank_of(from as int) == 6,
                        56 <= to <= 64,
                        idx as int == 4 + self.spec_entries().len(),
                        self.spec_entries().len() <= 96 * (from as int) + 64 + 4 * (to - 56),
                        keys_of(self.spec_entries()) == keys_upto(from as int) + normal_keys_upto(
                            from,
                            64,
                        ) + promo_keys_upto(from, 56, to - 56),
                        forall|f2: u8, t2: u8, p: Option<PieceRole>|
                            (#[trigger] self.spec_lookup(normal_move(f2, t2, p))) is Some <==> (
                            dict_domain(normal_move(f2, t2, p)) && (f2 < from || (f2 == from && (
                            p is None || t2 < to)))),
                    decreases 64 - to,
                {
                    let ghost ks = keys_of(self.spec_entries());
                    let ff = from % 8;
                    let tf = to % 8;
                    let df = if ff >= tf {
                        ff - tf
                    } else {
                        tf - ff
                    };
                    proof {
                        assert(df as int == dist(file_of(from as int), file_of(to as int)));
                    }
                    if df <= 1 {
                        proof {
                            assert(self.spec_lookup(normal_move(from, to, Some(PieceRole::Bishop)))
                                is None);
                            assert(self.spec_lookup(normal_move(from, to, Some(PieceRole::Knight)))
                                is None);
                            assert(self.spec_lookup(normal_move(from, to, Some(PieceRole::Rook)))
                                is None);
                            assert(self.spec_lookup(normal_move(from, to, Some(PieceRole::Queen)))
                                is None);
                        }
                        self.insert_move(
                            Uci::Normal { from, to, promotion: Some(PieceRole::Bishop) },
                            idx,
                        );
                        idx = idx + 1;
                        self.insert_move(
                            Uci::Normal { from, to, promotion: Some(PieceRole::Knight) },
                            idx,
                        );
                        idx = idx + 1;
                        self.insert_move(Uci::Normal { from, to, promotion: Some(PieceRole::Rook) }, idx);
                        idx = idx + 1;
                        self.insert_move(
                            Uci::Normal { from, to, promotion: Some(PieceRole::Queen) },
                            idx,
                        );
                        idx = idx + 1;
                        proof {
                            assert(keys_of(self.spec_entries()) =~= ks + promo_seq(from, to));
                            assert(keys_of(self.spec_entries()) =~= keys_upto(from as int)
                                + normal_keys_upto(from, 64) + promo_keys_upto(
                                from,
                                56,
                                to - 56 + 1,
                            ));
                        }
                    } else {
                        proof {
                            assert(keys_upto(from as int) + normal_keys_upto(from, 64)
                                + promo_keys_upto(from, 56, to - 56 + 1) =~= ks);
                        }
                    }
                    to = to + 1;
                }
            }
            if from / 8 == 1 {
                let mut to: u8 = 0;
                proof {
                    assert(keys_of(self.spec_entries()) + promo_keys_upto(from, 0, 0)
                        =~= keys_of(self.spec_entries()));
                }
                while to < 8
                    invariant
                        self.wf(),
                        from < 64,
                        rank_of(from as int) == 1,
                        to <= 8,
                        idx as int == 4 + self.spec_entries().len(),
                        self.spec_entries().len() <= 96 * (from as int) + 64 + 4 * (to as int),
                        keys_of(self.spec_entries()) == keys_upto(from as int) + normal_keys_upto(
                            from,
                            64,
                        ) + promo_keys_upto(from, 0, to as int),
                        forall|f2: u8, t2: u8, p: Option<PieceRole>|
                            (#[trigger] self.spec_lookup(normal_move(f2, t2, p))) is Some <==> (
                            dict_domain(normal_move(f2, t2, p)) && (f2 < from || (f2 == from && (
                            p is None || t2 < to)))),
                    decreases 8 - to,
                {
                    let ghost ks = keys_of(self.spec_entries());
                    let ff = from % 8;
                    let tf = to % 8;
                    let df = if ff >= tf {
                        ff - tf
                    } else {
                        tf - ff
                    };
                    proof {
                        assert(df as int == dist(file_of(from as int), file_of(to as int)));
                    }
                    if df <= 1 {
                        proof {
                            assert(self.spec_lookup(normal_move(from, to, Some(PieceRole::Bishop)))
                                is None);
                            assert(self.spec_lookup(normal_move(from, to, Some(PieceRole::Knight)))
                                is None);
                            assert(self.spec_lookup(normal_move(from, to, Some(PieceRole::Rook)))
                                is None);
                            assert(self.spec_lookup(normal_move(from, to, Some(PieceRole::Queen)))
                                is None);
                        }
                        self.insert_move(
                            Uci::Normal { from, to, promotion: Some(PieceRole::Bishop) },
                            idx,
                        );
                        idx = idx + 1;
                        self.insert_move(
                            Uci::Normal { from, to, promotion: Some(PieceRole::Knight) },
                            idx,
                        );
                        idx = idx + 1;
                        self.insert_move(Uci::Normal { from, to, promotion: Some(PieceRole::Rook) }, idx);
                        idx = idx + 1;
                        self.insert_move(
                            Uci::Normal { from, to, promotion: Some(PieceRole::Queen) },
                            idx,
                        );
                        idx = idx + 1;
                        proof {
                            assert(keys_of(self.spec_entries()) =~= ks + promo_seq(from, to));
                            assert(keys_of(self.spec_entries()) =~= keys_upto(from as int)
                                + normal_keys_upto(from, 64) + promo_keys_upto(
                                from,
                                0,
                                to as int + 1,
                            ));
                        }
                    } else {
                        proof {
                            assert(keys_upto(from as int) + normal_keys_upto(from, 64)
                                + promo_keys_upto(from, 0, to as int + 1) =~= ks);
                        }
                    }
                    to = to + 1;
                }
            }
            proof {
                assert(keys_of(self.spec_entries()) =~= keys_upto(from as int) + square_keys(from));
                assert(keys_upto(from as int + 1) =~= keys_upto(from as int) + square_keys(from));
            }
            from = from + 1;
        }
        proof {
            assert forall|m: Uci| (#[trigger] self.spec_lookup(m)) is Some <==> dict_domain(
                m,
            ) by {
                match m {
                    Uci::Normal { from: f2, to: t2, promotion: p } => {
                        assert(self.spec_lookup(normal_move(f2, t2, p)) is Some <==> (dict_domain(
                            normal_move(f2, t2, p),
                        ) && f2 < 64));
                    },
                    _ => {},
                }
            }
            let es = self.spec_entries();
            assert(keys_of(es).len() == es.len());
            assert forall|i: int| 0 <= i < es.len() implies #[trigger] es[i] == dict_entries()[i] by {
                assert(es[i].0 == keys_of(es)[i]);
                assert(es[i].1 == 4 + i);
            }
            assert(es =~= dict_entries());
        }
    }

    /// The same construction under its other public name: delegates to
    /// `create_token_map` and carries the identical contract.
    pub fn initialize_token_map(&mut self)
        requires
            old(self).wf(),
            old(self).spec_entries().len() == 0,
        ensures
            final(self).wf(),
            final(self).complete(),
            final(self).spec_entries() == dict_entries(),
    {
        self.create_token_map()
    }

    /// The start sentinel for an outcome, or `MissingOutcome` when the
    /// outcome is absent.
    pub fn game_start_token(&self, outcome: Option<GameOutcome>) -> (r: Result<Token, TokenError>)
        ensures
            match outcome {
                Some(o) => r == Ok::<Token, TokenError>(Token { value: start_token_value(o) }),
                None => r == Err::<Token, TokenError>(TokenError::MissingOutcome),
            },
    {
        match outcome {
            Some(GameOutcome::WhiteWins) => Ok(Token { value: 0 }),
            Some(GameOutcome::BlackWins) => Ok(Token { value: 1 }),
            Some(GameOutcome::Draw) => Ok(Token { value: 2 }),
            None => Err(TokenError::MissingOutcome),
        }
    }

    /// The token of a move descriptor, or `UnknownMove` if the dictionary
    /// does not contain it.
    pub fn uci_to_token(&self, uci: Uci) -> (r: Result<Token, TokenError>)
        requires
            self.wf(),
        ensures
            match self.spec_lookup(uci) {
                Some(t) => r == Ok::<Token, TokenError>(Token { value: t }),
                None => r == Err::<Token, TokenError>(TokenError::UnknownMove),
            },
    {
        match uci {
            Uci::Normal { from, to, promotion } => {
                let promo_good = match promotion {
                    None => true,
                    Some(PieceRole::Bishop) => true,
                    Some(PieceRole::Knight) => true,
                    Some(PieceRole::Rook) => true,
                    Some(PieceRole::Queen) => true,
                    Some(_) => false,
                };
                if from < 64 && to < 64 && promo_good {
                    let code = Self::move_code_exec(&uci);
                    match self.token_map[code] {
                        Some(t) => Ok(Token { value: t }),
                        None => Err(TokenError::UnknownMove),
                    }
                } else {
                    Err(TokenError::UnknownMove)
                }
            },
            _ => Err(TokenError::UnknownMove),
        }
    }

    /// The end-of-game sentinel.
    pub fn game_end_token(&self) -> (r: Token)
        ensures
            r.value == END_TOKEN,
    {
        Token { value: 3 }
    }

    /// The dictionary serialized as a JSON object: the four sentinel
    /// members, then one member per move in id order. This is the compute
    /// half of persisting; the caller writes the bytes out.
    pub fn dictionary_json(&self) -> (r: Vec<u8>)
        requires
            self.wf(),
        ensures
            r@ == crate::persist::dict_json_bytes(self.spec_entries()),
    {
        let mut out: Vec<u8> = Vec::new();
        crate::persist::push_header(&mut out);
        let mut i: usize = 0;
        while i < self.entries.len()
            invariant
                self.wf(),
                i <= self.entries@.len(),
                out@ == crate::persist::json_header() + crate::persist::entries_bytes(
                    self.entries@.subrange(0, i as int),
                ),
            decreases self.entries@.len() - i,
        {
            let (m, t) = self.entries[i];
            out.push(44u8);
            out.push(34u8);
            match m {
                Uci::Normal { from, to, promotion } => {
                    crate::persist::push_square(&mut out, from);
                    crate::persist::push_square(&mut out, to);
                    match promotion {
                        Some(p) => {
                            out.push(
                                match p {
                                    PieceRole::Bishop => 98u8,
                                    PieceRole::Knight => 110u8,
                                    PieceRole::Rook => 114u8,
                                    PieceRole::Queen => 113u8,
                                    _ => 63u8,
                                },
                            );
                        },
                        None => {},
                    }
                },
                _ => {},
            }
            out.push(34u8);
            out.push(58u8);
            crate::persist::push_dec(&mut out, t);
            proof {
                crate::persist::lemma_entries_bytes_push(
                    self.entries@.subrange(0, i as int),
                    (m, t),
                );
                assert(self.entries@.subrange(0, i + 1 as int) =~= self.entries@.subrange(
                    0,
                    i as int,
                ).push((m, t)));
                assert(out@ =~= crate::persist::json_header() + crate::persist::entries_bytes(
                    self.entries@.subrange(0, i + 1 as int),
                ));
            }
            i += 1;
        }
        out.push(125u8);
        proof {
            assert(self.entries@.subrange(0, self.entries@.len() as int) =~= self.entries@);
            assert(out@ =~= crate::persist::dict_json_bytes(self.spec_entries()));
        }
        out
    }
}

/// Determinism of the assignment: two well-formed dictionaries with equal
/// entry lists give every descriptor the same token. Together with
/// `create_token_map`'s `ensures` that the entry list is exactly
/// `dict_entries()`, any two builds (by either construction name) agree on
/// every lookup.
pub proof fn lemma_lookup_determined(t1: &Tokenizer, t2: &Tokenizer, m: Uci)
    requires
        t1.wf(),
        t2.wf(),
        t1.spec_entries() == t2.spec_entries(),
    ensures
        t1.spec_lookup(m) == t2.spec_lookup(m),
{
    lemma_lookup_from_entries(t1, t2, m);
    lemma_lookup_from_entries(t2, t1, m);
}

/// One direction of `lemma_lookup_determined`: a hit in the first
/// dictionary is mirrored in the second.
proof fn lemma_lookup_from_entries(t1: &Tokenizer, t2: &Tokenizer, m: Uci)
    requires
        t1.wf(),
        t2.wf(),
        t1.spec_entries() == t2.spec_entries(),
    ensures
        t1.spec_lookup(m) is Some ==> t2.spec_lookup(m) == t1.spec_lookup(m),
{
    if t1.spec_lookup(m) is Some {
        let tok = t1.spec_lookup(m)->Some_0;
        lemma_code_in_range(m);
        let e = t1.spec_entries()[tok - 4];
        assert(move_code(e.0) == move_code(m));
        lemma_domain_encodable(e.0);
        lemma_code_injective(e.0, m);
        assert(t2.spec_entries()[tok - 4] == e);
        assert(t2.token_map@[move_code(e.0)] == Some(e.1));
        assert(e.1 == tok);
    }
}

/// Concrete shapes of the special moves lie in the dictionary domain:
/// castling as the king's two-square move along its rank, en passant as a
/// one-step pawn diagonal, and promotion with its four pieces.
pub proof fn lemma_special_move_shapes()
    ensures
        dict_domain(normal_move(4, 6, None)),
        dict_domain(normal_move(4, 2, None)),
        dict_domain(normal_move(60, 62, None)),
        dict_domain(normal_move(36, 43, None)),
        dict_domain(normal_move(52, 60, Some(PieceRole::Queen))),
        dict_domain(normal_move(8, 0, Some(PieceRole::Knight))),
{
}

/// Dictionary totality: after construction every descriptor in the
/// dictionary domain has a token, and nothing else does. Together with
/// `crate::chess::lemma_attack_union` this covers every origin/destination
/// pair of a legal chess move: castling written as the king's two-square
/// move lies on a rook line, en passant is a pawn-style diagonal, and the
/// promotion variants are enumerated on the back ranks.
pub proof fn lemma_dictionary_totality(t: &Tokenizer, m: Uci)
    requires
        t.complete(),
    ensures
        t.spec_lookup(m) is Some <==> dict_domain(m),
{
}

/// No two descriptors share a token id (dictionary bijectivity, one
/// direction; the other direction is a map's functionality).
pub proof fn lemma_dictionary_injective(t: &Tokenizer, m1: Uci, m2: Uci)
    requires
        t.wf(),
        m1 != m2,
        t.spec_lookup(m1) is Some,
        t.spec_lookup(m2) is Some,
    ensures
        t.spec_lookup(m1) != t.spec_lookup(m2),
{
    if t.spec_lookup(m1) == t.spec_lookup(m2) {
        let tok = t.spec_lookup(m1)->Some_0;
        assert(t.token_map@[move_code(m1)] == Some(tok));
        assert(t.token_map@[move_code(m2)] == Some(tok));
        lemma_code_in_range(m1);
        lemma_code_in_range(m2);
        assert(move_code(t.spec_entries()[tok - 4].0) == move_code(m1));
        assert(move_code(t.spec_entries()[tok - 4].0) == move_code(m2));
        lemma_code_injective(m1, m2);
    }
}

/// Token ids above the sentinels form the contiguous range
/// `4 .. 4 + n` where `n` is the number of dictionary entries, and every id
/// in that range is assigned to exactly one descriptor.
pub proof fn lemma_ids_contiguous(t: &Tokenizer)
    requires
        t.wf(),
    ensures
        forall|i: int|
            0 <= i < t.spec_entries().len() ==> (#[trigger] t.spec_entries()[i]).1 == 4 + i,
        forall|m: Uci|
            (#[trigger] t.spec_lookup(m)) matches Some(tok) ==> 4 <= tok < 4
                + t.spec_entries().len(),
        forall|m: Uci| (#[trigger] t.spec_lookup(m)) is Some ==> dict_domain(m),
{
    assert forall|m: Uci| (#[trigger] t.spec_lookup(m)) is Some implies {
        let tok = t.spec_lookup(m)->Some_0;
        4 <= tok < 4 + t.spec_entries().len() && dict_domain(m)
    } by {
        let tok = t.spec_lookup(m)->Some_0;
        lemma_code_in_range(m);
        assert(move_code(t.spec_entries()[tok - 4].0) == move_code(m));
        lemma_domain_encodable(t.spec_entries()[tok - 4].0);
        lemma_code_injective(t.spec_entries()[tok - 4].0, m);
    }
}

} // verus!
