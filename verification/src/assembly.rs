//! The global dedup-and-assembly core.
//!
//! An `Assembly` models the pair of output streams: the data stream (the
//! concatenation of all committed games) and the offset index (one
//! big-endian `u64` per game). `commit_batch` appends one file's batch
//! under mutual exclusion provided by the caller, translating the batch's
//! local offsets by the global stream length.

use vstd::prelude::*;

use crate::dedup::{
    count_start, digests_distinct, digests_in, lemma_digests_distinct_concat,
    total_moves, Stats,
};
use crate::encoding::{
    be64, bytes_tokens, concat_bytes, concat_tokens, is_start_token, lemma_concat_bytes_tokens,
    lemma_round_trip, lemma_tokens_bytes_inverse, offset_of, push_be64, split_games, tokens_bytes,
    wf_game_tokens,
};
use crate::visitor::{lemma_stream_len, Visitor};

verus! {

/// Serialization of an offset index: eight big-endian bytes per entry.
pub open spec fn index_bytes_of(idx: Seq<u64>) -> Seq<u8>
    decreases idx.len(),
{
    if idx.len() == 0 {
        Seq::empty()
    } else {
        be64(idx[0]) + index_bytes_of(idx.drop_first())
    }
}

/// Offsets shifted by a common base.
pub open spec fn shift_offsets(idx: Seq<u64>, base: u64) -> Seq<u64> {
    idx.map_values(|x: u64| (base + x) as u64)
}

/// Serialization distributes over appending one offset.
pub proof fn lemma_index_bytes_push(idx: Seq<u64>, x: u64)
    ensures
        index_bytes_of(idx.push(x)) == index_bytes_of(idx) + be64(x),
    decreases idx.len(),
{
    if idx.len() == 0 {
        assert(idx.push(x).drop_first() =~= idx);
        assert(index_bytes_of(idx.push(x)) =~= index_bytes_of(idx) + be64(x));
    } else {
        lemma_index_bytes_push(idx.drop_first(), x);
        assert(idx.push(x).drop_first() =~= idx.drop_first().push(x));
        assert(index_bytes_of(idx.push(x)) =~= index_bytes_of(idx) + be64(x));
    }
}

/// Byte concatenation distributes over stream concatenation.
pub proof fn lemma_concat_bytes_add(a: Seq<Seq<u16>>, b: Seq<Seq<u16>>)
    ensures
        concat_bytes(a + b) == concat_bytes(a) + concat_bytes(b),
    decreases a.len(),
{
    if a.len() == 0 {
        assert(a + b =~= b);
        assert(concat_bytes(a) + concat_bytes(b) =~= concat_bytes(b));
    } else {
        lemma_concat_bytes_add(a.drop_first(), b);
        assert((a + b).drop_first() =~= a.drop_first() + b);
        assert((a + b)[0] == a[0]);
        assert(concat_bytes(a + b) =~= concat_bytes(a) + concat_bytes(b));
    }
}

/// Counters distribute over stream concatenation.
pub proof fn lemma_counts_add(a: Seq<Seq<u16>>, b: Seq<Seq<u16>>, t: u16)
    ensures
        count_start(a + b, t) == count_start(a, t) + count_start(b, t),
        total_moves(a + b) == total_moves(a) + total_moves(b),
    decreases a.len(),
{
    if a.len() == 0 {
        assert(a + b =~= b);
    } else {
        lemma_counts_add(a.drop_first(), b, t);
        assert((a + b).drop_first() =~= a.drop_first() + b);
        assert((a + b)[0] == a[0]);
    }
}

/// Every game of a well-formed stream starts with one of the three start
/// sentinels, so the three outcome counts partition the stream.
pub proof fn lemma_counts_sum(games: Seq<Seq<u16>>)
    requires
        forall|i: int| 0 <= i < games.len() ==> wf_game_tokens(#[trigger] games[i]),
    ensures
        count_start(games, 0) + count_start(games, 1) + count_start(games, 2) == games.len(),
    decreases games.len(),
{
    if games.len() > 0 {
        assert(forall|i: int|
            0 <= i < games.drop_first().len() ==> wf_game_tokens(
                #[trigger] games.drop_first()[i],
            ));
        lemma_counts_sum(games.drop_first());
        assert(is_start_token(games[0][0]));
    }
}

/// An offset within the stream never exceeds the stream's length.
pub proof fn lemma_offset_bound(games: Seq<Seq<u16>>, i: int)
    requires
        0 <= i <= games.len(),
    ensures
        0 <= offset_of(games, i) <= concat_bytes(games).len(),
{
    assert(games =~= games.subrange(0, i) + games.subrange(i, games.len() as int));
    lemma_concat_bytes_add(games.subrange(0, i), games.subrange(i, games.len() as int));
}

/// The offset of an appended batch's game is the base stream length plus
/// its local offset.
pub proof fn lemma_offset_add(a: Seq<Seq<u16>>, b: Seq<Seq<u16>>, j: int)
    requires
        0 <= j <= b.len(),
    ensures
        offset_of(a + b, a.len() + j) == concat_bytes(a).len() + offset_of(b, j),
{
    assert((a + b).subrange(0, a.len() + j) =~= a + b.subrange(0, j));
    lemma_concat_bytes_add(a, b.subrange(0, j));
}

/// The global assembly state: the modeled data stream and offset index,
/// the running byte length, and the folded statistics.
pub struct Assembly {
    /// Byte length of the data stream; the offset at which the next
    /// committed game will start.
    pub next_offset: u64,
    /// Folded counters of all committed batches.
    pub stats: Stats,
    /// All committed games, in commit order.
    pub games: Ghost<Seq<Seq<u16>>>,
    /// All index entries, in commit order.
    pub index: Ghost<Seq<u64>>,
}

impl Assembly {
    /// The stream pair is consistent: one index entry per game, each entry
    /// the byte offset of its game, the running length equal to the data
    /// stream length, and the counters counting the committed games.
    pub open spec fn inv(&self) -> bool {
        &&& self.index@.len() == self.games@.len()
        &&& forall|i: int| 0 <= i < self.games@.len() ==> wf_game_tokens(#[trigger] self.games@[i])
        &&& forall|i: int|
            0 <= i < self.games@.len() ==> (#[trigger] self.index@[i]) as int == offset_of(
                self.games@,
                i,
            )
        &&& self.next_offset as int == concat_bytes(self.games@).len()
        &&& self.stats.white_winning_games == count_start(self.games@, 0)
        &&& self.stats.black_winning_games == count_start(self.games@, 1)
        &&& self.stats.draw_games == count_start(self.games@, 2)
        &&& self.stats.ply == total_moves(self.games@)
    }

    /// An empty assembly.
    pub fn new() -> (a: Assembly)
        ensures
            a.inv(),
            a.games@ == Seq::<Seq<u16>>::empty(),
            a.index@ == Seq::<u64>::empty(),
            a.next_offset == 0,
            a.stats.duplicate_games == 0,
    {
        Assembly {
            next_offset: 0,
            stats: Stats::new(),
            games: Ghost(Seq::empty()),
            index: Ghost(Seq::empty()),
        }
    }

    /// Commits one finished batch: appends its bytes to the data stream,
    /// translates its local offsets by the current stream length and
    /// appends them to the index, advances the stream length, and folds
    /// the batch counters into the global statistics. Returns the bytes to
    /// append to the index file.
    #[verifier::rlimit(60)]
    pub fn commit_batch(&mut self, v: &Visitor) -> (index_bytes: Vec<u8>)
        requires
            old(self).inv(),
            v.inv(),
            old(self).next_offset + v.output@.len() <= u64::MAX,
            old(self).stats.duplicate_games + v.duplicate_games <= u64::MAX,
        ensures
            final(self).inv(),
            final(self).games@ == old(self).games@ + v.games@,
            final(self).index@ == old(self).index@ + shift_offsets(
                v.game_indexes@,
                old(self).next_offset,
            ),
            final(self).next_offset == old(self).next_offset + v.output@.len(),
            final(self).stats.white_winning_games == old(self).stats.white_winning_games
                + v.white_winning_games,
            final(self).stats.black_winning_games == old(self).stats.black_winning_games
                + v.black_winning_games,
            final(self).stats.draw_games == old(self).stats.draw_games + v.draw_games,
            final(self).stats.duplicate_games == old(self).stats.duplicate_games
                + v.duplicate_games,
            final(self).stats.ply == old(self).stats.ply + v.ply,
            index_bytes@ == index_bytes_of(
                shift_offsets(v.game_indexes@, old(self).next_offset),
            ),
            (digests_distinct(old(self).games@) && digests_in(old(self).games@, v.start_seen@)
                && v.digests_fresh()) ==> digests_distinct(final(self).games@),
    {
        proof {
            lemma_stream_len(self.games@);
            lemma_stream_len(v.games@);
            lemma_count_bounds(self.games@);
            lemma_count_bounds(v.games@);
        }
        let base = self.next_offset;
        let mut index_bytes: Vec<u8> = Vec::new();
        let mut i: usize = 0;
        while i < v.game_indexes.len()
            invariant
                i <= v.game_indexes@.len(),
                v.inv(),
                base as int + v.output@.len() <= u64::MAX,
                index_bytes@ == index_bytes_of(
                    shift_offsets(v.game_indexes@.subrange(0, i as int), base),
                ),
            decreases v.game_indexes@.len() - i,
        {
            proof {
                assert(v.game_indexes@[i as int] as int == offset_of(v.games@, i as int));
                lemma_offset_bound(v.games@, i as int);
            }
            let off = base + v.game_indexes[i];
            push_be64(&mut index_bytes, off);
            proof {
                let pre = v.game_indexes@.subrange(0, i as int);
                lemma_index_bytes_push(shift_offsets(pre, base), off);
                assert(shift_offsets(v.game_indexes@.subrange(0, i + 1 as int), base) =~= (
                shift_offsets(pre, base)).push(off));
            }
            i += 1;
        }
        proof {
            assert(v.game_indexes@.subrange(0, v.game_indexes@.len() as int) =~= v.game_indexes@);
        }
        let ghost old_games = self.games@;
        let ghost old_index = self.index@;
        self.games = Ghost(old_games + v.games@);
        self.index = Ghost(old_index + shift_offsets(v.game_indexes@, base));
        let batch_len = v.output.len();
        self.next_offset = self.next_offset + batch_len as u64;
        self.stats.white_winning_games = self.stats.white_winning_games + v.white_winning_games;
        self.stats.black_winning_games = self.stats.black_winning_games + v.black_winning_games;
        self.stats.draw_games = self.stats.draw_games + v.draw_games;
        self.stats.duplicate_games = self.stats.duplicate_games + v.duplicate_games;
        self.stats.ply = self.stats.ply + v.ply;
        proof {
            lemma_concat_bytes_add(old_games, v.games@);
            lemma_counts_add(old_games, v.games@, 0);
            lemma_counts_add(old_games, v.games@, 1);
            lemma_counts_add(old_games, v.games@, 2);
            assert forall|k: int| 0 <= k < self.games@.len() implies (
            #[trigger] self.index@[k]) as int == offset_of(self.games@, k) by {
                if k < old_games.len() {
                    assert(self.games@.subrange(0, k) =~= old_games.subrange(0, k));
                    assert(self.index@[k] == old_index[k]);
                } else {
                    lemma_offset_add(old_games, v.games@, k - old_games.len());
                    lemma_offset_bound(v.games@, k - old_games.len());
                    assert(v.game_indexes@[k - old_games.len()] as int == offset_of(
                        v.games@,
                        k - old_games.len(),
                    ));
                    assert(self.index@[k] == shift_offsets(v.game_indexes@, base)[k
                        - old_games.len()]);
                }
            }
            if digests_distinct(old_games) && digests_in(old_games, v.start_seen@)
                && v.digests_fresh() {
                lemma_digests_distinct_concat(old_games, v.games@, v.start_seen@);
            }
        }
        index_bytes
    }

    /// Index monotonicity: the index entries are strictly increasing, each
    /// exceeding its predecessor by at least one whole game (four bytes).
    pub proof fn lemma_index_monotonic(&self, i: int, j: int)
        requires
            self.inv(),
            0 <= i < j < self.index@.len(),
        ensures
            self.index@[i] + 4 <= self.index@[j],
    {
        let games = self.games@;
        assert(games.subrange(0, j) =~= games.subrange(0, i) + games.subrange(i, j));
        lemma_concat_bytes_add(games.subrange(0, i), games.subrange(i, j));
        assert(forall|k: int|
            0 <= k < games.subrange(i, j).len() ==> wf_game_tokens(
                #[trigger] games.subrange(i, j)[k],
            ));
        lemma_stream_len(games.subrange(i, j));
    }

    /// Index-to-data consistency: each index entry is the offset of a
    /// well-formed encoded game whose bytes run exactly to the next entry
    /// (or to the end of the stream for the last game), it points at a
    /// start sentinel, and the running offset equals the stream length.
    pub proof fn lemma_index_data_consistency(&self, i: int)
        requires
            self.inv(),
            0 <= i < self.index@.len(),
        ensures
            ({
                let data = concat_bytes(self.games@);
                let lo = self.index@[i] as int;
                let hi = if i + 1 < self.index@.len() {
                    self.index@[i + 1] as int
                } else {
                    data.len() as int
                };
                &&& 0 <= lo < hi <= data.len()
                &&& data.subrange(lo, hi) == tokens_bytes(self.games@[i])
                &&& wf_game_tokens(bytes_tokens(data.subrange(lo, hi)))
                &&& is_start_token(bytes_tokens(data.subrange(lo, hi))[0])
                &&& self.next_offset == data.len()
            }),
    {
        let games = self.games@;
        let data = concat_bytes(games);
        let g = games[i];
        let lo = self.index@[i] as int;
        assert(games.subrange(0, i + 1) =~= games.subrange(0, i).push(g));
        crate::encoding::lemma_concat_bytes_push(games.subrange(0, i), g);
        assert(games =~= games.subrange(0, i + 1) + games.subrange(i + 1, games.len() as int));
        lemma_concat_bytes_add(games.subrange(0, i + 1), games.subrange(i + 1, games.len() as int));
        lemma_tokens_bytes_inverse(g);
        let hi = lo + tokens_bytes(g).len();
        assert(data.subrange(lo, hi) =~= tokens_bytes(g));
        if i + 1 < self.index@.len() {
            assert(games.subrange(0, i + 1) =~= games.subrange(0, i).push(g));
            assert(self.index@[i + 1] as int == offset_of(games, i + 1));
            assert(offset_of(games, i + 1) == hi);
        } else {
            assert(games.subrange(0, i + 1) =~= games);
        }
        assert(bytes_tokens(data.subrange(lo, hi)) == g);
    }

    /// Outcome counters sum: white wins, black wins, and draws together
    /// count exactly the committed games.
    pub proof fn lemma_outcome_counters_sum(&self)
        requires
            self.inv(),
        ensures
            self.stats.white_winning_games + self.stats.black_winning_games
                + self.stats.draw_games == self.games@.len(),
            self.games@.len() == self.index@.len(),
    {
        lemma_counts_sum(self.games@);
    }

    /// Round trip: re-reading the data stream as tokens and splitting at
    /// the end sentinels recovers exactly the committed games, and the
    /// split points are exactly the index entries.
    pub proof fn lemma_assembly_round_trip(&self)
        requires
            self.inv(),
        ensures
            split_games(bytes_tokens(concat_bytes(self.games@))) == self.games@,
            forall|i: int|
                0 <= i < self.games@.len() ==> (#[trigger] self.index@[i]) as int == offset_of(
                    self.games@,
                    i,
                ),
    {
        lemma_concat_bytes_tokens(self.games@);
        lemma_tokens_bytes_inverse(concat_tokens(self.games@));
        lemma_round_trip(self.games@);
    }

}

/// Counters are bounded by the stream's byte length.
proof fn lemma_count_bounds(games: Seq<Seq<u16>>)
    ensures
        0 <= count_start(games, 0) <= games.len(),
        0 <= count_start(games, 1) <= games.len(),
        0 <= count_start(games, 2) <= games.len(),
    decreases games.len(),
{
    if games.len() > 0 {
        lemma_count_bounds(games.drop_first());
    }
}

} // verus!
