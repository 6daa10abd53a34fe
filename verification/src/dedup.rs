//! Content-hash deduplication and run statistics.
//!
//! Every committed game is fingerprinted by the SHA-256 hex digest of its
//! encoded bytes. A process-wide set of digests rejects duplicates.

use vstd::prelude::*;

use crate::encoding::tokens_bytes;

verus! {

/// The hex digest of a byte sequence. Two byte sequences with different
/// digests are different; the pipeline treats equal digests as equal
/// content.
pub uninterp spec fn digest_of(b: Seq<u8>) -> Seq<u8>;

/// Relies on sha256::digest: the SHA-256 hex digest of the input bytes,
/// a function of the bytes alone, 64 hex characters for the 32-byte hash.
#[verifier::external_body]
pub(crate) fn sha256_hex_digest(bytes: &Vec<u8>) -> (r: Vec<u8>)
    ensures
        r@ == digest_of(bytes@),
        r@.len() == 64,
{
    sha256::digest(bytes).into_bytes()
}

/// The digest of a game's token sequence, as committed to the stream.
pub open spec fn game_digest(g: Seq<u16>) -> Seq<u8> {
    digest_of(tokens_bytes(g))
}

/// The set of digests of games already committed, used to drop duplicates.
pub struct SeenHashes {
    digests: Vec<Vec<u8>>,
}

/// Byte-vector equality.
fn bytes_eq(a: &Vec<u8>, b: &Vec<u8>) -> (r: bool)
    ensures
        r == (a@ == b@),
{
    if a.len() != b.len() {
        return false;
    }
    let mut i: usize = 0;
    while i < a.len()
        invariant
            i <= a.len(),
            a@.len() == b@.len(),
            forall|j: int| 0 <= j < i ==> a@[j] == b@[j],
        decreases a.len() - i,
    {
        if a[i] != b[i] {
            return false;
        }
        i += 1;
    }
    proof {
        assert(a@ =~= b@);
    }
    true
}

impl SeenHashes {
    /// The set of digests held.
    pub closed spec fn spec_set(&self) -> Set<Seq<u8>> {
        Set::new(|d: Seq<u8>| exists|i: int| 0 <= i < self.digests@.len() && self.digests@[i]@ == d)
    }

    /// An empty set.
    pub fn new() -> (s: SeenHashes)
        ensures
            s.spec_set() == Set::<Seq<u8>>::empty(),
    {
        let s = SeenHashes { digests: Vec::new() };
        proof {
            assert(s.spec_set() =~= Set::<Seq<u8>>::empty());
        }
        s
    }

    /// Membership test.
    pub fn contains(&self, d: &Vec<u8>) -> (r: bool)
        ensures
            r == self.spec_set().contains(d@),
    {
        let mut i: usize = 0;
        while i < self.digests.len()
            invariant
                i <= self.digests@.len(),
                forall|j: int| 0 <= j < i ==> self.digests@[j]@ != d@,
            decreases self.digests@.len() - i,
        {
            if bytes_eq(&self.digests[i], d) {
                return true;
            }
            i += 1;
        }
        false
    }

    /// Adds a digest.
    pub fn insert(&mut self, d: Vec<u8>)
        ensures
            final(self).spec_set() == old(self).spec_set().insert(d@),
    {
        self.digests.push(d);
        proof {
            assert forall|x: Seq<u8>| self.spec_set().contains(x) <==> old(self).spec_set().insert(
                d@,
            ).contains(x) by {
                if old(self).spec_set().contains(x) {
                    let i = choose|i: int|
                        0 <= i < old(self).digests@.len() && old(self).digests@[i]@ == x;
                    assert(self.digests@[i]@ == x);
                }
                if x == d@ {
                    assert(self.digests@[self.digests@.len() - 1]@ == x);
                }
            }
            assert(self.spec_set() =~= old(self).spec_set().insert(d@));
        }
    }
}

/// Run-wide counters, updated only for committed (non-duplicate) games,
/// except `duplicate_games`, which counts the rejected ones.
pub struct Stats {
    pub white_winning_games: u64,
    pub black_winning_games: u64,
    pub draw_games: u64,
    pub duplicate_games: u64,
    pub ply: u64,
}

impl Stats {
    /// All counters at zero.
    pub fn new() -> (s: Stats)
        ensures
            s.white_winning_games == 0,
            s.black_winning_games == 0,
            s.draw_games == 0,
            s.duplicate_games == 0,
            s.ply == 0,
    {
        Stats {
            white_winning_games: 0,
            black_winning_games: 0,
            draw_games: 0,
            duplicate_games: 0,
            ply: 0,
        }
    }
}

/// How many games in the stream start with the given sentinel.
pub open spec fn count_start(games: Seq<Seq<u16>>, t: u16) -> int
    decreases games.len(),
{
    if games.len() == 0 {
        0
    } else {
        (if games[0].len() > 0 && games[0][0] == t {
            1int
        } else {
            0int
        }) + count_start(games.drop_first(), t)
    }
}

/// Total number of move tokens (plies) over the stream.
pub open spec fn total_moves(games: Seq<Seq<u16>>) -> int
    decreases games.len(),
{
    if games.len() == 0 {
        0
    } else {
        (games[0].len() - 2) + total_moves(games.drop_first())
    }
}

/// Counting distributes over appending one game.
pub proof fn lemma_count_start_push(games: Seq<Seq<u16>>, g: Seq<u16>, t: u16)
    ensures
        count_start(games.push(g), t) == count_start(games, t) + (if g.len() > 0 && g[0] == t {
            1int
        } else {
            0int
        }),
        total_moves(games.push(g)) == total_moves(games) + g.len() - 2,
    decreases games.len(),
{
    if games.len() == 0 {
        assert(games.push(g).drop_first() =~= games);
    } else {
        lemma_count_start_push(games.drop_first(), g, t);
        assert(games.push(g).drop_first() =~= games.drop_first().push(g));
        assert(games.push(g)[0] =~= games[0]);
    }
}

/// Counts are bounded by the number of games.
pub proof fn lemma_count_start_bound(games: Seq<Seq<u16>>, t: u16)
    ensures
        0 <= count_start(games, t) <= games.len(),
    decreases games.len(),
{
    if games.len() > 0 {
        lemma_count_start_bound(games.drop_first(), t);
    }
}

/// The digests of the games in a stream are pairwise distinct.
pub open spec fn digests_distinct(games: Seq<Seq<u16>>) -> bool {
    forall|i: int, j: int|
        0 <= i < j < games.len() ==> #[trigger] game_digest(games[i]) != #[trigger] game_digest(
            games[j],
        )
}

/// Every game's digest lies in the given set.
pub open spec fn digests_in(games: Seq<Seq<u16>>, s: Set<Seq<u8>>) -> bool {
    forall|i: int| 0 <= i < games.len() ==> s.contains(#[trigger] game_digest(games[i]))
}

/// No game's digest lies in the given set.
pub open spec fn digests_avoid(games: Seq<Seq<u16>>, s: Set<Seq<u8>>) -> bool {
    forall|i: int| 0 <= i < games.len() ==> !s.contains(#[trigger] game_digest(games[i]))
}

/// Dedup idempotence: the fingerprint is a function of the encoded bytes
/// alone, so a game equal to one already committed carries the committed
/// game's digest and is caught by the membership test (the duplicate
/// branch of `save_game`).
pub proof fn lemma_duplicate_rejected(games: Seq<Seq<u16>>, s: Set<Seq<u8>>, i: int)
    requires
        0 <= i < games.len(),
    ensures
        digests_in(games, s) ==> s.contains(game_digest(games[i])),
{
}

/// Two streams whose digests are respectively inside and outside a common
/// set concatenate to a stream of pairwise distinct digests.
pub proof fn lemma_digests_distinct_concat(a: Seq<Seq<u16>>, b: Seq<Seq<u16>>, s: Set<Seq<u8>>)
    requires
        digests_distinct(a),
        digests_distinct(b),
        digests_in(a, s),
        digests_avoid(b, s),
    ensures
        digests_distinct(a + b),
{
    let c = a + b;
    assert forall|i: int, j: int|
        0 <= i < j < c.len() implies #[trigger] game_digest(c[i]) != #[trigger] game_digest(
        c[j],
    ) by {
        if j < a.len() {
            assert(c[i] == a[i] && c[j] == a[j]);
        } else if i >= a.len() {
            assert(c[i] == b[i - a.len()] && c[j] == b[j - a.len()]);
        } else {
            assert(c[i] == a[i] && c[j] == b[j - a.len()]);
            assert(s.contains(game_digest(a[i])));
            assert(!s.contains(game_digest(b[j - a.len()])));
        }
    }
}

} // verus!
