//! Byte-level layout of encoded games.
//!
//! An encoded game is `start-sentinel, move tokens, end-sentinel`, each
//! token a big-endian `u16`. The data stream is the plain concatenation of
//! encoded games; the index stream is a sequence of big-endian `u64` byte
//! offsets, one per game.

use vstd::prelude::*;

verus! {

/// Big-endian bytes of a 16-bit token.
pub open spec fn be16(t: u16) -> Seq<u8> {
    seq![(t / 256) as u8, (t % 256) as u8]
}

/// Big-endian bytes of a 64-bit offset.
pub open spec fn be64(x: u64) -> Seq<u8> {
    seq![
        ((x / 0x100000000000000) % 256) as u8,
        ((x / 0x1000000000000) % 256) as u8,
        ((x / 0x10000000000) % 256) as u8,
        ((x / 0x100000000) % 256) as u8,
        ((x / 0x1000000) % 256) as u8,
        ((x / 0x10000) % 256) as u8,
        ((x / 0x100) % 256) as u8,
        (x % 256) as u8,
    ]
}

/// The byte serialization of a token sequence.
pub open spec fn tokens_bytes(ts: Seq<u16>) -> Seq<u8>
    decreases ts.len(),
{
    if ts.len() == 0 {
        Seq::empty()
    } else {
        be16(ts[0]) + tokens_bytes(ts.drop_first())
    }
}

/// Reads a byte sequence of even length back as tokens.
pub open spec fn bytes_tokens(b: Seq<u8>) -> Seq<u16>
    decreases b.len(),
{
    if b.len() < 2 {
        Seq::empty()
    } else {
        seq![(b[0] * 256 + b[1]) as u16] + bytes_tokens(b.skip(2))
    }
}

/// A start-of-game sentinel.
pub open spec fn is_start_token(t: u16) -> bool {
    t == 0 || t == 1 || t == 2
}

/// A well-formed encoded game, as tokens: a start sentinel, then move
/// tokens (all of which are proper dictionary ids, `>= 4`), then the end
/// sentinel.
pub open spec fn wf_game_tokens(ts: Seq<u16>) -> bool {
    &&& ts.len() >= 2
    &&& is_start_token(ts[0])
    &&& ts[ts.len() - 1] == 3
    &&& forall|i: int| 1 <= i < ts.len() - 1 ==> #[trigger] ts[i] >= 4
}

/// Token-level concatenation of a sequence of games.
pub open spec fn concat_tokens(games: Seq<Seq<u16>>) -> Seq<u16>
    decreases games.len(),
{
    if games.len() == 0 {
        Seq::empty()
    } else {
        games[0] + concat_tokens(games.drop_first())
    }
}

/// Byte-level concatenation of a sequence of games.
pub open spec fn concat_bytes(games: Seq<Seq<u16>>) -> Seq<u8>
    decreases games.len(),
{
    if games.len() == 0 {
        Seq::empty()
    } else {
        tokens_bytes(games[0]) + concat_bytes(games.drop_first())
    }
}

/// Byte offset of game `i` within the concatenation.
pub open spec fn offset_of(games: Seq<Seq<u16>>, i: int) -> int {
    concat_bytes(games.subrange(0, i)).len() as int
}

/// Serialization produces two bytes per token and inverts exactly.
pub proof fn lemma_tokens_bytes_inverse(ts: Seq<u16>)
    ensures
        tokens_bytes(ts).len() == 2 * ts.len(),
        bytes_tokens(tokens_bytes(ts)) == ts,
    decreases ts.len(),
{
    if ts.len() == 0 {
        assert(bytes_tokens(tokens_bytes(ts)) =~= ts);
    } else {
        lemma_tokens_bytes_inverse(ts.drop_first());
        let b = tokens_bytes(ts);
        assert(b.skip(2) =~= tokens_bytes(ts.drop_first()));
        assert(b[0] * 256 + b[1] == (ts[0] / 256) * 256 + ts[0] % 256);
        assert((ts[0] / 256) * 256 + ts[0] % 256 == ts[0]) by {
            vstd::arithmetic::div_mod::lemma_fundamental_div_mod(ts[0] as int, 256);
        }
        assert(bytes_tokens(b) =~= ts);
    }
}

/// Serialization distributes over concatenation.
pub proof fn lemma_tokens_bytes_app(a: Seq<u16>, b: Seq<u16>)
    ensures
        tokens_bytes(a + b) == tokens_bytes(a) + tokens_bytes(b),
    decreases a.len(),
{
    if a.len() == 0 {
        assert(a + b =~= b);
        assert(tokens_bytes(a) + tokens_bytes(b) =~= tokens_bytes(b));
    } else {
        lemma_tokens_bytes_app(a.drop_first(), b);
        assert((a + b).drop_first() =~= a.drop_first() + b);
        assert(tokens_bytes(a + b) =~= tokens_bytes(a) + tokens_bytes(b));
    }
}

/// The byte concatenation is the serialization of the token concatenation.
pub proof fn lemma_concat_bytes_tokens(games: Seq<Seq<u16>>)
    ensures
        concat_bytes(games) == tokens_bytes(concat_tokens(games)),
    decreases games.len(),
{
    if games.len() > 0 {
        lemma_concat_bytes_tokens(games.drop_first());
        lemma_tokens_bytes_app(games[0], concat_tokens(games.drop_first()));
    }
}

/// Appending a game to the stream appends its bytes.
pub proof fn lemma_concat_bytes_push(games: Seq<Seq<u16>>, g: Seq<u16>)
    ensures
        concat_bytes(games.push(g)) == concat_bytes(games) + tokens_bytes(g),
        concat_tokens(games.push(g)) == concat_tokens(games) + g,
    decreases games.len(),
{
    if games.len() == 0 {
        assert(games.push(g).drop_first() =~= games);
        assert(concat_bytes(games.push(g)) =~= concat_bytes(games) + tokens_bytes(g));
        assert(concat_tokens(games.push(g)) =~= concat_tokens(games) + g);
    } else {
        lemma_concat_bytes_push(games.drop_first(), g);
        assert(games.push(g).drop_first() =~= games.drop_first().push(g));
        assert(concat_bytes(games.push(g)) =~= concat_bytes(games) + tokens_bytes(g));
        assert(concat_tokens(games.push(g)) =~= concat_tokens(games) + g);
    }
}

/// Index of the first end sentinel, or the length if there is none.
pub open spec fn first_end(ts: Seq<u16>) -> nat
    decreases ts.len(),
{
    if ts.len() == 0 {
        0
    } else if ts[0] == 3 {
        0
    } else {
        1 + first_end(ts.drop_first())
    }
}

/// Splitting a token stream at end sentinels: each game extends through
/// its first end sentinel; a trailing run without a sentinel forms a last
/// (ill-formed) fragment.
pub open spec fn split_games(ts: Seq<u16>) -> Seq<Seq<u16>>
    decreases ts.len(),
{
    if ts.len() == 0 {
        Seq::empty()
    } else {
        let i = first_end(ts) as int;
        if i < ts.len() {
            seq![ts.subrange(0, i + 1)] + split_games(ts.skip(i + 1))
        } else {
            seq![ts]
        }
    }
}

/// The first end sentinel is at the stated position.
pub proof fn lemma_first_end_at(ts: Seq<u16>, k: int)
    requires
        0 <= k < ts.len(),
        ts[k] == 3,
        forall|i: int| 0 <= i < k ==> #[trigger] ts[i] != 3,
    ensures
        first_end(ts) == k,
    decreases ts.len(),
{
    if k > 0 {
        lemma_first_end_at(ts.drop_first(), k - 1);
    }
}

/// Round trip: re-splitting the concatenation of well-formed encoded games
/// at end sentinels recovers exactly the same games.
pub proof fn lemma_round_trip(games: Seq<Seq<u16>>)
    requires
        forall|i: int| 0 <= i < games.len() ==> wf_game_tokens(#[trigger] games[i]),
    ensures
        split_games(concat_tokens(games)) == games,
    decreases games.len(),
{
    if games.len() == 0 {
        assert(split_games(concat_tokens(games)) =~= games);
    } else {
        let g = games[0];
        let rest = games.drop_first();
        let ts = concat_tokens(games);
        assert(wf_game_tokens(g));
        assert(forall|i: int| 0 <= i < rest.len() ==> wf_game_tokens(#[trigger] rest[i]));
        assert(ts == g + concat_tokens(rest));
        let k = g.len() - 1;
        assert forall|i: int| 0 <= i < k implies #[trigger] ts[i] != 3 by {
            assert(ts[i] == g[i]);
            if i == 0 {
                assert(is_start_token(g[0]));
            } else {
                assert(g[i] >= 4);
            }
        }
        assert(ts[k] == g[k] == 3);
        lemma_first_end_at(ts, k);
        assert(ts.subrange(0, k + 1) =~= g);
        assert(ts.skip(k + 1) =~= concat_tokens(rest));
        lemma_round_trip(rest);
        if (k as int) < ts.len() {
            assert(split_games(ts) =~= games);
        }
    }
}

/// Appends the big-endian bytes of one token.
pub fn push_token_bytes(out: &mut Vec<u8>, t: u16)
    ensures
        final(out)@ == old(out)@ + be16(t),
{
    out.push((t / 256) as u8);
    out.push((t % 256) as u8);
    assert(out@ =~= old(out)@ + be16(t));
}

/// Appends the big-endian bytes of one 64-bit offset.
pub fn push_be64(out: &mut Vec<u8>, x: u64)
    ensures
        final(out)@ == old(out)@ + be64(x),
{
    out.push(((x / 0x100000000000000) % 256) as u8);
    out.push(((x / 0x1000000000000) % 256) as u8);
    out.push(((x / 0x10000000000) % 256) as u8);
    out.push(((x / 0x100000000) % 256) as u8);
    out.push(((x / 0x1000000) % 256) as u8);
    out.push(((x / 0x10000) % 256) as u8);
    out.push(((x / 0x100) % 256) as u8);
    out.push((x % 256) as u8);
    assert(out@ =~= old(out)@ + be64(x));
}

} // verus!
