use std::str::FromStr;

use pgn_dataset::assembly::Assembly;
use pgn_dataset::chess::{GameOutcome, PieceRole, Uci};
use pgn_dataset::dedup::SeenHashes;
use pgn_dataset::pgn_visitor::GameVisitor;
use pgn_dataset::tokenizer::Tokenizer;
use pgn_dataset::visitor::Visitor;

use shakmaty::san::SanPlus;

fn built() -> Tokenizer {
    let mut t = Tokenizer::new();
    t.create_token_map();
    t
}

fn feed(gs: &mut GameVisitor, sans: &[&str]) {
    for s in sans {
        let sp = SanPlus::from_str(s).unwrap();
        gs.san(&sp);
    }
}

fn run_game(
    gs: &mut GameVisitor,
    v: &mut Visitor,
    t: &Tokenizer,
    seen: &mut SeenHashes,
    sans: &[&str],
    outcome: Option<GameOutcome>,
) -> bool {
    feed(gs, sans);
    gs.outcome(outcome);
    gs.end_game(v, t, seen)
}

fn token_of(t: &Tokenizer, from: u8, to: u8, promotion: Option<PieceRole>) -> u16 {
    t.uci_to_token(Uci::Normal { from, to, promotion }).unwrap().value
}

fn be16(t: u16) -> [u8; 2] {
    [(t / 256) as u8, (t % 256) as u8]
}

/// The spec's single tiny game: four-move checkmate by white.
#[test]
fn single_tiny_game() {
    let t = built();
    let mut seen = SeenHashes::new();
    let mut v = Visitor::new(&seen);
    let mut gs = GameVisitor::new();
    let ok = run_game(
        &mut gs,
        &mut v,
        &t,
        &mut seen,
        &["e4", "e5", "Qh5", "Nc6", "Bc4", "Nf6", "Qxf7#"],
        Some(GameOutcome::WhiteWins),
    );
    assert!(ok);

    let expected_tokens: Vec<u16> = vec![
        0,
        token_of(&t, 12, 28, None), // e2e4
        token_of(&t, 52, 36, None), // e7e5
        token_of(&t, 3, 39, None),  // d1h5
        token_of(&t, 57, 42, None), // b8c6
        token_of(&t, 5, 26, None),  // f1c4
        token_of(&t, 62, 45, None), // g8f6
        token_of(&t, 39, 53, None), // h5f7
        3,
    ];
    let mut expected_bytes: Vec<u8> = Vec::new();
    for tok in &expected_tokens {
        expected_bytes.extend(be16(*tok));
    }
    assert_eq!(expected_bytes.len(), 18);
    assert_eq!(v.output, expected_bytes);
    assert_eq!(v.game_indexes, vec![0u64]);
    assert_eq!(v.white_winning_games, 1);
    assert_eq!(v.black_winning_games, 0);
    assert_eq!(v.draw_games, 0);
    assert_eq!(v.duplicate_games, 0);
    assert_eq!(v.ply, 7);

    let mut a = Assembly::new();
    let index_bytes = a.commit_batch(&v);
    assert_eq!(index_bytes, vec![0u8; 8]);
    assert_eq!(a.next_offset, 18);
    assert_eq!(a.stats.white_winning_games, 1);
    assert_eq!(a.stats.ply, 7);
}

/// Feeding the identical game twice commits one copy and counts one
/// duplicate.
#[test]
fn duplicate_detection() {
    let t = built();
    let mut seen = SeenHashes::new();
    let mut v = Visitor::new(&seen);
    let mut gs = GameVisitor::new();
    let sans = ["e4", "e5", "Qh5", "Nc6", "Bc4", "Nf6", "Qxf7#"];
    assert!(run_game(&mut gs, &mut v, &t, &mut seen, &sans, Some(GameOutcome::WhiteWins)));
    let len_after_first = v.output.len();
    assert!(run_game(&mut gs, &mut v, &t, &mut seen, &sans, Some(GameOutcome::WhiteWins)));
    assert_eq!(v.output.len(), len_after_first);
    assert_eq!(v.game_indexes.len(), 1);
    assert_eq!(v.duplicate_games, 1);
    assert_eq!(v.white_winning_games, 1);
    assert_eq!(v.ply, 7);
}

/// A second pass over the same input against the same digest set commits
/// nothing: every game of the second pass is a duplicate.
#[test]
fn dedup_idempotence_second_pass() {
    let t = built();
    let mut seen = SeenHashes::new();
    let games: [&[&str]; 2] = [
        &["e4", "e5", "Qh5", "Nc6", "Bc4", "Nf6", "Qxf7#"],
        &["d4", "d5"],
    ];
    let outcomes = [GameOutcome::WhiteWins, GameOutcome::Draw];

    let mut first = Visitor::new(&seen);
    let mut gs = GameVisitor::new();
    for (sans, oc) in games.iter().zip(outcomes) {
        assert!(run_game(&mut gs, &mut first, &t, &mut seen, sans, Some(oc)));
    }
    assert_eq!(first.game_indexes.len(), 2);
    assert_eq!(first.duplicate_games, 0);

    let mut second = Visitor::new(&seen);
    for (sans, oc) in games.iter().zip(outcomes) {
        assert!(run_game(&mut gs, &mut second, &t, &mut seen, sans, Some(oc)));
    }
    assert_eq!(second.game_indexes.len(), 0);
    assert_eq!(second.output.len(), 0);
    assert_eq!(second.duplicate_games, 2);
    assert_eq!(second.white_winning_games, 0);
    assert_eq!(second.ply, 0);
}

/// A game with an unresolvable SAN is skipped; a valid neighbour is kept.
#[test]
fn illegal_move_game_skipped() {
    let t = built();
    let mut seen = SeenHashes::new();
    let mut v = Visitor::new(&seen);
    let mut gs = GameVisitor::new();
    assert!(run_game(
        &mut gs,
        &mut v,
        &t,
        &mut seen,
        &["e4", "e5"],
        Some(GameOutcome::Draw)
    ));
    // After 1. e4, black has no queen move to h5: the game is skipped.
    let ok = run_game(&mut gs, &mut v, &t, &mut seen, &["e4", "Qh5"], Some(GameOutcome::Draw));
    assert!(ok, "skipped games are not failures");
    assert_eq!(v.game_indexes.len(), 1);
    assert_eq!(v.draw_games, 1);
    assert_eq!(v.duplicate_games, 0);
    assert_eq!(v.ply, 2);
}

/// A game whose PGN result is `*` is dropped without touching counters.
#[test]
fn missing_outcome() {
    let t = built();
    let mut seen = SeenHashes::new();
    let mut v = Visitor::new(&seen);
    let mut gs = GameVisitor::new();
    let ok = run_game(&mut gs, &mut v, &t, &mut seen, &["e4", "e5"], None);
    assert!(ok, "skipped games are not failures");
    assert_eq!(v.game_indexes.len(), 0);
    assert_eq!(v.output.len(), 0);
    assert_eq!(v.white_winning_games + v.black_winning_games + v.draw_games, 0);
    assert_eq!(v.ply, 0);
}

/// A game ending in a queen promotion encodes, its last move token being
/// the dictionary id of e7-e8 with promotion to queen.
#[test]
fn promotion_game() {
    let t = built();
    let mut seen = SeenHashes::new();
    let mut v = Visitor::new(&seen);
    let mut gs = GameVisitor::new();
    let ok = run_game(
        &mut gs,
        &mut v,
        &t,
        &mut seen,
        &["e4", "f5", "exf5", "Kf7", "f6", "Kg6", "fxe7", "d5", "e8=Q+"],
        Some(GameOutcome::WhiteWins),
    );
    assert!(ok);
    assert_eq!(v.game_indexes.len(), 1);
    let expected = token_of(&t, 52, 60, Some(PieceRole::Queen)); // e7e8q
    let n = v.output.len();
    // ... last move token, then the end sentinel.
    assert_eq!(&v.output[n - 4..n - 2], &be16(expected));
    assert_eq!(&v.output[n - 2..], &be16(3));
}

/// Three games of which one repeats an earlier one: two index entries, one
/// duplicate. (This is the content of the spec's ZIP scenario; archive
/// extraction itself lives outside the library.)
#[test]
fn three_games_one_duplicate() {
    let t = built();
    let mut seen = SeenHashes::new();
    let mut v = Visitor::new(&seen);
    let mut gs = GameVisitor::new();
    let a: &[&str] = &["e4", "e5", "Qh5", "Nc6", "Bc4", "Nf6", "Qxf7#"];
    let b: &[&str] = &["d4", "d5"];
    assert!(run_game(&mut gs, &mut v, &t, &mut seen, a, Some(GameOutcome::WhiteWins)));
    assert!(run_game(&mut gs, &mut v, &t, &mut seen, b, Some(GameOutcome::Draw)));
    assert!(run_game(&mut gs, &mut v, &t, &mut seen, a, Some(GameOutcome::WhiteWins)));
    assert_eq!(v.game_indexes.len(), 2);
    assert_eq!(v.duplicate_games, 1);
}

/// An empty move list with a known outcome still forms a two-token game.
#[test]
fn empty_game_with_outcome() {
    let t = built();
    let mut seen = SeenHashes::new();
    let mut v = Visitor::new(&seen);
    let mut gs = GameVisitor::new();
    assert!(run_game(&mut gs, &mut v, &t, &mut seen, &[], Some(GameOutcome::BlackWins)));
    assert_eq!(v.output, vec![0u8, 1, 0, 3]);
    assert_eq!(v.game_indexes, vec![0u64]);
    assert_eq!(v.black_winning_games, 1);
    assert_eq!(v.ply, 0);
}

/// Re-splitting the data stream at end sentinels recovers the committed
/// games, and every split point is an index entry.
#[test]
fn round_trip_split() {
    let t = built();
    let mut seen = SeenHashes::new();
    let mut v = Visitor::new(&seen);
    let mut gs = GameVisitor::new();
    let games: [&[&str]; 3] = [
        &["e4", "e5", "Qh5", "Nc6", "Bc4", "Nf6", "Qxf7#"],
        &["d4", "d5"],
        &["Nf3", "Nf6", "Ng1", "Ng8"],
    ];
    let outcomes = [GameOutcome::WhiteWins, GameOutcome::Draw, GameOutcome::BlackWins];
    for (sans, oc) in games.iter().zip(outcomes) {
        assert!(run_game(&mut gs, &mut v, &t, &mut seen, sans, Some(oc)));
    }
    // Parse the stream back into tokens.
    let tokens: Vec<u16> = v
        .output
        .chunks(2)
        .map(|c| (c[0] as u16) * 256 + c[1] as u16)
        .collect();
    // Split after each end sentinel.
    let mut splits: Vec<Vec<u16>> = Vec::new();
    let mut cur: Vec<u16> = Vec::new();
    let mut offsets: Vec<u64> = Vec::new();
    let mut pos: u64 = 0;
    for tok in tokens {
        if cur.is_empty() {
            offsets.push(pos);
        }
        cur.push(tok);
        pos += 2;
        if tok == 3 {
            splits.push(std::mem::take(&mut cur));
        }
    }
    assert!(cur.is_empty(), "stream ends mid-game");
    assert_eq!(splits.len(), 3);
    assert_eq!(offsets, v.game_indexes);
    for (split, (sans, oc)) in splits.iter().zip(games.iter().zip(outcomes)) {
        assert_eq!(split.len(), sans.len() + 2);
        let start = match oc {
            GameOutcome::WhiteWins => 0,
            GameOutcome::BlackWins => 1,
            GameOutcome::Draw => 2,
        };
        assert_eq!(split[0], start);
        assert_eq!(*split.last().unwrap(), 3);
        assert!(split[1..split.len() - 1].iter().all(|&t| t > 3));
    }
}

/// Outcome counters sum to the number of committed games, and committing
/// batches translates local offsets by the running stream length.
#[test]
fn commit_batches_and_counters() {
    let t = built();
    let mut seen = SeenHashes::new();
    let mut a = Assembly::new();
    let mut gs = GameVisitor::new();

    let mut first = Visitor::new(&seen);
    assert!(run_game(
        &mut gs,
        &mut first,
        &t,
        &mut seen,
        &["e4", "e5", "Qh5", "Nc6", "Bc4", "Nf6", "Qxf7#"],
        Some(GameOutcome::WhiteWins)
    ));
    assert!(run_game(&mut gs, &mut first, &t, &mut seen, &["d4", "d5"], Some(GameOutcome::Draw)));
    let first_len = first.output.len() as u64;
    let ib1 = a.commit_batch(&first);
    assert_eq!(ib1.len(), 16);
    assert_eq!(a.next_offset, first_len);

    let mut second = Visitor::new(&seen);
    assert!(run_game(
        &mut gs,
        &mut second,
        &t,
        &mut seen,
        &["Nf3", "Nf6", "Ng1", "Ng8"],
        Some(GameOutcome::BlackWins)
    ));
    let ib2 = a.commit_batch(&second);
    // The second batch's single game starts where the first batch ended.
    let mut expected: Vec<u8> = Vec::new();
    expected.extend(first_len.to_be_bytes());
    assert_eq!(ib2, expected);
    assert_eq!(a.next_offset, first_len + second.output.len() as u64);

    assert_eq!(
        a.stats.white_winning_games + a.stats.black_winning_games + a.stats.draw_games,
        3
    );
    assert_eq!(a.stats.ply, 7 + 2 + 4);
    assert_eq!(a.stats.duplicate_games, 0);
}

/// The digest set distinguishes contents and tolerates re-insertion
/// queries.
#[test]
fn seen_hashes_basic() {
    let mut s = SeenHashes::new();
    let a = vec![1u8, 2, 3];
    let b = vec![1u8, 2, 4];
    assert!(!s.contains(&a));
    s.insert(a.clone());
    assert!(s.contains(&a));
    assert!(!s.contains(&b));
    s.insert(b.clone());
    assert!(s.contains(&b));
}
