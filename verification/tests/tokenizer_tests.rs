use pgn_dataset::chess::{GameOutcome, PieceRole, Uci};
use pgn_dataset::tokenizer::{Token, Tokenizer};

use shakmaty::{Bitboard, Board, Color, Piece, Role, Square};

fn built() -> Tokenizer {
    let mut t = Tokenizer::new();
    t.create_token_map();
    t
}

#[test]
fn tokenizer_game_start_token() {
    let tokenizer = Tokenizer::new();
    assert_eq!(
        tokenizer
            .game_start_token(Option::Some(GameOutcome::WhiteWins))
            .unwrap(),
        Token { value: 0 }
    );
    assert_eq!(
        tokenizer
            .game_start_token(Option::Some(GameOutcome::BlackWins))
            .unwrap(),
        Token { value: 1 }
    );
    assert_eq!(
        tokenizer
            .game_start_token(Option::Some(GameOutcome::Draw))
            .unwrap(),
        Token { value: 2 }
    );
    assert_eq!(
        tokenizer.game_start_token(Option::None).unwrap_err().message(),
        "Outcome not specified"
    );
}

#[test]
fn tokenizer_game_end_token() {
    let tokenizer = Tokenizer::new();
    assert_eq!(tokenizer.game_end_token(), Token { value: 3 });
}

#[test]
fn create_token_map_deterministic() {
    let mut a = Tokenizer::new();
    a.create_token_map();
    let mut b = Tokenizer::new();
    b.create_token_map();
    assert_eq!(a.dictionary_json(), b.dictionary_json());
}

#[test]
fn initialize_token_map_matches_create() {
    let mut a = Tokenizer::new();
    a.create_token_map();
    let mut b = Tokenizer::new();
    b.initialize_token_map();
    assert_eq!(a.dictionary_json(), b.dictionary_json());
}

#[test]
fn uci_to_token_known_and_unknown() {
    let t = built();
    // e2e4: a plain pawn push along the e-file.
    let e2e4 = Uci::Normal { from: 12, to: 28, promotion: None };
    let tok = t.uci_to_token(e2e4).unwrap();
    assert!(tok.value > 3);
    // e7e8q: the queen promotion named by the spec.
    let promo = Uci::Normal { from: 52, to: 60, promotion: Some(PieceRole::Queen) };
    assert!(t.uci_to_token(promo).unwrap().value > 3);
    // a1c4 is neither a queen line nor a knight jump.
    let off = Uci::Normal { from: 0, to: 26, promotion: None };
    assert_eq!(t.uci_to_token(off).unwrap_err().message(), "Invalid uci string found");
    // Null and drop moves have no token.
    assert!(t.uci_to_token(Uci::Null).is_err());
    assert!(t
        .uci_to_token(Uci::Put { role: PieceRole::Queen, to: 10 })
        .is_err());
    // An empty dictionary knows nothing.
    let empty = Tokenizer::new();
    assert!(empty.uci_to_token(e2e4).is_err());
}

#[test]
fn uci_to_token_castling_and_en_passant_shapes() {
    let t = built();
    // Castling in UCI form is the king's two-square move: e1g1 and e1c1.
    assert!(t.uci_to_token(Uci::Normal { from: 4, to: 6, promotion: None }).is_ok());
    assert!(t.uci_to_token(Uci::Normal { from: 4, to: 2, promotion: None }).is_ok());
    // En passant is a plain pawn diagonal: e5d6.
    assert!(t.uci_to_token(Uci::Normal { from: 36, to: 43, promotion: None }).is_ok());
}

/// The dictionary's plain-move domain matches the chess engine's own
/// single-piece attack patterns, square by square.
#[test]
fn dictionary_matches_engine_attacks() {
    let t = built();
    for from_square in Square::ALL {
        let mut possible_moves = Bitboard::EMPTY;
        for role in Role::ALL {
            let mut board = Board::empty();
            board.set_piece_at(from_square, Piece { color: Color::White, role });
            possible_moves = possible_moves | board.attacks_from(from_square);
        }
        for to_square in Square::ALL {
            let m = Uci::Normal {
                from: u8::from(from_square),
                to: u8::from(to_square),
                promotion: None,
            };
            assert_eq!(
                t.uci_to_token(m).is_ok(),
                possible_moves.contains(to_square),
                "disagreement on {:?} -> {:?}",
                from_square,
                to_square
            );
        }
    }
}

/// The dictionary's promotion variants match the engine's view of them:
/// rook-or-bishop attacks from the pre-promotion ranks onto the far back
/// rank, each with the four promotion pieces.
#[test]
fn dictionary_matches_engine_promotions() {
    let t = built();
    let promos = [
        PieceRole::Bishop,
        PieceRole::Knight,
        PieceRole::Rook,
        PieceRole::Queen,
    ];
    for from_square in Square::ALL {
        let mut rb = Bitboard::EMPTY;
        for role in [Role::Rook, Role::Bishop] {
            let mut board = Board::empty();
            board.set_piece_at(from_square, Piece { color: Color::White, role });
            rb = rb | board.attacks_from(from_square);
        }
        let white_targets = rb & Bitboard::BACKRANKS & Bitboard::NORTH;
        let black_targets = rb & Bitboard::BACKRANKS & Bitboard::SOUTH;
        for to_square in Square::ALL {
            let expect = (from_square.rank().char() == '7' && white_targets.contains(to_square))
                || (from_square.rank().char() == '2' && black_targets.contains(to_square));
            for p in promos {
                let m = Uci::Normal {
                    from: u8::from(from_square),
                    to: u8::from(to_square),
                    promotion: Some(p),
                };
                assert_eq!(
                    t.uci_to_token(m).is_ok(),
                    expect,
                    "promotion disagreement on {:?} -> {:?}",
                    from_square,
                    to_square
                );
            }
        }
    }
}

/// The persisted JSON is a well-formed object holding the sentinels and an
/// injective id assignment (ids above 3 are pairwise distinct).
#[test]
fn dictionary_json_bijective() {
    let t = built();
    let bytes = t.dictionary_json();
    let text = String::from_utf8(bytes).unwrap();
    assert!(text.starts_with("{\"<start:WHITE>\":0,\"<start:BLACK>\":1,\"<start:DRAW>\":2,\"<end>\":3"));
    let value: serde_json::Value = serde_json::from_str(&text).unwrap();
    let obj = match value {
        serde_json::Value::Object(m) => m,
        _ => panic!("dictionary JSON is not an object"),
    };
    assert_eq!(obj.get("<start:WHITE>").unwrap().as_u64().unwrap(), 0);
    assert_eq!(obj.get("<start:BLACK>").unwrap().as_u64().unwrap(), 1);
    assert_eq!(obj.get("<start:DRAW>").unwrap().as_u64().unwrap(), 2);
    assert_eq!(obj.get("<end>").unwrap().as_u64().unwrap(), 3);
    let mut ids: Vec<u64> = obj.values().map(|v| v.as_u64().unwrap()).collect();
    let n = ids.len();
    ids.sort();
    ids.dedup();
    assert_eq!(ids.len(), n, "duplicate token id in dictionary");
    // Ids are contiguous: 0..=3 for the sentinels, then one per move.
    assert_eq!(*ids.last().unwrap() as usize, n - 1);
    // The spec's promotion example is present under its UCI name.
    let e2e4 = t
        .uci_to_token(Uci::Normal { from: 12, to: 28, promotion: None })
        .unwrap();
    assert_eq!(obj.get("e2e4").unwrap().as_u64().unwrap(), e2e4.value as u64);
    let e7e8q = t
        .uci_to_token(Uci::Normal { from: 52, to: 60, promotion: Some(PieceRole::Queen) })
        .unwrap();
    assert_eq!(obj.get("e7e8q").unwrap().as_u64().unwrap(), e7e8q.value as u64);
}
