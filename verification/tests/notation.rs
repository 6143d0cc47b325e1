use chess_engine::game::board::{parse_square, Move, PieceTypes};

#[test]
fn parse_square_corners() {
    assert_eq!(parse_square("a8"), Some(0));
    assert_eq!(parse_square("h8"), Some(7));
    assert_eq!(parse_square("a1"), Some(56));
    assert_eq!(parse_square("h1"), Some(63));
    assert_eq!(parse_square("e4"), Some(36));
}

#[test]
fn parse_square_rejects_malformed() {
    assert_eq!(parse_square(""), None);
    assert_eq!(parse_square("e"), None);
    assert_eq!(parse_square("i4"), None);
    assert_eq!(parse_square("e9"), None);
    assert_eq!(parse_square("e0"), None);
    assert_eq!(parse_square("e44"), None);
    assert_eq!(parse_square("4e"), None);
}

#[test]
fn move_parse_plain_and_promotion() {
    assert_eq!(
        Move::parse_from("e2e4"),
        Some(Move { from: 52, to: 36, promotion: PieceTypes::Empty })
    );
    assert_eq!(
        Move::parse_from("e7e8q"),
        Some(Move { from: 12, to: 4, promotion: PieceTypes::Queen })
    );
    assert_eq!(
        Move::parse_from("a2a1n"),
        Some(Move { from: 48, to: 56, promotion: PieceTypes::Knight })
    );
}

#[test]
fn move_parse_rejects_malformed() {
    assert_eq!(Move::parse_from(""), None);
    assert_eq!(Move::parse_from("e2"), None);
    assert_eq!(Move::parse_from("e2e9"), None);
    assert_eq!(Move::parse_from("e2e4k"), None);
    assert_eq!(Move::parse_from("e2e4qq"), None);
}

#[test]
fn uci_round_trip_all_moves() {
    let kinds = [
        PieceTypes::Empty,
        PieceTypes::Knight,
        PieceTypes::Bishop,
        PieceTypes::Rook,
        PieceTypes::Queen,
    ];
    for from in 0..64u8 {
        for to in 0..64u8 {
            for kind in kinds {
                let m = Move { from, to, promotion: kind };
                assert_eq!(Move::parse_from(&m.uci()), Some(m));
            }
        }
    }
}

#[test]
fn uci_castling_strings() {
    assert_eq!(Move { from: 60, to: 62, promotion: PieceTypes::Empty }.uci(), "e1g1");
    assert_eq!(Move { from: 60, to: 58, promotion: PieceTypes::Empty }.uci(), "e1c1");
    assert_eq!(Move { from: 4, to: 6, promotion: PieceTypes::Empty }.uci(), "e8g8");
    assert_eq!(Move { from: 4, to: 2, promotion: PieceTypes::Empty }.uci(), "e8c8");
}
