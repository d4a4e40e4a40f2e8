use chess_uci::board::placement_checks;
use chess_uci::encoding::{ia_to_real, index_to_move, real_to_ia, MoveIndexError};
use chess_uci::legal::{coups_legaux, legal_mask, mask_indices};
use chess_uci::moves::{Role, UciMove};
use chess_uci::tensor::{board_to_tensor, fen_to_tensor, snapshot_of, try_fen_to_tensor, BoardSnapshot};
use chess_uci::position::Position;

fn position(fen: &str) -> Position {
    Position::from_fen(fen).expect("position")
}

#[test]
fn test_fen_to_tensor() {
    let fen = "rnbqkbnr/p3pppp/1p6/2p5/3p4/5NPB/PPPPPP1P/RNBQK2R b Qkq - 1 5";
    let tensor = fen_to_tensor(fen);
    println!("Les blancs ont bougé puis remis leur tour en place, le petit roque n'est plus possible");
    for i in 0..19 {
        println!("\nCouche {}:", i);
        for ligne in (0..8).rev() {
            let start = i * 64 + ligne * 8;
            println!("{:?}", &tensor[start..start + 8]);
        }
    }
}

#[test]
fn test_reine_e2e4() {
    let res = index_to_move(124, None);
    assert_eq!(res, None);
}

#[test]
fn test_g6g7() {
    let res = index_to_move(46, None);
    assert_eq!(res.unwrap().to_uci_string(), "g6g7");
}

#[test]
fn test_promotion_pion() -> anyhow::Result<()> {
    let board = position("r1bqkbnr/ppp2Qpp/2np4/4p3/2B1P3/8/PPPP1PPP/RNB1K1NR b KQkq - 0 4");
    let index_a7a8 = 48;
    let res = index_to_move(index_a7a8, Some(&board));
    assert_eq!(res.unwrap().to_uci_string(), "a7a8q");
    Ok(())
}

const DICTIONNAIRE: [(&str, bool, &str, usize); 10] = [
    ("rnbqkbnr/pppppppp/8/8/4P3/8/PPPP1PPP/RNBQKBNR b KQkq - 0 1", false, "f7f5", 77),
    ("rnbqkbnr/ppppp1pp/8/5p2/4P3/8/PPPP1PPP/RNBQKBNR w KQkq - 0 2", true, "e4f5", 476),
    ("rnbqkbnr/ppppp1pp/8/5P2/8/8/PPPP1PPP/RNBQKBNR b KQkq - 0 2", false, "g8g6", 70),
    ("rnbqkb1r/ppppp1pp/5n2/5P2/8/8/PPPP1PPP/RNBQKBNR w KQkq - 1 3", true, "f1f4", 133),
    ("rnbqkb1r/pppp2pp/5n2/4pP2/2B5/8/PPPP1PPP/RNBQK1NR w KQkq e6 0 4", true, "f5e6", 3173),
    ("rnbqk2r/pppp2pp/4Pn2/2b5/2B5/2N5/PPPP1PPP/R1BQK1NR b KQkq - 2 5", false, "e8g8", 964),
    ("rnbq2k1/pppP1rpp/5n2/2b5/2B5/2N5/PPPP1PPP/R1BQK1NR w KQ - 1 7", true, "d7c8q", 3187),
    ("rnQq2k1/pp3rp1/2p2n2/2b5/2B5/1PN5/P1PP1PRp/R1BQK1N1 b Q - 0 12", false, "h2g1b", 4215),
    ("r1Qq2k1/3n1rp1/ppp2n2/2b5/2B2BQ1/1PNP4/P1P2PR1/R3K1b1 w Q - 2 16", true, "e1c1", 2756),
    ("r1Qq2k1/3n1rp1/ppp2n2/2b5/2B2BQ1/1PNP4/P1P2PR1/2KR2b1 b - - 3 16", false, "d8f8", 963),
];

#[test]
fn test_dictionnaire_indices() -> anyhow::Result<()> {
    for (fen_str, _, expected, idx) in DICTIONNAIRE {
        let board = position(fen_str);
        let res = ia_to_real(idx, &board).expect("index");
        assert_eq!(res.to_uci_string(), expected, "Échec pour l'index {}", idx);
    }
    Ok(())
}

#[test]
fn fn_ar() -> anyhow::Result<()> {
    for (fen_str, is_white, mouve, _) in DICTIONNAIRE {
        let mvt = UciMove::parse(mouve).expect("UCI");
        let index = real_to_ia(&mvt, is_white);
        let idx = index.unwrap_or(0);
        let board = position(fen_str);
        let mvt1 = ia_to_real(idx, &board).expect("index");
        assert_eq!(mvt1.to_uci_string(), mouve, "Échec pour le mouvement {}", mouve);
    }
    Ok(())
}

#[test]
fn test() {
    for i in 0..20 {
        let mut legal_mask: [u8; 584] = [0u8; 584];
        legal_mask[i / 8] |= 1 << (i % 8);
        println!("{} -> {} / {:08b}", i, legal_mask[0], legal_mask[0]);
    }
}

#[test]
fn real_to_ia_gives_the_dictionary_indices() {
    for (_, is_white, mouve, idx) in DICTIONNAIRE {
        let m = UciMove::parse(mouve).unwrap();
        assert_eq!(real_to_ia(&m, is_white), Some(idx), "{}", mouve);
    }
}

#[test]
fn index_move_index_round_trip_for_every_index() {
    for white in [true, false] {
        for pawn in [true, false] {
            for idx in 0..4672usize {
                if let Some(m) = chess_uci::encoding::ia_to_real_for(idx, white, pawn) {
                    assert_eq!(real_to_ia(&m, white), Some(idx));
                }
            }
        }
    }
}

#[test]
fn invalid_indices_are_refused() {
    let board = Position::start();
    assert_eq!(ia_to_real(4672, &board), Err(MoveIndexError::InvalidIndex(4672)));
    // a rook under-promotion one file to the right from a7 is a7b8r
    assert_eq!(ia_to_real(72 * 64 + 48, &board).unwrap().to_uci_string(), "a7b8r");
    // a knight under-promotion one file to the left from a7 leaves the board
    assert_eq!(ia_to_real(64 * 64 + 48, &board), Err(MoveIndexError::InvalidIndex(64 * 64 + 48)));
    // an under-promotion plane from a square not on the seventh rank
    assert_eq!(index_to_move(64 * 64 + 8, None), None);
}

#[test]
fn under_promotion_and_knight_planes() {
    // b7xa8=N: file step -1, knight, from b7 (49): plane 64, index 64*64+49
    let m = UciMove::parse("b7a8n").unwrap();
    assert_eq!(real_to_ia(&m, true), Some(64 * 64 + 49));
    assert_eq!(index_to_move(64 * 64 + 49, None).unwrap().to_uci_string(), "b7a8n");
    // g1-f3: knight jump (-1, +2), plane 63
    let m = UciMove::parse("g1f3").unwrap();
    assert_eq!(real_to_ia(&m, true), Some(63 * 64 + 6));
    // a promotion to a king has no index; nor has the null move
    assert_eq!(real_to_ia(&UciMove::parse("a7a8k").unwrap(), true), None);
    assert_eq!(real_to_ia(&UciMove::Null, true), None);
}

#[test]
fn uci_text_reads_back() {
    for text in ["e2e4", "a7a8q", "h2g1b", "Q@f7", "0000", "e1c1"] {
        let m = UciMove::parse(text).unwrap();
        assert_eq!(m.to_uci_string(), text);
    }
    assert_eq!(UciMove::parse("e2e9"), None);
    assert_eq!(UciMove::parse("e2e4x"), None);
    assert_eq!(UciMove::parse("e2"), None);
    assert_eq!(
        UciMove::parse("P@e4"),
        Some(UciMove::Put { role: Role::Pawn, to: 28 })
    );
    assert_eq!(
        UciMove::parse("a7a8Q"),
        Some(UciMove::Normal { from: 48, to: 56, promotion: Some(Role::Queen) })
    );
}

#[test]
fn mask_of_moves_reads_back() {
    let moves = vec![
        UciMove::parse("e2e4").unwrap(),
        UciMove::parse("g1f3").unwrap(),
        UciMove::parse("b7a8n").unwrap(),
        UciMove::Null,
    ];
    let mask = legal_mask(&moves, true);
    assert_eq!(mask.len(), 584);
    let mut expected = vec![
        real_to_ia(&moves[0], true).unwrap(),
        real_to_ia(&moves[1], true).unwrap(),
        real_to_ia(&moves[2], true).unwrap(),
    ];
    expected.sort();
    assert_eq!(mask_indices(&mask), expected);
}

#[test]
fn legal_mask_of_the_start_position() {
    let start = Position::start();
    let mask = coups_legaux(&start);
    let idxs = mask_indices(&mask);
    assert_eq!(idxs.len(), 20);
    // e2e4: line N distance 2 from e2 (12)
    assert!(idxs.contains(&(64 + 12)));
    for idx in idxs {
        let m = ia_to_real(idx, &start).unwrap();
        assert!(m.to_uci_string().len() >= 4);
    }
}

#[test]
fn tensor_of_the_start_position() {
    let t = fen_to_tensor("rnbqkbnr/pppppppp/8/8/8/8/PPPPPPPP/RNBQKBNR w KQkq - 0 1");
    assert_eq!(t.len(), 1216);
    // my pawns on the second row, his pawns (plane 6) on the seventh
    for f in 0..8 {
        assert_eq!(t[0 * 64 + 1 * 8 + f], 1);
        assert_eq!(t[6 * 64 + 6 * 8 + f], 1);
        assert_eq!(t[17 * 64 + 0 * 8 + f], 1);
        assert_eq!(t[18 * 64 + 7 * 8 + f], 1);
    }
    // castling planes full, en passant plane empty
    assert!(t[12 * 64..16 * 64].iter().all(|&c| c == 1));
    assert!(t[16 * 64..17 * 64].iter().all(|&c| c == 0));
    assert_eq!(try_fen_to_tensor("not a fen"), None);
}

#[test]
fn tensor_is_seen_from_black() {
    // Black to move after 1. e4: Black's pawns are "mine", seen on row 1
    let t = fen_to_tensor("rnbqkbnr/pppppppp/8/8/4P3/8/PPPP1PPP/RNBQKBNR b KQkq - 0 1");
    for f in 0..8 {
        assert_eq!(t[0 * 64 + 1 * 8 + f], 1);
    }
    // White's e-pawn on rank 4 is on row 7 - 3 = 4 of plane 6
    assert_eq!(t[6 * 64 + 4 * 8 + 4], 1);
}

#[test]
fn en_passant_cell() {
    let t = fen_to_tensor("rnbqkbnr/pppp2pp/8/4pP2/8/8/PPPP1PPP/RNBQKBNR w KQkq e6 0 3");
    let marked: Vec<usize> = (0..64).filter(|&c| t[16 * 64 + c] == 1).collect();
    assert_eq!(marked, vec![5 * 8 + 4]);
}

#[test]
fn legal_mask_after_e4_is_seen_from_black() {
    let pos = position("rnbqkbnr/pppppppp/8/8/4P3/8/PPPP1PPP/RNBQKBNR b KQkq - 0 1");
    let mask = coups_legaux(&pos);
    let idxs = mask_indices(&mask);
    assert_eq!(idxs.len(), 20);
    // f7f5 is index 77 for Black (see the dictionary above)
    assert!(idxs.contains(&77));
    for idx in idxs {
        let m = ia_to_real(idx, &pos).unwrap();
        assert!(pos.play(&m.to_uci_string()).is_some(), "{}", m.to_uci_string());
    }
}

#[test]
fn positions_read_and_play() {
    assert!(Position::from_fen("not a fen").is_none());
    let start = Position::start();
    assert_eq!(start.fen(), "rnbqkbnr/pppppppp/8/8/8/8/PPPPPPPP/RNBQKBNR w KQkq - 0 1");
    assert!(start.white_to_move());
    assert_eq!(start.fullmoves(), 1);
    assert_eq!(start.role_at(12), Some(Role::Pawn));
    assert_eq!(start.role_at(28), None);
    assert_eq!(start.legal_moves().len(), 20);
    let after = start.play("e2e4").expect("legal");
    assert!(!after.white_to_move());
    assert_eq!(after.role_at(28), Some(Role::Pawn));
    assert!(start.play("e2e5").is_none());
    assert!(start.play("zz").is_none());
    let again = Position::from_fen(after.fen()).expect("reads back");
    assert_eq!(again.fen(), after.fen());
}

#[test]
fn snapshot_and_tensor_of_a_board() {
    // a lone white king on e1 and black king on e8, White to move, no rights
    let mut pieces = vec![None; 64];
    pieces[4] = Some((Role::King, true));
    pieces[60] = Some((Role::King, false));
    let s = BoardSnapshot {
        white_to_move: true,
        pieces,
        white_kingside: false,
        white_queenside: false,
        black_kingside: false,
        black_queenside: false,
        en_passant: None,
    };
    assert_eq!(snapshot_of("4k3/8/8/8/8/8/8/4K3 w - - 0 1"), s);
    let t = board_to_tensor(&s);
    let ones: Vec<usize> = (0..1216).filter(|&i| t[i] == 1).collect();
    // my king (plane 5) on e1, his king (plane 11) on e8, presence planes
    assert_eq!(ones, vec![5 * 64 + 4, 11 * 64 + 60, 17 * 64 + 4, 18 * 64 + 60]);
    assert_eq!(fen_to_tensor("4k3/8/8/8/8/8/8/4K3 w - - 0 1"), t);
}

#[test]
fn castling_is_played_from_its_uci_text() {
    let pos = position("r3k2r/8/8/8/8/8/8/R3K2R w KQkq - 0 1");
    let after = pos.play("e1g1").expect("castling");
    assert_eq!(after.role_at(6), Some(Role::King));
    assert_eq!(after.role_at(5), Some(Role::Rook));
    assert_eq!(after.role_at(7), None);
}

#[test]
fn tensor_is_the_same_for_the_mirrored_position() {
    // 1. e4 with Black to move, and its mirror: 1... e5 with White to move
    let t1 = fen_to_tensor("rnbqkbnr/pppppppp/8/8/4P3/8/PPPP1PPP/RNBQKBNR b KQkq - 0 1");
    let t2 = fen_to_tensor("rnbqkbnr/pppp1ppp/8/4p3/8/8/PPPPPPPP/RNBQKBNR w KQkq - 0 1");
    assert_eq!(t1, t2);
}

#[test]
fn every_legal_move_has_one_bit_and_decodes_back() {
    let fens = [
        "rnbqkbnr/pppppppp/8/8/8/8/PPPPPPPP/RNBQKBNR w KQkq - 0 1",
        "rnbqkbnr/pppp2pp/8/4pP2/8/8/PPPP1PPP/RNBQKBNR w KQkq e6 0 3",
        "r3k2r/pPpp1ppp/8/8/8/8/PpPP1PPP/R3K2R b KQkq - 0 1",
        "r3k2r/pPpp1ppp/8/8/8/8/PpPP1PPP/R3K2R w KQkq - 0 1",
        "rnQq2k1/pp3rp1/2p2n2/2b5/2B5/1PN5/P1PP1PRp/R1BQK1N1 b Q - 0 12",
    ];
    for fen in fens {
        let pos = position(fen);
        let white = pos.white_to_move();
        let texts = pos.legal_moves();
        let mask = coups_legaux(&pos);
        assert_eq!(mask_indices(&mask).len(), texts.len(), "{}", fen);
        for t in texts {
            let m = UciMove::parse(&t).expect("UCI");
            let idx = real_to_ia(&m, white).expect("index");
            assert!(mask_indices(&mask).contains(&idx));
            assert_eq!(ia_to_real(idx, &pos), Ok(m), "{} {}", fen, t);
        }
    }
}

#[test]
fn boards_without_kings_are_refused_before_reading() {
    assert!(placement_checks("rnbqkbnr/pppppppp/8/8/8/8/PPPPPPPP/RNBQKBNR w KQkq - 0 1"));
    assert!(!placement_checks("8/8/8/8/8/8/8/8 w - - 0 1"));
    assert!(!placement_checks("K7K/8/8/8/8/8/8/7k w - - 0 1"));
    assert!(!placement_checks("K6k/8/8/8/8/8/8/9 w - - 0 1"));
    assert_eq!(try_fen_to_tensor("8/8/8/8/8/8/8/8 w - - 0 1"), None);
    assert_eq!(try_fen_to_tensor("4k3/8/8/8/8/8/8/8 w - - 0 1"), None);
    assert!(try_fen_to_tensor("4k3/8/8/8/8/8/8/4K3 b - - 0 1").is_some());
}

#[test]
fn legal_moves_come_with_their_policy_indices() {
    let pos = position("rnbqkbnr/pppppppp/8/8/4P3/8/PPPP1PPP/RNBQKBNR b KQkq - 0 1");
    let listed = chess_uci::legal::legal_moves_with_indices(&pos);
    let texts = pos.legal_moves();
    assert_eq!(listed.len(), texts.len());
    for ((m, idx), t) in listed.iter().zip(texts.iter()) {
        assert_eq!(&m.to_uci_string(), t);
        assert_eq!(ia_to_real(*idx, &pos), Ok(*m));
    }
    let f7f5 = UciMove::parse("f7f5").unwrap();
    assert!(listed.contains(&(f7f5, 77)));
}
