use tuner::record::{DecodeError, PackedBoard, Piece, PieceType};

fn record(occupied: u64, codes: &[u8], stm_ep: u8, fullmove: u16, eval: i16, wdl: u8) -> [u8; 32] {
    let mut pieces: u128 = 0;
    for (i, c) in codes.iter().enumerate() {
        pieces |= (*c as u128) << (4 * i);
    }
    let mut b = [0u8; 32];
    b[0..8].copy_from_slice(&occupied.to_le_bytes());
    b[8..24].copy_from_slice(&pieces.to_le_bytes());
    b[24] = stm_ep;
    b[25] = 7;
    b[26..28].copy_from_slice(&fullmove.to_le_bytes());
    b[28..30].copy_from_slice(&eval.to_le_bytes());
    b[30] = wdl;
    b[31] = 9;
    b
}

fn mask(squares: &[u8]) -> u64 {
    squares.iter().fold(0u64, |m, s| m | (1u64 << s))
}

fn start_position() -> [u8; 32] {
    let mut squares: Vec<u8> = (0..16).collect();
    squares.extend(48..64);
    let mut codes = vec![6, 1, 2, 4, 5, 2, 1, 6];
    codes.extend([0u8; 8]);
    codes.extend([8u8; 8]);
    codes.extend([14, 9, 10, 12, 13, 10, 9, 14]);
    record(mask(&squares), &codes, 0, 1, 0, 1)
}

#[test]
fn fields_decode_little_endian() {
    let b = record(0x0102_0304_0506_0708, &[], 0x80 | 21, 0x1234, -300, 2);
    let p = PackedBoard::from_record(&b);
    assert_eq!(p.occupied(), 0x0102_0304_0506_0708);
    assert_eq!(p.pieces(), 0);
    assert!(p.stm());
    assert_eq!(p.ep_square(), 21);
    assert_eq!(p.halfmove(), 7);
    assert_eq!(p.fullmove(), 0x1234);
    assert_eq!(p.eval(), -300);
    assert_eq!(p.wdl(), 2);
    assert_eq!(p.extra(), 9);
}

#[test]
fn read_many_splits_records() {
    let mut buf = Vec::new();
    buf.extend_from_slice(&record(1, &[5], 0, 3, 150, 0));
    buf.extend_from_slice(&record(3, &[5, 13], 0x80, 4, -1, 2));
    let boards = PackedBoard::read_many(&buf);
    assert_eq!(boards.len(), 2);
    assert_eq!(boards[0].occupied(), 1);
    assert_eq!(boards[0].eval(), 150);
    assert_eq!(boards[0].wdl(), 0);
    assert_eq!(boards[1].occupied(), 3);
    assert_eq!(boards[1].pieces(), 0xd5);
    assert_eq!(boards[1].fullmove(), 4);
    assert_eq!(boards[1].eval(), -1);
    assert!(boards[1].stm());
    assert_eq!(boards[1].wdl(), 2);
}

#[test]
fn read_many_empty_buffer() {
    assert!(PackedBoard::read_many(&[]).is_empty());
}

#[test]
fn unpack_two_kings() {
    let b = PackedBoard::from_record(&record(mask(&[4, 60]), &[5, 13], 0x80, 50, 12, 1));
    let (pieces, castling, stm, eval, wdl) = b.unpack().unwrap();
    assert_eq!(
        pieces,
        vec![
            Piece { color: false, ty: PieceType::King, sq: 4 },
            Piece { color: true, ty: PieceType::King, sq: 60 },
        ]
    );
    assert_eq!(castling, [[64, 64], [64, 64]]);
    assert!(stm);
    assert_eq!(eval, 12);
    assert_eq!(wdl, 1);
}

#[test]
fn unpack_start_position() {
    let b = PackedBoard::from_record(&start_position());
    let (pieces, castling, stm, _, _) = b.unpack().unwrap();
    assert_eq!(pieces.len(), 32);
    assert_eq!(pieces[0], Piece { color: false, ty: PieceType::Rook, sq: 0 });
    assert_eq!(pieces[3], Piece { color: false, ty: PieceType::Queen, sq: 3 });
    assert_eq!(pieces[8], Piece { color: false, ty: PieceType::Pawn, sq: 8 });
    assert_eq!(pieces[16], Piece { color: true, ty: PieceType::Pawn, sq: 48 });
    assert_eq!(pieces[29], Piece { color: true, ty: PieceType::Bishop, sq: 61 });
    assert_eq!(pieces[31], Piece { color: true, ty: PieceType::Rook, sq: 63 });
    assert_eq!(castling, [[0, 7], [56, 63]]);
    assert!(!stm);
    for (i, p) in pieces.iter().enumerate() {
        assert!(p.sq < 64);
        assert!(b.occupied() & (1u64 << p.sq) != 0);
        if i > 0 {
            assert!(pieces[i - 1].sq < p.sq);
        }
    }
}

#[test]
fn unpack_count_matches_occupancy() {
    let occupied: u64 = 0x8000_0100_2400_0811;
    let codes = [5, 1, 2, 3, 4, 8, 13];
    let b = PackedBoard::from_record(&record(occupied, &codes, 0, 1, 0, 1));
    let (pieces, _, _, _, _) = b.unpack().unwrap();
    assert_eq!(pieces.len(), occupied.count_ones() as usize);
}

#[test]
fn unmoved_rook_on_both_sides_of_king() {
    let b = PackedBoard::from_record(&record(mask(&[2, 4, 5, 62]), &[6, 5, 6, 13], 0, 1, 0, 1));
    let (pieces, castling, _, _, _) = b.unpack().unwrap();
    assert_eq!(castling, [[2, 5], [64, 64]]);
    assert_eq!(pieces[0].ty, PieceType::Rook);
    assert_eq!(pieces[2].ty, PieceType::Rook);
}

#[test]
fn black_rook_before_black_king_is_queenside() {
    let b = PackedBoard::from_record(&record(mask(&[4, 56, 60]), &[5, 14, 13], 0, 1, 0, 1));
    let (_, castling, _, _, _) = b.unpack().unwrap();
    assert_eq!(castling, [[64, 64], [56, 64]]);
}

#[test]
fn codes_run_out_after_thirty_two_pieces() {
    let squares: Vec<u8> = (0..34).collect();
    let codes = [4u8; 32];
    let b = PackedBoard::from_record(&record(mask(&squares), &codes, 0, 1, 0, 1));
    let (pieces, _, _, _, _) = b.unpack().unwrap();
    assert_eq!(pieces.len(), 34);
    assert_eq!(pieces[31], Piece { color: false, ty: PieceType::Queen, sq: 31 });
    assert_eq!(pieces[32], Piece { color: false, ty: PieceType::Pawn, sq: 32 });
    assert_eq!(pieces[33], Piece { color: false, ty: PieceType::Pawn, sq: 33 });
}

#[test]
fn pawn_on_sentinel_square_is_rejected() {
    let b = PackedBoard::from_record(&record(mask(&[4, 60, 61]), &[5, 13, 8], 0, 1, 0, 1));
    assert_eq!(b.unpack(), Err(DecodeError::PawnOnSentinelSquare));
}

#[test]
fn undefined_piece_code_is_rejected() {
    let b = PackedBoard::from_record(&record(mask(&[4, 10, 60]), &[5, 15, 13], 0, 1, 0, 1));
    assert_eq!(b.unpack(), Err(DecodeError::InvalidPieceCode));
}

#[test]
fn first_corrupt_code_decides_the_error() {
    let b = PackedBoard::from_record(&record(mask(&[4, 10, 61]), &[5, 7, 0], 0, 1, 0, 1));
    assert_eq!(b.unpack(), Err(DecodeError::InvalidPieceCode));
    let b = PackedBoard::from_record(&record(mask(&[4, 61, 62]), &[5, 0, 7], 0, 1, 0, 1));
    assert_eq!(b.unpack(), Err(DecodeError::PawnOnSentinelSquare));
}

#[test]
fn piece_type_indices() {
    let kinds = [
        PieceType::Pawn,
        PieceType::Knight,
        PieceType::Bishop,
        PieceType::Rook,
        PieceType::Queen,
        PieceType::King,
    ];
    for (i, k) in kinds.iter().enumerate() {
        assert_eq!(k.index(), i);
    }
}
