use vstd::prelude::*;

verus! {

/// Number of bytes in one packed position record.
pub const RECORD_SIZE: usize = 32;

/// `256` raised to the power `n`: one more than the largest value that `n` bytes hold.
pub open spec fn byte_bound(n: nat) -> nat
    decreases n,
{
    if n == 0 {
        1
    } else {
        256 * byte_bound((n - 1) as nat)
    }
}

/// The unsigned value of a little-endian byte sequence.
pub open spec fn le_value(s: Seq<u8>) -> nat
    decreases s.len(),
{
    if s.len() == 0 {
        0
    } else {
        s[0] as nat + 256 * le_value(s.drop_first())
    }
}

/// The two's complement reading of a 16-bit pattern.
pub open spec fn signed16(v: nat) -> int {
    if v >= 0x8000 {
        v - 0x10000
    } else {
        v as int
    }
}

/// One decoded 32-byte record, fields in host order.
#[derive(Clone, Copy, Debug, PartialEq, Eq)]
pub struct PackedBoard {
    /// One bit per occupied square, square 0 in the lowest bit.
    pub occupied: u64,
    /// Four bits per occupied square, in ascending square order, from the lowest bits up.
    pub pieces: u128,
    /// Side to move in the top bit, en-passant square in the low seven bits.
    pub stm_ep: u8,
    pub halfmove: u8,
    pub fullmove: u16,
    /// Static evaluation of the position.
    pub eval: i16,
    /// Game outcome: 0 loss, 1 draw, 2 win.
    pub wdl: u8,
    pub extra: u8,
}

/// The record that 32 bytes encode.
pub open spec fn record_of(b: Seq<u8>) -> PackedBoard {
    PackedBoard {
        occupied: le_value(b.subrange(0, 8)) as u64,
        pieces: le_value(b.subrange(8, 24)) as u128,
        stm_ep: b[24],
        halfmove: b[25],
        fullmove: le_value(b.subrange(26, 28)) as u16,
        eval: signed16(le_value(b.subrange(28, 30))) as i16,
        wdl: b[30],
        extra: b[31],
    }
}

proof fn lemma_byte_bound_mono(k: nat, n: nat)
    requires
        k <= n,
    ensures
        byte_bound(k) <= byte_bound(n),
    decreases n,
{
    if k < n {
        lemma_byte_bound_mono(k, (n - 1) as nat);
    }
}

/// Reads `n` little-endian bytes of `b` from `start`.
fn read_le(b: &[u8; 32], start: usize, n: usize) -> (r: u128)
    requires
        start + n <= 32,
        n <= 16,
    ensures
        r as nat == le_value(b@.subrange(start as int, (start + n) as int)),
        r < byte_bound(n as nat),
{
    let end = start + n;
    let mut v: u128 = 0;
    let mut i: usize = end;
    proof {
        assert(b@.subrange(end as int, end as int) =~= Seq::<u8>::empty());
        assert(byte_bound(16) == 0x1_0000_0000_0000_0000_0000_0000_0000_0000) by {
            reveal_with_fuel(byte_bound, 17);
        }
    }
    while i > start
        invariant
            start <= i <= end,
            end == start + n,
            end <= 32,
            n <= 16,
            v as nat == le_value(b@.subrange(i as int, end as int)),
            v < byte_bound((end - i) as nat),
            byte_bound(16) == 0x1_0000_0000_0000_0000_0000_0000_0000_0000,
        decreases i - start,
    {
        let ghost tail = b@.subrange(i as int, end as int);
        proof {
            lemma_byte_bound_mono((end - i + 1) as nat, 16);
            assert(b@.subrange(i - 1, end as int).drop_first() =~= tail);
        }
        v = v * 256 + b[i - 1] as u128;
        i = i - 1;
    }
    v
}

impl PackedBoard {
    /// Decodes one 32-byte record: bytes 0..8 occupancy, 8..24 piece codes,
    /// 24 side to move and en-passant square, 25 halfmove clock, 26..28 fullmove
    /// counter, 28..30 signed evaluation, 30 outcome, 31 spare; all little-endian.
    pub fn from_record(b: &[u8; 32]) -> (r: PackedBoard)
        ensures
            r == record_of(b@),
    {
        proof {
            reveal_with_fuel(byte_bound, 17);
        }
        let occupied = read_le(b, 0, 8) as u64;
        let pieces = read_le(b, 8, 16);
        let fullmove = read_le(b, 26, 2) as u16;
        let raw_eval = read_le(b, 28, 2);
        let eval: i16 = if raw_eval >= 0x8000 {
            (raw_eval as i32 - 0x10000) as i16
        } else {
            raw_eval as i16
        };
        PackedBoard {
            occupied,
            pieces,
            stm_ep: b[24],
            halfmove: b[25],
            fullmove,
            eval,
            wdl: b[30],
            extra: b[31],
        }
    }
}


/// Kind of a chess piece.
#[derive(Clone, Copy, Debug, PartialEq, Eq)]
pub enum PieceType {
    Pawn,
    Knight,
    Bishop,
    Rook,
    Queen,
    King,
}

impl PieceType {
    /// Position of the kind in the order pawn, knight, bishop, rook, queen, king.
    pub open spec fn spec_index(self) -> nat {
        match self {
            PieceType::Pawn => 0,
            PieceType::Knight => 1,
            PieceType::Bishop => 2,
            PieceType::Rook => 3,
            PieceType::Queen => 4,
            PieceType::King => 5,
        }
    }

    pub fn index(self) -> (r: usize)
        ensures
            r == self.spec_index(),
            r < 6,
    {
        match self {
            PieceType::Pawn => 0,
            PieceType::Knight => 1,
            PieceType::Bishop => 2,
            PieceType::Rook => 3,
            PieceType::Queen => 4,
            PieceType::King => 5,
        }
    }
}

/// A piece on the board: its colour (`false` for the side the record calls
/// its own), kind and square.
#[derive(Clone, Copy, Debug, PartialEq, Eq)]
pub struct Piece {
    pub color: bool,
    pub ty: PieceType,
    pub sq: u8,
}

/// Why a record could not be decoded.
#[derive(Clone, Copy, Debug, PartialEq, Eq)]
pub enum DecodeError {
    /// A pawn code stands on square 61, which the format never puts a pawn on.
    PawnOnSentinelSquare,
    /// A piece code names kind 7, which the format does not define.
    InvalidPieceCode,
}

/// Piece code 6: a rook that has not moved and so still grants castling.
pub const UNMOVED_ROOK: u8 = 6;

/// Piece code 5: a king.
pub const KING: u8 = 5;

/// Square that marks a corrupt record when a pawn code stands on it.
pub const SENTINEL_SQUARE: u8 = 61;

/// Square number that stands for "no castling rook".
pub const NO_SQUARE: u8 = 64;

/// Whether bit `sq` of the occupancy mask is set.
pub open spec fn bit_set(occ: u64, sq: nat) -> bool {
    (occ >> (sq as u64)) & 1 == 1
}

/// The occupied squares below `n`, ascending.
pub open spec fn squares_below(occ: u64, n: nat) -> Seq<u8>
    decreases n,
{
    if n == 0 {
        Seq::empty()
    } else {
        let prev = squares_below(occ, (n - 1) as nat);
        if bit_set(occ, (n - 1) as nat) {
            prev.push((n - 1) as u8)
        } else {
            prev
        }
    }
}

/// The number of set bits below `n`.
pub open spec fn popcount_below(occ: u64, n: nat) -> nat
    decreases n,
{
    if n == 0 {
        0
    } else {
        popcount_below(occ, (n - 1) as nat) + if bit_set(occ, (n - 1) as nat) {
            1nat
        } else {
            0nat
        }
    }
}

/// All occupied squares, ascending.
pub open spec fn occupied_squares(occ: u64) -> Seq<u8> {
    squares_below(occ, 64)
}

/// The piece-code field after the first `k` codes have been shifted out.
pub open spec fn codes_after(p: u128, k: nat) -> u128
    decreases k,
{
    if k == 0 {
        p
    } else {
        codes_after(p, (k - 1) as nat) >> 4
    }
}

/// The `k`-th four-bit piece code (zero once all 32 codes are used up).
pub open spec fn piece_code(p: u128, k: nat) -> u8 {
    (codes_after(p, k) & 15) as u8
}

/// The kind that a code's low three bits name; an unmoved rook is a rook.
pub open spec fn type_of_kind(t: u8) -> PieceType {
    if t == 0 {
        PieceType::Pawn
    } else if t == 1 {
        PieceType::Knight
    } else if t == 2 {
        PieceType::Bishop
    } else if t == 3 || t == 6 {
        PieceType::Rook
    } else if t == 4 {
        PieceType::Queen
    } else {
        PieceType::King
    }
}

fn type_from_kind(t: u8) -> (r: PieceType)
    requires
        t < 7,
    ensures
        r == type_of_kind(t),
{
    if t == 0 {
        PieceType::Pawn
    } else if t == 1 {
        PieceType::Knight
    } else if t == 2 {
        PieceType::Bishop
    } else if t == 3 || t == UNMOVED_ROOK {
        PieceType::Rook
    } else if t == 4 {
        PieceType::Queen
    } else {
        PieceType::King
    }
}

impl PackedBoard {
    /// Number of occupied squares.
    pub open spec fn piece_count(self) -> nat {
        occupied_squares(self.occupied).len()
    }

    /// Square of the `j`-th piece.
    pub open spec fn square_at(self, j: nat) -> u8 {
        occupied_squares(self.occupied)[j as int]
    }

    /// Kind bits (0..8) of the `j`-th piece code.
    pub open spec fn kind_at(self, j: nat) -> u8 {
        piece_code(self.pieces, j) & 7
    }

    /// Colour bit of the `j`-th piece code.
    pub open spec fn color_at(self, j: nat) -> bool {
        piece_code(self.pieces, j) & 8 != 0
    }

    /// The `j`-th decoded piece.
    pub open spec fn piece_at(self, j: nat) -> Piece {
        Piece { color: self.color_at(j), ty: type_of_kind(self.kind_at(j)), sq: self.square_at(j) }
    }

    /// Whether the `j`-th piece code breaks the format.
    pub open spec fn corrupt_at(self, j: nat) -> bool {
        (self.square_at(j) == SENTINEL_SQUARE && self.kind_at(j) == 0) || self.kind_at(j) == 7
    }

    /// The error that the `j`-th piece code gives.
    pub open spec fn error_at(self, j: nat) -> DecodeError {
        if self.kind_at(j) == 7 {
            DecodeError::InvalidPieceCode
        } else {
            DecodeError::PawnOnSentinelSquare
        }
    }

    /// Whether a king of `color` is among the first `j` pieces.
    pub open spec fn king_seen(self, j: nat, color: bool) -> bool
        decreases j,
    {
        if j == 0 {
            false
        } else {
            self.king_seen((j - 1) as nat, color) || (self.kind_at((j - 1) as nat) == KING
                && self.color_at((j - 1) as nat) == color)
        }
    }

    /// Square of the last unmoved rook of `color` among the first `j` pieces that
    /// stands on the king's side given by `kingside` (after the king in square order
    /// for the king's side, before it for the queen's side), or `NO_SQUARE`.
    pub open spec fn castling_rook(self, j: nat, color: bool, kingside: bool) -> u8
        decreases j,
    {
        if j == 0 {
            NO_SQUARE
        } else {
            let i = (j - 1) as nat;
            if self.kind_at(i) == UNMOVED_ROOK && self.color_at(i) == color && self.king_seen(i, color)
                == kingside {
                self.square_at(i)
            } else {
                self.castling_rook(i, color, kingside)
            }
        }
    }

    /// The pieces in ascending square order.
    pub open spec fn decoded_pieces(self) -> Seq<Piece> {
        Seq::new(self.piece_count(), |j: int| self.piece_at(j as nat))
    }

    /// Whether no piece code breaks the format.
    pub open spec fn is_sound(self) -> bool {
        forall|j: nat| j < self.piece_count() ==> !#[trigger] self.corrupt_at(j)
    }

    /// Castling rook squares indexed by colour, then side (0 queen's side, 1 king's side).
    pub open spec fn castling_spec(self, color: bool, kingside: bool) -> u8 {
        self.castling_rook(self.piece_count(), color, kingside)
    }

    /// Whether decoding stops at a corrupt piece code with error `e`: the first such
    /// code in square order gives it.
    pub open spec fn fails_with(self, e: DecodeError) -> bool {
        exists|j: nat|
            j < self.piece_count() && #[trigger] self.corrupt_at(j) && e == self.error_at(j)
                && forall|i: nat| i < j ==> !#[trigger] self.corrupt_at(i)
    }

    pub open spec fn stm_spec(self) -> bool {
        self.stm_ep & 0x80 != 0
    }
}

proof fn lemma_squares_prefix(occ: u64, n: nat, m: nat)
    requires
        n <= m,
    ensures
        squares_below(occ, n).len() <= squares_below(occ, m).len(),
        forall|j: int|
            0 <= j < squares_below(occ, n).len() ==> #[trigger] squares_below(occ, m)[j]
                == squares_below(occ, n)[j],
    decreases m,
{
    if n < m {
        lemma_squares_prefix(occ, n, (m - 1) as nat);
    }
}

impl PackedBoard {
    /// Decodes the pieces in ascending square order, the castling rook squares
    /// (by colour, then queen's side / king's side; `NO_SQUARE` where none), the
    /// side to move, the evaluation and the outcome. Fails at the first piece code
    /// that breaks the format.
    pub fn unpack(&self) -> (r: Result<(Vec<Piece>, [[u8; 2]; 2], bool, i16, u8), DecodeError>)
        ensures
            r is Ok <==> self.is_sound(),
            r matches Ok((pieces, castling, stm, eval, wdl)) ==> {
                &&& pieces@ == self.decoded_pieces()
                &&& castling[0][0] == self.castling_spec(false, false)
                &&& castling[0][1] == self.castling_spec(false, true)
                &&& castling[1][0] == self.castling_spec(true, false)
                &&& castling[1][1] == self.castling_spec(true, true)
                &&& stm == self.stm_spec()
                &&& eval == self.eval
                &&& wdl == self.wdl
            },
            r matches Err(e) ==> self.fails_with(e),
    {
        let occ = self.occupied;
        let mut packed: u128 = self.pieces;
        let mut pieces: Vec<Piece> = Vec::new();
        let mut seen_white = false;
        let mut seen_black = false;
        let mut white_queenside: u8 = NO_SQUARE;
        let mut white_kingside: u8 = NO_SQUARE;
        let mut black_queenside: u8 = NO_SQUARE;
        let mut black_kingside: u8 = NO_SQUARE;
        let mut sq: u64 = 0;
        while sq < 64
            invariant
                sq <= 64,
                pieces@.len() == squares_below(occ, sq as nat).len(),
                occ == self.occupied,
                forall|j: int| 0 <= j < pieces@.len() ==> pieces@[j] == self.piece_at(j as nat),
                forall|j: nat| j < pieces@.len() ==> !#[trigger] self.corrupt_at(j),
                packed == codes_after(self.pieces, pieces@.len() as nat),
                seen_white == self.king_seen(pieces@.len() as nat, false),
                seen_black == self.king_seen(pieces@.len() as nat, true),
                white_queenside == self.castling_rook(pieces@.len() as nat, false, false),
                white_kingside == self.castling_rook(pieces@.len() as nat, false, true),
                black_queenside == self.castling_rook(pieces@.len() as nat, true, false),
                black_kingside == self.castling_rook(pieces@.len() as nat, true, true),
            decreases 64 - sq,
        {
            let ghost k = pieces@.len() as nat;
            proof {
                lemma_squares_prefix(occ, (sq + 1) as nat, 64);
                lemma_squares_prefix(occ, sq as nat, (sq + 1) as nat);
            }
            if (occ >> sq) & 1 == 1 {
                assert(self.square_at(k) == sq);
                proof {
                        assert(packed & 15 < 16) by (bit_vector);
                    assert(forall|c: u8| #[trigger] (c & 7) <= 7) by (bit_vector);
                }
                let code: u8 = (packed & 15) as u8;
                let kind: u8 = code & 7;
                let color = code & 8 != 0;
                assert(k < self.piece_count());
                assert(kind == self.kind_at(k) && color == self.color_at(k));
                assert(self.corrupt_at(k) <==> ((sq == 61 && kind == 0) || kind == 7));
                packed = packed >> 4;
                if sq == SENTINEL_SQUARE as u64 && kind == 0 {
                    return Err(DecodeError::PawnOnSentinelSquare);
                }
                if kind == 7 {
                    return Err(DecodeError::InvalidPieceCode);
                }
                if kind == UNMOVED_ROOK {
                    if !color {
                        if seen_white {
                            white_kingside = sq as u8;
                        } else {
                            white_queenside = sq as u8;
                        }
                    } else {
                        if seen_black {
                            black_kingside = sq as u8;
                        } else {
                            black_queenside = sq as u8;
                        }
                    }
                }
                if kind == KING {
                    if color {
                        seen_black = true;
                    } else {
                        seen_white = true;
                    }
                }
                let ty = type_from_kind(kind);
                pieces.push(Piece { color, ty, sq: sq as u8 });
            }
            sq = sq + 1;
        }
        proof {
            assert(pieces@ =~= self.decoded_pieces());
        }
        Ok((
            pieces,
            [[white_queenside, white_kingside], [black_queenside, black_kingside]],
            self.stm(),
            self.eval(),
            self.wdl(),
        ))
    }

    /// Occupancy mask.
    pub fn occupied(&self) -> (r: u64)
        ensures
            r == self.occupied,
    {
        self.occupied
    }

    /// Packed piece codes.
    pub fn pieces(&self) -> (r: u128)
        ensures
            r == self.pieces,
    {
        self.pieces
    }

    /// Side to move: the top bit of the side-to-move byte.
    pub fn stm(&self) -> (r: bool)
        ensures
            r == self.stm_spec(),
    {
        self.stm_ep & 0x80 != 0
    }

    /// En-passant square: the low seven bits of the side-to-move byte.
    pub fn ep_square(&self) -> (r: u8)
        ensures
            r == self.stm_ep & 0x7f,
    {
        self.stm_ep & 0x7f
    }

    pub fn halfmove(&self) -> (r: u8)
        ensures
            r == self.halfmove,
    {
        self.halfmove
    }

    pub fn fullmove(&self) -> (r: u16)
        ensures
            r == self.fullmove,
    {
        self.fullmove
    }

    pub fn eval(&self) -> (r: i16)
        ensures
            r == self.eval,
    {
        self.eval
    }

    /// Game outcome: 0 loss, 1 draw, 2 win.
    pub fn wdl(&self) -> (r: u8)
        ensures
            r == self.wdl,
    {
        self.wdl
    }

    pub fn extra(&self) -> (r: u8)
        ensures
            r == self.extra,
    {
        self.extra
    }
}


proof fn lemma_squares_below(occ: u64, n: nat)
    requires
        n <= 64,
    ensures
        squares_below(occ, n).len() == popcount_below(occ, n),
        squares_below(occ, n).len() <= n,
        forall|j: int|
            0 <= j < squares_below(occ, n).len() ==> #[trigger] squares_below(occ, n)[j] < n
                && bit_set(occ, squares_below(occ, n)[j] as nat),
        forall|i: int, j: int|
            0 <= i < j < squares_below(occ, n).len() ==> #[trigger] squares_below(occ, n)[i]
                < #[trigger] squares_below(occ, n)[j],
    decreases n,
{
    if n > 0 {
        lemma_squares_below(occ, (n - 1) as nat);
    }
}

/// A record with `N` occupied squares decodes, when sound, to exactly `N` pieces,
/// one on each occupied square, in strictly ascending square order, each square
/// below 64.
pub proof fn lemma_unpack_covers_occupancy(b: PackedBoard)
    ensures
        b.decoded_pieces().len() == popcount_below(b.occupied, 64),
        b.decoded_pieces().len() <= 64,
        forall|j: int|
            0 <= j < b.decoded_pieces().len() ==> #[trigger] b.decoded_pieces()[j].sq < 64
                && bit_set(b.occupied, b.decoded_pieces()[j].sq as nat),
        forall|i: int, j: int|
            0 <= i < j < b.decoded_pieces().len() ==> #[trigger] b.decoded_pieces()[i].sq
                < #[trigger] b.decoded_pieces()[j].sq,
{
    lemma_squares_below(b.occupied, 64);
}

/// Relies on bytemuck::cast_slice: a byte slice whose length is a multiple of 32
/// is viewed, without copying, as that many consecutive 32-byte arrays.
#[verifier::external_body]
fn as_records(bytes: &[u8]) -> (r: &[[u8; 32]])
    requires
        bytes@.len() % 32 == 0,
    ensures
        r@.len() == bytes@.len() / 32,
        forall|i: int, j: int|
            0 <= i < r@.len() && 0 <= j < 32 ==> #[trigger] r@[i]@[j] == bytes@[32 * i + j],
{
    bytemuck::cast_slice(bytes)
}

/// The `i`-th 32-byte record of a buffer.
pub open spec fn record_bytes(bytes: Seq<u8>, i: int) -> Seq<u8> {
    bytes.subrange(32 * i, 32 * i + 32)
}

impl PackedBoard {
    /// Decodes a buffer of back-to-back 32-byte records, with no header or padding.
    pub fn read_many(bytes: &[u8]) -> (r: Vec<PackedBoard>)
        requires
            bytes@.len() % 32 == 0,
        ensures
            r@.len() == bytes@.len() / 32,
            forall|i: int| 0 <= i < r@.len() ==> #[trigger] r@[i] == record_of(record_bytes(bytes@, i)),
    {
        let records = as_records(bytes);
        let mut out: Vec<PackedBoard> = Vec::new();
        let mut i: usize = 0;
        while i < records.len()
            invariant
                i <= records@.len(),
                records@.len() == bytes@.len() / 32,
                bytes@.len() % 32 == 0,
                forall|a: int, j: int|
                    0 <= a < records@.len() && 0 <= j < 32 ==> #[trigger] records@[a]@[j]
                        == bytes@[32 * a + j],
                out@.len() == i,
                forall|a: int| 0 <= a < i ==> #[trigger] out@[a] == record_of(record_bytes(bytes@, a)),
            decreases records@.len() - i,
        {
            proof {
                assert(records@[i as int]@ =~= record_bytes(bytes@, i as int));
            }
            out.push(PackedBoard::from_record(&records[i]));
            i = i + 1;
        }
        out
    }
}

} // verus!
