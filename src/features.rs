use crate::record::{lemma_unpack_covers_occupancy, DecodeError, PackedBoard, Piece, PieceType};
use vstd::prelude::*;

verus! {

/// Phase value of full opening material; larger totals are clipped to it.
pub const MAX_PHASE: u32 = 24;

/// Number of piece-square entries in one phase half of the weight vector.
pub const HALF_WEIGHTS: usize = 384;

/// One training sample: a sparse feature list, a phase and an outcome.
///
/// A learner reads the phase as `phase / 24` (1 full middlegame material, 0 bare
/// kings), the target as `wdl / 2` (0 loss, 1/2 draw, 1 win), and each entry
/// `(i, s)` as sign `s` on middlegame weight `i` and endgame weight `i + 384`.
#[derive(Debug, PartialEq, Eq)]
pub struct Features {
    pub features: Vec<(usize, i8)>,
    pub wdl: u8,
    pub phase: u8,
}

/// Material that a piece of kind `t` adds to the phase.
pub open spec fn phase_weight_spec(t: PieceType) -> nat {
    match t {
        PieceType::Pawn => 0,
        PieceType::Knight => 1,
        PieceType::Bishop => 1,
        PieceType::Rook => 2,
        PieceType::Queen => 4,
        PieceType::King => 0,
    }
}

fn phase_weight(t: PieceType) -> (r: u32)
    ensures
        r == phase_weight_spec(t),
{
    match t {
        PieceType::Pawn => 0,
        PieceType::Knight => 1,
        PieceType::Bishop => 1,
        PieceType::Rook => 2,
        PieceType::Queen => 4,
        PieceType::King => 0,
    }
}

/// Phase material of a piece list, before clipping.
pub open spec fn phase_total(ps: Seq<Piece>) -> nat
    decreases ps.len(),
{
    if ps.len() == 0 {
        0
    } else {
        phase_total(ps.drop_last()) + phase_weight_spec(ps.last().ty)
    }
}

/// Phase material clipped to `MAX_PHASE`.
pub open spec fn clipped_phase(ps: Seq<Piece>) -> nat {
    if phase_total(ps) < MAX_PHASE {
        phase_total(ps)
    } else {
        MAX_PHASE as nat
    }
}

/// A position whose pieces are all kings and pawns, two bare kings among them,
/// has phase 0.
pub proof fn lemma_kings_and_pawns_have_no_phase(ps: Seq<Piece>)
    requires
        forall|j: int|
            0 <= j < ps.len() ==> #[trigger] ps[j].ty == PieceType::King || ps[j].ty
                == PieceType::Pawn,
    ensures
        clipped_phase(ps) == 0,
    decreases ps.len(),
{
    if ps.len() > 0 {
        assert(ps.last() == ps[ps.len() - 1]);
        lemma_kings_and_pawns_have_no_phase(ps.drop_last());
    }
}

/// The feature of one piece: own pieces (colour `false`) count `+1` at
/// `square + 64 * kind`, the opponent's count `-1` at the vertically mirrored
/// square, `(square ^ 56) + 64 * kind`.
pub open spec fn feature_of(p: Piece) -> (usize, i8) {
    if !p.color {
        ((p.sq + 64 * p.ty.spec_index()) as usize, 1i8)
    } else {
        (((p.sq ^ 56u8) + 64 * p.ty.spec_index()) as usize, -1i8)
    }
}

fn feature(p: Piece) -> (r: (usize, i8))
    requires
        p.sq < 64,
    ensures
        r == feature_of(p),
        r.0 < HALF_WEIGHTS,
{
    let base = p.ty.index() * 64;
    if !p.color {
        (p.sq as usize + base, 1)
    } else {
        proof {
            let sq = p.sq;
            assert(sq < 64 ==> sq ^ 56u8 < 64) by (bit_vector);
        }
        ((p.sq ^ 56) as usize + base, -1)
    }
}

impl Features {
    /// Projects a record onto its training sample: one feature per piece in square
    /// order, the clipped phase material and the outcome byte. Fails where the
    /// record does not decode.
    pub fn from_packed(board: &PackedBoard) -> (r: Result<Features, DecodeError>)
        ensures
            r is Ok <==> board.is_sound(),
            r matches Ok(f) ==> {
                &&& f.features@ == board.decoded_pieces().map_values(|p: Piece| feature_of(p))
                &&& f.phase == clipped_phase(board.decoded_pieces())
                &&& f.wdl == board.wdl
                &&& f.phase <= MAX_PHASE
                &&& forall|j: int|
                    0 <= j < f.features@.len() ==> #[trigger] f.features@[j].0 < HALF_WEIGHTS
                        && (f.features@[j].1 == 1 || f.features@[j].1 == -1)
            },
            r matches Err(e) ==> board.fails_with(e),
    {
        let pieces = match board.unpack() {
            Ok(unpacked) => unpacked.0,
            Err(e) => {
                return Err(e);
            },
        };
        proof {
            lemma_unpack_covers_occupancy(*board);
        }
        let mut total: u32 = 0;
        let mut features: Vec<(usize, i8)> = Vec::new();
        let mut i: usize = 0;
        while i < pieces.len()
            invariant
                i <= pieces@.len(),
                pieces@ == board.decoded_pieces(),
                pieces@.len() <= 64,
                forall|j: int| 0 <= j < pieces@.len() ==> #[trigger] pieces@[j].sq < 64,
                total == phase_total(pieces@.subrange(0, i as int)),
                total <= 4 * i,
                features@.len() == i,
                forall|j: int| 0 <= j < i ==> #[trigger] features@[j] == feature_of(pieces@[j]),
                forall|j: int| 0 <= j < i ==> #[trigger] features@[j].0 < HALF_WEIGHTS,
            decreases pieces@.len() - i,
        {
            proof {
                assert(pieces@.subrange(0, i + 1).drop_last() =~= pieces@.subrange(0, i as int));
            }
            total = total + phase_weight(pieces[i].ty);
            features.push(feature(pieces[i]));
            i = i + 1;
        }
        proof {
            assert(pieces@.subrange(0, i as int) =~= pieces@);
            assert(features@ =~= board.decoded_pieces().map_values(|p: Piece| feature_of(p)));
        }
        let phase: u8 = if total < MAX_PHASE {
            total as u8
        } else {
            MAX_PHASE as u8
        };
        Ok(Features { features, wdl: board.wdl(), phase })
    }
}

} // verus!
