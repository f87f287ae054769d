use vstd::prelude::*;

verus! {

/// The middle game piece-square table of black piece kind `p`
/// (0 pawn .. 5 king), indexed by square number.
pub open spec fn mg_black(p: nat) -> Seq<i16> {
    if p == 0 {
        seq![0i16, 0i16, 0i16, 0i16, 0i16, 0i16, 0i16, 0i16, 98i16, 134i16, 61i16, 95i16, 68i16, 126i16, 34i16, -11i16, -6i16, 7i16, 26i16, 31i16, 65i16, 56i16, 25i16, -20i16, -14i16, 13i16, 6i16, 21i16, 23i16, 12i16, 17i16, -23i16, -27i16, -2i16, -5i16, 12i16, 17i16, 6i16, 10i16, -25i16, -26i16, -4i16, -4i16, -10i16, 3i16, 3i16, 33i16, -12i16, -35i16, -1i16, -20i16, -23i16, -15i16, 24i16, 38i16, -22i16, 0i16, 0i16, 0i16, 0i16, 0i16, 0i16, 0i16, 0i16]
    } else if p == 1 {
        seq![-29i16, 4i16, -82i16, -37i16, -25i16, -42i16, 7i16, -8i16, -26i16, 16i16, -18i16, -13i16, 30i16, 59i16, 18i16, -47i16, -16i16, 37i16, 43i16, 40i16, 35i16, 50i16, 37i16, -2i16, -4i16, 5i16, 19i16, 50i16, 37i16, 37i16, 7i16, -2i16, -6i16, 13i16, 13i16, 26i16, 34i16, 12i16, 10i16, 4i16, 0i16, 15i16, 15i16, 15i16, 14i16, 27i16, 18i16, 10i16, 4i16, 15i16, 16i16, 0i16, 7i16, 21i16, 33i16, 1i16, -33i16, -3i16, -14i16, -21i16, -13i16, -12i16, -39i16, -21i16]
    } else if p == 2 {
        seq![-167i16, -89i16, -34i16, -49i16, 61i16, -97i16, -15i16, -107i16, -73i16, -41i16, 72i16, 36i16, 23i16, 62i16, 7i16, -17i16, -47i16, 60i16, 37i16, 65i16, 84i16, 129i16, 73i16, 44i16, -9i16, 17i16, 19i16, 53i16, 37i16, 69i16, 18i16, 22i16, -13i16, 4i16, 16i16, 13i16, 28i16, 19i16, 21i16, -8i16, -23i16, -9i16, 12i16, 10i16, 19i16, 17i16, 25i16, -16i16, -29i16, -53i16, -12i16, -3i16, -1i16, 18i16, -14i16, -19i16, -105i16, -21i16, -58i16, -33i16, -17i16, -28i16, -19i16, -23i16]
    } else if p == 3 {
        seq![32i16, 42i16, 32i16, 51i16, 63i16, 9i16, 31i16, 43i16, 27i16, 32i16, 58i16, 62i16, 80i16, 67i16, 26i16, 44i16, -5i16, 19i16, 26i16, 36i16, 17i16, 45i16, 61i16, 16i16, -24i16, -11i16, 7i16, 26i16, 24i16, 35i16, -8i16, -20i16, -36i16, -26i16, -12i16, -1i16, 9i16, -7i16, 6i16, -23i16, -45i16, -25i16, -16i16, -17i16, 3i16, 0i16, -5i16, -33i16, -44i16, -16i16, -20i16, -9i16, -1i16, 11i16, -6i16, -71i16, -19i16, -13i16, 1i16, 17i16, 16i16, 7i16, -37i16, -26i16]
    } else if p == 4 {
        seq![-28i16, 0i16, 29i16, 12i16, 59i16, 44i16, 43i16, 45i16, -24i16, -39i16, -5i16, 1i16, -16i16, 57i16, 28i16, 54i16, -13i16, -17i16, 7i16, 8i16, 29i16, 56i16, 47i16, 57i16, -27i16, -27i16, -16i16, -16i16, -1i16, 17i16, -2i16, 1i16, -9i16, -26i16, -9i16, -10i16, -2i16, -4i16, 3i16, -3i16, -14i16, 2i16, -11i16, -2i16, -5i16, 2i16, 14i16, 5i16, -35i16, -8i16, 11i16, 2i16, 8i16, 15i16, -3i16, 1i16, -1i16, -18i16, -9i16, 10i16, -15i16, -25i16, -31i16, -50i16]
    } else {
        seq![-65i16, 23i16, 16i16, -15i16, -56i16, -34i16, 2i16, 13i16, 29i16, -1i16, -20i16, -7i16, -8i16, -4i16, -38i16, -29i16, -9i16, 24i16, 2i16, -16i16, -20i16, 6i16, 22i16, -22i16, -17i16, -20i16, -12i16, -27i16, -30i16, -25i16, -14i16, -36i16, -49i16, -1i16, -27i16, -39i16, -46i16, -44i16, -33i16, -51i16, -14i16, -14i16, -22i16, -46i16, -44i16, -30i16, -15i16, -27i16, 1i16, 7i16, -8i16, -64i16, -43i16, -16i16, 9i16, 8i16, -15i16, 36i16, 12i16, -54i16, 8i16, -28i16, 24i16, 14i16]
    }
}

pub fn mg_black_row(p: usize) -> (r: [i16; 64])
    requires
        p < 6,
    ensures
        r@ == mg_black(p as nat),
{
    if p == 0 {
        let r = [0i16, 0i16, 0i16, 0i16, 0i16, 0i16, 0i16, 0i16, 98i16, 134i16, 61i16, 95i16, 68i16, 126i16, 34i16, -11i16, -6i16, 7i16, 26i16, 31i16, 65i16, 56i16, 25i16, -20i16, -14i16, 13i16, 6i16, 21i16, 23i16, 12i16, 17i16, -23i16, -27i16, -2i16, -5i16, 12i16, 17i16, 6i16, 10i16, -25i16, -26i16, -4i16, -4i16, -10i16, 3i16, 3i16, 33i16, -12i16, -35i16, -1i16, -20i16, -23i16, -15i16, 24i16, 38i16, -22i16, 0i16, 0i16, 0i16, 0i16, 0i16, 0i16, 0i16, 0i16];
        assert(r@ =~= mg_black(p as nat));
        r
    } else if p == 1 {
        let r = [-29i16, 4i16, -82i16, -37i16, -25i16, -42i16, 7i16, -8i16, -26i16, 16i16, -18i16, -13i16, 30i16, 59i16, 18i16, -47i16, -16i16, 37i16, 43i16, 40i16, 35i16, 50i16, 37i16, -2i16, -4i16, 5i16, 19i16, 50i16, 37i16, 37i16, 7i16, -2i16, -6i16, 13i16, 13i16, 26i16, 34i16, 12i16, 10i16, 4i16, 0i16, 15i16, 15i16, 15i16, 14i16, 27i16, 18i16, 10i16, 4i16, 15i16, 16i16, 0i16, 7i16, 21i16, 33i16, 1i16, -33i16, -3i16, -14i16, -21i16, -13i16, -12i16, -39i16, -21i16];
        assert(r@ =~= mg_black(p as nat));
        r
    } else if p == 2 {
        let r = [-167i16, -89i16, -34i16, -49i16, 61i16, -97i16, -15i16, -107i16, -73i16, -41i16, 72i16, 36i16, 23i16, 62i16, 7i16, -17i16, -47i16, 60i16, 37i16, 65i16, 84i16, 129i16, 73i16, 44i16, -9i16, 17i16, 19i16, 53i16, 37i16, 69i16, 18i16, 22i16, -13i16, 4i16, 16i16, 13i16, 28i16, 19i16, 21i16, -8i16, -23i16, -9i16, 12i16, 10i16, 19i16, 17i16, 25i16, -16i16, -29i16, -53i16, -12i16, -3i16, -1i16, 18i16, -14i16, -19i16, -105i16, -21i16, -58i16, -33i16, -17i16, -28i16, -19i16, -23i16];
        assert(r@ =~= mg_black(p as nat));
        r
    } else if p == 3 {
        let r = [32i16, 42i16, 32i16, 51i16, 63i16, 9i16, 31i16, 43i16, 27i16, 32i16, 58i16, 62i16, 80i16, 67i16, 26i16, 44i16, -5i16, 19i16, 26i16, 36i16, 17i16, 45i16, 61i16, 16i16, -24i16, -11i16, 7i16, 26i16, 24i16, 35i16, -8i16, -20i16, -36i16, -26i16, -12i16, -1i16, 9i16, -7i16, 6i16, -23i16, -45i16, -25i16, -16i16, -17i16, 3i16, 0i16, -5i16, -33i16, -44i16, -16i16, -20i16, -9i16, -1i16, 11i16, -6i16, -71i16, -19i16, -13i16, 1i16, 17i16, 16i16, 7i16, -37i16, -26i16];
        assert(r@ =~= mg_black(p as nat));
        r
    } else if p == 4 {
        let r = [-28i16, 0i16, 29i16, 12i16, 59i16, 44i16, 43i16, 45i16, -24i16, -39i16, -5i16, 1i16, -16i16, 57i16, 28i16, 54i16, -13i16, -17i16, 7i16, 8i16, 29i16, 56i16, 47i16, 57i16, -27i16, -27i16, -16i16, -16i16, -1i16, 17i16, -2i16, 1i16, -9i16, -26i16, -9i16, -10i16, -2i16, -4i16, 3i16, -3i16, -14i16, 2i16, -11i16, -2i16, -5i16, 2i16, 14i16, 5i16, -35i16, -8i16, 11i16, 2i16, 8i16, 15i16, -3i16, 1i16, -1i16, -18i16, -9i16, 10i16, -15i16, -25i16, -31i16, -50i16];
        assert(r@ =~= mg_black(p as nat));
        r
    } else {
        let r = [-65i16, 23i16, 16i16, -15i16, -56i16, -34i16, 2i16, 13i16, 29i16, -1i16, -20i16, -7i16, -8i16, -4i16, -38i16, -29i16, -9i16, 24i16, 2i16, -16i16, -20i16, 6i16, 22i16, -22i16, -17i16, -20i16, -12i16, -27i16, -30i16, -25i16, -14i16, -36i16, -49i16, -1i16, -27i16, -39i16, -46i16, -44i16, -33i16, -51i16, -14i16, -14i16, -22i16, -46i16, -44i16, -30i16, -15i16, -27i16, 1i16, 7i16, -8i16, -64i16, -43i16, -16i16, 9i16, 8i16, -15i16, 36i16, 12i16, -54i16, 8i16, -28i16, 24i16, 14i16];
        assert(r@ =~= mg_black(p as nat));
        r
    }
}

/// The end game piece-square table of black piece kind `p`
/// (0 pawn .. 5 king), indexed by square number.
pub open spec fn eg_black(p: nat) -> Seq<i16> {
    if p == 0 {
        seq![0i16, 0i16, 0i16, 0i16, 0i16, 0i16, 0i16, 0i16, 178i16, 173i16, 158i16, 134i16, 147i16, 132i16, 165i16, 187i16, 94i16, 100i16, 85i16, 67i16, 56i16, 53i16, 82i16, 84i16, 32i16, 24i16, 13i16, 5i16, -2i16, 4i16, 17i16, 17i16, 13i16, 9i16, -3i16, -7i16, -7i16, -8i16, 3i16, -1i16, 4i16, 7i16, -6i16, 1i16, 0i16, -5i16, -1i16, -8i16, 13i16, 8i16, 8i16, 10i16, 13i16, 0i16, 2i16, -7i16, 0i16, 0i16, 0i16, 0i16, 0i16, 0i16, 0i16, 0i16]
    } else if p == 1 {
        seq![-14i16, -21i16, -11i16, -8i16, -7i16, -9i16, -17i16, -24i16, -8i16, -4i16, 7i16, -12i16, -3i16, -13i16, -4i16, -14i16, 2i16, -8i16, 0i16, -1i16, -2i16, 6i16, 0i16, 4i16, -3i16, 9i16, 12i16, 9i16, 14i16, 10i16, 3i16, 2i16, -6i16, 3i16, 13i16, 19i16, 7i16, 10i16, -3i16, -9i16, -12i16, -3i16, 8i16, 10i16, 13i16, 3i16, -7i16, -15i16, -14i16, -18i16, -7i16, -1i16, 4i16, -9i16, -15i16, -27i16, -23i16, -9i16, -23i16, -5i16, -9i16, -16i16, -5i16, -17i16]
    } else if p == 2 {
        seq![-58i16, -38i16, -13i16, -28i16, -31i16, -27i16, -63i16, -99i16, -25i16, -8i16, -25i16, -2i16, -9i16, -25i16, -24i16, -52i16, -24i16, -20i16, 10i16, 9i16, -1i16, -9i16, -19i16, -41i16, -17i16, 3i16, 22i16, 22i16, 22i16, 11i16, 8i16, -18i16, -18i16, -6i16, 16i16, 25i16, 16i16, 17i16, 4i16, -18i16, -23i16, -3i16, -1i16, 15i16, 10i16, -3i16, -20i16, -22i16, -42i16, -20i16, -10i16, -5i16, -2i16, -20i16, -23i16, -44i16, -29i16, -51i16, -23i16, -15i16, -22i16, -18i16, -50i16, -64i16]
    } else if p == 3 {
        seq![13i16, 10i16, 18i16, 15i16, 12i16, 12i16, 8i16, 5i16, 11i16, 13i16, 13i16, 11i16, -3i16, 3i16, 8i16, 3i16, 7i16, 7i16, 7i16, 5i16, 4i16, -3i16, -5i16, -3i16, 4i16, 3i16, 13i16, 1i16, 2i16, 1i16, -1i16, 2i16, 3i16, 5i16, 8i16, 4i16, -5i16, -6i16, -8i16, -11i16, -4i16, 0i16, -5i16, -1i16, -7i16, -12i16, -8i16, -16i16, -6i16, -6i16, 0i16, 2i16, -9i16, -9i16, -11i16, -3i16, -9i16, 2i16, 3i16, -1i16, -5i16, -13i16, 4i16, -20i16]
    } else if p == 4 {
        seq![-9i16, 22i16, 22i16, 27i16, 27i16, 19i16, 10i16, 20i16, -17i16, 20i16, 32i16, 41i16, 58i16, 25i16, 30i16, 0i16, -20i16, 6i16, 9i16, 49i16, 47i16, 35i16, 19i16, 9i16, 3i16, 22i16, 24i16, 45i16, 57i16, 40i16, 57i16, 36i16, -18i16, 28i16, 19i16, 47i16, 31i16, 34i16, 39i16, 23i16, -16i16, -27i16, 15i16, 6i16, 9i16, 17i16, 10i16, 5i16, -22i16, -23i16, -30i16, -16i16, -16i16, -23i16, -36i16, -32i16, -33i16, -28i16, -22i16, -43i16, -5i16, -32i16, -20i16, -41i16]
    } else {
        seq![-74i16, -35i16, -18i16, -18i16, -11i16, 15i16, 4i16, -17i16, -12i16, 17i16, 14i16, 17i16, 17i16, 38i16, 23i16, 11i16, 10i16, 17i16, 23i16, 15i16, 20i16, 45i16, 44i16, 13i16, -8i16, 22i16, 24i16, 27i16, 26i16, 33i16, 26i16, 3i16, -18i16, -4i16, 21i16, 24i16, 27i16, 23i16, 9i16, -11i16, -19i16, -3i16, 11i16, 21i16, 23i16, 16i16, 7i16, -9i16, -27i16, -11i16, 4i16, 13i16, 14i16, 4i16, -5i16, -17i16, -53i16, -34i16, -21i16, -11i16, -28i16, -14i16, -24i16, -43i16]
    }
}

pub fn eg_black_row(p: usize) -> (r: [i16; 64])
    requires
        p < 6,
    ensures
        r@ == eg_black(p as nat),
{
    if p == 0 {
        let r = [0i16, 0i16, 0i16, 0i16, 0i16, 0i16, 0i16, 0i16, 178i16, 173i16, 158i16, 134i16, 147i16, 132i16, 165i16, 187i16, 94i16, 100i16, 85i16, 67i16, 56i16, 53i16, 82i16, 84i16, 32i16, 24i16, 13i16, 5i16, -2i16, 4i16, 17i16, 17i16, 13i16, 9i16, -3i16, -7i16, -7i16, -8i16, 3i16, -1i16, 4i16, 7i16, -6i16, 1i16, 0i16, -5i16, -1i16, -8i16, 13i16, 8i16, 8i16, 10i16, 13i16, 0i16, 2i16, -7i16, 0i16, 0i16, 0i16, 0i16, 0i16, 0i16, 0i16, 0i16];
        assert(r@ =~= eg_black(p as nat));
        r
    } else if p == 1 {
        let r = [-14i16, -21i16, -11i16, -8i16, -7i16, -9i16, -17i16, -24i16, -8i16, -4i16, 7i16, -12i16, -3i16, -13i16, -4i16, -14i16, 2i16, -8i16, 0i16, -1i16, -2i16, 6i16, 0i16, 4i16, -3i16, 9i16, 12i16, 9i16, 14i16, 10i16, 3i16, 2i16, -6i16, 3i16, 13i16, 19i16, 7i16, 10i16, -3i16, -9i16, -12i16, -3i16, 8i16, 10i16, 13i16, 3i16, -7i16, -15i16, -14i16, -18i16, -7i16, -1i16, 4i16, -9i16, -15i16, -27i16, -23i16, -9i16, -23i16, -5i16, -9i16, -16i16, -5i16, -17i16];
        assert(r@ =~= eg_black(p as nat));
        r
    } else if p == 2 {
        let r = [-58i16, -38i16, -13i16, -28i16, -31i16, -27i16, -63i16, -99i16, -25i16, -8i16, -25i16, -2i16, -9i16, -25i16, -24i16, -52i16, -24i16, -20i16, 10i16, 9i16, -1i16, -9i16, -19i16, -41i16, -17i16, 3i16, 22i16, 22i16, 22i16, 11i16, 8i16, -18i16, -18i16, -6i16, 16i16, 25i16, 16i16, 17i16, 4i16, -18i16, -23i16, -3i16, -1i16, 15i16, 10i16, -3i16, -20i16, -22i16, -42i16, -20i16, -10i16, -5i16, -2i16, -20i16, -23i16, -44i16, -29i16, -51i16, -23i16, -15i16, -22i16, -18i16, -50i16, -64i16];
        assert(r@ =~= eg_black(p as nat));
        r
    } else if p == 3 {
        let r = [13i16, 10i16, 18i16, 15i16, 12i16, 12i16, 8i16, 5i16, 11i16, 13i16, 13i16, 11i16, -3i16, 3i16, 8i16, 3i16, 7i16, 7i16, 7i16, 5i16, 4i16, -3i16, -5i16, -3i16, 4i16, 3i16, 13i16, 1i16, 2i16, 1i16, -1i16, 2i16, 3i16, 5i16, 8i16, 4i16, -5i16, -6i16, -8i16, -11i16, -4i16, 0i16, -5i16, -1i16, -7i16, -12i16, -8i16, -16i16, -6i16, -6i16, 0i16, 2i16, -9i16, -9i16, -11i16, -3i16, -9i16, 2i16, 3i16, -1i16, -5i16, -13i16, 4i16, -20i16];
        assert(r@ =~= eg_black(p as nat));
        r
    } else if p == 4 {
        let r = [-9i16, 22i16, 22i16, 27i16, 27i16, 19i16, 10i16, 20i16, -17i16, 20i16, 32i16, 41i16, 58i16, 25i16, 30i16, 0i16, -20i16, 6i16, 9i16, 49i16, 47i16, 35i16, 19i16, 9i16, 3i16, 22i16, 24i16, 45i16, 57i16, 40i16, 57i16, 36i16, -18i16, 28i16, 19i16, 47i16, 31i16, 34i16, 39i16, 23i16, -16i16, -27i16, 15i16, 6i16, 9i16, 17i16, 10i16, 5i16, -22i16, -23i16, -30i16, -16i16, -16i16, -23i16, -36i16, -32i16, -33i16, -28i16, -22i16, -43i16, -5i16, -32i16, -20i16, -41i16];
        assert(r@ =~= eg_black(p as nat));
        r
    } else {
        let r = [-74i16, -35i16, -18i16, -18i16, -11i16, 15i16, 4i16, -17i16, -12i16, 17i16, 14i16, 17i16, 17i16, 38i16, 23i16, 11i16, 10i16, 17i16, 23i16, 15i16, 20i16, 45i16, 44i16, 13i16, -8i16, 22i16, 24i16, 27i16, 26i16, 33i16, 26i16, 3i16, -18i16, -4i16, 21i16, 24i16, 27i16, 23i16, 9i16, -11i16, -19i16, -3i16, 11i16, 21i16, 23i16, 16i16, 7i16, -9i16, -27i16, -11i16, 4i16, 13i16, 14i16, 4i16, -5i16, -17i16, -53i16, -34i16, -21i16, -11i16, -28i16, -14i16, -24i16, -43i16];
        assert(r@ =~= eg_black(p as nat));
        r
    }
}

} // verus!
