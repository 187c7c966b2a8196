//! The sRGB primaries, to every published digit.
//!
//! The two matrices that take linear sRGB to CIE XYZ and back are kept as
//! exact decimals: every entry is a whole number of units of `1 / SCALE`.
//! They were specified independently of one another, so neither is exactly
//! the inverse of the other; how close they come is proved below.
use vstd::prelude::*;

verus! {

/// The entries of the primaries are counted in units of `1 / SCALE`.
pub const SCALE: i64 = 1_000_000_000_000_000_000;

/// Linear sRGB to XYZ, row by row, in units of `1 / SCALE`.
pub open spec fn lrgb2xyz() -> Seq<Seq<int>> {
    seq![
        seq![412386563252991700, 357591490920625370, 180450491203563680],
        seq![212636821677323840, 715182981841250700, 72180196481425470],
        seq![19330620152483987, 119197163640208450, 950372587005435400],
    ]
}

/// XYZ to linear sRGB, row by row, in units of `1 / SCALE`.
pub open spec fn xyz2lrgb() -> Seq<Seq<int>> {
    seq![
        seq![3241003232976358700, -1537398969488785500, -498615881996362900],
        seq![-969224252202516600, 1875929983695176000, 41554226340084724],
        seq![55639419851975444, -204011206123909970, 1057148977187533500],
    ]
}

/// `m` holds the rows of `table` entry by entry.
pub open spec fn holds(m: [[i64; 3]; 3], table: Seq<Seq<int>>) -> bool {
    forall|i: int, j: int| 0 <= i < 3 && 0 <= j < 3 ==> (#[trigger] m[i][j]) as int == table[i][j]
}

/// A conversion matrix from linear sRGB color space into an XYZ space.
pub fn get_lrgb2xyz() -> (m: [[i64; 3]; 3])
    ensures
        holds(m, lrgb2xyz()),
{
    [
        [412386563252991700, 357591490920625370, 180450491203563680],
        [212636821677323840, 715182981841250700, 72180196481425470],
        [19330620152483987, 119197163640208450, 950372587005435400],
    ]
}

/// A conversion matrix from XYZ color space to a linear sRGB space.
pub fn get_xyz2lrgb() -> (m: [[i64; 3]; 3])
    ensures
        holds(m, xyz2lrgb()),
{
    [
        [3241003232976358700, -1537398969488785500, -498615881996362900],
        [-969224252202516600, 1875929983695176000, 41554226340084724],
        [55639419851975444, -204011206123909970, 1057148977187533500],
    ]
}

/// The matrix `m` applied to the column `c`.
pub open spec fn times(m: Seq<Seq<int>>, c: (int, int, int)) -> (int, int, int) {
    (
        m[0][0] * c.0 + m[0][1] * c.1 + m[0][2] * c.2,
        m[1][0] * c.0 + m[1][1] * c.1 + m[1][2] * c.2,
        m[2][0] * c.0 + m[2][1] * c.1 + m[2][2] * c.2,
    )
}

/// The magnitude of `x`.
pub open spec fn magnitude(x: int) -> int {
    if x < 0 {
        -x
    } else {
        x
    }
}

/// The matrix product `m * n`.
pub open spec fn product(m: Seq<Seq<int>>, n: Seq<Seq<int>>) -> Seq<Seq<int>> {
    Seq::new(
        3,
        |i: int|
            Seq::new(3, |j: int| m[i][0] * n[0][j] + m[i][1] * n[1][j] + m[i][2] * n[2][j]),
    )
}

/// What two applications may lose, in units of `1 / (SCALE * SCALE)` per unit
/// of colour: two parts in ten to the sixteenth.
pub open spec fn slack() -> int {
    200_000_000_000_000_000_000
}

/// By how much the entry in row `i` and column `j` of `p` exceeds the same
/// entry of the identity, both in units of `1 / (SCALE * SCALE)`.
pub open spec fn excess(p: Seq<Seq<int>>, i: int, j: int) -> int {
    if i == j {
        p[i][j] - SCALE * SCALE
    } else {
        p[i][j]
    }
}

/// No entry of `p` is further than `slack()` from that of the identity.
pub open spec fn near_identity(p: Seq<Seq<int>>) -> bool {
    forall|i: int, j: int|
        0 <= i < 3 && 0 <= j < 3 ==> magnitude(#[trigger] excess(p, i, j)) <= slack()
}

/// `back` is `c` scaled by `SCALE * SCALE`, up to `slack()` for every unit
/// of magnitude that the components of `c` have between them.
pub open spec fn returns_to(back: (int, int, int), c: (int, int, int)) -> bool {
    let bound = slack() * (magnitude(c.0) + magnitude(c.1) + magnitude(c.2));
    &&& magnitude(back.0 - SCALE * SCALE * c.0) <= bound
    &&& magnitude(back.1 - SCALE * SCALE * c.1) <= bound
    &&& magnitude(back.2 - SCALE * SCALE * c.2) <= bound
}

/// Each matrix of the primaries is the inverse of the other to within two
/// parts in ten to the sixteenth, entry by entry and in either order.
pub proof fn lemma_primaries_near_inverse()
    ensures
        near_identity(product(xyz2lrgb(), lrgb2xyz())),
        near_identity(product(lrgb2xyz(), xyz2lrgb())),
{
    let a = lrgb2xyz();
    let b = xyz2lrgb();
    let ba = product(b, a);
    let ab = product(a, b);
    assert forall|i: int, j: int| 0 <= i < 3 && 0 <= j < 3 implies magnitude(
        #[trigger] excess(ba, i, j),
    ) <= slack() by {
        lemma_entry(b, a, i, j);
    }
    assert forall|i: int, j: int| 0 <= i < 3 && 0 <= j < 3 implies magnitude(
        #[trigger] excess(ab, i, j),
    ) <= slack() by {
        lemma_entry(a, b, i, j);
    }
}

proof fn lemma_entry(m: Seq<Seq<int>>, n: Seq<Seq<int>>, i: int, j: int)
    requires
        0 <= i < 3,
        0 <= j < 3,
    ensures
        product(m, n)[i][j] == m[i][0] * n[0][j] + m[i][1] * n[1][j] + m[i][2] * n[2][j],
{
}

/// The primaries undo one another on every colour: taking `c` to XYZ and
/// back, or from XYZ to linear sRGB and back, returns it to within two parts
/// in ten to the sixteenth of the magnitudes of its components.
pub proof fn lemma_primaries_round_trip(c: (int, int, int))
    ensures
        returns_to(times(xyz2lrgb(), times(lrgb2xyz(), c)), c),
        returns_to(times(lrgb2xyz(), times(xyz2lrgb(), c)), c),
{
    lemma_primaries_near_inverse();
    lemma_times_product(xyz2lrgb(), lrgb2xyz(), c);
    lemma_near_identity_returns(product(xyz2lrgb(), lrgb2xyz()), c);
    lemma_times_product(lrgb2xyz(), xyz2lrgb(), c);
    lemma_near_identity_returns(product(lrgb2xyz(), xyz2lrgb()), c);
}

/// Applying `n` and then `m` is applying `m * n`.
pub proof fn lemma_times_product(m: Seq<Seq<int>>, n: Seq<Seq<int>>, c: (int, int, int))
    ensures
        times(m, times(n, c)) == times(product(m, n), c),
{
    let p = product(m, n);
    assert forall|i: int, j: int| 0 <= i < 3 && 0 <= j < 3 implies #[trigger] p[i][j] == m[i][0]
        * n[0][j] + m[i][1] * n[1][j] + m[i][2] * n[2][j] by {
        lemma_entry(m, n, i, j);
    }
    lemma_row_distributes(m[0], n, c);
    lemma_row_distributes(m[1], n, c);
    lemma_row_distributes(m[2], n, c);
}

/// A matrix near the identity returns every colour to within the slack.
pub proof fn lemma_near_identity_returns(p: Seq<Seq<int>>, c: (int, int, int))
    requires
        near_identity(p),
    ensures
        returns_to(times(p, c), c),
{
    lemma_row_returns(p, 0, c, c.0);
    lemma_row_returns(p, 1, c, c.1);
    lemma_row_returns(p, 2, c, c.2);
}

proof fn lemma_row_distributes(row: Seq<int>, n: Seq<Seq<int>>, c: (int, int, int))
    ensures
        row[0] * times(n, c).0 + row[1] * times(n, c).1 + row[2] * times(n, c).2 == (row[0]
            * n[0][0] + row[1] * n[1][0] + row[2] * n[2][0]) * c.0 + (row[0] * n[0][1] + row[1]
            * n[1][1] + row[2] * n[2][1]) * c.1 + (row[0] * n[0][2] + row[1] * n[1][2] + row[2]
            * n[2][2]) * c.2,
{
    let (r0, r1, r2) = (row[0], row[1], row[2]);
    let (x, y, z) = (c.0, c.1, c.2);
    lemma_scale_sum(r0, n[0][0], n[0][1], n[0][2], x, y, z);
    lemma_scale_sum(r1, n[1][0], n[1][1], n[1][2], x, y, z);
    lemma_scale_sum(r2, n[2][0], n[2][1], n[2][2], x, y, z);
    lemma_collect(r0 * n[0][0], r1 * n[1][0], r2 * n[2][0], x);
    lemma_collect(r0 * n[0][1], r1 * n[1][1], r2 * n[2][1], y);
    lemma_collect(r0 * n[0][2], r1 * n[1][2], r2 * n[2][2], z);
}

proof fn lemma_scale_sum(r: int, a: int, b: int, c: int, x: int, y: int, z: int)
    ensures
        r * (a * x + b * y + c * z) == (r * a) * x + (r * b) * y + (r * c) * z,
{
    assert(r * (a * x + b * y + c * z) == r * (a * x) + r * (b * y) + r * (c * z))
        by (nonlinear_arith);
    assert(r * (a * x) == (r * a) * x) by (nonlinear_arith);
    assert(r * (b * y) == (r * b) * y) by (nonlinear_arith);
    assert(r * (c * z) == (r * c) * z) by (nonlinear_arith);
}

proof fn lemma_collect(a: int, b: int, c: int, x: int)
    ensures
        a * x + b * x + c * x == (a + b + c) * x,
{
    assert(a * x + b * x + c * x == (a + b + c) * x) by (nonlinear_arith);
}

proof fn lemma_row_returns(p: Seq<Seq<int>>, i: int, c: (int, int, int), ci: int)
    requires
        near_identity(p),
        0 <= i < 3,
        ci == if i == 0 {
            c.0
        } else if i == 1 {
            c.1
        } else {
            c.2
        },
    ensures
        magnitude(p[i][0] * c.0 + p[i][1] * c.1 + p[i][2] * c.2 - SCALE * SCALE * ci) <= slack() * (
        magnitude(c.0) + magnitude(c.1) + magnitude(c.2)),
{
    let (e0, e1, e2) = (excess(p, i, 0), excess(p, i, 1), excess(p, i, 2));
    lemma_term_bound(e0, c.0);
    lemma_term_bound(e1, c.1);
    lemma_term_bound(e2, c.2);
    let unit = SCALE * SCALE;
    assert(p[i][0] * c.0 + p[i][1] * c.1 + p[i][2] * c.2 - unit * ci == e0 * c.0 + e1 * c.1 + e2
        * c.2) by (nonlinear_arith)
        requires
            i == 0 ==> p[i][0] == e0 + unit && p[i][1] == e1 && p[i][2] == e2 && ci == c.0,
            i == 1 ==> p[i][0] == e0 && p[i][1] == e1 + unit && p[i][2] == e2 && ci == c.1,
            i == 2 ==> p[i][0] == e0 && p[i][1] == e1 && p[i][2] == e2 + unit && ci == c.2,
            0 <= i < 3,
    ;
    assert(slack() * (magnitude(c.0) + magnitude(c.1) + magnitude(c.2)) == slack() * magnitude(c.0)
        + slack() * magnitude(c.1) + slack() * magnitude(c.2)) by (nonlinear_arith);
}

proof fn lemma_term_bound(e: int, x: int)
    requires
        magnitude(e) <= slack(),
    ensures
        magnitude(e * x) <= slack() * magnitude(x),
{
    let s = slack();
    assert(magnitude(e * x) <= s * magnitude(x)) by (nonlinear_arith)
        requires
            -s <= e <= s,
            magnitude(x) == if x < 0 {
                -x
            } else {
                x
            },
            magnitude(e * x) == if e * x < 0 {
                -(e * x)
            } else {
                e * x
            },
    ;
}

} // verus!
