use vstd::prelude::*;

use crate::SIZE;

verus! {

/// The side of the image, in image pixels: each detector pixel is a `scale` by `scale` square.
pub open spec fn side(scale: nat) -> nat {
    SIZE as nat * scale
}

/// The image pixel that the square drawn for detector pixel `(x, y)` covers at offset
/// `(dx, dy)`, if it lies inside the image. The image is the detector turned a quarter turn
/// counter-clockwise: image row `(SIZE - 1 - y) * scale + dy`, image column `x * scale + dx`,
/// rows stored one after the other.
pub open spec fn pixel_of(x: usize, y: usize, scale: nat, dx: int, dy: int) -> Option<int> {
    let px = (SIZE - 1 - y) * scale + dy;
    let py = x * scale + dx;
    if px < side(scale) && py < side(scale) {
        Some(px * side(scale) + py)
    } else {
        None
    }
}

/// Image pixel `i` is covered by the square of detector pixel `(x, y)`, at an offset
/// lexicographically below `(dx_end, dy_end)`.
pub open spec fn covered_before(x: usize, y: usize, scale: nat, dx_end: int, dy_end: int, i: int) -> bool {
    exists|dx: int, dy: int|
        0 <= dx < scale && 0 <= dy < scale && (dx < dx_end || (dx == dx_end && dy < dy_end))
            && #[trigger] pixel_of(x, y, scale, dx, dy) == Some(i)
}

/// Image pixel `i` is covered by the square of detector pixel `(x, y)`.
pub open spec fn covered(x: usize, y: usize, scale: nat, i: int) -> bool {
    covered_before(x, y, scale, scale as int, 0, i)
}

pub open spec fn cell(tracks: Seq<Vec<(usize, usize)>>, a: int, b: int) -> (usize, usize) {
    tracks[a]@[b]
}

/// Image pixel `i` is covered by a pixel of a track, among the pixels before pixel `k` of
/// track `t` (tracks in order, pixels of a track in order).
pub open spec fn painted_before(tracks: Seq<Vec<(usize, usize)>>, scale: nat, t: int, k: int, i: int) -> bool {
    exists|a: int, b: int|
        0 <= a < tracks.len() && 0 <= b < tracks[a]@.len() && (a < t || (a == t && b < k)) && covered(
            #[trigger] cell(tracks, a, b).0,
            cell(tracks, a, b).1,
            scale,
            i,
        )
}

/// Image pixel `i` is covered by a pixel of some track.
pub open spec fn painted(tracks: Seq<Vec<(usize, usize)>>, scale: nat, i: int) -> bool {
    painted_before(tracks, scale, tracks.len() as int, 0, i)
}

/// The tracks can be drawn: the image's size fits in memory's counting, no pixel lies
/// beyond the detector's last row, and each pixel's squares can be located.
pub open spec fn paintable(tracks: Seq<Vec<(usize, usize)>>, scale: nat) -> bool {
    &&& side(scale) * side(scale) <= usize::MAX
    &&& forall|a: int, b: int|
        0 <= a < tracks.len() && 0 <= b < tracks[a]@.len() ==> (#[trigger] cell(tracks, a, b)).1 < SIZE
            && (cell(tracks, a, b).0 + 1) * scale <= usize::MAX
}

proof fn lemma_index_in_image(px: int, py: int, s: int)
    requires
        0 <= px < s,
        0 <= py < s,
    ensures
        0 <= px * s + py < s * s,
{
    assert(0 <= px * s + py < s * s) by (nonlinear_arith)
        requires
            0 <= px < s,
            0 <= py < s,
    ;
}

/// Marks the image pixels that the square of detector pixel `(x, y)` covers.
fn paint_cell(mask: &mut Vec<bool>, x: usize, y: usize, scale: usize)
    requires
        old(mask).len() == side(scale as nat) * side(scale as nat),
        side(scale as nat) * side(scale as nat) <= usize::MAX,
        y < SIZE,
        (x + 1) * scale <= usize::MAX,
    ensures
        final(mask).len() == old(mask).len(),
        forall|i: int|
            0 <= i < final(mask).len() ==> #[trigger] final(mask)@[i] == (old(mask)@[i] || covered(x, y, scale as nat, i)),
{
    let ghost s = scale as nat;
    proof {
        let sd = side(s) as int;
        assert(sd <= usize::MAX) by (nonlinear_arith)
            requires
                sd * sd <= usize::MAX,
                sd >= 0,
        {
            if sd > 0 {
                assert(sd <= sd * sd);
            }
        }
    }
    let img = SIZE * scale;
    assert(img == side(s));
    let ghost start = mask@;
    let mut dx: usize = 0;
    while dx < scale
        invariant
            dx <= scale,
            s == scale,
            img == side(s),
            img * img <= usize::MAX,
            y < SIZE,
            (x + 1) * scale <= usize::MAX,
            mask.len() == start.len(),
            start.len() == img * img,
            forall|i: int|
                0 <= i < mask.len() ==> #[trigger] mask@[i] == (start[i] || covered_before(x, y, s, dx as int, 0, i)),
        decreases scale - dx,
    {
        let mut dy: usize = 0;
        while dy < scale
            invariant
                dx < scale,
                dy <= scale,
                s == scale,
                img == side(s),
                img * img <= usize::MAX,
                y < SIZE,
                (x + 1) * scale <= usize::MAX,
                mask.len() == start.len(),
                start.len() == img * img,
                forall|i: int|
                    0 <= i < mask.len() ==> #[trigger] mask@[i] == (start[i] || covered_before(
                        x,
                        y,
                        s,
                        dx as int,
                        dy as int,
                        i,
                    )),
            decreases scale - dy,
        {
            assert((SIZE - 1 - y) * scale + dy < img) by (nonlinear_arith)
                requires
                    y < SIZE,
                    dy < scale,
                    img == SIZE * scale,
            ;
            assert(x * scale + dx <= (x + 1) * scale) by (nonlinear_arith)
                requires
                    dx < scale,
            ;
            let px = (SIZE - 1 - y) * scale + dy;
            let py = x * scale + dx;
            let ghost before = mask@;
            if px < img && py < img {
                proof {
                    lemma_index_in_image(px as int, py as int, img as int);
                }
                let j = px * img + py;
                mask.set(j, true);
                assert(pixel_of(x, y, s, dx as int, dy as int) == Some(j as int));
                assert forall|i: int| 0 <= i < mask.len() implies #[trigger] mask@[i] == (start[i] || covered_before(
                    x,
                    y,
                    s,
                    dx as int,
                    dy + 1,
                    i,
                )) by {
                    if i == j {
                        assert(covered_before(x, y, s, dx as int, dy + 1, i));
                    } else {
                        if covered_before(x, y, s, dx as int, dy + 1, i) {
                            let (a, b) = choose|a: int, b: int|
                                0 <= a < s && 0 <= b < s && (a < dx || (a == dx && b < dy + 1))
                                    && #[trigger] pixel_of(x, y, s, a, b) == Some(i);
                            assert(covered_before(x, y, s, dx as int, dy as int, i));
                        }
                        assert(before[i] == mask@[i]);
                    }
                }
            } else {
                assert(pixel_of(x, y, s, dx as int, dy as int) is None);
                assert forall|i: int| 0 <= i < mask.len() implies #[trigger] mask@[i] == (start[i] || covered_before(
                    x,
                    y,
                    s,
                    dx as int,
                    dy + 1,
                    i,
                )) by {
                    if covered_before(x, y, s, dx as int, dy + 1, i) {
                        let (a, b) = choose|a: int, b: int|
                            0 <= a < s && 0 <= b < s && (a < dx || (a == dx && b < dy + 1))
                                && #[trigger] pixel_of(x, y, s, a, b) == Some(i);
                        assert(covered_before(x, y, s, dx as int, dy as int, i));
                    }
                }
            }
            dy = dy + 1;
        }
        assert forall|i: int| 0 <= i < mask.len() implies #[trigger] mask@[i] == (start[i] || covered_before(
            x,
            y,
            s,
            dx + 1,
            0,
            i,
        )) by {
            if covered_before(x, y, s, dx + 1, 0, i) {
                let (a, b) = choose|a: int, b: int|
                    0 <= a < s && 0 <= b < s && (a < dx + 1 || (a == dx + 1 && b < 0))
                        && #[trigger] pixel_of(x, y, s, a, b) == Some(i);
                assert(covered_before(x, y, s, dx as int, scale as int, i));
            }
            if covered_before(x, y, s, dx as int, scale as int, i) {
                let (a, b) = choose|a: int, b: int|
                    0 <= a < s && 0 <= b < s && (a < dx || (a == dx && b < scale))
                        && #[trigger] pixel_of(x, y, s, a, b) == Some(i);
                assert(covered_before(x, y, s, dx + 1, 0, i));
            }
        }
        dx = dx + 1;
    }
}

/// The image of the tracks: `true` for each image pixel that a pixel of some track covers,
/// rows of `SIZE * scale` image pixels one after the other.
pub fn paint_tracks(tracks: &Vec<Vec<(usize, usize)>>, scale: usize) -> (mask: Vec<bool>)
    requires
        paintable(tracks@, scale as nat),
    ensures
        mask.len() == side(scale as nat) * side(scale as nat),
        forall|i: int| 0 <= i < mask.len() ==> #[trigger] mask@[i] == painted(tracks@, scale as nat, i),
{
    let ghost s = scale as nat;
    proof {
        let sd = side(s) as int;
        assert(sd <= usize::MAX) by (nonlinear_arith)
            requires
                sd * sd <= usize::MAX,
                sd >= 0,
        {
            if sd > 0 {
                assert(sd <= sd * sd);
            }
        }
    }
    let img = SIZE * scale;
    assert(img == side(s));
    let n = img * img;
    let mut mask: Vec<bool> = Vec::new();
    let mut i: usize = 0;
    while i < n
        invariant
            i <= n,
            mask.len() == i,
            forall|j: int| 0 <= j < i ==> !(#[trigger] mask@[j]),
        decreases n - i,
    {
        mask.push(false);
        i = i + 1;
    }
    let mut t: usize = 0;
    while t < tracks.len()
        invariant
            t <= tracks.len(),
            s == scale,
            img == side(s),
            n == img * img,
            mask.len() == n,
            paintable(tracks@, s),
            forall|j: int| 0 <= j < n ==> #[trigger] mask@[j] == painted_before(tracks@, s, t as int, 0, j),
        decreases tracks.len() - t,
    {
        let track = &tracks[t];
        let mut k: usize = 0;
        while k < track.len()
            invariant
                t < tracks.len(),
                k <= track.len(),
                track == tracks@[t as int],
                s == scale,
                img == side(s),
                n == img * img,
                mask.len() == n,
                paintable(tracks@, s),
                forall|j: int| 0 <= j < n ==> #[trigger] mask@[j] == painted_before(tracks@, s, t as int, k as int, j),
            decreases track.len() - k,
        {
            let (x, y) = track[k];
            assert(cell(tracks@, t as int, k as int) == (x, y));
            let ghost before = mask@;
            paint_cell(&mut mask, x, y, scale);
            assert forall|j: int| 0 <= j < n implies #[trigger] mask@[j] == painted_before(tracks@, s, t as int, k + 1, j) by {
                if painted_before(tracks@, s, t as int, k + 1, j) {
                    let (a, b) = choose|a: int, b: int|
                        0 <= a < tracks@.len() && 0 <= b < tracks@[a]@.len() && (a < t || (a == t && b < k + 1))
                            && covered(#[trigger] cell(tracks@, a, b).0, cell(tracks@, a, b).1, s, j);
                    if !(a == t && b == k) {
                        assert(painted_before(tracks@, s, t as int, k as int, j));
                    }
                }
                if covered(x, y, s, j) {
                    assert(painted_before(tracks@, s, t as int, k + 1, j));
                }
                if before[j] {
                    let (a, b) = choose|a: int, b: int|
                        0 <= a < tracks@.len() && 0 <= b < tracks@[a]@.len() && (a < t || (a == t && b < k))
                            && covered(#[trigger] cell(tracks@, a, b).0, cell(tracks@, a, b).1, s, j);
                    assert(painted_before(tracks@, s, t as int, k + 1, j));
                }
            }
            k = k + 1;
        }
        assert forall|j: int| 0 <= j < n implies #[trigger] mask@[j] == painted_before(tracks@, s, t + 1, 0, j) by {
            if painted_before(tracks@, s, t + 1, 0, j) {
                let (a, b) = choose|a: int, b: int|
                    0 <= a < tracks@.len() && 0 <= b < tracks@[a]@.len() && (a < t + 1 || (a == t + 1 && b < 0))
                        && covered(#[trigger] cell(tracks@, a, b).0, cell(tracks@, a, b).1, s, j);
                assert(painted_before(tracks@, s, t as int, track.len() as int, j));
            }
            if painted_before(tracks@, s, t as int, track.len() as int, j) {
                let (a, b) = choose|a: int, b: int|
                    0 <= a < tracks@.len() && 0 <= b < tracks@[a]@.len() && (a < t || (a == t && b < track.len()))
                        && covered(#[trigger] cell(tracks@, a, b).0, cell(tracks@, a, b).1, s, j);
                assert(painted_before(tracks@, s, t + 1, 0, j));
            }
        }
        t = t + 1;
    }
    mask
}

/// Each pixel `(x, y)` of a track that lies on the detector is drawn as a full square: every
/// image pixel at row `(SIZE - 1 - y) * scale + dy` and column `x * scale + dx`, for offsets
/// below `scale`, is lit.
pub proof fn law_track_pixels_are_drawn(tracks: Seq<Vec<(usize, usize)>>, scale: nat, t: int, k: int, dx: int, dy: int)
    requires
        paintable(tracks, scale),
        0 <= t < tracks.len(),
        0 <= k < tracks[t]@.len(),
        cell(tracks, t, k).0 < SIZE,
        0 <= dx < scale,
        0 <= dy < scale,
    ensures
        painted(
            tracks,
            scale,
            ((SIZE - 1 - cell(tracks, t, k).1) * scale + dy) * side(scale) + cell(tracks, t, k).0 * scale + dx,
        ),
{
    let (x, y) = cell(tracks, t, k);
    let i = ((SIZE - 1 - y) * scale + dy) * side(scale) + x * scale + dx;
    assert((SIZE - 1 - y) * scale + dy < SIZE * scale) by (nonlinear_arith)
        requires
            y < SIZE,
            dy < scale,
    ;
    assert(x * scale + dx < SIZE * scale) by (nonlinear_arith)
        requires
            x < SIZE,
            dx < scale,
    ;
    assert(pixel_of(x, y, scale, dx, dy) == Some(i));
    assert(covered_before(x, y, scale, scale as int, 0, i));
    assert(covered(cell(tracks, t, k).0, cell(tracks, t, k).1, scale, i));
}

/// Image pixel `i` is the one at offset `(dx, dy)`, inside the image, of the square drawn for
/// pixel `k` of track `t`: row `(SIZE - 1 - y) * scale + dy`, column `x * scale + dx`.
pub open spec fn in_square(tracks: Seq<Vec<(usize, usize)>>, scale: nat, t: int, k: int, dx: int, dy: int, i: int) -> bool {
    let (x, y) = cell(tracks, t, k);
    &&& 0 <= t < tracks.len()
    &&& 0 <= k < tracks[t]@.len()
    &&& 0 <= dx < scale
    &&& 0 <= dy < scale
    &&& (SIZE - 1 - y) * scale + dy < side(scale)
    &&& x * scale + dx < side(scale)
    &&& i == ((SIZE - 1 - y) * scale + dy) * side(scale) + x * scale + dx
}

/// Only those squares are lit: a lit image pixel lies in the square of some pixel of some
/// track.
pub proof fn law_lit_pixels_come_from_tracks(tracks: Seq<Vec<(usize, usize)>>, scale: nat, i: int)
    requires
        painted(tracks, scale, i),
    ensures
        exists|t: int, k: int, dx: int, dy: int| #[trigger] in_square(tracks, scale, t, k, dx, dy, i),
{
    let (t, k) = choose|a: int, b: int|
        0 <= a < tracks.len() && 0 <= b < tracks[a]@.len() && (a < tracks.len() || (a == tracks.len() && b < 0))
            && covered(#[trigger] cell(tracks, a, b).0, cell(tracks, a, b).1, scale, i);
    let (x, y) = cell(tracks, t, k);
    let (dx, dy) = choose|dx: int, dy: int|
        0 <= dx < scale && 0 <= dy < scale && (dx < scale || (dx == scale && dy < 0))
            && #[trigger] pixel_of(x, y, scale, dx, dy) == Some(i);
    assert(in_square(tracks, scale, t, k, dx, dy, i));
}

} // verus!
