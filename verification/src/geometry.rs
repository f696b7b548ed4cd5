use vstd::prelude::*;

verus! {

/// The sum of the first coordinates of the pixels of a track.
pub open spec fn sum_x(track: Seq<(usize, usize)>) -> nat
    decreases track.len(),
{
    if track.len() == 0 {
        0
    } else {
        sum_x(track.drop_last()) + track.last().0 as nat
    }
}

/// The sum of the second coordinates of the pixels of a track.
pub open spec fn sum_y(track: Seq<(usize, usize)>) -> nat
    decreases track.len(),
{
    if track.len() == 0 {
        0
    } else {
        sum_y(track.drop_last()) + track.last().1 as nat
    }
}

/// What the mean pixel of a track is computed from: the coordinate sums and the pixel count.
#[derive(Clone, Copy, Debug, PartialEq, Eq, Structural)]
pub struct TrackCentroid {
    pub sum_x: u128,
    pub sum_y: u128,
    pub count: usize,
}

pub open spec fn centroid_spec(track: Seq<(usize, usize)>) -> Option<TrackCentroid> {
    if track.len() == 0 {
        None
    } else {
        Some(TrackCentroid { sum_x: sum_x(track) as u128, sum_y: sum_y(track) as u128, count: track.len() as usize })
    }
}

proof fn lemma_sum_bound(n: int, m: int)
    requires
        0 <= n <= m,
        m == usize::MAX,
    ensures
        n * m <= u128::MAX,
{
    assert(m == 0xffff_ffff || m == 0xffff_ffff_ffff_ffff);
    assert(n * m <= m * m) by (nonlinear_arith)
        requires
            0 <= n <= m,
    ;
    if m == 0xffff_ffff {
        assert(m * m <= u128::MAX);
    } else {
        assert(m * m <= u128::MAX);
    }
}

/// The coordinate sums and the size of a track; `None` for a track without pixels.
pub fn centroid(track: &Vec<(usize, usize)>) -> (c: Option<TrackCentroid>)
    ensures
        c == centroid_spec(track@),
{
    if track.len() == 0 {
        return None;
    }
    let mut sx: u128 = 0;
    let mut sy: u128 = 0;
    let mut i: usize = 0;
    while i < track.len()
        invariant
            i <= track.len(),
            sx == sum_x(track@.take(i as int)),
            sy == sum_y(track@.take(i as int)),
            sx <= i * usize::MAX,
            sy <= i * usize::MAX,
        decreases track.len() - i,
    {
        let (x, y) = track[i];
        proof {
            lemma_sum_bound((i + 1) as int, usize::MAX as int);
            assert(track@.take(i + 1).drop_last() =~= track@.take(i as int));
            assert(sx + x <= (i + 1) * usize::MAX) by (nonlinear_arith)
                requires
                    sx <= i * usize::MAX,
                    x <= usize::MAX,
            ;
            assert(sy + y <= (i + 1) * usize::MAX) by (nonlinear_arith)
                requires
                    sy <= i * usize::MAX,
                    y <= usize::MAX,
            ;
        }
        sx = sx + x as u128;
        sy = sy + y as u128;
        i = i + 1;
    }
    assert(track@.take(track.len() as int) =~= track@);
    Some(TrackCentroid { sum_x: sx, sum_y: sy, count: track.len() })
}

/// What the 3D view is drawn from: for each track, its coordinate sums and size (`None` for a
/// track without pixels, which is drawn at the origin).
pub fn update_data(tracks: &Vec<Vec<(usize, usize)>>) -> (r: Vec<Option<TrackCentroid>>)
    ensures
        r.len() == tracks.len(),
        forall|i: int| 0 <= i < r.len() ==> #[trigger] r@[i] == centroid_spec(tracks@[i]@),
{
    let mut r: Vec<Option<TrackCentroid>> = Vec::new();
    let mut i: usize = 0;
    while i < tracks.len()
        invariant
            i <= tracks.len(),
            r.len() == i,
            forall|j: int| 0 <= j < i ==> #[trigger] r@[j] == centroid_spec(tracks@[j]@),
        decreases tracks.len() - i,
    {
        r.push(centroid(&tracks[i]));
        i = i + 1;
    }
    r
}

pub open spec fn min_x(track: Seq<(usize, usize)>) -> usize
    decreases track.len(),
{
    if track.len() <= 1 {
        track[0].0
    } else {
        let m = min_x(track.drop_last());
        if track.last().0 < m {
            track.last().0
        } else {
            m
        }
    }
}

pub open spec fn max_x(track: Seq<(usize, usize)>) -> usize
    decreases track.len(),
{
    if track.len() <= 1 {
        track[0].0
    } else {
        let m = max_x(track.drop_last());
        if track.last().0 > m {
            track.last().0
        } else {
            m
        }
    }
}

pub open spec fn min_y(track: Seq<(usize, usize)>) -> usize
    decreases track.len(),
{
    if track.len() <= 1 {
        track[0].1
    } else {
        let m = min_y(track.drop_last());
        if track.last().1 < m {
            track.last().1
        } else {
            m
        }
    }
}

pub open spec fn max_y(track: Seq<(usize, usize)>) -> usize
    decreases track.len(),
{
    if track.len() <= 1 {
        track[0].1
    } else {
        let m = max_y(track.drop_last());
        if track.last().1 > m {
            track.last().1
        } else {
            m
        }
    }
}

proof fn lemma_bounds(track: Seq<(usize, usize)>)
    requires
        track.len() > 0,
    ensures
        min_x(track) <= max_x(track),
        min_y(track) <= max_y(track),
        forall|i: int|
            0 <= i < track.len() ==> min_x(track) <= (#[trigger] track[i]).0 <= max_x(track) && min_y(track)
                <= track[i].1 <= max_y(track),
    decreases track.len(),
{
    if track.len() > 1 {
        lemma_bounds(track.drop_last());
        assert forall|i: int| 0 <= i < track.len() - 1 implies track[i] == track.drop_last()[i] by {}
    }
}

/// How far a track reaches along each axis: the largest coordinate minus the smallest, for
/// each coordinate; `None` for a track without pixels.
pub fn track_extent(track: &Vec<(usize, usize)>) -> (r: Option<(usize, usize)>)
    ensures
        track.len() == 0 ==> r is None,
        track.len() > 0 ==> r == Some(((max_x(track@) - min_x(track@)) as usize, (max_y(track@) - min_y(track@)) as usize)),
{
    if track.len() == 0 {
        return None;
    }
    let (x0, y0) = track[0];
    let mut lo_x = x0;
    let mut hi_x = x0;
    let mut lo_y = y0;
    let mut hi_y = y0;
    let mut i: usize = 1;
    while i < track.len()
        invariant
            1 <= i <= track.len(),
            lo_x == min_x(track@.take(i as int)),
            hi_x == max_x(track@.take(i as int)),
            lo_y == min_y(track@.take(i as int)),
            hi_y == max_y(track@.take(i as int)),
        decreases track.len() - i,
    {
        let (x, y) = track[i];
        assert(track@.take(i + 1).drop_last() =~= track@.take(i as int));
        if x < lo_x {
            lo_x = x;
        }
        if x > hi_x {
            hi_x = x;
        }
        if y < lo_y {
            lo_y = y;
        }
        if y > hi_y {
            hi_y = y;
        }
        i = i + 1;
    }
    assert(track@.take(track.len() as int) =~= track@);
    proof {
        lemma_bounds(track@);
    }
    Some((hi_x - lo_x, hi_y - lo_y))
}

/// The extent bounds every pixel of the track: all pixels lie within the extent of the
/// track's smallest coordinates.
pub proof fn law_extent_bounds_pixels(track: Seq<(usize, usize)>, i: int)
    requires
        0 <= i < track.len(),
    ensures
        min_x(track) <= track[i].0 <= min_x(track) + (max_x(track) - min_x(track)),
        min_y(track) <= track[i].1 <= min_y(track) + (max_y(track) - min_y(track)),
{
    lemma_bounds(track);
}

/// The coordinate sums add up over the parts of a track, and a one-pixel track sums to its
/// pixel's coordinates.
pub proof fn law_sums_add(a: Seq<(usize, usize)>, b: Seq<(usize, usize)>, p: (usize, usize))
    ensures
        sum_x(a + b) == sum_x(a) + sum_x(b),
        sum_y(a + b) == sum_y(a) + sum_y(b),
        sum_x(seq![p]) == p.0,
        sum_y(seq![p]) == p.1,
    decreases b.len(),
{
    let one = seq![p];
    assert(one.drop_last() =~= Seq::<(usize, usize)>::empty());
    assert(sum_x(one.drop_last()) == 0);
    assert(sum_y(one.drop_last()) == 0);
    assert(one.last() == p);
    if b.len() == 0 {
        assert(a + b =~= a);
    } else {
        law_sums_add(a, b.drop_last(), p);
        assert((a + b).drop_last() =~= a + b.drop_last());
        assert((a + b).last() == b.last());
    }
}

/// The smallest and largest coordinates are those of pixels of the track.
pub proof fn law_extent_is_attained(track: Seq<(usize, usize)>)
    requires
        track.len() > 0,
    ensures
        exists|i: int| 0 <= i < track.len() && (#[trigger] track[i]).0 == min_x(track),
        exists|i: int| 0 <= i < track.len() && (#[trigger] track[i]).0 == max_x(track),
        exists|i: int| 0 <= i < track.len() && (#[trigger] track[i]).1 == min_y(track),
        exists|i: int| 0 <= i < track.len() && (#[trigger] track[i]).1 == max_y(track),
    decreases track.len(),
{
    if track.len() == 1 {
        assert(track[0].0 == min_x(track));
        assert(track[0].0 == max_x(track));
        assert(track[0].1 == min_y(track));
        assert(track[0].1 == max_y(track));
    } else {
        let prev = track.drop_last();
        law_extent_is_attained(prev);
        let l = track.len() - 1;
        assert(track[l] == track.last());
        if track.last().0 < min_x(prev) {
            assert(track[l].0 == min_x(track));
        } else {
            let i = choose|i: int| 0 <= i < prev.len() && (#[trigger] prev[i]).0 == min_x(prev);
            assert(track[i] == prev[i]);
        }
        if track.last().0 > max_x(prev) {
            assert(track[l].0 == max_x(track));
        } else {
            let i = choose|i: int| 0 <= i < prev.len() && (#[trigger] prev[i]).0 == max_x(prev);
            assert(track[i] == prev[i]);
        }
        if track.last().1 < min_y(prev) {
            assert(track[l].1 == min_y(track));
        } else {
            let i = choose|i: int| 0 <= i < prev.len() && (#[trigger] prev[i]).1 == min_y(prev);
            assert(track[i] == prev[i]);
        }
        if track.last().1 > max_y(prev) {
            assert(track[l].1 == max_y(track));
        } else {
            let i = choose|i: int| 0 <= i < prev.len() && (#[trigger] prev[i]).1 == max_y(prev);
            assert(track[i] == prev[i]);
        }
    }
}

} // verus!
