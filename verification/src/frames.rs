use vstd::prelude::*;

use crate::text::{
    is_separator,
    is_separator_line,
    parse_usize,
    parse_usize_spec,
    split_tokens,
    split_tokens_of,
};
use crate::{GRID_LEN, SIZE};

verus! {

/// Why a detector file cannot be read as frames.
#[derive(Clone, Copy, Debug, PartialEq, Eq, Structural)]
pub enum ReadError {
    /// The file has no line (matrix format).
    Empty,
    /// The first row of the matrix format is not as wide as the detector.
    RowWidth,
    /// A field that should be a number is not one.
    BadNumber,
    /// A line of the coordinate format has fewer than three fields.
    MissingField,
    /// The energy field of a line of the coordinate format is not a number.
    BadValue,
    /// The coordinates of a line of the coordinate format lie outside the detector.
    OutOfGrid,
    /// The file holds no line, so no frame.
    NoFrames,
}

/// One detector frame: the energy of each pixel, pixel `(x, y)` at `x * SIZE + y`, and the
/// time at which the frame was taken.
#[derive(Clone, Debug)]
pub struct Frame<V, T> {
    pub matrix: Vec<V>,
    pub timestamp: T,
}

impl<V, T> Frame<V, T> {
    pub fn new(matrix: Vec<V>, timestamp: T) -> (f: Self)
        ensures
            f.matrix == matrix,
            f.timestamp == timestamp,
    {
        Frame { matrix, timestamp }
    }
}

/// The views of the vectors of `v`.
pub open spec fn views<V>(v: Seq<Vec<V>>) -> Seq<Seq<V>> {
    v.map_values(|g: Vec<V>| g@)
}

/// A blank frame.
pub open spec fn blank<V>(zero: V) -> Seq<V> {
    Seq::new(GRID_LEN as nat, |i: int| zero)
}

/// The matrix format: each line a row of numbers. `rows[i]` holds the numbers of line `i`,
/// or `None` when one of its fields is not a number. Each row is returned as it is.
pub open spec fn matrix_read_spec<V>(rows: Seq<Option<Seq<V>>>) -> Result<Seq<Seq<V>>, ReadError> {
    if exists|i: int| 0 <= i < rows.len() && rows[i] is None {
        Err(ReadError::BadNumber)
    } else if rows.len() == 0 {
        Err(ReadError::Empty)
    } else if rows[0]->0.len() != SIZE {
        Err(ReadError::RowWidth)
    } else {
        Ok(rows.map_values(|r: Option<Seq<V>>| r->0))
    }
}

/// The grid index of pixel `(x, y)`, when it lies inside the grid.
pub open spec fn pixel_index(x: usize, y: usize) -> Option<nat> {
    if x * SIZE + y < GRID_LEN {
        Some((x * SIZE + y) as nat)
    } else {
        None
    }
}

/// One line of the coordinate format applied to the frames closed so far and the frame being
/// filled. `value` is the energy field of the line read as a number, if the line has one
/// that is a number.
pub open spec fn ascii_step<V>(
    state: Result<(Seq<Seq<V>>, Seq<V>), ReadError>,
    line: Seq<char>,
    value: Option<V>,
    zero: V,
) -> Result<(Seq<Seq<V>>, Seq<V>), ReadError> {
    match state {
        Err(e) => Err(e),
        Ok((grids, grid)) => {
            if is_separator(line) {
                Ok((grids.push(grid), blank(zero)))
            } else {
                let toks = split_tokens(line, true);
                if toks.len() < 1 {
                    Err(ReadError::MissingField)
                } else if parse_usize_spec(toks[0]) is None {
                    Err(ReadError::BadNumber)
                } else if toks.len() < 2 {
                    Err(ReadError::MissingField)
                } else if parse_usize_spec(toks[1]) is None {
                    Err(ReadError::BadNumber)
                } else if toks.len() < 3 {
                    Err(ReadError::MissingField)
                } else if value is None {
                    Err(ReadError::BadValue)
                } else {
                    match pixel_index(parse_usize_spec(toks[0])->0, parse_usize_spec(toks[1])->0) {
                        None => Err(ReadError::OutOfGrid),
                        Some(idx) => Ok((grids, grid.update(idx as int, value->0))),
                    }
                }
            }
        },
    }
}

/// The coordinate format after its first `n` lines.
pub open spec fn ascii_state<V>(lines: Seq<Seq<char>>, values: Seq<Option<V>>, zero: V, n: nat) -> Result<(Seq<Seq<V>>, Seq<V>), ReadError>
    decreases n,
{
    if n == 0 {
        Ok((seq![], blank(zero)))
    } else {
        ascii_step(ascii_state(lines, values, zero, (n - 1) as nat), lines[n - 1], values[n - 1], zero)
    }
}

/// Whether the lines end with pixel lines after the last `#` line (or hold no `#` line at
/// all and some line): those lines make a frame too.
pub open spec fn open_frame(lines: Seq<Seq<char>>) -> bool {
    lines.len() > 0 && !is_separator(lines.last())
}

/// The coordinate format: each line `x y energy` sets a pixel of the current frame, a `#`
/// line closes the frame, and the lines after the last `#` (or all of them, when there is no
/// `#`) make the last frame. An empty file has no frame. `values[i]` is the energy field of
/// line `i` read as a number.
pub open spec fn ascii_read_spec<V>(lines: Seq<Seq<char>>, values: Seq<Option<V>>, zero: V) -> Result<Seq<Seq<V>>, ReadError> {
    match ascii_state(lines, values, zero, lines.len()) {
        Err(e) => Err(e),
        Ok((grids, grid)) => {
            let all = if open_frame(lines) {
                grids.push(grid)
            } else {
                grids
            };
            if all.len() == 0 {
                Err(ReadError::NoFrames)
            } else {
                Ok(all)
            }
        },
    }
}

/// A detector file: the matrix format when it reads as one, else the coordinate format.
pub open spec fn read_lines_spec<V>(
    lines: Seq<Seq<char>>,
    rows: Seq<Option<Seq<V>>>,
    values: Seq<Option<V>>,
    zero: V,
) -> Result<Seq<Seq<V>>, ReadError> {
    match matrix_read_spec(rows) {
        Ok(g) => Ok(g),
        Err(_) => ascii_read_spec(lines, values, zero),
    }
}

pub open spec fn option_views<V>(rows: Seq<Option<Vec<V>>>) -> Seq<Option<Seq<V>>> {
    rows.map_values(|r: Option<Vec<V>>| match r {
        Some(v) => Some(v@),
        None => None,
    })
}

pub open spec fn result_views<V>(r: Result<Vec<Vec<V>>, ReadError>) -> Result<Seq<Seq<V>>, ReadError> {
    match r {
        Ok(g) => Ok(views(g@)),
        Err(e) => Err(e),
    }
}

/// Reads the matrix format from its rows of numbers (`None` for a row with a field that is
/// not a number).
pub fn matrix_read<V: Copy>(rows: Vec<Option<Vec<V>>>) -> (r: Result<Vec<Vec<V>>, ReadError>)
    ensures
        result_views(r) == matrix_read_spec(option_views(rows@)),
{
    let ghost spec_rows = option_views(rows@);
    let mut i: usize = 0;
    while i < rows.len()
        invariant
            i <= rows.len(),
            spec_rows == option_views(rows@),
            forall|j: int| 0 <= j < i ==> rows@[j] is Some,
        decreases rows.len() - i,
    {
        if rows[i].is_none() {
            assert(spec_rows[i as int] is None);
            return Err(ReadError::BadNumber);
        }
        i = i + 1;
    }
    assert(forall|j: int| 0 <= j < spec_rows.len() ==> #[trigger] spec_rows[j] is Some);
    if rows.len() == 0 {
        return Err(ReadError::Empty);
    }
    let width = match &rows[0] {
        Some(r) => r.len(),
        None => 0,
    };
    if width != SIZE {
        return Err(ReadError::RowWidth);
    }
    let ghost all = rows@;
    let mut out: Vec<Vec<V>> = Vec::new();
    let mut rest = rows;
    let mut k: usize = 0;
    while rest.len() > 0
        invariant
            k + rest.len() == all.len(),
            all.len() <= usize::MAX,
            rest@ == all.subrange(k as int, all.len() as int),
            forall|j: int| 0 <= j < all.len() ==> #[trigger] all[j] is Some,
            out@.len() == k,
            forall|j: int| 0 <= j < k ==> #[trigger] out@[j] == all[j]->0,
        decreases rest.len(),
    {
        let row = rest.remove(0);
        assert(row == all[k as int]);
        match row {
            Some(r) => out.push(r),
            None => {},
        }
        k = k + 1;
    }
    assert(views(out@) =~= spec_rows.map_values(|r: Option<Seq<V>>| r->0));
    Ok(out)
}

/// The energy field of a line of the coordinate format: its third field, if it has one.
pub fn value_token(line: &str) -> (t: Option<String>)
    ensures
        match t {
            Some(s) => split_tokens(line@, true).len() >= 3 && s@ == split_tokens(line@, true)[2],
            None => split_tokens(line@, true).len() < 3,
        },
{
    let toks = split_tokens_of(line, true);
    if toks.len() >= 3 {
        let s = toks[2].clone();
        assert(toks.deep_view()[2] == toks@[2]@);
        Some(s)
    } else {
        None
    }
}

fn blank_grid<V: Copy>(zero: V) -> (g: Vec<V>)
    ensures
        g@ == blank(zero),
{
    let mut g: Vec<V> = Vec::new();
    let mut i: usize = 0;
    while i < GRID_LEN
        invariant
            i <= GRID_LEN,
            g@ == Seq::new(i as nat, |j: int| zero),
        decreases GRID_LEN - i,
    {
        g.push(zero);
        i = i + 1;
        assert(g@ =~= Seq::new(i as nat, |j: int| zero));
    }
    g
}

proof fn lemma_ascii_failure_sticks<V>(lines: Seq<Seq<char>>, values: Seq<Option<V>>, zero: V, n: nat, m: nat)
    requires
        n <= m,
        ascii_state(lines, values, zero, n) is Err,
    ensures
        ascii_state(lines, values, zero, m) == ascii_state(lines, values, zero, n),
    decreases m - n,
{
    if n < m {
        lemma_ascii_failure_sticks(lines, values, zero, n, (m - 1) as nat);
    }
}

/// Reads the coordinate format. `values[i]` is the energy field of line `i` read as a number
/// (`None` when the line has no such field or it is not a number).
pub fn ascii_read<V: Copy>(lines: &Vec<String>, values: &Vec<Option<V>>, zero: V) -> (r: Result<Vec<Vec<V>>, ReadError>)
    requires
        lines.len() == values.len(),
    ensures
        result_views(r) == ascii_read_spec(lines.deep_view(), values@, zero),
{
    let ghost ls = lines.deep_view();
    let mut grids: Vec<Vec<V>> = Vec::new();
    let mut grid: Vec<V> = blank_grid(zero);
    let mut i: usize = 0;
    let mut pending = false;
    assert(views(grids@) =~= seq![]);
    while i < lines.len()
        invariant
            i <= lines.len(),
            lines.len() == values.len(),
            grid.len() == GRID_LEN,
            pending == (i > 0 && !is_separator(ls[i - 1])),
            ls == lines.deep_view(),
            ascii_state(ls, values@, zero, i as nat) == Ok::<(Seq<Seq<V>>, Seq<V>), ReadError>((views(grids@), grid@)),
        decreases lines.len() - i,
    {
        let line = lines[i].as_str();
        assert(line@ == ls[i as int]);
        let ghost before: Result<(Seq<Seq<V>>, Seq<V>), ReadError> = Ok((views(grids@), grid@));
        let ghost after = ascii_step(before, ls[i as int], values@[i as int], zero);
        assert(ascii_state(ls, values@, zero, (i + 1) as nat) == after);
        let mut failure: Option<ReadError> = None;
        let separator = is_separator_line(line);
        pending = !separator;
        if separator {
            let ghost prev_grids = views(grids@);
            let mut full = blank_grid(zero);
            std::mem::swap(&mut grid, &mut full);
            grids.push(full);
            assert(views(grids@) =~= prev_grids.push(full@));
        } else {
            let toks = split_tokens_of(line, true);
            assert(toks.deep_view() == split_tokens(ls[i as int], true));
            if toks.len() < 1 {
                failure = Some(ReadError::MissingField);
            } else {
                assert(toks@[0]@ == toks.deep_view()[0]);
                match parse_usize(toks[0].as_str()) {
                    None => {
                        failure = Some(ReadError::BadNumber);
                    },
                    Some(x) => {
                        if toks.len() < 2 {
                            failure = Some(ReadError::MissingField);
                        } else {
                            assert(toks@[1]@ == toks.deep_view()[1]);
                            match parse_usize(toks[1].as_str()) {
                                None => {
                                    failure = Some(ReadError::BadNumber);
                                },
                                Some(y) => {
                                    if toks.len() < 3 {
                                        failure = Some(ReadError::MissingField);
                                    } else {
                                        match values[i] {
                                            None => {
                                                failure = Some(ReadError::BadValue);
                                            },
                                            Some(v) => {
                                                if x >= SIZE || y >= GRID_LEN - x * SIZE {
                                                    failure = Some(ReadError::OutOfGrid);
                                                } else {
                                                    grid.set(x * SIZE + y, v);
                                                }
                                            },
                                        }
                                    }
                                },
                            }
                        }
                    },
                }
            }
        }
        match failure {
            Some(e) => {
                assert(after == Err::<(Seq<Seq<V>>, Seq<V>), ReadError>(e));
                proof {
                    lemma_ascii_failure_sticks(ls, values@, zero, (i + 1) as nat, ls.len());
                }
                return Err(e);
            },
            None => {},
        }
        i = i + 1;
    }
    if pending {
        let ghost closed = views(grids@);
        grids.push(grid);
        assert(views(grids@) =~= closed.push(grid@));
    }
    assert(open_frame(ls) == pending);
    if grids.len() == 0 {
        return Err(ReadError::NoFrames);
    }
    Ok(grids)
}

/// Reads a detector file, given as its lines together with the numbers read from it: the
/// matrix format when it reads as one, the coordinate format otherwise.
pub fn read_lines<V: Copy>(
    lines: &Vec<String>,
    rows: Vec<Option<Vec<V>>>,
    values: &Vec<Option<V>>,
    zero: V,
) -> (r: Result<Vec<Vec<V>>, ReadError>)
    requires
        lines.len() == values.len(),
    ensures
        result_views(r) == read_lines_spec(lines.deep_view(), option_views(rows@), values@, zero),
{
    match matrix_read(rows) {
        Ok(g) => Ok(g),
        Err(_) => ascii_read(lines, values, zero),
    }
}

/// The frames of a file as they are shown: the frames read (or one blank frame when the file
/// could not be read), each with the timestamp of the same position, or `default_ts` where
/// there are fewer timestamps than frames.
pub open spec fn frame_matrices<V>(read: Result<Seq<Seq<V>>, ReadError>, zero: V) -> Seq<Seq<V>> {
    match read {
        Ok(g) => g,
        Err(_) => seq![blank(zero)],
    }
}

pub open spec fn frame_timestamp<T>(timestamps: Seq<T>, i: int, default_ts: T) -> T {
    if i < timestamps.len() {
        timestamps[i]
    } else {
        default_ts
    }
}

/// Pairs the frames read from a file with their timestamps.
pub fn frames_with_timestamps<V: Copy, T: Copy>(
    read: Result<Vec<Vec<V>>, ReadError>,
    zero: V,
    timestamps: &Vec<T>,
    default_ts: T,
) -> (frames: Vec<Frame<V, T>>)
    ensures
        frames.len() == frame_matrices(result_views(read), zero).len(),
        forall|i: int|
            0 <= i < frames.len() ==> (#[trigger] frames@[i]).matrix@ == frame_matrices(result_views(read), zero)[i]
                && frames@[i].timestamp == frame_timestamp(timestamps@, i, default_ts),
{
    let mut mats: Vec<Vec<V>> = match read {
        Ok(g) => g,
        Err(_) => {
            let mut one: Vec<Vec<V>> = Vec::new();
            one.push(blank_grid(zero));
            one
        },
    };
    let ghost all = views(mats@);
    assert(all == frame_matrices(result_views(read), zero)) by {
        if read is Err {
            assert(all =~= seq![blank(zero)]);
        }
    }
    assert(all.len() == mats.len());
    let mut frames: Vec<Frame<V, T>> = Vec::new();
    let mut k: usize = 0;
    while mats.len() > 0
        invariant
            k + mats.len() == all.len(),
            all.len() <= usize::MAX,
            views(mats@) == all.subrange(k as int, all.len() as int),
            frames.len() == k,
            forall|i: int|
                0 <= i < k ==> (#[trigger] frames@[i]).matrix@ == all[i] && frames@[i].timestamp
                    == frame_timestamp(timestamps@, i, default_ts),
        decreases mats.len(),
    {
        let ghost before = mats@;
        let m = mats.remove(0);
        assert(m@ == all[k as int]) by {
            assert(views(before)[0] == before[0]@);
        }
        assert(views(mats@) =~= all.subrange(k + 1, all.len() as int)) by {
            assert forall|j: int| 0 <= j < mats@.len() implies views(mats@)[j] == all[k + 1 + j] by {
                assert(mats@[j] == before[j + 1]);
                assert(views(before)[j + 1] == before[j + 1]@);
            }
        }
        let ts = if k < timestamps.len() {
            timestamps[k]
        } else {
            default_ts
        };
        frames.push(Frame::new(m, ts));
        k = k + 1;
    }
    frames
}

proof fn lemma_ascii_grids_full<V>(lines: Seq<Seq<char>>, values: Seq<Option<V>>, zero: V, n: nat)
    requires
        n <= lines.len(),
        n <= values.len(),
    ensures
        ascii_state(lines, values, zero, n) matches Ok((grids, grid)) ==> grid.len() == GRID_LEN && forall|i: int|
            0 <= i < grids.len() ==> (#[trigger] grids[i]).len() == GRID_LEN,
    decreases n,
{
    if n > 0 {
        lemma_ascii_grids_full(lines, values, zero, (n - 1) as nat);
        match ascii_state(lines, values, zero, (n - 1) as nat) {
            Ok((grids, grid)) => {
                if is_separator(lines[n - 1]) {
                    assert forall|i: int| 0 <= i < grids.len() + 1 implies (#[trigger] grids.push(grid)[i]).len()
                        == GRID_LEN by {
                        if i < grids.len() {
                            assert(grids.push(grid)[i] == grids[i]);
                        }
                    }
                }
            },
            Err(_) => {},
        }
    }
}

/// Every frame that the coordinate format yields covers the whole detector.
pub proof fn law_coordinate_frames_are_full<V>(lines: Seq<Seq<char>>, values: Seq<Option<V>>, zero: V)
    requires
        lines.len() == values.len(),
    ensures
        ascii_read_spec(lines, values, zero) matches Ok(grids) ==> grids.len() > 0 && forall|i: int|
            0 <= i < grids.len() ==> (#[trigger] grids[i]).len() == GRID_LEN,
{
    lemma_ascii_grids_full(lines, values, zero, lines.len());
    if let Ok((grids, grid)) = ascii_state(lines, values, zero, lines.len()) {
        assert forall|i: int| 0 <= i < grids.len() + 1 implies (#[trigger] grids.push(grid)[i]).len() == GRID_LEN by {
            if i < grids.len() {
                assert(grids.push(grid)[i] == grids[i]);
            }
        }
    }
}

/// A file of pixel lines and nothing else is one frame: only an empty file has none.
pub proof fn law_only_empty_files_have_no_frames<V>(lines: Seq<Seq<char>>, values: Seq<Option<V>>, zero: V)
    requires
        lines.len() == values.len(),
    ensures
        ascii_read_spec(lines, values, zero) == Err::<Seq<Seq<V>>, ReadError>(ReadError::NoFrames) ==> lines.len() == 0,
{
    lemma_separator_closes(lines, values, zero, lines.len());
    match ascii_state(lines, values, zero, lines.len()) {
        Ok((grids, grid)) => {
            if lines.len() > 0 {
                if is_separator(lines.last()) {
                    let k = lines.len() - 1;
                    assert(is_separator(lines[k]));
                    assert(grids.len() > 0);
                } else {
                    assert(grids.push(grid).len() > 0);
                }
            }
        },
        Err(_) => {},
    }
}

proof fn lemma_separator_closes<V>(lines: Seq<Seq<char>>, values: Seq<Option<V>>, zero: V, n: nat)
    requires
        n <= lines.len(),
        n <= values.len(),
    ensures
        ascii_state(lines, values, zero, n) matches Ok((grids, _)) ==> (forall|k: int|
            0 <= k < n && is_separator(#[trigger] lines[k]) ==> grids.len() > 0),
        ascii_state(lines, values, zero, n) != Err::<(Seq<Seq<V>>, Seq<V>), ReadError>(ReadError::NoFrames),
    decreases n,
{
    if n > 0 {
        lemma_separator_closes(lines, values, zero, (n - 1) as nat);
    }
}

/// When the rows read as the matrix format (every field a number, at least one row, the first
/// row as wide as the detector), the file is exactly those rows, in order, whatever the lines
/// would give in the coordinate format.
pub proof fn law_matrix_format_wins<V>(
    lines: Seq<Seq<char>>,
    rows: Seq<Option<Seq<V>>>,
    values: Seq<Option<V>>,
    zero: V,
)
    requires
        forall|i: int| 0 <= i < rows.len() ==> #[trigger] rows[i] is Some,
        rows.len() > 0,
        rows[0]->0.len() == SIZE,
    ensures
        read_lines_spec(lines, rows, values, zero) matches Ok(g) && g.len() == rows.len() && forall|i: int|
            0 <= i < rows.len() ==> rows[i] == Some(#[trigger] g[i]),
{
}

/// When the rows do not read as the matrix format, the file is read in the coordinate
/// format.
pub proof fn law_coordinate_format_otherwise<V>(
    lines: Seq<Seq<char>>,
    rows: Seq<Option<Seq<V>>>,
    values: Seq<Option<V>>,
    zero: V,
)
    requires
        (exists|i: int| 0 <= i < rows.len() && rows[i] is None) || rows.len() == 0 || rows[0]->0.len() != SIZE,
    ensures
        read_lines_spec(lines, rows, values, zero) == ascii_read_spec(lines, values, zero),
{
}

/// Frame `i` gets the `i`-th timestamp when there is one, and the default only past the last
/// timestamp.
pub proof fn law_timestamps_by_position<T>(timestamps: Seq<T>, i: int, default_ts: T)
    requires
        0 <= i,
    ensures
        i < timestamps.len() ==> frame_timestamp(timestamps, i, default_ts) == timestamps[i],
        forall|g: Seq<Seq<T>>, z: T| #[trigger] frame_matrices(Ok::<Seq<Seq<T>>, ReadError>(g), z) == g,
        i >= timestamps.len() ==> frame_timestamp(timestamps, i, default_ts) == default_ts,
{
}

/// A file of one pixel line `x y energy` is one frame with that energy at pixel `(x, y)`
/// (grid index `x * SIZE + y`) and `zero` everywhere else.
pub proof fn law_one_hit_line<V>(line: Seq<char>, value: V, zero: V, x: usize, y: usize)
    requires
        !is_separator(line),
        split_tokens(line, true).len() >= 3,
        parse_usize_spec(split_tokens(line, true)[0]) == Some(x),
        parse_usize_spec(split_tokens(line, true)[1]) == Some(y),
        x * SIZE + y < GRID_LEN,
    ensures
        ascii_read_spec(seq![line], seq![Some(value)], zero) matches Ok(g) && g.len() == 1 && g[0].len() == GRID_LEN
            && g[0][x * SIZE + y] == value && forall|k: int|
            0 <= k < GRID_LEN && k != x * SIZE + y ==> #[trigger] g[0][k] == zero,
{
    let lines = seq![line];
    let values = seq![Some(value)];
    assert(lines[0] == line);
    assert(lines.last() == line);
    assert(ascii_state(lines, values, zero, 0) == Ok::<(Seq<Seq<V>>, Seq<V>), ReadError>((seq![], blank(zero))));
    let g = blank(zero).update(x * SIZE + y, value);
    assert(ascii_state(lines, values, zero, 1) == Ok::<(Seq<Seq<V>>, Seq<V>), ReadError>((seq![], g)));
    assert(seq![].push(g) =~= seq![g]);
}

/// A file that cannot be read shows as one blank frame of the whole detector.
pub proof fn law_unreadable_file_is_one_blank_frame<V>(e: ReadError, zero: V)
    ensures
        frame_matrices(Err::<Seq<Seq<V>>, ReadError>(e), zero).len() == 1,
        frame_matrices(Err::<Seq<Seq<V>>, ReadError>(e), zero)[0].len() == GRID_LEN,
        forall|k: int| 0 <= k < GRID_LEN ==> #[trigger] frame_matrices(Err::<Seq<Seq<V>>, ReadError>(e), zero)[0][k] == zero,
{
}

/// A `#` line closes the frame being filled and starts a blank one.
pub proof fn law_separator_closes_frame<V>(lines: Seq<Seq<char>>, values: Seq<Option<V>>, zero: V, n: nat, closed: Seq<Seq<V>>, cur: Seq<V>)
    requires
        0 < n <= lines.len(),
        n <= values.len(),
        is_separator(lines[n - 1]),
        ascii_state(lines, values, zero, (n - 1) as nat) == Ok::<(Seq<Seq<V>>, Seq<V>), ReadError>((closed, cur)),
    ensures
        ascii_state(lines, values, zero, n) == Ok::<(Seq<Seq<V>>, Seq<V>), ReadError>((
            closed.push(cur),
            Seq::new(GRID_LEN as nat, |k: int| zero),
        )),
{
}

/// A pixel line `x y energy` inside the detector sets that pixel of the frame being filled and
/// changes nothing else.
pub proof fn law_hit_sets_pixel<V>(
    lines: Seq<Seq<char>>,
    values: Seq<Option<V>>,
    zero: V,
    n: nat,
    closed: Seq<Seq<V>>,
    cur: Seq<V>,
    x: usize,
    y: usize,
    v: V,
)
    requires
        0 < n <= lines.len(),
        n <= values.len(),
        !is_separator(lines[n - 1]),
        split_tokens(lines[n - 1], true).len() >= 3,
        parse_usize_spec(split_tokens(lines[n - 1], true)[0]) == Some(x),
        parse_usize_spec(split_tokens(lines[n - 1], true)[1]) == Some(y),
        values[n - 1] == Some(v),
        x * SIZE + y < GRID_LEN,
        ascii_state(lines, values, zero, (n - 1) as nat) == Ok::<(Seq<Seq<V>>, Seq<V>), ReadError>((closed, cur)),
    ensures
        ascii_state(lines, values, zero, n) == Ok::<(Seq<Seq<V>>, Seq<V>), ReadError>((closed, cur.update(x * SIZE + y, v))),
{
}

/// A pixel line that lies outside the detector, or whose fields are missing or not numbers,
/// makes the whole file fail.
pub proof fn law_bad_line_fails<V>(lines: Seq<Seq<char>>, values: Seq<Option<V>>, zero: V, n: nat)
    requires
        0 < n <= lines.len(),
        lines.len() == values.len(),
        ascii_state(lines, values, zero, (n - 1) as nat) is Ok,
        !is_separator(lines[n - 1]),
        ({
            let toks = split_tokens(lines[n - 1], true);
            ||| toks.len() < 3
            ||| parse_usize_spec(toks[0]) is None
            ||| parse_usize_spec(toks[1]) is None
            ||| values[n - 1] is None
            ||| parse_usize_spec(toks[0])->0 * SIZE + parse_usize_spec(toks[1])->0 >= GRID_LEN
        }),
    ensures
        ascii_read_spec(lines, values, zero) is Err,
{
    lemma_ascii_failure_sticks(lines, values, zero, n, lines.len());
}

} // verus!
