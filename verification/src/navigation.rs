use vstd::prelude::*;

use crate::kinds::Mode;

verus! {

/// Where the viewer stands: which file, which frame of it, which track of the frame.
#[derive(Clone, Copy, Debug, PartialEq, Eq, Structural)]
pub struct Cursor {
    pub file: usize,
    pub matrix: usize,
    pub track: usize,
}

/// A move of the cursor, and the file whose loaded frames may be dropped because the
/// viewer left it.
#[derive(Clone, Copy, Debug, PartialEq, Eq, Structural)]
pub struct Step {
    pub cursor: Cursor,
    pub clear_cache_of: Option<usize>,
}

/// `n`, or 1 when `n` is 0: the counts are never taken below one.
pub open spec fn at_least_one(n: nat) -> nat {
    if n == 0 {
        1
    } else {
        n
    }
}

/// The cursor points into the files, whose frame counts are `frames`, and into the
/// `n_tracks` tracks on view.
pub open spec fn cursor_valid(c: Cursor, frames: Seq<usize>, n_tracks: nat) -> bool {
    &&& c.file < frames.len()
    &&& c.matrix < at_least_one(frames[c.file as int] as nat)
    &&& c.track < at_least_one(n_tracks)
}

pub open spec fn move_track_spec(c: Cursor, n_tracks: nat) -> Cursor {
    Cursor { track: ((c.track + 1) % (at_least_one(n_tracks) as int)) as usize, ..c }
}

pub open spec fn move_track_back_spec(c: Cursor, n_tracks: nat) -> Cursor {
    Cursor {
        track: if c.track == 0 {
            (at_least_one(n_tracks) - 1) as usize
        } else {
            (c.track - 1) as usize
        },
        ..c
    }
}

pub open spec fn matrix_move_spec(c: Cursor, frames: Seq<usize>) -> Step {
    let n = at_least_one(frames[c.file as int] as nat);
    if c.matrix >= n - 1 {
        Step {
            cursor: Cursor { file: ((c.file + 1) % (frames.len() as int)) as usize, matrix: 0, track: 0 },
            clear_cache_of: Some(c.file),
        }
    } else {
        Step {
            cursor: Cursor { file: c.file, matrix: ((c.matrix + 1) % (n as int)) as usize, track: 0 },
            clear_cache_of: None,
        }
    }
}

pub open spec fn previous_file_spec(file: usize, n_files: nat) -> usize {
    if file == 0 {
        (at_least_one(n_files) - 1) as usize
    } else {
        (file - 1) as usize
    }
}

pub open spec fn matrix_move_back_spec(c: Cursor, frames: Seq<usize>) -> Step {
    if c.matrix == 0 {
        let f = previous_file_spec(c.file, frames.len());
        Step {
            cursor: Cursor {
                file: f,
                matrix: (at_least_one(frames[f as int] as nat) - 1) as usize,
                track: 0,
            },
            clear_cache_of: Some(c.file),
        }
    } else {
        Step {
            cursor: Cursor { file: c.file, matrix: (c.matrix - 1) as usize, track: 0 },
            clear_cache_of: None,
        }
    }
}

pub open spec fn move_file_spec(c: Cursor, n_files: nat) -> Step {
    Step {
        cursor: Cursor {
            file: ((c.file + 1) % (at_least_one(n_files) as int)) as usize,
            matrix: 0,
            track: 0,
        },
        clear_cache_of: Some(c.file),
    }
}

pub open spec fn move_file_back_spec(c: Cursor, n_files: nat) -> Step {
    Step {
        cursor: Cursor { file: previous_file_spec(c.file, n_files), matrix: 0, track: 0 },
        clear_cache_of: Some(c.file),
    }
}

pub open spec fn move_data_spec(mode: Mode, c: Cursor, n_tracks: nat, frames: Seq<usize>) -> Step {
    match mode {
        Mode::Single => Step { cursor: move_track_spec(c, n_tracks), clear_cache_of: None },
        Mode::Combined => matrix_move_spec(c, frames),
        Mode::Compound => move_file_spec(c, frames.len()),
    }
}

pub open spec fn move_data_back_spec(mode: Mode, c: Cursor, n_tracks: nat, frames: Seq<usize>) -> Step {
    match mode {
        Mode::Single => Step { cursor: move_track_back_spec(c, n_tracks), clear_cache_of: None },
        Mode::Combined => matrix_move_back_spec(c, frames),
        Mode::Compound => move_file_back_spec(c, frames.len()),
    }
}

/// `max(n, 1)`.
fn at_least_one_of(n: usize) -> (r: usize)
    ensures
        r == at_least_one(n as nat),
{
    if n == 0 {
        1
    } else {
        n
    }
}

/// The next track of the frame, wrapping round to the first.
pub fn move_track(c: Cursor, n_tracks: usize) -> (r: Cursor)
    requires
        c.track < usize::MAX,
    ensures
        r == move_track_spec(c, n_tracks as nat),
{
    Cursor { track: (c.track + 1) % at_least_one_of(n_tracks), ..c }
}

/// The previous track of the frame, wrapping round to the last.
pub fn move_track_back(c: Cursor, n_tracks: usize) -> (r: Cursor)
    ensures
        r == move_track_back_spec(c, n_tracks as nat),
{
    Cursor {
        track: if c.track == 0 {
            at_least_one_of(n_tracks) - 1
        } else {
            c.track - 1
        },
        ..c
    }
}

/// The next frame; after the last frame of a file, the first frame of the next file
/// (wrapping round to the first file), dropping the file that is left.
/// `frames[i]` is the number of frames of file `i`.
pub fn matrix_move(c: Cursor, frames: &Vec<usize>) -> (r: Step)
    requires
        c.file < frames.len(),
    ensures
        r == matrix_move_spec(c, frames@),
{
    let n = at_least_one_of(frames[c.file]);
    if c.matrix >= n - 1 {
        Step { cursor: Cursor { file: (c.file + 1) % frames.len(), matrix: 0, track: 0 }, clear_cache_of: Some(c.file) }
    } else {
        Step { cursor: Cursor { file: c.file, matrix: (c.matrix + 1) % n, track: 0 }, clear_cache_of: None }
    }
}

/// The previous frame; before the first frame of a file, the last frame of the previous
/// file (wrapping round to the last file), dropping the file that is left.
pub fn matrix_move_back(c: Cursor, frames: &Vec<usize>) -> (r: Step)
    requires
        c.file < frames.len(),
    ensures
        r == matrix_move_back_spec(c, frames@),
{
    if c.matrix == 0 {
        let f = if c.file == 0 {
            at_least_one_of(frames.len()) - 1
        } else {
            c.file - 1
        };
        Step {
            cursor: Cursor { file: f, matrix: at_least_one_of(frames[f]) - 1, track: 0 },
            clear_cache_of: Some(c.file),
        }
    } else {
        Step { cursor: Cursor { file: c.file, matrix: c.matrix - 1, track: 0 }, clear_cache_of: None }
    }
}

/// The first frame of the next file, wrapping round to the first file.
pub fn move_file(c: Cursor, n_files: usize) -> (r: Step)
    requires
        c.file < usize::MAX,
    ensures
        r == move_file_spec(c, n_files as nat),
{
    Step {
        cursor: Cursor { file: (c.file + 1) % at_least_one_of(n_files), matrix: 0, track: 0 },
        clear_cache_of: Some(c.file),
    }
}

/// The first frame of the previous file, wrapping round to the last file.
pub fn move_file_back(c: Cursor, n_files: usize) -> (r: Step)
    ensures
        r == move_file_back_spec(c, n_files as nat),
{
    let f = if c.file == 0 {
        at_least_one_of(n_files) - 1
    } else {
        c.file - 1
    };
    Step { cursor: Cursor { file: f, matrix: 0, track: 0 }, clear_cache_of: Some(c.file) }
}

/// One step forward in the unit that the mode browses: track, frame or file.
pub fn move_data(mode: Mode, c: Cursor, n_tracks: usize, frames: &Vec<usize>) -> (r: Step)
    requires
        c.file < frames.len(),
        c.track < usize::MAX,
    ensures
        r == move_data_spec(mode, c, n_tracks as nat, frames@),
{
    match mode {
        Mode::Single => Step { cursor: move_track(c, n_tracks), clear_cache_of: None },
        Mode::Combined => matrix_move(c, frames),
        Mode::Compound => move_file(c, frames.len()),
    }
}

/// One step back in the unit that the mode browses: track, frame or file.
pub fn move_data_back(mode: Mode, c: Cursor, n_tracks: usize, frames: &Vec<usize>) -> (r: Step)
    requires
        c.file < frames.len(),
    ensures
        r == move_data_back_spec(mode, c, n_tracks as nat, frames@),
{
    match mode {
        Mode::Single => Step { cursor: move_track_back(c, n_tracks), clear_cache_of: None },
        Mode::Combined => matrix_move_back(c, frames),
        Mode::Compound => move_file_back(c, frames.len()),
    }
}

pub open spec fn clamp_track_spec(track: usize, n_tracks: nat) -> usize {
    if track >= n_tracks {
        (at_least_one(n_tracks) - 1) as usize
    } else {
        track
    }
}

/// Keeps the track index inside the tracks on view (on the last one when it fell outside).
pub fn clamp_track(track: usize, n_tracks: usize) -> (r: usize)
    ensures
        r == clamp_track_spec(track, n_tracks as nat),
        r < at_least_one(n_tracks as nat),
{
    if track >= n_tracks {
        at_least_one_of(n_tracks) - 1
    } else {
        track
    }
}

/// Every move keeps a valid cursor valid.
pub proof fn law_moves_stay_valid(mode: Mode, c: Cursor, frames: Seq<usize>, n_tracks: nat)
    requires
        cursor_valid(c, frames, n_tracks),
    ensures
        cursor_valid(move_data_spec(mode, c, n_tracks, frames).cursor, frames, n_tracks),
        cursor_valid(move_data_back_spec(mode, c, n_tracks, frames).cursor, frames, n_tracks),
{
}

proof fn lemma_succ_mod(t: int, n: int)
    requires
        0 <= t < n,
    ensures
        (t + 1) % n == if t + 1 < n {
            t + 1
        } else {
            0
        },
{
    if t + 1 < n {
        vstd::arithmetic::div_mod::lemma_small_mod((t + 1) as nat, n as nat);
    } else {
        vstd::arithmetic::div_mod::lemma_mod_self_0(n);
    }
}

/// A step back undoes a step forward, for a valid cursor on the first track (every frame and
/// file move puts the cursor on the first track) and, when files are browsed, on the first
/// frame.
pub proof fn law_back_undoes_forward(mode: Mode, c: Cursor, frames: Seq<usize>, n_tracks: nat)
    requires
        cursor_valid(c, frames, n_tracks),
        mode != Mode::Single ==> c.track == 0,
        mode == Mode::Compound ==> c.matrix == 0,
        n_tracks <= usize::MAX,
        frames.len() <= usize::MAX,
    ensures
        move_data_back_spec(mode, move_data_spec(mode, c, n_tracks, frames).cursor, n_tracks, frames).cursor == c,
{
    match mode {
        Mode::Single => {
            lemma_succ_mod(c.track as int, at_least_one(n_tracks) as int);
        },
        Mode::Combined => {
            let n = at_least_one(frames[c.file as int] as nat);
            lemma_succ_mod(c.file as int, frames.len() as int);
            lemma_succ_mod(c.matrix as int, n as int);
        },
        Mode::Compound => {
            lemma_succ_mod(c.file as int, frames.len() as int);
        },
    }
}

/// A step forward undoes a step back, for a valid cursor on the first track and, when files
/// are browsed, on the first frame.
pub proof fn law_forward_undoes_back(mode: Mode, c: Cursor, frames: Seq<usize>, n_tracks: nat)
    requires
        cursor_valid(c, frames, n_tracks),
        mode != Mode::Single ==> c.track == 0,
        mode == Mode::Compound ==> c.matrix == 0,
        n_tracks <= usize::MAX,
        frames.len() <= usize::MAX,
    ensures
        move_data_spec(mode, move_data_back_spec(mode, c, n_tracks, frames).cursor, n_tracks, frames).cursor == c,
{
    match mode {
        Mode::Single => {
            let n = at_least_one(n_tracks) as int;
            if c.track == 0 {
                lemma_succ_mod(n - 1, n);
            } else {
                lemma_succ_mod(c.track - 1, n);
            }
        },
        Mode::Combined => {
            if c.matrix == 0 {
                let f = previous_file_spec(c.file, frames.len());
                lemma_succ_mod(f as int, frames.len() as int);
            } else {
                lemma_succ_mod(c.matrix - 1, at_least_one(frames[c.file as int] as nat) as int);
            }
        },
        Mode::Compound => {
            let f = previous_file_spec(c.file, frames.len());
            lemma_succ_mod(f as int, frames.len() as int);
        },
    }
}

/// On a valid cursor, a track move goes to the next track, after the last to the first; the
/// move back to the previous track, before the first to the last.
pub proof fn law_track_moves(c: Cursor, n_tracks: nat)
    requires
        c.track < at_least_one(n_tracks),
        n_tracks <= usize::MAX,
    ensures
        move_track_spec(c, n_tracks).track == (if c.track + 1 < n_tracks { c.track + 1 } else { 0 }),
        move_track_back_spec(c, n_tracks).track == (if c.track > 0 {
            c.track - 1
        } else if n_tracks > 0 {
            n_tracks - 1
        } else {
            0
        }),
        move_track_spec(c, n_tracks).file == c.file && move_track_spec(c, n_tracks).matrix == c.matrix,
        move_track_back_spec(c, n_tracks).file == c.file && move_track_back_spec(c, n_tracks).matrix == c.matrix,
{
    lemma_succ_mod(c.track as int, at_least_one(n_tracks) as int);
}

/// On file `f` of `n` files, a file move goes to the first frame of file `f + 1`, after the
/// last file to file 0; the move back to file `f - 1`, before file 0 to the last file.
/// Either drops the file it leaves.
pub proof fn law_file_moves(c: Cursor, n_files: nat)
    requires
        c.file < n_files,
        n_files <= usize::MAX,
    ensures
        move_file_spec(c, n_files).cursor == (Cursor {
            file: (if c.file + 1 < n_files { c.file + 1 } else { 0 }) as usize,
            matrix: 0,
            track: 0,
        }),
        move_file_back_spec(c, n_files).cursor == (Cursor {
            file: (if c.file > 0 { c.file - 1 } else { n_files - 1 }) as usize,
            matrix: 0,
            track: 0,
        }),
        move_file_spec(c, n_files).clear_cache_of == Some(c.file),
        move_file_back_spec(c, n_files).clear_cache_of == Some(c.file),
{
    lemma_succ_mod(c.file as int, n_files as int);
}

/// On frame `m` of file `f` (with `frames[f]` frames, at least one counted), a frame move goes
/// to frame `m + 1`; from the last frame to frame 0 of the next file (after the last file,
/// file 0), dropping file `f`. The move back goes to frame `m - 1`; from frame 0 to the last
/// frame of the previous file (before file 0, the last file), dropping file `f`.
pub proof fn law_frame_moves(c: Cursor, frames: Seq<usize>)
    requires
        c.file < frames.len(),
        c.matrix < at_least_one(frames[c.file as int] as nat),
        frames.len() <= usize::MAX,
    ensures
        ({
            let last = at_least_one(frames[c.file as int] as nat) - 1;
            let r = matrix_move_spec(c, frames);
            &&& c.matrix < last ==> r == Step {
                cursor: Cursor { file: c.file, matrix: (c.matrix + 1) as usize, track: 0 },
                clear_cache_of: None,
            }
            &&& c.matrix == last ==> r == Step {
                cursor: Cursor {
                    file: (if c.file + 1 < frames.len() { c.file + 1 } else { 0 }) as usize,
                    matrix: 0,
                    track: 0,
                },
                clear_cache_of: Some(c.file),
            }
        }),
        ({
            let r = matrix_move_back_spec(c, frames);
            let p: int = if c.file > 0 { c.file - 1 } else { frames.len() - 1 };
            &&& c.matrix > 0 ==> r == Step {
                cursor: Cursor { file: c.file, matrix: (c.matrix - 1) as usize, track: 0 },
                clear_cache_of: None,
            }
            &&& c.matrix == 0 ==> r == Step {
                cursor: Cursor {
                    file: p as usize,
                    matrix: (at_least_one(frames[p] as nat) - 1) as usize,
                    track: 0,
                },
                clear_cache_of: Some(c.file),
            }
        }),
{
    lemma_succ_mod(c.file as int, frames.len() as int);
    lemma_succ_mod(c.matrix as int, at_least_one(frames[c.file as int] as nat) as int);
}

/// A track index inside the tracks is kept; one outside is put on the last track (on 0 when
/// there is none).
pub proof fn law_clamp_track(track: usize, n_tracks: nat)
    ensures
        track < n_tracks ==> clamp_track_spec(track, n_tracks) == track,
        track >= n_tracks ==> clamp_track_spec(track, n_tracks) == (if n_tracks > 0 { n_tracks - 1 } else { 0 }),
{
}

/// Browsing tracks changes only the track and drops no file; browsing files lands on the first
/// frame and track of another file position and drops the file left; browsing frames keeps
/// the file except on its last frame, always lands on the first track, and drops the file only
/// when it leaves it.
pub proof fn law_moves_by_mode(c: Cursor, n_tracks: nat, frames: Seq<usize>)
    requires
        cursor_valid(c, frames, n_tracks),
        n_tracks <= usize::MAX,
        frames.len() <= usize::MAX,
    ensures
        ({
            let r = move_data_spec(Mode::Single, c, n_tracks, frames);
            let b = move_data_back_spec(Mode::Single, c, n_tracks, frames);
            &&& r.cursor.file == c.file && r.cursor.matrix == c.matrix && r.clear_cache_of is None
            &&& b.cursor.file == c.file && b.cursor.matrix == c.matrix && b.clear_cache_of is None
        }),
        ({
            let r = move_data_spec(Mode::Compound, c, n_tracks, frames);
            let b = move_data_back_spec(Mode::Compound, c, n_tracks, frames);
            &&& r.cursor.matrix == 0 && r.cursor.track == 0 && r.clear_cache_of == Some(c.file)
            &&& b.cursor.matrix == 0 && b.cursor.track == 0 && b.clear_cache_of == Some(c.file)
            &&& frames.len() > 1 ==> r.cursor.file != c.file && b.cursor.file != c.file
        }),
        ({
            let r = move_data_spec(Mode::Combined, c, n_tracks, frames);
            let b = move_data_back_spec(Mode::Combined, c, n_tracks, frames);
            &&& r.cursor.track == 0 && b.cursor.track == 0
            &&& (r.clear_cache_of is Some <==> r.cursor.matrix == 0 && c.matrix + 1 == at_least_one(frames[c.file as int] as nat))
            &&& r.clear_cache_of is None ==> r.cursor.file == c.file && r.cursor.matrix == c.matrix + 1
            &&& (b.clear_cache_of is Some <==> c.matrix == 0)
            &&& b.clear_cache_of is None ==> b.cursor.file == c.file && b.cursor.matrix + 1 == c.matrix
        }),
{
    law_track_moves(c, n_tracks);
    law_file_moves(c, frames.len());
    law_frame_moves(c, frames);
}

} // verus!
