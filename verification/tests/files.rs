use muon_decoder::frames::{ascii_read, frames_with_timestamps, matrix_read, read_lines, value_token, ReadError};
use muon_decoder::kinds::Mode;
use muon_decoder::navigation::{
    clamp_track, matrix_move, matrix_move_back, move_data, move_data_back, move_file, move_file_back, move_track,
    move_track_back, Cursor,
};
use muon_decoder::settings::import_settings;
use muon_decoder::text::{is_separator_line, parse_i32, parse_usize, split_tokens_of};
use muon_decoder::timestamps::get_timestamps;

fn lines(text: &str) -> Vec<String> {
    text.lines().map(String::from).collect()
}

fn values(ls: &[String]) -> Vec<Option<f32>> {
    ls.iter().map(|l| value_token(l).and_then(|t| t.parse::<f32>().ok())).collect()
}

fn rows(ls: &[String]) -> Vec<Option<Vec<f32>>> {
    ls.iter()
        .map(|l| {
            split_tokens_of(l, false)
                .iter()
                .map(|t| t.parse::<f32>().ok())
                .collect::<Option<Vec<f32>>>()
        })
        .collect()
}

fn read(text: &str) -> Result<Vec<Vec<f32>>, ReadError> {
    let ls = lines(text);
    read_lines(&ls, rows(&ls), &values(&ls), 0.0)
}

#[test]
fn tokens_split_at_white_space() {
    assert_eq!(split_tokens_of("  12 34\t0.84 ", true), vec!["12", "34", "0.84"]);
    assert_eq!(split_tokens_of("a\u{0B}b", true), vec!["a\u{0B}b"]);
    assert_eq!(split_tokens_of("a\u{0B}b", false), vec!["a", "b"]);
    assert_eq!(split_tokens_of("a\u{3000}b", false), vec!["a", "b"]);
    assert!(split_tokens_of("   ", false).is_empty());
}

#[test]
fn numbers_parse_as_usize() {
    assert_eq!(parse_usize("12"), Some(12));
    assert_eq!(parse_usize("+7"), Some(7));
    assert_eq!(parse_usize("007"), Some(7));
    assert_eq!(parse_usize(""), None);
    assert_eq!(parse_usize("+"), None);
    assert_eq!(parse_usize("-1"), None);
    assert_eq!(parse_usize("1.5"), None);
    assert_eq!(parse_usize(&usize::MAX.to_string()), Some(usize::MAX));
    assert_eq!(parse_usize("99999999999999999999999"), None);
}

#[test]
fn separator_lines() {
    assert!(is_separator_line("#"));
    assert!(is_separator_line("  #\t"));
    assert!(!is_separator_line("# #"));
    assert!(!is_separator_line("##"));
    assert!(!is_separator_line(""));
}

#[test]
fn coordinate_format_reads_frames() {
    let frames = read("12 34 0.84\n13 34 1.02\n#\n14 34 0.95\n#\n1 1 5\n").unwrap();
    assert_eq!(frames.len(), 3);
    assert_eq!(frames[2][1 * 256 + 1], 5.0);
    assert_eq!(frames[0].len(), 65536);
    assert_eq!(frames[0][12 * 256 + 34], 0.84);
    assert_eq!(frames[0][13 * 256 + 34], 1.02);
    assert_eq!(frames[0][14 * 256 + 34], 0.0);
    assert_eq!(frames[1][14 * 256 + 34], 0.95);
    assert_eq!(frames[1][12 * 256 + 34], 0.0);
}

#[test]
fn pixel_hit_lines_make_one_frame() {
    let frames = read("12 34 0.84\n13 34 1.02\n14 34 0.95\n").unwrap();
    assert_eq!(frames.len(), 1);
    assert_eq!(frames[0].len(), 65536);
    assert_eq!(frames[0][12 * 256 + 34], 0.84);
    assert_eq!(frames[0][13 * 256 + 34], 1.02);
    assert_eq!(frames[0][14 * 256 + 34], 0.95);
    let lit = frames[0].iter().filter(|v| **v != 0.0).count();
    assert_eq!(lit, 3);
}

#[test]
fn coordinate_format_errors() {
    assert_eq!(read(""), Err(ReadError::NoFrames));
    assert_eq!(read("1 2 3\n#\n").unwrap().len(), 1);
    assert_eq!(read("12 34\n#\n"), Err(ReadError::MissingField));
    assert_eq!(read("12 x 1\n#\n"), Err(ReadError::BadNumber));
    assert_eq!(read("12 3 energy\n#\n"), Err(ReadError::BadValue));
    assert_eq!(read("256 0 1\n#\n"), Err(ReadError::OutOfGrid));
    assert_eq!(read("\n#\n"), Err(ReadError::MissingField));
    let wrapped = read("0 300 2.5\n#\n").unwrap();
    assert_eq!(wrapped[0][300], 2.5);
}

#[test]
fn matrix_format_reads_rows() {
    let row = vec!["1"; 256].join(" ");
    let text = format!("{}\n{}\n", row, "2 3");
    let frames = read(&text).unwrap();
    assert_eq!(frames.len(), 2);
    assert_eq!(frames[0].len(), 256);
    assert_eq!(frames[1], vec![2.0, 3.0]);
    assert_eq!(matrix_read::<f32>(Vec::new()), Err(ReadError::Empty));
    assert_eq!(matrix_read(vec![Some(vec![1.0f32])]), Err(ReadError::RowWidth));
    assert_eq!(matrix_read(vec![Some(vec![1.0f32; 256]), None]), Err(ReadError::BadNumber));
}

#[test]
fn coordinate_reader_alone() {
    let ls = lines("1 2 3\n#\n");
    let vs = values(&ls);
    let frames = ascii_read(&ls, &vs, 0.0f32).unwrap();
    assert_eq!(frames[0][1 * 256 + 2], 3.0);
    assert_eq!(value_token("1 2 3.5 9"), Some(String::from("3.5")));
    assert_eq!(value_token("1 2"), None);
}

#[test]
fn frames_get_their_timestamps() {
    let frames = frames_with_timestamps(Ok(vec![vec![1u8], vec![2u8], vec![3u8]]), 0u8, &vec![10u32, 20u32], 0u32);
    assert_eq!(frames.len(), 3);
    assert_eq!(frames[1].matrix, vec![2u8]);
    assert_eq!(frames[1].timestamp, 20);
    assert_eq!(frames[2].timestamp, 0);
    let blank = frames_with_timestamps::<u8, u32>(Err(ReadError::NoFrames), 0u8, &vec![], 7u32);
    assert_eq!(blank.len(), 1);
    assert_eq!(blank[0].matrix.len(), 65536);
    assert_eq!(blank[0].timestamp, 7);
}

#[test]
fn description_timestamps() {
    let marker = "\"Start time (string)\" (\"Acquisition start time (string)\"):";
    let dsc = vec![
        String::from("header"),
        String::from(marker),
        String::from("skipped"),
        String::from("Mon Jan 02 13:45:30.123 2023"),
        String::from(marker),
        String::from("skipped"),
        String::from("not a date"),
        String::from(marker),
    ];
    let times = get_timestamps(&dsc);
    assert_eq!(times.len(), 3);
    let first = times[0].unwrap();
    assert_eq!(first.to_string(), "2023-01-02 13:45:30.123");
    assert_eq!(times[1], None);
    assert_eq!(times[2], None);
}

#[test]
fn tracks_wrap_around() {
    let c = Cursor { file: 0, matrix: 0, track: 2 };
    assert_eq!(move_track(c, 3).track, 0);
    assert_eq!(move_track_back(Cursor { track: 0, ..c }, 3).track, 2);
    assert_eq!(move_track(c, 0).track, 0);
    assert_eq!(clamp_track(5, 3), 2);
    assert_eq!(clamp_track(5, 0), 0);
    assert_eq!(clamp_track(1, 3), 1);
}

#[test]
fn frames_and_files_wrap_around() {
    let frames = vec![2usize, 3usize];
    let c = Cursor { file: 0, matrix: 1, track: 4 };
    let next = matrix_move(c, &frames);
    assert_eq!(next.cursor, Cursor { file: 1, matrix: 0, track: 0 });
    assert_eq!(next.clear_cache_of, Some(0));
    let back = matrix_move_back(next.cursor, &frames);
    assert_eq!(back.cursor, Cursor { file: 0, matrix: 1, track: 0 });
    assert_eq!(back.clear_cache_of, Some(1));
    let within = matrix_move(Cursor { file: 1, matrix: 0, track: 0 }, &frames);
    assert_eq!(within.cursor, Cursor { file: 1, matrix: 1, track: 0 });
    assert_eq!(within.clear_cache_of, None);
    let wrap = matrix_move(Cursor { file: 1, matrix: 2, track: 0 }, &frames);
    assert_eq!(wrap.cursor, Cursor { file: 0, matrix: 0, track: 0 });
    let first_back = matrix_move_back(Cursor { file: 0, matrix: 0, track: 0 }, &frames);
    assert_eq!(first_back.cursor, Cursor { file: 1, matrix: 2, track: 0 });
    assert_eq!(move_file(Cursor { file: 1, matrix: 2, track: 1 }, 2).cursor, Cursor { file: 0, matrix: 0, track: 0 });
    assert_eq!(move_file_back(Cursor { file: 0, matrix: 2, track: 1 }, 2).cursor, Cursor { file: 1, matrix: 0, track: 0 });
    let single = move_data(Mode::Single, Cursor { file: 0, matrix: 0, track: 0 }, 2, &frames);
    assert_eq!(single.cursor.track, 1);
    assert_eq!(single.clear_cache_of, None);
    let compound = move_data_back(Mode::Compound, Cursor { file: 1, matrix: 0, track: 0 }, 2, &frames);
    assert_eq!(compound.cursor.file, 0);
    assert_eq!(compound.clear_cache_of, Some(1));
}

#[test]
fn numbers_parse_as_i32() {
    assert_eq!(parse_i32("300"), Some(300));
    assert_eq!(parse_i32("-300"), Some(-300));
    assert_eq!(parse_i32("+7"), Some(7));
    assert_eq!(parse_i32("-"), None);
    assert_eq!(parse_i32(""), None);
    assert_eq!(parse_i32("2147483647"), Some(i32::MAX));
    assert_eq!(parse_i32("-2147483648"), Some(i32::MIN));
    assert_eq!(parse_i32("2147483648"), None);
    assert_eq!(parse_i32("-2147483649"), None);
    assert_eq!(parse_i32("1 "), None);
}

#[test]
fn import_dialog_entries() {
    assert_eq!(import_settings("300", "20"), Some((300, 20)));
    assert_eq!(import_settings("300", "2"), Some((300, 4)));
    assert_eq!(import_settings("x", "20"), None);
    assert_eq!(import_settings("300", "-1"), None);
}
