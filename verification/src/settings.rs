use vstd::prelude::*;

use crate::text::{parse_i32, parse_i32_spec, parse_usize, parse_usize_spec};

verus! {

/// The shortest muon length that the import dialog accepts; shorter entries are raised to it.
pub const MIN_MUON_SIZE_FLOOR: usize = 4;

/// What the import dialog makes of its entries: the pixel depth and the minimum muon length
/// (raised to at least four), when both entries are numbers.
pub open spec fn import_settings_spec(depth: Seq<char>, min_muon_size: Seq<char>) -> Option<(i32, usize)> {
    match (parse_i32_spec(depth), parse_usize_spec(min_muon_size)) {
        (Some(d), Some(m)) => Some((d, if m < 4 { 4 } else { m })),
        _ => None,
    }
}

/// Reads the import dialog's entries.
pub fn import_settings(depth: &str, min_muon_size: &str) -> (r: Option<(i32, usize)>)
    ensures
        r == import_settings_spec(depth@, min_muon_size@),
{
    match (parse_i32(depth), parse_usize(min_muon_size)) {
        (Some(d), Some(m)) => Some((d, if m < MIN_MUON_SIZE_FLOOR { MIN_MUON_SIZE_FLOOR } else { m })),
        _ => None,
    }
}

/// The dialog accepts its entries exactly when both are numbers; the depth is taken as typed,
/// and the muon length is at least four and otherwise as typed.
pub proof fn law_import_settings(depth: Seq<char>, min_muon_size: Seq<char>)
    ensures
        import_settings_spec(depth, min_muon_size) is Some <==> (parse_i32_spec(depth) is Some && parse_usize_spec(
            min_muon_size,
        ) is Some),
        import_settings_spec(depth, min_muon_size) matches Some((d, m)) ==> d == parse_i32_spec(depth)->0 && m >= 4 && (
        parse_usize_spec(min_muon_size)->0 >= 4 ==> m == parse_usize_spec(min_muon_size)->0) && (parse_usize_spec(
            min_muon_size,
        )->0 < 4 ==> m == 4),
{
}

} // verus!
