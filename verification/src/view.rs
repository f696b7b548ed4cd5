use vstd::prelude::*;

use crate::kinds::PartType;
use vstd::string::StringExecFns;

verus! {

/// Which classes of tracks are shown.
#[derive(Clone, Copy, Debug, PartialEq, Eq, Structural)]
pub struct TypeFilter {
    pub show_alpha: bool,
    pub show_beta: bool,
    pub show_gamma: bool,
    pub show_muon: bool,
    pub show_sus_muon: bool,
    pub show_unknown: bool,
    pub show_too_short_muon: bool,
}

pub open spec fn shows_spec(f: TypeFilter, t: PartType) -> bool {
    match t {
        PartType::Alpha => f.show_alpha,
        PartType::Beta => f.show_beta,
        PartType::Gamma => f.show_gamma,
        PartType::Muon => f.show_muon,
        PartType::SusMuon => f.show_sus_muon,
        PartType::Unknown => f.show_unknown,
        PartType::TooShortMuon => f.show_too_short_muon,
    }
}

impl TypeFilter {
    /// A filter that shows every class.
    pub fn all() -> (f: TypeFilter)
        ensures
            forall|t: PartType| shows_spec(f, t),
    {
        TypeFilter {
            show_alpha: true,
            show_beta: true,
            show_gamma: true,
            show_muon: true,
            show_sus_muon: true,
            show_unknown: true,
            show_too_short_muon: true,
        }
    }

    /// Whether tracks of class `t` are shown.
    pub fn shows(&self, t: PartType) -> (b: bool)
        ensures
            b == shows_spec(*self, t),
    {
        match t {
            PartType::Alpha => self.show_alpha,
            PartType::Beta => self.show_beta,
            PartType::Gamma => self.show_gamma,
            PartType::Muon => self.show_muon,
            PartType::SusMuon => self.show_sus_muon,
            PartType::Unknown => self.show_unknown,
            PartType::TooShortMuon => self.show_too_short_muon,
        }
    }
}

/// The positions, in order, of the first `n` tracks whose class the filter shows.
pub open spec fn visible_spec(types: Seq<PartType>, f: TypeFilter, n: nat) -> Seq<usize>
    decreases n,
{
    if n == 0 {
        seq![]
    } else {
        let prev = visible_spec(types, f, (n - 1) as nat);
        if shows_spec(f, types[n - 1]) {
            prev.push((n - 1) as usize)
        } else {
            prev
        }
    }
}

/// The positions of the tracks to draw: those whose class the filter shows, in order.
/// `types[i]` is the class of track `i`.
pub fn visible_tracks(types: &Vec<PartType>, filter: &TypeFilter) -> (r: Vec<usize>)
    ensures
        r@ == visible_spec(types@, *filter, types.len() as nat),
{
    let mut r: Vec<usize> = Vec::new();
    let mut i: usize = 0;
    while i < types.len()
        invariant
            i <= types.len(),
            r@ == visible_spec(types@, *filter, i as nat),
        decreases types.len() - i,
    {
        if filter.shows(types[i]) {
            r.push(i);
        }
        i = i + 1;
    }
    r
}

/// The number of the first `n` tracks that are of class `t`.
pub open spec fn count_spec(types: Seq<PartType>, t: PartType, n: nat) -> nat
    decreases n,
{
    if n == 0 {
        0
    } else {
        count_spec(types, t, (n - 1) as nat) + if types[n - 1] == t {
            1nat
        } else {
            0nat
        }
    }
}

/// How many tracks are of class `t`, for the statistics panel.
pub fn count_of(types: &Vec<PartType>, t: PartType) -> (c: usize)
    ensures
        c == count_spec(types@, t, types.len() as nat),
{
    let mut c: usize = 0;
    let mut i: usize = 0;
    while i < types.len()
        invariant
            i <= types.len(),
            c == count_spec(types@, t, i as nat),
            c <= i,
        decreases types.len() - i,
    {
        if types[i] == t {
            c = c + 1;
        }
        i = i + 1;
    }
    c
}

/// The tracks to draw are exactly those whose class is shown, each once, in order.
pub proof fn law_visible_is_filter(types: Seq<PartType>, f: TypeFilter, n: nat)
    requires
        n <= types.len(),
        n <= usize::MAX,
    ensures
        forall|j: int|
            0 <= j < visible_spec(types, f, n).len() ==> (#[trigger] visible_spec(types, f, n)[j]) < n
                && shows_spec(f, types[visible_spec(types, f, n)[j] as int]),
        forall|j: int, k: int|
            0 <= j < k < visible_spec(types, f, n).len() ==> #[trigger] visible_spec(types, f, n)[j]
                < #[trigger] visible_spec(types, f, n)[k],
        forall|i: int| 0 <= i < n && shows_spec(f, types[i]) ==> visible_spec(types, f, n).contains(i as usize),
    decreases n,
{
    if n > 0 {
        law_visible_is_filter(types, f, (n - 1) as nat);
        let prev = visible_spec(types, f, (n - 1) as nat);
        let cur = visible_spec(types, f, n);
        assert forall|i: int| 0 <= i < n && shows_spec(f, types[i]) implies cur.contains(i as usize) by {
            if i < n - 1 {
                let j = choose|j: int| 0 <= j < prev.len() && prev[j] == i as usize;
                assert(cur[j] == prev[j]);
            } else {
                assert(cur[cur.len() - 1] == i as usize);
            }
        }
    }
}

/// The counts of the classes add up to the number of tracks.
pub proof fn law_counts_add_up(types: Seq<PartType>, n: nat)
    requires
        n <= types.len(),
    ensures
        count_spec(types, PartType::Alpha, n) + count_spec(types, PartType::Beta, n) + count_spec(types, PartType::Gamma, n)
            + count_spec(types, PartType::Muon, n) + count_spec(types, PartType::SusMuon, n) + count_spec(
            types,
            PartType::Unknown,
            n,
        ) + count_spec(types, PartType::TooShortMuon, n) == n,
    decreases n,
{
    if n > 0 {
        law_counts_add_up(types, (n - 1) as nat);
    }
}

/// How a table of muons is sorted: by which column, if any, and in which direction.
#[derive(Clone, Copy, Debug, PartialEq, Eq, Structural)]
pub struct SortState {
    pub column: Option<usize>,
    pub ascending: bool,
}

/// What a click on the title of column `col` does: a new column is sorted descending; a
/// click on the sorted column turns descending into ascending, and ascending into unsorted.
/// The flag says whether the rows are to be sorted anew.
pub open spec fn click_header_spec(s: SortState, col: usize) -> (SortState, bool) {
    if s.column == Some(col) {
        if s.ascending {
            (SortState { column: None, ascending: s.ascending }, false)
        } else {
            (SortState { column: s.column, ascending: true }, true)
        }
    } else {
        (SortState { column: Some(col), ascending: false }, true)
    }
}

/// A click on the title of column `col`.
pub fn click_header(s: SortState, col: usize) -> (r: (SortState, bool))
    ensures
        r == click_header_spec(s, col),
{
    if s.column == Some(col) {
        if s.ascending {
            (SortState { column: None, ascending: s.ascending }, false)
        } else {
            (SortState { column: s.column, ascending: true }, true)
        }
    } else {
        (SortState { column: Some(col), ascending: false }, true)
    }
}

/// The title of column `col` as shown: with ` ^` when the table is sorted ascending by it,
/// ` v` when descending.
pub open spec fn header_label_spec(title: Seq<char>, s: SortState, col: usize) -> Seq<char> {
    if s.column == Some(col) {
        if s.ascending {
            title + " ^"@
        } else {
            title + " v"@
        }
    } else {
        title
    }
}

pub fn header_label(title: &str, s: SortState, col: usize) -> (r: String)
    ensures
        r@ == header_label_spec(title@, s, col),
{
    let mut r = String::from_str(title);
    if s.column == Some(col) {
        if s.ascending {
            r.append(" ^");
        } else {
            r.append(" v");
        }
    }
    r
}

/// Three clicks on the same column title go through descending and ascending back to unsorted,
/// from an unsorted table.
pub proof fn law_three_clicks_cycle(col: usize, ascending: bool)
    ensures
        ({
            let s0 = SortState { column: None, ascending };
            let (s1, sort1) = click_header_spec(s0, col);
            let (s2, sort2) = click_header_spec(s1, col);
            let (s3, sort3) = click_header_spec(s2, col);
            &&& s1 == SortState { column: Some(col), ascending: false } && sort1
            &&& s2 == SortState { column: Some(col), ascending: true } && sort2
            &&& s3.column is None && !sort3
        }),
{
}

/// The count of a class is the number of times it occurs among the tracks.
pub proof fn law_count_is_occurrences(types: Seq<PartType>, t: PartType, n: nat)
    requires
        n <= types.len(),
    ensures
        count_spec(types, t, n) == types.take(n as int).to_multiset().count(t),
    decreases n,
{
    broadcast use vstd::multiset::group_multiset_axioms;
    if n == 0 {
        let e = types.take(0);
        assert(e =~= Seq::<PartType>::empty());
        e.to_multiset_ensures();
        assert(!e.contains(t));
    } else {
        law_count_is_occurrences(types, t, (n - 1) as nat);
        let prev = types.take(n - 1);
        let x = types[n - 1];
        assert(types.take(n as int) =~= prev.push(x));
        vstd::seq_lib::to_multiset_build(prev, x);
        if x == t {
            vstd::multiset::lemma_insert_increases_count_by_1(prev.to_multiset(), x);
        } else {
            vstd::multiset::lemma_insert_other_elements_unchanged(prev.to_multiset(), x, t);
        }
    }
}

} // verus!
