use vstd::prelude::*;
use vstd::string::StringExecFns;

use crate::text::chars_of;

verus! {

/// The classes into which a pixel cluster (a track) is sorted.
#[derive(Clone, Copy, Debug, PartialEq, Eq, Hash, Structural)]
pub enum PartType {
    Alpha,
    Beta,
    Gamma,
    Muon,
    SusMuon,
    Unknown,
    TooShortMuon,
}

/// The compass direction that the long side of the detector points to.
#[derive(Clone, Copy, Debug, PartialEq, Eq, Structural)]
pub enum Orientation {
    North,
    South,
    West,
    East,
}

pub open spec fn azimuth_spec(o: Orientation) -> u32 {
    match o {
        Orientation::North => 0,
        Orientation::South => 180,
        Orientation::West => 270,
        Orientation::East => 90,
    }
}

impl Orientation {
    /// The detector's azimuth in whole degrees: 0 north, 90 east, 180 south, 270 west.
    pub fn azimuth(&self) -> (deg: u32)
        ensures
            deg == azimuth_spec(*self),
    {
        match self {
            Orientation::North => 0,
            Orientation::South => 180,
            Orientation::West => 270,
            Orientation::East => 90,
        }
    }

    /// The four orientations, in the order that the import dialog offers them.
    pub fn all_values(&self) -> (v: Vec<Orientation>)
        ensures
            v@ == seq![
                Orientation::North,
                Orientation::South,
                Orientation::West,
                Orientation::East,
            ],
    {
        let mut v = Vec::new();
        v.push(Orientation::North);
        v.push(Orientation::South);
        v.push(Orientation::West);
        v.push(Orientation::East);
        v
    }
}

/// The three ways of browsing the data: one track, one frame, one whole file.
#[derive(Clone, Copy, Debug, PartialEq, Eq, Hash, Structural)]
pub enum Mode {
    Single,
    Combined,
    Compound,
}

/// The interface languages.
#[derive(Clone, Copy, Debug, PartialEq, Eq, Structural)]
pub enum Langs {
    Cs,
    En,
    Ocs,
    Uwu,
    De,
}

pub open spec fn lang_list_spec(easter_egg_on: bool) -> Seq<Langs> {
    if easter_egg_on {
        seq![Langs::En, Langs::Cs, Langs::Ocs, Langs::De, Langs::Uwu]
    } else {
        seq![Langs::En, Langs::Cs, Langs::De]
    }
}

pub open spec fn readable_spec(l: Langs) -> Seq<char> {
    match l {
        Langs::En => "English"@,
        Langs::Cs => "Čeština"@,
        Langs::De => "Deutsch"@,
        Langs::Ocs => "Staročeština"@,
        Langs::Uwu => "UwU"@,
    }
}

/// The short code of a language, as it is written in the configuration file.
pub open spec fn code_spec(l: Langs) -> Seq<char> {
    match l {
        Langs::Cs => "cs"@,
        Langs::En => "en"@,
        Langs::Ocs => "ocs"@,
        Langs::De => "de"@,
        Langs::Uwu => "uwu"@,
    }
}

pub open spec fn ascii_lower(c: char) -> char {
    if 'A' <= c <= 'Z' {
        ((c as u32) + 32) as char
    } else {
        c
    }
}

pub open spec fn lower_spec(s: Seq<char>) -> Seq<char> {
    s.map_values(|c: char| ascii_lower(c))
}

/// Which language a code names, ignoring ASCII case.
pub open spec fn from_code_spec(s: Seq<char>) -> Option<Langs> {
    let l = lower_spec(s);
    if l == "cs"@ {
        Some(Langs::Cs)
    } else if l == "en"@ {
        Some(Langs::En)
    } else if l == "ocs"@ {
        Some(Langs::Ocs)
    } else if l == "de"@ {
        Some(Langs::De)
    } else if l == "uwu"@ {
        Some(Langs::Uwu)
    } else {
        None
    }
}

fn lower_char(c: char) -> (r: char)
    ensures
        r == ascii_lower(c),
{
    if 'A' <= c && c <= 'Z' {
        ((c as u8) + 32) as char
    } else {
        c
    }
}

/// Whether `s`, with its ASCII capitals made small, is `word`.
fn lower_equals(s: &Vec<char>, word: &str) -> (b: bool)
    ensures
        b == (lower_spec(s@) == word@),
{
    let w = chars_of(word);
    if s.len() != w.len() {
        assert(lower_spec(s@).len() != word@.len());
        return false;
    }
    let mut i: usize = 0;
    while i < s.len()
        invariant
            i <= s.len(),
            s.len() == w.len(),
            w@ == word@,
            forall|j: int| 0 <= j < i ==> ascii_lower(#[trigger] s@[j]) == w@[j],
        decreases s.len() - i,
    {
        if lower_char(s[i]) != w[i] {
            assert(lower_spec(s@)[i as int] != word@[i as int]);
            return false;
        }
        i = i + 1;
    }
    assert(lower_spec(s@) =~= word@);
    true
}

impl Langs {
    /// The languages that the language menu offers; the last two only with the easter egg.
    pub fn list(easter_egg_on: bool) -> (v: Vec<Langs>)
        ensures
            v@ == lang_list_spec(easter_egg_on),
    {
        let mut v = Vec::new();
        if easter_egg_on {
            v.push(Langs::En);
            v.push(Langs::Cs);
            v.push(Langs::Ocs);
            v.push(Langs::De);
            v.push(Langs::Uwu);
        } else {
            v.push(Langs::En);
            v.push(Langs::Cs);
            v.push(Langs::De);
        }
        v
    }

    /// The name of the language in that language, for the language menu.
    pub fn to_readable(&self) -> (s: String)
        ensures
            s@ == readable_spec(*self),
    {
        match self {
            Langs::En => String::from_str("English"),
            Langs::Cs => String::from_str("Čeština"),
            Langs::De => String::from_str("Deutsch"),
            Langs::Ocs => String::from_str("Staročeština"),
            Langs::Uwu => String::from_str("UwU"),
        }
    }

    /// The language's code, as the configuration file records it.
    pub fn code(&self) -> (s: String)
        ensures
            s@ == code_spec(*self),
    {
        match self {
            Langs::Cs => String::from_str("cs"),
            Langs::En => String::from_str("en"),
            Langs::Ocs => String::from_str("ocs"),
            Langs::De => String::from_str("de"),
            Langs::Uwu => String::from_str("uwu"),
        }
    }

    /// Reads a language code (`cs`, `en`, `ocs`, `de`, `uwu`), ignoring ASCII case.
    pub fn from_code(s: &str) -> (r: Option<Langs>)
        ensures
            r == from_code_spec(s@),
    {
        let chars = chars_of(s);
        if lower_equals(&chars, "cs") {
            Some(Langs::Cs)
        } else if lower_equals(&chars, "en") {
            Some(Langs::En)
        } else if lower_equals(&chars, "ocs") {
            Some(Langs::Ocs)
        } else if lower_equals(&chars, "de") {
            Some(Langs::De)
        } else if lower_equals(&chars, "uwu") {
            Some(Langs::Uwu)
        } else {
            None
        }
    }
}

/// Reading back the code of a language gives the language.
pub proof fn law_code_round_trip(l: Langs)
    ensures
        from_code_spec(code_spec(l)) == Some(l),
{
    reveal_strlit("cs");
    reveal_strlit("en");
    reveal_strlit("ocs");
    reveal_strlit("de");
    reveal_strlit("uwu");
    assert(lower_spec("cs"@) =~= "cs"@);
    assert(lower_spec("en"@) =~= "en"@);
    assert(lower_spec("ocs"@) =~= "ocs"@);
    assert(lower_spec("de"@) =~= "de"@);
    assert(lower_spec("uwu"@) =~= "uwu"@);
    assert("en"@[0] != "cs"@[0]);
    assert("de"@[0] != "cs"@[0]);
    assert("de"@[0] != "en"@[0]);
    assert("ocs"@.len() != "cs"@.len());
    assert("ocs"@.len() != "en"@.len());
    assert("ocs"@.len() != "de"@.len());
    assert("uwu"@.len() != "cs"@.len());
    assert("uwu"@.len() != "en"@.len());
    assert("uwu"@.len() != "de"@.len());
    assert("uwu"@[0] != "ocs"@[0]);
}

/// Every language that the plain menu offers is offered with the easter egg too.
pub proof fn law_list_grows_with_easter_egg(l: Langs)
    requires
        lang_list_spec(false).contains(l),
    ensures
        lang_list_spec(true).contains(l),
{
    let s = lang_list_spec(false);
    let t = lang_list_spec(true);
    let i = choose|i: int| 0 <= i < s.len() && s[i] == l;
    if i == 0 {
        assert(t[0] == l);
    } else if i == 1 {
        assert(t[1] == l);
    } else {
        assert(t[3] == l);
    }
}

/// Azimuths go clockwise in quarter turns from north: north 0, east a quarter turn further,
/// then south, then west.
pub proof fn law_azimuth_clockwise()
    ensures
        azimuth_spec(Orientation::North) == 0,
        azimuth_spec(Orientation::East) == azimuth_spec(Orientation::North) + 90,
        azimuth_spec(Orientation::South) == azimuth_spec(Orientation::East) + 90,
        azimuth_spec(Orientation::West) == azimuth_spec(Orientation::South) + 90,
{
}

} // verus!
