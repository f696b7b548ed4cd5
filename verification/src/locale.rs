use vstd::prelude::*;
use vstd::string::StringExecFns;

use crate::kinds::{code_spec, Langs, Orientation};
use crate::text::str_equal;
use serde_json::Value;

verus! {

/// What `serde_json::from_str::<serde_json::Map<String, serde_json::Value>>(text)` returns,
/// read as the object's entries in the map's order, each key with its value's text when
/// the value is a JSON string and `None` when it is another JSON value; `None` when the text
/// is not a JSON object.
pub uninterp spec fn json_object_entries(text: Seq<char>) -> Option<Seq<(Seq<char>, Option<Seq<char>>)>>;

/// Calls `serde_json::from_str` for a JSON object and lists its entries. Its result depends
/// on the text alone; the contract names it and says nothing of which texts parse.
#[verifier::external_body]
fn parse_json_object(text: &str) -> (r: Option<Vec<(String, Option<String>)>>)
    ensures
        r.deep_view() == json_object_entries(text@),
{
    match serde_json::from_str::<serde_json::Map<String, Value>>(text) {
        Ok(map) => Some(map.into_iter().map(|(k, v)| (k, match v {
            Value::String(s) => Some(s),
            Value::Null => None,
            Value::Bool(_) => None,
            Value::Number(_) => None,
            Value::Array(_) => None,
            Value::Object(_) => None,
        })).collect()),
        Err(_) => None,
    }
}

/// The keys of the interface texts, in the order of the fields of the texts.
pub open spec fn locale_keys_spec() -> Seq<Seq<char>> {
    seq![
        "title"@,
        "arrow_left"@,
        "arrow_right"@,
        "single_mode"@,
        "combined_mode"@,
        "compound_mode"@,
        "cubic_view"@,
        "mode"@,
        "particles"@,
        "heavy_blob"@,
        "curly_track"@,
        "dot"@,
        "straight_track"@,
        "int_straight_track"@,
        "heavy_track"@,
        "unknown"@,
        "too_short_muon"@,
        "muon_section_header"@,
        "sus_muon_section_header"@,
        "export"@,
        "export_all"@,
        "import"@,
        "import_dialog_title"@,
        "import_dialog_dimensions"@,
        "import_dialog_depth"@,
        "import_dialog_min_muon_size"@,
        "import_dialog_compass"@,
        "import_dialog_confirm"@,
        "import_dialog_cancel"@,
        "north"@,
        "south"@,
        "east"@,
        "west"@,
        "tracks"@,
        "file_location"@,
        "particle_type_label"@,
        "size_label"@,
        "avg_energy_label"@,
        "let_avg_label"@,
        "total_energy_label"@,
        "azimuth_label"@,
        "azimuth_offset_label"@,
        "abs_angle_primary_label"@,
        "zenith_label"@,
        "winding_label"@,
        "get_frame_index_label"@,
        "get_timestamp_label"@,
        "muon_list_zenith"@,
        "muon_list_abs_angle_primary"@,
        "muon_list_azimuth"@,
        "muon_list_total_energy"@,
        "muon_list_size"@,
        "muon_list_let_avg"@,
        "muon_list_timestamp"@,
        "muon_list_frame_index"@,
        "muon_list_file"@,
        "muon_list_azimuth_offset"@,
        "save_csv"@
    ]
}

/// The keys of the interface texts.
pub fn locale_keys() -> (v: Vec<&'static str>)
    ensures
        v.deep_view() == locale_keys_spec(),
{
    let mut v: Vec<&'static str> = Vec::new();
    v.push("title");
    v.push("arrow_left");
    v.push("arrow_right");
    v.push("single_mode");
    v.push("combined_mode");
    v.push("compound_mode");
    v.push("cubic_view");
    v.push("mode");
    v.push("particles");
    v.push("heavy_blob");
    v.push("curly_track");
    v.push("dot");
    v.push("straight_track");
    v.push("int_straight_track");
    v.push("heavy_track");
    v.push("unknown");
    v.push("too_short_muon");
    v.push("muon_section_header");
    v.push("sus_muon_section_header");
    v.push("export");
    v.push("export_all");
    v.push("import");
    v.push("import_dialog_title");
    v.push("import_dialog_dimensions");
    v.push("import_dialog_depth");
    v.push("import_dialog_min_muon_size");
    v.push("import_dialog_compass");
    v.push("import_dialog_confirm");
    v.push("import_dialog_cancel");
    v.push("north");
    v.push("south");
    v.push("east");
    v.push("west");
    v.push("tracks");
    v.push("file_location");
    v.push("particle_type_label");
    v.push("size_label");
    v.push("avg_energy_label");
    v.push("let_avg_label");
    v.push("total_energy_label");
    v.push("azimuth_label");
    v.push("azimuth_offset_label");
    v.push("abs_angle_primary_label");
    v.push("zenith_label");
    v.push("winding_label");
    v.push("get_frame_index_label");
    v.push("get_timestamp_label");
    v.push("muon_list_zenith");
    v.push("muon_list_abs_angle_primary");
    v.push("muon_list_azimuth");
    v.push("muon_list_total_energy");
    v.push("muon_list_size");
    v.push("muon_list_let_avg");
    v.push("muon_list_timestamp");
    v.push("muon_list_frame_index");
    v.push("muon_list_file");
    v.push("muon_list_azimuth_offset");
    v.push("save_csv");
    assert(v.deep_view() =~= locale_keys_spec());
    v
}

/// The value of `key` in the entries, when the first entry with that key holds a string.
pub open spec fn lookup(entries: Seq<(Seq<char>, Option<Seq<char>>)>, key: Seq<char>) -> Option<Seq<char>>
    decreases entries.len(),
{
    if entries.len() == 0 {
        None
    } else if entries[0].0 == key {
        entries[0].1
    } else {
        lookup(entries.drop_first(), key)
    }
}

/// The text shown for a key that no locale provides.
pub open spec fn missing_text(key: Seq<char>) -> Seq<char> {
    "⚠ MISSING:"@ + key
}

/// The text for `key`: the locale's own, else the fallback locale's, else the missing-key
/// text.
pub open spec fn resolve_spec(
    map: Seq<(Seq<char>, Option<Seq<char>>)>,
    fallback: Option<Seq<(Seq<char>, Option<Seq<char>>)>>,
    key: Seq<char>,
) -> Seq<char> {
    match lookup(map, key) {
        Some(v) => v,
        None => match fallback {
            Some(fb) => match lookup(fb, key) {
                Some(v) => v,
                None => missing_text(key),
            },
            None => missing_text(key),
        },
    }
}

/// The keys among the first `n` that the locale itself lacks, in order.
pub open spec fn missing_keys_spec(map: Seq<(Seq<char>, Option<Seq<char>>)>, keys: Seq<Seq<char>>, n: nat) -> Seq<Seq<char>>
    decreases n,
{
    if n == 0 {
        seq![]
    } else {
        let prev = missing_keys_spec(map, keys, (n - 1) as nat);
        if lookup(map, keys[n - 1]) is None {
            prev.push(keys[n - 1])
        } else {
            prev
        }
    }
}

/// The text of each key, in the order of the keys.
pub open spec fn resolved_texts(
    map: Seq<(Seq<char>, Option<Seq<char>>)>,
    fallback: Option<Seq<(Seq<char>, Option<Seq<char>>)>>,
) -> Seq<Seq<char>> {
    locale_keys_spec().map_values(|k: Seq<char>| resolve_spec(map, fallback, k))
}

pub open spec fn missing_keys(map: Seq<(Seq<char>, Option<Seq<char>>)>) -> Seq<Seq<char>> {
    missing_keys_spec(map, locale_keys_spec(), locale_keys_spec().len())
}

/// Looks `key` up in the entries of a locale.
fn lookup_entry(entries: &Vec<(String, Option<String>)>, key: &str) -> (r: Option<String>)
    ensures
        r.deep_view() == lookup(entries.deep_view(), key@),
{
    let ghost es = entries.deep_view();
    let mut i: usize = 0;
    assert(es.skip(0) =~= es);
    while i < entries.len()
        invariant
            i <= entries.len(),
            es == entries.deep_view(),
            lookup(es, key@) == lookup(es.skip(i as int), key@),
        decreases entries.len() - i,
    {
        let ghost rest = es.skip(i as int);
        assert(rest[0] == es[i as int]);
        assert(es[i as int] == entries@[i as int].deep_view());
        if str_equal(entries[i].0.as_str(), key) {
            let v = entries[i].1.clone();
            proof {
                assert(v.deep_view() == entries@[i as int].1.deep_view()) by {
                    match entries@[i as int].1 {
                        Some(x) => {},
                        None => {},
                    }
                }
            }
            return v;
        }
        assert(rest.drop_first() =~= es.skip(i + 1));
        i = i + 1;
    }
    None
}

/// The interface texts, one for each key, in the order of the keys.
#[derive(Clone, Debug)]
pub struct Texts {
    pub values: Vec<String>,
}

/// The texts of every key from a locale's entries, with an optional fallback locale, and
/// the keys that the locale lacks.
pub fn from_map(
    map: &Vec<(String, Option<String>)>,
    fallback: Option<&Vec<(String, Option<String>)>>,
) -> (r: (Texts, Vec<String>))
    ensures
        r.0.values.deep_view() == resolved_texts(
            map.deep_view(),
            match fallback {
                Some(fb) => Some(fb.deep_view()),
                None => None,
            },
        ),
        r.1.deep_view() == missing_keys(map.deep_view()),
{
    let ghost m = map.deep_view();
    let ghost fb = match fallback {
        Some(f) => Some(f.deep_view()),
        None => None,
    };
    let keys = locale_keys();
    let ghost ks = locale_keys_spec();
    let mut values: Vec<String> = Vec::new();
    let mut missing: Vec<String> = Vec::new();
    let mut i: usize = 0;
    while i < keys.len()
        invariant
            i <= keys.len(),
            keys.deep_view() == ks,
            ks == locale_keys_spec(),
            m == map.deep_view(),
            fb == match fallback {
                Some(f) => Some(f.deep_view()),
                None => None,
            },
            values.len() == i,
            forall|j: int| 0 <= j < i ==> (#[trigger] values@[j])@ == resolve_spec(m, fb, ks[j]),
            missing.deep_view() == missing_keys_spec(m, ks, i as nat),
        decreases keys.len() - i,
    {
        let key = keys[i];
        assert(key@ == ks[i as int]);
        let own = lookup_entry(map, key);
        let ghost prev_missing = missing.deep_view();
        let text = match own {
            Some(v) => v,
            None => {
                missing.push(String::from_str(key));
                assert(missing.deep_view() =~= prev_missing.push(key@));
                let other = match fallback {
                    Some(f) => lookup_entry(f, key),
                    None => None,
                };
                match other {
                    Some(v) => v,
                    None => {
                        let mut t = String::from_str("⚠ MISSING:");
                        t.append(key);
                        t
                    },
                }
            },
        };
        values.push(text);
        i = i + 1;
    }
    let ghost vs = values.deep_view();
    assert(vs =~= resolved_texts(m, fb)) by {
        assert forall|j: int| 0 <= j < vs.len() implies vs[j] == resolved_texts(m, fb)[j] by {
            assert(vs[j] == values@[j]@);
        }
    }
    (Texts { values }, missing)
}

/// The first position, below `n`, of `key` among the keys of the interface texts.
pub open spec fn key_index_below(key: Seq<char>, n: nat) -> Option<int>
    decreases n,
{
    if n == 0 {
        None
    } else {
        match key_index_below(key, (n - 1) as nat) {
            Some(i) => Some(i),
            None => if locale_keys_spec()[n - 1] == key {
                Some(n - 1)
            } else {
                None
            },
        }
    }
}

/// The position of `key` among the keys of the interface texts.
pub open spec fn key_index(key: Seq<char>) -> Option<int> {
    key_index_below(key, locale_keys_spec().len())
}

/// The text of `key` among `values` (the texts in the order of the keys); empty for a key
/// that is not one of them.
pub open spec fn text_spec(values: Seq<Seq<char>>, key: Seq<char>) -> Seq<char> {
    match key_index(key) {
        Some(i) => if i < values.len() {
            values[i]
        } else {
            seq![]
        },
        None => seq![],
    }
}

proof fn lemma_key_index_settles(key: Seq<char>, n: nat, m: nat)
    requires
        n <= m,
        key_index_below(key, n) is Some,
    ensures
        key_index_below(key, m) == key_index_below(key, n),
    decreases m - n,
{
    if n < m {
        lemma_key_index_settles(key, n, (m - 1) as nat);
    }
}

impl Texts {
    /// The text of `key`.
    pub fn text(&self, key: &str) -> (s: String)
        ensures
            s@ == text_spec(self.values.deep_view(), key@),
    {
        let keys = locale_keys();
        let mut i: usize = 0;
        while i < keys.len()
            invariant
                i <= keys.len(),
                keys.deep_view() == locale_keys_spec(),
                key_index_below(key@, i as nat) is None,
            decreases keys.len() - i,
        {
            assert(keys@[i as int]@ == locale_keys_spec()[i as int]);
            if str_equal(keys[i], key) {
                proof {
                    assert(key_index_below(key@, (i + 1) as nat) == Some(i as int));
                    lemma_key_index_settles(key@, (i + 1) as nat, locale_keys_spec().len());
                }
                if i < self.values.len() {
                    assert(self.values.deep_view()[i as int] == self.values@[i as int]@);
                    return self.values[i].clone();
                } else {
                    return String::new();
                }
            }
            i = i + 1;
        }
        String::new()
    }
}

impl Orientation {
    /// The name of the orientation in the interface language.
    pub fn into_readable(self, texts: &Texts) -> (s: String)
        ensures
            s@ == text_spec(
                texts.values.deep_view(),
                match self {
                    Orientation::North => "north"@,
                    Orientation::South => "south"@,
                    Orientation::West => "west"@,
                    Orientation::East => "east"@,
                },
            ),
    {
        match self {
            Orientation::North => texts.text("north"),
            Orientation::South => texts.text("south"),
            Orientation::West => texts.text("west"),
            Orientation::East => texts.text("east"),
        }
    }
}

/// The raw text of each locale, as JSON objects from key to text.
pub struct LocaleSources {
    pub en: String,
    pub cs: String,
    pub ocs: String,
    pub de: String,
    pub uwu: String,
}

pub open spec fn source_spec(lang: Langs, s: &LocaleSources) -> Seq<char> {
    match lang {
        Langs::En => s.en@,
        Langs::Cs => s.cs@,
        Langs::Ocs => s.ocs@,
        Langs::De => s.de@,
        Langs::Uwu => s.uwu@,
    }
}

/// Why a locale cannot be loaded.
#[derive(Clone, Debug)]
pub enum LocaleError {
    /// The English locale, the fallback of the others, is not a JSON object.
    EnglishInvalid,
    /// The chosen locale is not a JSON object.
    LocaleInvalid,
    /// The chosen locale lacks these keys.
    Missing(Vec<String>),
}

pub open spec fn fallback_spec(lang: Langs, s: &LocaleSources) -> Option<Seq<(Seq<char>, Option<Seq<char>>)>> {
    if lang == Langs::En {
        None
    } else {
        json_object_entries(s.en@)
    }
}

fn source_of(lang: Langs, s: &LocaleSources) -> (r: &str)
    ensures
        r@ == source_spec(lang, s),
{
    match lang {
        Langs::En => s.en.as_str(),
        Langs::Cs => s.cs.as_str(),
        Langs::Ocs => s.ocs.as_str(),
        Langs::De => s.de.as_str(),
        Langs::Uwu => s.uwu.as_str(),
    }
}

/// Loads the texts of a language with the English texts as fallback, and lists the keys
/// that the language itself lacks.
pub fn load(lang: Langs, sources: &LocaleSources) -> (r: Result<(Texts, Vec<String>), LocaleError>)
    ensures
        json_object_entries(sources.en@) is None ==> r matches Err(LocaleError::EnglishInvalid),
        json_object_entries(sources.en@) is Some && json_object_entries(source_spec(lang, sources)) is None
            ==> r matches Err(LocaleError::LocaleInvalid),
        json_object_entries(sources.en@) is Some && json_object_entries(source_spec(lang, sources)) is Some
            ==> (r matches Ok((texts, missing)) && {
            let map = json_object_entries(source_spec(lang, sources))->0;
            &&& texts.values.deep_view() == resolved_texts(map, fallback_spec(lang, sources))
            &&& missing.deep_view() == missing_keys(map)
        }),
{
    let english = match parse_json_object(sources.en.as_str()) {
        Some(e) => e,
        None => {
            return Err(LocaleError::EnglishInvalid);
        },
    };
    let raw = source_of(lang, sources);
    let map = match parse_json_object(raw) {
        Some(m) => m,
        None => {
            return Err(LocaleError::LocaleInvalid);
        },
    };
    let is_english = lang == Langs::En;
    let fallback = if is_english {
        None
    } else {
        Some(&english)
    };
    Ok(from_map(&map, fallback))
}

/// Loads the texts of a language, failing with the keys that the language lacks.
pub fn load_strict(lang: Langs, sources: &LocaleSources) -> (r: Result<Texts, LocaleError>)
    ensures
        json_object_entries(sources.en@) is None ==> r matches Err(LocaleError::EnglishInvalid),
        json_object_entries(sources.en@) is Some && json_object_entries(source_spec(lang, sources)) is None
            ==> r matches Err(LocaleError::LocaleInvalid),
        json_object_entries(sources.en@) is Some && json_object_entries(source_spec(lang, sources)) is Some
            ==> {
            let map = json_object_entries(source_spec(lang, sources))->0;
            &&& missing_keys(map).len() == 0 ==> (r matches Ok(texts) && texts.values.deep_view()
                == resolved_texts(map, fallback_spec(lang, sources)))
            &&& missing_keys(map).len() > 0 ==> (r matches Err(LocaleError::Missing(keys)) && keys.deep_view()
                == missing_keys(map))
        },
{
    match load(lang, sources) {
        Ok((texts, missing)) => {
            if missing.len() == 0 {
                Ok(texts)
            } else {
                Err(LocaleError::Missing(missing))
            }
        },
        Err(e) => Err(e),
    }
}

/// A locale that has a string for a key shows it, whatever the fallback; only keys that it
/// lacks fall back.
pub proof fn law_own_text_wins(
    map: Seq<(Seq<char>, Option<Seq<char>>)>,
    fallback: Option<Seq<(Seq<char>, Option<Seq<char>>)>>,
    key: Seq<char>,
)
    requires
        lookup(map, key) is Some,
    ensures
        resolve_spec(map, fallback, key) == lookup(map, key)->0,
        resolve_spec(map, fallback, key) == resolve_spec(map, None, key),
{
}

/// The configuration file written when the language changes.
pub open spec fn lang_config_spec(lang: Langs) -> Seq<char> {
    "DEFAULT_MIN_MUON_SIZE=20\nDEFAULT_PIXEL_DEPTH=300\nDEFAULT_PIXEL_WIDTH=54.6875\nSIZE=256\nLANGUAGE=\""@ + code_spec(lang) + "\"\n"@
}

/// The content of the configuration file that records a change of language.
pub fn lang_config_content(lang: Langs) -> (s: String)
    ensures
        s@ == lang_config_spec(lang),
{
    let mut s = String::from_str("DEFAULT_MIN_MUON_SIZE=20\nDEFAULT_PIXEL_DEPTH=300\nDEFAULT_PIXEL_WIDTH=54.6875\nSIZE=256\nLANGUAGE=\"");
    let code = lang.code();
    s.append(code.as_str());
    s.append("\"\n");
    s
}

/// The value of a key is that of the first entry with the key, if that value is a string;
/// a key without an entry has no value.
pub proof fn law_lookup_first_entry(entries: Seq<(Seq<char>, Option<Seq<char>>)>, key: Seq<char>, i: int)
    requires
        0 <= i < entries.len(),
        entries[i].0 == key,
        forall|j: int| 0 <= j < i ==> (#[trigger] entries[j]).0 != key,
    ensures
        lookup(entries, key) == entries[i].1,
    decreases i,
{
    if i > 0 {
        let rest = entries.drop_first();
        assert forall|j: int| 0 <= j < i - 1 implies (#[trigger] rest[j]).0 != key by {
            assert(rest[j] == entries[j + 1]);
        }
        assert(entries[0].0 != key);
        law_lookup_first_entry(rest, key, i - 1);
    }
}

/// A key that no entry has has no value.
pub proof fn law_lookup_absent(entries: Seq<(Seq<char>, Option<Seq<char>>)>, key: Seq<char>)
    requires
        forall|j: int| 0 <= j < entries.len() ==> (#[trigger] entries[j]).0 != key,
    ensures
        lookup(entries, key) is None,
    decreases entries.len(),
{
    if entries.len() > 0 {
        let rest = entries.drop_first();
        assert forall|j: int| 0 <= j < rest.len() implies (#[trigger] rest[j]).0 != key by {
            assert(rest[j] == entries[j + 1]);
        }
        assert(entries[0].0 != key);
        law_lookup_absent(rest, key);
    }
}

/// A key that the locale lacks takes the fallback's text, and without one the text
/// `⚠ MISSING:` followed by the key.
pub proof fn law_fallback_texts(
    map: Seq<(Seq<char>, Option<Seq<char>>)>,
    fallback: Option<Seq<(Seq<char>, Option<Seq<char>>)>>,
    key: Seq<char>,
)
    requires
        lookup(map, key) is None,
    ensures
        fallback is None ==> resolve_spec(map, fallback, key) == "⚠ MISSING:"@ + key,
        fallback matches Some(fb) && lookup(fb, key) is Some ==> resolve_spec(map, fallback, key) == lookup(fallback->0, key)->0,
        fallback matches Some(fb) && lookup(fb, key) is None ==> resolve_spec(map, fallback, key) == "⚠ MISSING:"@ + key,
{
}

/// The missing keys are exactly the keys, among the first `n`, that the locale has no text
/// for, in the order of the keys.
pub proof fn law_missing_keys_exact(map: Seq<(Seq<char>, Option<Seq<char>>)>, keys: Seq<Seq<char>>, n: nat)
    requires
        n <= keys.len(),
    ensures
        forall|j: int|
            0 <= j < missing_keys_spec(map, keys, n).len() ==> lookup(map, #[trigger] missing_keys_spec(map, keys, n)[j])
                is None && exists|i: int| 0 <= i < n && keys[i] == missing_keys_spec(map, keys, n)[j],
        forall|i: int| 0 <= i < n && lookup(map, #[trigger] keys[i]) is None ==> missing_keys_spec(map, keys, n).contains(keys[i]),
    decreases n,
{
    if n > 0 {
        law_missing_keys_exact(map, keys, (n - 1) as nat);
        let prev = missing_keys_spec(map, keys, (n - 1) as nat);
        let cur = missing_keys_spec(map, keys, n);
        assert forall|j: int| 0 <= j < cur.len() implies lookup(map, #[trigger] cur[j]) is None && exists|i: int|
            0 <= i < n && keys[i] == cur[j] by {
            if j < prev.len() {
                assert(cur[j] == prev[j]);
                let i = choose|i: int| 0 <= i < n - 1 && keys[i] == prev[j];
                assert(keys[i] == cur[j]);
            } else {
                assert(cur[j] == keys[n - 1]);
            }
        }
        assert forall|i: int| 0 <= i < n && lookup(map, #[trigger] keys[i]) is None implies cur.contains(keys[i]) by {
            if i < n - 1 {
                let j = choose|j: int| 0 <= j < prev.len() && prev[j] == keys[i];
                assert(cur[j] == prev[j]);
            } else {
                assert(cur[cur.len() - 1] == keys[i]);
            }
        }
    }
}

proof fn lemma_key_index_below_none(key: Seq<char>, n: nat)
    requires
        n <= locale_keys_spec().len(),
        forall|j: int| 0 <= j < n ==> #[trigger] locale_keys_spec()[j] != key,
    ensures
        key_index_below(key, n) is None,
    decreases n,
{
    if n > 0 {
        lemma_key_index_below_none(key, (n - 1) as nat);
    }
}

/// The text of the `i`-th key is the `i`-th text (for the first occurrence of that key among
/// the keys); a word that is no key has the empty text.
pub proof fn law_text_of_key(values: Seq<Seq<char>>, i: int, word: Seq<char>)
    requires
        0 <= i < locale_keys_spec().len(),
        i < values.len(),
        forall|j: int| 0 <= j < i ==> #[trigger] locale_keys_spec()[j] != locale_keys_spec()[i],
    ensures
        text_spec(values, locale_keys_spec()[i]) == values[i],
        (forall|j: int| 0 <= j < locale_keys_spec().len() ==> #[trigger] locale_keys_spec()[j] != word) ==> text_spec(values, word)
            == Seq::<char>::empty(),
{
    let key = locale_keys_spec()[i];
    lemma_key_index_below_none(key, i as nat);
    assert(key_index_below(key, (i + 1) as nat) == Some(i));
    lemma_key_index_settles(key, (i + 1) as nat, locale_keys_spec().len());
    if forall|j: int| 0 <= j < locale_keys_spec().len() ==> #[trigger] locale_keys_spec()[j] != word {
        lemma_key_index_below_none(word, locale_keys_spec().len());
    }
}

} // verus!
