use muon_decoder::csv::build_csv;
use muon_decoder::kinds::{Langs, Orientation};
use muon_decoder::locale::{lang_config_content, load, load_strict, locale_keys, LocaleError, LocaleSources};

/// A locale that gives every key a text made of the key and a tag.
fn full_locale(tag: &str) -> String {
    let keys = locale_keys();
    let mut s = String::from("{");
    for (i, k) in keys.iter().enumerate() {
        if i > 0 {
            s.push(',');
        }
        s.push_str(&format!("\"{}\": \"{} {}\"", k, tag, k));
    }
    s.push('}');
    s
}

fn full_sources() -> LocaleSources {
    LocaleSources {
        en: full_locale("en"),
        cs: full_locale("cs"),
        ocs: full_locale("ocs"),
        de: full_locale("de"),
        uwu: full_locale("uwu"),
    }
}

// attempt to load all locales
#[test]
fn test_locales() {
    let sources = full_sources();
    for l in Langs::list(true) {
        // load_strict fails on a missing key, letting you know if a translation is missing
        if let Err(e) = load_strict(l, &sources) {
            panic!("Failed to load locale {}:\n  Missing values: {:?}", l.code(), e);
        }
    }
}

#[test]
fn locale_texts_follow_the_keys() {
    let texts = load_strict(Langs::Cs, &full_sources()).unwrap();
    assert_eq!(texts.values.len(), 58);
    assert_eq!(texts.values[0], "cs title");
    assert_eq!(texts.text("north"), "cs north");
    assert_eq!(texts.text("no_such_key"), "");
    assert_eq!(Orientation::West.into_readable(&texts), "cs west");
}

#[test]
fn missing_keys_fall_back_to_english() {
    let mut sources = full_sources();
    sources.de = String::from("{\"title\": \"Titel\", \"north\": 5}");
    match load_strict(Langs::De, &sources) {
        Err(LocaleError::Missing(keys)) => {
            assert_eq!(keys.len(), 57);
            assert_eq!(keys[0], "arrow_left");
            assert!(keys.contains(&String::from("north")));
        }
        _ => panic!("expected missing keys"),
    }
    let (texts, missing) = load(Langs::De, &sources).unwrap();
    assert_eq!(missing.len(), 57);
    assert_eq!(texts.text("title"), "Titel");
    assert_eq!(texts.text("north"), "en north");
}

#[test]
fn english_has_no_fallback() {
    let mut sources = full_sources();
    sources.en = String::from("{\"title\": \"Particle decoder\"}");
    let (texts, missing) = load(Langs::En, &sources).unwrap();
    assert_eq!(missing.len(), 57);
    assert_eq!(texts.text("title"), "Particle decoder");
    assert_eq!(texts.text("save_csv"), "⚠ MISSING:save_csv");
}

#[test]
fn invalid_locales_are_reported() {
    let mut sources = full_sources();
    sources.cs = String::from("[1, 2]");
    assert!(matches!(load_strict(Langs::Cs, &sources), Err(LocaleError::LocaleInvalid)));
    sources.en = String::from("not json");
    assert!(matches!(load_strict(Langs::Cs, &sources), Err(LocaleError::EnglishInvalid)));
}

#[test]
fn language_change_writes_the_config() {
    assert_eq!(
        lang_config_content(Langs::De),
        "DEFAULT_MIN_MUON_SIZE=20\nDEFAULT_PIXEL_DEPTH=300\nDEFAULT_PIXEL_WIDTH=54.6875\nSIZE=256\nLANGUAGE=\"de\"\n"
    );
}

#[test]
fn languages_are_listed_and_named() {
    assert_eq!(Langs::list(false), vec![Langs::En, Langs::Cs, Langs::De]);
    assert_eq!(Langs::list(true), vec![Langs::En, Langs::Cs, Langs::Ocs, Langs::De, Langs::Uwu]);
    assert_eq!(Langs::Cs.to_readable(), "Čeština");
    assert_eq!(Langs::Ocs.to_readable(), "Staročeština");
    assert_eq!(Langs::Uwu.to_readable(), "UwU");
    assert_eq!(Langs::Uwu.code(), "uwu");
}

#[test]
fn language_codes_read_back() {
    assert_eq!(Langs::from_code("cs"), Some(Langs::Cs));
    assert_eq!(Langs::from_code("EN"), Some(Langs::En));
    assert_eq!(Langs::from_code("oCs"), Some(Langs::Ocs));
    assert_eq!(Langs::from_code("de"), Some(Langs::De));
    assert_eq!(Langs::from_code("DE"), Some(Langs::De));
    assert_eq!(Langs::from_code("uwu"), Some(Langs::Uwu));
    assert_eq!(Langs::from_code(" en"), None);
    assert_eq!(Langs::from_code("fr"), None);
    for l in [Langs::Cs, Langs::En, Langs::Ocs, Langs::De, Langs::Uwu] {
        assert_eq!(Langs::from_code(&l.code()), Some(l));
    }
}

#[test]
fn muon_tables_as_csv() {
    let texts = load_strict(Langs::En, &full_sources()).unwrap();
    let rows = vec![
        vec![String::from("1.5"), String::from("2"), String::from("x")],
        vec![String::from("3")],
    ];
    let csv = build_csv(&texts, &rows);
    let header = "en muon_list_zenith,en muon_list_abs_angle_primary,en muon_list_azimuth,en muon_list_azimuth_offset,en muon_list_total_energy,en muon_list_size,en muon_list_let_avg,en muon_list_timestamp,en muon_list_frame_index,en muon_list_file\n";
    assert_eq!(csv, format!("{}1.5,2,x\n3\n", header));
    assert_eq!(build_csv(&texts, &Vec::new()), header);
}
