use muon_decoder::classify::{cached_particle_type, consults_mean_energy, particle_type, ShapeFacts};
use muon_decoder::geometry::{centroid, track_extent, update_data, TrackCentroid};
use muon_decoder::image::paint_tracks;
use muon_decoder::kinds::{Orientation, PartType};
use muon_decoder::view::{click_header, count_of, header_label, visible_tracks, SortState, TypeFilter};

fn light_straight() -> ShapeFacts {
    ShapeFacts {
        max_energy_below_150: true,
        max_energy_above_100: false,
        max_energy_below_200: true,
        avg_energy_below_40: true,
        winding_below_quarter: true,
        winding_above_0_4: false,
        winding_below_4: true,
        roundness_above_0_4: false,
    }
}

#[test]
fn small_tracks_are_dots() {
    for size in 0..4 {
        assert_eq!(particle_type(size, 20, 20, light_straight()), PartType::Gamma);
    }
}

#[test]
fn short_tracks_are_classified() {
    let f = light_straight();
    assert_eq!(particle_type(25, 20, 20, f), PartType::Muon);
    assert_eq!(particle_type(25, 26, 20, f), PartType::TooShortMuon);
    assert_eq!(particle_type(15, 20, 20, f), PartType::Beta);
    let curly = ShapeFacts { winding_below_quarter: false, winding_above_0_4: true, ..f };
    assert_eq!(particle_type(25, 20, 20, curly), PartType::Beta);
    let heavy = ShapeFacts { max_energy_below_150: false, max_energy_above_100: true, ..f };
    assert_eq!(particle_type(25, 20, 20, heavy), PartType::Unknown);
}

#[test]
fn long_tracks_are_classified() {
    let f = light_straight();
    assert_eq!(particle_type(40, 20, 20, f), PartType::Muon);
    assert_eq!(particle_type(40, 50, 20, f), PartType::TooShortMuon);
    let winding = ShapeFacts { winding_below_quarter: false, winding_above_0_4: true, winding_below_4: true, ..f };
    assert_eq!(particle_type(40, 20, 20, winding), PartType::Beta);
    assert_eq!(particle_type(101, 20, 20, winding), PartType::SusMuon);
    let very = ShapeFacts { winding_below_4: false, ..winding };
    assert_eq!(particle_type(150, 20, 20, very), PartType::Beta);
    let medium = ShapeFacts { avg_energy_below_40: false, ..f };
    assert_eq!(particle_type(40, 20, 20, medium), PartType::Unknown);
    let heavy = ShapeFacts { max_energy_below_150: false, max_energy_below_200: false, ..f };
    let round = ShapeFacts { roundness_above_0_4: true, ..heavy };
    assert_eq!(particle_type(40, 20, 20, round), PartType::Alpha);
    assert_eq!(particle_type(40, 20, 20, heavy), PartType::Unknown);
}

#[test]
fn classification_is_remembered() {
    let mut cache = None;
    let first = cached_particle_type(&mut cache, 25, 20, 20, light_straight());
    assert_eq!(first, PartType::Muon);
    assert_eq!(cache, Some(PartType::Muon));
    let again = cached_particle_type(&mut cache, 25, 30, 20, light_straight());
    assert_eq!(again, PartType::Muon);
    let mut dot = None;
    assert_eq!(cached_particle_type(&mut dot, 2, 20, 20, light_straight()), PartType::Gamma);
    assert_eq!(dot, None);
}

#[test]
fn azimuths_follow_the_compass() {
    assert_eq!(Orientation::North.azimuth(), 0);
    assert_eq!(Orientation::East.azimuth(), 90);
    assert_eq!(Orientation::South.azimuth(), 180);
    assert_eq!(Orientation::West.azimuth(), 270);
    assert_eq!(
        Orientation::East.all_values(),
        vec![Orientation::North, Orientation::South, Orientation::West, Orientation::East]
    );
}

#[test]
fn centroids_of_tracks() {
    let track = vec![(10, 20), (11, 21), (12, 25)];
    assert_eq!(centroid(&track), Some(TrackCentroid { sum_x: 33, sum_y: 66, count: 3 }));
    assert_eq!(centroid(&Vec::new()), None);
    let all = update_data(&vec![track, Vec::new(), vec![(usize::MAX, usize::MAX), (usize::MAX, 1)]]);
    assert_eq!(all.len(), 3);
    assert_eq!(all[1], None);
    assert_eq!(all[2].unwrap().sum_x, 2 * (usize::MAX as u128));
    assert_eq!(all[2].unwrap().sum_y, usize::MAX as u128 + 1);
}

#[test]
fn extents_of_tracks() {
    assert_eq!(track_extent(&vec![(10, 20), (14, 21), (12, 17)]), Some((4, 4)));
    assert_eq!(track_extent(&vec![(3, 3)]), Some((0, 0)));
    assert_eq!(track_extent(&Vec::new()), None);
}

#[test]
fn tracks_are_painted_turned() {
    let mask = paint_tracks(&vec![vec![(0, 0)], vec![(255, 255)]], 1);
    assert_eq!(mask.len(), 65536);
    assert!(mask[255 * 256]);
    assert!(mask[255]);
    assert_eq!(mask.iter().filter(|b| **b).count(), 2);
    let big = paint_tracks(&vec![vec![(1, 255)]], 2);
    assert_eq!(big.len(), 512 * 512);
    let lit: Vec<usize> = (0..big.len()).filter(|i| big[*i]).collect();
    assert_eq!(lit, vec![2, 3, 514, 515]);
    let none = paint_tracks(&vec![vec![(300, 3)]], 1);
    assert!(none.iter().all(|b| !*b));
}

#[test]
fn filters_choose_tracks() {
    let types = vec![PartType::Muon, PartType::Gamma, PartType::Beta, PartType::Muon];
    assert_eq!(visible_tracks(&types, &TypeFilter::all()), vec![0, 1, 2, 3]);
    let only_muons = TypeFilter {
        show_alpha: false,
        show_beta: false,
        show_gamma: false,
        show_muon: true,
        show_sus_muon: false,
        show_unknown: false,
        show_too_short_muon: false,
    };
    assert_eq!(visible_tracks(&types, &only_muons), vec![0, 3]);
    assert_eq!(count_of(&types, PartType::Muon), 2);
    assert_eq!(count_of(&types, PartType::Alpha), 0);
}

#[test]
fn class_counts_add_up() {
    let types = vec![PartType::Muon, PartType::Gamma, PartType::Beta, PartType::Muon, PartType::Alpha];
    let classes = [
        PartType::Alpha,
        PartType::Beta,
        PartType::Gamma,
        PartType::Muon,
        PartType::SusMuon,
        PartType::Unknown,
        PartType::TooShortMuon,
    ];
    let total: usize = classes.iter().map(|c| count_of(&types, *c)).sum();
    assert_eq!(total, types.len());
}

#[test]
fn column_titles_cycle_through_sortings() {
    let s0 = SortState { column: None, ascending: true };
    let (s1, sort1) = click_header(s0, 4);
    assert_eq!(s1, SortState { column: Some(4), ascending: false });
    assert!(sort1);
    assert_eq!(header_label("energy", s1, 4), "energy v");
    assert_eq!(header_label("size", s1, 5), "size");
    let (s2, sort2) = click_header(s1, 4);
    assert_eq!(s2, SortState { column: Some(4), ascending: true });
    assert!(sort2);
    assert_eq!(header_label("energy", s2, 4), "energy ^");
    let (s3, sort3) = click_header(s2, 4);
    assert_eq!(s3.column, None);
    assert!(!sort3);
    let (s4, _) = click_header(s2, 7);
    assert_eq!(s4, SortState { column: Some(7), ascending: false });
}

#[test]
fn mean_energy_is_read_only_for_light_tracks() {
    let f = light_straight();
    assert!(consults_mean_energy(25, f));
    assert!(!consults_mean_energy(3, f));
    let heavy_short = ShapeFacts { max_energy_below_150: false, ..f };
    assert!(!consults_mean_energy(25, heavy_short));
    assert!(consults_mean_energy(40, heavy_short));
    let heavy_long = ShapeFacts { max_energy_below_200: false, ..heavy_short };
    assert!(!consults_mean_energy(40, heavy_long));
}
