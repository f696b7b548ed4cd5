use vstd::prelude::*;

use crate::kinds::PartType;

verus! {

/// The comparisons of a track's measured quantities (energies in keV, winding, roundness)
/// against the thresholds of the classification, each taken as the comparison itself gives
/// it (false when the measurement is not a number).
#[derive(Clone, Copy, Debug, PartialEq, Eq, Structural)]
pub struct ShapeFacts {
    /// The largest pixel energy is below 150.
    pub max_energy_below_150: bool,
    /// The largest pixel energy is above 100.
    pub max_energy_above_100: bool,
    /// The largest pixel energy is below 200.
    pub max_energy_below_200: bool,
    /// The mean pixel energy is below 40.
    pub avg_energy_below_40: bool,
    /// The winding (mean squared distance from the fitted line) is below 0.25.
    pub winding_below_quarter: bool,
    /// The winding is above 0.4.
    pub winding_above_0_4: bool,
    /// The winding is below 4.
    pub winding_below_4: bool,
    /// The roundness (4 pi area / perimeter squared of the convex hull) is above 0.4.
    pub roundness_above_0_4: bool,
}

/// Tracks of fewer pixels than this are dots.
pub const SMALL_TRACK: usize = 4;

/// Tracks of at least this many pixels are judged as long tracks.
pub const LONG_TRACK: usize = 30;

/// Long, straight, light tracks of more pixels than this count as interesting muons
/// rather than electrons when their winding is moderate.
pub const VERY_LONG_TRACK: usize = 100;

/// The class of a track of `size` pixels with the given measurements.
pub open spec fn particle_type_spec(size: nat, min_muon_size: nat, default_min_muon_size: nat, f: ShapeFacts) -> PartType {
    if size < SMALL_TRACK {
        PartType::Gamma
    } else if size < LONG_TRACK {
        if f.max_energy_below_150 && f.avg_energy_below_40 {
            if f.winding_below_quarter {
                if size > min_muon_size {
                    PartType::Muon
                } else if size > default_min_muon_size {
                    PartType::TooShortMuon
                } else {
                    PartType::Beta
                }
            } else {
                PartType::Beta
            }
        } else {
            PartType::Unknown
        }
    } else {
        if f.max_energy_below_200 && f.avg_energy_below_40 {
            if f.winding_above_0_4 {
                if !(size > VERY_LONG_TRACK && f.winding_below_4) {
                    PartType::Beta
                } else {
                    PartType::SusMuon
                }
            } else if size > min_muon_size {
                PartType::Muon
            } else {
                PartType::TooShortMuon
            }
        } else if f.max_energy_below_200 {
            PartType::Unknown
        } else if f.roundness_above_0_4 {
            PartType::Alpha
        } else {
            PartType::Unknown
        }
    }
}

/// Classifies a track of `size` pixels from its measurements, against the muon length that
/// the user chose (`min_muon_size`) and the configured default one.
pub fn particle_type(size: usize, min_muon_size: usize, default_min_muon_size: usize, facts: ShapeFacts) -> (t: PartType)
    ensures
        t == particle_type_spec(size as nat, min_muon_size as nat, default_min_muon_size as nat, facts),
{
    if size < SMALL_TRACK {
        return PartType::Gamma;
    }
    if size < LONG_TRACK {
        if facts.max_energy_below_150 && facts.avg_energy_below_40 {
            if facts.winding_below_quarter {
                if size > min_muon_size {
                    PartType::Muon
                } else if size > default_min_muon_size {
                    PartType::TooShortMuon
                } else {
                    PartType::Beta
                }
            } else {
                PartType::Beta
            }
        } else if facts.max_energy_above_100 {
            // a small blob, round or not, is not classified
            PartType::Unknown
        } else {
            PartType::Unknown
        }
    } else {
        if facts.max_energy_below_200 && facts.avg_energy_below_40 {
            // A light track that winds is an electron, unless it is long and only moderately
            // winding: only a muon keeps that straight over so many pixels (for instance one
            // that knocked out an electron on its way).
            if facts.winding_above_0_4 {
                if !(size > VERY_LONG_TRACK && facts.winding_below_4) {
                    PartType::Beta
                } else {
                    PartType::SusMuon
                }
            } else if size > min_muon_size {
                PartType::Muon
            } else {
                PartType::TooShortMuon
            }
        } else if facts.max_energy_below_200 {
            PartType::Unknown
        } else if facts.roundness_above_0_4 {
            PartType::Alpha
        } else {
            PartType::Unknown
        }
    }
}

/// Whether classifying a track of `size` pixels looks at its mean energy: only tracks that are
/// no dots and whose largest pixel energy is below the limit of their length (150 for short
/// tracks, 200 for long ones).
pub open spec fn consults_mean_energy_spec(size: nat, f: ShapeFacts) -> bool {
    size >= SMALL_TRACK && if size < LONG_TRACK {
        f.max_energy_below_150
    } else {
        f.max_energy_below_200
    }
}

/// Whether classifying a track of `size` pixels looks at its mean energy.
pub fn consults_mean_energy(size: usize, facts: ShapeFacts) -> (b: bool)
    ensures
        b == consults_mean_energy_spec(size as nat, facts),
{
    size >= SMALL_TRACK && if size < LONG_TRACK {
        facts.max_energy_below_150
    } else {
        facts.max_energy_below_200
    }
}

/// The class does not depend on the mean energy when classification does not look at it.
pub proof fn law_mean_energy_only_where_consulted(size: nat, m: nat, d: nat, f: ShapeFacts, below_40: bool)
    requires
        !consults_mean_energy_spec(size, f),
    ensures
        particle_type_spec(size, m, d, f) == particle_type_spec(size, m, d, ShapeFacts { avg_energy_below_40: below_40, ..f }),
{
}

/// The class that a particle reports, and what it remembers afterwards: the remembered class
/// if there is one; else the class from the measurements, remembered unless the track is a dot.
pub open spec fn cached_type_spec(cache: Option<PartType>, size: nat, min_muon_size: nat, default_min_muon_size: nat, f: ShapeFacts) -> (PartType, Option<PartType>) {
    match cache {
        Some(t) => (t, cache),
        None => {
            let t = particle_type_spec(size, min_muon_size, default_min_muon_size, f);
            (t, if size < 4 { None } else { Some(t) })
        },
    }
}

/// The class of a track as a particle reports it: the class remembered in `cache` if there
/// is one, else the class from the given measurements, which is then remembered, except for
/// dots (fewer than four pixels), which are not remembered.
pub fn cached_particle_type(
    cache: &mut Option<PartType>,
    size: usize,
    min_muon_size: usize,
    default_min_muon_size: usize,
    facts: ShapeFacts,
) -> (t: PartType)
    ensures
        (t, *final(cache)) == cached_type_spec(*old(cache), size as nat, min_muon_size as nat, default_min_muon_size as nat, facts),
{
    match *cache {
        Some(t) => t,
        None => {
            let t = particle_type(size, min_muon_size, default_min_muon_size, facts);
            if size >= SMALL_TRACK {
                *cache = Some(t);
            }
            t
        },
    }
}

/// A track is a dot exactly when it has fewer than four pixels.
pub proof fn law_dots_are_small(size: nat, min_muon_size: nat, default_min_muon_size: nat, f: ShapeFacts)
    ensures
        (particle_type_spec(size, min_muon_size, default_min_muon_size, f) == PartType::Gamma) <==> size < 4,
{
}

/// A muon is longer than the chosen minimum muon length, and has at least four pixels.
pub proof fn law_muons_are_long_enough(size: nat, min_muon_size: nat, default_min_muon_size: nat, f: ShapeFacts)
    requires
        particle_type_spec(size, min_muon_size, default_min_muon_size, f) == PartType::Muon,
    ensures
        size > min_muon_size,
        size >= 4,
        f.avg_energy_below_40,
{
}

/// A too-short muon is no longer than the chosen minimum muon length, but longer than the
/// default one (when the default is below the long-track size).
pub proof fn law_short_muons_between_lengths(size: nat, min_muon_size: nat, default_min_muon_size: nat, f: ShapeFacts)
    requires
        particle_type_spec(size, min_muon_size, default_min_muon_size, f) == PartType::TooShortMuon,
        default_min_muon_size < 30,
    ensures
        default_min_muon_size < size <= min_muon_size,
{
}

/// An alpha is a long, heavy, round track.
pub proof fn law_alphas_are_heavy_round_blobs(size: nat, min_muon_size: nat, default_min_muon_size: nat, f: ShapeFacts)
    requires
        particle_type_spec(size, min_muon_size, default_min_muon_size, f) == PartType::Alpha,
    ensures
        size >= 30,
        !f.max_energy_below_200,
        f.roundness_above_0_4,
{
}

/// An interesting muon is a light track of more than a hundred pixels whose winding is
/// above 0.4 but below 4.
pub proof fn law_interesting_muons(size: nat, min_muon_size: nat, default_min_muon_size: nat, f: ShapeFacts)
    requires
        particle_type_spec(size, min_muon_size, default_min_muon_size, f) == PartType::SusMuon,
    ensures
        size > 100,
        f.winding_above_0_4,
        f.winding_below_4,
        f.max_energy_below_200,
        f.avg_energy_below_40,
{
}

/// The chosen muon length only decides between muon, too-short muon and electron: two
/// choices that give different classes give classes among those three.
pub proof fn law_min_length_only_moves_muons(size: nat, m1: nat, m2: nat, default_min_muon_size: nat, f: ShapeFacts)
    requires
        particle_type_spec(size, m1, default_min_muon_size, f) != particle_type_spec(size, m2, default_min_muon_size, f),
    ensures
        ({
            let t = particle_type_spec(size, m1, default_min_muon_size, f);
            t == PartType::Muon || t == PartType::TooShortMuon || t == PartType::Beta
        }),
        ({
            let t = particle_type_spec(size, m2, default_min_muon_size, f);
            t == PartType::Muon || t == PartType::TooShortMuon || t == PartType::Beta
        }),
{
}

/// Once a particle has been classified, it keeps its class: a second classification, with
/// any muon lengths and measurements, gives the class that the first one gave.
pub proof fn law_classification_is_remembered(
    cache: Option<PartType>,
    size: nat,
    m1: nat,
    d1: nat,
    f1: ShapeFacts,
    m2: nat,
    d2: nat,
    f2: ShapeFacts,
)
    ensures
        ({
            let (first, after) = cached_type_spec(cache, size, m1, d1, f1);
            let (second, _) = cached_type_spec(after, size, m2, d2, f2);
            second == first
        }),
{
}

/// A light short track (4 to 29 pixels, largest energy below 150, mean below 40) is a muon
/// when it is straight (winding below 0.25) and longer than the chosen muon length; a
/// too-short muon when straight, not that long but longer than the default length; and an
/// electron otherwise, in particular whenever it winds, whatever its size.
pub proof fn law_light_short_tracks(size: nat, min_muon_size: nat, default_min_muon_size: nat, f: ShapeFacts)
    requires
        4 <= size < 30,
        f.max_energy_below_150,
        f.avg_energy_below_40,
    ensures
        !f.winding_below_quarter ==> particle_type_spec(size, min_muon_size, default_min_muon_size, f) == PartType::Beta,
        f.winding_below_quarter && size > min_muon_size ==> particle_type_spec(size, min_muon_size, default_min_muon_size, f)
            == PartType::Muon,
        f.winding_below_quarter && size <= min_muon_size && size > default_min_muon_size ==> particle_type_spec(
            size,
            min_muon_size,
            default_min_muon_size,
            f,
        ) == PartType::TooShortMuon,
        f.winding_below_quarter && size <= min_muon_size && size <= default_min_muon_size ==> particle_type_spec(
            size,
            min_muon_size,
            default_min_muon_size,
            f,
        ) == PartType::Beta,
{
}

/// A short track (4 to 29 pixels) that is not light (largest energy not below 150, or mean
/// not below 40) is not classified.
pub proof fn law_heavy_short_tracks_unknown(size: nat, min_muon_size: nat, default_min_muon_size: nat, f: ShapeFacts)
    requires
        4 <= size < 30,
        !(f.max_energy_below_150 && f.avg_energy_below_40),
    ensures
        particle_type_spec(size, min_muon_size, default_min_muon_size, f) == PartType::Unknown,
{
}

/// A light long track (30 pixels or more, largest energy below 200, mean below 40): when it
/// winds (above 0.4) it is an interesting muon if it has more than 100 pixels and winds less
/// than 4, an electron otherwise; when it does not wind, a muon if longer than the chosen muon
/// length, a too-short muon otherwise.
pub proof fn law_light_long_tracks(size: nat, min_muon_size: nat, default_min_muon_size: nat, f: ShapeFacts)
    requires
        size >= 30,
        f.max_energy_below_200,
        f.avg_energy_below_40,
    ensures
        f.winding_above_0_4 && size > 100 && f.winding_below_4 ==> particle_type_spec(size, min_muon_size, default_min_muon_size, f)
            == PartType::SusMuon,
        f.winding_above_0_4 && !(size > 100 && f.winding_below_4) ==> particle_type_spec(
            size,
            min_muon_size,
            default_min_muon_size,
            f,
        ) == PartType::Beta,
        !f.winding_above_0_4 && size > min_muon_size ==> particle_type_spec(size, min_muon_size, default_min_muon_size, f)
            == PartType::Muon,
        !f.winding_above_0_4 && size <= min_muon_size ==> particle_type_spec(size, min_muon_size, default_min_muon_size, f)
            == PartType::TooShortMuon,
{
}

/// A long track that is not light: unclassified when its largest energy is below 200 (so its
/// mean is not below 40); otherwise an alpha when round (above 0.4), unclassified when not.
pub proof fn law_heavy_long_tracks(size: nat, min_muon_size: nat, default_min_muon_size: nat, f: ShapeFacts)
    requires
        size >= 30,
        !(f.max_energy_below_200 && f.avg_energy_below_40),
    ensures
        f.max_energy_below_200 ==> particle_type_spec(size, min_muon_size, default_min_muon_size, f) == PartType::Unknown,
        !f.max_energy_below_200 && f.roundness_above_0_4 ==> particle_type_spec(size, min_muon_size, default_min_muon_size, f)
            == PartType::Alpha,
        !f.max_energy_below_200 && !f.roundness_above_0_4 ==> particle_type_spec(size, min_muon_size, default_min_muon_size, f)
            == PartType::Unknown,
{
}

/// Where classification looks at the mean energy, the mean energy decides: the two answers
/// to "is the mean below 40" give different classes.
pub proof fn law_mean_energy_decides_where_consulted(size: nat, m: nat, d: nat, f: ShapeFacts)
    requires
        consults_mean_energy_spec(size, f),
    ensures
        particle_type_spec(size, m, d, ShapeFacts { avg_energy_below_40: true, ..f }) != particle_type_spec(
            size,
            m,
            d,
            ShapeFacts { avg_energy_below_40: false, ..f },
        ),
{
}

} // verus!
