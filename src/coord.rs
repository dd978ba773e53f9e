//! Coordinates, result points, generation modes and anomaly kinds.
use crate::error::Error;
use crate::text::{lower_of, lowercase, same_text};
use crate::zscore::ZScore;
use vstd::prelude::*;

verus! {

/// Billionths of a degree in one degree.
pub const NANODEG_PER_DEG: i64 = 1_000_000_000;

/// 90 degrees, in nanodegrees.
pub const LAT_LIMIT_NANODEG: i64 = 90 * NANODEG_PER_DEG;

/// 180 degrees, in nanodegrees.
pub const LNG_LIMIT_NANODEG: i64 = 180 * NANODEG_PER_DEG;

/// A geographic coordinate in billionths of a degree. Construction does not
/// check the ranges: `validate` does.
#[derive(Clone, Copy, Debug, PartialEq, Eq, Structural)]
pub struct Coordinates {
    pub lat_nanodeg: i64,
    pub lng_nanodeg: i64,
}

impl Coordinates {
    /// Latitude in [-90, 90] and longitude in [-180, 180] degrees.
    pub open spec fn is_valid(self) -> bool {
        &&& -LAT_LIMIT_NANODEG <= self.lat_nanodeg <= LAT_LIMIT_NANODEG
        &&& -LNG_LIMIT_NANODEG <= self.lng_nanodeg <= LNG_LIMIT_NANODEG
    }

    /// A coordinate from its latitude and longitude, unchecked.
    pub fn new(lat_nanodeg: i64, lng_nanodeg: i64) -> (c: Coordinates)
        ensures
            c.lat_nanodeg == lat_nanodeg,
            c.lng_nanodeg == lng_nanodeg,
    {
        Coordinates { lat_nanodeg, lng_nanodeg }
    }

    /// Checks the ranges: the latitude first, then the longitude.
    pub fn validate(&self) -> (r: Result<(), Error>)
        ensures
            r is Ok <==> self.is_valid(),
            r matches Err(e) ==> e is InvalidCoordinates,
    {
        if self.lat_nanodeg < -LAT_LIMIT_NANODEG || self.lat_nanodeg > LAT_LIMIT_NANODEG {
            return Err(Error::InvalidCoordinates(String::from_str("latitude is out of range [-90, 90]")));
        }
        if self.lng_nanodeg < -LNG_LIMIT_NANODEG || self.lng_nanodeg > LNG_LIMIT_NANODEG {
            return Err(
                Error::InvalidCoordinates(String::from_str("longitude is out of range [-180, 180]")),
            );
        }
        Ok(())
    }
}

/// A result location, with the z-score of its cell where it has one, and for
/// the most anomalous cell whether it is dense (an attractor) or sparse.
#[derive(Clone, Copy, Debug, PartialEq, Eq, Structural)]
pub struct Point {
    pub coords: Coordinates,
    pub z_score: Option<ZScore>,
    pub is_attractor: Option<bool>,
}

impl Point {
    /// Its z-score, where it has one, is well formed.
    pub open spec fn wf(self) -> bool {
        self.z_score matches Some(z) ==> z.wf()
    }

    /// A point without a score.
    pub fn new(coords: Coordinates) -> (p: Point)
        ensures
            p == (Point { coords, z_score: None, is_attractor: None }),
    {
        Point { coords, z_score: None, is_attractor: None }
    }

    /// A point with a z-score (an attractor or a void).
    pub fn with_z_score(coords: Coordinates, z_score: ZScore) -> (p: Point)
        ensures
            p == (Point { coords, z_score: Some(z_score), is_attractor: None }),
    {
        Point { coords, z_score: Some(z_score), is_attractor: None }
    }

    /// A point with a z-score and whether it is an attractor.
    pub fn power(coords: Coordinates, z_score: ZScore, is_attractor: bool) -> (p: Point)
        ensures
            p == (Point { coords, z_score: Some(z_score), is_attractor: Some(is_attractor) }),
    {
        Point { coords, z_score: Some(z_score), is_attractor: Some(is_attractor) }
    }
}

/// How the search area is laid out.
#[derive(Clone, Copy, Debug, PartialEq, Eq, Structural)]
pub enum GenerationMode {
    /// One circle around the center.
    Standard,
    /// Seven overlapping circles: the center and six petals.
    FlowerPower,
}

impl Default for GenerationMode {
    fn default() -> (m: GenerationMode)
        ensures
            m == GenerationMode::Standard,
    {
        GenerationMode::Standard
    }
}

/// The mode a lowercase name stands for.
pub open spec fn mode_named(t: Seq<char>) -> Option<GenerationMode> {
    if t == "standard"@ {
        Some(GenerationMode::Standard)
    } else if t == "flower_power"@ || t == "flower-power"@ || t == "flowerpower"@ {
        Some(GenerationMode::FlowerPower)
    } else {
        None
    }
}

impl GenerationMode {
    /// The mode's name.
    pub fn name(&self) -> (s: &'static str)
        ensures
            s@ == match self {
                GenerationMode::Standard => "standard"@,
                GenerationMode::FlowerPower => "flower_power"@,
            },
    {
        match self {
            GenerationMode::Standard => "standard",
            GenerationMode::FlowerPower => "flower_power",
        }
    }

    /// The mode a lowercase name stands for.
    pub fn from_lowercase_name(t: &str) -> (m: Option<GenerationMode>)
        ensures
            m == mode_named(t@),
    {
        if same_text(t, "standard") {
            Some(GenerationMode::Standard)
        } else if same_text(t, "flower_power") || same_text(t, "flower-power") || same_text(
            t,
            "flowerpower",
        ) {
            Some(GenerationMode::FlowerPower)
        } else {
            None
        }
    }

    /// Reads a mode name, ignoring case.
    pub fn parse(s: &str) -> (r: Result<GenerationMode, String>)
        ensures
            r matches Ok(m) ==> mode_named(lower_of(s@)) == Some(m),
            r is Err <==> mode_named(lower_of(s@)) is None,
    {
        let lower = lowercase(s);
        match GenerationMode::from_lowercase_name(lower.as_str()) {
            Some(m) => Ok(m),
            None => Err(String::from_str("Unknown generation mode: ").concat(s)),
        }
    }
}

/// The kinds of anomaly reported for a circle.
#[derive(Clone, Copy, Debug, PartialEq, Eq, Hash, Structural)]
pub enum AnomalyType {
    /// One random point, without analysis.
    BlindSpot,
    /// The densest cell.
    Attractor,
    /// The emptiest cell.
    Void,
    /// The cell farthest from expectation either way.
    Power,
}

/// The kind a lowercase name stands for.
pub open spec fn anomaly_type_named(t: Seq<char>) -> Option<AnomalyType> {
    if t == "blind_spot"@ || t == "blind-spot"@ || t == "blindspot"@ {
        Some(AnomalyType::BlindSpot)
    } else if t == "attractor"@ {
        Some(AnomalyType::Attractor)
    } else if t == "void"@ {
        Some(AnomalyType::Void)
    } else if t == "power"@ {
        Some(AnomalyType::Power)
    } else {
        None
    }
}

impl AnomalyType {
    /// The kind's name.
    pub fn name(&self) -> (s: &'static str)
        ensures
            s@ == match self {
                AnomalyType::BlindSpot => "blind_spot"@,
                AnomalyType::Attractor => "attractor"@,
                AnomalyType::Void => "void"@,
                AnomalyType::Power => "power"@,
            },
    {
        match self {
            AnomalyType::BlindSpot => "blind_spot",
            AnomalyType::Attractor => "attractor",
            AnomalyType::Void => "void",
            AnomalyType::Power => "power",
        }
    }

    /// The kind a lowercase name stands for.
    pub fn from_lowercase_name(t: &str) -> (k: Option<AnomalyType>)
        ensures
            k == anomaly_type_named(t@),
    {
        if same_text(t, "blind_spot") || same_text(t, "blind-spot") || same_text(t, "blindspot") {
            Some(AnomalyType::BlindSpot)
        } else if same_text(t, "attractor") {
            Some(AnomalyType::Attractor)
        } else if same_text(t, "void") {
            Some(AnomalyType::Void)
        } else if same_text(t, "power") {
            Some(AnomalyType::Power)
        } else {
            None
        }
    }

    /// Reads a kind's name, ignoring case.
    pub fn parse(s: &str) -> (r: Result<AnomalyType, String>)
        ensures
            r matches Ok(k) ==> anomaly_type_named(lower_of(s@)) == Some(k),
            r is Err <==> anomaly_type_named(lower_of(s@)) is None,
    {
        let lower = lowercase(s);
        match AnomalyType::from_lowercase_name(lower.as_str()) {
            Some(k) => Ok(k),
            None => Err(String::from_str("Unknown anomaly type: ").concat(s)),
        }
    }
}

impl std::str::FromStr for AnomalyType {
    type Err = String;

    fn from_str(s: &str) -> Result<AnomalyType, String> {
        AnomalyType::parse(s)
    }
}

impl std::str::FromStr for GenerationMode {
    type Err = String;

    fn from_str(s: &str) -> Result<GenerationMode, String> {
        GenerationMode::parse(s)
    }
}

/// The four kinds, in the order in which winners are chosen.
pub open spec fn anomaly_order() -> Seq<AnomalyType> {
    seq![AnomalyType::BlindSpot, AnomalyType::Attractor, AnomalyType::Void, AnomalyType::Power]
}

/// All anomaly kinds, in their fixed order.
pub fn available_types() -> (v: Vec<AnomalyType>)
    ensures
        v@ == anomaly_order(),
{
    let v = vec![AnomalyType::BlindSpot, AnomalyType::Attractor, AnomalyType::Void, AnomalyType::Power];
    assert(v@ =~= anomaly_order());
    v
}

} // verus!
