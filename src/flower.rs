//! Request validation, the circle layout of each mode, and the assembled
//! response.
//!
//! In flower mode seven circles of half the radius are analysed: one at the
//! center and six petals whose centers lie half the radius away, at bearings
//! 0°, 60°, …, 300°.
use crate::anomaly::{
    DEFAULT_POINT_COUNT, all_wf, analyze_circle, anomalies_of, centers_of, find_all_winners, is_winner_at, is_winner_result, lemma_anomalies_determined, lemma_winner_determined,
    CircleResults, Winners,
};
use crate::density::{GridPos, DEFAULT_GRID_RESOLUTION};
use crate::zscore::DENOM_SQ_MAX;
use crate::coord::{AnomalyType, Coordinates, GenerationMode};
use crate::error::Error;
use vstd::prelude::*;

verus! {

/// Smallest radius, in millimetres, for which flower mode can be used.
pub const FLOWER_POWER_MIN_RADIUS_MM: i64 = 3_000_000;

/// Petals around the center circle in flower mode.
pub const PETAL_COUNT: usize = 6;

/// Degrees between neighbouring petals.
pub const PETAL_STEP_DEG: u32 = 60;

/// Largest radius accepted, in millimetres: the largest below half the
/// circumference of a sphere of the mean Earth radius (6,371 km), where the
/// circle would close up on the antipode.
pub const MAX_RADIUS_MM: i64 = 20_015_086_796;

/// The radius is positive and the circle does not reach around the sphere.
pub open spec fn radius_ok(radius_mm: i64) -> bool {
    0 < radius_mm <= MAX_RADIUS_MM
}

/// The mode can be used with this radius.
pub open spec fn mode_ok(mode: GenerationMode, radius_mm: i64) -> bool {
    mode == GenerationMode::FlowerPower ==> radius_mm >= FLOWER_POWER_MIN_RADIUS_MM
}

/// What validating a request gives: the coordinates are checked first, then
/// the radius, then the mode.
pub open spec fn validation_result<T>(
    center: Coordinates,
    radius_mm: i64,
    mode: GenerationMode,
    r: Result<T, Error>,
) -> bool {
    if !center.is_valid() {
        r matches Err(e) && e is InvalidCoordinates
    } else if !radius_ok(radius_mm) {
        r matches Err(e) && e is InvalidRadius
    } else if !mode_ok(mode, radius_mm) {
        r matches Err(e) && e is UnsupportedMode
    } else {
        r is Ok
    }
}

/// Checks a request before any sampling.
pub fn validate_request(center: &Coordinates, radius_mm: i64, mode: GenerationMode) -> (r: Result<
    (),
    Error,
>)
    ensures
        validation_result(*center, radius_mm, mode, r),
{
    center.validate()?;
    if radius_mm <= 0 {
        return Err(Error::InvalidRadius(String::from_str("radius must be positive")));
    }
    if radius_mm > MAX_RADIUS_MM {
        return Err(
            Error::InvalidRadius(String::from_str("radius must be below half the Earth's circumference")),
        );
    }
    if mode == GenerationMode::FlowerPower && radius_mm < FLOWER_POWER_MIN_RADIUS_MM {
        return Err(
            Error::UnsupportedMode(String::from_str("flower mode needs a radius of at least 3000 m")),
        );
    }
    Ok(())
}

/// One circle to analyse: its label, where its center lies from the request's
/// center (none for the center itself), and its radius.
#[derive(Clone, Debug)]
pub struct CirclePlan {
    pub id: String,
    /// Bearing in degrees, clockwise from north, and distance in millimetres
    /// of this circle's center from the request's center.
    pub offset: Option<(u32, i64)>,
    pub radius_mm: i64,
}

/// The label of petal `i`.
pub open spec fn petal_label(i: int) -> Seq<char> {
    "petal_"@.push(seq!['0', '1', '2', '3', '4', '5'][i])
}

/// `plans` is the layout of `mode` for a request of radius `radius_mm`.
pub open spec fn is_layout(mode: GenerationMode, radius_mm: i64, plans: Seq<CirclePlan>) -> bool {
    match mode {
        GenerationMode::Standard => {
            &&& plans.len() == 1
            &&& plans[0].id@ == "center"@
            &&& plans[0].offset is None
            &&& plans[0].radius_mm == radius_mm
        },
        GenerationMode::FlowerPower => {
            &&& plans.len() == 1 + PETAL_COUNT
            &&& plans[0].id@ == "center"@
            &&& plans[0].offset is None
            &&& forall|i: int| 0 <= i < plans.len() ==> #[trigger] plans[i].radius_mm == radius_mm / 2
            &&& forall|i: int|
                0 <= i < PETAL_COUNT ==> #[trigger] plans[i + 1].id@ == petal_label(i)
                    && plans[i + 1].offset == Some(((PETAL_STEP_DEG * i) as u32, (radius_mm / 2) as i64))
        },
    }
}

/// The label of petal `i`.
fn petal_id(i: usize) -> (s: String)
    requires
        i < PETAL_COUNT,
    ensures
        s@ == petal_label(i as int),
{
    proof {
        reveal_strlit("petal_");
        reveal_strlit("petal_0");
        reveal_strlit("petal_1");
        reveal_strlit("petal_2");
        reveal_strlit("petal_3");
        reveal_strlit("petal_4");
        reveal_strlit("petal_5");
    }
    let s = if i == 0 {
        String::from_str("petal_0")
    } else if i == 1 {
        String::from_str("petal_1")
    } else if i == 2 {
        String::from_str("petal_2")
    } else if i == 3 {
        String::from_str("petal_3")
    } else if i == 4 {
        String::from_str("petal_4")
    } else {
        String::from_str("petal_5")
    };
    assert(s@ =~= petal_label(i as int));
    s
}

/// The circles that `mode` analyses for a request of radius `radius_mm`.
pub fn circle_layout(mode: GenerationMode, radius_mm: i64) -> (plans: Vec<CirclePlan>)
    requires
        radius_mm > 0,
    ensures
        is_layout(mode, radius_mm, plans@),
{
    match mode {
        GenerationMode::Standard => {
            let mut plans: Vec<CirclePlan> = Vec::new();
            plans.push(CirclePlan { id: String::from_str("center"), offset: None, radius_mm });
            plans
        },
        GenerationMode::FlowerPower => {
            let sub_radius = radius_mm / 2;
            let mut plans: Vec<CirclePlan> = Vec::new();
            plans.push(CirclePlan { id: String::from_str("center"), offset: None, radius_mm: sub_radius });
            let mut i: usize = 0;
            while i < PETAL_COUNT
                invariant
                    0 <= i <= PETAL_COUNT,
                    sub_radius == radius_mm / 2,
                    plans@.len() == 1 + i,
                    plans@[0].id@ == "center"@,
                    plans@[0].offset is None,
                    forall|j: int| 0 <= j < plans@.len() ==> #[trigger] plans@[j].radius_mm == sub_radius,
                    forall|j: int|
                        0 <= j < i ==> #[trigger] plans@[j + 1].id@ == petal_label(j) && plans@[j
                            + 1].offset == Some(((PETAL_STEP_DEG * j) as u32, sub_radius)),
                decreases PETAL_COUNT - i,
            {
                let bearing = PETAL_STEP_DEG * (i as u32);
                let ghost before = plans@;
                plans.push(
                    CirclePlan { id: petal_id(i), offset: Some((bearing, sub_radius)), radius_mm: sub_radius },
                );
                assert forall|j: int| 0 <= j < i + 1 implies #[trigger] plans@[j + 1].id@ == petal_label(j)
                    && plans@[j + 1].offset == Some(((PETAL_STEP_DEG * j) as u32, sub_radius)) by {
                    if j < i {
                        assert(plans@[j + 1] == before[j + 1]);
                    }
                }
                i = i + 1;
            }
            plans
        },
    }
}

/// Validates a request and gives the circles to analyse for it.
pub fn plan_circles(center: &Coordinates, radius_mm: i64, mode: GenerationMode) -> (r: Result<
    Vec<CirclePlan>,
    Error,
>)
    ensures
        validation_result(*center, radius_mm, mode, r),
        r matches Ok(plans) ==> is_layout(mode, radius_mm, plans@),
{
    match validate_request(center, radius_mm, mode) {
        Ok(()) => Ok(circle_layout(mode, radius_mm)),
        Err(e) => Err(e),
    }
}

/// The parameters a generation was asked for.
#[derive(Clone, Debug)]
pub struct GenerationRequest {
    pub center: Coordinates,
    /// Radius in millimetres.
    pub radius_mm: i64,
    /// Points drawn per circle.
    pub points: usize,
    /// Name of the random source.
    pub backend: String,
    pub mode: GenerationMode,
    pub include_points: bool,
}

/// When a generation was made.
#[derive(Clone, Debug)]
pub struct GenerationMetadata {
    /// RFC 3339 time of generation; none for a time that cannot be written so.
    pub timestamp: Option<String>,
}

/// Everything one generation produced.
#[derive(Clone, Debug)]
pub struct GenerationResponse {
    /// A random version-4 UUID, in its hyphenated form.
    pub id: String,
    pub request: GenerationRequest,
    /// One circle in standard mode, seven in flower mode.
    pub circles: Vec<CircleResults>,
    pub winners: Winners,
    pub metadata: GenerationMetadata,
}

/// What makes a generation unique, drawn by the caller: sixteen random bytes
/// for its identifier, and the time as seconds and nanoseconds since
/// 1970-01-01 UTC.
#[derive(Clone, Copy, Debug)]
pub struct GenerationStamp {
    pub id_bytes: [u8; 16],
    pub unix_secs: i64,
    pub unix_nanos: u32,
}

/// Relies on uuid's `Builder::from_random_bytes`, `Builder::into_uuid` and the
/// UUID's `Display`: the bytes with the version and variant bits set, written
/// as 36 characters, hyphens at 8, 13, 18 and 23, the version digit `4` at 14.
#[verifier::external_body]
fn uuid_from_random_bytes(bytes: [u8; 16]) -> (id: String)
    ensures
        id@.len() == 36,
        id@[8] == '-' && id@[13] == '-' && id@[18] == '-' && id@[23] == '-',
        id@[14] == '4',
{
    uuid::Builder::from_random_bytes(bytes).into_uuid().to_string()
}

/// Relies on chrono's `DateTime::<Utc>::from_timestamp` and
/// `DateTime::to_rfc3339`: the time in RFC 3339 form, none where chrono cannot
/// represent it. Every time from 1970 through 9999 with fewer than 10⁹
/// nanoseconds can be.
#[verifier::external_body]
fn rfc3339_from_unix(secs: i64, nanos: u32) -> (s: Option<String>)
    ensures
        0 <= secs <= 253_402_300_799 && nanos < 1_000_000_000 ==> s is Some,
{
    chrono::DateTime::<chrono::Utc>::from_timestamp(secs, nanos).map(|d| d.to_rfc3339())
}

/// Puts a generation together: the circles in the order given, the winner of
/// each anomaly kind across them, and an identifier and time from `stamp`.
pub fn assemble_response(
    request: GenerationRequest,
    circles: Vec<CircleResults>,
    stamp: GenerationStamp,
) -> (r: GenerationResponse)
    requires
        all_wf(circles@),
    ensures
        r.request == request,
        r.circles@ == circles@,
        forall|k: AnomalyType| is_winner_result(circles@, k, #[trigger] r.winners.spec_get(k)),
        r.id@.len() == 36,
        0 <= stamp.unix_secs <= 253_402_300_799 && stamp.unix_nanos < 1_000_000_000
            ==> r.metadata.timestamp is Some,
{
    let winners = find_all_winners(circles.as_slice());
    GenerationResponse {
        id: uuid_from_random_bytes(stamp.id_bytes),
        request,
        circles,
        winners,
        metadata: GenerationMetadata { timestamp: rfc3339_from_unix(stamp.unix_secs, stamp.unix_nanos) },
    }
}

/// What was sampled for one planned circle: its center (for a petal; the
/// circle without offset is centered on the request's center), the points
/// drawn, the grid cell each falls in, and the centre of each cell.
#[derive(Clone, Debug)]
pub struct CircleSample {
    pub center: Coordinates,
    pub points: Vec<Coordinates>,
    pub positions: Vec<GridPos>,
    pub cell_centers: Vec<Vec<Coordinates>>,
}

/// Number of circles that `mode` analyses.
pub open spec fn circle_count(mode: GenerationMode) -> nat {
    match mode {
        GenerationMode::Standard => 1,
        GenerationMode::FlowerPower => (1 + PETAL_COUNT) as nat,
    }
}

/// A sample fits a grid of `res` cells per axis.
pub open spec fn sample_fits(s: CircleSample, res: nat) -> bool {
    &&& s.positions@.len() == s.points@.len()
    &&& s.cell_centers@.len() == res
    &&& forall|r: int| 0 <= r < res ==> #[trigger] s.cell_centers@[r]@.len() == res
    &&& s.positions@.len() * (res * res) <= DENOM_SQ_MAX
}

/// Circle `i` of `circles` is circle `i` of `plans` analysed on sample `i`.
pub open spec fn follows_plans(
    request: GenerationRequest,
    res: nat,
    samples: Seq<CircleSample>,
    circles: Seq<CircleResults>,
    plans: Seq<CirclePlan>,
) -> bool {
    &&& plans.len() == samples.len()
    &&& circles.len() == samples.len()
    &&& forall|i: int|
        0 <= i < plans.len() ==> {
            &&& (#[trigger] circles[i]).id@ == plans[i].id@
            &&& circles[i].radius_mm == plans[i].radius_mm
            &&& circles[i].center == (if plans[i].offset is None {
                request.center
            } else {
                samples[i].center
            })
            &&& anomalies_of(
                samples[i].points@,
                samples[i].positions@,
                centers_of(samples[i].cell_centers@),
                res,
                circles[i].anomalies,
            )
            &&& (circles[i].points is Some <==> request.include_points)
            &&& (circles[i].points matches Some(v) ==> v@ == samples[i].points@)
        }
}

/// `resp` is what generating on `samples` gives for a valid `request`: the
/// request kept, one circle per planned circle in plan order, each analysed on
/// its own sample, and the winner of each kind across them.
pub open spec fn is_generated(
    request: GenerationRequest,
    res: nat,
    samples: Seq<CircleSample>,
    resp: GenerationResponse,
) -> bool {
    &&& resp.request == request
    &&& exists|plans: Seq<CirclePlan>|
        #[trigger] is_layout(request.mode, request.radius_mm, plans) && follows_plans(
            request,
            res,
            samples,
            resp.circles@,
            plans,
        )
    &&& forall|k: AnomalyType| is_winner_result(resp.circles@, k, #[trigger] resp.winners.spec_get(k))
}

/// Runs a generation on points already sampled for each planned circle, in
/// plan order: validates the request, analyses every circle, and picks the
/// winners across them.
pub fn generate(
    request: GenerationRequest,
    grid_resolution: usize,
    samples: Vec<CircleSample>,
    stamp: GenerationStamp,
) -> (r: Result<GenerationResponse, Error>)
    requires
        samples@.len() == circle_count(request.mode),
        grid_resolution * grid_resolution <= DENOM_SQ_MAX,
        grid_resolution * grid_resolution <= usize::MAX,
        forall|i: int| 0 <= i < samples@.len() ==> sample_fits(#[trigger] samples@[i], grid_resolution as nat),
    ensures
        validation_result(request.center, request.radius_mm, request.mode, r),
        r matches Ok(resp) ==> is_generated(request, grid_resolution as nat, samples@, resp),
        r matches Ok(resp) ==> resp.id@.len() == 36 && (0 <= stamp.unix_secs <= 253_402_300_799
            && stamp.unix_nanos < 1_000_000_000 ==> resp.metadata.timestamp is Some),
{
    let plans = match plan_circles(&request.center, request.radius_mm, request.mode) {
        Ok(p) => p,
        Err(e) => return Err(e),
    };
    let ghost samples0 = samples@;
    let mut circles: Vec<CircleResults> = Vec::new();
    let mut rest = samples;
    let mut i: usize = 0;
    while i < plans.len()
        invariant
            plans@.len() == samples0.len(),
            is_layout(request.mode, request.radius_mm, plans@),
            0 <= i <= plans@.len(),
            rest@ == samples0.subrange(i as int, samples0.len() as int),
            circles@.len() == i,
            grid_resolution * grid_resolution <= DENOM_SQ_MAX,
            grid_resolution * grid_resolution <= usize::MAX,
            forall|j: int| 0 <= j < samples0.len() ==> sample_fits(#[trigger] samples0[j], grid_resolution as nat),
            forall|j: int|
                0 <= j < i ==> {
                    &&& (#[trigger] circles@[j]).id@ == plans@[j].id@
                    &&& circles@[j].radius_mm == plans@[j].radius_mm
                    &&& circles@[j].center == (if plans@[j].offset is None {
                        request.center
                    } else {
                        samples0[j].center
                    })
                    &&& anomalies_of(
                        samples0[j].points@,
                        samples0[j].positions@,
                        centers_of(samples0[j].cell_centers@),
                        grid_resolution as nat,
                        circles@[j].anomalies,
                    )
                    &&& (circles@[j].points is Some <==> request.include_points)
                    &&& (circles@[j].points matches Some(v) ==> v@ == samples0[j].points@)
                },
        decreases plans@.len() - i,
    {
        let s = rest.remove(0);
        assert(s == samples0[i as int]);
        assert(rest@ =~= samples0.subrange(i + 1, samples0.len() as int));
        assert(sample_fits(samples0[i as int], grid_resolution as nat));
        let center = match plans[i].offset {
            None => request.center,
            Some(_) => s.center,
        };
        let c = analyze_circle(
            plans[i].id.as_str(),
            center,
            plans[i].radius_mm,
            s.points,
            s.positions.as_slice(),
            &s.cell_centers,
            grid_resolution,
            request.include_points,
        );
        circles.push(c);
        i = i + 1;
    }
    proof {
        assert forall|j: int| 0 <= j < circles@.len() implies (#[trigger] circles@[j]).anomalies.wf() by {
            assert(anomalies_of(
                samples0[j].points@,
                samples0[j].positions@,
                centers_of(samples0[j].cell_centers@),
                grid_resolution as nat,
                circles@[j].anomalies,
            ));
        }
    }
    let ghost circles0 = circles@;
    let resp = assemble_response(request, circles, stamp);
    assert(follows_plans(request, grid_resolution as nat, samples0, circles0, plans@));
    assert(is_layout(request.mode, request.radius_mm, plans@));
    Ok(resp)
}

/// `generate` with the default point count and grid resolution, without
/// keeping the sampled points.
pub fn generate_with_defaults(
    center: Coordinates,
    radius_mm: i64,
    mode: GenerationMode,
    backend: &str,
    samples: Vec<CircleSample>,
    stamp: GenerationStamp,
) -> (r: Result<GenerationResponse, Error>)
    requires
        samples@.len() == circle_count(mode),
        forall|i: int|
            0 <= i < samples@.len() ==> sample_fits(
                #[trigger] samples@[i],
                DEFAULT_GRID_RESOLUTION as nat,
            ),
    ensures
        validation_result(center, radius_mm, mode, r),
        r matches Ok(resp) ==> {
            &&& is_generated(resp.request, DEFAULT_GRID_RESOLUTION as nat, samples@, resp)
            &&& resp.request.center == center
            &&& resp.request.radius_mm == radius_mm
            &&& resp.request.mode == mode
            &&& resp.request.points == DEFAULT_POINT_COUNT
            &&& resp.request.backend@ == backend@
            &&& !resp.request.include_points
        },
{
    let request = GenerationRequest {
        center,
        radius_mm,
        points: DEFAULT_POINT_COUNT,
        backend: String::from_str(backend),
        mode,
        include_points: false,
    };
    generate(request, DEFAULT_GRID_RESOLUTION, samples, stamp)
}

/// Generating twice on the same request and the same samples gives the same
/// circles, the same anomalies and the same winners; only the identifier and
/// the time may differ.
pub proof fn lemma_generation_determined(
    request: GenerationRequest,
    res: nat,
    samples: Seq<CircleSample>,
    r1: GenerationResponse,
    r2: GenerationResponse,
)
    requires
        is_generated(request, res, samples, r1),
        is_generated(request, res, samples, r2),
    ensures
        r1.circles@.len() == r2.circles@.len(),
        forall|i: int|
            0 <= i < r1.circles@.len() ==> (#[trigger] r1.circles@[i]).id@ == r2.circles@[i].id@
                && r1.circles@[i].anomalies == r2.circles@[i].anomalies && r1.circles@[i].center
                == r2.circles@[i].center && r1.circles@[i].radius_mm == r2.circles@[i].radius_mm,
        forall|k: AnomalyType|
            #![trigger r1.winners.spec_get(k)]
            (r1.winners.spec_get(k) is Some <==> r2.winners.spec_get(k) is Some) && (r1.winners.spec_get(
                k,
            ) matches Some(x) ==> (r2.winners.spec_get(k) matches Some(y) && x.circle_id@
                == y.circle_id@ && x.result == y.result)),
{
    let c1 = r1.circles@;
    let c2 = r2.circles@;
    let p1 = choose|plans: Seq<CirclePlan>|
        #[trigger] is_layout(request.mode, request.radius_mm, plans) && follows_plans(
            request,
            res,
            samples,
            c1,
            plans,
        );
    let p2 = choose|plans: Seq<CirclePlan>|
        #[trigger] is_layout(request.mode, request.radius_mm, plans) && follows_plans(
            request,
            res,
            samples,
            c2,
            plans,
        );
    assert(p1.len() == p2.len());
    assert forall|i: int| 0 <= i < c1.len() implies (#[trigger] c1[i]).id@ == c2[i].id@
        && c1[i].anomalies == c2[i].anomalies && c1[i].center == c2[i].center && c1[i].radius_mm
        == c2[i].radius_mm by {
        assert(c1[i].id@ == p1[i].id@);
        assert(c2[i].id@ == p2[i].id@);
        if i > 0 {
            assert(p1[(i - 1) + 1].id@ == p2[(i - 1) + 1].id@);
        }
        lemma_anomalies_determined(
            samples[i].points@,
            samples[i].positions@,
            centers_of(samples[i].cell_centers@),
            res,
            c1[i].anomalies,
            c2[i].anomalies,
        );
    }
    assert forall|k: AnomalyType|
        #![trigger r1.winners.spec_get(k)]
        (r1.winners.spec_get(k) is Some <==> r2.winners.spec_get(k) is Some) && (r1.winners.spec_get(
            k,
        ) matches Some(x) ==> (r2.winners.spec_get(k) matches Some(y) && x.circle_id@
            == y.circle_id@ && x.result == y.result)) by {
        let w1 = r1.winners.spec_get(k);
        let w2 = r2.winners.spec_get(k);
        assert(is_winner_result(c1, k, w1));
        assert(is_winner_result(c2, k, w2));
        assert forall|i: int| #[trigger] is_winner_at(c1, k, i) implies is_winner_at(c2, k, i) by {
            assert forall|j: int| 0 <= j < c2.len() implies #[trigger] c2[j].anomalies.spec_get(k)
                == c1[j].anomalies.spec_get(k) by {
                assert(c1[j].anomalies == c2[j].anomalies);
            }
        }
        match w1 {
            Some(x) => {
                let i = choose|i: int|
                    #[trigger] is_winner_at(c1, k, i) && x.circle_id@ == c1[i].id@ && x.result
                        == c1[i].anomalies.spec_get(k)->0;
                assert(is_winner_at(c2, k, i));
                assert(c1[i].id@ == c2[i].id@ && c1[i].anomalies == c2[i].anomalies);
                assert(is_winner_result(c2, k, w1));
            },
            None => {
                assert forall|i: int| 0 <= i < c2.len() implies (#[trigger] c2[i].anomalies.spec_get(
                    k,
                )) is None by {
                    assert(c1[i].anomalies == c2[i].anomalies);
                    assert(c1[i].anomalies.spec_get(k) is None);
                }
                assert(is_winner_result(c2, k, w1));
            },
        }
        lemma_winner_determined(c2, k, w1, w2);
    }
}

} // verus!
