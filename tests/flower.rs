use q_explore::anomaly::{find_all_anomalies, AnomalySet, CircleResults};
use q_explore::coord::{Coordinates, GenerationMode};
use q_explore::density::GridPos;
use q_explore::error::Error;
use q_explore::flower::{
    assemble_response, circle_layout, generate, plan_circles, validate_request, CircleSample,
    GenerationRequest, GenerationStamp, MAX_RADIUS_MM,
};
use rand::rngs::StdRng;
use rand::{Rng, SeedableRng};

fn nyc() -> Coordinates {
    Coordinates::new(40_712_800_000, -74_006_000_000)
}

fn stamp(n: u8) -> GenerationStamp {
    GenerationStamp { id_bytes: [n; 16], unix_secs: 1_700_000_000, unix_nanos: 0 }
}

fn request(radius_mm: i64, points: usize, mode: GenerationMode) -> GenerationRequest {
    GenerationRequest {
        center: nyc(),
        radius_mm,
        points,
        backend: "pseudo".to_string(),
        mode,
        include_points: false,
    }
}

/// Points drawn at random over the cells of a 50 x 50 grid.
fn sample(seed: u64, n: usize) -> CircleSample {
    let mut rng = StdRng::seed_from_u64(seed);
    let mut points = Vec::new();
    let mut positions = Vec::new();
    for _ in 0..n {
        let row = rng.gen_range(0..50i64);
        let col = rng.gen_range(0..50i64);
        points.push(Coordinates::new(row, col));
        positions.push(GridPos { row, col });
    }
    let cell_centers: Vec<Vec<Coordinates>> = (0..50)
        .map(|r| (0..50).map(|c| Coordinates::new(r, c)).collect())
        .collect();
    CircleSample { center: nyc(), points, positions, cell_centers }
}

/// Analyses one circle from cells drawn with the given seed.
fn analysed(id: &str, seed: u64, n: usize) -> CircleResults {
    let s = sample(seed, n);
    let anomalies: AnomalySet = find_all_anomalies(&s.points, &s.positions, &s.cell_centers, 50);
    CircleResults { id: id.to_string(), center: nyc(), radius_mm: 1_000_000, anomalies, points: None }
}

#[test]
fn test_generate_standard() {
    let response =
        generate(request(1_000_000, 10000, GenerationMode::Standard), 50, vec![sample(42, 10000)], stamp(1)).unwrap();

    assert_eq!(response.circles.len(), 1);
    assert_eq!(response.circles[0].id, "center");
    let attractor = response.winners.attractor.as_ref().unwrap();
    assert_eq!(attractor.circle_id, "center");
    assert!(attractor.result.z_score.unwrap().numer > 0);
    let void = response.winners.void.as_ref().unwrap();
    assert!(void.result.z_score.unwrap().numer < 0);
    assert!(response.winners.blind_spot.is_some());
    assert!(response.winners.power.is_some());
    assert!(response.circles[0].points.is_none());
}

#[test]
fn flower_test_generate_flower_power() {
    let samples: Vec<CircleSample> = (0..7).map(|i| sample(42 + i, 1000)).collect();
    let response = generate(request(3_000_000, 1000, GenerationMode::FlowerPower), 50, samples, stamp(1)).unwrap();
    assert_eq!(response.circles.len(), 7);
    assert_eq!(response.circles[0].id, "center");
    assert_eq!(response.circles[1].id, "petal_0");
    assert_eq!(response.circles[6].id, "petal_5");
    for c in &response.circles {
        assert_eq!(c.radius_mm, 1_500_000);
    }
    assert!(response.winners.blind_spot.is_some());
    assert!(response.winners.attractor.is_some());
    assert!(response.winners.void.is_some());
    assert!(response.winners.power.is_some());
}

#[test]
fn test_generate_with_points() {
    let mut req = request(1_000_000, 500, GenerationMode::Standard);
    req.include_points = true;
    let response = generate(req, 50, vec![sample(42, 500)], stamp(1)).unwrap();
    assert_eq!(response.circles[0].points.as_ref().unwrap().len(), 500);
}

#[test]
fn generate_rejects_before_analysing() {
    let samples: Vec<CircleSample> = (0..7).map(|i| sample(i, 10)).collect();
    let r = generate(request(2_999_000, 10, GenerationMode::FlowerPower), 50, samples, stamp(1));
    assert!(matches!(r, Err(Error::UnsupportedMode(_))));
}

#[test]
fn flower_below_minimum_radius_is_unsupported() {
    let r = plan_circles(&nyc(), 2_999_000, GenerationMode::FlowerPower);
    assert!(matches!(r, Err(Error::UnsupportedMode(_))));
    assert_eq!(r.unwrap_err().error_code(), "UNSUPPORTED_MODE");
    // Standard mode has no such minimum.
    assert!(plan_circles(&nyc(), 2_999_000, GenerationMode::Standard).is_ok());
}

#[test]
fn flower_layout_is_hexagonal_with_half_radius() {
    let plans = circle_layout(GenerationMode::FlowerPower, 5_000_000);
    assert_eq!(plans.len(), 7);
    assert!(plans[0].offset.is_none());
    for (i, plan) in plans.iter().enumerate() {
        assert_eq!(plan.radius_mm, 2_500_000);
        if i > 0 {
            assert_eq!(plan.id, format!("petal_{}", i - 1));
            assert_eq!(plan.offset, Some((60 * (i as u32 - 1), 2_500_000)));
        }
    }
}

#[test]
fn test_generate_invalid_coordinates() {
    let r = validate_request(&Coordinates::new(91_000_000_000, -74_006_000_000), 1_000_000, GenerationMode::Standard);
    let e = r.unwrap_err();
    assert!(matches!(e, Error::InvalidCoordinates(_)));
    assert_eq!(e.error_code(), "INVALID_COORDINATES");
    let r = validate_request(&Coordinates::new(0, 180_000_000_001), 1_000_000, GenerationMode::Standard);
    assert!(matches!(r, Err(Error::InvalidCoordinates(_))));
}

#[test]
fn test_generate_invalid_radius() {
    let e = validate_request(&nyc(), -100_000, GenerationMode::Standard).unwrap_err();
    assert!(matches!(e, Error::InvalidRadius(_)));
    assert_eq!(e.error_code(), "INVALID_RADIUS");
    assert!(matches!(validate_request(&nyc(), 0, GenerationMode::Standard), Err(Error::InvalidRadius(_))));
    assert!(matches!(
        validate_request(&nyc(), MAX_RADIUS_MM + 1, GenerationMode::Standard),
        Err(Error::InvalidRadius(_))
    ));
    assert!(validate_request(&nyc(), MAX_RADIUS_MM, GenerationMode::Standard).is_ok());
}

#[test]
fn coordinates_are_checked_before_radius() {
    let r = validate_request(&Coordinates::new(-90_000_000_001, 0), -1, GenerationMode::FlowerPower);
    assert!(matches!(r, Err(Error::InvalidCoordinates(_))));
    let r = validate_request(&nyc(), -1, GenerationMode::FlowerPower);
    assert!(matches!(r, Err(Error::InvalidRadius(_))));
}

#[test]
fn poles_and_date_line_are_valid_centers() {
    for c in [
        Coordinates::new(90_000_000_000, 0),
        Coordinates::new(-90_000_000_000, 0),
        Coordinates::new(0, 180_000_000_000),
        Coordinates::new(0, -180_000_000_000),
    ] {
        assert!(c.validate().is_ok());
    }
}

#[test]
fn response_has_uuid_and_keeps_request() {
    let circles = vec![analysed("center", 1, 100)];
    let response = assemble_response(request(1_000_000, 100, GenerationMode::Standard), circles, stamp(0));
    assert_eq!(response.id.len(), 36);
    assert_eq!(response.id.as_bytes()[14], b'4');
    assert_eq!(response.request.radius_mm, 1_000_000);
    assert_eq!(response.request.backend, "pseudo");
    assert_eq!(response.id, "00000000-0000-4000-8000-000000000000");
    assert_eq!(response.metadata.timestamp.as_deref(), Some("2023-11-14T22:13:20+00:00"));
}

#[test]
fn seeded_runs_give_identical_results() {
    let samples = |seed: u64| -> Vec<CircleSample> { (0..7).map(|i| sample(seed + i, 2000)).collect() };
    let a = generate(request(3_000_000, 2000, GenerationMode::FlowerPower), 50, samples(5), stamp(7)).unwrap();
    let b = generate(request(3_000_000, 2000, GenerationMode::FlowerPower), 50, samples(5), stamp(8)).unwrap();
    for (x, y) in a.circles.iter().zip(b.circles.iter()) {
        assert_eq!(x.id, y.id);
        assert_eq!(x.anomalies, y.anomalies);
    }
    assert_eq!(a.winners.power.as_ref().unwrap().circle_id, b.winners.power.as_ref().unwrap().circle_id);
    assert_eq!(a.winners.attractor.unwrap().result, b.winners.attractor.unwrap().result);
    assert_eq!(a.winners.void.unwrap().result, b.winners.void.unwrap().result);
    assert_ne!(a.id, b.id);
}

#[test]
fn center_circle_sits_at_the_request_center() {
    let mut off = sample(3, 100);
    off.center = Coordinates::new(1, 1);
    let response =
        generate(request(1_000_000, 100, GenerationMode::Standard), 50, vec![off], stamp(2)).unwrap();
    assert_eq!(response.circles[0].center, nyc());

    let samples: Vec<CircleSample> = (0..7)
        .map(|i| {
            let mut s = sample(i, 100);
            s.center = Coordinates::new(i as i64 + 1, 0);
            s
        })
        .collect();
    let response =
        generate(request(3_000_000, 100, GenerationMode::FlowerPower), 50, samples, stamp(2)).unwrap();
    assert_eq!(response.circles[0].center, nyc());
    assert_eq!(response.circles[3].center, Coordinates::new(4, 0));
}

#[test]
fn time_outside_chrono_range_has_no_timestamp() {
    let circles = vec![analysed("center", 1, 10)];
    let far = GenerationStamp { id_bytes: [0xff; 16], unix_secs: i64::MAX, unix_nanos: 0 };
    let response = assemble_response(request(1_000_000, 10, GenerationMode::Standard), circles, far);
    assert!(response.metadata.timestamp.is_none());
    assert_eq!(response.id, "ffffffff-ffff-4fff-bfff-ffffffffffff");
}
