use q_explore::anomaly::{
    analyze_circle, find_all_anomalies, find_all_winners, find_winner, AnomalySet, CircleResults,
};
use q_explore::coord::{AnomalyType, Coordinates, Point};
use q_explore::density::GridPos;
use q_explore::zscore::ZScore;
use rand::rngs::StdRng;
use rand::{Rng, SeedableRng};

fn nyc() -> Coordinates {
    Coordinates::new(40_712_800_000, -74_006_000_000)
}

/// Sampled points and the cells they fall in, drawn at random over the grid.
fn seeded_sample(seed: u64, n: usize, res: i64) -> (Vec<Coordinates>, Vec<GridPos>) {
    let mut rng = StdRng::seed_from_u64(seed);
    let mut points = Vec::new();
    let mut positions = Vec::new();
    for _ in 0..n {
        let row = rng.gen_range(0..res);
        let col = rng.gen_range(0..res);
        points.push(Coordinates::new(row * 1_000, col * 1_000));
        positions.push(GridPos { row, col });
    }
    (points, positions)
}

/// Cell centres labelled by their indices.
fn centers(res: usize) -> Vec<Vec<Coordinates>> {
    (0..res)
        .map(|r| (0..res).map(|c| Coordinates::new(r as i64, c as i64)).collect())
        .collect()
}

fn scored(z: i64, d: u64) -> Point {
    Point::with_z_score(nyc(), ZScore { numer: z, denom_sq: d })
}

fn circle(id: &str, anomalies: AnomalySet) -> CircleResults {
    CircleResults { id: id.to_string(), center: nyc(), radius_mm: 1_000_000, anomalies, points: None }
}

fn set(attractor: Option<Point>, void: Option<Point>, power: Option<Point>) -> AnomalySet {
    AnomalySet { blind_spot: Some(Point::new(nyc())), attractor, void, power }
}

#[test]
fn test_find_all_anomalies() {
    let (points, positions) = seeded_sample(42, 10000, 50);
    let anomalies = find_all_anomalies(&points, &positions, &centers(50), 50);

    assert!(anomalies.blind_spot.is_some());
    assert!(anomalies.attractor.is_some());
    assert!(anomalies.void.is_some());
    assert!(anomalies.power.is_some());

    assert!(anomalies.attractor.unwrap().z_score.unwrap().numer > 0);
    assert!(anomalies.void.unwrap().z_score.unwrap().numer < 0);
    assert!(anomalies.power.unwrap().is_attractor.is_some());
}

#[test]
fn test_analyze_circle() {
    let (points, positions) = seeded_sample(42, 10000, 50);
    let result = analyze_circle("center", nyc(), 1_000_000, points, &positions, &centers(50), 50, false);

    assert_eq!(result.id, "center");
    assert_eq!(result.center, nyc());
    assert_eq!(result.radius_mm, 1_000_000);
    assert!(result.points.is_none());
    assert!(result.anomalies.attractor.is_some());
}

#[test]
fn test_analyze_circle_with_points() {
    let (points, positions) = seeded_sample(42, 1000, 50);
    let result = analyze_circle("center", nyc(), 1_000_000, points, &positions, &centers(50), 50, true);
    assert!(result.points.is_some());
    assert_eq!(result.points.as_ref().unwrap().len(), 1000);
}

#[test]
fn test_find_winners() {
    let (p1, q1) = seeded_sample(42, 5000, 50);
    let (p2, q2) = seeded_sample(123, 5000, 50);
    let circle1 = analyze_circle("center", nyc(), 1_000_000, p1, &q1, &centers(50), 50, false);
    let circle2 = analyze_circle("petal_0", nyc(), 1_000_000, p2, &q2, &centers(50), 50, false);
    let winners = find_all_winners(&[circle1, circle2]);

    assert!(winners.blind_spot.is_some());
    assert!(winners.attractor.is_some());
    assert!(winners.void.is_some());
    assert!(winners.power.is_some());
}

#[test]
fn blind_spot_is_the_first_point_and_cells_sit_at_their_centres() {
    let points = vec![Coordinates::new(5, 6), Coordinates::new(7, 8)];
    let positions = vec![GridPos { row: 1, col: 2 }, GridPos { row: 1, col: 2 }];
    let a = find_all_anomalies(&points, &positions, &centers(4), 4);
    assert_eq!(a.blind_spot, Some(Point::new(Coordinates::new(5, 6))));
    let attractor = a.attractor.unwrap();
    assert_eq!(attractor.coords, Coordinates::new(1, 2));
    assert_eq!(attractor.z_score, Some(ZScore { numer: 2 * 12 - 2, denom_sq: 24 }));
    assert_eq!(attractor.is_attractor, None);
    let power = a.power.unwrap();
    assert_eq!(power.coords, Coordinates::new(1, 2));
    assert_eq!(power.is_attractor, Some(true));
}

#[test]
fn no_points_give_no_anomalies() {
    let a = find_all_anomalies(&[], &[], &centers(10), 10);
    assert_eq!(a.blind_spot, None);
    assert_eq!(a.attractor, None);
    assert_eq!(a.void, None);
    assert_eq!(a.power, None);
}

#[test]
fn analysis_is_deterministic() {
    let (points, positions) = seeded_sample(9, 3000, 50);
    let a = find_all_anomalies(&points, &positions, &centers(50), 50);
    let b = find_all_anomalies(&points, &positions, &centers(50), 50);
    assert_eq!(a, b);
}

#[test]
fn attractor_winner_is_highest_and_earlier_wins_ties() {
    let circles = vec![
        circle("center", set(Some(scored(2, 4)), None, None)),
        circle("petal_0", set(Some(scored(3, 4)), None, None)),
        circle("petal_1", set(Some(scored(6, 16)), None, None)),
    ];
    let w = find_winner(&circles, AnomalyType::Attractor).unwrap();
    assert_eq!(w.circle_id, "petal_0");
    assert_eq!(w.result, scored(3, 4));
}

#[test]
fn void_winner_is_lowest() {
    let circles = vec![
        circle("center", set(None, Some(scored(-1, 1)), None)),
        circle("petal_0", set(None, Some(scored(-3, 4)), None)),
        circle("petal_1", set(None, Some(scored(-2, 1)), None)),
    ];
    let w = find_winner(&circles, AnomalyType::Void).unwrap();
    assert_eq!(w.circle_id, "petal_1");
}

#[test]
fn power_winner_has_largest_magnitude() {
    let circles = vec![
        circle("center", set(None, None, Some(scored(2, 1)))),
        circle("petal_0", set(None, None, Some(scored(-5, 4)))),
        circle("petal_1", set(None, None, Some(scored(-2, 1)))),
    ];
    let w = find_winner(&circles, AnomalyType::Power).unwrap();
    assert_eq!(w.circle_id, "petal_0");
}

#[test]
fn blind_spot_winner_is_first_available() {
    let mut first = set(None, None, None);
    first.blind_spot = None;
    let circles = vec![
        circle("center", first),
        circle("petal_0", set(None, None, None)),
        circle("petal_1", set(None, None, None)),
    ];
    let w = find_winner(&circles, AnomalyType::BlindSpot).unwrap();
    assert_eq!(w.circle_id, "petal_0");
}

#[test]
fn kinds_without_results_have_no_winner() {
    let circles = vec![circle("center", set(None, None, None))];
    let winners = find_all_winners(&circles);
    assert!(winners.blind_spot.is_some());
    assert!(winners.attractor.is_none());
    assert!(winners.void.is_none());
    assert!(winners.power.is_none());
    assert!(find_winner(&[], AnomalyType::Attractor).is_none());
}
