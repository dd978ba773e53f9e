//! Per-circle anomaly extraction and cross-circle winner selection.
use crate::coord::{AnomalyType, Coordinates, Point};
use crate::density::{
    added, empty_grid, find_densest_cell, find_emptiest_cell, find_most_anomalous_cell,
    has_no_scores, is_extreme_cell, lemma_extreme_cell_unique, lemma_z_of_wf, DensityGrid, GridModel, GridPos,
};
use crate::zscore::{lemma_ranking_preorder, Extremum, ZScore, DENOM_SQ_MAX};
use vstd::prelude::*;

verus! {

/// Points drawn per circle unless a caller chooses otherwise.
pub const DEFAULT_POINT_COUNT: usize = 10_000;

/// The result of each anomaly kind for one circle, where there is one.
#[derive(Clone, Copy, Debug, PartialEq, Eq, Structural)]
pub struct AnomalySet {
    pub blind_spot: Option<Point>,
    pub attractor: Option<Point>,
    pub void: Option<Point>,
    pub power: Option<Point>,
}

impl AnomalySet {
    /// The result for `kind`, if any.
    pub open spec fn spec_get(self, kind: AnomalyType) -> Option<Point> {
        match kind {
            AnomalyType::BlindSpot => self.blind_spot,
            AnomalyType::Attractor => self.attractor,
            AnomalyType::Void => self.void,
            AnomalyType::Power => self.power,
        }
    }

    /// Every z-score held is well formed.
    pub open spec fn wf(self) -> bool {
        forall|k: AnomalyType| (#[trigger] self.spec_get(k)) matches Some(p) ==> p.wf()
    }

    /// The result for `kind`, if any.
    pub fn get(&self, kind: AnomalyType) -> (r: Option<Point>)
        ensures
            r == self.spec_get(kind),
    {
        match kind {
            AnomalyType::BlindSpot => self.blind_spot,
            AnomalyType::Attractor => self.attractor,
            AnomalyType::Void => self.void,
            AnomalyType::Power => self.power,
        }
    }
}

/// The coordinates of each cell centre, `[row][col]`.
pub open spec fn centers_of(v: Seq<Vec<Coordinates>>) -> Seq<Seq<Coordinates>> {
    v.map_values(|row: Vec<Coordinates>| row@)
}

/// `p` is the point for the most extreme cell of `m` in direction `e`, placed
/// at that cell's centre; none when no cell has a score.
pub open spec fn cell_point(
    m: GridModel,
    e: Extremum,
    centers: Seq<Seq<Coordinates>>,
    p: Option<Point>,
) -> bool {
    match p {
        None => has_no_scores(m),
        Some(pt) => exists|r: int, c: int|
            #[trigger] is_extreme_cell(m, e, r, c) && pt == (Point {
                coords: centers[r][c],
                z_score: m.z_of(r, c),
                is_attractor: if e == Extremum::FarthestFromZero {
                    Some(m.z_of(r, c)->0.is_positive())
                } else {
                    None
                },
            }),
    }
}

/// The anomalies of one circle: the first sampled point, and the cells of a
/// grid holding `positions` that are highest, lowest and farthest from zero.
pub open spec fn anomalies_of(
    points: Seq<Coordinates>,
    positions: Seq<GridPos>,
    centers: Seq<Seq<Coordinates>>,
    res: nat,
    a: AnomalySet,
) -> bool {
    let g = added(empty_grid(res), positions);
    &&& a.blind_spot == if points.len() > 0 {
        Some(Point { coords: points[0], z_score: None, is_attractor: None })
    } else {
        None
    }
    &&& cell_point(g, Extremum::Highest, centers, a.attractor)
    &&& cell_point(g, Extremum::Lowest, centers, a.void)
    &&& cell_point(g, Extremum::FarthestFromZero, centers, a.power)
    &&& a.wf()
}

/// Finds the four anomalies of one circle.
///
/// `points` are the sampled points, `positions` the cell each falls in on a
/// grid of `grid_resolution` cells per axis, and `cell_centers` the
/// coordinates of each cell centre.
pub fn find_all_anomalies(
    points: &[Coordinates],
    positions: &[GridPos],
    cell_centers: &Vec<Vec<Coordinates>>,
    grid_resolution: usize,
) -> (a: AnomalySet)
    requires
        positions@.len() == points@.len(),
        cell_centers@.len() == grid_resolution,
        forall|r: int| 0 <= r < grid_resolution ==> #[trigger] cell_centers@[r]@.len() == grid_resolution,
        grid_resolution * grid_resolution <= DENOM_SQ_MAX,
        grid_resolution * grid_resolution <= usize::MAX,
        positions@.len() * (grid_resolution * grid_resolution) <= DENOM_SQ_MAX,
    ensures
        anomalies_of(
            points@,
            positions@,
            centers_of(cell_centers@),
            grid_resolution as nat,
            a,
        ),
        !added(empty_grid(grid_resolution as nat), positions@).is_uniform() ==> (a.attractor matches Some(
            p,
        ) ==> p.z_score->0.is_positive()),
        !added(empty_grid(grid_resolution as nat), positions@).is_uniform() ==> (a.void matches Some(p)
            ==> p.z_score->0.is_negative()),
{
    let ghost centers = centers_of(cell_centers@);
    let blind_spot = if points.len() > 0 {
        Some(Point::new(points[0]))
    } else {
        None
    };
    let mut grid = DensityGrid::new(grid_resolution);
    grid.add_points(positions);
    let ghost g = grid@;
    let attractor = match find_densest_cell(&grid) {
        Some(cell) => {
            let p = Point::with_z_score(cell_centers[cell.row][cell.col], cell.z_score);
            assert(is_extreme_cell(g, Extremum::Highest, cell.row as int, cell.col as int));
            Some(p)
        },
        None => None,
    };
    let void = match find_emptiest_cell(&grid) {
        Some(cell) => {
            let p = Point::with_z_score(cell_centers[cell.row][cell.col], cell.z_score);
            assert(is_extreme_cell(g, Extremum::Lowest, cell.row as int, cell.col as int));
            Some(p)
        },
        None => None,
    };
    let power = match find_most_anomalous_cell(&grid) {
        Some((cell, is_attractor)) => {
            let p = Point::power(cell_centers[cell.row][cell.col], cell.z_score, is_attractor);
            assert(is_extreme_cell(g, Extremum::FarthestFromZero, cell.row as int, cell.col as int));
            Some(p)
        },
        None => None,
    };
    let a = AnomalySet { blind_spot, attractor, void, power };
    proof {
        assert forall|k: AnomalyType| (#[trigger] a.spec_get(k)) is Some implies a.spec_get(k)->0.wf() by {
            if let Some(p) = a.spec_get(k) {
                if let Some(z) = p.z_score {
                    let (r, c) = choose|r: int, c: int|
                        is_extreme_cell(
                            g,
                            match k {
                                AnomalyType::Attractor => Extremum::Highest,
                                AnomalyType::Void => Extremum::Lowest,
                                _ => Extremum::FarthestFromZero,
                            },
                            r,
                            c,
                        ) && p.z_score == g.z_of(r, c);
                    lemma_z_of_wf(g, r, c);
                }
            }
        }
    }
    a
}

/// The results of one circle.
#[derive(Clone, Debug)]
pub struct CircleResults {
    /// `"center"`, or `"petal_0"` to `"petal_5"`.
    pub id: String,
    pub center: Coordinates,
    /// Radius in millimetres.
    pub radius_mm: i64,
    pub anomalies: AnomalySet,
    /// The sampled points, where they were asked for.
    pub points: Option<Vec<Coordinates>>,
}

/// Packages the analysis of one circle; the sampled points are kept only
/// where `include_points` asks for them.
pub fn analyze_circle(
    id: &str,
    center: Coordinates,
    radius_mm: i64,
    points: Vec<Coordinates>,
    positions: &[GridPos],
    cell_centers: &Vec<Vec<Coordinates>>,
    grid_resolution: usize,
    include_points: bool,
) -> (c: CircleResults)
    requires
        positions@.len() == points@.len(),
        cell_centers@.len() == grid_resolution,
        forall|r: int| 0 <= r < grid_resolution ==> #[trigger] cell_centers@[r]@.len() == grid_resolution,
        grid_resolution * grid_resolution <= DENOM_SQ_MAX,
        grid_resolution * grid_resolution <= usize::MAX,
        positions@.len() * (grid_resolution * grid_resolution) <= DENOM_SQ_MAX,
    ensures
        c.id@ == id@,
        c.center == center,
        c.radius_mm == radius_mm,
        anomalies_of(
            points@,
            positions@,
            centers_of(cell_centers@),
            grid_resolution as nat,
            c.anomalies,
        ),
        c.points matches Some(v) ==> v@ == points@,
        c.points is Some <==> include_points,
{
    let anomalies = find_all_anomalies(points.as_slice(), positions, cell_centers, grid_resolution);
    CircleResults {
        id: String::from_str(id),
        center,
        radius_mm,
        anomalies,
        points: if include_points {
            Some(points)
        } else {
            None
        },
    }
}

/// `a` is at least as good a result of `kind` as `b`. A blind spot has no
/// score, so any one is as good as another. A missing score counts as the
/// worst for attractors and voids, and as zero for power.
pub open spec fn ranks_point(kind: AnomalyType, a: Point, b: Point) -> bool {
    match kind {
        AnomalyType::BlindSpot => true,
        AnomalyType::Attractor => match (a.z_score, b.z_score) {
            (_, None) => true,
            (None, Some(_)) => false,
            (Some(x), Some(y)) => y.spec_le(x),
        },
        AnomalyType::Void => match (a.z_score, b.z_score) {
            (_, None) => true,
            (None, Some(_)) => false,
            (Some(x), Some(y)) => x.spec_le(y),
        },
        AnomalyType::Power => match (a.z_score, b.z_score) {
            (_, None) => true,
            (None, Some(y)) => y.numer == 0,
            (Some(x), Some(y)) => y.spec_abs_le(x),
        },
    }
}

/// Whether `a` is at least as good a result of `kind` as `b`.
fn ranks_point_exec(kind: AnomalyType, a: &Point, b: &Point) -> (r: bool)
    requires
        a.wf(),
        b.wf(),
    ensures
        r == ranks_point(kind, *a, *b),
{
    match kind {
        AnomalyType::BlindSpot => true,
        AnomalyType::Attractor => match (a.z_score, b.z_score) {
            (_, None) => true,
            (None, Some(_)) => false,
            (Some(x), Some(y)) => y.le(&x),
        },
        AnomalyType::Void => match (a.z_score, b.z_score) {
            (_, None) => true,
            (None, Some(_)) => false,
            (Some(x), Some(y)) => x.le(&y),
        },
        AnomalyType::Power => match (a.z_score, b.z_score) {
            (_, None) => true,
            (None, Some(y)) => y.numer == 0,
            (Some(x), Some(y)) => y.abs_le(&x),
        },
    }
}

/// The ranking of results is a total preorder.
pub proof fn lemma_point_ranking_preorder(kind: AnomalyType, a: Point, b: Point, c: Point)
    requires
        a.wf(),
        b.wf(),
        c.wf(),
    ensures
        ranks_point(kind, a, a),
        ranks_point(kind, a, b) || ranks_point(kind, b, a),
        ranks_point(kind, a, b) && ranks_point(kind, b, c) ==> ranks_point(kind, a, c),
{
    let e = match kind {
        AnomalyType::Void => Extremum::Lowest,
        AnomalyType::Power => Extremum::FarthestFromZero,
        _ => Extremum::Highest,
    };
    if let (Some(x), Some(y), Some(z)) = (a.z_score, b.z_score, c.z_score) {
        lemma_ranking_preorder(e, x, y, z);
    }
    if let (Some(x), Some(y)) = (a.z_score, b.z_score) {
        lemma_ranking_preorder(e, x, y, x);
    }
    if let Some(x) = a.z_score {
        lemma_ranking_preorder(e, x, x, x);
    }
    if kind == AnomalyType::Power {
        if let (Some(x), Some(z)) = (a.z_score, c.z_score) {
            if z.numer == 0 {
                lemma_abs_zero(x, z);
            }
        }
        if let (Some(x), Some(y)) = (a.z_score, b.z_score) {
            if y.numer == 0 {
                lemma_abs_zero(x, y);
            }
            if x.numer == 0 {
                lemma_abs_zero(y, x);
            }
        }
        if let (Some(y), Some(z)) = (b.z_score, c.z_score) {
            if y.numer == 0 {
                lemma_abs_zero(z, y);
            }
        }
    }
}

/// A zero score has the smallest magnitude, and only zero scores have it.
proof fn lemma_abs_zero(x: ZScore, z: ZScore)
    requires
        x.wf(),
        z.wf(),
        z.numer == 0,
    ensures
        z.spec_abs_le(x),
        x.spec_abs_le(z) ==> x.numer == 0,
{
    let xx = x.numer_sq();
    let xd = x.denom_sq as int;
    let zd = z.denom_sq as int;
    assert(z.numer_sq() == 0) by (nonlinear_arith)
        requires
            z.numer == 0,
    ;
    assert(z.numer_sq() * xd == 0) by (nonlinear_arith)
        requires
            z.numer_sq() == 0,
    ;
    assert(xx * zd >= 0) by (nonlinear_arith)
        requires
            xx == x.numer * x.numer,
            zd > 0,
    ;
    assert(xx * zd <= 0 ==> x.numer == 0) by (nonlinear_arith)
        requires
            xx == x.numer * x.numer,
            zd > 0,
    ;
}

/// Circle `i` wins `kind`: it has a result of that kind, at least as good as
/// every other circle's, and strictly better than those of all circles before
/// it. For blind spots that is the first circle that has one.
pub open spec fn is_winner_at(circles: Seq<CircleResults>, kind: AnomalyType, i: int) -> bool {
    &&& 0 <= i < circles.len()
    &&& circles[i].anomalies.spec_get(kind) is Some
    &&& forall|j: int|
        0 <= j < circles.len() && (#[trigger] circles[j].anomalies.spec_get(kind)) is Some
            ==> ranks_point(
            kind,
            circles[i].anomalies.spec_get(kind)->0,
            circles[j].anomalies.spec_get(kind)->0,
        )
    &&& forall|j: int|
        0 <= j < i && (#[trigger] circles[j].anomalies.spec_get(kind)) is Some ==> !ranks_point(
            kind,
            circles[j].anomalies.spec_get(kind)->0,
            circles[i].anomalies.spec_get(kind)->0,
        )
}

/// Every circle's results hold well-formed scores.
pub open spec fn all_wf(circles: Seq<CircleResults>) -> bool {
    forall|i: int| 0 <= i < circles.len() ==> (#[trigger] circles[i]).anomalies.wf()
}

/// Which circle produced the best result of one kind, and that result.
#[derive(Clone, Debug)]
pub struct WinnerResult {
    pub circle_id: String,
    pub result: Point,
}

/// `w` is the winner of `kind` over `circles`: none when no circle has a
/// result of that kind.
pub open spec fn is_winner_result(
    circles: Seq<CircleResults>,
    kind: AnomalyType,
    w: Option<WinnerResult>,
) -> bool {
    match w {
        None => forall|i: int|
            0 <= i < circles.len() ==> (#[trigger] circles[i].anomalies.spec_get(kind)) is None,
        Some(w) => exists|i: int|
            #[trigger] is_winner_at(circles, kind, i) && w.circle_id@ == circles[i].id@ && w.result
                == circles[i].anomalies.spec_get(kind)->0,
    }
}

/// The winner of one anomaly kind across circles, scanned in order: a later
/// result replaces the current best only when strictly better.
pub fn find_winner(circles: &[CircleResults], kind: AnomalyType) -> (w: Option<WinnerResult>)
    requires
        all_wf(circles@),
    ensures
        is_winner_result(circles@, kind, w),
{
    let mut best: Option<usize> = None;
    let mut i: usize = 0;
    while i < circles.len()
        invariant
            0 <= i <= circles@.len(),
            all_wf(circles@),
            match best {
                None => forall|j: int|
                    0 <= j < i ==> (#[trigger] circles@[j].anomalies.spec_get(kind)) is None,
                Some(b) => {
                    &&& b < i
                    &&& circles@[b as int].anomalies.spec_get(kind) is Some
                    &&& forall|j: int|
                        0 <= j < i && (#[trigger] circles@[j].anomalies.spec_get(kind)) is Some
                            ==> ranks_point(
                            kind,
                            circles@[b as int].anomalies.spec_get(kind)->0,
                            circles@[j].anomalies.spec_get(kind)->0,
                        )
                    &&& forall|j: int|
                        0 <= j < b && (#[trigger] circles@[j].anomalies.spec_get(kind)) is Some
                            ==> !ranks_point(
                            kind,
                            circles@[j].anomalies.spec_get(kind)->0,
                            circles@[b as int].anomalies.spec_get(kind)->0,
                        )
                },
            },
        decreases circles.len() - i,
    {
        if let Some(p) = circles[i].anomalies.get(kind) {
            proof {
                assert(circles@[i as int].anomalies.wf());
                assert(p.wf());
            }
            let dominated = match best {
                Some(b) => {
                    let q = circles[b].anomalies.get(kind).unwrap();
                    proof {
                        assert(circles@[b as int].anomalies.wf());
                    }
                    ranks_point_exec(kind, &q, &p)
                },
                None => false,
            };
            if !dominated {
                proof {
                    lemma_point_ranking_preorder(kind, p, p, p);
                    if let Some(b) = best {
                        let q = circles@[b as int].anomalies.spec_get(kind)->0;
                        assert(circles@[b as int].anomalies.wf());
                        assert(q.wf());
                        lemma_point_ranking_preorder(kind, p, q, p);
                        assert forall|j: int|
                            0 <= j < i && (#[trigger] circles@[j].anomalies.spec_get(kind)) is Some
                                implies ranks_point(
                                kind,
                                p,
                                circles@[j].anomalies.spec_get(kind)->0,
                            ) && !ranks_point(kind, circles@[j].anomalies.spec_get(kind)->0, p) by {
                            let x = circles@[j].anomalies.spec_get(kind)->0;
                            assert(circles@[j].anomalies.wf());
                            lemma_point_ranking_preorder(kind, p, q, x);
                            lemma_point_ranking_preorder(kind, q, x, p);
                        }
                    }
                }
                best = Some(i);
            }
        }
        i = i + 1;
    }
    match best {
        Some(b) => {
            let result = circles[b].anomalies.get(kind).unwrap();
            let w = WinnerResult { circle_id: circles[b].id.clone(), result };
            assert(is_winner_at(circles@, kind, b as int));
            Some(w)
        },
        None => None,
    }
}

/// The winner of each anomaly kind, chosen in the fixed order blind spot,
/// attractor, void, power.
#[derive(Clone, Debug)]
pub struct Winners {
    pub blind_spot: Option<WinnerResult>,
    pub attractor: Option<WinnerResult>,
    pub void: Option<WinnerResult>,
    pub power: Option<WinnerResult>,
}

impl Winners {
    /// The winner of `kind`, if any.
    pub open spec fn spec_get(self, kind: AnomalyType) -> Option<WinnerResult> {
        match kind {
            AnomalyType::BlindSpot => self.blind_spot,
            AnomalyType::Attractor => self.attractor,
            AnomalyType::Void => self.void,
            AnomalyType::Power => self.power,
        }
    }
}

/// The winners of all four kinds across circles.
pub fn find_all_winners(circles: &[CircleResults]) -> (w: Winners)
    requires
        all_wf(circles@),
    ensures
        forall|k: AnomalyType| is_winner_result(circles@, k, #[trigger] w.spec_get(k)),
{
    let blind_spot = find_winner(circles, AnomalyType::BlindSpot);
    let attractor = find_winner(circles, AnomalyType::Attractor);
    let void = find_winner(circles, AnomalyType::Void);
    let power = find_winner(circles, AnomalyType::Power);
    Winners { blind_spot, attractor, void, power }
}

/// At most one circle wins each kind, so the winner a list of circles gives
/// is determined by the list alone.
pub proof fn lemma_winner_unique(circles: Seq<CircleResults>, kind: AnomalyType, i: int, j: int)
    requires
        is_winner_at(circles, kind, i),
        is_winner_at(circles, kind, j),
    ensures
        i == j,
{
    if i < j {
        assert(!ranks_point(
            kind,
            circles[i].anomalies.spec_get(kind)->0,
            circles[j].anomalies.spec_get(kind)->0,
        ));
    } else if j < i {
        assert(!ranks_point(
            kind,
            circles[j].anomalies.spec_get(kind)->0,
            circles[i].anomalies.spec_get(kind)->0,
        ));
    }
}

/// The same sampled points and cells give the same point for an extreme cell.
proof fn lemma_cell_point_determined(
    m: GridModel,
    e: Extremum,
    centers: Seq<Seq<Coordinates>>,
    p1: Option<Point>,
    p2: Option<Point>,
)
    requires
        cell_point(m, e, centers, p1),
        cell_point(m, e, centers, p2),
    ensures
        p1 == p2,
{
    match (p1, p2) {
        (Some(a), Some(b)) => {
            let (r1, c1) = choose|r: int, c: int|
                #[trigger] is_extreme_cell(m, e, r, c) && a == (Point {
                    coords: centers[r][c],
                    z_score: m.z_of(r, c),
                    is_attractor: if e == Extremum::FarthestFromZero {
                        Some(m.z_of(r, c)->0.is_positive())
                    } else {
                        None
                    },
                });
            let (r2, c2) = choose|r: int, c: int|
                #[trigger] is_extreme_cell(m, e, r, c) && b == (Point {
                    coords: centers[r][c],
                    z_score: m.z_of(r, c),
                    is_attractor: if e == Extremum::FarthestFromZero {
                        Some(m.z_of(r, c)->0.is_positive())
                    } else {
                        None
                    },
                });
            lemma_extreme_cell_unique(m, e, r1, c1, r2, c2);
        },
        (Some(a), None) => {
            let (r1, c1) = choose|r: int, c: int| #[trigger] is_extreme_cell(m, e, r, c);
            assert(m.z_of(r1, c1) is Some);
        },
        (None, Some(b)) => {
            let (r2, c2) = choose|r: int, c: int| #[trigger] is_extreme_cell(m, e, r, c);
            assert(m.z_of(r2, c2) is Some);
        },
        (None, None) => {},
    }
}

/// Analysing one circle is a function of its sampled points, their cells and
/// the cell centres: two analyses of the same input agree on every kind.
pub proof fn lemma_anomalies_determined(
    points: Seq<Coordinates>,
    positions: Seq<GridPos>,
    centers: Seq<Seq<Coordinates>>,
    res: nat,
    a1: AnomalySet,
    a2: AnomalySet,
)
    requires
        anomalies_of(points, positions, centers, res, a1),
        anomalies_of(points, positions, centers, res, a2),
    ensures
        a1 == a2,
{
    let g = added(empty_grid(res), positions);
    lemma_cell_point_determined(g, Extremum::Highest, centers, a1.attractor, a2.attractor);
    lemma_cell_point_determined(g, Extremum::Lowest, centers, a1.void, a2.void);
    lemma_cell_point_determined(g, Extremum::FarthestFromZero, centers, a1.power, a2.power);
}

/// The winner of a kind is a function of the ordered list of circles: two
/// selections over the same circles name the same circle and result.
pub proof fn lemma_winner_determined(
    circles: Seq<CircleResults>,
    kind: AnomalyType,
    w1: Option<WinnerResult>,
    w2: Option<WinnerResult>,
)
    requires
        is_winner_result(circles, kind, w1),
        is_winner_result(circles, kind, w2),
    ensures
        w1 is Some <==> w2 is Some,
        w1 matches Some(x) ==> (w2 matches Some(y) && x.circle_id@ == y.circle_id@ && x.result
            == y.result),
{
    match (w1, w2) {
        (Some(x), Some(y)) => {
            let i = choose|i: int|
                #[trigger] is_winner_at(circles, kind, i) && x.circle_id@ == circles[i].id@
                    && x.result == circles[i].anomalies.spec_get(kind)->0;
            let j = choose|j: int|
                #[trigger] is_winner_at(circles, kind, j) && y.circle_id@ == circles[j].id@
                    && y.result == circles[j].anomalies.spec_get(kind)->0;
            lemma_winner_unique(circles, kind, i, j);
        },
        (Some(x), None) => {
            let i = choose|i: int| #[trigger] is_winner_at(circles, kind, i);
            assert(circles[i].anomalies.spec_get(kind) is Some);
        },
        (None, Some(y)) => {
            let j = choose|j: int| #[trigger] is_winner_at(circles, kind, j);
            assert(circles[j].anomalies.spec_get(kind) is Some);
        },
        (None, None) => {},
    }
}

} // verus!
