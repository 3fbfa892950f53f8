//! Crossed Wires: two wires drawn as axis-aligned segments from a common
//! origin; the puzzle asks for the crossing nearest the origin, and for
//! the crossing reached soonest along both wires.

use vstd::prelude::*;

use crate::days::SolveError;
use crate::text::{collect_chars, copy_range, find_comma, find_ws, i64_to_string, is_ws};
use crate::text::{lemma_find_comma_at, lemma_find_ws_at, parse_token, spec_i64_string};
use crate::text::token_value;

verus! {

/// The longest single segment a wire description may draw.
pub const SEGMENT_LIMIT: i64 = 1_000_000;

/// The most segments one wire may have.
pub const WIRE_LIMIT: usize = 10_000;

/// A grid point.
#[derive(Clone, Copy, Debug, PartialEq, Eq, Structural, Hash)]
#[verifier::ext_equal]
pub struct Point {
    /// East-west position.
    pub x: i64,
    /// North-south position.
    pub y: i64,
}

/// One axis-aligned segment of a wire.
#[derive(Clone, Copy, Debug)]
#[verifier::ext_equal]
pub struct Path {
    /// Where the segment begins.
    pub start: Point,
    /// Where the segment ends.
    pub end: Point,
}

/// A point within the reach of a capped wire: no coordinate beyond the
/// segment count times the longest segment.
pub open spec fn pt_ok(p: Point) -> bool {
    &&& -10_000_000_000 <= p.x <= 10_000_000_000
    &&& -10_000_000_000 <= p.y <= 10_000_000_000
}

/// The corner of `p`'s bounding box nearest the origin of each axis.
pub open spec fn path_min(p: Path) -> Point {
    Point {
        x: if p.start.x <= p.end.x {
            p.start.x
        } else {
            p.end.x
        },
        y: if p.start.y <= p.end.y {
            p.start.y
        } else {
            p.end.y
        },
    }
}

/// The corner of `p`'s bounding box farthest from the origin of each
/// axis.
pub open spec fn path_max(p: Path) -> Point {
    Point {
        x: if p.start.x >= p.end.x {
            p.start.x
        } else {
            p.end.x
        },
        y: if p.start.y >= p.end.y {
            p.start.y
        } else {
            p.end.y
        },
    }
}

/// Whether the bounding boxes of `a` and `b` touch — except that two
/// boxes both cornered at the origin never count.
pub open spec fn spec_intersects(a: Path, b: Path) -> bool {
    if path_min(a) == (Point { x: 0, y: 0 }) && path_min(b) == (Point { x: 0, y: 0 }) {
        false
    } else {
        path_min(a).x <= path_max(b).x && path_max(a).x >= path_min(b).x && path_min(a).y
            <= path_max(b).y && path_max(a).y >= path_min(b).y
    }
}

/// Where two perpendicular segments cross: each coordinate comes from
/// whichever segment is fixed on that axis.
pub open spec fn spec_fixed_point(a: Path, b: Path) -> Point {
    Point {
        x: if a.start.x == a.end.x {
            a.start.x
        } else {
            b.start.x
        },
        y: if a.start.y == a.end.y {
            a.start.y
        } else {
            b.start.y
        },
    }
}

impl Path {
    /// The near corner of the bounding box.
    pub fn min(&self) -> (r: Point)
        ensures
            r == path_min(*self),
    {
        Point {
            x: if self.start.x <= self.end.x {
                self.start.x
            } else {
                self.end.x
            },
            y: if self.start.y <= self.end.y {
                self.start.y
            } else {
                self.end.y
            },
        }
    }

    /// The far corner of the bounding box.
    pub fn max(&self) -> (r: Point)
        ensures
            r == path_max(*self),
    {
        Point {
            x: if self.start.x >= self.end.x {
                self.start.x
            } else {
                self.end.x
            },
            y: if self.start.y >= self.end.y {
                self.start.y
            } else {
                self.end.y
            },
        }
    }

    /// Whether this segment's bounding box touches `b`'s, with the
    /// origin-pair exception.
    pub fn intersects(&self, b: &Path) -> (r: bool)
        ensures
            r == spec_intersects(*self, *b),
    {
        let amin = self.min();
        let bmin = b.min();
        let amax = self.max();
        let bmax = b.max();
        if amin.x == 0 && amin.y == 0 && bmin.x == 0 && bmin.y == 0 {
            return false;
        }
        amin.x <= bmax.x && amax.x >= bmin.x && amin.y <= bmax.y && amax.y >= bmin.y
    }

    /// Where this segment crosses the perpendicular segment `b`.
    pub fn fixed_point(&self, b: &Path) -> (r: Point)
        ensures
            r == spec_fixed_point(*self, *b),
    {
        let x = if self.start.x == self.end.x {
            self.start.x
        } else {
            b.start.x
        };
        let y = if self.start.y == self.end.y {
            self.start.y
        } else {
            b.start.y
        };
        Point { x, y }
    }
}

/// A wire: consecutive segments, each starting where the previous ended.
pub struct Wire {
    /// The segments, in drawing order.
    pub paths: Vec<Path>,
}

impl Wire {
    /// A capped wire whose every corner is within reach: what
    /// [`parse_wire`] constructs.
    pub open spec fn wf(&self) -> bool {
        &&& self.paths@.len() <= 10_000
        &&& (forall|i: int|
            0 <= i < self.paths@.len() ==> pt_ok(#[trigger] self.paths@[i].start) && pt_ok(
                self.paths@[i].end,
            ))
    }

    /// The wire through the given corners, in order.
    pub fn new(path: &[Point]) -> (r: Wire)
        requires
            path@.len() >= 1,
        ensures
            r.paths@.len() == path@.len() - 1,
            forall|i: int|
                0 <= i < r.paths@.len() ==> (#[trigger] r.paths@[i]).start == path@[i]
                    && r.paths@[i].end == path@[i + 1],
    {
        let mut paths: Vec<Path> = Vec::new();
        let n = path.len();
        let mut i: usize = 1;
        while i < n
            invariant
                1 <= i <= n,
                n == path@.len(),
                paths@.len() == i - 1,
                forall|q: int|
                    0 <= q < paths@.len() ==> (#[trigger] paths@[q]).start == path@[q]
                        && paths@[q].end == path@[q + 1],
            decreases n - i,
        {
            paths.push(Path { start: path[i - 1], end: path[i] });
            i = i + 1;
        }
        Wire { paths }
    }
}

/// One drawing step: the direction letter, then a distance no longer
/// than the segment cap, applied to the current corner.
pub open spec fn step_token(cur: Point, t: Seq<char>) -> Result<Point, SolveError> {
    if t.len() == 0 {
        Err(SolveError::BadInput)
    } else {
        match token_value(t.skip(1)) {
            None => Err(SolveError::BadInput),
            Some(d) => if !(-1_000_000 <= d <= 1_000_000) {
                Err(SolveError::BadInput)
            } else if t[0] == 'U' {
                Ok(Point { x: cur.x, y: (cur.y + d) as i64 })
            } else if t[0] == 'D' {
                Ok(Point { x: cur.x, y: (cur.y - d) as i64 })
            } else if t[0] == 'L' {
                Ok(Point { x: (cur.x - d) as i64, y: cur.y })
            } else if t[0] == 'R' {
                Ok(Point { x: (cur.x + d) as i64, y: cur.y })
            } else {
                Err(SolveError::BadInput)
            },
        }
    }
}

/// The corners a comma-separated wire description walks through from
/// `cur`, with `count` segments already drawn: each token adds one
/// corner, and a wire over the segment cap is rejected.
pub open spec fn points_from(s: Seq<char>, cur: Point, count: int) -> Result<Seq<Point>, SolveError>
    decreases s.len(),
{
    if count >= 10_000 {
        Err(SolveError::BadInput)
    } else {
        let k = find_comma(s);
        if 0 <= k < s.len() {
            match step_token(cur, s.take(k)) {
                Err(e) => Err(e),
                Ok(p) => match points_from(s.skip(k + 1), p, count + 1) {
                    Err(e) => Err(e),
                    Ok(rest) => Ok(seq![p] + rest),
                },
            }
        } else {
            match step_token(cur, s) {
                Err(e) => Err(e),
                Ok(p) => Ok(seq![p]),
            }
        }
    }
}

/// The corners of a whole wire description, starting at the origin.
pub open spec fn spec_wire_points(s: Seq<char>) -> Result<Seq<Point>, SolveError> {
    points_from(s, Point { x: 0, y: 0 }, 0)
}

/// Read one wire description, following [`spec_wire_points`] exactly;
/// the wire's segments connect the origin and the corners in order.
pub fn parse_wire(path: &str) -> (r: Result<Wire, SolveError>)
    ensures
        (match spec_wire_points(path@) {
            Err(e) => r matches Err(e2) && e2 == e,
            Ok(pts) => r matches Ok(w) && w.wf() && w.paths@.len() == pts.len() && (forall|i: int|
                0 <= i < pts.len() ==> (#[trigger] w.paths@[i]).start == (if i == 0 {
                    Point { x: 0, y: 0 }
                } else {
                    pts[i - 1]
                }) && w.paths@[i].end == pts[i]),
        }),
{
    let chars = collect_chars(path);
    parse_wire_chars(&chars)
}

/// Read one wire description off its characters.
#[verifier::rlimit(50)]
fn parse_wire_chars(chars: &Vec<char>) -> (r: Result<Wire, SolveError>)
    ensures
        (match spec_wire_points(chars@) {
            Err(e) => r matches Err(e2) && e2 == e,
            Ok(pts) => r matches Ok(w) && w.wf() && w.paths@.len() == pts.len() && (forall|i: int|
                0 <= i < pts.len() ==> (#[trigger] w.paths@[i]).start == (if i == 0 {
                    Point { x: 0, y: 0 }
                } else {
                    pts[i - 1]
                }) && w.paths@[i].end == pts[i]),
        }),
{
    let n = chars.len();
    let mut corners: Vec<Point> = Vec::new();
    corners.push(Point { x: 0, y: 0 });
    let mut cur = Point { x: 0, y: 0 };
    let mut j: usize = 0;
    let mut count: usize = 0;
    proof {
        assert(chars@.skip(0) =~= chars@);
        assert(corners@ =~= seq![Point { x: 0, y: 0 }]);
        if let Ok(rest) = points_from(chars@, Point { x: 0, y: 0 }, 0) {
            assert(corners@.skip(1) + rest =~= rest);
        }
    }
    loop
        invariant
            j <= n,
            n == chars@.len(),
            count <= 10_000,
            corners@.len() == count + 1,
            corners@[0] == (Point { x: 0, y: 0 }),
            cur == corners@[count as int],
            -(count as int) * 1_000_000 <= cur.x <= (count as int) * 1_000_000,
            -(count as int) * 1_000_000 <= cur.y <= (count as int) * 1_000_000,
            forall|i: int|
                0 <= i <= count ==> pt_ok(#[trigger] corners@[i]),
            (match points_from(chars@.skip(j as int), cur, count as int) {
                Err(e) => spec_wire_points(chars@) == Err::<Seq<Point>, SolveError>(e),
                Ok(rest) => spec_wire_points(chars@) == Ok::<Seq<Point>, SolveError>(
                    corners@.skip(1) + rest,
                ),
            }),
        decreases n - j,
    {
        if count == 10_000 {
            return Err(SolveError::BadInput);
        }
        let ghost j0 = j as int;
        let ghost cur0 = cur;
        let ghost count0 = count as int;
        let ghost corners0 = corners@;
        let ghost u = chars@.skip(j as int);
        let mut k = j;
        while k < n && chars[k] != ','
            invariant
                j <= k <= n,
                n == chars@.len(),
                forall|q: int| j <= q < k ==> chars@[q] != ',',
            decreases n - k,
        {
            k = k + 1;
        }
        proof {
            assert(forall|i: int| 0 <= i < u.len() ==> u[i] == chars@[j + i]);
            lemma_find_comma_at(u, k - j);
            assert(u.take(k - j) =~= chars@.subrange(j as int, k as int));
            if k < n {
                assert(u.skip(k - j + 1) =~= chars@.skip(k + 1int));
            } else {
                assert(u.take(k - j) =~= u);
            }
        }
        // the token chars[j..k]: direction, then distance
        if k == j {
            return Err(SolveError::BadInput);
        }
        let dir = chars[j];
        let d = match parse_token(chars, j + 1, k) {
            Some(v) => v,
            None => {
                proof {
                    assert(chars@.subrange(j as int, k as int).skip(1) =~= chars@.subrange(
                        j + 1int,
                        k as int,
                    ));
                }
                return Err(SolveError::BadInput);
            },
        };
        proof {
            assert(chars@.subrange(j as int, k as int).skip(1) =~= chars@.subrange(
                j + 1int,
                k as int,
            ));
            assert(chars@.subrange(j as int, k as int)[0] == chars@[j as int]);
        }
        if d < -1_000_000 || d > 1_000_000 {
            return Err(SolveError::BadInput);
        }
        let next = if dir == 'U' {
            Point { x: cur.x, y: cur.y + d }
        } else if dir == 'D' {
            Point { x: cur.x, y: cur.y - d }
        } else if dir == 'L' {
            Point { x: cur.x - d, y: cur.y }
        } else if dir == 'R' {
            Point { x: cur.x + d, y: cur.y }
        } else {
            return Err(SolveError::BadInput);
        };
        proof {
            assert(step_token(cur0, u.take(k - j0)) == Ok::<Point, SolveError>(next));
        }
        corners.push(next);
        cur = next;
        count = count + 1;
        if k == n {
            proof {
                assert(u.take(k - j0) =~= u);
                assert(points_from(u, cur0, count0) == Ok::<Seq<Point>, SolveError>(seq![next]));
                assert(corners@ == corners0.push(next));
                assert(corners0.skip(1) + seq![next] =~= corners@.skip(1));
            }
            let w = Wire::new(corners.as_slice());
            proof {
                assert(w.wf());
            }
            return Ok(w);
        }
        proof {
            assert(points_from(u, cur0, count0) == (match points_from(
                chars@.skip(k + 1int),
                next,
                count0 + 1,
            ) {
                Err(e) => Err::<Seq<Point>, SolveError>(e),
                Ok(rest) => Ok::<Seq<Point>, SolveError>(seq![next] + rest),
            }));
            assert(corners@ == corners0.push(next));
            if let Ok(rest) = points_from(chars@.skip(k + 1int), next, count as int) {
                assert(corners0.skip(1) + (seq![next] + rest) =~= corners@.skip(1) + rest);
            }
        }
        j = k + 1;
    }
}


/// A genuine crossing: segments `i` of `a` and `j` of `b` whose boxes
/// touch, away from the origin.
pub open spec fn is_crossing(a: Seq<Path>, b: Seq<Path>, i: int, j: int) -> bool {
    &&& 0 <= i < a.len()
    &&& 0 <= j < b.len()
    &&& spec_intersects(a[i], b[j])
    &&& !(spec_fixed_point(a[i], b[j]).x == 0 && spec_fixed_point(a[i], b[j]).y == 0)
}

/// Some pair of segments crosses exactly at `p`.
pub open spec fn crossing_point(a: Seq<Path>, b: Seq<Path>, p: Point) -> bool {
    exists|i: int, j: int| #[trigger] is_crossing(a, b, i, j) && p == spec_fixed_point(a[i], b[j])
}

/// The magnitude of `v`.
pub open spec fn abs_i(v: int) -> int {
    if v >= 0 {
        v
    } else {
        -v
    }
}

/// Taxicab distance of a point from the origin.
pub open spec fn pt_dist(p: Point) -> int {
    abs_i(p.x as int) + abs_i(p.y as int)
}

/// The length of one segment.
pub open spec fn path_len(p: Path) -> int {
    (path_max(p).x - path_min(p).x) + (path_max(p).y - path_min(p).y)
}

/// The length of the first `i` segments together.
pub open spec fn prefix_len(ps: Seq<Path>, i: int) -> int
    decreases i,
{
    if i <= 0 {
        0
    } else {
        prefix_len(ps, i - 1) + path_len(ps[i - 1])
    }
}

/// How far along `ps` the walk reaches `fp` on segment `i`: the length
/// through segment `i`, minus the leg from `fp` to that segment's end.
pub open spec fn steps_at(ps: Seq<Path>, i: int, fp: Point) -> int {
    prefix_len(ps, i + 1) - abs_i(ps[i].end.x - fp.x) - abs_i(ps[i].end.y - fp.y)
}

/// The combined walking distance of both wires to the crossing of
/// segments `i` and `j`.
pub open spec fn cross_steps(a: Seq<Path>, b: Seq<Path>, i: int, j: int) -> int {
    steps_at(a, i, spec_fixed_point(a[i], b[j])) + steps_at(b, j, spec_fixed_point(a[i], b[j]))
}

/// A prefix of a capped wire is never longer than forty billion steps
/// per segment.
pub proof fn lemma_prefix_len_bound(ps: Seq<Path>, i: int)
    requires
        0 <= i <= ps.len(),
        forall|q: int| 0 <= q < ps.len() ==> pt_ok(#[trigger] ps[q].start) && pt_ok(ps[q].end),
    ensures
        0 <= prefix_len(ps, i) <= i * 40_000_000_000,
    decreases i,
{
    if i > 0 {
        lemma_prefix_len_bound(ps, i - 1);
    }
}

impl Wire {
    /// Every crossing point of this wire with `wire`: each returned
    /// point is a crossing, and every crossing's point is returned.
    pub fn intersections(&self, wire: &Wire) -> (r: Vec<Point>)
        ensures
            forall|k: int|
                0 <= k < r@.len() ==> crossing_point(self.paths@, wire.paths@, #[trigger] r@[k]),
            forall|i: int, j: int|
                #[trigger] is_crossing(self.paths@, wire.paths@, i, j) ==> r@.contains(
                    spec_fixed_point(self.paths@[i], wire.paths@[j]),
                ),
    {
        let ghost av = self.paths@;
        let ghost bv = wire.paths@;
        let mut points: Vec<Point> = Vec::new();
        let m = self.paths.len();
        let n = wire.paths.len();
        let mut i: usize = 0;
        while i < m
            invariant
                i <= m,
                m == av.len(),
                n == bv.len(),
                av == self.paths@,
                bv == wire.paths@,
                forall|k: int|
                    0 <= k < points@.len() ==> crossing_point(av, bv, #[trigger] points@[k]),
                forall|x: int, y: int|
                    #[trigger] is_crossing(av, bv, x, y) && x < i ==> points@.contains(
                        spec_fixed_point(av[x], bv[y]),
                    ),
            decreases m - i,
        {
            let mut j: usize = 0;
            while j < n
                invariant
                    i < m,
                    j <= n,
                    m == av.len(),
                    n == bv.len(),
                    av == self.paths@,
                    bv == wire.paths@,
                    forall|k: int|
                        0 <= k < points@.len() ==> crossing_point(av, bv, #[trigger] points@[k]),
                    forall|x: int, y: int|
                        #[trigger] is_crossing(av, bv, x, y) && (x < i || (x == i && y < j))
                            ==> points@.contains(spec_fixed_point(av[x], bv[y])),
                decreases n - j,
            {
                if self.paths[i].intersects(&wire.paths[j]) {
                    let fp = self.paths[i].fixed_point(&wire.paths[j]);
                    if !(fp.x == 0 && fp.y == 0) {
                        let ghost points0 = points@;
                        points.push(fp);
                        proof {
                            assert(is_crossing(av, bv, i as int, j as int));
                            assert(points@[points@.len() - 1] == spec_fixed_point(
                                av[i as int],
                                bv[j as int],
                            ));
                            assert(forall|k: int|
                                0 <= k < points0.len() ==> points@[k] == points0[k]);
                            assert forall|k: int| 0 <= k < points@.len() implies crossing_point(
                                av,
                                bv,
                                #[trigger] points@[k],
                            ) by {
                                if k < points0.len() {
                                    assert(crossing_point(av, bv, points0[k]));
                                } else {
                                    assert(crossing_point(av, bv, points@[k]));
                                }
                            }
                            assert forall|x: int, y: int|
                                #[trigger] is_crossing(av, bv, x, y) && (x < i || (x == i && y < j
                                    + 1)) implies points@.contains(
                                spec_fixed_point(av[x], bv[y]),
                            ) by {
                                if x == i && y == j {
                                    assert(points@[points@.len() - 1] == spec_fixed_point(
                                        av[x],
                                        bv[y],
                                    ));
                                } else {
                                    assert(points0.contains(spec_fixed_point(av[x], bv[y])));
                                    let w = choose|w: int|
                                        0 <= w < points0.len() && points0[w] == spec_fixed_point(
                                            av[x],
                                            bv[y],
                                        );
                                    assert(points@[w] == spec_fixed_point(av[x], bv[y]));
                                }
                            }
                        }
                    }
                }
                j = j + 1;
            }
            i = i + 1;
        }
        points
    }

    /// The taxicab distance of the crossing nearest the origin, if the
    /// wires cross at all.
    pub fn closest_intersection(&self, wire: &Wire) -> (r: Option<i64>)
        requires
            self.wf(),
            wire.wf(),
        ensures
            (match r {
                None => forall|i: int, j: int| !is_crossing(self.paths@, wire.paths@, i, j),
                Some(d) => (exists|i: int, j: int|
                    #[trigger] is_crossing(self.paths@, wire.paths@, i, j) && pt_dist(
                        spec_fixed_point(self.paths@[i], wire.paths@[j]),
                    ) == d) && (forall|i: int, j: int|
                    #[trigger] is_crossing(self.paths@, wire.paths@, i, j) ==> pt_dist(
                        spec_fixed_point(self.paths@[i], wire.paths@[j]),
                    ) >= d),
            }),
    {
        let ghost av = self.paths@;
        let ghost bv = wire.paths@;
        let pts = self.intersections(wire);
        let n = pts.len();
        let mut best: Option<i64> = None;
        let mut k: usize = 0;
        while k < n
            invariant
                k <= n,
                n == pts@.len(),
                av == self.paths@,
                bv == wire.paths@,
                self.wf(),
                wire.wf(),
                forall|w: int| 0 <= w < pts@.len() ==> crossing_point(av, bv, #[trigger] pts@[w]),
                (match best {
                    None => k == 0,
                    Some(d) => (exists|w: int|
                        0 <= w < k && pt_dist(#[trigger] pts@[w]) == d) && (forall|w: int|
                        0 <= w < k ==> pt_dist(#[trigger] pts@[w]) >= d),
                }),
            decreases n - k,
        {
            proof {
                assert(crossing_point(av, bv, pts@[k as int]));
                let (x, y): (int, int) = choose|x: int, y: int|
                    #[trigger] is_crossing(av, bv, x, y) && pts@[k as int] == spec_fixed_point(
                        av[x],
                        bv[y],
                    );
                assert(pt_ok(pts@[k as int]));
            }
            let p = pts[k];
            let ax = if p.x >= 0 {
                p.x
            } else {
                -p.x
            };
            let ay = if p.y >= 0 {
                p.y
            } else {
                -p.y
            };
            let d = ax + ay;
            best = match best {
                None => Some(d),
                Some(b) => Some(
                    if d < b {
                        d
                    } else {
                        b
                    },
                ),
            };
            k = k + 1;
        }
        proof {
            if best is None {
                assert forall|i: int, j: int| !is_crossing(av, bv, i, j) by {
                    if is_crossing(av, bv, i, j) {
                        assert(pts@.contains(spec_fixed_point(av[i], bv[j])));
                    }
                }
            } else {
                let d = best->0;
                assert forall|i: int, j: int|
                    #[trigger] is_crossing(av, bv, i, j) implies pt_dist(
                    spec_fixed_point(av[i], bv[j]),
                ) >= d by {
                    assert(pts@.contains(spec_fixed_point(av[i], bv[j])));
                    let w = choose|w: int|
                        0 <= w < pts@.len() && pts@[w] == spec_fixed_point(av[i], bv[j]);
                    assert(pt_dist(pts@[w]) >= d);
                }
                let w = choose|w: int| 0 <= w < pts@.len() && pt_dist(#[trigger] pts@[w]) == d;
                assert(crossing_point(av, bv, pts@[w]));
                let (x, y): (int, int) = choose|x: int, y: int|
                    #[trigger] is_crossing(av, bv, x, y) && pts@[w] == spec_fixed_point(
                        av[x],
                        bv[y],
                    );
                assert(is_crossing(av, bv, x, y) && pt_dist(spec_fixed_point(av[x], bv[y])) == d);
            }
        }
        best
    }

    /// The least combined walking distance, along both wires, to any
    /// crossing — if the wires cross at all.
    #[verifier::rlimit(60)]
    pub fn first_intersection(&self, wire: &Wire) -> (r: Option<i64>)
        requires
            self.wf(),
            wire.wf(),
        ensures
            (match r {
                None => forall|i: int, j: int| !is_crossing(self.paths@, wire.paths@, i, j),
                Some(d) => (exists|i: int, j: int|
                    #[trigger] is_crossing(self.paths@, wire.paths@, i, j) && cross_steps(
                        self.paths@,
                        wire.paths@,
                        i,
                        j,
                    ) == d) && (forall|i: int, j: int|
                    #[trigger] is_crossing(self.paths@, wire.paths@, i, j) ==> cross_steps(
                        self.paths@,
                        wire.paths@,
                        i,
                        j,
                    ) >= d),
            }),
    {
        let ghost av = self.paths@;
        let ghost bv = wire.paths@;
        let m = self.paths.len();
        let n = wire.paths.len();
        let mut adist: i64 = 0;
        let mut shortest: Option<i64> = None;
        let mut i: usize = 0;
        while i < m
            invariant
                i <= m,
                m == av.len() <= 10_000,
                n == bv.len() <= 10_000,
                av == self.paths@,
                bv == wire.paths@,
                self.wf(),
                wire.wf(),
                adist == prefix_len(av, i as int),
                (match shortest {
                    None => forall|x: int, y: int| #[trigger] is_crossing(av, bv, x, y) ==> x >= i,
                    Some(d) => (exists|x: int, y: int|
                        #[trigger] is_crossing(av, bv, x, y) && cross_steps(av, bv, x, y) == d) && (
                    forall|x: int, y: int|
                        #[trigger] is_crossing(av, bv, x, y) && x < i ==> cross_steps(av, bv, x, y)
                            >= d),
                }),
            decreases m - i,
        {
            proof {
                lemma_prefix_len_bound(av, i as int);
                lemma_prefix_len_bound(av, i + 1);
            }
            let amin = self.paths[i].min();
            let amax = self.paths[i].max();
            adist = adist + ((amax.x - amin.x) + (amax.y - amin.y));
            let mut bdist: i64 = 0;
            let mut j: usize = 0;
            while j < n
                invariant
                    i < m,
                    j <= n,
                    m == av.len() <= 10_000,
                    n == bv.len() <= 10_000,
                    av == self.paths@,
                    bv == wire.paths@,
                    self.wf(),
                    wire.wf(),
                    adist == prefix_len(av, i + 1),
                    bdist == prefix_len(bv, j as int),
                    (match shortest {
                        None => forall|x: int, y: int|
                            #[trigger] is_crossing(av, bv, x, y) ==> x > i || (x == i && y >= j),
                        Some(d) => (exists|x: int, y: int|
                            #[trigger] is_crossing(av, bv, x, y) && cross_steps(av, bv, x, y) == d)
                            && (forall|x: int, y: int|
                            #[trigger] is_crossing(av, bv, x, y) && (x < i || (x == i && y < j))
                                ==> cross_steps(av, bv, x, y) >= d),
                    }),
                decreases n - j,
            {
                proof {
                    lemma_prefix_len_bound(bv, j as int);
                    lemma_prefix_len_bound(bv, j + 1);
                    lemma_prefix_len_bound(av, i + 1);
                }
                let bmin = wire.paths[j].min();
                let bmax = wire.paths[j].max();
                bdist = bdist + ((bmax.x - bmin.x) + (bmax.y - bmin.y));
                if self.paths[i].intersects(&wire.paths[j]) {
                    let fp = self.paths[i].fixed_point(&wire.paths[j]);
                    if !(fp.x == 0 && fp.y == 0) {
                        let adx = if self.paths[i].end.x >= fp.x {
                            self.paths[i].end.x - fp.x
                        } else {
                            fp.x - self.paths[i].end.x
                        };
                        let ady = if self.paths[i].end.y >= fp.y {
                            self.paths[i].end.y - fp.y
                        } else {
                            fp.y - self.paths[i].end.y
                        };
                        let bdx = if wire.paths[j].end.x >= fp.x {
                            wire.paths[j].end.x - fp.x
                        } else {
                            fp.x - wire.paths[j].end.x
                        };
                        let bdy = if wire.paths[j].end.y >= fp.y {
                            wire.paths[j].end.y - fp.y
                        } else {
                            fp.y - wire.paths[j].end.y
                        };
                        let ia = adist - adx - ady;
                        let ib = bdist - bdx - bdy;
                        let total = ia + ib;
                        proof {
                            assert(is_crossing(av, bv, i as int, j as int));
                            assert(total == cross_steps(av, bv, i as int, j as int));
                        }
                        shortest = match shortest {
                            None => Some(total),
                            Some(d) => Some(
                                if d > total {
                                    total
                                } else {
                                    d
                                },
                            ),
                        };
                    }
                }
                j = j + 1;
            }
            i = i + 1;
        }
        shortest
    }
}


/// `s` without its leading whitespace.
pub open spec fn skip_leading_ws(s: Seq<char>) -> Seq<char>
    decreases s.len(),
{
    if s.len() > 0 && is_ws(s[0]) {
        skip_leading_ws(s.skip(1))
    } else {
        s
    }
}

/// `skip_leading_ws` is pinned by what an index-by-index scan observes.
pub proof fn lemma_skip_ws_prefix(s: Seq<char>, j: int)
    requires
        0 <= j <= s.len(),
        forall|i: int| 0 <= i < j ==> is_ws(#[trigger] s[i]),
        j == s.len() || !is_ws(s[j]),
    ensures
        skip_leading_ws(s) == s.skip(j),
    decreases s.len(),
{
    if j == 0 {
        assert(s.skip(0) =~= s);
    } else {
        let t = s.skip(1);
        assert(forall|i: int| 0 <= i < j - 1 ==> t[i] == s[i + 1] && is_ws(#[trigger] s[i + 1]));
        assert(j - 1 == t.len() || !is_ws(t[j - 1]));
        lemma_skip_ws_prefix(t, j - 1);
        assert(t.skip(j - 1) =~= s.skip(j));
    }
}

/// The first two whitespace-separated fields of `s` — the two wire
/// descriptions; anything further is ignored.
pub open spec fn spec_two_wires(s: Seq<char>) -> Result<(Seq<char>, Seq<char>), SolveError> {
    let u1 = skip_leading_ws(s);
    if u1.len() == 0 {
        Err(SolveError::BadInput)
    } else {
        let k1 = find_ws(u1);
        if 1 <= k1 <= u1.len() {
            let t1 = u1.take(k1);
            let u2 = skip_leading_ws(u1.skip(k1));
            if u2.len() == 0 {
                Err(SolveError::BadInput)
            } else {
                let k2 = find_ws(u2);
                if 1 <= k2 <= u2.len() {
                    Ok((t1, u2.take(k2)))
                } else {
                    Err(SolveError::BadInput)
                }
            }
        } else {
            Err(SolveError::BadInput)
        }
    }
}

/// The segments drawn through the parsed corners, from the origin.
pub open spec fn paths_of(pts: Seq<Point>) -> Seq<Path> {
    Seq::new(
        pts.len(),
        |i: int|
            Path {
                start: if i == 0 {
                    Point { x: 0, y: 0 }
                } else {
                    pts[i - 1]
                },
                end: pts[i],
            },
    )
}

/// Split the text into its two wire descriptions.
fn two_wire_texts(chars: &Vec<char>) -> (r: Result<(Vec<char>, Vec<char>), SolveError>)
    ensures
        (match spec_two_wires(chars@) {
            Err(e) => r matches Err(e2) && e2 == e,
            Ok((t1, t2)) => r matches Ok(p) && p.0@ == t1 && p.1@ == t2,
        }),
{
    let n = chars.len();
    let mut j1: usize = 0;
    while j1 < n && (chars[j1] == ' ' || chars[j1] == '\n' || chars[j1] == '\r' || chars[j1]
        == '\t')
        invariant
            j1 <= n,
            n == chars@.len(),
            forall|q: int| 0 <= q < j1 ==> is_ws(#[trigger] chars@[q]),
        decreases n - j1,
    {
        j1 = j1 + 1;
    }
    proof {
        lemma_skip_ws_prefix(chars@, j1 as int);
    }
    if j1 == n {
        return Err(SolveError::BadInput);
    }
    let ghost u1 = chars@.skip(j1 as int);
    let mut k1 = j1;
    while k1 < n && !(chars[k1] == ' ' || chars[k1] == '\n' || chars[k1] == '\r' || chars[k1]
        == '\t')
        invariant
            j1 <= k1 <= n,
            n == chars@.len(),
            forall|q: int| j1 <= q < k1 ==> !is_ws(#[trigger] chars@[q]),
        decreases n - k1,
    {
        k1 = k1 + 1;
    }
    proof {
        assert(forall|i: int| 0 <= i < u1.len() ==> u1[i] == chars@[j1 + i]);
        lemma_find_ws_at(u1, k1 - j1);
        assert(u1.take(k1 - j1) =~= chars@.subrange(j1 as int, k1 as int));
        assert(u1.skip(k1 - j1) =~= chars@.skip(k1 as int));
    }
    let t1 = copy_range(chars, j1, k1);
    let mut j2 = k1;
    while j2 < n && (chars[j2] == ' ' || chars[j2] == '\n' || chars[j2] == '\r' || chars[j2]
        == '\t')
        invariant
            k1 <= j2 <= n,
            n == chars@.len(),
            forall|q: int| k1 <= q < j2 ==> is_ws(#[trigger] chars@[q]),
        decreases n - j2,
    {
        j2 = j2 + 1;
    }
    proof {
        let w = chars@.skip(k1 as int);
        assert(forall|i: int| 0 <= i < w.len() ==> w[i] == chars@[k1 + i]);
        lemma_skip_ws_prefix(w, j2 - k1);
        assert(w.skip(j2 - k1) =~= chars@.skip(j2 as int));
    }
    if j2 == n {
        return Err(SolveError::BadInput);
    }
    let ghost u2 = chars@.skip(j2 as int);
    let mut k2 = j2;
    while k2 < n && !(chars[k2] == ' ' || chars[k2] == '\n' || chars[k2] == '\r' || chars[k2]
        == '\t')
        invariant
            j2 <= k2 <= n,
            n == chars@.len(),
            forall|q: int| j2 <= q < k2 ==> !is_ws(#[trigger] chars@[q]),
        decreases n - k2,
    {
        k2 = k2 + 1;
    }
    proof {
        assert(forall|i: int| 0 <= i < u2.len() ==> u2[i] == chars@[j2 + i]);
        lemma_find_ws_at(u2, k2 - j2);
        assert(u2.take(k2 - j2) =~= chars@.subrange(j2 as int, k2 as int));
    }
    let t2 = copy_range(chars, j2, k2);
    Ok((t1, t2))
}

/// The taxicab distance to the crossing of the two wires nearest the
/// origin.
pub fn part1(data: &str) -> (r: Result<String, SolveError>)
    ensures
        (match spec_two_wires(data@) {
            Err(e) => r == Err::<String, SolveError>(e),
            Ok((t1, t2)) => (match spec_wire_points(t1) {
                Err(e) => r == Err::<String, SolveError>(e),
                Ok(p1) => (match spec_wire_points(t2) {
                    Err(e) => r == Err::<String, SolveError>(e),
                    Ok(p2) => (match r {
                        Err(e) => e == SolveError::NoSolution && (forall|i: int, j: int|
                            !is_crossing(paths_of(p1), paths_of(p2), i, j)),
                        Ok(out) => exists|d: i64|
                            out@ == spec_i64_string(d) && (exists|i: int, j: int|
                                #[trigger] is_crossing(paths_of(p1), paths_of(p2), i, j)
                                    && pt_dist(
                                    spec_fixed_point(paths_of(p1)[i], paths_of(p2)[j]),
                                ) == d) && (forall|i: int, j: int|
                                #[trigger] is_crossing(paths_of(p1), paths_of(p2), i, j)
                                    ==> pt_dist(
                                    spec_fixed_point(paths_of(p1)[i], paths_of(p2)[j]),
                                ) >= d),
                    }),
                }),
            }),
        }),
{
    let chars = collect_chars(data);
    let (t1, t2) = match two_wire_texts(&chars) {
        Ok(p) => p,
        Err(e) => {
            return Err(e);
        },
    };
    let w1 = match parse_wire_chars(&t1) {
        Ok(w) => w,
        Err(e) => {
            return Err(e);
        },
    };
    let w2 = match parse_wire_chars(&t2) {
        Ok(w) => w,
        Err(e) => {
            return Err(e);
        },
    };
    proof {
        if let Ok(p1) = spec_wire_points(t1@) {
            assert(w1.paths@ =~= paths_of(p1));
        }
        if let Ok(p2) = spec_wire_points(t2@) {
            assert(w2.paths@ =~= paths_of(p2));
        }
    }
    match w1.closest_intersection(&w2) {
        Some(d) => Ok(i64_to_string(d)),
        None => Err(SolveError::NoSolution),
    }
}

/// The least combined walking distance along both wires to any crossing.
pub fn part2(data: &str) -> (r: Result<String, SolveError>)
    ensures
        (match spec_two_wires(data@) {
            Err(e) => r == Err::<String, SolveError>(e),
            Ok((t1, t2)) => (match spec_wire_points(t1) {
                Err(e) => r == Err::<String, SolveError>(e),
                Ok(p1) => (match spec_wire_points(t2) {
                    Err(e) => r == Err::<String, SolveError>(e),
                    Ok(p2) => (match r {
                        Err(e) => e == SolveError::NoSolution && (forall|i: int, j: int|
                            !is_crossing(paths_of(p1), paths_of(p2), i, j)),
                        Ok(out) => exists|d: i64|
                            out@ == spec_i64_string(d) && (exists|i: int, j: int|
                                #[trigger] is_crossing(paths_of(p1), paths_of(p2), i, j)
                                    && cross_steps(paths_of(p1), paths_of(p2), i, j) == d) && (
                            forall|i: int, j: int|
                                #[trigger] is_crossing(paths_of(p1), paths_of(p2), i, j)
                                    ==> cross_steps(paths_of(p1), paths_of(p2), i, j) >= d),
                    }),
                }),
            }),
        }),
{
    let chars = collect_chars(data);
    let (t1, t2) = match two_wire_texts(&chars) {
        Ok(p) => p,
        Err(e) => {
            return Err(e);
        },
    };
    let w1 = match parse_wire_chars(&t1) {
        Ok(w) => w,
        Err(e) => {
            return Err(e);
        },
    };
    let w2 = match parse_wire_chars(&t2) {
        Ok(w) => w,
        Err(e) => {
            return Err(e);
        },
    };
    proof {
        if let Ok(p1) = spec_wire_points(t1@) {
            assert(w1.paths@ =~= paths_of(p1));
        }
        if let Ok(p2) = spec_wire_points(t2@) {
            assert(w2.paths@ =~= paths_of(p2));
        }
    }
    match w1.first_intersection(&w2) {
        Some(d) => Ok(i64_to_string(d)),
        None => Err(SolveError::NoSolution),
    }
}

} // verus!
