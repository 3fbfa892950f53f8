//! Universal Orbit Map: a tree of orbits, read as whitespace-separated
//! `A)B` entries.  Names are interned to indices in order of first
//! appearance, and the two walks — counting all direct and indirect
//! orbits, and finding the distances to `YOU` and `SAN` — run over the
//! index graph.

use vstd::prelude::*;

use crate::days::SolveError;
use crate::text::{collect_chars, find_char, find_ws, i64_to_string, is_ws, lemma_find_char_at};
use crate::text::{lemma_find_ws_at, spec_i64_string, spec_u64_string, u64_to_string};
use crate::text::copy_range;

verus! {

/// The deepest recursion either walk is allowed before the solver calls
/// the map malformed: a well-formed orbit map is a tree far shallower
/// than this.
pub const DEPTH_LIMIT: u64 = 1024;

/// The orbit map: interned body names, and for each body the indices of
/// the bodies orbiting it directly.
pub struct OrbitGraph {
    /// Body names, in order of first appearance.
    pub names: Vec<Vec<char>>,
    /// For each body, the bodies that orbit it, in entry order.
    pub children: Vec<Vec<usize>>,
}

/// The views of a row of character rows.
pub open spec fn name_views(s: Seq<Vec<char>>) -> Seq<Seq<char>> {
    s.map_values(|v: Vec<char>| v@)
}

/// The views of a row of index rows.
pub open spec fn edge_views(s: Seq<Vec<usize>>) -> Seq<Seq<usize>> {
    s.map_values(|v: Vec<usize>| v@)
}

/// Index of `name` among `names`, or `names.len()` when it is absent.
pub open spec fn name_index(names: Seq<Seq<char>>, name: Seq<char>) -> int
    decreases names.len(),
{
    if names.len() == 0 {
        0
    } else if names[0] == name {
        0
    } else {
        1 + name_index(names.skip(1), name)
    }
}

/// `name_index` is pinned by what an index-by-index scan observes.
pub proof fn lemma_name_index_at(names: Seq<Seq<char>>, name: Seq<char>, k: int)
    requires
        0 <= k <= names.len(),
        forall|i: int| 0 <= i < k ==> names[i] != name,
        k == names.len() || names[k] == name,
    ensures
        name_index(names, name) == k,
    decreases names.len(),
{
    if names.len() == 0 {
    } else if names[0] == name {
    } else {
        assert(k > 0);
        let t = names.skip(1);
        assert(forall|i: int| 0 <= i < k - 1 ==> t[i] == names[i + 1] && names[i + 1] != name);
        assert(k - 1 == t.len() || t[k - 1] == name);
        lemma_name_index_at(t, name, k - 1);
    }
}

/// Intern `name`: its index if already known, else it is appended with
/// an empty child row.
pub open spec fn spec_intern(names: Seq<Seq<char>>, edges: Seq<Seq<usize>>, name: Seq<char>) -> (
    Seq<Seq<char>>,
    Seq<Seq<usize>>,
    int,
) {
    let k = name_index(names, name);
    if k < names.len() {
        (names, edges, k)
    } else {
        (names.push(name), edges.push(Seq::empty()), names.len() as int)
    }
}

/// Record one `A)B` entry: `B` is interned, then `A`, and `B` joins the
/// children of `A`.  An entry without a closing parenthesis is
/// malformed; text after a second closing parenthesis is ignored.
pub open spec fn spec_add_entry(
    names: Seq<Seq<char>>,
    edges: Seq<Seq<usize>>,
    t: Seq<char>,
) -> Result<(Seq<Seq<char>>, Seq<Seq<usize>>), SolveError> {
    let k = find_char(t, ')');
    if !(0 <= k < t.len()) {
        Err(SolveError::BadInput)
    } else {
        let left = t.take(k);
        let rest = t.skip(k + 1);
        let right = rest.take(find_char(rest, ')'));
        let (names1, edges1, rid) = spec_intern(names, edges, right);
        let (names2, edges2, lid) = spec_intern(names1, edges1, left);
        Ok((names2, edges2.update(lid, edges2[lid].push(rid as usize))))
    }
}

/// Walk the whitespace-separated entries of `s`, folding each into the
/// growing map.
pub open spec fn orbits_from(s: Seq<char>, names: Seq<Seq<char>>, edges: Seq<Seq<usize>>) -> Result<
    (Seq<Seq<char>>, Seq<Seq<usize>>),
    SolveError,
>
    decreases s.len(),
{
    if s.len() == 0 {
        Ok((names, edges))
    } else if is_ws(s[0]) {
        orbits_from(s.skip(1), names, edges)
    } else {
        let k = find_ws(s);
        if 1 <= k <= s.len() {
            match spec_add_entry(names, edges, s.take(k)) {
                Err(e) => Err(e),
                Ok((n2, e2)) => orbits_from(s.skip(k), n2, e2),
            }
        } else {
            Ok((names, edges))
        }
    }
}

/// The orbit map an input text denotes.
pub open spec fn spec_parse_orbits(s: Seq<char>) -> Result<
    (Seq<Seq<char>>, Seq<Seq<usize>>),
    SolveError,
> {
    orbits_from(s, Seq::empty(), Seq::empty())
}

/// The orbit count of the subtree under `node`, seen at `depth`: the
/// node's own depth plus the counts of its children one level down.
/// Exhausted fuel means a cycle; a missing node is a malformed map.
pub open spec fn count_from(g: Seq<Seq<usize>>, depth: int, node: int, fuel: nat) -> Result<
    int,
    SolveError,
>
    decreases fuel, 0int,
{
    if fuel == 0 {
        Err(SolveError::Stalled)
    } else if !(0 <= node < g.len()) {
        Err(SolveError::BadInput)
    } else if depth >= u64::MAX {
        Err(SolveError::Overflow)
    } else {
        match count_kids(g, depth + 1, g[node], (fuel - 1) as nat) {
            Err(e) => Err(e),
            Ok(s) => if depth + s <= u64::MAX {
                Ok(depth + s)
            } else {
                Err(SolveError::Overflow)
            },
        }
    }
}

/// The summed orbit counts of the subtrees under `kids`, left to right.
pub open spec fn count_kids(g: Seq<Seq<usize>>, depth: int, kids: Seq<usize>, fuel: nat) -> Result<
    int,
    SolveError,
>
    decreases fuel, kids.len(),
{
    if kids.len() == 0 {
        Ok(0)
    } else {
        match count_from(g, depth, kids[0] as int, fuel) {
            Err(e) => Err(e),
            Ok(a) => match count_kids(g, depth, kids.skip(1), fuel) {
                Err(e) => Err(e),
                Ok(b) => if a + b <= u64::MAX {
                    Ok(a + b)
                } else {
                    Err(SolveError::Overflow)
                },
            },
        }
    }
}

/// Count the orbits of the subtree under `node`, following
/// [`count_from`] with the standard recursion allowance.
pub fn count_orbits(count: u64, node: usize, map: &OrbitGraph) -> (r: Result<u64, SolveError>)
    ensures
        (match count_from(
            edge_views(map.children@),
            count as int,
            node as int,
            DEPTH_LIMIT as nat,
        ) {
            Err(e) => r == Err::<u64, SolveError>(e),
            Ok(v) => r matches Ok(x) && x as int == v,
        }),
{
    count_subtree(count, node, map, DEPTH_LIMIT)
}

/// One node of the counting walk; mirrors [`count_from`].
fn count_subtree(depth: u64, node: usize, map: &OrbitGraph, fuel: u64) -> (r: Result<
    u64,
    SolveError,
>)
    ensures
        (match count_from(edge_views(map.children@), depth as int, node as int, fuel as nat) {
            Err(e) => r == Err::<u64, SolveError>(e),
            Ok(v) => r matches Ok(x) && x as int == v,
        }),
    decreases fuel, 0int,
{
    if fuel == 0 {
        return Err(SolveError::Stalled);
    }
    if node >= map.children.len() {
        return Err(SolveError::BadInput);
    }
    if depth == u64::MAX {
        return Err(SolveError::Overflow);
    }
    proof {
        assert(edge_views(map.children@)[node as int] == map.children@[node as int]@);
        assert(map.children@[node as int]@.skip(0) =~= map.children@[node as int]@);
    }
    let s = match count_children(depth + 1, node, 0, map, fuel - 1) {
        Ok(v) => v,
        Err(e) => {
            return Err(e);
        },
    };
    match depth.checked_add(s) {
        Some(x) => Ok(x),
        None => Err(SolveError::Overflow),
    }
}

/// The children of `node` from position `j` on; mirrors [`count_kids`].
fn count_children(depth: u64, node: usize, j: usize, map: &OrbitGraph, fuel: u64) -> (r: Result<
    u64,
    SolveError,
>)
    requires
        node < map.children@.len(),
        j <= map.children@[node as int]@.len(),
    ensures
        (match count_kids(
            edge_views(map.children@),
            depth as int,
            map.children@[node as int]@.skip(j as int),
            fuel as nat,
        ) {
            Err(e) => r == Err::<u64, SolveError>(e),
            Ok(v) => r matches Ok(x) && x as int == v,
        }),
    decreases fuel, map.children@[node as int]@.len() - j,
{
    let ghost kids = map.children@[node as int]@.skip(j as int);
    let row_len = map.children[node].len();
    if j == row_len {
        proof {
            assert(kids =~= Seq::<usize>::empty());
        }
        return Ok(0);
    }
    let child = map.children[node][j];
    proof {
        assert(kids[0] == map.children@[node as int]@[j as int]);
        assert(kids.skip(1) =~= map.children@[node as int]@.skip(j + 1int));
    }
    let a = match count_subtree(depth, child, map, fuel) {
        Ok(v) => v,
        Err(e) => {
            return Err(e);
        },
    };
    let b = match count_children(depth, node, j + 1, map, fuel) {
        Ok(v) => v,
        Err(e) => {
            return Err(e);
        },
    };
    match a.checked_add(b) {
        Some(x) => Ok(x),
        None => Err(SolveError::Overflow),
    }
}

/// The name `COM`, the root of every orbit map.
pub open spec fn com_name() -> Seq<char> {
    seq!['C', 'O', 'M']
}

/// The name `YOU`.
pub open spec fn you_name() -> Seq<char> {
    seq!['Y', 'O', 'U']
}

/// The name `SAN`.
pub open spec fn san_name() -> Seq<char> {
    seq!['S', 'A', 'N']
}

/// Fold one child's distances into the accumulated pair: distances to
/// both ends replace the pair outright; a single distance grows by one
/// step and lands in its slot; an empty result changes nothing.
pub open spec fn sp_combine(
    acc: (Option<i64>, Option<i64>),
    cr: (Option<i64>, Option<i64>),
) -> Result<(Option<i64>, Option<i64>), SolveError> {
    match cr {
        (Some(a), Some(b)) => Ok((Some(a), Some(b))),
        (Some(a), None) => if a < i64::MAX {
            Ok((Some((a + 1) as i64), acc.1))
        } else {
            Err(SolveError::Overflow)
        },
        (None, Some(b)) => if b < i64::MAX {
            Ok((acc.0, Some((b + 1) as i64)))
        } else {
            Err(SolveError::Overflow)
        },
        (None, None) => Ok(acc),
    }
}

/// The distances from `node` to the carriers of `YOU` and `SAN`: fold
/// the children's results, then pin either slot to -1 at the body that
/// is itself `YOU` or `SAN`.
pub open spec fn sp_from(g: Seq<Seq<usize>>, you: int, san: int, node: int, fuel: nat) -> Result<
    (Option<i64>, Option<i64>),
    SolveError,
>
    decreases fuel, 0int,
{
    if fuel == 0 {
        Err(SolveError::Stalled)
    } else if !(0 <= node < g.len()) {
        Err(SolveError::BadInput)
    } else {
        match sp_kids(g, you, san, g[node], (None, None), (fuel - 1) as nat) {
            Err(e) => Err(e),
            Ok(res) => Ok(
                (
                    if node == you {
                        Some(-1i64)
                    } else {
                        res.0
                    },
                    if node == san {
                        Some(-1i64)
                    } else {
                        res.1
                    },
                ),
            ),
        }
    }
}

/// Fold the distances of the subtrees under `kids` into `acc`, left to
/// right.
pub open spec fn sp_kids(
    g: Seq<Seq<usize>>,
    you: int,
    san: int,
    kids: Seq<usize>,
    acc: (Option<i64>, Option<i64>),
    fuel: nat,
) -> Result<(Option<i64>, Option<i64>), SolveError>
    decreases fuel, kids.len(),
{
    if kids.len() == 0 {
        Ok(acc)
    } else {
        match sp_from(g, you, san, kids[0] as int, fuel) {
            Err(e) => Err(e),
            Ok(cr) => match sp_combine(acc, cr) {
                Err(e) => Err(e),
                Ok(acc2) => sp_kids(g, you, san, kids.skip(1), acc2, fuel),
            },
        }
    }
}

/// The distances from `node` to the carriers of `YOU` and `SAN`,
/// following [`sp_from`] with the standard recursion allowance.
pub fn shortest_path(node: usize, map: &OrbitGraph) -> (r: Result<
    (Option<i64>, Option<i64>),
    SolveError,
>)
    ensures
        (match sp_from(
            edge_views(map.children@),
            name_index(name_views(map.names@), you_name()),
            name_index(name_views(map.names@), san_name()),
            node as int,
            DEPTH_LIMIT as nat,
        ) {
            Err(e) => r == Err::<(Option<i64>, Option<i64>), SolveError>(e),
            Ok(v) => r == Ok::<(Option<i64>, Option<i64>), SolveError>(v),
        }),
{
    let mut you: Vec<char> = Vec::new();
    you.push('Y');
    you.push('O');
    you.push('U');
    let mut san: Vec<char> = Vec::new();
    san.push('S');
    san.push('A');
    san.push('N');
    proof {
        assert(you@ =~= you_name());
        assert(san@ =~= san_name());
    }
    let you_id = lookup_name(&map.names, &you);
    let san_id = lookup_name(&map.names, &san);
    sp_subtree(node, you_id, san_id, map, DEPTH_LIMIT)
}

/// One node of the distance walk; mirrors [`sp_from`].
fn sp_subtree(node: usize, you: usize, san: usize, map: &OrbitGraph, fuel: u64) -> (r: Result<
    (Option<i64>, Option<i64>),
    SolveError,
>)
    requires
        you as int == name_index(name_views(map.names@), you_name()),
        san as int == name_index(name_views(map.names@), san_name()),
    ensures
        (match sp_from(
            edge_views(map.children@),
            you as int,
            san as int,
            node as int,
            fuel as nat,
        ) {
            Err(e) => r == Err::<(Option<i64>, Option<i64>), SolveError>(e),
            Ok(v) => r == Ok::<(Option<i64>, Option<i64>), SolveError>(v),
        }),
    decreases fuel, 0int,
{
    if fuel == 0 {
        return Err(SolveError::Stalled);
    }
    if node >= map.children.len() {
        return Err(SolveError::BadInput);
    }
    proof {
        assert(edge_views(map.children@)[node as int] == map.children@[node as int]@);
        assert(map.children@[node as int]@.skip(0) =~= map.children@[node as int]@);
    }
    let res = match sp_children(node, 0, you, san, (None, None), map, fuel - 1) {
        Ok(v) => v,
        Err(e) => {
            return Err(e);
        },
    };
    let r0 = if node == you {
        Some(-1i64)
    } else {
        res.0
    };
    let r1 = if node == san {
        Some(-1i64)
    } else {
        res.1
    };
    Ok((r0, r1))
}

/// The children of `node` from position `j` on; mirrors [`sp_kids`].
fn sp_children(
    node: usize,
    j: usize,
    you: usize,
    san: usize,
    acc: (Option<i64>, Option<i64>),
    map: &OrbitGraph,
    fuel: u64,
) -> (r: Result<(Option<i64>, Option<i64>), SolveError>)
    requires
        node < map.children@.len(),
        j <= map.children@[node as int]@.len(),
        you as int == name_index(name_views(map.names@), you_name()),
        san as int == name_index(name_views(map.names@), san_name()),
    ensures
        (match sp_kids(
            edge_views(map.children@),
            you as int,
            san as int,
            map.children@[node as int]@.skip(j as int),
            acc,
            fuel as nat,
        ) {
            Err(e) => r == Err::<(Option<i64>, Option<i64>), SolveError>(e),
            Ok(v) => r == Ok::<(Option<i64>, Option<i64>), SolveError>(v),
        }),
    decreases fuel, map.children@[node as int]@.len() - j,
{
    let ghost kids = map.children@[node as int]@.skip(j as int);
    let row_len = map.children[node].len();
    if j == row_len {
        proof {
            assert(kids =~= Seq::<usize>::empty());
        }
        return Ok(acc);
    }
    let child = map.children[node][j];
    proof {
        assert(kids[0] == map.children@[node as int]@[j as int]);
        assert(kids.skip(1) =~= map.children@[node as int]@.skip(j + 1int));
    }
    let cr = match sp_subtree(child, you, san, map, fuel) {
        Ok(v) => v,
        Err(e) => {
            return Err(e);
        },
    };
    let acc2 = match cr {
        (Some(a), Some(b)) => (Some(a), Some(b)),
        (Some(a), None) => {
            if a == i64::MAX {
                return Err(SolveError::Overflow);
            }
            (Some(a + 1), acc.1)
        },
        (None, Some(b)) => {
            if b == i64::MAX {
                return Err(SolveError::Overflow);
            }
            (acc.0, Some(b + 1))
        },
        (None, None) => acc,
    };
    sp_children(node, j + 1, you, san, acc2, map, fuel)
}

/// Index of `name` among `names`, executably: `names.len()` when absent.
fn lookup_name(names: &Vec<Vec<char>>, name: &Vec<char>) -> (id: usize)
    ensures
        id as int == name_index(name_views(names@), name@),
{
    let n = names.len();
    let mut i: usize = 0;
    while i < n
        invariant
            i <= n,
            n == names@.len(),
            forall|q: int| 0 <= q < i ==> name_views(names@)[q] != name@,
        decreases n - i,
    {
        if chars_eq(&names[i], name) {
            proof {
                assert(name_views(names@)[i as int] == names@[i as int]@);
                lemma_name_index_at(name_views(names@), name@, i as int);
            }
            return i;
        }
        proof {
            assert(name_views(names@)[i as int] == names@[i as int]@);
        }
        i = i + 1;
    }
    proof {
        lemma_name_index_at(name_views(names@), name@, n as int);
    }
    n
}

/// Whether two character rows hold the same characters.
fn chars_eq(a: &Vec<char>, b: &Vec<char>) -> (r: bool)
    ensures
        r == (a@ == b@),
{
    let n = a.len();
    if n != b.len() {
        return false;
    }
    let mut i: usize = 0;
    while i < n
        invariant
            i <= n,
            n == a@.len() == b@.len(),
            forall|q: int| 0 <= q < i ==> a@[q] == b@[q],
        decreases n - i,
    {
        if a[i] != b[i] {
            return false;
        }
        i = i + 1;
    }
    proof {
        assert(a@ =~= b@);
    }
    true
}

/// Intern `name` into the map under construction, following
/// [`spec_intern`] exactly.
fn intern_name(names: &mut Vec<Vec<char>>, children: &mut Vec<Vec<usize>>, name: Vec<char>) -> (id:
    usize)
    ensures
        ({
            let (n2, e2, k) = spec_intern(
                name_views(old(names)@),
                edge_views(old(children)@),
                name@,
            );
            &&& name_views(final(names)@) == n2
            &&& edge_views(final(children)@) == e2
            &&& id as int == k
            &&& final(names)@.len() == final(children)@.len() || old(names)@.len() != old(
                children,
            )@.len()
        }),
{
    let ghost names0 = names@;
    let ghost children0 = children@;
    let n = names.len();
    let mut i: usize = 0;
    while i < n
        invariant
            i <= n,
            n == names@.len(),
            names@ == names0,
            children@ == children0,
            forall|q: int| 0 <= q < i ==> name_views(names@)[q] != name@,
        decreases n - i,
    {
        if chars_eq(&names[i], &name) {
            proof {
                assert(name_views(names@)[i as int] == names@[i as int]@);
                lemma_name_index_at(name_views(names@), name@, i as int);
            }
            return i;
        }
        proof {
            assert(name_views(names@)[i as int] == names@[i as int]@);
        }
        i = i + 1;
    }
    proof {
        lemma_name_index_at(name_views(names@), name@, n as int);
    }
    let ghost added = name@;
    names.push(name);
    children.push(Vec::new());
    proof {
        assert forall|k: int| 0 <= k < names@.len() implies name_views(names@)[k] == name_views(
            names0,
        ).push(added)[k] by {
            assert(name_views(names@)[k] == names@[k]@);
            if k < n {
                assert(names@[k] == names0[k]);
                assert(name_views(names0)[k] == names0[k]@);
            }
        }
        assert(name_views(names@) =~= name_views(names0).push(added));
        assert forall|k: int| 0 <= k < children@.len() implies edge_views(children@)[k]
            == edge_views(children0).push(Seq::empty())[k] by {
            assert(edge_views(children@)[k] == children@[k]@);
            if k < children0.len() {
                assert(children@[k] == children0[k]);
                assert(edge_views(children0)[k] == children0[k]@);
            } else {
                assert(children@[k]@ =~= Seq::<usize>::empty());
            }
        }
        assert(edge_views(children@) =~= edge_views(children0).push(Seq::empty()));
    }
    n
}

/// Read the orbit map off the text, following [`spec_parse_orbits`]
/// exactly.
pub fn parse_data(data: &str) -> (r: Result<OrbitGraph, SolveError>)
    ensures
        (match spec_parse_orbits(data@) {
            Err(e) => r matches Err(e2) && e2 == e,
            Ok((ns, es)) => r matches Ok(g) && name_views(g.names@) == ns && edge_views(g.children@)
                == es,
        }),
{
    let chars = collect_chars(data);
    let n = chars.len();
    let mut names: Vec<Vec<char>> = Vec::new();
    let mut children: Vec<Vec<usize>> = Vec::new();
    let mut j: usize = 0;
    proof {
        assert(chars@.skip(0) =~= chars@);
        assert(name_views(names@) =~= Seq::<Seq<char>>::empty());
        assert(edge_views(children@) =~= Seq::<Seq<usize>>::empty());
    }
    while j < n
        invariant
            j <= n,
            n == chars@.len(),
            chars@ == data@,
            names@.len() == children@.len(),
            spec_parse_orbits(data@) == orbits_from(
                chars@.skip(j as int),
                name_views(names@),
                edge_views(children@),
            ),
        decreases n - j,
    {
        let c = chars[j];
        if c == ' ' || c == '\n' || c == '\r' || c == '\t' {
            proof {
                assert(chars@.skip(j as int).skip(1) =~= chars@.skip(j + 1int));
            }
            j = j + 1;
        } else {
            let ghost u = chars@.skip(j as int);
            let mut k = j + 1;
            while k < n && !(chars[k] == ' ' || chars[k] == '\n' || chars[k] == '\r' || chars[k]
                == '\t')
                invariant
                    j < k <= n,
                    n == chars@.len(),
                    forall|q: int| j <= q < k ==> !is_ws(#[trigger] chars@[q]),
                decreases n - k,
            {
                k = k + 1;
            }
            let ghost t = chars@.subrange(j as int, k as int);
            proof {
                assert(forall|i: int| 0 <= i < u.len() ==> u[i] == chars@[j + i]);
                lemma_find_ws_at(u, k - j);
                assert(u.take(k - j) =~= t);
                assert(u.skip(k - j) =~= chars@.skip(k as int));
            }
            // the entry: left ')' right, further text after a second ')'
            // ignored
            let mut p = j;
            while p < k && chars[p] != ')'
                invariant
                    j <= p <= k <= n,
                    n == chars@.len(),
                    forall|q: int| j <= q < p ==> chars@[q] != ')',
                decreases k - p,
            {
                p = p + 1;
            }
            proof {
                assert(forall|i: int| 0 <= i < t.len() ==> t[i] == chars@[j + i]);
                lemma_find_char_at(t, ')', p - j);
            }
            if p == k {
                return Err(SolveError::BadInput);
            }
            let mut p2 = p + 1;
            while p2 < k && chars[p2] != ')'
                invariant
                    p < p2 <= k <= n,
                    n == chars@.len(),
                    forall|q: int| p < q < p2 ==> chars@[q] != ')',
                decreases k - p2,
            {
                p2 = p2 + 1;
            }
            let ghost rest = t.skip(p - j + 1);
            proof {
                assert(rest =~= chars@.subrange(p + 1int, k as int));
                assert(forall|i: int| 0 <= i < rest.len() ==> rest[i] == chars@[p + 1 + i]);
                lemma_find_char_at(rest, ')', p2 - (p + 1));
                assert(rest.take(p2 - (p + 1)) =~= chars@.subrange(p + 1int, p2 as int));
                assert(t.take(p - j) =~= chars@.subrange(j as int, p as int));
            }
            let left = copy_range(&chars, j, p);
            let right = copy_range(&chars, p + 1, p2);
            let rid = intern_name(&mut names, &mut children, right);
            let lid = intern_name(&mut names, &mut children, left);
            let ghost names_mid = names@;
            let ghost children_mid = children@;
            proof {
                assert(lid < children@.len());
            }
            let row = &mut children[lid];
            row.push(rid);
            proof {
                assert(children@[lid as int]@ =~= children_mid[lid as int]@.push(rid));
                assert forall|w: int| 0 <= w < children@.len() implies edge_views(children@)[w]
                    == edge_views(children_mid).update(
                    lid as int,
                    edge_views(children_mid)[lid as int].push(rid),
                )[w] by {
                    assert(edge_views(children@)[w] == children@[w]@);
                    assert(edge_views(children_mid)[w] == children_mid[w]@);
                    if w != lid {
                        assert(children@[w] == children_mid[w]);
                    }
                }
                assert(edge_views(children@) =~= edge_views(children_mid).update(
                    lid as int,
                    edge_views(children_mid)[lid as int].push(rid),
                ));
            }
            j = k;
        }
    }
    proof {
        assert(chars@.skip(n as int) =~= Seq::<char>::empty());
    }
    Ok(OrbitGraph { names, children })
}

/// Every direct and indirect orbit in the map, counted from `COM`.
pub fn part1(data: &str) -> (r: Result<String, SolveError>)
    ensures
        (match spec_parse_orbits(data@) {
            Err(e) => r == Err::<String, SolveError>(e),
            Ok((ns, es)) => (match count_from(es, 0, name_index(ns, com_name()), DEPTH_LIMIT as nat) {
                Err(e) => r == Err::<String, SolveError>(e),
                Ok(v) => r matches Ok(s) && s@ == spec_u64_string(v as u64) && v == v as u64,
            }),
        }),
{
    let map = match parse_data(data) {
        Ok(g) => g,
        Err(e) => {
            return Err(e);
        },
    };
    let mut com: Vec<char> = Vec::new();
    com.push('C');
    com.push('O');
    com.push('M');
    proof {
        assert(com@ =~= com_name());
    }
    let com_id = lookup_name(&map.names, &com);
    match count_orbits(0, com_id, &map) {
        Err(e) => Err(e),
        Ok(v) => Ok(u64_to_string(v)),
    }
}

/// The orbital transfers needed to move `YOU` to the body `SAN` orbits.
pub fn part2(data: &str) -> (r: Result<String, SolveError>)
    ensures
        (match spec_parse_orbits(data@) {
            Err(e) => r == Err::<String, SolveError>(e),
            Ok((ns, es)) => (match sp_from(
                es,
                name_index(ns, you_name()),
                name_index(ns, san_name()),
                name_index(ns, com_name()),
                DEPTH_LIMIT as nat,
            ) {
                Err(e) => r == Err::<String, SolveError>(e),
                Ok((Some(a), Some(b))) => if i64::MIN <= a + b <= i64::MAX {
                    r matches Ok(s) && s@ == spec_i64_string((a + b) as i64)
                } else {
                    r == Err::<String, SolveError>(SolveError::Overflow)
                },
                Ok(_) => r == Err::<String, SolveError>(SolveError::NoSolution),
            }),
        }),
{
    let map = match parse_data(data) {
        Ok(g) => g,
        Err(e) => {
            return Err(e);
        },
    };
    let mut com: Vec<char> = Vec::new();
    com.push('C');
    com.push('O');
    com.push('M');
    proof {
        assert(com@ =~= com_name());
    }
    let com_id = lookup_name(&map.names, &com);
    match shortest_path(com_id, &map) {
        Err(e) => Err(e),
        Ok((Some(a), Some(b))) => match a.checked_add(b) {
            Some(x) => Ok(i64_to_string(x)),
            None => Err(SolveError::Overflow),
        },
        Ok(_) => Err(SolveError::NoSolution),
    }
}

} // verus!
