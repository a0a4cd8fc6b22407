//! The ring of nodes that the circle algorithm passes its messages around.

use std::collections::HashMap;
use std::sync::Arc;
use vstd::prelude::*;
use crate::address::{IdError, id_field, id_field_of, decimal_i32, parse_i32};

verus! {

broadcast use vstd::std_specs::hash::group_hash_axioms;

/// The number of the node at address `p`, as a ring member: the fourth field
/// of the address read as an `i32`.
pub open spec fn ring_id(p: Seq<char>) -> Result<i32, IdError> {
    match id_field(p) {
        None => Err(IdError::WrongFormat),
        Some(f) => match decimal_i32(f) {
            Ok(v) => Ok(v),
            Err(e) => Err(IdError::InvalidNumber(e)),
        },
    }
}

/// The members that a list of addresses describes, each with its number, in
/// the order given; or the error of the first address that names no node.
pub open spec fn ring_members(raw: Seq<String>) -> Result<Seq<(String, i32)>, IdError>
    decreases raw.len(),
{
    if raw.len() == 0 {
        Ok(Seq::empty())
    } else {
        match ring_members(raw.drop_last()) {
            Err(e) => Err(e),
            Ok(ms) => match ring_id(raw.last()@) {
                Ok(k) => Ok(ms.push((raw.last(), k))),
                Err(e) => Err(e),
            },
        }
    }
}

/// The address of the last member listed with number `k`, if any.
pub open spec fn last_named(nodes: Seq<(String, i32)>, k: i32) -> Option<String>
    decreases nodes.len(),
{
    if nodes.len() == 0 {
        None
    } else if nodes.last().1 == k {
        Some(nodes.last().0)
    } else {
        last_named(nodes.drop_last(), k)
    }
}

/// The position of the first member with number `k`, if any.
pub open spec fn first_position(nodes: Seq<(String, i32)>, k: i32) -> Option<int>
    decreases nodes.len(),
{
    if nodes.len() == 0 {
        None
    } else {
        match first_position(nodes.drop_last(), k) {
            Some(i) => Some(i),
            None => if nodes.last().1 == k {
                Some(nodes.len() - 1)
            } else {
                None
            },
        }
    }
}

/// The members that follow position `i` going round the ring once: those
/// after it, then those before it.
pub open spec fn successors_of(nodes: Seq<(String, i32)>, i: int) -> Seq<(String, i32)> {
    nodes.skip(i + 1) + nodes.take(i)
}

/// The number of the node at address `p`: the fourth '.'-separated field of
/// `p`, read as an `i32`.
pub fn id(p: &str) -> (r: Result<i32, IdError>)
    ensures
        r == ring_id(p@),
{
    match id_field_of(p) {
        None => Err(IdError::WrongFormat),
        Some(f) => match parse_i32(&f) {
            Ok(v) => Ok(v),
            Err(e) => Err(IdError::InvalidNumber(e)),
        },
    }
}

/// The members of the ring as this node sees them.
pub struct Ring {
    id: i32,
    nodes: Vec<(String, i32)>,
    r_nodes: HashMap<i32, String>,
}

impl Ring {
    /// The number of this node.
    pub closed spec fn own_id(&self) -> i32 {
        self.id
    }

    /// All members in ring order, each with its number.
    pub closed spec fn members(&self) -> Seq<(String, i32)> {
        self.nodes@
    }

    #[verifier::type_invariant]
    spec fn index_matches(&self) -> bool {
        forall|k: i32|
            #![trigger self.r_nodes@.contains_key(k)]
            #![trigger last_named(self.nodes@, k)]
            {
                &&& self.r_nodes@.contains_key(k) == last_named(self.nodes@, k).is_some()
                &&& self.r_nodes@.contains_key(k) ==> self.r_nodes@[k] == last_named(
                    self.nodes@,
                    k,
                ).unwrap()
            }
    }

    /// The ring of the node at address `node`, made of the nodes at the
    /// addresses `raw_nodes` in that order. Fails with the error of `node`'s
    /// address if it names no node, else with that of the first member
    /// address that names none.
    pub fn new(node: String, raw_nodes: Vec<String>) -> (r: Result<Arc<Ring>, IdError>)
        ensures
            r is Ok <==> ring_id(node@) is Ok && ring_members(raw_nodes@) is Ok,
            r matches Ok(ring) ==> ring_id(node@) == Ok::<i32, IdError>(ring.own_id())
                && ring_members(raw_nodes@) == Ok::<Seq<(String, i32)>, IdError>(ring.members()),
            r matches Err(e) ==> match ring_id(node@) {
                Err(e0) => e == e0,
                Ok(_) => ring_members(raw_nodes@) == Err::<Seq<(String, i32)>, IdError>(e),
            },
    {
        let own = match id(node.as_str()) {
            Ok(k) => k,
            Err(e) => return Err(e),
        };
        let mut nodes: Vec<(String, i32)> = Vec::new();
        let mut r_nodes: HashMap<i32, String> = HashMap::new();
        let mut i: usize = 0;
        while i < raw_nodes.len()
            invariant
                i <= raw_nodes.len(),
                ring_id(node@) == Ok::<i32, IdError>(own),
                ring_members(raw_nodes@.take(i as int)) == Ok::<Seq<(String, i32)>, IdError>(
                    nodes@,
                ),
                forall|k: i32|
                    #![trigger r_nodes@.contains_key(k)]
                    #![trigger last_named(nodes@, k)]
                    {
                        &&& r_nodes@.contains_key(k) == last_named(nodes@, k).is_some()
                        &&& r_nodes@.contains_key(k) ==> r_nodes@[k] == last_named(
                            nodes@,
                            k,
                        ).unwrap()
                    },
            decreases raw_nodes.len() - i,
        {
            let p = &raw_nodes[i];
            assert(raw_nodes@.take(i + 1).drop_last() =~= raw_nodes@.take(i as int));
            assert(raw_nodes@.take(i + 1).last() == raw_nodes@[i as int]);
            let k = match id(p.as_str()) {
                Ok(k) => k,
                Err(e) => {
                    proof {
                        assert(ring_members(raw_nodes@.take(i + 1)) == Err::<Seq<(String, i32)>, IdError>(e));
                        lemma_members_error_persists(raw_nodes@, i + 1);
                    }
                    return Err(e);
                },
            };
            let ghost old_nodes = nodes@;
            nodes.push((p.clone(), k));
            r_nodes.insert(k, p.clone());
            assert(nodes@.drop_last() =~= old_nodes);
            i = i + 1;
        }
        assert(raw_nodes@.take(i as int) =~= raw_nodes@);
        let ring = Ring { id: own, nodes, r_nodes };
        Ok(Arc::new(ring))
    }

    /// The address of the node numbered `id`: the last member listed with
    /// that number, if there is one.
    pub fn get_by_id(&self, id: i32) -> (r: Option<String>)
        ensures
            r == last_named(self.members(), id),
    {
        proof {
            use_type_invariant(self);
            assert(self.r_nodes@.contains_key(id) == last_named(self.nodes@, id).is_some());
        }
        match self.r_nodes.get(&id) {
            Some(name) => Some(name.clone()),
            None => None,
        }
    }

    /// Where this node stands in the ring: the position of the first member
    /// that carries its number, if any does.
    pub fn own_position(&self) -> (r: Option<usize>)
        ensures
            match r {
                Some(i) => first_position(self.members(), self.own_id()) == Some(i as int),
                None => first_position(self.members(), self.own_id()) is None,
            },
    {
        let mut i: usize = 0;
        while i < self.nodes.len()
            invariant
                i <= self.nodes@.len(),
                first_position(self.nodes@.take(i as int), self.id) is None,
            decreases self.nodes@.len() - i,
        {
            assert(self.nodes@.take(i + 1).drop_last() =~= self.nodes@.take(i as int));
            if self.nodes[i].1 == self.id {
                proof {
                    lemma_first_position_prefix(self.nodes@, self.id, i + 1);
                }
                return Some(i);
            }
            i = i + 1;
        }
        assert(self.nodes@.take(i as int) =~= self.nodes@);
        None
    }

    /// The other members in the order a message travels round the ring from
    /// this node: those after this node's position, then those before it.
    pub fn fancy_iter(&self) -> (r: Vec<(String, i32)>)
        requires
            first_position(self.members(), self.own_id()) is Some,
        ensures
            r@ == successors_of(
                self.members(),
                first_position(self.members(), self.own_id())->Some_0,
            ),
    {
        proof {
            lemma_first_position_found(self.members(), self.own_id());
        }
        let idx = match self.own_position() {
            Some(i) => i,
            None => {
                assert(false);
                0
            },
        };
        let n = self.nodes.len();
        assert(idx < n);
        let mut out: Vec<(String, i32)> = Vec::new();
        let mut j: usize = idx + 1;
        while j < self.nodes.len()
            invariant
                idx < self.nodes@.len(),
                idx + 1 <= j <= self.nodes@.len(),
                out@ == self.nodes@.subrange(idx + 1, j as int),
            decreases self.nodes@.len() - j,
        {
            let entry = &self.nodes[j];
            out.push((entry.0.clone(), entry.1));
            assert(out@ =~= self.nodes@.subrange(idx + 1, j + 1));
            j = j + 1;
        }
        let mut j: usize = 0;
        while j < idx
            invariant
                idx < self.nodes@.len(),
                j <= idx,
                out@ == self.nodes@.skip(idx + 1) + self.nodes@.take(j as int),
            decreases idx - j,
        {
            let entry = &self.nodes[j];
            out.push((entry.0.clone(), entry.1));
            assert(out@ =~= self.nodes@.skip(idx + 1) + self.nodes@.take(j + 1));
            j = j + 1;
        }
        out
    }
}

/// Once an address in the list names no node, the whole list is refused.
proof fn lemma_members_error_persists(raw: Seq<String>, n: int)
    requires
        0 < n <= raw.len(),
        ring_members(raw.take(n)) is Err,
    ensures
        ring_members(raw) == ring_members(raw.take(n)),
    decreases raw.len() - n,
{
    if n == raw.len() {
        assert(raw.take(n) =~= raw);
    } else {
        assert(raw.take(n + 1).drop_last() =~= raw.take(n));
        lemma_members_error_persists(raw, n + 1);
    }
}

/// A position that is found holds a member with that number, and no earlier
/// member has it.
pub proof fn lemma_first_position_found(nodes: Seq<(String, i32)>, k: i32)
    ensures
        first_position(nodes, k) matches Some(i) ==> {
            &&& 0 <= i < nodes.len()
            &&& nodes[i].1 == k
            &&& forall|j: int| 0 <= j < i ==> nodes[j].1 != k
        },
        first_position(nodes, k) is None ==> forall|j: int| 0 <= j < nodes.len() ==> nodes[j].1 != k,
    decreases nodes.len(),
{
    if nodes.len() > 0 {
        lemma_first_position_found(nodes.drop_last(), k);
        assert forall|j: int| 0 <= j < nodes.len() - 1 implies nodes[j] == nodes.drop_last()[j] by {}
    }
}

/// A position found in a prefix is the position in the whole list.
proof fn lemma_first_position_prefix(nodes: Seq<(String, i32)>, k: i32, n: int)
    requires
        0 <= n <= nodes.len(),
        first_position(nodes.take(n), k) is Some,
    ensures
        first_position(nodes, k) == first_position(nodes.take(n), k),
    decreases nodes.len() - n,
{
    if n == nodes.len() {
        assert(nodes.take(n) =~= nodes);
    } else {
        assert(nodes.take(n + 1).drop_last() =~= nodes.take(n));
        lemma_first_position_prefix(nodes, k, n + 1);
    }
}

/// Going round from position `i`, the successors are every other member
/// once, in ring order: the `j`-th successor is the member `j + 1` places
/// after position `i`, wrapping round.
pub proof fn lemma_successors_in_ring_order(nodes: Seq<(String, i32)>, i: int)
    requires
        0 <= i < nodes.len(),
    ensures
        successors_of(nodes, i).len() == nodes.len() - 1,
        forall|j: int|
            0 <= j < nodes.len() - 1 ==> #[trigger] successors_of(nodes, i)[j] == nodes[(i + 1
                + j) % (nodes.len() as int)],
{
    let n = nodes.len() as int;
    let s = successors_of(nodes, i);
    assert forall|j: int| 0 <= j < n - 1 implies #[trigger] s[j] == nodes[(i + 1 + j) % n] by {
        if i + 1 + j < n {
            assert((i + 1 + j) % n == i + 1 + j) by (nonlinear_arith)
                requires
                    0 <= i + 1 + j < n,
            ;
        } else {
            assert((i + 1 + j) % n == i + 1 + j - n) by (nonlinear_arith)
                requires
                    n <= i + 1 + j < 2 * n,
            ;
        }
    }
}

/// The lookup by number finds the last member listed with that number, and
/// finds nothing only when no member has it.
pub proof fn lemma_last_named_is_last(nodes: Seq<(String, i32)>, k: i32)
    ensures
        last_named(nodes, k) matches Some(name) ==> exists|j: int|
            0 <= j < nodes.len() && #[trigger] nodes[j] == (name, k) && forall|i: int|
                j < i < nodes.len() ==> nodes[i].1 != k,
        last_named(nodes, k) is None ==> forall|i: int| 0 <= i < nodes.len() ==> nodes[i].1 != k,
    decreases nodes.len(),
{
    if nodes.len() > 0 {
        let t = nodes.drop_last();
        lemma_last_named_is_last(t, k);
        if nodes.last().1 == k {
            assert(nodes[nodes.len() - 1] == (nodes.last().0, k));
        } else {
            if let Some(name) = last_named(t, k) {
                let j = choose|j: int|
                    0 <= j < t.len() && #[trigger] t[j] == (name, k) && forall|i: int|
                        j < i < t.len() ==> t[i].1 != k;
                assert(nodes[j] == t[j]);
                assert forall|i: int| j < i < nodes.len() implies nodes[i].1 != k by {
                    if i < t.len() {
                        assert(nodes[i] == t[i]);
                    }
                }
            } else {
                assert forall|i: int| 0 <= i < nodes.len() implies nodes[i].1 != k by {
                    if i < t.len() {
                        assert(nodes[i] == t[i]);
                    }
                }
            }
        }
    }
}

/// The list `s` read from its `j`-th entry round to the entry before it.
pub open spec fn rotated<A>(s: Seq<A>, j: int) -> Seq<A> {
    s.skip(j) + s.take(j)
}

/// Whether no two members carry the same number.
pub open spec fn distinct_numbers(ms: Seq<(String, i32)>) -> bool {
    forall|a: int, b: int| 0 <= a < b < ms.len() ==> #[trigger] ms[a].1 != #[trigger] ms[b].1
}

/// Position `x` of a ring of `n`, for `0 <= x < 2 * n`, brought back into
/// `0 .. n`.
pub open spec fn wrap(n: int, x: int) -> int {
    if x < n {
        x
    } else {
        x - n
    }
}

/// Member by member: a list of addresses makes a ring exactly when every
/// address names a node, and then each member is its address with its
/// number.
proof fn lemma_members_pointwise(raw: Seq<String>)
    ensures
        ring_members(raw) is Ok <==> forall|i: int| 0 <= i < raw.len() ==> (#[trigger] ring_id(raw[i]@)) is Ok,
        ring_members(raw) matches Ok(ms) ==> {
            &&& ms.len() == raw.len()
            &&& forall|i: int|
                0 <= i < raw.len() ==> #[trigger] ms[i] == (raw[i], ring_id(raw[i]@)->Ok_0)
        },
    decreases raw.len(),
{
    if raw.len() > 0 {
        let t = raw.drop_last();
        lemma_members_pointwise(t);
        assert forall|i: int| 0 <= i < t.len() implies t[i] == raw[i] by {}
        if !(ring_members(raw) is Ok) {
            if ring_members(t) is Err {
                let i = choose|i: int| 0 <= i < t.len() && !((#[trigger] ring_id(t[i]@)) is Ok);
                assert(!(ring_id(raw[i]@) is Ok));
            } else {
                assert(!(ring_id(raw[raw.len() - 1]@) is Ok));
            }
        }
    }
}

/// Going round the ring from position `p`, the `t`-th successor is the
/// member `t + 1` places on.
proof fn lemma_successor_at(ms: Seq<(String, i32)>, p: int, t: int)
    requires
        0 <= p < ms.len(),
        0 <= t < ms.len() - 1,
    ensures
        successors_of(ms, p)[t] == ms[wrap(ms.len() as int, p + 1 + t)],
{
}

/// A number's first position in a list with distinct numbers is the one
/// place that carries it.
proof fn lemma_position_of_distinct(ms: Seq<(String, i32)>, k: i32, q: int)
    requires
        distinct_numbers(ms),
        0 <= q < ms.len(),
        ms[q].1 == k,
    ensures
        first_position(ms, k) == Some(q),
{
    lemma_first_position_found(ms, k);
    if let Some(f) = first_position(ms, k) {
        if f < q {
            assert(ms[f].1 != ms[q].1);
        } else if f > q {
            assert(ms[q].1 != ms[f].1);
        }
    }
}

/// Where a ring's list of addresses starts does not matter: when no two
/// nodes share a number, a node that is on the list has the same successors,
/// in the same order, however the list is rotated.
pub proof fn lemma_successors_ignore_where_the_list_starts(raw: Seq<String>, j: int, k: i32)
    requires
        0 <= j <= raw.len(),
        ring_members(raw) is Ok,
        distinct_numbers(ring_members(raw)->Ok_0),
        first_position(ring_members(raw)->Ok_0, k) is Some,
    ensures
        ring_members(rotated(raw, j)) == Ok::<Seq<(String, i32)>, IdError>(
            rotated(ring_members(raw)->Ok_0, j),
        ),
        first_position(rotated(ring_members(raw)->Ok_0, j), k) is Some,
        successors_of(
            rotated(ring_members(raw)->Ok_0, j),
            first_position(rotated(ring_members(raw)->Ok_0, j), k)->Some_0,
        ) == successors_of(
            ring_members(raw)->Ok_0,
            first_position(ring_members(raw)->Ok_0, k)->Some_0,
        ),
{
    let ms = ring_members(raw)->Ok_0;
    let n = raw.len() as int;
    let raw2 = rotated(raw, j);
    let ms2 = rotated(ms, j);
    lemma_members_pointwise(raw);
    lemma_members_pointwise(raw2);
    assert forall|y: int| 0 <= y < n implies raw2[y] == raw[wrap(n, y + j)] && ms2[y] == ms[wrap(
        n,
        y + j,
    )] by {}
    assert forall|i: int| 0 <= i < raw2.len() implies (#[trigger] ring_id(raw2[i]@)) is Ok by {
        assert(raw2[i] == raw[wrap(n, i + j)]);
        assert(ring_id(raw[wrap(n, i + j)]@) is Ok);
    }
    let ms3 = ring_members(raw2)->Ok_0;
    assert(ms3 =~= ms2) by {
        assert forall|i: int| 0 <= i < n implies ms3[i] == ms2[i] by {
            assert(raw2[i] == raw[wrap(n, i + j)]);
            assert(ms[wrap(n, i + j)] == (raw[wrap(n, i + j)], ring_id(raw[wrap(n, i + j)]@)->Ok_0));
        }
    }
    lemma_first_position_found(ms, k);
    let p = first_position(ms, k)->Some_0;
    let p2 = if p >= j { p - j } else { p + n - j };
    assert(ms2[p2] == ms[wrap(n, p2 + j)]);
    assert(distinct_numbers(ms2)) by {
        assert forall|a: int, b: int| 0 <= a < b < ms2.len() implies #[trigger] ms2[a].1
            != #[trigger] ms2[b].1 by {
            assert(ms2[a] == ms[wrap(n, a + j)]);
            assert(ms2[b] == ms[wrap(n, b + j)]);
            let x = wrap(n, a + j);
            let y = wrap(n, b + j);
            if x < y {
                assert(ms[x].1 != ms[y].1);
            } else {
                assert(ms[y].1 != ms[x].1);
            }
        }
    }
    lemma_position_of_distinct(ms2, k, p2);
    let s1 = successors_of(ms, p);
    let s2 = successors_of(ms2, p2);
    assert(s2 =~= s1) by {
        assert forall|t: int| 0 <= t < n - 1 implies s2[t] == s1[t] by {
            lemma_successor_at(ms, p, t);
            lemma_successor_at(ms2, p2, t);
            let y = wrap(n, p2 + 1 + t);
            assert(ms2[y] == ms[wrap(n, y + j)]);
        }
    }
}

} // verus!
