use vstd::prelude::*;
use crate::element::{Element, ElementId, ElementKind};
use crate::registry::UiError;

verus! {

broadcast use vstd::std_specs::vec::group_vec_axioms;

pub open spec fn is_container_query(e: Element) -> bool {
    e.kind is ContainerQuery
}

/// Nesting depth of every container query of the subtree, in document order, when the subtree
/// sits under `depth` enclosing queries.
pub open spec fn query_depths(e: Element, depth: int) -> Seq<int>
    decreases e, e.children.len() + 1,
{
    let inner = if is_container_query(e) { depth + 1 } else { depth };
    (if is_container_query(e) { seq![inner] } else { Seq::empty() })
        + query_forest_depths(e, e.children.len() as int, inner)
}

/// `query_depths` of the first `n` children of `e`, concatenated.
pub open spec fn query_forest_depths(e: Element, n: int, depth: int) -> Seq<int>
    decreases e, n,
{
    if n <= 0 || n > e.children.len() {
        Seq::empty()
    } else {
        query_forest_depths(e, n - 1, depth) + query_depths(e.children[n - 1], depth)
    }
}

/// The `k`-th query (counted after `base` earlier ones) breaks a limit.
pub open spec fn query_violates(depths: Seq<int>, base: int, max_queries: int, max_depth: int, k: int) -> bool {
    base + k + 1 > max_queries || depths[k] > max_depth
}

pub open spec fn first_query_violation(depths: Seq<int>, base: int, max_queries: int, max_depth: int, k: int) -> bool {
    &&& 0 <= k < depths.len()
    &&& query_violates(depths, base, max_queries, max_depth, k)
    &&& forall|j: int| 0 <= j < k ==> !query_violates(depths, base, max_queries, max_depth, j)
}

pub open spec fn no_query_violation(depths: Seq<int>, base: int, max_queries: int, max_depth: int) -> bool {
    forall|j: int| 0 <= j < depths.len() ==> !query_violates(depths, base, max_queries, max_depth, j)
}

/// The error reported for a first violation at `k`: the count limit is checked before depth.
pub open spec fn query_violation_error(base: int, max_queries: int, k: int) -> UiError {
    if base + k + 1 > max_queries { UiError::TooManyContainerQueries } else { UiError::ContainerQueryDepthExceeded }
}

proof fn lemma_no_violation_concat(a: Seq<int>, b: Seq<int>, base: int, mq: int, md: int)
    requires
        no_query_violation(a, base, mq, md),
        no_query_violation(b, base + a.len(), mq, md),
    ensures
        no_query_violation(a + b, base, mq, md),
{
    assert forall|j: int| 0 <= j < (a + b).len() implies !query_violates(a + b, base, mq, md, j) by {
        if j < a.len() {
            assert((a + b)[j] == a[j]);
            assert(!query_violates(a, base, mq, md, j));
        } else {
            assert((a + b)[j] == b[j - a.len()]);
            assert(!query_violates(b, base + a.len(), mq, md, j - a.len()));
        }
    }
}

proof fn lemma_violation_concat(a: Seq<int>, b: Seq<int>, c: Seq<int>, base: int, mq: int, md: int, k: int)
    requires
        no_query_violation(a, base, mq, md),
        first_query_violation(b, base + a.len(), mq, md, k),
    ensures
        first_query_violation((a + b) + c, base, mq, md, a.len() + k),
        query_violation_error(base + a.len(), mq, k) == query_violation_error(base, mq, a.len() + k),
{
    let w = (a + b) + c;
    assert(w[a.len() + k] == b[k]);
    assert forall|j: int| 0 <= j < a.len() + k implies !query_violates(w, base, mq, md, j) by {
        if j < a.len() {
            assert(w[j] == a[j]);
            assert(!query_violates(a, base, mq, md, j));
        } else {
            assert(w[j] == b[j - a.len()]);
            assert(!query_violates(b, base + a.len(), mq, md, j - a.len()));
        }
    }
}

fn visit_container_queries(
    element: &Element,
    query_depth: usize,
    query_count: &mut usize,
    max_queries: usize,
    max_depth: usize,
) -> (result: Result<(), UiError>)
    requires
        query_depth <= max_depth < usize::MAX,
        *old(query_count) <= max_queries < usize::MAX,
    ensures
        ({
            let depths = query_depths(*element, query_depth as int);
            let base = *old(query_count) as int;
            &&& (result is Ok <==> no_query_violation(depths, base, max_queries as int, max_depth as int))
            &&& (result is Ok ==> *final(query_count) == base + depths.len())
            &&& (result is Err ==> exists|k: int| #[trigger] first_query_violation(depths, base, max_queries as int, max_depth as int, k)
                    && result == Err::<(), UiError>(query_violation_error(base, max_queries as int, k)))
        }),
    decreases element,
{
    let ghost base = *old(query_count) as int;
    let ghost mq = max_queries as int;
    let ghost md = max_depth as int;
    let is_query = match &element.kind {
        ElementKind::ContainerQuery { .. } => true,
        _ => false,
    };
    let ghost own = if is_query { seq![query_depth + 1] } else { Seq::<int>::empty() };
    let depth = if is_query {
        *query_count += 1;
        if *query_count > max_queries {
            proof {
                let rest = query_forest_depths(*element, element.children.len() as int, query_depth + 1);
                lemma_violation_concat(Seq::<int>::empty(), own, rest, base, mq, md, 0);
                assert(Seq::<int>::empty() + own == own);
                assert(query_depths(*element, query_depth as int) == own + rest);
            }
            return Err(UiError::TooManyContainerQueries);
        }
        let depth = query_depth + 1;
        if depth > max_depth {
            proof {
                let rest = query_forest_depths(*element, element.children.len() as int, query_depth + 1);
                lemma_violation_concat(Seq::<int>::empty(), own, rest, base, mq, md, 0);
                assert(Seq::<int>::empty() + own == own);
                assert(query_depths(*element, query_depth as int) == own + rest);
            }
            return Err(UiError::ContainerQueryDepthExceeded);
        }
        depth
    } else {
        query_depth
    };
    assert(no_query_violation(own, base, mq, md));
    assert(query_forest_depths(*element, 0, depth as int) == Seq::<int>::empty());
    assert(own + query_forest_depths(*element, 0, depth as int) == own);
    let mut i: usize = 0;
    while i < element.children.len()
        invariant
            i <= element.children.len(),
            depth <= max_depth < usize::MAX,
            *query_count <= max_queries < usize::MAX,
            base == *old(query_count) as int,
            mq == max_queries as int,
            md == max_depth as int,
            depth == (if is_container_query(*element) { query_depth + 1 } else { query_depth as int }),
            own == (if is_container_query(*element) { seq![query_depth + 1] } else { Seq::<int>::empty() }),
            no_query_violation(own + query_forest_depths(*element, i as int, depth as int), base, mq, md),
            *query_count == base + (own + query_forest_depths(*element, i as int, depth as int)).len(),
        decreases element.children.len() - i,
    {
        let ghost prev = own + query_forest_depths(*element, i as int, depth as int);
        let ghost sub = query_depths(element.children[i as int], depth as int);
        let ghost total = query_depths(*element, query_depth as int);
        let child = visit_container_queries(&element.children[i], depth, query_count, max_queries, max_depth);
        proof {
            assert(query_forest_depths(*element, i + 1, depth as int) == query_forest_depths(*element, i as int, depth as int) + sub);
            assert(prev + sub == own + query_forest_depths(*element, i + 1, depth as int));
        }
        if child.is_err() {
            proof {
                let k = choose|k: int| #[trigger] first_query_violation(sub, base + prev.len(), mq, md, k)
                    && child == Err::<(), UiError>(query_violation_error(base + prev.len(), mq, k));
                lemma_query_forest_prefix(*element, i as int + 1, element.children.len() as int, depth as int);
                let full = query_forest_depths(*element, element.children.len() as int, depth as int);
                let head = query_forest_depths(*element, i as int + 1, depth as int);
                let post = full.subrange(head.len() as int, full.len() as int);
                assert(full == head + post);
                assert(total == own + full);
                assert(total == (prev + sub) + post);
                lemma_violation_concat(prev, sub, post, base, mq, md, k);
            }
            return child;
        }
        proof {
            lemma_no_violation_concat(prev, sub, base, mq, md);
            if sub.len() > 0 {
                assert(!query_violates(sub, base + prev.len(), mq, md, sub.len() - 1));
            }
        }
        i += 1;
    }
    Ok(())
}

proof fn lemma_query_forest_prefix(e: Element, m: int, n: int, depth: int)
    requires
        0 <= m <= n <= e.children.len(),
    ensures
        query_forest_depths(e, n, depth).len() >= query_forest_depths(e, m, depth).len(),
        query_forest_depths(e, n, depth).subrange(0, query_forest_depths(e, m, depth).len() as int)
            == query_forest_depths(e, m, depth),
    decreases n - m,
{
    if m < n {
        lemma_query_forest_prefix(e, m, n - 1, depth);
        let a = query_forest_depths(e, n - 1, depth);
        assert(query_forest_depths(e, n, depth) == a + query_depths(e.children[n - 1], depth));
        assert(query_forest_depths(e, n, depth).subrange(0, a.len() as int) == a);
        assert(query_forest_depths(e, n, depth).subrange(0, query_forest_depths(e, m, depth).len() as int)
            == a.subrange(0, query_forest_depths(e, m, depth).len() as int));
    }
}

/// Checks, before any layout work, that the view holds at most `max_queries` container queries
/// and nests them at most `max_depth` deep; reports the first breach in document order.
pub fn validate_container_query_limits(root: &Element, max_queries: usize, max_depth: usize) -> (result: Result<(), UiError>)
    requires
        max_depth < usize::MAX,
        max_queries < usize::MAX,
    ensures
        ({
            let depths = query_depths(*root, 0);
            &&& (result is Ok <==> no_query_violation(depths, 0, max_queries as int, max_depth as int))
            &&& (result is Err ==> exists|k: int| #[trigger] first_query_violation(depths, 0, max_queries as int, max_depth as int, k)
                    && result == Err::<(), UiError>(query_violation_error(0, max_queries as int, k)))
        }),
{
    let mut count: usize = 0;
    visit_container_queries(root, 0, &mut count, max_queries, max_depth)
}

/// Moves the motion ids resolved by every container query of the subtree onto `ids`, in
/// document order, leaving those queries with none.
pub fn drain_container_query_motion_ids(element: &mut Element, ids: &mut Vec<ElementId>)
    ensures
        final(ids)@ == old(ids)@ + drained_ids(*old(element)),
        drained(*old(element), *final(element)),
    decreases *old(element), 1nat,
{
    let ghost original = *element;
    let ghost start = ids@;
    drain_own_query_ids(&mut element.kind, ids);
    assert(decreases_to!(original => original.children));
    drain_forest_query_ids(&mut element.children, ids, Ghost(original));
    proof {
        assert(drained_ids(original) == own_query_ids(original) + drained_forest(original, original.children.len() as int));
        assert(ids@ =~= start + drained_ids(original));
    }
}

fn drain_own_query_ids(kind: &mut ElementKind, ids: &mut Vec<ElementId>)
    ensures
        final(ids)@ == old(ids)@ + (match *old(kind) {
            ElementKind::ContainerQuery { resolved_motion_ids } => resolved_motion_ids@,
            _ => Seq::empty(),
        }),
        match *old(kind) {
            ElementKind::ContainerQuery { .. } => *final(kind) matches ElementKind::ContainerQuery { resolved_motion_ids }
                && resolved_motion_ids@.len() == 0,
            _ => *final(kind) == *old(kind),
        },
{
    if let ElementKind::ContainerQuery { resolved_motion_ids } = kind {
        ids.append(resolved_motion_ids);
    } else {
        assert(ids@ =~= old(ids)@ + Seq::<ElementId>::empty());
    }
}

fn drain_forest_query_ids(children: &mut Vec<Element>, ids: &mut Vec<ElementId>, Ghost(parent): Ghost<Element>)
    requires
        *old(children) == parent.children,
    ensures
        final(children).len() == old(children).len(),
        forall|j: int| 0 <= j < old(children).len() ==> drained(#[trigger] old(children)[j], final(children)[j]),
        final(ids)@ == old(ids)@ + drained_forest(parent, parent.children.len() as int),
    decreases parent, 0nat,
{
    let ghost original = *children;
    let ghost start = ids@;
    let mut i: usize = 0;
    while i < children.len()
        invariant
            original == *old(children),
            original == parent.children,
            i <= children.len(),
            children.len() == original.len(),
            forall|j: int| i <= j < children.len() ==> children[j] == original[j],
            forall|j: int| 0 <= j < i ==> drained(original[j], #[trigger] children[j]),
            ids@ == start + drained_forest(parent, i as int),
        decreases children.len() - i,
    {
        assert(children[i as int] == original[i as int]);
        assert(decreases_to!(parent => parent.children[i as int]));
        drain_container_query_motion_ids(&mut children[i], ids);
        proof {
            assert(drained_forest(parent, i + 1) == drained_forest(parent, i as int) + drained_ids(original[i as int]));
            assert(ids@ =~= start + drained_forest(parent, i + 1));
        }
        i += 1;
    }
}

/// The motion ids held by an element itself, when it is a container query.
pub open spec fn own_query_ids(e: Element) -> Seq<ElementId> {
    match e.kind {
        ElementKind::ContainerQuery { resolved_motion_ids } => resolved_motion_ids@,
        _ => Seq::empty(),
    }
}

/// Every container-query motion id of the subtree, in document order.
pub open spec fn drained_ids(e: Element) -> Seq<ElementId>
    decreases e, e.children.len() + 1,
{
    own_query_ids(e) + drained_forest(e, e.children.len() as int)
}

pub open spec fn drained_forest(e: Element, n: int) -> Seq<ElementId>
    decreases e, n,
{
    if n <= 0 || n > e.children.len() {
        Seq::empty()
    } else {
        drained_forest(e, n - 1) + drained_ids(e.children[n - 1])
    }
}

/// `after` is `before` with its own container-query motion ids emptied and nothing else changed
/// (its children are compared separately).
pub open spec fn drained_node(before: Element, after: Element) -> bool {
    &&& after == (Element { kind: after.kind, children: after.children, ..before })
    &&& after.children.len() == before.children.len()
    &&& match before.kind {
        ElementKind::ContainerQuery { .. } => after.kind matches ElementKind::ContainerQuery { resolved_motion_ids }
            && resolved_motion_ids@.len() == 0,
        _ => after.kind == before.kind,
    }
}

/// `after` is the subtree `before` with every container query's motion ids emptied.
pub open spec fn drained(before: Element, after: Element) -> bool
    decreases before,
{
    &&& drained_node(before, after)
    &&& forall|j: int| 0 <= j < before.children.len()
        ==> drained(#[trigger] before.children[j], after.children[j])
}

/// Which resolution work a container-query pass did.
#[derive(Clone, Copy, Debug, Default, PartialEq, Eq, Structural)]
pub struct ContainerQueryResolution {
    pub changed: bool,
    pub replaced_existing_subtree: bool,
}

impl ContainerQueryResolution {
    /// Accumulates another pass's outcome: each flag becomes set when either pass set it.
    pub fn merge(&mut self, other: Self)
        ensures
            final(self).changed == (old(self).changed || other.changed),
            final(self).replaced_existing_subtree
                == (old(self).replaced_existing_subtree || other.replaced_existing_subtree),
    {
        self.changed = self.changed || other.changed;
        self.replaced_existing_subtree = self.replaced_existing_subtree || other.replaced_existing_subtree;
    }
}

} // verus!
