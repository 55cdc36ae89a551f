use vstd::prelude::*;

verus! {

/// A handle to a game object: its slot index and the generation of that slot.
#[derive(Clone, Copy, Debug, PartialEq, Eq, Structural)]
pub struct Entity {
    pub id: u32,
    pub generation: i32,
}

/// One child of a node together with the depth it is drawn at
/// (`None` when the child has no transform).
pub type DepthEntry = (Entity, Option<i32>);

/// Child `a` is drawn strictly before child `b`: both have a depth and the
/// depth of `a` is smaller. A child without a depth is drawn neither before
/// nor after any other child, so it keeps its place.
pub open spec fn depth_lt(a: Option<i32>, b: Option<i32>) -> bool {
    match (a, b) {
        (Some(x), Some(y)) => x < y,
        _ => false,
    }
}

/// The children whose `alive` flag is set, paired with their depth, in their
/// listed order, among the first `n` positions.
pub open spec fn living_prefix(
    es: Seq<Entity>,
    alive: Seq<bool>,
    depth: Seq<Option<i32>>,
    n: nat,
) -> Seq<DepthEntry>
    decreases n,
{
    if n == 0 {
        Seq::empty()
    } else {
        let rest = living_prefix(es, alive, depth, (n - 1) as nat);
        if alive[n - 1] {
            rest.push((es[n - 1], depth[n - 1]))
        } else {
            rest
        }
    }
}

/// The living children paired with their depth, in their listed order.
pub open spec fn living(es: Seq<Entity>, alive: Seq<bool>, depth: Seq<Option<i32>>) -> Seq<DepthEntry> {
    living_prefix(es, alive, depth, es.len())
}

/// Puts `x` at the end of `s`, then moves it in front of the trailing
/// entries that it is drawn strictly before.
pub open spec fn insert_by_depth(s: Seq<DepthEntry>, x: DepthEntry) -> Seq<DepthEntry>
    decreases s.len(),
{
    if s.len() == 0 {
        seq![x]
    } else if depth_lt(x.1, s.last().1) {
        insert_by_depth(s.drop_last(), x).push(s.last())
    } else {
        s.push(x)
    }
}

/// Where `insert_by_depth` puts `x`.
pub open spec fn insert_pos(s: Seq<DepthEntry>, x: DepthEntry) -> int
    decreases s.len(),
{
    if s.len() == 0 {
        0
    } else if depth_lt(x.1, s.last().1) {
        insert_pos(s.drop_last(), x)
    } else {
        s.len() as int
    }
}

/// The stable insertion sort of `s` by depth, entries being inserted one
/// after the other from the front.
pub open spec fn sort_by_depth(s: Seq<DepthEntry>) -> Seq<DepthEntry>
    decreases s.len(),
{
    if s.len() == 0 {
        s
    } else {
        insert_by_depth(sort_by_depth(s.drop_last()), s.last())
    }
}

/// The entities of a sequence of entries.
pub open spec fn entities_of(s: Seq<DepthEntry>) -> Seq<Entity> {
    s.map_values(|p: DepthEntry| p.0)
}

/// Every entry from position `i` to position `j` has a depth.
pub open spec fn no_gap(s: Seq<DepthEntry>, i: int, j: int) -> bool {
    forall|k: int| i <= k <= j ==> (#[trigger] s[k]).1 is Some
}

/// Within each stretch of entries that all have a depth, no entry is drawn
/// strictly before an earlier one.
pub open spec fn runs_sorted(s: Seq<DepthEntry>) -> bool {
    forall|i: int, j: int|
        0 <= i < j < s.len() && no_gap(s, i, j) ==> !depth_lt(#[trigger] s[j].1, #[trigger] s[i].1)
}

/// The entities of the entries drawn at depth `k`, in order.
pub open spec fn at_depth(s: Seq<DepthEntry>, k: Option<i32>) -> Seq<Entity>
    decreases s.len(),
{
    if s.len() == 0 {
        Seq::empty()
    } else if s.last().1 == k {
        at_depth(s.drop_last(), k).push(s.last().0)
    } else {
        at_depth(s.drop_last(), k)
    }
}

/// The children after one ordering pass: the living children, ordered by
/// depth when one was dropped or the order was marked dirty, else as listed.
pub open spec fn children_after_sort(
    es: Seq<Entity>,
    dirty: bool,
    alive: Seq<bool>,
    depth: Seq<Option<i32>>,
) -> Seq<Entity> {
    let kept = living(es, alive, depth);
    if dirty || kept.len() < es.len() {
        entities_of(sort_by_depth(kept))
    } else {
        entities_of(kept)
    }
}

/// A node of the scene graph: its children, its parent and whether the order
/// of its children has to be recomputed.
pub struct Node {
    pub entities: Vec<Entity>,
    pub parent: Option<Entity>,
    pub children_dirty: bool,
}

fn depth_before(a: Option<i32>, b: Option<i32>) -> (r: bool)
    ensures
        r == depth_lt(a, b),
{
    match (a, b) {
        (Some(x), Some(y)) => x < y,
        _ => false,
    }
}

proof fn lemma_insert_at(s: Seq<DepthEntry>, x: DepthEntry, j: int)
    requires
        0 <= j <= s.len(),
        forall|t: int| j <= t < s.len() ==> depth_lt(x.1, #[trigger] s[t].1),
        j == 0 || !depth_lt(x.1, s[j - 1].1),
    ensures
        insert_by_depth(s, x) == s.insert(j, x),
        insert_pos(s, x) == j,
    decreases s.len(),
{
    if s.len() == 0 {
        assert(s.insert(j, x) =~= seq![x]);
    } else if j == s.len() {
        assert(s.insert(j, x) =~= s.push(x));
    } else {
        let d = s.drop_last();
        assert forall|t: int| j <= t < d.len() implies depth_lt(x.1, #[trigger] d[t].1) by {
            assert(d[t] == s[t]);
        }
        if j > 0 {
            assert(d[j - 1] == s[j - 1]);
        }
        assert(depth_lt(x.1, s[s.len() - 1].1));
        lemma_insert_at(d, x, j);
        assert(d.insert(j, x).push(s.last()) =~= s.insert(j, x));
    }
}

proof fn lemma_insert_pos(s: Seq<DepthEntry>, x: DepthEntry)
    ensures
        0 <= insert_pos(s, x) <= s.len(),
        forall|t: int| insert_pos(s, x) <= t < s.len() ==> depth_lt(x.1, #[trigger] s[t].1),
        insert_pos(s, x) == 0 || !depth_lt(x.1, s[insert_pos(s, x) - 1].1),
        insert_by_depth(s, x) == s.insert(insert_pos(s, x), x),
    decreases s.len(),
{
    if s.len() > 0 && depth_lt(x.1, s.last().1) {
        let d = s.drop_last();
        lemma_insert_pos(d, x);
        let p = insert_pos(d, x);
        assert forall|t: int| p <= t < s.len() implies depth_lt(x.1, #[trigger] s[t].1) by {
            if t < d.len() {
                assert(d[t] == s[t]);
            }
        }
        if p > 0 {
            assert(d[p - 1] == s[p - 1]);
        }
    }
    lemma_insert_at(s, x, insert_pos(s, x));
}

fn sort_entries(items: &Vec<DepthEntry>) -> (r: Vec<DepthEntry>)
    ensures
        r@ == sort_by_depth(items@),
{
    let mut out: Vec<DepthEntry> = Vec::new();
    let n = items.len();
    for i in 0..n
        invariant
            n == items@.len(),
            out@ == sort_by_depth(items@.take(i as int)),
    {
        let x = items[i];
        let mut j = out.len();
        while j > 0 && depth_before(x.1, out[j - 1].1)
            invariant
                j <= out@.len(),
                forall|t: int| j <= t < out@.len() ==> depth_lt(x.1, #[trigger] out@[t].1),
            decreases j,
        {
            j = j - 1;
        }
        proof {
            lemma_insert_at(out@, x, j as int);
            assert(items@.take(i + 1).drop_last() =~= items@.take(i as int));
            assert(items@.take(i + 1).last() == x);
        }
        out.insert(j, x);
    }
    assert(items@.take(n as int) =~= items@);
    out
}

proof fn lemma_living_len(es: Seq<Entity>, alive: Seq<bool>, depth: Seq<Option<i32>>, n: nat)
    ensures
        living_prefix(es, alive, depth, n).len() <= n,
    decreases n,
{
    if n > 0 {
        lemma_living_len(es, alive, depth, (n - 1) as nat);
    }
}

#[verifier::rlimit(40)]
proof fn lemma_insert_runs_pair(s: Seq<DepthEntry>, x: DepthEntry, p: int, i: int, j: int)
    requires
        runs_sorted(s),
        0 <= p <= s.len(),
        forall|t: int| p <= t < s.len() ==> depth_lt(x.1, #[trigger] s[t].1),
        p == 0 || !depth_lt(x.1, s[p - 1].1),
        0 <= i < j < s.len() + 1,
        no_gap(s.insert(p, x), i, j),
    ensures
        !depth_lt(s.insert(p, x)[j].1, s.insert(p, x)[i].1),
{
    let r = s.insert(p, x);
    if j < p {
        assert forall|k: int| i <= k <= j implies (#[trigger] s[k]).1 is Some by {
            assert(r[k] == s[k]);
        }
        assert(r[i] == s[i] && r[j] == s[j]);
    } else if i > p {
        assert forall|k: int| i - 1 <= k <= j - 1 implies (#[trigger] s[k]).1 is Some by {
            assert(r[k + 1] == s[k]);
        }
        assert(r[i] == s[i - 1] && r[j] == s[j - 1]);
    } else if i < p && j == p {
        assert(r[p] == x);
        assert(r[p - 1] == s[p - 1]);
        assert(s[p - 1].1 is Some);
        if i < p - 1 {
            assert forall|k: int| i <= k <= p - 1 implies (#[trigger] s[k]).1 is Some by {
                assert(r[k] == s[k]);
            }
            assert(r[i] == s[i]);
            assert(!depth_lt(s[p - 1].1, s[i].1));
        }
    } else if i < p && j > p {
        assert forall|k: int| i <= k <= j - 1 implies (#[trigger] s[k]).1 is Some by {
            if k < p {
                assert(r[k] == s[k]);
            } else {
                assert(r[k + 1] == s[k]);
            }
        }
        assert(r[i] == s[i] && r[j] == s[j - 1]);
    } else {
        assert(r[i] == x && r[j] == s[j - 1]);
        assert(depth_lt(x.1, s[j - 1].1));
    }
}

proof fn lemma_insert_runs(s: Seq<DepthEntry>, x: DepthEntry)
    requires
        runs_sorted(s),
    ensures
        runs_sorted(insert_by_depth(s, x)),
{
    lemma_insert_pos(s, x);
    let p = insert_pos(s, x);
    let r = s.insert(p, x);
    assert forall|i: int, j: int| 0 <= i < j < r.len() && no_gap(r, i, j) implies !depth_lt(
        #[trigger] r[j].1,
        #[trigger] r[i].1,
    ) by {
        lemma_insert_runs_pair(s, x, p, i, j);
    }
}

proof fn lemma_at_depth_push(s: Seq<DepthEntry>, x: DepthEntry, k: Option<i32>)
    ensures
        at_depth(s.push(x), k) == if x.1 == k { at_depth(s, k).push(x.0) } else { at_depth(s, k) },
{
    assert(s.push(x).drop_last() =~= s);
}

proof fn lemma_insert_at_depth(s: Seq<DepthEntry>, x: DepthEntry, k: Option<i32>)
    ensures
        at_depth(insert_by_depth(s, x), k) == if x.1 == k {
            at_depth(s, k).push(x.0)
        } else {
            at_depth(s, k)
        },
        insert_by_depth(s, x).len() == s.len() + 1,
    decreases s.len(),
{
    if s.len() == 0 {
        lemma_at_depth_push(s, x, k);
        assert(seq![x] =~= s.push(x));
    } else if depth_lt(x.1, s.last().1) {
        let d = s.drop_last();
        let last = s.last();
        lemma_insert_at_depth(d, x, k);
        lemma_at_depth_push(insert_by_depth(d, x), last, k);
        lemma_at_depth_push(d, last, k);
        assert(d.push(last) =~= s);
        assert(last.1 != x.1);
    } else {
        lemma_at_depth_push(s, x, k);
    }
}

proof fn lemma_sort_keeps_depths(s: Seq<DepthEntry>)
    ensures
        sort_by_depth(s).len() == s.len(),
        forall|k: Option<i32>| #[trigger] at_depth(sort_by_depth(s), k) == at_depth(s, k),
    decreases s.len(),
{
    if s.len() > 0 {
        let d = s.drop_last();
        let x = s.last();
        lemma_sort_keeps_depths(d);
        lemma_insert_at_depth(sort_by_depth(d), x, None);
        assert forall|k: Option<i32>| #[trigger] at_depth(sort_by_depth(s), k) == at_depth(s, k) by {
            lemma_insert_at_depth(sort_by_depth(d), x, k);
            lemma_at_depth_push(d, x, k);
            assert(d.push(x) =~= s);
        }
    }
}

proof fn lemma_sort_runs(s: Seq<DepthEntry>)
    ensures
        runs_sorted(sort_by_depth(s)),
    decreases s.len(),
{
    if s.len() > 0 {
        lemma_sort_runs(s.drop_last());
        lemma_insert_runs(sort_by_depth(s.drop_last()), s.last());
    }
}

#[verifier::rlimit(40)]
proof fn lemma_sort_places(s: Seq<DepthEntry>)
    ensures
        forall|i: int| 0 <= i < s.len() && (#[trigger] s[i]).1 is None ==> sort_by_depth(s)[i] == s[i],
        forall|i: int| 0 <= i < s.len() ==> ((#[trigger] sort_by_depth(s)[i]).1 is None <==> s[i].1 is None),
    decreases s.len(),
{
    if s.len() > 0 {
        let d = s.drop_last();
        let x = s.last();
        lemma_sort_places(d);
        lemma_sort_keeps_depths(d);
        let sd = sort_by_depth(d);
        lemma_insert_pos(sd, x);
        let p = insert_pos(sd, x);
        let r = sd.insert(p, x);
        assert(sort_by_depth(s) == r);
        assert forall|i: int| 0 <= i < s.len() && (#[trigger] s[i]).1 is None implies r[i] == s[i] by {
            if i < d.len() {
                assert(d[i] == s[i]);
                assert(sd[i] == d[i]);
                if i >= p {
                    assert(depth_lt(x.1, sd[i].1));
                }
                assert(r[i] == sd[i]);
            } else {
                if p < sd.len() {
                    assert(depth_lt(x.1, sd[p].1));
                }
                assert(r[i] == x);
            }
        }
        assert forall|i: int| 0 <= i < s.len() implies ((#[trigger] r[i]).1 is None <==> s[i].1 is None) by {
            if i < p {
                assert(r[i] == sd[i]);
                assert(d[i] == s[i]);
            } else if i == p {
                assert(r[i] == x);
                if p < sd.len() {
                    assert(depth_lt(x.1, sd[p].1));
                    assert(d[i] == s[i]);
                    assert(sd[i].1 is Some);
                }
            } else {
                assert(r[i] == sd[i - 1]);
                assert(depth_lt(x.1, sd[i - 1].1));
                if i < d.len() {
                    assert(d[i] == s[i]);
                    assert(depth_lt(x.1, sd[i].1));
                }
            }
        }
    }
}

/// Ordering children by depth keeps every child and the relative order of
/// the children at any one depth; children without a depth stay where they
/// are, and within each stretch of children that have a depth no child is
/// drawn before an earlier, less deep one. When every child has a depth, the
/// children end up in depth order.
pub proof fn lemma_sort_by_depth(s: Seq<DepthEntry>)
    ensures
        sort_by_depth(s).len() == s.len(),
        forall|k: Option<i32>| #[trigger] at_depth(sort_by_depth(s), k) == at_depth(s, k),
        forall|i: int| 0 <= i < s.len() && (#[trigger] s[i]).1 is None ==> sort_by_depth(s)[i] == s[i],
        forall|i: int| 0 <= i < s.len() ==> ((#[trigger] sort_by_depth(s)[i]).1 is None <==> s[i].1 is None),
        runs_sorted(sort_by_depth(s)),
        (forall|i: int| 0 <= i < s.len() ==> (#[trigger] s[i]).1 is Some) ==> forall|i: int, j: int|
            0 <= i < j < s.len() ==> !depth_lt(#[trigger] sort_by_depth(s)[j].1, #[trigger] sort_by_depth(s)[i].1),
{
    lemma_sort_keeps_depths(s);
    lemma_sort_runs(s);
    lemma_sort_places(s);
    if forall|i: int| 0 <= i < s.len() ==> (#[trigger] s[i]).1 is Some {
        let q = sort_by_depth(s);
        assert forall|i: int, j: int| 0 <= i < j < s.len() implies !depth_lt(#[trigger] q[j].1, #[trigger] q[i].1) by {
            assert forall|k: int| i <= k <= j implies (#[trigger] q[k]).1 is Some by {
                assert(s[k].1 is Some);
            }
            assert(no_gap(q, i, j));
        }
    }
}

/// Children whose stretches with a depth are already in order are left as they are.
pub proof fn lemma_sorted_children_stay(s: Seq<DepthEntry>)
    requires
        runs_sorted(s),
    ensures
        sort_by_depth(s) == s,
    decreases s.len(),
{
    if s.len() > 0 {
        let d = s.drop_last();
        assert forall|i: int, j: int| 0 <= i < j < d.len() && no_gap(d, i, j) implies !depth_lt(
            #[trigger] d[j].1,
            #[trigger] d[i].1,
        ) by {
            assert forall|k: int| i <= k <= j implies (#[trigger] s[k]).1 is Some by {
                assert(d[k] == s[k]);
            }
            assert(d[i] == s[i] && d[j] == s[j]);
        }
        lemma_sorted_children_stay(d);
        if d.len() > 0 {
            let a = s[d.len() - 1];
            let b = s[s.len() - 1];
            assert(d.last() == a);
            if a.1 is Some && b.1 is Some {
                assert forall|k: int| d.len() - 1 <= k <= s.len() - 1 implies (#[trigger] s[k]).1 is Some by {
                    if k == d.len() - 1 {
                    } else {
                        assert(k == s.len() - 1);
                    }
                }
                assert(!depth_lt(b.1, a.1));
            }
        }
        assert(d.push(s.last()) =~= s);
    }
}

/// When every child is alive, the living children are all the children.
pub proof fn lemma_all_alive(es: Seq<Entity>, alive: Seq<bool>, depth: Seq<Option<i32>>)
    requires
        alive.len() == es.len(),
        depth.len() == es.len(),
        forall|i: int| 0 <= i < alive.len() ==> #[trigger] alive[i],
    ensures
        entities_of(living(es, alive, depth)) == es,
{
    lemma_all_alive_prefix(es, alive, depth, es.len());
    assert(es.take(es.len() as int) =~= es);
}

proof fn lemma_all_alive_prefix(es: Seq<Entity>, alive: Seq<bool>, depth: Seq<Option<i32>>, n: nat)
    requires
        n <= es.len(),
        alive.len() == es.len(),
        depth.len() == es.len(),
        forall|i: int| 0 <= i < alive.len() ==> #[trigger] alive[i],
    ensures
        entities_of(living_prefix(es, alive, depth, n)) =~= es.take(n as int),
    decreases n,
{
    if n > 0 {
        lemma_all_alive_prefix(es, alive, depth, (n - 1) as nat);
        assert(alive[n - 1]);
    }
}

/// A second ordering pass, right after one and with every child still
/// alive, changes nothing.
pub proof fn lemma_sort_children_settles(
    es: Seq<Entity>,
    dirty: bool,
    alive: Seq<bool>,
    depth: Seq<Option<i32>>,
    alive2: Seq<bool>,
    depth2: Seq<Option<i32>>,
)
    requires
        alive.len() == es.len(),
        depth.len() == es.len(),
        alive2.len() == children_after_sort(es, dirty, alive, depth).len(),
        depth2.len() == children_after_sort(es, dirty, alive, depth).len(),
        forall|i: int| 0 <= i < alive2.len() ==> #[trigger] alive2[i],
    ensures
        children_after_sort(children_after_sort(es, dirty, alive, depth), false, alive2, depth2)
            == children_after_sort(es, dirty, alive, depth),
{
    let es2 = children_after_sort(es, dirty, alive, depth);
    lemma_all_alive(es2, alive2, depth2);
    assert(living(es2, alive2, depth2).len() == es2.len());
}

impl Node {
    /// A node with no parent and no children.
    pub fn new() -> (n: Node)
        ensures
            n.entities@ == Seq::<Entity>::empty(),
            n.parent is None,
            !n.children_dirty,
    {
        Node { entities: Vec::new(), parent: None, children_dirty: false }
    }

    /// A node without children below `entity`.
    pub fn with_parent(entity: Entity) -> (n: Node)
        ensures
            n.entities@ == Seq::<Entity>::empty(),
            n.parent == Some(entity),
            !n.children_dirty,
    {
        Node { entities: Vec::new(), parent: Some(entity), children_dirty: false }
    }

    /// Appends one child; the order of the children has to be recomputed.
    pub fn add(&mut self, entity: Entity)
        ensures
            final(self).entities@ == old(self).entities@.push(entity),
            final(self).parent == old(self).parent,
            final(self).children_dirty,
    {
        self.entities.push(entity);
        self.children_dirty = true;
    }

    /// Appends the children in `entities`, in order; the order of the
    /// children has to be recomputed.
    pub fn add_many(&mut self, entities: Vec<Entity>)
        ensures
            final(self).entities@ == old(self).entities@ + entities@,
            final(self).parent == old(self).parent,
            final(self).children_dirty,
    {
        let mut more = entities;
        self.entities.append(&mut more);
        self.children_dirty = true;
    }

    /// Drops the children that are no longer alive and, when a child was
    /// dropped or children were added since the last call, orders the
    /// children by depth, keeping the order of children at equal depth.
    /// `alive[i]` and `depth[i]` describe the child at position `i`.
    pub fn sort_children(&mut self, alive: &Vec<bool>, depth: &Vec<Option<i32>>)
        requires
            alive@.len() == old(self).entities@.len(),
            depth@.len() == old(self).entities@.len(),
        ensures
            final(self).entities@ == children_after_sort(
                old(self).entities@,
                old(self).children_dirty,
                alive@,
                depth@,
            ),
            !old(self).children_dirty && (forall|i: int| 0 <= i < alive@.len() ==> #[trigger] alive@[i])
                ==> final(self).entities@ == old(self).entities@,
            final(self).parent == old(self).parent,
            !final(self).children_dirty,
    {
        let ghost es = self.entities@;
        let n = self.entities.len();
        let mut kept: Vec<DepthEntry> = Vec::new();
        let mut removed = false;
        for i in 0..n
            invariant
                n == es.len(),
                self.entities@ == es,
                alive@.len() == n,
                depth@.len() == n,
                kept@ == living_prefix(es, alive@, depth@, i as nat),
                removed <==> kept@.len() < i,
        {
            proof {
                lemma_living_len(es, alive@, depth@, i as nat);
            }
            if alive[i] {
                kept.push((self.entities[i], depth[i]));
            } else {
                removed = true;
            }
        }
        proof {
            if forall|i: int| 0 <= i < alive@.len() ==> #[trigger] alive@[i] {
                lemma_all_alive(es, alive@, depth@);
                assert(entities_of(kept@).len() == kept@.len());
                assert(!removed);
            }
        }
        if removed {
            self.children_dirty = true;
        }
        let ordered = if self.children_dirty {
            sort_entries(&kept)
        } else {
            kept
        };
        let mut result: Vec<Entity> = Vec::new();
        let m = ordered.len();
        for i in 0..m
            invariant
                m == ordered@.len(),
                result@ =~= entities_of(ordered@.take(i as int)),
        {
            result.push(ordered[i].0);
        }
        assert(ordered@.take(m as int) =~= ordered@);
        self.entities = result;
        self.children_dirty = false;
    }
}

impl Default for Node {
    fn default() -> (n: Self)
        ensures
            n.entities@ == Seq::<Entity>::empty(),
            n.parent is None,
            !n.children_dirty,
    {
        Node::new()
    }
}

} // verus!
