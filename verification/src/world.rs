use vstd::prelude::*;
use crate::components::node::Entity;

verus! {

/// One draw call that an entity gets, in the order they are made.
#[derive(Clone, Copy, Debug, PartialEq, Eq, Structural)]
pub enum DrawStep {
    /// Its sprite's frame.
    Sprite,
    /// The current frame of its animation.
    Animation,
    /// Its text, in its colour.
    Text,
    /// Its shape.
    Shape,
    /// Its tile map, with the map's tileset texture.
    TileMap,
}

/// A text component: what it says and whether it is shown.
pub struct TextPart {
    pub text: String,
    pub visible: bool,
}

/// Which drawable components an entity has.
pub struct EntityParts {
    pub has_transform: bool,
    pub has_sprite: bool,
    pub has_animation: bool,
    pub has_color: bool,
    pub text: Option<TextPart>,
    pub has_shape: bool,
    pub has_tile_map: bool,
}

/// The step `s` alone when `cond` holds, else nothing.
pub open spec fn step_if(cond: bool, s: DrawStep) -> Seq<DrawStep> {
    if cond {
        seq![s]
    } else {
        Seq::empty()
    }
}

/// Whether the entity's text is drawn: it has a colour and a shown,
/// non-empty text.
pub open spec fn text_drawn(p: EntityParts) -> bool {
    p.has_color && match p.text {
        Some(t) => t.text@.len() > 0 && t.visible,
        None => false,
    }
}

/// The draw calls of an entity: none without a transform; otherwise its
/// sprite, its animation frame, its text, its shape and its tile map, each
/// where it has one.
pub open spec fn draw_plan(p: EntityParts) -> Seq<DrawStep> {
    if !p.has_transform {
        Seq::empty()
    } else {
        step_if(p.has_sprite, DrawStep::Sprite) + step_if(p.has_animation, DrawStep::Animation) + step_if(
            text_drawn(p),
            DrawStep::Text,
        ) + step_if(p.has_shape, DrawStep::Shape) + step_if(p.has_tile_map, DrawStep::TileMap)
    }
}

/// The position of a kind of draw call in an entity's drawing order.
pub open spec fn step_rank(s: DrawStep) -> int {
    match s {
        DrawStep::Sprite => 0,
        DrawStep::Animation => 1,
        DrawStep::Text => 2,
        DrawStep::Shape => 3,
        DrawStep::TileMap => 4,
    }
}

/// What an entity's draw calls are, component by component: none without a
/// transform; with one, a sprite draw exactly when it has a sprite (with or
/// without a colour), an animation draw exactly when it has an animation, a
/// text draw exactly when it has a colour and a shown, non-empty text, a
/// shape draw exactly when it has a shape and a tile-map draw exactly when
/// it has a tile map; each at most once, in the order sprite, animation,
/// text, shape, tile map.
pub open spec fn draws_fit(p: EntityParts, draws: Seq<DrawStep>) -> bool {
    &&& !p.has_transform ==> draws.len() == 0
    &&& p.has_transform ==> (draws.contains(DrawStep::Sprite) <==> p.has_sprite)
    &&& p.has_transform ==> (draws.contains(DrawStep::Animation) <==> p.has_animation)
    &&& p.has_transform ==> (draws.contains(DrawStep::Text) <==> (p.has_color && p.text is Some
        && p.text.unwrap().text@.len() > 0 && p.text.unwrap().visible))
    &&& p.has_transform ==> (draws.contains(DrawStep::Shape) <==> p.has_shape)
    &&& p.has_transform ==> (draws.contains(DrawStep::TileMap) <==> p.has_tile_map)
    &&& forall|i: int, j: int| 0 <= i < j < draws.len() ==> step_rank(#[trigger] draws[i]) < step_rank(#[trigger] draws[j])
}

/// The draws of `s` come in strictly increasing rank.
pub open spec fn ranks_increase(s: Seq<DrawStep>) -> bool {
    forall|i: int, j: int| 0 <= i < j < s.len() ==> step_rank(#[trigger] s[i]) < step_rank(#[trigger] s[j])
}

proof fn lemma_append_step(s: Seq<DrawStep>, c: bool, x: DrawStep)
    requires
        ranks_increase(s),
        forall|i: int| 0 <= i < s.len() ==> step_rank(#[trigger] s[i]) < step_rank(x),
    ensures
        forall|k: DrawStep| #[trigger] (s + step_if(c, x)).contains(k) <==> (s.contains(k) || (c && k == x)),
        ranks_increase(s + step_if(c, x)),
        forall|i: int| 0 <= i < (s + step_if(c, x)).len() ==> step_rank(#[trigger] (s + step_if(c, x))[i]) <= step_rank(x),
{
    let t = s + step_if(c, x);
    assert forall|k: DrawStep| t.contains(k) <==> (s.contains(k) || (c && k == x)) by {
        if t.contains(k) {
            let i = choose|i: int| 0 <= i < t.len() && t[i] == k;
            if i < s.len() {
                assert(s[i] == k);
            }
        }
        if s.contains(k) {
            let i = choose|i: int| 0 <= i < s.len() && s[i] == k;
            assert(t[i] == k);
        }
        if c && k == x {
            assert(t[s.len() as int] == x);
        }
    }
    assert forall|i: int, j: int| 0 <= i < j < t.len() implies step_rank(#[trigger] t[i]) < step_rank(#[trigger] t[j]) by {
        if j < s.len() {
            assert(t[i] == s[i] && t[j] == s[j]);
        } else {
            assert(t[i] == s[i]);
        }
    }
    assert forall|i: int| 0 <= i < t.len() implies step_rank(#[trigger] t[i]) <= step_rank(x) by {
        if i < s.len() {
            assert(t[i] == s[i]);
        }
    }
}

/// An entity's draw calls are as `draws_fit` says.
pub proof fn lemma_draw_plan_fits(p: EntityParts)
    ensures
        draws_fit(p, draw_plan(p)),
{
    if p.has_transform {
        let s0 = Seq::<DrawStep>::empty();
        lemma_append_step(s0, p.has_sprite, DrawStep::Sprite);
        let s1 = s0 + step_if(p.has_sprite, DrawStep::Sprite);
        lemma_append_step(s1, p.has_animation, DrawStep::Animation);
        let s2 = s1 + step_if(p.has_animation, DrawStep::Animation);
        lemma_append_step(s2, text_drawn(p), DrawStep::Text);
        let s3 = s2 + step_if(text_drawn(p), DrawStep::Text);
        lemma_append_step(s3, p.has_shape, DrawStep::Shape);
        let s4 = s3 + step_if(p.has_shape, DrawStep::Shape);
        lemma_append_step(s4, p.has_tile_map, DrawStep::TileMap);
        let s5 = s4 + step_if(p.has_tile_map, DrawStep::TileMap);
        assert(s1 =~= step_if(p.has_sprite, DrawStep::Sprite));
        assert(draw_plan(p) == s5);
        assert(forall|k: DrawStep| !s0.contains(k));
        assert(s5.contains(DrawStep::Sprite) <==> p.has_sprite) by {
            assert(s1.contains(DrawStep::Sprite) <==> p.has_sprite);
            assert(s2.contains(DrawStep::Sprite) <==> s1.contains(DrawStep::Sprite));
            assert(s3.contains(DrawStep::Sprite) <==> s2.contains(DrawStep::Sprite));
            assert(s4.contains(DrawStep::Sprite) <==> s3.contains(DrawStep::Sprite));
        }
        assert(s5.contains(DrawStep::Animation) <==> p.has_animation) by {
            assert(!s1.contains(DrawStep::Animation));
            assert(s2.contains(DrawStep::Animation) <==> p.has_animation);
            assert(s3.contains(DrawStep::Animation) <==> s2.contains(DrawStep::Animation));
            assert(s4.contains(DrawStep::Animation) <==> s3.contains(DrawStep::Animation));
        }
        assert(s5.contains(DrawStep::Text) <==> text_drawn(p)) by {
            assert(!s1.contains(DrawStep::Text));
            assert(!s2.contains(DrawStep::Text));
            assert(s3.contains(DrawStep::Text) <==> text_drawn(p));
            assert(s4.contains(DrawStep::Text) <==> s3.contains(DrawStep::Text));
        }
        assert(s5.contains(DrawStep::Shape) <==> p.has_shape) by {
            assert(!s1.contains(DrawStep::Shape));
            assert(!s2.contains(DrawStep::Shape));
            assert(!s3.contains(DrawStep::Shape));
            assert(s4.contains(DrawStep::Shape) <==> p.has_shape);
        }
        assert(s5.contains(DrawStep::TileMap) <==> p.has_tile_map) by {
            assert(!s1.contains(DrawStep::TileMap));
            assert(!s2.contains(DrawStep::TileMap));
            assert(!s3.contains(DrawStep::TileMap));
            assert(!s4.contains(DrawStep::TileMap));
        }
    }
}

/// The draw calls that an entity with the components `parts` gets.
pub fn entity_draws(parts: &EntityParts) -> (steps: Vec<DrawStep>)
    ensures
        steps@ == draw_plan(*parts),
        draws_fit(*parts, steps@),
{
    proof {
        lemma_draw_plan_fits(*parts);
    }
    let mut steps: Vec<DrawStep> = Vec::new();
    if !parts.has_transform {
        return steps;
    }
    if parts.has_sprite {
        steps.push(DrawStep::Sprite);
    }
    if parts.has_animation {
        steps.push(DrawStep::Animation);
    }
    let text_shown = match &parts.text {
        Some(t) => parts.has_color && !t.text.as_str().is_empty() && t.visible,
        None => false,
    };
    if text_shown {
        steps.push(DrawStep::Text);
    }
    if parts.has_shape {
        steps.push(DrawStep::Shape);
    }
    if parts.has_tile_map {
        steps.push(DrawStep::TileMap);
    }
    assert(steps@ =~= draw_plan(*parts));
    steps
}

/// A step of the walk over the scene graph: entering an entity (its offset
/// is added and it is drawn) or leaving it after its children (its offset is
/// taken off again).
#[derive(Clone, Copy, Debug, PartialEq, Eq, Structural)]
pub enum DrawEvent {
    Enter(Entity),
    Leave(Entity),
}

/// A node's children, in drawing order: the entity and the children of its node.
pub type ChildList = (Entity, Vec<Entity>);

/// The children of `e`: those of the first entry for `e`, none without one.
pub open spec fn children_of(table: Seq<ChildList>, e: Entity) -> Seq<Entity>
    decreases table.len(),
{
    if table.len() == 0 {
        Seq::empty()
    } else if table[0].0 == e {
        table[0].1@
    } else {
        children_of(table.drop_first(), e)
    }
}

/// The walk from `e` ends within `fuel` levels: `e` is hidden, or the walks
/// from its children end within one level less.
pub open spec fn walk_ends(table: Seq<ChildList>, hidden: Seq<Entity>, e: Entity, fuel: nat) -> bool
    decreases fuel, 0nat, 0nat,
{
    hidden.contains(e) || (fuel > 0 && walks_end(table, hidden, children_of(table, e), (fuel - 1) as nat))
}

/// The walks from each of `es` end within `fuel` levels.
pub open spec fn walks_end(table: Seq<ChildList>, hidden: Seq<Entity>, es: Seq<Entity>, fuel: nat) -> bool
    decreases fuel, 1nat, es.len(),
{
    es.len() == 0 || (walks_end(table, hidden, es.drop_last(), fuel) && walk_ends(table, hidden, es.last(), fuel))
}

proof fn lemma_walks_end(table: Seq<ChildList>, hidden: Seq<Entity>, es: Seq<Entity>, fuel: nat)
    requires
        walks_end(table, hidden, es, fuel),
    ensures
        forall|j: int| 0 <= j < es.len() ==> #[trigger] walk_ends(table, hidden, es[j], fuel),
    decreases es.len(),
{
    if es.len() > 0 {
        lemma_walks_end(table, hidden, es.drop_last(), fuel);
        assert forall|j: int| 0 <= j < es.len() implies #[trigger] walk_ends(table, hidden, es[j], fuel) by {
            if j < es.len() - 1 {
                assert(es[j] == es.drop_last()[j]);
            }
        }
    }
}

/// The walk from `e`, going at most `fuel` levels down: nothing for a hidden
/// entity (its subtree is skipped); else entering `e`, the walks from its
/// children in order, and leaving `e`.
pub open spec fn walk(table: Seq<ChildList>, hidden: Seq<Entity>, e: Entity, fuel: nat) -> Seq<DrawEvent>
    decreases fuel, 0nat, 0nat,
{
    if hidden.contains(e) || fuel == 0 {
        Seq::empty()
    } else {
        seq![DrawEvent::Enter(e)] + walk_list(table, hidden, children_of(table, e), (fuel - 1) as nat) + seq![
            DrawEvent::Leave(e),
        ]
    }
}

/// The walks from the entities of `es`, one after the other.
pub open spec fn walk_list(table: Seq<ChildList>, hidden: Seq<Entity>, es: Seq<Entity>, fuel: nat) -> Seq<DrawEvent>
    decreases fuel, 1nat, es.len(),
{
    if es.len() == 0 {
        Seq::empty()
    } else {
        walk_list(table, hidden, es.drop_last(), fuel) + walk(table, hidden, es.last(), fuel)
    }
}

/// The walk from `root` ends: no cycle of the scene graph under `root`
/// runs through visible entities only.
pub open spec fn graph_ends(table: Seq<ChildList>, hidden: Seq<Entity>, root: Entity) -> bool {
    exists|fuel: nat| walk_ends(table, hidden, root, fuel)
}

/// The drawing walk from `root`: a pre-order over the visible entities,
/// children in the order their node lists them, each entity left after its
/// subtree.
pub open spec fn visible_preorder(table: Seq<ChildList>, hidden: Seq<Entity>, root: Entity) -> Seq<DrawEvent> {
    walk(table, hidden, root, choose|fuel: nat| walk_ends(table, hidden, root, fuel))
}

proof fn lemma_walk_fuel(table: Seq<ChildList>, hidden: Seq<Entity>, e: Entity, f1: nat, f2: nat)
    requires
        walk_ends(table, hidden, e, f1),
        f1 <= f2,
    ensures
        walk_ends(table, hidden, e, f2),
        walk(table, hidden, e, f1) == walk(table, hidden, e, f2),
    decreases f1, 0nat, 0nat,
{
    if !hidden.contains(e) {
        lemma_walks_fuel(table, hidden, children_of(table, e), (f1 - 1) as nat, (f2 - 1) as nat);
    }
}

proof fn lemma_walks_fuel(table: Seq<ChildList>, hidden: Seq<Entity>, es: Seq<Entity>, f1: nat, f2: nat)
    requires
        walks_end(table, hidden, es, f1),
        f1 <= f2,
    ensures
        walks_end(table, hidden, es, f2),
        walk_list(table, hidden, es, f1) == walk_list(table, hidden, es, f2),
    decreases f1, 1nat, es.len(),
{
    if es.len() > 0 {
        lemma_walks_fuel(table, hidden, es.drop_last(), f1, f2);
        lemma_walk_fuel(table, hidden, es.last(), f1, f2);
    }
}

/// A walk that ends within some bound is the drawing order, whatever the
/// bound: a deeper bound changes nothing.
pub proof fn lemma_walk_bound(table: Seq<ChildList>, hidden: Seq<Entity>, root: Entity, fuel: nat)
    requires
        walk_ends(table, hidden, root, fuel),
    ensures
        graph_ends(table, hidden, root),
        walk(table, hidden, root, fuel) == visible_preorder(table, hidden, root),
{
    let c = choose|f: nat| walk_ends(table, hidden, root, f);
    if c <= fuel {
        lemma_walk_fuel(table, hidden, root, c, fuel);
    } else {
        lemma_walk_fuel(table, hidden, root, fuel, c);
    }
}

/// The entity an event enters or leaves.
pub open spec fn event_entity(ev: DrawEvent) -> Entity {
    match ev {
        DrawEvent::Enter(x) => x,
        DrawEvent::Leave(x) => x,
    }
}

/// No event of `events` enters or leaves a hidden entity.
pub open spec fn only_visible(events: Seq<DrawEvent>, hidden: Seq<Entity>) -> bool {
    forall|i: int| 0 <= i < events.len() ==> !hidden.contains(#[trigger] event_entity(events[i]))
}

proof fn lemma_concat_visible(a: Seq<DrawEvent>, b: Seq<DrawEvent>, hidden: Seq<Entity>)
    requires
        only_visible(a, hidden),
        only_visible(b, hidden),
    ensures
        only_visible(a + b, hidden),
{
    assert forall|i: int| 0 <= i < (a + b).len() implies !hidden.contains(#[trigger] event_entity((a + b)[i])) by {
        if i < a.len() {
            assert((a + b)[i] == a[i]);
        } else {
            assert((a + b)[i] == b[i - a.len()]);
        }
    }
}

proof fn lemma_walk_visible(table: Seq<ChildList>, hidden: Seq<Entity>, e: Entity, fuel: nat)
    ensures
        only_visible(walk(table, hidden, e, fuel), hidden),
    decreases fuel, 0nat, 0nat,
{
    if !hidden.contains(e) && fuel > 0 {
        let inner = walk_list(table, hidden, children_of(table, e), (fuel - 1) as nat);
        lemma_list_visible(table, hidden, children_of(table, e), (fuel - 1) as nat);
        let enter = seq![DrawEvent::Enter(e)];
        let leave = seq![DrawEvent::Leave(e)];
        assert(only_visible(enter, hidden)) by {
            assert forall|i: int| 0 <= i < enter.len() implies !hidden.contains(#[trigger] event_entity(enter[i])) by {
                assert(enter[i] == DrawEvent::Enter(e));
            }
        }
        assert(only_visible(leave, hidden)) by {
            assert forall|i: int| 0 <= i < leave.len() implies !hidden.contains(#[trigger] event_entity(leave[i])) by {
                assert(leave[i] == DrawEvent::Leave(e));
            }
        }
        lemma_concat_visible(enter, inner, hidden);
        lemma_concat_visible(enter + inner, leave, hidden);
    }
}

proof fn lemma_list_visible(table: Seq<ChildList>, hidden: Seq<Entity>, es: Seq<Entity>, fuel: nat)
    ensures
        only_visible(walk_list(table, hidden, es, fuel), hidden),
    decreases fuel, 1nat, es.len(),
{
    if es.len() > 0 {
        lemma_list_visible(table, hidden, es.drop_last(), fuel);
        lemma_walk_visible(table, hidden, es.last(), fuel);
        lemma_concat_visible(walk_list(table, hidden, es.drop_last(), fuel), walk(table, hidden, es.last(), fuel), hidden);
    }
}

/// A hidden entity is never drawn: the drawing order neither enters nor
/// leaves it.
pub proof fn lemma_hidden_never_drawn(table: Seq<ChildList>, hidden: Seq<Entity>, root: Entity)
    ensures
        only_visible(visible_preorder(table, hidden, root), hidden),
{
    lemma_walk_visible(table, hidden, root, choose|fuel: nat| walk_ends(table, hidden, root, fuel));
}

fn is_hidden(hidden: &Vec<Entity>, e: Entity) -> (r: bool)
    ensures
        r == hidden@.contains(e),
{
    let n = hidden.len();
    for i in 0..n
        invariant
            n == hidden@.len(),
            forall|j: int| 0 <= j < i ==> hidden@[j] != e,
    {
        if hidden[i] == e {
            assert(hidden@[i as int] == e);
            return true;
        }
    }
    false
}

fn find_entry(table: &Vec<ChildList>, e: Entity) -> (r: Option<usize>)
    ensures
        match r {
            Some(k) => k < table@.len() && table@[k as int].1@ == children_of(table@, e),
            None => children_of(table@, e) == Seq::<Entity>::empty(),
        },
{
    let n = table.len();
    let mut i: usize = 0;
    assert(table@.skip(0) =~= table@);
    while i < n
        invariant
            n == table@.len(),
            0 <= i <= n,
            children_of(table@, e) == children_of(table@.skip(i as int), e),
        decreases n - i,
    {
        assert(table@.skip(i as int).drop_first() =~= table@.skip(i + 1));
        if table[i].0 == e {
            return Some(i);
        }
        i = i + 1;
    }
    None
}

fn walk_from(table: &Vec<ChildList>, hidden: &Vec<Entity>, e: Entity, out: &mut Vec<DrawEvent>, Ghost(fuel): Ghost<nat>)
    requires
        walk_ends(table@, hidden@, e, fuel),
    ensures
        final(out)@ == old(out)@ + walk(table@, hidden@, e, fuel),
    decreases fuel,
{
    if is_hidden(hidden, e) {
        assert(old(out)@ + walk(table@, hidden@, e, fuel) =~= old(out)@);
        return;
    }
    out.push(DrawEvent::Enter(e));
    let empty: Vec<Entity> = Vec::new();
    let kids = match find_entry(table, e) {
        Some(k) => &table[k].1,
        None => &empty,
    };
    let ghost base = out@;
    let ghost f = (fuel - 1) as nat;
    assert(kids@ == children_of(table@, e));
    proof {
        lemma_walks_end(table@, hidden@, kids@, f);
    }
    let n = kids.len();
    for i in 0..n
        invariant
            n == kids@.len(),
            kids@ == children_of(table@, e),
            fuel > 0,
            f == (fuel - 1) as nat,
            forall|j: int| 0 <= j < kids@.len() ==> #[trigger] walk_ends(table@, hidden@, kids@[j], f),
            !hidden@.contains(e),
            out@ == base + walk_list(table@, hidden@, kids@.take(i as int), f),
        decreases n - i,
    {
        walk_from(table, hidden, kids[i], out, Ghost(f));
        proof {
            let t = kids@.take(i + 1);
            assert(t.drop_last() =~= kids@.take(i as int));
            assert(t.last() == kids@[i as int]);
            assert(out@ =~= base + walk_list(table@, hidden@, t, f));
        }
    }
    out.push(DrawEvent::Leave(e));
    proof {
        assert(kids@.take(n as int) =~= kids@);
        assert(out@ =~= old(out)@ + walk(table@, hidden@, e, fuel));
    }
}

/// The order in which the scene graph under `root` is drawn: `table` gives
/// the children of each node in drawing order, `hidden` the entities whose
/// transform is not visible. A hidden entity is skipped with its subtree.
pub fn draw_order(root: Entity, table: &Vec<ChildList>, hidden: &Vec<Entity>) -> (order: Vec<DrawEvent>)
    requires
        graph_ends(table@, hidden@, root),
    ensures
        order@ == visible_preorder(table@, hidden@, root),
{
    let ghost fuel = choose|fuel: nat| walk_ends(table@, hidden@, root, fuel);
    let mut order: Vec<DrawEvent> = Vec::new();
    walk_from(table, hidden, root, &mut order, Ghost(fuel));
    assert(order@ =~= visible_preorder(table@, hidden@, root));
    order
}

fn walk_bounded(table: &Vec<ChildList>, hidden: &Vec<Entity>, e: Entity, fuel: usize, out: &mut Vec<DrawEvent>) -> (ok: bool)
    ensures
        ok == walk_ends(table@, hidden@, e, fuel as nat),
        ok ==> final(out)@ == old(out)@ + walk(table@, hidden@, e, fuel as nat),
    decreases fuel,
{
    if is_hidden(hidden, e) {
        assert(old(out)@ + walk(table@, hidden@, e, fuel as nat) =~= old(out)@);
        return true;
    }
    if fuel == 0 {
        return false;
    }
    out.push(DrawEvent::Enter(e));
    let empty: Vec<Entity> = Vec::new();
    let kids = match find_entry(table, e) {
        Some(k) => &table[k].1,
        None => &empty,
    };
    let ghost base = out@;
    let ghost f = (fuel - 1) as nat;
    let n = kids.len();
    for i in 0..n
        invariant
            n == kids@.len(),
            kids@ == children_of(table@, e),
            fuel > 0,
            f == (fuel - 1) as nat,
            !hidden@.contains(e),
            walks_end(table@, hidden@, kids@.take(i as int), f),
            out@ == base + walk_list(table@, hidden@, kids@.take(i as int), f),
        decreases n - i,
    {
        let ok = walk_bounded(table, hidden, kids[i], fuel - 1, out);
        if !ok {
            proof {
                if walks_end(table@, hidden@, kids@, f) {
                    lemma_walks_end(table@, hidden@, kids@, f);
                    assert(walk_ends(table@, hidden@, kids@[i as int], f));
                }
            }
            return false;
        }
        proof {
            let t = kids@.take(i + 1);
            assert(t.drop_last() =~= kids@.take(i as int));
            assert(t.last() == kids@[i as int]);
            assert(out@ =~= base + walk_list(table@, hidden@, t, f));
        }
    }
    out.push(DrawEvent::Leave(e));
    proof {
        assert(kids@.take(n as int) =~= kids@);
        assert(out@ =~= old(out)@ + walk(table@, hidden@, e, fuel as nat));
    }
    true
}

/// The drawing order under `root`, found by a walk at most `depth_limit`
/// levels deep; `None` when the walk goes deeper (as it does when the
/// visible part of the graph has a cycle).
pub fn draw_order_within(root: Entity, table: &Vec<ChildList>, hidden: &Vec<Entity>, depth_limit: usize) -> (r: Option<Vec<DrawEvent>>)
    ensures
        match r {
            Some(order) => graph_ends(table@, hidden@, root) && order@ == visible_preorder(table@, hidden@, root),
            None => !walk_ends(table@, hidden@, root, depth_limit as nat),
        },
{
    let mut order: Vec<DrawEvent> = Vec::new();
    if walk_bounded(table, hidden, root, depth_limit, &mut order) {
        proof {
            lemma_walk_bound(table@, hidden@, root, depth_limit as nat);
            assert(order@ =~= walk(table@, hidden@, root, depth_limit as nat));
        }
        Some(order)
    } else {
        None
    }
}

} // verus!
