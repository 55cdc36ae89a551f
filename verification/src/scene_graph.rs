use vstd::prelude::*;
use crate::components::node::Entity;

verus! {

/// A parent link: an entity that has a node, and that node's parent.
pub type ParentLink = (Entity, Option<Entity>);

/// The position, from `from` on, of the first link of `e`.
pub open spec fn link_index(links: Seq<ParentLink>, e: Entity, from: int) -> Option<int>
    decreases links.len() - from,
{
    if from < 0 || from >= links.len() {
        None
    } else if links[from].0 == e {
        Some(from)
    } else {
        link_index(links, e, from + 1)
    }
}

/// The parent of `e`: none when `e` has no node or its node has no parent.
pub open spec fn parent_of(links: Seq<ParentLink>, e: Entity) -> Option<Entity> {
    match link_index(links, e, 0) {
        Some(i) => links[i].1,
        None => None,
    }
}

/// Walking up from `e` reaches an entity without parent in at most `fuel` steps.
pub open spec fn walk_ends(links: Seq<ParentLink>, e: Entity, fuel: nat) -> bool
    decreases fuel,
{
    match parent_of(links, e) {
        None => true,
        Some(p) => fuel > 0 && walk_ends(links, p, (fuel - 1) as nat),
    }
}

/// `e` followed by its parent, its parent's parent and so on, for at most
/// `fuel` steps up.
pub open spec fn ancestors(links: Seq<ParentLink>, e: Entity, fuel: nat) -> Seq<Entity>
    decreases fuel,
{
    match parent_of(links, e) {
        Some(p) => if fuel > 0 {
            seq![e] + ancestors(links, p, (fuel - 1) as nat)
        } else {
            seq![e]
        },
        None => seq![e],
    }
}

fn find_parent(links: &Vec<ParentLink>, e: Entity) -> (r: Option<Entity>)
    ensures
        r == parent_of(links@, e),
{
    let n = links.len();
    for i in 0..n
        invariant
            n == links@.len(),
            link_index(links@, e, 0) == link_index(links@, e, i as int),
    {
        if links[i].0 == e {
            return links[i].1;
        }
    }
    None
}

/// Whether walking up the parent links from `entity` ends (it does not when
/// the links from it run into a cycle).
pub fn ancestry_ends(entity: Entity, links: &Vec<ParentLink>) -> (r: bool)
    ensures
        r == walk_ends(links@, entity, links@.len()),
{
    let mut next = entity;
    let mut fuel: usize = links.len();
    loop
        invariant
            walk_ends(links@, next, fuel as nat) == walk_ends(links@, entity, links@.len()),
        decreases fuel,
    {
        match find_parent(links, next) {
            None => {
                return true;
            },
            Some(p) => {
                if fuel == 0 {
                    return false;
                }
                fuel = fuel - 1;
                next = p;
            },
        }
    }
}

/// The entities whose positions add up to the absolute position of
/// `entity`: the entity itself, then its ancestors up to the first one
/// without parent. `links` holds the parent link of every entity with a node.
/// Walking up must end (the parent links hold no cycle on the way).
pub fn ancestry(entity: Entity, links: &Vec<ParentLink>) -> (chain: Vec<Entity>)
    requires
        walk_ends(links@, entity, links@.len()),
    ensures
        chain@ == ancestors(links@, entity, links@.len()),
{
    let mut chain: Vec<Entity> = Vec::new();
    let mut next = entity;
    let ghost mut fuel: nat = links@.len();
    loop
        invariant
            walk_ends(links@, next, fuel),
            chain@ + ancestors(links@, next, fuel) == ancestors(links@, entity, links@.len()),
        decreases fuel,
    {
        chain.push(next);
        match find_parent(links, next) {
            Some(p) => {
                proof {
                    assert(chain@ + ancestors(links@, p, (fuel - 1) as nat) =~= ancestors(
                        links@,
                        entity,
                        links@.len(),
                    ));
                    fuel = (fuel - 1) as nat;
                }
                next = p;
            },
            None => {
                assert(chain@ =~= ancestors(links@, entity, links@.len()));
                return chain;
            },
        }
    }
}

/// The chain starts at the entity, each entity in it is followed by its
/// parent, and it ends at an entity without parent.
pub proof fn lemma_ancestry_links(links: Seq<ParentLink>, e: Entity, fuel: nat)
    requires
        walk_ends(links, e, fuel),
    ensures
        ancestors(links, e, fuel).len() >= 1,
        ancestors(links, e, fuel)[0] == e,
        forall|i: int|
            0 <= i < ancestors(links, e, fuel).len() - 1 ==> parent_of(links, #[trigger] ancestors(links, e, fuel)[i])
                == Some(ancestors(links, e, fuel)[i + 1]),
        parent_of(links, ancestors(links, e, fuel).last()) is None,
    decreases fuel,
{
    match parent_of(links, e) {
        Some(p) => {
            lemma_ancestry_links(links, p, (fuel - 1) as nat);
            let rest = ancestors(links, p, (fuel - 1) as nat);
            let all = seq![e] + rest;
            assert forall|i: int| 0 <= i < all.len() - 1 implies parent_of(links, #[trigger] all[i]) == Some(all[i + 1]) by {
                if i > 0 {
                    assert(all[i] == rest[i - 1]);
                    assert(all[i + 1] == rest[i]);
                }
            }
            assert(all.last() == rest.last());
        },
        None => {},
    }
}

} // verus!
