//! Lookups along the prototype chain: properties, verbs and capability
//! tokens that an entity has of its own or inherits.

use crate::entity::{Capability, CapabilityView, EntityId, Verb, VerbView};
use crate::entity::EntityView;
use crate::storage::{
    chain, find_capability, find_entity, find_verb, first_property, inherited_property,
    lemma_find_entity, lemma_find_entity_at, own_property, WorldStorage, WorldView,
};
use crate::value::SValue;
use vstd::prelude::*;

verus! {

/// The verb `name` as the entities `ids` give it, the first that has it
/// deciding.
pub open spec fn first_verb(world: WorldView, ids: Seq<int>, name: Seq<char>) -> Option<VerbView>
    decreases ids.len(),
{
    if ids.len() == 0 {
        None
    } else {
        match find_verb(world.verbs, ids[0], name) {
            Some(v) => Some(v),
            None => first_verb(world, ids.drop_first(), name),
        }
    }
}

/// The verb `name` of entity `id`, inherited along its prototype chain.
pub open spec fn inherited_verb(world: WorldView, id: int, name: Seq<char>) -> Option<VerbView> {
    first_verb(world, chain(world.entities, id), name)
}

/// The capability of kind `kind` as the entities `ids` give it, the first
/// that holds one deciding.
pub open spec fn first_capability(world: WorldView, ids: Seq<int>, kind: Seq<char>) -> Option<
    CapabilityView,
>
    decreases ids.len(),
{
    if ids.len() == 0 {
        None
    } else {
        match find_capability(world.capabilities, ids[0], kind) {
            Some(c) => Some(c),
            None => first_capability(world, ids.drop_first(), kind),
        }
    }
}

/// The capability of kind `kind` that entity `id` holds or inherits along
/// its prototype chain.
pub open spec fn inherited_capability(world: WorldView, id: int, kind: Seq<char>) -> Option<
    CapabilityView,
> {
    first_capability(world, chain(world.entities, id), kind)
}

/// In a well-formed world, the prototype of an entity is an entity with a
/// smaller id, and the chain of an entity is the entity followed by the
/// chain of its prototype.
pub proof fn lemma_chain_step(world: WorldView, id: int)
    requires
        world.wf(),
        find_entity(world.entities, id) is Some,
    ensures
        id > 0,
        match find_entity(world.entities, id)->0.prototype_id {
            Some(p) => 0 < p < id && find_entity(world.entities, p) is Some && chain(
                world.entities,
                id,
            ) == seq![id] + chain(world.entities, p),
            None => chain(world.entities, id) == seq![id],
        },
{
    lemma_find_entity(world.entities, id);
    let e = find_entity(world.entities, id)->0;
    let i = choose|i: int| 0 <= i < world.entities.len() && world.entities[i] == e;
    assert(0 < world.entities[i].id);
}

/// How a world can differ after scripts have run in it: entities, verbs
/// and capability tokens are never taken away; every entity that was
/// there keeps its place, its id and its prototype; the verbs and the
/// capability tokens are the same; the tasks that were scheduled are
/// still there, with any new ones behind them.
pub open spec fn grown(before: WorldView, after: WorldView) -> bool {
    &&& after.verbs == before.verbs
    &&& after.capabilities == before.capabilities
    &&& after.next_capability_id == before.next_capability_id
    &&& before.entities.len() <= after.entities.len()
    &&& forall|i: int|
        0 <= i < before.entities.len() ==> (#[trigger] after.entities[i]).id == before.entities[i].id
            && after.entities[i].prototype_id == before.entities[i].prototype_id
    &&& before.tasks.len() <= after.tasks.len()
    &&& forall|i: int| 0 <= i < before.tasks.len() ==> (#[trigger] after.tasks[i]) == before.tasks[i]
}

/// An entity of a world is still found after the world has grown, with
/// the prototype that it had.
pub proof fn lemma_grown_finds(before: WorldView, after: WorldView, id: int)
    requires
        before.wf(),
        after.wf(),
        grown(before, after),
        find_entity(before.entities, id) is Some,
    ensures
        find_entity(after.entities, id) is Some,
        find_entity(after.entities, id)->0.id == id,
        find_entity(after.entities, id)->0.prototype_id == find_entity(
            before.entities,
            id,
        )->0.prototype_id,
{
    lemma_find_entity(before.entities, id);
    let e = find_entity(before.entities, id)->0;
    let i = choose|i: int| 0 <= i < before.entities.len() && before.entities[i] == e;
    assert(after.entities[i].id == id);
    lemma_find_entity_at(after.entities, i);
}

/// The prototype chain of an entity stays as it is when the world grows.
pub proof fn lemma_grown_chain(before: WorldView, after: WorldView, id: int)
    requires
        before.wf(),
        after.wf(),
        grown(before, after),
        find_entity(before.entities, id) is Some,
    ensures
        chain(after.entities, id) == chain(before.entities, id),
    decreases id,
{
    lemma_grown_finds(before, after, id);
    lemma_chain_step(before, id);
    lemma_chain_step(after, id);
    match find_entity(before.entities, id)->0.prototype_id {
        Some(p) => {
            lemma_grown_chain(before, after, p);
        },
        None => {},
    }
}

/// Which capability a list of entities gives depends on the capability
/// tokens alone.
pub proof fn lemma_first_capability(a: WorldView, b: WorldView, ids: Seq<int>, kind: Seq<char>)
    requires
        a.capabilities == b.capabilities,
    ensures
        first_capability(a, ids, kind) == first_capability(b, ids, kind),
    decreases ids.len(),
{
    if ids.len() > 0 {
        lemma_first_capability(a, b, ids.drop_first(), kind);
    }
}

/// A capability that an entity holds or inherits is still the one that it
/// holds or inherits after the world has grown.
pub proof fn lemma_grown_capability(before: WorldView, after: WorldView, id: int, kind: Seq<char>)
    requires
        before.wf(),
        after.wf(),
        grown(before, after),
        inherited_capability(before, id, kind) is Some,
    ensures
        inherited_capability(after, id, kind) == inherited_capability(before, id, kind),
{
    lemma_grown_chain(before, after, id);
    lemma_first_capability(before, after, chain(before.entities, id), kind);
}

/// In a world without capability tokens no entity holds or inherits one.
pub proof fn lemma_no_tokens_no_capability(world: WorldView, ids: Seq<int>, kind: Seq<char>)
    requires
        world.capabilities.len() == 0,
    ensures
        first_capability(world, ids, kind) is None,
    decreases ids.len(),
{
    if ids.len() > 0 {
        lemma_no_tokens_no_capability(world, ids.drop_first(), kind);
    }
}

/// Growth upon growth is growth.
pub proof fn lemma_grown_twice(a: WorldView, b: WorldView, c: WorldView)
    requires
        grown(a, b),
        grown(b, c),
    ensures
        grown(a, c),
{
    assert forall|i: int| 0 <= i < a.entities.len() implies (#[trigger] c.entities[i]).id
        == a.entities[i].id && c.entities[i].prototype_id == a.entities[i].prototype_id by {
        assert(b.entities[i].id == a.entities[i].id);
    }
    assert forall|i: int| 0 <= i < a.tasks.len() implies (#[trigger] c.tasks[i]) == a.tasks[i] by {
        assert(b.tasks[i] == a.tasks[i]);
    }
}


/// The property `key` of entity `id`: its own, or that of the nearest
/// prototype that has one.
pub fn resolve_property<'a>(world: &'a WorldStorage, id: EntityId, key: &str) -> (r: Option<
    &'a SValue,
>)
    requires
        world.wf(),
    ensures
        match r {
            Some(v) => inherited_property(world@.entities, id as int, key@) == Some(v@),
            None => inherited_property(world@.entities, id as int, key@) is None,
        },
{
    let mut current = id;
    loop
        invariant
            world.wf(),
            inherited_property(world@.entities, id as int, key@) == inherited_property(
                world@.entities,
                current as int,
                key@,
            ),
        decreases current,
    {
        match world.get_entity(current) {
            None => {
                return None;
            },
            Some(entity) => {
                proof {
                    lemma_chain_step(world@, current as int);
                    let ids = chain(world@.entities, current as int);
                    assert(ids[0] == current);
                    if let Some(p) = entity.prototype_id {
                        assert(ids.drop_first() =~= chain(world@.entities, p as int));
                    } else {
                        assert(ids.drop_first() =~= Seq::empty());
                        assert(first_property(world@.entities, Seq::empty(), key@) is None);
                    }
                }
                match entity.props.get(key) {
                    Some(v) => {
                        return Some(v);
                    },
                    None => match entity.prototype_id {
                        Some(p) => {
                            current = p;
                        },
                        None => {
                            return None;
                        },
                    },
                }
            },
        }
    }
}

/// The verb `name` of entity `id`: its own, or that of the nearest
/// prototype that has one.
pub fn resolve_verb<'a>(world: &'a WorldStorage, id: EntityId, name: &str) -> (r: Option<&'a Verb>)
    requires
        world.wf(),
    ensures
        match r {
            Some(v) => inherited_verb(world@, id as int, name@) == Some(v@),
            None => inherited_verb(world@, id as int, name@) is None,
        },
{
    let mut current = id;
    loop
        invariant
            world.wf(),
            inherited_verb(world@, id as int, name@) == inherited_verb(
                world@,
                current as int,
                name@,
            ),
        decreases current,
    {
        match world.get_entity(current) {
            None => {
                return None;
            },
            Some(entity) => {
                proof {
                    lemma_chain_step(world@, current as int);
                    let ids = chain(world@.entities, current as int);
                    assert(ids[0] == current);
                    if let Some(p) = entity.prototype_id {
                        assert(ids.drop_first() =~= chain(world@.entities, p as int));
                    } else {
                        assert(ids.drop_first() =~= Seq::empty());
                        assert(first_verb(world@, Seq::empty(), name@) is None);
                    }
                }
                match world.get_verb(current, name) {
                    Some(v) => {
                        return Some(v);
                    },
                    None => match entity.prototype_id {
                        Some(p) => {
                            current = p;
                        },
                        None => {
                            return None;
                        },
                    },
                }
            },
        }
    }
}

/// The capability of kind `kind` of entity `id`: its own, or that of the
/// nearest prototype that holds one.
pub fn resolve_capability<'a>(world: &'a WorldStorage, id: EntityId, kind: &str) -> (r: Option<
    &'a Capability,
>)
    requires
        world.wf(),
    ensures
        match r {
            Some(c) => inherited_capability(world@, id as int, kind@) == Some(c@),
            None => inherited_capability(world@, id as int, kind@) is None,
        },
{
    let mut current = id;
    loop
        invariant
            world.wf(),
            inherited_capability(world@, id as int, kind@) == inherited_capability(
                world@,
                current as int,
                kind@,
            ),
        decreases current,
    {
        match world.get_entity(current) {
            None => {
                return None;
            },
            Some(entity) => {
                proof {
                    lemma_chain_step(world@, current as int);
                    let ids = chain(world@.entities, current as int);
                    assert(ids[0] == current);
                    if let Some(p) = entity.prototype_id {
                        assert(ids.drop_first() =~= chain(world@.entities, p as int));
                    } else {
                        assert(ids.drop_first() =~= Seq::empty());
                        assert(first_capability(world@, Seq::empty(), kind@) is None);
                    }
                }
                match world.get_capability(current, kind) {
                    Some(c) => {
                        return Some(c);
                    },
                    None => match entity.prototype_id {
                        Some(p) => {
                            current = p;
                        },
                        None => {
                            return None;
                        },
                    },
                }
            },
        }
    }
}

/// Reading a property along a prototype chain gives the value that the
/// first entity of the chain with that property has for it, and nothing
/// where no entity of the chain has the property.
pub proof fn lemma_property_comes_from_nearest(
    entities: Seq<EntityView>,
    ids: Seq<int>,
    key: Seq<char>,
)
    ensures
        match first_property(entities, ids, key) {
            Some(v) => exists|k: int|
                0 <= k < ids.len() && own_property(entities, #[trigger] ids[k], key) == Some(v)
                    && forall|j: int| 0 <= j < k ==> own_property(entities, #[trigger] ids[j], key) is None,
            None => forall|j: int|
                0 <= j < ids.len() ==> own_property(entities, #[trigger] ids[j], key) is None,
        },
    decreases ids.len(),
{
    if ids.len() > 0 {
        let rest = ids.drop_first();
        match own_property(entities, ids[0], key) {
            Some(v) => {
                assert(own_property(entities, ids[0], key) == Some(v));
            },
            None => {
                lemma_property_comes_from_nearest(entities, rest, key);
                match first_property(entities, rest, key) {
                    Some(v) => {
                        let k = choose|k: int|
                            0 <= k < rest.len() && own_property(entities, #[trigger] rest[k], key)
                                == Some(v) && forall|j: int|
                                0 <= j < k ==> own_property(entities, #[trigger] rest[j], key) is None;
                        assert(ids[k + 1] == rest[k]);
                        assert forall|j: int| 0 <= j < k + 1 implies own_property(
                            entities,
                            #[trigger] ids[j],
                            key,
                        ) is None by {
                            if j > 0 {
                                assert(ids[j] == rest[j - 1]);
                            }
                        }
                    },
                    None => {
                        assert forall|j: int| 0 <= j < ids.len() implies own_property(
                            entities,
                            #[trigger] ids[j],
                            key,
                        ) is None by {
                            if j > 0 {
                                assert(ids[j] == rest[j - 1]);
                            }
                        }
                    },
                }
            },
        }
    }
}

} // verus!
