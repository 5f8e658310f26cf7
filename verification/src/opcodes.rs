//! The opcodes that reach into the world: `entity`, `create`, `update`, and
//! what `call` needs to find its target.

use crate::assoc::{
    lemma_last_index, lemma_last_index_is, lemma_with_entry, lookup, view_keys, with_entry,
};
use crate::entity::{Entity, EntityId, EntityView, TaskView};
use crate::error::ExecutionError;
use crate::number::{integer_of_bits, Number};
use crate::prototype::{grown, lemma_chain_step};
use crate::storage::{
    chain, entity_position, find_entity, first_property, inherited_property,
    lemma_entity_position_at, lemma_find_entity, StorageError, WorldStorage, WorldView,
};
use crate::value::{is_data, lemma_pairs_view, pairs_view, set_entry, SValue, SValueView};
use vstd::prelude::*;

verus! {

/// `base` with each pair of `patch` bound in turn.
pub open spec fn merge_entries(
    base: Seq<(Seq<char>, SValueView)>,
    patch: Seq<(Seq<char>, SValueView)>,
) -> Seq<(Seq<char>, SValueView)>
    decreases patch.len(),
{
    if patch.len() == 0 {
        base
    } else {
        with_entry(merge_entries(base, patch.drop_last()), patch.last().0, patch.last().1)
    }
}

/// The pairs of an object; none for any other value.
pub open spec fn object_entries(v: SValueView) -> Seq<(Seq<char>, SValueView)> {
    match v {
        SValueView::Object(pairs) => pairs,
        _ => Seq::empty(),
    }
}

/// The properties `current` with the patch merged in: each key of the
/// patch takes the patch's value, whole; other keys stay.
pub open spec fn merged_props(current: SValueView, patch: SValueView) -> SValueView {
    SValueView::Object(merge_entries(object_entries(current), object_entries(patch)))
}

/// One change that a script can make to the world: to create an entity,
/// to merge a patch into the properties of one, or to schedule a task.
pub ghost enum Change {
    Create { props: SValueView, prototype_id: Option<int> },
    Update { id: int, patch: SValueView },
    Schedule { entity_id: int, verb: Seq<char>, args: SValueView, execute_at_ms: int },
}

/// The world after one change. A created entity takes the next id and
/// the last place; an update leaves everything but the properties of its
/// entity as it was, and the world too where there is no such entity; a
/// scheduled task takes the next id and the last place.
pub open spec fn changed(world: WorldView, change: Change) -> WorldView {
    match change {
        Change::Create { props, prototype_id } => WorldView {
            entities: world.entities.push(
                EntityView { id: world.next_entity_id, prototype_id, props },
            ),
            next_entity_id: world.next_entity_id + 1,
            ..world
        },
        Change::Update { id, patch } => match find_entity(world.entities, id) {
            Some(before) => WorldView {
                entities: world.entities.update(
                    entity_position(world.entities, id),
                    EntityView { props: merged_props(before.props, patch), ..before },
                ),
                ..world
            },
            None => world,
        },
        Change::Schedule { entity_id, verb, args, execute_at_ms } => WorldView {
            tasks: world.tasks.push(
                TaskView { id: world.next_task_id, entity_id, verb, args, execute_at_ms },
            ),
            next_task_id: world.next_task_id + 1,
            ..world
        },
    }
}

/// The world after a list of changes, made in order.
pub open spec fn replayed(world: WorldView, changes: Seq<Change>) -> WorldView
    decreases changes.len(),
{
    if changes.len() == 0 {
        world
    } else {
        changed(replayed(world, changes.drop_last()), changes.last())
    }
}

/// Whether `after` is `before` but for changes that a script can make:
/// entities created, properties updated, tasks scheduled.
pub open spec fn reached(before: WorldView, after: WorldView) -> bool {
    exists|changes: Seq<Change>| after == #[trigger] replayed(before, changes)
}

/// Changes made one list after another are the changes of the two lists
/// joined.
pub proof fn lemma_replayed_joined(world: WorldView, first: Seq<Change>, second: Seq<Change>)
    ensures
        replayed(world, first + second) == replayed(replayed(world, first), second),
    decreases second.len(),
{
    if second.len() == 0 {
        assert(first + second =~= first);
    } else {
        lemma_replayed_joined(world, first, second.drop_last());
        assert((first + second).drop_last() =~= first + second.drop_last());
        assert((first + second).last() == second.last());
    }
}

/// A world is reached from itself.
pub proof fn lemma_reached_same(world: WorldView)
    ensures
        reached(world, world),
{
    assert(world == replayed(world, Seq::<Change>::empty()));
}

/// One change reaches the world that it makes.
pub proof fn lemma_reached_by(world: WorldView, change: Change)
    ensures
        reached(world, changed(world, change)),
{
    let changes = seq![change];
    assert(changes.drop_last() =~= Seq::<Change>::empty());
    assert(changes.last() == change);
    assert(replayed(world, changes.drop_last()) == world);
    assert(changed(world, change) == replayed(world, changes));
}

/// What is reached from a world that was reached is reached.
pub proof fn lemma_reached_on(a: WorldView, b: WorldView, c: WorldView)
    requires
        reached(a, b),
        reached(b, c),
    ensures
        reached(a, c),
{
    let first = choose|changes: Seq<Change>| b == #[trigger] replayed(a, changes);
    let second = choose|changes: Seq<Change>| c == #[trigger] replayed(b, changes);
    lemma_replayed_joined(a, first, second);
    assert(c == replayed(a, first + second));
}

/// The two pairs that say who an entity is: `id` and `prototype_id`
/// (null where there is none).
pub open spec fn identity_entries(e: EntityView) -> Seq<(Seq<char>, SValueView)> {
    seq![
        ("id"@, SValueView::Number(Number::Int(e.id as i64))),
        (
            "prototype_id"@,
            match e.prototype_id {
                Some(p) => SValueView::Number(Number::Int(p as i64)),
                None => SValueView::Null,
            },
        ),
    ]
}

/// The pairs `props` under the identity of `e`: `id` and `prototype_id`
/// come first and are the entity's own, whatever `props` binds to those
/// two names; every other pair of `props` follows.
pub open spec fn with_identity(e: EntityView, props: Seq<(Seq<char>, SValueView)>) -> Seq<
    (Seq<char>, SValueView),
> {
    merge_entries(merge_entries(identity_entries(e), props), identity_entries(e))
}

/// The entity by itself as one object: its `id`, its `prototype_id` and
/// its own properties. A property named `id` or `prototype_id` does not
/// show: the entity's own identity stands in its place.
pub open spec fn flattened(e: EntityView) -> SValueView {
    SValueView::Object(with_identity(e, object_entries(e.props)))
}

/// The properties that the entities `ids` give, the first deciding: the
/// properties of the last, with those of each earlier entity merged in
/// turn on top.
pub open spec fn chain_entries(entities: Seq<EntityView>, ids: Seq<int>) -> Seq<
    (Seq<char>, SValueView),
>
    decreases ids.len(),
{
    if ids.len() == 0 {
        Seq::empty()
    } else {
        merge_entries(
            chain_entries(entities, ids.drop_first()),
            match find_entity(entities, ids[0]) {
                Some(e) => object_entries(e.props),
                None => Seq::empty(),
            },
        )
    }
}

/// The entity `e` of `world` as scripts see it: one object that holds
/// its `id`, its `prototype_id`, and the properties that the entity has
/// or inherits along its prototype chain. A property named `id` or
/// `prototype_id`, its own or inherited, does not show.
pub open spec fn resolved(world: WorldView, e: EntityView) -> SValueView {
    SValueView::Object(
        with_identity(e, chain_entries(world.entities, chain(world.entities, e.id))),
    )
}

/// What the identity pairs bind: `id` to the entity's id, `prototype_id`
/// to its prototype's id or null, and no other key.
pub open spec fn identity_of(e: EntityView, key: Seq<char>) -> Option<SValueView> {
    if key == "id"@ {
        Some(SValueView::Number(Number::Int(e.id as i64)))
    } else if key == "prototype_id"@ {
        Some(
            match e.prototype_id {
                Some(p) => SValueView::Number(Number::Int(p as i64)),
                None => SValueView::Null,
            },
        )
    } else {
        None
    }
}

/// Looking a key up among the identity pairs gives `identity_of`.
pub proof fn lemma_identity_entries(e: EntityView, key: Seq<char>)
    ensures
        lookup(identity_entries(e), key) == identity_of(e, key),
{
    reveal_strlit("id");
    reveal_strlit("prototype_id");
    assert("id"@.len() == 2 && "prototype_id"@.len() == 12);
    let keys = view_keys(identity_entries(e));
    assert(keys =~= seq!["id"@, "prototype_id"@]);
    if key == "id"@ {
        lemma_last_index_is(keys, key, 0);
    } else if key == "prototype_id"@ {
        lemma_last_index_is(keys, key, 1);
    } else {
        lemma_last_index_is(keys, key, -1);
    }
}

/// Under an identity, `id` and `prototype_id` read as the entity's own
/// and every other key reads as the pairs bind it.
pub proof fn lemma_with_identity(e: EntityView, props: Seq<(Seq<char>, SValueView)>, key: Seq<char>)
    ensures
        lookup(with_identity(e, props), key) == (match identity_of(e, key) {
            Some(v) => Some(v),
            None => lookup(props, key),
        }),
{
    lemma_identity_entries(e, key);
    lemma_merge_lookup(identity_entries(e), props, key);
    lemma_merge_lookup(merge_entries(identity_entries(e), props), identity_entries(e), key);
}

/// An entity by itself shows its own id and prototype, whatever its
/// properties say, and each other property as it is stored.
pub proof fn lemma_flattened_reads(e: EntityView, key: Seq<char>)
    ensures
        flattened(e).field(key) == (match identity_of(e, key) {
            Some(v) => Some(v),
            None => e.props.field(key),
        }),
{
    lemma_with_identity(e, object_entries(e.props), key);
    lemma_field_of_entries(e.props, key);
}

/// Among the properties that a chain gives, a key has the value that the
/// first entity of the chain with that key has for it.
pub proof fn lemma_chain_entries(entities: Seq<EntityView>, ids: Seq<int>, key: Seq<char>)
    ensures
        lookup(chain_entries(entities, ids), key) == first_property(entities, ids, key),
    decreases ids.len(),
{
    if ids.len() > 0 {
        let own = match find_entity(entities, ids[0]) {
            Some(e) => object_entries(e.props),
            None => Seq::empty(),
        };
        lemma_chain_entries(entities, ids.drop_first(), key);
        lemma_merge_lookup(chain_entries(entities, ids.drop_first()), own, key);
        match find_entity(entities, ids[0]) {
            Some(e) => {
                lemma_field_of_entries(e.props, key);
            },
            None => {
                assert(view_keys(own) =~= Seq::empty());
            },
        }
    } else {
        assert(view_keys(chain_entries(entities, ids)) =~= Seq::empty());
    }
}

/// Reading `id` or `prototype_id` from an entity as scripts see it gives
/// the entity's own identity; reading any other key gives the value that
/// the entity has or inherits for it.
pub proof fn lemma_resolved_reads_inherited(world: WorldView, e: EntityView, key: Seq<char>)
    ensures
        resolved(world, e).field(key) == (match identity_of(e, key) {
            Some(v) => Some(v),
            None => inherited_property(world.entities, e.id, key),
        }),
{
    let props = chain_entries(world.entities, chain(world.entities, e.id));
    lemma_chain_entries(world.entities, chain(world.entities, e.id), key);
    lemma_with_identity(e, props, key);
}

/// The entity id that a value denotes: an integer, or a double that is one.
pub open spec fn entity_id_of(v: SValueView) -> Option<i64> {
    match v {
        SValueView::Number(Number::Int(n)) => Some(n),
        SValueView::Number(Number::Float(bits)) => match integer_of_bits(bits) {
            Some(n) => Some(n as i64),
            None => None,
        },
        _ => None,
    }
}

/// After a merge, a key of the patch has the patch's value and any other
/// key has the value that it had.
pub proof fn lemma_merge_lookup(
    base: Seq<(Seq<char>, SValueView)>,
    patch: Seq<(Seq<char>, SValueView)>,
    key: Seq<char>,
)
    ensures
        lookup(merge_entries(base, patch), key) == (match lookup(patch, key) {
            Some(v) => Some(v),
            None => lookup(base, key),
        }),
    decreases patch.len(),
{
    if patch.len() > 0 {
        let rest = patch.drop_last();
        let last = patch.last();
        lemma_merge_lookup(base, rest, key);
        lemma_with_entry(merge_entries(base, rest), last.0, last.1, key);
        assert(view_keys(patch).drop_last() =~= view_keys(rest));
        assert(view_keys(patch).last() == last.0);
        lemma_last_index(view_keys(patch), key);
        lemma_last_index(view_keys(rest), key);
    } else {
        assert(view_keys(patch) =~= Seq::empty());
    }
}

/// Two successive updates whose patches share no key leave each key of
/// either patch with that patch's value, and every other key as it was.
pub proof fn lemma_disjoint_updates_merge(
    props: SValueView,
    first: SValueView,
    second: SValueView,
    key: Seq<char>,
)
    requires
        forall|k: Seq<char>| !(first.field(k) is Some && second.field(k) is Some),
    ensures
        merged_props(merged_props(props, first), second).field(key) == (if first.field(key) is Some {
            first.field(key)
        } else if second.field(key) is Some {
            second.field(key)
        } else {
            props.field(key)
        }),
        merged_props(merged_props(props, first), second).field(key) == merged_props(
            merged_props(props, second),
            first,
        ).field(key),
{
    lemma_merge_lookup(object_entries(props), object_entries(first), key);
    lemma_merge_lookup(object_entries(props), object_entries(second), key);
    lemma_merge_lookup(object_entries(merged_props(props, first)), object_entries(second), key);
    lemma_merge_lookup(object_entries(merged_props(props, second)), object_entries(first), key);
    lemma_field_of_entries(props, key);
    lemma_field_of_entries(first, key);
    lemma_field_of_entries(second, key);
}

/// After an update, the properties hold the patch: each key of the patch
/// has the patch's value.
pub proof fn lemma_update_holds_patch(props: SValueView, patch: SValueView, key: Seq<char>)
    requires
        patch.field(key) is Some,
    ensures
        merged_props(props, patch).field(key) == patch.field(key),
{
    lemma_merge_lookup(object_entries(props), object_entries(patch), key);
    lemma_field_of_entries(patch, key);
}

/// An update leaves every key that the patch does not name as it was.
pub proof fn lemma_update_keeps_the_rest(props: SValueView, patch: SValueView, key: Seq<char>)
    requires
        patch.field(key) is None,
    ensures
        merged_props(props, patch).field(key) == props.field(key),
{
    lemma_merge_lookup(object_entries(props), object_entries(patch), key);
    lemma_field_of_entries(patch, key);
    lemma_field_of_entries(props, key);
}

/// The field of a value is the lookup among its object entries.
pub proof fn lemma_field_of_entries(v: SValueView, key: Seq<char>)
    ensures
        v.field(key) == lookup(object_entries(v), key),
{
    if !(v is Object) {
        assert(view_keys(object_entries(v)) =~= Seq::empty());
    }
}

/// Binds each pair of `patch` in `target`, in order.
pub fn merge_into(target: &mut Vec<(String, SValue)>, patch: &Vec<(String, SValue)>)
    ensures
        pairs_view(final(target)@) == merge_entries(pairs_view(old(target)@), pairs_view(patch@)),
{
    let ghost base = pairs_view(target@);
    let ghost all = pairs_view(patch@);
    proof {
        lemma_pairs_view(patch@);
        assert(all.take(0) =~= Seq::empty());
    }
    let mut i: usize = 0;
    while i < patch.len()
        invariant
            i <= patch.len(),
            all == pairs_view(patch@),
            all.len() == patch.len(),
            forall|j: int| 0 <= j < patch.len() ==> (#[trigger] all[j]) == (patch@[j].0@, patch@[j].1@),
            pairs_view(target@) == merge_entries(base, all.take(i as int)),
        decreases patch.len() - i,
    {
        proof {
            assert(all.take(i + 1).drop_last() =~= all.take(i as int));
            assert(all.take(i + 1).last() == all[i as int]);
        }
        set_entry(target, patch[i].0.as_str(), patch[i].1.clone());
        i += 1;
    }
    proof {
        assert(all.take(i as int) =~= all);
    }
}

/// The two pairs that say who `entity` is.
pub fn identity_pairs(entity: &Entity) -> (r: Vec<(String, SValue)>)
    ensures
        pairs_view(r@) == identity_entries(entity@),
{
    let mut pairs: Vec<(String, SValue)> = Vec::new();
    pairs.push(("id".to_owned(), SValue::Number(Number::Int(entity.id))));
    let prototype = match entity.prototype_id {
        Some(p) => SValue::Number(Number::Int(p)),
        None => SValue::Null,
    };
    pairs.push(("prototype_id".to_owned(), prototype));
    proof {
        lemma_pairs_view(pairs@);
        assert(pairs_view(pairs@) =~= identity_entries(entity@));
    }
    pairs
}

/// The entity by itself as one object, without what it inherits; `id` and
/// `prototype_id` are the entity's own even where its properties bind
/// those names.
pub fn flatten_entity(entity: &Entity) -> (r: SValue)
    ensures
        r@ == flattened(entity@),
        r@.field("id"@) == Some(SValueView::Number(Number::Int(entity.id))),
        forall|key: Seq<char>|
            key != "id"@ && key != "prototype_id"@ ==> r@.field(key) == entity@.props.field(
                key,
            ),
{
    let identity = identity_pairs(entity);
    let mut pairs = identity_pairs(entity);
    let ghost base = identity_entries(entity@);
    match &entity.props {
        SValue::Object(props) => {
            assert(object_entries(entity@.props) == pairs_view(props@));
            merge_into(&mut pairs, props);
        },
        _ => {
            assert(object_entries(entity@.props) =~= Seq::empty());
            assert(merge_entries(base, object_entries(entity@.props)) == base);
        },
    }
    merge_into(&mut pairs, &identity);
    proof {
        lemma_flattened_reads(entity@, "id"@);
        assert forall|key: Seq<char>| key != "id"@ && key != "prototype_id"@ implies flattened(
            entity@,
        ).field(key) == entity@.props.field(key) by {
            lemma_flattened_reads(entity@, key);
        }
    }
    SValue::Object(pairs)
}

/// The entity id that `v` denotes.
pub fn to_entity_id(v: &SValue) -> (r: Option<EntityId>)
    ensures
        r == entity_id_of(v@),
{
    match v {
        SValue::Number(Number::Int(n)) => Some(*n),
        SValue::Number(Number::Float(bits)) => match Number::from_bits(*bits) {
            Number::Int(n) => Some(n),
            Number::Float(_) => None,
        },
        _ => None,
    }
}

/// The entity `id` as scripts see it, with the properties that it
/// inherits.
pub fn resolve_entity(world: &WorldStorage, id: EntityId) -> (r: Option<SValue>)
    requires
        world.wf(),
    ensures
        match r {
            Some(v) => find_entity(world@.entities, id as int) matches Some(e) && v@ == resolved(
                world@,
                e,
            ) && v@.field("id"@) == Some(SValueView::Number(Number::Int(id))),
            None => find_entity(world@.entities, id as int) is None,
        },
{
    let entity = match world.get_entity(id) {
        Some(entity) => entity,
        None => {
            return None;
        },
    };
    let ghost entities = world@.entities;
    let ghost whole = chain(entities, id as int);
    let mut ids: Vec<EntityId> = Vec::new();
    let mut next: Option<EntityId> = Some(id);
    proof {
        assert(Seq::<int>::empty() + whole =~= whole);
    }
    while next.is_some()
        invariant
            world.wf(),
            entities == world@.entities,
            whole == chain(entities, id as int),
            next matches Some(c) ==> find_entity(entities, c as int) is Some,
            whole == Seq::new(ids@.len(), |i: int| ids@[i] as int) + (match next {
                Some(c) => chain(entities, c as int),
                None => Seq::empty(),
            }),
        decreases
                (match next {
                    Some(c) => c as int,
                    None => 0,
                }),
    {
        let current = next.unwrap();
        proof {
            lemma_chain_step(world@, current as int);
        }
        let ghost before = Seq::new(ids@.len(), |i: int| ids@[i] as int);
        ids.push(current);
        next = match world.get_entity(current) {
            Some(e) => e.prototype_id,
            None => None,
        };
        proof {
            let after = Seq::new(ids@.len(), |i: int| ids@[i] as int);
            assert(after =~= before.push(current as int));
            match next {
                Some(p) => {
                    assert(after + chain(entities, p as int) =~= before + (seq![current as int]
                        + chain(entities, p as int)));
                },
                None => {
                    assert(after + Seq::<int>::empty() =~= before + seq![current as int]);
                },
            }
        }
    }
    let ghost numbers = Seq::new(ids@.len(), |i: int| ids@[i] as int);
    proof {
        assert(numbers + Seq::<int>::empty() =~= numbers);
        assert(numbers.skip(numbers.len() as int) =~= Seq::empty());
    }
    let mut props: Vec<(String, SValue)> = Vec::new();
    proof {
        lemma_pairs_view(props@);
        assert(pairs_view(props@) =~= Seq::empty());
    }
    let mut k: usize = ids.len();
    while k > 0
        invariant
            world.wf(),
            k <= ids.len(),
            entities == world@.entities,
            numbers == Seq::new(ids@.len(), |i: int| ids@[i] as int),
            pairs_view(props@) == chain_entries(entities, numbers.skip(k as int)),
        decreases k,
    {
        k -= 1;
        proof {
            assert(numbers.skip(k as int)[0] == ids@[k as int]);
            assert(numbers.skip(k as int).drop_first() =~= numbers.skip(k + 1));
        }
        match world.get_entity(ids[k]) {
            Some(e) => match &e.props {
                SValue::Object(own) => {
                    merge_into(&mut props, own);
                },
                _ => {},
            },
            None => {},
        }
    }
    proof {
        assert(numbers.skip(0) =~= numbers);
    }
    let identity = identity_pairs(entity);
    let mut pairs = identity_pairs(entity);
    merge_into(&mut pairs, &props);
    merge_into(&mut pairs, &identity);
    proof {
        lemma_resolved_reads_inherited(world@, entity@, "id"@);
    }
    Some(SValue::Object(pairs))
}

/// `entity(id)`: the entity `id` as scripts see it.
pub fn opcode_entity(world: &WorldStorage, id: EntityId) -> (r: Result<SValue, ExecutionError>)
    requires
        world.wf(),
    ensures
        match r {
            Ok(v) => find_entity(world@.entities, id as int) matches Some(e) && v@ == resolved(
                world@,
                e,
            ) && v@.field("id"@) == Some(SValueView::Number(Number::Int(id))),
            Err(e) => find_entity(world@.entities, id as int) is None && e
                == ExecutionError::EntityNotFound(id),
        },
{
    match resolve_entity(world, id) {
        Some(v) => Ok(v),
        None => Err(ExecutionError::EntityNotFound(id)),
    }
}

/// `create(props, prototype_id?)`: creates an entity with the given
/// properties, which must be plain data, and returns its id.
pub fn opcode_create(world: &mut WorldStorage, props: SValue, prototype_id: Option<EntityId>) -> (r:
    Result<EntityId, ExecutionError>)
    requires
        old(world).wf(),
    ensures
        final(world).wf(),
        grown(old(world)@, final(world)@),
        reached(old(world)@, final(world)@),
        r is Ok <==> is_data(props@) && (prototype_id matches Some(p) ==> old(world)@.contains(
            p as int,
        )) && old(world)@.next_entity_id < i64::MAX,
        match r {
            Ok(id) => {
                &&& id == old(world)@.next_entity_id
                &&& final(world)@ == changed(
                    old(world)@,
                    Change::Create {
                        props: props@,
                        prototype_id: match prototype_id {
                            Some(p) => Some(p as int),
                            None => None,
                        },
                    },
                )
                &&& final(world)@ == (WorldView {
                    entities: old(world)@.entities.push(
                        EntityView {
                            id: id as int,
                            prototype_id: match prototype_id {
                                Some(p) => Some(p as int),
                                None => None,
                            },
                            props: props@,
                        },
                    ),
                    next_entity_id: id + 1,
                    ..old(world)@
                })
            },
            Err(e) => {
                &&& final(world)@ == old(world)@
                &&& if !is_data(props@) {
                    e is TypeError
                } else {
                    match prototype_id {
                        Some(p) if !old(world)@.contains(p as int) => e
                            == ExecutionError::EntityNotFound(p),
                        _ => e == ExecutionError::Storage(StorageError::IdsExhausted),
                    }
                }
            },
        },
{
    proof {
        lemma_reached_same(world@);
    }
    if !props.is_data() {
        return Err(ExecutionError::TypeError("create: properties must be data".to_owned()));
    }
    proof {
        lemma_reached_by(
            world@,
            Change::Create {
                props: props@,
                prototype_id: match prototype_id {
                    Some(p) => Some(p as int),
                    None => None,
                },
            },
        );
    }
    match world.create_entity(props, prototype_id) {
        Ok(id) => Ok(id),
        Err(StorageError::EntityNotFound(p)) => Err(ExecutionError::EntityNotFound(p)),
        Err(e) => Err(ExecutionError::Storage(e)),
    }
}

/// `update(id, patch)`: merges the object `patch`, which must be plain
/// data, into the stored properties of the entity `id`, key by key at the
/// top level.
pub fn opcode_update(world: &mut WorldStorage, id: EntityId, patch: &SValue) -> (r: Result<
    (),
    ExecutionError,
>)
    requires
        old(world).wf(),
    ensures
        final(world).wf(),
        grown(old(world)@, final(world)@),
        reached(old(world)@, final(world)@),
        r is Ok <==> patch@ is Object && is_data(patch@) && old(world)@.contains(id as int),
        match r {
            Ok(()) => {
                &&& final(world)@ == changed(
                    old(world)@,
                    Change::Update { id: id as int, patch: patch@ },
                )
                &&& find_entity(old(world)@.entities, id as int) matches Some(before)
                &&& find_entity(final(world)@.entities, id as int) == Some(
                    EntityView { props: merged_props(before.props, patch@), ..before },
                )
                &&& forall|other: int|
                    other != id ==> find_entity(final(world)@.entities, other) == find_entity(
                        old(world)@.entities,
                        other,
                    )
                &&& final(world)@ == (WorldView { entities: final(world)@.entities, ..old(world)@ })
                &&& final(world)@.entities == old(world)@.entities.update(
                    crate::storage::entity_position(old(world)@.entities, id as int),
                    EntityView { props: merged_props(before.props, patch@), ..before },
                )
            },
            Err(e) => {
                &&& final(world)@ == old(world)@
                &&& if patch@ is Object && is_data(patch@) {
                    e == ExecutionError::EntityNotFound(id)
                } else {
                    e is TypeError
                }
            },
        },
{
    proof {
        lemma_reached_same(world@);
        lemma_reached_by(world@, Change::Update { id: id as int, patch: patch@ });
    }
    let fields = match patch {
        SValue::Object(fields) => fields,
        _ => {
            return Err(ExecutionError::TypeError("update: patch must be an object".to_owned()));
        },
    };
    if !patch.is_data() {
        return Err(ExecutionError::TypeError("update: patch must be data".to_owned()));
    }
    let mut merged: Vec<(String, SValue)> = match world.get_entity(id) {
        None => {
            return Err(ExecutionError::EntityNotFound(id));
        },
        Some(entity) => match &entity.props {
            SValue::Object(current) => {
                let copy = entity.props.clone();
                match copy {
                    SValue::Object(pairs) => pairs,
                    _ => Vec::new(),
                }
            },
            _ => Vec::new(),
        },
    };
    merge_into(&mut merged, fields);
    proof {
        let entities = world@.entities;
        lemma_find_entity(entities, id as int);
        let e = find_entity(entities, id as int)->0;
        let i = choose|i: int|
            0 <= i < entities.len() && entities[i] == e && forall|j: int|
                i < j < entities.len() ==> (#[trigger] entities[j]).id != id;
        lemma_entity_position_at(entities, i);
    }
    match world.update_entity(id, SValue::Object(merged)) {
        Ok(()) => Ok(()),
        Err(e) => Err(ExecutionError::Storage(e)),
    }
}

} // verus!
