//! The world: its entities with their prototype chains, their verbs and
//! capability tokens, and the tasks that are scheduled.
//!
//! The world is held in memory. Entity ids are handed out in increasing
//! order and a prototype must exist when an entity is created, so a prototype
//! always has a smaller id than the entity that names it: chains cannot
//! cycle, and every walk along one ends.

use crate::entity::{
    Capability, CapabilityView, Entity, EntityId, EntityView, ScheduledTask, TaskView, Verb, VerbView,
};
use crate::ir::SExpr;
use crate::text::str_eq;
use crate::value::{SValue, SValueView};
use vstd::prelude::*;

verus! {

/// Why a storage operation failed.
#[derive(Debug, PartialEq)]
pub enum StorageError {
    /// The store that backs the world reported a failure.
    Database(String),
    /// No entity has this id.
    EntityNotFound(EntityId),
    /// No id is left to hand out.
    IdsExhausted,
}

/// The world's state.
pub struct WorldStorage {
    entities: Vec<Entity>,
    verbs: Vec<Verb>,
    capabilities: Vec<Capability>,
    tasks: Vec<ScheduledTask>,
    next_entity_id: i64,
    next_capability_id: i64,
    next_task_id: i64,
}

/// The mathematical value of a `WorldStorage`.
pub ghost struct WorldView {
    pub entities: Seq<EntityView>,
    pub verbs: Seq<VerbView>,
    pub capabilities: Seq<CapabilityView>,
    pub tasks: Seq<TaskView>,
    pub next_entity_id: int,
    pub next_capability_id: int,
    pub next_task_id: int,
}

/// The entity with the given id.
pub open spec fn find_entity(entities: Seq<EntityView>, id: int) -> Option<EntityView>
    decreases entities.len(),
{
    if entities.len() == 0 {
        None
    } else if entities.last().id == id {
        Some(entities.last())
    } else {
        find_entity(entities.drop_last(), id)
    }
}

/// The position of the entity with the given id, or -1.
pub open spec fn entity_position(entities: Seq<EntityView>, id: int) -> int
    decreases entities.len(),
{
    if entities.len() == 0 {
        -1
    } else if entities.last().id == id {
        entities.len() - 1
    } else {
        entity_position(entities.drop_last(), id)
    }
}

/// The prototype chain that starts at `id`: the entity itself, its
/// prototype, that entity's prototype, and so on. Empty when no entity has
/// the id.
pub open spec fn chain(entities: Seq<EntityView>, id: int) -> Seq<int>
    decreases id,
{
    match find_entity(entities, id) {
        None => Seq::empty(),
        Some(e) => match e.prototype_id {
            Some(p) => if 0 <= p < id {
                seq![id] + chain(entities, p)
            } else {
                seq![id]
            },
            None => seq![id],
        },
    }
}

/// The entity's own property `key`, not looking at its prototypes.
pub open spec fn own_property(entities: Seq<EntityView>, id: int, key: Seq<char>) -> Option<
    SValueView,
> {
    match find_entity(entities, id) {
        Some(e) => e.props.field(key),
        None => None,
    }
}

/// The property `key` as the entities `ids` give it, the first that has it
/// deciding.
pub open spec fn first_property(entities: Seq<EntityView>, ids: Seq<int>, key: Seq<char>) -> Option<
    SValueView,
>
    decreases ids.len(),
{
    if ids.len() == 0 {
        None
    } else {
        match own_property(entities, ids[0], key) {
            Some(v) => Some(v),
            None => first_property(entities, ids.drop_first(), key),
        }
    }
}

/// The property `key` of entity `id`, inherited along its prototype chain.
pub open spec fn inherited_property(entities: Seq<EntityView>, id: int, key: Seq<char>) -> Option<
    SValueView,
> {
    first_property(entities, chain(entities, id), key)
}

/// The verb that `owner` itself has under `name`.
pub open spec fn find_verb(verbs: Seq<VerbView>, owner: int, name: Seq<char>) -> Option<VerbView>
    decreases verbs.len(),
{
    if verbs.len() == 0 {
        None
    } else if verbs.last().owner_id == owner && verbs.last().name == name {
        Some(verbs.last())
    } else {
        find_verb(verbs.drop_last(), owner, name)
    }
}

/// The first capability of kind `kind` that `owner` itself holds.
pub open spec fn find_capability(capabilities: Seq<CapabilityView>, owner: int, kind: Seq<char>) -> Option<
    CapabilityView,
>
    decreases capabilities.len(),
{
    if capabilities.len() == 0 {
        None
    } else if capabilities[0].owner_id == owner && capabilities[0].kind == kind {
        Some(capabilities[0])
    } else {
        find_capability(capabilities.drop_first(), owner, kind)
    }
}

/// The tasks that are due at `now`, in the order in which they were scheduled.
pub open spec fn due_tasks(tasks: Seq<TaskView>, now: int) -> Seq<TaskView>
    decreases tasks.len(),
{
    if tasks.len() == 0 {
        Seq::empty()
    } else if tasks.last().execute_at_ms <= now {
        due_tasks(tasks.drop_last(), now).push(tasks.last())
    } else {
        due_tasks(tasks.drop_last(), now)
    }
}

/// The tasks that are not yet due at `now`.
pub open spec fn pending_tasks(tasks: Seq<TaskView>, now: int) -> Seq<TaskView>
    decreases tasks.len(),
{
    if tasks.len() == 0 {
        Seq::empty()
    } else if tasks.last().execute_at_ms <= now {
        pending_tasks(tasks.drop_last(), now)
    } else {
        pending_tasks(tasks.drop_last(), now).push(tasks.last())
    }
}

/// The tasks other than the one with the given id.
pub open spec fn tasks_without(tasks: Seq<TaskView>, id: int) -> Seq<TaskView>
    decreases tasks.len(),
{
    if tasks.len() == 0 {
        Seq::empty()
    } else if tasks.last().id == id {
        tasks_without(tasks.drop_last(), id)
    } else {
        tasks_without(tasks.drop_last(), id).push(tasks.last())
    }
}

impl WorldView {
    /// A world without entities.
    pub open spec fn empty() -> WorldView {
        WorldView {
            entities: Seq::empty(),
            verbs: Seq::empty(),
            capabilities: Seq::empty(),
            tasks: Seq::empty(),
            next_entity_id: 1,
            next_capability_id: 1,
            next_task_id: 1,
        }
    }

    /// Whether an entity has the given id.
    pub open spec fn contains(self, id: int) -> bool {
        find_entity(self.entities, id) is Some
    }

    /// The world's invariant: ids are positive, below the next id to hand
    /// out, and increase along each table; a prototype is an entity that
    /// was created before; an entity has at most one verb of a name.
    pub open spec fn wf(self) -> bool {
        &&& 1 <= self.next_entity_id <= i64::MAX
        &&& 1 <= self.next_capability_id <= i64::MAX
        &&& 1 <= self.next_task_id <= i64::MAX
        &&& forall|i: int|
            0 <= i < self.entities.len() ==> 0 < (#[trigger] self.entities[i]).id
                < self.next_entity_id
        &&& forall|i: int, j: int|
            0 <= i < j < self.entities.len() ==> (#[trigger] self.entities[i]).id
                < (#[trigger] self.entities[j]).id
        &&& forall|i: int|
            0 <= i < self.entities.len() ==> (match (#[trigger] self.entities[i]).prototype_id {
                Some(p) => 0 < p < self.entities[i].id && find_entity(self.entities, p) is Some,
                None => true,
            })
        &&& forall|i: int, j: int|
            0 <= i < j < self.verbs.len() ==> !((#[trigger] self.verbs[i]).owner_id
                == (#[trigger] self.verbs[j]).owner_id && self.verbs[i].name == self.verbs[j].name)
        &&& forall|i: int|
            0 <= i < self.capabilities.len() ==> 0 < (#[trigger] self.capabilities[i]).id
                < self.next_capability_id
        &&& forall|i: int|
            0 <= i < self.tasks.len() ==> 0 < (#[trigger] self.tasks[i]).id < self.next_task_id
        &&& forall|i: int, j: int|
            0 <= i < j < self.tasks.len() ==> (#[trigger] self.tasks[i]).id
                < (#[trigger] self.tasks[j]).id
    }
}

/// The views of a list of entities.
pub open spec fn entity_views(entities: Seq<Entity>) -> Seq<EntityView> {
    Seq::new(entities.len(), |i: int| entities[i]@)
}

/// The views of a list of verbs.
pub open spec fn verb_views(verbs: Seq<Verb>) -> Seq<VerbView> {
    Seq::new(verbs.len(), |i: int| verbs[i]@)
}

/// The views of a list of capabilities.
pub open spec fn capability_views(capabilities: Seq<Capability>) -> Seq<CapabilityView> {
    Seq::new(capabilities.len(), |i: int| capabilities[i]@)
}

/// The views of a list of tasks.
pub open spec fn task_views(tasks: Seq<ScheduledTask>) -> Seq<TaskView> {
    Seq::new(tasks.len(), |i: int| tasks[i]@)
}

impl View for WorldStorage {
    type V = WorldView;

    closed spec fn view(&self) -> WorldView {
        WorldView {
            entities: entity_views(self.entities@),
            verbs: verb_views(self.verbs@),
            capabilities: capability_views(self.capabilities@),
            tasks: task_views(self.tasks@),
            next_entity_id: self.next_entity_id as int,
            next_capability_id: self.next_capability_id as int,
            next_task_id: self.next_task_id as int,
        }
    }
}

/// An entity that is found has the id that was asked for, and stands in
/// the list.
pub proof fn lemma_find_entity(entities: Seq<EntityView>, id: int)
    ensures
        match find_entity(entities, id) {
            Some(e) => e.id == id && exists|i: int|
                0 <= i < entities.len() && entities[i] == e && forall|j: int|
                    i < j < entities.len() ==> (#[trigger] entities[j]).id != id,
            None => forall|i: int| 0 <= i < entities.len() ==> (#[trigger] entities[i]).id != id,
        },
    decreases entities.len(),
{
    if entities.len() > 0 {
        if entities.last().id == id {
            let i = entities.len() - 1;
            assert(entities[i] == entities.last());
        } else {
            let rest = entities.drop_last();
            lemma_find_entity(rest, id);
            match find_entity(rest, id) {
                Some(e) => {
                    let i = choose|i: int|
                        0 <= i < rest.len() && rest[i] == e && forall|j: int|
                            i < j < rest.len() ==> (#[trigger] rest[j]).id != id;
                    assert(entities[i] == e);
                    assert forall|j: int| i < j < entities.len() implies (
                    #[trigger] entities[j]).id != id by {
                        if j < rest.len() {
                            assert(rest[j] == entities[j]);
                        }
                    }
                },
                None => {
                    assert forall|i: int| 0 <= i < entities.len() implies (
                    #[trigger] entities[i]).id != id by {
                        if i < rest.len() {
                            assert(rest[i] == entities[i]);
                        }
                    }
                },
            }
        }
    }
}

/// A position whose id occurs nowhere later is the position of that id.
pub proof fn lemma_entity_position_at(entities: Seq<EntityView>, i: int)
    requires
        0 <= i < entities.len(),
        forall|j: int| i < j < entities.len() ==> (#[trigger] entities[j]).id != entities[i].id,
    ensures
        entity_position(entities, entities[i].id) == i,
    decreases entities.len(),
{
    if i < entities.len() - 1 {
        let rest = entities.drop_last();
        assert(rest[i] == entities[i]);
        assert forall|j: int| i < j < rest.len() implies (#[trigger] rest[j]).id
            != rest[i].id by {
            assert(rest[j] == entities[j]);
        }
        lemma_entity_position_at(rest, i);
    }
}

/// The entity at a position whose id occurs nowhere later is the one found
/// under that id.
pub proof fn lemma_find_entity_at(entities: Seq<EntityView>, i: int)
    requires
        0 <= i < entities.len(),
        forall|j: int| i < j < entities.len() ==> (#[trigger] entities[j]).id != entities[i].id,
    ensures
        find_entity(entities, entities[i].id) == Some(entities[i]),
    decreases entities.len(),
{
    if i < entities.len() - 1 {
        let rest = entities.drop_last();
        assert(rest[i] == entities[i]);
        assert forall|j: int| i < j < rest.len() implies (#[trigger] rest[j]).id
            != rest[i].id by {
            assert(rest[j] == entities[j]);
        }
        lemma_find_entity_at(rest, i);
    }
}

impl WorldStorage {
    /// Whether the world's invariant holds.
    pub open spec fn wf(&self) -> bool {
        self@.wf()
    }

    /// A new, empty world that lives in memory only.
    pub fn in_memory() -> (r: Result<WorldStorage, StorageError>)
        ensures
            r matches Ok(w) && w@ == WorldView::empty() && w.wf(),
    {
        let w = WorldStorage {
            entities: Vec::new(),
            verbs: Vec::new(),
            capabilities: Vec::new(),
            tasks: Vec::new(),
            next_entity_id: 1,
            next_capability_id: 1,
            next_task_id: 1,
        };
        proof {
            assert(w@.entities =~= Seq::empty());
            assert(w@.verbs =~= Seq::empty());
            assert(w@.capabilities =~= Seq::empty());
            assert(w@.tasks =~= Seq::empty());
        }
        Ok(w)
    }

    /// The entities, in the order of their ids.
    pub fn entities(&self) -> (r: &Vec<Entity>)
        ensures
            entity_views(r@) == self@.entities,
    {
        &self.entities
    }

    /// The verbs of all entities.
    pub fn verbs(&self) -> (r: &Vec<Verb>)
        ensures
            verb_views(r@) == self@.verbs,
    {
        &self.verbs
    }

    /// The capability tokens of all entities, in the order of their ids.
    pub fn capabilities(&self) -> (r: &Vec<Capability>)
        ensures
            capability_views(r@) == self@.capabilities,
    {
        &self.capabilities
    }

    /// The scheduled tasks, in the order of their ids.
    pub fn tasks(&self) -> (r: &Vec<ScheduledTask>)
        ensures
            task_views(r@) == self@.tasks,
    {
        &self.tasks
    }

    fn entity_index(&self, id: EntityId) -> (r: Option<usize>)
        requires
            self.wf(),
        ensures
            match r {
                Some(i) => i < self.entities.len() && find_entity(self@.entities, id as int) == Some(
                    self.entities@[i as int]@,
                ) && self.entities@[i as int].id == id && entity_position(
                    self@.entities,
                    id as int,
                ) == i,
                None => find_entity(self@.entities, id as int) is None,
            },
    {
        let ghost all = self@.entities;
        let mut low: usize = 0;
        let mut high: usize = self.entities.len();
        while low < high
            invariant
                self.wf(),
                all == self@.entities,
                low <= high <= self.entities.len(),
                forall|j: int| 0 <= j < low ==> (#[trigger] all[j]).id < id,
                forall|j: int| high <= j < all.len() ==> (#[trigger] all[j]).id > id,
            decreases high - low,
        {
            let middle = low + (high - low) / 2;
            let found = self.entities[middle].id;
            proof {
                assert(all[middle as int].id == found);
            }
            if found == id {
                proof {
                    assert forall|j: int| middle < j < all.len() implies (#[trigger] all[j]).id
                        != all[middle as int].id by {
                        assert(all[middle as int].id < all[j].id);
                    }
                    lemma_find_entity_at(all, middle as int);
                    lemma_entity_position_at(all, middle as int);
                }
                return Some(middle);
            } else if found < id {
                proof {
                    assert forall|j: int| 0 <= j < middle + 1 implies (#[trigger] all[j]).id < id by {
                        if j < middle {
                            assert(all[j].id < all[middle as int].id);
                        }
                    }
                }
                low = middle + 1;
            } else {
                proof {
                    assert forall|j: int| middle <= j < all.len() implies (#[trigger] all[j]).id
                        > id by {
                        if j > middle {
                            assert(all[middle as int].id < all[j].id);
                        }
                    }
                }
                high = middle;
            }
        }
        proof {
            lemma_find_entity(all, id as int);
        }
        None
    }

    /// The entity with the given id.
    pub fn get_entity(&self, id: EntityId) -> (r: Option<&Entity>)
        requires
            self.wf(),
        ensures
            match r {
                Some(e) => find_entity(self@.entities, id as int) == Some(e@) && e.id == id,
                None => find_entity(self@.entities, id as int) is None,
            },
    {
        match self.entity_index(id) {
            Some(i) => Some(&self.entities[i]),
            None => None,
        }
    }

    /// Creates an entity with the given properties and prototype, and
    /// returns its id. The prototype must exist.
    pub fn create_entity(&mut self, props: SValue, prototype_id: Option<EntityId>) -> (r: Result<
        EntityId,
        StorageError,
    >)
        requires
            old(self).wf(),
        ensures
            final(self).wf(),
            match r {
                Ok(id) => {
                    &&& id == old(self)@.next_entity_id
                    &&& !old(self)@.contains(id as int)
                    &&& final(self)@ == WorldView {
                        entities: old(self)@.entities.push(
                            EntityView {
                                id: id as int,
                                prototype_id: match prototype_id {
                                    Some(p) => Some(p as int),
                                    None => None,
                                },
                                props: props@,
                            },
                        ),
                        next_entity_id: id + 1,
                        ..old(self)@
                    }
                },
                Err(e) => final(self)@ == old(self)@,
            },
            r is Ok <==> {
                &&& prototype_id matches Some(p) ==> old(self)@.contains(p as int)
                &&& old(self)@.next_entity_id < i64::MAX
            },
            r matches Err(e) ==> e == (match prototype_id {
                Some(p) if !old(self)@.contains(p as int) => StorageError::EntityNotFound(p),
                _ => StorageError::IdsExhausted,
            }),
    {
        if let Some(p) = prototype_id {
            if self.entity_index(p).is_none() {
                return Err(StorageError::EntityNotFound(p));
            }
        }
        if self.next_entity_id == i64::MAX {
            return Err(StorageError::IdsExhausted);
        }
        let id = self.next_entity_id;
        proof {
            lemma_find_entity(self@.entities, id as int);
        }
        let entity = Entity { id, prototype_id, props };
        self.entities.push(entity);
        self.next_entity_id = id + 1;
        proof {
            let before = old(self)@.entities;
            let after = self@.entities;
            assert(after =~= before.push(entity@));
            assert(after.drop_last() =~= before);
            assert forall|i: int| 0 <= i < after.len() implies (match (
            #[trigger] after[i]).prototype_id {
                Some(p) => 0 < p < after[i].id && find_entity(after, p) is Some,
                None => true,
            }) by {
                if i < before.len() {
                    assert(after[i] == before[i]);
                    if let Some(p) = before[i].prototype_id {
                        assert(find_entity(before, p) is Some);
                    }
                } else {
                    if let Some(p) = prototype_id {
                        lemma_find_entity(before, p as int);
                        let e = find_entity(before, p as int)->0;
                        let k = choose|k: int| 0 <= k < before.len() && before[k] == e;
                        assert(0 < before[k].id < old(self)@.next_entity_id);
                    }
                }
            }
            assert(self@.verbs == old(self)@.verbs);
        }
        Ok(id)
    }

    /// Replaces all properties of the entity `id` by `props`.
    pub fn update_entity(&mut self, id: EntityId, props: SValue) -> (r: Result<(), StorageError>)
        requires
            old(self).wf(),
        ensures
            final(self).wf(),
            match r {
                Ok(()) => {
                    &&& find_entity(old(self)@.entities, id as int) matches Some(before)
                    &&& find_entity(final(self)@.entities, id as int) == Some(
                        EntityView { props: props@, ..before },
                    )
                    &&& forall|other: int|
                        other != id ==> find_entity(final(self)@.entities, other) == find_entity(
                            old(self)@.entities,
                            other,
                        )
                    &&& final(self)@ == WorldView { entities: final(self)@.entities, ..old(self)@ }
                    &&& final(self)@.entities == old(self)@.entities.update(
                        entity_position(old(self)@.entities, id as int),
                        EntityView { props: props@, ..before },
                    )
                },
                Err(e) => {
                    &&& final(self)@ == old(self)@
                    &&& e == StorageError::EntityNotFound(id)
                    &&& !old(self)@.contains(id as int)
                },
            },
    {
        match self.entity_index(id) {
            None => Err(StorageError::EntityNotFound(id)),
            Some(i) => {
                let prototype_id = self.entities[i].prototype_id;
                self.entities[i] = Entity { id, prototype_id, props };
                proof {
                    let before = old(self)@.entities;
                    let after = self@.entities;
                    let updated = self.entities@[i as int]@;
                    assert(after =~= before.update(i as int, updated));
                    assert(self@.verbs == old(self)@.verbs);
                    assert(self@.tasks == old(self)@.tasks);
                    assert(self@.capabilities == old(self)@.capabilities);
                    assert forall|j: int| i < j < after.len() implies (#[trigger] after[j]).id
                        != after[i as int].id by {
                        assert(before[i as int].id < before[j].id);
                    }
                    lemma_find_entity_at(after, i as int);
                    assert forall|other: int| other != id implies find_entity(after, other)
                        == find_entity(before, other) by {
                        lemma_find_entity_update(before, i as int, updated, other);
                    }
                    assert forall|k: int| 0 <= k < after.len() implies (match (
                    #[trigger] after[k]).prototype_id {
                        Some(p) => 0 < p < after[k].id && find_entity(after, p) is Some,
                        None => true,
                    }) by {
                        assert(after[k].prototype_id == before[k].prototype_id);
                        assert(after[k].id == before[k].id);
                    }
                    assert forall|k: int, j: int| 0 <= k < j < after.len() implies (
                    #[trigger] after[k]).id < (#[trigger] after[j]).id by {
                        assert(before[k].id < before[j].id);
                    }
                    assert forall|k: int| 0 <= k < after.len() implies 0 < (#[trigger] after[k]).id
                        < self@.next_entity_id by {
                        assert(after[k].id == before[k].id);
                    }
                }
                Ok(())
            },
        }
    }

    /// The verb that `owner` itself has under `name`; prototypes are not
    /// consulted.
    pub fn get_verb(&self, owner: EntityId, name: &str) -> (r: Option<&Verb>)
        ensures
            match r {
                Some(v) => find_verb(self@.verbs, owner as int, name@) == Some(v@),
                None => find_verb(self@.verbs, owner as int, name@) is None,
            },
    {
        match self.verb_index(owner, name) {
            Some(i) => Some(&self.verbs[i]),
            None => None,
        }
    }

    fn verb_index(&self, owner: EntityId, name: &str) -> (r: Option<usize>)
        ensures
            match r {
                Some(i) => i < self.verbs.len() && find_verb(self@.verbs, owner as int, name@)
                    == Some(self.verbs@[i as int]@) && self.verbs@[i as int].owner_id == owner
                    && self.verbs@[i as int].name@ == name@,
                None => find_verb(self@.verbs, owner as int, name@) is None && forall|j: int|
                    0 <= j < self.verbs.len() ==> !(self.verbs@[j].owner_id == owner
                        && self.verbs@[j].name@ == name@),
            },
    {
        let mut i: usize = self.verbs.len();
        while i > 0
            invariant
                i <= self.verbs.len(),
                forall|j: int|
                    i <= j < self.verbs.len() ==> !(self.verbs@[j].owner_id == owner
                        && self.verbs@[j].name@ == name@),
            decreases i,
        {
            i -= 1;
            if self.verbs[i].owner_id == owner && str_eq(self.verbs[i].name.as_str(), name) {
                proof {
                    lemma_find_verb_at(self@.verbs, i as int);
                }
                return Some(i);
            }
        }
        proof {
            lemma_find_verb_none(self@.verbs, owner as int, name@);
        }
        None
    }

    /// Gives `owner` the verb `name` with program `code`, in place of the
    /// verb that it had under that name, if any.
    pub fn add_verb(&mut self, owner: EntityId, name: &str, code: &SExpr) -> (r: Result<
        (),
        StorageError,
    >)
        requires
            old(self).wf(),
        ensures
            final(self).wf(),
            r is Ok <==> old(self)@.contains(owner as int),
            match r {
                Ok(()) => {
                    &&& find_verb(final(self)@.verbs, owner as int, name@) == Some(
                        VerbView { owner_id: owner as int, name: name@, code: code@ },
                    )
                    &&& forall|o: int, n: Seq<char>|
                        !(o == owner && n == name@) ==> find_verb(final(self)@.verbs, o, n)
                            == find_verb(old(self)@.verbs, o, n)
                    &&& final(self)@ == WorldView { verbs: final(self)@.verbs, ..old(self)@ }
                },
                Err(e) => final(self)@ == old(self)@ && e == StorageError::EntityNotFound(owner),
            },
    {
        if self.entity_index(owner).is_none() {
            return Err(StorageError::EntityNotFound(owner));
        }
        let verb = Verb { owner_id: owner, name: name.to_owned(), code: code.clone() };
        let ghost added = verb@;
        match self.verb_index(owner, name) {
            Some(i) => {
                self.verbs[i] = verb;
                proof {
                    let before = old(self)@.verbs;
                    let after = self@.verbs;
                    assert(after =~= before.update(i as int, added));
                    assert forall|j: int| i < j < after.len() implies !((#[trigger] after[j]).owner_id
                        == after[i as int].owner_id && after[j].name == after[i as int].name) by {
                        assert(after[j] == before[j]);
                        assert(!(before[i as int].owner_id == before[j].owner_id
                            && before[i as int].name == before[j].name));
                    }
                    lemma_find_verb_at(after, i as int);
                    assert forall|k: int, j: int| 0 <= k < j < after.len() implies !((
                    #[trigger] after[k]).owner_id == (#[trigger] after[j]).owner_id && after[k].name
                        == after[j].name) by {
                        assert(!(before[k].owner_id == before[j].owner_id && before[k].name
                            == before[j].name));
                    }
                    assert forall|o: int, n: Seq<char>| !(o == owner && n == name@) implies find_verb(
                        after,
                        o,
                        n,
                    ) == find_verb(before, o, n) by {
                        lemma_find_verb_update(before, i as int, added, o, n);
                    }
                }
            },
            None => {
                self.verbs.push(verb);
                proof {
                    let before = old(self)@.verbs;
                    let after = self@.verbs;
                    assert(after =~= before.push(added));
                    assert(after.drop_last() =~= before);
                }
            },
        }
        proof {
            assert(self@.entities == old(self)@.entities);
            assert(self@.tasks == old(self)@.tasks);
            assert(self@.capabilities == old(self)@.capabilities);
        }
        Ok(())
    }

    /// Gives `owner` a capability token of the given kind and scope, and
    /// returns the token's id.
    pub fn add_capability(&mut self, owner: EntityId, kind: &str, params: SValue) -> (r: Result<
        i64,
        StorageError,
    >)
        requires
            old(self).wf(),
        ensures
            final(self).wf(),
            r is Ok <==> old(self)@.contains(owner as int) && old(self)@.next_capability_id
                < i64::MAX,
            match r {
                Ok(id) => {
                    &&& id == old(self)@.next_capability_id
                    &&& final(self)@ == WorldView {
                        capabilities: old(self)@.capabilities.push(
                            CapabilityView {
                                id: id as int,
                                owner_id: owner as int,
                                kind: kind@,
                                params: params@,
                            },
                        ),
                        next_capability_id: id + 1,
                        ..old(self)@
                    }
                },
                Err(e) => final(self)@ == old(self)@ && e == (if old(self)@.contains(owner as int) {
                    StorageError::IdsExhausted
                } else {
                    StorageError::EntityNotFound(owner)
                }),
            },
    {
        if self.entity_index(owner).is_none() {
            return Err(StorageError::EntityNotFound(owner));
        }
        if self.next_capability_id == i64::MAX {
            return Err(StorageError::IdsExhausted);
        }
        let id = self.next_capability_id;
        let capability = Capability { id, owner_id: owner, kind: kind.to_owned(), params };
        self.capabilities.push(capability);
        self.next_capability_id = id + 1;
        proof {
            assert(self@.capabilities =~= old(self)@.capabilities.push(capability@));
            assert(self@.entities == old(self)@.entities);
            assert(self@.verbs == old(self)@.verbs);
            assert(self@.tasks == old(self)@.tasks);
        }
        Ok(id)
    }

    /// The first capability of kind `kind` that `owner` itself holds;
    /// prototypes are not consulted.
    pub fn get_capability(&self, owner: EntityId, kind: &str) -> (r: Option<&Capability>)
        ensures
            match r {
                Some(c) => find_capability(self@.capabilities, owner as int, kind@) == Some(c@),
                None => find_capability(self@.capabilities, owner as int, kind@) is None,
            },
    {
        let ghost all = self@.capabilities;
        let mut i: usize = 0;
        proof {
            assert(all.skip(0) =~= all);
        }
        while i < self.capabilities.len()
            invariant
                i <= self.capabilities.len(),
                all == self@.capabilities,
                all.len() == self.capabilities.len(),
                find_capability(all, owner as int, kind@) == find_capability(
                    all.skip(i as int),
                    owner as int,
                    kind@,
                ),
            decreases self.capabilities.len() - i,
        {
            let c = &self.capabilities[i];
            proof {
                assert(all.skip(i as int)[0] == c@);
                assert(all.skip(i as int).drop_first() =~= all.skip(i + 1));
            }
            if c.owner_id == owner && str_eq(c.kind.as_str(), kind) {
                return Some(c);
            }
            i += 1;
        }
        proof {
            assert(all.skip(i as int) =~= Seq::empty());
        }
        None
    }

    /// Records that `verb` is to run on `entity` with `args` at the time
    /// `execute_at_ms`, and returns the task's id.
    pub fn schedule_task(&mut self, entity: EntityId, verb: &str, args: SValue, execute_at_ms: i64) -> (r:
        Result<i64, StorageError>)
        requires
            old(self).wf(),
        ensures
            final(self).wf(),
            r is Ok <==> old(self)@.next_task_id < i64::MAX,
            match r {
                Ok(id) => {
                    &&& id == old(self)@.next_task_id
                    &&& final(self)@ == WorldView {
                        tasks: old(self)@.tasks.push(
                            TaskView {
                                id: id as int,
                                entity_id: entity as int,
                                verb: verb@,
                                args: args@,
                                execute_at_ms: execute_at_ms as int,
                            },
                        ),
                        next_task_id: id + 1,
                        ..old(self)@
                    }
                },
                Err(e) => final(self)@ == old(self)@ && e == StorageError::IdsExhausted,
            },
    {
        if self.next_task_id == i64::MAX {
            return Err(StorageError::IdsExhausted);
        }
        let id = self.next_task_id;
        let task = ScheduledTask { id, entity_id: entity, verb: verb.to_owned(), args, execute_at_ms };
        self.tasks.push(task);
        self.next_task_id = id + 1;
        proof {
            assert(self@.tasks =~= old(self)@.tasks.push(task@));
            assert(self@.entities == old(self)@.entities);
            assert(self@.verbs == old(self)@.verbs);
            assert(self@.capabilities == old(self)@.capabilities);
        }
        Ok(id)
    }

    /// The tasks that are due at `now_ms`, oldest first. They stay
    /// scheduled.
    pub fn get_due_tasks(&self, now_ms: i64) -> (r: Vec<ScheduledTask>)
        ensures
            task_views(r@) == due_tasks(self@.tasks, now_ms as int),
    {
        let ghost all = self@.tasks;
        let mut out: Vec<ScheduledTask> = Vec::new();
        let mut i: usize = 0;
        while i < self.tasks.len()
            invariant
                i <= self.tasks.len(),
                all == self@.tasks,
                all.len() == self.tasks.len(),
                task_views(out@) == due_tasks(all.take(i as int), now_ms as int),
            decreases self.tasks.len() - i,
        {
            proof {
                assert(all.take(i + 1).drop_last() =~= all.take(i as int));
                assert(all.take(i + 1).last() == self.tasks@[i as int]@);
            }
            if self.tasks[i].execute_at_ms <= now_ms {
                let ghost before = task_views(out@);
                out.push(self.tasks[i].clone());
                proof {
                    assert(task_views(out@) =~= before.push(self.tasks@[i as int]@));
                }
            }
            i += 1;
        }
        proof {
            assert(all.take(i as int) =~= all);
        }
        out
    }

    /// Removes the task with the given id, if there is one.
    pub fn delete_task(&mut self, id: i64)
        requires
            old(self).wf(),
        ensures
            final(self).wf(),
            final(self)@ == (WorldView {
                tasks: tasks_without(old(self)@.tasks, id as int),
                ..old(self)@
            }),
    {
        let mut i: usize = 0;
        while i < self.tasks.len()
            invariant
                i <= self.tasks.len(),
                *self == *old(self),
                self.wf(),
                forall|j: int| 0 <= j < i ==> self.tasks@[j].id != id,
            decreases self.tasks.len() - i,
        {
            if self.tasks[i].id == id {
                let ghost before = self@.tasks;
                self.tasks.remove(i);
                proof {
                    let after = self@.tasks;
                    assert(after =~= before.remove(i as int));
                    assert forall|j: int| 0 <= j < before.len() && j != i implies (
                    #[trigger] before[j]).id != id by {
                        if j < i {
                            assert(before[j].id < before[i as int].id);
                        } else {
                            assert(before[i as int].id < before[j].id);
                        }
                    }
                    assert forall|k: int, j: int| 0 <= k < j < after.len() implies (
                    #[trigger] after[k]).id < (#[trigger] after[j]).id by {
                        let kk = if k < i { k } else { k + 1 };
                        let jj = if j < i { j } else { j + 1 };
                        assert(before[kk].id < before[jj].id);
                    }
                    assert forall|k: int| 0 <= k < after.len() implies 0 < (#[trigger] after[k]).id
                        < self@.next_task_id by {
                        let kk = if k < i { k } else { k + 1 };
                        assert(0 < before[kk].id);
                    }
                    lemma_tasks_without(before, id as int, i as int);
                    assert(self@.entities == old(self)@.entities);
                    assert(self@.verbs == old(self)@.verbs);
                    assert(self@.capabilities == old(self)@.capabilities);
                }
                return ;
            }
            i += 1;
        }
        proof {
            lemma_tasks_without_absent(self@.tasks, id as int);
        }
    }

    /// Removes the tasks that are due at `now_ms` and returns them, oldest
    /// first.
    pub fn take_due_tasks(&mut self, now_ms: i64) -> (r: Vec<ScheduledTask>)
        requires
            old(self).wf(),
        ensures
            final(self).wf(),
            task_views(r@) == due_tasks(old(self)@.tasks, now_ms as int),
            final(self)@ == (WorldView {
                tasks: pending_tasks(old(self)@.tasks, now_ms as int),
                ..old(self)@
            }),
    {
        let ghost all = self@.tasks;
        let mut due: Vec<ScheduledTask> = Vec::new();
        let mut pending: Vec<ScheduledTask> = Vec::new();
        let mut i: usize = 0;
        while i < self.tasks.len()
            invariant
                i <= self.tasks.len(),
                *self == *old(self),
                all == self@.tasks,
                all.len() == self.tasks.len(),
                task_views(due@) == due_tasks(all.take(i as int), now_ms as int),
                task_views(pending@) == pending_tasks(all.take(i as int), now_ms as int),
            decreases self.tasks.len() - i,
        {
            proof {
                assert(all.take(i + 1).drop_last() =~= all.take(i as int));
                assert(all.take(i + 1).last() == self.tasks@[i as int]@);
            }
            if self.tasks[i].execute_at_ms <= now_ms {
                let ghost before = task_views(due@);
                due.push(self.tasks[i].clone());
                proof {
                    assert(task_views(due@) =~= before.push(self.tasks@[i as int]@));
                }
            } else {
                let ghost before = task_views(pending@);
                pending.push(self.tasks[i].clone());
                proof {
                    assert(task_views(pending@) =~= before.push(self.tasks@[i as int]@));
                }
            }
            i += 1;
        }
        proof {
            assert(all.take(i as int) =~= all);
            lemma_pending_tasks(all, now_ms as int, self@.next_task_id);
        }
        self.tasks = pending;
        proof {
            assert(self@.entities == old(self)@.entities);
            assert(self@.verbs == old(self)@.verbs);
            assert(self@.capabilities == old(self)@.capabilities);
        }
        due
    }
}

/// Whether the ids of `tasks` are positive, below `next` and increasing.
pub open spec fn task_ids_ordered(tasks: Seq<TaskView>, next: int) -> bool {
    &&& forall|i: int| 0 <= i < tasks.len() ==> 0 < (#[trigger] tasks[i]).id < next
    &&& forall|i: int, j: int|
        0 <= i < j < tasks.len() ==> (#[trigger] tasks[i]).id < (#[trigger] tasks[j]).id
}

/// Each task that is not yet due is a task of the list, and the ids of
/// the tasks not yet due are ordered as those of the list are.
pub proof fn lemma_pending_tasks(tasks: Seq<TaskView>, now: int, next: int)
    requires
        task_ids_ordered(tasks, next),
    ensures
        task_ids_ordered(pending_tasks(tasks, now), next),
        forall|k: int|
            0 <= k < pending_tasks(tasks, now).len() ==> exists|i: int|
                0 <= i < tasks.len() && tasks[i] == #[trigger] pending_tasks(tasks, now)[k],
    decreases tasks.len(),
{
    if tasks.len() > 0 {
        let rest = tasks.drop_last();
        let last = tasks.len() - 1;
        assert forall|i: int| 0 <= i < rest.len() implies 0 < (#[trigger] rest[i]).id < next by {
            assert(rest[i] == tasks[i]);
        }
        assert forall|i: int, j: int| 0 <= i < j < rest.len() implies (#[trigger] rest[i]).id < (
        #[trigger] rest[j]).id by {
            assert(rest[i] == tasks[i]);
            assert(rest[j] == tasks[j]);
        }
        lemma_pending_tasks(rest, now, next);
        let p = pending_tasks(tasks, now);
        let q = pending_tasks(rest, now);
        assert forall|k: int| 0 <= k < p.len() implies exists|i: int|
            0 <= i < tasks.len() && tasks[i] == #[trigger] p[k] by {
            if k < q.len() {
                let i = choose|i: int| 0 <= i < rest.len() && rest[i] == q[k];
                assert(tasks[i] == p[k]);
            } else {
                assert(tasks[last] == p[k]);
            }
        }
        assert forall|i: int, j: int| 0 <= i < j < p.len() implies (#[trigger] p[i]).id < (
        #[trigger] p[j]).id by {
            if j < q.len() {
                assert(q[i].id < q[j].id);
            } else {
                let w = choose|w: int| 0 <= w < rest.len() && rest[w] == q[i];
                assert(tasks[w].id < tasks[last].id);
            }
        }
        assert forall|i: int| 0 <= i < p.len() implies 0 < (#[trigger] p[i]).id < next by {
            if i < q.len() {
                assert(0 < q[i].id < next);
            } else {
                assert(p[i] == tasks[last]);
            }
        }
    }
}

/// Removing the one task that has an id leaves the tasks without that id.
pub proof fn lemma_tasks_without(tasks: Seq<TaskView>, id: int, i: int)
    requires
        0 <= i < tasks.len(),
        tasks[i].id == id,
        forall|j: int| 0 <= j < tasks.len() && j != i ==> (#[trigger] tasks[j]).id != id,
    ensures
        tasks_without(tasks, id) == tasks.remove(i),
    decreases tasks.len(),
{
    let rest = tasks.drop_last();
    if i == tasks.len() - 1 {
        assert forall|j: int| 0 <= j < rest.len() implies (#[trigger] rest[j]).id != id by {
            assert(rest[j] == tasks[j]);
        }
        lemma_tasks_without_absent(rest, id);
        assert(tasks.remove(i) =~= rest);
    } else {
        assert(rest[i] == tasks[i]);
        assert forall|j: int| 0 <= j < rest.len() && j != i implies (#[trigger] rest[j]).id
            != id by {
            assert(rest[j] == tasks[j]);
        }
        lemma_tasks_without(rest, id, i);
        assert(tasks.remove(i) =~= rest.remove(i).push(tasks.last()));
    }
}

/// Where no task has an id, the tasks without that id are all the tasks.
pub proof fn lemma_tasks_without_absent(tasks: Seq<TaskView>, id: int)
    requires
        forall|j: int| 0 <= j < tasks.len() ==> (#[trigger] tasks[j]).id != id,
    ensures
        tasks_without(tasks, id) == tasks,
    decreases tasks.len(),
{
    if tasks.len() > 0 {
        let rest = tasks.drop_last();
        assert forall|j: int| 0 <= j < rest.len() implies (#[trigger] rest[j]).id != id by {
            assert(rest[j] == tasks[j]);
        }
        lemma_tasks_without_absent(rest, id);
        assert(rest.push(tasks.last()) =~= tasks);
    }
}

/// Replacing an entity by one of the same id changes no lookup under
/// another id.
pub proof fn lemma_find_entity_update(entities: Seq<EntityView>, i: int, entity: EntityView, id: int)
    requires
        0 <= i < entities.len(),
        entity.id == entities[i].id,
        id != entity.id,
    ensures
        find_entity(entities.update(i, entity), id) == find_entity(entities, id),
    decreases entities.len(),
{
    let after = entities.update(i, entity);
    if i < entities.len() - 1 {
        assert(after.drop_last() =~= entities.drop_last().update(i, entity));
        lemma_find_entity_update(entities.drop_last(), i, entity, id);
    } else {
        assert(after.drop_last() =~= entities.drop_last());
    }
}

/// The verb at a position is the one found under its owner and name, if
/// no later verb has both.
pub proof fn lemma_find_verb_at(verbs: Seq<VerbView>, i: int)
    requires
        0 <= i < verbs.len(),
        forall|j: int|
            i < j < verbs.len() ==> !((#[trigger] verbs[j]).owner_id == verbs[i].owner_id
                && verbs[j].name == verbs[i].name),
    ensures
        find_verb(verbs, verbs[i].owner_id, verbs[i].name) == Some(verbs[i]),
    decreases verbs.len(),
{
    if i < verbs.len() - 1 {
        let rest = verbs.drop_last();
        assert(rest[i] == verbs[i]);
        assert forall|j: int| i < j < rest.len() implies !((#[trigger] rest[j]).owner_id
            == rest[i].owner_id && rest[j].name == rest[i].name) by {
            assert(rest[j] == verbs[j]);
        }
        lemma_find_verb_at(rest, i);
    }
}

/// No verb is found where none has the owner and the name.
pub proof fn lemma_find_verb_none(verbs: Seq<VerbView>, owner: int, name: Seq<char>)
    requires
        forall|j: int|
            0 <= j < verbs.len() ==> !((#[trigger] verbs[j]).owner_id == owner && verbs[j].name
                == name),
    ensures
        find_verb(verbs, owner, name) is None,
    decreases verbs.len(),
{
    if verbs.len() > 0 {
        let rest = verbs.drop_last();
        assert forall|j: int| 0 <= j < rest.len() implies !((#[trigger] rest[j]).owner_id == owner
            && rest[j].name == name) by {
            assert(rest[j] == verbs[j]);
        }
        lemma_find_verb_none(rest, owner, name);
    }
}

/// Replacing a verb by one of the same owner and name changes no lookup
/// under another owner or name.
pub proof fn lemma_find_verb_update(
    verbs: Seq<VerbView>,
    i: int,
    verb: VerbView,
    owner: int,
    name: Seq<char>,
)
    requires
        0 <= i < verbs.len(),
        verb.owner_id == verbs[i].owner_id,
        verb.name == verbs[i].name,
        !(owner == verb.owner_id && name == verb.name),
    ensures
        find_verb(verbs.update(i, verb), owner, name) == find_verb(verbs, owner, name),
    decreases verbs.len(),
{
    let after = verbs.update(i, verb);
    if i < verbs.len() - 1 {
        assert(after.drop_last() =~= verbs.drop_last().update(i, verb));
        lemma_find_verb_update(verbs.drop_last(), i, verb, owner, name);
    } else {
        assert(after.drop_last() =~= verbs.drop_last());
    }
}

} // verus!
