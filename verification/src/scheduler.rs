//! The scheduler of deferred verb calls.
//!
//! The scheduler keeps no clock: whoever drives it says what time it is.

use crate::entity::{EntityId, ScheduledTask, TaskView};
use crate::opcodes::{changed, lemma_reached_by, lemma_reached_same, reached, Change};
use crate::prototype::grown;
use crate::storage::{due_tasks, pending_tasks, task_views, StorageError, WorldStorage, WorldView};
use crate::value::SValue;
use vstd::prelude::*;

verus! {

/// Schedules tasks in a world and hands out those that are due.
pub struct Scheduler {}

/// The time `delay_ms` after `now_ms`, no later than the last time that
/// can be told.
pub open spec fn due_time(now_ms: int, delay_ms: int) -> int {
    if now_ms + delay_ms > i64::MAX {
        i64::MAX as int
    } else if now_ms + delay_ms < i64::MIN {
        i64::MIN as int
    } else {
        now_ms + delay_ms
    }
}

/// A task that has just been scheduled without delay is due, and is the
/// only task that is handed out if no other was due; once the due tasks
/// have been handed out, none is due at that time.
pub proof fn lemma_schedule_then_process(tasks: Seq<TaskView>, task: TaskView, now: int)
    requires
        task.execute_at_ms <= now,
        due_tasks(tasks, now).len() == 0,
    ensures
        due_tasks(tasks.push(task), now) == seq![task],
        due_tasks(pending_tasks(tasks.push(task), now), now).len() == 0,
{
    assert(tasks.push(task).drop_last() =~= tasks);
    assert(due_tasks(tasks, now) =~= Seq::empty());
    assert(due_tasks(tasks.push(task), now) =~= seq![task]);
    lemma_nothing_due_after_process(tasks.push(task), now);
}

/// Among the tasks that are not yet due at a time, none is due at that
/// time.
pub proof fn lemma_nothing_due_after_process(tasks: Seq<TaskView>, now: int)
    ensures
        due_tasks(pending_tasks(tasks, now), now).len() == 0,
    decreases tasks.len(),
{
    if tasks.len() > 0 {
        lemma_nothing_due_after_process(tasks.drop_last(), now);
        if tasks.last().execute_at_ms > now {
            let rest = pending_tasks(tasks.drop_last(), now);
            assert(rest.push(tasks.last()).drop_last() =~= rest);
        }
    }
}

/// A task that is due at a time is due at every later time, and one that
/// is not due stays scheduled: what is handed out and what remains share
/// out the tasks.
pub proof fn lemma_due_and_pending(tasks: Seq<TaskView>, now: int)
    ensures
        due_tasks(tasks, now).len() + pending_tasks(tasks, now).len() == tasks.len(),
        forall|i: int|
            0 <= i < due_tasks(tasks, now).len() ==> (#[trigger] due_tasks(
                tasks,
                now,
            )[i]).execute_at_ms <= now,
        forall|i: int|
            0 <= i < pending_tasks(tasks, now).len() ==> (#[trigger] pending_tasks(
                tasks,
                now,
            )[i]).execute_at_ms > now,
    decreases tasks.len(),
{
    if tasks.len() > 0 {
        lemma_due_and_pending(tasks.drop_last(), now);
    }
}

impl Scheduler {
    /// A scheduler.
    pub fn new() -> (r: Scheduler) {
        Scheduler {  }
    }

    /// Schedules the call of `verb` on `entity_id` with `args` for the
    /// time `delay_ms` after `now_ms`, and returns the task's id.
    pub fn schedule(
        &self,
        world: &mut WorldStorage,
        entity_id: EntityId,
        verb: &str,
        args: SValue,
        delay_ms: i64,
        now_ms: i64,
    ) -> (r: Result<i64, StorageError>)
        requires
            old(world).wf(),
        ensures
            final(world).wf(),
            grown(old(world)@, final(world)@),
            reached(old(world)@, final(world)@),
            r is Ok <==> old(world)@.next_task_id < i64::MAX,
            match r {
                Ok(id) => {
                    &&& id == old(world)@.next_task_id
                    &&& final(world)@ == changed(
                        old(world)@,
                        Change::Schedule {
                            entity_id: entity_id as int,
                            verb: verb@,
                            args: args@,
                            execute_at_ms: due_time(now_ms as int, delay_ms as int),
                        },
                    )
                    &&& final(world)@ == (WorldView {
                        tasks: old(world)@.tasks.push(
                            TaskView {
                                id: id as int,
                                entity_id: entity_id as int,
                                verb: verb@,
                                args: args@,
                                execute_at_ms: due_time(now_ms as int, delay_ms as int),
                            },
                        ),
                        next_task_id: id + 1,
                        ..old(world)@
                    })
                },
                Err(e) => final(world)@ == old(world)@ && e == StorageError::IdsExhausted,
            },
    {
        proof {
            lemma_reached_same(world@);
            lemma_reached_by(
                world@,
                Change::Schedule {
                    entity_id: entity_id as int,
                    verb: verb@,
                    args: args@,
                    execute_at_ms: due_time(now_ms as int, delay_ms as int),
                },
            );
        }
        let sum: i128 = now_ms as i128 + delay_ms as i128;
        let execute_at: i64 = if sum > i64::MAX as i128 {
            i64::MAX
        } else if sum < i64::MIN as i128 {
            i64::MIN
        } else {
            sum as i64
        };
        world.schedule_task(entity_id, verb, args, execute_at)
    }

    /// Takes the tasks that are due at `now_ms` out of the world and
    /// returns them, oldest first. A task that is handed out is gone,
    /// whatever becomes of its call.
    pub fn process(&self, world: &mut WorldStorage, now_ms: i64) -> (r: Result<
        Vec<ScheduledTask>,
        StorageError,
    >)
        requires
            old(world).wf(),
        ensures
            final(world).wf(),
            r is Ok,
            task_views(r->Ok_0@) == due_tasks(old(world)@.tasks, now_ms as int),
            final(world)@ == (WorldView {
                tasks: pending_tasks(old(world)@.tasks, now_ms as int),
                ..old(world)@
            }),
    {
        Ok(world.take_due_tasks(now_ms))
    }
}

} // verus!
