//! Scheduling tasks and handing out those that are due.

use viwo::eval::{Door, ExactHost};
use viwo::number::Number;
use viwo::runtime::ViwoRuntime;
use viwo::scheduler::Scheduler;
use viwo::ir::SExpr;
use viwo::storage::WorldStorage;
use viwo::value::SValue;

fn name_props() -> SValue {
    SValue::Object(vec![("name".to_string(), SValue::string("Test"))])
}

fn world_with_entity() -> (WorldStorage, i64) {
    let mut world = WorldStorage::in_memory().unwrap();
    let id = world.create_entity(name_props(), None).unwrap();
    (world, id)
}

fn verbs(tasks: &[viwo::entity::ScheduledTask]) -> Vec<&str> {
    tasks.iter().map(|t| t.verb.as_str()).collect()
}

#[test]
fn test_schedule_and_process() {
    let (mut world, entity_id) = world_with_entity();
    let scheduler = Scheduler::new();
    let now = 1_700_000_000_000;

    let args = SValue::Array(vec![
        SValue::Number(Number::Int(1)),
        SValue::Number(Number::Int(2)),
        SValue::Number(Number::Int(3)),
    ]);
    scheduler
        .schedule(&mut world, entity_id, "test_verb", args.clone(), 0, now)
        .unwrap();

    let tasks = scheduler.process(&mut world, now).unwrap();
    assert_eq!(tasks.len(), 1);
    assert_eq!(tasks[0].entity_id, entity_id);
    assert_eq!(tasks[0].verb, "test_verb");
    assert_eq!(tasks[0].args, args);
    assert_eq!(tasks[0].execute_at_ms, now);

    // A task that was handed out is gone.
    let tasks = scheduler.process(&mut world, now).unwrap();
    assert_eq!(tasks.len(), 0);
}

#[test]
fn test_schedule_and_process_task() {
    let (mut world, entity_id) = world_with_entity();
    world
        .add_verb(entity_id, "task", &SExpr::number(42.0f64.to_bits()))
        .unwrap();
    let scheduler = Scheduler::new();
    let now = 5_000;

    scheduler
        .schedule(&mut world, entity_id, "task", SValue::Array(vec![]), 0, now)
        .unwrap();

    let tasks = scheduler.process(&mut world, now).unwrap();
    assert_eq!(tasks.len(), 1);
    assert_eq!(tasks[0].entity_id, entity_id);
    assert_eq!(tasks[0].verb, "task");

    let tasks = scheduler.process(&mut world, now).unwrap();
    assert_eq!(tasks.len(), 0);
}

#[test]
fn test_future_task_not_processed() {
    let (mut world, entity_id) = world_with_entity();
    world.add_verb(entity_id, "future", &SExpr::null()).unwrap();
    let scheduler = Scheduler::new();
    let now = 5_000;

    // An hour from now.
    scheduler
        .schedule(&mut world, entity_id, "future", SValue::Array(vec![]), 3600000, now)
        .unwrap();

    let tasks = scheduler.process(&mut world, now).unwrap();
    assert_eq!(tasks.len(), 0);
    // It is due once the hour has passed, and not a millisecond before.
    assert_eq!(scheduler.process(&mut world, now + 3599999).unwrap().len(), 0);
    assert_eq!(scheduler.process(&mut world, now + 3600000).unwrap().len(), 1);
}

#[test]
fn test_multiple_tasks() {
    let (mut world, entity_id) = world_with_entity();
    world
        .add_verb(entity_id, "task1", &SExpr::number(1.0f64.to_bits()))
        .unwrap();
    world
        .add_verb(entity_id, "task2", &SExpr::number(2.0f64.to_bits()))
        .unwrap();
    let scheduler = Scheduler::new();
    let now = 77;

    scheduler
        .schedule(&mut world, entity_id, "task1", SValue::Array(vec![]), 0, now)
        .unwrap();
    scheduler
        .schedule(&mut world, entity_id, "task2", SValue::Array(vec![]), 0, now)
        .unwrap();

    let tasks = scheduler.process(&mut world, now).unwrap();
    assert_eq!(tasks.len(), 2);
    let names = verbs(&tasks);
    assert!(names.contains(&"task1"));
    assert!(names.contains(&"task2"));
}

#[test]
fn scheduler_drain_leaves_what_is_not_due() {
    let (mut world, entity_id) = world_with_entity();
    let scheduler = Scheduler::new();
    let now = 1_000;
    let a = scheduler
        .schedule(&mut world, entity_id, "a", SValue::Null, 0, now)
        .unwrap();
    let b = scheduler
        .schedule(&mut world, entity_id, "b", SValue::Null, 0, now)
        .unwrap();
    let c = scheduler
        .schedule(&mut world, entity_id, "c", SValue::Null, 3_600_000, now)
        .unwrap();
    assert_eq!((a, b, c), (1, 2, 3));

    let tasks = scheduler.process(&mut world, now).unwrap();
    assert_eq!(verbs(&tasks), vec!["a", "b"]);

    // The third is still scheduled, with its time.
    let left = world.get_due_tasks(i64::MAX);
    assert_eq!(left.len(), 1);
    assert_eq!(left[0].id, c);
    assert_eq!(left[0].execute_at_ms, now + 3_600_000);
}

#[test]
fn due_tasks_stay_until_deleted() {
    let (mut world, entity_id) = world_with_entity();
    let first = world.schedule_task(entity_id, "x", SValue::Null, 10).unwrap();
    let second = world.schedule_task(entity_id, "y", SValue::Null, 20).unwrap();
    assert_eq!(verbs(&world.get_due_tasks(15)), vec!["x"]);
    assert_eq!(verbs(&world.get_due_tasks(20)), vec!["x", "y"]);
    world.delete_task(first);
    assert_eq!(verbs(&world.get_due_tasks(20)), vec!["y"]);
    world.delete_task(first);
    world.delete_task(999);
    assert_eq!(verbs(&world.get_due_tasks(20)), vec!["y"]);
    world.delete_task(second);
    assert!(world.get_due_tasks(i64::MAX).is_empty());
}

#[test]
fn a_delay_beyond_the_end_of_time_is_never_due_early() {
    let (mut world, entity_id) = world_with_entity();
    let scheduler = Scheduler::new();
    scheduler
        .schedule(&mut world, entity_id, "late", SValue::Null, i64::MAX, 1_000)
        .unwrap();
    assert_eq!(scheduler.process(&mut world, i64::MAX - 1).unwrap().len(), 0);
    let tasks = scheduler.process(&mut world, i64::MAX).unwrap();
    assert_eq!(tasks.len(), 1);
    assert_eq!(tasks[0].execute_at_ms, i64::MAX);
}

#[test]
fn a_verb_schedules_a_call_on_its_receiver() {
    let mut runtime = ViwoRuntime::new(WorldStorage::in_memory().unwrap());
    let e = runtime.storage.create_entity(name_props(), None).unwrap();
    // later: schedule("ring", [1, "x"], 500)
    let later = SExpr::call(
        "schedule",
        vec![
            SExpr::string("ring"),
            SExpr::call("list.new", vec![SExpr::integer(1), SExpr::string("x")]),
            SExpr::integer(500),
        ],
    );
    runtime.storage.add_verb(e, "later", &later).unwrap();
    runtime.now_ms = 10_000;
    let id = runtime
        .execute_verb(&mut Door::new(ExactHost {}), e, "later", vec![], None)
        .unwrap();
    assert_eq!(id, SValue::Number(Number::Int(1)));

    let scheduler = Scheduler::new();
    assert!(scheduler.process(&mut runtime.storage, 10_499).unwrap().is_empty());
    let due = scheduler.process(&mut runtime.storage, 10_500).unwrap();
    assert_eq!(due.len(), 1);
    assert_eq!(due[0].entity_id, e);
    assert_eq!(due[0].verb, "ring");
    assert_eq!(
        due[0].args,
        SValue::Array(vec![SValue::Number(Number::Int(1)), SValue::string("x")])
    );
    assert_eq!(due[0].execute_at_ms, 10_500);

    // The verb is told the time that the runtime was told.
    let now = SExpr::call("time.now", vec![]);
    runtime.storage.add_verb(e, "now", &now).unwrap();
    assert_eq!(
        runtime
            .execute_verb(&mut Door::new(ExactHost {}), e, "now", vec![], None)
            .unwrap(),
        SValue::Number(Number::Int(10_000))
    );

    // What is not a verb name, a list and a delay is refused.
    let wrong = SExpr::call("schedule", vec![SExpr::integer(1)]);
    runtime.storage.add_verb(e, "wrong", &wrong).unwrap();
    assert!(matches!(
        runtime.execute_verb(&mut Door::new(ExactHost {}), e, "wrong", vec![], None),
        Err(viwo::error::ExecutionError::TypeError(_))
    ));
}
