use std::collections::HashMap;

use moro::body::JoinStep;
use moro::channel::Delivery;
use moro::scope::Scope;
use moro::scope_body::ScopeBody;
use moro::scope_fn;
use moro::spawned::Spawned;

/// What a job sees when it is resumed: the scope, and a place to leave the
/// jobs that it spawns.
struct Ctx<'a, R, T> {
    scope: &'a mut Scope<R, T>,
    spawned: &'a mut Vec<(usize, Job<R, T>)>,
}

/// One resumption of a task: `Some` when it completes, `None` when it
/// suspends.
type Job<R, T> = Box<dyn FnMut(&mut Ctx<R, T>) -> Option<T>>;

impl<'a, R, T> Ctx<'a, R, T> {
    fn spawn(&mut self, job: Job<R, T>) -> Spawned {
        let handle = self.scope.spawn();
        self.spawned.push((handle.task().unwrap(), job));
        handle
    }
}

/// A job that completes with `value` the first time it is resumed.
fn ready<R: 'static, T: Clone + 'static>(value: T) -> Job<R, T> {
    Box::new(move |_| Some(value.clone()))
}

/// A job that suspends `rounds` times and then completes with `value`.
fn slow<R: 'static, T: Clone + 'static>(rounds: usize, value: T) -> Job<R, T> {
    let mut left = rounds;
    Box::new(move |_| {
        if left == 0 {
            Some(value.clone())
        } else {
            left -= 1;
            None
        }
    })
}

/// Runs a scope to its result, or gives up after `polls` rounds. Also says
/// how often tasks were resumed.
fn run<R, T>(
    mut body_job: impl FnMut(&mut Ctx<R, T>) -> Option<R>,
    polls: usize,
) -> (Option<R>, usize, ScopeBody<R, T>) {
    let mut scope_body: ScopeBody<R, T> = scope_fn();
    let mut jobs: HashMap<usize, Job<R, T>> = HashMap::new();
    let mut resumed = 0;
    for _ in 0..polls {
        loop {
            match scope_body.poll() {
                JoinStep::ResumeBody => {
                    let mut spawned = Vec::new();
                    let outcome = {
                        let scope = scope_body.body_mut().scope_mut();
                        body_job(&mut Ctx { scope, spawned: &mut spawned })
                    };
                    jobs.extend(spawned);
                    match outcome {
                        Some(result) => assert!(scope_body.body_mut().body_completed(result)),
                        None => assert!(scope_body.body_mut().body_yielded()),
                    }
                },
                JoinStep::ResumeTask(task) => {
                    resumed += 1;
                    let mut job = jobs.remove(&task).unwrap();
                    let mut spawned = Vec::new();
                    let outcome = {
                        let scope = scope_body.body_mut().scope_mut();
                        job(&mut Ctx { scope, spawned: &mut spawned })
                    };
                    jobs.extend(spawned);
                    match outcome {
                        Some(value) => {
                            assert_eq!(scope_body.body_mut().task_completed(value), Some(task));
                        },
                        None => {
                            jobs.insert(task, job);
                            assert_eq!(scope_body.body_mut().task_yielded(), Some(task));
                        },
                    }
                },
                JoinStep::Pending => break,
                JoinStep::Ready(result) => return (Some(result), resumed, scope_body),
            }
        }
    }
    (None, resumed, scope_body)
}

/// A body that spawns the given jobs at its first resumption and then adds
/// up what their handles deliver.
fn summing_body(
    mut jobs: Vec<Job<Result<i32, &'static str>, i32>>,
) -> impl FnMut(&mut Ctx<Result<i32, &'static str>, i32>) -> Option<Result<i32, &'static str>> {
    let mut handles: Vec<Spawned> = Vec::new();
    let mut started = false;
    let mut sum = 0;
    move |ctx| {
        if !started {
            started = true;
            for job in jobs.drain(..) {
                handles.push(ctx.spawn(job));
            }
        }
        while let Some(handle) = handles.first() {
            match handle.poll(ctx.scope) {
                Delivery::Ready(value) => {
                    sum += value;
                    handles.remove(0);
                },
                Delivery::Pending => return None,
                other => panic!("unexpected delivery: {:?}", other),
            }
        }
        Some(Ok(sum))
    }
}

#[test]
fn body_sums_three_tasks() {
    let (result, resumed, scope_body) = run(summing_body(vec![ready(1), ready(2), ready(3)]), 10);
    assert_eq!(result, Some(Ok(6)));
    assert_eq!(resumed, 3);
    assert_eq!(scope_body.body().scope().outstanding(), 0);
    assert!(scope_body.body().is_resolved());
}

#[test]
fn body_sums_tasks_that_finish_in_any_order() {
    let (result, _, _) = run(summing_body(vec![slow(3, 1), ready(2), slow(1, 3)]), 10);
    assert_eq!(result, Some(Ok(6)));
}

#[test]
fn terminating_task_decides_the_result() {
    let stop: Job<Result<i32, &'static str>, i32> = Box::new(|ctx| {
        let handle = ctx.scope.terminate(Err("stop"));
        assert_eq!(handle.poll(ctx.scope), Delivery::Pending);
        None
    });
    let (result, _, scope_body) = run(summing_body(vec![ready(1), stop, ready(3)]), 10);
    assert_eq!(result, Some(Err("stop")));
    assert!(scope_body.body().scope().outstanding() >= 1);
}

#[test]
fn termination_wins_after_other_tasks_produced_values() {
    let stop: Job<Result<i32, &'static str>, i32> = Box::new(|ctx| {
        ctx.scope.terminate(Err("stop"));
        None
    });
    let (result, resumed, _) = run(summing_body(vec![ready(1), ready(3), stop]), 10);
    assert_eq!(result, Some(Err("stop")));
    assert_eq!(resumed, 3);
}

#[test]
fn plain_value_can_terminate_a_scope() {
    let (result, _, _) = run::<&str, i32>(
        |ctx| {
            ctx.spawn(slow(100, 0));
            ctx.scope.terminate("stop");
            None
        },
        10,
    );
    assert_eq!(result, Some("stop"));
}

#[test]
fn first_of_two_terminations_takes_effect() {
    let (result, resumed, _) = run::<i32, i32>(
        |ctx| {
            ctx.spawn(ready(0));
            ctx.scope.terminate(1);
            ctx.scope.terminate(2);
            None
        },
        10,
    );
    assert_eq!(result, Some(1));
    assert_eq!(resumed, 0);
}

#[test]
fn scope_waits_for_tasks_spawned_before_the_body_returns() {
    let (result, resumed, scope_body) = run::<i32, i32>(
        |ctx| {
            ctx.spawn(slow(4, 0));
            ctx.spawn(slow(2, 0));
            Some(7)
        },
        3,
    );
    assert_eq!(result, None);
    assert_eq!(resumed, 6);
    assert_eq!(scope_body.body().scope().outstanding(), 1);
    assert!(!scope_body.body().is_resolved());

    let (result, resumed, scope_body) = run::<i32, i32>(
        |ctx| {
            ctx.spawn(slow(4, 0));
            ctx.spawn(slow(2, 0));
            Some(7)
        },
        10,
    );
    assert_eq!(result, Some(7));
    assert_eq!(resumed, 8);
    assert_eq!(scope_body.body().scope().outstanding(), 0);
}

#[test]
fn sibling_spawned_late_is_awaited() {
    let (result, resumed, scope_body) = run::<i32, i32>(
        |ctx| {
            let a: Job<i32, i32> = Box::new(|ctx| {
                ctx.spawn(slow(2, 20));
                Some(10)
            });
            ctx.spawn(a);
            Some(1)
        },
        2,
    );
    assert_eq!(result, None);
    assert_eq!(resumed, 3);
    assert_eq!(scope_body.body().scope().outstanding(), 1);

    let (result, resumed, mut scope_body) = run::<i32, i32>(
        |ctx| {
            let a: Job<i32, i32> = Box::new(|ctx| {
                ctx.spawn(slow(2, 20));
                Some(10)
            });
            ctx.spawn(a);
            Some(1)
        },
        10,
    );
    assert_eq!(result, Some(1));
    assert_eq!(resumed, 4);
    assert_eq!(Spawned::new(0).poll(scope_body.body_mut().scope_mut()), Delivery::Ready(10));
    assert_eq!(Spawned::new(1).poll(scope_body.body_mut().scope_mut()), Delivery::Ready(20));
}

#[test]
fn nested_spawns_double_a_value_twice() {
    let (result, _, _) = run::<i32, i32>(
        {
            let mut outer: Option<Spawned> = None;
            move |ctx| {
                if outer.is_none() {
                    let mut inner: Option<Spawned> = None;
                    let job: Job<i32, i32> = Box::new(move |ctx| {
                        if inner.is_none() {
                            inner = Some(ctx.spawn(ready(22)));
                        }
                        match inner.as_ref().unwrap().poll(ctx.scope) {
                            Delivery::Ready(value) => Some(value * 2),
                            _ => None,
                        }
                    });
                    outer = Some(ctx.spawn(job));
                }
                match outer.as_ref().unwrap().poll(ctx.scope) {
                    Delivery::Ready(value) => Some(value * 2),
                    _ => None,
                }
            }
        },
        10,
    );
    assert_eq!(result, Some(88));
}

/// One resumption of a cancelling task: `Some` with its outcome when it is
/// done, `None` when it suspends.
type Attempt<E> = Box<dyn FnMut() -> Option<Result<i32, E>>>;

/// Runs a scope whose body spawns the given cancelling tasks and returns at
/// once, or gives up after `polls` rounds.
fn run_cancelling<E>(
    attempts: Vec<Attempt<E>>,
    polls: usize,
) -> (Option<Result<(), E>>, ScopeBody<Result<(), E>, i32>) {
    let mut scope_body: ScopeBody<Result<(), E>, i32> = scope_fn();
    let mut attempts: Vec<Option<Attempt<E>>> = attempts.into_iter().map(Some).collect();
    for _ in 0..polls {
        loop {
            match scope_body.poll() {
                JoinStep::ResumeBody => {
                    for task in 0..attempts.len() {
                        let handle = scope_body.body_mut().scope_mut().spawn_cancelling();
                        assert_eq!(handle.task(), Some(task));
                    }
                    assert!(scope_body.body_mut().body_completed(Ok(())));
                },
                JoinStep::ResumeTask(task) => {
                    let attempt = attempts[task].as_mut().unwrap();
                    match attempt() {
                        Some(outcome) => {
                            let scope = scope_body.body_mut().scope_mut();
                            assert_eq!(scope.task_finished(outcome), Some(task));
                        },
                        None => {
                            assert_eq!(scope_body.body_mut().task_yielded(), Some(task));
                        },
                    }
                },
                JoinStep::Pending => break,
                JoinStep::Ready(result) => return (Some(result), scope_body),
            }
        }
    }
    (None, scope_body)
}

/// A cancelling task that suspends `rounds` times and then ends with
/// `outcome`.
fn attempt<E: Clone + 'static>(rounds: usize, outcome: Result<i32, E>) -> Attempt<E> {
    let mut left = rounds;
    Box::new(move || {
        if left == 0 {
            Some(outcome.clone())
        } else {
            left -= 1;
            None
        }
    })
}

#[test]
fn failing_cancelling_task_ends_the_scope_with_its_error() {
    let mut attempts: Vec<Attempt<&'static str>> = Vec::new();
    for _ in 0..9 {
        attempts.push(attempt(5, Ok(1)));
    }
    attempts.push(attempt(0, Err("boom")));
    let (result, mut scope_body) = run_cancelling(attempts, 20);
    assert_eq!(result, Some(Err("boom")));
    assert_eq!(scope_body.body().scope().outstanding(), 10);
    for task in 0..10 {
        assert_eq!(Spawned::new(task).poll(scope_body.body_mut().scope_mut()), Delivery::Pending);
    }
    assert_eq!(scope_body.poll(), JoinStep::Pending);
    assert_eq!(scope_body.body().scope().outstanding(), 10);
}

#[test]
fn cancelling_tasks_that_succeed_let_the_body_result_through() {
    let attempts: Vec<Attempt<&'static str>> =
        vec![attempt(2, Ok(1)), attempt(0, Ok(2)), attempt(1, Ok(3))];
    let (result, mut scope_body) = run_cancelling(attempts, 20);
    assert_eq!(result, Some(Ok(())));
    assert_eq!(scope_body.body().scope().outstanding(), 0);
    assert_eq!(Spawned::new(0).poll(scope_body.body_mut().scope_mut()), Delivery::Ready(1));
    assert_eq!(Spawned::new(1).poll(scope_body.body_mut().scope_mut()), Delivery::Ready(2));
    assert_eq!(Spawned::new(2).poll(scope_body.body_mut().scope_mut()), Delivery::Ready(3));
}

#[test]
fn first_failure_of_several_is_the_result() {
    let attempts: Vec<Attempt<&'static str>> =
        vec![attempt(1, Err("late")), attempt(0, Err("early")), attempt(0, Ok(3))];
    let (result, _) = run_cancelling(attempts, 20);
    assert_eq!(result, Some(Err("early")));
}

#[test]
fn negative_input_cancels_the_validation_scope() {
    let inputs = [1, 2, -3, 10];
    let attempts: Vec<Attempt<String>> = inputs
        .iter()
        .map(|&input| {
            let outcome = if input < 0 {
                Err(format!("input out of range: {}", input))
            } else {
                Ok(input)
            };
            attempt(0, outcome)
        })
        .collect();
    let (result, _) = run_cancelling(attempts, 20);
    assert_eq!(result, Some(Err("input out of range: -3".to_string())));
}

#[test]
fn validation_scope_accepts_good_inputs() {
    let inputs = vec![1, 2, 10];
    let (result, _, _) = run::<Result<(), String>, i32>(
        move |ctx| {
            for input in inputs.clone() {
                ctx.spawn(ready(input));
            }
            Some(Ok(()))
        },
        10,
    );
    assert_eq!(result, Some(Ok(())));
}

#[test]
fn scope_without_tasks_resolves_with_the_body() {
    let (result, resumed, _) = run::<Result<(), u32>, i32>(|_| Some(Err(22)), 10);
    assert_eq!(result, Some(Err(22)));
    assert_eq!(resumed, 0);
}
