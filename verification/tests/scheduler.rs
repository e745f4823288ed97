use bakery::task::{execution_order, TaskDeclaration, TaskSchedulingError};

fn declaration(id: &str, dependencies: &[&str]) -> TaskDeclaration {
    TaskDeclaration {
        id: id.to_string(),
        dependencies: dependencies.iter().map(|d| d.to_string()).collect(),
    }
}

#[test]
fn test_execute_dependencies() {
    let tasks = vec![
        declaration("task1", &["task2", "task3"]),
        declaration("task2", &["task3"]),
        declaration("task3", &["task4"]),
        declaration("task4", &[]),
    ];
    let order = execution_order(&tasks, &"task1".to_string()).unwrap();
    let mut steps: Vec<u32> = Vec::new();
    for id in &order {
        match id.as_str() {
            "task1" => steps.push(1),
            "task2" => steps.push(2),
            "task3" => steps.push(3),
            "task4" => steps.push(4),
            _ => panic!("unexpected task"),
        }
    }
    assert_eq!(steps, vec![4, 3, 2, 1]);
}

#[test]
fn diamond_dependencies_run_exactly_once() {
    let tasks = vec![
        declaration("a", &["b", "c"]),
        declaration("b", &["c"]),
        declaration("c", &["d"]),
        declaration("d", &[]),
    ];
    let order = execution_order(&tasks, &"a".to_string()).unwrap();
    assert_eq!(
        order,
        vec!["d".to_string(), "c".to_string(), "b".to_string(), "a".to_string()]
    );
}

#[test]
fn a_single_task_runs_alone() {
    let tasks = vec![declaration("build", &[])];
    let order = execution_order(&tasks, &"build".to_string()).unwrap();
    assert_eq!(order, vec!["build".to_string()]);
}

#[test]
fn the_last_declared_dependency_is_explored_first() {
    // two independent dependencies: the record is scanned backwards, so the
    // first-declared one ends up first in the order
    let tasks = vec![
        declaration("root", &["left", "right"]),
        declaration("left", &[]),
        declaration("right", &[]),
    ];
    let order = execution_order(&tasks, &"root".to_string()).unwrap();
    assert_eq!(
        order,
        vec!["left".to_string(), "right".to_string(), "root".to_string()]
    );
}

#[test]
fn a_cycle_is_reported() {
    let tasks = vec![declaration("a", &["b"]), declaration("b", &["a"])];
    match execution_order(&tasks, &"a".to_string()) {
        Err(TaskSchedulingError::CircularDependency) => {},
        _ => panic!("expected the cycle to be reported"),
    }
}

#[test]
fn a_task_depending_on_itself_is_reported() {
    let tasks = vec![declaration("a", &["a"])];
    match execution_order(&tasks, &"a".to_string()) {
        Err(TaskSchedulingError::CircularDependency) => {},
        _ => panic!("expected the cycle to be reported"),
    }
}
