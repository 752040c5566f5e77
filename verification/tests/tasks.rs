use gpu_guard::task_manager::{LogRing, TaskError, TaskManager, TaskStatus};

#[test]
fn ids_are_consecutive() {
    let mut tm = TaskManager::new(4, 10);
    assert_eq!(tm.next_id(), 1);
    assert_eq!(tm.start_task("sleep 1", 0), Ok(1));
    assert_eq!(tm.start_task("sleep 2", 5), Ok(2));
    assert_eq!(tm.next_id(), 3);
    assert_eq!(tm.running_count(), 2);
    let list = tm.list_tasks(5_000_000_000);
    assert_eq!(list.len(), 2);
    assert_eq!(list[0].id, 1);
    assert_eq!(list[0].command, "sleep 1");
    assert_eq!(list[0].elapsed_secs, 5);
    assert_eq!(list[1].id, 2);
    assert_eq!(list[1].elapsed_secs, 4);
    assert!(matches!(list[1].status, TaskStatus::Running));
}

#[test]
fn limit_on_running_tasks() {
    let mut tm = TaskManager::new(2, 10);
    assert!(tm.start_task("a", 0).is_ok());
    assert!(tm.start_task("b", 0).is_ok());
    let err = tm.start_task("c", 0).unwrap_err();
    assert_eq!(err, TaskError::MaxTasksReached(2));
    assert_eq!(err.message(), "Max concurrent tasks (2) reached");
    assert_eq!(tm.check_capacity(), Err(TaskError::MaxTasksReached(2)));
    // A finished task frees a slot.
    tm.kill_task(1).unwrap();
    assert_eq!(tm.running_count(), 1);
    assert_eq!(tm.start_task("c", 0), Ok(3));
}

#[test]
fn no_tasks_at_all_with_zero_limit() {
    let mut tm = TaskManager::new(0, 10);
    assert_eq!(tm.start_task("a", 0), Err(TaskError::MaxTasksReached(0)));
    assert_eq!(tm.list_tasks(0).len(), 0);
}

#[test]
fn kill_and_not_found() {
    let mut tm = TaskManager::new(4, 10);
    tm.start_task("a", 0).unwrap();
    assert_eq!(tm.kill_task(9), Err(TaskError::NotFound(9)));
    assert_eq!(tm.kill_task(0), Err(TaskError::NotFound(0)));
    assert_eq!(TaskError::NotFound(9).message(), "Task 9 not found");
    assert_eq!(tm.kill_task(1), Ok(()));
    assert_eq!(tm.status(1), Some(TaskStatus::Killed));
    // Killing again is allowed and changes nothing.
    assert_eq!(tm.kill_task(1), Ok(()));
    assert_eq!(tm.status(1), Some(TaskStatus::Killed));
    assert_eq!(tm.status(2), None);
}

#[test]
fn reaping_only_changes_running_tasks() {
    let mut tm = TaskManager::new(4, 10);
    tm.start_task("a", 0).unwrap();
    tm.start_task("b", 0).unwrap();
    tm.start_task("c", 0).unwrap();
    tm.kill_task(2).unwrap();
    tm.reap_finished(&vec![(1, Some(0)), (2, Some(9)), (3, None), (1, Some(5)), (77, Some(1))]);
    assert_eq!(tm.status(1), Some(TaskStatus::Exited(Some(0))));
    assert_eq!(tm.status(2), Some(TaskStatus::Killed));
    assert_eq!(tm.status(3), Some(TaskStatus::Exited(None)));
    assert_eq!(tm.running_count(), 0);
}

#[test]
fn logs_keep_the_latest_lines() {
    let mut tm = TaskManager::new(4, 3);
    tm.start_task("a", 0).unwrap();
    for i in 0..5 {
        tm.append_log(1, format!("line {i}"));
    }
    tm.append_log(42, "ignored".to_string());
    assert_eq!(tm.get_logs(1, 50).unwrap(), vec!["line 2", "line 3", "line 4"]);
    assert_eq!(tm.get_logs(1, 2).unwrap(), vec!["line 3", "line 4"]);
    assert_eq!(tm.get_logs(1, 0).unwrap(), Vec::<String>::new());
    assert_eq!(tm.get_logs(2, 5), Err(TaskError::NotFound(2)));
}

#[test]
fn ring_of_capacity_zero_keeps_one_line() {
    let mut ring = LogRing::new(0);
    ring.push("a".to_string());
    ring.push("b".to_string());
    assert_eq!(ring.len(), 1);
    assert_eq!(ring.last(10), vec!["b"]);
}

#[test]
fn ring_of_capacity_two() {
    let mut ring = LogRing::new(2);
    assert_eq!(ring.last(5), Vec::<String>::new());
    ring.push("a".to_string());
    ring.push("b".to_string());
    ring.push("c".to_string());
    assert_eq!(ring.last(5), vec!["b", "c"]);
    assert_eq!(ring.last(1), vec!["c"]);
}

#[test]
fn status_text() {
    assert_eq!(TaskStatus::Running.to_string(), "Running");
    assert_eq!(TaskStatus::Exited(Some(0)).to_string(), "Exited(0)");
    assert_eq!(TaskStatus::Exited(Some(-9)).to_string(), "Exited(-9)");
    assert_eq!(TaskStatus::Exited(Some(i32::MIN)).to_string(), "Exited(-2147483648)");
    assert_eq!(TaskStatus::Exited(None).to_string(), "Exited(?)");
    assert_eq!(TaskStatus::Killed.to_string(), "Killed");
}

#[test]
fn elapsed_before_start_is_zero() {
    let mut tm = TaskManager::new(1, 1);
    tm.start_task("a", 10_000_000_000).unwrap();
    assert_eq!(tm.list_tasks(3).first().unwrap().elapsed_secs, 0);
    assert_eq!(tm.list_tasks(12_999_999_999).first().unwrap().elapsed_secs, 2);
}

#[test]
fn ring_started_non_empty_keeps_latest() {
    let mut ring = LogRing::new(3);
    ring.push("a".to_string());
    ring.push("b".to_string());
    for line in ["c", "d", "e"] {
        ring.push(line.to_string());
        assert!(ring.len() <= 3);
    }
    assert_eq!(ring.last(10), vec!["c", "d", "e"]);

    let mut wide = LogRing::new(4);
    wide.push("a".to_string());
    wide.push("b".to_string());
    for line in ["c", "d", "e"] {
        wide.push(line.to_string());
    }
    assert_eq!(wide.last(10), vec!["b", "c", "d", "e"]);
}

#[test]
fn many_tasks_listed_in_id_order() {
    let mut tm = TaskManager::new(100, 2);
    for i in 0..20u64 {
        assert_eq!(tm.start_task(&format!("job {i}"), i), Ok(i as u32 + 1));
    }
    tm.kill_task(5).unwrap();
    let list = tm.list_tasks(0);
    assert_eq!(list.len(), 20);
    for (k, s) in list.iter().enumerate() {
        assert_eq!(s.id, k as u32 + 1);
        assert_eq!(s.command, format!("job {k}"));
    }
    assert_eq!(list[4].status, TaskStatus::Killed);
    assert_eq!(tm.running_count(), 19);
}
