use gpu_guard::bot::{
    can_render_logs, can_render_tasks, handle_kill, handle_logs, handle_start, handle_status,
    handle_tasks,
};
use gpu_guard::cli::{
    cmd_help, complete, history_search_indicator, prompt_left, cmd_logs,
    cmd_status, cmd_kill as cli_kill, cmd_submit, cmd_tasks,
};
use gpu_guard::task_manager::{TaskError, TaskStatus, TaskSummary};

fn summary(id: u32, command: &str, status: TaskStatus, elapsed_secs: u64) -> TaskSummary {
    TaskSummary { id, command: command.to_string(), status, elapsed_secs }
}

#[test]
fn tasks_reply() {
    assert_eq!(handle_tasks(&vec![]), "No tasks.");
    let long = "x".repeat(70);
    let tasks = vec![
        summary(1, "echo hi", TaskStatus::Running, 5),
        summary(2, &long, TaskStatus::Exited(Some(1)), 3700),
    ];
    assert!(can_render_tasks(&tasks));
    let msg = handle_tasks(&tasks);
    let expected = format!(
        "<b>Tasks</b>\n\n<b>#1</b> [Running] 5s\n  <code>echo hi</code>\n\n<b>#2</b> [Exited(1)] 1h1m\n  <code>{}...</code>\n\n",
        "x".repeat(57)
    );
    assert_eq!(msg, expected);
}

#[test]
fn tasks_reply_refuses_a_cut_inside_a_character() {
    // 56 ASCII bytes, then a 2-byte character over byte 57.
    let cmd = format!("{}é{}", "a".repeat(56), "b".repeat(10));
    assert!(!can_render_tasks(&vec![summary(1, &cmd, TaskStatus::Running, 0)]));
    let ok = format!("{}é{}", "a".repeat(55), "b".repeat(10));
    assert!(can_render_tasks(&vec![summary(1, &ok, TaskStatus::Running, 0)]));
}

#[test]
fn logs_reply() {
    let empty: Result<Vec<String>, TaskError> = Ok(vec![]);
    assert_eq!(handle_logs(4, &empty), "Task #4: no logs yet.");
    let err: Result<Vec<String>, TaskError> = Err(TaskError::NotFound(4));
    assert_eq!(handle_logs(4, &err), "Error: Task 4 not found");
    let lines: Result<Vec<String>, TaskError> = Ok(vec!["a<b>&c".to_string(), "done".to_string()]);
    assert!(can_render_logs(4, &lines));
    assert_eq!(
        handle_logs(4, &lines),
        "<b>Logs for task #4</b> (last 2 lines)\n\n<pre>a&lt;b&gt;&amp;c\ndone\n</pre>"
    );
}

#[test]
fn logs_reply_is_cut_to_4000_bytes() {
    let lines: Result<Vec<String>, TaskError> = Ok(vec!["y".repeat(5000)]);
    assert!(can_render_logs(1, &lines));
    let msg = handle_logs(1, &lines);
    assert!(msg.ends_with("\n... (truncated)"));
    assert_eq!(msg.len(), 4000 + "\n... (truncated)".len());
    assert!(msg.starts_with("<b>Logs for task #1</b> (last 1 lines)\n\n<pre>yyy"));
}

#[test]
fn start_kill_status_replies() {
    assert_eq!(handle_start(&Ok(3), "ls"), "Started task <b>#3</b>\n<code>ls</code>");
    assert_eq!(
        handle_start(&Err("Max concurrent tasks (2) reached".to_string()), "ls"),
        "Failed to start task: Max concurrent tasks (2) reached"
    );
    assert_eq!(handle_kill(5, &Ok(())), "Killed task <b>#5</b>");
    assert_eq!(
        handle_kill(5, &Err("Task 5 not found".to_string())),
        "Failed to kill task #5: Task 5 not found"
    );
    assert_eq!(handle_status(&Ok(vec![])), "No GPUs detected.");
    assert_eq!(
        handle_status(&Ok(vec!["A\n\n".to_string(), "B\n\n".to_string()])),
        "<b>GPU Status</b>\n\nA\n\nB\n\n"
    );
    assert_eq!(handle_status(&Err("boom".to_string())), "Failed to query GPUs: boom");
}

#[test]
fn prompt_and_completion() {
    assert_eq!(prompt_left(0), "gpu-guard");
    assert_eq!(prompt_left(3), "gpu-guard [3]");
    assert_eq!(history_search_indicator(false), "search: ");
    assert_eq!(history_search_indicator(true), "(failed) search: ");
    assert_eq!(complete("lo", 2), vec!["logs"]);
    assert_eq!(complete("s", 1), vec!["submit", "start", "stop", "status"]);
    assert_eq!(complete("sxyz", 1), vec!["submit", "start", "stop", "status"]);
    assert_eq!(complete("", 0).len(), 14);
    assert_eq!(complete("ls -", 4), Vec::<String>::new());
    assert_eq!(complete("zz", 2), Vec::<String>::new());
}

#[test]
fn cli_task_table() {
    assert_eq!(cmd_tasks(&vec![]), vec!["No tasks."]);
    let tasks = vec![
        summary(1, "sleep 100", TaskStatus::Running, 65),
        summary(12, &"z".repeat(45), TaskStatus::Exited(Some(0)), 3),
        summary(3, "false", TaskStatus::Exited(Some(1)), 0),
        summary(4, "yes", TaskStatus::Killed, 7200),
    ];
    let lines = cmd_tasks(&tasks);
    assert_eq!(lines.len(), 6);
    assert_eq!(
        lines[0],
        format!("\x1b[1m{:<6} {:<12} {:>10}  {}\x1b[0m", "ID", "Status", "Elapsed", "Command")
    );
    assert_eq!(lines[1], "-".repeat(70));
    assert_eq!(
        lines[2],
        format!("#{:<5} {}{:<12}\x1b[0m {:>10}  {}", 1, "\x1b[32m", "Running", "1m5s", "sleep 100")
    );
    assert_eq!(
        lines[3],
        format!(
            "#{:<5} {}{:<12}\x1b[0m {:>10}  {}",
            12,
            "\x1b[34m",
            "Exited(0)",
            "3s",
            format!("{}...", "z".repeat(37))
        )
    );
    assert!(lines[4].starts_with("#3     \x1b[31mExited(1)"));
    assert!(lines[5].starts_with("#4     \x1b[33mKilled      \x1b[0m       2h0m  yes"));
}

#[test]
fn cli_logs_and_messages() {
    let ok: Result<Vec<String>, TaskError> = Ok(vec!["a".to_string(), "<b>".to_string()]);
    assert_eq!(cmd_logs(0, &ok), vec!["Usage: logs <task_id> [lines]"]);
    assert_eq!(
        cmd_logs(2, &ok),
        vec![
            "\x1b[1m--- Task #2 (last 2 lines) ---\x1b[0m",
            "a",
            "<b>",
            "\x1b[1m--- end ---\x1b[0m"
        ]
    );
    let none: Result<Vec<String>, TaskError> = Ok(vec![]);
    assert_eq!(cmd_logs(2, &none), vec!["Task #2: no logs yet."]);
    let err: Result<Vec<String>, TaskError> = Err(TaskError::NotFound(2));
    assert_eq!(cmd_logs(2, &err), vec!["\x1b[31mError: Task 2 not found\x1b[0m"]);
    assert_eq!(cmd_submit(&Ok(7), "ls"), "\x1b[32mTask #7 started:\x1b[0m ls");
    assert_eq!(cmd_submit(&Err("nope".to_string()), "ls"), "\x1b[31mFailed: nope\x1b[0m");
    assert_eq!(cli_kill(7, &Ok(())), "\x1b[33mTask #7 killed.\x1b[0m");
    assert_eq!(cli_kill(7, &Err("nope".to_string())), "\x1b[31mFailed: nope\x1b[0m");
    assert!(cmd_help().starts_with("\x1b[1mCommands:\x1b[0m\n"));
    assert_eq!(cmd_status(&Ok(vec![])), vec!["No GPUs detected."]);
    let rows = cmd_status(&Ok(vec!["row".to_string()]));
    assert_eq!(
        rows[0],
        format!("\x1b[1m{:<6} {:<30} {:>8} {:>18}\x1b[0m", "GPU", "Name", "Util%", "Memory")
    );
    assert_eq!(rows[1], "-".repeat(66));
    assert_eq!(rows[2], "row");
    assert_eq!(
        cmd_status(&Err("x".to_string())),
        vec!["\x1b[31mFailed to query GPUs: x\x1b[0m"]
    );
}
