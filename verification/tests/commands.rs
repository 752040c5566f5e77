use gpu_guard::bot::{format_duration, handle_help, parse_command, BotCommand};
use gpu_guard::cli::{parse_input, CliCommand};

fn unknown(cmd: BotCommand) -> String {
    match cmd {
        BotCommand::Unknown(m) => m,
        _ => panic!("expected Unknown"),
    }
}

#[test]
fn bot_status_and_tasks() {
    assert!(matches!(parse_command("/status"), BotCommand::Status));
    assert!(matches!(parse_command("  /status@my_bot  "), BotCommand::Status));
    assert!(matches!(parse_command("/tasks extra words"), BotCommand::Tasks));
    assert!(matches!(parse_command("/help"), BotCommand::Help));
}

#[test]
fn bot_logs_defaults_and_values() {
    match parse_command("/logs 3 20") {
        BotCommand::Logs { task_id, lines } => {
            assert_eq!(task_id, 3);
            assert_eq!(lines, 20);
        }
        _ => panic!("expected Logs"),
    }
    match parse_command("/logs") {
        BotCommand::Logs { task_id, lines } => {
            assert_eq!(task_id, 0);
            assert_eq!(lines, 50);
        }
        _ => panic!("expected Logs"),
    }
    match parse_command("/logs@bot abc -3") {
        BotCommand::Logs { task_id, lines } => {
            assert_eq!(task_id, 0);
            assert_eq!(lines, 50);
        }
        _ => panic!("expected Logs"),
    }
    match parse_command("/logs +7\t\t100") {
        BotCommand::Logs { task_id, lines } => {
            assert_eq!(task_id, 7);
            assert_eq!(lines, 100);
        }
        _ => panic!("expected Logs"),
    }
}

#[test]
fn bot_start() {
    match parse_command("/start   echo  hi  ") {
        BotCommand::Start { command } => assert_eq!(command, "echo  hi"),
        _ => panic!("expected Start"),
    }
    match parse_command("/start@bot ls -la") {
        BotCommand::Start { command } => assert_eq!(command, "ls -la"),
        _ => panic!("expected Start"),
    }
    assert_eq!(unknown(parse_command("/start")), "Usage: /start <command>");
    assert_eq!(unknown(parse_command("/start    ")), "Usage: /start <command>");
}

#[test]
fn bot_kill() {
    assert!(matches!(parse_command("/kill 7"), BotCommand::Kill { task_id: 7 }));
    assert!(matches!(parse_command("/kill 0012 more"), BotCommand::Kill { task_id: 12 }));
    assert_eq!(unknown(parse_command("/kill")), "Usage: /kill <task_id>");
    assert_eq!(unknown(parse_command("/kill x")), "Usage: /kill <task_id>");
    assert_eq!(unknown(parse_command("/kill -1")), "Usage: /kill <task_id>");
    assert_eq!(unknown(parse_command("/kill 4294967296")), "Usage: /kill <task_id>");
    assert!(matches!(parse_command("/kill 4294967295"), BotCommand::Kill { task_id: 4294967295 }));
}

#[test]
fn bot_unknown() {
    assert_eq!(
        unknown(parse_command("/foo@bot bar")),
        "Unknown command: /foo\nSend /help for usage."
    );
    assert_eq!(unknown(parse_command("hello")), "Unknown command: hello\nSend /help for usage.");
    assert_eq!(unknown(parse_command("")), "Unknown command: \nSend /help for usage.");
    assert_eq!(unknown(parse_command("/STATUS")), "Unknown command: /STATUS\nSend /help for usage.");
}

#[test]
fn bot_unicode_whitespace() {
    // U+00A0 and U+3000 are whitespace for `str::trim`.
    assert!(matches!(parse_command("\u{a0}/status\u{3000}"), BotCommand::Status));
    match parse_command("/start\u{2003}top") {
        BotCommand::Start { command } => assert_eq!(command, "top"),
        _ => panic!("expected Start"),
    }
}

#[test]
fn durations() {
    assert_eq!(format_duration(0), "0s");
    assert_eq!(format_duration(59), "59s");
    assert_eq!(format_duration(60), "1m0s");
    assert_eq!(format_duration(187), "3m7s");
    assert_eq!(format_duration(3599), "59m59s");
    assert_eq!(format_duration(3600), "1h0m");
    assert_eq!(format_duration(7500), "2h5m");
    assert_eq!(format_duration(86400), "24h0m");
    assert_eq!(gpu_guard::cli::format_duration(61), "1m1s");
}

#[test]
fn help_text() {
    let h = handle_help();
    assert!(h.starts_with("<b>GPU Guard Bot</b>\n\n/status — Show GPU utilization"));
    assert!(h.ends_with("/help — This message"));
}

fn cli_unknown(cmd: CliCommand) -> String {
    match cmd {
        CliCommand::Unknown(m) => m,
        _ => panic!("expected Unknown"),
    }
}

#[test]
fn cli_commands() {
    assert!(matches!(parse_input(""), CliCommand::Empty));
    assert!(matches!(parse_input("  \t "), CliCommand::Empty));
    for t in ["tasks", "ls", "ps"] {
        assert!(matches!(parse_input(t), CliCommand::Tasks));
    }
    for t in ["status", "gpu"] {
        assert!(matches!(parse_input(t), CliCommand::Status));
    }
    for t in ["help", "?"] {
        assert!(matches!(parse_input(t), CliCommand::Help));
    }
    for t in ["quit", "exit", "q", "  q  "] {
        assert!(matches!(parse_input(t), CliCommand::Quit));
    }
    match parse_input("submit  python train.py --epochs 3 ") {
        CliCommand::Submit { command } => assert_eq!(command, "python train.py --epochs 3"),
        _ => panic!("expected Submit"),
    }
    match parse_input("run\tls") {
        CliCommand::Submit { command } => assert_eq!(command, "ls"),
        _ => panic!("expected Submit"),
    }
    assert_eq!(cli_unknown(parse_input("start")), "Usage: submit <command>");
    match parse_input("logs 2 10") {
        CliCommand::Logs { task_id, lines } => {
            assert_eq!(task_id, 2);
            assert_eq!(lines, 10);
        }
        _ => panic!("expected Logs"),
    }
    match parse_input("log") {
        CliCommand::Logs { task_id, lines } => {
            assert_eq!(task_id, 0);
            assert_eq!(lines, 50);
        }
        _ => panic!("expected Logs"),
    }
    assert!(matches!(parse_input("kill 3"), CliCommand::Kill { task_id: 3 }));
    assert!(matches!(parse_input("stop 4 5"), CliCommand::Kill { task_id: 4 }));
    assert_eq!(cli_unknown(parse_input("stop x")), "Usage: kill <task_id>");
    assert_eq!(
        cli_unknown(parse_input("foo bar")),
        "Unknown command: foo. Type 'help' for usage."
    );
    // The shell does not strip an `@name` suffix.
    assert_eq!(
        cli_unknown(parse_input("ls@x")),
        "Unknown command: ls@x. Type 'help' for usage."
    );
}

fn bot_desc(c: BotCommand) -> String {
    match c {
        BotCommand::Status => "status".to_string(),
        BotCommand::Tasks => "tasks".to_string(),
        BotCommand::Logs { task_id, lines } => format!("logs {task_id} {lines}"),
        BotCommand::Start { command } => format!("start {command}"),
        BotCommand::Kill { task_id } => format!("kill {task_id}"),
        BotCommand::Help => "help".to_string(),
        BotCommand::Unknown(m) => format!("unknown {m}"),
    }
}

fn cli_desc(c: CliCommand) -> String {
    match c {
        CliCommand::Submit { command } => format!("submit {command}"),
        CliCommand::Tasks => "tasks".to_string(),
        CliCommand::Logs { task_id, lines } => format!("logs {task_id} {lines}"),
        CliCommand::Kill { task_id } => format!("kill {task_id}"),
        CliCommand::Status => "status".to_string(),
        CliCommand::Help => "help".to_string(),
        CliCommand::Quit => "quit".to_string(),
        CliCommand::Empty => "empty".to_string(),
        CliCommand::Unknown(m) => format!("unknown {m}"),
    }
}

#[test]
fn bot_whitespace_around_message_changes_nothing() {
    for text in ["/logs 3 20", "/start  echo  hi ", "/kill 7", "hello", "", "/start"] {
        let padded = format!(" \t{text}\n ");
        assert_eq!(bot_desc(parse_command(&padded)), bot_desc(parse_command(text)));
        assert_eq!(bot_desc(parse_command(text.trim())), bot_desc(parse_command(text)));
    }
    assert_eq!(bot_desc(parse_command("\u{3000} /start  top \u{a0}")), "start top");
}

#[test]
fn cli_line_and_its_trim_parse_alike() {
    for line in ["submit  sleep 5  ", "logs 2", "  ", "", "run", "frobnicate x", "q"] {
        let padded = format!("\t {line} \n");
        assert_eq!(cli_desc(parse_input(&padded)), cli_desc(parse_input(line)));
        assert_eq!(cli_desc(parse_input(line.trim())), cli_desc(parse_input(line)));
        let is_empty = matches!(parse_input(line), CliCommand::Empty);
        assert_eq!(is_empty, line.trim().is_empty());
    }
    match parse_input("  start \t python train.py --lr 3  ") {
        CliCommand::Submit { command } => {
            assert_eq!(command, "python train.py --lr 3");
            assert_eq!(command, command.trim());
        }
        _ => panic!("expected Submit"),
    }
}
