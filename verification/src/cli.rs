//! The interactive shell's logic: parsing a line into a command, completing
//! command names, and the lines the shell prints.
use vstd::prelude::*;
use crate::bot::{duration_text, text_result, texts_result};
use crate::task_manager::{
    status_text, string_views, task_error_text, TaskError, TaskId, TaskStatus, TaskSummary,
    TaskSummaryView,
};
use crate::text::{
    chars_in_bytes, chars_of, cuts_cleanly, cuts_cleanly_exec, decimal, first_word,
    first_word_bounds, is_char_boundary, pad_left, pad_right, parse_u32, parse_u32_opt,
    parse_usize, parse_usize_opt, push_chars, push_decimal, push_padded_left, push_padded_right,
    push_shortened, push_string, second_word, shorten, slice_is, string_of, take_bytes, trim,
    trim_bounds, word_end, word_prefix, all_ws, lemma_trim_surrounding, lemma_trim_idempotent,
    lemma_one_word, lemma_two_words, lemma_word_prefix_concat, is_ws, no_ws, trim_start, trim_end,
    byte_len, lemma_take_all_bytes,
};

verus! {

/// A command typed into the shell.
pub enum CliCommand {
    /// `submit|run|start <command>`: run a shell command as a managed task.
    Submit { command: String },
    /// `tasks|ls|ps`: list tasks.
    Tasks,
    /// `logs|log <id> [lines]`: show a task's output.
    Logs { task_id: TaskId, lines: usize },
    /// `kill|stop <id>`: kill a task.
    Kill { task_id: TaskId },
    /// `status|gpu`: show GPU utilization.
    Status,
    /// `help|?`: show the help text.
    Help,
    /// `quit|exit|q`: leave the shell.
    Quit,
    /// A blank line.
    Empty,
    /// Anything else; holds the message to print.
    Unknown(String),
}

/// The model of a `CliCommand`.
pub enum CliCommandView {
    Submit { command: Seq<char> },
    Tasks,
    Logs { task_id: TaskId, lines: usize },
    Kill { task_id: TaskId },
    Status,
    Help,
    Quit,
    Empty,
    Unknown(Seq<char>),
}

impl View for CliCommand {
    type V = CliCommandView;

    open spec fn view(&self) -> CliCommandView {
        match self {
            CliCommand::Submit { command } => CliCommandView::Submit { command: command@ },
            CliCommand::Tasks => CliCommandView::Tasks,
            CliCommand::Logs { task_id, lines } => CliCommandView::Logs {
                task_id: *task_id,
                lines: *lines,
            },
            CliCommand::Kill { task_id } => CliCommandView::Kill { task_id: *task_id },
            CliCommand::Status => CliCommandView::Status,
            CliCommand::Help => CliCommandView::Help,
            CliCommand::Quit => CliCommandView::Quit,
            CliCommand::Empty => CliCommandView::Empty,
            CliCommand::Unknown(msg) => CliCommandView::Unknown(msg@),
        }
    }
}

/// The command word of a trimmed, non-empty line and the trimmed text after
/// the first whitespace character (`splitn(2, char::is_whitespace)`).
pub open spec fn line_parts(t: Seq<char>) -> (Seq<char>, Seq<char>) {
    let cmd = word_prefix(t);
    (
        cmd,
        if cmd.len() < t.len() {
            trim(t.skip(cmd.len() + 1int))
        } else {
            Seq::empty()
        },
    )
}

/// The command that a line typed into the shell holds.
pub open spec fn parse_input_spec(line: Seq<char>) -> CliCommandView {
    let t = trim(line);
    if t.len() == 0 {
        CliCommandView::Empty
    } else {
        let (cmd, rest) = line_parts(t);
        if cmd == "submit"@ || cmd == "run"@ || cmd == "start"@ {
            if rest.len() == 0 {
                CliCommandView::Unknown("Usage: submit <command>"@)
            } else {
                CliCommandView::Submit { command: rest }
            }
        } else if cmd == "tasks"@ || cmd == "ls"@ || cmd == "ps"@ {
            CliCommandView::Tasks
        } else if cmd == "logs"@ || cmd == "log"@ {
            CliCommandView::Logs {
                task_id: match parse_u32_opt(first_word(rest)) {
                    Some(id) => id,
                    None => 0,
                },
                lines: match parse_usize_opt(second_word(rest)) {
                    Some(n) => n,
                    None => 50,
                },
            }
        } else if cmd == "kill"@ || cmd == "stop"@ {
            match parse_u32_opt(first_word(rest)) {
                Some(id) => CliCommandView::Kill { task_id: id },
                None => CliCommandView::Unknown("Usage: kill <task_id>"@),
            }
        } else if cmd == "status"@ || cmd == "gpu"@ {
            CliCommandView::Status
        } else if cmd == "help"@ || cmd == "?"@ {
            CliCommandView::Help
        } else if cmd == "quit"@ || cmd == "exit"@ || cmd == "q"@ {
            CliCommandView::Quit
        } else {
            CliCommandView::Unknown("Unknown command: "@ + cmd + ". Type 'help' for usage."@)
        }
    }
}

/// Parses a line typed into the shell. The first word names the command;
/// `logs` defaults to task 0 and 50 lines.
pub fn parse_input(line: &str) -> (cmd: CliCommand)
    ensures
        cmd@ == parse_input_spec(line@),
{
    let v = chars_of(line);
    let (a, b) = trim_bounds(&v, 0, v.len());
    proof {
        assert(v@.subrange(0, v@.len() as int) =~= line@);
    }
    if a == b {
        return CliCommand::Empty;
    }
    let e = word_end(&v, a, b);
    let (ra, rb) = if e < b {
        proof {
            assert(v@.subrange(a as int, b as int).skip(e - a + 1) =~= v@.subrange(
                e + 1,
                b as int,
            ));
        }
        trim_bounds(&v, e + 1, b)
    } else {
        (b, b)
    };
    if slice_is(&v, a, e, "submit") || slice_is(&v, a, e, "run") || slice_is(&v, a, e, "start") {
        if ra == rb {
            CliCommand::Unknown(String::from_str("Usage: submit <command>"))
        } else {
            CliCommand::Submit { command: string_of(&v, ra, rb) }
        }
    } else if slice_is(&v, a, e, "tasks") || slice_is(&v, a, e, "ls") || slice_is(&v, a, e, "ps") {
        CliCommand::Tasks
    } else if slice_is(&v, a, e, "logs") || slice_is(&v, a, e, "log") {
        let (w1s, w1e) = first_word_bounds(&v, ra, rb);
        let (w2s, w2e) = first_word_bounds(&v, w1e, rb);
        let task_id = match parse_u32(&v, w1s, w1e) {
            Some(id) => id,
            None => 0,
        };
        let lines = match parse_usize(&v, w2s, w2e) {
            Some(n) => n,
            None => 50,
        };
        CliCommand::Logs { task_id, lines }
    } else if slice_is(&v, a, e, "kill") || slice_is(&v, a, e, "stop") {
        let (w1s, w1e) = first_word_bounds(&v, ra, rb);
        match parse_u32(&v, w1s, w1e) {
            Some(id) => CliCommand::Kill { task_id: id },
            None => CliCommand::Unknown(String::from_str("Usage: kill <task_id>")),
        }
    } else if slice_is(&v, a, e, "status") || slice_is(&v, a, e, "gpu") {
        CliCommand::Status
    } else if slice_is(&v, a, e, "help") || slice_is(&v, a, e, "?") {
        CliCommand::Help
    } else if slice_is(&v, a, e, "quit") || slice_is(&v, a, e, "exit") || slice_is(
        &v,
        a,
        e,
        "q",
    ) {
        CliCommand::Quit
    } else {
        let mut msg = String::from_str("Unknown command: ");
        push_chars(&mut msg, &v, a, e);
        msg.append(". Type 'help' for usage.");
        CliCommand::Unknown(msg)
    }
}

/// Formats an elapsed time as the bot does (`42s`, `3m7s`, `2h5m`).
pub fn format_duration(secs: u64) -> (s: String)
    ensures
        s@ == duration_text(secs as nat),
{
    crate::bot::format_duration(secs)
}

// ---------------------------------------------------------------------
// Prompt and completion
// ---------------------------------------------------------------------

/// The prompt: `gpu-guard`, with the number of running tasks in brackets
/// when there are any.
pub open spec fn prompt_text(running: nat) -> Seq<char> {
    if running > 0 {
        "gpu-guard ["@ + decimal(running) + "]"@
    } else {
        "gpu-guard"@
    }
}

/// The left part of the prompt.
pub fn prompt_left(running: usize) -> (s: String)
    ensures
        s@ == prompt_text(running as nat),
{
    if running > 0 {
        let mut s = String::from_str("gpu-guard [");
        push_decimal(&mut s, running as u64);
        s.append("]");
        s
    } else {
        String::from_str("gpu-guard")
    }
}

/// The prompt shown while searching the history.
pub open spec fn history_search_text(failing: bool) -> Seq<char> {
    if failing {
        "(failed) search: "@
    } else {
        "search: "@
    }
}

/// The prompt shown while searching the history; `failing` when the search
/// finds nothing.
pub fn history_search_indicator(failing: bool) -> (s: String)
    ensures
        s@ == history_search_text(failing),
{
    if failing {
        String::from_str("(failed) search: ")
    } else {
        String::from_str("search: ")
    }
}

/// The command names that completion offers, in order.
pub open spec fn shell_commands() -> Seq<Seq<char>> {
    seq![
        "submit"@,
        "run"@,
        "start"@,
        "tasks"@,
        "ls"@,
        "ps"@,
        "logs"@,
        "kill"@,
        "stop"@,
        "status"@,
        "gpu"@,
        "help"@,
        "quit"@,
        "exit"@,
    ]
}

/// The names of `cmds` that start with `prefix`, in order.
pub open spec fn matching(cmds: Seq<Seq<char>>, prefix: Seq<char>) -> Seq<Seq<char>>
    decreases cmds.len(),
{
    if cmds.len() == 0 {
        Seq::empty()
    } else {
        matching(cmds.drop_last(), prefix) + if prefix.is_prefix_of(cmds.last()) {
            seq![cmds.last()]
        } else {
            Seq::empty()
        }
    }
}

/// The completions of `line` with the cursor at byte `pos`: only the first
/// word is completed, so none once the text before the cursor holds a space.
pub open spec fn completions(line: Seq<char>, pos: nat) -> Seq<Seq<char>> {
    let prefix = take_bytes(line, pos);
    if prefix.contains(' ') {
        Seq::empty()
    } else {
        matching(shell_commands(), prefix)
    }
}

fn shell_command_names() -> (v: Vec<&'static str>)
    ensures
        v@.len() == shell_commands().len(),
        forall|i: int| 0 <= i < v@.len() ==> (#[trigger] v@[i])@ == shell_commands()[i],
{
    let mut v: Vec<&'static str> = Vec::new();
    v.push("submit");
    v.push("run");
    v.push("start");
    v.push("tasks");
    v.push("ls");
    v.push("ps");
    v.push("logs");
    v.push("kill");
    v.push("stop");
    v.push("status");
    v.push("gpu");
    v.push("help");
    v.push("quit");
    v.push("exit");
    v
}

fn starts_with(w: &Vec<char>, prefix: &Vec<char>, k: usize) -> (r: bool)
    requires
        k <= prefix.len(),
    ensures
        r == prefix@.take(k as int).is_prefix_of(w@),
{
    if k > w.len() {
        return false;
    }
    let mut i: usize = 0;
    while i < k
        invariant
            k <= prefix.len(),
            k <= w.len(),
            i <= k,
            forall|j: int| 0 <= j < i ==> prefix@[j] == w@[j],
        decreases k - i,
    {
        if prefix[i] != w[i] {
            assert(prefix@.take(k as int)[i as int] != w@[i as int]);
            return false;
        }
        i = i + 1;
    }
    assert(prefix@.take(k as int) =~= w@.take(k as int));
    true
}

/// The command names that complete the first word of `line`, where the
/// cursor stands at byte `pos` (which must fall between characters).
pub fn complete(line: &str, pos: usize) -> (r: Vec<String>)
    requires
        is_char_boundary(line@, pos as nat),
    ensures
        string_views(r@) == completions(line@, pos as nat),
{
    let v = chars_of(line);
    let (k, _) = chars_in_bytes(&v, pos);
    let ghost prefix = v@.take(k as int);
    let mut i: usize = 0;
    while i < k
        invariant
            i <= k <= v.len(),
            prefix == v@.take(k as int),
            v@ == line@,
            take_bytes(v@, pos as nat) == v@.take(k as int),
            forall|j: int| 0 <= j < i ==> v@[j] != ' ',
        decreases k - i,
    {
        if v[i] == ' ' {
            assert(prefix[i as int] == ' ');
            assert(prefix.contains(' '));
            assert(take_bytes(line@, pos as nat) == prefix);
            assert(completions(line@, pos as nat) == Seq::<Seq<char>>::empty());
            let empty: Vec<String> = Vec::new();
            assert(string_views(empty@) =~= Seq::<Seq<char>>::empty());
            return empty;
        }
        i = i + 1;
    }
    assert(!prefix.contains(' '));
    let names = shell_command_names();
    let ghost cmds = shell_commands();
    let mut r: Vec<String> = Vec::new();
    let mut n: usize = 0;
    while n < names.len()
        invariant
            n <= names@.len(),
            k <= v.len(),
            prefix == v@.take(k as int),
            names@.len() == cmds.len(),
            cmds == shell_commands(),
            forall|j: int| 0 <= j < names@.len() ==> (#[trigger] names@[j])@ == cmds[j],
            string_views(r@) == matching(cmds.take(n as int), prefix),
        decreases names@.len() - n,
    {
        let w = chars_of(names[n]);
        let ghost before = string_views(r@);
        assert(cmds.take(n + 1).drop_last() =~= cmds.take(n as int));
        assert(cmds.take(n + 1).last() == cmds[n as int]);
        if starts_with(&w, &v, k) {
            r.push(String::from_str(names[n]));
            assert(string_views(r@) =~= before + seq![cmds[n as int]]);
        } else {
            assert(before + Seq::<Seq<char>>::empty() =~= before);
        }
        n = n + 1;
    }
    assert(cmds.take(n as int) =~= cmds);
    r
}

// ---------------------------------------------------------------------
// What the shell prints
// ---------------------------------------------------------------------

/// `n` dashes.
pub open spec fn dashes(n: nat) -> Seq<char> {
    Seq::new(n, |i: int| '-')
}

fn dash_line(n: usize) -> (s: String)
    ensures
        s@ == dashes(n as nat),
{
    let mut s = String::new();
    let mut i: usize = 0;
    while i < n
        invariant
            i <= n,
            s@ == dashes(i as nat),
        decreases n - i,
    {
        crate::text::push_char(&mut s, '-');
        assert(dashes(i as nat).push('-') =~= dashes((i + 1) as nat));
        i = i + 1;
    }
    s
}

/// The color in which a status is shown: green while running, blue after
/// exit code 0, red after another exit, yellow when killed.
pub open spec fn status_color(s: TaskStatus) -> Seq<char> {
    match s {
        TaskStatus::Running => "\x1b[32m"@,
        TaskStatus::Exited(Some(0)) => "\x1b[34m"@,
        TaskStatus::Exited(_) => "\x1b[31m"@,
        TaskStatus::Killed => "\x1b[33m"@,
    }
}

fn status_color_exec(s: TaskStatus) -> (c: &'static str)
    ensures
        c@ == status_color(s),
{
    match s {
        TaskStatus::Running => "\x1b[32m",
        TaskStatus::Exited(Some(0)) => "\x1b[34m",
        TaskStatus::Exited(_) => "\x1b[31m",
        TaskStatus::Killed => "\x1b[33m",
    }
}

/// The heading of the task table.
pub open spec fn task_table_header() -> Seq<char> {
    "\x1b[1mID     Status          Elapsed  Command\x1b[0m"@
}

/// One row of the task table; commands longer than 40 bytes are cut to 37
/// bytes and `...`.
pub open spec fn task_row(t: TaskSummaryView) -> Seq<char> {
    "#"@ + pad_right(decimal(t.id as nat), 5) + " "@ + status_color(t.status) + pad_right(
        status_text(t.status),
        12,
    ) + "\x1b[0m "@ + pad_left(duration_text(t.elapsed_secs as nat), 10) + "  "@ + shorten(
        t.command,
        40,
        37,
    )
}

/// The lines that `tasks` prints.
pub open spec fn task_table(ts: Seq<TaskSummaryView>) -> Seq<Seq<char>> {
    if ts.len() == 0 {
        seq!["No tasks."@]
    } else {
        seq![task_table_header(), dashes(70)] + ts.map_values(|t: TaskSummaryView| task_row(t))
    }
}

/// Every long command can be cut at byte 37 (slicing panics otherwise).
pub open spec fn table_render_ok(ts: Seq<TaskSummaryView>) -> bool {
    forall|i: int| 0 <= i < ts.len() ==> cuts_cleanly(#[trigger] ts[i].command, 40, 37)
}

/// Whether `cmd_tasks` may be called on `tasks`.
pub fn can_show_tasks(tasks: &Vec<TaskSummary>) -> (r: bool)
    ensures
        r == table_render_ok(crate::bot::summary_views(tasks@)),
{
    let mut i: usize = 0;
    while i < tasks.len()
        invariant
            i <= tasks@.len(),
            forall|j: int| 0 <= j < i ==> cuts_cleanly(#[trigger] tasks@[j].command@, 40, 37),
        decreases tasks@.len() - i,
    {
        if !cuts_cleanly_exec(&tasks[i].command, 40, 37) {
            assert(crate::bot::summary_views(tasks@)[i as int].command == tasks@[i as int].command@);
            return false;
        }
        i = i + 1;
    }
    assert forall|j: int| 0 <= j < crate::bot::summary_views(tasks@).len() implies cuts_cleanly(
        #[trigger] crate::bot::summary_views(tasks@)[j].command,
        40,
        37,
    ) by {
        assert(crate::bot::summary_views(tasks@)[j].command == tasks@[j].command@);
    }
    true
}

fn task_row_exec(t: &TaskSummary) -> (s: String)
    requires
        cuts_cleanly(t.command@, 40, 37),
    ensures
        s@ == task_row(t@),
{
    let mut s = String::from_str("#");
    let mut id = String::new();
    push_decimal(&mut id, t.id as u64);
    assert(id@ =~= decimal(t.id as nat));
    push_padded_right(&mut s, &id, 5);
    s.append(" ");
    s.append(status_color_exec(t.status));
    let st = t.status.to_string();
    push_padded_right(&mut s, &st, 12);
    s.append("\x1b[0m ");
    let el = format_duration(t.elapsed_secs);
    push_padded_left(&mut s, &el, 10);
    s.append("  ");
    push_shortened(&mut s, &t.command, 40, 37);
    assert(s@ =~= task_row(t@));
    s
}

/// The lines that `tasks` prints for these summaries.
pub fn cmd_tasks(tasks: &Vec<TaskSummary>) -> (r: Vec<String>)
    requires
        table_render_ok(crate::bot::summary_views(tasks@)),
    ensures
        string_views(r@) == task_table(crate::bot::summary_views(tasks@)),
{
    let ghost views = crate::bot::summary_views(tasks@);
    let mut r: Vec<String> = Vec::new();
    if tasks.len() == 0 {
        r.push(String::from_str("No tasks."));
        assert(string_views(r@) =~= task_table(views));
        return r;
    }
    r.push(String::from_str("\x1b[1mID     Status          Elapsed  Command\x1b[0m"));
    r.push(dash_line(70));
    let mut i: usize = 0;
    while i < tasks.len()
        invariant
            i <= tasks@.len(),
            views == crate::bot::summary_views(tasks@),
            table_render_ok(views),
            string_views(r@) == seq![task_table_header(), dashes(70)] + views.take(
                i as int,
            ).map_values(|t: TaskSummaryView| task_row(t)),
        decreases tasks@.len() - i,
    {
        assert(views[i as int] == tasks@[i as int]@);
        assert(cuts_cleanly(views[i as int].command, 40, 37));
        let row = task_row_exec(&tasks[i]);
        let ghost before = string_views(r@);
        r.push(row);
        assert(string_views(r@) =~= before.push(task_row(views[i as int])));
        assert(views.take(i + 1).map_values(|t: TaskSummaryView| task_row(t)) =~= views.take(
            i as int,
        ).map_values(|t: TaskSummaryView| task_row(t)).push(task_row(views[i as int])));
        i = i + 1;
    }
    assert(views.take(i as int) =~= views);
    r
}

/// The lines that `logs <id>` prints, given what the log query returned.
/// Task 0 gets the usage line.
pub open spec fn cli_logs_lines(id: TaskId, r: Result<Seq<Seq<char>>, TaskError>) -> Seq<
    Seq<char>,
> {
    if id == 0 {
        seq!["Usage: logs <task_id> [lines]"@]
    } else {
        match r {
            Ok(lines) => if lines.len() == 0 {
                seq!["Task #"@ + decimal(id as nat) + ": no logs yet."@]
            } else {
                seq![
                    "\x1b[1m--- Task #"@ + decimal(id as nat) + " (last "@ + decimal(lines.len())
                        + " lines) ---\x1b[0m"@,
                ] + lines + seq!["\x1b[1m--- end ---\x1b[0m"@]
            },
            Err(e) => seq!["\x1b[31mError: "@ + task_error_text(e) + "\x1b[0m"@],
        }
    }
}

/// The lines that `logs <id>` prints.
pub fn cmd_logs(id: TaskId, r: &Result<Vec<String>, TaskError>) -> (out: Vec<String>)
    ensures
        string_views(out@) == cli_logs_lines(id, crate::bot::logs_result_view(*r)),
{
    let mut out: Vec<String> = Vec::new();
    if id == 0 {
        out.push(String::from_str("Usage: logs <task_id> [lines]"));
        assert(string_views(out@) =~= cli_logs_lines(id, crate::bot::logs_result_view(*r)));
        return out;
    }
    match r {
        Ok(lines) => {
            if lines.len() == 0 {
                let mut s = String::from_str("Task #");
                push_decimal(&mut s, id as u64);
                s.append(": no logs yet.");
                out.push(s);
            } else {
                let mut s = String::from_str("\x1b[1m--- Task #");
                push_decimal(&mut s, id as u64);
                s.append(" (last ");
                push_decimal(&mut s, lines.len() as u64);
                s.append(" lines) ---\x1b[0m");
                out.push(s);
                let ghost head = string_views(out@);
                let mut i: usize = 0;
                while i < lines.len()
                    invariant
                        i <= lines@.len(),
                        string_views(out@) == head + string_views(lines@).take(i as int),
                    decreases lines@.len() - i,
                {
                    let ghost before = string_views(out@);
                    let item = lines[i].clone();
                    assert(item == lines@[i as int]);
                    out.push(item);
                    assert(string_views(out@) =~= before.push(item@));
                    assert(string_views(lines@).take(i + 1) =~= string_views(lines@).take(
                        i as int,
                    ).push(lines@[i as int]@));
                    assert(string_views(out@) =~= head + string_views(lines@).take(i + 1));
                    i = i + 1;
                }
                assert(string_views(lines@).take(i as int) =~= string_views(lines@));
                let end = String::from_str("\x1b[1m--- end ---\x1b[0m");
                let ghost mid = string_views(out@);
                out.push(end);
                assert(string_views(out@) =~= mid.push(end@));
                assert(string_views(out@) =~= head + string_views(lines@) + seq![end@]);
            }
        },
        Err(e) => {
            let mut s = String::from_str("\x1b[31mError: ");
            let m = e.message();
            push_string(&mut s, &m);
            s.append("\x1b[0m");
            out.push(s);
        },
    }
    assert(string_views(out@) =~= cli_logs_lines(id, crate::bot::logs_result_view(*r)));
    out
}

/// What `submit` prints, given the new task's id or why it did not start.
pub open spec fn submit_line(r: Result<TaskId, Seq<char>>, command: Seq<char>) -> Seq<char> {
    match r {
        Ok(id) => "\x1b[32mTask #"@ + decimal(id as nat) + " started:\x1b[0m "@ + command,
        Err(e) => "\x1b[31mFailed: "@ + e + "\x1b[0m"@,
    }
}

/// What `submit <command>` prints.
pub fn cmd_submit(r: &Result<TaskId, String>, command: &str) -> (s: String)
    ensures
        s@ == submit_line(text_result(*r), command@),
{
    match r {
        Ok(id) => {
            let mut s = String::from_str("\x1b[32mTask #");
            push_decimal(&mut s, *id as u64);
            s.append(" started:\x1b[0m ");
            s.append(command);
            s
        },
        Err(e) => {
            let mut s = String::from_str("\x1b[31mFailed: ");
            push_string(&mut s, e);
            s.append("\x1b[0m");
            s
        },
    }
}

/// What `kill <id>` prints.
pub open spec fn kill_line(id: TaskId, r: Result<(), Seq<char>>) -> Seq<char> {
    match r {
        Ok(()) => "\x1b[33mTask #"@ + decimal(id as nat) + " killed.\x1b[0m"@,
        Err(e) => "\x1b[31mFailed: "@ + e + "\x1b[0m"@,
    }
}

/// What `kill <id>` prints.
pub fn cmd_kill(id: TaskId, r: &Result<(), String>) -> (s: String)
    ensures
        s@ == kill_line(id, text_result(*r)),
{
    match r {
        Ok(()) => {
            let mut s = String::from_str("\x1b[33mTask #");
            push_decimal(&mut s, id as u64);
            s.append(" killed.\x1b[0m");
            s
        },
        Err(e) => {
            let mut s = String::from_str("\x1b[31mFailed: ");
            push_string(&mut s, e);
            s.append("\x1b[0m");
            s
        },
    }
}

/// The shell's help text.
pub open spec fn cli_help_text() -> Seq<char> {
    "\x1b[1mCommands:\x1b[0m\n  \x1b[36msubmit\x1b[0m <command>      Run a shell command as a managed task\n  \x1b[36mtasks\x1b[0m                 List all tasks\n  \x1b[36mlogs\x1b[0m <id> [lines]     Show task logs (default 50 lines)\n  \x1b[36mkill\x1b[0m <id>             Kill a running task\n  \x1b[36mstatus\x1b[0m                Show GPU utilization\n  \x1b[36mhelp\x1b[0m                  Show this message\n  \x1b[36mquit\x1b[0m                  Exit GPU Guard\n\n\x1b[2mAliases: run/start = submit, ls/ps = tasks, stop = kill, gpu = status\x1b[0m"@
}

/// What `help` prints.
pub fn cmd_help() -> (s: String)
    ensures
        s@ == cli_help_text(),
{
    String::from_str(
        "\x1b[1mCommands:\x1b[0m\n  \x1b[36msubmit\x1b[0m <command>      Run a shell command as a managed task\n  \x1b[36mtasks\x1b[0m                 List all tasks\n  \x1b[36mlogs\x1b[0m <id> [lines]     Show task logs (default 50 lines)\n  \x1b[36mkill\x1b[0m <id>             Kill a running task\n  \x1b[36mstatus\x1b[0m                Show GPU utilization\n  \x1b[36mhelp\x1b[0m                  Show this message\n  \x1b[36mquit\x1b[0m                  Exit GPU Guard\n\n\x1b[2mAliases: run/start = submit, ls/ps = tasks, stop = kill, gpu = status\x1b[0m",
    )
}

/// The heading of the GPU table.
pub open spec fn gpu_table_header() -> Seq<char> {
    "\x1b[1mGPU    Name                              Util%             Memory\x1b[0m"@
}

/// The lines that `status` prints, given one row per GPU or why the GPUs
/// could not be queried.
pub open spec fn status_lines(r: Result<Seq<Seq<char>>, Seq<char>>) -> Seq<Seq<char>> {
    match r {
        Ok(rows) => if rows.len() == 0 {
            seq!["No GPUs detected."@]
        } else {
            seq![gpu_table_header(), dashes(66)] + rows
        },
        Err(e) => seq!["\x1b[31mFailed to query GPUs: "@ + e + "\x1b[0m"@],
    }
}

/// The lines that `status` prints.
pub fn cmd_status(r: &Result<Vec<String>, String>) -> (out: Vec<String>)
    ensures
        string_views(out@) == status_lines(texts_result(*r)),
{
    let mut out: Vec<String> = Vec::new();
    match r {
        Ok(rows) => {
            if rows.len() == 0 {
                out.push(String::from_str("No GPUs detected."));
            } else {
                out.push(
                    String::from_str(
                        "\x1b[1mGPU    Name                              Util%             Memory\x1b[0m",
                    ),
                );
                out.push(dash_line(66));
                let ghost head = string_views(out@);
                let mut i: usize = 0;
                while i < rows.len()
                    invariant
                        i <= rows@.len(),
                        string_views(out@) == head + string_views(rows@).take(i as int),
                    decreases rows@.len() - i,
                {
                    let ghost before = string_views(out@);
                    let item = rows[i].clone();
                    assert(item == rows@[i as int]);
                    out.push(item);
                    assert(string_views(out@) =~= before.push(item@));
                    assert(string_views(rows@).take(i + 1) =~= string_views(rows@).take(
                        i as int,
                    ).push(rows@[i as int]@));
                    assert(string_views(out@) =~= head + string_views(rows@).take(i + 1));
                    i = i + 1;
                }
                assert(string_views(rows@).take(i as int) =~= string_views(rows@));
            }
        },
        Err(e) => {
            let mut s = String::from_str("\x1b[31mFailed to query GPUs: ");
            push_string(&mut s, e);
            s.append("\x1b[0m");
            out.push(s);
        },
    }
    assert(string_views(out@) =~= status_lines(texts_result(*r)));
    out
}

/// A line and its trimmed form parse alike, whitespace around a line never
/// changes it, only a blank line is `Empty`, and a submitted command is
/// non-empty and has no surrounding whitespace.
pub proof fn lemma_line_read_as_trimmed(w1: Seq<char>, line: Seq<char>, w2: Seq<char>)
    requires
        all_ws(w1),
        all_ws(w2),
    ensures
        parse_input_spec(trim(line)) == parse_input_spec(line),
        parse_input_spec(w1 + line + w2) == parse_input_spec(line),
        (parse_input_spec(line) is Empty) <==> trim(line).len() == 0,
        parse_input_spec(line) matches CliCommandView::Submit { command } ==> command.len() > 0
            && trim(command) == command,
{
    lemma_trim_surrounding(w1, line, w2);
    lemma_trim_idempotent(line);
    let t = trim(line);
    if t.len() > 0 {
        let rest = line_parts(t).1;
        if word_prefix(t).len() < t.len() {
            lemma_trim_idempotent(t.skip(word_prefix(t).len() + 1int));
        } else {
            assert(rest.len() == 0);
        }
    }
}

/// A line made of a command word, a space and arguments that neither start
/// nor end with whitespace splits into that word and those arguments.
proof fn lemma_line_command_and_args(c: Seq<char>, args: Seq<char>)
    requires
        c.len() > 0,
        no_ws(c),
        args.len() > 0,
        !is_ws(args[0]),
        !is_ws(args.last()),
    ensures
        trim(c + seq![' '] + args) == c + seq![' '] + args,
        line_parts(c + seq![' '] + args) == (c, args),
{
    let sp = seq![' '] + args;
    let t = c + seq![' '] + args;
    assert(t =~= c + sp);
    assert(t[0] == c[0]);
    assert(!is_ws(c[0]));
    assert(t.last() == args.last());
    assert(trim_start(t) == t);
    assert(trim_end(t) == t);
    assert(is_ws(sp[0]));
    assert(word_prefix(sp) == Seq::<char>::empty());
    lemma_word_prefix_concat(c, sp);
    assert(c + Seq::<char>::empty() =~= c);
    assert(word_prefix(t) == c);
    assert(t.skip(c.len() + 1int) =~= args);
    assert(trim_start(args) == args);
    assert(trim_end(args) == args);
}

/// `logs <id>` shows the last 50 lines of task `id`, and `logs <id> <n>`
/// the last `n` where `n` is a number (50 where it is not): the line count
/// comes only from the second argument, never from the task id. An id that
/// is not a number reads as task 0.
pub proof fn lemma_logs_arguments(w1: Seq<char>, w2: Seq<char>)
    requires
        w1.len() > 0,
        no_ws(w1),
        w2.len() > 0,
        no_ws(w2),
    ensures
        parse_input_spec("logs"@ + seq![' '] + w1) == (CliCommandView::Logs {
            task_id: match parse_u32_opt(w1) {
                Some(id) => id,
                None => 0,
            },
            lines: 50,
        }),
        parse_input_spec("logs"@ + seq![' '] + (w1 + seq![' '] + w2)) == (CliCommandView::Logs {
            task_id: match parse_u32_opt(w1) {
                Some(id) => id,
                None => 0,
            },
            lines: match parse_usize_opt(w2) {
                Some(n) => n,
                None => 50,
            },
        }),
{
    reveal_strlit("logs");
    reveal_strlit("submit");
    reveal_strlit("run");
    reveal_strlit("start");
    reveal_strlit("tasks");
    reveal_strlit("ls");
    reveal_strlit("ps");
    let c = "logs"@;
    assert(no_ws(c));
    assert(!is_ws(w1[0]));
    assert(!is_ws(w1.last()));
    lemma_line_command_and_args(c, w1);
    lemma_one_word(w1);
    let two = w1 + seq![' '] + w2;
    assert(two[0] == w1[0]);
    assert(two.last() == w2.last());
    assert(!is_ws(w2.last()));
    lemma_line_command_and_args(c, two);
    lemma_two_words(w1, w2);
}

/// Completion offers exactly the command names that start with what was
/// typed: a name is offered if and only if it is a command name and the
/// typed text is a prefix of it (a full name completes to itself), and
/// every offered name comes from the list.
pub proof fn lemma_matching_exact(cmds: Seq<Seq<char>>, prefix: Seq<char>, c: Seq<char>)
    ensures
        matching(cmds, prefix).contains(c) <==> (cmds.contains(c) && prefix.is_prefix_of(c)),
        matching(cmds, prefix).len() <= cmds.len(),
    decreases cmds.len(),
{
    if cmds.len() > 0 {
        let prev = cmds.drop_last();
        lemma_matching_exact(prev, prefix, c);
        let m = matching(prev, prefix);
        let tail = if prefix.is_prefix_of(cmds.last()) {
            seq![cmds.last()]
        } else {
            Seq::<Seq<char>>::empty()
        };
        assert(matching(cmds, prefix) == m + tail);
        if (m + tail).contains(c) {
            let j = choose|j: int| 0 <= j < (m + tail).len() && (m + tail)[j] == c;
            if j < m.len() {
                assert(m[j] == c);
                assert(m.contains(c));
                let k = choose|k: int| 0 <= k < prev.len() && prev[k] == c;
                assert(cmds[k] == c);
            } else {
                assert(tail[j - m.len()] == c);
                assert(cmds[cmds.len() - 1] == c);
            }
        }
        if cmds.contains(c) && prefix.is_prefix_of(c) {
            let k = choose|k: int| 0 <= k < cmds.len() && cmds[k] == c;
            if k < cmds.len() - 1 {
                assert(prev[k] == c);
                assert(prev.contains(c));
                let j = choose|j: int| 0 <= j < m.len() && m[j] == c;
                assert((m + tail)[j] == c);
            } else {
                assert((m + tail)[m.len() as int] == c);
            }
        }
    }
}

/// Where the text before the cursor holds no space, a command name is
/// offered exactly when that text is a prefix of it; so typing a whole
/// command name offers that name.
pub proof fn lemma_completions_exact(line: Seq<char>, pos: nat, c: Seq<char>)
    requires
        !take_bytes(line, pos).contains(' '),
    ensures
        completions(line, pos).contains(c) <==> (shell_commands().contains(c)
            && take_bytes(line, pos).is_prefix_of(c)),
{
    lemma_matching_exact(shell_commands(), take_bytes(line, pos), c);
}

/// Typing a whole command name, with the cursor at its end, offers that
/// name among the completions.
pub proof fn lemma_full_name_completes(i: int)
    requires
        0 <= i < shell_commands().len(),
    ensures
        completions(shell_commands()[i], byte_len(shell_commands()[i])).contains(
            shell_commands()[i],
        ),
{
    reveal_strlit("submit");
    reveal_strlit("run");
    reveal_strlit("start");
    reveal_strlit("tasks");
    reveal_strlit("ls");
    reveal_strlit("ps");
    reveal_strlit("logs");
    reveal_strlit("kill");
    reveal_strlit("stop");
    reveal_strlit("status");
    reveal_strlit("gpu");
    reveal_strlit("help");
    reveal_strlit("quit");
    reveal_strlit("exit");
    let c = shell_commands()[i];
    lemma_take_all_bytes(c);
    assert(!c.contains(' '));
    assert(shell_commands().contains(c));
    assert(c.is_prefix_of(c));
    lemma_completions_exact(c, byte_len(c), c);
}

/// Completions keep the list's order: those of two lists one after the
/// other are the first list's followed by the second's, and with nothing
/// typed every name is offered, in list order.
pub proof fn lemma_matching_in_order(a: Seq<Seq<char>>, b: Seq<Seq<char>>, prefix: Seq<char>)
    ensures
        matching(a + b, prefix) == matching(a, prefix) + matching(b, prefix),
        matching(a, Seq::<char>::empty()) == a,
    decreases b.len(), a.len(),
{
    if b.len() == 0 {
        assert(a + b =~= a);
        assert(matching(a, prefix) + Seq::<Seq<char>>::empty() =~= matching(a, prefix));
    } else {
        assert((a + b).drop_last() =~= a + b.drop_last());
        assert((a + b).last() == b.last());
        lemma_matching_in_order(a, b.drop_last(), prefix);
        let tail = if prefix.is_prefix_of(b.last()) {
            seq![b.last()]
        } else {
            Seq::<Seq<char>>::empty()
        };
        assert(matching(a, prefix) + matching(b.drop_last(), prefix) + tail =~= matching(
            a,
            prefix,
        ) + (matching(b.drop_last(), prefix) + tail));
    }
    if a.len() > 0 {
        lemma_matching_in_order(a.drop_last(), Seq::<Seq<char>>::empty(), prefix);
        assert(Seq::<char>::empty().is_prefix_of(a.last()));
        assert(a.drop_last().push(a.last()) =~= a);
        assert(matching(a.drop_last(), Seq::<char>::empty()) + seq![a.last()] =~= a.drop_last().push(
            a.last(),
        ));
    }
}

} // verus!
