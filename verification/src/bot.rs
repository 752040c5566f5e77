//! The Telegram bot's commands: parsing a message into a command, and the
//! texts that the bot sends back.
use vstd::prelude::*;
use crate::text::{
    byte_len, chars_in_bytes, chars_of, cuts_cleanly, cuts_cleanly_exec, decimal, escape_html,
    exceeds_bytes, find_char, first_word, first_word_bounds, lemma_byte_len_at_most_four,
    lemma_byte_len_concat, lemma_decimal_len_u64, lemma_take_bytes_fits, parse_u32,
    parse_u32_opt, parse_usize, parse_usize_opt, prefix_before, push_chars, push_decimal,
    push_escaped, push_shortened, push_string, second_word, shorten, slice_is, string_of,
    take_bytes, trim, trim_bounds, trim_start, is_ws, no_ws, word_prefix, trim_end,
    lemma_trim_end_concat, lemma_trim_end_prefix, lemma_word_prefix_concat,
    lemma_prefix_before_concat, all_ws, lemma_trim_surrounding, lemma_trim_idempotent,
    lemma_one_word, lemma_two_words,
};
use crate::task_manager::{
    status_text, string_views, task_error_text, TaskError, TaskId, TaskSummary, TaskSummaryView,
};

verus! {

/// A command sent to the bot.
pub enum BotCommand {
    /// `/status`: show GPU utilization.
    Status,
    /// `/tasks`: list managed tasks.
    Tasks,
    /// `/logs <id> [lines]`: show the last lines of a task's output.
    Logs { task_id: TaskId, lines: usize },
    /// `/start <command>`: run a shell command as a managed task.
    Start { command: String },
    /// `/kill <id>`: kill a task.
    Kill { task_id: TaskId },
    /// `/help`: show the help text.
    Help,
    /// Anything else; holds the reply to send.
    Unknown(String),
}

/// The mathematical model of a `BotCommand`: strings become character
/// sequences.
pub enum BotCommandView {
    Status,
    Tasks,
    Logs { task_id: TaskId, lines: usize },
    Start { command: Seq<char> },
    Kill { task_id: TaskId },
    Help,
    Unknown(Seq<char>),
}

impl View for BotCommand {
    type V = BotCommandView;

    open spec fn view(&self) -> BotCommandView {
        match self {
            BotCommand::Status => BotCommandView::Status,
            BotCommand::Tasks => BotCommandView::Tasks,
            BotCommand::Logs { task_id, lines } => BotCommandView::Logs {
                task_id: *task_id,
                lines: *lines,
            },
            BotCommand::Start { command } => BotCommandView::Start { command: command@ },
            BotCommand::Kill { task_id } => BotCommandView::Kill { task_id: *task_id },
            BotCommand::Help => BotCommandView::Help,
            BotCommand::Unknown(msg) => BotCommandView::Unknown(msg@),
        }
    }
}

/// The command word of a message (its first word, with any `@bot_name`
/// suffix removed) and the trimmed text after the first word.
pub open spec fn command_parts(text: Seq<char>) -> (Seq<char>, Seq<char>) {
    let t = trim(text);
    let token = first_word(t);
    (prefix_before(token, '@'), trim(t.skip(token.len() as int)))
}

/// The command that a message holds.
pub open spec fn parse_command_spec(text: Seq<char>) -> BotCommandView {
    let (cmd, rest) = command_parts(text);
    if cmd == "/status"@ {
        BotCommandView::Status
    } else if cmd == "/tasks"@ {
        BotCommandView::Tasks
    } else if cmd == "/logs"@ {
        BotCommandView::Logs {
            task_id: match parse_u32_opt(first_word(rest)) {
                Some(id) => id,
                None => 0,
            },
            lines: match parse_usize_opt(second_word(rest)) {
                Some(n) => n,
                None => 50,
            },
        }
    } else if cmd == "/start"@ {
        if rest.len() == 0 {
            BotCommandView::Unknown("Usage: /start <command>"@)
        } else {
            BotCommandView::Start { command: rest }
        }
    } else if cmd == "/kill"@ {
        match parse_u32_opt(first_word(rest)) {
            Some(id) => BotCommandView::Kill { task_id: id },
            None => BotCommandView::Unknown("Usage: /kill <task_id>"@),
        }
    } else if cmd == "/help"@ {
        BotCommandView::Help
    } else {
        BotCommandView::Unknown("Unknown command: "@ + cmd + "\nSend /help for usage."@)
    }
}

/// Parses a message sent to the bot. The first word names the command (an
/// `@bot_name` suffix is ignored); `/logs` defaults to task 0 and 50 lines.
pub fn parse_command(text: &str) -> (cmd: BotCommand)
    ensures
        cmd@ == parse_command_spec(text@),
{
    let v = chars_of(text);
    let (a, b) = trim_bounds(&v, 0, v.len());
    let (s, e) = first_word_bounds(&v, a, b);
    proof {
        assert(v@.subrange(0, v@.len() as int) =~= text@);
        assert(trim_start(v@.subrange(a as int, b as int)) == v@.subrange(a as int, b as int));
        assert(v@.subrange(a as int, b as int).skip(e - s) =~= v@.subrange(e as int, b as int));
    }
    let at = find_char(&v, s, e, '@');
    let (ra, rb) = trim_bounds(&v, e, b);
    if slice_is(&v, s, at, "/status") {
        BotCommand::Status
    } else if slice_is(&v, s, at, "/tasks") {
        BotCommand::Tasks
    } else if slice_is(&v, s, at, "/logs") {
        let (w1s, w1e) = first_word_bounds(&v, ra, rb);
        let (w2s, w2e) = first_word_bounds(&v, w1e, rb);
        let task_id = match parse_u32(&v, w1s, w1e) {
            Some(id) => id,
            None => 0,
        };
        let lines = match parse_usize(&v, w2s, w2e) {
            Some(n) => n,
            None => 50,
        };
        BotCommand::Logs { task_id, lines }
    } else if slice_is(&v, s, at, "/start") {
        if ra == rb {
            BotCommand::Unknown(String::from_str("Usage: /start <command>"))
        } else {
            BotCommand::Start { command: string_of(&v, ra, rb) }
        }
    } else if slice_is(&v, s, at, "/kill") {
        let (w1s, w1e) = first_word_bounds(&v, ra, rb);
        match parse_u32(&v, w1s, w1e) {
            Some(id) => BotCommand::Kill { task_id: id },
            None => BotCommand::Unknown(String::from_str("Usage: /kill <task_id>")),
        }
    } else if slice_is(&v, s, at, "/help") {
        BotCommand::Help
    } else {
        let mut msg = String::from_str("Unknown command: ");
        push_chars(&mut msg, &v, s, at);
        msg.append("\nSend /help for usage.");
        BotCommand::Unknown(msg)
    }
}

/// A number of seconds as `42s`, `3m7s` or `2h5m`.
pub open spec fn duration_text(secs: nat) -> Seq<char> {
    if secs < 60 {
        decimal(secs) + "s"@
    } else if secs < 3600 {
        decimal(secs / 60) + "m"@ + decimal(secs % 60) + "s"@
    } else {
        decimal(secs / 3600) + "h"@ + decimal((secs % 3600) / 60) + "m"@
    }
}

/// Formats an elapsed time: seconds below a minute, minutes and seconds
/// below an hour, hours and minutes from an hour on.
pub fn format_duration(secs: u64) -> (s: String)
    ensures
        s@ == duration_text(secs as nat),
{
    let mut s = String::new();
    if secs < 60 {
        push_decimal(&mut s, secs);
        s.append("s");
    } else if secs < 3600 {
        push_decimal(&mut s, secs / 60);
        s.append("m");
        push_decimal(&mut s, secs % 60);
        s.append("s");
    } else {
        push_decimal(&mut s, secs / 3600);
        s.append("h");
        push_decimal(&mut s, (secs % 3600) / 60);
        s.append("m");
    }
    assert(s@ =~= duration_text(secs as nat));
    s
}

/// The bot's help text.
pub open spec fn help_text() -> Seq<char> {
    "<b>GPU Guard Bot</b>\n\n/status — Show GPU utilization\n/tasks — List managed tasks\n/logs &lt;id&gt; [lines] — Show task logs (default 50)\n/start &lt;command&gt; — Run a shell command\n/kill &lt;id&gt; — Kill a task\n/help — This message"@
}

/// The reply to `/help`.
pub fn handle_help() -> (s: String)
    ensures
        s@ == help_text(),
{
    String::from_str(
        "<b>GPU Guard Bot</b>\n\n/status — Show GPU utilization\n/tasks — List managed tasks\n/logs &lt;id&gt; [lines] — Show task logs (default 50)\n/start &lt;command&gt; — Run a shell command\n/kill &lt;id&gt; — Kill a task\n/help — This message",
    )
}

// ---------------------------------------------------------------------
// Replies
// ---------------------------------------------------------------------

/// The models of a sequence of task summaries.
pub open spec fn summary_views(v: Seq<TaskSummary>) -> Seq<TaskSummaryView> {
    v.map_values(|t: TaskSummary| t@)
}

/// One task in the `/tasks` reply; commands longer than 60 bytes are cut
/// to 57 bytes and `...`.
pub open spec fn task_entry_text(t: TaskSummaryView) -> Seq<char> {
    "<b>#"@ + decimal(t.id as nat) + "</b> ["@ + status_text(t.status) + "] "@ + duration_text(
        t.elapsed_secs as nat,
    ) + "\n  <code>"@ + shorten(t.command, 60, 57) + "</code>\n\n"@
}

/// The entries of the `/tasks` reply, in order.
pub open spec fn task_entries_text(ts: Seq<TaskSummaryView>) -> Seq<char>
    decreases ts.len(),
{
    if ts.len() == 0 {
        Seq::empty()
    } else {
        task_entries_text(ts.drop_last()) + task_entry_text(ts.last())
    }
}

/// The reply to `/tasks`.
pub open spec fn tasks_reply(ts: Seq<TaskSummaryView>) -> Seq<char> {
    if ts.len() == 0 {
        "No tasks."@
    } else {
        "<b>Tasks</b>\n\n"@ + task_entries_text(ts)
    }
}

/// Every long command can be cut at byte 57 (slicing panics otherwise).
pub open spec fn tasks_render_ok(ts: Seq<TaskSummaryView>) -> bool {
    forall|i: int| 0 <= i < ts.len() ==> cuts_cleanly(#[trigger] ts[i].command, 60, 57)
}

/// Whether `handle_tasks` may be called on `tasks`.
pub fn can_render_tasks(tasks: &Vec<TaskSummary>) -> (r: bool)
    ensures
        r == tasks_render_ok(summary_views(tasks@)),
{
    let mut i: usize = 0;
    while i < tasks.len()
        invariant
            i <= tasks@.len(),
            forall|j: int| 0 <= j < i ==> cuts_cleanly(#[trigger] tasks@[j].command@, 60, 57),
        decreases tasks@.len() - i,
    {
        if !cuts_cleanly_exec(&tasks[i].command, 60, 57) {
            assert(summary_views(tasks@)[i as int].command == tasks@[i as int].command@);
            return false;
        }
        i = i + 1;
    }
    assert forall|j: int| 0 <= j < summary_views(tasks@).len() implies cuts_cleanly(
        #[trigger] summary_views(tasks@)[j].command,
        60,
        57,
    ) by {
        assert(summary_views(tasks@)[j].command == tasks@[j].command@);
    }
    true
}

/// The reply to `/tasks` for these summaries.
#[verifier::spinoff_prover]
#[verifier::rlimit(40)]
pub fn handle_tasks(tasks: &Vec<TaskSummary>) -> (s: String)
    requires
        tasks_render_ok(summary_views(tasks@)),
    ensures
        s@ == tasks_reply(summary_views(tasks@)),
{
    if tasks.len() == 0 {
        return String::from_str("No tasks.");
    }
    let ghost views = summary_views(tasks@);
    let mut msg = String::from_str("<b>Tasks</b>\n\n");
    let mut i: usize = 0;
    while i < tasks.len()
        invariant
            i <= tasks@.len(),
            views == summary_views(tasks@),
            tasks_render_ok(views),
            msg@ == "<b>Tasks</b>\n\n"@ + task_entries_text(views.take(i as int)),
        decreases tasks@.len() - i,
    {
        let t = &tasks[i];
        let ghost before = msg@;
        assert(views[i as int] == t@);
        assert(cuts_cleanly(views[i as int].command, 60, 57));
        msg.append("<b>#");
        push_decimal(&mut msg, t.id as u64);
        msg.append("</b> [");
        let st = t.status.to_string();
        push_string(&mut msg, &st);
        msg.append("] ");
        let el = format_duration(t.elapsed_secs);
        push_string(&mut msg, &el);
        msg.append("\n  <code>");
        push_shortened(&mut msg, &t.command, 60, 57);
        msg.append("</code>\n\n");
        proof {
            assert(views.take(i + 1).drop_last() =~= views.take(i as int));
            assert(msg@ =~= before + task_entry_text(t@));
        }
        i = i + 1;
    }
    assert(views.take(i as int) =~= views);
    msg
}

/// The models of the lines a log query gave, or its error.
pub open spec fn logs_result_view(r: Result<Vec<String>, TaskError>) -> Result<
    Seq<Seq<char>>,
    TaskError,
> {
    match r {
        Ok(v) => Ok(string_views(v@)),
        Err(e) => Err(e),
    }
}

/// Log lines as they appear in a reply: HTML-escaped, one per line.
pub open spec fn log_lines_text(lines: Seq<Seq<char>>) -> Seq<char>
    decreases lines.len(),
{
    if lines.len() == 0 {
        Seq::empty()
    } else {
        log_lines_text(lines.drop_last()) + escape_html(lines.last()) + "\n"@
    }
}

/// The `/logs` reply for task `id` with these lines, before it is cut to
/// Telegram's size.
pub open spec fn logs_body(id: TaskId, lines: Seq<Seq<char>>) -> Seq<char> {
    "<b>Logs for task #"@ + decimal(id as nat) + "</b> (last "@ + decimal(lines.len())
        + " lines)\n\n<pre>"@ + log_lines_text(lines) + "</pre>"@
}

/// A reply cut to 4000 bytes, with a note, where it is longer.
pub open spec fn truncated_reply(msg: Seq<char>) -> Seq<char> {
    if byte_len(msg) > 4000 {
        take_bytes(msg, 4000) + "\n... (truncated)"@
    } else {
        msg
    }
}

/// The reply to `/logs <id>` given what the log query returned.
pub open spec fn logs_reply(id: TaskId, r: Result<Seq<Seq<char>>, TaskError>) -> Seq<char> {
    match r {
        Ok(lines) => if lines.len() == 0 {
            "Task #"@ + decimal(id as nat) + ": no logs yet."@
        } else {
            truncated_reply(logs_body(id, lines))
        },
        Err(e) => "Error: "@ + task_error_text(e),
    }
}

/// A long reply can be cut at byte 4000 (`String::truncate` panics
/// otherwise).
pub open spec fn logs_render_ok(id: TaskId, r: Result<Seq<Seq<char>>, TaskError>) -> bool {
    match r {
        Ok(lines) => lines.len() > 0 ==> cuts_cleanly(logs_body(id, lines), 4000, 4000),
        Err(_) => true,
    }
}

fn logs_body_exec(id: TaskId, lines: &Vec<String>) -> (s: String)
    ensures
        s@ == logs_body(id, string_views(lines@)),
{
    let ghost views = string_views(lines@);
    let mut msg = String::from_str("<b>Logs for task #");
    push_decimal(&mut msg, id as u64);
    msg.append("</b> (last ");
    push_decimal(&mut msg, lines.len() as u64);
    msg.append(" lines)\n\n<pre>");
    let ghost head = msg@;
    let mut i: usize = 0;
    while i < lines.len()
        invariant
            i <= lines@.len(),
            views == string_views(lines@),
            msg@ == head + log_lines_text(views.take(i as int)),
        decreases lines@.len() - i,
    {
        let ghost before = msg@;
        push_escaped(&mut msg, &lines[i]);
        msg.append("\n");
        proof {
            assert(views.take(i + 1).drop_last() =~= views.take(i as int));
            assert(views[i as int] == lines@[i as int]@);
            assert(msg@ =~= before + escape_html(lines@[i as int]@) + "\n"@);
        }
        i = i + 1;
    }
    assert(views.take(i as int) =~= views);
    msg.append("</pre>");
    assert(views.len() == lines@.len());
    msg
}

/// Whether `handle_logs` may be called with these arguments.
pub fn can_render_logs(id: TaskId, r: &Result<Vec<String>, TaskError>) -> (ok: bool)
    ensures
        ok == logs_render_ok(id, logs_result_view(*r)),
{
    match r {
        Ok(lines) => {
            if lines.len() == 0 {
                true
            } else {
                let body = logs_body_exec(id, lines);
                cuts_cleanly_exec(&body, 4000, 4000)
            }
        },
        Err(_) => true,
    }
}

/// The reply to `/logs <id>`: the last lines of the task's output,
/// HTML-escaped and cut to fit a Telegram message, or why there are none.
pub fn handle_logs(id: TaskId, r: &Result<Vec<String>, TaskError>) -> (s: String)
    requires
        logs_render_ok(id, logs_result_view(*r)),
    ensures
        s@ == logs_reply(id, logs_result_view(*r)),
{
    match r {
        Ok(lines) => {
            if lines.len() == 0 {
                let mut s = String::from_str("Task #");
                push_decimal(&mut s, id as u64);
                s.append(": no logs yet.");
                s
            } else {
                let body = logs_body_exec(id, lines);
                let v = chars_of(body.as_str());
                if exceeds_bytes(&v, 4000) {
                    let (k, _) = chars_in_bytes(&v, 4000);
                    let s = string_of(&v, 0, k);
                    let mut s = s;
                    s.append("\n... (truncated)");
                    assert(v@.subrange(0, k as int) =~= v@.take(k as int));
                    s
                } else {
                    body
                }
            }
        },
        Err(e) => {
            let mut s = String::from_str("Error: ");
            let m = e.message();
            push_string(&mut s, &m);
            s
        },
    }
}

/// The reply to `/start`, given the new task's id or why it did not start.
pub open spec fn start_reply(r: Result<TaskId, Seq<char>>, command: Seq<char>) -> Seq<char> {
    match r {
        Ok(id) => "Started task <b>#"@ + decimal(id as nat) + "</b>\n<code>"@ + command
            + "</code>"@,
        Err(e) => "Failed to start task: "@ + e,
    }
}

/// The model of a result whose error is a message.
pub open spec fn text_result<T>(r: Result<T, String>) -> Result<T, Seq<char>> {
    match r {
        Ok(v) => Ok(v),
        Err(e) => Err(e@),
    }
}

/// The reply to `/start <command>`.
pub fn handle_start(r: &Result<TaskId, String>, command: &str) -> (s: String)
    ensures
        s@ == start_reply(text_result(*r), command@),
{
    match r {
        Ok(id) => {
            let mut s = String::from_str("Started task <b>#");
            push_decimal(&mut s, *id as u64);
            s.append("</b>\n<code>");
            s.append(command);
            s.append("</code>");
            s
        },
        Err(e) => {
            let mut s = String::from_str("Failed to start task: ");
            push_string(&mut s, e);
            s
        },
    }
}

/// The reply to `/kill <id>`.
pub open spec fn kill_reply(id: TaskId, r: Result<(), Seq<char>>) -> Seq<char> {
    match r {
        Ok(()) => "Killed task <b>#"@ + decimal(id as nat) + "</b>"@,
        Err(e) => "Failed to kill task #"@ + decimal(id as nat) + ": "@ + e,
    }
}

/// The reply to `/kill <id>`.
pub fn handle_kill(id: TaskId, r: &Result<(), String>) -> (s: String)
    ensures
        s@ == kill_reply(id, text_result(*r)),
{
    match r {
        Ok(()) => {
            let mut s = String::from_str("Killed task <b>#");
            push_decimal(&mut s, id as u64);
            s.append("</b>");
            s
        },
        Err(e) => {
            let mut s = String::from_str("Failed to kill task #");
            push_decimal(&mut s, id as u64);
            s.append(": ");
            push_string(&mut s, e);
            s
        },
    }
}

/// The concatenation of `parts`, in order.
pub open spec fn concat_all(parts: Seq<Seq<char>>) -> Seq<char>
    decreases parts.len(),
{
    if parts.len() == 0 {
        Seq::empty()
    } else {
        concat_all(parts.drop_last()) + parts.last()
    }
}

/// Appends every string of `parts`, in order, to `out`.
pub fn push_all(out: &mut String, parts: &Vec<String>)
    ensures
        final(out)@ == old(out)@ + concat_all(string_views(parts@)),
{
    let ghost views = string_views(parts@);
    let mut i: usize = 0;
    while i < parts.len()
        invariant
            i <= parts@.len(),
            views == string_views(parts@),
            out@ == old(out)@ + concat_all(views.take(i as int)),
        decreases parts@.len() - i,
    {
        push_string(out, &parts[i]);
        proof {
            assert(views.take(i + 1).drop_last() =~= views.take(i as int));
            assert(views[i as int] == parts@[i as int]@);
        }
        i = i + 1;
    }
    assert(views.take(i as int) =~= views);
}

/// The reply to `/status`, given one text block per GPU or why the GPUs
/// could not be queried.
pub open spec fn status_reply(r: Result<Seq<Seq<char>>, Seq<char>>) -> Seq<char> {
    match r {
        Ok(blocks) => if blocks.len() == 0 {
            "No GPUs detected."@
        } else {
            "<b>GPU Status</b>\n\n"@ + concat_all(blocks)
        },
        Err(e) => "Failed to query GPUs: "@ + e,
    }
}

/// The models of a list of texts, or of its error.
pub open spec fn texts_result(r: Result<Vec<String>, String>) -> Result<
    Seq<Seq<char>>,
    Seq<char>,
> {
    match r {
        Ok(v) => Ok(string_views(v@)),
        Err(e) => Err(e@),
    }
}

/// The reply to `/status`: the GPU blocks under a heading.
pub fn handle_status(r: &Result<Vec<String>, String>) -> (s: String)
    ensures
        s@ == status_reply(texts_result(*r)),
{
    match r {
        Ok(blocks) => {
            if blocks.len() == 0 {
                String::from_str("No GPUs detected.")
            } else {
                let mut s = String::from_str("<b>GPU Status</b>\n\n");
                push_all(&mut s, blocks);
                s
            }
        },
        Err(e) => {
            let mut s = String::from_str("Failed to query GPUs: ");
            push_string(&mut s, e);
            s
        },
    }
}

/// A `/logs` reply always fits in one Telegram message (4096 bytes): long
/// logs are cut to 4000 bytes and a short note.
pub proof fn lemma_logs_reply_fits(id: TaskId, r: Result<Seq<Seq<char>>, TaskError>)
    requires
        logs_render_ok(id, r),
    ensures
        byte_len(logs_reply(id, r)) <= 4096,
{
    reveal_strlit("Task #");
    reveal_strlit(": no logs yet.");
    reveal_strlit("\n... (truncated)");
    reveal_strlit("Error: ");
    reveal_strlit("Task ");
    reveal_strlit(" not found");
    reveal_strlit("Max concurrent tasks (");
    reveal_strlit(") reached");
    lemma_decimal_len_u64(id as nat);
    lemma_byte_len_at_most_four(logs_reply(id, r));
    match r {
        Ok(lines) => {
            if lines.len() > 0 {
                let body = logs_body(id, lines);
                if byte_len(body) > 4000 {
                    let cut = take_bytes(body, 4000);
                    lemma_take_bytes_fits(body, 4000);
                    lemma_byte_len_concat(cut, "\n... (truncated)"@);
                    lemma_byte_len_at_most_four("\n... (truncated)"@);
                }
            }
        },
        Err(e) => {
            match e {
                TaskError::NotFound(n) => lemma_decimal_len_u64(n as nat),
                TaskError::MaxTasksReached(n) => lemma_decimal_len_u64(n as nat),
            }
        },
    }
}

/// An `@bot_name` suffix on the command word changes nothing: a message
/// `/cmd@name rest` is read as `/cmd rest` (the first word runs to the
/// first whitespace, so `rest` is empty or starts with whitespace).
pub proof fn lemma_bot_name_ignored(t: Seq<char>, name: Seq<char>, rest: Seq<char>)
    requires
        t.len() > 0,
        no_ws(t),
        !t.contains('@'),
        no_ws(name),
        rest.len() == 0 || is_ws(rest[0]),
    ensures
        parse_command_spec(t + seq!['@'] + name + rest) == parse_command_spec(t + rest),
{
    let a = t + seq!['@'] + name;
    let x = a + rest;
    let y = t + rest;
    assert(!is_ws('@'));
    assert(no_ws(a)) by {
        assert forall|i: int| 0 <= i < a.len() implies !is_ws(#[trigger] a[i]) by {
            if i < t.len() {
                assert(a[i] == t[i]);
            } else if i == t.len() {
                assert(a[i] == '@');
            } else {
                assert(a[i] == name[i - t.len() - 1]);
            }
        }
    }
    assert(x[0] == t[0]);
    assert(y[0] == t[0]);
    assert(trim_start(x) == x);
    assert(trim_start(y) == y);
    assert(a.last() == a[a.len() - 1]);
    assert(trim_end(a) == a);
    assert(trim_end(t) == t);
    lemma_trim_end_concat(a, rest);
    lemma_trim_end_concat(t, rest);
    lemma_trim_end_prefix(rest);
    let re = trim_end(rest);
    assert(re.len() == 0 || is_ws(re[0])) by {
        if re.len() > 0 {
            assert(re[0] == rest.take(re.len() as int)[0]);
        }
    }
    assert(word_prefix(re) == Seq::<char>::empty());
    let tx = a + re;
    let ty = t + re;
    assert(trim(x) == tx) by {
        if re.len() == 0 {
            assert(a + re =~= a);
        }
    }
    assert(trim(y) == ty) by {
        if re.len() == 0 {
            assert(t + re =~= t);
        }
    }
    assert(tx[0] == t[0]);
    assert(ty[0] == t[0]);
    assert(trim_start(tx) == tx);
    assert(trim_start(ty) == ty);
    lemma_word_prefix_concat(a, re);
    lemma_word_prefix_concat(t, re);
    assert(a + Seq::<char>::empty() =~= a);
    assert(t + Seq::<char>::empty() =~= t);
    assert(first_word(tx) == a);
    assert(first_word(ty) == t);
    assert(tx.skip(a.len() as int) =~= re);
    assert(ty.skip(t.len() as int) =~= re);
    lemma_prefix_before_concat(t, '@', name);
    assert(command_parts(t + seq!['@'] + name + rest) == command_parts(t + rest));
}

/// Whitespace around a message never changes the command that it holds,
/// and a message is read as its trimmed form.
pub proof fn lemma_surrounding_whitespace_ignored(w1: Seq<char>, text: Seq<char>, w2: Seq<char>)
    requires
        all_ws(w1),
        all_ws(w2),
    ensures
        parse_command_spec(w1 + text + w2) == parse_command_spec(text),
        parse_command_spec(trim(text)) == parse_command_spec(text),
{
    lemma_trim_surrounding(w1, text, w2);
    lemma_trim_idempotent(text);
    assert(command_parts(w1 + text + w2) == command_parts(text));
    assert(command_parts(trim(text)) == command_parts(text));
}

/// A message made of a command word, a space and arguments that neither
/// start nor end with whitespace splits into that word and those arguments.
proof fn lemma_command_and_args(c: Seq<char>, args: Seq<char>)
    requires
        c.len() > 0,
        no_ws(c),
        !c.contains('@'),
        args.len() > 0,
        !is_ws(args[0]),
        !is_ws(args.last()),
    ensures
        command_parts(c + seq![' '] + args) == (c, args),
{
    let sp = seq![' '] + args;
    let text = c + seq![' '] + args;
    assert(text =~= c + sp);
    assert(text[0] == c[0]);
    assert(!is_ws(c[0]));
    assert(text.last() == args.last());
    assert(trim_start(text) == text);
    assert(trim_end(text) == text);
    assert(is_ws(sp[0]));
    assert(word_prefix(sp) == Seq::<char>::empty());
    lemma_word_prefix_concat(c, sp);
    assert(c + Seq::<char>::empty() =~= c);
    assert(first_word(text) == c);
    lemma_prefix_before_concat(c, '@', Seq::<char>::empty());
    assert(text.skip(c.len() as int) =~= sp);
    assert(all_ws(seq![' ']));
    assert(all_ws(Seq::<char>::empty()));
    assert(seq![' '] + args + Seq::<char>::empty() =~= sp);
    lemma_trim_surrounding(seq![' '], args, Seq::<char>::empty());
    assert(trim_start(args) == args);
    assert(trim_end(args) == args);
}

/// `/logs <id>` shows the last 50 lines of task `id`, and `/logs <id> <n>`
/// the last `n` where `n` is a number (50 where it is not): the line count
/// comes only from the second argument, never from the task id. An id that
/// is not a number reads as task 0.
pub proof fn lemma_logs_arguments(w1: Seq<char>, w2: Seq<char>)
    requires
        w1.len() > 0,
        no_ws(w1),
        w2.len() > 0,
        no_ws(w2),
    ensures
        parse_command_spec("/logs"@ + seq![' '] + w1) == (BotCommandView::Logs {
            task_id: match parse_u32_opt(w1) {
                Some(id) => id,
                None => 0,
            },
            lines: 50,
        }),
        parse_command_spec("/logs"@ + seq![' '] + (w1 + seq![' '] + w2)) == (
        BotCommandView::Logs {
            task_id: match parse_u32_opt(w1) {
                Some(id) => id,
                None => 0,
            },
            lines: match parse_usize_opt(w2) {
                Some(n) => n,
                None => 50,
            },
        }),
{
    reveal_strlit("/logs");
    reveal_strlit("/status");
    reveal_strlit("/tasks");
    let c = "/logs"@;
    assert(no_ws(c));
    assert(!c.contains('@'));
    assert(!is_ws(w1[0]));
    assert(!is_ws(w1.last()));
    lemma_command_and_args(c, w1);
    lemma_one_word(w1);
    let two = w1 + seq![' '] + w2;
    assert(two[0] == w1[0]);
    assert(two.last() == w2.last());
    assert(!is_ws(w2.last()));
    lemma_command_and_args(c, two);
    lemma_two_words(w1, w2);
    assert(c != "/status"@);
    assert(c != "/tasks"@);
}

} // verus!
