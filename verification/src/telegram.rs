//! The Telegram Bot API's data, and the decisions the bot takes on it:
//! request URLs, what a response means, and how each update is handled.
use vstd::prelude::*;
use vstd::hash_set::StringHashSet;
use crate::bot::{parse_command, parse_command_spec, BotCommand, BotCommandView};
use crate::text::{push_signed_decimal, push_string, signed_decimal};

verus! {

/// The envelope of every Bot API response.
pub struct TgResponse<T> {
    pub ok: bool,
    pub result: Option<T>,
    pub description: Option<String>,
}

/// An incoming update.
pub struct Update {
    pub update_id: i64,
    pub message: Option<Message>,
}

/// A message in a chat.
pub struct Message {
    pub message_id: i64,
    pub chat: Chat,
    pub text: Option<String>,
}

/// A chat.
pub struct Chat {
    pub id: i64,
}

/// The URL of Bot API method `method` for the bot with token `token`.
pub open spec fn api_url_text(token: Seq<char>, method: Seq<char>) -> Seq<char> {
    "https://api.telegram.org/bot"@ + token + "/"@ + method
}

/// The URL of Bot API method `method` (such as `sendMessage`).
pub fn api_url(token: &str, method: &str) -> (s: String)
    ensures
        s@ == api_url_text(token@, method@),
{
    let mut s = String::from_str("https://api.telegram.org/bot");
    s.append(token);
    s.append("/");
    s.append(method);
    s
}

/// The updates that a `getUpdates` response carries, or the error it
/// reports: `getUpdates failed: ` and the description where `ok` is false.
pub fn updates_from_response(resp: TgResponse<Vec<Update>>) -> (r: Result<Vec<Update>, String>)
    ensures
        resp.ok ==> (r matches Ok(u) && match resp.result {
            Some(v) => u == v,
            None => u@.len() == 0,
        }),
        !resp.ok ==> (r matches Err(e) && e@ == "getUpdates failed: "@ + match resp.description {
            Some(d) => d@,
            None => Seq::<char>::empty(),
        }),
{
    if !resp.ok {
        let mut e = String::from_str("getUpdates failed: ");
        match &resp.description {
            Some(d) => push_string(&mut e, d),
            None => {
                assert(e@ =~= "getUpdates failed: "@ + Seq::<char>::empty());
            },
        }
        return Err(e);
    }
    match resp.result {
        Some(v) => Ok(v),
        None => Ok(Vec::new()),
    }
}

/// The outcome of `sendMessage`: an error carrying the response body where
/// the HTTP status is not a success.
pub fn send_outcome(success: bool, body: &str) -> (r: Result<(), String>)
    ensures
        success ==> r is Ok,
        !success ==> (r matches Err(e) && e@ == "Telegram API error: "@ + body@),
{
    if success {
        Ok(())
    } else {
        let mut e = String::from_str("Telegram API error: ");
        e.append(body);
        Err(e)
    }
}

/// What the bot does with one update.
pub enum UpdateAction {
    /// No text message: nothing to do.
    Skip,
    /// A chat that may not send commands: only noted.
    Unauthorized { chat_id: String },
    /// A command to carry out; the reply goes to `chat_id`.
    Reply { chat_id: String, command: BotCommand },
}

/// The model of an `UpdateAction`.
pub enum UpdateActionView {
    Skip,
    Unauthorized { chat_id: Seq<char> },
    Reply { chat_id: Seq<char>, command: BotCommandView },
}

impl View for UpdateAction {
    type V = UpdateActionView;

    open spec fn view(&self) -> UpdateActionView {
        match self {
            UpdateAction::Skip => UpdateActionView::Skip,
            UpdateAction::Unauthorized { chat_id } => UpdateActionView::Unauthorized {
                chat_id: chat_id@,
            },
            UpdateAction::Reply { chat_id, command } => UpdateActionView::Reply {
                chat_id: chat_id@,
                command: command@,
            },
        }
    }
}

/// What the bot does with an update: skip it unless it is a text message,
/// and obey it only from an allowed chat.
pub open spec fn update_action(u: &Update, allowed: Set<Seq<char>>) -> UpdateActionView {
    match &u.message {
        None => UpdateActionView::Skip,
        Some(m) => match &m.text {
            None => UpdateActionView::Skip,
            Some(text) => {
                let chat_id = signed_decimal(m.chat.id as int);
                if allowed.contains(chat_id) {
                    UpdateActionView::Reply { chat_id, command: parse_command_spec(text@) }
                } else {
                    UpdateActionView::Unauthorized { chat_id }
                }
            },
        },
    }
}

/// Decides what to do with update `u` given the chats that may send
/// commands; `.0` is the offset of the next `getUpdates` call, which
/// acknowledges `u` whatever is done with it.
pub fn route_update(u: &Update, allowed: &StringHashSet) -> (r: (i64, UpdateAction))
    requires
        u.update_id < i64::MAX,
    ensures
        r.0 == u.update_id + 1,
        r.1@ == update_action(u, allowed@),
{
    let next = u.update_id + 1;
    match &u.message {
        None => (next, UpdateAction::Skip),
        Some(m) => match &m.text {
            None => (next, UpdateAction::Skip),
            Some(text) => {
                let mut chat_id = String::new();
                push_signed_decimal(&mut chat_id, m.chat.id);
                assert(chat_id@ =~= signed_decimal(m.chat.id as int));
                if allowed.contains(chat_id.as_str()) {
                    let command = parse_command(text.as_str());
                    (next, UpdateAction::Reply { chat_id, command })
                } else {
                    (next, UpdateAction::Unauthorized { chat_id })
                }
            },
        },
    }
}

} // verus!
