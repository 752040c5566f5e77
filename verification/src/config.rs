//! The parts of the configuration that the library checks and derives.
use vstd::prelude::*;
use vstd::hash_set::StringHashSet;
use crate::task_manager::string_views;

verus! {

/// A set of chat ids, as text.
pub type ChatIdSet = StringHashSet;

/// The `[telegram]` section of the configuration.
pub struct TelegramConfig {
    pub bot_token: String,
    pub chat_id: String,
    /// Chat IDs allowed to send commands. Defaults to [chat_id].
    pub allowed_chat_ids: Option<Vec<String>>,
}

/// The chats that may send commands: the configured list, or the alert
/// chat alone where there is none.
pub open spec fn allowed_set(c: &TelegramConfig) -> Set<Seq<char>> {
    match &c.allowed_chat_ids {
        Some(ids) => string_views(ids@).to_set(),
        None => set![c.chat_id@],
    }
}

/// Why a configuration is refused.
#[derive(Debug, Clone, Copy, PartialEq, Eq)]
pub enum ConfigError {
    /// `telegram.bot_token` is empty.
    MissingBotToken,
    /// `telegram.chat_id` is empty.
    MissingChatId,
}

impl ConfigError {
    /// The error message.
    pub fn message(&self) -> (s: String)
        ensures
            s@ == config_error_text(*self),
    {
        match self {
            ConfigError::MissingBotToken => String::from_str("telegram.bot_token must be set"),
            ConfigError::MissingChatId => String::from_str("telegram.chat_id must be set"),
        }
    }
}

/// The text of a configuration error.
pub open spec fn config_error_text(e: ConfigError) -> Seq<char> {
    match e {
        ConfigError::MissingBotToken => "telegram.bot_token must be set"@,
        ConfigError::MissingChatId => "telegram.chat_id must be set"@,
    }
}

impl TelegramConfig {
    /// The chat IDs allowed to send commands: `allowed_chat_ids` where it is
    /// set, else `chat_id` alone.
    pub fn allowed_ids(&self) -> (r: StringHashSet)
        ensures
            r@ == allowed_set(self),
    {
        match &self.allowed_chat_ids {
            Some(ids) => {
                let ghost views = string_views(ids@);
                let mut set = StringHashSet::new();
                let mut i: usize = 0;
                while i < ids.len()
                    invariant
                        i <= ids@.len(),
                        views == string_views(ids@),
                        set@ == views.take(i as int).to_set(),
                    decreases ids@.len() - i,
                {
                    let id = ids[i].clone();
                    assert(id == ids@[i as int]);
                    set.insert(id);
                    proof {
                        assert(views.take(i + 1) =~= views.take(i as int).push(views[i as int]));
                        assert(set@ =~= views.take(i + 1).to_set()) by {
                            assert forall|x: Seq<char>| set@.contains(x) <==> views.take(
                                i + 1,
                            ).to_set().contains(x) by {
                                if views.take(i + 1).contains(x) && x != views[i as int] {
                                    let j = choose|j: int|
                                        0 <= j < i + 1 && #[trigger] views.take(i + 1)[j] == x;
                                    assert(views.take(i as int)[j] == x);
                                }
                                if views.take(i as int).contains(x) {
                                    let j = choose|j: int|
                                        0 <= j < i && #[trigger] views.take(i as int)[j] == x;
                                    assert(views.take(i + 1)[j] == x);
                                }
                                if x == views[i as int] {
                                    assert(views.take(i + 1)[i as int] == x);
                                }
                            }
                        }
                    }
                    i = i + 1;
                }
                assert(views.take(i as int) =~= views);
                set
            },
            None => {
                let mut set = StringHashSet::new();
                set.insert(self.chat_id.clone());
                assert(set@ =~= set![self.chat_id@]);
                set
            },
        }
    }

    /// Refuses an empty bot token, then an empty chat id.
    pub fn validate(&self) -> (r: Result<(), ConfigError>)
        ensures
            r == (if self.bot_token@.len() == 0 {
                Err::<(), ConfigError>(ConfigError::MissingBotToken)
            } else if self.chat_id@.len() == 0 {
                Err(ConfigError::MissingChatId)
            } else {
                Ok(())
            }),
    {
        if self.bot_token.as_str().is_empty() {
            Err(ConfigError::MissingBotToken)
        } else if self.chat_id.as_str().is_empty() {
            Err(ConfigError::MissingChatId)
        } else {
            Ok(())
        }
    }
}

/// The `[tasks]` section of the configuration.
pub struct TasksConfig {
    /// Max concurrent managed tasks
    pub max_tasks: usize,
    /// Lines kept per task in the log ring buffer
    pub log_ring_size: usize,
}

impl Default for TasksConfig {
    /// 16 tasks, 500 lines of output each.
    fn default() -> (c: Self)
        ensures
            c.max_tasks == 16,
            c.log_ring_size == 500,
    {
        TasksConfig { max_tasks: 16, log_ring_size: 500 }
    }
}

} // verus!
