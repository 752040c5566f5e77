use gpu_guard::config::{ConfigError, TasksConfig, TelegramConfig};
use gpu_guard::gpu::{parse_gpu_line, split_lines};
use gpu_guard::monitor::{build_alert, build_alert_with_host, host_or_unknown, GpuAlert};
use gpu_guard::telegram::{
    api_url, route_update, send_outcome, updates_from_response, Chat, Message, TgResponse, Update,
    UpdateAction,
};
use gpu_guard::text::IntErrorKind;
use gpu_guard::bot::BotCommand;

fn tg(token: &str, chat: &str, allowed: Option<Vec<&str>>) -> TelegramConfig {
    TelegramConfig {
        bot_token: token.to_string(),
        chat_id: chat.to_string(),
        allowed_chat_ids: allowed.map(|v| v.into_iter().map(|s| s.to_string()).collect()),
    }
}

#[test]
fn allowed_ids_default_to_the_alert_chat() {
    let c = tg("t", "100", None);
    let ids = c.allowed_ids();
    assert!(ids.contains("100"));
    assert!(!ids.contains("200"));
    assert_eq!(ids.len(), 1);
    let c = tg("t", "100", Some(vec!["5", "-42", "5"]));
    let ids = c.allowed_ids();
    assert!(ids.contains("5"));
    assert!(ids.contains("-42"));
    assert!(!ids.contains("100"));
    assert_eq!(ids.len(), 2);
}

#[test]
fn validation() {
    assert_eq!(tg("", "1", None).validate(), Err(ConfigError::MissingBotToken));
    assert_eq!(tg("", "", None).validate(), Err(ConfigError::MissingBotToken));
    assert_eq!(tg("t", "", None).validate(), Err(ConfigError::MissingChatId));
    assert_eq!(tg("t", "1", None).validate(), Ok(()));
    assert_eq!(ConfigError::MissingBotToken.message(), "telegram.bot_token must be set");
    assert_eq!(ConfigError::MissingChatId.message(), "telegram.chat_id must be set");
    let d = TasksConfig::default();
    assert_eq!(d.max_tasks, 16);
    assert_eq!(d.log_ring_size, 500);
}

#[test]
fn telegram_requests_and_responses() {
    assert_eq!(api_url("123:ABC", "sendMessage"), "https://api.telegram.org/bot123:ABC/sendMessage");
    let resp: TgResponse<Vec<Update>> = TgResponse { ok: false, result: None, description: Some("Unauthorized".to_string()) };
    assert_eq!(updates_from_response(resp).err().unwrap(), "getUpdates failed: Unauthorized");
    let resp: TgResponse<Vec<Update>> = TgResponse { ok: false, result: None, description: None };
    assert_eq!(updates_from_response(resp).err().unwrap(), "getUpdates failed: ");
    let resp: TgResponse<Vec<Update>> = TgResponse { ok: true, result: None, description: None };
    assert_eq!(updates_from_response(resp).unwrap().len(), 0);
    let resp: TgResponse<Vec<Update>> = TgResponse {
        ok: true,
        result: Some(vec![Update { update_id: 9, message: None }]),
        description: None,
    };
    assert_eq!(updates_from_response(resp).unwrap()[0].update_id, 9);
    assert!(send_outcome(true, "whatever").is_ok());
    assert_eq!(send_outcome(false, "{\"ok\":false}").unwrap_err(), "Telegram API error: {\"ok\":false}");
}

fn update(id: i64, chat: i64, text: Option<&str>) -> Update {
    Update {
        update_id: id,
        message: Some(Message { message_id: 1, chat: Chat { id: chat }, text: text.map(|t| t.to_string()) }),
    }
}

#[test]
fn routing_updates() {
    let allowed = tg("t", "-1001", Some(vec!["-1001", "7"])).allowed_ids();
    let (next, action) = route_update(&update(41, -1001, Some("/kill 3")), &allowed);
    assert_eq!(next, 42);
    match action {
        UpdateAction::Reply { chat_id, command } => {
            assert_eq!(chat_id, "-1001");
            assert!(matches!(command, BotCommand::Kill { task_id: 3 }));
        }
        _ => panic!("expected Reply"),
    }
    let (next, action) = route_update(&update(5, 8, Some("/status")), &allowed);
    assert_eq!(next, 6);
    match action {
        UpdateAction::Unauthorized { chat_id } => assert_eq!(chat_id, "8"),
        _ => panic!("expected Unauthorized"),
    }
    let (next, action) = route_update(&update(6, 7, None), &allowed);
    assert_eq!(next, 7);
    assert!(matches!(action, UpdateAction::Skip));
    let (next, action) = route_update(&Update { update_id: -3, message: None }, &allowed);
    assert_eq!(next, -2);
    assert!(matches!(action, UpdateAction::Skip));
}

#[test]
fn alerts() {
    let fine = vec![GpuAlert { index: 0, name: "A100".to_string(), reasons: vec![] }];
    assert!(build_alert_with_host(&fine, "box", &vec!["GPU 0".to_string()]).is_none());
    assert!(build_alert(&fine, &vec!["GPU 0".to_string()]).is_none());
    let gpus = vec![
        GpuAlert {
            index: 0,
            name: "A100".to_string(),
            reasons: vec!["GPU utilization 1.0% < 10.0%".to_string(), "Memory utilization 2.0% < 5.0%".to_string()],
        },
        GpuAlert { index: 1, name: "A100".to_string(), reasons: vec![] },
        GpuAlert { index: 2, name: "H100".to_string(), reasons: vec!["GPU utilization 0.0% < 10.0%".to_string()] },
    ];
    let summary = vec!["s0".to_string(), "s1".to_string(), "s2".to_string()];
    let alert = build_alert_with_host(&gpus, "node7", &summary).unwrap();
    assert_eq!(
        alert.message,
        "🖥️ <b>GPU Guard Alert</b> (node7)\n\n⚠️ <b>GPU 0 (A100)</b>\nGPU utilization 1.0% < 10.0%\nMemory utilization 2.0% < 5.0%\n\n⚠️ <b>GPU 2 (H100)</b>\nGPU utilization 0.0% < 10.0%\n\ns0\ns1\ns2"
    );
    let alert = build_alert(&gpus, &summary).unwrap();
    assert!(alert.message.starts_with("🖥️ <b>GPU Guard Alert</b> ("));
    assert!(alert.message.ends_with("\n\ns0\ns1\ns2"));
    assert_eq!(host_or_unknown(None), "unknown");
    assert_eq!(host_or_unknown(Some("h".to_string())), "h");
}

#[test]
fn gpu_output() {
    assert_eq!(split_lines(""), Vec::<String>::new());
    assert_eq!(split_lines("a\nb\r\n\nc"), vec!["a", "b", "", "c"]);
    assert_eq!(split_lines("a\n"), vec!["a"]);
    assert_eq!(split_lines("x\r"), vec!["x\r"]);
    let g = parse_gpu_line("0, 35, 1024, 81920, NVIDIA A100-SXM4-80GB").unwrap().unwrap();
    assert_eq!(g.index, 0);
    assert_eq!(g.utilization, "35");
    assert_eq!(g.memory_used, "1024");
    assert_eq!(g.memory_total, "81920");
    assert_eq!(g.name, "NVIDIA A100-SXM4-80GB");
    assert!(parse_gpu_line("0, 35, 1024").unwrap().is_none());
    assert!(parse_gpu_line("").unwrap().is_none());
    assert_eq!(parse_gpu_line("x, 1, 2, 3, n").err(), Some(IntErrorKind::InvalidDigit));
    assert_eq!(parse_gpu_line(" , 1, 2, 3, n").err(), Some(IntErrorKind::Empty));
    assert_eq!(parse_gpu_line("4294967296,1,2,3,n").err(), Some(IntErrorKind::PosOverflow));
    let g = parse_gpu_line("3,1,2,3,name, with comma").unwrap().unwrap();
    assert_eq!(g.index, 3);
    assert_eq!(g.name, "name");
    assert_eq!(IntErrorKind::InvalidDigit.message(), "invalid digit found in string");
}
