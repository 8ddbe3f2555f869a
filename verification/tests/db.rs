use opc_agent::db::{
    build_history, dispatch_log_from_row, dispatch_names_setting, employee_from_row, employee_to_row,
    get_settings, insert_dispatch, list_conversations, list_dispatch_logs, list_employees, save_settings,
    AppSettings, ChatMessage, Conversation, ConversationRow, DispatchLogRow, Employee, EmployeeRow, SettingRow,
};

fn employee() -> Employee {
    Employee {
        id: 5,
        name: "小码".to_string(),
        role: "前端工程师".to_string(),
        emoji: "💻".to_string(),
        color: "#2563eb".to_string(),
        system_prompt: "你是前端".to_string(),
        base_url: "https://api.example.com".to_string(),
        api_key: "k".to_string(),
        model: "m".to_string(),
        temperature_bits: 0.7f64.to_bits(),
        capabilities: vec!["代码".to_string(), "网页 \"A\"".to_string()],
        enabled: false,
    }
}

#[test]
fn employee_row_holds_json_capabilities() {
    let row = employee_to_row(&employee());
    assert_eq!(row.capabilities, "[\"代码\",\"网页 \\\"A\\\"\"]");
    assert_eq!(row.enabled, 0);
}

#[test]
fn employee_round_trips_through_its_row() {
    let e = employee();
    let back = employee_from_row(employee_to_row(&e));
    assert_eq!(back.id, e.id);
    assert_eq!(back.name, e.name);
    assert_eq!(back.system_prompt, e.system_prompt);
    assert_eq!(back.capabilities, e.capabilities);
    assert_eq!(back.enabled, e.enabled);
    assert_eq!(f64::from_bits(back.temperature_bits), 0.7);
}

fn row(caps: &str, enabled: i64) -> EmployeeRow {
    EmployeeRow {
        id: 1,
        name: "n".to_string(),
        role: "r".to_string(),
        emoji: "e".to_string(),
        color: "c".to_string(),
        system_prompt: String::new(),
        base_url: String::new(),
        api_key: String::new(),
        model: String::new(),
        temperature_bits: 0,
        capabilities: caps.to_string(),
        enabled,
    }
}

#[test]
fn unreadable_capabilities_count_as_none() {
    let e = employee_from_row(row("not json", 2));
    assert!(e.capabilities.is_empty());
    assert!(e.enabled);
    let list = list_employees(vec![row("[\"x\"]", 0), row("[1]", 1)]);
    assert_eq!(list[0].capabilities, vec!["x".to_string()]);
    assert!(!list[0].enabled);
    assert!(list[1].capabilities.is_empty());
}

fn conv(id: i64, title: &str, count: i64) -> ConversationRow {
    ConversationRow {
        conversation: Conversation { id, title: title.to_string(), created_at: "2024-01-01 10:00:00".to_string() },
        message_count: count,
    }
}

#[test]
fn empty_conversations_are_not_listed_and_titles_are_cut() {
    let long_ascii = "a".repeat(35);
    let long_cjk = "字".repeat(31);
    let short_cjk = "字".repeat(11);
    let rows = vec![conv(4, &long_ascii, 2), conv(3, "empty", 0), conv(2, &long_cjk, 1), conv(1, &short_cjk, 1)];
    let out = list_conversations(&rows);
    assert_eq!(out.iter().map(|c| c.id).collect::<Vec<_>>(), vec![4, 2, 1]);
    assert_eq!(out[0].title, "a".repeat(30));
    assert_eq!(out[1].title, "字".repeat(30));
    assert_eq!(out[2].title, short_cjk);
    assert_eq!(out[0].created_at, "2024-01-01 10:00:00");
}

fn msg(id: i64, role: &str, employee_id: Option<i64>, name: Option<&str>, content: &str) -> ChatMessage {
    ChatMessage {
        id,
        conversation_id: 1,
        role: role.to_string(),
        employee_id,
        employee_name: name.map(|n| n.to_string()),
        employee_emoji: None,
        employee_color: None,
        content: content.to_string(),
        created_at: String::new(),
    }
}

#[test]
fn history_keeps_the_boss_and_the_employee_itself() {
    let msgs = vec![
        msg(1, "boss", None, None, "写个网页"),
        msg(2, "employee", Some(1), Some("小码"), "好的"),
        msg(3, "employee", Some(2), Some("小文"), "我来写文案"),
        msg(4, "orchestrator", None, None, "内部"),
        msg(5, "employee", Some(1), None, "完成"),
    ];
    let h = build_history(&msgs, 1);
    let got: Vec<(String, String)> = h.into_iter().map(|m| (m.role, m.content)).collect();
    assert_eq!(
        got,
        vec![
            ("user".to_string(), "写个网页".to_string()),
            ("assistant".to_string(), "【小码】好的".to_string()),
            ("assistant".to_string(), "【员工】完成".to_string()),
        ]
    );
}

#[test]
fn history_looks_at_the_last_twenty_messages() {
    let msgs: Vec<ChatMessage> = (0..25).map(|i| msg(i, "boss", None, None, &format!("m{}", i))).collect();
    let h = build_history(&msgs, 1);
    assert_eq!(h.len(), 20);
    assert_eq!(h[0].content, "m5");
    assert_eq!(h[19].content, "m24");
}

#[test]
fn dispatch_record_holds_ids_as_json() {
    let w = insert_dispatch(7, "写文案", &vec![2, 1], "文案任务");
    assert_eq!(w.conversation_id, 7);
    assert_eq!(w.assigned_ids, "[2,1]");
    assert_eq!(w.boss_message, "写文案");
    assert_eq!(w.reason, "文案任务");
    let (key, value) = dispatch_names_setting(42, &vec!["小文".to_string(), "小码".to_string()]);
    assert_eq!(key, "dispatch_names_42");
    assert_eq!(value, "[\"小文\",\"小码\"]");
    let (key, _) = dispatch_names_setting(i64::MIN, &vec![]);
    assert_eq!(key, "dispatch_names_-9223372036854775808");
}

#[test]
fn dispatch_log_round_trips_and_tolerates_bad_ids() {
    let w = insert_dispatch(7, "写文案", &vec![2, 1], "文案任务");
    let rows = vec![
        DispatchLogRow {
            id: 1,
            conversation_id: w.conversation_id,
            boss_message: w.boss_message.clone(),
            assigned_ids: w.assigned_ids.clone(),
            reason: w.reason.clone(),
            created_at: "t".to_string(),
        },
        DispatchLogRow {
            id: 2,
            conversation_id: 7,
            boss_message: String::new(),
            assigned_ids: "oops".to_string(),
            reason: String::new(),
            created_at: "t".to_string(),
        },
    ];
    let logs = list_dispatch_logs(&rows);
    assert_eq!(logs[0].assigned_ids, vec![2, 1]);
    assert!(logs[0].assigned_names.is_empty());
    assert_eq!(logs[0].boss_message, "写文案");
    assert!(logs[1].assigned_ids.is_empty());
    assert_eq!(dispatch_log_from_row(&rows[1]).id, 2);
}

#[test]
fn default_settings() {
    let s = AppSettings::default();
    assert_eq!(s.orc_base_url, "https://api.deepseek.com");
    assert_eq!(s.orc_api_key, "");
    assert_eq!(s.orc_model, "deepseek-v4-flash");
    assert_eq!(f64::from_bits(s.orc_temperature_bits), 0.3);
}

fn setting(key: &str, value: &str) -> SettingRow {
    SettingRow {
        key: key.to_string(),
        value: value.to_string(),
        number: value.parse::<f64>().ok().map(f64::to_bits),
    }
}

#[test]
fn settings_read_back_what_was_saved() {
    let s = AppSettings {
        orc_base_url: "http://localhost:11434/v1".to_string(),
        orc_api_key: "SECRET-REDACTED".to_string(),
        orc_model: "qwen".to_string(),
        orc_temperature_bits: 0.55f64.to_bits(),
    };
    let pairs = save_settings(&s, &f64::from_bits(s.orc_temperature_bits).to_string());
    assert_eq!(pairs[3], ("orc_temperature".to_string(), "0.55".to_string()));
    let mut rows: Vec<SettingRow> = pairs.iter().rev().map(|(k, v)| setting(k, v)).collect();
    rows.insert(1, setting("dispatch_names_3", "[\"a\"]"));
    let back = get_settings(&rows);
    assert_eq!(back.orc_base_url, s.orc_base_url);
    assert_eq!(back.orc_api_key, s.orc_api_key);
    assert_eq!(back.orc_model, s.orc_model);
    assert_eq!(back.orc_temperature_bits, s.orc_temperature_bits);
}

#[test]
fn unreadable_temperature_keeps_the_default() {
    let back = get_settings(&vec![setting("orc_temperature", "warm"), setting("orc_model", "x")]);
    assert_eq!(f64::from_bits(back.orc_temperature_bits), 0.3);
    assert_eq!(back.orc_model, "x");
    assert_eq!(back.orc_base_url, "https://api.deepseek.com");
}

#[test]
fn dispatch_ids_read_back_at_the_extremes() {
    let ids = vec![-5, i64::MIN, i64::MAX, 0];
    let w = insert_dispatch(3, "b", &ids, "r");
    assert_eq!(w.assigned_ids, "[-5,-9223372036854775808,9223372036854775807,0]");
    let row = DispatchLogRow {
        id: 9,
        conversation_id: w.conversation_id,
        boss_message: w.boss_message,
        assigned_ids: w.assigned_ids,
        reason: w.reason,
        created_at: "t".to_string(),
    };
    assert_eq!(dispatch_log_from_row(&row).assigned_ids, ids);
    assert_eq!(insert_dispatch(3, "b", &vec![], "r").assigned_ids, "[]");
}

#[test]
fn capabilities_with_escapes_read_back() {
    let mut e = employee();
    e.capabilities = vec!["a\\b".to_string(), "tab\there".to_string(), "line\n".to_string(), String::new()];
    let back = employee_from_row(employee_to_row(&e));
    assert_eq!(back.capabilities, e.capabilities);
}
