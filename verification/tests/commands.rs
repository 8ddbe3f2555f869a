use opc_agent::commands::{dispatch_step, employee_report, DispatchAction, DispatchEvent, DispatchState, EmployeeOutcome, EmployeeReport};
use opc_agent::text::char_is_white_space;
use opc_agent::commands::{boss_message_text, cfg_from, dispatch_record, dispatch_roster, dispatch_targets, title_from};
use opc_agent::db::{AppSettings, Employee};
use opc_agent::orchestrator::DispatchDecision;

fn employee(id: i64, name: &str, enabled: bool) -> Employee {
    Employee {
        id,
        name: name.to_string(),
        role: "岗位".to_string(),
        emoji: "🤖".to_string(),
        color: "#2563eb".to_string(),
        system_prompt: String::new(),
        base_url: String::new(),
        api_key: String::new(),
        model: String::new(),
        temperature_bits: 0.7f64.to_bits(),
        capabilities: vec![],
        enabled,
    }
}

#[test]
fn title_skips_white_space_and_keeps_twelve() {
    assert_eq!(title_from("  帮我 写一篇 产品发布会的宣传文案吧 "), "帮我写一篇产品发布会的宣");
    assert_eq!(title_from("hi"), "hi");
}

#[test]
fn title_of_blank_text_is_new_conversation() {
    assert_eq!(title_from(" \t\n\u{3000}"), "新对话");
}

#[test]
fn boss_message_is_trimmed() {
    assert_eq!(boss_message_text("  你好 \n").unwrap(), "你好");
}

#[test]
fn blank_boss_message_is_refused() {
    assert_eq!(boss_message_text(" \u{a0}\t").unwrap_err(), "消息不能为空");
}

#[test]
fn roster_needs_an_enabled_employee() {
    let emps = vec![employee(1, "a", false)];
    assert_eq!(dispatch_roster(&emps).unwrap_err(), "还没有启用的 AI 员工,请先在右侧面板添加。");
    let emps = vec![employee(1, "a", false), employee(2, "b", true)];
    let r = dispatch_roster(&emps).unwrap();
    assert_eq!(r.len(), 1);
    assert_eq!(r[0].id, 2);
}

#[test]
fn targets_follow_the_decision() {
    let emps = vec![employee(1, "a", true), employee(2, "b", true), employee(3, "c", true)];
    let d = DispatchDecision { assigned: vec![3, 9, 1], reason: String::new() };
    let t = dispatch_targets(&d, &emps).unwrap();
    assert_eq!(t.iter().map(|e| e.id).collect::<Vec<_>>(), vec![3, 1]);
    let (ids, names) = dispatch_record(&t);
    assert_eq!(ids, vec![3, 1]);
    assert_eq!(names, vec!["c".to_string(), "a".to_string()]);
}

#[test]
fn targets_of_unknown_ids_are_an_error() {
    let emps = vec![employee(1, "a", true)];
    let d = DispatchDecision { assigned: vec![7], reason: String::new() };
    assert_eq!(dispatch_targets(&d, &emps).unwrap_err(), "调度未能匹配到合适的员工,请检查员工配置。");
}

#[test]
fn config_comes_from_settings() {
    let s = AppSettings::default();
    let c = cfg_from(&s);
    assert_eq!(c.base_url, "https://api.deepseek.com");
    assert_eq!(c.model, "deepseek-v4-flash");
    assert_eq!(c.api_key, "");
    assert_eq!(f64::from_bits(c.temperature_bits), 0.3);
}

#[test]
fn employee_reports_carry_their_cause() {
    let r = employee_report(EmployeeOutcome::OpenFailed("locked".to_string()));
    assert!(matches!(r, EmployeeReport::Failed(ref e) if e == "数据库错误: locked"));
    let r = employee_report(EmployeeOutcome::HistoryFailed("gone".to_string()));
    assert!(matches!(r, EmployeeReport::Failed(ref e) if e == "历史读取失败: gone"));
    let r = employee_report(EmployeeOutcome::ChatFailed("HTTP 500".to_string()));
    assert!(matches!(r, EmployeeReport::Failed(ref e) if e == "HTTP 500"));
    let r = employee_report(EmployeeOutcome::Replied("  好的 \n".to_string()));
    assert!(matches!(r, EmployeeReport::Reply(ref c) if c == "好的"));
}

#[test]
fn dispatch_runs_through_its_steps() {
    let (s, a) = dispatch_step(DispatchState::Opening, DispatchEvent::Opened);
    assert!(matches!(a, DispatchAction::List));
    let (s, a) = dispatch_step(s, DispatchEvent::Listed(vec![employee(1, "甲", true), employee(2, "乙", false), employee(3, "丙", true)]));
    let roster = match a {
        DispatchAction::Decide(r) => r,
        _ => panic!("expected a decision to be asked for"),
    };
    assert_eq!(roster.iter().map(|e| e.id).collect::<Vec<_>>(), vec![1, 3]);
    let (s, a) = dispatch_step(s, DispatchEvent::Decided(DispatchDecision { assigned: vec![3, 2, 1], reason: "r".to_string() }));
    match a {
        DispatchAction::Run { assigned, ids, names, reason } => {
            assert_eq!(assigned.len(), 2);
            assert_eq!(ids, vec![3, 1]);
            assert_eq!(names, vec!["丙".to_string(), "甲".to_string()]);
            assert_eq!(reason, "r");
        }
        _ => panic!("expected the employees to be set to work"),
    }
    let (s, a) = dispatch_step(s, DispatchEvent::Opened);
    assert!(matches!(a, DispatchAction::Wait));
    let (s, a) = dispatch_step(s, DispatchEvent::EmployeesDone);
    assert!(matches!(a, DispatchAction::Finish));
    assert!(matches!(s, DispatchState::Over));
}

#[test]
fn dispatch_fails_once_with_its_error() {
    let (s, a) = dispatch_step(DispatchState::Opening, DispatchEvent::OpenFailed("busy".to_string()));
    assert!(matches!(a, DispatchAction::Fail(ref e) if e == "数据库错误: busy"));
    assert!(matches!(s, DispatchState::Over));
    let (_, a) = dispatch_step(s, DispatchEvent::EmployeesDone);
    assert!(matches!(a, DispatchAction::Wait));
    let (_, a) = dispatch_step(DispatchState::Listing, DispatchEvent::ListFailed("io".to_string()));
    assert!(matches!(a, DispatchAction::Fail(ref e) if e == "员工读取失败: io"));
    let (_, a) = dispatch_step(DispatchState::Listing, DispatchEvent::Listed(vec![employee(1, "甲", false)]));
    assert!(matches!(a, DispatchAction::Fail(ref e) if e == "还没有启用的 AI 员工,请先在右侧面板添加。"));
    let (_, a) = dispatch_step(
        DispatchState::Deciding(vec![employee(1, "甲", true)]),
        DispatchEvent::Decided(DispatchDecision { assigned: vec![9], reason: String::new() }),
    );
    assert!(matches!(a, DispatchAction::Fail(ref e) if e == "调度未能匹配到合适的员工,请检查员工配置。"));
}

#[test]
fn white_space_is_the_unicode_property() {
    for c in ['\t', '\n', '\u{b}', '\u{c}', '\r', ' ', '\u{85}', '\u{a0}', '\u{1680}', '\u{2000}', '\u{200a}', '\u{2028}', '\u{2029}', '\u{202f}', '\u{205f}', '\u{3000}'] {
        assert!(char_is_white_space(c));
        assert_eq!(char_is_white_space(c), c.is_whitespace());
    }
    for c in ['a', '\u{200b}', '\u{feff}', '\u{8}', '\u{e}', '你'] {
        assert!(!char_is_white_space(c));
        assert_eq!(char_is_white_space(c), c.is_whitespace());
    }
}
