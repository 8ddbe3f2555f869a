use opc_agent::db::Employee;
use opc_agent::orchestrator::parse_decision;

fn sample_employees() -> Vec<Employee> {
    vec![
        Employee {
            id: 1,
            name: "小码".into(),
            role: "前端工程师".into(),
            emoji: "💻".into(),
            color: "#2563eb".into(),
            system_prompt: String::new(),
            base_url: String::new(),
            api_key: String::new(),
            model: String::new(),
            temperature_bits: 0.7f64.to_bits(),
            capabilities: vec!["代码".into(), "网页".into()],
            enabled: true,
        },
        Employee {
            id: 2,
            name: "小文".into(),
            role: "文案策划".into(),
            emoji: "✍️".into(),
            color: "#7c3aed".into(),
            system_prompt: String::new(),
            base_url: String::new(),
            api_key: String::new(),
            model: String::new(),
            temperature_bits: 0.9f64.to_bits(),
            capabilities: vec!["文案".into(), "营销".into()],
            enabled: true,
        },
    ]
}

#[test]
fn parse_valid_json() {
    let text = r#"好的,我来分析。{"assigned": [2], "reason": "这是文案任务,交给小文"}"#;
    let d = parse_decision(text, &sample_employees()).unwrap();
    assert_eq!(d.assigned, vec![2]);
    assert!(d.reason.contains("小文"));
}

#[test]
fn parse_by_name() {
    let text = r#"{"assigned": ["小码"], "reason": "代码任务"}"#;
    let d = parse_decision(text, &sample_employees()).unwrap();
    assert_eq!(d.assigned, vec![1]);
}

#[test]
fn parse_ignores_unknown_ids() {
    let text = r#"{"assigned": [999], "reason": "不存在的员工"}"#;
    assert!(parse_decision(text, &sample_employees()).is_none());
}

#[test]
fn parse_non_json_falls_back_to_none() {
    let text = "抱歉,我不确定该派给谁。";
    assert!(parse_decision(text, &sample_employees()).is_none());
}

#[test]
fn fallback_assigns_all_enabled() {
    let d = opc_agent::orchestrator::fallback_all(&sample_employees());
    assert_eq!(d.assigned, vec![1, 2]);
}

#[test]
fn fallback_reason_is_fixed() {
    let d = opc_agent::orchestrator::fallback_all(&sample_employees());
    assert_eq!(d.reason, "自动调度未能解析,已派发给全部启用的员工");
}

#[test]
fn parse_dedups_and_keeps_order() {
    let text = r#"{"assigned": [2, "小码", 2, 1, "小文", 3.5, null], "reason": "r"}"#;
    let d = parse_decision(text, &sample_employees()).unwrap();
    assert_eq!(d.assigned, vec![2, 1]);
    assert_eq!(d.reason, "r");
}

#[test]
fn parse_without_reason_gives_empty_reason() {
    let text = r#"前缀 {"assigned": [1]} 后缀"#;
    let d = parse_decision(text, &sample_employees()).unwrap();
    assert_eq!(d.assigned, vec![1]);
    assert_eq!(d.reason, "");
}

#[test]
fn parse_braces_in_wrong_order_is_none() {
    assert!(parse_decision("} {", &sample_employees()).is_none());
    assert!(parse_decision("{ oops }", &sample_employees()).is_none());
    assert!(parse_decision(r#"{"assigned": "1"}"#, &sample_employees()).is_none());
}

#[test]
fn roster_lists_each_employee() {
    let r = opc_agent::orchestrator::build_roster(&sample_employees());
    assert_eq!(
        r,
        "- id=1, 姓名=小码, 岗位=前端工程师, 擅长=代码、网页\n- id=2, 姓名=小文, 岗位=文案策划, 擅长=文案、营销"
    );
}

#[test]
fn dispatch_request_holds_roster_and_instruction() {
    let emps = sample_employees();
    let (system, user) = opc_agent::orchestrator::dispatch_request(&emps[..1], "写文案");
    assert!(system.starts_with("你是 OPC Agent 的智能调度中枢。"));
    assert!(system.contains("\n{\"assigned\": [员工id列表], \"reason\": \"为什么这样分派(一句话中文说明)\"}\n"));
    assert_eq!(user.role, "user");
    assert_eq!(
        user.content,
        "【AI 员工名册】\n- id=1, 姓名=小码, 岗位=前端工程师, 擅长=代码、网页\n\n【BOSS 指令】\n写文案"
    );
}

#[test]
fn plan_with_no_enabled_employee_assigns_nobody() {
    let mut emps = sample_employees();
    emps[0].enabled = false;
    emps[1].enabled = false;
    match opc_agent::orchestrator::plan_decision(&emps) {
        opc_agent::orchestrator::DecisionPlan::Decided(d) => {
            assert!(d.assigned.is_empty());
            assert_eq!(d.reason, "没有启用的 AI 员工");
        }
        _ => panic!("expected a decision"),
    }
}

#[test]
fn plan_with_one_enabled_employee_assigns_it() {
    let mut emps = sample_employees();
    emps[0].enabled = false;
    match opc_agent::orchestrator::plan_decision(&emps) {
        opc_agent::orchestrator::DecisionPlan::Decided(d) => {
            assert_eq!(d.assigned, vec![2]);
            assert_eq!(d.reason, "当前仅一名员工,直接派发");
        }
        _ => panic!("expected a decision"),
    }
}

#[test]
fn plan_with_two_enabled_employees_asks_the_model() {
    match opc_agent::orchestrator::plan_decision(&sample_employees()) {
        opc_agent::orchestrator::DecisionPlan::AskModel(enabled) => {
            assert_eq!(enabled.len(), 2);
            assert_eq!(enabled[1].name, "小文");
        }
        _ => panic!("expected the model to be asked"),
    }
}

#[test]
fn settle_falls_back_on_failed_call() {
    let emps = sample_employees();
    let (d, warn) = opc_agent::orchestrator::settle_decision(Err("超时".to_string()), &emps);
    assert_eq!(d.assigned, vec![1, 2]);
    assert_eq!(warn.unwrap(), "调度模型调用失败: 超时,已兜底派发全部员工");
}

#[test]
fn settle_falls_back_on_unreadable_reply() {
    let emps = sample_employees();
    let (d, warn) = opc_agent::orchestrator::settle_decision(Ok("不知道".to_string()), &emps);
    assert_eq!(d.assigned, vec![1, 2]);
    assert_eq!(warn.unwrap(), "调度解析失败,已兜底派发全部员工");
}

#[test]
fn settle_takes_a_readable_reply() {
    let emps = sample_employees();
    let (d, warn) = opc_agent::orchestrator::settle_decision(
        Ok(r#"{"assigned": ["小文"], "reason": "文案"}"#.to_string()),
        &emps,
    );
    assert_eq!(d.assigned, vec![2]);
    assert!(warn.is_none());
}
