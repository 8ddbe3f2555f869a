use opc_agent::voice::{speech_failed, speech_step, SpeechEvent, SpeechStep};
use opc_agent::stt::{kept_path_parts, transcript_of, PathPartKind, Recognition, MODEL_DIR_NAME, MODEL_URL};
use opc_agent::voice::{has_cjk, speak, Platform};

#[test]
fn cjk_is_detected() {
    assert!(has_cjk("hello 世界"));
    assert!(!has_cjk("hello, ｗｏｒｌｄ"));
}

fn shape(plan: &[opc_agent::voice::SpeechCommand]) -> Vec<(String, Vec<String>, Option<String>, bool)> {
    plan.iter()
        .map(|c| (c.program.clone(), c.args.clone(), c.stdin_text.clone(), c.needs_probe))
        .collect()
}

fn s(v: &[&str]) -> Vec<String> {
    v.iter().map(|x| x.to_string()).collect()
}

#[test]
fn mac_picks_tingting_for_chinese() {
    let plan = speak("你好", None, Platform::MacOs);
    assert_eq!(
        shape(&plan),
        vec![
            ("say".to_string(), s(&["-v", "Tingting", "你好"]), None, false),
            ("say".to_string(), s(&["你好"]), None, false),
        ]
    );
}

#[test]
fn mac_uses_default_voice_for_other_text() {
    let plan = speak("hi", None, Platform::MacOs);
    assert_eq!(shape(&plan), vec![("say".to_string(), s(&["hi"]), None, false)]);
    let plan = speak("hi", Some("Alex"), Platform::MacOs);
    assert_eq!(plan[0].args, s(&["-v", "Alex", "hi"]));
    assert_eq!(plan.len(), 2);
}

#[test]
fn windows_speaks_through_powershell() {
    let plan = speak("你好", None, Platform::Windows);
    assert_eq!(plan.len(), 1);
    assert_eq!(plan[0].program, "powershell.exe");
    assert_eq!(&plan[0].args[..3], &s(&["-NoProfile", "-NonInteractive", "-Command"])[..]);
    assert!(plan[0].args[3].contains("System.Speech.Synthesis.SpeechSynthesizer"));
    assert_eq!(plan[0].stdin_text.as_deref(), Some("你好"));
}

#[test]
fn linux_tries_four_engines() {
    let plan = speak("hi", Some("ignored"), Platform::Linux);
    assert_eq!(
        shape(&plan),
        vec![
            ("spd-say".to_string(), s(&["hi"]), None, true),
            ("espeak-ng".to_string(), s(&["-v", "zh", "hi"]), None, true),
            ("espeak".to_string(), s(&["-v", "zh", "hi"]), None, true),
            ("festival".to_string(), s(&["hi"]), None, true),
        ]
    );
    assert!(speak("hi", None, Platform::Other).is_empty());
}

#[test]
fn transcript_takes_the_best_alternative() {
    assert_eq!(transcript_of(Recognition::Single("你好".to_string())), "你好");
    assert_eq!(transcript_of(Recognition::Alternatives(vec!["a".to_string(), "b".to_string()])), "a");
    assert_eq!(transcript_of(Recognition::Alternatives(vec![])), "");
    assert!(MODEL_URL.ends_with(&format!("{}.zip", MODEL_DIR_NAME)));
}

#[test]
fn unpacked_paths_keep_plain_names_only() {
    let kinds = vec![
        PathPartKind::Root,
        PathPartKind::Normal,
        PathPartKind::Parent,
        PathPartKind::Parent,
        PathPartKind::Normal,
        PathPartKind::Current,
        PathPartKind::Normal,
    ];
    assert_eq!(kept_path_parts(&kinds), vec![1, 4, 6]);
    assert!(kept_path_parts(&vec![PathPartKind::Parent, PathPartKind::Current]).is_empty());
    assert_eq!(kept_path_parts(&vec![PathPartKind::Prefix, PathPartKind::Root, PathPartKind::Normal]), vec![2]);
}

#[test]
fn speaking_stops_at_the_first_success() {
    let step = speech_step(Platform::Linux, "spd-say", String::new(), SpeechEvent::Absent);
    assert!(matches!(step, SpeechStep::Next(ref e) if e.is_empty()));
    let step = speech_step(
        Platform::MacOs,
        "say",
        String::new(),
        SpeechEvent::Exited { success: false, stderr: "no voice".to_string() },
    );
    assert!(matches!(step, SpeechStep::Next(ref e) if e == "no voice"));
    let step = speech_step(
        Platform::MacOs,
        "say",
        "no voice".to_string(),
        SpeechEvent::Exited { success: true, stderr: String::new() },
    );
    assert!(matches!(step, SpeechStep::Finish(Ok(()))));
}

#[test]
fn speaking_reports_programs_that_cannot_run() {
    let step = speech_step(Platform::Linux, "espeak", String::new(), SpeechEvent::SpawnFailed("denied".to_string()));
    assert!(matches!(step, SpeechStep::Finish(Err(ref e)) if e == "调用 espeak 失败: denied"));
    let step = speech_step(Platform::Windows, "powershell.exe", String::new(), SpeechEvent::SpawnFailed("gone".to_string()));
    assert!(matches!(step, SpeechStep::Finish(Err(ref e)) if e == "启动 PowerShell 失败: gone"));
    let step = speech_step(Platform::Windows, "powershell.exe", String::new(), SpeechEvent::StdinUnavailable);
    assert!(matches!(step, SpeechStep::Finish(Err(ref e)) if e == "无法打开 stdin"));
    let step = speech_step(Platform::Windows, "powershell.exe", String::new(), SpeechEvent::WriteFailed("pipe".to_string()));
    assert!(matches!(step, SpeechStep::Finish(Err(ref e)) if e == "写入文本失败: pipe"));
    let step = speech_step(Platform::Windows, "powershell.exe", String::new(), SpeechEvent::WaitFailed("lost".to_string()));
    assert!(matches!(step, SpeechStep::Finish(Err(ref e)) if e == "等待 PowerShell 失败: lost"));
}

#[test]
fn speaking_fails_with_the_platform_error() {
    assert_eq!(speech_failed(Platform::MacOs, "bad"), "say 输出失败: bad");
    assert_eq!(speech_failed(Platform::Windows, "bad"), "TTS 失败: bad");
    assert_eq!(
        speech_failed(Platform::Linux, "bad"),
        "未找到可用的语音引擎,请安装 espeak-ng 或 speech-dispatcher"
    );
}
