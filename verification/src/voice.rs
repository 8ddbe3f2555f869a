//! Speaking a text aloud: which speech programs are tried, in which order
//! and with which arguments, on each platform.
//!
//! - macOS: `say`, with the voice asked for, or `Tingting` for Chinese
//!   text; if that voice fails, `say` with the default voice.
//! - Windows: PowerShell with `System.Speech`, the text on standard input.
//! - Linux: `spd-say`, `espeak-ng`, `espeak`, `festival`, each only when
//!   installed, until one succeeds.
//!
//! Running the programs is left to the caller, which reports what became
//! of each one; [`speech_step`] and [`speech_failed`] decide what follows.

use vstd::prelude::*;
use crate::text::{to_string, push_str};

verus! {

broadcast use vstd::string::group_string_axioms;

/// The platform the speech programs run on.
#[derive(PartialEq, Eq, Structural, Clone, Copy)]
pub enum Platform {
    MacOs,
    Windows,
    Linux,
    Other,
}

/// One speech program to run: its name, its arguments, the text to write
/// on its standard input if any, and whether it is first to be looked up
/// with `which` (and skipped when absent).
#[derive(Debug)]
pub struct SpeechCommand {
    pub program: String,
    pub args: Vec<String>,
    pub stdin_text: Option<String>,
    pub needs_probe: bool,
}

/// The mathematical form of a [`SpeechCommand`].
pub struct SpeechCommandView {
    pub program: Seq<char>,
    pub args: Seq<Seq<char>>,
    pub stdin_text: Option<Seq<char>>,
    pub needs_probe: bool,
}

impl DeepView for SpeechCommand {
    type V = SpeechCommandView;

    open spec fn deep_view(&self) -> SpeechCommandView {
        SpeechCommandView {
            program: self.program@,
            args: self.args.deep_view(),
            stdin_text: self.stdin_text.deep_view(),
            needs_probe: self.needs_probe,
        }
    }
}

/// Whether a character is a CJK unified ideograph (U+4E00 to U+9FFF).
pub open spec fn is_cjk(c: char) -> bool {
    '\u{4e00}' <= c && c <= '\u{9fff}'
}

/// Whether `s` holds a CJK unified ideograph.
pub open spec fn has_cjk_spec(s: Seq<char>) -> bool {
    exists|i: int| 0 <= i < s.len() && is_cjk(#[trigger] s[i])
}

/// Whether `text` holds a CJK unified ideograph.
pub fn has_cjk(text: &str) -> (b: bool)
    ensures
        b == has_cjk_spec(text@),
{
    let cs = crate::text::chars_of(text);
    let mut i: usize = 0;
    while i < cs.len()
        invariant
            i <= cs.len(),
            cs@ == text@,
            forall|k: int| 0 <= k < i ==> !is_cjk(#[trigger] cs@[k]),
        decreases cs.len() - i,
    {
        if '\u{4e00}' <= cs[i] && cs[i] <= '\u{9fff}' {
            assert(is_cjk(text@[i as int]));
            return true;
        }
        i = i + 1;
    }
    false
}

/// The voice `say` is asked for on macOS: the one requested, else
/// `Tingting` for Chinese text, else none (the empty name).
pub open spec fn mac_voice(text: Seq<char>, voice: Option<Seq<char>>) -> Seq<char> {
    match voice {
        Some(v) => v,
        None => if has_cjk_spec(text) {
            "Tingting"@
        } else {
            Seq::empty()
        },
    }
}

/// The PowerShell script that speaks its standard input, preferring a
/// Chinese voice.
pub open spec fn windows_script() -> Seq<char> {
    "\nAdd-Type -AssemblyName System.Speech;\n[Console]::InputEncoding = [System.Text.Encoding]::UTF8;\n$s = New-Object System.Speech.Synthesis.SpeechSynthesizer;\n$zh = $s.GetInstalledVoices() | Where-Object { $_.VoiceInfo.Culture.Name -like 'zh*' } | Select-Object -First 1;\nif ($zh) { $s.SelectVoice($zh.VoiceInfo.Name) };\n$s.Speak([Console]::In.ReadToEnd());\n"@
}

/// A command without standard input.
pub open spec fn plain_command(program: Seq<char>, args: Seq<Seq<char>>, needs_probe: bool) -> SpeechCommandView {
    SpeechCommandView { program, args, stdin_text: None, needs_probe }
}

/// The speech programs to try, in order, to speak `text`; speaking
/// succeeds with the first that runs and exits successfully.
pub open spec fn speech_plan(text: Seq<char>, voice: Option<Seq<char>>, platform: Platform) -> Seq<SpeechCommandView> {
    match platform {
        Platform::MacOs => {
            let chosen = mac_voice(text, voice);
            if chosen.len() == 0 {
                seq![plain_command("say"@, seq![text], false)]
            } else {
                seq![
                    plain_command("say"@, seq!["-v"@, chosen, text], false),
                    plain_command("say"@, seq![text], false),
                ]
            }
        },
        Platform::Windows => seq![
            SpeechCommandView {
                program: "powershell.exe"@,
                args: seq!["-NoProfile"@, "-NonInteractive"@, "-Command"@, windows_script()],
                stdin_text: Some(text),
                needs_probe: false,
            },
        ],
        Platform::Linux => seq![
            plain_command("spd-say"@, seq![text], true),
            plain_command("espeak-ng"@, seq!["-v"@, "zh"@, text], true),
            plain_command("espeak"@, seq!["-v"@, "zh"@, text], true),
            plain_command("festival"@, seq![text], true),
        ],
        Platform::Other => Seq::empty(),
    }
}

fn args_of(parts: &[&str]) -> (v: Vec<String>)
    ensures
        v.deep_view() == parts.deep_view(),
{
    let mut v: Vec<String> = Vec::new();
    let mut i: usize = 0;
    while i < parts.len()
        invariant
            i <= parts.len(),
            v.deep_view() == parts.deep_view().take(i as int),
        decreases parts.len() - i,
    {
        let ghost before = v.deep_view();
        v.push(to_string(parts[i]));
        assert(parts.deep_view()[i as int] == parts@[i as int]@);
        assert(v.deep_view() =~= before.push(parts@[i as int]@));
        i = i + 1;
        assert(v.deep_view() =~= parts.deep_view().take(i as int));
    }
    assert(parts.deep_view().take(parts.len() as int) =~= parts.deep_view());
    v
}

fn command(program: &str, args: Vec<String>, needs_probe: bool) -> (c: SpeechCommand)
    ensures
        c.deep_view() == plain_command(program@, args.deep_view(), needs_probe),
{
    SpeechCommand { program: to_string(program), args, stdin_text: None, needs_probe }
}

/// Plans the speaking of `text` with the optional `voice` (a platform
/// voice name) on `platform`: the commands to try in order.
pub fn speak(text: &str, voice: Option<&str>, platform: Platform) -> (plan: Vec<SpeechCommand>)
    ensures
        plan.deep_view() == speech_plan(text@, voice.deep_view(), platform),
{
    let mut plan: Vec<SpeechCommand> = Vec::new();
    match platform {
        Platform::MacOs => {
            let chosen: &str = match voice {
                Some(v) => v,
                None => if has_cjk(text) {
                    "Tingting"
                } else {
                    ""
                },
            };
            proof {
                reveal_strlit("");
            }
            assert(chosen@ == mac_voice(text@, voice.deep_view()));
            if chosen.is_empty() {
                let a = args_of(&[text]);
                assert(a.deep_view() =~= seq![text@]);
                plan.push(command("say", a, false));
            } else {
                let a = args_of(&["-v", chosen, text]);
                assert(a.deep_view() =~= seq!["-v"@, chosen@, text@]);
                plan.push(command("say", a, false));
                let b = args_of(&[text]);
                assert(b.deep_view() =~= seq![text@]);
                plan.push(command("say", b, false));
            }
        },
        Platform::Windows => {
            let script = "\nAdd-Type -AssemblyName System.Speech;\n[Console]::InputEncoding = [System.Text.Encoding]::UTF8;\n$s = New-Object System.Speech.Synthesis.SpeechSynthesizer;\n$zh = $s.GetInstalledVoices() | Where-Object { $_.VoiceInfo.Culture.Name -like 'zh*' } | Select-Object -First 1;\nif ($zh) { $s.SelectVoice($zh.VoiceInfo.Name) };\n$s.Speak([Console]::In.ReadToEnd());\n";
            let a = args_of(&["-NoProfile", "-NonInteractive", "-Command", script]);
            assert(a.deep_view() =~= seq!["-NoProfile"@, "-NonInteractive"@, "-Command"@, windows_script()]);
            plan.push(SpeechCommand {
                program: to_string("powershell.exe"),
                args: a,
                stdin_text: Some(to_string(text)),
                needs_probe: false,
            });
        },
        Platform::Linux => {
            let a = args_of(&[text]);
            assert(a.deep_view() =~= seq![text@]);
            plan.push(command("spd-say", a, true));
            let b = args_of(&["-v", "zh", text]);
            assert(b.deep_view() =~= seq!["-v"@, "zh"@, text@]);
            plan.push(command("espeak-ng", b, true));
            let c = args_of(&["-v", "zh", text]);
            assert(c.deep_view() =~= seq!["-v"@, "zh"@, text@]);
            plan.push(command("espeak", c, true));
            let d = args_of(&[text]);
            assert(d.deep_view() =~= seq![text@]);
            plan.push(command("festival", d, true));
        },
        Platform::Other => {},
    }
    assert(plan.deep_view() =~= speech_plan(text@, voice.deep_view(), platform));
    plan
}

/// What became of one planned speech program.
#[derive(Debug)]
pub enum SpeechEvent {
    /// Its lookup found it not installed, so it was not run.
    Absent,
    /// It could not be started; the text of the error.
    SpawnFailed(String),
    /// Its standard input could not be opened.
    StdinUnavailable,
    /// Writing the text to its standard input failed; the text of the error.
    WriteFailed(String),
    /// Waiting for it failed; the text of the error.
    WaitFailed(String),
    /// It ran to its end: whether it succeeded, and what it wrote on its
    /// standard error (decoded lossily).
    Exited { success: bool, stderr: String },
}

/// The mathematical form of a [`SpeechEvent`].
pub enum SpeechEventView {
    Absent,
    SpawnFailed(Seq<char>),
    StdinUnavailable,
    WriteFailed(Seq<char>),
    WaitFailed(Seq<char>),
    Exited { success: bool, stderr: Seq<char> },
}

impl DeepView for SpeechEvent {
    type V = SpeechEventView;

    open spec fn deep_view(&self) -> SpeechEventView {
        match self {
            SpeechEvent::Absent => SpeechEventView::Absent,
            SpeechEvent::SpawnFailed(e) => SpeechEventView::SpawnFailed(e@),
            SpeechEvent::StdinUnavailable => SpeechEventView::StdinUnavailable,
            SpeechEvent::WriteFailed(e) => SpeechEventView::WriteFailed(e@),
            SpeechEvent::WaitFailed(e) => SpeechEventView::WaitFailed(e@),
            SpeechEvent::Exited { success, stderr } => SpeechEventView::Exited { success: *success, stderr: stderr@ },
        }
    }
}

/// What follows one speech program: the next program is tried (with the
/// standard error to report if none succeeds), or speaking is over.
#[derive(Debug)]
pub enum SpeechStep {
    Next(String),
    Finish(Result<(), String>),
}

/// The mathematical form of a [`SpeechStep`].
pub enum SpeechStepView {
    Next(Seq<char>),
    Finish(Result<(), Seq<char>>),
}

impl DeepView for SpeechStep {
    type V = SpeechStepView;

    open spec fn deep_view(&self) -> SpeechStepView {
        match self {
            SpeechStep::Next(e) => SpeechStepView::Next(e@),
            SpeechStep::Finish(Ok(())) => SpeechStepView::Finish(Ok(())),
            SpeechStep::Finish(Err(e)) => SpeechStepView::Finish(Err(e@)),
        }
    }
}

/// What follows the program `program` on `platform`, given the standard
/// error kept so far and what became of the program: speaking stops at the
/// first success and at the first program that cannot be run; a program
/// that is absent or fails passes on to the next.
pub open spec fn speech_step_spec(
    platform: Platform,
    program: Seq<char>,
    last_stderr: Seq<char>,
    event: SpeechEventView,
) -> SpeechStepView {
    match event {
        SpeechEventView::Absent => SpeechStepView::Next(last_stderr),
        SpeechEventView::SpawnFailed(e) => SpeechStepView::Finish(Err(
            if platform == Platform::Windows {
                "启动 PowerShell 失败: "@ + e
            } else {
                "调用 "@ + program + " 失败: "@ + e
            },
        )),
        SpeechEventView::StdinUnavailable => SpeechStepView::Finish(Err("无法打开 stdin"@)),
        SpeechEventView::WriteFailed(e) => SpeechStepView::Finish(Err("写入文本失败: "@ + e)),
        SpeechEventView::WaitFailed(e) => SpeechStepView::Finish(Err("等待 PowerShell 失败: "@ + e)),
        SpeechEventView::Exited { success, stderr } => if success {
            SpeechStepView::Finish(Ok(()))
        } else {
            SpeechStepView::Next(stderr)
        },
    }
}

/// Speaking stops at the first program that succeeds, with success, and
/// at the first that cannot be run, with an error; it goes on to the next
/// program exactly when this one was absent or ran and failed, keeping
/// the standard error of the last program that ran.
pub proof fn lemma_speech_step(platform: Platform, program: Seq<char>, last_stderr: Seq<char>, event: SpeechEventView)
    ensures
        ({
            let step = speech_step_spec(platform, program, last_stderr, event);
            &&& step == SpeechStepView::Finish(Ok(())) <==> (event matches SpeechEventView::Exited { success, .. } && success)
            &&& step is Next <==> (event is Absent || (event matches SpeechEventView::Exited { success, .. } && !success))
            &&& event is Absent ==> step == SpeechStepView::Next(last_stderr)
            &&& event matches SpeechEventView::Exited { success, stderr } ==> (!success ==> step == SpeechStepView::Next(stderr))
        }),
{
}

/// The error reported when every planned program was absent or failed,
/// with the standard error of the last one that ran.
pub open spec fn speech_failure(platform: Platform, last_stderr: Seq<char>) -> Seq<char> {
    match platform {
        Platform::MacOs => "say 输出失败: "@ + last_stderr,
        Platform::Windows => "TTS 失败: "@ + last_stderr,
        _ => "未找到可用的语音引擎,请安装 espeak-ng 或 speech-dispatcher"@,
    }
}

fn joined(a: &str, b: &str) -> (r: String)
    ensures
        r@ == a@ + b@,
{
    let mut r = to_string(a);
    push_str(&mut r, b);
    r
}

/// Decides what follows the program `program` of a speech plan on
/// `platform`: `last_stderr` is the standard error kept from the programs
/// before it, `event` what became of it.
pub fn speech_step(platform: Platform, program: &str, last_stderr: String, event: SpeechEvent) -> (step: SpeechStep)
    ensures
        step.deep_view() == speech_step_spec(platform, program@, last_stderr@, event.deep_view()),
{
    match event {
        SpeechEvent::Absent => SpeechStep::Next(last_stderr),
        SpeechEvent::SpawnFailed(e) => match platform {
            Platform::Windows => SpeechStep::Finish(Err(joined("启动 PowerShell 失败: ", e.as_str()))),
            _ => {
                let mut r = joined("调用 ", program);
                push_str(&mut r, " 失败: ");
                push_str(&mut r, e.as_str());
                SpeechStep::Finish(Err(r))
            },
        },
        SpeechEvent::StdinUnavailable => SpeechStep::Finish(Err(to_string("无法打开 stdin"))),
        SpeechEvent::WriteFailed(e) => SpeechStep::Finish(Err(joined("写入文本失败: ", e.as_str()))),
        SpeechEvent::WaitFailed(e) => SpeechStep::Finish(Err(joined("等待 PowerShell 失败: ", e.as_str()))),
        SpeechEvent::Exited { success, stderr } => if success {
            SpeechStep::Finish(Ok(()))
        } else {
            SpeechStep::Next(stderr)
        },
    }
}

/// The error reported once every program of the plan was absent or
/// failed; `last_stderr` is the standard error of the last one that ran.
pub fn speech_failed(platform: Platform, last_stderr: &str) -> (e: String)
    ensures
        e@ == speech_failure(platform, last_stderr@),
{
    match platform {
        Platform::MacOs => joined("say 输出失败: ", last_stderr),
        Platform::Windows => joined("TTS 失败: ", last_stderr),
        _ => to_string("未找到可用的语音引擎,请安装 espeak-ng 或 speech-dispatcher"),
    }
}

} // verus!
