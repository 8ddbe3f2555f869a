//! The decisions of the commands and of the dispatch pipeline: what a new
//! conversation is titled, which boss messages are taken, which employees
//! a task goes to, and with which model settings.

use vstd::prelude::*;
use crate::db::{AppSettings, Employee, EmployeeView, has_employee_id};
use crate::llm::LlmConfig;
use crate::orchestrator::{DispatchDecision, DispatchDecisionView, enabled_employees, enabled_of};
use crate::text::{char_is_white_space, chars_of, is_white_space, string_from_chars, to_string, push_str, trim, trim_spec, lemma_trim_keeps_middle};

verus! {

broadcast use vstd::string::group_string_axioms;

/// The model settings of the dispatcher, which the employees use too.
pub fn cfg_from(s: &AppSettings) -> (c: LlmConfig)
    ensures
        c.base_url@ == s.orc_base_url@,
        c.api_key@ == s.orc_api_key@,
        c.model@ == s.orc_model@,
        c.temperature_bits == s.orc_temperature_bits,
{
    LlmConfig {
        base_url: s.orc_base_url.clone(),
        api_key: s.orc_api_key.clone(),
        model: s.orc_model.clone(),
        temperature_bits: s.orc_temperature_bits,
    }
}

/// The characters of `s` that are not white space, in order.
pub open spec fn without_white_space(s: Seq<char>) -> Seq<char>
    decreases s.len(),
{
    if s.len() == 0 {
        Seq::empty()
    } else {
        let acc = without_white_space(s.drop_last());
        if is_white_space(s.last()) {
            acc
        } else {
            acc.push(s.last())
        }
    }
}

proof fn lemma_without_white_space(s: Seq<char>)
    ensures
        forall|i: int| 0 <= i < without_white_space(s).len() ==> !is_white_space(#[trigger] without_white_space(s)[i]),
    decreases s.len(),
{
    if s.len() > 0 {
        let init = s.drop_last();
        lemma_without_white_space(init);
        let acc = without_white_space(init);
        assert forall|i: int| 0 <= i < without_white_space(s).len() implies !is_white_space(#[trigger] without_white_space(s)[i]) by {
            if i < acc.len() {
                assert(without_white_space(s)[i] == acc[i]);
            }
        }
    }
}

/// The most characters a conversation title takes from the first message.
pub const TITLE_LIMIT: usize = 12;

/// The title of a conversation started by `text`: its first twelve
/// characters that are not white space, or `新对话` when it has none.
pub open spec fn title_spec(text: Seq<char>) -> Seq<char> {
    let t = without_white_space(text);
    let t = if t.len() > TITLE_LIMIT {
        t.take(TITLE_LIMIT as int)
    } else {
        t
    };
    if t.len() == 0 {
        "新对话"@
    } else {
        t
    }
}

proof fn lemma_without_white_space_filter(s: Seq<char>)
    ensures
        without_white_space(s) == s.filter(|c: char| !is_white_space(c)),
    decreases s.len(),
{
    if s.len() > 0 {
        let init = s.drop_last();
        lemma_without_white_space_filter(init);
        assert(init.push(s.last()) =~= s);
        init.lemma_filter_push(s.last(), |c: char| !is_white_space(c));
    }
}

/// A conversation is titled by the characters of its first message that
/// are not white space, in order: all of them when there are at most
/// twelve, the first twelve otherwise, and `新对话` when there is none.
pub proof fn lemma_title_exact(text: Seq<char>)
    ensures
        ({
            let kept = text.filter(|c: char| !is_white_space(c));
            &&& kept.len() == 0 ==> title_spec(text) == "新对话"@
            &&& 0 < kept.len() <= TITLE_LIMIT ==> title_spec(text) == kept
            &&& kept.len() > TITLE_LIMIT ==> title_spec(text) == kept.take(TITLE_LIMIT as int)
        }),
{
    lemma_without_white_space_filter(text);
}

/// The title of a conversation started by `text`.
pub fn title_from(text: &str) -> (t: String)
    ensures
        t@ == title_spec(text@),
        0 < t@.len() <= TITLE_LIMIT,
        forall|i: int| 0 <= i < t@.len() ==> !is_white_space(#[trigger] t@[i]),
{
    proof {
        lemma_without_white_space(text@);
        reveal_strlit("新对话");
    }
    let cs = chars_of(text);
    let mut kept: Vec<char> = Vec::new();
    let mut i: usize = 0;
    while i < cs.len()
        invariant
            i <= cs.len(),
            cs@ == text@,
            kept@ == without_white_space(cs@.take(i as int)),
        decreases cs.len() - i,
    {
        assert(cs@.take(i + 1).drop_last() =~= cs@.take(i as int));
        assert(cs@.take(i + 1).last() == cs@[i as int]);
        if !char_is_white_space(cs[i]) {
            kept.push(cs[i]);
        }
        i = i + 1;
    }
    assert(cs@.take(cs.len() as int) =~= cs@);
    if kept.len() == 0 {
        to_string("新对话")
    } else {
        let n = if kept.len() > TITLE_LIMIT {
            TITLE_LIMIT
        } else {
            kept.len()
        };
        let t = string_from_chars(&kept, 0, n);
        assert(t@ =~= title_spec(text@));
        t
    }
}

/// The error given for a message with nothing but white space.
pub open spec fn empty_message_error() -> Seq<char> {
    "消息不能为空"@
}

/// The boss message taken from what was typed: the text without the
/// white space around it; an error when nothing is left.
pub fn boss_message_text(text: &str) -> (r: Result<String, String>)
    ensures
        match r {
            Ok(t) => t@ == trim_spec(text@) && t@.len() > 0,
            Err(e) => trim_spec(text@).len() == 0 && e@ == empty_message_error(),
        },
{
    let t = trim(text);
    if t.as_str().is_empty() {
        Err(to_string("消息不能为空"))
    } else {
        Ok(t)
    }
}

/// The error reported when no employee is enabled.
pub open spec fn no_enabled_employee_error() -> Seq<char> {
    "还没有启用的 AI 员工,请先在右侧面板添加。"@
}

/// The employees a task can go to: the enabled ones; an error when there
/// is none.
pub fn dispatch_roster(employees: &[Employee]) -> (r: Result<Vec<Employee>, String>)
    ensures
        match r {
            Ok(v) => v.deep_view() == enabled_of(employees.deep_view()) && v.len() > 0,
            Err(e) => enabled_of(employees.deep_view()).len() == 0 && e@ == no_enabled_employee_error(),
        },
{
    let enabled = enabled_employees(employees);
    if enabled.len() == 0 {
        Err(to_string("还没有启用的 AI 员工,请先在右侧面板添加。"))
    } else {
        Ok(enabled)
    }
}

/// The first employee of `emps` with the id `id`.
pub open spec fn employee_with_id(emps: Seq<EmployeeView>, id: i64) -> Option<EmployeeView>
    decreases emps.len(),
{
    if emps.len() == 0 {
        None
    } else if emps[0].id == id {
        Some(emps[0])
    } else {
        employee_with_id(emps.drop_first(), id)
    }
}

/// The employees the ids stand for, in the order of the ids; ids that no
/// employee has are dropped.
pub open spec fn employees_for_ids(ids: Seq<i64>, emps: Seq<EmployeeView>) -> Seq<EmployeeView>
    decreases ids.len(),
{
    if ids.len() == 0 {
        Seq::empty()
    } else {
        let acc = employees_for_ids(ids.drop_last(), emps);
        match employee_with_id(emps, ids.last()) {
            Some(e) => acc.push(e),
            None => acc,
        }
    }
}

proof fn lemma_employee_with_id_at(emps: Seq<EmployeeView>, id: i64, i: int)
    requires
        0 <= i <= emps.len(),
        forall|k: int| 0 <= k < i ==> (#[trigger] emps[k]).id != id,
    ensures
        i < emps.len() && emps[i].id == id ==> employee_with_id(emps, id) == Some(emps[i]),
        i == emps.len() ==> employee_with_id(emps, id) is None,
    decreases i,
{
    if i > 0 {
        let t = emps.drop_first();
        assert forall|k: int| 0 <= k < i - 1 implies (#[trigger] t[k]).id != id by {
            assert(t[k] == emps[k + 1]);
        }
        lemma_employee_with_id_at(t, id, i - 1);
    }
}

proof fn lemma_employee_with_id_found(emps: Seq<EmployeeView>, id: i64)
    ensures
        employee_with_id(emps, id) is Some <==> has_employee_id(emps, id),
        employee_with_id(emps, id) matches Some(e) ==> e.id == id && emps.contains(e),
    decreases emps.len(),
{
    if emps.len() > 0 {
        let t = emps.drop_first();
        lemma_employee_with_id_found(t, id);
        if emps[0].id != id {
            if has_employee_id(emps, id) {
                let k = choose|k: int| 0 <= k < emps.len() && emps[k].id == id;
                assert(t[k - 1] == emps[k]);
            }
            if has_employee_id(t, id) {
                let k = choose|k: int| 0 <= k < t.len() && t[k].id == id;
                assert(emps[k + 1] == t[k]);
            }
            if let Some(e) = employee_with_id(t, id) {
                let k = choose|k: int| 0 <= k < t.len() && t[k] == e;
                assert(emps[k + 1] == e);
            }
        } else {
            assert(emps[0] == emps[0]);
        }
    }
}

/// Every id of a decision that names an employee at hand sends the task to
/// that employee, in the order of the decision: the employees a decision
/// is carried out by are as many as its ids that name one, and the id at
/// each such place gives an employee of the roster with that id, right
/// after those given by the ids before it.
pub proof fn lemma_targets_complete(ids: Seq<i64>, emps: Seq<EmployeeView>)
    ensures
        employees_for_ids(ids, emps).len() == ids.filter(|id: i64| has_employee_id(emps, id)).len(),
        forall|k: int| 0 <= k < ids.len() && has_employee_id(emps, #[trigger] ids[k]) ==> {
            let i = ids.take(k).filter(|id: i64| has_employee_id(emps, id)).len() as int;
            &&& 0 <= i < employees_for_ids(ids, emps).len()
            &&& employees_for_ids(ids, emps)[i].id == ids[k]
            &&& emps.contains(employees_for_ids(ids, emps)[i])
        },
    decreases ids.len(),
{
    if ids.len() > 0 {
        let init = ids.drop_last();
        let n = ids.len() - 1;
        lemma_targets_complete(init, emps);
        lemma_employee_with_id_found(emps, ids[n]);
        assert(ids.last() == ids[n]);
        assert(ids.take(n) =~= init);
        assert(init.push(ids[n]) =~= ids);
        init.lemma_filter_len_push(|id: i64| has_employee_id(emps, id), ids[n]);
        let acc = employees_for_ids(init, emps);
        let r = employees_for_ids(ids, emps);
        assert forall|k: int| 0 <= k < ids.len() && has_employee_id(emps, #[trigger] ids[k]) implies {
            let i = ids.take(k).filter(|id: i64| has_employee_id(emps, id)).len() as int;
            &&& 0 <= i < r.len()
            &&& r[i].id == ids[k]
            &&& emps.contains(r[i])
        } by {
            if k < n {
                assert(ids.take(k) =~= init.take(k));
                assert(init[k] == ids[k]);
                let i = init.take(k).filter(|id: i64| has_employee_id(emps, id)).len() as int;
                assert(r[i] == acc[i]);
            }
        }
    }
}

/// The error reported when the decision names no employee at hand.
pub open spec fn no_target_error() -> Seq<char> {
    "调度未能匹配到合适的员工,请检查员工配置。"@
}

/// The employees a decided task goes to, in the order of the decision;
/// an error when none of them is at hand.
pub fn dispatch_targets(decision: &DispatchDecision, employees: &[Employee]) -> (r: Result<Vec<Employee>, String>)
    ensures
        match r {
            Ok(v) => v.deep_view() == employees_for_ids(decision.assigned@, employees.deep_view()) && v.len() > 0,
            Err(e) => employees_for_ids(decision.assigned@, employees.deep_view()).len() == 0
                && e@ == no_target_error(),
        },
{
    let ghost ev = employees.deep_view();
    let ghost ids = decision.assigned@;
    let mut out: Vec<Employee> = Vec::new();
    let mut i: usize = 0;
    while i < decision.assigned.len()
        invariant
            i <= decision.assigned.len(),
            ev == employees.deep_view(),
            ids == decision.assigned@,
            out.deep_view() == employees_for_ids(ids.take(i as int), ev),
        decreases decision.assigned.len() - i,
    {
        let id = decision.assigned[i];
        assert(ids.take(i + 1).drop_last() =~= ids.take(i as int));
        assert(ids.take(i + 1).last() == id);
        let mut j: usize = 0;
        while j < employees.len() && employees[j].id != id
            invariant
                j <= employees.len(),
                ev == employees.deep_view(),
                forall|k: int| 0 <= k < j ==> (#[trigger] ev[k]).id != id,
            decreases employees.len() - j,
        {
            j = j + 1;
        }
        proof {
            lemma_employee_with_id_at(ev, id, j as int);
        }
        if j < employees.len() {
            let ghost before = out.deep_view();
            out.push(employees[j].clone());
            assert(out.deep_view() =~= before.push(ev[j as int]));
        }
        i = i + 1;
    }
    assert(ids.take(decision.assigned.len() as int) =~= ids);
    if out.len() == 0 {
        Err(to_string("调度未能匹配到合适的员工,请检查员工配置。"))
    } else {
        Ok(out)
    }
}

/// The ids and names of the employees a task went to, as the dispatch
/// record keeps them.
pub fn dispatch_record(assigned: &[Employee]) -> (r: (Vec<i64>, Vec<String>))
    ensures
        r.0@ == assigned.deep_view().map_values(|e: EmployeeView| e.id),
        r.1.deep_view() == assigned.deep_view().map_values(|e: EmployeeView| e.name),
{
    let mut ids: Vec<i64> = Vec::new();
    let mut names: Vec<String> = Vec::new();
    let mut i: usize = 0;
    while i < assigned.len()
        invariant
            i <= assigned.len(),
            ids@ == assigned.deep_view().map_values(|e: EmployeeView| e.id).take(i as int),
            names.deep_view() == assigned.deep_view().map_values(|e: EmployeeView| e.name).take(i as int),
        decreases assigned.len() - i,
    {
        ids.push(assigned[i].id);
        let ghost before = names.deep_view();
        names.push(assigned[i].name.clone());
        assert(names.deep_view() =~= before.push(assigned[i as int].name@));
        i = i + 1;
        assert(ids@ =~= assigned.deep_view().map_values(|e: EmployeeView| e.id).take(i as int));
        assert(names.deep_view() =~= assigned.deep_view().map_values(|e: EmployeeView| e.name).take(i as int));
    }
    assert(assigned.deep_view().map_values(|e: EmployeeView| e.id).take(assigned.len() as int)
        =~= assigned.deep_view().map_values(|e: EmployeeView| e.id));
    assert(assigned.deep_view().map_values(|e: EmployeeView| e.name).take(assigned.len() as int)
        =~= assigned.deep_view().map_values(|e: EmployeeView| e.name));
    (ids, names)
}

proof fn lemma_employee_with_id_enabled(emps: Seq<EmployeeView>, id: i64)
    requires
        forall|k: int| 0 <= k < emps.len() ==> (#[trigger] emps[k]).enabled,
    ensures
        employee_with_id(emps, id) matches Some(e) ==> e.enabled && e.id == id,
    decreases emps.len(),
{
    if emps.len() > 0 && emps[0].id != id {
        let t = emps.drop_first();
        assert forall|k: int| 0 <= k < t.len() implies (#[trigger] t[k]).enabled by {
            assert(t[k] == emps[k + 1]);
        }
        lemma_employee_with_id_enabled(t, id);
    }
}

proof fn lemma_enabled_of_enabled(emps: Seq<EmployeeView>)
    ensures
        forall|k: int| 0 <= k < enabled_of(emps).len() ==> (#[trigger] enabled_of(emps)[k]).enabled,
    decreases emps.len(),
{
    if emps.len() > 0 {
        let init = emps.drop_last();
        lemma_enabled_of_enabled(init);
        let acc = enabled_of(init);
        assert forall|k: int| 0 <= k < enabled_of(emps).len() implies (#[trigger] enabled_of(emps)[k]).enabled by {
            if k < acc.len() {
                assert(enabled_of(emps)[k] == acc[k]);
            }
        }
    }
}

/// Only enabled employees work on a task: the employees a decision is
/// carried out by, out of the roster of the enabled ones, are enabled,
/// each is the one the decision names at its place, and there are no more
/// of them than the decision names.
pub proof fn lemma_targets_enabled(ids: Seq<i64>, emps: Seq<EmployeeView>)
    ensures
        employees_for_ids(ids, enabled_of(emps)).len() <= ids.len(),
        forall|i: int| 0 <= i < employees_for_ids(ids, enabled_of(emps)).len() ==>
            (#[trigger] employees_for_ids(ids, enabled_of(emps))[i]).enabled,
        forall|i: int| 0 <= i < employees_for_ids(ids, enabled_of(emps)).len() ==>
            ids.contains((#[trigger] employees_for_ids(ids, enabled_of(emps))[i]).id),
    decreases ids.len(),
{
    if ids.len() > 0 {
        let init = ids.drop_last();
        lemma_targets_enabled(init, emps);
        lemma_enabled_of_enabled(emps);
        lemma_employee_with_id_enabled(enabled_of(emps), ids.last());
        let acc = employees_for_ids(init, enabled_of(emps));
        let r = employees_for_ids(ids, enabled_of(emps));
        assert forall|i: int| 0 <= i < r.len() implies ids.contains((#[trigger] r[i]).id) by {
            if i < acc.len() {
                assert(r[i] == acc[i]);
                let w = choose|w: int| 0 <= w < init.len() && init[w] == acc[i].id;
                assert(ids[w] == init[w]);
            } else {
                assert(ids[ids.len() - 1] == r[i].id);
            }
        }
    }
}

/// What became of one employee's part of a task: the store could not be
/// opened, its history could not be read, its model call failed, or it
/// replied with a text.
#[derive(Debug)]
pub enum EmployeeOutcome {
    OpenFailed(String),
    HistoryFailed(String),
    ChatFailed(String),
    Replied(String),
}

/// The mathematical form of an [`EmployeeOutcome`].
pub enum EmployeeOutcomeView {
    OpenFailed(Seq<char>),
    HistoryFailed(Seq<char>),
    ChatFailed(Seq<char>),
    Replied(Seq<char>),
}

impl DeepView for EmployeeOutcome {
    type V = EmployeeOutcomeView;

    open spec fn deep_view(&self) -> EmployeeOutcomeView {
        match self {
            EmployeeOutcome::OpenFailed(e) => EmployeeOutcomeView::OpenFailed(e@),
            EmployeeOutcome::HistoryFailed(e) => EmployeeOutcomeView::HistoryFailed(e@),
            EmployeeOutcome::ChatFailed(e) => EmployeeOutcomeView::ChatFailed(e@),
            EmployeeOutcome::Replied(c) => EmployeeOutcomeView::Replied(c@),
        }
    }
}

/// How an employee's part of a task ends: with an error to report, or
/// with the reply to store and show.
#[derive(Debug)]
pub enum EmployeeReport {
    Failed(String),
    Reply(String),
}

/// The mathematical form of an [`EmployeeReport`].
pub enum EmployeeReportView {
    Failed(Seq<char>),
    Reply(Seq<char>),
}

impl DeepView for EmployeeReport {
    type V = EmployeeReportView;

    open spec fn deep_view(&self) -> EmployeeReportView {
        match self {
            EmployeeReport::Failed(e) => EmployeeReportView::Failed(e@),
            EmployeeReport::Reply(c) => EmployeeReportView::Reply(c@),
        }
    }
}

/// How an employee's part ends, for each outcome: the errors of the store
/// and of the history carry what they are about; a model error is
/// reported as it came; a reply is kept without the white space around it.
pub open spec fn employee_report_spec(outcome: EmployeeOutcomeView) -> EmployeeReportView {
    match outcome {
        EmployeeOutcomeView::OpenFailed(e) => EmployeeReportView::Failed("数据库错误: "@ + e),
        EmployeeOutcomeView::HistoryFailed(e) => EmployeeReportView::Failed("历史读取失败: "@ + e),
        EmployeeOutcomeView::ChatFailed(e) => EmployeeReportView::Failed(e),
        EmployeeOutcomeView::Replied(c) => EmployeeReportView::Reply(trim_spec(c)),
    }
}

/// A reply is kept whole but for the white space around it: what is
/// stored and shown is one unbroken piece of the reply, everything before
/// and after it is white space, and it neither starts nor ends with white
/// space; a reply with no white space at either end is kept as it came.
pub proof fn lemma_reply_kept_whole(c: Seq<char>)
    ensures
        employee_report_spec(EmployeeOutcomeView::Replied(c)) matches EmployeeReportView::Reply(r) && exists|a: int, b: int| {
            &&& 0 <= a <= b <= c.len()
            &&& r == c.subrange(a, b)
            &&& forall|k: int| 0 <= k < a ==> is_white_space(#[trigger] c[k])
            &&& forall|k: int| b <= k < c.len() ==> is_white_space(#[trigger] c[k])
            &&& a < b ==> !is_white_space(c[a]) && !is_white_space(c[b - 1])
        },
        (c.len() == 0 || (!is_white_space(c[0]) && !is_white_space(c.last())))
            ==> employee_report_spec(EmployeeOutcomeView::Replied(c)) == EmployeeReportView::Reply(c),
{
    lemma_trim_keeps_middle(c);
}

fn prefixed(prefix: &str, e: &str) -> (r: String)
    ensures
        r@ == prefix@ + e@,
{
    let mut r = to_string(prefix);
    push_str(&mut r, e);
    r
}

/// Decides how an employee's part of a task ends.
pub fn employee_report(outcome: EmployeeOutcome) -> (r: EmployeeReport)
    ensures
        r.deep_view() == employee_report_spec(outcome.deep_view()),
{
    match outcome {
        EmployeeOutcome::OpenFailed(e) => EmployeeReport::Failed(prefixed("数据库错误: ", e.as_str())),
        EmployeeOutcome::HistoryFailed(e) => EmployeeReport::Failed(prefixed("历史读取失败: ", e.as_str())),
        EmployeeOutcome::ChatFailed(e) => EmployeeReport::Failed(e),
        EmployeeOutcome::Replied(c) => EmployeeReport::Reply(trim(c.as_str())),
    }
}

/// Where a dispatch stands: opening the store, reading the employees,
/// waiting for the decision over the roster of enabled ones, waiting for
/// the employees to finish, or over.
#[derive(Debug)]
pub enum DispatchState {
    Opening,
    Listing,
    Deciding(Vec<Employee>),
    Running,
    Over,
}

/// The mathematical form of a [`DispatchState`].
pub enum DispatchStateView {
    Opening,
    Listing,
    Deciding(Seq<EmployeeView>),
    Running,
    Over,
}

impl DeepView for DispatchState {
    type V = DispatchStateView;

    open spec fn deep_view(&self) -> DispatchStateView {
        match self {
            DispatchState::Opening => DispatchStateView::Opening,
            DispatchState::Listing => DispatchStateView::Listing,
            DispatchState::Deciding(r) => DispatchStateView::Deciding(r.deep_view()),
            DispatchState::Running => DispatchStateView::Running,
            DispatchState::Over => DispatchStateView::Over,
        }
    }
}

/// What the caller of a dispatch reports: the store opened or not, the
/// employees read or not, the decision taken, all employees finished.
#[derive(Debug)]
pub enum DispatchEvent {
    OpenFailed(String),
    Opened,
    ListFailed(String),
    Listed(Vec<Employee>),
    Decided(DispatchDecision),
    EmployeesDone,
}

/// The mathematical form of a [`DispatchEvent`].
pub enum DispatchEventView {
    OpenFailed(Seq<char>),
    Opened,
    ListFailed(Seq<char>),
    Listed(Seq<EmployeeView>),
    Decided(DispatchDecisionView),
    EmployeesDone,
}

impl DeepView for DispatchEvent {
    type V = DispatchEventView;

    open spec fn deep_view(&self) -> DispatchEventView {
        match self {
            DispatchEvent::OpenFailed(e) => DispatchEventView::OpenFailed(e@),
            DispatchEvent::Opened => DispatchEventView::Opened,
            DispatchEvent::ListFailed(e) => DispatchEventView::ListFailed(e@),
            DispatchEvent::Listed(v) => DispatchEventView::Listed(v.deep_view()),
            DispatchEvent::Decided(d) => DispatchEventView::Decided(d.deep_view()),
            DispatchEvent::EmployeesDone => DispatchEventView::EmployeesDone,
        }
    }
}

/// What the caller of a dispatch does next: report the task failed with
/// an error and stop; read the employees; announce that the dispatcher
/// thinks and ask for a decision over the roster; record the dispatch,
/// announce it and set the assigned employees to work; report the task
/// done; or nothing, for an event that does not belong where the dispatch
/// stands.
#[derive(Debug)]
pub enum DispatchAction {
    Fail(String),
    List,
    Decide(Vec<Employee>),
    Run { assigned: Vec<Employee>, ids: Vec<i64>, names: Vec<String>, reason: String },
    Finish,
    Wait,
}

/// The mathematical form of a [`DispatchAction`].
pub enum DispatchActionView {
    Fail(Seq<char>),
    List,
    Decide(Seq<EmployeeView>),
    Run { assigned: Seq<EmployeeView>, ids: Seq<i64>, names: Seq<Seq<char>>, reason: Seq<char> },
    Finish,
    Wait,
}

impl DeepView for DispatchAction {
    type V = DispatchActionView;

    open spec fn deep_view(&self) -> DispatchActionView {
        match self {
            DispatchAction::Fail(e) => DispatchActionView::Fail(e@),
            DispatchAction::List => DispatchActionView::List,
            DispatchAction::Decide(r) => DispatchActionView::Decide(r.deep_view()),
            DispatchAction::Run { assigned, ids, names, reason } => DispatchActionView::Run {
                assigned: assigned.deep_view(),
                ids: ids@,
                names: names.deep_view(),
                reason: reason@,
            },
            DispatchAction::Finish => DispatchActionView::Finish,
            DispatchAction::Wait => DispatchActionView::Wait,
        }
    }
}

/// The next state of a dispatch and what its caller does, for each state
/// and event.  A failure ends the dispatch with a single error; the task
/// is reported done only once its employees have finished.
pub open spec fn dispatch_step_spec(state: DispatchStateView, event: DispatchEventView) -> (DispatchStateView, DispatchActionView) {
    match (state, event) {
        (DispatchStateView::Opening, DispatchEventView::OpenFailed(e)) =>
            (DispatchStateView::Over, DispatchActionView::Fail("数据库错误: "@ + e)),
        (DispatchStateView::Opening, DispatchEventView::Opened) =>
            (DispatchStateView::Listing, DispatchActionView::List),
        (DispatchStateView::Listing, DispatchEventView::ListFailed(e)) =>
            (DispatchStateView::Over, DispatchActionView::Fail("员工读取失败: "@ + e)),
        (DispatchStateView::Listing, DispatchEventView::Listed(all)) => {
            let roster = enabled_of(all);
            if roster.len() == 0 {
                (DispatchStateView::Over, DispatchActionView::Fail(no_enabled_employee_error()))
            } else {
                (DispatchStateView::Deciding(roster), DispatchActionView::Decide(roster))
            }
        },
        (DispatchStateView::Deciding(roster), DispatchEventView::Decided(d)) => {
            let assigned = employees_for_ids(d.assigned, roster);
            if assigned.len() == 0 {
                (DispatchStateView::Over, DispatchActionView::Fail(no_target_error()))
            } else {
                (DispatchStateView::Running, DispatchActionView::Run {
                    assigned,
                    ids: assigned.map_values(|e: EmployeeView| e.id),
                    names: assigned.map_values(|e: EmployeeView| e.name),
                    reason: d.reason,
                })
            }
        },
        (DispatchStateView::Running, DispatchEventView::EmployeesDone) =>
            (DispatchStateView::Over, DispatchActionView::Finish),
        (s, _) => (s, DispatchActionView::Wait),
    }
}

fn clone_employees(v: &Vec<Employee>) -> (r: Vec<Employee>)
    ensures
        r.deep_view() == v.deep_view(),
{
    let mut r: Vec<Employee> = Vec::new();
    let mut i: usize = 0;
    while i < v.len()
        invariant
            i <= v.len(),
            r.deep_view() == v.deep_view().take(i as int),
        decreases v.len() - i,
    {
        let ghost before = r.deep_view();
        let e = v[i].clone();
        assert(e.deep_view() == v.deep_view()[i as int]);
        r.push(e);
        assert(r.deep_view() =~= before.push(v.deep_view()[i as int]));
        i = i + 1;
        assert(r.deep_view() =~= v.deep_view().take(i as int));
    }
    assert(v.deep_view().take(v.len() as int) =~= v.deep_view());
    r
}

/// Takes a dispatch one step: from where it stands and what its caller
/// reports, to where it stands next and what the caller does.
pub fn dispatch_step(state: DispatchState, event: DispatchEvent) -> (r: (DispatchState, DispatchAction))
    ensures
        (r.0.deep_view(), r.1.deep_view()) == dispatch_step_spec(state.deep_view(), event.deep_view()),
{
    match (state, event) {
        (DispatchState::Opening, DispatchEvent::OpenFailed(e)) =>
            (DispatchState::Over, DispatchAction::Fail(prefixed("数据库错误: ", e.as_str()))),
        (DispatchState::Opening, DispatchEvent::Opened) => (DispatchState::Listing, DispatchAction::List),
        (DispatchState::Listing, DispatchEvent::ListFailed(e)) =>
            (DispatchState::Over, DispatchAction::Fail(prefixed("员工读取失败: ", e.as_str()))),
        (DispatchState::Listing, DispatchEvent::Listed(all)) => match dispatch_roster(all.as_slice()) {
            Ok(roster) => {
                let copy = clone_employees(&roster);
                (DispatchState::Deciding(roster), DispatchAction::Decide(copy))
            },
            Err(e) => (DispatchState::Over, DispatchAction::Fail(e)),
        },
        (DispatchState::Deciding(roster), DispatchEvent::Decided(d)) => match dispatch_targets(&d, roster.as_slice()) {
            Ok(assigned) => {
                let (ids, names) = dispatch_record(assigned.as_slice());
                (DispatchState::Running, DispatchAction::Run { assigned, ids, names, reason: d.reason })
            },
            Err(e) => (DispatchState::Over, DispatchAction::Fail(e)),
        },
        (DispatchState::Running, DispatchEvent::EmployeesDone) => (DispatchState::Over, DispatchAction::Finish),
        (state, _) => (state, DispatchAction::Wait),
    }
}

/// A dispatch ends once: a step reports the task failed or done exactly
/// when it takes a dispatch that was not over to its end, and a dispatch
/// that is over stays over and asks for nothing more.
pub proof fn lemma_dispatch_ends_once(state: DispatchStateView, event: DispatchEventView)
    ensures
        ({
            let (next, action) = dispatch_step_spec(state, event);
            &&& (action is Fail || action is Finish) <==> (!(state is Over) && next is Over)
            &&& state is Over ==> next is Over && action is Wait
        }),
{
}

} // verus!
