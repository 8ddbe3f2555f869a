//! The dispatcher: which AI employees a boss instruction goes to.
//!
//! With no enabled employee nothing is assigned; with one, that one is.
//! Otherwise a model is asked for a JSON decision, read leniently; when the
//! call fails or the reply cannot be read, every enabled employee is
//! assigned, so that no task is lost.

use vstd::prelude::*;
use crate::db::{Employee, EmployeeView, has_employee_id, first_named, employees_have_id, find_named, contains_i64};
use crate::json::{JsonItem, JsonItemView, decision_json_of, read_decision_json};
use crate::text::{chars_of, string_from_chars, to_string, push_str, push_i64, join, join_spec, int_decimal};
use crate::llm::{LlmMessage, message, message_view};

verus! {

broadcast use vstd::string::group_string_axioms;

/// The employees a task goes to, and why.
#[derive(Debug)]
pub struct DispatchDecision {
    pub assigned: Vec<i64>,
    pub reason: String,
}

/// The mathematical form of a [`DispatchDecision`].
pub struct DispatchDecisionView {
    pub assigned: Seq<i64>,
    pub reason: Seq<char>,
}

impl DeepView for DispatchDecision {
    type V = DispatchDecisionView;

    open spec fn deep_view(&self) -> DispatchDecisionView {
        DispatchDecisionView { assigned: self.assigned@, reason: self.reason@ }
    }
}

/// The text from the first `{` to the last `}`, both included, when the
/// last `}` comes after the first `{`.
pub open spec fn braced_span(text: Seq<char>) -> Option<Seq<char>> {
    match (text.index_of_first('{'), text.index_of_last('}')) {
        (Some(a), Some(b)) => if b <= a {
            None
        } else {
            Some(text.subrange(a, b + 1))
        },
        _ => None,
    }
}

/// The employee an entry of `assigned` stands for: an id that some
/// employee has, or the name of an employee (the first one so named).
pub open spec fn resolve_item(item: JsonItemView, emps: Seq<EmployeeView>) -> Option<i64> {
    match item {
        JsonItemView::Int(id) => if has_employee_id(emps, id) {
            Some(id)
        } else {
            None
        },
        JsonItemView::Text(name) => first_named(emps, name),
        JsonItemView::Other => None,
    }
}

/// The ids the entries of `assigned` stand for, in order of first mention,
/// each once.
pub open spec fn resolve_assigned(items: Seq<JsonItemView>, emps: Seq<EmployeeView>) -> Seq<i64>
    decreases items.len(),
{
    if items.len() == 0 {
        Seq::empty()
    } else {
        let acc = resolve_assigned(items.drop_last(), emps);
        match resolve_item(items.last(), emps) {
            Some(id) => if acc.contains(id) {
                acc
            } else {
                acc.push(id)
            },
            None => acc,
        }
    }
}

/// The decision read from a model's reply: the JSON between the outer
/// braces, its `reason` (empty when absent) and the employees its
/// `assigned` names; none when nothing can be read or no employee is named.
pub open spec fn decision_of_reply(text: Seq<char>, emps: Seq<EmployeeView>) -> Option<DispatchDecisionView> {
    match braced_span(text) {
        None => None,
        Some(span) => match decision_json_of(span) {
            None => None,
            Some(d) => {
                let assigned = match d.assigned {
                    Some(items) => resolve_assigned(items, emps),
                    None => Seq::empty(),
                };
                let reason = match d.reason {
                    Some(r) => r,
                    None => Seq::empty(),
                };
                if assigned.len() == 0 {
                    None
                } else {
                    Some(DispatchDecisionView { assigned, reason })
                }
            },
        },
    }
}

proof fn lemma_first_named_has_id(emps: Seq<EmployeeView>, name: Seq<char>)
    ensures
        first_named(emps, name) matches Some(id) ==> has_employee_id(emps, id),
    decreases emps.len(),
{
    if emps.len() > 0 && emps[0].name != name {
        let t = emps.drop_first();
        lemma_first_named_has_id(t, name);
        if first_named(t, name) is Some {
            let id = first_named(t, name)->0;
            let k = choose|k: int| 0 <= k < t.len() && t[k].id == id;
            assert(emps[k + 1] == t[k]);
        }
    } else if emps.len() > 0 {
        assert(emps[0].id == emps[0].id);
    }
}

/// Every id of a resolved `assigned` list belongs to an employee, and none
/// occurs twice.
pub proof fn lemma_resolve_assigned(items: Seq<JsonItemView>, emps: Seq<EmployeeView>)
    ensures
        resolve_assigned(items, emps).no_duplicates(),
        forall|i: int| 0 <= i < resolve_assigned(items, emps).len() ==>
            has_employee_id(emps, #[trigger] resolve_assigned(items, emps)[i]),
    decreases items.len(),
{
    if items.len() > 0 {
        lemma_resolve_assigned(items.drop_last(), emps);
        match items.last() {
            JsonItemView::Text(name) => lemma_first_named_has_id(emps, name),
            _ => {},
        }
    }
}

proof fn lemma_first_named_found(emps: Seq<EmployeeView>, name: Seq<char>)
    ensures
        first_named(emps, name) is None <==> forall|k: int| 0 <= k < emps.len() ==> (#[trigger] emps[k]).name != name,
        first_named(emps, name) is Some ==> exists|k: int| {
            &&& 0 <= k < emps.len()
            &&& emps[k].name == name
            &&& first_named(emps, name) == Some(emps[k].id)
            &&& forall|m: int| 0 <= m < k ==> (#[trigger] emps[m]).name != name
        },
    decreases emps.len(),
{
    if emps.len() > 0 {
        let t = emps.drop_first();
        lemma_first_named_found(t, name);
        assert forall|k: int| 0 <= k < t.len() implies #[trigger] t[k] == emps[k + 1] by {}
        if emps[0].name == name {
            assert(forall|m: int| 0 <= m < 0 ==> (#[trigger] emps[m]).name != name);
        } else if first_named(t, name) is Some {
            let k = choose|k: int| {
                &&& 0 <= k < t.len()
                &&& t[k].name == name
                &&& first_named(t, name) == Some(t[k].id)
                &&& forall|m: int| 0 <= m < k ==> (#[trigger] t[m]).name != name
            };
            assert forall|m: int| 0 <= m < k + 1 implies (#[trigger] emps[m]).name != name by {
                if m > 0 {
                    assert(emps[m] == t[m - 1]);
                }
            }
            assert(emps[k + 1] == t[k]);
        } else {
            assert forall|k: int| 0 <= k < emps.len() implies (#[trigger] emps[k]).name != name by {
                if k > 0 {
                    assert(emps[k] == t[k - 1]);
                }
            }
        }
    }
}

/// What an entry of `assigned` stands for: an integer, the employee with
/// that id when there is one, else nobody; a text, the first employee
/// bearing that name, else nobody; anything else, nobody.
pub proof fn lemma_resolve_item(item: JsonItemView, emps: Seq<EmployeeView>)
    ensures
        item is Other ==> resolve_item(item, emps) is None,
        item matches JsonItemView::Int(id) ==> {
            &&& (exists|k: int| 0 <= k < emps.len() && emps[k].id == id) ==> resolve_item(item, emps) == Some(id)
            &&& !(exists|k: int| 0 <= k < emps.len() && emps[k].id == id) ==> resolve_item(item, emps) is None
        },
        item matches JsonItemView::Text(name) ==> {
            ||| (forall|k: int| 0 <= k < emps.len() ==> (#[trigger] emps[k]).name != name) && resolve_item(item, emps) is None
            ||| exists|k: int| {
                &&& 0 <= k < emps.len()
                &&& emps[k].name == name
                &&& resolve_item(item, emps) == Some(emps[k].id)
                &&& forall|m: int| 0 <= m < k ==> (#[trigger] emps[m]).name != name
            }
        },
{
    if let JsonItemView::Text(name) = item {
        lemma_first_named_found(emps, name);
    }
}

/// Whether an entry before position `pos` of `items` names the employee
/// with the id `id`.
pub open spec fn named_before(items: Seq<JsonItemView>, emps: Seq<EmployeeView>, id: i64, pos: int) -> bool {
    exists|k: int| 0 <= k < pos && resolve_item(items[k], emps) == Some(id)
}

/// The resolved `assigned` list is exactly the employees its entries name,
/// in order of first mention: every entry that names an employee puts
/// that employee in the list, every id in the list is named by some
/// entry, and an employee comes before another only if it is named before
/// every mention of the other.
pub proof fn lemma_resolve_assigned_exact(items: Seq<JsonItemView>, emps: Seq<EmployeeView>)
    ensures
        forall|k: int| 0 <= k < items.len() && (#[trigger] resolve_item(items[k], emps)) is Some ==>
            resolve_assigned(items, emps).contains(resolve_item(items[k], emps)->0),
        forall|i: int| 0 <= i < resolve_assigned(items, emps).len() ==>
            named_before(items, emps, #[trigger] resolve_assigned(items, emps)[i], items.len() as int),
        forall|i: int, j: int, kj: int|
            #![trigger resolve_assigned(items, emps)[i], resolve_assigned(items, emps)[j], resolve_item(items[kj], emps)]
            0 <= i < j < resolve_assigned(items, emps).len() && 0 <= kj < items.len()
                && resolve_item(items[kj], emps) == Some(resolve_assigned(items, emps)[j]) ==>
            named_before(items, emps, resolve_assigned(items, emps)[i], kj),
    decreases items.len(),
{
    if items.len() > 0 {
        let init = items.drop_last();
        let n = items.len() - 1;
        lemma_resolve_assigned_exact(init, emps);
        lemma_resolve_assigned(init, emps);
        let acc = resolve_assigned(init, emps);
        let r = resolve_assigned(items, emps);
        assert forall|k: int| 0 <= k < init.len() implies init[k] == #[trigger] items[k] by {}
        let x = resolve_item(items[n], emps);
        assert(items.last() == items[n]);
        // completeness
        assert forall|k: int| 0 <= k < items.len() && (#[trigger] resolve_item(items[k], emps)) is Some implies
            r.contains(resolve_item(items[k], emps)->0) by {
            let id = resolve_item(items[k], emps)->0;
            if k < n {
                assert(resolve_item(init[k], emps) is Some);
                let w = choose|w: int| 0 <= w < acc.len() && acc[w] == id;
                if r != acc {
                    assert(r[w] == acc[w]);
                }
            } else {
                if !acc.contains(id) {
                    assert(r[acc.len() as int] == id);
                }
                else {
                    let w = choose|w: int| 0 <= w < acc.len() && acc[w] == id;
                    assert(r[w] == acc[w]);
                }
            }
        }
        // provenance
        assert forall|i: int| 0 <= i < r.len() implies
            named_before(items, emps, #[trigger] r[i], items.len() as int) by {
            if i < acc.len() {
                assert(r[i] == acc[i]);
                let k = choose|k: int| 0 <= k < init.len() && resolve_item(init[k], emps) == Some(acc[i]);
                assert(resolve_item(items[k], emps) == Some(r[i]));
            } else {
                assert(resolve_item(items[n], emps) == Some(r[i]));
            }
        }
        // order of first mention
        assert forall|i: int, j: int, kj: int|
            #![trigger r[i], r[j], resolve_item(items[kj], emps)]
            0 <= i < j < r.len() && 0 <= kj < items.len()
                && resolve_item(items[kj], emps) == Some(r[j]) implies
            named_before(items, emps, r[i], kj) by {
            assert(r[i] == acc[i]);
            let ki0 = choose|k: int| 0 <= k < init.len() && resolve_item(init[k], emps) == Some(acc[i]);
            assert(resolve_item(items[ki0], emps) == Some(r[i]));
            if j < acc.len() {
                assert(r[j] == acc[j]);
                if kj < n {
                    assert(resolve_item(init[kj], emps) == Some(acc[j]));
                    let ki = choose|ki: int| 0 <= ki < kj && resolve_item(init[ki], emps) == Some(acc[i]);
                    assert(resolve_item(items[ki], emps) == Some(r[i]));
                } else {
                    let kj2 = choose|k: int| 0 <= k < init.len() && resolve_item(init[k], emps) == Some(acc[j]);
                    let ki = choose|ki: int| 0 <= ki < kj2 && resolve_item(init[ki], emps) == Some(acc[i]);
                    assert(resolve_item(items[ki], emps) == Some(r[i]));
                }
            } else {
                // r[j] is new: no entry of init names it
                assert(r[j] == x->0);
                assert(!acc.contains(x->0));
                if kj < n {
                    assert(resolve_item(init[kj], emps) is Some);
                    assert(acc.contains(resolve_item(init[kj], emps)->0));
                    assert(false);
                }
            }
        }
    }
}

/// Reads a dispatch decision out of a model's reply, leniently: the JSON
/// object between the first `{` and the last `}`; ids that no employee has
/// and names that no employee bears are dropped, and each employee is
/// assigned once.  `None` when nothing usable is found.
pub fn parse_decision(text: &str, employees: &[Employee]) -> (r: Option<DispatchDecision>)
    ensures
        r.deep_view() == decision_of_reply(text@, employees.deep_view()),
        r matches Some(d) ==> {
            &&& d.assigned@.len() > 0
            &&& d.assigned@.no_duplicates()
            &&& forall|i: int| 0 <= i < d.assigned@.len() ==>
                has_employee_id(employees.deep_view(), #[trigger] d.assigned@[i])
        },
{
    let ghost emps = employees.deep_view();
    let cs = chars_of(text);
    let n = cs.len();
    let mut a: usize = 0;
    while a < n && cs[a] != '{'
        invariant
            a <= n == cs.len(),
            forall|k: int| 0 <= k < a ==> cs@[k] != '{',
        decreases n - a,
    {
        a = a + 1;
    }
    proof {
        text@.index_of_first_ensures('{');
    }
    if a == n {
        assert(!text@.contains('{'));
        return None;
    }
    let mut b: usize = n;
    while b > 0 && cs[b - 1] != '}'
        invariant
            b <= n == cs.len(),
            forall|k: int| b <= k < n ==> cs@[k] != '}',
        decreases b,
    {
        b = b - 1;
    }
    proof {
        text@.index_of_last_ensures('}');
    }
    if b == 0 {
        assert(!text@.contains('}'));
        return None;
    }
    assert(text@.index_of_first('{') == Some(a as int));
    assert(text@.index_of_last('}') == Some((b - 1) as int));
    if b - 1 <= a {
        return None;
    }
    let span = string_from_chars(&cs, a, b);
    let json = read_decision_json(span.as_str());
    let json = match json {
        Some(j) => j,
        None => return None,
    };
    let reason = match json.reason {
        Some(r) => r,
        None => String::new(),
    };
    let mut assigned: Vec<i64> = Vec::new();
    match json.assigned {
        Some(items) => {
            let ghost iv = items.deep_view();
            let mut i: usize = 0;
            while i < items.len()
                invariant
                    i <= items.len(),
                    iv == items.deep_view(),
                    assigned@ == resolve_assigned(iv.take(i as int), emps),
                    emps == employees.deep_view(),
                decreases items.len() - i,
            {
                let pick: Option<i64> = match &items[i] {
                    JsonItem::Int(id) => if employees_have_id(employees, *id) {
                        Some(*id)
                    } else {
                        None
                    },
                    JsonItem::Text(name) => find_named(employees, name),
                    JsonItem::Other => None,
                };
                assert(pick == resolve_item(iv[i as int], emps));
                match pick {
                    Some(id) => {
                        if !contains_i64(&assigned, id) {
                            assigned.push(id);
                        }
                    },
                    None => {},
                }
                proof {
                    assert(iv.take(i + 1).drop_last() =~= iv.take(i as int));
                }
                i = i + 1;
            }
            assert(iv.take(items.len() as int) =~= iv);
        },
        None => {},
    }
    if assigned.len() == 0 {
        return None;
    }
    proof {
        let d = decision_json_of(span@);
        if d.unwrap().assigned is Some {
            lemma_resolve_assigned(d.unwrap().assigned.unwrap(), emps);
        }
    }
    Some(DispatchDecision { assigned, reason })
}

/// The reason given when every enabled employee is assigned because no
/// decision could be had from the model.
pub open spec fn fallback_reason() -> Seq<char> {
    "自动调度未能解析,已派发给全部启用的员工"@
}

/// The ids of `emps`, in order.
pub open spec fn ids_of(emps: Seq<EmployeeView>) -> Seq<i64> {
    emps.map_values(|e: EmployeeView| e.id)
}

/// The decision that assigns every one of `employees`.
pub fn fallback_all(employees: &[Employee]) -> (d: DispatchDecision)
    ensures
        d.assigned@ == ids_of(employees.deep_view()),
        d.assigned.len() == employees.len(),
        forall|i: int| 0 <= i < employees.len() ==> d.assigned@[i] == (#[trigger] employees@[i]).id,
        d.reason@ == fallback_reason(),
{
    let mut assigned: Vec<i64> = Vec::new();
    let mut i: usize = 0;
    while i < employees.len()
        invariant
            i <= employees.len(),
            assigned@ == ids_of(employees.deep_view()).take(i as int),
        decreases employees.len() - i,
    {
        assigned.push(employees[i].id);
        i = i + 1;
        assert(assigned@ =~= ids_of(employees.deep_view()).take(i as int));
    }
    assert(ids_of(employees.deep_view()).take(employees.len() as int) =~= ids_of(employees.deep_view()));
    DispatchDecision { assigned, reason: to_string("自动调度未能解析,已派发给全部启用的员工") }
}

/// The line of the roster that describes one employee.
pub open spec fn roster_line(e: EmployeeView) -> Seq<char> {
    "- id="@ + int_decimal(e.id as int) + ", 姓名="@ + e.name + ", 岗位="@ + e.role + ", 擅长="@
        + join_spec(e.capabilities, "、"@)
}

/// The roster shown to the dispatching model: one line per employee.
pub open spec fn roster_of(emps: Seq<EmployeeView>) -> Seq<char> {
    join_spec(emps.map_values(|e: EmployeeView| roster_line(e)), "\n"@)
}

/// Writes the roster of `employees`: id, name, post and skills of each.
pub fn build_roster(employees: &[Employee]) -> (r: String)
    ensures
        r@ == roster_of(employees.deep_view()),
{
    let ghost lines_spec = employees.deep_view().map_values(|e: EmployeeView| roster_line(e));
    let mut lines: Vec<String> = Vec::new();
    let mut i: usize = 0;
    while i < employees.len()
        invariant
            i <= employees.len(),
            lines_spec == employees.deep_view().map_values(|e: EmployeeView| roster_line(e)),
            lines.deep_view() == lines_spec.take(i as int),
        decreases employees.len() - i,
    {
        let e = &employees[i];
        let mut line = to_string("- id=");
        push_i64(&mut line, e.id);
        push_str(&mut line, ", 姓名=");
        push_str(&mut line, e.name.as_str());
        push_str(&mut line, ", 岗位=");
        push_str(&mut line, e.role.as_str());
        push_str(&mut line, ", 擅长=");
        let skills = join(&e.capabilities, "、");
        push_str(&mut line, skills.as_str());
        assert(line@ =~= roster_line(employees.deep_view()[i as int]));
        let ghost before = lines.deep_view();
        let ghost lv = line@;
        lines.push(line);
        assert(lines.deep_view() =~= before.push(lv));
        assert(lines_spec[i as int] == lv);
        i = i + 1;
        assert(lines.deep_view() =~= lines_spec.take(i as int));
    }
    assert(lines_spec.take(employees.len() as int) =~= lines_spec);
    join(&lines, "\n")
}

/// The enabled employees of `emps`, in order.
pub open spec fn enabled_of(emps: Seq<EmployeeView>) -> Seq<EmployeeView>
    decreases emps.len(),
{
    if emps.len() == 0 {
        Seq::empty()
    } else {
        let acc = enabled_of(emps.drop_last());
        if emps.last().enabled {
            acc.push(emps.last())
        } else {
            acc
        }
    }
}

/// The enabled employees, in order.
pub fn enabled_employees(employees: &[Employee]) -> (r: Vec<Employee>)
    ensures
        r.deep_view() == enabled_of(employees.deep_view()),
{
    let ghost ev = employees.deep_view();
    let mut r: Vec<Employee> = Vec::new();
    let mut i: usize = 0;
    while i < employees.len()
        invariant
            i <= employees.len(),
            ev == employees.deep_view(),
            r.deep_view() == enabled_of(ev.take(i as int)),
        decreases employees.len() - i,
    {
        assert(ev.take(i + 1).drop_last() =~= ev.take(i as int));
        assert(ev.take(i + 1).last() == ev[i as int]);
        if employees[i].enabled {
            let ghost before = r.deep_view();
            r.push(employees[i].clone());
            assert(r.deep_view() =~= before.push(ev[i as int]));
        }
        i = i + 1;
    }
    assert(ev.take(employees.len() as int) =~= ev);
    r
}

/// The roster is exactly the enabled employees, in their order: it holds
/// only enabled employees, as many as there are, and each enabled employee
/// stands right after the enabled ones before it.
pub proof fn lemma_enabled_of_exact(emps: Seq<EmployeeView>)
    ensures
        enabled_of(emps).len() == emps.filter(|e: EmployeeView| e.enabled).len(),
        forall|i: int| 0 <= i < enabled_of(emps).len() ==> (#[trigger] enabled_of(emps)[i]).enabled,
        forall|k: int| 0 <= k < emps.len() && (#[trigger] emps[k]).enabled ==> {
            let i = emps.take(k).filter(|e: EmployeeView| e.enabled).len() as int;
            &&& 0 <= i < enabled_of(emps).len()
            &&& enabled_of(emps)[i] == emps[k]
        },
    decreases emps.len(),
{
    if emps.len() > 0 {
        let init = emps.drop_last();
        let n = emps.len() - 1;
        lemma_enabled_of_exact(init);
        assert(emps.last() == emps[n]);
        assert(emps.take(n) =~= init);
        assert(init.push(emps[n]) =~= emps);
        init.lemma_filter_len_push(|e: EmployeeView| e.enabled, emps[n]);
        let acc = enabled_of(init);
        let r = enabled_of(emps);
        assert forall|i: int| 0 <= i < r.len() implies (#[trigger] r[i]).enabled by {
            if i < acc.len() {
                assert(r[i] == acc[i]);
            }
        }
        assert forall|k: int| 0 <= k < emps.len() && (#[trigger] emps[k]).enabled implies {
            let i = emps.take(k).filter(|e: EmployeeView| e.enabled).len() as int;
            &&& 0 <= i < r.len()
            &&& r[i] == emps[k]
        } by {
            if k < n {
                assert(emps.take(k) =~= init.take(k));
                assert(init[k] == emps[k]);
                let i = init.take(k).filter(|e: EmployeeView| e.enabled).len() as int;
                assert(r[i] == acc[i]);
            }
        }
    }
}

proof fn lemma_enabled_of_none(emps: Seq<EmployeeView>)
    requires
        forall|k: int| 0 <= k < emps.len() ==> !(#[trigger] emps[k]).enabled,
    ensures
        enabled_of(emps).len() == 0,
    decreases emps.len(),
{
    if emps.len() > 0 {
        let init = emps.drop_last();
        assert forall|k: int| 0 <= k < init.len() implies !(#[trigger] init[k]).enabled by {
            assert(init[k] == emps[k]);
        }
        lemma_enabled_of_none(init);
        assert(!emps[emps.len() - 1].enabled);
    }
}

proof fn lemma_enabled_of_single(emps: Seq<EmployeeView>, k: int)
    requires
        0 <= k < emps.len(),
        emps[k].enabled,
        forall|j: int| 0 <= j < emps.len() && j != k ==> !(#[trigger] emps[j]).enabled,
    ensures
        enabled_of(emps) == seq![emps[k]],
    decreases emps.len(),
{
    let init = emps.drop_last();
    let n = emps.len() - 1;
    assert(emps.last() == emps[n]);
    if k == n {
        assert forall|j: int| 0 <= j < init.len() implies !(#[trigger] init[j]).enabled by {
            assert(init[j] == emps[j]);
        }
        lemma_enabled_of_none(init);
        assert(enabled_of(init).push(emps[k]) =~= seq![emps[k]]);
    } else {
        assert(!emps[n].enabled);
        assert forall|j: int| 0 <= j < init.len() && j != k implies !(#[trigger] init[j]).enabled by {
            assert(init[j] == emps[j]);
        }
        assert(init[k] == emps[k]);
        lemma_enabled_of_single(init, k);
    }
}

/// Without the model: with no employee enabled nobody is assigned; with
/// exactly one enabled, that one is; with two or more, the model is asked.
pub proof fn lemma_decision_without_model(emps: Seq<EmployeeView>)
    ensures
        (forall|k: int| 0 <= k < emps.len() ==> !(#[trigger] emps[k]).enabled) ==>
            (decision_without_model(emps) matches Some(d) && d.assigned.len() == 0),
        forall|k: int| 0 <= k < emps.len() && (#[trigger] emps[k]).enabled
            && (forall|j: int| 0 <= j < emps.len() && j != k ==> !emps[j].enabled) ==>
            (decision_without_model(emps) matches Some(d) && d.assigned == seq![emps[k].id]),
        forall|j: int, k: int| 0 <= j < k < emps.len() && (#[trigger] emps[j]).enabled && (#[trigger] emps[k]).enabled ==>
            decision_without_model(emps) is None,
{
    lemma_enabled_of_exact(emps);
    if forall|k: int| 0 <= k < emps.len() ==> !(#[trigger] emps[k]).enabled {
        lemma_enabled_of_none(emps);
    }
    assert forall|k: int| 0 <= k < emps.len() && (#[trigger] emps[k]).enabled
        && (forall|j: int| 0 <= j < emps.len() && j != k ==> !emps[j].enabled) implies
        (decision_without_model(emps) matches Some(d) && d.assigned == seq![emps[k].id]) by {
        lemma_enabled_of_single(emps, k);
        assert(seq![enabled_of(emps)[0].id] =~= seq![emps[k].id]);
    }
    assert forall|j: int, k: int| 0 <= j < k < emps.len() && (#[trigger] emps[j]).enabled && (#[trigger] emps[k]).enabled implies
        decision_without_model(emps) is None by {
        let ik = emps.take(k).filter(|e: EmployeeView| e.enabled).len() as int;
        assert(emps.take(j + 1) =~= emps.take(j).push(emps[j]));
        emps.take(j).lemma_filter_len_push(|e: EmployeeView| e.enabled, emps[j]);
        assert(emps.take(k).take(j + 1) =~= emps.take(j + 1));
        emps.take(k).lemma_filter_take_len(|e: EmployeeView| e.enabled, j + 1);
        assert(ik >= 1);
        assert(enabled_of(emps).len() > ik);
    }
}

/// The decision taken without a model: nothing assigned when no employee
/// is enabled, the only one when one is; none (the model is to be asked)
/// when several are.
pub open spec fn decision_without_model(emps: Seq<EmployeeView>) -> Option<DispatchDecisionView> {
    let enabled = enabled_of(emps);
    if enabled.len() == 0 {
        Some(DispatchDecisionView { assigned: Seq::empty(), reason: "没有启用的 AI 员工"@ })
    } else if enabled.len() == 1 {
        Some(DispatchDecisionView { assigned: seq![enabled[0].id], reason: "当前仅一名员工,直接派发"@ })
    } else {
        None
    }
}

/// How a dispatch decision is reached: at once, or by asking the model to
/// choose among the enabled employees.
#[derive(Debug)]
pub enum DecisionPlan {
    Decided(DispatchDecision),
    AskModel(Vec<Employee>),
}

/// The first step of a dispatch decision: decides at once when fewer than
/// two employees are enabled, else hands back the enabled ones for the
/// model to choose from.
pub fn plan_decision(employees: &[Employee]) -> (p: DecisionPlan)
    ensures
        match p {
            DecisionPlan::Decided(d) => decision_without_model(employees.deep_view()) == Some(d.deep_view()),
            DecisionPlan::AskModel(enabled) => {
                &&& decision_without_model(employees.deep_view()) is None
                &&& enabled.deep_view() == enabled_of(employees.deep_view())
            },
        },
{
    let enabled = enabled_employees(employees);
    if enabled.len() == 0 {
        let d = DispatchDecision { assigned: Vec::new(), reason: to_string("没有启用的 AI 员工") };
        assert(d.assigned@ =~= Seq::<i64>::empty());
        DecisionPlan::Decided(d)
    } else if enabled.len() == 1 {
        let mut assigned: Vec<i64> = Vec::new();
        assigned.push(enabled[0].id);
        assert(enabled.deep_view()[0].id == enabled[0].id);
        assert(assigned@ =~= seq![enabled.deep_view()[0].id]);
        DecisionPlan::Decided(DispatchDecision { assigned, reason: to_string("当前仅一名员工,直接派发") })
    } else {
        DecisionPlan::AskModel(enabled)
    }
}

/// The instructions given to the dispatching model.
pub open spec fn dispatch_system_prompt() -> Seq<char> {
    "你是 OPC Agent 的智能调度中枢。BOSS 会给出一条指令,你根据 AI 员工的岗位与擅长领域,把任务分派给最合适的 1~3 名员工。\
        \n你必须只输出一个 JSON 对象,不要输出任何其他文字,格式如下:\
        \n{\"assigned\": [员工id列表], \"reason\": \"为什么这样分派(一句话中文说明)\"}\
        \n如果指令过于简单(如问候、闲聊),只选 1 名最通用的员工;如果指令复杂,可多选。"@
}

/// The question put to the dispatching model: the roster, then the
/// boss's instruction.
pub open spec fn dispatch_question(emps: Seq<EmployeeView>, boss_message: Seq<char>) -> Seq<char> {
    "【AI 员工名册】\n"@ + roster_of(emps) + "\n\n【BOSS 指令】\n"@ + boss_message
}

/// The request for the dispatching model: its instructions and the one
/// user message asking it to choose among `enabled`.
pub fn dispatch_request(enabled: &[Employee], boss_message: &str) -> (req: (String, LlmMessage))
    ensures
        req.0@ == dispatch_system_prompt(),
        req.1.deep_view() == message_view("user"@, dispatch_question(enabled.deep_view(), boss_message@)),
{
    let system = to_string(
        "你是 OPC Agent 的智能调度中枢。BOSS 会给出一条指令,你根据 AI 员工的岗位与擅长领域,把任务分派给最合适的 1~3 名员工。\
        \n你必须只输出一个 JSON 对象,不要输出任何其他文字,格式如下:\
        \n{\"assigned\": [员工id列表], \"reason\": \"为什么这样分派(一句话中文说明)\"}\
        \n如果指令过于简单(如问候、闲聊),只选 1 名最通用的员工;如果指令复杂,可多选。",
    );
    let mut question = to_string("【AI 员工名册】\n");
    let roster = build_roster(enabled);
    push_str(&mut question, roster.as_str());
    push_str(&mut question, "\n\n【BOSS 指令】\n");
    push_str(&mut question, boss_message);
    assert(question@ =~= dispatch_question(enabled.deep_view(), boss_message@));
    (system, message("user", question))
}

/// The warning raised when the model's reply could not be read.
pub open spec fn unreadable_reply_warning() -> Seq<char> {
    "调度解析失败,已兜底派发全部员工"@
}

/// The warning raised when the model could not be asked.
pub open spec fn failed_call_warning(error: Seq<char>) -> Seq<char> {
    "调度模型调用失败: "@ + error + ",已兜底派发全部员工"@
}

/// The mathematical form of the model's reply or of the error of the call.
pub open spec fn reply_view(reply: Result<String, String>) -> Result<Seq<char>, Seq<char>> {
    match reply {
        Ok(t) => Ok(t@),
        Err(e) => Err(e@),
    }
}

/// The last step of a dispatch decision: the model's reply (or the error
/// of the call) turned into a decision among `enabled`, with the warning
/// to raise when every enabled employee had to be assigned instead.
pub fn settle_decision(reply: Result<String, String>, enabled: &[Employee]) -> (out: (DispatchDecision, Option<String>))
    ensures
        out.0.deep_view() == settled_decision(reply_view(reply), enabled.deep_view()),
        match reply {
            Ok(text) => match decision_of_reply(text@, enabled.deep_view()) {
                Some(d) => out.0.deep_view() == d && out.1 is None,
                None => {
                    &&& out.0.assigned@ == ids_of(enabled.deep_view())
                    &&& out.0.reason@ == fallback_reason()
                    &&& out.1.deep_view() == Some(unreadable_reply_warning())
                },
            },
            Err(e) => {
                &&& out.0.assigned@ == ids_of(enabled.deep_view())
                &&& out.0.reason@ == fallback_reason()
                &&& out.1.deep_view() == Some(failed_call_warning(e@))
            },
        },
{
    match reply {
        Ok(text) => match parse_decision(text.as_str(), enabled) {
            Some(d) => (d, None),
            None => (fallback_all(enabled), Some(to_string("调度解析失败,已兜底派发全部员工"))),
        },
        Err(e) => {
            let mut warning = to_string("调度模型调用失败: ");
            push_str(&mut warning, e.as_str());
            push_str(&mut warning, ",已兜底派发全部员工");
            assert(warning@ =~= failed_call_warning(e@));
            (fallback_all(enabled), Some(warning))
        },
    }
}

/// The decision that assigns every one of `enabled`.
pub open spec fn fallback_view(enabled: Seq<EmployeeView>) -> DispatchDecisionView {
    DispatchDecisionView { assigned: ids_of(enabled), reason: fallback_reason() }
}

/// The decision taken from the model's reply (or the error of the call)
/// among `enabled`.
pub open spec fn settled_decision(reply: Result<Seq<char>, Seq<char>>, enabled: Seq<EmployeeView>) -> DispatchDecisionView {
    match reply {
        Ok(text) => match decision_of_reply(text, enabled) {
            Some(d) => d,
            None => fallback_view(enabled),
        },
        Err(_) => fallback_view(enabled),
    }
}

/// The decision a dispatch reaches over `emps`, given what asking the
/// model gives when it is asked.
pub open spec fn dispatch_decision(emps: Seq<EmployeeView>, reply: Result<Seq<char>, Seq<char>>) -> DispatchDecisionView {
    match decision_without_model(emps) {
        Some(d) => d,
        None => settled_decision(reply, enabled_of(emps)),
    }
}

proof fn lemma_decision_of_reply(text: Seq<char>, emps: Seq<EmployeeView>)
    ensures
        decision_of_reply(text, emps) matches Some(d) ==> {
            &&& d.assigned.len() > 0
            &&& d.assigned.no_duplicates()
            &&& forall|i: int| 0 <= i < d.assigned.len() ==> has_employee_id(emps, #[trigger] d.assigned[i])
        },
{
    if let Some(span) = braced_span(text) {
        if let Some(j) = decision_json_of(span) {
            if let Some(items) = j.assigned {
                lemma_resolve_assigned(items, emps);
            }
        }
    }
}

/// Whether every id of `ids` is the id of an enabled employee of `emps`.
pub open spec fn all_enabled_ids(ids: Seq<i64>, emps: Seq<EmployeeView>) -> bool {
    forall|i: int| 0 <= i < ids.len() ==> has_employee_id(enabled_of(emps), #[trigger] ids[i])
}

/// A task is never lost and never goes astray: when some employee is
/// enabled, the dispatch assigns at least one, whatever the model replies
/// or however asking it fails; only enabled employees are ever assigned;
/// and with no employee enabled, none is.
pub proof fn lemma_dispatch_assigns_enabled(emps: Seq<EmployeeView>, reply: Result<Seq<char>, Seq<char>>)
    ensures
        enabled_of(emps).len() > 0 ==> dispatch_decision(emps, reply).assigned.len() > 0,
        enabled_of(emps).len() == 0 ==> dispatch_decision(emps, reply).assigned.len() == 0,
        all_enabled_ids(dispatch_decision(emps, reply).assigned, emps),
{
    let enabled = enabled_of(emps);
    let d = dispatch_decision(emps, reply);
    if enabled.len() == 1 {
        assert(d.assigned =~= seq![enabled[0].id]);
        assert(has_employee_id(enabled, enabled[0].id));
    } else if enabled.len() > 1 {
        if let Ok(text) = reply {
            lemma_decision_of_reply(text, enabled);
        }
        assert forall|i: int| 0 <= i < ids_of(enabled).len() implies has_employee_id(enabled, #[trigger] ids_of(enabled)[i]) by {
            assert(enabled[i].id == ids_of(enabled)[i]);
        }
    }
}

/// A readable reply assigns every employee it names and no other: when the
/// JSON between the outer braces has an `assigned` array, each entry that
/// names an employee puts that employee in the decision, each employee of
/// the decision is named by an entry, and the decision gives the reply's
/// reason; with no entry naming an employee there is no decision.
pub proof fn lemma_reply_assigns_every_named(text: Seq<char>, emps: Seq<EmployeeView>)
    ensures
        ({
            let j = decision_json_of(braced_span(text)->0);
            braced_span(text) is Some && j is Some && j->0.assigned is Some
        }) ==> {
            let j = decision_json_of(braced_span(text)->0)->0;
            let items = j.assigned->0;
            &&& (forall|k: int| 0 <= k < items.len() && (#[trigger] resolve_item(items[k], emps)) is Some ==>
                (decision_of_reply(text, emps) matches Some(d) && d.assigned.contains(resolve_item(items[k], emps)->0)))
            &&& (decision_of_reply(text, emps) matches Some(d) ==> {
                &&& forall|i: int| 0 <= i < d.assigned.len() ==>
                    named_before(items, emps, #[trigger] d.assigned[i], items.len() as int)
                &&& d.assigned.no_duplicates()
                &&& forall|i: int, jj: int, kj: int|
                    #![trigger d.assigned[i], d.assigned[jj], resolve_item(items[kj], emps)]
                    0 <= i < jj < d.assigned.len() && 0 <= kj < items.len()
                        && resolve_item(items[kj], emps) == Some(d.assigned[jj]) ==>
                    named_before(items, emps, d.assigned[i], kj)
                &&& d.reason == (match j.reason { Some(r) => r, None => Seq::<char>::empty() })
            })
            &&& (forall|k: int| 0 <= k < items.len() ==> (#[trigger] resolve_item(items[k], emps)) is None)
                ==> decision_of_reply(text, emps) is None
        },
{
    if let Some(span) = braced_span(text) {
        if let Some(j) = decision_json_of(span) {
            if let Some(items) = j.assigned {
                lemma_resolve_assigned_exact(items, emps);
                let r = resolve_assigned(items, emps);
                let reason = match j.reason { Some(x) => x, None => Seq::<char>::empty() };
                assert(r.len() > 0 ==> decision_of_reply(text, emps) == Some(DispatchDecisionView { assigned: r, reason }));
                assert forall|k: int| 0 <= k < items.len() && (#[trigger] resolve_item(items[k], emps)) is Some implies
                    (decision_of_reply(text, emps) matches Some(d) && d.assigned.contains(resolve_item(items[k], emps)->0)) by {
                    assert(r.contains(resolve_item(items[k], emps)->0));
                }
                if decision_of_reply(text, emps) is Some {
                    let d = decision_of_reply(text, emps)->0;
                    assert(d.assigned == r);
                    assert forall|i: int| 0 <= i < d.assigned.len() implies
                        named_before(items, emps, #[trigger] d.assigned[i], items.len() as int) by {
                        assert(d.assigned[i] == r[i]);
                    }
                    assert(d.reason == reason);
                    lemma_resolve_assigned(items, emps);
                    assert forall|i: int, jj: int, kj: int|
                        #![trigger d.assigned[i], d.assigned[jj], resolve_item(items[kj], emps)]
                        0 <= i < jj < d.assigned.len() && 0 <= kj < items.len()
                            && resolve_item(items[kj], emps) == Some(d.assigned[jj]) implies
                        named_before(items, emps, d.assigned[i], kj) by {
                        assert(r[i] == d.assigned[i] && r[jj] == d.assigned[jj]);
                    }
                }
                if forall|k: int| 0 <= k < items.len() ==> (#[trigger] resolve_item(items[k], emps)) is None {
                    if r.len() > 0 {
                        let k = choose|k: int| 0 <= k < items.len() && resolve_item(items[k], emps) == Some(r[0]);
                        assert(resolve_item(items[k], emps) is None);
                    }
                }
            }
        }
    }
}

/// When no decision can be had from the model (the call failed, or its
/// reply cannot be read), every enabled employee is assigned, each at its
/// place in the roster, with the reason that says so.
pub proof fn lemma_fallback_assigns_every_enabled(reply: Result<Seq<char>, Seq<char>>, enabled: Seq<EmployeeView>)
    ensures
        (reply is Err || decision_of_reply(reply->Ok_0, enabled) is None) ==> {
            let d = settled_decision(reply, enabled);
            &&& d.assigned.len() == enabled.len()
            &&& forall|i: int| 0 <= i < enabled.len() ==> d.assigned[i] == (#[trigger] enabled[i]).id
            &&& d.reason == fallback_reason()
        },
{
}

} // verus!
