//! The stored records (employees, conversations, messages, dispatch logs,
//! settings) and the shaping of what is written to and read from the store.

use vstd::prelude::*;
use crate::text::{chars_of, string_from_chars, same_text, to_string, push_str, push_i64, int_decimal};
use crate::llm::{LlmMessage, LlmMessageView, message, message_view};
use crate::json::{string_list_of, string_list_json, decode_string_list, encode_string_list, id_list_of, id_list_json, decode_id_list, encode_id_list};

verus! {

/// An AI employee.  `temperature_bits` is the IEEE-754 bit pattern of the
/// sampling temperature, which the library only carries.
#[derive(Debug)]
pub struct Employee {
    pub id: i64,
    pub name: String,
    pub role: String,
    pub emoji: String,
    pub color: String,
    pub system_prompt: String,
    pub base_url: String,
    pub api_key: String,
    pub model: String,
    pub temperature_bits: u64,
    pub capabilities: Vec<String>,
    pub enabled: bool,
}

/// The mathematical form of an [`Employee`].
pub struct EmployeeView {
    pub id: i64,
    pub name: Seq<char>,
    pub role: Seq<char>,
    pub emoji: Seq<char>,
    pub color: Seq<char>,
    pub system_prompt: Seq<char>,
    pub base_url: Seq<char>,
    pub api_key: Seq<char>,
    pub model: Seq<char>,
    pub temperature_bits: u64,
    pub capabilities: Seq<Seq<char>>,
    pub enabled: bool,
}

impl DeepView for Employee {
    type V = EmployeeView;

    open spec fn deep_view(&self) -> EmployeeView {
        EmployeeView {
            id: self.id,
            name: self.name@,
            role: self.role@,
            emoji: self.emoji@,
            color: self.color@,
            system_prompt: self.system_prompt@,
            base_url: self.base_url@,
            api_key: self.api_key@,
            model: self.model@,
            temperature_bits: self.temperature_bits,
            capabilities: self.capabilities.deep_view(),
            enabled: self.enabled,
        }
    }
}

impl Clone for Employee {
    fn clone(&self) -> (r: Self)
        ensures
            r.deep_view() == self.deep_view(),
    {
        let capabilities = self.capabilities.clone();
        assert(capabilities.deep_view() =~= self.capabilities.deep_view());
        Employee {
            id: self.id,
            name: self.name.clone(),
            role: self.role.clone(),
            emoji: self.emoji.clone(),
            color: self.color.clone(),
            system_prompt: self.system_prompt.clone(),
            base_url: self.base_url.clone(),
            api_key: self.api_key.clone(),
            model: self.model.clone(),
            temperature_bits: self.temperature_bits,
            capabilities,
            enabled: self.enabled,
        }
    }
}

/// Whether some employee of `emps` has the id `id`.
pub open spec fn has_employee_id(emps: Seq<EmployeeView>, id: i64) -> bool {
    exists|k: int| 0 <= k < emps.len() && emps[k].id == id
}

/// The id of the first employee of `emps` named `name`.
pub open spec fn first_named(emps: Seq<EmployeeView>, name: Seq<char>) -> Option<i64>
    decreases emps.len(),
{
    if emps.len() == 0 {
        None
    } else if emps[0].name == name {
        Some(emps[0].id)
    } else {
        first_named(emps.drop_first(), name)
    }
}

proof fn lemma_first_named_at(emps: Seq<EmployeeView>, name: Seq<char>, i: int)
    requires
        0 <= i <= emps.len(),
        forall|k: int| 0 <= k < i ==> (#[trigger] emps[k]).name != name,
    ensures
        i < emps.len() && emps[i].name == name ==> first_named(emps, name) == Some(emps[i].id),
        i == emps.len() ==> first_named(emps, name) is None,
    decreases i,
{
    if i > 0 {
        let t = emps.drop_first();
        assert forall|k: int| 0 <= k < i - 1 implies (#[trigger] t[k]).name != name by {
            assert(t[k] == emps[k + 1]);
        }
        lemma_first_named_at(t, name, i - 1);
    }
}

/// Whether some employee of `emps` has the id `id`.
pub fn employees_have_id(emps: &[Employee], id: i64) -> (b: bool)
    ensures
        b == has_employee_id(emps.deep_view(), id),
{
    let mut i: usize = 0;
    while i < emps.len()
        invariant
            i <= emps@.len(),
            forall|k: int| 0 <= k < i ==> (#[trigger] emps.deep_view()[k]).id != id,
        decreases emps.len() - i,
    {
        if emps[i].id == id {
            assert(emps.deep_view()[i as int].id == id);
            return true;
        }
        i = i + 1;
    }
    false
}

/// The id of the first employee named `name`, as `iter().find` gives it.
pub fn find_named(emps: &[Employee], name: &String) -> (r: Option<i64>)
    ensures
        r == first_named(emps.deep_view(), name@),
{
    let mut i: usize = 0;
    while i < emps.len()
        invariant
            i <= emps@.len(),
            forall|k: int| 0 <= k < i ==> (#[trigger] emps.deep_view()[k]).name != name@,
        decreases emps.len() - i,
    {
        if emps[i].name == *name {
            proof {
                lemma_first_named_at(emps.deep_view(), name@, i as int);
            }
            return Some(emps[i].id);
        }
        i = i + 1;
    }
    proof {
        lemma_first_named_at(emps.deep_view(), name@, i as int);
    }
    None
}

/// Whether `v` holds `x`.
pub fn contains_i64(v: &Vec<i64>, x: i64) -> (b: bool)
    ensures
        b == v@.contains(x),
{
    let mut i: usize = 0;
    while i < v.len()
        invariant
            i <= v@.len(),
            forall|k: int| 0 <= k < i ==> v@[k] != x,
        decreases v.len() - i,
    {
        if v[i] == x {
            return true;
        }
        i = i + 1;
    }
    false
}

/// An employee as one row of the store holds it: the capabilities as JSON
/// text, `enabled` as an integer.
#[derive(Debug)]
pub struct EmployeeRow {
    pub id: i64,
    pub name: String,
    pub role: String,
    pub emoji: String,
    pub color: String,
    pub system_prompt: String,
    pub base_url: String,
    pub api_key: String,
    pub model: String,
    pub temperature_bits: u64,
    pub capabilities: String,
    pub enabled: i64,
}

/// The mathematical form of an [`EmployeeRow`].
pub struct EmployeeRowView {
    pub id: i64,
    pub name: Seq<char>,
    pub role: Seq<char>,
    pub emoji: Seq<char>,
    pub color: Seq<char>,
    pub system_prompt: Seq<char>,
    pub base_url: Seq<char>,
    pub api_key: Seq<char>,
    pub model: Seq<char>,
    pub temperature_bits: u64,
    pub capabilities: Seq<char>,
    pub enabled: i64,
}

impl DeepView for EmployeeRow {
    type V = EmployeeRowView;

    open spec fn deep_view(&self) -> EmployeeRowView {
        EmployeeRowView {
            id: self.id,
            name: self.name@,
            role: self.role@,
            emoji: self.emoji@,
            color: self.color@,
            system_prompt: self.system_prompt@,
            base_url: self.base_url@,
            api_key: self.api_key@,
            model: self.model@,
            temperature_bits: self.temperature_bits,
            capabilities: self.capabilities@,
            enabled: self.enabled,
        }
    }
}

/// The employee a row stands for: capabilities that cannot be read as a
/// JSON list of strings count as none; any non-zero `enabled` is true.
pub open spec fn employee_of_row(r: EmployeeRowView) -> EmployeeView {
    EmployeeView {
        id: r.id,
        name: r.name,
        role: r.role,
        emoji: r.emoji,
        color: r.color,
        system_prompt: r.system_prompt,
        base_url: r.base_url,
        api_key: r.api_key,
        model: r.model,
        temperature_bits: r.temperature_bits,
        capabilities: match string_list_of(r.capabilities) {
            Some(list) => list,
            None => Seq::empty(),
        },
        enabled: r.enabled != 0,
    }
}

/// The row an employee is written as (its id aside, which the store
/// assigns on creation and takes as the key on update).
pub open spec fn row_of_employee(e: EmployeeView) -> EmployeeRowView {
    EmployeeRowView {
        id: e.id,
        name: e.name,
        role: e.role,
        emoji: e.emoji,
        color: e.color,
        system_prompt: e.system_prompt,
        base_url: e.base_url,
        api_key: e.api_key,
        model: e.model,
        temperature_bits: e.temperature_bits,
        capabilities: string_list_json(e.capabilities),
        enabled: if e.enabled {
            1
        } else {
            0
        },
    }
}

/// Reads an employee out of its row.
pub fn employee_from_row(row: EmployeeRow) -> (e: Employee)
    ensures
        e.deep_view() == employee_of_row(row.deep_view()),
{
    let capabilities = match decode_string_list(row.capabilities.as_str()) {
        Some(list) => list,
        None => Vec::new(),
    };
    let e = Employee {
        id: row.id,
        name: row.name,
        role: row.role,
        emoji: row.emoji,
        color: row.color,
        system_prompt: row.system_prompt,
        base_url: row.base_url,
        api_key: row.api_key,
        model: row.model,
        temperature_bits: row.temperature_bits,
        capabilities,
        enabled: row.enabled != 0,
    };
    assert(e.capabilities.deep_view() =~= employee_of_row(row.deep_view()).capabilities);
    e
}

/// Writes an employee as a row.  The row reads back as the employee
/// written, capabilities, flag and temperature included.
pub fn employee_to_row(e: &Employee) -> (row: EmployeeRow)
    ensures
        row.deep_view() == row_of_employee(e.deep_view()),
        employee_of_row(row.deep_view()) == e.deep_view(),
{
    EmployeeRow {
        id: e.id,
        name: e.name.clone(),
        role: e.role.clone(),
        emoji: e.emoji.clone(),
        color: e.color.clone(),
        system_prompt: e.system_prompt.clone(),
        base_url: e.base_url.clone(),
        api_key: e.api_key.clone(),
        model: e.model.clone(),
        temperature_bits: e.temperature_bits,
        capabilities: encode_string_list(&e.capabilities),
        enabled: if e.enabled {
            1
        } else {
            0
        },
    }
}

/// A conversation between the boss and the employees.
#[derive(Debug)]
pub struct Conversation {
    pub id: i64,
    pub title: String,
    pub created_at: String,
}

/// The mathematical form of a [`Conversation`].
pub struct ConversationView {
    pub id: i64,
    pub title: Seq<char>,
    pub created_at: Seq<char>,
}

impl DeepView for Conversation {
    type V = ConversationView;

    open spec fn deep_view(&self) -> ConversationView {
        ConversationView { id: self.id, title: self.title@, created_at: self.created_at@ }
    }
}

/// A stored conversation with the number of its messages.
#[derive(Debug)]
pub struct ConversationRow {
    pub conversation: Conversation,
    pub message_count: i64,
}

/// The number of bytes of the UTF-8 encoding of `c`.
pub open spec fn utf8_width(c: char) -> nat {
    if (c as u32) < 0x80 {
        1
    } else if (c as u32) < 0x800 {
        2
    } else if (c as u32) < 0x10000 {
        3
    } else {
        4
    }
}

/// The number of bytes of the UTF-8 encoding of `s`, which `str::len` gives.
pub open spec fn utf8_len(s: Seq<char>) -> nat
    decreases s.len(),
{
    if s.len() == 0 {
        0
    } else {
        utf8_len(s.drop_last()) + utf8_width(s.last())
    }
}

proof fn lemma_utf8_len_monotone(s: Seq<char>, i: int)
    requires
        0 <= i <= s.len(),
    ensures
        utf8_len(s.take(i)) <= utf8_len(s),
    decreases s.len() - i,
{
    if i < s.len() {
        lemma_utf8_len_monotone(s, i + 1);
        assert(s.take(i + 1).drop_last() =~= s.take(i));
    } else {
        assert(s.take(i) =~= s);
    }
}

/// Whether the UTF-8 encoding of `s` is longer than `limit` bytes.
pub fn utf8_longer_than(s: &str, limit: usize) -> (b: bool)
    ensures
        b == (utf8_len(s@) > limit),
{
    let cs = chars_of(s);
    let mut total: usize = 0;
    let mut i: usize = 0;
    while i < cs.len()
        invariant
            i <= cs.len(),
            cs@ == s@,
            total == utf8_len(cs@.take(i as int)),
            total <= limit,
        decreases cs.len() - i,
    {
        let c = cs[i];
        let w: usize = if (c as u32) < 0x80 {
            1
        } else if (c as u32) < 0x800 {
            2
        } else if (c as u32) < 0x10000 {
            3
        } else {
            4
        };
        assert(cs@.take(i + 1).drop_last() =~= cs@.take(i as int));
        if w > limit - total {
            proof {
                lemma_utf8_len_monotone(cs@, i + 1);
            }
            return true;
        }
        total = total + w;
        i = i + 1;
    }
    assert(cs@.take(cs.len() as int) =~= cs@);
    false
}

/// The title shown for a conversation: its first 30 characters.
pub open spec fn shown_title(title: Seq<char>) -> Seq<char> {
    if title.len() > 30 {
        title.take(30)
    } else {
        title
    }
}

proof fn lemma_utf8_len_at_least_len(s: Seq<char>)
    ensures
        utf8_len(s) >= s.len(),
    decreases s.len(),
{
    if s.len() > 0 {
        lemma_utf8_len_at_least_len(s.drop_last());
    }
}

/// The conversations listed: those that hold at least one message, in
/// the order given, with their titles shortened for display.
pub open spec fn listed_conversations(rows: Seq<(ConversationView, i64)>) -> Seq<ConversationView>
    decreases rows.len(),
{
    if rows.len() == 0 {
        Seq::empty()
    } else {
        let acc = listed_conversations(rows.drop_last());
        let (c, count) = rows.last();
        if count == 0 {
            acc
        } else {
            acc.push(ConversationView { title: shown_title(c.title), ..c })
        }
    }
}

/// Listed conversations have titles of at most 30 characters, and each
/// stands for a stored conversation with at least one message.
pub proof fn lemma_listed_conversations(rows: Seq<(ConversationView, i64)>)
    ensures
        listed_conversations(rows).len() <= rows.len(),
        forall|i: int| 0 <= i < listed_conversations(rows).len() ==>
            (#[trigger] listed_conversations(rows)[i]).title.len() <= 30,
        forall|i: int| 0 <= i < listed_conversations(rows).len() ==>
            exists|k: int| 0 <= k < rows.len() && rows[k].1 != 0
                && rows[k].0.id == (#[trigger] listed_conversations(rows)[i]).id,
    decreases rows.len(),
{
    if rows.len() > 0 {
        let init = rows.drop_last();
        lemma_listed_conversations(init);
        let acc = listed_conversations(init);
        assert forall|i: int| 0 <= i < listed_conversations(rows).len() implies
            exists|k: int| 0 <= k < rows.len() && rows[k].1 != 0
                && rows[k].0.id == (#[trigger] listed_conversations(rows)[i]).id by {
            if i < acc.len() {
                assert(listed_conversations(rows)[i] == acc[i]);
                let k = choose|k: int| 0 <= k < init.len() && init[k].1 != 0 && init[k].0.id == acc[i].id;
                assert(rows[k] == init[k]);
            } else {
                assert(rows[rows.len() - 1].0.id == listed_conversations(rows)[i].id);
            }
        }
    }
}

/// No conversation with messages is left out of the list, and the list
/// keeps the order of the stored ones: each stored conversation with at
/// least one message is listed (its title cut to 30 characters) right
/// after those with messages stored before it, and the list holds as many
/// conversations as the store holds conversations with messages.
pub proof fn lemma_listed_conversations_complete(rows: Seq<(ConversationView, i64)>)
    ensures
        listed_conversations(rows).len() == rows.filter(|r: (ConversationView, i64)| r.1 != 0).len(),
        forall|k: int| 0 <= k < rows.len() && (#[trigger] rows[k]).1 != 0 ==> {
            let i = rows.take(k).filter(|r: (ConversationView, i64)| r.1 != 0).len() as int;
            &&& 0 <= i < listed_conversations(rows).len()
            &&& listed_conversations(rows)[i] == (ConversationView { title: shown_title(rows[k].0.title), ..rows[k].0 })
        },
    decreases rows.len(),
{
    if rows.len() > 0 {
        let init = rows.drop_last();
        let n = rows.len() - 1;
        lemma_listed_conversations_complete(init);
        assert(rows.last() == rows[n]);
        assert(rows.take(n) =~= init);
        let acc = listed_conversations(init);
        let r = listed_conversations(rows);
        assert(init.push(rows[n]) =~= rows);
        init.lemma_filter_len_push(|r: (ConversationView, i64)| r.1 != 0, rows[n]);
        assert forall|k: int| 0 <= k < rows.len() && (#[trigger] rows[k]).1 != 0 implies {
            let i = rows.take(k).filter(|r: (ConversationView, i64)| r.1 != 0).len() as int;
            &&& 0 <= i < r.len()
            &&& r[i] == (ConversationView { title: shown_title(rows[k].0.title), ..rows[k].0 })
        } by {
            if k < n {
                assert(rows.take(k) =~= init.take(k));
                assert(init[k] == rows[k]);
                let i = init.take(k).filter(|r: (ConversationView, i64)| r.1 != 0).len() as int;
                assert(r[i] == acc[i]);
            }
        }
    }
}

/// The mathematical form of a list of [`ConversationRow`]s.
pub open spec fn conversation_rows_view(rows: Seq<ConversationRow>) -> Seq<(ConversationView, i64)> {
    rows.map_values(|r: ConversationRow| (r.conversation.deep_view(), r.message_count))
}

/// Picks the conversations to list out of the stored ones: empty
/// conversations are left out, long titles cut to 30 characters.
pub fn list_conversations(rows: &Vec<ConversationRow>) -> (out: Vec<Conversation>)
    ensures
        out.deep_view() == listed_conversations(conversation_rows_view(rows@)),
        forall|i: int| 0 <= i < out.len() ==> (#[trigger] out.deep_view()[i]).title.len() <= 30,
{
    proof {
        lemma_listed_conversations(conversation_rows_view(rows@));
    }
    let ghost rv = conversation_rows_view(rows@);
    let mut out: Vec<Conversation> = Vec::new();
    let mut i: usize = 0;
    while i < rows.len()
        invariant
            i <= rows.len(),
            rv == conversation_rows_view(rows@),
            out.deep_view() == listed_conversations(rv.take(i as int)),
        decreases rows.len() - i,
    {
        let row = &rows[i];
        assert(rv.take(i + 1).drop_last() =~= rv.take(i as int));
        assert(rv.take(i + 1).last() == rv[i as int]);
        if row.message_count != 0 {
            let c = &row.conversation;
            proof {
                lemma_utf8_len_at_least_len(c.title@);
            }
            let title = if utf8_longer_than(c.title.as_str(), 30) {
                let cs = chars_of(c.title.as_str());
                let keep = if cs.len() > 30 {
                    30
                } else {
                    cs.len()
                };
                let t = string_from_chars(&cs, 0, keep);
                assert(t@ =~= shown_title(c.title@));
                t
            } else {
                c.title.clone()
            };
            let ghost before = out.deep_view();
            out.push(Conversation { id: c.id, title, created_at: c.created_at.clone() });
            assert(out.deep_view() =~= before.push(ConversationView { title: shown_title(c.title@), ..c.deep_view() }));
        }
        i = i + 1;
    }
    assert(rv.take(rows.len() as int) =~= rv);
    out
}

/// A message of a conversation.  `role` is `boss`, `employee` or
/// `orchestrator`; the employee fields describe the author of an
/// employee's message, as far as the employee still exists.
#[derive(Debug)]
pub struct ChatMessage {
    pub id: i64,
    pub conversation_id: i64,
    pub role: String,
    pub employee_id: Option<i64>,
    pub employee_name: Option<String>,
    pub employee_emoji: Option<String>,
    pub employee_color: Option<String>,
    pub content: String,
    pub created_at: String,
}

/// The mathematical form of a [`ChatMessage`].
pub struct ChatMessageView {
    pub id: i64,
    pub conversation_id: i64,
    pub role: Seq<char>,
    pub employee_id: Option<i64>,
    pub employee_name: Option<Seq<char>>,
    pub employee_emoji: Option<Seq<char>>,
    pub employee_color: Option<Seq<char>>,
    pub content: Seq<char>,
    pub created_at: Seq<char>,
}

impl DeepView for ChatMessage {
    type V = ChatMessageView;

    open spec fn deep_view(&self) -> ChatMessageView {
        ChatMessageView {
            id: self.id,
            conversation_id: self.conversation_id,
            role: self.role@,
            employee_id: self.employee_id,
            employee_name: self.employee_name.deep_view(),
            employee_emoji: self.employee_emoji.deep_view(),
            employee_color: self.employee_color.deep_view(),
            content: self.content@,
            created_at: self.created_at@,
        }
    }
}

/// The number of most recent messages an employee is shown.
pub const HISTORY_LIMIT: usize = 20;

/// The most recent messages, at most [`HISTORY_LIMIT`] of them, in order.
pub open spec fn recent_messages(msgs: Seq<ChatMessageView>) -> Seq<ChatMessageView> {
    if msgs.len() > HISTORY_LIMIT {
        msgs.skip(msgs.len() - HISTORY_LIMIT)
    } else {
        msgs
    }
}

/// The name an employee's message is signed with.
pub open spec fn signature_name(name: Option<Seq<char>>) -> Seq<char> {
    match name {
        Some(n) => n,
        None => "员工"@,
    }
}

/// What an employee sees of one message: the boss's messages as the
/// user's, its own as the assistant's, signed `【name】`; nothing of the
/// other employees' or the dispatcher's.
pub open spec fn history_entry(m: ChatMessageView, employee_id: i64) -> Option<LlmMessageView> {
    if m.role == "boss"@ {
        Some(message_view("user"@, m.content))
    } else if m.role == "employee"@ && m.employee_id == Some(employee_id) {
        Some(message_view("assistant"@, "【"@ + signature_name(m.employee_name) + "】"@ + m.content))
    } else {
        None
    }
}

/// What an employee sees of a list of messages, in order.
pub open spec fn history_of(msgs: Seq<ChatMessageView>, employee_id: i64) -> Seq<LlmMessageView>
    decreases msgs.len(),
{
    if msgs.len() == 0 {
        Seq::empty()
    } else {
        let acc = history_of(msgs.drop_last(), employee_id);
        match history_entry(msgs.last(), employee_id) {
            Some(x) => acc.push(x),
            None => acc,
        }
    }
}

proof fn lemma_history_of_shape(msgs: Seq<ChatMessageView>, employee_id: i64)
    ensures
        history_of(msgs, employee_id).len() <= msgs.len(),
        forall|i: int| 0 <= i < history_of(msgs, employee_id).len() ==>
            (#[trigger] history_of(msgs, employee_id)[i]).role == "user"@
            || history_of(msgs, employee_id)[i].role == "assistant"@,
    decreases msgs.len(),
{
    if msgs.len() > 0 {
        lemma_history_of_shape(msgs.drop_last(), employee_id);
    }
}

/// An employee is shown the last messages of a conversation, at most
/// [`HISTORY_LIMIT`] of them, and of those every boss message and every
/// message of its own, in order, and nothing else: a boss message as the
/// user's, its own signed with its name as the assistant's.
pub proof fn lemma_history_exact(msgs: Seq<ChatMessageView>, employee_id: i64)
    ensures
        recent_messages(msgs).len() == if msgs.len() > HISTORY_LIMIT { HISTORY_LIMIT as int } else { msgs.len() as int },
        forall|i: int| 0 <= i < recent_messages(msgs).len() ==>
            #[trigger] recent_messages(msgs)[i] == msgs[msgs.len() - recent_messages(msgs).len() + i],
        history_of(msgs, employee_id).len() == msgs.filter(|m: ChatMessageView|
            m.role == "boss"@ || (m.role == "employee"@ && m.employee_id == Some(employee_id))).len(),
        forall|k: int| 0 <= k < msgs.len() && (#[trigger] msgs[k]).role == "boss"@ ==> {
            let i = msgs.take(k).filter(|m: ChatMessageView|
                m.role == "boss"@ || (m.role == "employee"@ && m.employee_id == Some(employee_id))).len() as int;
            &&& 0 <= i < history_of(msgs, employee_id).len()
            &&& history_of(msgs, employee_id)[i] == message_view("user"@, msgs[k].content)
        },
        forall|k: int| 0 <= k < msgs.len() && (#[trigger] msgs[k]).role == "employee"@ && msgs[k].employee_id == Some(employee_id) ==> {
            let i = msgs.take(k).filter(|m: ChatMessageView|
                m.role == "boss"@ || (m.role == "employee"@ && m.employee_id == Some(employee_id))).len() as int;
            &&& 0 <= i < history_of(msgs, employee_id).len()
            &&& history_of(msgs, employee_id)[i] == message_view(
                "assistant"@,
                "【"@ + signature_name(msgs[k].employee_name) + "】"@ + msgs[k].content,
            )
        },
    decreases msgs.len(),
{
    reveal_strlit("boss");
    reveal_strlit("employee");
    assert("boss"@ != "employee"@) by {
        assert("boss"@.len() != "employee"@.len());
    }
    if msgs.len() > 0 {
        let init = msgs.drop_last();
        let n = msgs.len() - 1;
        lemma_history_exact(init, employee_id);
        assert(msgs.last() == msgs[n]);
        assert(msgs.take(n) =~= init);
        assert(init.push(msgs[n]) =~= msgs);
        init.lemma_filter_len_push(|m: ChatMessageView|
            m.role == "boss"@ || (m.role == "employee"@ && m.employee_id == Some(employee_id)), msgs[n]);
        let acc = history_of(init, employee_id);
        let r = history_of(msgs, employee_id);
        assert forall|k: int| 0 <= k < msgs.len() && (#[trigger] msgs[k]).role == "boss"@ implies {
            let i = msgs.take(k).filter(|m: ChatMessageView|
                m.role == "boss"@ || (m.role == "employee"@ && m.employee_id == Some(employee_id))).len() as int;
            &&& 0 <= i < r.len()
            &&& r[i] == message_view("user"@, msgs[k].content)
        } by {
            if k < n {
                assert(msgs.take(k) =~= init.take(k));
                assert(init[k] == msgs[k]);
                let i = init.take(k).filter(|m: ChatMessageView|
                    m.role == "boss"@ || (m.role == "employee"@ && m.employee_id == Some(employee_id))).len() as int;
                assert(r[i] == acc[i]);
            }
        }
        assert forall|k: int| 0 <= k < msgs.len() && (#[trigger] msgs[k]).role == "employee"@ && msgs[k].employee_id == Some(employee_id) implies {
            let i = msgs.take(k).filter(|m: ChatMessageView|
                m.role == "boss"@ || (m.role == "employee"@ && m.employee_id == Some(employee_id))).len() as int;
            &&& 0 <= i < r.len()
            &&& r[i] == message_view("assistant"@, "【"@ + signature_name(msgs[k].employee_name) + "】"@ + msgs[k].content)
        } by {
            if k < n {
                assert(msgs.take(k) =~= init.take(k));
                assert(init[k] == msgs[k]);
                let i = init.take(k).filter(|m: ChatMessageView|
                    m.role == "boss"@ || (m.role == "employee"@ && m.employee_id == Some(employee_id))).len() as int;
                assert(r[i] == acc[i]);
            }
        }
    }
}

/// The context an employee's model is given from a conversation: of its
/// last [`HISTORY_LIMIT`] messages, the boss's and the employee's own.
pub fn build_history(messages: &Vec<ChatMessage>, employee_id: i64) -> (h: Vec<LlmMessage>)
    ensures
        h.deep_view() == history_of(recent_messages(messages.deep_view()), employee_id),
        h.len() <= HISTORY_LIMIT,
        forall|i: int| 0 <= i < h.len() ==>
            (#[trigger] h.deep_view()[i]).role == "user"@ || h.deep_view()[i].role == "assistant"@,
{
    let ghost mv = messages.deep_view();
    let start: usize = if messages.len() > HISTORY_LIMIT {
        messages.len() - HISTORY_LIMIT
    } else {
        0
    };
    let ghost recent = recent_messages(mv);
    assert(recent =~= mv.skip(start as int));
    let mut h: Vec<LlmMessage> = Vec::new();
    let mut i: usize = start;
    while i < messages.len()
        invariant
            start <= i <= messages.len(),
            mv == messages.deep_view(),
            recent == mv.skip(start as int),
            h.deep_view() == history_of(recent.take(i - start), employee_id),
        decreases messages.len() - i,
    {
        let m = &messages[i];
        let ghost before = h.deep_view();
        assert(recent.take(i - start + 1).drop_last() =~= recent.take(i - start));
        assert(recent.take(i - start + 1).last() == mv[i as int]);
        if same_text(m.role.as_str(), "boss") {
            h.push(message("user", m.content.clone()));
        } else if same_text(m.role.as_str(), "employee") && m.employee_id == Some(employee_id) {
            let mut content = to_string("【");
            match &m.employee_name {
                Some(name) => push_str(&mut content, name.as_str()),
                None => push_str(&mut content, "员工"),
            }
            push_str(&mut content, "】");
            push_str(&mut content, m.content.as_str());
            assert(content@ =~= "【"@ + signature_name(mv[i as int].employee_name) + "】"@ + m.content@);
            h.push(message("assistant", content));
        }
        assert(h.deep_view() =~= history_of(recent.take(i - start + 1), employee_id));
        i = i + 1;
    }
    assert(recent.take(messages.len() - start) =~= recent);
    proof {
        lemma_history_of_shape(recent, employee_id);
    }
    h
}

/// A record of one dispatch: the instruction, the employees it went to
/// and why.  `assigned_names` is filled only where the names are at hand.
#[derive(Debug)]
pub struct DispatchLog {
    pub id: i64,
    pub conversation_id: i64,
    pub boss_message: String,
    pub assigned_ids: Vec<i64>,
    pub assigned_names: Vec<String>,
    pub reason: String,
    pub created_at: String,
}

/// The mathematical form of a [`DispatchLog`].
pub struct DispatchLogView {
    pub id: i64,
    pub conversation_id: i64,
    pub boss_message: Seq<char>,
    pub assigned_ids: Seq<i64>,
    pub assigned_names: Seq<Seq<char>>,
    pub reason: Seq<char>,
    pub created_at: Seq<char>,
}

impl DeepView for DispatchLog {
    type V = DispatchLogView;

    open spec fn deep_view(&self) -> DispatchLogView {
        DispatchLogView {
            id: self.id,
            conversation_id: self.conversation_id,
            boss_message: self.boss_message@,
            assigned_ids: self.assigned_ids@,
            assigned_names: self.assigned_names.deep_view(),
            reason: self.reason@,
            created_at: self.created_at@,
        }
    }
}

/// A dispatch record as one row of the store holds it: the ids as JSON
/// text.
#[derive(Debug)]
pub struct DispatchLogRow {
    pub id: i64,
    pub conversation_id: i64,
    pub boss_message: String,
    pub assigned_ids: String,
    pub reason: String,
    pub created_at: String,
}

/// The mathematical form of a [`DispatchLogRow`].
pub struct DispatchLogRowView {
    pub id: i64,
    pub conversation_id: i64,
    pub boss_message: Seq<char>,
    pub assigned_ids: Seq<char>,
    pub reason: Seq<char>,
    pub created_at: Seq<char>,
}

impl DeepView for DispatchLogRow {
    type V = DispatchLogRowView;

    open spec fn deep_view(&self) -> DispatchLogRowView {
        DispatchLogRowView {
            id: self.id,
            conversation_id: self.conversation_id,
            boss_message: self.boss_message@,
            assigned_ids: self.assigned_ids@,
            reason: self.reason@,
            created_at: self.created_at@,
        }
    }
}

/// The record a row stands for: ids that cannot be read as a JSON list of
/// integers count as none; the names are not stored with the record.
pub open spec fn dispatch_log_of_row(r: DispatchLogRowView) -> DispatchLogView {
    DispatchLogView {
        id: r.id,
        conversation_id: r.conversation_id,
        boss_message: r.boss_message,
        assigned_ids: match id_list_of(r.assigned_ids) {
            Some(ids) => ids,
            None => Seq::empty(),
        },
        assigned_names: Seq::empty(),
        reason: r.reason,
        created_at: r.created_at,
    }
}

/// Reads a dispatch record out of its row.
pub fn dispatch_log_from_row(row: &DispatchLogRow) -> (log: DispatchLog)
    ensures
        log.deep_view() == dispatch_log_of_row(row.deep_view()),
{
    let assigned_ids = match decode_id_list(row.assigned_ids.as_str()) {
        Some(ids) => {
            assert(ids.deep_view() =~= ids@);
            ids
        },
        None => Vec::new(),
    };
    let log = DispatchLog {
        id: row.id,
        conversation_id: row.conversation_id,
        boss_message: row.boss_message.clone(),
        assigned_ids,
        assigned_names: Vec::new(),
        reason: row.reason.clone(),
        created_at: row.created_at.clone(),
    };
    assert(log.assigned_names.deep_view() =~= Seq::<Seq<char>>::empty());
    log
}

/// Reads the dispatch records of a conversation out of their rows.
pub fn list_dispatch_logs(rows: &Vec<DispatchLogRow>) -> (logs: Vec<DispatchLog>)
    ensures
        logs.len() == rows.len(),
        forall|i: int| 0 <= i < rows.len() ==>
            (#[trigger] logs.deep_view()[i]) == dispatch_log_of_row(rows@[i].deep_view()),
{
    let mut logs: Vec<DispatchLog> = Vec::new();
    let mut i: usize = 0;
    while i < rows.len()
        invariant
            i <= rows.len(),
            logs.len() == i,
            forall|k: int| 0 <= k < i ==>
                (#[trigger] logs.deep_view()[k]) == dispatch_log_of_row(rows@[k].deep_view()),
        decreases rows.len() - i,
    {
        let ghost before = logs.deep_view();
        logs.push(dispatch_log_from_row(&rows[i]));
        assert(logs.deep_view() =~= before.push(dispatch_log_of_row(rows@[i as int].deep_view())));
        i = i + 1;
    }
    logs
}

/// What one dispatch writes: the record row (the ids as JSON text), and
/// the setting under which the names of the assigned employees are kept.
#[derive(Debug)]
pub struct DispatchWrite {
    pub conversation_id: i64,
    pub boss_message: String,
    pub assigned_ids: String,
    pub reason: String,
}

/// The key of the setting that keeps the names of a dispatch's employees.
pub open spec fn dispatch_names_key(log_id: i64) -> Seq<char> {
    "dispatch_names_"@ + int_decimal(log_id as int)
}

/// The record row for a dispatch of `ids` in a conversation.  Stored
/// under whatever id and time the store gives it, the row reads back as a
/// record of that conversation, message, ids and reason (the names are not
/// part of the row).
pub fn insert_dispatch(conversation_id: i64, boss_message: &str, assigned_ids: &Vec<i64>, reason: &str) -> (w: DispatchWrite)
    ensures
        w.conversation_id == conversation_id,
        w.boss_message@ == boss_message@,
        w.assigned_ids@ == id_list_json(assigned_ids@),
        w.reason@ == reason@,
        forall|id: i64, created_at: Seq<char>|
            #[trigger] dispatch_log_of_row(
                DispatchLogRowView {
                    id,
                    conversation_id: w.conversation_id,
                    boss_message: w.boss_message@,
                    assigned_ids: w.assigned_ids@,
                    reason: w.reason@,
                    created_at,
                },
            ) == (DispatchLogView {
                id,
                conversation_id,
                boss_message: boss_message@,
                assigned_ids: assigned_ids@,
                assigned_names: Seq::empty(),
                reason: reason@,
                created_at,
            }),
{
    DispatchWrite {
        conversation_id,
        boss_message: to_string(boss_message),
        assigned_ids: encode_id_list(assigned_ids),
        reason: to_string(reason),
    }
}

/// The setting (key and JSON value) that keeps the names of the employees
/// of the dispatch recorded under `log_id`.
pub fn dispatch_names_setting(log_id: i64, assigned_names: &Vec<String>) -> (kv: (String, String))
    ensures
        kv.0@ == dispatch_names_key(log_id),
        kv.1@ == string_list_json(assigned_names.deep_view()),
{
    let mut key = to_string("dispatch_names_");
    push_i64(&mut key, log_id);
    (key, encode_string_list(assigned_names))
}

/// Reads the employees out of their rows, in the order given.
pub fn list_employees(rows: Vec<EmployeeRow>) -> (emps: Vec<Employee>)
    ensures
        emps.len() == rows.len(),
        forall|i: int| 0 <= i < rows.len() ==>
            (#[trigger] emps.deep_view()[i]) == employee_of_row(rows@[i].deep_view()),
{
    let mut emps: Vec<Employee> = Vec::new();
    let mut i: usize = 0;
    while i < rows.len()
        invariant
            i <= rows.len(),
            emps.len() == i,
            forall|k: int| 0 <= k < i ==>
                (#[trigger] emps.deep_view()[k]) == employee_of_row(rows@[k].deep_view()),
        decreases rows.len() - i,
    {
        let r = &rows[i];
        let row = EmployeeRow {
            id: r.id,
            name: r.name.clone(),
            role: r.role.clone(),
            emoji: r.emoji.clone(),
            color: r.color.clone(),
            system_prompt: r.system_prompt.clone(),
            base_url: r.base_url.clone(),
            api_key: r.api_key.clone(),
            model: r.model.clone(),
            temperature_bits: r.temperature_bits,
            capabilities: r.capabilities.clone(),
            enabled: r.enabled,
        };
        let ghost before = emps.deep_view();
        emps.push(employee_from_row(row));
        assert(emps.deep_view() =~= before.push(employee_of_row(rows@[i as int].deep_view())));
        i = i + 1;
    }
    emps
}

/// The dispatcher's model settings.  `orc_temperature_bits` is the
/// IEEE-754 bit pattern of the sampling temperature, which the library
/// only carries.
#[derive(Debug)]
pub struct AppSettings {
    pub orc_base_url: String,
    pub orc_api_key: String,
    pub orc_model: String,
    pub orc_temperature_bits: u64,
}

/// The mathematical form of [`AppSettings`].
pub struct AppSettingsView {
    pub orc_base_url: Seq<char>,
    pub orc_api_key: Seq<char>,
    pub orc_model: Seq<char>,
    pub orc_temperature_bits: u64,
}

impl DeepView for AppSettings {
    type V = AppSettingsView;

    open spec fn deep_view(&self) -> AppSettingsView {
        AppSettingsView {
            orc_base_url: self.orc_base_url@,
            orc_api_key: self.orc_api_key@,
            orc_model: self.orc_model@,
            orc_temperature_bits: self.orc_temperature_bits,
        }
    }
}

/// The bit pattern of the temperature 0.3.
pub const DEFAULT_TEMPERATURE_BITS: u64 = 0x3fd3333333333333;

/// The settings in force before any is saved: DeepSeek's endpoint and
/// fast model, no key, temperature 0.3.
pub open spec fn default_settings() -> AppSettingsView {
    AppSettingsView {
        orc_base_url: "https://api.deepseek.com"@,
        orc_api_key: Seq::empty(),
        orc_model: "deepseek-v4-flash"@,
        orc_temperature_bits: DEFAULT_TEMPERATURE_BITS,
    }
}

impl Default for AppSettings {
    fn default() -> (s: Self)
        ensures
            s.deep_view() == default_settings(),
    {
        let s = AppSettings {
            orc_base_url: to_string("https://api.deepseek.com"),
            orc_api_key: String::new(),
            orc_model: to_string("deepseek-v4-flash"),
            orc_temperature_bits: DEFAULT_TEMPERATURE_BITS,
        };
        assert(s.orc_api_key@ =~= Seq::<char>::empty());
        s
    }
}

/// One stored setting: its key, its text, and the number that text reads
/// as, where it reads as one (the bit pattern of the parsed `f64`).
#[derive(Debug)]
pub struct SettingRow {
    pub key: String,
    pub value: String,
    pub number: Option<u64>,
}

/// The mathematical form of a [`SettingRow`].
pub struct SettingRowView {
    pub key: Seq<char>,
    pub value: Seq<char>,
    pub number: Option<u64>,
}

impl DeepView for SettingRow {
    type V = SettingRowView;

    open spec fn deep_view(&self) -> SettingRowView {
        SettingRowView { key: self.key@, value: self.value@, number: self.number }
    }
}

/// The settings after one stored setting is taken into account: a known
/// key sets its field (the temperature only when its text reads as a
/// number); other keys change nothing.
pub open spec fn apply_setting(s: AppSettingsView, row: SettingRowView) -> AppSettingsView {
    if row.key == "orc_base_url"@ {
        AppSettingsView { orc_base_url: row.value, ..s }
    } else if row.key == "orc_api_key"@ {
        AppSettingsView { orc_api_key: row.value, ..s }
    } else if row.key == "orc_model"@ {
        AppSettingsView { orc_model: row.value, ..s }
    } else if row.key == "orc_temperature"@ {
        match row.number {
            Some(bits) => AppSettingsView { orc_temperature_bits: bits, ..s },
            None => s,
        }
    } else {
        s
    }
}

/// The settings the stored ones amount to, taken in order over the
/// defaults.
pub open spec fn settings_of_rows(rows: Seq<SettingRowView>) -> AppSettingsView
    decreases rows.len(),
{
    if rows.len() == 0 {
        default_settings()
    } else {
        apply_setting(settings_of_rows(rows.drop_last()), rows.last())
    }
}

/// Reads the settings out of the stored ones.
pub fn get_settings(rows: &Vec<SettingRow>) -> (s: AppSettings)
    ensures
        s.deep_view() == settings_of_rows(rows.deep_view()),
{
    let ghost rv = rows.deep_view();
    let mut s = AppSettings::default();
    let mut i: usize = 0;
    while i < rows.len()
        invariant
            i <= rows.len(),
            rv == rows.deep_view(),
            s.deep_view() == settings_of_rows(rv.take(i as int)),
        decreases rows.len() - i,
    {
        let row = &rows[i];
        assert(rv.take(i + 1).drop_last() =~= rv.take(i as int));
        assert(rv.take(i + 1).last() == row.deep_view());
        if same_text(row.key.as_str(), "orc_base_url") {
            s.orc_base_url = row.value.clone();
        } else if same_text(row.key.as_str(), "orc_api_key") {
            s.orc_api_key = row.value.clone();
        } else if same_text(row.key.as_str(), "orc_model") {
            s.orc_model = row.value.clone();
        } else if same_text(row.key.as_str(), "orc_temperature") {
            match row.number {
                Some(bits) => s.orc_temperature_bits = bits,
                None => {},
            }
        }
        i = i + 1;
    }
    assert(rv.take(rows.len() as int) =~= rv);
    s
}

/// The settings to store, key and text; the temperature is stored as
/// `temperature_text`, the text the caller writes the `f64` as.
pub fn save_settings(s: &AppSettings, temperature_text: &str) -> (pairs: Vec<(String, String)>)
    ensures
        pairs.deep_view() == seq![
            ("orc_base_url"@, s.orc_base_url@),
            ("orc_api_key"@, s.orc_api_key@),
            ("orc_model"@, s.orc_model@),
            ("orc_temperature"@, temperature_text@),
        ],
{
    let mut pairs: Vec<(String, String)> = Vec::new();
    pairs.push((to_string("orc_base_url"), s.orc_base_url.clone()));
    pairs.push((to_string("orc_api_key"), s.orc_api_key.clone()));
    pairs.push((to_string("orc_model"), s.orc_model.clone()));
    pairs.push((to_string("orc_temperature"), to_string(temperature_text)));
    assert(pairs.deep_view() =~= seq![
        ("orc_base_url"@, s.orc_base_url@),
        ("orc_api_key"@, s.orc_api_key@),
        ("orc_model"@, s.orc_model@),
        ("orc_temperature"@, temperature_text@),
    ]);
    pairs
}

/// Whether the stored settings `rows` hold what saving `s` wrote: each of
/// the four keys is stored, and every row under one of them holds the
/// saved text (the temperature's reading as the saved number).
pub open spec fn holds_saved_settings(rows: Seq<SettingRowView>, s: AppSettingsView) -> bool {
    &&& exists|i: int| 0 <= i < rows.len() && rows[i].key == "orc_base_url"@
    &&& exists|i: int| 0 <= i < rows.len() && rows[i].key == "orc_api_key"@
    &&& exists|i: int| 0 <= i < rows.len() && rows[i].key == "orc_model"@
    &&& exists|i: int| 0 <= i < rows.len() && rows[i].key == "orc_temperature"@
    &&& forall|i: int| 0 <= i < rows.len() && rows[i].key == "orc_base_url"@ ==> rows[i].value == s.orc_base_url
    &&& forall|i: int| 0 <= i < rows.len() && rows[i].key == "orc_api_key"@ ==> rows[i].value == s.orc_api_key
    &&& forall|i: int| 0 <= i < rows.len() && rows[i].key == "orc_model"@ ==> rows[i].value == s.orc_model
    &&& forall|i: int| 0 <= i < rows.len() && rows[i].key == "orc_temperature"@ ==> rows[i].number == Some(s.orc_temperature_bits)
}

/// The value of each field of the settings is the text of the last row
/// stored under its key, the default when none is.
proof fn lemma_settings_fields(rows: Seq<SettingRowView>, s: AppSettingsView)
    requires
        forall|i: int| 0 <= i < rows.len() && rows[i].key == "orc_base_url"@ ==> rows[i].value == s.orc_base_url,
        forall|i: int| 0 <= i < rows.len() && rows[i].key == "orc_api_key"@ ==> rows[i].value == s.orc_api_key,
        forall|i: int| 0 <= i < rows.len() && rows[i].key == "orc_model"@ ==> rows[i].value == s.orc_model,
        forall|i: int| 0 <= i < rows.len() && rows[i].key == "orc_temperature"@ ==> rows[i].number == Some(s.orc_temperature_bits),
    ensures
        (exists|i: int| 0 <= i < rows.len() && rows[i].key == "orc_base_url"@) ==> settings_of_rows(rows).orc_base_url == s.orc_base_url,
        (exists|i: int| 0 <= i < rows.len() && rows[i].key == "orc_api_key"@) ==> settings_of_rows(rows).orc_api_key == s.orc_api_key,
        (exists|i: int| 0 <= i < rows.len() && rows[i].key == "orc_model"@) ==> settings_of_rows(rows).orc_model == s.orc_model,
        (exists|i: int| 0 <= i < rows.len() && rows[i].key == "orc_temperature"@) ==> settings_of_rows(rows).orc_temperature_bits == s.orc_temperature_bits,
    decreases rows.len(),
{
    reveal_strlit("orc_base_url");
    reveal_strlit("orc_api_key");
    reveal_strlit("orc_model");
    reveal_strlit("orc_temperature");
    assert("orc_base_url"@.len() == 12 && "orc_api_key"@.len() == 11);
    assert("orc_model"@.len() == 9 && "orc_temperature"@.len() == 15);
    assert("orc_base_url"@ != "orc_api_key"@ && "orc_base_url"@ != "orc_model"@ && "orc_base_url"@ != "orc_temperature"@);
    assert("orc_api_key"@ != "orc_model"@ && "orc_api_key"@ != "orc_temperature"@);
    assert("orc_model"@ != "orc_temperature"@);
    if rows.len() > 0 {
        let init = rows.drop_last();
        let n = rows.len() - 1;
        assert forall|i: int| 0 <= i < init.len() implies init[i] == #[trigger] rows[i] by {}
        lemma_settings_fields(init, s);
        assert(rows.last() == rows[n]);
        assert(settings_of_rows(rows) == apply_setting(settings_of_rows(init), rows[n]));
        if exists|i: int| 0 <= i < rows.len() && rows[i].key == "orc_base_url"@ {
            if rows[n].key != "orc_base_url"@ {
                let i = choose|i: int| 0 <= i < rows.len() && rows[i].key == "orc_base_url"@;
                assert(init[i].key == "orc_base_url"@);
            }
        }
        if exists|i: int| 0 <= i < rows.len() && rows[i].key == "orc_api_key"@ {
            if rows[n].key != "orc_api_key"@ {
                let i = choose|i: int| 0 <= i < rows.len() && rows[i].key == "orc_api_key"@;
                assert(init[i].key == "orc_api_key"@);
            }
        }
        if exists|i: int| 0 <= i < rows.len() && rows[i].key == "orc_model"@ {
            if rows[n].key != "orc_model"@ {
                let i = choose|i: int| 0 <= i < rows.len() && rows[i].key == "orc_model"@;
                assert(init[i].key == "orc_model"@);
            }
        }
        if exists|i: int| 0 <= i < rows.len() && rows[i].key == "orc_temperature"@ {
            if rows[n].key != "orc_temperature"@ {
                let i = choose|i: int| 0 <= i < rows.len() && rows[i].key == "orc_temperature"@;
                assert(init[i].key == "orc_temperature"@);
            }
        }
    }
}

/// Settings read back from stored rows that hold what saving `s` wrote
/// (the temperature's text read back as the number saved) are `s`,
/// whatever other settings the rows hold beside them and in whatever order
/// they come.
pub proof fn lemma_settings_round_trip(rows: Seq<SettingRowView>, s: AppSettingsView)
    requires
        holds_saved_settings(rows, s),
    ensures
        settings_of_rows(rows) == s,
{
    lemma_settings_fields(rows, s);
}

} // verus!
