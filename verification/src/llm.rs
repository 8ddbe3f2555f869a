//! Requests to and replies from an OpenAI-compatible `chat/completions`
//! endpoint: the message list, the endpoint address, the reading of a
//! complete reply and of a streamed one.

use vstd::prelude::*;
use crate::text::{to_string, chars_of, string_from_chars, push_str, truncate, truncate_spec, trim, trim_spec, same_text, utf8_lossy, lossy_text, lemma_lossy_text_concat};
use vstd::utf8::valid_utf8;
use crate::json::{completion_content, completion_content_of, stream_delta, stream_delta_of};

verus! {

broadcast use vstd::string::group_string_axioms;

/// Where and how to ask a model.  `temperature_bits` is the IEEE-754 bit
/// pattern of the sampling temperature, which the library only carries.
#[derive(Debug)]
pub struct LlmConfig {
    pub base_url: String,
    pub api_key: String,
    pub model: String,
    pub temperature_bits: u64,
}

/// One chat message sent to a model: a role (`system`, `user`,
/// `assistant`) and its text.
#[derive(Debug)]
pub struct LlmMessage {
    pub role: String,
    pub content: String,
}

/// The mathematical form of an [`LlmMessage`].
pub struct LlmMessageView {
    pub role: Seq<char>,
    pub content: Seq<char>,
}

impl DeepView for LlmMessage {
    type V = LlmMessageView;

    open spec fn deep_view(&self) -> LlmMessageView {
        LlmMessageView { role: self.role@, content: self.content@ }
    }
}

impl Clone for LlmMessage {
    fn clone(&self) -> (r: Self)
        ensures
            r.deep_view() == self.deep_view(),
    {
        LlmMessage { role: self.role.clone(), content: self.content.clone() }
    }
}

/// A message of role `role` saying `content`.
pub open spec fn message_view(role: Seq<char>, content: Seq<char>) -> LlmMessageView {
    LlmMessageView { role, content }
}

/// Builds a message.
pub fn message(role: &str, content: String) -> (m: LlmMessage)
    ensures
        m.deep_view() == message_view(role@, content@),
{
    LlmMessage { role: to_string(role), content }
}

/// The messages sent to a model: the system instructions, then the
/// history.
pub open spec fn messages_spec(system: Seq<char>, history: Seq<LlmMessageView>) -> Seq<LlmMessageView> {
    seq![message_view("system"@, system)] + history
}

/// The messages sent to a model: the system instructions, then the
/// history.
pub fn build_messages(system: &str, history: &[LlmMessage]) -> (msgs: Vec<LlmMessage>)
    ensures
        msgs.deep_view() == messages_spec(system@, history.deep_view()),
{
    let mut msgs: Vec<LlmMessage> = Vec::new();
    msgs.push(message("system", to_string(system)));
    let mut i: usize = 0;
    while i < history.len()
        invariant
            i <= history.len(),
            msgs.deep_view() == messages_spec(system@, history.deep_view().take(i as int)),
        decreases history.len() - i,
    {
        let ghost before = msgs.deep_view();
        msgs.push(history[i].clone());
        assert(msgs.deep_view() =~= before.push(history.deep_view()[i as int]));
        i = i + 1;
        assert(msgs.deep_view() =~= messages_spec(system@, history.deep_view().take(i as int)));
    }
    assert(history.deep_view().take(history.len() as int) =~= history.deep_view());
    msgs
}

/// `s` without its trailing `/` characters, as `trim_end_matches('/')`
/// gives it.
pub open spec fn trim_trailing_slashes(s: Seq<char>) -> Seq<char>
    decreases s.len(),
{
    if s.len() > 0 && s.last() == '/' {
        trim_trailing_slashes(s.drop_last())
    } else {
        s
    }
}

/// The address of the `chat/completions` endpoint under `base_url`.
pub open spec fn completions_url_spec(base_url: Seq<char>) -> Seq<char> {
    trim_trailing_slashes(base_url) + "/chat/completions"@
}

proof fn lemma_trim_trailing_slashes(s: Seq<char>, j: int)
    requires
        0 <= j <= s.len(),
        forall|k: int| j <= k < s.len() ==> s[k] == '/',
        j == 0 || s[j - 1] != '/',
    ensures
        trim_trailing_slashes(s) == s.take(j),
    decreases s.len() - j,
{
    if j == s.len() {
        assert(s.take(j) =~= s);
    } else {
        lemma_trim_trailing_slashes(s.drop_last(), j);
        assert(s.drop_last().take(j) =~= s.take(j));
    }
}

proof fn lemma_trailing_slashes_shape(s: Seq<char>) -> (j: int)
    ensures
        0 <= j <= s.len(),
        trim_trailing_slashes(s) == s.take(j),
        forall|k: int| j <= k < s.len() ==> s[k] == '/',
        j == 0 || s[j - 1] != '/',
    decreases s.len(),
{
    if s.len() > 0 && s.last() == '/' {
        let t = s.drop_last();
        let j = lemma_trailing_slashes_shape(t);
        assert(t.take(j) =~= s.take(j));
        assert forall|k: int| j <= k < s.len() implies s[k] == '/' by {
            if k < t.len() {
                assert(s[k] == t[k]);
            }
        }
        j
    } else {
        assert(s.take(s.len() as int) =~= s);
        s.len() as int
    }
}

/// The endpoint address is the base address with the slashes at its end
/// dropped, and only those, followed by `/chat/completions`.
pub proof fn lemma_completions_url(base_url: Seq<char>)
    ensures
        exists|j: int| {
            &&& 0 <= j <= base_url.len()
            &&& completions_url_spec(base_url) == base_url.take(j) + "/chat/completions"@
            &&& forall|k: int| j <= k < base_url.len() ==> base_url[k] == '/'
            &&& (j == 0 || base_url[j - 1] != '/')
        },
{
    let j = lemma_trailing_slashes_shape(base_url);
    assert(completions_url_spec(base_url) == base_url.take(j) + "/chat/completions"@);
}

/// The address of the `chat/completions` endpoint under `base_url`.
pub fn completions_url(base_url: &str) -> (url: String)
    ensures
        url@ == completions_url_spec(base_url@),
{
    let cs = chars_of(base_url);
    let mut j = cs.len();
    while j > 0 && cs[j - 1] == '/'
        invariant
            j <= cs.len(),
            cs@ == base_url@,
            forall|k: int| j <= k < cs.len() ==> cs@[k] == '/',
        decreases j,
    {
        j = j - 1;
    }
    proof {
        lemma_trim_trailing_slashes(cs@, j as int);
    }
    let mut url = string_from_chars(&cs, 0, j);
    push_str(&mut url, "/chat/completions");
    assert(url@ =~= completions_url_spec(base_url@));
    url
}

/// The error reported for an unsuccessful HTTP status: the status and the
/// start of the body.
pub open spec fn http_error_spec(status: Seq<char>, body: Seq<char>) -> Seq<char> {
    "HTTP "@ + status + ": "@ + truncate_spec(body, 400)
}

/// The error reported for an unsuccessful HTTP status.
pub fn http_error(status: &str, body: &str) -> (e: String)
    ensures
        e@ == http_error_spec(status@, body@),
{
    let mut e = to_string("HTTP ");
    push_str(&mut e, status);
    push_str(&mut e, ": ");
    let t = truncate(body, 400);
    push_str(&mut e, t.as_str());
    assert(e@ =~= http_error_spec(status@, body@));
    e
}

/// The outcome of a complete (not streamed) completion request, from its
/// HTTP status and body: the reply text, or why there is none.
pub open spec fn completion_outcome(status_ok: bool, status: Seq<char>, body: Seq<char>) -> Result<Seq<char>, Seq<char>> {
    if !status_ok {
        Err(http_error_spec(status, body))
    } else {
        match completion_content_of(body) {
            Err(e) => Err("响应解析失败: "@ + e + " → "@ + truncate_spec(body, 200)),
            Ok(None) => Err("响应中没有内容: "@ + truncate_spec(body, 200)),
            Ok(Some(text)) => Ok(text),
        }
    }
}

/// Reads the reply of a complete completion request out of its HTTP
/// status (whether it is a success, and its text) and body.
pub fn completion_result(status_ok: bool, status: &str, body: &str) -> (r: Result<String, String>)
    ensures
        match r {
            Ok(t) => completion_outcome(status_ok, status@, body@) == Ok::<Seq<char>, Seq<char>>(t@),
            Err(e) => completion_outcome(status_ok, status@, body@) == Err::<Seq<char>, Seq<char>>(e@),
        },
{
    if !status_ok {
        return Err(http_error(status, body));
    }
    match completion_content(body) {
        Err(e) => {
            let mut m = to_string("响应解析失败: ");
            push_str(&mut m, e.as_str());
            push_str(&mut m, " → ");
            let t = truncate(body, 200);
            push_str(&mut m, t.as_str());
            assert(m@ =~= "响应解析失败: "@ + e@ + " → "@ + truncate_spec(body@, 200));
            Err(m)
        },
        Ok(None) => {
            let mut m = to_string("响应中没有内容: ");
            let t = truncate(body, 200);
            push_str(&mut m, t.as_str());
            assert(m@ =~= "响应中没有内容: "@ + truncate_spec(body@, 200));
            Err(m)
        },
        Ok(Some(text)) => Ok(text),
    }
}

/// What one line of an event stream carries: a piece of the reply, the
/// end of the stream, or nothing of interest.
#[derive(Debug)]
pub enum StreamLine {
    Delta(String),
    Done,
    Skip,
}

/// The mathematical form of a [`StreamLine`].
pub enum StreamLineView {
    Delta(Seq<char>),
    Done,
    Skip,
}

impl DeepView for StreamLine {
    type V = StreamLineView;

    open spec fn deep_view(&self) -> StreamLineView {
        match self {
            StreamLine::Delta(d) => StreamLineView::Delta(d@),
            StreamLine::Done => StreamLineView::Done,
            StreamLine::Skip => StreamLineView::Skip,
        }
    }
}

/// What a line of an event stream carries: a `data:` line (white space
/// around it and after the colon aside) ends the stream when its data is
/// `[DONE]`, and else carries the non-empty `choices[0].delta.content` of
/// its JSON data, if any.
pub open spec fn stream_line_of(line: Seq<char>) -> StreamLineView {
    let t = trim_spec(line);
    if t.len() >= 5 && t.take(5) == "data:"@ {
        let data = trim_spec(t.skip(5));
        if data == "[DONE]"@ {
            StreamLineView::Done
        } else {
            match stream_delta_of(data) {
                Some(d) => if d.len() > 0 {
                    StreamLineView::Delta(d)
                } else {
                    StreamLineView::Skip
                },
                None => StreamLineView::Skip,
            }
        }
    } else {
        StreamLineView::Skip
    }
}

/// A line reads as the end of the stream only when it is a `data:` line
/// whose data is `[DONE]`; a `data:` line whose JSON data holds a
/// non-empty content string carries exactly that string, unaltered (its
/// spaces and line breaks included), so that the reply is the plain
/// concatenation of the streamed content strings; every other line
/// carries nothing.
pub proof fn lemma_stream_line_content(line: Seq<char>)
    ensures
        ({
            let t = trim_spec(line);
            let data = trim_spec(t.skip(5));
            &&& (t.len() >= 5 && t.take(5) == "data:"@ && data != "[DONE]"@
                && stream_delta_of(data) is Some && stream_delta_of(data)->0.len() > 0)
                ==> stream_line_of(line) == StreamLineView::Delta(stream_delta_of(data)->0)
            &&& stream_line_of(line) is Done <==> (t.len() >= 5 && t.take(5) == "data:"@ && data == "[DONE]"@)
            &&& stream_line_of(line) matches StreamLineView::Delta(d) ==> {
                &&& t.len() >= 5 && t.take(5) == "data:"@
                &&& stream_delta_of(data) == Some(d)
                &&& d.len() > 0
            }
        }),
{
}

/// Reads one line of an event stream.
pub fn stream_line(line: &str) -> (ev: StreamLine)
    ensures
        ev.deep_view() == stream_line_of(line@),
{
    let t = trim(line);
    let tc = chars_of(t.as_str());
    proof {
        reveal_strlit("data:");
    }
    if tc.len() >= 5 && tc[0] == 'd' && tc[1] == 'a' && tc[2] == 't' && tc[3] == 'a' && tc[4] == ':' {
        assert(t@.take(5) =~= "data:"@);
        let rest = string_from_chars(&tc, 5, tc.len());
        assert(rest@ =~= t@.skip(5));
        let data = trim(rest.as_str());
        if same_text(data.as_str(), "[DONE]") {
            StreamLine::Done
        } else {
            match stream_delta(data.as_str()) {
                Some(d) => if d.as_str().is_empty() {
                    StreamLine::Skip
                } else {
                    StreamLine::Delta(d)
                },
                None => StreamLine::Skip,
            }
        }
    } else {
        assert(!(t@.len() >= 5 && t@.take(5) == "data:"@)) by {
            if t@.len() >= 5 && t@.take(5) == "data:"@ {
                assert(t@.take(5)[0] == 'd');
                assert(t@.take(5)[1] == 'a');
                assert(t@.take(5)[2] == 't');
                assert(t@.take(5)[3] == 'a');
                assert(t@.take(5)[4] == ':');
            }
        }
        StreamLine::Skip
    }
}

/// What the complete lines of a stream buffer carry: the pieces of the
/// reply, in order, the text after the last line read, and whether the
/// end of the stream was seen (lines after it are left unread).
pub struct DrainView {
    pub deltas: Seq<Seq<char>>,
    pub rest: Seq<char>,
    pub done: bool,
}

/// Reads the complete (newline-ended) lines of `buf`, up to the end of
/// the stream.
pub open spec fn drain_lines(buf: Seq<char>) -> DrainView
    decreases buf.len(),
{
    match buf.index_of_first('\n') {
        None => DrainView { deltas: Seq::empty(), rest: buf, done: false },
        Some(p) => {
            proof {
                buf.index_of_first_ensures('\n');
            }
            let after = buf.skip(p + 1);
            match stream_line_of(buf.take(p + 1)) {
                StreamLineView::Done => DrainView { deltas: Seq::empty(), rest: after, done: true },
                StreamLineView::Delta(d) => {
                    let r = drain_lines(after);
                    DrainView { deltas: seq![d] + r.deltas, rest: r.rest, done: r.done }
                },
                StreamLineView::Skip => drain_lines(after),
            }
        },
    }
}

/// Reading a buffer that starts with one complete line: a line carrying a
/// piece of the reply gives that piece, unaltered, before the pieces of
/// the rest; the end-of-stream line leaves the rest unread; any other line
/// gives nothing.  Text with no line break yet gives nothing and is kept
/// whole for later.
pub proof fn lemma_drain_first_line(line: Seq<char>, rest: Seq<char>)
    ensures
        !line.contains('\n') ==> drain_lines(line) == (DrainView { deltas: Seq::empty(), rest: line, done: false }),
        !line.contains('\n') ==> ({
            let l = line.push('\n');
            &&& stream_line_of(l) matches StreamLineView::Delta(d) ==> drain_lines(l + rest) == (DrainView {
                deltas: seq![d] + drain_lines(rest).deltas,
                rest: drain_lines(rest).rest,
                done: drain_lines(rest).done,
            })
            &&& stream_line_of(l) is Done ==> drain_lines(l + rest) == (DrainView { deltas: Seq::empty(), rest, done: true })
            &&& stream_line_of(l) is Skip ==> drain_lines(l + rest) == drain_lines(rest)
        }),
{
    line.index_of_first_ensures('\n');
    if !line.contains('\n') {
        let l = line.push('\n');
        let b = l + rest;
        let p = line.len() as int;
        assert(b[p] == '\n');
        assert forall|j: int| 0 <= j < p implies b[j] != '\n' by {
            assert(b[j] == line[j]);
            if line[j] == '\n' {
                assert(line.contains('\n'));
            }
        }
        b.index_of_first_ensures('\n');
        assert(b.index_of_first('\n') == Some(p)) by {
            match b.index_of_first('\n') {
                Some(q) => {
                    if q < p {
                        assert(b[q] != '\n');
                    }
                },
                None => {
                    assert(b.contains('\n'));
                },
            }
        }
        assert(b.take(p + 1) =~= l);
        assert(b.skip(p + 1) =~= rest);
    }
}

/// Reading a stream buffer in two parts reads the same as reading it
/// whole: the pieces of the first part, then those of what the first part
/// left over followed by the second; once the end of the stream is seen,
/// the second part is left unread.
pub proof fn lemma_drain_split(a: Seq<char>, b: Seq<char>)
    ensures
        !drain_lines(a).done ==> drain_lines(a + b) == (DrainView {
            deltas: drain_lines(a).deltas + drain_lines(drain_lines(a).rest + b).deltas,
            rest: drain_lines(drain_lines(a).rest + b).rest,
            done: drain_lines(drain_lines(a).rest + b).done,
        }),
        drain_lines(a).done ==> drain_lines(a + b) == (DrainView {
            deltas: drain_lines(a).deltas,
            rest: drain_lines(a).rest + b,
            done: true,
        }),
    decreases a.len(),
{
    let ab = a + b;
    a.index_of_first_ensures('\n');
    ab.index_of_first_ensures('\n');
    match a.index_of_first('\n') {
        None => {
            assert(drain_lines(a) == (DrainView { deltas: Seq::<Seq<char>>::empty(), rest: a, done: false }));
            assert(Seq::<Seq<char>>::empty() + drain_lines(a + b).deltas =~= drain_lines(a + b).deltas);
        },
        Some(p) => {
            assert(ab[p] == '\n');
            assert(ab.index_of_first('\n') == Some(p)) by {
                assert(forall|j: int| 0 <= j < p ==> ab[j] == a[j]);
            }
            assert(ab.take(p + 1) =~= a.take(p + 1));
            let a2 = a.skip(p + 1);
            assert(ab.skip(p + 1) =~= a2 + b);
            lemma_drain_split(a2, b);
            match stream_line_of(a.take(p + 1)) {
                StreamLineView::Done => {},
                StreamLineView::Delta(d) => {
                    let r = drain_lines(a2);
                    assert(seq![d] + (r.deltas + drain_lines(r.rest + b).deltas)
                        =~= (seq![d] + r.deltas) + drain_lines(r.rest + b).deltas);
                },
                StreamLineView::Skip => {},
            }
        },
    }
}

/// A stream reads the same however its bytes are cut into chunks, as long
/// as each cut falls between characters: with `pending` the text not yet
/// read, taking in `c1` and then `c2` gives the pieces, the text left and
/// the end-of-stream mark that taking in `c1 + c2` at once gives (once the
/// end is seen in `c1`, `c2` is not read).
pub proof fn lemma_feed_split(pending: Seq<char>, c1: Seq<u8>, c2: Seq<u8>)
    requires
        valid_utf8(c1),
        valid_utf8(c2),
    ensures
        ({
            let first = drain_lines(pending + lossy_text(c1));
            let second = drain_lines(first.rest + lossy_text(c2));
            let whole = drain_lines(pending + lossy_text(c1 + c2));
            &&& !first.done ==> whole == (DrainView {
                deltas: first.deltas + second.deltas,
                rest: second.rest,
                done: second.done,
            })
            &&& first.done ==> whole.deltas == first.deltas && whole.done
        }),
{
    lemma_lossy_text_concat(c1, c2);
    let t1 = lossy_text(c1);
    let t2 = lossy_text(c2);
    assert(pending + lossy_text(c1 + c2) =~= (pending + t1) + t2);
    lemma_drain_split(pending + t1, t2);
}

/// Reads a streamed completion (server-sent events) chunk by chunk: the
/// text not yet read as a complete line, the reply so far, and whether the
/// end of the stream was seen.
#[derive(Debug)]
pub struct StreamDecoder {
    buf: Vec<char>,
    full: String,
    done: bool,
}

impl StreamDecoder {
    /// The text received and not yet read as a complete line.
    pub closed spec fn pending(&self) -> Seq<char> {
        self.buf@
    }

    /// The reply received so far.
    pub closed spec fn reply(&self) -> Seq<char> {
        self.full@
    }

    /// Whether the end of the stream was seen.
    pub closed spec fn finished(&self) -> bool {
        self.done
    }

    /// A decoder that has received nothing.
    pub fn new() -> (d: Self)
        ensures
            d.pending() == Seq::<char>::empty(),
            d.reply() == Seq::<char>::empty(),
            !d.finished(),
    {
        let d = StreamDecoder { buf: Vec::new(), full: String::new(), done: false };
        assert(d.buf@ =~= Seq::<char>::empty());
        d
    }

    /// Whether the end of the stream was seen.
    pub fn is_done(&self) -> (b: bool)
        ensures
            b == self.finished(),
    {
        self.done
    }

    /// The reply received so far.
    pub fn full_text(&self) -> (s: String)
        ensures
            s@ == self.reply(),
    {
        self.full.clone()
    }

    /// Takes in one chunk of the stream: decodes it as UTF-8 (lossily),
    /// reads the lines it completes and returns the pieces of the reply
    /// they carry, in order.  After the end of the stream, chunks are
    /// ignored.
    pub fn feed(&mut self, chunk: &[u8]) -> (deltas: Vec<String>)
        ensures
            old(self).finished() ==> {
                &&& deltas.len() == 0
                &&& final(self).pending() == old(self).pending()
                &&& final(self).reply() == old(self).reply()
                &&& final(self).finished()
            },
            !old(self).finished() ==> {
                let d = drain_lines(old(self).pending() + lossy_text(chunk@));
                &&& deltas.deep_view() == d.deltas
                &&& final(self).pending() == d.rest
                &&& final(self).finished() == d.done
                &&& final(self).reply() == old(self).reply() + d.deltas.flatten()
            },
    {
        if self.done {
            return Vec::new();
        }
        let text = utf8_lossy(chunk);
        let tc = chars_of(text.as_str());
        let mut buf: Vec<char> = Vec::new();
        let mut k: usize = 0;
        while k < self.buf.len()
            invariant
                k <= self.buf.len(),
                buf@ == self.buf@.take(k as int),
            decreases self.buf.len() - k,
        {
            buf.push(self.buf[k]);
            k = k + 1;
            assert(buf@ =~= self.buf@.take(k as int));
        }
        let mut k: usize = 0;
        while k < tc.len()
            invariant
                k <= tc.len(),
                buf@ == old(self).buf@ + tc@.take(k as int),
            decreases tc.len() - k,
        {
            buf.push(tc[k]);
            k = k + 1;
            assert(buf@ =~= old(self).buf@ + tc@.take(k as int));
        }
        assert(tc@.take(tc.len() as int) =~= tc@);
        let ghost b = buf@;
        let n = buf.len();
        let mut emitted: Vec<String> = Vec::new();
        let mut start: usize = 0;
        let mut finished = false;
        proof {
            lemma_drain_empty();
            assert(b.skip(0) =~= b);
            assert(emitted.deep_view() + drain_lines(b).deltas =~= drain_lines(b).deltas);
            assert(emitted.deep_view().flatten() =~= Seq::<char>::empty());
            assert(self.full@ =~= old(self).full@ + emitted.deep_view().flatten());
            assert(emitted.deep_view() + Seq::<Seq<char>>::empty() =~= emitted.deep_view());
            if n == 0 {
                assert(b.skip(0) =~= Seq::<char>::empty());
            }
        }
        while start < n
            invariant_except_break
                !finished,
            invariant
                start <= n == buf.len(),
                b == buf@,
                !old(self).done,
                drain_lines(Seq::<char>::empty()) == (DrainView { deltas: Seq::empty(), rest: Seq::<char>::empty(), done: false }),
                start == n ==> b.skip(start as int) == Seq::<char>::empty(),
                emitted.deep_view() + Seq::<Seq<char>>::empty() == emitted.deep_view(),
                !finished ==> drain_lines(b) == (DrainView {
                    deltas: emitted.deep_view() + drain_lines(b.skip(start as int)).deltas,
                    rest: drain_lines(b.skip(start as int)).rest,
                    done: drain_lines(b.skip(start as int)).done,
                }),
                finished ==> drain_lines(b) == (DrainView {
                    deltas: emitted.deep_view(),
                    rest: b.skip(start as int),
                    done: true,
                }),
                self.full@ == old(self).full@ + emitted.deep_view().flatten(),
            ensures
                !finished ==> drain_lines(b) == (DrainView {
                    deltas: emitted.deep_view(),
                    rest: b.skip(start as int),
                    done: false,
                }),
                finished ==> drain_lines(b) == (DrainView {
                    deltas: emitted.deep_view(),
                    rest: b.skip(start as int),
                    done: true,
                }),
                self.full@ == old(self).full@ + emitted.deep_view().flatten(),
            decreases n - start,
        {
            let mut p = start;
            while p < n && buf[p] != '\n'
                invariant
                    start <= p <= n == buf.len(),
                    forall|q: int| start <= q < p ==> buf@[q] != '\n',
                decreases n - p,
            {
                p = p + 1;
            }
            let ghost s = b.skip(start as int);
            proof {
                s.index_of_first_ensures('\n');
            }
            if p == n {
                assert(!s.contains('\n')) by {
                    if s.contains('\n') {
                        let q = choose|q: int| 0 <= q < s.len() && s[q] == '\n';
                        assert(b[start + q] == '\n');
                    }
                }
                assert(drain_lines(s) == (DrainView { deltas: Seq::empty(), rest: s, done: false }));
                assert(emitted.deep_view() + Seq::<Seq<char>>::empty() =~= emitted.deep_view());
                break;
            }
            assert(s[p - start] == '\n');
            assert(s.index_of_first('\n') == Some((p - start) as int));
            let line = string_from_chars(&buf, start, p + 1);
            assert(line@ =~= s.take(p - start + 1));
            assert(s.skip(p - start + 1) =~= b.skip(p + 1));
            match stream_line(line.as_str()) {
                StreamLine::Done => {
                    finished = true;
                    assert(emitted.deep_view() + Seq::<Seq<char>>::empty() =~= emitted.deep_view());
                    start = p + 1;
                    break;
                },
                StreamLine::Delta(d) => {
                    let ghost before = emitted.deep_view();
                    let ghost r = drain_lines(b.skip(p + 1));
                    push_str(&mut self.full, d.as_str());
                    proof {
                        before.lemma_flatten_push(d@);
                    }
                    emitted.push(d);
                    assert(emitted.deep_view() =~= before.push(d@));
                    assert(before + (seq![d@] + r.deltas) =~= emitted.deep_view() + r.deltas);
                    assert(emitted.deep_view() + Seq::<Seq<char>>::empty() =~= emitted.deep_view());
                    start = p + 1;
                },
                StreamLine::Skip => {
                    start = p + 1;
                },
            }
            if start == n {
                assert(b.skip(n as int) =~= Seq::<char>::empty());
                assert(emitted.deep_view() + Seq::<Seq<char>>::empty() =~= emitted.deep_view());
            }
        }
        let rest = string_from_chars_vec(&buf, start);
        self.buf = rest;
        self.done = finished;
        emitted
    }
}

proof fn lemma_drain_empty()
    ensures
        drain_lines(Seq::<char>::empty()) == (DrainView { deltas: Seq::empty(), rest: Seq::<char>::empty(), done: false }),
{
    Seq::<char>::empty().index_of_first_ensures('\n');
}

/// The characters `v[from..]`.
fn string_from_chars_vec(v: &Vec<char>, from: usize) -> (r: Vec<char>)
    requires
        from <= v.len(),
    ensures
        r@ == v@.skip(from as int),
{
    let mut r: Vec<char> = Vec::new();
    let mut i = from;
    while i < v.len()
        invariant
            from <= i <= v.len(),
            r@ == v@.subrange(from as int, i as int),
        decreases v.len() - i,
    {
        r.push(v[i]);
        i = i + 1;
        assert(r@ =~= v@.subrange(from as int, i as int));
    }
    assert(v@.subrange(from as int, v.len() as int) =~= v@.skip(from as int));
    r
}

} // verus!
