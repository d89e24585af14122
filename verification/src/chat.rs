//! Questions about past meetings: the transcript context handed to the
//! language model, the request it gets, and the citations kept from its
//! answer.

use vstd::prelude::*;
use vstd::utf8::*;

use crate::text::{contains, contains_chars, decimal, push_decimal, to_chars};

verus! {

/// Most bytes of transcript context in one request.
pub const MAX_CONTEXT_CHARS: usize = 12_000;

/// Most earlier messages of the conversation repeated in a request.
pub const MAX_PRIOR_MESSAGES: usize = 12;

/// Characters of an utterance quoted in a citation.
pub const SNIPPET_CHARS: usize = 120;

/// A transcript utterance retrieved as context for a question.
#[derive(Debug, Clone)]
pub struct ContextUtterance {
    pub id: i64,
    pub session_id: String,
    pub timestamp: String,
    pub source: String,
    pub speaker: Option<String>,
    pub text: String,
}

/// A transcript utterance that an answer refers to.
#[derive(Debug, Clone)]
pub struct ChatCitation {
    pub session_id: String,
    pub utterance_id: i64,
    pub timestamp: String,
    pub text_snippet: String,
}

/// An answer and the utterances it cites.
#[derive(Debug, Clone)]
pub struct ChatResponse {
    pub answer: String,
    pub citations: Vec<ChatCitation>,
}

/// Who said an utterance: its speaker, else its source.
pub open spec fn speaker_of(u: ContextUtterance) -> Seq<char> {
    match u.speaker {
        Some(s) => s@,
        None => u.source@,
    }
}

/// The marker `[i]` by which an answer refers to context line `i`.
pub open spec fn marker(i: nat) -> Seq<char> {
    "["@ + decimal(i) + "]"@
}

/// Context line `i`: `[i] [timestamp] speaker: text` and a line break.
pub open spec fn context_line(i: nat, u: ContextUtterance) -> Seq<char> {
    "["@ + decimal(i) + "] ["@ + u.timestamp@ + "] "@ + speaker_of(u) + ": "@ + u.text@ + "\n"@
}

/// How many utterances from `i` on still fit in the context when `used`
/// bytes are taken: lines are added in order until the next one would
/// pass [`MAX_CONTEXT_CHARS`].
pub open spec fn fitting(us: Seq<ContextUtterance>, i: int, used: int) -> nat
    decreases us.len() - i,
{
    if i < 0 || i >= us.len() {
        0
    } else {
        let l = encode_utf8(context_line(i as nat, us[i])).len();
        if used + l > MAX_CONTEXT_CHARS {
            0
        } else {
            1 + fitting(us, i + 1, used + l)
        }
    }
}

/// The first `n` context lines, joined.
pub open spec fn context_lines(us: Seq<ContextUtterance>, n: int) -> Seq<char>
    decreases n,
{
    if n <= 0 {
        Seq::empty()
    } else {
        context_lines(us, n - 1) + context_line((n - 1) as nat, us[n - 1])
    }
}

/// The number of utterances that make up the context.
pub open spec fn context_count(us: Seq<ContextUtterance>) -> nat {
    fitting(us, 0, 0)
}

/// The citation of an utterance: its session, id, time, and first
/// [`SNIPPET_CHARS`] characters.
pub open spec fn citation_of(u: ContextUtterance) -> (Seq<char>, i64, Seq<char>, Seq<char>) {
    (
        u.session_id@,
        u.id,
        u.timestamp@,
        if u.text@.len() <= 120 { u.text@ } else { u.text@.subrange(0, 120) },
    )
}

pub open spec fn citation_view(c: ChatCitation) -> (Seq<char>, i64, Seq<char>, Seq<char>) {
    (c.session_id@, c.utterance_id, c.timestamp@, c.text_snippet@)
}

/// The context given to the model and the citations it can make.
#[derive(Debug, Clone)]
pub struct ChatContext {
    /// The context lines, joined.
    pub text: String,
    /// Each included utterance's line number and citation.
    pub citations: Vec<(usize, ChatCitation)>,
}

fn context_line_of(i: usize, u: &ContextUtterance) -> (r: String)
    ensures
        r@ == context_line(i as nat, *u),
{
    let mut r = "[".to_owned();
    push_decimal(&mut r, i as u64);
    r.append("] [");
    r.append(u.timestamp.as_str());
    r.append("] ");
    match &u.speaker {
        Some(s) => r.append(s.as_str()),
        None => r.append(u.source.as_str()),
    }
    r.append(": ");
    r.append(u.text.as_str());
    r.append("\n");
    r
}

fn snippet(text: &str) -> (r: String)
    ensures
        r@ == (if text@.len() <= 120 { text@ } else { text@.subrange(0, 120) }),
{
    let v = to_chars(text);
    let n = if v.len() <= SNIPPET_CHARS { v.len() } else { SNIPPET_CHARS };
    assert(v@.subrange(0, v@.len() as int) =~= v@);
    crate::text::string_of(v.as_slice(), 0, n)
}

proof fn lemma_fitting_step(us: Seq<ContextUtterance>, i: int, used: int)
    requires
        0 <= i < us.len(),
        used + encode_utf8(context_line(i as nat, us[i])).len() <= MAX_CONTEXT_CHARS,
    ensures
        fitting(us, 0, 0) == i + fitting(us, i, used) ==> fitting(us, 0, 0) == i + 1 + fitting(
            us,
            i + 1,
            used + encode_utf8(context_line(i as nat, us[i])).len(),
        ),
{
}

/// The context for a question: the utterances' lines `[i] [time] speaker:
/// text`, in order, as long as the joined lines stay within
/// [`MAX_CONTEXT_CHARS`] bytes, and a citation for each line.
pub fn build_context(utterances: &Vec<ContextUtterance>) -> (r: ChatContext)
    ensures
        r.text@ == context_lines(utterances@, context_count(utterances@) as int),
        r.citations@.len() == context_count(utterances@),
        forall|k: int|
            0 <= k < r.citations@.len() ==> (#[trigger] r.citations@[k]).0 == k && citation_view(
                r.citations@[k].1,
            ) == citation_of(utterances@[k]),
{
    let ghost us = utterances@;
    let mut text = String::new();
    let mut used: usize = 0;
    let mut citations: Vec<(usize, ChatCitation)> = Vec::new();
    let mut i: usize = 0;
    while i < utterances.len()
        invariant_except_break
            i <= us.len(),
            us == utterances@,
            used <= MAX_CONTEXT_CHARS,
            used == encode_utf8(text@).len(),
            text@ == context_lines(us, i as int),
            citations@.len() == i,
            forall|k: int|
                0 <= k < i ==> (#[trigger] citations@[k]).0 == k && citation_view(citations@[k].1)
                    == citation_of(us[k]),
            context_count(us) == i + fitting(us, i as int, used as int),
        ensures
            text@ == context_lines(us, context_count(us) as int),
            citations@.len() == context_count(us),
            forall|k: int|
                0 <= k < citations@.len() ==> (#[trigger] citations@[k]).0 == k && citation_view(
                    citations@[k].1,
                ) == citation_of(us[k]),
        decreases us.len() - i,
    {
        let u = &utterances[i];
        let line = context_line_of(i, u);
        let line_len = line.as_str().as_bytes().len();
        assert(line_len == encode_utf8(line@).len());
        assert(line@ == context_line(i as nat, us[i as int]));
        if line_len > MAX_CONTEXT_CHARS - used {
            assert(fitting(us, i as int, used as int) == 0);
            break;
        }
        proof {
            lemma_fitting_step(us, i as int, used as int);
            crate::text::lemma_encode_utf8_concat(text@, line@);
        }
        text.append(line.as_str());
        used = used + line_len;
        let c = ChatCitation {
            session_id: u.session_id.as_str().to_owned(),
            utterance_id: u.id,
            timestamp: u.timestamp.as_str().to_owned(),
            text_snippet: snippet(u.text.as_str()),
        };
        citations.push((i, c));
        i += 1;
    }
    ChatContext { text, citations }
}

/// The instructions that open every question.
pub open spec fn system_prompt_text() -> Seq<char> {
    "You are Gravai, an AI meeting assistant. Answer the user's question based ONLY on the transcript excerpts provided. If the answer is not in the transcripts, say so clearly. When you reference a transcript entry, include its [number] inline. Be concise and factual."@
}

pub fn system_prompt() -> (r: &'static str)
    ensures
        r@ == system_prompt_text(),
{
    "You are Gravai, an AI meeting assistant. Answer the user's question based ONLY on the transcript excerpts provided. If the answer is not in the transcripts, say so clearly. When you reference a transcript entry, include its [number] inline. Be concise and factual."
}

/// Position of the first earlier message repeated in a request: only the
/// last [`MAX_PRIOR_MESSAGES`] are kept.
pub fn prior_start(prior_len: usize) -> (r: usize)
    ensures
        r == (if prior_len > MAX_PRIOR_MESSAGES { prior_len - MAX_PRIOR_MESSAGES } else { 0 }),
{
    prior_len.saturating_sub(MAX_PRIOR_MESSAGES)
}

/// The user turn of a request: the question alone when there is no
/// context, else the context followed by the question.
pub open spec fn user_content_of(question: Seq<char>, context: Seq<char>) -> Seq<char> {
    if context.len() == 0 {
        question
    } else {
        "Transcript context:\n"@ + context + "\nQuestion: "@ + question
    }
}

pub fn user_content(question: &str, context: &str) -> (r: String)
    ensures
        r@ == user_content_of(question@, context@),
{
    if context.is_empty() {
        question.to_owned()
    } else {
        let mut r = "Transcript context:\n".to_owned();
        r.append(context);
        r.append("\nQuestion: ");
        r.append(question);
        r
    }
}

/// The citations among `candidates` whose marker `[i]` the answer holds,
/// in order.
pub open spec fn cited(answer: Seq<char>, candidates: Seq<(usize, ChatCitation)>) -> Seq<
    (usize, ChatCitation),
> {
    candidates.filter(|c: (usize, ChatCitation)| contains(answer, marker(c.0 as nat)))
}

fn marker_of(i: usize) -> (r: String)
    ensures
        r@ == marker(i as nat),
{
    let mut r = "[".to_owned();
    push_decimal(&mut r, i as u64);
    r.append("]");
    r
}

/// Keeps the citations whose marker `[i]` appears in the answer.
pub fn select_citations(answer: &str, candidates: Vec<(usize, ChatCitation)>) -> (r: Vec<ChatCitation>)
    ensures
        r@ == cited(answer@, candidates@).map_values(|c: (usize, ChatCitation)| c.1),
{
    let ghost cs = candidates@;
    let ghost p = |c: (usize, ChatCitation)| contains(answer@, marker(c.0 as nat));
    let av = to_chars(answer);
    let total = candidates.len();
    let mut out: Vec<ChatCitation> = Vec::new();
    let mut rest = candidates;
    let mut k: usize = 0;
    while rest.len() > 0
        invariant
            k <= cs.len(),
            cs.len() == total,
            rest@ == cs.subrange(k as int, cs.len() as int),
            av@ == answer@,
            p == (|c: (usize, ChatCitation)| contains(answer@, marker(c.0 as nat))),
            out@ == cs.subrange(0, k as int).filter(p).map_values(|c: (usize, ChatCitation)| c.1),
        decreases rest@.len(),
    {
        let c = rest.remove(0);
        assert(c == cs[k as int]);
        proof {
            assert(cs.subrange(0, k + 1) =~= cs.subrange(0, k as int).push(c));
            cs.subrange(0, k as int).lemma_filter_push(c, p);
        }
        let m = marker_of(c.0);
        let mv = to_chars(m.as_str());
        if contains_chars(av.as_slice(), mv.as_slice()) {
            let ghost before = out@;
            out.push(c.1);
            assert(out@ =~= cs.subrange(0, k + 1).filter(p).map_values(
                |c: (usize, ChatCitation)| c.1,
            ));
        } else {
            assert(cs.subrange(0, k + 1).filter(p) == cs.subrange(0, k as int).filter(p));
        }
        k += 1;
        assert(rest@ =~= cs.subrange(k as int, cs.len() as int));
    }
    assert(cs.subrange(0, k as int) =~= cs);
    out
}

/// The response to a question, from the model's answer and the context's
/// citations.
pub fn chat_response(answer: String, candidates: Vec<(usize, ChatCitation)>) -> (r: ChatResponse)
    ensures
        r.answer@ == answer@,
        r.citations@ == cited(answer@, candidates@).map_values(|c: (usize, ChatCitation)| c.1),
{
    let citations = select_citations(answer.as_str(), candidates);
    ChatResponse { answer, citations }
}

} // verus!
