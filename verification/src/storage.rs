//! Queries of the session database: the SQL text and parameters of the
//! filtered session search and of the chat history.

use vstd::prelude::*;

use crate::text::{contains, occurs_at};

verus! {

/// A parameter bound to a `?` of a query.
#[derive(Debug, Clone)]
pub enum SqlParam {
    Text(String),
    Int(i64),
}

pub open spec fn param_view(p: SqlParam) -> (bool, Seq<char>, i64) {
    match p {
        SqlParam::Text(s) => (true, s@, 0),
        SqlParam::Int(i) => (false, Seq::empty(), i),
    }
}

pub open spec fn text_param(s: Seq<char>) -> (bool, Seq<char>, i64) {
    (true, s, 0)
}

pub open spec fn opt_text(o: Option<&str>) -> Option<Seq<char>> {
    match o {
        Some(s) => Some(s@),
        None => None,
    }
}

/// The session search: every session, newest first, narrowed to those
/// started at or after `date_from`, at or before `date_to`, and in
/// `meeting_app`, for each filter that is given; one parameter per filter,
/// in that order.
pub open spec fn session_search_sql(date_from: Option<Seq<char>>, date_to: Option<Seq<char>>, meeting_app: Option<Seq<char>>) -> Seq<char> {
    "SELECT id, started_at, ended_at, duration_seconds, title, meeting_app, state FROM sessions WHERE 1=1"@
        + (if date_from is Some { " AND started_at >= ?"@ } else { Seq::empty() }) + (
    if date_to is Some {
        " AND started_at <= ?"@
    } else {
        Seq::empty()
    }) + (if meeting_app is Some { " AND meeting_app = ?"@ } else { Seq::empty() })
        + " ORDER BY started_at DESC"@
}

/// No character of `s` is `c`.
pub open spec fn lacks(s: Seq<char>, c: char) -> bool {
    forall|i: int| 0 <= i < s.len() ==> s[i] != c
}

proof fn lemma_lacks_concat(a: Seq<char>, b: Seq<char>, c: char)
    requires
        lacks(a, c),
        lacks(b, c),
    ensures
        lacks(a + b, c),
{
    assert forall|i: int| 0 <= i < (a + b).len() implies (a + b)[i] != c by {
        if i >= a.len() {
            assert((a + b)[i] == b[i - a.len()]);
        }
    }
}

/// Each filter narrows the search the way its name says: a start date
/// keeps the sessions started at or after it (`started_at >= ?`), an end
/// date those started at or before it (`started_at <= ?`), an app those
/// of that app (`meeting_app = ?`); without a start date no clause
/// compares with `>`, and without an end date none compares with `<`.
pub proof fn lemma_session_search_filters(
    date_from: Option<Seq<char>>,
    date_to: Option<Seq<char>>,
    meeting_app: Option<Seq<char>>,
)
    ensures
        date_from is Some ==> contains(
            session_search_sql(date_from, date_to, meeting_app),
            " AND started_at >= ?"@,
        ),
        date_to is Some ==> contains(
            session_search_sql(date_from, date_to, meeting_app),
            " AND started_at <= ?"@,
        ),
        meeting_app is Some ==> contains(
            session_search_sql(date_from, date_to, meeting_app),
            " AND meeting_app = ?"@,
        ),
        date_from is None ==> lacks(session_search_sql(date_from, date_to, meeting_app), '>'),
        date_to is None ==> lacks(session_search_sql(date_from, date_to, meeting_app), '<'),
{
    let base = "SELECT id, started_at, ended_at, duration_seconds, title, meeting_app, state FROM sessions WHERE 1=1"@;
    let fp = if date_from is Some { " AND started_at >= ?"@ } else { Seq::empty() };
    let tp = if date_to is Some { " AND started_at <= ?"@ } else { Seq::empty() };
    let ap = if meeting_app is Some { " AND meeting_app = ?"@ } else { Seq::empty() };
    let tail = " ORDER BY started_at DESC"@;
    let sql = session_search_sql(date_from, date_to, meeting_app);
    assert(sql == base + fp + tp + ap + tail);
    if date_from is Some {
        assert(sql.subrange(base.len() as int, (base.len() + fp.len()) as int) =~= fp);
        assert(occurs_at(sql, fp, base.len() as int));
    }
    if date_to is Some {
        let at: int = (base.len() + fp.len()) as int;
        assert(sql.subrange(at, at + tp.len()) =~= tp);
        assert(occurs_at(sql, tp, at));
    }
    if meeting_app is Some {
        let at: int = (base.len() + fp.len() + tp.len()) as int;
        assert(sql.subrange(at, at + ap.len()) =~= ap);
        assert(occurs_at(sql, ap, at));
    }
    reveal_strlit("SELECT id, started_at, ended_at, duration_seconds, title, meeting_app, state FROM sessions WHERE 1=1");
    reveal_strlit(" AND started_at >= ?");
    reveal_strlit(" AND started_at <= ?");
    reveal_strlit(" AND meeting_app = ?");
    reveal_strlit(" ORDER BY started_at DESC");
    assert(lacks(base, '>') && lacks(base, '<'));
    assert(lacks(tail, '>') && lacks(tail, '<'));
    assert(lacks(ap, '>') && lacks(ap, '<'));
    assert(lacks(tp, '>'));
    assert(lacks(fp, '<'));
    if date_from is None {
        assert(lacks(fp, '>'));
        lemma_lacks_concat(base, fp, '>');
        lemma_lacks_concat(base + fp, tp, '>');
        lemma_lacks_concat(base + fp + tp, ap, '>');
        lemma_lacks_concat(base + fp + tp + ap, tail, '>');
    }
    if date_to is None {
        assert(lacks(tp, '<'));
        lemma_lacks_concat(base, fp, '<');
        lemma_lacks_concat(base + fp, tp, '<');
        lemma_lacks_concat(base + fp + tp, ap, '<');
        lemma_lacks_concat(base + fp + tp + ap, tail, '<');
    }
}

pub open spec fn opt_param(o: Option<Seq<char>>) -> Seq<(bool, Seq<char>, i64)> {
    match o {
        Some(s) => seq![text_param(s)],
        None => Seq::empty(),
    }
}

pub open spec fn session_search_params(date_from: Option<Seq<char>>, date_to: Option<Seq<char>>, meeting_app: Option<Seq<char>>) -> Seq<(bool, Seq<char>, i64)> {
    opt_param(date_from) + opt_param(date_to) + opt_param(meeting_app)
}

/// The SQL text and parameters of the filtered session search.
pub fn search_sessions_filtered(date_from: Option<&str>, date_to: Option<&str>, meeting_app: Option<&str>) -> (r: (String, Vec<SqlParam>))
    ensures
        r.0@ == session_search_sql(opt_text(date_from), opt_text(date_to), opt_text(meeting_app)),
        r.1@.map_values(|p: SqlParam| param_view(p)) == session_search_params(
            opt_text(date_from),
            opt_text(date_to),
            opt_text(meeting_app),
        ),
{
    let mut sql = "SELECT id, started_at, ended_at, duration_seconds, title, meeting_app, state FROM sessions WHERE 1=1".to_owned();
    let mut params: Vec<SqlParam> = Vec::new();
    let ghost pv = |p: SqlParam| param_view(p);
    let ghost s0 = sql@;
    if let Some(from) = date_from {
        sql.append(" AND started_at >= ?");
        params.push(SqlParam::Text(from.to_owned()));
    }
    let ghost s1 = sql@;
    let ghost p1 = params@.map_values(pv);
    assert(p1 =~= opt_param(opt_text(date_from)));
    if let Some(to) = date_to {
        sql.append(" AND started_at <= ?");
        params.push(SqlParam::Text(to.to_owned()));
    }
    let ghost p2 = params@.map_values(pv);
    assert(p2 =~= p1 + opt_param(opt_text(date_to)));
    if let Some(app) = meeting_app {
        sql.append(" AND meeting_app = ?");
        params.push(SqlParam::Text(app.to_owned()));
    }
    assert(params@.map_values(pv) =~= p2 + opt_param(opt_text(meeting_app)));
    sql.append(" ORDER BY started_at DESC");
    assert(sql@ =~= session_search_sql(opt_text(date_from), opt_text(date_to), opt_text(meeting_app)));
    (sql, params)
}

/// The chat history query: the last `limit` messages of a session's chat
/// (or of the chat outside any session), newest first; the caller puts
/// them back in order.
pub open spec fn chat_history_sql(session_id: Option<Seq<char>>) -> Seq<char> {
    match session_id {
        Some(_) => "SELECT role, content, citations, created_at FROM chat_messages WHERE session_id = ?1 ORDER BY id DESC LIMIT ?2"@,
        None => "SELECT role, content, citations, created_at FROM chat_messages WHERE session_id IS NULL ORDER BY id DESC LIMIT ?1"@,
    }
}

/// `usize as i64`: values past `i64::MAX` wrap.
pub open spec fn limit_param(limit: nat) -> i64 {
    if limit <= i64::MAX {
        limit as i64
    } else {
        (limit - 0x1_0000_0000_0000_0000) as i64
    }
}

pub open spec fn chat_history_params(session_id: Option<Seq<char>>, limit: nat) -> Seq<(bool, Seq<char>, i64)> {
    match session_id {
        Some(s) => seq![text_param(s), (false, Seq::empty(), limit_param(limit))],
        None => seq![(false, Seq::empty(), limit_param(limit))],
    }
}

fn limit_as_i64(limit: usize) -> (r: i64)
    ensures
        r == limit_param(limit as nat),
{
    if (limit as u64) <= (i64::MAX as u64) {
        limit as i64
    } else {
        let over: u64 = (limit as u64) - (i64::MAX as u64) - 1;
        i64::MIN + (over as i64)
    }
}

/// The SQL text and parameters of the chat history query.
pub fn chat_history_query(session_id: Option<&str>, limit: usize) -> (r: (&'static str, Vec<SqlParam>))
    ensures
        r.0@ == chat_history_sql(opt_text(session_id)),
        r.1@.map_values(|p: SqlParam| param_view(p)) == chat_history_params(opt_text(session_id), limit as nat),
{
    let l = limit_as_i64(limit);
    let mut params: Vec<SqlParam> = Vec::new();
    match session_id {
        Some(sid) => {
            params.push(SqlParam::Text(sid.to_owned()));
            params.push(SqlParam::Int(l));
            assert(params@.map_values(|p: SqlParam| param_view(p)) =~= chat_history_params(
                opt_text(session_id),
                limit as nat,
            ));
            ("SELECT role, content, citations, created_at FROM chat_messages WHERE session_id = ?1 ORDER BY id DESC LIMIT ?2", params)
        },
        None => {
            params.push(SqlParam::Int(l));
            assert(params@.map_values(|p: SqlParam| param_view(p)) =~= chat_history_params(
                opt_text(session_id),
                limit as nat,
            ));
            ("SELECT role, content, citations, created_at FROM chat_messages WHERE session_id IS NULL ORDER BY id DESC LIMIT ?1", params)
        },
    }
}

} // verus!
