//! The in-memory log: the last lines logged, for display in the app.

use vstd::prelude::*;

use crate::text::{lemma_views_push, views};

verus! {

/// Most lines the log keeps.
pub const MAX_LOG_LINES: usize = 200;

/// The last [`MAX_LOG_LINES`] log lines, oldest first.
#[derive(Debug, Clone)]
pub struct RingBufferLayer {
    lines: Vec<String>,
}

/// What the log holds after `line` is added to `lines`: the oldest line is
/// dropped when the log is full.
pub open spec fn pushed(lines: Seq<Seq<char>>, line: Seq<char>) -> Seq<Seq<char>> {
    if lines.len() >= MAX_LOG_LINES {
        lines.drop_first().push(line)
    } else {
        lines.push(line)
    }
}

impl View for RingBufferLayer {
    type V = Seq<Seq<char>>;

    closed spec fn view(&self) -> Seq<Seq<char>> {
        views(self.lines@)
    }
}

impl RingBufferLayer {
    /// The log holds at most [`MAX_LOG_LINES`] lines.
    pub closed spec fn wf(&self) -> bool {
        self.lines@.len() <= MAX_LOG_LINES
    }

    /// An empty log.
    pub fn new() -> (r: Self)
        ensures
            r.wf(),
            r@ == Seq::<Seq<char>>::empty(),
    {
        let r = RingBufferLayer { lines: Vec::new() };
        assert(r@ =~= Seq::<Seq<char>>::empty());
        r
    }

    /// Adds a line, dropping the oldest when the log is full.
    pub fn push_line(&mut self, line: String)
        requires
            old(self).wf(),
        ensures
            final(self).wf(),
            final(self)@ == pushed(old(self)@, line@),
    {
        let ghost before = views(self.lines@);
        if self.lines.len() >= MAX_LOG_LINES {
            self.lines.remove(0);
            assert(views(self.lines@) =~= before.drop_first());
        }
        let ghost mid = views(self.lines@);
        proof {
            lemma_views_push(self.lines@, line);
        }
        self.lines.push(line);
        assert(views(self.lines@) == mid.push(line@));
    }

    /// The lines the log holds, oldest first.
    pub fn recent_logs(&self) -> (r: Vec<String>)
        ensures
            views(r@) == self@,
            self.wf() ==> r@.len() <= MAX_LOG_LINES,
    {
        let r = crate::text::clone_strings(&self.lines);
        assert(views(r@).len() == r@.len() && views(self.lines@).len() == self.lines@.len());
        r
    }

    /// Removes every line.
    pub fn clear_logs(&mut self)
        ensures
            final(self).wf(),
            final(self)@ == Seq::<Seq<char>>::empty(),
    {
        self.lines.clear();
        assert(views(self.lines@) =~= Seq::<Seq<char>>::empty());
    }
}

impl Default for RingBufferLayer {
    fn default() -> (r: Self)
        ensures
            r.wf(),
            r@ == Seq::<Seq<char>>::empty(),
    {
        RingBufferLayer::new()
    }
}

/// A log line: `[time] LEVEL message`.
pub open spec fn log_line_of(time: Seq<char>, level: Seq<char>, message: Seq<char>) -> Seq<char> {
    "["@ + time + "] "@ + level + " "@ + message
}

pub fn log_line(time: &str, level: &str, message: &str) -> (r: String)
    ensures
        r@ == log_line_of(time@, level@, message@),
{
    let mut r = "[".to_owned();
    r.append(time);
    r.append("] ");
    r.append(level);
    r.append(" ");
    r.append(message);
    r
}

/// The message of an event after one more field is recorded: the
/// `message` field's value is appended as is; any other field is appended
/// as `name=value`, after a space when the message is not empty.
pub open spec fn with_field(message: Seq<char>, name: Seq<char>, value: Seq<char>) -> Seq<char> {
    if name == "message"@ {
        message + value
    } else if message.len() > 0 {
        message + " "@ + name + "="@ + value
    } else {
        message + name + "="@ + value
    }
}

/// Records one field of a log event into its message.
pub fn record_field(message: &mut String, name: &str, value: &str)
    ensures
        final(message)@ == with_field(old(message)@, name@, value@),
{
    if crate::text::str_eq(name, "message") {
        message.append(value);
    } else {
        if !message.as_str().is_empty() {
            message.append(" ");
        }
        message.append(name);
        message.append("=");
        message.append(value);
    }
}

/// A well-formed log holds at most [`MAX_LOG_LINES`] lines, whatever
/// calls built it.
pub proof fn lemma_wf_log_is_bounded(log: RingBufferLayer)
    requires
        log.wf(),
    ensures
        log@.len() <= MAX_LOG_LINES,
{
}

/// However many lines are added, the log never holds more than
/// [`MAX_LOG_LINES`], and the line added last is its last line.
pub proof fn lemma_log_is_bounded(lines: Seq<Seq<char>>, line: Seq<char>)
    requires
        lines.len() <= MAX_LOG_LINES,
    ensures
        pushed(lines, line).len() <= MAX_LOG_LINES,
        pushed(lines, line).last() == line,
        lines.len() < MAX_LOG_LINES ==> pushed(lines, line).len() == lines.len() + 1,
{
}

} // verus!
