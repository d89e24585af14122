//! Session states and their names.

use vstd::prelude::*;

use chrono::{Datelike, Timelike};

use crate::text::{decimal, push_char, push_decimal};

verus! {

/// Session states: Idle, then Recording and Paused in turn, then Stopped.
#[derive(Debug, Clone, Copy, PartialEq, Eq, Structural)]
pub enum SessionState {
    Idle,
    Recording,
    Paused,
    Stopped,
}

pub open spec fn state_code(s: SessionState) -> u8 {
    match s {
        SessionState::Idle => 0,
        SessionState::Recording => 1,
        SessionState::Paused => 2,
        SessionState::Stopped => 3,
    }
}

pub open spec fn state_name(s: SessionState) -> Seq<char> {
    match s {
        SessionState::Idle => "idle"@,
        SessionState::Recording => "recording"@,
        SessionState::Paused => "paused"@,
        SessionState::Stopped => "stopped"@,
    }
}

impl SessionState {
    /// The state stored as `v`; unknown values read as `Idle`.
    pub fn from_u8(v: u8) -> (r: Self)
        ensures
            v <= 3 ==> state_code(r) == v,
            v > 3 ==> r == SessionState::Idle,
    {
        match v {
            0 => SessionState::Idle,
            1 => SessionState::Recording,
            2 => SessionState::Paused,
            3 => SessionState::Stopped,
            _ => SessionState::Idle,
        }
    }

    /// The number the state is stored as.
    pub fn as_u8(&self) -> (r: u8)
        ensures
            r == state_code(*self),
    {
        match self {
            SessionState::Idle => 0,
            SessionState::Recording => 1,
            SessionState::Paused => 2,
            SessionState::Stopped => 3,
        }
    }

    /// Lower-case name of the state.
    pub fn as_str(&self) -> (r: &'static str)
        ensures
            r@ == state_name(*self),
    {
        match self {
            SessionState::Idle => "idle",
            SessionState::Recording => "recording",
            SessionState::Paused => "paused",
            SessionState::Stopped => "stopped",
        }
    }

    /// The name of the state as an owned string (what `Display` prints).
    pub fn to_string(&self) -> (r: String)
        ensures
            r@ == state_name(*self),
    {
        self.as_str().to_owned()
    }

    /// A session is active while recording or paused.
    pub fn is_active(&self) -> (r: bool)
        ensures
            r == (*self == SessionState::Recording || *self == SessionState::Paused),
    {
        match self {
            SessionState::Recording | SessionState::Paused => true,
            _ => false,
        }
    }
}

/// Storing a state as its number and reading it back gives the same state.
pub proof fn lemma_state_code_roundtrip(s: SessionState, v: u8)
    requires
        v == state_code(s),
    ensures
        v <= 3,
        forall|r: SessionState| (v <= 3 ==> state_code(r) == v) ==> r == s,
{
}

/// Distinct states have distinct names.
pub proof fn lemma_state_names_distinct(a: SessionState, b: SessionState)
    requires
        a != b,
    ensures
        state_name(a) != state_name(b),
{
    reveal_strlit("idle");
    reveal_strlit("recording");
    reveal_strlit("paused");
    reveal_strlit("stopped");
    assert("idle"@.len() == 4);
    assert("paused"@[0] != "recording"@[0]);
    assert("stopped"@[0] != "recording"@[0]);
    assert("stopped"@.len() != "paused"@.len());
}

/// A recording session: its id, its directory, and its state.
#[derive(Debug, Clone)]
pub struct Session {
    pub id: String,
    pub session_dir: String,
    pub state: SessionState,
}

impl Session {
    /// The current state.
    pub open spec fn current(&self) -> SessionState {
        self.state
    }

    /// A new, idle session whose files go in `sessions_dir/id`.
    pub fn new(id: String, sessions_dir: &str) -> (r: Self)
        ensures
            r.id@ == id@,
            r.session_dir@ == crate::config::path_join(sessions_dir@, id@),
            r.current() == SessionState::Idle,
    {
        let session_dir = crate::config::join_path(sessions_dir, id.as_str());
        Session { id, session_dir, state: SessionState::Idle }
    }

    pub fn state(&self) -> (r: SessionState)
        ensures
            r == self.current(),
    {
        self.state
    }

    pub fn set_state(&mut self, state: SessionState)
        ensures
            final(self).current() == state,
            final(self).id == old(self).id,
            final(self).session_dir == old(self).session_dir,
    {
        self.state = state;
    }

    /// A session is active while recording or paused.
    pub fn is_active(&self) -> (r: bool)
        ensures
            r == (self.current() == SessionState::Recording || self.current() == SessionState::Paused),
    {
        self.state.is_active()
    }
}

/// A calendar time, as the clock gives it.
pub struct ClockTime {
    pub year: i32,
    pub month: u32,
    pub day: u32,
    pub hour: u32,
    pub minute: u32,
    pub second: u32,
}

/// The current UTC time (`chrono::Utc::now()`), field by field. It depends
/// on the clock; only the ranges of the fields, which chrono documents, are
/// stated.
#[verifier::external_body]
fn utc_now() -> (r: ClockTime)
    ensures
        1 <= r.month <= 12,
        1 <= r.day <= 31,
        r.hour <= 23,
        r.minute <= 59,
        r.second <= 59,
{
    let now = chrono::Utc::now();
    ClockTime {
        year: now.year(),
        month: now.month(),
        day: now.day(),
        hour: now.hour(),
        minute: now.minute(),
        second: now.second(),
    }
}

/// `n` zero-padded to at least `width` digits.
pub open spec fn padded(n: nat, width: nat) -> Seq<char>
    decreases width,
{
    if decimal(n).len() >= width {
        decimal(n)
    } else if width == 0 {
        decimal(n)
    } else {
        seq!['0'] + padded(n, (width - 1) as nat)
    }
}

/// chrono's `%Y`: years 0 to 9999 as four digits, other years with their
/// sign and at least four digits.
pub open spec fn year_text(y: int) -> Seq<char> {
    if 0 <= y <= 9999 {
        padded(y as nat, 4)
    } else if y > 9999 {
        seq!['+'] + padded(y as nat, 4)
    } else {
        seq!['-'] + padded((-y) as nat, 4)
    }
}

/// `YYYYMMDD_HHMMSS` for a clock time.
pub open spec fn session_id_of(t: ClockTime) -> Seq<char> {
    year_text(t.year as int) + padded(t.month as nat, 2) + padded(t.day as nat, 2) + "_"@ + padded(
        t.hour as nat,
        2,
    ) + padded(t.minute as nat, 2) + padded(t.second as nat, 2)
}

proof fn lemma_decimal_len(n: nat)
    ensures
        decimal(n).len() >= 1,
        n < 10 ==> decimal(n).len() == 1,
        10 <= n < 100 ==> decimal(n).len() == 2,
        100 <= n < 1000 ==> decimal(n).len() == 3,
        1000 <= n < 10000 ==> decimal(n).len() == 4,
        n >= 10 ==> decimal(n).len() == decimal(n / 10).len() + 1,
    decreases n,
{
    if n >= 10 {
        lemma_decimal_len(n / 10);
    }
}

fn push_padded(out: &mut String, n: u64, width: u64)
    requires
        width <= 4,
    ensures
        final(out)@ == old(out)@ + padded(n as nat, width as nat),
    decreases width,
{
    let digits: u64 = if n < 10 {
        1
    } else if n < 100 {
        2
    } else if n < 1000 {
        3
    } else if n < 10000 {
        4
    } else {
        5
    };
    proof {
        lemma_decimal_len(n as nat);
        if n >= 10 {
            lemma_decimal_len((n / 10) as nat);
            if n >= 100 {
                lemma_decimal_len((n / 100) as nat);
                assert((n as nat) / 10 / 10 == (n as nat) / 100);
                if n >= 1000 {
                    lemma_decimal_len((n / 1000) as nat);
                    assert((n as nat) / 100 / 10 == (n as nat) / 1000);
                }
            }
        }
        assert(n >= 10000 ==> decimal(n as nat).len() >= 5) by {
            if n >= 10000 {
                lemma_decimal_len((n / 10000) as nat);
                lemma_decimal_len((n / 1000) as nat);
                assert((n as nat) / 1000 / 10 == (n as nat) / 10000);
                lemma_decimal_len((n / 100) as nat);
                lemma_decimal_len((n / 10) as nat);
                assert((n as nat) / 10 / 10 == (n as nat) / 100);
                assert((n as nat) / 100 / 10 == (n as nat) / 1000);
            }
        }
        assert(digits <= 4 ==> decimal(n as nat).len() == digits);
    }
    if digits >= width || width == 0 {
        push_decimal(out, n);
    } else {
        push_char(out, '0');
        let ghost mid = out@;
        push_padded(out, n, width - 1);
        assert(final(out)@ =~= old(out)@ + padded(n as nat, width as nat));
    }
}

/// A session id from the current time: `YYYYMMDD_HHMMSS` in UTC.
pub fn generate_session_id() -> (r: String)
    ensures
        exists|t: ClockTime|
            1 <= t.month <= 12 && 1 <= t.day <= 31 && t.hour <= 23 && t.minute <= 59 && t.second
                <= 59 && r@ == session_id_of(t),
{
    let t = utc_now();
    session_id(&t)
}

/// `YYYYMMDD_HHMMSS` for a clock time.
pub fn session_id(t: &ClockTime) -> (r: String)
    ensures
        r@ == session_id_of(*t),
{
    let mut r = String::new();
    let y = t.year;
    if y < 0 {
        push_char(&mut r, '-');
        let a: u64 = (-(y as i64)) as u64;
        push_padded(&mut r, a, 4);
    } else if y > 9999 {
        push_char(&mut r, '+');
        push_padded(&mut r, y as u64, 4);
    } else {
        push_padded(&mut r, y as u64, 4);
    }
    push_padded(&mut r, t.month as u64, 2);
    push_padded(&mut r, t.day as u64, 2);
    r.append("_");
    push_padded(&mut r, t.hour as u64, 2);
    push_padded(&mut r, t.minute as u64, 2);
    push_padded(&mut r, t.second as u64, 2);
    assert(r@ =~= session_id_of(*t));
    r
}

/// For any year from 1000 to 9999, a session id is 15 characters long with
/// `_` at position 8.
pub proof fn lemma_session_id_shape(t: ClockTime)
    requires
        1000 <= t.year <= 9999,
        1 <= t.month <= 12,
        1 <= t.day <= 31,
        t.hour <= 23,
        t.minute <= 59,
        t.second <= 59,
    ensures
        session_id_of(t).len() == 15,
        session_id_of(t)[8] == '_',
{
    lemma_decimal_len(t.year as nat);
    lemma_decimal_len(t.month as nat);
    lemma_decimal_len(t.day as nat);
    lemma_decimal_len(t.hour as nat);
    lemma_decimal_len(t.minute as nat);
    lemma_decimal_len(t.second as nat);
    lemma_padded_len(t.year as nat, 4);
    lemma_padded_len(t.month as nat, 2);
    lemma_padded_len(t.day as nat, 2);
    lemma_padded_len(t.hour as nat, 2);
    lemma_padded_len(t.minute as nat, 2);
    lemma_padded_len(t.second as nat, 2);
    reveal_strlit("_");
}

proof fn lemma_padded_len(n: nat, width: nat)
    ensures
        decimal(n).len() <= width ==> padded(n, width).len() == width,
    decreases width,
{
    if width > 0 && decimal(n).len() < width {
        lemma_padded_len(n, (width - 1) as nat);
    }
}

} // verus!
