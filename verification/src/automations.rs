//! Automations: trigger, conditions and actions rules, and the store that
//! holds them by id.

use vstd::prelude::*;
use vstd::std_specs::cmp::PartialEqSpecImpl;

use crate::text::str_eq;

verus! {

/// What starts an automation.
#[derive(Debug, Clone)]
pub enum AutomationTrigger {
    /// Any meeting app detected.
    MeetingDetected,
    /// A given meeting app detected (e.g. "Zoom").
    MeetingAppDetected { app_name: String },
    /// A given meeting app ended.
    MeetingAppEnded { app_name: String },
    /// Microphone and system audio have both been silent for a while.
    AudioSilent,
    SessionStarted,
    SessionEnded,
    CalendarEventStarting,
    TimeOfDay { hour: u8, minute: u8 },
    AppForegrounded { app_name: String },
}

/// Two triggers are the same: same variant, same app names (by text) and
/// same time of day.
pub open spec fn same_trigger(a: AutomationTrigger, b: AutomationTrigger) -> bool {
    match (a, b) {
        (AutomationTrigger::MeetingDetected, AutomationTrigger::MeetingDetected) => true,
        (
            AutomationTrigger::MeetingAppDetected { app_name: x },
            AutomationTrigger::MeetingAppDetected { app_name: y },
        ) => x@ == y@,
        (
            AutomationTrigger::MeetingAppEnded { app_name: x },
            AutomationTrigger::MeetingAppEnded { app_name: y },
        ) => x@ == y@,
        (AutomationTrigger::AudioSilent, AutomationTrigger::AudioSilent) => true,
        (AutomationTrigger::SessionStarted, AutomationTrigger::SessionStarted) => true,
        (AutomationTrigger::SessionEnded, AutomationTrigger::SessionEnded) => true,
        (AutomationTrigger::CalendarEventStarting, AutomationTrigger::CalendarEventStarting) => true,
        (
            AutomationTrigger::TimeOfDay { hour: h1, minute: m1 },
            AutomationTrigger::TimeOfDay { hour: h2, minute: m2 },
        ) => h1 == h2 && m1 == m2,
        (
            AutomationTrigger::AppForegrounded { app_name: x },
            AutomationTrigger::AppForegrounded { app_name: y },
        ) => x@ == y@,
        _ => false,
    }
}

impl PartialEq for AutomationTrigger {
    fn eq(&self, other: &Self) -> (r: bool) {
        match (self, other) {
            (AutomationTrigger::MeetingDetected, AutomationTrigger::MeetingDetected) => true,
            (
                AutomationTrigger::MeetingAppDetected { app_name: x },
                AutomationTrigger::MeetingAppDetected { app_name: y },
            ) => str_eq(x.as_str(), y.as_str()),
            (
                AutomationTrigger::MeetingAppEnded { app_name: x },
                AutomationTrigger::MeetingAppEnded { app_name: y },
            ) => str_eq(x.as_str(), y.as_str()),
            (AutomationTrigger::AudioSilent, AutomationTrigger::AudioSilent) => true,
            (AutomationTrigger::SessionStarted, AutomationTrigger::SessionStarted) => true,
            (AutomationTrigger::SessionEnded, AutomationTrigger::SessionEnded) => true,
            (
                AutomationTrigger::CalendarEventStarting,
                AutomationTrigger::CalendarEventStarting,
            ) => true,
            (
                AutomationTrigger::TimeOfDay { hour: h1, minute: m1 },
                AutomationTrigger::TimeOfDay { hour: h2, minute: m2 },
            ) => *h1 == *h2 && *m1 == *m2,
            (
                AutomationTrigger::AppForegrounded { app_name: x },
                AutomationTrigger::AppForegrounded { app_name: y },
            ) => str_eq(x.as_str(), y.as_str()),
            _ => false,
        }
    }
}

impl PartialEqSpecImpl for AutomationTrigger {
    open spec fn obeys_eq_spec() -> bool {
        true
    }

    open spec fn eq_spec(&self, other: &AutomationTrigger) -> bool {
        same_trigger(*self, *other)
    }
}

/// Condition checked before the actions run.
#[derive(Debug, Clone)]
pub enum AutomationCondition {
    AppRunning { app_name: String },
    DayOfWeek { days: Vec<String> },
    NoActiveSession,
    ActiveSession,
}

/// What an automation does when it fires.
#[derive(Debug, Clone)]
pub enum AutomationAction {
    ActivateProfile { profile_id: String },
    ActivatePreset { preset_id: String },
    StartRecording,
    StopRecording,
    ShowNotification { message: String },
    RunExport { format: String },
}

/// A complete automation rule.
#[derive(Debug, Clone)]
pub struct Automation {
    pub id: String,
    pub name: String,
    pub enabled: bool,
    pub trigger: AutomationTrigger,
    pub conditions: Vec<AutomationCondition>,
    pub actions: Vec<AutomationAction>,
    pub last_run: Option<String>,
    pub run_count: u32,
}

pub open spec fn builtin_ids() -> Seq<Seq<char>> {
    seq![
        "auto-meeting-record"@,
        "zoom-auto-start"@,
        "zoom-auto-stop"@,
        "silence-auto-stop"@,
        "auto-export-on-stop"@,
    ]
}

pub open spec fn builtin_enabled() -> Seq<bool> {
    seq![false, false, true, true, false]
}

/// Positions, among the first `k` builtins, of those whose id `s` lacks,
/// in builtin order.
pub open spec fn missing_builtins(s: Seq<Automation>, k: int) -> Seq<int>
    decreases k,
{
    if k <= 0 {
        Seq::empty()
    } else if index_of(s, builtin_ids()[k - 1]) is None {
        missing_builtins(s, k - 1).push(k - 1)
    } else {
        missing_builtins(s, k - 1)
    }
}

proof fn lemma_missing_builtins_bounds(s: Seq<Automation>, k: int)
    ensures
        forall|j: int|
            0 <= j < missing_builtins(s, k).len() ==> 0 <= #[trigger] missing_builtins(s, k)[j] < k,
        missing_builtins(s, k).len() <= if k < 0 { 0 } else { k },
    decreases k,
{
    if k > 0 {
        lemma_missing_builtins_bounds(s, k - 1);
    }
}

proof fn lemma_builtin_ids_distinct()
    ensures
        forall|i: int, j: int|
            0 <= i < 5 && 0 <= j < 5 && i != j ==> builtin_ids()[i] != builtin_ids()[j],
{
    reveal_strlit("auto-meeting-record");
    reveal_strlit("zoom-auto-start");
    reveal_strlit("zoom-auto-stop");
    reveal_strlit("silence-auto-stop");
    reveal_strlit("auto-export-on-stop");
    let ids = builtin_ids();
    assert(ids[0].len() == 19 && ids[1].len() == 15 && ids[2].len() == 14 && ids[3].len() == 17
        && ids[4].len() == 19);
    assert(ids[0][5] != ids[4][5]);
}

/// The rule shipped with the app at position `i` of [`builtin_automations`].
pub open spec fn is_builtin(a: Automation, i: int) -> bool {
    &&& a.id@ == builtin_ids()[i]
    &&& a.enabled == builtin_enabled()[i]
    &&& a.last_run is None
    &&& a.run_count == 0
    &&& if i == 0 {
            &&& a.name@ == "Record on meeting detection"@
            &&& a.trigger is MeetingDetected
            &&& a.conditions@.len() == 1 && a.conditions@[0] is NoActiveSession
            &&& a.actions@.len() == 2
            &&& a.actions@[0] matches AutomationAction::ActivateProfile { profile_id }
                && profile_id@ == "meeting"@
            &&& a.actions@[1] is StartRecording
        } else if i == 1 {
            &&& a.name@ == "Start recording when Zoom meeting starts"@
            &&& a.trigger matches AutomationTrigger::MeetingAppDetected { app_name }
                && app_name@ == "Zoom"@
            &&& a.conditions@.len() == 1 && a.conditions@[0] is NoActiveSession
            &&& a.actions@.len() == 2
            &&& a.actions@[0] matches AutomationAction::ActivateProfile { profile_id }
                && profile_id@ == "meeting"@
            &&& a.actions@[1] is StartRecording
        } else if i == 2 {
            &&& a.name@ == "Stop recording when Zoom meeting ends"@
            &&& a.trigger matches AutomationTrigger::MeetingAppEnded { app_name } && app_name@
                == "Zoom"@
            &&& a.conditions@.len() == 1 && a.conditions@[0] is ActiveSession
            &&& a.actions@.len() == 1 && a.actions@[0] is StopRecording
        } else if i == 3 {
            &&& a.name@ == "Stop recording when mic and system audio go silent"@
            &&& a.trigger is AudioSilent
            &&& a.conditions@.len() == 1 && a.conditions@[0] is ActiveSession
            &&& a.actions@.len() == 1 && a.actions@[0] is StopRecording
        } else {
            &&& a.name@ == "Export transcript on session end"@
            &&& a.trigger is SessionEnded
            &&& a.conditions@.len() == 0
            &&& a.actions@.len() == 1
            &&& a.actions@[0] matches AutomationAction::RunExport { format } && format@
                == "markdown"@
        }
}

fn record_with_profile(id: &str, name: &str, trigger: AutomationTrigger) -> (a: Automation)
    ensures
        a.id@ == id@,
        a.name@ == name@,
        !a.enabled,
        a.trigger == trigger,
        a.conditions@.len() == 1 && a.conditions@[0] is NoActiveSession,
        a.actions@.len() == 2,
        a.actions@[0] matches AutomationAction::ActivateProfile { profile_id } && profile_id@
            == "meeting"@,
        a.actions@[1] is StartRecording,
        a.last_run is None,
        a.run_count == 0,
{
    let mut conditions = Vec::new();
    conditions.push(AutomationCondition::NoActiveSession);
    let mut actions = Vec::new();
    actions.push(AutomationAction::ActivateProfile { profile_id: "meeting".to_owned() });
    actions.push(AutomationAction::StartRecording);
    Automation {
        id: id.to_owned(),
        name: name.to_owned(),
        enabled: false,
        trigger,
        conditions,
        actions,
        last_run: None,
        run_count: 0,
    }
}

fn stop_on(id: &str, name: &str, trigger: AutomationTrigger) -> (a: Automation)
    ensures
        a.id@ == id@,
        a.name@ == name@,
        a.enabled,
        a.trigger == trigger,
        a.conditions@.len() == 1 && a.conditions@[0] is ActiveSession,
        a.actions@.len() == 1 && a.actions@[0] is StopRecording,
        a.last_run is None,
        a.run_count == 0,
{
    let mut conditions = Vec::new();
    conditions.push(AutomationCondition::ActiveSession);
    let mut actions = Vec::new();
    actions.push(AutomationAction::StopRecording);
    Automation {
        id: id.to_owned(),
        name: name.to_owned(),
        enabled: true,
        trigger,
        conditions,
        actions,
        last_run: None,
        run_count: 0,
    }
}

/// The automations that ship with the app.
pub fn builtin_automations() -> (r: Vec<Automation>)
    ensures
        r@.len() == 5,
        forall|i: int| 0 <= i < 5 ==> is_builtin(#[trigger] r@[i], i),
{
    let mut r = Vec::new();
    r.push(
        record_with_profile(
            "auto-meeting-record",
            "Record on meeting detection",
            AutomationTrigger::MeetingDetected,
        ),
    );
    r.push(
        record_with_profile(
            "zoom-auto-start",
            "Start recording when Zoom meeting starts",
            AutomationTrigger::MeetingAppDetected { app_name: "Zoom".to_owned() },
        ),
    );
    r.push(
        stop_on(
            "zoom-auto-stop",
            "Stop recording when Zoom meeting ends",
            AutomationTrigger::MeetingAppEnded { app_name: "Zoom".to_owned() },
        ),
    );
    r.push(
        stop_on(
            "silence-auto-stop",
            "Stop recording when mic and system audio go silent",
            AutomationTrigger::AudioSilent,
        ),
    );
    let mut actions = Vec::new();
    actions.push(AutomationAction::RunExport { format: "markdown".to_owned() });
    r.push(
        Automation {
            id: "auto-export-on-stop".to_owned(),
            name: "Export transcript on session end".to_owned(),
            enabled: false,
            trigger: AutomationTrigger::SessionEnded,
            conditions: Vec::new(),
            actions,
            last_run: None,
            run_count: 0,
        },
    );
    r
}

/// Bumped when a builtin's default `enabled` state changes, so that stores
/// get the new defaults applied once.
pub const CURRENT_DEFAULTS_VERSION: u32 = 1;

/// Automations by id.
#[derive(Debug, Clone)]
pub struct AutomationStore {
    pub automations: Vec<Automation>,
    /// Which round of default-enabled migrations has been applied.
    pub defaults_version: u32,
}

/// Index of the automation with id `id`.
pub open spec fn index_of(s: Seq<Automation>, id: Seq<char>) -> Option<int> {
    if exists|i: int| 0 <= i < s.len() && s[i].id@ == id {
        Some(choose|i: int| 0 <= i < s.len() && s[i].id@ == id)
    } else {
        None
    }
}

/// Enabled automations whose trigger is `t`.
pub open spec fn fires_on(t: AutomationTrigger) -> spec_fn(Automation) -> bool {
    |a: Automation| a.enabled && same_trigger(a.trigger, t)
}

/// Enabled automations for a detected meeting of `app`: the generic trigger
/// or the one naming `app`.
pub open spec fn fires_on_detected(app: Seq<char>) -> spec_fn(Automation) -> bool {
    |a: Automation|
        a.enabled && match a.trigger {
            AutomationTrigger::MeetingDetected => true,
            AutomationTrigger::MeetingAppDetected { app_name } => app_name@ == app,
            _ => false,
        }
}

/// Enabled automations for the end of a meeting of `app`.
pub open spec fn fires_on_ended(app: Seq<char>) -> spec_fn(Automation) -> bool {
    |a: Automation|
        a.enabled && match a.trigger {
            AutomationTrigger::MeetingAppEnded { app_name } => app_name@ == app,
            _ => false,
        }
}

pub open spec fn derefs(v: Seq<&Automation>) -> Seq<Automation> {
    v.map_values(|a: &Automation| *a)
}

impl AutomationStore {
    /// No two automations share an id.
    pub open spec fn wf(&self) -> bool {
        forall|i: int, j: int|
            0 <= i < j < self.automations@.len() ==> self.automations@[i].id@
                != self.automations@[j].id@
    }

    /// An empty store with no migration applied.
    pub fn new() -> (r: Self)
        ensures
            r.wf(),
            r.automations@.len() == 0,
            r.defaults_version == 0,
    {
        AutomationStore { automations: Vec::new(), defaults_version: 0 }
    }

    fn position(&self, id: &str) -> (r: Option<usize>)
        requires
            self.wf(),
        ensures
            r matches Some(i) ==> i < self.automations@.len() && self.automations@[i as int].id@
                == id@,
            r is None ==> index_of(self.automations@, id@) is None,
    {
        let mut i: usize = 0;
        while i < self.automations.len()
            invariant
                i <= self.automations@.len(),
                forall|k: int| 0 <= k < i ==> self.automations@[k].id@ != id@,
            decreases self.automations@.len() - i,
        {
            if str_eq(self.automations[i].id.as_str(), id) {
                return Some(i);
            }
            i += 1;
        }
        None
    }

    /// The automation with id `id`.
    pub fn get(&self, id: &str) -> (r: Option<&Automation>)
        requires
            self.wf(),
        ensures
            r matches Some(a) ==> a.id@ == id@ && self.automations@.contains(*a),
            r is None <==> index_of(self.automations@, id@) is None,
    {
        match self.position(id) {
            Some(i) => Some(&self.automations[i]),
            None => None,
        }
    }

    /// Add `a` unless an automation with its id is already there.
    pub fn insert_if_absent(&mut self, a: Automation)
        requires
            old(self).wf(),
        ensures
            final(self).wf(),
            final(self).defaults_version == old(self).defaults_version,
            index_of(old(self).automations@, a.id@) is Some ==> final(self).automations@
                == old(self).automations@,
            index_of(old(self).automations@, a.id@) is None ==> final(self).automations@
                == old(self).automations@.push(a),
    {
        let present = self.position(a.id.as_str());
        if present.is_none() {
            self.automations.push(a);
        } else {
            assert(index_of(self.automations@, a.id@) is Some);
        }
    }

    /// Enabled automations whose trigger equals `trigger`.
    pub fn find_by_trigger(&self, trigger: &AutomationTrigger) -> (r: Vec<&Automation>)
        ensures
            derefs(r@) == self.automations@.filter(fires_on(*trigger)),
    {
        let mut r: Vec<&Automation> = Vec::new();
        let mut i: usize = 0;
        while i < self.automations.len()
            invariant
                i <= self.automations@.len(),
                derefs(r@) == self.automations@.subrange(0, i as int).filter(fires_on(*trigger)),
            decreases self.automations@.len() - i,
        {
            let a = &self.automations[i];
            proof {
                assert(self.automations@.subrange(0, i + 1) =~= self.automations@.subrange(
                    0,
                    i as int,
                ).push(*a));
                self.automations@.subrange(0, i as int).lemma_filter_push(*a, fires_on(*trigger));
            }
            if a.enabled && a.trigger == *trigger {
                r.push(a);
            }
            assert(derefs(r@) =~= self.automations@.subrange(0, i + 1).filter(fires_on(*trigger)));
            i += 1;
        }
        assert(self.automations@.subrange(0, i as int) =~= self.automations@);
        r
    }

    /// Enabled automations for a detected meeting of `app_name`: the generic
    /// `MeetingDetected` ones and the `MeetingAppDetected` ones for that app.
    pub fn find_for_meeting_detected(&self, app_name: &str) -> (r: Vec<&Automation>)
        ensures
            derefs(r@) == self.automations@.filter(fires_on_detected(app_name@)),
    {
        let mut r: Vec<&Automation> = Vec::new();
        let mut i: usize = 0;
        while i < self.automations.len()
            invariant
                i <= self.automations@.len(),
                derefs(r@) == self.automations@.subrange(0, i as int).filter(
                    fires_on_detected(app_name@),
                ),
            decreases self.automations@.len() - i,
        {
            let a = &self.automations[i];
            proof {
                assert(self.automations@.subrange(0, i + 1) =~= self.automations@.subrange(
                    0,
                    i as int,
                ).push(*a));
                self.automations@.subrange(0, i as int).lemma_filter_push(
                    *a,
                    fires_on_detected(app_name@),
                );
            }
            let fires = a.enabled && match &a.trigger {
                AutomationTrigger::MeetingDetected => true,
                AutomationTrigger::MeetingAppDetected { app_name: n } => str_eq(n.as_str(), app_name),
                _ => false,
            };
            if fires {
                r.push(a);
            }
            assert(derefs(r@) =~= self.automations@.subrange(0, i + 1).filter(
                fires_on_detected(app_name@),
            ));
            i += 1;
        }
        assert(self.automations@.subrange(0, i as int) =~= self.automations@);
        r
    }

    /// Enabled automations for the end of a meeting of `app_name`.
    pub fn find_for_meeting_ended(&self, app_name: &str) -> (r: Vec<&Automation>)
        ensures
            derefs(r@) == self.automations@.filter(fires_on_ended(app_name@)),
    {
        let mut r: Vec<&Automation> = Vec::new();
        let mut i: usize = 0;
        while i < self.automations.len()
            invariant
                i <= self.automations@.len(),
                derefs(r@) == self.automations@.subrange(0, i as int).filter(
                    fires_on_ended(app_name@),
                ),
            decreases self.automations@.len() - i,
        {
            let a = &self.automations[i];
            proof {
                assert(self.automations@.subrange(0, i + 1) =~= self.automations@.subrange(
                    0,
                    i as int,
                ).push(*a));
                self.automations@.subrange(0, i as int).lemma_filter_push(
                    *a,
                    fires_on_ended(app_name@),
                );
            }
            let fires = a.enabled && match &a.trigger {
                AutomationTrigger::MeetingAppEnded { app_name: n } => str_eq(n.as_str(), app_name),
                _ => false,
            };
            if fires {
                r.push(a);
            }
            assert(derefs(r@) =~= self.automations@.subrange(0, i + 1).filter(
                fires_on_ended(app_name@),
            ));
            i += 1;
        }
        assert(self.automations@.subrange(0, i as int) =~= self.automations@);
        r
    }

    /// Enable or disable the automation `id`; false when there is none.
    pub fn set_enabled(&mut self, id: &str, enabled: bool) -> (r: bool)
        requires
            old(self).wf(),
        ensures
            final(self).wf(),
            final(self).defaults_version == old(self).defaults_version,
            r == index_of(old(self).automations@, id@) is Some,
            final(self).automations@ == with_enabled(old(self).automations@, id@, enabled),
    {
        let ghost s0 = self.automations@;
        match self.position(id) {
            Some(i) => {
                self.automations[i].enabled = enabled;
                proof {
                    assert forall|k: int| 0 <= k < s0.len() && k != i implies s0[k].id@ != id@ by {
                        if k < i {
                            assert(s0[k].id@ != s0[i as int].id@);
                        } else {
                            assert(s0[i as int].id@ != s0[k].id@);
                        }
                    }
                    assert(self.automations@ =~= with_enabled(s0, id@, enabled));
                }
                true
            },
            None => {
                proof {
                    assert forall|k: int| 0 <= k < s0.len() implies s0[k].id@ != id@ by {
                        if s0[k].id@ == id@ {
                            assert(exists|i: int| 0 <= i < s0.len() && s0[i].id@ == id@);
                        }
                    }
                    assert(self.automations@ =~= with_enabled(s0, id@, enabled));
                }
                false
            },
        }
    }

    /// Record that the automation `id` ran now: stamp the time and count the
    /// run. Nothing changes when there is no such automation.
    pub fn record_run(&mut self, id: &str)
        requires
            old(self).wf(),
            forall|i: int|
                0 <= i < old(self).automations@.len() && old(self).automations@[i].id@ == id@
                    ==> old(self).automations@[i].run_count < u32::MAX,
        ensures
            final(self).wf(),
            final(self).defaults_version == old(self).defaults_version,
            final(self).automations@.len() == old(self).automations@.len(),
            forall|i: int|
                0 <= i < old(self).automations@.len() ==> {
                    let (a, b) = (old(self).automations@[i], #[trigger] final(self).automations@[i]);
                    if a.id@ == id@ {
                        b.last_run matches Some(stamp) && is_utc_rfc3339(stamp@) && b.run_count == a.run_count + 1 && b.id == a.id
                            && b.name == a.name && b.enabled == a.enabled && b.trigger == a.trigger
                            && b.conditions == a.conditions && b.actions == a.actions
                    } else {
                        b == a
                    }
                },
    {
        match self.position(id) {
            Some(i) => {
                let stamp = now_rfc3339();
                self.automations[i].last_run = Some(stamp);
                self.automations[i].run_count = self.automations[i].run_count + 1;
                proof {
                    let s0 = old(self).automations@;
                    assert forall|k: int| 0 <= k < s0.len() && k != i implies s0[k].id@ != id@ by {
                        if k < i {
                            assert(s0[k].id@ != s0[i as int].id@);
                        } else {
                            assert(s0[i as int].id@ != s0[k].id@);
                        }
                    }
                }
            },
            None => {
                proof {
                    let s0 = old(self).automations@;
                    assert forall|k: int| 0 <= k < s0.len() implies s0[k].id@ != id@ by {
                        if s0[k].id@ == id@ {
                            assert(exists|i: int| 0 <= i < s0.len() && s0[i].id@ == id@);
                        }
                    }
                }
            },
        }
    }

    /// Add each builtin automation whose id the store does not have yet
    /// (automations shipped after the store was first saved): the stored
    /// entries stay as they are, and the missing builtins follow them in
    /// builtin order, each exactly as shipped.
    pub fn merge_builtins(&mut self)
        requires
            old(self).wf(),
        ensures
            final(self).wf(),
            final(self).defaults_version == old(self).defaults_version,
            final(self).automations@.subrange(0, old(self).automations@.len() as int)
                == old(self).automations@,
            final(self).automations@.len() == old(self).automations@.len() + missing_builtins(
                old(self).automations@,
                5,
            ).len(),
            forall|j: int|
                0 <= j < missing_builtins(old(self).automations@, 5).len() ==> is_builtin(
                    #[trigger] final(self).automations@[old(self).automations@.len() + j],
                    missing_builtins(old(self).automations@, 5)[j],
                ),
            forall|i: int|
                0 <= i < 5 ==> index_of(final(self).automations@, builtin_ids()[i]) is Some,
    {
        let mut builtins = builtin_automations();
        let ghost all = builtins@;
        let mut k: usize = 0;
        let ghost s0 = self.automations@;
        proof {
            lemma_builtin_ids_distinct();
        }
        while builtins.len() > 0
            invariant
                k <= 5,
                all.len() == 5,
                builtins@ == all.subrange(k as int, 5),
                self.wf(),
                self.defaults_version == old(self).defaults_version,
                s0 == old(self).automations@,
                self.automations@.len() == s0.len() + missing_builtins(s0, k as int).len(),
                self.automations@.subrange(0, s0.len() as int) == s0,
                forall|i: int| 0 <= i < 5 ==> is_builtin(#[trigger] all[i], i),
                forall|i: int, j: int|
                    0 <= i < 5 && 0 <= j < 5 && i != j ==> builtin_ids()[i] != builtin_ids()[j],
                forall|j: int|
                    0 <= j < missing_builtins(s0, k as int).len() ==> is_builtin(
                        #[trigger] self.automations@[s0.len() + j],
                        missing_builtins(s0, k as int)[j],
                    ),
                forall|j: int|
                    0 <= j < missing_builtins(s0, k as int).len() ==> 0 <= #[trigger] missing_builtins(
                        s0,
                        k as int,
                    )[j] < k,
                forall|i: int|
                    0 <= i < k ==> index_of(self.automations@, #[trigger] builtin_ids()[i]) is Some,
            decreases builtins@.len(),
        {
            let a = builtins.remove(0);
            assert(a == all[k as int]);
            let ghost before = self.automations@;
            let ghost m = missing_builtins(s0, k as int);
            proof {
                lemma_missing_builtins_bounds(s0, k as int + 1);
                assert(is_builtin(all[k as int], k as int));
                // The builtin is missing now exactly when it was missing at
                // the start: what was added since are other builtins.
                if index_of(s0, a.id@) is Some {
                    let j = choose|j: int| 0 <= j < s0.len() && s0[j].id@ == a.id@;
                    assert(before[j] == s0[j]);
                    assert(index_of(before, a.id@) is Some);
                } else {
                    assert forall|q: int| 0 <= q < before.len() implies before[q].id@ != a.id@ by {
                        if q < s0.len() {
                            assert(before[q] == s0[q]);
                            if s0[q].id@ == a.id@ {
                                assert(exists|i: int| 0 <= i < s0.len() && s0[i].id@ == a.id@);
                            }
                        } else {
                            let jj = q - s0.len();
                            assert(is_builtin(before[s0.len() + jj], m[jj]));
                            assert(0 <= m[jj] < k);
                        }
                    }
                    assert(index_of(before, a.id@) is None);
                }
            }
            self.insert_if_absent(a);
            proof {
                assert(self.automations@.subrange(0, s0.len() as int) =~= s0);
                let m2 = missing_builtins(s0, k as int + 1);
                if index_of(s0, a.id@) is None {
                    assert(m2 == m.push(k as int));
                    assert(self.automations@ == before.push(a));
                    assert forall|j: int| 0 <= j < m2.len() implies is_builtin(
                        #[trigger] self.automations@[s0.len() + j],
                        m2[j],
                    ) by {
                        if j < m.len() {
                            assert(self.automations@[s0.len() + j] == before[s0.len() + j]);
                        }
                    }
                } else {
                    assert(m2 == m);
                }
                assert forall|i: int| 0 <= i <= k implies index_of(
                    self.automations@,
                    #[trigger] builtin_ids()[i],
                ) is Some by {
                    if i < k {
                        assert(index_of(before, builtin_ids()[i]) is Some);
                        let j = choose|j: int|
                            0 <= j < before.len() && before[j].id@ == builtin_ids()[i];
                        assert(self.automations@[j] == before[j]);
                        assert(0 <= j < self.automations@.len() && self.automations@[j].id@
                            == builtin_ids()[i]);
                    } else {
                        if index_of(before, a.id@) is None {
                            assert(self.automations@[before.len() as int].id@ == builtin_ids()[i]);
                        } else {
                            let j2 = choose|j: int| 0 <= j < before.len() && before[j].id@ == a.id@;
                            assert(self.automations@[j2].id@ == builtin_ids()[i]);
                        }
                    }
                }
            }
            k += 1;
            assert(builtins@ =~= all.subrange(k as int, 5));
        }
    }

    /// Apply the one-time default-enabled migration: the first time (while
    /// `defaults_version` is below [`CURRENT_DEFAULTS_VERSION`]) force-enable
    /// the two auto-stop builtins. Returns whether anything changed.
    pub fn apply_default_migrations(&mut self) -> (r: bool)
        requires
            old(self).wf(),
        ensures
            final(self).wf(),
            r == (old(self).defaults_version < CURRENT_DEFAULTS_VERSION),
            (final(self).automations@, final(self).defaults_version) == migrated(
                old(self).automations@,
                old(self).defaults_version,
            ),
    {
        if self.defaults_version >= CURRENT_DEFAULTS_VERSION {
            return false;
        }
        self.set_enabled("zoom-auto-stop", true);
        self.set_enabled("silence-auto-stop", true);
        self.defaults_version = CURRENT_DEFAULTS_VERSION;
        true
    }
}

/// `s` with the automation `id` (if any) enabled or disabled.
pub open spec fn with_enabled(s: Seq<Automation>, id: Seq<char>, enabled: bool) -> Seq<Automation> {
    s.map_values(|a: Automation| if a.id@ == id { Automation { enabled, ..a } } else { a })
}

/// Automations and defaults version after the one-time migration.
pub open spec fn migrated(s: Seq<Automation>, version: u32) -> (Seq<Automation>, u32) {
    if version >= CURRENT_DEFAULTS_VERSION {
        (s, version)
    } else {
        (
            with_enabled(with_enabled(s, "zoom-auto-stop"@, true), "silence-auto-stop"@, true),
            CURRENT_DEFAULTS_VERSION,
        )
    }
}

/// The default-enabled migration runs once: migrating a migrated store
/// changes nothing, even after the user disabled an auto-stop rule again.
pub proof fn lemma_migration_runs_once(s: Seq<Automation>, version: u32, id: Seq<char>, enabled: bool)
    ensures
        migrated(migrated(s, version).0, migrated(s, version).1) == migrated(s, version),
        migrated(with_enabled(migrated(s, version).0, id, enabled), migrated(s, version).1) == (
            with_enabled(migrated(s, version).0, id, enabled),
            migrated(s, version).1,
        ),
{
}

/// After the migration of a store that had not had it, both auto-stop
/// rules that the store holds are enabled.
pub proof fn lemma_migration_enables_auto_stop(s: Seq<Automation>, version: u32, i: int)
    requires
        version < CURRENT_DEFAULTS_VERSION,
        0 <= i < s.len(),
        s[i].id@ == "zoom-auto-stop"@ || s[i].id@ == "silence-auto-stop"@,
    ensures
        migrated(s, version).0[i].enabled,
        migrated(s, version).1 == CURRENT_DEFAULTS_VERSION,
{
}

/// Every automation a filter keeps comes from the sequence filtered.
proof fn lemma_filter_from(s: Seq<Automation>, p: spec_fn(Automation) -> bool)
    ensures
        forall|k: int|
            0 <= k < s.filter(p).len() ==> exists|i: int|
                0 <= i < s.len() && s[i] == #[trigger] s.filter(p)[k],
    decreases s.len(),
{
    reveal(Seq::filter);
    if s.len() > 0 {
        lemma_filter_from(s.drop_last(), p);
        let rest = s.drop_last().filter(p);
        assert forall|k: int| 0 <= k < s.filter(p).len() implies exists|i: int|
            0 <= i < s.len() && s[i] == #[trigger] s.filter(p)[k] by {
            if k < rest.len() {
                let i = choose|i: int| 0 <= i < s.drop_last().len() && s.drop_last()[i] == rest[k];
                assert(s[i] == s.filter(p)[k]);
            } else {
                assert(s[s.len() - 1] == s.filter(p)[k]);
            }
        }
    }
}

/// Disabling an automation stops it from firing: whatever the trigger or
/// the meeting app, no automation selected to run has its id.
pub proof fn lemma_disabled_never_fires(s: Seq<Automation>, id: Seq<char>, t: AutomationTrigger, app: Seq<char>)
    ensures
        forall|k: int|
            0 <= k < with_enabled(s, id, false).filter(fires_on(t)).len() ==> (#[trigger] with_enabled(
                s,
                id,
                false,
            ).filter(fires_on(t))[k]).id@ != id,
        forall|k: int|
            0 <= k < with_enabled(s, id, false).filter(fires_on_detected(app)).len() ==> (
            #[trigger] with_enabled(s, id, false).filter(fires_on_detected(app))[k]).id@ != id,
        forall|k: int|
            0 <= k < with_enabled(s, id, false).filter(fires_on_ended(app)).len() ==> (
            #[trigger] with_enabled(s, id, false).filter(fires_on_ended(app))[k]).id@ != id,
{
    let w = with_enabled(s, id, false);
    lemma_filter_from(w, fires_on(t));
    lemma_filter_from(w, fires_on_detected(app));
    lemma_filter_from(w, fires_on_ended(app));
    assert forall|k: int| 0 <= k < w.filter(fires_on(t)).len() implies (#[trigger] w.filter(
        fires_on(t),
    )[k]).id@ != id by {
        w.lemma_filter_pred(fires_on(t), k);
        let i = choose|i: int| 0 <= i < w.len() && w[i] == w.filter(fires_on(t))[k];
    }
    assert forall|k: int| 0 <= k < w.filter(fires_on_detected(app)).len() implies (
    #[trigger] w.filter(fires_on_detected(app))[k]).id@ != id by {
        w.lemma_filter_pred(fires_on_detected(app), k);
        let i = choose|i: int| 0 <= i < w.len() && w[i] == w.filter(fires_on_detected(app))[k];
    }
    assert forall|k: int| 0 <= k < w.filter(fires_on_ended(app)).len() implies (
    #[trigger] w.filter(fires_on_ended(app))[k]).id@ != id by {
        w.lemma_filter_pred(fires_on_ended(app), k);
        let i = choose|i: int| 0 <= i < w.len() && w[i] == w.filter(fires_on_ended(app))[k];
    }
}

/// An automation fires for a detected meeting of `app` exactly when it is
/// enabled and its trigger is any detected meeting, or a detected meeting
/// of the app named `app` (an automation for another app never fires);
/// the ones that fire keep their order in the store.
pub proof fn lemma_detected_selection(s: Seq<Automation>, app: Seq<char>)
    ensures
        forall|k: int|
            0 <= k < s.filter(fires_on_detected(app)).len() ==> {
                let a = #[trigger] s.filter(fires_on_detected(app))[k];
                &&& a.enabled
                &&& (a.trigger is MeetingDetected || (a.trigger matches AutomationTrigger::MeetingAppDetected {
                    app_name,
                } && app_name@ == app))
            },
        forall|i: int|
            0 <= i < s.len() && s[i].enabled && (s[i].trigger is MeetingDetected
                || (s[i].trigger matches AutomationTrigger::MeetingAppDetected { app_name }
                && app_name@ == app)) ==> s.filter(fires_on_detected(app)).contains(#[trigger] s[i]),
        forall|i: int|
            0 <= i < s.len() && (s[i].trigger matches AutomationTrigger::MeetingAppDetected {
                app_name,
            } && app_name@ != app) ==> !s.filter(fires_on_detected(app)).contains(#[trigger] s[i]),
{
    let p = fires_on_detected(app);
    assert forall|k: int| 0 <= k < s.filter(p).len() implies {
        let a = #[trigger] s.filter(p)[k];
        &&& a.enabled
        &&& (a.trigger is MeetingDetected || (a.trigger matches AutomationTrigger::MeetingAppDetected {
            app_name,
        } && app_name@ == app))
    } by {
        s.lemma_filter_pred(p, k);
    }
    assert forall|i: int|
        0 <= i < s.len() && s[i].enabled && (s[i].trigger is MeetingDetected
            || (s[i].trigger matches AutomationTrigger::MeetingAppDetected { app_name }
            && app_name@ == app)) implies s.filter(p).contains(#[trigger] s[i]) by {
        s.lemma_filter_contains(p, i);
    }
    assert forall|i: int|
        0 <= i < s.len() && (s[i].trigger matches AutomationTrigger::MeetingAppDetected {
            app_name,
        } && app_name@ != app) implies !s.filter(p).contains(#[trigger] s[i]) by {
        if s.filter(p).contains(s[i]) {
            let k = choose|k: int| 0 <= k < s.filter(p).len() && s.filter(p)[k] == s[i];
            s.lemma_filter_pred(p, k);
        }
    }
}

/// A decimal digit.
pub open spec fn is_digit(c: char) -> bool {
    '0' <= c && c <= '9'
}

/// `s` is an RFC 3339 time in UTC whose year takes the first `k`
/// characters and whose fraction of a second (with its point) takes `f`:
/// `YYYY-MM-DDTHH:MM:SS`, then no fraction or a point and 3, 6 or 9
/// digits, then the offset `+00:00`. A year outside 0 to 9999 is written
/// with its sign and at least four digits.
pub open spec fn is_rfc3339_at(s: Seq<char>, k: int, f: int) -> bool {
    &&& 4 <= k
    &&& (f == 0 || f == 4 || f == 7 || f == 10)
    &&& s.len() == k + 15 + f + 6
    &&& forall|i: int|
        0 <= i < k ==> is_digit(#[trigger] s[i]) || (i == 0 && (s[0] == '+' || s[0] == '-'))
    &&& s[k] == '-' && is_digit(s[k + 1]) && is_digit(s[k + 2])
    &&& s[k + 3] == '-' && is_digit(s[k + 4]) && is_digit(s[k + 5])
    &&& s[k + 6] == 'T' && is_digit(s[k + 7]) && is_digit(s[k + 8])
    &&& s[k + 9] == ':' && is_digit(s[k + 10]) && is_digit(s[k + 11])
    &&& s[k + 12] == ':' && is_digit(s[k + 13]) && is_digit(s[k + 14])
    &&& (f > 0 ==> s[k + 15] == '.' && forall|i: int|
        k + 16 <= i < k + 15 + f ==> is_digit(#[trigger] s[i]))
    &&& s.subrange(s.len() - 6, s.len() as int) == seq!['+', '0', '0', ':', '0', '0']
}

/// `s` is an RFC 3339 time in UTC (see [`is_rfc3339_at`]).
pub open spec fn is_utc_rfc3339(s: Seq<char>) -> bool {
    exists|k: int, f: int| is_rfc3339_at(s, k, f)
}

/// The current time (`chrono::Utc::now()`) as RFC 3339 text
/// (`DateTime::to_rfc3339`, which writes the offset of UTC as `+00:00`
/// and the fraction of a second with 0, 3, 6 or 9 digits). Which time it
/// is depends on the clock; only the form of the text is stated.
#[verifier::external_body]
fn now_rfc3339() -> (r: String)
    ensures
        is_utc_rfc3339(r@),
{
    chrono::Utc::now().to_rfc3339()
}

} // verus!
