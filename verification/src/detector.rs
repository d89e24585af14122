//! Meeting app detection: which running processes mean an active meeting,
//! and which meetings started or ended between two polls.

use vstd::prelude::*;

use crate::text::{
    clone_strings, contains, contains_chars, contains_str, line_ranges, lines, lowercase, pieces,
    split, split_chars, lemma_views_push, str_eq, string_of, to_chars, to_lowercase, trim,
    trim_bounds, views,
};

verus! {

/// Number of known meeting processes.
pub const MEETING_PROCESS_COUNT: usize = 7;

/// Pattern matched against the names of running processes.
pub open spec fn process_pattern(i: int) -> Seq<char> {
    if i == 0 { "zoom.us"@ }
    else if i == 1 { "CptHost"@ }
    else if i == 2 { "Microsoft Teams"@ }
    else if i == 3 { "Slack Helper (Renderer)"@ }
    else if i == 4 { "Discord Helper (Renderer)"@ }
    else if i == 5 { "Webex"@ }
    else { "FaceTime"@ }
}

/// App name shown for a process.
pub open spec fn process_app(i: int) -> Seq<char> {
    if i == 0 || i == 1 { "Zoom"@ }
    else if i == 2 { "Microsoft Teams"@ }
    else if i == 3 { "Slack Huddle"@ }
    else if i == 4 { "Discord"@ }
    else if i == 5 { "WebEx"@ }
    else { "FaceTime"@ }
}

/// The process alone confirms a meeting (Zoom's call host only runs
/// during a call); every other one needs open UDP connections.
pub open spec fn process_only(i: int) -> bool {
    i == 1
}

/// Pattern searched for in the UDP socket list of the process.
pub open spec fn udp_pattern(i: int) -> Seq<char> {
    if i == 0 { "zoom"@ }
    else if i == 2 { "Teams"@ }
    else if i == 3 { "Slack"@ }
    else if i == 4 { "Discord"@ }
    else if i == 5 { "Webex"@ }
    else if i == 6 { "FaceTime|callservicesd"@ }
    else { Seq::empty() }
}

/// The known meeting process at position `i`: its name pattern, app name,
/// and UDP pattern (`None` when the process alone confirms a meeting).
pub fn meeting_process(i: usize) -> (r: (&'static str, &'static str, Option<&'static str>))
    requires
        i < MEETING_PROCESS_COUNT,
    ensures
        r.0@ == process_pattern(i as int),
        r.1@ == process_app(i as int),
        r.2 is None <==> process_only(i as int),
        r.2 matches Some(u) ==> u@ == udp_pattern(i as int),
{
    if i == 0 { ("zoom.us", "Zoom", Some("zoom")) }
    else if i == 1 { ("CptHost", "Zoom", None) }
    else if i == 2 { ("Microsoft Teams", "Microsoft Teams", Some("Teams")) }
    else if i == 3 { ("Slack Helper (Renderer)", "Slack Huddle", Some("Slack")) }
    else if i == 4 { ("Discord Helper (Renderer)", "Discord", Some("Discord")) }
    else if i == 5 { ("Webex", "WebEx", Some("Webex")) }
    else { ("FaceTime", "FaceTime", Some("FaceTime|callservicesd")) }
}

/// Bundle id of a meeting app, the first one listed for it.
pub open spec fn bundle_id_of(app: Seq<char>) -> Option<Seq<char>> {
    if app == "Zoom"@ { Some("us.zoom.xos"@) }
    else if app == "Microsoft Teams"@ { Some("com.microsoft.teams2"@) }
    else if app == "Slack"@ { Some("com.tinyspeck.slackmacgap"@) }
    else if app == "FaceTime"@ { Some("com.apple.facetime"@) }
    else if app == "Discord"@ { Some("com.discord.Discord"@) }
    else if app == "WebEx"@ { Some("com.cisco.webexmeetingsapp"@) }
    else { None }
}

fn bundle_id(app: &str) -> (r: Option<&'static str>)
    ensures
        r matches Some(b) ==> bundle_id_of(app@) == Some(b@),
        r is None ==> bundle_id_of(app@) is None,
{
    if str_eq(app, "Zoom") { Some("us.zoom.xos") }
    else if str_eq(app, "Microsoft Teams") { Some("com.microsoft.teams2") }
    else if str_eq(app, "Slack") { Some("com.tinyspeck.slackmacgap") }
    else if str_eq(app, "FaceTime") { Some("com.apple.facetime") }
    else if str_eq(app, "Discord") { Some("com.discord.Discord") }
    else if str_eq(app, "WebEx") { Some("com.cisco.webexmeetingsapp") }
    else { None }
}

/// A detected meeting app.
#[derive(Debug, Clone)]
pub struct DetectedMeeting {
    pub app_name: String,
    pub bundle_id: Option<String>,
    /// "process" or "process+udp": how the meeting was confirmed.
    pub source: String,
}

pub open spec fn opt_view(o: Option<String>) -> Option<Seq<char>> {
    match o {
        Some(s) => Some(s@),
        None => None,
    }
}

/// A detected meeting by its texts: app name, bundle id, source.
pub open spec fn meeting_view(d: DetectedMeeting) -> (Seq<char>, Option<Seq<char>>, Seq<char>) {
    (d.app_name@, opt_view(d.bundle_id), d.source@)
}

/// Some running process name contains the pattern of process `i`.
pub open spec fn is_running(running: Seq<Seq<char>>, i: int) -> bool {
    exists|k: int| 0 <= k < running.len() && contains(running[k], process_pattern(i))
}

/// The meetings detected from process `i` on, in table order: a process
/// that is running, whose app was not reported already, and that the
/// process alone or its UDP connections (`udp[i]`) confirm.
pub open spec fn detections(running: Seq<Seq<char>>, udp: Seq<bool>, i: int, seen: Seq<Seq<char>>) -> Seq<
    (Seq<char>, Option<Seq<char>>, Seq<char>),
>
    decreases 7 - i,
{
    if i < 0 || i >= 7 {
        Seq::empty()
    } else if !is_running(running, i) || seen.contains(process_app(i)) || !(process_only(i)
        || udp[i]) {
        detections(running, udp, i + 1, seen)
    } else {
        seq![
            (
                process_app(i),
                bundle_id_of(process_app(i)),
                if process_only(i) { "process"@ } else { "process+udp"@ },
            ),
        ] + detections(running, udp, i + 1, seen.push(process_app(i)))
    }
}

proof fn lemma_detections_fresh(running: Seq<Seq<char>>, udp: Seq<bool>, i: int, seen: Seq<Seq<char>>)
    ensures
        forall|a: int|
            0 <= a < detections(running, udp, i, seen).len() ==> !seen.contains(
                (#[trigger] detections(running, udp, i, seen)[a]).0,
            ),
        forall|a: int, b: int|
            0 <= a < b < detections(running, udp, i, seen).len() ==> (#[trigger] detections(
                running,
                udp,
                i,
                seen,
            )[a]).0 != (#[trigger] detections(running, udp, i, seen)[b]).0,
    decreases 7 - i,
{
    if i < 0 || i >= 7 {
        assert(detections(running, udp, i, seen).len() == 0);
    } else if !is_running(running, i) || seen.contains(process_app(i)) || !(process_only(i)
        || udp[i]) {
        lemma_detections_fresh(running, udp, i + 1, seen);
        assert(detections(running, udp, i, seen) == detections(running, udp, i + 1, seen));
    } else {
        let x = process_app(i);
        let s2 = seen.push(x);
        lemma_detections_fresh(running, udp, i + 1, s2);
        let rest = detections(running, udp, i + 1, s2);
        let d = detections(running, udp, i, seen);
        assert(d[0].0 == x);
        assert forall|a: int| 1 <= a < d.len() implies d[a] == rest[a - 1] by {}
        assert forall|a: int| 0 <= a < rest.len() implies !seen.contains(#[trigger] rest[a].0)
            && rest[a].0 != x by {
            if seen.contains(rest[a].0) {
                let j = choose|j: int| 0 <= j < seen.len() && seen[j] == rest[a].0;
                assert(s2[j] == seen[j]);
            }
            assert(s2[seen.len() as int] == x);
        }
        assert(d.len() == rest.len() + 1);
        assert forall|a: int| 0 <= a < d.len() implies !seen.contains(
            (#[trigger] d[a]).0,
        ) by {
            if a > 0 {
                assert(d[a] == rest[a - 1]);
            }
        }
        assert forall|a: int, b: int| 0 <= a < b < d.len() implies (#[trigger] d[a]).0 != (
        #[trigger] d[b]).0 by {
            assert(d[b] == rest[b - 1]);
            if a > 0 {
                assert(d[a] == rest[a - 1]);
            }
        }
    }
}

/// Each app is reported at most once, however many of its processes run
/// and confirm a meeting (Zoom's client and its call host both do).
pub proof fn lemma_one_detection_per_app(running: Seq<Seq<char>>, udp: Seq<bool>)
    ensures
        forall|a: int, b: int|
            0 <= a < b < detections(running, udp, 0, Seq::empty()).len() ==> (#[trigger] detections(
                running,
                udp,
                0,
                Seq::empty(),
            )[a]).0 != (#[trigger] detections(running, udp, 0, Seq::empty())[b]).0,
{
    lemma_detections_fresh(running, udp, 0, Seq::empty());
}

fn any_running(running: &Vec<String>, pattern: &str) -> (r: bool)
    ensures
        r == (exists|k: int| 0 <= k < running@.len() && contains(running@[k]@, pattern@)),
{
    let pv = to_chars(pattern);
    let mut k: usize = 0;
    while k < running.len()
        invariant
            k <= running@.len(),
            pv@ == pattern@,
            forall|q: int| 0 <= q < k ==> !contains(running@[q]@, pattern@),
        decreases running@.len() - k,
    {
        let rv = to_chars(running[k].as_str());
        if contains_chars(rv.as_slice(), pv.as_slice()) {
            return true;
        }
        k += 1;
    }
    false
}

/// The active meeting apps, given the names of the running processes and,
/// for each known meeting process, whether its UDP connections show an
/// active call (`udp_active[i]` for process `i`; ignored for processes that
/// confirm a meeting alone).
pub fn detect_meeting_apps(running: &Vec<String>, udp_active: &[bool]) -> (r: Vec<DetectedMeeting>)
    requires
        udp_active@.len() == MEETING_PROCESS_COUNT,
    ensures
        r@.map_values(|d: DetectedMeeting| meeting_view(d)) == detections(
            views(running@),
            udp_active@,
            0,
            Seq::empty(),
        ),
        forall|a: int, b: int|
            0 <= a < b < r@.len() ==> (#[trigger] r@[a]).app_name@ != (#[trigger] r@[b]).app_name@,
{
    let mut detected: Vec<DetectedMeeting> = Vec::new();
    let mut seen: Vec<String> = Vec::new();
    let mut i: usize = 0;
    assert(views(seen@) =~= Seq::<Seq<char>>::empty());
    assert(detected@.map_values(|d: DetectedMeeting| meeting_view(d)) =~= Seq::empty());
    while i < MEETING_PROCESS_COUNT
        invariant
            i <= 7,
            udp_active@.len() == 7,
            detections(views(running@), udp_active@, 0, Seq::empty()) == detected@.map_values(
                |d: DetectedMeeting| meeting_view(d),
            ) + detections(views(running@), udp_active@, i as int, views(seen@)),
        decreases 7 - i,
    {
        let (pattern, app, udp) = meeting_process(i);
        let ghost rest = detections(views(running@), udp_active@, i as int, views(seen@));
        let ghost dv = detected@.map_values(|d: DetectedMeeting| meeting_view(d));
        let r = any_running(running, pattern);
        proof {
            assert(r == is_running(views(running@), i as int)) by {
                if r {
                    let k = choose|k: int| 0 <= k < running@.len() && contains(running@[k]@, pattern@);
                    assert(views(running@)[k] == running@[k]@);
                }
                if is_running(views(running@), i as int) {
                    let k = choose|k: int|
                        0 <= k < views(running@).len() && contains(
                            views(running@)[k],
                            process_pattern(i as int),
                        );
                    assert(views(running@)[k] == running@[k]@);
                }
            }
        }
        let s = contains_str(&seen, app);
        let active = match udp {
            None => true,
            Some(_) => udp_active[i],
        };
        if r && !s && active {
            let b = match bundle_id(app) {
                Some(x) => Some(x.to_owned()),
                None => None,
            };
            let source = if udp.is_none() {
                "process".to_owned()
            } else {
                "process+udp".to_owned()
            };
            let d = DetectedMeeting { app_name: app.to_owned(), bundle_id: b, source };
            let ghost entry = meeting_view(d);
            let ghost seen_before = views(seen@);
            proof {
                assert(entry == (
                    process_app(i as int),
                    bundle_id_of(process_app(i as int)),
                    if process_only(i as int) { "process"@ } else { "process+udp"@ },
                ));
                assert(is_running(views(running@), i as int));
                assert(!seen_before.contains(process_app(i as int)));
                assert(process_only(i as int) || udp_active@[i as int]);
                assert(rest == seq![entry] + detections(
                    views(running@),
                    udp_active@,
                    i + 1,
                    seen_before.push(process_app(i as int)),
                ));
            }
            detected.push(d);
            let app_s = app.to_owned();
            proof {
                lemma_views_push(seen@, app_s);
            }
            seen.push(app_s);
            proof {
                assert(detected@.map_values(|d: DetectedMeeting| meeting_view(d)) =~= dv.push(entry));
                assert(dv + rest =~= dv.push(entry) + detections(
                    views(running@),
                    udp_active@,
                    i + 1,
                    views(seen@),
                ));
            }
        }
        i += 1;
    }
    assert(detections(views(running@), udp_active@, 7, views(seen@)) =~= Seq::empty());
    assert(detected@.map_values(|d: DetectedMeeting| meeting_view(d)) + Seq::empty()
        =~= detected@.map_values(|d: DetectedMeeting| meeting_view(d)));
    proof {
        lemma_one_detection_per_app(views(running@), udp_active@);
        let dv = detected@.map_values(|d: DetectedMeeting| meeting_view(d));
        assert forall|a: int, b: int| 0 <= a < b < detected@.len() implies (
        #[trigger] detected@[a]).app_name@ != (#[trigger] detected@[b]).app_name@ by {
            assert(dv[a].0 == detected@[a].app_name@);
            assert(dv[b].0 == detected@[b].app_name@);
        }
    }
    detected
}

/// Seconds between two polls.
pub const POLL_INTERVAL_SECS: u64 = 5;

/// Polls for meeting apps and reports which ones started or ended.
#[derive(Debug, Clone)]
pub struct MeetingDetector {
    poll_interval_secs: u64,
    allowed_apps: Vec<String>,
    last_detected: Vec<String>,
}

/// Names of the apps of a list of detected meetings.
pub open spec fn app_names(d: Seq<DetectedMeeting>) -> Seq<Seq<char>> {
    d.map_values(|m: DetectedMeeting| m.app_name@)
}

/// The meetings of `current` whose app was not active at the last poll.
pub open spec fn new_meetings(last: Seq<Seq<char>>, current: Seq<DetectedMeeting>) -> Seq<DetectedMeeting> {
    current.filter(|m: DetectedMeeting| !last.contains(m.app_name@))
}

/// The apps active at the last poll that `current` no longer has.
pub open spec fn ended_apps(last: Seq<Seq<char>>, current: Seq<DetectedMeeting>) -> Seq<Seq<char>> {
    last.filter(|n: Seq<char>| !app_names(current).contains(n))
}

impl MeetingDetector {
    /// Apps active at the last poll.
    pub closed spec fn last_apps(&self) -> Seq<Seq<char>> {
        views(self.last_detected@)
    }

    /// Apps that may start a recording without asking.
    pub closed spec fn allowed(&self) -> Seq<Seq<char>> {
        views(self.allowed_apps@)
    }

    /// Seconds between two polls.
    pub closed spec fn interval(&self) -> u64 {
        self.poll_interval_secs
    }

    /// The names of the apps active at the last poll, each once.
    pub open spec fn wf(&self) -> bool {
        self.last_apps().no_duplicates()
    }

    /// A detector that has seen no meeting yet.
    pub fn new(config: &crate::config::MeetingDetectionConfig) -> (r: Self)
        ensures
            r.wf(),
            r.last_apps().len() == 0,
            r.allowed() == views(config.allowed_apps@),
            r.interval() == POLL_INTERVAL_SECS,
    {
        let allowed = clone_strings(&config.allowed_apps);
        let r = MeetingDetector {
            poll_interval_secs: POLL_INTERVAL_SECS,
            allowed_apps: allowed,
            last_detected: Vec::new(),
        };
        assert(r.last_apps() =~= Seq::<Seq<char>>::empty());
        r
    }

    /// Take the meetings detected this tick (see [`detect_meeting_apps`]):
    /// returns the ones whose app was not active at the last poll, and the
    /// apps active then that are gone now; remembers the current apps.
    pub fn poll(&mut self, current: Vec<DetectedMeeting>) -> (r: (Vec<DetectedMeeting>, Vec<String>))
        requires
            old(self).wf(),
        ensures
            final(self).wf(),
            final(self).allowed() == old(self).allowed(),
            final(self).interval() == old(self).interval(),
            r.0@ == new_meetings(old(self).last_apps(), current@),
            views(r.1@) == ended_apps(old(self).last_apps(), current@),
            final(self).last_apps().to_set() == app_names(current@).to_set(),
    {
        let ghost last = self.last_apps();
        let ghost cur = current@;
        let mut names: Vec<String> = Vec::new();
        let mut k: usize = 0;
        while k < current.len()
            invariant
                k <= current@.len(),
                cur == current@,
                views(names@).no_duplicates(),
                views(names@).to_set() == app_names(cur.subrange(0, k as int)).to_set(),
            decreases current@.len() - k,
        {
            let n = current[k].app_name.as_str();
            proof {
                assert(app_names(cur.subrange(0, k + 1)) =~= app_names(cur.subrange(0, k as int)).push(n@));
                app_names(cur.subrange(0, k as int)).lemma_push_to_set_commute(n@);
            }
            if !contains_str(&names, n) {
                let ns = n.to_owned();
                proof {
                    lemma_views_push(names@, ns);
                    views(names@).lemma_push_to_set_commute(n@);
                }
                names.push(ns);
            } else {
                assert(views(names@).to_set().contains(n@));
                assert(views(names@).to_set() =~= views(names@).to_set().insert(n@));
            }
            k += 1;
        }
        assert(cur.subrange(0, k as int) =~= cur);
        let mut ended: Vec<String> = Vec::new();
        let mut j: usize = 0;
        while j < self.last_detected.len()
            invariant
                j <= self.last_detected@.len(),
                last == views(self.last_detected@),
                views(names@).to_set() == app_names(cur).to_set(),
                views(ended@) == last.subrange(0, j as int).filter(
                    |n: Seq<char>| !app_names(cur).contains(n),
                ),
            decreases self.last_detected@.len() - j,
        {
            let n = self.last_detected[j].as_str();
            proof {
                assert(last[j as int] == n@);
                assert(last.subrange(0, j + 1) =~= last.subrange(0, j as int).push(n@));
                last.subrange(0, j as int).lemma_filter_push(n@, |n: Seq<char>| !app_names(cur).contains(n));
                assert(views(names@).contains(n@) == views(names@).to_set().contains(n@));
                assert(app_names(cur).contains(n@) == app_names(cur).to_set().contains(n@));
            }
            if !contains_str(&names, n) {
                let ns = n.to_owned();
                proof {
                    lemma_views_push(ended@, ns);
                }
                ended.push(ns);
            }
            j += 1;
        }
        assert(last.subrange(0, j as int) =~= last);
        let mut fresh: Vec<DetectedMeeting> = Vec::new();
        let mut current = current;
        let mut q: usize = 0;
        while current.len() > 0
            invariant
                q <= cur.len(),
                cur.len() <= usize::MAX,
                current@ == cur.subrange(q as int, cur.len() as int),
                last == views(self.last_detected@),
                fresh@ == cur.subrange(0, q as int).filter(
                    |m: DetectedMeeting| !last.contains(m.app_name@),
                ),
            decreases current@.len(),
        {
            let d = current.remove(0);
            assert(d == cur[q as int]);
            proof {
                assert(cur.subrange(0, q + 1) =~= cur.subrange(0, q as int).push(d));
                cur.subrange(0, q as int).lemma_filter_push(d, |m: DetectedMeeting| !last.contains(m.app_name@));
            }
            if !contains_str(&self.last_detected, d.app_name.as_str()) {
                fresh.push(d);
            }
            q += 1;
            assert(current@ =~= cur.subrange(q as int, cur.len() as int));
        }
        assert(cur.subrange(0, q as int) =~= cur);
        self.last_detected = names;
        (fresh, ended)
    }

    /// Whether `app_name` may start a recording without asking.
    pub fn is_auto_allowed(&self, app_name: &str) -> (r: bool)
        ensures
            r == self.allowed().contains(app_name@),
    {
        contains_str(&self.allowed_apps, app_name)
    }

    /// Seconds between two polls.
    pub fn poll_interval(&self) -> (r: u64)
        ensures
            r == self.interval(),
    {
        self.poll_interval_secs
    }
}

/// Polling twice with the same meetings: the second poll reports nothing
/// new and nothing ended.
pub proof fn lemma_poll_is_stable(last: Seq<Seq<char>>, current: Seq<DetectedMeeting>, remembered: Seq<Seq<char>>)
    requires
        remembered.to_set() == app_names(current).to_set(),
    ensures
        new_meetings(remembered, current).len() == 0,
        ended_apps(remembered, current).len() == 0,
{
    assert forall|i: int| 0 <= i < current.len() implies remembered.contains(
        #[trigger] current[i].app_name@,
    ) by {
        assert(app_names(current)[i] == current[i].app_name@);
        assert(app_names(current).to_set().contains(current[i].app_name@));
    }
    lemma_filter_all_out(current, |m: DetectedMeeting| !remembered.contains(m.app_name@));
    assert forall|i: int| 0 <= i < remembered.len() implies app_names(current).contains(
        #[trigger] remembered[i],
    ) by {
        assert(remembered.to_set().contains(remembered[i]));
    }
    lemma_filter_all_out(remembered, |n: Seq<char>| !app_names(current).contains(n));
}

/// A new meeting's app was not active before, and an ended app is not
/// among the current meetings.
pub proof fn lemma_poll_reports_changes(last: Seq<Seq<char>>, current: Seq<DetectedMeeting>)
    ensures
        forall|i: int|
            0 <= i < new_meetings(last, current).len() ==> !last.contains(
                #[trigger] new_meetings(last, current)[i].app_name@,
            ),
        forall|i: int|
            0 <= i < ended_apps(last, current).len() ==> !app_names(current).contains(
                #[trigger] ended_apps(last, current)[i],
            ),
{
    let p = |m: DetectedMeeting| !last.contains(m.app_name@);
    let q = |n: Seq<char>| !app_names(current).contains(n);
    assert forall|i: int| 0 <= i < new_meetings(last, current).len() implies !last.contains(
        #[trigger] new_meetings(last, current)[i].app_name@,
    ) by {
        current.lemma_filter_pred(p, i);
    }
    assert forall|i: int| 0 <= i < ended_apps(last, current).len() implies !app_names(current).contains(
        #[trigger] ended_apps(last, current)[i],
    ) by {
        last.lemma_filter_pred(q, i);
    }
}

proof fn lemma_filter_all_out<A>(s: Seq<A>, p: spec_fn(A) -> bool)
    requires
        forall|i: int| 0 <= i < s.len() ==> !p(#[trigger] s[i]),
    ensures
        s.filter(p).len() == 0,
    decreases s.len(),
{
    reveal(Seq::filter);
    if s.len() > 0 {
        assert forall|i: int| 0 <= i < s.drop_last().len() implies !p(#[trigger] s.drop_last()[i]) by {
            assert(s.drop_last()[i] == s[i]);
        }
        lemma_filter_all_out(s.drop_last(), p);
        assert(!p(s[s.len() - 1]));
    }
}

/// The names of the running processes in the output of `ps -eo comm=`:
/// its lines, trimmed, blank ones left out.
pub open spec fn process_names_of(output: Seq<char>) -> Seq<Seq<char>> {
    crate::text::nonblank_lines(output)
}

/// Reads the names of the running processes from the output of
/// `ps -eo comm=`.
pub fn parse_process_names(output: &str) -> (r: Vec<String>)
    ensures
        views(r@) == process_names_of(output@),
{
    crate::text::nonblank_trimmed_lines(output)
}

/// The lowercased, trimmed alternatives of a `|`-separated pattern.
pub open spec fn pattern_terms(pattern: Seq<char>) -> Seq<Seq<char>> {
    split(pattern, "|"@).map_values(|t: Seq<char>| lowercase(trim(t)))
}

/// A line of `lsof` output that, lowercased, holds one of the terms.
pub open spec fn mentions_term(line: Seq<char>, terms: Seq<Seq<char>>) -> bool {
    exists|k: int| 0 <= k < terms.len() && contains(lowercase(line), terms[k])
}

/// An app is in an active call when more than one line of the UDP socket
/// list (`lsof -i 4UDP -n -P`) mentions it; when the list could not be
/// read, the process alone counts as a meeting.
pub open spec fn udp_confirms(lsof_output: Option<Seq<char>>, pattern: Seq<char>) -> bool {
    match lsof_output {
        None => true,
        Some(out) => lines(out).filter(|l: Seq<char>| mentions_term(l, pattern_terms(pattern))).len()
            > 1,
    }
}

fn any_term(line: &str, terms: &Vec<Vec<char>>) -> (r: bool)
    ensures
        r == (exists|k: int| 0 <= k < terms@.len() && contains(lowercase(line@), terms@[k]@)),
{
    let lower = to_lowercase(line);
    let lv = to_chars(lower.as_str());
    let mut k: usize = 0;
    while k < terms.len()
        invariant
            k <= terms@.len(),
            lv@ == lowercase(line@),
            forall|q: int| 0 <= q < k ==> !contains(lowercase(line@), terms@[q]@),
        decreases terms@.len() - k,
    {
        if contains_chars(lv.as_slice(), terms[k].as_slice()) {
            return true;
        }
        k += 1;
    }
    false
}

/// Whether the UDP socket list shows an active call of the app whose
/// process matches `grep_pattern` (see [`udp_confirms`]); `lsof_output` is
/// `None` when `lsof` could not be run.
pub fn is_in_active_meeting_via_udp(lsof_output: Option<&str>, grep_pattern: &str) -> (r: bool)
    ensures
        r == udp_confirms(
            match lsof_output {
                Some(o) => Some(o@),
                None => None,
            },
            grep_pattern@,
        ),
{
    let out = match lsof_output {
        None => {
            return true;
        },
        Some(o) => o,
    };
    let pv = to_chars(grep_pattern);
    let sep = to_chars("|");
    proof {
        reveal_strlit("|");
    }
    let raw = split_chars(pv.as_slice(), sep.as_slice());
    let ghost tv = |t: Seq<char>| lowercase(trim(t));
    let mut terms: Vec<Vec<char>> = Vec::new();
    let mut k: usize = 0;
    while k < raw.len()
        invariant
            k <= raw@.len(),
            pieces(raw@) == split(grep_pattern@, "|"@),
            tv == (|t: Seq<char>| lowercase(trim(t))),
            pieces(terms@) == pieces(raw@).subrange(0, k as int).map_values(tv),
        decreases raw@.len() - k,
    {
        let t = crate::text::trimmed_chars(raw[k].as_slice());
        let lt = to_lowercase(t.as_str());
        let lc = to_chars(lt.as_str());
        let ghost before = pieces(terms@);
        terms.push(lc);
        assert(pieces(terms@) =~= before.push(lc@));
        assert(pieces(raw@)[k as int] == raw@[k as int]@);
        assert(pieces(raw@).subrange(0, k + 1).map_values(tv) =~= pieces(raw@).subrange(
            0,
            k as int,
        ).map_values(tv).push(tv(raw@[k as int]@)));
        k += 1;
    }
    assert(pieces(raw@).subrange(0, k as int) =~= pieces(raw@));
    let ghost ts = pattern_terms(grep_pattern@);
    assert(pieces(terms@) == ts);
    let v = to_chars(out);
    assert(v@.subrange(0, v@.len() as int) =~= v@);
    let ranges = line_ranges(v.as_slice(), 0);
    let ghost ls = lines(v@);
    let ghost mp = |l: Seq<char>| mentions_term(l, ts);
    let mut count: usize = 0;
    let mut j: usize = 0;
    while j < ranges.len()
        invariant
            j <= ranges@.len() == ls.len(),
            v@ == out@,
            ls == lines(v@),
            pieces(terms@) == ts,
            mp == (|l: Seq<char>| mentions_term(l, ts)),
            forall|q: int|
                0 <= q < ranges@.len() ==> 0 <= (#[trigger] ranges@[q]).0 <= ranges@[q].1 <= v@.len()
                    && v@.subrange(ranges@[q].0 as int, ranges@[q].1 as int) == ls[q],
            count == ls.subrange(0, j as int).filter(mp).len(),
            count <= j,
        decreases ranges@.len() - j,
    {
        let (lo, hi) = ranges[j];
        let line = string_of(v.as_slice(), lo, hi);
        let hit = any_term(line.as_str(), &terms);
        proof {
            assert(ls.subrange(0, j + 1) =~= ls.subrange(0, j as int).push(ls[j as int]));
            ls.subrange(0, j as int).lemma_filter_push(ls[j as int], mp);
            assert(hit == mentions_term(ls[j as int], ts)) by {
                if hit {
                    let q = choose|q: int| 0 <= q < terms@.len() && contains(lowercase(line@), terms@[q]@);
                    assert(ts[q] == terms@[q]@);
                }
                if mentions_term(ls[j as int], ts) {
                    let q = choose|q: int| 0 <= q < ts.len() && contains(lowercase(ls[j as int]), ts[q]);
                    assert(ts[q] == terms@[q]@);
                }
            }
        }
        if hit {
            count += 1;
        }
        j += 1;
    }
    assert(ls.subrange(0, j as int) =~= ls);
    count > 1
}

/// The Zoom meeting window's title as read from the output of the
/// AppleScript that lists Zoom's windows: the output trimmed, unless that is
/// empty or AppleScript's literal `missing value`.
pub open spec fn zoom_title_of(stdout: Seq<char>) -> Option<Seq<char>> {
    let t = trim(stdout);
    if t.len() == 0 || t == "missing value"@ {
        None
    } else {
        Some(t)
    }
}

/// Interprets the output of the window-listing AppleScript (see
/// [`zoom_title_of`]).
pub fn zoom_window_title(stdout: &str) -> (r: Option<String>)
    ensures
        opt_view(r) == zoom_title_of(stdout@),
{
    let t = crate::text::trimmed(stdout);
    proof {
        reveal_strlit("");
        assert(""@.len() == 0);
        if t@.len() == 0 {
            assert(t@ =~= ""@);
        }
    }
    if str_eq(t.as_str(), "") || str_eq(t.as_str(), "missing value") {
        None
    } else {
        Some(t)
    }
}

} // verus!
