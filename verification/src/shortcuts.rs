//! Keyboard shortcuts: action to key sequence bindings.

use vstd::prelude::*;

use crate::text::str_eq;

verus! {

/// A keyboard shortcut binding.
#[derive(Debug, Clone)]
pub struct ShortcutBinding {
    pub action_id: String,
    pub key_sequence: String,
    pub description: String,
    pub is_global: bool,
}

pub open spec fn default_actions() -> Seq<Seq<char>> {
    seq![
        "recording.start"@,
        "recording.stop"@,
        "recording.pause"@,
        "preset.next"@,
        "preset.prev"@,
        "profile.switch"@,
        "recording.bookmark"@,
    ]
}

pub open spec fn default_keys() -> Seq<Seq<char>> {
    seq![
        "CmdOrCtrl+Shift+R"@,
        "CmdOrCtrl+Shift+S"@,
        "CmdOrCtrl+Shift+P"@,
        "CmdOrCtrl+Shift+]"@,
        "CmdOrCtrl+Shift+["@,
        "CmdOrCtrl+Shift+/"@,
        "CmdOrCtrl+Shift+B"@,
    ]
}

pub open spec fn default_descriptions() -> Seq<Seq<char>> {
    seq![
        "Start recording"@,
        "Stop recording"@,
        "Pause/Resume recording"@,
        "Next capture preset"@,
        "Previous capture preset"@,
        "Switch profile"@,
        "Add bookmark"@,
    ]
}

pub open spec fn default_global() -> Seq<bool> {
    seq![true, true, true, false, false, true, true]
}

/// The binding shipped at position `i` of [`default_shortcuts`].
pub open spec fn is_default_binding(b: ShortcutBinding, i: int) -> bool {
    &&& b.action_id@ == default_actions()[i]
    &&& b.key_sequence@ == default_keys()[i]
    &&& b.description@ == default_descriptions()[i]
    &&& b.is_global == default_global()[i]
}

fn binding(action_id: &str, key_sequence: &str, description: &str, is_global: bool) -> (r:
    ShortcutBinding)
    ensures
        r.action_id@ == action_id@,
        r.key_sequence@ == key_sequence@,
        r.description@ == description@,
        r.is_global == is_global,
{
    ShortcutBinding {
        action_id: action_id.to_owned(),
        key_sequence: key_sequence.to_owned(),
        description: description.to_owned(),
        is_global,
    }
}

/// Every action that can be bound, with its default key.
pub fn default_shortcuts() -> (r: Vec<ShortcutBinding>)
    ensures
        r@.len() == 7,
        forall|i: int| 0 <= i < 7 ==> is_default_binding(#[trigger] r@[i], i),
{
    let mut r = Vec::new();
    r.push(binding("recording.start", "CmdOrCtrl+Shift+R", "Start recording", true));
    r.push(binding("recording.stop", "CmdOrCtrl+Shift+S", "Stop recording", true));
    r.push(binding("recording.pause", "CmdOrCtrl+Shift+P", "Pause/Resume recording", true));
    r.push(binding("preset.next", "CmdOrCtrl+Shift+]", "Next capture preset", false));
    r.push(binding("preset.prev", "CmdOrCtrl+Shift+[", "Previous capture preset", false));
    r.push(binding("profile.switch", "CmdOrCtrl+Shift+/", "Switch profile", true));
    r.push(binding("recording.bookmark", "CmdOrCtrl+Shift+B", "Add bookmark", true));
    r
}

/// Bindings by action id.
#[derive(Debug, Clone)]
pub struct ShortcutStore {
    pub bindings: Vec<ShortcutBinding>,
}

/// Index of the first binding other than `action_id`'s that uses `key`.
pub open spec fn conflict_from(b: Seq<ShortcutBinding>, key: Seq<char>, action_id: Seq<char>, i: int) -> Option<int>
    decreases b.len() - i,
{
    if i < 0 || i >= b.len() {
        None
    } else if b[i].key_sequence@ == key && b[i].action_id@ != action_id {
        Some(i)
    } else {
        conflict_from(b, key, action_id, i + 1)
    }
}

proof fn lemma_conflict_from(b: Seq<ShortcutBinding>, key: Seq<char>, action_id: Seq<char>, i: int)
    requires
        0 <= i,
    ensures
        conflict_from(b, key, action_id, i) matches Some(j) ==> i <= j < b.len() && b[j].key_sequence@
            == key && b[j].action_id@ != action_id,
        conflict_from(b, key, action_id, i) is None ==> forall|j: int|
            i <= j < b.len() ==> !(b[j].key_sequence@ == key && b[j].action_id@ != action_id),
    decreases b.len() - i,
{
    if i < b.len() && !(b[i].key_sequence@ == key && b[i].action_id@ != action_id) {
        lemma_conflict_from(b, key, action_id, i + 1);
    }
}

pub open spec fn conflict_message(new_key: Seq<char>, description: Seq<char>) -> Seq<char> {
    "Key '"@ + new_key + "' already bound to '"@ + description + "'"@
}

pub open spec fn unknown_action_message(action_id: Seq<char>) -> Seq<char> {
    "Unknown action: "@ + action_id
}

/// The key bound to `action_id` among the bindings, if it has one.
pub open spec fn key_of(b: Seq<ShortcutBinding>, action_id: Seq<char>) -> Option<Seq<char>> {
    if exists|i: int| 0 <= i < b.len() && b[i].action_id@ == action_id {
        Some(b[choose|i: int| 0 <= i < b.len() && b[i].action_id@ == action_id].key_sequence@)
    } else {
        None
    }
}

/// `after` is `before` with `action_id`'s binding now using `key`, and
/// every other binding as it was.
pub open spec fn rebound(before: Seq<ShortcutBinding>, after: Seq<ShortcutBinding>, action_id: Seq<char>, key: Seq<char>) -> bool {
    &&& after.len() == before.len()
    &&& forall|i: int|
        0 <= i < before.len() ==> if before[i].action_id@ == action_id {
            (#[trigger] after[i]).key_sequence@ == key && after[i].action_id == before[i].action_id
                && after[i].description == before[i].description && after[i].is_global
                == before[i].is_global
        } else {
            after[i] == before[i]
        }
}

impl Default for ShortcutStore {
    /// The default bindings.
    fn default() -> (r: Self)
        ensures
            r.wf(),
            r.bindings@.len() == 7,
            forall|i: int| 0 <= i < 7 ==> is_default_binding(#[trigger] r.bindings@[i], i),
    {
        let bindings = default_shortcuts();
        proof {
            reveal_strlit("recording.start");
            reveal_strlit("recording.stop");
            reveal_strlit("recording.pause");
            reveal_strlit("preset.next");
            reveal_strlit("preset.prev");
            reveal_strlit("profile.switch");
            reveal_strlit("recording.bookmark");
            assert forall|i: int, j: int| 0 <= i < j < 7 implies default_actions()[i]
                != default_actions()[j] by {
                assert(default_actions()[0].len() != default_actions()[1].len());
                assert(default_actions()[0][10] != default_actions()[2][10]);
                assert(default_actions()[0].len() != default_actions()[3].len());
                assert(default_actions()[0].len() != default_actions()[4].len());
                assert(default_actions()[0].len() != default_actions()[5].len());
                assert(default_actions()[0].len() != default_actions()[6].len());
                assert(default_actions()[1].len() != default_actions()[2].len());
                assert(default_actions()[1].len() != default_actions()[3].len());
                assert(default_actions()[1].len() != default_actions()[4].len());
                assert(default_actions()[1][0] != default_actions()[5][0]);
                assert(default_actions()[1].len() != default_actions()[6].len());
                assert(default_actions()[2].len() != default_actions()[3].len());
                assert(default_actions()[2].len() != default_actions()[4].len());
                assert(default_actions()[2].len() != default_actions()[5].len());
                assert(default_actions()[2].len() != default_actions()[6].len());
                assert(default_actions()[3][7] != default_actions()[4][7]);
                assert(default_actions()[3].len() != default_actions()[5].len());
                assert(default_actions()[3].len() != default_actions()[6].len());
                assert(default_actions()[4].len() != default_actions()[5].len());
                assert(default_actions()[4].len() != default_actions()[6].len());
                assert(default_actions()[5].len() != default_actions()[6].len());
            }
            assert forall|i: int, j: int| 0 <= i < j < 7 implies bindings@[i].action_id@
                != bindings@[j].action_id@ by {
                assert(is_default_binding(bindings@[i], i));
                assert(is_default_binding(bindings@[j], j));
            }
        }
        ShortcutStore { bindings }
    }
}

impl ShortcutStore {
    /// No two bindings share an action id.
    pub open spec fn wf(&self) -> bool {
        forall|i: int, j: int|
            0 <= i < j < self.bindings@.len() ==> self.bindings@[i].action_id@
                != self.bindings@[j].action_id@
    }

    fn position(&self, action_id: &str) -> (r: Option<usize>)
        ensures
            r matches Some(i) ==> i < self.bindings@.len() && self.bindings@[i as int].action_id@
                == action_id@,
            r is None ==> forall|k: int|
                0 <= k < self.bindings@.len() ==> self.bindings@[k].action_id@ != action_id@,
    {
        let mut i: usize = 0;
        while i < self.bindings.len()
            invariant
                i <= self.bindings@.len(),
                forall|k: int| 0 <= k < i ==> self.bindings@[k].action_id@ != action_id@,
            decreases self.bindings@.len() - i,
        {
            if str_eq(self.bindings[i].action_id.as_str(), action_id) {
                return Some(i);
            }
            i += 1;
        }
        None
    }

    /// Bind `action_id` to `new_key`. Refused when another action already
    /// uses the key, or when the action is unknown; nothing changes then.
    pub fn rebind(&mut self, action_id: &str, new_key: &str) -> (r: Result<(), String>)
        requires
            old(self).wf(),
        ensures
            final(self).wf(),
            conflict_from(old(self).bindings@, new_key@, action_id@, 0) matches Some(j) ==> r
                matches Err(e) && e@ == conflict_message(
                new_key@,
                old(self).bindings@[j].description@,
            ) && final(self).bindings == old(self).bindings,
            conflict_from(old(self).bindings@, new_key@, action_id@, 0) is None ==> {
                if exists|i: int|
                    0 <= i < old(self).bindings@.len() && old(self).bindings@[i].action_id@
                        == action_id@ {
                    &&& r is Ok
                    &&& rebound(old(self).bindings@, final(self).bindings@, action_id@, new_key@)
                } else {
                    &&& r matches Err(e) && e@ == unknown_action_message(action_id@)
                    &&& final(self).bindings == old(self).bindings
                }
            },
    {
        let ghost b0 = self.bindings@;
        let mut i: usize = 0;
        while i < self.bindings.len()
            invariant
                i <= self.bindings@.len(),
                self.bindings@ == b0,
                self.bindings == old(self).bindings,
                self.wf(),
                conflict_from(b0, new_key@, action_id@, 0) == conflict_from(
                    b0,
                    new_key@,
                    action_id@,
                    i as int,
                ),
            decreases self.bindings@.len() - i,
        {
            let b = &self.bindings[i];
            if str_eq(b.key_sequence.as_str(), new_key) && !str_eq(b.action_id.as_str(), action_id) {
                let mut e = "Key '".to_owned();
                e.append(new_key);
                e.append("' already bound to '");
                e.append(b.description.as_str());
                e.append("'");
                return Err(e);
            }
            i += 1;
        }
        proof {
            lemma_conflict_from(b0, new_key@, action_id@, 0);
        }
        match self.position(action_id) {
            Some(k) => {
                self.bindings[k].key_sequence = new_key.to_owned();
                proof {
                    assert forall|q: int| 0 <= q < b0.len() && q != k implies b0[q].action_id@
                        != action_id@ by {
                        if q < k {
                            assert(b0[q].action_id@ != b0[k as int].action_id@);
                        } else {
                            assert(b0[k as int].action_id@ != b0[q].action_id@);
                        }
                    }
                }
                Ok(())
            },
            None => {
                let mut e = "Unknown action: ".to_owned();
                e.append(action_id);
                Err(e)
            },
        }
    }

    /// The key bound to `action_id`.
    pub fn get_key(&self, action_id: &str) -> (r: Option<&str>)
        requires
            self.wf(),
        ensures
            r matches Some(k) ==> exists|i: int|
                0 <= i < self.bindings@.len() && self.bindings@[i].action_id@ == action_id@
                    && self.bindings@[i].key_sequence@ == k@,
            r is None ==> forall|i: int|
                0 <= i < self.bindings@.len() ==> self.bindings@[i].action_id@ != action_id@,
            key_of(self.bindings@, action_id@) == match r {
                Some(k) => Some(k@),
                None => None::<Seq<char>>,
            },
    {
        match self.position(action_id) {
            Some(i) => {
                proof {
                    let b = self.bindings@;
                    let j = choose|j: int| 0 <= j < b.len() && b[j].action_id@ == action_id@;
                    if j != i {
                        if j < i {
                            assert(b[j].action_id@ != b[i as int].action_id@);
                        } else {
                            assert(b[i as int].action_id@ != b[j].action_id@);
                        }
                    }
                }
                Some(self.bindings[i].key_sequence.as_str())
            },
            None => None,
        }
    }
}

/// Reading a binding back after rebinding it: the action now has the new
/// key, and every other action keeps the key it had.
pub proof fn lemma_rebind_then_get_key(
    before: ShortcutStore,
    after: ShortcutStore,
    action_id: Seq<char>,
    key: Seq<char>,
    other: Seq<char>,
)
    requires
        before.wf(),
        key_of(before.bindings@, action_id) is Some,
        rebound(before.bindings@, after.bindings@, action_id, key),
    ensures
        after.wf(),
        key_of(after.bindings@, action_id) == Some(key),
        other != action_id ==> key_of(after.bindings@, other) == key_of(before.bindings@, other),
{
    let b = before.bindings@;
    let a = after.bindings@;
    assert forall|i: int, j: int| 0 <= i < j < a.len() implies a[i].action_id@ != a[j].action_id@ by {
        assert(a[i].action_id == b[i].action_id);
        assert(a[j].action_id == b[j].action_id);
    }
    let k = choose|i: int| 0 <= i < b.len() && b[i].action_id@ == action_id;
    assert(a[k].action_id@ == action_id);
    let ka = choose|i: int| 0 <= i < a.len() && a[i].action_id@ == action_id;
    if ka != k {
        assert(a[ka].action_id == b[ka].action_id);
        if ka < k {
            assert(b[ka].action_id@ != b[k].action_id@);
        } else {
            assert(b[k].action_id@ != b[ka].action_id@);
        }
    }
    if other != action_id {
        if exists|i: int| 0 <= i < b.len() && b[i].action_id@ == other {
            let ko = choose|i: int| 0 <= i < b.len() && b[i].action_id@ == other;
            assert(a[ko] == b[ko]);
            let kao = choose|i: int| 0 <= i < a.len() && a[i].action_id@ == other;
            if kao != ko {
                assert(a[kao].action_id == b[kao].action_id);
                if kao < ko {
                    assert(b[kao].action_id@ != b[ko].action_id@);
                } else {
                    assert(b[ko].action_id@ != b[kao].action_id@);
                }
            }
        } else {
            assert forall|i: int| 0 <= i < a.len() implies a[i].action_id@ != other by {
                assert(a[i].action_id == b[i].action_id);
            }
        }
    }
}

} // verus!
