//! The watch folder's decisions: which masters are ready to build.
//!
//! A master is ready once two polls in a row measure it the same (size,
//! modification time, and for a directory its entry count), so a file still
//! being copied in is left alone. A master built once is never ready again
//! while it stays in the folder; one that leaves the folder is forgotten.
//! Listing the folder, measuring the masters and building them is the caller's.
use vstd::prelude::*;
use crate::text::{chars_of, eq, eq_str, starts_with, starts_with_str, string_views};

verus! {

/// Where built masters are moved, and where failed ones go.
pub const DONE_DIRECTORY_NAME: &'static str = "done";

pub const FAILED_DIRECTORY_NAME: &'static str = "failed";

pub const AUDIO_SIDECAR_EXTENSION: &'static str = "wav";

pub const SUBTITLE_SIDECAR_EXTENSION: &'static str = "ttml";

pub const DEFAULT_POLL_INTERVAL_SECONDS: u64 = 5;

pub const MINIMUM_POLL_INTERVAL_SECONDS: u64 = 1;

/// Whether a folder entry can be a master: hidden entries and the `done` and
/// `failed` folders are not.
pub open spec fn may_be_master(file_name: Seq<char>) -> bool {
    !starts_with(file_name, "."@) && file_name != DONE_DIRECTORY_NAME@ && file_name
        != FAILED_DIRECTORY_NAME@
}

pub fn is_master_name(file_name: &str) -> (r: bool)
    ensures
        r == may_be_master(file_name@),
{
    let n = chars_of(file_name);
    !starts_with_str(&n, ".") && !eq_str(&n, DONE_DIRECTORY_NAME) && !eq_str(&n, FAILED_DIRECTORY_NAME)
}

/// One poll's measurement of a master: its size, its modification time (zero
/// for a directory) and, for a directory, how many entries it holds.
#[derive(Debug, Clone, Copy, PartialEq, Eq, Structural)]
pub struct Measurement {
    pub size: u64,
    pub modified_secs: u64,
    pub modified_nanos: u32,
    pub entry_count: u64,
}

/// The last measurement of a master, and whether it was built.
#[derive(Debug, Clone, Copy, PartialEq, Eq, Structural)]
pub struct CandidateState {
    pub measurement: Measurement,
    pub built: bool,
}

/// The masters seen so far, each once, by path.
pub struct CandidateStates {
    states: Vec<(String, CandidateState)>,
}

pub open spec fn entry_views(s: Seq<(String, CandidateState)>) -> Seq<(Seq<char>, CandidateState)> {
    s.map_values(|e: (String, CandidateState)| (e.0@, e.1))
}

/// The map the entries spell, a later entry winning over an earlier one.
pub open spec fn entries_map(s: Seq<(Seq<char>, CandidateState)>) -> Map<Seq<char>, CandidateState>
    decreases s.len(),
{
    if s.len() == 0 {
        Map::empty()
    } else {
        entries_map(s.drop_last()).insert(s.last().0, s.last().1)
    }
}

/// No path occurs twice.
pub open spec fn keys_unique(s: Seq<(Seq<char>, CandidateState)>) -> bool {
    forall|i: int, j: int| 0 <= i < j < s.len() ==> #[trigger] s[i].0 != #[trigger] s[j].0
}

/// What polling `path` with measurement `m` does: a new master is recorded
/// and not ready; a built one is left alone and not ready; any other is ready
/// exactly when it measures as it did last time, and the new measurement is
/// kept.
pub open spec fn observe_spec(st: Map<Seq<char>, CandidateState>, path: Seq<char>, m: Measurement) -> (
    Map<Seq<char>, CandidateState>,
    bool,
) {
    if !st.contains_key(path) {
        (st.insert(path, CandidateState { measurement: m, built: false }), false)
    } else if st[path].built {
        (st, false)
    } else {
        (st.insert(path, CandidateState { measurement: m, built: false }), st[path].measurement == m)
    }
}

/// A master marked built; a path never seen is left alone.
pub open spec fn mark_built_spec(st: Map<Seq<char>, CandidateState>, path: Seq<char>) -> Map<
    Seq<char>,
    CandidateState,
> {
    if st.contains_key(path) {
        st.insert(path, CandidateState { measurement: st[path].measurement, built: true })
    } else {
        st
    }
}

/// Only the masters still in the folder are remembered.
pub open spec fn retain_spec(st: Map<Seq<char>, CandidateState>, present: Seq<Seq<char>>) -> Map<
    Seq<char>,
    CandidateState,
> {
    st.restrict(present.to_set())
}

proof fn lemma_map_has(s: Seq<(Seq<char>, CandidateState)>, k: int)
    requires
        keys_unique(s),
        0 <= k < s.len(),
    ensures
        entries_map(s).contains_key(s[k].0),
        entries_map(s)[s[k].0] == s[k].1,
    decreases s.len(),
{
    if k < s.len() - 1 {
        let t = s.drop_last();
        assert(t[k] == s[k]);
        lemma_map_has(t, k);
        assert(s[s.len() - 1].0 != s[k].0);
    }
}

proof fn lemma_map_dom(s: Seq<(Seq<char>, CandidateState)>, p: Seq<char>)
    requires
        entries_map(s).contains_key(p),
    ensures
        exists|k: int| 0 <= k < s.len() && #[trigger] s[k].0 == p,
    decreases s.len(),
{
    if s.len() > 0 && s.last().0 != p {
        let t = s.drop_last();
        lemma_map_dom(t, p);
        let k = choose|k: int| 0 <= k < t.len() && #[trigger] t[k].0 == p;
        assert(s[k] == t[k]);
    } else {
        assert(s[s.len() - 1].0 == p);
    }
}

proof fn lemma_map_update(s: Seq<(Seq<char>, CandidateState)>, k: int, v: CandidateState)
    requires
        keys_unique(s),
        0 <= k < s.len(),
    ensures
        entries_map(s.update(k, (s[k].0, v))) =~= entries_map(s).insert(s[k].0, v),
    decreases s.len(),
{
    let u = s.update(k, (s[k].0, v));
    if k == s.len() - 1 {
        assert(u.drop_last() =~= s.drop_last());
    } else {
        let t = s.drop_last();
        assert(u.drop_last() =~= t.update(k, (t[k].0, v)));
        assert(t[k] == s[k]);
        lemma_map_update(t, k, v);
        assert(s[s.len() - 1].0 != s[k].0);
        assert(u.last() == s.last());
    }
}

spec fn states_view(c: &CandidateStates) -> Seq<(Seq<char>, CandidateState)> {
    entry_views(c.states@)
}

impl CandidateStates {
    /// No path is recorded twice.
    pub closed spec fn well_formed(&self) -> bool {
        keys_unique(states_view(self))
    }

    /// The state of each master seen, by path.
    pub closed spec fn state_map(&self) -> Map<Seq<char>, CandidateState> {
        entries_map(states_view(self))
    }

    /// Nothing seen yet.
    pub fn new() -> (r: Self)
        ensures
            r.well_formed(),
            r.state_map() == Map::<Seq<char>, CandidateState>::empty(),
    {
        let r = CandidateStates { states: Vec::new() };
        assert(states_view(&r) =~= Seq::<(Seq<char>, CandidateState)>::empty());
        r
    }

    fn position(&self, path: &str) -> (r: Option<usize>)
        requires
            self.well_formed(),
        ensures
            match r {
                Some(k) => k < self.states@.len() && states_view(self)[k as int].0 == path@,
                None => !self.state_map().contains_key(path@),
            },
    {
        let p = chars_of(path);
        let mut i: usize = 0;
        while i < self.states.len()
            invariant
                i <= self.states@.len(),
                p@ == path@,
                forall|j: int| 0 <= j < i ==> #[trigger] states_view(self)[j].0 != path@,
            decreases self.states.len() - i,
        {
            if eq(&chars_of(self.states[i].0.as_str()), &p) {
                return Some(i);
            }
            i += 1;
        }
        proof {
            if self.state_map().contains_key(path@) {
                lemma_map_dom(states_view(self), path@);
            }
        }
        None
    }

    /// Poll `path` with its measurement; the answer is whether the master is
    /// ready to build.
    pub fn observe(&mut self, path: &str, measurement: Measurement) -> (r: bool)
        requires
            old(self).well_formed(),
        ensures
            final(self).well_formed(),
            (final(self).state_map(), r) == observe_spec(old(self).state_map(), path@, measurement),
    {
        let ghost before = states_view(self);
        match self.position(path) {
            None => {
                let fresh = CandidateState { measurement, built: false };
                self.states.push((crate::text::string_of(&chars_of(path)), fresh));
                proof {
                    assert(states_view(self) =~= before.push((path@, fresh)));
                    assert(states_view(self).drop_last() =~= before);
                    assert forall|i: int, j: int|
                        0 <= i < j < states_view(self).len() implies #[trigger] states_view(self)[i].0
                        != #[trigger] states_view(self)[j].0 by {
                        if j == before.len() {
                            assert(states_view(self)[i] == before[i]);
                            if before[i].0 == path@ {
                                lemma_map_has(before, i);
                            }
                        } else {
                            assert(states_view(self)[i] == before[i]);
                            assert(states_view(self)[j] == before[j]);
                        }
                    }
                }
                false
            },
            Some(k) => {
                let state = self.states[k].1;
                proof {
                    lemma_map_has(before, k as int);
                }
                if state.built {
                    return false;
                }
                let ready = state.measurement == measurement;
                let key = crate::text::string_of(&chars_of(self.states[k].0.as_str()));
                let updated = CandidateState { measurement, built: false };
                self.states.set(k, (key, updated));
                proof {
                    assert(states_view(self) =~= before.update(k as int, (before[k as int].0, updated)));
                    lemma_map_update(before, k as int, updated);
                    assert forall|i: int, j: int|
                        0 <= i < j < states_view(self).len() implies #[trigger] states_view(self)[i].0
                        != #[trigger] states_view(self)[j].0 by {
                        assert(states_view(self)[i].0 == before[i].0);
                        assert(states_view(self)[j].0 == before[j].0);
                    }
                }
                ready
            },
        }
    }

    /// Record that `path` was built.
    pub fn mark_built(&mut self, path: &str)
        requires
            old(self).well_formed(),
        ensures
            final(self).well_formed(),
            final(self).state_map() == mark_built_spec(old(self).state_map(), path@),
    {
        let ghost before = states_view(self);
        match self.position(path) {
            None => {},
            Some(k) => {
                let state = self.states[k].1;
                proof {
                    lemma_map_has(before, k as int);
                }
                let key = crate::text::string_of(&chars_of(self.states[k].0.as_str()));
                let updated = CandidateState { measurement: state.measurement, built: true };
                self.states.set(k, (key, updated));
                proof {
                    assert(states_view(self) =~= before.update(k as int, (before[k as int].0, updated)));
                    lemma_map_update(before, k as int, updated);
                    assert forall|i: int, j: int|
                        0 <= i < j < states_view(self).len() implies #[trigger] states_view(self)[i].0
                        != #[trigger] states_view(self)[j].0 by {
                        assert(states_view(self)[i].0 == before[i].0);
                        assert(states_view(self)[j].0 == before[j].0);
                    }
                }
            },
        }
    }

    /// Forget every master that is no longer among `present`.
    pub fn retain_present(&mut self, present: &Vec<String>)
        requires
            old(self).well_formed(),
        ensures
            final(self).well_formed(),
            final(self).state_map() == retain_spec(old(self).state_map(), string_views(present@)),
    {
        let ghost s = states_view(self);
        let ghost keep = string_views(present@).to_set();
        let mut out: Vec<(String, CandidateState)> = Vec::new();
        let mut i: usize = 0;
        while i < self.states.len()
            invariant
                i <= self.states@.len(),
                s == states_view(self),
                keys_unique(s),
                keep == string_views(present@).to_set(),
                keys_unique(entry_views(out@)),
                entries_map(entry_views(out@)) =~= entries_map(s.take(i as int)).restrict(keep),
            decreases self.states.len() - i,
        {
            let name = chars_of(self.states[i].0.as_str());
            let mut found = false;
            let mut j: usize = 0;
            while j < present.len()
                invariant
                    j <= present@.len(),
                    name@ == s[i as int].0,
                    found == exists|q: int| 0 <= q < j && #[trigger] present@[q]@ == name@,
                decreases present.len() - j,
            {
                if eq(&chars_of(present[j].as_str()), &name) {
                    found = true;
                }
                j += 1;
            }
            let ghost pre = s.take(i as int);
            let ghost before = entry_views(out@);
            assert(s.take(i + 1) =~= pre.push(s[i as int]));
            assert(s.take(i + 1).drop_last() =~= pre);
            proof {
                if found {
                    let q = choose|q: int| 0 <= q < present@.len() && #[trigger] present@[q]@ == name@;
                    assert(string_views(present@)[q] == name@);
                    assert(keep.contains(name@));
                } else {
                    if keep.contains(name@) {
                        let q = choose|q: int|
                            0 <= q < string_views(present@).len() && string_views(present@)[q]
                                == name@;
                        assert(present@[q]@ == name@);
                    }
                }
            }
            if found {
                let key = crate::text::string_of(&name);
                out.push((key, self.states[i].1));
                proof {
                    assert(entry_views(out@) =~= before.push(s[i as int]));
                    assert(entry_views(out@).drop_last() =~= before);
                    assert forall|a: int, b: int|
                        0 <= a < b < entry_views(out@).len() implies #[trigger] entry_views(out@)[a].0
                        != #[trigger] entry_views(out@)[b].0 by {
                        if b == before.len() {
                            assert(entry_views(out@)[a] == before[a]);
                            if before[a].0 == s[i as int].0 {
                                lemma_map_has(before, a);
                                lemma_map_dom(pre, s[i as int].0);
                                let w = choose|w: int| 0 <= w < pre.len() && #[trigger] pre[w].0
                                    == s[i as int].0;
                                assert(pre[w] == s[w]);
                            }
                        } else {
                            assert(entry_views(out@)[a] == before[a]);
                            assert(entry_views(out@)[b] == before[b]);
                        }
                    }
                }
            }
            i += 1;
        }
        assert(s.take(self.states@.len() as int) =~= s);
        self.states = out;
    }
}

impl Default for CandidateStates {
    fn default() -> (r: Self)
        ensures
            r.well_formed(),
            r.state_map() == Map::<Seq<char>, CandidateState>::empty(),
    {
        CandidateStates::new()
    }
}

/// A master is ready only when the poll before measured it the same, it was
/// seen before, and it was not built.
pub proof fn law_ready_only_after_equal_measurements(
    st: Map<Seq<char>, CandidateState>,
    path: Seq<char>,
    m: Measurement,
)
    ensures
        observe_spec(st, path, m).1 ==> st.contains_key(path) && !st[path].built
            && st[path].measurement == m,
{
}

/// A master once built is never ready again: polling leaves it built and not
/// ready, and marking other masters built does not change it.
pub proof fn law_built_is_never_ready_again(
    st: Map<Seq<char>, CandidateState>,
    path: Seq<char>,
    other: Seq<char>,
    m: Measurement,
)
    requires
        st.contains_key(path),
        st[path].built,
    ensures
        observe_spec(st, path, m) == (st, false),
        observe_spec(st, other, m).0.contains_key(path) && observe_spec(st, other, m).0[path].built,
        mark_built_spec(st, other).contains_key(path) && mark_built_spec(st, other)[path].built,
{
}

/// A master that leaves the folder is forgotten: seen again, it starts over
/// and is not ready at its first poll.
pub proof fn law_a_master_that_leaves_is_forgotten(
    st: Map<Seq<char>, CandidateState>,
    present: Seq<Seq<char>>,
    path: Seq<char>,
    m: Measurement,
)
    requires
        !present.contains(path),
    ensures
        !retain_spec(st, present).contains_key(path),
        observe_spec(retain_spec(st, present), path, m).1 == false,
{
}

} // verus!
