//! Per-file debouncing: of the changes to one file that come in quick
//! succession only the last is emitted, and different files are debounced
//! independently. The timers run outside; this is the record they consult.
use vstd::prelude::*;

use super::{DebouncedEvent, FileEventKind};
use crate::text::{chars_of, same_chars};

verus! {

/// The event waiting for its timer under one path.
pub struct PendingEvent {
    pub path: String,
    pub project_id: String,
    pub kind: FileEventKind,
    /// The timer this event waits for.
    pub generation: u64,
}

/// The project, kind and timer of a waiting event.
pub type PendingView = (Seq<char>, FileEventKind, u64);

/// Index of the first entry for path `k` at or after `i` (the length when
/// there is none).
pub open spec fn path_pos(s: Seq<PendingEvent>, k: Seq<char>, i: int) -> int
    decreases s.len() - i,
{
    if i < 0 || i >= s.len() {
        s.len() as int
    } else if s[i].path@ == k {
        i
    } else {
        path_pos(s, k, i + 1)
    }
}

pub open spec fn entry_view(e: PendingEvent) -> PendingView {
    (e.project_id@, e.kind, e.generation)
}

/// The waiting events by path.
pub open spec fn entries_map(s: Seq<PendingEvent>) -> Map<Seq<char>, PendingView> {
    Map::new(
        |k: Seq<char>| path_pos(s, k, 0) < s.len(),
        |k: Seq<char>| entry_view(s[path_pos(s, k, 0)]),
    )
}

proof fn lemma_path_pos(s: Seq<PendingEvent>, k: Seq<char>, i: int)
    requires
        0 <= i <= s.len(),
    ensures
        i <= path_pos(s, k, i) <= s.len(),
        path_pos(s, k, i) < s.len() ==> s[path_pos(s, k, i)].path@ == k,
        forall|j: int| i <= j < path_pos(s, k, i) ==> s[j].path@ != k,
    decreases s.len() - i,
{
    if i < s.len() && s[i].path@ != k {
        lemma_path_pos(s, k, i + 1);
    }
}

/// The first index holding `k`, given where `k` is and is not.
proof fn lemma_path_pos_at(s: Seq<PendingEvent>, k: Seq<char>, j: int)
    requires
        0 <= j <= s.len(),
        j < s.len() ==> s[j].path@ == k,
        forall|m: int| 0 <= m < j ==> s[m].path@ != k,
    ensures
        path_pos(s, k, 0) == j,
{
    lemma_path_pos(s, k, 0);
    let p = path_pos(s, k, 0);
    if p < j {
        assert(s[p].path@ != k);
    }
    if p > j && j < s.len() {
        assert(s[j].path@ != k);
    }
}

/// The record of events waiting for their timers.
pub struct PendingEvents {
    entries: Vec<PendingEvent>,
    next_generation: u64,
}

impl View for PendingEvents {
    type V = Map<Seq<char>, PendingView>;

    closed spec fn view(&self) -> Map<Seq<char>, PendingView> {
        entries_map(self.entries@)
    }
}

/// A timer started for an event: the record with the event under its path,
/// replacing what was waiting there.
pub open spec fn recorded(
    m: Map<Seq<char>, PendingView>,
    path: Seq<char>,
    project_id: Seq<char>,
    kind: FileEventKind,
    generation: u64,
) -> Map<Seq<char>, PendingView> {
    m.insert(path, (project_id, kind, generation))
}

/// A timer that fires: the event it was started for, when that is still the
/// last one recorded under its path, and the record without it.
pub open spec fn fired(m: Map<Seq<char>, PendingView>, path: Seq<char>, generation: u64) -> (
    Option<(Seq<char>, FileEventKind)>,
    Map<Seq<char>, PendingView>,
) {
    if m.contains_key(path) && m[path].2 == generation {
        (Some((m[path].0, m[path].1)), m.remove(path))
    } else {
        (None, m)
    }
}

impl PendingEvents {
    /// The generation the next recorded event gets.
    pub closed spec fn next_gen(&self) -> u64 {
        self.next_generation
    }

    /// Each path has one entry, and every timer is older than the next.
    pub closed spec fn wf(&self) -> bool {
        &&& forall|i: int, j: int|
            0 <= i < j < self.entries@.len() ==> #[trigger] self.entries@[i].path@
                != #[trigger] self.entries@[j].path@
        &&& forall|i: int|
            0 <= i < self.entries@.len() ==> #[trigger] self.entries@[i].generation
                < self.next_generation
    }

    pub fn new() -> (r: PendingEvents)
        ensures
            r.wf(),
            r@ == Map::<Seq<char>, PendingView>::empty(),
            r.next_gen() == 0,
    {
        let r = PendingEvents { entries: Vec::new(), next_generation: 0 };
        assert(r@ =~= Map::<Seq<char>, PendingView>::empty());
        r
    }

    /// Whether another event can be recorded (generations are not used up).
    pub fn can_record(&self) -> (r: bool)
        ensures
            r == (self.next_gen() < u64::MAX),
    {
        self.next_generation < u64::MAX
    }

    fn find(&self, path: &[char]) -> (r: Option<usize>)
        ensures
            match r {
                Some(i) => path_pos(self.entries@, path@, 0) == i && i < self.entries@.len(),
                None => path_pos(self.entries@, path@, 0) == self.entries@.len(),
            },
    {
        proof {
            lemma_path_pos(self.entries@, path@, 0);
        }
        let mut i: usize = 0;
        while i < self.entries.len()
            invariant
                i <= self.entries@.len(),
                path_pos(self.entries@, path@, i as int) == path_pos(self.entries@, path@, 0),
            decreases self.entries@.len() - i,
        {
            let p = chars_of(self.entries[i].path.as_str());
            if same_chars(&p, path) {
                return Some(i);
            }
            i = i + 1;
        }
        None
    }

    /// Record a file event whose timer starts now; an event still waiting
    /// under the same path is replaced (its timer no longer counts). Returns
    /// the generation of the new timer.
    pub fn record(&mut self, project_id: String, path: String, kind: FileEventKind) -> (g: u64)
        requires
            old(self).wf(),
            old(self).next_gen() < u64::MAX,
        ensures
            final(self).wf(),
            g == old(self).next_gen(),
            final(self).next_gen() == g + 1,
            final(self)@ == recorded(old(self)@, path@, project_id@, kind, g),
    {
        let g = self.next_generation;
        let pc = chars_of(path.as_str());
        let ghost s0 = self.entries@;
        let ghost key = path@;
        let entry = PendingEvent { path, project_id, kind, generation: g };
        let ghost ev = entry_view(entry);
        match self.find(&pc) {
            Some(i) => {
                self.entries.set(i, entry);
                proof {
                    let s1 = self.entries@;
                    lemma_path_pos(s0, key, 0);
                    assert(s1[i as int].path@ == s0[i as int].path@);
                    assert forall|k: Seq<char>| #![auto] path_pos(s1, k, 0) == path_pos(s0, k, 0) by {
                        lemma_path_pos(s0, k, 0);
                        let p = path_pos(s0, k, 0);
                        assert forall|m: int| 0 <= m < p implies s1[m].path@ != k by {
                            if m != i {
                                assert(s1[m] == s0[m]);
                            }
                        }
                        if p < s0.len() && p != i {
                            assert(s1[p] == s0[p]);
                        }
                        lemma_path_pos_at(s1, k, p);
                    }
                    assert(entries_map(s1) =~= entries_map(s0).insert(key, ev)) by {
                        assert forall|k: Seq<char>| #[trigger] entries_map(s1).contains_key(k)
                            <==> entries_map(s0).insert(key, ev).contains_key(k) by {
                            assert(path_pos(s1, k, 0) == path_pos(s0, k, 0));
                        }
                        assert forall|k: Seq<char>| #[trigger] entries_map(s1).contains_key(k)
                            implies entries_map(s1)[k] == entries_map(s0).insert(key, ev)[k] by {
                            assert(path_pos(s1, k, 0) == path_pos(s0, k, 0));
                            lemma_path_pos(s0, k, 0);
                        }
                    }
                    assert forall|a: int, b: int|
                        0 <= a < b < s1.len() implies #[trigger] s1[a].path@ != #[trigger] s1[b].path@ by {
                        if a != i {
                            assert(s1[a] == s0[a]);
                        }
                        if b != i {
                            assert(s1[b] == s0[b]);
                        }
                    }
                    assert forall|m: int| 0 <= m < s1.len() implies #[trigger] s1[m].generation
                        < g + 1 by {
                        if m != i {
                            assert(s1[m] == s0[m]);
                        }
                    }
                }
            },
            None => {
                self.entries.push(entry);
                proof {
                    let s1 = self.entries@;
                    lemma_path_pos(s0, key, 0);
                    assert forall|k: Seq<char>| k != key implies #[trigger] path_pos(s1, k, 0)
                        == (if path_pos(s0, k, 0) < s0.len() {
                        path_pos(s0, k, 0)
                    } else {
                        s1.len() as int
                    }) by {
                        lemma_path_pos(s0, k, 0);
                        let p = path_pos(s0, k, 0);
                        if p < s0.len() {
                            assert forall|m: int| 0 <= m < p implies s1[m].path@ != k by {
                                assert(s1[m] == s0[m]);
                            }
                            assert(s1[p] == s0[p]);
                            lemma_path_pos_at(s1, k, p);
                        } else {
                            assert forall|m: int| 0 <= m < s1.len() implies s1[m].path@ != k by {
                                if m < s0.len() {
                                    assert(s1[m] == s0[m]);
                                }
                            }
                            lemma_path_pos_at(s1, k, s1.len() as int);
                        }
                    }
                    assert forall|m: int| 0 <= m < s0.len() implies s1[m].path@ != key by {
                        assert(s1[m] == s0[m]);
                    }
                    lemma_path_pos_at(s1, key, s0.len() as int);
                    assert(entries_map(s1) =~= entries_map(s0).insert(key, ev)) by {
                        assert forall|k: Seq<char>| #[trigger] entries_map(s1).contains_key(k)
                            <==> entries_map(s0).insert(key, ev).contains_key(k) by {
                            if k != key {
                                lemma_path_pos(s0, k, 0);
                            }
                        }
                        assert forall|k: Seq<char>| #[trigger] entries_map(s1).contains_key(k)
                            implies entries_map(s1)[k] == entries_map(s0).insert(key, ev)[k] by {
                            if k != key {
                                lemma_path_pos(s0, k, 0);
                                assert(s1[path_pos(s0, k, 0)] == s0[path_pos(s0, k, 0)]);
                            }
                        }
                    }
                    assert forall|a: int, b: int|
                        0 <= a < b < s1.len() implies #[trigger] s1[a].path@ != #[trigger] s1[b].path@ by {
                        assert(s1[a] == s0[a]);
                        if b < s0.len() {
                            assert(s1[b] == s0[b]);
                        }
                    }
                }
            },
        }
        self.next_generation = g + 1;
        g
    }

    /// The timer of generation `generation` for `path` fires: the event it
    /// was started for is handed out and forgotten, unless a later event
    /// replaced it.
    pub fn fire(&mut self, path: &str, generation: u64) -> (r: Option<DebouncedEvent>)
        requires
            old(self).wf(),
        ensures
            final(self).wf(),
            final(self).next_gen() == old(self).next_gen(),
            final(self)@ == fired(old(self)@, path@, generation).1,
            match fired(old(self)@, path@, generation).0 {
                Some((project_id, kind)) => r matches Some(e) && e.path@ == path@
                    && e.project_id@ == project_id && e.kind == kind,
                None => r is None,
            },
    {
        let pc = chars_of(path);
        let ghost s0 = self.entries@;
        let ghost key = path@;
        match self.find(&pc) {
            None => {
                proof {
                    assert(!entries_map(s0).contains_key(key));
                }
                None
            },
            Some(i) => {
                if self.entries[i].generation != generation {
                    return None;
                }
                let e = self.entries.remove(i);
                proof {
                    let s1 = self.entries@;
                    lemma_path_pos(s0, key, 0);
                    assert forall|k: Seq<char>| k != key implies #[trigger] path_pos(s1, k, 0)
                        == (if path_pos(s0, k, 0) < i {
                        path_pos(s0, k, 0)
                    } else if path_pos(s0, k, 0) < s0.len() {
                        path_pos(s0, k, 0) - 1
                    } else {
                        s1.len() as int
                    }) by {
                        lemma_path_pos(s0, k, 0);
                        let p = path_pos(s0, k, 0);
                        if p < i {
                            assert forall|m: int| 0 <= m < p implies s1[m].path@ != k by {
                                assert(s1[m] == s0[m]);
                            }
                            assert(s1[p] == s0[p]);
                            lemma_path_pos_at(s1, k, p);
                        } else if p < s0.len() {
                            assert(p != i);
                            assert forall|m: int| 0 <= m < p - 1 implies s1[m].path@ != k by {
                                if m < i {
                                    assert(s1[m] == s0[m]);
                                } else {
                                    assert(s1[m] == s0[m + 1]);
                                }
                            }
                            assert(s1[p - 1] == s0[p]);
                            lemma_path_pos_at(s1, k, p - 1);
                        } else {
                            assert forall|m: int| 0 <= m < s1.len() implies s1[m].path@ != k by {
                                if m < i {
                                    assert(s1[m] == s0[m]);
                                } else {
                                    assert(s1[m] == s0[m + 1]);
                                }
                            }
                            lemma_path_pos_at(s1, k, s1.len() as int);
                        }
                    }
                    assert forall|m: int| 0 <= m < s1.len() implies s1[m].path@ != key by {
                        if m < i {
                            assert(s1[m] == s0[m]);
                            assert(s0[m].path@ != s0[i as int].path@);
                        } else {
                            assert(s1[m] == s0[m + 1]);
                            assert(s0[i as int].path@ != s0[m + 1].path@);
                        }
                    }
                    lemma_path_pos_at(s1, key, s1.len() as int);
                    assert(entries_map(s1) =~= entries_map(s0).remove(key)) by {
                        assert forall|k: Seq<char>| #[trigger] entries_map(s1).contains_key(k)
                            <==> entries_map(s0).remove(key).contains_key(k) by {
                            if k != key {
                                lemma_path_pos(s0, k, 0);
                            }
                        }
                        assert forall|k: Seq<char>| #[trigger] entries_map(s1).contains_key(k)
                            implies entries_map(s1)[k] == entries_map(s0).remove(key)[k] by {
                            if k != key {
                                lemma_path_pos(s0, k, 0);
                                let p = path_pos(s0, k, 0);
                                assert(p != i);
                                if p < i {
                                    assert(s1[p] == s0[p]);
                                } else {
                                    assert(s1[p - 1] == s0[p]);
                                }
                            }
                        }
                    }
                    assert forall|a: int, b: int|
                        0 <= a < b < s1.len() implies #[trigger] s1[a].path@ != #[trigger] s1[b].path@ by {
                        let a0 = if a < i {
                            a
                        } else {
                            a + 1
                        };
                        let b0 = if b < i {
                            b
                        } else {
                            b + 1
                        };
                        assert(s1[a] == s0[a0]);
                        assert(s1[b] == s0[b0]);
                    }
                    assert forall|m: int| 0 <= m < s1.len() implies #[trigger] s1[m].generation
                        < self.next_generation by {
                        if m < i {
                            assert(s1[m] == s0[m]);
                        } else {
                            assert(s1[m] == s0[m + 1]);
                        }
                    }
                }
                Some(DebouncedEvent { path: e.path, project_id: e.project_id, kind: e.kind })
            },
        }
    }
}

/// Of two events recorded for one path in succession, the timer of the
/// first finds nothing and the timer of the second hands out the second.
pub proof fn law_last_event_wins(
    m: Map<Seq<char>, PendingView>,
    path: Seq<char>,
    first: (Seq<char>, FileEventKind),
    g1: u64,
    second: (Seq<char>, FileEventKind),
    g2: u64,
)
    requires
        g1 != g2,
    ensures
        ({
            let m2 = recorded(recorded(m, path, first.0, first.1, g1), path, second.0, second.1, g2);
            &&& fired(m2, path, g1).0 is None
            &&& fired(m2, path, g2).0 == Some(second)
        }),
{
}

/// Events of different paths do not touch each other: recording an event
/// for one path changes nothing of what fires for another.
pub proof fn law_paths_independent(
    m: Map<Seq<char>, PendingView>,
    path: Seq<char>,
    other: Seq<char>,
    ev: (Seq<char>, FileEventKind),
    g: u64,
    h: u64,
)
    requires
        path != other,
    ensures
        fired(recorded(m, path, ev.0, ev.1, g), other, h).0 == fired(m, other, h).0,
{
}

/// An event is handed out once: its timer finds nothing a second time.
pub proof fn law_fires_once(m: Map<Seq<char>, PendingView>, path: Seq<char>, g: u64)
    ensures
        fired(fired(m, path, g).1, path, g).0 is None,
{
}

} // verus!
