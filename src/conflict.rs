//! Gathers the tables of all sources by script path; a later source replaces an earlier one.

use vstd::prelude::*;

use crate::tw_db_pp::{compare_text, path_view, PreprocessedV, TotalWarDbPreProcessed};

verus! {

/// Two sources derived the same script path; the later one was kept.
#[derive(Debug, Clone)]
pub struct ConflictRecord {
    pub path: Vec<String>,
    pub winning_source: String,
    pub losing_source: String,
}

pub open spec fn conflict_view(c: ConflictRecord) -> (Seq<Seq<char>>, Seq<char>, Seq<char>) {
    (path_view(c.path@), c.winning_source@, c.losing_source@)
}

/// The mathematical value of a `ConflictTracker`: (source, table) per script path, in the
/// order paths were first met, and the conflicts so far.
pub struct TrackerV {
    pub entries: Seq<(Seq<char>, PreprocessedV)>,
    pub conflicts: Seq<(Seq<Seq<char>>, Seq<char>, Seq<char>)>,
}

/// The position of the entry for `path`, or -1.
pub open spec fn find_path(es: Seq<(Seq<char>, PreprocessedV)>, path: Seq<Seq<char>>) -> int
    decreases es.len(),
{
    if es.len() == 0 {
        -1
    } else if es.last().1.path == path {
        es.len() - 1
    } else {
        find_path(es.drop_last(), path)
    }
}

/// No two entries share a path.
pub open spec fn paths_unique(es: Seq<(Seq<char>, PreprocessedV)>) -> bool {
    forall|i: int, j: int| 0 <= i < j < es.len() ==> es[i].1.path != es[j].1.path
}

/// Recording `t` from `source`: a new path is added at the end; a known path gets the new
/// source and table, and when the source differs, a conflict (path, new, old) is logged.
pub open spec fn record_spec(st: TrackerV, source: Seq<char>, t: PreprocessedV) -> TrackerV {
    let k = find_path(st.entries, t.path);
    if k < 0 {
        TrackerV { entries: st.entries.push((source, t)), conflicts: st.conflicts }
    } else {
        TrackerV {
            entries: st.entries.update(k, (source, t)),
            conflicts: if st.entries[k].0 != source {
                st.conflicts.push((t.path, source, st.entries[k].0))
            } else {
                st.conflicts
            },
        }
    }
}

proof fn lemma_find_path(es: Seq<(Seq<char>, PreprocessedV)>, path: Seq<Seq<char>>)
    requires
        paths_unique(es),
    ensures
        -1 <= find_path(es, path) < es.len(),
        find_path(es, path) >= 0 ==> es[find_path(es, path)].1.path == path,
        find_path(es, path) < 0 ==> forall|i: int| 0 <= i < es.len() ==> es[i].1.path != path,
        forall|i: int| 0 <= i < es.len() && es[i].1.path == path ==> find_path(es, path) == i,
    decreases es.len(),
{
    if es.len() > 0 {
        let t = es.drop_last();
        assert forall|i: int, j: int| 0 <= i < j < t.len() implies t[i].1.path != t[j].1.path by {
            assert(t[i] == es[i]);
            assert(t[j] == es[j]);
        }
        lemma_find_path(t, path);
        assert forall|i: int| 0 <= i < t.len() implies t[i] == es[i] by {}
        if es.last().1.path != path {
            assert forall|i: int| 0 <= i < es.len() && es[i].1.path == path implies find_path(
                es,
                path,
            ) == i by {
                assert(i < es.len() - 1);
                assert(t[i] == es[i]);
            }
        }
    }
}

/// Recording keeps paths unique and leaves the new table under its path.
pub proof fn lemma_record_spec(st: TrackerV, source: Seq<char>, t: PreprocessedV)
    requires
        paths_unique(st.entries),
    ensures
        paths_unique(record_spec(st, source, t).entries),
        find_path(record_spec(st, source, t).entries, t.path) >= 0,
        record_spec(st, source, t).entries[find_path(record_spec(st, source, t).entries, t.path)]
            == (source, t),
{
    lemma_find_path(st.entries, t.path);
    let k = find_path(st.entries, t.path);
    let es = record_spec(st, source, t).entries;
    if k < 0 {
        assert forall|i: int, j: int| 0 <= i < j < es.len() implies es[i].1.path != es[j].1.path by {
            if j < st.entries.len() {
                assert(es[i] == st.entries[i]);
                assert(es[j] == st.entries[j]);
            } else {
                assert(es[i] == st.entries[i]);
            }
        }
        lemma_find_path(es, t.path);
        assert(es[es.len() - 1].1.path == t.path);
    } else {
        assert forall|i: int, j: int| 0 <= i < j < es.len() implies es[i].1.path != es[j].1.path by {
            if i != k && j != k {
                assert(es[i] == st.entries[i]);
                assert(es[j] == st.entries[j]);
            } else if i == k {
                assert(es[j] == st.entries[j]);
            } else {
                assert(es[i] == st.entries[i]);
            }
        }
        lemma_find_path(es, t.path);
        assert(es[k].1.path == t.path);
    }
}

/// When a later source derives a path an earlier one already filled, the later table is
/// kept and exactly one conflict (path, later, earlier) is logged.
pub proof fn lemma_later_source_wins(
    st: TrackerV,
    a: Seq<char>,
    ta: PreprocessedV,
    b: Seq<char>,
    tb: PreprocessedV,
)
    requires
        paths_unique(st.entries),
        ta.path == tb.path,
        a != b,
    ensures
        ({
            let s1 = record_spec(st, a, ta);
            let s2 = record_spec(s1, b, tb);
            &&& s2.entries[find_path(s2.entries, tb.path)] == (b, tb)
            &&& s2.entries.len() == s1.entries.len()
            &&& s2.conflicts == s1.conflicts.push((tb.path, b, a))
        }),
{
    let s1 = record_spec(st, a, ta);
    lemma_record_spec(st, a, ta);
    let k = find_path(s1.entries, tb.path);
    lemma_find_path(s1.entries, tb.path);
    assert(k >= 0 && s1.entries[k] == (a, ta));
    lemma_record_spec(s1, b, tb);
    let s2 = record_spec(s1, b, tb);
    assert(s2.conflicts == s1.conflicts.push((tb.path, b, a)));
    assert(s2.entries == s1.entries.update(k, (b, tb)));
    assert(s2.entries.len() == s1.entries.len());
}

/// Collects the tables of all sources by script path, the later source winning.
pub struct ConflictTracker {
    entries: Vec<(String, TotalWarDbPreProcessed)>,
    conflicts: Vec<ConflictRecord>,
}

impl View for ConflictTracker {
    type V = TrackerV;

    closed spec fn view(&self) -> TrackerV {
        TrackerV {
            entries: self.entries@.map_values(
                |e: (String, TotalWarDbPreProcessed)| (e.0@, e.1@),
            ),
            conflicts: self.conflicts@.map_values(|c: ConflictRecord| conflict_view(c)),
        }
    }
}

fn same_path(a: &Vec<String>, b: &Vec<String>) -> (r: bool)
    ensures
        r == (path_view(a@) == path_view(b@)),
{
    if a.len() != b.len() {
        proof {
            assert(path_view(a@).len() != path_view(b@).len());
        }
        return false;
    }
    let mut i: usize = 0;
    while i < a.len()
        invariant
            a.len() == b.len(),
            i <= a.len(),
            forall|j: int| 0 <= j < i ==> a@[j]@ == b@[j]@,
        decreases a.len() - i,
    {
        if a[i] != b[i] {
            proof {
                assert(path_view(a@)[i as int] != path_view(b@)[i as int]);
            }
            return false;
        }
        i = i + 1;
    }
    proof {
        assert(path_view(a@) =~= path_view(b@));
    }
    true
}

impl ConflictTracker {
    pub open spec fn wf(&self) -> bool {
        paths_unique(self@.entries)
    }

    pub fn new() -> (r: Self)
        ensures
            r.wf(),
            r@.entries.len() == 0,
            r@.conflicts.len() == 0,
    {
        ConflictTracker { entries: Vec::new(), conflicts: Vec::new() }
    }

    /// Stores `table` under its script path as coming from `source_name`; see `record_spec`.
    /// Returns the source whose table was replaced, if any.
    pub fn record(&mut self, source_name: &str, table: TotalWarDbPreProcessed) -> (r: Option<String>)
        requires
            old(self).wf(),
        ensures
            final(self).wf(),
            final(self)@ == record_spec(old(self)@, source_name@, table@),
            find_path(old(self)@.entries, table@.path) < 0 ==> r is None,
            find_path(old(self)@.entries, table@.path) >= 0 ==> (r matches Some(s) && s@
                == old(self)@.entries[find_path(old(self)@.entries, table@.path)].0),
    {
        let ghost st = self@;
        proof {
            lemma_find_path(st.entries, table@.path);
        }
        let mut i: usize = 0;
        while i < self.entries.len()
            invariant
                self@ == st,
                st == old(self)@,
                self.wf(),
                i <= self.entries.len(),
                forall|j: int| 0 <= j < i ==> st.entries[j].1.path != table@.path,
                -1 <= find_path(st.entries, table@.path) < st.entries.len(),
                forall|j: int|
                    0 <= j < st.entries.len() && st.entries[j].1.path == table@.path ==> find_path(
                        st.entries,
                        table@.path,
                    ) == j,
                find_path(st.entries, table@.path) < 0 ==> forall|j: int|
                    0 <= j < st.entries.len() ==> st.entries[j].1.path != table@.path,
            decreases self.entries.len() - i,
        {
            assert(st.entries[i as int].1.path == path_view(self.entries@[i as int].1.script_file_path@));
            if same_path(&self.entries[i].1.script_file_path, &table.script_file_path) {
                assert(find_path(st.entries, table@.path) == i);
                let old_source = self.entries[i].0.clone();
                if compare_text(old_source.as_str(), source_name) != 0 {
                    let c = ConflictRecord {
                        path: table.script_file_path.clone(),
                        winning_source: String::from_str(source_name),
                        losing_source: old_source.clone(),
                    };
                    self.conflicts.push(c);
                }
                let ghost t = table@;
                self.entries.set(i, (String::from_str(source_name), table));
                proof {
                    assert(self@.entries =~= st.entries.update(i as int, (source_name@, t)));
                    assert(self@.conflicts =~= record_spec(st, source_name@, t).conflicts);
                    assert(self@ == record_spec(st, source_name@, t));
                    assert forall|a: int, b: int|
                        0 <= a < b < self@.entries.len() implies self@.entries[a].1.path
                        != self@.entries[b].1.path by {
                        if a != i && b != i {
                            assert(self@.entries[a] == st.entries[a]);
                            assert(self@.entries[b] == st.entries[b]);
                        } else if a == i {
                            assert(self@.entries[b] == st.entries[b]);
                        } else {
                            assert(self@.entries[a] == st.entries[a]);
                        }
                    }
                }
                return Some(old_source);
            }
            i = i + 1;
        }
        let ghost t = table@;
        self.entries.push((String::from_str(source_name), table));
        proof {
            assert(self@.entries =~= st.entries.push((source_name@, t)));
            assert(self@.conflicts =~= st.conflicts);
            assert(self@ == record_spec(st, source_name@, t));
        }
        None
    }

    /// The (source, table) entries, one per script path.
    pub fn entries(&self) -> (r: &Vec<(String, TotalWarDbPreProcessed)>)
        ensures
            r@.map_values(|e: (String, TotalWarDbPreProcessed)| (e.0@, e.1@)) == self@.entries,
    {
        &self.entries
    }

    /// The conflicts logged so far, in order.
    pub fn conflicts(&self) -> (r: &Vec<ConflictRecord>)
        ensures
            r@.map_values(|c: ConflictRecord| conflict_view(c)) == self@.conflicts,
    {
        &self.conflicts
    }
}

} // verus!
