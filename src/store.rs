use vstd::prelude::*;

verus! {

/// The view of an optional string.
pub open spec fn opt_view(o: Option<String>) -> Option<Seq<char>> {
    match o {
        Some(s) => Some(s@),
        None => None,
    }
}

/// The first position at which `x` occurs in `s`, if any.
pub open spec fn first_pos(s: Seq<Seq<char>>, x: Seq<char>) -> Option<int> {
    if s.contains(x) {
        Some(
            choose|i: int|
                0 <= i < s.len() && s[i] == x && forall|j: int| 0 <= j < i ==> s[j] != x,
        )
    } else {
        None
    }
}

/// No two entries of `s` are equal.
pub open spec fn distinct(s: Seq<Seq<char>>) -> bool {
    forall|i: int, j: int| 0 <= i < s.len() && 0 <= j < s.len() && i != j ==> s[i] != s[j]
}

/// The identifiers of a history log, in order.
pub open spec fn history_ids(h: Seq<(Seq<char>, Seq<char>)>) -> Seq<Seq<char>> {
    h.map_values(|e: (Seq<char>, Seq<char>)| e.0)
}

/// The log after recording `(id, name)`: appended unless `id` is already present.
pub open spec fn recorded(h: Seq<(Seq<char>, Seq<char>)>, id: Seq<char>, name: Seq<char>) -> Seq<
    (Seq<char>, Seq<char>),
> {
    if history_ids(h).contains(id) {
        h
    } else {
        h.push((id, name))
    }
}

/// The log after removing the entry of `id`, if there is one.
pub open spec fn removed(h: Seq<(Seq<char>, Seq<char>)>, id: Seq<char>) -> Seq<
    (Seq<char>, Seq<char>),
> {
    match first_pos(history_ids(h), id) {
        Some(i) => h.remove(i),
        None => h,
    }
}

/// What the store holds: the current pointer and the history log.
pub struct StoreView {
    pub current: Option<Seq<char>>,
    pub history: Seq<(Seq<char>, Seq<char>)>,
}

/// One entry of the history log.
pub struct HistoryEntry {
    pub id: String,
    pub name: String,
}

/// The migration state: which migration is current, and which are applied.
pub struct StateStore {
    current: Option<String>,
    history: Vec<HistoryEntry>,
}

impl View for StateStore {
    type V = StoreView;

    closed spec fn view(&self) -> StoreView {
        StoreView {
            current: opt_view(self.current),
            history: self.history@.map_values(|e: HistoryEntry| (e.id@, e.name@)),
        }
    }
}

/// Copies an optional string.
fn copy_opt(o: &Option<String>) -> (r: Option<String>)
    ensures
        opt_view(r) == opt_view(*o),
{
    match o {
        Some(s) => Some(s.clone()),
        None => None,
    }
}

/// Copies a string through its view.
fn copy_str(s: &String) -> (r: String)
    ensures
        r@ == s@,
{
    s.clone()
}

impl StateStore {
    /// The store is well formed when the history holds each identifier once.
    pub open spec fn wf(&self) -> bool {
        distinct(history_ids(self@.history))
    }

    /// A store with no current migration and an empty history.
    pub fn new() -> (r: StateStore)
        ensures
            r.wf(),
            r@.current is None,
            r@.history == Seq::<(Seq<char>, Seq<char>)>::empty(),
    {
        let r = StateStore { current: None, history: Vec::new() };
        proof {
            assert(r@.history =~= Seq::<(Seq<char>, Seq<char>)>::empty());
        }
        r
    }

    /// The migration currently applied, if any.
    pub fn get_current(&self) -> (r: Option<String>)
        ensures
            opt_view(r) == self@.current,
    {
        copy_opt(&self.current)
    }

    /// Replaces the current pointer.
    pub fn set_current(&mut self, id: Option<String>)
        ensures
            final(self)@.current == opt_view(id),
            final(self)@.history == old(self)@.history,
            final(self).wf() == old(self).wf(),
    {
        self.current = id;
    }

    /// Position of `id` in the history log.
    fn find_history(&self, id: &String) -> (r: Option<usize>)
        ensures
            match r {
                Some(i) => first_pos(history_ids(self@.history), id@) == Some(i as int),
                None => first_pos(history_ids(self@.history), id@) is None,
            },
    {
        let ghost ids = history_ids(self@.history);
        let mut i: usize = 0;
        while i < self.history.len()
            invariant
                0 <= i <= self.history@.len(),
                ids == history_ids(self@.history),
                ids.len() == self.history@.len(),
                forall|j: int| 0 <= j < i ==> ids[j] != id@,
            decreases self.history@.len() - i,
        {
            if self.history[i].id == *id {
                proof {
                    assert(ids[i as int] == id@);
                    assert(ids.contains(id@));
                    let c = first_pos(ids, id@)->Some_0;
                    assert(c == i as int);
                }
                return Some(i);
            }
            i = i + 1;
        }
        proof {
            assert(!ids.contains(id@));
        }
        None
    }

    /// Records `(id, name)` in the history; a second record of one `id` changes nothing.
    pub fn record_history(&mut self, id: String, name: String)
        requires
            old(self).wf(),
        ensures
            final(self).wf(),
            final(self)@.current == old(self)@.current,
            final(self)@.history == recorded(old(self)@.history, id@, name@),
    {
        let found = self.find_history(&id);
        let ghost h = self@.history;
        if found.is_none() {
            proof {
                assert(!history_ids(h).contains(id@));
            }
            self.history.push(HistoryEntry { id, name });
            proof {
                assert(self@.history =~= h.push((id@, name@)));
                assert(history_ids(self@.history) =~= history_ids(h).push(id@));
            }
        } else {
            proof {
                let i = found->Some_0 as int;
                assert(history_ids(h)[i] == id@);
                assert(history_ids(h).contains(id@));
            }
        }
    }

    /// Removes the entry of `id` from the history, if there is one.
    pub fn remove_history(&mut self, id: &String)
        requires
            old(self).wf(),
        ensures
            final(self).wf(),
            final(self)@.current == old(self)@.current,
            final(self)@.history == removed(old(self)@.history, id@),
    {
        let found = self.find_history(id);
        let ghost h = self@.history;
        match found {
            Some(i) => {
                self.history.remove(i);
                proof {
                    assert(self@.history =~= h.remove(i as int));
                    assert(history_ids(self@.history) =~= history_ids(h).remove(i as int));
                }
            },
            None => {},
        }
    }

    /// The history log, oldest entry first.
    pub fn list_history(&self) -> (r: Vec<(String, String)>)
        ensures
            r@.len() == self@.history.len(),
            forall|i: int|
                0 <= i < r@.len() ==> (#[trigger] r@[i]).0@ == self@.history[i].0 && r@[i].1@
                    == self@.history[i].1,
    {
        let mut r: Vec<(String, String)> = Vec::new();
        let mut i: usize = 0;
        while i < self.history.len()
            invariant
                0 <= i <= self.history@.len(),
                r@.len() == i,
                forall|k: int|
                    0 <= k < i ==> (#[trigger] r@[k]).0@ == self@.history[k].0 && r@[k].1@
                        == self@.history[k].1,
            decreases self.history@.len() - i,
        {
            let e = &self.history[i];
            r.push((copy_str(&e.id), copy_str(&e.name)));
            i = i + 1;
        }
        r
    }

    /// The most recent history entry, as `(id, name)`, each absent on an empty log.
    pub fn last_history(&self) -> (r: (Option<String>, Option<String>))
        ensures
            self@.history.len() == 0 ==> r.0 is None && r.1 is None,
            self@.history.len() > 0 ==> opt_view(r.0) == Some(self@.history.last().0)
                && opt_view(r.1) == Some(self@.history.last().1),
    {
        let n = self.history.len();
        if n == 0 {
            (None, None)
        } else {
            let e = &self.history[n - 1];
            (Some(copy_str(&e.id)), Some(copy_str(&e.name)))
        }
    }
}

/// Recording the same identifier twice leaves exactly one entry for it, and
/// the second record changes nothing.
pub proof fn lemma_record_twice(
    h: Seq<(Seq<char>, Seq<char>)>,
    id: Seq<char>,
    name1: Seq<char>,
    name2: Seq<char>,
)
    requires
        distinct(history_ids(h)),
    ensures
        recorded(recorded(h, id, name1), id, name2) == recorded(h, id, name1),
        distinct(history_ids(recorded(h, id, name1))),
        exists|i: int|
            0 <= i < recorded(h, id, name1).len() && (#[trigger] recorded(h, id, name1)[i]).0 == id
                && forall|j: int|
                0 <= j < recorded(h, id, name1).len() && (#[trigger] recorded(h, id, name1)[j]).0
                    == id ==> j == i,
{
    let h1 = recorded(h, id, name1);
    if history_ids(h).contains(id) {
        let i = choose|i: int| 0 <= i < history_ids(h).len() && history_ids(h)[i] == id;
        assert(h1[i].0 == id);
        assert forall|j: int| 0 <= j < h1.len() && (#[trigger] h1[j]).0 == id implies j == i by {
            assert(history_ids(h)[j] == id);
        }
    } else {
        assert(history_ids(h1) =~= history_ids(h).push(id));
        let i = h.len() as int;
        assert(h1[i].0 == id);
        assert forall|j: int| 0 <= j < h1.len() && (#[trigger] h1[j]).0 == id implies j == i by {
            if j < i {
                assert(history_ids(h)[j] == id);
            }
        }
    }
    let k = choose|k: int| 0 <= k < h1.len() && h1[k].0 == id;
    assert(history_ids(h1)[k] == id);
    assert(history_ids(h1).contains(id));
}

} // verus!
