//! The owned collection of all tasks, keyed by a non-negative integer
//! identifier. The collection is held sorted by identifier; `add` assigns the
//! smallest identifier not currently in use, so identifiers freed by `remove`
//! are reused by later insertions.

use vstd::prelude::*;

use crate::chars::{chars_to_string, dec_digits, usize_to_chars};
use crate::error::TodoError;
use crate::task::{long_text, short_text, Task, TaskView};
use vstd::string::StringExecFns;

verus! {

/// The mathematical value of a `Tasks` store: the live `(identifier, task)`
/// pairs in ascending identifier order.
pub open spec fn entries_view(s: Seq<(usize, Task)>) -> Seq<(usize, TaskView)> {
    Seq::new(s.len(), |i: int| (s[i].0, s[i].1@))
}

/// Well-formedness of a store value: identifiers strictly ascend, so no two
/// live tasks share an identifier.
pub open spec fn store_wf(v: Seq<(usize, TaskView)>) -> bool {
    forall|i: int, j: int| 0 <= i < j < v.len() ==> (#[trigger] v[i]).0 < (#[trigger] v[j]).0
}

/// Whether identifier `id` is live in the store value `v`.
pub open spec fn store_has(v: Seq<(usize, TaskView)>, id: usize) -> bool {
    exists|i: int| 0 <= i < v.len() && (#[trigger] v[i]).0 == id
}

/// The task at identifier `id` (meaningful when `store_has(v, id)`).
pub open spec fn store_at(v: Seq<(usize, TaskView)>, id: usize) -> TaskView {
    v[choose|i: int| 0 <= i < v.len() && (#[trigger] v[i]).0 == id].1
}

/// In a well-formed store value, position `i` holds exactly the task that
/// `store_at` yields for its identifier.
pub proof fn lemma_store_at(v: Seq<(usize, TaskView)>, i: int)
    requires
        store_wf(v),
        0 <= i < v.len(),
    ensures
        store_has(v, v[i].0),
        store_at(v, v[i].0) == v[i].1,
{
    assert(0 <= i < v.len() && v[i].0 == v[i].0);
    let j = choose|j: int| 0 <= j < v.len() && (#[trigger] v[j]).0 == v[i].0;
    if i < j {
        assert(v[i].0 < v[j].0);
    }
    if j < i {
        assert(v[j].0 < v[i].0);
    }
}

/// The description text handed to `add`: the text of the option, empty when
/// absent.
pub open spec fn desc_text(description: Option<String>) -> Seq<char> {
    match description {
        Some(d) => d@,
        None => Seq::<char>::empty(),
    }
}

/// The one-line listing entry for an identifier and task.
pub open spec fn short_line(e: (usize, TaskView)) -> Seq<char> {
    "Task : "@ + dec_digits(e.0 as int) + " - "@ + short_text(e.1)
}

/// The multi-line listing entry for an identifier and task.
pub open spec fn long_line(e: (usize, TaskView)) -> Seq<char> {
    "TASK NUMBER : "@ + dec_digits(e.0 as int) + "\n"@ + long_text(e.1)
}

/// The owned collection of all tasks for one user, keyed by identifier.
#[derive(Debug)]
pub struct Tasks {
    entries: Vec<(usize, Task)>,
}

impl View for Tasks {
    type V = Seq<(usize, TaskView)>;

    closed spec fn view(&self) -> Seq<(usize, TaskView)> {
        entries_view(self.entries@)
    }
}

impl Default for Tasks {
    /// The default store is empty.
    fn default() -> (r: Tasks)
        ensures
            r@ == Seq::<(usize, TaskView)>::empty(),
            store_wf(r@),
    {
        Tasks::new()
    }
}

impl Tasks {
    /// Creates an empty store.
    pub fn new() -> (r: Tasks)
        ensures
            r@ == Seq::<(usize, TaskView)>::empty(),
            store_wf(r@),
    {
        let r = Tasks { entries: Vec::new() };
        proof {
            assert(r@ =~= Seq::<(usize, TaskView)>::empty());
        }
        r
    }

    /// The number of live tasks.
    pub fn len(&self) -> (r: usize)
        ensures
            r == self@.len(),
    {
        self.entries.len()
    }

    /// Whether no task is live.
    pub fn is_empty(&self) -> (r: bool)
        ensures
            r == (self@.len() == 0),
    {
        self.entries.len() == 0
    }

    /// Discards all tasks; identifier allocation starts again from zero.
    pub fn clear(&mut self)
        ensures
            final(self)@ == Seq::<(usize, TaskView)>::empty(),
            store_wf(final(self)@),
    {
        self.entries.clear();
        proof {
            assert(self@ =~= Seq::<(usize, TaskView)>::empty());
        }
    }

    /// The live entries in ascending identifier order.
    pub(crate) fn entries(&self) -> (r: &Vec<(usize, Task)>)
        ensures
            entries_view(r@) == self@,
    {
        &self.entries
    }

    /// Rebuilds a store from entries already in ascending identifier order.
    pub(crate) fn from_entries(entries: Vec<(usize, Task)>) -> (r: Tasks)
        requires
            store_wf(entries_view(entries@)),
        ensures
            r@ == entries_view(entries@),
    {
        Tasks { entries }
    }

    /// Adds a new, not yet completed task under the smallest identifier not
    /// currently in use, and returns that identifier.
    pub fn add(&mut self, name: &str, description: &Option<String>) -> (id: usize)
        requires
            store_wf(old(self)@),
            old(self)@.len() < usize::MAX,
        ensures
            store_wf(final(self)@),
            !store_has(old(self)@, id),
            forall|k: usize| k < id ==> store_has(old(self)@, k),
            final(self)@.len() == old(self)@.len() + 1,
            store_has(final(self)@, id),
            store_at(final(self)@, id) == (TaskView {
                name: name@,
                description: desc_text(*description),
                completed: false,
            }),
            forall|k: usize|
                #[trigger] store_has(final(self)@, k) <==> (store_has(old(self)@, k) || k == id),
            forall|k: usize|
                store_has(old(self)@, k) && k != id ==> store_at(final(self)@, k) == store_at(
                    old(self)@,
                    k,
                ),
    {
        let ghost v0 = self@;
        let n = self.entries.len();
        let mut pos: usize = 0;
        while pos < n && self.entries[pos].0 == pos
            invariant
                pos <= n,
                n == self.entries@.len(),
                self@ == v0,
                store_wf(v0),
                forall|j: int| 0 <= j < pos ==> (#[trigger] v0[j]).0 == j,
            decreases n - pos,
        {
            proof {
                assert(v0[pos as int].0 == self.entries@[pos as int].0);
            }
            pos = pos + 1;
        }
        proof {
            // Every position below `pos` carries its own index as identifier,
            // and (by sortedness) every later identifier exceeds `pos`.
            assert forall|i: int| pos <= i < n implies (#[trigger] v0[i]).0 > pos by {
                if pos > 0 {
                    assert(v0[pos - 1].0 < v0[pos as int].0);
                }
                assert(v0[pos as int].0 != pos);
                if i > pos {
                    assert(v0[pos as int].0 < v0[i].0);
                }
            }
        }
        let desc: String = match description {
            Some(d) => d.clone(),
            None => String::new(),
        };
        let t = Task::new(name.to_owned(), desc);
        let ghost tv = t@;
        self.entries.insert(pos, (pos, t));
        let ghost v1 = self@;
        proof {
            assert(v1 =~= v0.insert(pos as int, (pos, tv)));
            assert forall|i: int, j: int| 0 <= i < j < v1.len() implies (#[trigger] v1[i]).0 < (
            #[trigger] v1[j]).0 by {
                if j < pos {
                } else if i > pos {
                    assert(v1[i] == v0[i - 1] && v1[j] == v0[j - 1]);
                } else if i == pos {
                    assert(v1[j] == v0[j - 1] && v0[j - 1].0 > pos);
                } else if j == pos {
                    assert(v1[i] == v0[i] && v0[i].0 == i);
                } else {
                    // i < pos < j
                    assert(v1[i] == v0[i] && v0[i].0 == i);
                    assert(v1[j] == v0[j - 1] && v0[j - 1].0 > pos);
                }
            }
            assert(store_wf(v1));
            assert forall|k: usize| k < pos implies store_has(v0, k) by {
                assert(v0[k as int].0 == k);
            }
            assert(v1[pos as int].0 == pos);
            lemma_store_at(v1, pos as int);
            assert forall|k: usize| #[trigger] store_has(v1, k) implies (store_has(v0, k) || k
                == pos) by {
                let i = choose|i: int| 0 <= i < v1.len() && (#[trigger] v1[i]).0 == k;
                if i < pos {
                    assert(v0[i].0 == k);
                } else if i > pos {
                    assert(v0[i - 1].0 == k);
                }
            }
            assert forall|k: usize| store_has(v0, k) implies store_has(v1, k) by {
                let i = choose|i: int| 0 <= i < v0.len() && (#[trigger] v0[i]).0 == k;
                if i < pos {
                    assert(v1[i].0 == k);
                } else {
                    assert(v1[i + 1].0 == k);
                }
            }
            assert forall|k: usize| store_has(v0, k) && k != pos implies store_at(v1, k)
                == store_at(v0, k) by {
                let i = choose|i: int| 0 <= i < v0.len() && (#[trigger] v0[i]).0 == k;
                lemma_store_at(v0, i);
                if i < pos {
                    assert(v1[i].0 == k && v1[i].1 == v0[i].1);
                    lemma_store_at(v1, i);
                } else {
                    assert(v1[i + 1].0 == k && v1[i + 1].1 == v0[i].1);
                    lemma_store_at(v1, i + 1);
                }
            }
        }
        pos
    }

    /// Removes the task at `index` and returns it. When `index` is not live,
    /// fails with `TaskIndexNotFound` and leaves the store untouched.
    pub fn remove(&mut self, index: usize) -> (r: Result<Task, TodoError>)
        requires
            store_wf(old(self)@),
        ensures
            store_wf(final(self)@),
            r is Ok <==> store_has(old(self)@, index),
            r matches Err(e) ==> e == TodoError::TaskIndexNotFound && final(self)@ == old(self)@,
            r matches Ok(t) ==> {
                &&& t@ == store_at(old(self)@, index)
                &&& final(self)@.len() == old(self)@.len() - 1
                &&& !store_has(final(self)@, index)
                &&& forall|k: usize|
                    #[trigger] store_has(final(self)@, k) <==> (store_has(old(self)@, k) && k
                        != index)
                &&& forall|k: usize|
                    store_has(old(self)@, k) && k != index ==> store_at(final(self)@, k)
                        == store_at(old(self)@, k)
            },
    {
        let ghost v0 = self@;
        match self.position_of(index) {
            None => Err(TodoError::TaskIndexNotFound),
            Some(pos) => {
                let (_, t) = self.entries.remove(pos);
                let ghost v1 = self@;
                proof {
                    assert(v1 =~= v0.remove(pos as int));
                    lemma_store_at(v0, pos as int);
                    assert forall|i: int, j: int| 0 <= i < j < v1.len() implies (
                    #[trigger] v1[i]).0 < (#[trigger] v1[j]).0 by {
                        let i0 = if i < pos {
                            i
                        } else {
                            i + 1
                        };
                        let j0 = if j < pos {
                            j
                        } else {
                            j + 1
                        };
                        assert(v1[i] == v0[i0] && v1[j] == v0[j0]);
                    }
                    assert forall|k: usize| #[trigger] store_has(v1, k) implies (store_has(v0, k)
                        && k != index) by {
                        let i = choose|i: int| 0 <= i < v1.len() && (#[trigger] v1[i]).0 == k;
                        let i0 = if i < pos {
                            i
                        } else {
                            i + 1
                        };
                        assert(v0[i0].0 == k);
                        if i0 != pos {
                            if i0 < pos {
                                assert(v0[i0].0 < v0[pos as int].0);
                            } else {
                                assert(v0[pos as int].0 < v0[i0].0);
                            }
                        }
                    }
                    assert forall|k: usize| store_has(v0, k) && k != index implies
                        #[trigger] store_has(v1, k) by {
                        let i = choose|i: int| 0 <= i < v0.len() && (#[trigger] v0[i]).0 == k;
                        if i < pos {
                            assert(v1[i].0 == k);
                        } else {
                            assert(i != pos);
                            assert(v1[i - 1].0 == k);
                        }
                    }
                    assert forall|k: usize| store_has(v0, k) && k != index implies store_at(v1, k)
                        == store_at(v0, k) by {
                        let i = choose|i: int| 0 <= i < v0.len() && (#[trigger] v0[i]).0 == k;
                        lemma_store_at(v0, i);
                        if i < pos {
                            assert(v1[i] == v0[i]);
                            lemma_store_at(v1, i);
                        } else {
                            assert(i != pos);
                            assert(v1[i - 1] == v0[i]);
                            lemma_store_at(v1, i - 1);
                        }
                    }
                    assert(v0[pos as int].1 == old(self).entries@[pos as int].1@);
                    assert(t@ == store_at(v0, index));
                }
                Ok(t)
            },
        }
    }

    /// Flips the completion flag of the task at `index` and returns the new
    /// flag. When `index` is not live, fails with `TaskIndexNotFound` and
    /// leaves the store untouched.
    pub fn toggle_completed(&mut self, index: usize) -> (r: Result<bool, TodoError>)
        requires
            store_wf(old(self)@),
        ensures
            store_wf(final(self)@),
            r is Ok <==> store_has(old(self)@, index),
            r matches Err(e) ==> e == TodoError::TaskIndexNotFound && final(self)@ == old(self)@,
            r matches Ok(b) ==> {
                &&& b == !store_at(old(self)@, index).completed
                &&& final(self)@.len() == old(self)@.len()
                &&& store_at(final(self)@, index) == (TaskView {
                    completed: b,
                    ..store_at(old(self)@, index)
                })
                &&& forall|k: usize|
                    #[trigger] store_has(final(self)@, k) <==> store_has(old(self)@, k)
                &&& forall|k: usize|
                    store_has(old(self)@, k) && k != index ==> store_at(final(self)@, k)
                        == store_at(old(self)@, k)
            },
    {
        let ghost v0 = self@;
        match self.position_of(index) {
            None => Err(TodoError::TaskIndexNotFound),
            Some(pos) => {
                let (id, mut t) = self.entries.remove(pos);
                t.toggle_completed();
                let b = t.get_is_completed();
                let ghost tv = t@;
                self.entries.insert(pos, (id, t));
                let ghost v1 = self@;
                proof {
                    lemma_store_at(v0, pos as int);
                    assert(v1 =~= v0.update(pos as int, (index, tv))) by {
                        assert forall|i: int| 0 <= i < v1.len() implies v1[i] == v0.update(
                            pos as int,
                            (index, tv),
                        )[i] by {
                            assert(self.entries@ =~= old(self).entries@.remove(pos as int).insert(
                                pos as int,
                                (index, t),
                            ));
                        }
                    }
                    assert forall|i: int, j: int| 0 <= i < j < v1.len() implies (
                    #[trigger] v1[i]).0 < (#[trigger] v1[j]).0 by {
                        assert(v0[i].0 < v0[j].0);
                        assert(v1[i].0 == v0[i].0 && v1[j].0 == v0[j].0);
                    }
                    lemma_store_at(v1, pos as int);
                    assert forall|k: usize| #[trigger] store_has(v1, k) implies store_has(v0, k) by {
                        let i = choose|i: int| 0 <= i < v1.len() && (#[trigger] v1[i]).0 == k;
                        assert(v0[i].0 == k);
                    }
                    assert forall|k: usize| #[trigger] store_has(v0, k) implies store_has(v1, k) by {
                        let i = choose|i: int| 0 <= i < v0.len() && (#[trigger] v0[i]).0 == k;
                        assert(v1[i].0 == k);
                    }
                    assert forall|k: usize| store_has(v0, k) && k != index implies store_at(v1, k)
                        == store_at(v0, k) by {
                        let i = choose|i: int| 0 <= i < v0.len() && (#[trigger] v0[i]).0 == k;
                        lemma_store_at(v0, i);
                        assert(i != pos);
                        assert(v1[i] == v0[i]);
                        lemma_store_at(v1, i);
                    }
                }
                Ok(b)
            },
        }
    }

    /// The task at identifier `index`, when it is live.
    pub fn get(&self, index: usize) -> (r: Option<&Task>)
        requires
            store_wf(self@),
        ensures
            match r {
                Some(t) => store_has(self@, index) && t@ == store_at(self@, index),
                None => !store_has(self@, index),
            },
    {
        match self.position_of(index) {
            None => None,
            Some(pos) => {
                proof {
                    lemma_store_at(self@, pos as int);
                }
                Some(&self.entries[pos].1)
            },
        }
    }

    /// The position of identifier `index` in the sorted entries, if live.
    fn position_of(&self, index: usize) -> (r: Option<usize>)
        ensures
            match r {
                Some(pos) => pos < self@.len() && self@[pos as int].0 == index,
                None => !store_has(self@, index),
            },
    {
        let n = self.entries.len();
        let mut pos: usize = 0;
        while pos < n
            invariant
                pos <= n,
                n == self.entries@.len(),
                forall|j: int| 0 <= j < pos ==> (#[trigger] self@[j]).0 != index,
            decreases n - pos,
        {
            if self.entries[pos].0 == index {
                return Some(pos);
            }
            pos = pos + 1;
        }
        None
    }

    /// The one-line listing of all tasks, in ascending identifier order.
    pub fn list_short(&self) -> (r: Vec<String>)
        ensures
            r@.len() == self@.len(),
            forall|i: int| 0 <= i < r@.len() ==> (#[trigger] r@[i])@ == short_line(self@[i]),
    {
        let n = self.entries.len();
        let mut out: Vec<String> = Vec::new();
        let mut i: usize = 0;
        while i < n
            invariant
                i <= n,
                n == self.entries@.len(),
                out@.len() == i,
                forall|j: int| 0 <= j < i ==> (#[trigger] out@[j])@ == short_line(self@[j]),
            decreases n - i,
        {
            let mut line = String::from_str("Task : ");
            let digits = usize_to_chars(self.entries[i].0);
            let digits_s = chars_to_string(&digits);
            line.append(digits_s.as_str());
            line.append(" - ");
            let short = self.entries[i].1.to_string_short();
            line.append(short.as_str());
            out.push(line);
            i = i + 1;
        }
        out
    }

    /// The multi-line listing of all tasks, in ascending identifier order.
    pub fn list_long(&self) -> (r: Vec<String>)
        ensures
            r@.len() == self@.len(),
            forall|i: int| 0 <= i < r@.len() ==> (#[trigger] r@[i])@ == long_line(self@[i]),
    {
        let n = self.entries.len();
        let mut out: Vec<String> = Vec::new();
        let mut i: usize = 0;
        while i < n
            invariant
                i <= n,
                n == self.entries@.len(),
                out@.len() == i,
                forall|j: int| 0 <= j < i ==> (#[trigger] out@[j])@ == long_line(self@[j]),
            decreases n - i,
        {
            let mut line = String::from_str("TASK NUMBER : ");
            let digits = usize_to_chars(self.entries[i].0);
            let digits_s = chars_to_string(&digits);
            line.append(digits_s.as_str());
            line.append("\n");
            let long = self.entries[i].1.to_string_long();
            line.append(long.as_str());
            out.push(line);
            i = i + 1;
        }
        out
    }
}

} // verus!
