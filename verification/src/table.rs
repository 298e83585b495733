//! The task table: tasks kept in increasing order of their ids, so that a walk
//! over the table meets older tasks first.

use vstd::prelude::*;
use crate::task::{Task, TaskView};

verus! {

/// Ids strictly increase along the rows.
pub open spec fn ids_increasing(rows: Seq<(u32, TaskView)>) -> bool {
    forall|i: int, j: int| 0 <= i < j < rows.len() ==> #[trigger] rows[i].0 < #[trigger] rows[j].0
}

/// Some row carries `id`.
pub open spec fn has_id(rows: Seq<(u32, TaskView)>, id: u32) -> bool {
    exists|i: int| 0 <= i < rows.len() && (#[trigger] rows[i]).0 == id
}

/// The position of the row that carries `id`.
pub open spec fn row_index(rows: Seq<(u32, TaskView)>, id: u32) -> int {
    choose|i: int| 0 <= i < rows.len() && (#[trigger] rows[i]).0 == id
}

/// The rows read as a map from ids to tasks.
pub open spec fn rows_map(rows: Seq<(u32, TaskView)>) -> Map<u32, TaskView> {
    Map::new(|k: u32| has_id(rows, k), |k: u32| rows[row_index(rows, k)].1)
}

/// In increasing rows, the row that carries an id is the only one.
pub proof fn lemma_row_index_unique(rows: Seq<(u32, TaskView)>, i: int)
    requires
        ids_increasing(rows),
        0 <= i < rows.len(),
    ensures
        has_id(rows, rows[i].0),
        row_index(rows, rows[i].0) == i,
{
    let k = row_index(rows, rows[i].0);
    if k != i {
        if k < i {
            assert(rows[k].0 < rows[i].0);
        } else {
            assert(rows[i].0 < rows[k].0);
        }
    }
}

/// In increasing rows, the map has the task of row `i` under that row's id.
pub proof fn lemma_rows_map_at(rows: Seq<(u32, TaskView)>, i: int)
    requires
        ids_increasing(rows),
        0 <= i < rows.len(),
    ensures
        rows_map(rows).contains_key(rows[i].0),
        rows_map(rows)[rows[i].0] == rows[i].1,
{
    lemma_row_index_unique(rows, i);
}

/// Rows that carry the same ids, in the same places, have the same keys.
pub proof fn lemma_same_ids_same_keys(r: Seq<(u32, TaskView)>, r2: Seq<(u32, TaskView)>)
    requires
        r2.len() == r.len(),
        forall|j: int| 0 <= j < r.len() ==> (#[trigger] r2[j]).0 == r[j].0,
    ensures
        forall|k: u32| #[trigger] rows_map(r2).contains_key(k) <==> rows_map(r).contains_key(k),
{
    assert forall|k: u32| #[trigger] rows_map(r2).contains_key(k) <==> rows_map(r).contains_key(k) by {
        if has_id(r2, k) {
            let j = choose|j: int| 0 <= j < r2.len() && (#[trigger] r2[j]).0 == k;
            assert(r[j].0 == k);
        }
        if has_id(r, k) {
            let j = choose|j: int| 0 <= j < r.len() && (#[trigger] r[j]).0 == k;
            assert(r2[j].0 == k);
        }
    }
}

/// The rows of a vector of id and task pairs.
pub open spec fn rows_of(v: Seq<(u32, Task)>) -> Seq<(u32, TaskView)> {
    v.map_values(|e: (u32, Task)| (e.0, e.1@))
}

/// The tasks of the server, keyed and ordered by id.
pub struct TaskTable {
    entries: Vec<(u32, Task)>,
}

impl TaskTable {
    /// The rows, in order.
    pub closed spec fn rows(&self) -> Seq<(u32, TaskView)> {
        rows_of(self.entries@)
    }

    /// The table is well formed: its ids increase.
    pub open spec fn wf(&self) -> bool {
        ids_increasing(self.rows())
    }

    /// The number of tasks.
    pub fn len(&self) -> (n: usize)
        ensures
            n == self.rows().len(),
    {
        self.entries.len()
    }

    /// An empty table.
    pub fn new() -> (t: TaskTable)
        ensures
            t.wf(),
            t.rows() == Seq::<(u32, TaskView)>::empty(),
            t@ == Map::<u32, TaskView>::empty(),
    {
        let t = TaskTable { entries: Vec::new() };
        assert(t.rows() =~= Seq::<(u32, TaskView)>::empty());
        assert(t@ =~= Map::<u32, TaskView>::empty());
        t
    }

    /// The id of the row at position `i`.
    pub fn id_at(&self, i: usize) -> (id: u32)
        requires
            i < self.rows().len(),
        ensures
            id == self.rows()[i as int].0,
    {
        self.entries[i].0
    }

    /// The task of the row at position `i`.
    pub fn task_at(&self, i: usize) -> (t: &Task)
        requires
            i < self.rows().len(),
        ensures
            t@ == self.rows()[i as int].1,
    {
        &self.entries[i].1
    }

    /// The position of the row that carries `id`, if any.
    pub fn position(&self, id: u32) -> (r: Option<usize>)
        requires
            self.wf(),
        ensures
            match r {
                Some(i) => i < self.rows().len() && self.rows()[i as int].0 == id,
                None => !has_id(self.rows(), id),
            },
            r is Some <==> self@.contains_key(id),
    {
        let mut i: usize = 0;
        while i < self.entries.len()
            invariant
                i <= self.entries.len(),
                forall|j: int| 0 <= j < i ==> (#[trigger] self.rows()[j]).0 != id,
            decreases self.entries.len() - i,
        {
            if self.entries[i].0 == id {
                assert(self.rows()[i as int].0 == id);
                return Some(i);
            }
            i = i + 1;
        }
        None
    }

    /// Whether a task has this id.
    pub fn contains_key(&self, id: u32) -> (b: bool)
        requires
            self.wf(),
        ensures
            b == self@.contains_key(id),
    {
        self.position(id).is_some()
    }

    /// The task with this id, if any.
    pub fn get(&self, id: u32) -> (r: Option<&Task>)
        requires
            self.wf(),
        ensures
            match r {
                Some(t) => self@.contains_key(id) && t@ == self@[id],
                None => !self@.contains_key(id),
            },
    {
        match self.position(id) {
            Some(i) => {
                proof {
                    lemma_rows_map_at(self.rows(), i as int);
                }
                Some(&self.entries[i].1)
            },
            None => None,
        }
    }

    /// Replaces the task of the row at position `i`; the row keeps its id.
    pub fn replace_at(&mut self, i: usize, task: Task)
        requires
            old(self).wf(),
            i < old(self).rows().len(),
        ensures
            final(self).wf(),
            final(self).rows() == old(self).rows().update(i as int, (old(self).rows()[i as int].0, task@)),
    {
        let id = self.entries[i].0;
        self.entries.set(i, (id, task));
        assert(self.rows() =~= old(self).rows().update(i as int, (id, task@)));
    }

    /// Puts `task` under `id`, replacing the task that had that id.
    pub fn insert(&mut self, id: u32, task: Task)
        requires
            old(self).wf(),
        ensures
            final(self).wf(),
            final(self)@ == old(self)@.insert(id, task@),
    {
        let ghost r0 = self.rows();
        let mut i: usize = 0;
        while i < self.entries.len() && self.entries[i].0 < id
            invariant
                i <= self.entries.len(),
                self.rows() == r0,
                ids_increasing(r0),
                forall|j: int| 0 <= j < i ==> (#[trigger] r0[j]).0 < id,
            decreases self.entries.len() - i,
        {
            i = i + 1;
        }
        if i < self.entries.len() && self.entries[i].0 == id {
            self.entries.set(i, (id, task));
            let ghost r1 = self.rows();
            assert(r1 =~= r0.update(i as int, (id, task@)));
            assert(ids_increasing(r1)) by {
                assert forall|a: int, b: int| 0 <= a < b < r1.len() implies #[trigger] r1[a].0 < #[trigger] r1[b].0 by {
                    assert(r1[a].0 == r0[a].0);
                    assert(r1[b].0 == r0[b].0);
                }
            }
            assert(self@ =~= old(self)@.insert(id, task@)) by {
                assert forall|k: u32| #[trigger] rows_map(r1).contains_key(k) <==> rows_map(r0).insert(id, task@).contains_key(k) by {
                    if has_id(r1, k) {
                        let p = choose|p: int| 0 <= p < r1.len() && (#[trigger] r1[p]).0 == k;
                        assert(r0[p].0 == k);
                    }
                    if has_id(r0, k) {
                        let p = choose|p: int| 0 <= p < r0.len() && (#[trigger] r0[p]).0 == k;
                        assert(r1[p].0 == k);
                    }
                    if k == id {
                        assert(r1[i as int].0 == k);
                    }
                }
                assert forall|k: u32| #[trigger] rows_map(r1).contains_key(k) implies rows_map(r1)[k] == rows_map(r0).insert(id, task@)[k] by {
                    let p = choose|p: int| 0 <= p < r1.len() && (#[trigger] r1[p]).0 == k;
                    lemma_rows_map_at(r1, p);
                    lemma_rows_map_at(r0, p);
                    if p != i {
                        assert(r1[p] == r0[p]);
                        assert(r0[p].0 != r0[i as int].0);
                    }
                }
            }
        } else {
            self.entries.insert(i, (id, task));
            let ghost r1 = self.rows();
            assert(r1 =~= r0.insert(i as int, (id, task@)));
            assert(ids_increasing(r1)) by {
                assert forall|a: int, b: int| 0 <= a < b < r1.len() implies #[trigger] r1[a].0 < #[trigger] r1[b].0 by {
                    if a < i && b > i {
                        assert(r1[b] == r0[b - 1]);
                        if b - 1 > i {
                            assert(r0[i as int].0 < r0[b - 1].0);
                        }
                    }
                    if a == i && b > i {
                        assert(r1[b] == r0[b - 1]);
                        if b - 1 > i {
                            assert(r0[i as int].0 < r0[b - 1].0);
                        }
                    }
                }
            }
            assert(self@ =~= old(self)@.insert(id, task@)) by {
                assert forall|k: u32| #[trigger] rows_map(r1).contains_key(k) <==> rows_map(r0).insert(id, task@).contains_key(k) by {
                    if has_id(r1, k) {
                        let p = choose|p: int| 0 <= p < r1.len() && (#[trigger] r1[p]).0 == k;
                        if p < i {
                            assert(r0[p].0 == k);
                        } else if p > i {
                            assert(r0[p - 1].0 == k);
                        }
                    }
                    if has_id(r0, k) {
                        let p = choose|p: int| 0 <= p < r0.len() && (#[trigger] r0[p]).0 == k;
                        if p < i {
                            assert(r1[p].0 == k);
                        } else {
                            assert(r1[p + 1].0 == k);
                        }
                    }
                    if k == id {
                        assert(r1[i as int].0 == k);
                    }
                }
                assert forall|k: u32| #[trigger] rows_map(r1).contains_key(k) implies rows_map(r1)[k] == rows_map(r0).insert(id, task@)[k] by {
                    let p = choose|p: int| 0 <= p < r1.len() && (#[trigger] r1[p]).0 == k;
                    lemma_rows_map_at(r1, p);
                    if p < i {
                        assert(r1[p] == r0[p]);
                        assert(k != id);
                        lemma_rows_map_at(r0, p);
                    } else if p > i {
                        assert(r1[p] == r0[p - 1]);
                        if p - 1 > i {
                            assert(r0[i as int].0 < r0[p - 1].0);
                        }
                        assert(k != id);
                        lemma_rows_map_at(r0, p - 1);
                    }
                }
            }
        }
    }

    /// Takes out the task with this id and hands it back, if there was one.
    pub fn remove(&mut self, id: u32) -> (r: Option<Task>)
        requires
            old(self).wf(),
        ensures
            final(self).wf(),
            final(self)@ == old(self)@.remove(id),
            match r {
                Some(t) => old(self)@.contains_key(id) && t@ == old(self)@[id],
                None => !old(self)@.contains_key(id),
            },
    {
        match self.position(id) {
            None => {
                assert(self@ =~= old(self)@.remove(id));
                None
            },
            Some(i) => {
                let ghost r0 = self.rows();
                proof {
                    lemma_rows_map_at(r0, i as int);
                }
                let (_, t) = self.entries.remove(i);
                let ghost r1 = self.rows();
                assert(r1 =~= r0.remove(i as int));
                assert(ids_increasing(r1)) by {
                    assert forall|a: int, b: int| 0 <= a < b < r1.len() implies #[trigger] r1[a].0 < #[trigger] r1[b].0 by {
                        let a0 = if a < i { a } else { a + 1 };
                        let b0 = if b < i { b } else { b + 1 };
                        assert(r1[a] == r0[a0]);
                        assert(r1[b] == r0[b0]);
                        assert(r0[a0].0 < r0[b0].0);
                    }
                }
                assert(self@ =~= old(self)@.remove(id)) by {
                    assert forall|k: u32| #[trigger] rows_map(r1).contains_key(k) <==> rows_map(r0).remove(id).contains_key(k) by {
                        if has_id(r1, k) {
                            let p = choose|p: int| 0 <= p < r1.len() && (#[trigger] r1[p]).0 == k;
                            if p < i {
                                assert(r0[p].0 == k);
                                assert(r0[p].0 < r0[i as int].0);
                            } else {
                                assert(r0[p + 1].0 == k);
                                assert(r0[i as int].0 < r0[p + 1].0);
                            }
                        }
                        if has_id(r0, k) && k != id {
                            let p = choose|p: int| 0 <= p < r0.len() && (#[trigger] r0[p]).0 == k;
                            if p < i {
                                assert(r1[p].0 == k);
                            } else {
                                assert(r1[p - 1].0 == k);
                            }
                        }
                    }
                    assert forall|k: u32| #[trigger] rows_map(r1).contains_key(k) implies rows_map(r1)[k] == rows_map(r0).remove(id)[k] by {
                        let p = choose|p: int| 0 <= p < r1.len() && (#[trigger] r1[p]).0 == k;
                        lemma_rows_map_at(r1, p);
                        if p < i {
                            lemma_rows_map_at(r0, p);
                        } else {
                            lemma_rows_map_at(r0, p + 1);
                        }
                    }
                }
                Some(t)
            },
        }
    }

    /// A copy of the whole table.
    pub fn duplicate(&self) -> (c: TaskTable)
        ensures
            c.rows() == self.rows(),
    {
        let mut entries: Vec<(u32, Task)> = Vec::new();
        let mut i: usize = 0;
        while i < self.entries.len()
            invariant
                i <= self.entries.len(),
                entries@.len() == i,
                rows_of(entries@) == self.rows().subrange(0, i as int),
            decreases self.entries.len() - i,
        {
            assert(self.rows()[i as int] == (self.entries@[i as int].0, self.entries@[i as int].1@));
            let e = (self.entries[i].0, self.entries[i].1.duplicate());
            let ghost before = entries@;
            let ghost ev = (e.0, e.1@);
            entries.push(e);
            assert(entries@ == before.push(e));
            assert(before.len() == i);
            assert(entries@[i as int] == e);
            assert(rows_of(entries@)[i as int] == ev);
            assert(forall|j: int| 0 <= j < i ==> #[trigger] rows_of(entries@)[j] == rows_of(before)[j]);
            i = i + 1;
            assert(rows_of(entries@) =~= self.rows().subrange(0, i as int));
        }
        let c = TaskTable { entries };
        assert(c.rows() =~= self.rows());
        c
    }

    /// The rows as a vector of pairs, in order of id.
    pub fn into_rows(self) -> (v: Vec<(u32, Task)>)
        ensures
            rows_of(v@) == self.rows(),
    {
        self.entries
    }
}

impl View for TaskTable {
    type V = Map<u32, TaskView>;

    open spec fn view(&self) -> Map<u32, TaskView> {
        rows_map(self.rows())
    }
}

} // verus!
