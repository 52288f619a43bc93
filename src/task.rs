use vstd::prelude::*;

verus! {

/// The largest id that the table can hand out: ids are `i32` values.
pub const MAX_ID: i32 = 2147483647;

/// A stored to-do item.
#[derive(Debug, PartialEq, Eq)]
pub struct Task {
    pub id: i32,
    pub description: String,
    pub completed: bool,
}

/// The payload that creates a task: its description alone.
pub struct Todo {
    pub description: String,
}

/// A task as a mathematical value.
pub struct TaskModel {
    pub id: int,
    pub description: Seq<char>,
    pub completed: bool,
}

impl TaskModel {
    /// The same task with its completion flag inverted.
    pub open spec fn flipped(self) -> TaskModel {
        TaskModel { id: self.id, description: self.description, completed: !self.completed }
    }
}

impl View for Task {
    type V = TaskModel;

    open spec fn view(&self) -> TaskModel {
        TaskModel { id: self.id as int, description: self.description@, completed: self.completed }
    }
}

/// What an optional task holds, seen mathematically.
pub open spec fn view_of(t: Option<Task>) -> Option<TaskModel> {
    match t {
        Some(t) => Some(t@),
        None => None,
    }
}

/// The table of tasks as a mathematical value: the rows in the order of
/// their ids, and the largest id handed out so far.
pub struct TableModel {
    pub rows: Seq<TaskModel>,
    pub last_id: int,
}

impl TableModel {
    /// Ids are positive, never above the last one handed out, and strictly
    /// increasing along the rows (so each id names at most one row).
    pub open spec fn wf(self) -> bool {
        &&& 0 <= self.last_id <= MAX_ID
        &&& forall|i: int|
            0 <= i < self.rows.len() ==> 1 <= #[trigger] self.rows[i].id <= self.last_id
        &&& forall|i: int, j: int|
            0 <= i < j < self.rows.len() ==> #[trigger] self.rows[i].id < #[trigger] self.rows[j].id
    }

    pub open spec fn contains_id(self, id: int) -> bool {
        exists|i: int| 0 <= i < self.rows.len() && #[trigger] self.rows[i].id == id
    }

    pub open spec fn index_of(self, id: int) -> int {
        choose|i: int| 0 <= i < self.rows.len() && #[trigger] self.rows[i].id == id
    }

    /// The row with the given id, if there is one.
    pub open spec fn find(self, id: int) -> Option<TaskModel> {
        if self.contains_id(id) {
            Some(self.rows[self.index_of(id)])
        } else {
            None
        }
    }

    /// The id that the next insertion receives.
    pub open spec fn next_id(self) -> int {
        self.last_id + 1
    }

    /// Ids are left for another insertion.
    pub open spec fn can_insert(self) -> bool {
        self.last_id < MAX_ID
    }

    /// The table after inserting a new, not completed task.
    pub open spec fn inserted(self, description: Seq<char>) -> TableModel {
        TableModel {
            rows: self.rows.push(
                TaskModel { id: self.next_id(), description, completed: false },
            ),
            last_id: self.next_id(),
        }
    }

    /// The table after flipping the completion flag of the row with the given id.
    pub open spec fn toggled(self, id: int) -> TableModel {
        TableModel {
            rows: self.rows.map_values(
                |t: TaskModel|
                    if t.id == id {
                        t.flipped()
                    } else {
                        t
                    },
            ),
            last_id: self.last_id,
        }
    }

    /// The table after removing the row with the given id.
    pub open spec fn deleted(self, id: int) -> TableModel {
        if self.contains_id(id) {
            TableModel { rows: self.rows.remove(self.index_of(id)), last_id: self.last_id }
        } else {
            self
        }
    }

    /// All rows, newest (largest id) first.
    pub open spec fn listed(self) -> Seq<TaskModel> {
        self.rows.reverse()
    }

    proof fn lemma_index_of(self, i: int)
        requires
            self.wf(),
            0 <= i < self.rows.len(),
        ensures
            self.contains_id(self.rows[i].id),
            self.index_of(self.rows[i].id) == i,
            self.find(self.rows[i].id) == Some(self.rows[i]),
    {
        let id = self.rows[i].id;
        assert(self.contains_id(id));
        let j = self.index_of(id);
        if j < i {
            assert(self.rows[j].id < self.rows[i].id);
        } else if i < j {
            assert(self.rows[i].id < self.rows[j].id);
        }
    }

    proof fn lemma_inserted_wf(self, description: Seq<char>)
        requires
            self.wf(),
            self.can_insert(),
        ensures
            self.inserted(description).wf(),
    {
        let n = self.inserted(description);
        assert forall|i: int, j: int| 0 <= i < j < n.rows.len() implies #[trigger] n.rows[i].id
            < #[trigger] n.rows[j].id by {
            if j == self.rows.len() {
                assert(self.rows[i].id <= self.last_id);
            } else {
                assert(self.rows[i].id < self.rows[j].id);
            }
        }
        assert forall|i: int| 0 <= i < n.rows.len() implies 1 <= #[trigger] n.rows[i].id
            <= n.last_id by {
            if i < self.rows.len() {
                assert(self.rows[i].id <= self.last_id);
            }
        }
    }

    proof fn lemma_toggled_wf(self, id: int)
        requires
            self.wf(),
        ensures
            self.toggled(id).wf(),
    {
        let n = self.toggled(id);
        assert forall|i: int, j: int| 0 <= i < j < n.rows.len() implies #[trigger] n.rows[i].id
            < #[trigger] n.rows[j].id by {
            assert(self.rows[i].id < self.rows[j].id);
        }
        assert forall|i: int| 0 <= i < n.rows.len() implies 1 <= #[trigger] n.rows[i].id
            <= n.last_id by {
            assert(self.rows[i].id <= self.last_id);
        }
    }

    proof fn lemma_deleted_wf(self, id: int)
        requires
            self.wf(),
        ensures
            self.deleted(id).wf(),
    {
        if self.contains_id(id) {
            let k = self.index_of(id);
            let n = self.deleted(id);
            assert forall|i: int, j: int| 0 <= i < j < n.rows.len() implies #[trigger] n.rows[i].id
                < #[trigger] n.rows[j].id by {
                let a = if i < k {
                    i
                } else {
                    i + 1
                };
                let b = if j < k {
                    j
                } else {
                    j + 1
                };
                assert(n.rows[i] == self.rows[a]);
                assert(n.rows[j] == self.rows[b]);
                assert(self.rows[a].id < self.rows[b].id);
            }
            assert forall|i: int| 0 <= i < n.rows.len() implies 1 <= #[trigger] n.rows[i].id
                <= n.last_id by {
                let a = if i < k {
                    i
                } else {
                    i + 1
                };
                assert(n.rows[i] == self.rows[a]);
                assert(self.rows[a].id <= self.last_id);
            }
        }
    }
}

/// The table that stores the tasks.
pub struct TaskTable {
    rows: Vec<Task>,
    last_id: i32,
}

impl View for TaskTable {
    type V = TableModel;

    closed spec fn view(&self) -> TableModel {
        TableModel { rows: self.rows@.map_values(|t: Task| t@), last_id: self.last_id as int }
    }
}

/// Rows that a table can hold: positive ids in strictly increasing order.
pub open spec fn rows_in_order(rows: Seq<TaskModel>) -> bool {
    &&& forall|i: int| 0 <= i < rows.len() ==> 1 <= #[trigger] rows[i].id
    &&& forall|i: int, j: int|
        0 <= i < j < rows.len() ==> #[trigger] rows[i].id < #[trigger] rows[j].id
}

impl TaskTable {
    /// A table holding the given rows, whose last id handed out is the
    /// largest of theirs; `None` where the ids are not positive and strictly
    /// increasing.
    pub fn from_rows(rows: Vec<Task>) -> (r: Option<TaskTable>)
        ensures
            r is Some <==> rows_in_order(rows@.map_values(|t: Task| t@)),
            r matches Some(table) ==> table@.wf() && table@.rows == rows@.map_values(
                |t: Task| t@,
            ) && table@.last_id == if rows@.len() == 0 {
                0
            } else {
                rows@.last().id as int
            },
    {
        let ghost m = rows@.map_values(|t: Task| t@);
        let n = rows.len();
        let mut i: usize = 0;
        while i < n
            invariant
                n == rows@.len(),
                m == rows@.map_values(|t: Task| t@),
                i <= n,
                forall|k: int| 0 <= k < i ==> 1 <= #[trigger] m[k].id,
                forall|a: int, b: int| 0 <= a < b < i ==> #[trigger] m[a].id < #[trigger] m[b].id,
            decreases n - i,
        {
            if rows[i].id < 1 {
                proof {
                    assert(m[i as int].id < 1);
                }
                return None;
            }
            if i > 0 && rows[i].id <= rows[i - 1].id {
                proof {
                    assert(m[i - 1].id >= m[i as int].id);
                }
                return None;
            }
            proof {
                assert forall|a: int, b: int| 0 <= a < b < i + 1 implies #[trigger] m[a].id
                    < #[trigger] m[b].id by {
                    if b == i && a < i - 1 {
                        assert(m[a].id < m[i - 1].id);
                    }
                }
            }
            i = i + 1;
        }
        let last_id: i32 = if n == 0 {
            0
        } else {
            rows[n - 1].id
        };
        let table = TaskTable { rows, last_id };
        proof {
            assert(table@.rows =~= m);
            assert forall|k: int| 0 <= k < m.len() implies #[trigger] m[k].id <= last_id by {
                if k < n - 1 {
                    assert(m[k].id < m[n - 1].id);
                }
            }
            if n > 0 {
                assert(m[n - 1].id >= 1);
            }
            assert(table@.wf());
        }
        Some(table)
    }

    /// An empty table; the first task inserted gets id 1.
    pub fn new() -> (r: TaskTable)
        ensures
            r@.wf(),
            r@.rows == Seq::<TaskModel>::empty(),
            r@.last_id == 0,
    {
        let r = TaskTable { rows: Vec::new(), last_id: 0 };
        assert(r@.rows =~= Seq::<TaskModel>::empty());
        r
    }
}

impl Task {
    fn duplicate(&self) -> (r: Task)
        ensures
            r@ == self@,
    {
        Task { id: self.id, description: self.description.clone(), completed: self.completed }
    }

    /// Every task of the table, newest (largest id) first.
    pub fn all(conn: &TaskTable) -> (r: Vec<Task>)
        ensures
            r@.map_values(|t: Task| t@) == conn@.listed(),
    {
        let n = conn.rows.len();
        let mut out: Vec<Task> = Vec::new();
        let mut i: usize = n;
        while i > 0
            invariant
                n == conn.rows@.len(),
                i <= n,
                out@.len() == n - i,
                forall|k: int| 0 <= k < out@.len() ==> #[trigger] out@[k]@ == conn@.rows[n - 1 - k],
            decreases i,
        {
            i = i - 1;
            out.push(conn.rows[i].duplicate());
        }
        assert(out@.map_values(|t: Task| t@) =~= conn@.listed());
        out
    }

    /// Looks a task up by its id.
    pub fn get_one(id: i32, conn: &TaskTable) -> (r: Option<Task>)
        requires
            conn@.wf(),
        ensures
            view_of(r) == conn@.find(id as int),
    {
        match conn.position(id) {
            Some(i) => Some(conn.rows[i].duplicate()),
            None => None,
        }
    }

    /// Stores a new, not completed task with the next id, and returns it as
    /// stored. Returns `None`, and leaves the table as it was, once every id
    /// has been handed out.
    pub fn insert(todo: Todo, conn: &mut TaskTable) -> (r: Option<Task>)
        requires
            old(conn)@.wf(),
        ensures
            final(conn)@.wf(),
            old(conn)@.can_insert() ==> final(conn)@ == old(conn)@.inserted(todo.description@)
                && view_of(r) == Some(
                (TaskModel {
                    id: old(conn)@.next_id(),
                    description: todo.description@,
                    completed: false,
                }),
            ),
            !old(conn)@.can_insert() ==> final(conn)@ == old(conn)@ && r is None,
    {
        if conn.last_id == MAX_ID {
            return None;
        }
        let ghost before = conn@;
        let id = conn.last_id + 1;
        let task = Task { id, description: todo.description, completed: false };
        let out = task.duplicate();
        conn.rows.push(task);
        conn.last_id = id;
        proof {
            assert(conn@.rows =~= before.inserted(out@.description).rows);
            before.lemma_inserted_wf(out@.description);
        }
        Some(out)
    }

    /// Flips the completion flag of the task with the given id and returns
    /// the task as it is afterwards; `None` where no task has that id.
    pub fn toggle_with_id(id: i32, conn: &mut TaskTable) -> (r: Option<Task>)
        requires
            old(conn)@.wf(),
        ensures
            final(conn)@.wf(),
            final(conn)@ == old(conn)@.toggled(id as int),
            r is Some <==> old(conn)@.contains_id(id as int),
            view_of(r) == final(conn)@.find(id as int),
    {
        let ghost before = conn@;
        proof {
            before.lemma_toggled_wf(id as int);
        }
        match conn.position(id) {
            Some(i) => {
                let t = Task {
                    id: conn.rows[i].id,
                    description: conn.rows[i].description.clone(),
                    completed: !conn.rows[i].completed,
                };
                let out = t.duplicate();
                conn.rows.set(i, t);
                proof {
                    let after = before.toggled(id as int);
                    assert forall|k: int| 0 <= k < before.rows.len() && k != i implies #[trigger] before.rows[k].id != id by {
                        if k < i {
                            assert(before.rows[k].id < before.rows[i as int].id);
                        } else {
                            assert(before.rows[i as int].id < before.rows[k].id);
                        }
                    }
                    assert(conn@.rows =~= after.rows);
                    after.lemma_index_of(i as int);
                }
                Some(out)
            },
            None => {
                proof {
                    assert(conn@.rows =~= before.toggled(id as int).rows);
                }
                None
            },
        }
    }

    /// Removes the task with the given id; says whether there was one.
    pub fn delete_with_id(id: i32, conn: &mut TaskTable) -> (r: bool)
        requires
            old(conn)@.wf(),
        ensures
            final(conn)@.wf(),
            final(conn)@ == old(conn)@.deleted(id as int),
            r == old(conn)@.contains_id(id as int),
    {
        let ghost before = conn@;
        proof {
            before.lemma_deleted_wf(id as int);
        }
        match conn.position(id) {
            Some(i) => {
                proof {
                    before.lemma_index_of(i as int);
                }
                let _ = conn.rows.remove(i);
                proof {
                    assert(conn@.rows =~= before.rows.remove(i as int));
                }
                true
            },
            None => false,
        }
    }
}

impl TaskTable {
    /// Where the row with the given id stands.
    fn position(&self, id: i32) -> (r: Option<usize>)
        requires
            self@.wf(),
        ensures
            match r {
                Some(i) => i < self.rows@.len() && self@.rows[i as int].id == id
                    && self@.find(id as int) == Some(self@.rows[i as int]),
                None => !self@.contains_id(id as int) && self@.find(id as int) is None,
            },
    {
        let mut i: usize = 0;
        while i < self.rows.len()
            invariant
                self@.wf(),
                i <= self.rows@.len(),
                forall|k: int| 0 <= k < i ==> #[trigger] self@.rows[k].id != id,
            decreases self.rows@.len() - i,
        {
            if self.rows[i].id == id {
                proof {
                    self@.lemma_index_of(i as int);
                }
                return Some(i);
            }
            i = i + 1;
        }
        None
    }
}

/// A task read back by the id that its insertion returned carries the
/// inserted description and is not completed.
pub proof fn law_insert_then_get(m: TableModel, description: Seq<char>)
    requires
        m.wf(),
        m.can_insert(),
    ensures
        m.inserted(description).find(m.next_id()) == Some(
            (TaskModel { id: m.next_id(), description, completed: false }),
        ),
{
    let n = m.inserted(description);
    m.lemma_inserted_wf(description);
    n.lemma_index_of(m.rows.len() as int);
}

/// Toggling an existing task flips its completion flag and nothing else.
pub proof fn law_toggle_flips(m: TableModel, id: int)
    requires
        m.wf(),
        m.contains_id(id),
    ensures
        m.toggled(id).find(id) == Some(m.find(id)->Some_0.flipped()),
{
    let i = m.index_of(id);
    m.lemma_index_of(i);
    m.lemma_toggled_wf(id);
    m.toggled(id).lemma_index_of(i);
}

/// Toggling the same id twice gives back the table as it was.
pub proof fn law_toggle_twice(m: TableModel, id: int)
    ensures
        m.toggled(id).toggled(id) == m,
{
    assert(m.toggled(id).toggled(id).rows =~= m.rows);
}

/// An id that no task has is reported absent by a lookup, and toggling or
/// deleting it leaves the table unchanged.
pub proof fn law_absent_id(m: TableModel, id: int)
    requires
        !m.contains_id(id),
    ensures
        m.find(id) is None,
        m.toggled(id) == m,
        m.toggled(id).find(id) is None,
        m.deleted(id) == m,
{
    assert(m.toggled(id).rows =~= m.rows);
}

/// After a delete, no task has the deleted id.
pub proof fn law_delete_then_get(m: TableModel, id: int)
    requires
        m.wf(),
    ensures
        !m.deleted(id).contains_id(id),
        m.deleted(id).find(id) is None,
{
    if m.contains_id(id) {
        let k = m.index_of(id);
        let n = m.deleted(id);
        m.lemma_index_of(k);
        if n.contains_id(id) {
            let j = n.index_of(id);
            if j < k {
                assert(n.rows[j] == m.rows[j]);
                assert(m.rows[j].id < m.rows[k].id);
            } else {
                assert(n.rows[j] == m.rows[j + 1]);
                assert(m.rows[k].id < m.rows[j + 1].id);
            }
        }
    }
}

/// The listing has strictly decreasing ids.
pub proof fn law_listed_descending(m: TableModel)
    requires
        m.wf(),
    ensures
        forall|i: int, j: int|
            0 <= i < j < m.listed().len() ==> #[trigger] m.listed()[i].id > #[trigger] m.listed()[j].id,
{
    let l = m.listed();
    let n = m.rows.len();
    assert forall|i: int, j: int| 0 <= i < j < l.len() implies #[trigger] l[i].id > #[trigger] l[j].id by {
        assert(l[i] == m.rows[n - 1 - i]);
        assert(l[j] == m.rows[n - 1 - j]);
        assert(m.rows[n - 1 - j].id < m.rows[n - 1 - i].id);
    }
}

} // verus!
