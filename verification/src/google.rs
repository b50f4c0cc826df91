//! Google's side: the tasks of the mirror list as this library reads them,
//! and the task that mirrors an Asana task.

use crate::asana;
use crate::asana::due_text;
use crate::error::SyncError;
use crate::notes::{encode, get_asana_task_gid_from_note, linked_gid, notes_with_link};
use crate::text::{chars_of, first_index_of, lemma_first_index_is};
use vstd::prelude::*;

verus! {

/// The mirror list is asked for at most this many tasks at a time.
pub const PAGE_SIZE: i32 = 100;

/// A task of the mirror list.
#[derive(Clone, Debug, PartialEq, Eq)]
pub struct Task {
    /// Google's id of the task.
    pub id: String,
    pub title: Option<String>,
    pub notes: Option<String>,
    /// The day on which the task is due, as the midnight that begins it.
    pub due: Option<String>,
    /// When the task was completed; `None` while it is not.
    pub completed: Option<String>,
}

/// What a `Task` holds.
pub struct TaskView {
    pub id: Seq<char>,
    pub title: Option<Seq<char>>,
    pub notes: Option<Seq<char>>,
    pub due: Option<Seq<char>>,
    pub completed: Option<Seq<char>>,
}

impl View for Task {
    type V = TaskView;

    open spec fn view(&self) -> TaskView {
        TaskView {
            id: self.id@,
            title: self.title.deep_view(),
            notes: self.notes.deep_view(),
            due: self.due.deep_view(),
            completed: self.completed.deep_view(),
        }
    }
}

impl DeepView for Task {
    type V = TaskView;

    open spec fn deep_view(&self) -> TaskView {
        self.view()
    }
}

/// The tasks of the mirror list, by whether they are completed.
#[derive(Clone, Debug, PartialEq, Eq)]
pub struct GTaskResult {
    pub incomplete: Vec<Task>,
    pub complete: Vec<Task>,
}

/// What a `GTaskResult` holds.
pub struct GTaskResultView {
    pub incomplete: Seq<TaskView>,
    pub complete: Seq<TaskView>,
}

impl View for GTaskResult {
    type V = GTaskResultView;

    open spec fn view(&self) -> GTaskResultView {
        GTaskResultView {
            incomplete: self.incomplete.deep_view(),
            complete: self.complete.deep_view(),
        }
    }
}

impl DeepView for GTaskResult {
    type V = GTaskResultView;

    open spec fn deep_view(&self) -> GTaskResultView {
        self.view()
    }
}

/// Of `items`, the tasks that are not completed, in their order.
pub open spec fn open_tasks(items: Seq<TaskView>) -> Seq<TaskView> {
    items.filter(|task: TaskView| task.completed is None)
}

/// Of `items`, the tasks that are completed, in their order.
pub open spec fn done_tasks(items: Seq<TaskView>) -> Seq<TaskView> {
    items.filter(|task: TaskView| task.completed is Some)
}

impl GTaskResult {
    /// No tasks.
    pub fn new() -> (result: GTaskResult)
        ensures
            result@ == (GTaskResultView { incomplete: Seq::empty(), complete: Seq::empty() }),
    {
        let result = GTaskResult { incomplete: Vec::new(), complete: Vec::new() };
        assert(result.incomplete.deep_view() == Seq::<TaskView>::empty());
        assert(result.complete.deep_view() == Seq::<TaskView>::empty());
        result
    }

    /// Adds the tasks of one page of the mirror list, `items`, each to the
    /// completed or to the others, behind those that are there.
    pub fn add_page(&mut self, items: Vec<Task>)
        ensures
            final(self)@ == (GTaskResultView {
                incomplete: old(self)@.incomplete + open_tasks(items.deep_view()),
                complete: old(self)@.complete + done_tasks(items.deep_view()),
            }),
    {
        let ghost all = items.deep_view();
        let ghost open_before = self.incomplete.deep_view();
        let ghost done_before = self.complete.deep_view();
        proof {
            reveal(Seq::filter);
            assert(open_before + open_tasks(all.take(0)) == open_before);
            assert(done_before + done_tasks(all.take(0)) == done_before);
        }
        for task in it: items.into_iter()
            invariant
                it.seq().len() == all.len(),
                forall|j: int| 0 <= j < all.len() ==> (#[trigger] it.seq()[j])@ == all[j],
                self.incomplete.deep_view() == open_before + open_tasks(
                    all.take(it.index() as int),
                ),
                self.complete.deep_view() == done_before + done_tasks(
                    all.take(it.index() as int),
                ),
        {
            let ghost i = it.index() as int;
            let ghost open_now = self.incomplete.deep_view();
            let ghost done_now = self.complete.deep_view();
            proof {
                assert(all.take(i + 1) == all.take(i).push(task@));
                all.take(i).lemma_filter_push(task@, |task: TaskView| task.completed is None);
                all.take(i).lemma_filter_push(task@, |task: TaskView| task.completed is Some);
            }
            if task.completed.is_some() {
                self.complete.push(task);
                assert(self.complete.deep_view() == done_now.push(task@));
            } else {
                self.incomplete.push(task);
                assert(self.incomplete.deep_view() == open_now.push(task@));
            }
        }
        assert(all.take(all.len() as int) == all);
    }
}

/// A task list of the Google account.
#[derive(Clone, Debug, PartialEq, Eq)]
pub struct TaskList {
    pub id: Option<String>,
    pub title: Option<String>,
}

/// What a `TaskList` holds.
pub struct TaskListView {
    pub id: Option<Seq<char>>,
    pub title: Option<Seq<char>>,
}

impl View for TaskList {
    type V = TaskListView;

    open spec fn view(&self) -> TaskListView {
        TaskListView { id: self.id.deep_view(), title: self.title.deep_view() }
    }
}

impl DeepView for TaskList {
    type V = TaskListView;

    open spec fn deep_view(&self) -> TaskListView {
        self.view()
    }
}

/// The title of the task list that holds the mirror tasks.
pub open spec fn mirror_list_title() -> Seq<char> {
    seq!['A', 's', 'a', 'n', 'a']
}

/// The titles of `lists`.
pub open spec fn titles_of(lists: Seq<TaskListView>) -> Seq<Option<Seq<char>>> {
    lists.map_values(|list: TaskListView| list.title)
}

/// The id of the first of `lists` that bears the title of the mirror list,
/// where there is such a list and it has an id.
pub open spec fn mirror_list_id(lists: Seq<TaskListView>) -> Option<Seq<char>> {
    let k = first_index_of(titles_of(lists), Some(mirror_list_title()));
    if 0 <= k < lists.len() {
        lists[k].id
    } else {
        None
    }
}

/// The id of the task list that holds the mirror tasks: that of the first
/// of `lists` with the title `Asana`. Fails with `ListNotFound` where none
/// has that title, or the first that has it has no id.
pub fn find_task_list(lists: &Vec<TaskList>) -> (id: Result<String, SyncError>)
    ensures
        match mirror_list_id(lists.deep_view()) {
            Some(found) => id matches Ok(s) && s@ == found,
            None => id == Err::<String, SyncError>(SyncError::ListNotFound),
        },
{
    let wanted = "Asana".to_owned();
    proof {
        reveal_strlit("Asana");
        assert(wanted@ == mirror_list_title());
    }
    let ghost titles = titles_of(lists.deep_view());
    let mut k: usize = 0;
    while k < lists.len()
        invariant
            k <= lists.len(),
            wanted@ == mirror_list_title(),
            titles == titles_of(lists.deep_view()),
            forall|j: int| 0 <= j < k ==> titles[j] != Some(mirror_list_title()),
        decreases lists.len() - k,
    {
        let found = match &lists[k].title {
            Some(title) => *title == wanted,
            None => false,
        };
        if found {
            proof {
                lemma_first_index_is(titles, Some(mirror_list_title()), k as int);
            }
            return match &lists[k].id {
                Some(id) => Ok(id.clone()),
                None => Err(SyncError::ListNotFound),
            };
        }
        k += 1;
    }
    proof {
        lemma_first_index_is(titles, Some(mirror_list_title()), k as int);
    }
    Err(SyncError::ListNotFound)
}

/// A task to be created in the mirror list.
#[derive(Clone, Debug, PartialEq, Eq)]
pub struct NewTask {
    pub title: String,
    pub due: String,
    pub notes: String,
}

/// What a `NewTask` holds.
pub struct NewTaskView {
    pub title: Seq<char>,
    pub due: Seq<char>,
    pub notes: Seq<char>,
}

impl View for NewTask {
    type V = NewTaskView;

    open spec fn view(&self) -> NewTaskView {
        NewTaskView { title: self.title@, due: self.due@, notes: self.notes@ }
    }
}

impl DeepView for NewTask {
    type V = NewTaskView;

    open spec fn deep_view(&self) -> NewTaskView {
        self.view()
    }
}

/// A due value without the thousandths of a second that Google writes:
/// where it ends in `.000Z`, that ending is `Z` instead.
pub open spec fn normalized_due(due: Seq<char>) -> Seq<char> {
    if due.len() >= 5 && due.skip(due.len() - 5) == seq!['.', '0', '0', '0', 'Z'] {
        due.take(due.len() - 5).push('Z')
    } else {
        due
    }
}

/// `due` without the thousandths of a second that Google writes.
pub fn normalize_due(due: &str) -> (normal: String)
    ensures
        normal@ == normalized_due(due@),
{
    let chars = chars_of(due);
    let n = chars.len();
    if n >= 5 && chars[n - 5] == '.' && chars[n - 4] == '0' && chars[n - 3] == '0' && chars[n
        - 2] == '0' && chars[n - 1] == 'Z' {
        assert(due@.skip(n - 5) == seq!['.', '0', '0', '0', 'Z']);
        let mut normal = String::new();
        let mut i: usize = 0;
        while i < n - 5
            invariant
                n == chars.len(),
                n >= 5,
                i <= n - 5,
                chars@ == due@,
                normal@ == due@.take(i as int),
            decreases n - i,
        {
            normal.push(chars[i]);
            i += 1;
            assert(due@.take(i as int) == due@.take(i - 1).push(due@[i - 1]));
        }
        normal.push('Z');
        normal
    } else {
        proof {
            if n >= 5 {
                let tail = due@.skip(n - 5);
                assert(forall|j: int| 0 <= j < 5 ==> tail[j] == due@[n - 5 + j]);
            }
        }
        due.to_owned()
    }
}

/// The id of the Asana task that a mirror task names in its notes.
pub open spec fn task_gid(task: TaskView) -> Option<Seq<char>> {
    match task.notes {
        Some(note) => linked_gid(note),
        None => None,
    }
}

/// The id of the Asana task that `task` mirrors: the one that the footer of
/// its notes names. `None` where it has no notes or they have no footer.
pub fn get_asana_task_gid(task: &Task) -> (gid: Option<String>)
    ensures
        gid.deep_view() == task_gid(task@),
{
    match &task.notes {
        Some(note) => get_asana_task_gid_from_note(note.as_str()),
        None => None,
    }
}

/// The mirror of an Asana task with the due value `due`.
pub open spec fn mirror_with_due(task: asana::TaskView, due: Seq<char>) -> NewTaskView {
    NewTaskView { title: task.name, due, notes: notes_with_link(task.notes, task.gid) }
}

/// The mirror of an Asana task, where the task has a due date.
pub open spec fn mirror_of(task: asana::TaskView) -> Option<NewTaskView> {
    match due_text(task) {
        Some(due) => Some(mirror_with_due(task, due)),
        None => None,
    }
}

/// The mirror of `task` with the due value `due`: its name as title, and
/// its notes with the footer that names it.
pub fn mirror_task(task: &asana::Task, due: String) -> (mirror: NewTask)
    ensures
        mirror@ == mirror_with_due(task@, due@),
{
    NewTask {
        title: task.name.clone(),
        due,
        notes: encode(task.notes.as_str(), task.gid.as_str()),
    }
}

/// The task that is created in the mirror list for `task`. Fails with
/// `MissingDue` where `task` has neither a due day nor a due time.
pub fn new_task_from_asana(task: &asana::Task) -> (mirror: Result<NewTask, SyncError>)
    ensures
        match mirror_of(task@) {
            Some(view) => mirror matches Ok(m) && m@ == view,
            None => mirror matches Err(e) && e == SyncError::MissingDue,
        },
{
    match asana::asana_due_to_string(task) {
        Ok(due) => Ok(mirror_task(task, due)),
        Err(e) => Err(e),
    }
}

} // verus!
