//! The reconciler: from the tasks seen on both sides at the start of a
//! cycle to the remote calls that bring the two sides together.

use crate::asana;
use crate::asana::{asana_due_to_string, due_text};
use crate::error::SyncError;
use crate::google;
use crate::google::{get_asana_task_gid, mirror_task, normalize_due, normalized_due, task_gid};
use crate::notes::{body_lines, body_prefix, lines_of, notes_with_link, separator, split_lines};
use crate::notes::{lemma_body_lines_of_link, lemma_lines_before_break, lemma_link_round_trip};
use crate::text::{first_index_of, lemma_first_index_is, lemma_first_index_of};
use crate::text::lemma_first_index_of_both;
use vstd::prelude::*;

verus! {

/// Whether two runs of lines agree as far as the shorter one goes.
pub open spec fn lines_agree(a: Seq<Seq<char>>, b: Seq<Seq<char>>) -> bool {
    forall|i: int| 0 <= i < a.len() && i < b.len() ==> a[i] == b[i]
}

/// Lines that one side has beyond the other make no difference: where one
/// run of lines begins with the other, the two agree.
pub proof fn lemma_prefix_agrees(a: Seq<Seq<char>>, b: Seq<Seq<char>>)
    requires
        a.is_prefix_of(b) || b.is_prefix_of(a),
    ensures
        lines_agree(a, b),
{
}

/// Whether the notes of a mirror task, up to their footer, and the notes of
/// an Asana task agree line by line as far as the shorter of the two goes.
/// A mirror task without notes agrees with nothing.
pub open spec fn notes_same(atask: asana::TaskView, gtask: google::TaskView) -> bool {
    match gtask.notes {
        Some(note) => lines_agree(body_lines(note), lines_of(atask.notes)),
        None => false,
    }
}

/// Whether a mirror task still reflects an Asana task: it has the task's
/// name as title, the task's due date as due value, and notes that agree
/// with the task's.
pub open spec fn equivalent(atask: asana::TaskView, gtask: google::TaskView) -> bool {
    &&& gtask.title == Some(atask.name)
    &&& gtask.due matches Some(due) && due_text(atask) == Some(normalized_due(due))
    &&& notes_same(atask, gtask)
}

fn same_lines(a: &Vec<String>, b: &Vec<String>) -> (same: bool)
    ensures
        same == lines_agree(a.deep_view(), b.deep_view()),
{
    let mut i: usize = 0;
    while i < a.len() && i < b.len()
        invariant
            forall|j: int| 0 <= j < i ==> a.deep_view()[j] == b.deep_view()[j],
        decreases a.len() - i,
    {
        if !(a[i] == b[i]) {
            assert(a.deep_view()[i as int] != b.deep_view()[i as int]);
            return false;
        }
        i += 1;
    }
    true
}

/// Whether the notes of `gtask`, up to their footer, agree with the notes
/// of `atask` line by line, as far as the shorter of the two goes.
pub fn asana_google_notes_same(atask: &asana::Task, gtask: &google::Task) -> (same: bool)
    ensures
        same == notes_same(atask@, gtask@),
{
    match &gtask.notes {
        Some(note) => {
            let mirrored = body_prefix(note.as_str());
            let own = split_lines(atask.notes.as_str());
            same_lines(&mirrored, &own)
        },
        None => false,
    }
}

/// Whether `gtask` still reflects `atask`, whose due value is `due`.
fn reflects(atask: &asana::Task, due: &String, gtask: &google::Task) -> (same: bool)
    requires
        due_text(atask@) == Some(due@),
    ensures
        same == equivalent(atask@, gtask@),
{
    let same_title = match &gtask.title {
        Some(title) => *title == atask.name,
        None => false,
    };
    let same_due = match &gtask.due {
        Some(mirrored) => normalize_due(mirrored.as_str()) == *due,
        None => false,
    };
    same_title && same_due && asana_google_notes_same(atask, gtask)
}

/// Whether `gtask` still reflects `atask`. A task without a due date is
/// reflected by no mirror task.
pub fn tasks_equivalent(atask: &asana::Task, gtask: &google::Task) -> (same: bool)
    ensures
        same == equivalent(atask@, gtask@),
{
    match asana_due_to_string(atask) {
        Ok(due) => reflects(atask, &due, gtask),
        Err(_) => false,
    }
}

/// A call to one of the two services.
#[derive(Clone, Debug, PartialEq, Eq)]
pub enum Action {
    /// Create the task held here in the mirror list.
    CreateGoogleTask(google::NewTask),
    /// Delete the task with this id from the mirror list.
    DeleteGoogleTask(String),
    /// Mark the Asana task with this id as completed.
    CompleteAsanaTask(String),
}

/// What an `Action` holds.
pub enum ActionView {
    CreateGoogleTask(google::NewTaskView),
    DeleteGoogleTask(Seq<char>),
    CompleteAsanaTask(Seq<char>),
}

impl View for Action {
    type V = ActionView;

    open spec fn view(&self) -> ActionView {
        match self {
            Action::CreateGoogleTask(task) => ActionView::CreateGoogleTask(task@),
            Action::DeleteGoogleTask(id) => ActionView::DeleteGoogleTask(id@),
            Action::CompleteAsanaTask(gid) => ActionView::CompleteAsanaTask(gid@),
        }
    }
}

impl DeepView for Action {
    type V = ActionView;

    open spec fn deep_view(&self) -> ActionView {
        self.view()
    }
}

/// What one cycle does: the calls to make, in this order, and the error
/// with which the cycle then ends, if it does not end well.
#[derive(Clone, Debug, PartialEq, Eq)]
pub struct CyclePlan {
    pub actions: Vec<Action>,
    pub failure: Option<SyncError>,
}

/// What a `CyclePlan` holds.
pub struct CyclePlanView {
    pub actions: Seq<ActionView>,
    pub failure: Option<SyncError>,
}

impl View for CyclePlan {
    type V = CyclePlanView;

    open spec fn view(&self) -> CyclePlanView {
        CyclePlanView { actions: self.actions.deep_view(), failure: self.failure }
    }
}

/// For each mirror task, the id of the Asana task that it names.
pub open spec fn gids_of(tasks: Seq<google::TaskView>) -> Seq<Option<Seq<char>>> {
    tasks.map_values(|task: google::TaskView| task_gid(task))
}

/// All mirror tasks in the order in which a match is looked for: those not
/// completed, then the completed ones.
pub open spec fn mirrors(google: google::GTaskResultView) -> Seq<google::TaskView> {
    google.incomplete + google.complete
}

/// The calls that bring one Asana task that is not completed, and has a due
/// date, to the mirror list: none where the first mirror task that names it
/// still reflects it; that mirror task deleted and a new one created where
/// it does not; a new one created where no mirror task names it.
pub open spec fn forward_one(
    atask: asana::TaskView,
    mirrors: Seq<google::TaskView>,
) -> Seq<ActionView> {
    let k = first_index_of(gids_of(mirrors), Some(atask.gid));
    let create = ActionView::CreateGoogleTask(
        google::mirror_with_due(atask, due_text(atask).unwrap()),
    );
    if !(0 <= k < mirrors.len()) {
        seq![create]
    } else if equivalent(atask, mirrors[k]) {
        Seq::empty()
    } else {
        seq![ActionView::DeleteGoogleTask(mirrors[k].id), create]
    }
}

/// The calls of `forward_one` for each of `tasks`, in their order.
pub open spec fn forward_all(
    tasks: Seq<asana::TaskView>,
    mirrors: Seq<google::TaskView>,
) -> Seq<ActionView>
    decreases tasks.len(),
{
    if tasks.len() == 0 {
        Seq::empty()
    } else {
        forward_all(tasks.drop_last(), mirrors) + forward_one(tasks.last(), mirrors)
    }
}

/// The calls for one completed mirror task: the Asana task that it names,
/// if it names one, is completed; then the mirror task is deleted.
pub open spec fn backward_one(gtask: google::TaskView) -> Seq<ActionView> {
    match task_gid(gtask) {
        Some(gid) => seq![
            ActionView::CompleteAsanaTask(gid),
            ActionView::DeleteGoogleTask(gtask.id),
        ],
        None => seq![ActionView::DeleteGoogleTask(gtask.id)],
    }
}

/// The calls of `backward_one` for each of `done`, in their order.
pub open spec fn backward_all(done: Seq<google::TaskView>) -> Seq<ActionView>
    decreases done.len(),
{
    if done.len() == 0 {
        Seq::empty()
    } else {
        backward_all(done.drop_last()) + backward_one(done.last())
    }
}

/// The calls for one completed Asana task: each mirror task among `open`
/// that names it is deleted, in their order.
pub open spec fn sweep_one(gid: Seq<char>, open: Seq<google::TaskView>) -> Seq<ActionView>
    decreases open.len(),
{
    if open.len() == 0 {
        Seq::empty()
    } else if task_gid(open.last()) == Some(gid) {
        sweep_one(gid, open.drop_last()).push(ActionView::DeleteGoogleTask(open.last().id))
    } else {
        sweep_one(gid, open.drop_last())
    }
}

/// The calls of `sweep_one` for each of `done`, in their order.
pub open spec fn sweep_all(
    done: Seq<asana::TaskView>,
    open: Seq<google::TaskView>,
) -> Seq<ActionView>
    decreases done.len(),
{
    if done.len() == 0 {
        Seq::empty()
    } else {
        sweep_all(done.drop_last(), open) + sweep_one(done.last().gid, open)
    }
}

/// For each Asana task, whether it has a due date.
pub open spec fn dues_known(tasks: Seq<asana::TaskView>) -> Seq<bool> {
    tasks.map_values(|task: asana::TaskView| due_text(task) is Some)
}

/// What a cycle does on the tasks seen at its start.
///
/// First each Asana task that is not completed is brought to the mirror
/// list, in order. The first of them without a due date ends the cycle with
/// `MissingDue`, after the calls for those before it. Then each completed
/// mirror task is carried back to Asana and deleted. Last, the mirror tasks
/// not completed that name a completed Asana task are deleted.
pub open spec fn plan_of(
    asana: asana::TaskResultView,
    google: google::GTaskResultView,
) -> CyclePlanView {
    let k = first_index_of(dues_known(asana.incomplete), false);
    let forward = forward_all(asana.incomplete.take(k), mirrors(google));
    if 0 <= k < asana.incomplete.len() {
        CyclePlanView { actions: forward, failure: Some(SyncError::MissingDue) }
    } else {
        CyclePlanView {
            actions: forward + backward_all(google.complete) + sweep_all(
                asana.complete,
                google.incomplete,
            ),
            failure: None,
        }
    }
}

/// For each of `tasks`, the id of the Asana task that it names.
fn linked_gids(tasks: &Vec<google::Task>) -> (gids: Vec<Option<String>>)
    ensures
        gids.deep_view() == gids_of(tasks.deep_view()),
{
    let mut gids: Vec<Option<String>> = Vec::new();
    let mut i: usize = 0;
    while i < tasks.len()
        invariant
            i <= tasks.len(),
            gids.deep_view() == gids_of(tasks.deep_view().take(i as int)),
        decreases tasks.len() - i,
    {
        let gid = get_asana_task_gid(&tasks[i]);
        let ghost before = gids.deep_view();
        gids.push(gid);
        assert(gids.deep_view() == before.push(gid.deep_view()));
        i += 1;
        assert(gids.deep_view() == gids_of(tasks.deep_view().take(i as int)));
    }
    assert(tasks.deep_view().take(i as int) == tasks.deep_view());
    gids
}

/// Position of the first of `gids` that is `gid`, or their number.
fn position_of(gid: &String, gids: &Vec<Option<String>>) -> (k: usize)
    ensures
        k <= gids.len(),
        k == first_index_of(gids.deep_view(), Some(gid@)),
{
    let mut k: usize = 0;
    while k < gids.len()
        invariant
            k <= gids.len(),
            forall|j: int| 0 <= j < k ==> gids.deep_view()[j] != Some(gid@),
        decreases gids.len() - k,
    {
        let found = match &gids[k] {
            Some(named) => *named == *gid,
            None => false,
        };
        if found {
            proof {
                lemma_first_index_is(gids.deep_view(), Some(gid@), k as int);
            }
            return k;
        }
        k += 1;
    }
    proof {
        lemma_first_index_is(gids.deep_view(), Some(gid@), k as int);
    }
    k
}

/// The first mirror task that names `gid`: among those not completed, else
/// among the completed ones.
fn find_mirror<'a>(
    gid: &String,
    google_tasks: &'a google::GTaskResult,
    open_gids: &Vec<Option<String>>,
    done_gids: &Vec<Option<String>>,
) -> (found: Option<&'a google::Task>)
    requires
        open_gids.deep_view() == gids_of(google_tasks@.incomplete),
        done_gids.deep_view() == gids_of(google_tasks@.complete),
    ensures
        ({
            let all = mirrors(google_tasks@);
            let k = first_index_of(gids_of(all), Some(gid@));
            match found {
                Some(task) => 0 <= k < all.len() && task@ == all[k],
                None => !(0 <= k < all.len()),
            }
        }),
{
    proof {
        let open = google_tasks@.incomplete;
        let done = google_tasks@.complete;
        assert(gids_of(open + done) == gids_of(open) + gids_of(done));
        lemma_first_index_of_both(gids_of(open), gids_of(done), Some(gid@));
    }
    let k = position_of(gid, open_gids);
    if k < google_tasks.incomplete.len() {
        return Some(&google_tasks.incomplete[k]);
    }
    let k = position_of(gid, done_gids);
    if k < google_tasks.complete.len() {
        return Some(&google_tasks.complete[k]);
    }
    None
}

/// Adds the calls that bring `atask`, whose due value is `due`, to the
/// mirror list.
fn forward_task(
    atask: &asana::Task,
    due: String,
    google_tasks: &google::GTaskResult,
    open_gids: &Vec<Option<String>>,
    done_gids: &Vec<Option<String>>,
    actions: &mut Vec<Action>,
)
    requires
        due_text(atask@) == Some(due@),
        open_gids.deep_view() == gids_of(google_tasks@.incomplete),
        done_gids.deep_view() == gids_of(google_tasks@.complete),
    ensures
        final(actions).deep_view() == old(actions).deep_view() + forward_one(
            atask@,
            mirrors(google_tasks@),
        ),
{
    let ghost before = actions.deep_view();
    match find_mirror(&atask.gid, google_tasks, open_gids, done_gids) {
        Some(gtask) => {
            if !reflects(atask, &due, gtask) {
                let delete = Action::DeleteGoogleTask(gtask.id.clone());
                let create = Action::CreateGoogleTask(mirror_task(atask, due));
                actions.push(delete);
                actions.push(create);
                assert(actions.deep_view() == before + seq![delete@, create@]);
            } else {
                assert(actions.deep_view() == before + Seq::<ActionView>::empty());
            }
        },
        None => {
            let create = Action::CreateGoogleTask(mirror_task(atask, due));
            actions.push(create);
            assert(actions.deep_view() == before + seq![create@]);
        },
    }
}

/// Adds the calls that bring the Asana tasks not completed to the mirror
/// list, up to the first of them without a due date.
fn forward(
    asana_open: &Vec<asana::Task>,
    google_tasks: &google::GTaskResult,
    open_gids: &Vec<Option<String>>,
    done_gids: &Vec<Option<String>>,
    actions: &mut Vec<Action>,
) -> (failure: Option<SyncError>)
    requires
        open_gids.deep_view() == gids_of(google_tasks@.incomplete),
        done_gids.deep_view() == gids_of(google_tasks@.complete),
    ensures
        ({
            let tasks = asana_open.deep_view();
            let k = first_index_of(dues_known(tasks), false);
            &&& final(actions).deep_view() == old(actions).deep_view() + forward_all(
                tasks.take(k),
                mirrors(google_tasks@),
            )
            &&& failure == if 0 <= k < tasks.len() {
                Some(SyncError::MissingDue)
            } else {
                None
            }
        }),
{
    let ghost tasks = asana_open.deep_view();
    let ghost all = mirrors(google_tasks@);
    let mut i: usize = 0;
    assert(actions.deep_view() == old(actions).deep_view() + forward_all(tasks.take(0), all));
    while i < asana_open.len()
        invariant
            i <= asana_open.len(),
            tasks == asana_open.deep_view(),
            all == mirrors(google_tasks@),
            open_gids.deep_view() == gids_of(google_tasks@.incomplete),
            done_gids.deep_view() == gids_of(google_tasks@.complete),
            forall|j: int| 0 <= j < i ==> dues_known(tasks)[j],
            actions.deep_view() == old(actions).deep_view() + forward_all(
                tasks.take(i as int),
                all,
            ),
        decreases asana_open.len() - i,
    {
        match asana_due_to_string(&asana_open[i]) {
            Ok(due) => {
                forward_task(&asana_open[i], due, google_tasks, open_gids, done_gids, actions);
                proof {
                    let next = tasks.take(i + 1);
                    assert(next.drop_last() == tasks.take(i as int));
                    assert(next.last() == tasks[i as int]);
                    assert(forward_all(next, all) == forward_all(tasks.take(i as int), all)
                        + forward_one(tasks[i as int], all));
                }
            },
            Err(e) => {
                proof {
                    lemma_first_index_is(dues_known(tasks), false, i as int);
                }
                return Some(e);
            },
        }
        i += 1;
    }
    proof {
        lemma_first_index_is(dues_known(tasks), false, i as int);
        assert(tasks.take(i as int) == tasks);
    }
    None
}

/// Adds the calls that carry each completed mirror task back to Asana and
/// delete it.
fn backward(google_done: &Vec<google::Task>, actions: &mut Vec<Action>)
    ensures
        final(actions).deep_view() == old(actions).deep_view() + backward_all(
            google_done.deep_view(),
        ),
{
    let ghost done = google_done.deep_view();
    let mut i: usize = 0;
    assert(actions.deep_view() == old(actions).deep_view() + backward_all(done.take(0)));
    while i < google_done.len()
        invariant
            i <= google_done.len(),
            done == google_done.deep_view(),
            actions.deep_view() == old(actions).deep_view() + backward_all(done.take(i as int)),
        decreases google_done.len() - i,
    {
        let gtask = &google_done[i];
        let ghost before = actions.deep_view();
        match get_asana_task_gid(gtask) {
            Some(gid) => {
                let complete = Action::CompleteAsanaTask(gid);
                let delete = Action::DeleteGoogleTask(gtask.id.clone());
                actions.push(complete);
                actions.push(delete);
                assert(actions.deep_view() == before + seq![complete@, delete@]);
            },
            None => {
                let delete = Action::DeleteGoogleTask(gtask.id.clone());
                actions.push(delete);
                assert(actions.deep_view() == before + seq![delete@]);
            },
        }
        proof {
            let next = done.take(i + 1);
            assert(next.drop_last() == done.take(i as int));
            assert(next.last() == done[i as int]);
            assert(backward_all(next) == backward_all(done.take(i as int)) + backward_one(
                done[i as int],
            ));
        }
        i += 1;
    }
    assert(done.take(i as int) == done);
}

/// Adds the calls that delete each mirror task not completed that names
/// the Asana task `gid`.
fn sweep_task(
    gid: &String,
    google_open: &Vec<google::Task>,
    open_gids: &Vec<Option<String>>,
    actions: &mut Vec<Action>,
)
    requires
        open_gids.deep_view() == gids_of(google_open.deep_view()),
    ensures
        final(actions).deep_view() == old(actions).deep_view() + sweep_one(
            gid@,
            google_open.deep_view(),
        ),
{
    let ghost open = google_open.deep_view();
    let mut i: usize = 0;
    assert(actions.deep_view() == old(actions).deep_view() + sweep_one(gid@, open.take(0)));
    assert(open_gids.len() == google_open.len()) by {
        assert(open_gids.deep_view().len() == gids_of(open).len());
    }
    while i < google_open.len()
        invariant
            i <= google_open.len(),
            open == google_open.deep_view(),
            open_gids.len() == google_open.len(),
            open_gids.deep_view() == gids_of(open),
            actions.deep_view() == old(actions).deep_view() + sweep_one(
                gid@,
                open.take(i as int),
            ),
        decreases google_open.len() - i,
    {
        let named = match &open_gids[i] {
            Some(named) => *named == *gid,
            None => false,
        };
        assert(named == (task_gid(open[i as int]) == Some(gid@))) by {
            assert(open_gids.deep_view()[i as int] == gids_of(open)[i as int]);
        }
        let ghost before = actions.deep_view();
        if named {
            let delete = Action::DeleteGoogleTask(google_open[i].id.clone());
            actions.push(delete);
            assert(actions.deep_view() == before.push(delete@));
        }
        proof {
            let next = open.take(i + 1);
            assert(next.drop_last() == open.take(i as int));
            assert(next.last() == open[i as int]);
        }
        i += 1;
    }
    assert(open.take(i as int) == open);
}

/// Adds the calls that delete the mirror tasks not completed that name a
/// completed Asana task.
fn sweep(
    asana_done: &Vec<asana::Task>,
    google_open: &Vec<google::Task>,
    open_gids: &Vec<Option<String>>,
    actions: &mut Vec<Action>,
)
    requires
        open_gids.deep_view() == gids_of(google_open.deep_view()),
    ensures
        final(actions).deep_view() == old(actions).deep_view() + sweep_all(
            asana_done.deep_view(),
            google_open.deep_view(),
        ),
{
    let ghost done = asana_done.deep_view();
    let ghost open = google_open.deep_view();
    let mut i: usize = 0;
    assert(actions.deep_view() == old(actions).deep_view() + sweep_all(done.take(0), open));
    while i < asana_done.len()
        invariant
            i <= asana_done.len(),
            done == asana_done.deep_view(),
            open == google_open.deep_view(),
            open_gids.deep_view() == gids_of(open),
            actions.deep_view() == old(actions).deep_view() + sweep_all(
                done.take(i as int),
                open,
            ),
        decreases asana_done.len() - i,
    {
        sweep_task(&asana_done[i].gid, google_open, open_gids, actions);
        proof {
            let next = done.take(i + 1);
            assert(next.drop_last() == done.take(i as int));
            assert(next.last() == done[i as int]);
            assert(sweep_all(next, open) == sweep_all(done.take(i as int), open) + sweep_one(
                done[i as int].gid,
                open,
            ));
        }
        i += 1;
    }
    assert(done.take(i as int) == done);
}

/// Decides what one cycle does, from the tasks that both sides showed at
/// its start. Nothing is read again during the cycle: what one call
/// changes, the next cycle sees.
pub fn process_tasks(
    asana_tasks: &asana::TaskResult,
    google_tasks: &google::GTaskResult,
) -> (plan: CyclePlan)
    ensures
        plan@ == plan_of(asana_tasks@, google_tasks@),
{
    let open_gids = linked_gids(&google_tasks.incomplete);
    let done_gids = linked_gids(&google_tasks.complete);
    let mut actions: Vec<Action> = Vec::new();
    let failure = forward(
        &asana_tasks.incomplete,
        google_tasks,
        &open_gids,
        &done_gids,
        &mut actions,
    );
    assert(actions.deep_view() == forward_all(
        asana_tasks@.incomplete.take(first_index_of(dues_known(asana_tasks@.incomplete), false)),
        mirrors(google_tasks@),
    ));
    if failure.is_none() {
        backward(&google_tasks.complete, &mut actions);
        sweep(&asana_tasks.complete, &google_tasks.incomplete, &open_gids, &mut actions);
    }
    CyclePlan { actions, failure }
}

/// Whether the first of `mirrors` that names `atask` is there and still
/// reflects it.
pub open spec fn reflected(atask: asana::TaskView, mirrors: Seq<google::TaskView>) -> bool {
    let k = first_index_of(gids_of(mirrors), Some(atask.gid));
    0 <= k < mirrors.len() && equivalent(atask, mirrors[k])
}

/// Nothing is to be done for tasks that are all reflected.
pub proof fn lemma_reflected_tasks_need_nothing(
    tasks: Seq<asana::TaskView>,
    mirrors: Seq<google::TaskView>,
)
    requires
        forall|i: int| 0 <= i < tasks.len() ==> reflected(#[trigger] tasks[i], mirrors),
    ensures
        forall|i: int| 0 <= i < tasks.len() ==> #[trigger] dues_known(tasks)[i],
        forward_all(tasks, mirrors) == Seq::<ActionView>::empty(),
    decreases tasks.len(),
{
    if tasks.len() > 0 {
        let front = tasks.drop_last();
        assert forall|i: int| 0 <= i < front.len() implies reflected(
            #[trigger] front[i],
            mirrors,
        ) by {
            assert(front[i] == tasks[i]);
        }
        lemma_reflected_tasks_need_nothing(front, mirrors);
        assert(reflected(tasks[tasks.len() - 1], mirrors));
        assert(forward_one(tasks.last(), mirrors) == Seq::<ActionView>::empty());
        assert forall|i: int| 0 <= i < tasks.len() implies #[trigger] dues_known(tasks)[i] by {
            assert(reflected(tasks[i], mirrors));
        }
    }
}

/// A cycle on two sides that agree makes no call: where no task is
/// completed on either side, and each Asana task is reflected by the first
/// mirror task that names it, the plan holds no call and no failure.
pub proof fn lemma_settled_cycle_makes_no_call(
    asana: asana::TaskResultView,
    google: google::GTaskResultView,
)
    requires
        asana.complete.len() == 0,
        google.complete.len() == 0,
        forall|i: int|
            0 <= i < asana.incomplete.len() ==> reflected(
                #[trigger] asana.incomplete[i],
                mirrors(google),
            ),
    ensures
        plan_of(asana, google) == (CyclePlanView { actions: Seq::empty(), failure: None }),
{
    let tasks = asana.incomplete;
    lemma_reflected_tasks_need_nothing(tasks, mirrors(google));
    lemma_first_index_is(dues_known(tasks), false, tasks.len() as int);
    assert(tasks.take(tasks.len() as int) == tasks);
    assert(plan_of(asana, google).actions == Seq::<ActionView>::empty());
}

/// A due value as Google writes it: with thousandths of a second before the
/// closing `Z`.
pub open spec fn with_thousandths(due: Seq<char>) -> Seq<char> {
    due.drop_last() + seq!['.', '0', '0', '0', 'Z']
}

/// What a cycle creates, the next cycle finds in order: a mirror task with
/// the title, due value and notes of the mirror of an Asana task reflects
/// that task, and is found by the id in its footer. Google may have added
/// thousandths of a second to the due value. The notes of the Asana task
/// must not end in a carriage return nor hold a separator line, and its id
/// must be one line that is not empty.
pub proof fn lemma_created_mirror_is_reflected(atask: asana::TaskView, gtask: google::TaskView)
    requires
        due_text(atask) is Some,
        gtask.title == Some(atask.name),
        gtask.notes == Some(notes_with_link(atask.notes, atask.gid)),
        gtask.due == due_text(atask) || gtask.due == Some(
            with_thousandths(due_text(atask).unwrap()),
        ),
        atask.notes.len() > 0 ==> atask.notes.last() != '\r',
        !lines_of(atask.notes.push('\n')).contains(separator()),
        atask.gid.len() > 0,
        !atask.gid.contains('\n'),
    ensures
        reflected(atask, seq![gtask]),
{
    let due = due_text(atask).unwrap();
    let date = asana::due_date(atask).unwrap();
    let clock = seq!['T', '0', '0', ':', '0', '0', ':', '0', '0', 'Z'];
    assert(due == asana::date_text(date) + clock);
    let n = due.len() as int;
    let m = asana::date_text(date).len() as int;
    assert(n == m + 10);
    assert(due.last() == clock[9]);
    assert(due.skip(n - 5)[0] == clock[5]);
    assert(normalized_due(due) == due);
    let long = with_thousandths(due);
    assert(long.skip(long.len() - 5) == seq!['.', '0', '0', '0', 'Z']);
    assert(long.take(long.len() - 5) == due.drop_last());
    assert(due.drop_last().push('Z') == due);
    assert(normalized_due(long) == due);

    let note = notes_with_link(atask.notes, atask.gid);
    lemma_body_lines_of_link(atask.notes, atask.gid);
    lemma_lines_before_break(atask.notes);
    assert(lines_agree(body_lines(note), lines_of(atask.notes)));
    assert(equivalent(atask, gtask));

    lemma_link_round_trip(atask.notes, atask.gid);
    let gids = gids_of(seq![gtask]);
    assert(gids[0] == Some(atask.gid));
    lemma_first_index_is(gids, Some(atask.gid), 0);
}

/// Whether `actions` holds, one directly after the other, the call that
/// completes the Asana task `gid` and the call that deletes the mirror task
/// `id`.
pub open spec fn completes_then_deletes(
    actions: Seq<ActionView>,
    gid: Seq<char>,
    id: Seq<char>,
) -> bool {
    exists|p: int|
        0 <= p && p + 1 < actions.len() && #[trigger] actions[p] == ActionView::CompleteAsanaTask(
            gid,
        ) && actions[p + 1] == ActionView::DeleteGoogleTask(id)
}

/// The calls for completed mirror tasks complete before they delete.
proof fn lemma_backward_completes_first(done: Seq<google::TaskView>, j: int)
    requires
        0 <= j < done.len(),
        task_gid(done[j]) is Some,
    ensures
        completes_then_deletes(backward_all(done), task_gid(done[j]).unwrap(), done[j].id),
    decreases done.len(),
{
    let front = backward_all(done.drop_last());
    let one = backward_one(done.last());
    let gid = task_gid(done[j]).unwrap();
    if j == done.len() - 1 {
        let p = front.len() as int;
        assert((front + one)[p] == one[0]);
        assert((front + one)[p + 1] == one[1]);
    } else {
        assert(done.drop_last()[j] == done[j]);
        lemma_backward_completes_first(done.drop_last(), j);
        let p = choose|p: int|
            0 <= p && p + 1 < front.len() && #[trigger] front[p] == ActionView::CompleteAsanaTask(
                gid,
            ) && front[p + 1] == ActionView::DeleteGoogleTask(done[j].id);
        assert((front + one)[p] == front[p]);
        assert((front + one)[p + 1] == front[p + 1]);
    }
}

/// A completed mirror task is carried back before it is deleted: where the
/// cycle does not fail, its plan holds, for each completed mirror task that
/// names an Asana task, the call that completes that Asana task directly
/// before the call that deletes the mirror task.
pub proof fn lemma_completion_precedes_deletion(
    asana: asana::TaskResultView,
    google: google::GTaskResultView,
    j: int,
)
    requires
        plan_of(asana, google).failure is None,
        0 <= j < google.complete.len(),
        task_gid(google.complete[j]) is Some,
    ensures
        completes_then_deletes(
            plan_of(asana, google).actions,
            task_gid(google.complete[j]).unwrap(),
            google.complete[j].id,
        ),
{
    let gid = task_gid(google.complete[j]).unwrap();
    let id = google.complete[j].id;
    let k = first_index_of(dues_known(asana.incomplete), false);
    let forward = forward_all(asana.incomplete.take(k), mirrors(google));
    let backward = backward_all(google.complete);
    let sweep = sweep_all(asana.complete, google.incomplete);
    lemma_backward_completes_first(google.complete, j);
    let p = choose|p: int|
        0 <= p && p + 1 < backward.len() && #[trigger] backward[p]
            == ActionView::CompleteAsanaTask(gid) && backward[p + 1]
            == ActionView::DeleteGoogleTask(id);
    let actions = forward + backward + sweep;
    let q = forward.len() + p;
    assert(actions[q] == backward[p]);
    assert(actions[q + 1] == backward[p + 1]);
}

/// The call that deletes the mirror task `id`.
pub open spec fn deletion(id: Seq<char>) -> ActionView {
    ActionView::DeleteGoogleTask(id)
}

/// What two runs hold together is what one of them holds.
proof fn lemma_contains_of_both<T>(a: Seq<T>, b: Seq<T>, x: T)
    ensures
        (a + b).contains(x) <==> a.contains(x) || b.contains(x),
{
    if a.contains(x) {
        let i = choose|i: int| 0 <= i < a.len() && a[i] == x;
        assert((a + b)[i] == x);
    }
    if b.contains(x) {
        let i = choose|i: int| 0 <= i < b.len() && b[i] == x;
        assert((a + b)[a.len() + i] == x);
    }
    if (a + b).contains(x) {
        let i = choose|i: int| 0 <= i < (a + b).len() && (a + b)[i] == x;
        if i < a.len() {
            assert(a[i] == x);
        } else {
            assert(b[i - a.len()] == x);
        }
    }
}

/// The first pass deletes only mirror tasks that are the first to name one
/// of its Asana tasks.
proof fn lemma_forward_deletes_named(
    tasks: Seq<asana::TaskView>,
    mirrors: Seq<google::TaskView>,
    id: Seq<char>,
)
    requires
        forall|i: int, k: int|
            0 <= i < tasks.len() && 0 <= k < mirrors.len() && task_gid(mirrors[k]) == Some(
                tasks[i].gid,
            ) ==> mirrors[k].id != id,
    ensures
        !forward_all(tasks, mirrors).contains(deletion(id)),
    decreases tasks.len(),
{
    if tasks.len() > 0 {
        let front = tasks.drop_last();
        let last = tasks.last();
        assert forall|i: int, k: int|
            0 <= i < front.len() && 0 <= k < mirrors.len() && task_gid(mirrors[k]) == Some(
                front[i].gid,
            ) implies mirrors[k].id != id by {
            assert(front[i] == tasks[i]);
        }
        lemma_forward_deletes_named(front, mirrors, id);
        let one = forward_one(last, mirrors);
        let k = first_index_of(gids_of(mirrors), Some(last.gid));
        lemma_first_index_of(gids_of(mirrors), Some(last.gid));
        if 0 <= k < mirrors.len() {
            assert(gids_of(mirrors)[k] == task_gid(mirrors[k]));
            assert(last == tasks[tasks.len() - 1]);
            assert(mirrors[k].id != id);
        }
        assert(!one.contains(deletion(id))) by {
            if one.contains(deletion(id)) {
                let j = choose|j: int| 0 <= j < one.len() && one[j] == deletion(id);
            }
        }
        lemma_contains_of_both(forward_all(front, mirrors), one, deletion(id));
    }
}

/// The second pass deletes only completed mirror tasks.
proof fn lemma_backward_deletes_done(done: Seq<google::TaskView>, id: Seq<char>)
    requires
        forall|j: int| 0 <= j < done.len() ==> done[j].id != id,
    ensures
        !backward_all(done).contains(deletion(id)),
    decreases done.len(),
{
    if done.len() > 0 {
        let front = done.drop_last();
        assert forall|j: int| 0 <= j < front.len() implies front[j].id != id by {
            assert(front[j] == done[j]);
        }
        lemma_backward_deletes_done(front, id);
        let one = backward_one(done.last());
        assert(done.last() == done[done.len() - 1]);
        assert(!one.contains(deletion(id))) by {
            if one.contains(deletion(id)) {
                let j = choose|j: int| 0 <= j < one.len() && one[j] == deletion(id);
            }
        }
        lemma_contains_of_both(backward_all(front), one, deletion(id));
    }
}

/// For one completed Asana task, the third pass deletes only mirror tasks
/// that name it.
proof fn lemma_sweep_one_deletes_named(gid: Seq<char>, open: Seq<google::TaskView>, id: Seq<char>)
    requires
        forall|j: int|
            0 <= j < open.len() && task_gid(open[j]) == Some(gid) ==> open[j].id != id,
    ensures
        !sweep_one(gid, open).contains(deletion(id)),
    decreases open.len(),
{
    if open.len() > 0 {
        let front = open.drop_last();
        assert forall|j: int| 0 <= j < front.len() && task_gid(front[j]) == Some(gid) implies front[j].id
            != id by {
            assert(front[j] == open[j]);
        }
        lemma_sweep_one_deletes_named(gid, front, id);
        assert(open.last() == open[open.len() - 1]);
        let tail = if task_gid(open.last()) == Some(gid) {
            seq![deletion(open.last().id)]
        } else {
            Seq::empty()
        };
        assert(sweep_one(gid, open) == sweep_one(gid, front) + tail);
        assert(!tail.contains(deletion(id))) by {
            if tail.contains(deletion(id)) {
                let j = choose|j: int| 0 <= j < tail.len() && tail[j] == deletion(id);
            }
        }
        lemma_contains_of_both(sweep_one(gid, front), tail, deletion(id));
    }
}

/// The third pass deletes only mirror tasks that name one of its Asana
/// tasks.
proof fn lemma_sweep_deletes_named(
    done: Seq<asana::TaskView>,
    open: Seq<google::TaskView>,
    id: Seq<char>,
)
    requires
        forall|i: int, j: int|
            0 <= i < done.len() && 0 <= j < open.len() && task_gid(open[j]) == Some(done[i].gid)
                ==> open[j].id != id,
    ensures
        !sweep_all(done, open).contains(deletion(id)),
    decreases done.len(),
{
    if done.len() > 0 {
        let front = done.drop_last();
        assert forall|i: int, j: int|
            0 <= i < front.len() && 0 <= j < open.len() && task_gid(open[j]) == Some(
                front[i].gid,
            ) implies open[j].id != id by {
            assert(front[i] == done[i]);
        }
        lemma_sweep_deletes_named(front, open, id);
        assert(done.last() == done[done.len() - 1]);
        lemma_sweep_one_deletes_named(done.last().gid, open, id);
        lemma_contains_of_both(
            sweep_all(front, open),
            sweep_one(done.last().gid, open),
            deletion(id),
        );
    }
}

/// A mirror task whose Asana task is gone stays: where a mirror task that
/// is not completed names no Asana task of either kind as seen at the start
/// of the cycle, and no other mirror task has its id, the plan does not
/// delete it.
pub proof fn lemma_orphan_is_kept(
    asana: asana::TaskResultView,
    google: google::GTaskResultView,
    m: int,
)
    requires
        0 <= m < google.incomplete.len(),
        forall|i: int|
            0 <= i < asana.incomplete.len() ==> task_gid(google.incomplete[m]) != Some(
                asana.incomplete[i].gid,
            ),
        forall|i: int|
            0 <= i < asana.complete.len() ==> task_gid(google.incomplete[m]) != Some(
                asana.complete[i].gid,
            ),
        forall|j: int|
            0 <= j < mirrors(google).len() && j != m ==> mirrors(google)[j].id
                != google.incomplete[m].id,
    ensures
        !plan_of(asana, google).actions.contains(deletion(google.incomplete[m].id)),
{
    let id = google.incomplete[m].id;
    let all = mirrors(google);
    let k = first_index_of(dues_known(asana.incomplete), false);
    lemma_first_index_of(dues_known(asana.incomplete), false);
    let tasks = asana.incomplete.take(k);
    assert(all[m] == google.incomplete[m]);
    assert forall|i: int, j: int|
        0 <= i < tasks.len() && 0 <= j < all.len() && task_gid(all[j]) == Some(
            tasks[i].gid,
        ) implies all[j].id != id by {
        assert(tasks[i] == asana.incomplete[i]);
    }
    lemma_forward_deletes_named(tasks, all, id);
    assert forall|j: int| 0 <= j < google.complete.len() implies google.complete[j].id != id by {
        assert(all[google.incomplete.len() + j] == google.complete[j]);
    }
    lemma_backward_deletes_done(google.complete, id);
    assert forall|i: int, j: int|
        0 <= i < asana.complete.len() && 0 <= j < google.incomplete.len() && task_gid(
            google.incomplete[j],
        ) == Some(asana.complete[i].gid) implies google.incomplete[j].id != id by {
        assert(all[j] == google.incomplete[j]);
    }
    lemma_sweep_deletes_named(asana.complete, google.incomplete, id);
    let forward = forward_all(tasks, all);
    let backward = backward_all(google.complete);
    let sweep = sweep_all(asana.complete, google.incomplete);
    lemma_contains_of_both(forward, backward, deletion(id));
    lemma_contains_of_both(forward + backward, sweep, deletion(id));
}

} // verus!
