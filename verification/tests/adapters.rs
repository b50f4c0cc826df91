use asana_gtasks::asana::{bearer, check_fetched, check_put, task_url, tasks_url};
use asana_gtasks::asana::{CivilDate, Instant, TaskResult, WINDOW_HOURS};
use asana_gtasks::error::SyncError;
use asana_gtasks::google::{find_task_list, GTaskResult, TaskList, PAGE_SIZE};
use asana_gtasks::{asana, google};

fn foreign(gid: &str, due: bool, completed: bool) -> asana::Task {
    asana::Task {
        gid: gid.to_string(),
        name: format!("task {}", gid),
        notes: String::new(),
        due_on: if due { CivilDate::new(2024, 1, 1) } else { None },
        due_at: None,
        completed_at: if completed { Instant::new(1_704_100_000, 0) } else { None },
    }
}

fn mirror(id: &str, completed: bool) -> google::Task {
    google::Task {
        id: id.to_string(),
        title: Some(format!("task {}", id)),
        notes: None,
        due: None,
        completed: if completed { Some("2024-01-02T10:00:00.000Z".to_string()) } else { None },
    }
}

fn list(id: Option<&str>, title: Option<&str>) -> TaskList {
    TaskList { id: id.map(|s| s.to_string()), title: title.map(|s| s.to_string()) }
}

#[test]
fn asana_answer_is_split_by_completion_and_keeps_order() {
    let data = vec![
        foreign("1", true, false),
        foreign("2", true, true),
        foreign("3", false, false),
        foreign("4", true, false),
        foreign("5", false, true),
        foreign("6", true, true),
    ];
    let got = TaskResult::from_response(data, false).unwrap();
    assert_eq!(got.incomplete, vec![foreign("1", true, false), foreign("4", true, false)]);
    assert_eq!(got.complete, vec![foreign("2", true, true), foreign("6", true, true)]);
}

#[test]
fn asana_task_with_due_time_only_is_kept() {
    let mut t = foreign("1", false, false);
    t.due_at = Instant::new(1_710_558_000, 0);
    let got = TaskResult::from_response(vec![t.clone()], false).unwrap();
    assert_eq!(got.incomplete, vec![t]);
    assert_eq!(got.complete, vec![]);
}

#[test]
fn asana_answer_with_a_further_page_fails() {
    let data = vec![foreign("1", true, false)];
    assert_eq!(TaskResult::from_response(data, true), Err(SyncError::UnsupportedPagination));
    assert_eq!(TaskResult::from_response(vec![], true), Err(SyncError::UnsupportedPagination));
}

#[test]
fn empty_asana_answer_is_empty() {
    assert_eq!(
        TaskResult::from_response(vec![], false),
        Ok(TaskResult { incomplete: vec![], complete: vec![] })
    );
}

#[test]
fn tasks_url_names_list_fields_window_and_limit() {
    assert_eq!(
        tasks_url("1200", "2024-03-14T23:00:00Z"),
        "https://app.asana.com/api/1.0/user_task_lists/1200/tasks?opt_fields=name,notes,due_on,due_at,completed_at&completed_since=2024-03-14T23:00:00Z&limit=100"
    );
}

#[test]
fn task_url_names_the_task() {
    assert_eq!(task_url("1208"), "https://app.asana.com/api/1.0/tasks/1208");
}

#[test]
fn bearer_puts_the_scheme_before_the_token() {
    assert_eq!(bearer("SECRET-REDACTED"), "Bearer SECRET-REDACTED");
    assert_eq!(bearer(""), "Bearer ");
}

#[test]
fn window_is_one_day() {
    assert_eq!(WINDOW_HOURS, 24);
    assert_eq!(PAGE_SIZE, 100);
}

#[test]
fn statuses_from_200_to_299_are_success() {
    for status in [200u16, 201, 204, 299] {
        assert_eq!(check_fetched(status), Ok(()));
        assert_eq!(check_put(status), Ok(()));
    }
}

#[test]
fn other_statuses_fail_with_the_status() {
    for status in [0u16, 100, 199, 300, 301, 401, 404, 429, 500, 65535] {
        assert_eq!(check_fetched(status), Err(SyncError::FetchFailed { status }));
        assert_eq!(check_put(status), Err(SyncError::PutFailed { status }));
    }
}

#[test]
fn error_messages_name_the_failing_operation() {
    assert_eq!(SyncError::MissingDue.message(), "Somehow got to gtask with no due date");
    assert_eq!(SyncError::FetchFailed { status: 404 }.message(), "Failed to fetch. Status: 404");
    assert_eq!(SyncError::PutFailed { status: 500 }.message(), "Failed to put. Status: 500");
    assert_eq!(SyncError::FetchFailed { status: 0 }.message(), "Failed to fetch. Status: 0");
    assert_eq!(SyncError::PutFailed { status: 7 }.message(), "Failed to put. Status: 7");
    assert_eq!(SyncError::FetchFailed { status: 65535 }.message(), "Failed to fetch. Status: 65535");
    assert_eq!(SyncError::PutFailed { status: 1000 }.message(), "Failed to put. Status: 1000");
    assert_eq!(
        SyncError::UnsupportedPagination.message(),
        "Asana reported a further page of tasks, which is not supported"
    );
    assert_eq!(SyncError::ListNotFound.message(), "No Google task list named Asana");
}

#[test]
fn mirror_list_is_found_by_its_title() {
    let lists = vec![
        list(Some("L1"), Some("My Tasks")),
        list(Some("L2"), None),
        list(Some("L3"), Some("Asana")),
        list(Some("L4"), Some("Asana")),
    ];
    assert_eq!(find_task_list(&lists), Ok("L3".to_string()));
}

#[test]
fn mirror_list_title_must_match_exactly() {
    let lists = vec![
        list(Some("L1"), Some("asana")),
        list(Some("L2"), Some("Asana ")),
        list(Some("L3"), Some("Asan")),
    ];
    assert_eq!(find_task_list(&lists), Err(SyncError::ListNotFound));
    assert_eq!(find_task_list(&vec![]), Err(SyncError::ListNotFound));
}

#[test]
fn mirror_list_without_id_is_not_found() {
    let lists = vec![list(None, Some("Asana")), list(Some("L2"), Some("Asana"))];
    assert_eq!(find_task_list(&lists), Err(SyncError::ListNotFound));
}

#[test]
fn pages_are_added_behind_what_is_there() {
    let mut got = GTaskResult::new();
    assert_eq!(got, GTaskResult { incomplete: vec![], complete: vec![] });
    got.add_page(vec![mirror("1", false), mirror("2", true), mirror("3", false)]);
    got.add_page(vec![]);
    got.add_page(vec![mirror("4", true), mirror("5", false)]);
    assert_eq!(got.incomplete, vec![mirror("1", false), mirror("3", false), mirror("5", false)]);
    assert_eq!(got.complete, vec![mirror("2", true), mirror("4", true)]);
}
