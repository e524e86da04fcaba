use nocode::consumer::{
    body_value_as_str, enqueue_job, enqueue_jobs_background, exec_delete, execute_job,
    execute_with_retry, make_job, op_name, push_dlq, WriteJob, WriteOpKind,
};
use nocode::flow::{Action, Outcome, Preparation, Work};
use nocode::json::Json;
use nocode::model::{Column, DeleteConfig, TableSchema, WriteConfig};
use nocode::retry::{pause, Ask, Breaker, Came, Trying};

fn text(s: &str) -> Json {
    Json::Str(s.to_string())
}

fn column(name: &str, type_data: &str) -> Column {
    Column { name: name.to_string(), type_data: type_data.to_string(), ..Default::default() }
}

fn names(list: &[&str]) -> Vec<String> {
    list.iter().map(|s| s.to_string()).collect()
}

fn schema() -> TableSchema {
    TableSchema {
        table: "items".to_string(),
        columns: vec![
            column("id", "int"),
            column("name", "varchar"),
            column("qty", "int"),
            column("created_by_id", "int"),
            column("updated_by_id", "varchar"),
        ],
        post: WriteConfig { columns: names(&["name", "qty", "created_by_id"]), ..Default::default() },
        put: WriteConfig { columns: names(&["name", "qty", "updated_by_id"]), ..Default::default() },
        ..Default::default()
    }
}

fn nothing(n: usize) -> Preparation {
    Preparation {
        matches: (0..n).map(|_| None).collect(),
        expressions: (0..n).map(|_| Vec::new()).collect(),
        stored: (0..n).map(|_| String::new()).collect(),
    }
}

#[test]
fn pauses_grow_with_the_attempts() {
    assert_eq!(pause(0, 120, 7), Some(127));
    assert_eq!(pause(2, 200, 80), Some(680));
    assert_eq!(pause(usize::MAX, 120, 0), None);
}

#[test]
fn attempts_are_made_as_often_as_allowed() {
    let mut t = enqueue_job(0, 2);
    let mut slept = Vec::new();
    let mut ask = t.step(Came::Fine(0));
    let mut attempts = 0;
    loop {
        ask = match ask {
            Ask::Attempt => {
                attempts += 1;
                t.step(Came::Failed("down".to_string()))
            }
            Ask::Sleep(ms) => {
                slept.push(ms);
                t.step(Came::Fine(0))
            }
            Ask::GiveUp(e) => {
                assert_eq!(e, "down");
                break;
            }
            other => panic!("unexpected: {:?}", other),
        };
    }
    assert_eq!(attempts, 3);
    assert_eq!(slept.len(), 2);
    assert!((120..=180).contains(&slept[0]));
    assert!((240..=300).contains(&slept[1]));
}

#[test]
fn chance_spreads_the_pauses() {
    let mut seen = std::collections::BTreeSet::new();
    for _ in 0..200 {
        let mut t = execute_with_retry(1);
        t.step(Came::Fine(0));
        if let Ask::Sleep(ms) = t.step(Came::Failed("x".to_string())) {
            assert!((200..=280).contains(&ms));
            seen.insert(ms);
        }
    }
    assert!(seen.len() > 10);
}

#[test]
fn a_full_queue_pushes_back() {
    let mut t = enqueue_job(10, 2);
    assert_eq!(t.step(Came::Fine(0)), Ask::Measure);
    assert_eq!(t.step(Came::Fine(10)), Ask::GiveUp("Queue backpressure: len=10 reached max=10".to_string()));
    let mut t = enqueue_job(10, 2);
    t.step(Came::Fine(0));
    assert_eq!(t.step(Came::Fine(9)), Ask::Attempt);
    assert_eq!(t.step(Came::Fine(11)), Ask::Done(11));
    assert_eq!(t.step(Came::Fine(0)), Ask::Nothing);
}

#[test]
fn a_queue_that_cannot_be_measured_is_not_tried_again() {
    let mut t = Trying::new(5, 120, 60, 1, "Email queue");
    t.step(Came::Fine(0));
    assert_eq!(t.step_with(Came::Failed("gone".to_string()), 0), Ask::GiveUp("gone".to_string()));
}

#[test]
fn workers_rest_after_too_many_errors() {
    let mut b = Breaker::new();
    let mut sleeps = Vec::new();
    for n in 1..=10u32 {
        let s = b.on_error();
        assert_eq!(s.errors, n);
        assert_eq!(s.is_told, n == 1 || n == 10);
        assert_eq!(s.is_tripped, n == 10);
        sleeps.push(s.sleep_ms);
    }
    assert_eq!(sleeps, vec![250, 500, 1000, 2000, 4000, 5000, 5000, 5000, 5000, 30_000]);
    assert_eq!(b, Breaker::new());
}

#[test]
fn work_and_idling_forget_errors() {
    let mut b = Breaker::new();
    b.on_error();
    b.on_error();
    b.on_idle();
    assert_eq!((b.errors, b.backoff_ms), (0, 1000));
    b.on_job();
    assert_eq!(b, Breaker::new());
}

#[test]
fn operations_have_names() {
    assert_eq!(op_name(&WriteOpKind::Post), "POST");
    assert_eq!(op_name(&WriteOpKind::Put { id: String::new() }), "PUT");
    assert_eq!(op_name(&WriteOpKind::Delete { id: String::new() }), "DELETE");
    assert_eq!(WriteJob::queue_key(), "flx:wq:default");
    assert_eq!(WriteJob::dlq_key(), "flx:wq:dlq");
}

#[test]
fn failed_writes_are_kept_with_their_reason() {
    let job = make_job("items", WriteOpKind::Delete { id: "1".to_string() }, Json::Null, "t", None);
    let r = push_dlq(job, "worker-0", "why", "now");
    assert_eq!((r.op.as_str(), r.route.as_str(), r.error.as_str()), ("DELETE", "items", "why"));
}

#[test]
fn writes_that_are_queued_together_are_counted() {
    assert_eq!(enqueue_jobs_background(&vec![true, true]), (true, "queued 2 jobs".to_string()));
    assert_eq!(
        enqueue_jobs_background(&vec![true, false, false]),
        (false, "queued=1, failed=2, total=3".to_string())
    );
}

#[test]
fn fields_are_read_as_trimmed_texts() {
    let body = Json::Object(vec![
        ("a".to_string(), text(" x ")),
        ("b".to_string(), Json::Null),
        ("c".to_string(), Json::Int(5)),
    ]);
    assert_eq!(body_value_as_str(&body, "a"), "x");
    assert_eq!(body_value_as_str(&body, "b"), "");
    assert_eq!(body_value_as_str(&body, "c"), "5");
    assert_eq!(body_value_as_str(&body, "d"), "");
}

#[test]
fn queued_insertions_are_stored() {
    let body = Json::Object(vec![
        ("name".to_string(), text(" n ")),
        ("qty".to_string(), text("7")),
        ("created_by_id".to_string(), text("666")),
        ("deleted_at".to_string(), text("x")),
    ]);
    let job = make_job("items", WriteOpKind::Post, body, "t", Some("42".to_string()));
    let mut run = execute_job(job, Some(schema()), "now".to_string());
    assert!(matches!(run.step(Outcome::Done), Work::Ask(Action::Prepare(_))));
    match run.step(Outcome::Prepared(nothing(3))) {
        Work::Ask(Action::StoreInsert(table, doc)) => {
            assert_eq!(table, "items");
            assert_eq!(doc.get("name"), Some(&text("n")));
            assert_eq!(doc.get("qty"), Some(&Json::Int(7)));
            assert_eq!(doc.get("created_at"), Some(&text("now")));
            assert_eq!(doc.get("created_by_id"), Some(&Json::Int(42)));
            assert_eq!(doc.get("deleted_at"), None);
        }
        other => panic!("unexpected: {:?}", other),
    }
    assert!(matches!(run.step(Outcome::Value(Json::Null)), Work::Finish(r, _, _) if r == "items"));
}

#[test]
fn queued_updates_are_stored() {
    let body = Json::Object(vec![
        ("qty".to_string(), text("x")),
        ("__actor_id__".to_string(), text("9")),
    ]);
    let job = make_job("items", WriteOpKind::Put { id: "5".to_string() }, body, "t", None);
    let mut run = execute_job(job, Some(schema()), "now".to_string());
    run.step(Outcome::Done);
    match run.step(Outcome::Prepared(nothing(2))) {
        Work::Ask(Action::StoreUpdate(_, filter, doc)) => {
            assert_eq!(filter, nocode::ast::Filter::Eq("id".to_string(), nocode::ast::Val::I64(5)));
            assert_eq!(
                doc,
                Json::Object(vec![
                    ("qty".to_string(), text("x")),
                    ("updated_at".to_string(), text("now")),
                    ("updated_by_id".to_string(), text("9")),
                ])
            );
        }
        other => panic!("unexpected: {:?}", other),
    }
    assert!(matches!(run.step(Outcome::Failed("e".to_string())), Work::Fail(e) if e == "e"));
}

#[test]
fn queued_deletions_mark_or_remove() {
    let soft = TableSchema {
        table: "items".to_string(),
        del: DeleteConfig { type_delete: "soft".to_string(), ..Default::default() },
        ..Default::default()
    };
    assert!(matches!(exec_delete(&soft, "a", "now"), Action::StoreUpdate(_, _, _)));
    assert!(matches!(exec_delete(&schema(), "a", "now"), Action::StoreDelete(_, _)));
}

#[test]
fn a_queued_write_needs_its_entity() {
    let job = make_job("nowhere", WriteOpKind::Post, Json::Null, "t", None);
    let mut run = execute_job(job, None, "now".to_string());
    assert!(matches!(run.step(Outcome::Done), Work::Fail(e) if e == "Schema not found for nowhere"));
}
