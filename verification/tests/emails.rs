use nocode::email_queue::{
    build_message, build_smtp_transport, enqueue_email, push_email_dlq, send_with_retry,
    EmailAttachment, EmailJob, SmtpSettings, TlsMode,
};
use nocode::flow::{Action, Outcome};
use nocode::handlers::email_handler::{send, SendEmailRequest, SendStep};
use nocode::json::Json;

fn job() -> EmailJob {
    EmailJob::new(vec!["a@example.com".to_string()], Vec::new(), "Hello", "text", "now")
}

fn sender() -> Option<String> {
    Some("Shop <shop@example.com>".to_string())
}

#[test]
fn a_new_email_is_plain() {
    let j = job();
    assert_eq!(j.subject, "Hello");
    assert!(!j.is_html);
    assert!(j.attachments.is_empty());
    assert!(j.html().is_html);
}

#[test]
fn attachments_are_base64() {
    let a = EmailAttachment::from_bytes("f", "", b"any carnal pleas");
    assert_eq!(a.content_base64, "YW55IGNhcm5hbCBwbGVhcw==");
    assert_eq!(EmailAttachment::from_bytes("f", "", b"").content_base64, "");
    assert_eq!(EmailAttachment::from_bytes("f", "", &[0xff, 0xfe]).content_base64, "//4=");
}

#[test]
fn attachments_come_back_as_their_bytes() {
    for n in 0..70usize {
        let bytes: Vec<u8> = (0..n).map(|i| (i * 37 + n) as u8).collect();
        let a = EmailAttachment::from_bytes("f", "text/plain", &bytes);
        assert_eq!(a.bytes(), Ok(bytes));
    }
}

#[test]
fn attachments_that_are_no_base64_are_refused() {
    for bad in ["a", "YW5=", "YW55IGNhcm5hbCBwbGVhcw", "YQ==YQ==", "Y Q="] {
        let a = EmailAttachment {
            filename: "f".to_string(),
            content_type: String::new(),
            content_base64: bad.to_string(),
        };
        assert!(a.bytes().unwrap_err().starts_with("Decode attachment 'f' failed: "), "{}", bad);
    }
}

#[test]
fn files_are_added_behind_each_other() {
    let j = job().with_attachment("a.txt", "text/plain", b"1").with_attachment("b", "", b"2");
    assert_eq!(j.attachments.len(), 2);
    assert_eq!(j.attachments[0].filename, "a.txt");
    let files = build_message(&sender(), &j).unwrap();
    assert_eq!(files[0].bytes, b"1");
    assert_eq!(files[1].content_type, "application/octet-stream");
}

#[test]
fn messages_need_valid_addresses() {
    assert_eq!(build_message(&None, &job()).unwrap_err(), "EMAIL_FROM not set; required as sender address");
    let err = build_message(&Some("nobody".to_string()), &job()).unwrap_err();
    assert!(err.starts_with("Invalid EMAIL_FROM 'nobody': "));
    let mut j = job();
    j.to.push("x".to_string());
    assert!(build_message(&sender(), &j).unwrap_err().starts_with("Invalid 'to' address 'x': "));
    let mut j = job();
    j.cc.push("y@".to_string());
    assert!(build_message(&sender(), &j).unwrap_err().starts_with("Invalid 'cc' address 'y@': "));
    assert!(build_message(&sender(), &job()).unwrap().is_empty());
}

#[test]
fn files_need_valid_types() {
    let j = job().with_attachment("a", "nonsense", b"1");
    let err = build_message(&sender(), &j).unwrap_err();
    assert!(err.starts_with("Invalid content-type 'nonsense': "));
}

#[test]
fn an_email_without_recipients_is_not_queued() {
    let mut j = job();
    j.to.clear();
    assert_eq!(enqueue_email(&j, 0, 2).unwrap_err(), "email job has no 'to' recipients");
    let t = enqueue_email(&job(), 5, 2).unwrap();
    assert_eq!((t.retries, t.unit, t.spread, t.max_len), (2, 120, 60, 5));
    assert_eq!(send_with_retry(3).unit, 300);
}

#[test]
fn keys_of_the_queue_can_be_configured() {
    assert_eq!(EmailJob::queue_key(None), "flx:email:default");
    assert_eq!(EmailJob::dlq_key(None), "flx:email:dlq");
    assert_eq!(EmailJob::queue_key(Some("k".to_string())), "k");
}

#[test]
fn failed_emails_are_kept_with_their_reason() {
    let r = push_email_dlq(job(), "w", "why", "at");
    assert_eq!((r.worker.as_str(), r.error.as_str(), r.failed_at.as_str()), ("w", "why", "at"));
    assert_eq!(r.subject, "Hello");
    assert_eq!(r.to, vec!["a@example.com"]);
}

fn settings(host: Option<&str>, port: Option<&str>, tls: Option<&str>) -> SmtpSettings {
    SmtpSettings {
        host: host.map(|s| s.to_string()),
        port: port.map(|s| s.to_string()),
        tls: tls.map(|s| s.to_string()),
        user: Some("u".to_string()),
        pass: Some("p".to_string()),
    }
}

#[test]
fn mail_servers_are_reached_as_configured() {
    let p = build_smtp_transport(settings(Some("h"), None, None)).unwrap();
    assert_eq!((p.port, p.mode), (587, TlsMode::StartTls));
    assert_eq!(p.credentials, Some(("u".to_string(), "p".to_string())));
    let p = build_smtp_transport(settings(Some("h"), Some("465"), Some("SSL"))).unwrap();
    assert_eq!((p.port, p.mode), (465, TlsMode::Implicit));
    let p = build_smtp_transport(settings(Some("h"), Some("99999"), Some("off"))).unwrap();
    assert_eq!((p.port, p.mode), (587, TlsMode::Plain));
    let err = build_smtp_transport(settings(None, None, None)).unwrap_err();
    assert_eq!(err, "SMTP_HOST not set; cannot start email consumer");
}

fn request(to: &[&str]) -> SendEmailRequest {
    SendEmailRequest {
        to: to.iter().map(|s| s.to_string()).collect(),
        cc: Vec::new(),
        subject: "s".to_string(),
        content_email: "c".to_string(),
        is_html: true,
        attachments: Vec::new(),
    }
}

fn status(step: SendStep) -> (u16, String) {
    match step {
        SendStep::Do(Action::Answer(r)) => (r.status, r.body.message),
        other => panic!("no answer: {:?}", other),
    }
}

#[test]
fn sending_needs_a_token_and_access() {
    let r = request(&["a@b.c"]);
    let mut s = send(true, &r);
    assert!(matches!(s.step(Outcome::Done), SendStep::Do(Action::VerifyToken)));
    assert_eq!(status(s.step(Outcome::Done)), (401, "Invalid token".to_string()));
    let mut s = send(true, &r);
    s.step(Outcome::Done);
    assert!(matches!(s.step(Outcome::Identified("7".to_string())), SendStep::Do(Action::CheckRequest)));
    assert_eq!(status(s.step(Outcome::Failed("no".to_string()))), (401, "Unauthorized: no".to_string()));
}

#[test]
fn sending_queues_the_email() {
    let r = request(&["a@b.c"]);
    let mut s = send(true, &r);
    s.step(Outcome::Done);
    s.step(Outcome::Identified("7".to_string()));
    assert!(matches!(s.step(Outcome::Done), SendStep::Queue));
    match s.step(Outcome::Value(Json::Int(4))) {
        SendStep::Do(Action::Answer(r)) => {
            assert_eq!(r.status, 200);
            assert_eq!(r.body.message, "Email queued");
            assert_eq!(r.body.data.get("queue_len"), Some(&Json::Int(4)));
        }
        other => panic!("no answer: {:?}", other),
    }
    assert!(r.into_job("t".to_string()).is_html);
}

#[test]
fn sending_fails_without_recipients_or_queue() {
    let mut s = send(false, &request(&[]));
    assert_eq!(status(s.step(Outcome::Done)), (400, "Field 'to' must contain at least one recipient".to_string()));
    let mut s = send(false, &request(&["a"]));
    s.step(Outcome::Done);
    assert_eq!(status(s.step(Outcome::Failed("full".to_string()))), (500, "Failed to enqueue email: full".to_string()));
}
