//! The queue of e-mails.
use crate::flow::told;
use crate::number::{
    int_text, law_numeral_round_trip, lemma_nat_text_value, parse_usize, usize_value,
};
use crate::retry::{TryStage, TryV, Trying};
use crate::text::{copy_texts, is_digit, lowercase, push_item, same, to_lowercase};
use base64::Engine;
use vstd::prelude::*;
use vstd::string::*;

verus! {

// ---------------------------------------------------------------------------
// Base64
// ---------------------------------------------------------------------------

/// The character that stands for six bits.
pub open spec fn sextet(n: int) -> char {
    if n < 26 {
        ((65 + n) as u8) as char
    } else if n < 52 {
        ((71 + n) as u8) as char
    } else if n < 62 {
        ((n - 4) as u8) as char
    } else if n == 62 {
        '+'
    } else {
        '/'
    }
}

/// Bytes as base64: four characters for three bytes, padded with `=`.
pub open spec fn base64_text(bytes: Seq<u8>) -> Seq<char>
    decreases bytes.len(),
{
    if bytes.len() == 0 {
        Seq::empty()
    } else if bytes.len() == 1 {
        let a = bytes[0] as int;
        seq![sextet(a / 4), sextet(a % 4 * 16), '=', '=']
    } else if bytes.len() == 2 {
        let a = bytes[0] as int;
        let b = bytes[1] as int;
        seq![sextet(a / 4), sextet(a % 4 * 16 + b / 16), sextet(b % 16 * 4), '=']
    } else {
        let a = bytes[0] as int;
        let b = bytes[1] as int;
        let c = bytes[2] as int;
        seq![
            sextet(a / 4),
            sextet(a % 4 * 16 + b / 16),
            sextet(b % 16 * 4 + c / 64),
            sextet(c % 64),
        ] + base64_text(bytes.skip(3))
    }
}

/// The encoding of the `base64` crate with the standard alphabet and padding.
#[verifier::external_body]
fn base64_encode(bytes: &[u8]) -> (r: String)
    ensures
        r@ == base64_text(bytes@),
{
    base64::engine::general_purpose::STANDARD.encode(bytes)
}

/// What the `base64` crate says of a text that is not the base64 of any bytes.
pub uninterp spec fn base64_fault(text: Seq<char>) -> Seq<char>;

/// The decoding of the `base64` crate with the standard alphabet, which takes
/// canonical padding alone: a text is decoded where it is the base64 of some
/// bytes, and to these. What is said of any other text depends on the text alone.
#[verifier::external_body]
fn base64_decode(text: &str) -> (r: Result<Vec<u8>, String>)
    ensures
        match r {
            Ok(bytes) => base64_text(bytes@) == text@,
            Err(e) => e@ == base64_fault(text@) && (forall|b: Seq<u8>|
                #[trigger] base64_text(b) != text@),
        },
{
    base64::engine::general_purpose::STANDARD.decode(text.as_bytes()).map_err(|e| e.to_string())
}

proof fn lemma_sextet(m: int, n: int)
    requires
        0 <= m < 64,
        0 <= n < 64,
    ensures
        sextet(m) == sextet(n) ==> m == n,
        sextet(m) != '=',
{
    lemma_sextet_code(m);
    lemma_sextet_code(n);
}

/// The code of the character that stands for six bits.
spec fn sextet_code(n: int) -> int {
    if n < 26 {
        65 + n
    } else if n < 52 {
        71 + n
    } else if n < 62 {
        n - 4
    } else if n == 62 {
        43
    } else {
        47
    }
}

proof fn lemma_sextet_code(n: int)
    requires
        0 <= n < 64,
    ensures
        sextet(n) as int == sextet_code(n),
{
}

/// Different bytes have different base64.
pub proof fn law_base64_is_injective(a: Seq<u8>, b: Seq<u8>)
    requires
        base64_text(a) == base64_text(b),
    ensures
        a == b,
    decreases a.len(),
{
    lemma_base64_length(a);
    lemma_base64_length(b);
    let ta = base64_text(a);
    let tb = base64_text(b);
    if a.len() == 0 {
        assert(b.len() == 0);
        assert(a =~= b);
    } else {
        assert(b.len() > 0);
        lemma_first_chunk(a);
        lemma_first_chunk(b);
        assert(ta[0] == tb[0] && ta[1] == tb[1] && ta[2] == tb[2] && ta[3] == tb[3]);
        let (a0, b0) = (a[0] as int, b[0] as int);
        lemma_sextet(a0 / 4, b0 / 4);
        if a.len() == 1 {
            lemma_sextet(b0 % 4 * 16, a0 % 4 * 16);
            if b.len() == 2 {
                let b1 = b[1] as int;
                lemma_sextet(b1 % 16 * 4, 0);
            } else if b.len() >= 3 {
                let (b1, b2) = (b[1] as int, b[2] as int);
                lemma_sextet(b1 % 16 * 4 + b2 / 64, 0);
            }
            assert(b.len() == 1);
            assert(a =~= b);
        } else if b.len() == 1 {
            let a1 = a[1] as int;
            if a.len() == 2 {
                lemma_sextet(a1 % 16 * 4, 0);
            } else {
                let a2 = a[2] as int;
                lemma_sextet(a1 % 16 * 4 + a2 / 64, 0);
            }
            assert(false);
        } else {
            let (a1, b1) = (a[1] as int, b[1] as int);
            lemma_sextet(a0 % 4 * 16 + a1 / 16, b0 % 4 * 16 + b1 / 16);
            if a.len() == 2 {
                if b.len() >= 3 {
                    let b2 = b[2] as int;
                    lemma_sextet(b2 % 64, 0);
                }
                assert(b.len() == 2);
                lemma_sextet(a1 % 16 * 4, b1 % 16 * 4);
                assert(a =~= b);
            } else if b.len() == 2 {
                let a2 = a[2] as int;
                lemma_sextet(a2 % 64, 0);
                assert(false);
            } else {
                let (a2, b2) = (a[2] as int, b[2] as int);
                lemma_sextet(a1 % 16 * 4 + a2 / 64, b1 % 16 * 4 + b2 / 64);
                lemma_sextet(a2 % 64, b2 % 64);
                assert(ta.skip(4) =~= base64_text(a.skip(3)));
                assert(tb.skip(4) =~= base64_text(b.skip(3)));
                law_base64_is_injective(a.skip(3), b.skip(3));
                assert(a0 == b0 && a1 == b1 && a2 == b2);
                assert forall|i: int| 0 <= i < a.len() implies a[i] == b[i] by {
                    if i >= 3 {
                        assert(a.skip(3)[i - 3] == b.skip(3)[i - 3]);
                    }
                }
                assert(a.len() == b.len()) by {
                    assert(a.skip(3).len() == b.skip(3).len());
                }
                assert(a =~= b);
            }
        }
    }
}

proof fn lemma_base64_length(a: Seq<u8>)
    ensures
        (a.len() == 0) == (base64_text(a).len() == 0),
        a.len() > 0 ==> base64_text(a).len() >= 4,
{
}

/// The first four characters of the base64 of some bytes.
proof fn lemma_first_chunk(a: Seq<u8>)
    requires
        a.len() > 0,
    ensures
        base64_text(a).len() >= 4,
        base64_text(a)[0] == sextet(a[0] as int / 4),
        a.len() == 1 ==> base64_text(a)[1] == sextet(a[0] as int % 4 * 16) && base64_text(a)[2]
            == '=' && base64_text(a)[3] == '=',
        a.len() >= 2 ==> base64_text(a)[1] == sextet(a[0] as int % 4 * 16 + a[1] as int / 16),
        a.len() == 2 ==> base64_text(a)[2] == sextet(a[1] as int % 16 * 4) && base64_text(a)[3]
            == '=',
        a.len() >= 3 ==> base64_text(a)[2] == sextet(a[1] as int % 16 * 4 + a[2] as int / 64)
            && base64_text(a)[3] == sextet(a[2] as int % 64),
{
}

// ---------------------------------------------------------------------------
// E-mails
// ---------------------------------------------------------------------------

/// A file that is sent with an e-mail.
#[derive(Debug, PartialEq)]
pub struct EmailAttachment {
    pub filename: String,
    /// The type of the file; where it is empty, that of any bytes.
    pub content_type: String,
    /// The bytes of the file as base64.
    pub content_base64: String,
}

impl EmailAttachment {
    /// A file from its bytes.
    pub fn from_bytes(filename: &str, content_type: &str, bytes: &[u8]) -> (r: EmailAttachment)
        ensures
            r.filename@ == filename@,
            r.content_type@ == content_type@,
            r.content_base64@ == base64_text(bytes@),
    {
        EmailAttachment {
            filename: filename.to_owned(),
            content_type: content_type.to_owned(),
            content_base64: base64_encode(bytes),
        }
    }

    /// The bytes of the file, or what is wrong with them.
    pub fn bytes(&self) -> (r: Result<Vec<u8>, String>)
        ensures
            match r {
                Ok(bytes) => base64_text(bytes@) == self.content_base64@,
                Err(e) => e@ == "Decode attachment '"@ + self.filename@ + "' failed: "@
                    + base64_fault(self.content_base64@) && (forall|b: Seq<u8>|
                    #[trigger] base64_text(b) != self.content_base64@),
            },
    {
        match base64_decode(self.content_base64.as_str()) {
            Ok(bytes) => Ok(bytes),
            Err(e) => {
                let mut m = told("Decode attachment '", self.filename.as_str());
                m.append("' failed: ");
                m.append(e.as_str());
                Err(m)
            },
        }
    }
}

/// What is sent with an e-mail comes back as the bytes that it was made from:
/// where a text is the base64 of some bytes, whatever is decoded from it is them.
pub proof fn law_attachments_survive(bytes: Seq<u8>, decoded: Seq<u8>, text: Seq<char>)
    requires
        text == base64_text(bytes),
        text == base64_text(decoded),
    ensures
        decoded == bytes,
{
    law_base64_is_injective(bytes, decoded);
}

/// An e-mail in the queue.
#[derive(Debug, PartialEq)]
pub struct EmailJob {
    pub to: Vec<String>,
    pub cc: Vec<String>,
    pub subject: String,
    /// The body: HTML where it is marked so, else plain text.
    pub content_email: String,
    pub is_html: bool,
    pub attachments: Vec<EmailAttachment>,
    pub enqueued_at: String,
}

/// A configured text, or the usual one.
pub open spec fn or_usual(configured: Option<Seq<char>>, usual: Seq<char>) -> Seq<char> {
    match configured {
        Some(k) => k,
        None => usual,
    }
}

impl EmailJob {
    /// The list that holds queued e-mails.
    pub fn queue_key(configured: Option<String>) -> (r: String)
        ensures
            r@ == or_usual(configured.deep_view(), "flx:email:default"@),
    {
        match configured {
            Some(k) => k,
            None => "flx:email:default".to_owned(),
        }
    }

    /// The list that holds e-mails that failed.
    pub fn dlq_key(configured: Option<String>) -> (r: String)
        ensures
            r@ == or_usual(configured.deep_view(), "flx:email:dlq"@),
    {
        match configured {
            Some(k) => k,
            None => "flx:email:dlq".to_owned(),
        }
    }

    /// A plain e-mail without files, queued at the given time.
    pub fn new(
        to: Vec<String>,
        cc: Vec<String>,
        subject: &str,
        content_email: &str,
        enqueued_at: &str,
    ) -> (r: EmailJob)
        ensures
            r.to == to,
            r.cc == cc,
            r.subject@ == subject@,
            r.content_email@ == content_email@,
            !r.is_html,
            r.attachments@.len() == 0,
            r.enqueued_at@ == enqueued_at@,
    {
        EmailJob {
            to,
            cc,
            subject: subject.to_owned(),
            content_email: content_email.to_owned(),
            is_html: false,
            attachments: Vec::new(),
            enqueued_at: enqueued_at.to_owned(),
        }
    }

    /// The e-mail with its body as HTML.
    pub fn html(self) -> (r: EmailJob)
        ensures
            r == (EmailJob { is_html: true, ..self }),
    {
        let mut job = self;
        job.is_html = true;
        job
    }

    /// The e-mail with a file.
    pub fn with_attachment(self, filename: &str, content_type: &str, bytes: &[u8]) -> (r: EmailJob)
        ensures
            r.to == self.to,
            r.cc == self.cc,
            r.subject == self.subject,
            r.content_email == self.content_email,
            r.is_html == self.is_html,
            r.enqueued_at == self.enqueued_at,
            r.attachments@.len() == self.attachments@.len() + 1,
            r.attachments@.drop_last() == self.attachments@,
            r.attachments@.last().filename@ == filename@,
            r.attachments@.last().content_type@ == content_type@,
            r.attachments@.last().content_base64@ == base64_text(bytes@),
    {
        let mut job = self;
        job.attachments.push(EmailAttachment::from_bytes(filename, content_type, bytes));
        assert(job.attachments@.drop_last() =~= self.attachments@);
        job
    }
}

/// How an e-mail is put into the queue, or why it is not: one without recipients
/// is refused; it is tried again so often, unless the queue is full.
pub fn enqueue_email(job: &EmailJob, max_len: i64, retry_count: usize) -> (r: Result<Trying, String>)
    ensures
        match r {
            Ok(t) => job.to@.len() > 0 && t.plan() == (TryV {
                retries: retry_count,
                unit: 120,
                max_len,
                label: "Email queue"@,
            }) && t.spread == 60 && t.stage == TryStage::Start,
            Err(m) => job.to@.len() == 0 && m@ == "email job has no 'to' recipients"@,
        },
{
    if job.to.len() == 0 {
        return Err("email job has no 'to' recipients".to_owned());
    }
    Ok(Trying::new(retry_count, 120, 60, max_len, "Email queue"))
}

/// How an e-mail is sent: it is tried again so often.
pub fn send_with_retry(retry_max: usize) -> (r: Trying)
    ensures
        r.plan() == (TryV { retries: retry_max, unit: 300, max_len: 0, label: Seq::empty() }),
        r.spread == 80,
        r.stage == TryStage::Start,
{
    proof {
        reveal_strlit("");
        assert(""@ =~= Seq::<char>::empty());
    }
    Trying::new(retry_max, 300, 80, 0, "")
}

/// An e-mail that failed for good, and why.
#[derive(Debug)]
pub struct FailedEmailRecord {
    pub failed_at: String,
    pub worker: String,
    pub error: String,
    pub subject: String,
    pub to: Vec<String>,
    pub job: EmailJob,
}

/// What is kept of an e-mail that failed for good.
pub fn push_email_dlq(job: EmailJob, worker: &str, error: &str, at: &str) -> (r: FailedEmailRecord)
    ensures
        r.job == job,
        r.failed_at@ == at@,
        r.worker@ == worker@,
        r.error@ == error@,
        r.subject@ == job.subject@,
        r.to.deep_view() == job.to.deep_view(),
{
    FailedEmailRecord {
        failed_at: at.to_owned(),
        worker: worker.to_owned(),
        error: error.to_owned(),
        subject: job.subject.clone(),
        to: copy_texts(&job.to),
        job,
    }
}

// ---------------------------------------------------------------------------
// The connection
// ---------------------------------------------------------------------------

/// How the connection to the mail server is secured.
#[derive(Debug, PartialEq, Eq, Clone, Copy, Structural)]
pub enum TlsMode {
    /// From its start.
    Implicit,
    /// Not at all.
    Plain,
    /// Once the server agrees.
    StartTls,
}

/// How the connection is secured, by what is configured.
pub open spec fn tls_mode(configured: Seq<char>) -> TlsMode {
    let t = lowercase(configured);
    if t == "tls"@ || t == "ssl"@ || t == "implicit"@ {
        TlsMode::Implicit
    } else if t == "none"@ || t == "plain"@ || t == "off"@ {
        TlsMode::Plain
    } else {
        TlsMode::StartTls
    }
}

/// The configured port, or the usual one.
pub open spec fn smtp_port(configured: Option<Seq<char>>) -> u16 {
    match configured {
        Some(s) => match usize_value(s) {
            Some(n) => if n <= 0xffff {
                n as u16
            } else {
                587
            },
            None => 587,
        },
        None => 587,
    }
}

/// What is configured for the connection to the mail server.
#[derive(Debug)]
pub struct SmtpSettings {
    pub host: Option<String>,
    pub port: Option<String>,
    pub tls: Option<String>,
    pub user: Option<String>,
    pub pass: Option<String>,
}

/// How the mail server is reached, and who logs in.
#[derive(Debug)]
pub struct SmtpPlan {
    pub host: String,
    pub port: u16,
    pub mode: TlsMode,
    pub credentials: Option<(String, String)>,
}

/// Who logs in: someone with a name and a password.
pub open spec fn smtp_login(user: Option<Seq<char>>, pass: Option<Seq<char>>) -> Option<
    (Seq<char>, Seq<char>),
> {
    match (user, pass) {
        (Some(u), Some(p)) => if u.len() > 0 {
            Some((u, p))
        } else {
            None
        },
        _ => None,
    }
}

/// How the mail server is reached: its host has to be configured.
pub fn build_smtp_transport(settings: SmtpSettings) -> (r: Result<SmtpPlan, String>)
    ensures
        match r {
            Ok(p) => {
                &&& settings.host is Some
                &&& p.host@ == settings.host->0@
                &&& p.port == smtp_port(settings.port.deep_view())
                &&& p.mode == tls_mode(or_usual(settings.tls.deep_view(), "starttls"@))
                &&& p.credentials.deep_view() == smtp_login(
                    settings.user.deep_view(),
                    settings.pass.deep_view(),
                )
            },
            Err(m) => settings.host is None && m@
                == "SMTP_HOST not set; cannot start email consumer"@,
        },
{
    let host = match settings.host {
        Some(h) => h,
        None => {
            return Err("SMTP_HOST not set; cannot start email consumer".to_owned());
        },
    };
    let port: u16 = match &settings.port {
        Some(s) => match parse_usize(s.as_str()) {
            Some(n) => if n <= 0xffff {
                n as u16
            } else {
                587
            },
            None => 587,
        },
        None => 587,
    };
    let low = match &settings.tls {
        Some(t) => to_lowercase(t.as_str()),
        None => to_lowercase("starttls"),
    };
    let t = low.as_str();
    let mode = if same(t, "tls") || same(t, "ssl") || same(t, "implicit") {
        TlsMode::Implicit
    } else if same(t, "none") || same(t, "plain") || same(t, "off") {
        TlsMode::Plain
    } else {
        TlsMode::StartTls
    };
    let credentials: Option<(String, String)> = match (settings.user, settings.pass) {
        (Some(u), Some(p)) => if !u.as_str().is_empty() {
            Some((u, p))
        } else {
            None
        },
        _ => None,
    };
    Ok(SmtpPlan { host, port, mode, credentials })
}

// ---------------------------------------------------------------------------
// The message
// ---------------------------------------------------------------------------

/// What the `lettre` crate says of a text that is no address of a mailbox; None
/// where it is one.
pub uninterp spec fn mailbox_fault(text: Seq<char>) -> Option<Seq<char>>;

/// The parsing of `lettre::message::Mailbox`: what is wrong with a text depends
/// on the text alone.
#[verifier::external_body]
fn check_mailbox(text: &str) -> (r: Option<String>)
    ensures
        r.deep_view() == mailbox_fault(text@),
{
    text.parse::<lettre::message::Mailbox>().err().map(|e| e.to_string())
}

/// What the `lettre` crate says of a text that is no type of a content; None
/// where it is one.
pub uninterp spec fn content_type_fault(text: Seq<char>) -> Option<Seq<char>>;

/// `lettre::message::header::ContentType::parse`: what is wrong with a text
/// depends on the text alone.
#[verifier::external_body]
fn check_content_type(text: &str) -> (r: Option<String>)
    ensures
        r.deep_view() == content_type_fault(text@),
{
    lettre::message::header::ContentType::parse(text).err().map(|e| e.to_string())
}

/// What is said of an address.
pub open spec fn invalid_address(role: Seq<char>, address: Seq<char>, fault: Seq<char>) -> Seq<char> {
    "Invalid '"@ + role + "' address '"@ + address + "': "@ + fault
}

/// The position of the first address, at or after `from`, that is none.
pub open spec fn bad_address_at(
    addresses: Seq<Seq<char>>,
    faults: Seq<Option<Seq<char>>>,
    from: int,
) -> Option<int>
    decreases addresses.len() - from,
{
    if from < 0 || from >= addresses.len() || from >= faults.len() {
        None
    } else if faults[from] is Some {
        Some(from)
    } else {
        bad_address_at(addresses, faults, from + 1)
    }
}

/// What is wrong with some addresses, by what is said of each.
pub open spec fn addresses_fault(
    role: Seq<char>,
    addresses: Seq<Seq<char>>,
    faults: Seq<Option<Seq<char>>>,
) -> Option<Seq<char>> {
    match bad_address_at(addresses, faults, 0) {
        Some(i) => Some(invalid_address(role, addresses[i], faults[i]->0)),
        None => None,
    }
}

/// What is said of each of some addresses.
pub open spec fn mailbox_faults(addresses: Seq<Seq<char>>) -> Seq<Option<Seq<char>>> {
    Seq::new(addresses.len(), |i: int| mailbox_fault(addresses[i]))
}

fn check_mailboxes(addresses: &Vec<String>) -> (r: Vec<Option<String>>)
    ensures
        r.deep_view() == mailbox_faults(addresses.deep_view()),
{
    let ghost all = mailbox_faults(addresses.deep_view());
    let mut out: Vec<Option<String>> = Vec::new();
    let mut i: usize = 0;
    while i < addresses.len()
        invariant
            i <= addresses@.len(),
            all == mailbox_faults(addresses.deep_view()),
            out.deep_view() == all.take(i as int),
        decreases addresses.len() - i,
    {
        push_item(&mut out, check_mailbox(addresses[i].as_str()));
        i += 1;
        assert(all.take(i as int) =~= all.take(i - 1).push(all[i - 1]));
    }
    assert(all.take(addresses@.len() as int) =~= all);
    out
}

/// What is wrong with some addresses, by what is said of each.
pub fn judge_addresses(role: &str, addresses: &Vec<String>, faults: &Vec<Option<String>>) -> (r:
    Option<String>)
    ensures
        r.deep_view() == addresses_fault(role@, addresses.deep_view(), faults.deep_view()),
{
    let ghost av = addresses.deep_view();
    let ghost fv = faults.deep_view();
    let mut i: usize = 0;
    while i < addresses.len() && i < faults.len()
        invariant
            i <= addresses@.len(),
            i <= faults@.len(),
            av == addresses.deep_view(),
            fv == faults.deep_view(),
            bad_address_at(av, fv, 0) == bad_address_at(av, fv, i as int),
        decreases addresses.len() - i,
    {
        assert(av[i as int] == addresses@[i as int]@);
        assert(fv[i as int] == faults@[i as int].deep_view());
        assert(av.len() == addresses@.len() && fv.len() == faults@.len());
        match &faults[i] {
            Some(f) => {
                let mut m = told("Invalid '", role);
                m.append("' address '");
                m.append(addresses[i].as_str());
                m.append("': ");
                m.append(f.as_str());
                return Some(m);
            },
            None => {},
        }
        i += 1;
    }
    assert(av.len() == addresses@.len() && fv.len() == faults@.len());
    None
}

/// The type that a file is sent under.
pub open spec fn sent_type(a: EmailAttachment) -> Seq<char> {
    if a.content_type@.len() == 0 {
        "application/octet-stream"@
    } else {
        a.content_type@
    }
}

/// A file as it is sent: its name, its type and its bytes.
#[derive(Debug, PartialEq)]
pub struct MailFile {
    pub filename: String,
    pub content_type: String,
    pub bytes: Vec<u8>,
}

/// Whether a file is sent as its attachment says.
pub open spec fn carries(f: MailFile, a: EmailAttachment) -> bool {
    &&& f.filename@ == a.filename@
    &&& f.content_type@ == sent_type(a)
    &&& base64_text(f.bytes@) == a.content_base64@
    &&& content_type_fault(sent_type(a)) is None
}

/// What is wrong with an attachment: its bytes cannot be decoded, or its type is
/// none.
pub open spec fn attachment_fault(a: EmailAttachment, m: Seq<char>) -> bool {
    ||| (forall|b: Seq<u8>| #[trigger] base64_text(b) != a.content_base64@) && m
        == "Decode attachment '"@ + a.filename@ + "' failed: "@ + base64_fault(a.content_base64@)
    ||| (exists|b: Seq<u8>| #[trigger] base64_text(b) == a.content_base64@) && content_type_fault(
        sent_type(a),
    ) is Some && m == "Invalid content-type '"@ + sent_type(a) + "': "@ + content_type_fault(
        sent_type(a),
    )->0
}

/// Whether an attachment can be sent: it holds the base64 of some bytes, and its
/// type is one.
pub open spec fn is_sendable(a: EmailAttachment) -> bool {
    (exists|b: Seq<u8>| #[trigger] base64_text(b) == a.content_base64@) && content_type_fault(
        sent_type(a),
    ) is None
}

/// Whether the `k`-th of some attachments is the first that cannot be sent, and
/// this is what is wrong with it.
pub open spec fn fails_first(attachments: Seq<EmailAttachment>, m: Seq<char>, k: int) -> bool {
    &&& 0 <= k < attachments.len()
    &&& attachment_fault(attachments[k], m)
    &&& forall|i: int| 0 <= i < k ==> is_sendable(#[trigger] attachments[i])
}

/// Whether this is what is wrong with the first of some attachments that cannot be
/// sent.
pub open spec fn fails_somewhere(attachments: Seq<EmailAttachment>, m: Seq<char>) -> bool {
    exists|k: int| fails_first(attachments, m, k)
}

/// Whether files are sent as their attachments say.
pub open spec fn all_carried(files: Seq<MailFile>, attachments: Seq<EmailAttachment>) -> bool {
    &&& files.len() == attachments.len()
    &&& forall|i: int| 0 <= i < files.len() ==> carries(#[trigger] files[i], attachments[i])
}

/// A file as it is sent, or what is wrong with it.
pub fn build_mail_file(a: &EmailAttachment) -> (r: Result<MailFile, String>)
    ensures
        match r {
            Ok(f) => carries(f, *a),
            Err(m) => attachment_fault(*a, m@),
        },
{
    let bytes = match a.bytes() {
        Ok(b) => b,
        Err(m) => {
            return Err(m);
        },
    };
    let content_type = if a.content_type.as_str().is_empty() {
        "application/octet-stream".to_owned()
    } else {
        a.content_type.clone()
    };
    match check_content_type(content_type.as_str()) {
        Some(f) => {
            assert(base64_text(bytes@) == a.content_base64@);
            let mut m = told("Invalid content-type '", content_type.as_str());
            m.append("': ");
            m.append(f.as_str());
            Err(m)
        },
        None => Ok(MailFile { filename: a.filename.clone(), content_type, bytes }),
    }
}

/// The files of an e-mail as they are sent, or what is wrong with the first that
/// cannot be.
pub fn build_mail_files(attachments: &Vec<EmailAttachment>) -> (r: Result<Vec<MailFile>, String>)
    ensures
        match r {
            Ok(files) => all_carried(files@, attachments@),
            Err(m) => fails_somewhere(attachments@, m@),
        },
{
    let mut files: Vec<MailFile> = Vec::new();
    let mut i: usize = 0;
    while i < attachments.len()
        invariant
            i <= attachments@.len(),
            files@.len() == i,
            forall|k: int| 0 <= k < i ==> carries(#[trigger] files@[k], attachments@[k]),
        decreases attachments.len() - i,
    {
        match build_mail_file(&attachments[i]) {
            Ok(f) => {
                files.push(f);
            },
            Err(m) => {
                proof {
                    assert forall|k: int| 0 <= k < i implies is_sendable(
                        #[trigger] attachments@[k],
                    ) by {
                        assert(carries(files@[k], attachments@[k]));
                        assert(base64_text(files@[k].bytes@) == attachments@[k].content_base64@);
                    }
                    assert(fails_first(attachments@, m@, i as int));
                }
                return Err(m);
            },
        }
        i += 1;
    }
    Ok(files)
}

/// What is wrong with the head of a message: its sender is missing or is none, or
/// a recipient is none.
pub open spec fn head_fault(
    from: Option<Seq<char>>,
    from_fault: Option<Seq<char>>,
    to: Seq<Seq<char>>,
    to_faults: Seq<Option<Seq<char>>>,
    cc: Seq<Seq<char>>,
    cc_faults: Seq<Option<Seq<char>>>,
) -> Option<Seq<char>> {
    match from {
        None => Some("EMAIL_FROM not set; required as sender address"@),
        Some(f) => match from_fault {
            Some(e) => Some("Invalid EMAIL_FROM '"@ + f + "': "@ + e),
            None => match addresses_fault("to"@, to, to_faults) {
                Some(m) => Some(m),
                None => addresses_fault("cc"@, cc, cc_faults),
            },
        },
    }
}

/// What is wrong with the sender, by what is said of it.
fn judge_sender(from: &Option<String>, fault: &Option<String>) -> (r: Option<String>)
    ensures
        r.deep_view() == head_fault(
            from.deep_view(),
            fault.deep_view(),
            Seq::empty(),
            Seq::empty(),
            Seq::empty(),
            Seq::empty(),
        ),
{
    match from {
        None => Some("EMAIL_FROM not set; required as sender address".to_owned()),
        Some(f) => match fault {
            Some(e) => {
                let mut m = told("Invalid EMAIL_FROM '", f.as_str());
                m.append("': ");
                m.append(e.as_str());
                Some(m)
            },
            None => None,
        },
    }
}

/// What is wrong with the head of a message, by what is said of each address.
pub fn judge_head(
    from: &Option<String>,
    from_fault: &Option<String>,
    to: &Vec<String>,
    to_faults: &Vec<Option<String>>,
    cc: &Vec<String>,
    cc_faults: &Vec<Option<String>>,
) -> (r: Option<String>)
    ensures
        r.deep_view() == head_fault(
            from.deep_view(),
            from_fault.deep_view(),
            to.deep_view(),
            to_faults.deep_view(),
            cc.deep_view(),
            cc_faults.deep_view(),
        ),
{
    match judge_sender(from, from_fault) {
        Some(m) => {
            return Some(m);
        },
        None => {},
    }
    match judge_addresses("to", to, to_faults) {
        Some(m) => Some(m),
        None => judge_addresses("cc", cc, cc_faults),
    }
}

/// What is said of a sender.
pub open spec fn sender_fault(from: Option<Seq<char>>) -> Option<Seq<char>> {
    match from {
        Some(f) => mailbox_fault(f),
        None => None,
    }
}

/// What is wrong with the head of a message.
pub open spec fn message_fault(from: Option<Seq<char>>, job: EmailJob) -> Option<Seq<char>> {
    head_fault(
        from,
        sender_fault(from),
        job.to.deep_view(),
        mailbox_faults(job.to.deep_view()),
        job.cc.deep_view(),
        mailbox_faults(job.cc.deep_view()),
    )
}

/// What a message is made from once its sender, its recipients and its files are
/// found to be in order: its files, or what is wrong. What is wrong with its head
/// comes before what is wrong with its files.
pub fn build_message(from: &Option<String>, job: &EmailJob) -> (r: Result<Vec<MailFile>, String>)
    ensures
        match r {
            Ok(files) => {
                &&& message_fault(from.deep_view(), *job) is None
                &&& all_carried(files@, job.attachments@)
            },
            Err(m) => match message_fault(from.deep_view(), *job) {
                Some(f) => m@ == f,
                None => fails_somewhere(job.attachments@, m@),
            },
        },
{
    let from_fault: Option<String> = match from {
        Some(f) => check_mailbox(f.as_str()),
        None => None,
    };
    let to_faults = check_mailboxes(&job.to);
    let cc_faults = check_mailboxes(&job.cc);
    match judge_head(from, &from_fault, &job.to, &to_faults, &job.cc, &cc_faults) {
        Some(m) => {
            return Err(m);
        },
        None => {},
    }
    build_mail_files(&job.attachments)
}

/// A message is refused exactly where its sender is not set or no address, or where
/// one of its recipients is no address.
pub proof fn law_messages_are_sent_to_addresses(from: Option<Seq<char>>, job: EmailJob)
    ensures
        message_fault(from, job) is None <==> {
            &&& from is Some
            &&& mailbox_fault(from->0) is None
            &&& forall|i: int| 0 <= i < job.to@.len() ==> mailbox_fault((#[trigger] job.to@[i])@) is None
            &&& forall|i: int| 0 <= i < job.cc@.len() ==> mailbox_fault((#[trigger] job.cc@[i])@) is None
        },
{
    lemma_bad_address(job.to.deep_view(), 0);
    lemma_bad_address(job.cc.deep_view(), 0);
    assert forall|i: int| 0 <= i < job.to@.len() implies job.to.deep_view()[i] == (
    #[trigger] job.to@[i])@ by {}
    assert forall|i: int| 0 <= i < job.cc@.len() implies job.cc.deep_view()[i] == (
    #[trigger] job.cc@[i])@ by {}
}

proof fn lemma_bad_address(addresses: Seq<Seq<char>>, from: int)
    requires
        0 <= from,
    ensures
        bad_address_at(addresses, mailbox_faults(addresses), from) is None <==> forall|i: int|
            from <= i < addresses.len() ==> mailbox_fault(#[trigger] addresses[i]) is None,
    decreases addresses.len() - from,
{
    if from < addresses.len() {
        lemma_bad_address(addresses, from + 1);
        assert(mailbox_faults(addresses)[from] == mailbox_fault(addresses[from]));
    }
}

/// The port of the mail server is the configured one, where it is a port.
pub proof fn law_ports_are_as_configured(n: u16)
    ensures
        smtp_port(Some(int_text(n as int))) == n,
        smtp_port(None) == 587,
{
    law_numeral_round_trip(n as i64);
    lemma_nat_text_value(n as int);
    assert(is_digit(int_text(n as int)[0]));
}

/// The mail server is logged into with the configured name and password, where both
/// are there.
pub proof fn law_logins_are_as_configured(user: Option<Seq<char>>, pass: Option<Seq<char>>)
    ensures
        smtp_login(user, pass) is Some <==> user is Some && pass is Some && user->0.len() > 0,
        smtp_login(user, pass) is Some ==> smtp_login(user, pass)->0 == (user->0, pass->0),
{
}

} // verus!
