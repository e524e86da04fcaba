//! A request to send an e-mail.
use crate::email_queue::{EmailAttachment, EmailJob};
use crate::flow::{
    checks_access, failure, failure_in, refuse, refused, succeed, succeeded, told, Action, ActionV,
    Outcome, ReplyV,
};
use crate::json::{lemma_object_view, Json, JsonV};
use crate::text::push_item;
use vstd::prelude::*;
use vstd::string::*;

verus! {

/// An e-mail that is asked for.
#[derive(Debug)]
pub struct SendEmailRequest {
    pub to: Vec<String>,
    pub cc: Vec<String>,
    pub subject: String,
    pub content_email: String,
    pub is_html: bool,
    pub attachments: Vec<EmailAttachment>,
}

impl SendEmailRequest {
    /// The e-mail as it is queued at the given time.
    pub fn into_job(self, now: String) -> (r: EmailJob)
        ensures
            r == (EmailJob {
                to: self.to,
                cc: self.cc,
                subject: self.subject,
                content_email: self.content_email,
                is_html: self.is_html,
                attachments: self.attachments,
                enqueued_at: now,
            }),
    {
        EmailJob {
            to: self.to,
            cc: self.cc,
            subject: self.subject,
            content_email: self.content_email,
            is_html: self.is_html,
            attachments: self.attachments,
            enqueued_at: now,
        }
    }
}

/// Where the request stands.
#[derive(Debug, PartialEq, Eq, Clone, Copy, Structural)]
pub enum SendStage {
    Start,
    Token,
    Access,
    Queueing,
    Ended,
}

/// What a step of the request asks for: one of the steps of all requests, or that
/// the e-mail is queued.
#[derive(Debug)]
pub enum SendStep {
    Do(Action),
    Queue,
}

/// What such a step asks for.
pub enum SendStepV {
    Do(ActionV),
    Queue,
}

impl DeepView for SendStep {
    type V = SendStepV;

    open spec fn deep_view(&self) -> SendStepV {
        match self {
            SendStep::Do(a) => SendStepV::Do(a.deep_view()),
            SendStep::Queue => SendStepV::Queue,
        }
    }
}

/// A request under way: whether it needs a token, and how many recipients the
/// e-mail has.
#[derive(Debug)]
pub struct Sending {
    pub require_auth: bool,
    pub recipients: usize,
    pub stage: SendStage,
}

/// What follows from a step: where the request stands, and what it asks for.
pub type SendTurn = (SendStage, SendStepV);

/// The request is refused.
pub open spec fn send_fails(status: u16, message: Seq<char>) -> SendTurn {
    (SendStage::Ended, SendStepV::Do(ActionV::Answer(refused(status, message))))
}

/// The e-mail is queued, where it has recipients.
pub open spec fn send_admitted(recipients: usize) -> SendTurn {
    if recipients == 0 {
        send_fails(400, "Field 'to' must contain at least one recipient"@)
    } else {
        (SendStage::Queueing, SendStepV::Queue)
    }
}

/// The answer that an e-mail was queued, with how long the queue is.
pub open spec fn email_queued(len: JsonV) -> ReplyV {
    succeeded("Email queued"@, 1, JsonV::Object(seq![("queue_len"@, len)]))
}

/// The value that a step gave.
pub open spec fn length_in(o: Outcome) -> JsonV {
    match o {
        Outcome::Value(v) => v.deep_view(),
        _ => JsonV::Null,
    }
}

/// The next step of a request.
pub open spec fn send_next(require_auth: bool, recipients: usize, stage: SendStage, o: Outcome) -> SendTurn {
    match stage {
        SendStage::Start => if require_auth {
            (SendStage::Token, SendStepV::Do(ActionV::VerifyToken))
        } else {
            send_admitted(recipients)
        },
        SendStage::Token => match o {
            Outcome::Identified(_) => (SendStage::Access, SendStepV::Do(ActionV::CheckRequest)),
            _ => send_fails(401, "Invalid token"@),
        },
        SendStage::Access => match failure_in(o) {
            Some(e) => send_fails(401, "Unauthorized: "@ + e),
            None => send_admitted(recipients),
        },
        SendStage::Queueing => match failure_in(o) {
            Some(e) => send_fails(500, "Failed to enqueue email: "@ + e),
            None => (
                SendStage::Ended,
                SendStepV::Do(ActionV::Answer(email_queued(length_in(o)))),
            ),
        },
        SendStage::Ended => (SendStage::Ended, SendStepV::Do(ActionV::Nothing)),
    }
}

/// A request that has not begun.
pub fn send(require_auth: bool, request: &SendEmailRequest) -> (r: Sending)
    ensures
        r.require_auth == require_auth,
        r.recipients == request.to@.len(),
        r.stage == SendStage::Start,
{
    Sending { require_auth, recipients: request.to.len(), stage: SendStage::Start }
}

impl Sending {
    fn fail(&mut self, status: u16, message: String) -> (r: SendStep)
        ensures
            final(self).require_auth == old(self).require_auth,
            final(self).recipients == old(self).recipients,
            (final(self).stage, r.deep_view()) == send_fails(status, message@),
    {
        self.stage = SendStage::Ended;
        SendStep::Do(Action::Answer(refuse(status, message)))
    }

    fn admitted(&mut self) -> (r: SendStep)
        ensures
            final(self).require_auth == old(self).require_auth,
            final(self).recipients == old(self).recipients,
            (final(self).stage, r.deep_view()) == send_admitted(old(self).recipients),
    {
        if self.recipients == 0 {
            self.fail(400, "Field 'to' must contain at least one recipient".to_owned())
        } else {
            self.stage = SendStage::Queueing;
            SendStep::Queue
        }
    }

    /// Takes the next step of the request, with what came of the last one.
    pub fn step(&mut self, outcome: Outcome) -> (r: SendStep)
        ensures
            final(self).require_auth == old(self).require_auth,
            final(self).recipients == old(self).recipients,
            (final(self).stage, r.deep_view()) == send_next(
                old(self).require_auth,
                old(self).recipients,
                old(self).stage,
                outcome,
            ),
    {
        broadcast use lemma_object_view;

        match self.stage {
            SendStage::Start => {
                if self.require_auth {
                    self.stage = SendStage::Token;
                    SendStep::Do(Action::VerifyToken)
                } else {
                    self.admitted()
                }
            },
            SendStage::Token => match outcome {
                Outcome::Identified(_) => {
                    self.stage = SendStage::Access;
                    SendStep::Do(Action::CheckRequest)
                },
                _ => self.fail(401, "Invalid token".to_owned()),
            },
            SendStage::Access => match failure(&outcome) {
                Some(e) => self.fail(401, told("Unauthorized: ", e)),
                None => self.admitted(),
            },
            SendStage::Queueing => match failure(&outcome) {
                Some(e) => self.fail(500, told("Failed to enqueue email: ", e)),
                None => {
                    let len = match outcome {
                        Outcome::Value(v) => v,
                        _ => Json::Null,
                    };
                    let ghost lv = len.deep_view();
                    let mut fields: Vec<(String, Json)> = Vec::new();
                    push_item(&mut fields, ("queue_len".to_owned(), len));
                    assert(fields.deep_view() =~= seq![("queue_len"@, lv)]);
                    self.stage = SendStage::Ended;
                    SendStep::Do(Action::Answer(succeed("Email queued", 1, Json::Object(fields))))
                },
            },
            SendStage::Ended => SendStep::Do(Action::Nothing),
        }
    }
}

// ---------------------------------------------------------------------------
// Laws
// ---------------------------------------------------------------------------

/// Where a request stands after some outcomes.
pub open spec fn send_after(require_auth: bool, recipients: usize, outcomes: Seq<Outcome>) -> SendStage
    decreases outcomes.len(),
{
    if outcomes.len() == 0 {
        SendStage::Start
    } else {
        send_next(
            require_auth,
            recipients,
            send_after(require_auth, recipients, outcomes.drop_last()),
            outcomes.last(),
        ).0
    }
}

/// What a request asks for after some outcomes.
pub open spec fn send_asks(require_auth: bool, recipients: usize, outcomes: Seq<Outcome>) -> SendStepV {
    send_next(
        require_auth,
        recipients,
        send_after(require_auth, recipients, outcomes.drop_last()),
        outcomes.last(),
    ).1
}

/// Whether the outcome at `k` answered a check of access, and granted it.
pub open spec fn send_granted_at(
    require_auth: bool,
    recipients: usize,
    outcomes: Seq<Outcome>,
    k: int,
) -> bool {
    &&& 0 < k < outcomes.len()
    &&& send_asks(require_auth, recipients, outcomes.take(k)) matches SendStepV::Do(a)
        && checks_access(a)
    &&& failure_in(outcomes[k]) is None
}

proof fn lemma_send_access(recipients: usize, outcomes: Seq<Outcome>)
    ensures
        send_after(true, recipients, outcomes) == SendStage::Access ==> outcomes.len() > 0
            && send_asks(true, recipients, outcomes) is Do && checks_access(
            send_asks(true, recipients, outcomes)->Do_0,
        ),
{
}

/// Where a token is needed, no e-mail is queued unless access was checked and
/// granted before; and none without recipients ever is.
pub proof fn law_sending_is_guarded(require_auth: bool, recipients: usize, outcomes: Seq<Outcome>)
    requires
        outcomes.len() > 0,
        send_asks(require_auth, recipients, outcomes) is Queue,
    ensures
        recipients > 0,
        require_auth ==> exists|k: int| send_granted_at(require_auth, recipients, outcomes, k),
{
    if require_auth {
        let before = outcomes.drop_last();
        lemma_send_access(recipients, before);
        let k = outcomes.len() - 1;
        assert(outcomes.take(k) =~= before);
        assert(send_granted_at(require_auth, recipients, outcomes, k));
    }
}

} // verus!
