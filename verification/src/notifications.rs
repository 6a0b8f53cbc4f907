//! Notifications: who is told what, and when.
use vstd::prelude::*;

use crate::json::{json_text, record_text, render_texts, text_fields};

pub mod badges;
pub mod digests;
pub mod live_scores;
pub mod ranks;
pub mod reminders;

verus! {

/// How to reach a member.
#[derive(Debug)]
pub struct Contact {
    pub user_id: u128,
    pub email: String,
    /// Code of the language they chose.
    pub lang: String,
    /// Whether they want push notifications.
    pub notify_push: bool,
}

/// A push notification to a member.
#[derive(Debug)]
pub struct Push {
    pub user_id: u128,
    pub title: String,
    pub body: String,
    pub url: String,
}

/// The content of a push notification.
pub struct PushText {
    pub user_id: u128,
    pub title: Seq<char>,
    pub body: Seq<char>,
    pub url: Seq<char>,
}

impl Push {
    /// The content of this notification.
    pub open spec fn content(self) -> PushText {
        PushText {
            user_id: self.user_id,
            title: self.title@,
            body: self.body@,
            url: self.url@,
        }
    }
}

/// The contents of some notifications.
pub open spec fn contents(pushes: Seq<Push>) -> Seq<PushText> {
    Seq::new(pushes.len(), |i: int| pushes[i].content())
}

/// What is delivered for a notification.
pub open spec fn payload_text(title: Seq<char>, body: Seq<char>, url: Seq<char>) -> Seq<char> {
    record_text(seq![("title"@, title), ("body"@, body), ("url"@, url)])
}

/// What is delivered for a notification: its title, body and link, in JSON.
pub fn payload(push: &Push) -> (r: String)
    ensures
        r@ == payload_text(push.title@, push.body@, push.url@),
{
    let mut fields: Vec<(String, String)> = Vec::new();
    fields.push(("title".to_owned(), push.title.clone()));
    fields.push(("body".to_owned(), push.body.clone()));
    fields.push(("url".to_owned(), push.url.clone()));
    assert(text_fields(fields@) =~= seq![
        ("title"@, push.title@),
        ("body"@, push.body@),
        ("url"@, push.url@),
    ]);
    render_texts(fields)
}

/// What came of sending to one subscription.
#[derive(Clone, Copy, PartialEq, Eq, Debug, Structural)]
pub enum SendOutcome {
    /// It was delivered.
    Delivered,
    /// Its channel is not set up.
    Skipped,
    /// The service says the subscription no longer exists.
    Gone,
    /// The send failed for another reason.
    Failed,
}

/// A send to one subscription, and what came of it.
#[derive(Clone, Copy, PartialEq, Eq, Debug, Structural)]
pub struct Attempt {
    pub subscription: u128,
    pub outcome: SendOutcome,
}

/// The subscriptions that no longer exist, in order.
pub open spec fn gone(attempts: Seq<Attempt>) -> Seq<u128>
    decreases attempts.len(),
{
    if attempts.len() == 0 {
        Seq::empty()
    } else {
        let before = gone(attempts.drop_last());
        if attempts.last().outcome == SendOutcome::Gone {
            before.push(attempts.last().subscription)
        } else {
            before
        }
    }
}

/// The subscriptions to drop after some sends: those reported as gone, on the
/// first such report. A failed send is no reason to drop one.
pub fn to_prune(attempts: &Vec<Attempt>) -> (r: Vec<u128>)
    ensures
        r@ == gone(attempts@),
{
    let mut out: Vec<u128> = Vec::new();
    let mut i: usize = 0;
    while i < attempts.len()
        invariant
            i <= attempts.len(),
            out@ == gone(attempts@.take(i as int)),
        decreases attempts.len() - i,
    {
        assert(attempts@.take(i + 1).drop_last() =~= attempts@.take(i as int));
        if attempts[i].outcome == SendOutcome::Gone {
            out.push(attempts[i].subscription);
        }
        i = i + 1;
    }
    assert(attempts@.take(attempts@.len() as int) =~= attempts@);
    out
}

/// Where the leaderboard of a space is.
pub fn leaderboard_url(tenant_url: &str) -> (r: String)
    ensures
        r@ == tenant_url@ + "/leaderboard"@,
{
    let mut url: String = tenant_url.to_owned();
    url.append("/leaderboard");
    url
}

/// A subscription is dropped exactly when a send to it was answered that it is
/// gone.
pub proof fn only_gone_subscriptions_are_dropped(attempts: Seq<Attempt>, subscription: u128)
    ensures
        gone(attempts).contains(subscription) <==> attempts.contains(
            Attempt { subscription, outcome: SendOutcome::Gone },
        ),
    decreases attempts.len(),
{
    let lost = Attempt { subscription, outcome: SendOutcome::Gone };
    if attempts.len() > 0 {
        let front = attempts.drop_last();
        only_gone_subscriptions_are_dropped(front, subscription);
        if attempts.contains(lost) {
            let i = choose|i: int| 0 <= i < attempts.len() && attempts[i] == lost;
            if i < front.len() {
                assert(front[i] == lost);
                let k = choose|k: int| 0 <= k < gone(front).len() && gone(front)[k] == subscription;
                assert(gone(attempts)[k] == subscription);
            } else {
                assert(gone(attempts).last() == subscription);
            }
        }
        if gone(attempts).contains(subscription) {
            let k = choose|k: int|
                0 <= k < gone(attempts).len() && gone(attempts)[k] == subscription;
            if k < gone(front).len() {
                assert(gone(front)[k] == subscription);
                let i = choose|i: int| 0 <= i < front.len() && front[i] == lost;
                assert(attempts[i] == lost);
            } else {
                assert(attempts[attempts.len() - 1] == lost);
            }
        }
    }
}

/// The message to a device gives the title, the text and the address to open, each
/// under its own name.
pub proof fn messages_give_title_text_and_address(push: Push)
    ensures
        payload_text(push.title@, push.body@, push.url@) == json_text(
            seq![("title"@, push.title@), ("body"@, push.body@), ("url"@, push.url@)],
            Seq::empty(),
            None,
        ),
{
}

/// Each attempt in turn drops its subscription exactly if it is gone.
pub proof fn each_subscription_is_dropped_or_not(attempts: Seq<Attempt>, next: Attempt)
    ensures
        gone(Seq::empty()).len() == 0,
        next.outcome == SendOutcome::Gone ==> gone(attempts.push(next)) == gone(attempts).push(
            next.subscription,
        ),
        next.outcome != SendOutcome::Gone ==> gone(attempts.push(next)) == gone(attempts),
{
    assert(attempts.push(next).drop_last() =~= attempts);
}

/// A push is sent with its own title, text and address, and the subscriptions that are
/// gone are dropped.
pub proof fn pushes_are_sent_as_written(
    push: &Push,
    sent: String,
    attempts: &Vec<Attempt>,
    dropped: Vec<u128>,
    i: int,
    tenant_url: &str,
    url: String,
)
    requires
        call_ensures(payload, (push,), sent),
        call_ensures(to_prune, (attempts,), dropped),
        call_ensures(leaderboard_url, (tenant_url,), url),
        0 <= i < attempts@.len(),
    ensures
        sent@ == json_text(
            seq![("title"@, push.title@), ("body"@, push.body@), ("url"@, push.url@)],
            Seq::empty(),
            None,
        ),
        attempts@[i].outcome == SendOutcome::Gone ==> dropped@.contains(attempts@[i].subscription),
        dropped@.len() <= attempts@.len(),
        forall|k: int|
            0 <= k < dropped@.len() ==> attempts@.contains(
                Attempt { subscription: #[trigger] dropped@[k], outcome: SendOutcome::Gone },
            ),
        url@ == tenant_url@ + "/leaderboard"@,
{
    only_gone_subscriptions_are_dropped(attempts@, attempts@[i].subscription);
    if attempts@[i].outcome == SendOutcome::Gone {
        assert(attempts@[i] == (Attempt {
            subscription: attempts@[i].subscription,
            outcome: SendOutcome::Gone,
        }));
    }
    assert forall|k: int| 0 <= k < dropped@.len() implies attempts@.contains(
        Attempt { subscription: #[trigger] dropped@[k], outcome: SendOutcome::Gone },
    ) by {
        assert(gone(attempts@).contains(dropped@[k]));
        only_gone_subscriptions_are_dropped(attempts@, dropped@[k]);
    }
    few_are_gone(attempts@);
}

proof fn few_are_gone(attempts: Seq<Attempt>)
    ensures
        gone(attempts).len() <= attempts.len(),
    decreases attempts.len(),
{
    if attempts.len() > 0 {
        few_are_gone(attempts.drop_last());
    }
}

} // verus!
