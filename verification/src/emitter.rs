//! The event bus: subscribers are called in registration order, and the
//! local cache subscriber always stands last — the final line of defense.
use vstd::prelude::*;

verus! {

/// A subscriber of pipeline events.
pub enum Subscriber {
    /// Posts events to a configured webhook; only from a trusted
    /// environment.
    Webhooks(String),
    /// Forwards events to a remote session.
    RemoteSession,
    /// Persists run state to the local cache.
    LocalCache,
}

/// Compose the subscriber list: webhooks only from a continuous
/// integration or test environment with a configured address, a remote
/// session where one is open, and the local cache always last.
pub fn create_emitter(ci_or_test: bool, webhook_url: Option<String>, has_session: bool) -> (r: Vec<
    Subscriber,
>)
    ensures
        r@.len() >= 1,
        r@[r@.len() - 1] is LocalCache,
        forall|i: int| 0 <= i < r@.len() - 1 ==> !((#[trigger] r@[i]) is LocalCache),
        (exists|i: int| 0 <= i < r@.len() && (#[trigger] r@[i]) is Webhooks) <==> (ci_or_test
            && webhook_url is Some),
        (exists|i: int| 0 <= i < r@.len() && (#[trigger] r@[i]) is RemoteSession) <==> has_session,
{
    let mut subscribers: Vec<Subscriber> = Vec::new();
    if ci_or_test {
        match webhook_url {
            Some(url) => {
                subscribers.push(Subscriber::Webhooks(url));
            },
            None => {},
        }
    }
    if has_session {
        subscribers.push(Subscriber::RemoteSession);
    }
    subscribers.push(Subscriber::LocalCache);
    proof {
        let n = subscribers@.len() as int;
        assert(subscribers@[n - 1] is LocalCache);
        if ci_or_test && webhook_url is Some {
            assert(subscribers@[0] is Webhooks);
        }
        if has_session {
            if ci_or_test && webhook_url is Some {
                assert(subscribers@[1] is RemoteSession);
            } else {
                assert(subscribers@[0] is RemoteSession);
            }
        }
    }
    subscribers
}

} // verus!
