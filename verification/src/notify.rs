//! Rate-limit notification messages: the subject and body of the
//! operator alert raised when the venue answers with HTTP 429. The
//! host owns the mail transport; this module owns the wording.

use vstd::prelude::*;
use vstd::string::StringExecFns;

verus! {

/// Builds rate-limit alerts, tagged with the token universe the
/// process trades when one is configured.
pub struct RateLimitNotifier {
    pub token_name: String,
}

impl RateLimitNotifier {
    /// A notifier tagged with the given token name; an empty name
    /// leaves alerts untagged.
    pub fn new(token_name: String) -> (r: RateLimitNotifier)
        ensures
            r.token_name == token_name,
    {
        RateLimitNotifier { token_name }
    }

    /// The subject and body of one rate-limit alert.
    pub fn notify(&self, context: &str, detail: &str) -> (r: (String, String))
        ensures
            r.0@ == spec_rate_limit_subject(self.token_name@, context@),
            r.1@ == spec_rate_limit_body(context@, detail@),
    {
        let mut subject: String = String::new();
        if self.token_name.as_str().is_empty() {
            subject.append("[RateLimit] ");
            subject.append(context);
        } else {
            subject.append("[");
            subject.append(self.token_name.as_str());
            subject.append("] Rate limit - ");
            subject.append(context);
        }
        let mut body: String = String::new();
        body.append("HTTP 429 Too Many Requests detected while ");
        body.append(context);
        body.append(".\nDetail: ");
        body.append(detail);
        (subject, body)
    }
}

/// The alert subject: the context tagged with the token name when one
/// is set.
pub open spec fn spec_rate_limit_subject(token_name: Seq<char>, context: Seq<char>) -> Seq<
    char,
> {
    if token_name.len() == 0 {
        "[RateLimit] "@ + context
    } else {
        "["@ + token_name + "] Rate limit - "@ + context
    }
}

/// The alert body: the context and the venue's detail line.
pub open spec fn spec_rate_limit_body(context: Seq<char>, detail: Seq<char>) -> Seq<char> {
    "HTTP 429 Too Many Requests detected while "@ + context + ".\nDetail: "@ + detail
}

/// The subject and body of a rate-limit alert for the given token
/// name.
pub fn notify_rate_limit(token_name: &str, context: &str, detail: &str) -> (r: (String, String))
    ensures
        r.0@ == spec_rate_limit_subject(token_name@, context@),
        r.1@ == spec_rate_limit_body(context@, detail@),
{
    let notifier: RateLimitNotifier = RateLimitNotifier::new(String::from_str(token_name));
    notifier.notify(context, detail)
}

} // verus!
