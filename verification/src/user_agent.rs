//! The `User-Agent` header of outgoing requests.

use crate::http::{
    header_values, lemma_header_names, lemma_no_values, lemma_with_header, lemma_without, with_header,
    without, Request, RequestV,
};
use crate::node_url::opt_chars;
use crate::text;
use std::sync::Arc;
use vstd::prelude::*;
use vstd::std_specs::convert::FromSpecImpl;

verus! {

/// The user agent that is sent where nothing else is configured.
pub const DEFAULT_USER_AGENT: &'static str = "scylladb-alternator-client-rust/0.1.0";

/// Makes a user agent of [`DEFAULT_USER_AGENT`], or none. It is asked anew for
/// every request, and need not give the same each time.
pub trait UserAgentTransform: Send + Sync {
    /// The transform can give `r`.
    spec fn gives(&self, r: Option<String>) -> bool;

    /// What the transform gives this time.
    fn apply(&self) -> (r: Option<String>)
        ensures
            self.gives(r),
    ;
}

/// A transform by a function that always gives a user agent.
struct Always<F: Fn(&str) -> String> {
    transform: F,
}

impl<F: Fn(&str) -> String> Always<F> {
    #[verifier::type_invariant]
    spec fn inv(&self) -> bool {
        call_requires(self.transform, (DEFAULT_USER_AGENT,))
    }
}

impl<F: Fn(&str) -> String + Send + Sync + 'static> UserAgentTransform for Always<F> {
    closed spec fn gives(&self, r: Option<String>) -> bool {
        r matches Some(s) && call_ensures(self.transform, (DEFAULT_USER_AGENT,), s)
    }

    fn apply(&self) -> (r: Option<String>) {
        proof {
            use_type_invariant(self);
        }
        Some((self.transform)(DEFAULT_USER_AGENT))
    }
}

/// A transform by a function that can give no user agent.
struct Perhaps<F: Fn(&str) -> Option<String>> {
    transform: F,
}

impl<F: Fn(&str) -> Option<String>> Perhaps<F> {
    #[verifier::type_invariant]
    spec fn inv(&self) -> bool {
        call_requires(self.transform, (DEFAULT_USER_AGENT,))
    }
}

impl<F: Fn(&str) -> Option<String> + Send + Sync + 'static> UserAgentTransform for Perhaps<F> {
    closed spec fn gives(&self, r: Option<String>) -> bool {
        call_ensures(self.transform, (DEFAULT_USER_AGENT,), r)
    }

    fn apply(&self) -> (r: Option<String>) {
        proof {
            use_type_invariant(self);
        }
        (self.transform)(DEFAULT_USER_AGENT)
    }
}

/// Which user agent is sent.
#[derive(Clone)]
pub enum UserAgent {
    /// [`DEFAULT_USER_AGENT`].
    Default,
    /// None.
    Disabled,
    /// This one.
    Value(String),
    /// What a transform makes of [`DEFAULT_USER_AGENT`], for each request.
    Transform(Arc<Box<dyn UserAgentTransform>>),
}

/// A string is not a header value.
#[derive(Debug, Clone, Copy, PartialEq, Eq, Structural)]
pub struct InvalidHeaderValue;

/// The character can stand in a header value: no control character but the tab.
pub open spec fn header_char(c: char) -> bool {
    (c as u32 >= 32 && c as u32 != 127) || c as u32 == 9
}

/// The string is a header value.
pub open spec fn header_text(s: Seq<char>) -> bool {
    forall|i: int| 0 <= i < s.len() ==> header_char(#[trigger] s[i])
}

/// Whether `s` is a header value.
pub fn is_header_value(s: &str) -> (r: bool)
    ensures
        r == header_text(s@),
{
    let chars = text::to_chars(s);
    let mut i: usize = 0;
    while i < chars.len()
        invariant
            i <= chars.len(),
            chars@ == s@,
            forall|k: int| 0 <= k < i ==> header_char(#[trigger] s@[k]),
        decreases chars.len() - i,
    {
        let v: u32 = chars[i] as u32;
        if !((v >= 32 && v != 127) || v == 9) {
            assert(!header_char(s@[i as int]));
            return false;
        }
        i = i + 1;
    }
    true
}

impl UserAgent {
    /// `agent` is a user agent that can be sent, or none. Only with a transform
    /// there can be several.
    pub open spec fn resolves_to(self, agent: Option<Seq<char>>) -> bool {
        match self {
            UserAgent::Default => agent == Some(DEFAULT_USER_AGENT@),
            UserAgent::Disabled => agent is None,
            UserAgent::Value(s) => agent == Some(s@),
            UserAgent::Transform(transform) => exists|s: Option<String>| #[trigger]
                transform.gives(s) && opt_chars(s) == agent,
        }
    }

    /// No user agent.
    pub fn disabled() -> (r: Self)
        ensures
            r == UserAgent::Disabled,
    {
        UserAgent::Disabled
    }

    /// The user agent `user_agent`.
    pub fn value(user_agent: &str) -> (r: Self)
        ensures
            r is Value,
            r->Value_0@ == user_agent@,
    {
        UserAgent::Value(user_agent.to_owned())
    }

    /// What `transform` makes of the default user agent. It is called for each
    /// request.
    pub fn transform<F: Fn(&str) -> String + Send + Sync + 'static>(transform: F) -> (r: Self)
        requires
            call_requires(transform, (DEFAULT_USER_AGENT,)),
        ensures
            r matches UserAgent::Transform(t) && forall|x: Option<String>| #[trigger]
                t.gives(x) <==> (x matches Some(s) && call_ensures(
                    transform,
                    (DEFAULT_USER_AGENT,),
                    s,
                )),
    {
        let rule = Always { transform };
        UserAgent::Transform(Arc::new(Box::new(rule)))
    }

    /// What `transform` makes of the default user agent, which can be none. It
    /// is called for each request.
    pub fn transform_optional<F: Fn(&str) -> Option<String> + Send + Sync + 'static>(
        transform: F,
    ) -> (r: Self)
        requires
            call_requires(transform, (DEFAULT_USER_AGENT,)),
        ensures
            r matches UserAgent::Transform(t) && forall|x: Option<String>| #[trigger]
                t.gives(x) <==> call_ensures(transform, (DEFAULT_USER_AGENT,), x),
    {
        let rule = Perhaps { transform };
        UserAgent::Transform(Arc::new(Box::new(rule)))
    }

    /// The user agent that is sent, if one is. A transform is called here.
    pub fn resolve(&self) -> (r: Option<String>)
        ensures
            self.resolves_to(opt_chars(r)),
    {
        match self {
            UserAgent::Default => Some(DEFAULT_USER_AGENT.to_owned()),
            UserAgent::Disabled => None,
            UserAgent::Value(s) => Some(s.clone()),
            UserAgent::Transform(transform) => transform.apply(),
        }
    }

    /// A copy of this setting.
    pub fn duplicate(&self) -> (r: Self)
        ensures
            r == *self,
    {
        match self {
            UserAgent::Default => UserAgent::Default,
            UserAgent::Disabled => UserAgent::Disabled,
            UserAgent::Value(s) => UserAgent::Value(s.clone()),
            UserAgent::Transform(transform) => UserAgent::Transform(transform.clone()),
        }
    }
}

impl From<String> for UserAgent {
    /// The user agent `user_agent`.
    fn from(user_agent: String) -> (r: Self)
        ensures
            r == UserAgent::Value(user_agent),
    {
        UserAgent::Value(user_agent)
    }
}

impl FromSpecImpl<String> for UserAgent {
    open spec fn obeys_from_spec() -> bool {
        true
    }

    open spec fn from_spec(user_agent: String) -> Self {
        UserAgent::Value(user_agent)
    }
}

impl<'a> From<&'a str> for UserAgent {
    /// The user agent `user_agent`.
    fn from(user_agent: &'a str) -> (r: Self)
        ensures
            r matches UserAgent::Value(s) && s@ == user_agent@,
    {
        UserAgent::Value(user_agent.to_owned())
    }
}

impl<'a> FromSpecImpl<&'a str> for UserAgent {
    open spec fn obeys_from_spec() -> bool {
        false
    }

    open spec fn from_spec(user_agent: &'a str) -> Self {
        arbitrary()
    }
}

impl Default for UserAgent {
    fn default() -> (r: Self)
        ensures
            r == UserAgent::Default,
    {
        UserAgent::Default
    }
}

/// The request with the user agent `agent` in place of any other, or without
/// one where `agent` is none or not a header value.
pub open spec fn with_user_agent(r: RequestV, agent: Option<Seq<char>>) -> RequestV {
    RequestV {
        headers: match agent {
            Some(s) if header_text(s) => with_header(
                without(r.headers, "user-agent"@),
                "user-agent"@,
                s,
            ),
            _ => without(r.headers, "user-agent"@),
        },
        ..r
    }
}

/// Sets the user agent of a request to `agent`, or takes it out.
pub fn apply_resolved(request: &mut Request, agent: Option<String>) -> (r: Result<
    (),
    InvalidHeaderValue,
>)
    ensures
        final(request)@ == with_user_agent(old(request)@, opt_chars(agent)),
        r is Err <==> is_refused(opt_chars(agent)),
{
    proof {
        lemma_header_names();
    }
    request.headers.remove("user-agent");
    match agent {
        Some(s) => {
            if !is_header_value(s.as_str()) {
                return Err(InvalidHeaderValue);
            }
            request.headers.insert("user-agent", s.as_str());
        },
        None => {},
    }
    Ok(())
}

/// The user agent is there and not a header value.
pub open spec fn is_refused(agent: Option<Seq<char>>) -> bool {
    agent is Some && !header_text(agent->0)
}

/// Sets the user agent of a request.
pub fn apply_user_agent(request: &mut Request, user_agent: &UserAgent) -> (r: Result<
    (),
    InvalidHeaderValue,
>)
    ensures
        exists|agent: Option<Seq<char>>|
            {
                &&& #[trigger] user_agent.resolves_to(agent)
                &&& final(request)@ == with_user_agent(old(request)@, agent)
                &&& r is Err <==> is_refused(agent)
            },
{
    apply_resolved(request, user_agent.resolve())
}

/// A setting that is no transform gives one user agent: the default one, none,
/// or the one that was set.
pub proof fn law_plain_settings_give_one_user_agent(
    setting: UserAgent,
    agent: Option<Seq<char>>,
)
    ensures
        setting is Default ==> (setting.resolves_to(agent) <==> agent == Some(
            "scylladb-alternator-client-rust/0.1.0"@,
        )),
        setting is Disabled ==> (setting.resolves_to(agent) <==> agent is None),
        setting matches UserAgent::Value(s) ==> (setting.resolves_to(agent) <==> agent == Some(
            s@,
        )),
{
}

/// The user agent of a request is replaced or taken out, and nothing else of
/// the request changes. One that is not a header value is not sent.
pub proof fn law_only_the_user_agent_changes(
    r: RequestV,
    agent: Option<Seq<char>>,
    other: Seq<char>,
)
    requires
        other != "user-agent"@,
    ensures
        ({
            let after = with_user_agent(r, agent);
            &&& (agent matches Some(s) && header_text(s)) ==> header_values(
                after.headers,
                "user-agent"@,
            ) == seq![agent->0]
            &&& agent is None || !header_text(agent->0) ==> header_values(
                after.headers,
                "user-agent"@,
            ) == Seq::<Seq<char>>::empty()
            &&& header_values(after.headers, other) == header_values(r.headers, other)
            &&& after.uri == r.uri
            &&& after.body == r.body
        }),
{
    let bare = without(r.headers, "user-agent"@);
    lemma_without(r.headers, "user-agent"@, other);
    lemma_no_values(bare, "user-agent"@);
    if agent is Some {
        lemma_with_header(bare, "user-agent"@, agent->0, other);
    }
}

/// Control characters cannot stand in a header value, but the tab can, and so
/// can everything else.
pub proof fn law_header_values_have_no_control_characters(s: Seq<char>, i: int)
    requires
        0 <= i < s.len(),
    ensures
        (s[i] as u32) < 0x20 && s[i] as u32 != 9 ==> !header_text(s),
        s[i] as u32 == 0x7f ==> !header_text(s),
        (forall|k: int|
            0 <= k < s.len() ==> (#[trigger] s[k]) as u32 == 9 || (s[k] as u32 >= 0x20 && s[k]
                as u32 != 0x7f)) ==> header_text(s),
{
    if header_text(s) {
        assert(header_char(s[i]));
    }
}

} // verus!
