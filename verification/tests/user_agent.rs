use alternator_driver::http::Request;
use alternator_driver::user_agent::{apply_user_agent, InvalidHeaderValue};
use alternator_driver::{UserAgent, DEFAULT_USER_AGENT};

#[test]
fn default_user_agent_uses_crate_version() {
    assert_eq!(DEFAULT_USER_AGENT, "scylladb-alternator-client-rust/0.1.0");
}

#[test]
fn user_agent_variants_resolve_final_header_value() {
    assert_eq!(
        UserAgent::default().resolve().as_deref(),
        Some(DEFAULT_USER_AGENT)
    );
    assert_eq!(UserAgent::disabled().resolve(), None);
    assert_eq!(
        UserAgent::value("my-client/1.2.3").resolve().as_deref(),
        Some("my-client/1.2.3")
    );
    assert_eq!(
        UserAgent::transform(|default| format!("{default} my-app/4.5.6"))
            .resolve()
            .as_deref(),
        Some("scylladb-alternator-client-rust/0.1.0 my-app/4.5.6")
    );
    assert_eq!(UserAgent::transform_optional(|_| None).resolve(), None);
}

#[test]
fn apply_user_agent_replaces_existing_user_agent() {
    let mut request = Request::empty();
    request.headers.insert("user-agent", "aws-sdk-rust/1");

    apply_user_agent(&mut request, &UserAgent::value("custom/1")).unwrap();

    assert_eq!(request.headers.get("user-agent"), Some("custom/1"));
    assert_eq!(request.headers.get_all("user-agent").len(), 1);
}

#[test]
fn apply_user_agent_removes_existing_user_agent_when_disabled() {
    let mut request = Request::empty();
    request.headers.insert("user-agent", "aws-sdk-rust/1");

    apply_user_agent(&mut request, &UserAgent::disabled()).unwrap();

    assert!(!request.headers.contains_key("user-agent"));
}

#[test]
fn apply_user_agent_refuses_control_characters() {
    for bad in ["a\nb", "a\u{7f}", "\0"] {
        let mut request = Request::empty();
        request.headers.insert("user-agent", "aws-sdk-rust/1");
        assert_eq!(
            apply_user_agent(&mut request, &UserAgent::value(bad)),
            Err(InvalidHeaderValue)
        );
        assert!(!request.headers.contains_key("user-agent"));
    }
    let mut request = Request::empty();
    apply_user_agent(&mut request, &UserAgent::value("tab\tand \u{1F600}")).unwrap();
    assert_eq!(
        request.headers.get("user-agent"),
        Some("tab\tand \u{1F600}")
    );
}

#[test]
fn a_transform_is_called_for_each_request() {
    let count = std::sync::atomic::AtomicUsize::new(0);
    let agent = UserAgent::transform(move |default| {
        let n = count.fetch_add(1, std::sync::atomic::Ordering::SeqCst);
        format!("{default} call/{n}")
    });
    for n in 0..3 {
        let mut request = Request::empty();
        apply_user_agent(&mut request, &agent.duplicate()).unwrap();
        assert_eq!(
            request.headers.get("user-agent"),
            Some(format!("{DEFAULT_USER_AGENT} call/{n}").as_str())
        );
    }
}

#[test]
fn strings_are_user_agents() {
    assert_eq!(UserAgent::from("a/1").resolve().as_deref(), Some("a/1"));
    assert_eq!(
        UserAgent::from("b/2".to_string()).resolve().as_deref(),
        Some("b/2")
    );
}
