use che_rest::auth::CurrentUser;
use che_rest::channels::{
    frame_request, module, ClientFrame, FrameRequest, Reply, SocketSession,
    MAX_SUBSCRIPTIONS_PER_SOCKET,
};
use che_rest::signals::{
    private_user_id, user_signal_name, valid_signal_name, SignalAccess, SignalBus, SignalError,
};

fn user(id: i64) -> CurrentUser {
    CurrentUser {
        id,
        username: format!("user{id}"),
        is_staff: false,
        is_admin: false,
        is_superuser: false,
    }
}

#[test]
fn private_user_signal_must_exist_before_subscription() {
    let mut bus = SignalBus::new();
    assert_eq!(bus.check_access("user:1:notifications", Some(&user(1))), Err(SignalError::Unknown));

    bus.open_channel(&user_signal_name(1, "notifications"));

    assert_eq!(bus.check_access("user:1:notifications", Some(&user(1))), Ok(()));
    assert_eq!(bus.check_access("user:1:notifications", Some(&user(2))), Err(SignalError::Forbidden));
    assert_eq!(bus.check_access("user:1:notifications", None), Err(SignalError::Unauthorized));
}

#[test]
fn declared_access_decides_subscriptions() {
    let mut bus = SignalBus::new();
    bus.declare("tasks.created".into(), SignalAccess::Public);
    bus.declare("tasks.audit".into(), SignalAccess::Admin);
    bus.declare("tasks.mine".into(), SignalAccess::Authenticated);
    bus.declare("tasks.created".into(), SignalAccess::Public);
    assert_eq!(bus.check_access("tasks.created", None), Ok(()));
    assert_eq!(bus.check_access("tasks.mine", None), Err(SignalError::Unauthorized));
    assert_eq!(bus.check_access("tasks.mine", Some(&user(3))), Ok(()));
    assert_eq!(bus.check_access("tasks.audit", Some(&user(3))), Err(SignalError::Forbidden));
    let admin = CurrentUser { is_superuser: true, ..user(4) };
    assert_eq!(bus.check_access("tasks.audit", Some(&admin)), Ok(()));
    assert_eq!(bus.check_access("tasks.other", Some(&admin)), Err(SignalError::Unknown));
    let listed: Vec<(String, SignalAccess)> = bus.public_signals();
    assert_eq!(
        listed,
        vec![
            ("tasks.audit".to_string(), SignalAccess::Admin),
            ("tasks.created".to_string(), SignalAccess::Public),
            ("tasks.mine".to_string(), SignalAccess::Authenticated),
        ]
    );
}

#[test]
fn signal_names() {
    assert!(valid_signal_name("user:1:notifications"));
    assert!(valid_signal_name("tasks.created-v2_x"));
    assert!(!valid_signal_name(""));
    assert!(!valid_signal_name("tasks created"));
    assert_eq!(user_signal_name(-5, "inbox"), "user:-5:inbox");
    assert_eq!(private_user_id("user:42:inbox"), Some(42));
    assert_eq!(private_user_id("user:x:inbox"), None);
    assert_eq!(private_user_id("tasks.created"), None);
    assert_eq!(SignalError::Unknown.code(), "unknown_signal");
    assert_eq!(SignalError::Forbidden.detail(), "signal subscription is forbidden");
}

#[test]
fn frames_name_a_signal() {
    assert_eq!(
        frame_request(ClientFrame::Subscribe { signal: None, channel: Some("a".into()) }),
        Ok(FrameRequest::Subscribe("a".into()))
    );
    assert_eq!(
        frame_request(ClientFrame::Unsubscribe { signal: Some("b".into()), channel: Some("c".into()) }),
        Ok(FrameRequest::Unsubscribe("b".into()))
    );
    assert_eq!(
        frame_request(ClientFrame::Subscribe { signal: None, channel: None }),
        Err(Reply::Error { code: "invalid_frame", detail: "subscribe requires signal" })
    );
    assert_eq!(module().name(), "channels");
}

#[test]
fn socket_subscriptions_are_checked_and_limited() {
    let mut bus = SignalBus::new();
    bus.declare("news".into(), SignalAccess::Public);
    bus.declare("staff".into(), SignalAccess::Authenticated);
    let mut socket = SocketSession::new();
    let first = socket.subscribe(&bus, None, "news".into());
    assert!(first.start_relay);
    assert_eq!(first.reply, Reply::Subscribed("news".into()));
    let again = socket.subscribe(&bus, None, "news".into());
    assert!(!again.start_relay);
    assert_eq!(again.reply, Reply::Subscribed("news".into()));
    let refused = socket.subscribe(&bus, None, "staff".into());
    assert_eq!(refused.reply, Reply::Error { code: "unauthorized", detail: "authentication required" });
    let invalid = socket.subscribe(&bus, None, "bad name".into());
    assert_eq!(invalid.reply, Reply::Error { code: "invalid_signal", detail: "invalid signal name" });
    assert_eq!(socket.unsubscribe("news".into()), (true, Reply::Unsubscribed("news".into())));
    assert_eq!(socket.unsubscribe("news".into()), (false, Reply::Unsubscribed("news".into())));

    for i in 0..MAX_SUBSCRIPTIONS_PER_SOCKET {
        let name = format!("s{i}");
        bus.declare(name.clone(), SignalAccess::Public);
        assert!(socket.subscribe(&bus, None, name).start_relay);
    }
    bus.declare("one_more".into(), SignalAccess::Public);
    let full = socket.subscribe(&bus, None, "one_more".into());
    assert!(!full.start_relay);
    assert_eq!(full.reply, Reply::Error { code: "too_many_subscriptions", detail: "too many subscriptions" });
}
