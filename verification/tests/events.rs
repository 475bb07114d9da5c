use tslib::events::{default_callback, Callback, Event, MessageTarget};
use tslib::state::User;

#[test]
fn events_go_to_their_callbacks() {
    let e = Event::Connected { server_name: "srv".into(), welcome_message: Some("hi".into()) };
    assert!(matches!(default_callback(&e), Callback::Connected("srv", Some("hi"))));
    let e = Event::Connected { server_name: "srv".into(), welcome_message: None };
    assert!(matches!(default_callback(&e), Callback::Connected("srv", None)));
    let e = Event::Disconnected { reason: "bye".into() };
    assert!(matches!(default_callback(&e), Callback::Disconnected("bye")));
    let e = Event::TextMessage {
        sender_id: 4,
        sender_name: "amy".into(),
        message: "yo".into(),
        target: MessageTarget::Private,
    };
    assert!(matches!(default_callback(&e), Callback::TextMessage(4, "amy", "yo", MessageTarget::Private)));
    let user = User { id: 9, nickname: "bob".into(), ..Default::default() };
    let e = Event::UserJoined { user: user.clone() };
    assert!(matches!(default_callback(&e), Callback::UserJoined(u) if u.id == 9));
    let e = Event::UserLeft { user, reason: "quit".into() };
    assert!(matches!(default_callback(&e), Callback::UserLeft(u, "quit") if u.nickname == "bob"));
    assert!(matches!(default_callback(&Event::TalkStatusStart { user_id: 1 }), Callback::Nothing));
}
