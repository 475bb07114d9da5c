use tslib::history::ChatHistory;
use tslib::message::{ChatMessage, MessageIds, MessageTarget};

fn server_msg(content: &str) -> ChatMessage {
    ChatMessage::new(1, "Alice", MessageTarget::Server, content, &mut MessageIds::new())
}

fn channel_msg(channel: u64, content: &str) -> ChatMessage {
    ChatMessage::new(1, "Alice", MessageTarget::Channel(channel), content, &mut MessageIds::new())
}

fn private_msg(user: u16, sender: u16, content: &str) -> ChatMessage {
    ChatMessage::new(sender, "Bob", MessageTarget::Private(user), content, &mut MessageIds::new())
}

#[test]
fn add_and_retrieve_server() {
    let mut h = ChatHistory::new(100);
    h.add(server_msg("hello"));
    assert_eq!(h.server_messages().len(), 1);
    assert_eq!(h.total_count(), 1);
}

#[test]
fn add_and_retrieve_channel() {
    let mut h = ChatHistory::new(100);
    h.add(channel_msg(10, "hi"));
    assert_eq!(h.channel_messages(10).len(), 1);
    assert_eq!(h.channel_messages(99).len(), 0);
}

#[test]
fn add_and_retrieve_private() {
    let mut h = ChatHistory::new(100);
    h.add(private_msg(5, 1, "hey"));
    assert_eq!(h.private_messages(5).len(), 1);
    assert_eq!(h.private_messages(99).len(), 0);
}

#[test]
fn overflow_drops_oldest() {
    let mut h = ChatHistory::new(3);
    h.add(server_msg("a"));
    h.add(server_msg("b"));
    h.add(server_msg("c"));
    h.add(server_msg("d"));
    assert_eq!(h.total_count(), 3);
    let msgs = h.server_messages();
    assert_eq!(msgs[0].content, "b");
    assert_eq!(msgs[2].content, "d");
}

#[test]
fn all_messages_spans_targets() {
    let mut h = ChatHistory::new(100);
    h.add(server_msg("s"));
    h.add(channel_msg(1, "c"));
    h.add(private_msg(2, 1, "p"));
    assert_eq!(h.all_messages().len(), 3);
}

#[test]
fn search_case_insensitive() {
    let mut h = ChatHistory::new(100);
    h.add(server_msg("Hello World"));
    h.add(server_msg("goodbye"));
    let results = h.search("hello");
    assert_eq!(results.len(), 1);
    assert_eq!(results[0].content, "Hello World");
}

#[test]
fn search_no_match() {
    let mut h = ChatHistory::new(100);
    h.add(server_msg("hello"));
    assert!(h.search("xyz").is_empty());
}

#[test]
fn from_sender_filter() {
    let mut ids = MessageIds::new();
    let mut h = ChatHistory::new(100);
    h.add(ChatMessage::new(1, "A", MessageTarget::Server, "x", &mut ids));
    h.add(ChatMessage::new(2, "B", MessageTarget::Server, "y", &mut ids));
    h.add(ChatMessage::new(1, "A", MessageTarget::Server, "z", &mut ids));
    assert_eq!(h.from_sender(1).len(), 2);
    assert_eq!(h.from_sender(2).len(), 1);
    assert_eq!(h.from_sender(99).len(), 0);
}

#[test]
fn clear_all() {
    let mut h = ChatHistory::new(100);
    h.add(server_msg("s"));
    h.add(channel_msg(1, "c"));
    h.add(private_msg(2, 1, "p"));
    h.clear();
    assert_eq!(h.total_count(), 0);
}

#[test]
fn clear_channel() {
    let mut h = ChatHistory::new(100);
    h.add(channel_msg(1, "a"));
    h.add(channel_msg(2, "b"));
    h.clear_channel(1);
    assert_eq!(h.channel_messages(1).len(), 0);
    assert_eq!(h.channel_messages(2).len(), 1);
}

#[test]
fn clear_user() {
    let mut h = ChatHistory::new(100);
    h.add(private_msg(1, 10, "a"));
    h.add(private_msg(2, 10, "b"));
    h.clear_user(1);
    assert_eq!(h.private_messages(1).len(), 0);
    assert_eq!(h.private_messages(2).len(), 1);
}

#[test]
fn default_capacity() {
    let h = ChatHistory::default();
    // Just verify it doesn't panic and has 0 messages
    assert_eq!(h.total_count(), 0);
}

#[test]
fn each_conversation_keeps_its_newest_over_many_adds() {
    let mut h = ChatHistory::new(2);
    h.add(channel_msg(1, "c1"));
    h.add(server_msg("s1"));
    h.add(channel_msg(1, "c2"));
    h.add(private_msg(7, 1, "p1"));
    h.add(channel_msg(2, "d1"));
    h.add(channel_msg(1, "c3"));
    h.add(server_msg("s2"));
    h.add(server_msg("s3"));
    let c1: Vec<&str> = h.channel_messages(1).iter().map(|m| m.content.as_str()).collect();
    assert_eq!(c1, vec!["c2", "c3"]);
    let s: Vec<&str> = h.server_messages().iter().map(|m| m.content.as_str()).collect();
    assert_eq!(s, vec!["s2", "s3"]);
    assert_eq!(h.channel_messages(2).len(), 1);
    assert_eq!(h.private_messages(7).len(), 1);
    assert_eq!(
        h.total_count(),
        h.server_messages().len() + h.channel_messages(1).len() + h.channel_messages(2).len()
            + h.private_messages(7).len()
    );
    assert_eq!(h.total_count(), 6);
}
