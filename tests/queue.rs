use chest_storage::queue::WebsocketQueue;

#[test]
fn queue_gives_commands_in_enqueue_order() {
    let mut q = WebsocketQueue::new();
    let mut first_producer = |q: &mut WebsocketQueue, s: &str| q.push_back(s.to_string());
    first_producer(&mut q, "find diamond");
    let second_producer = |q: &mut WebsocketQueue| q.handle_frame("index");
    assert!(second_producer(&mut q));
    assert_eq!(q.len(), 2);
    assert_eq!(q.pop_front().as_deref(), Some("find diamond"));
    assert_eq!(q.pop_front().as_deref(), Some("index"));
    assert_eq!(q.pop_front(), None);
}

#[test]
fn keepalive_and_empty_frames_are_dropped() {
    let mut q = WebsocketQueue::new();
    assert!(!q.handle_frame("PING"));
    assert!(!q.handle_frame(""));
    assert!(q.handle_frame("ping"));
    assert_eq!(q.len(), 1);
}

#[test]
fn owner_chat_with_prefix_is_queued_without_it() {
    let mut q = WebsocketQueue::new();
    assert!(!q.handle_chat(Some("owner"), "bot", "owner", "$find diamond"));
    assert!(!q.handle_chat(Some("someone"), "bot", "owner", "$cleardb"));
    assert!(!q.handle_chat(Some("owner"), "bot", "owner", "index"));
    assert!(!q.handle_chat(Some("bot"), "bot", "bot", "$index"));
    assert_eq!(q.len(), 1);
    assert_eq!(q.pop_front().as_deref(), Some("find diamond"));
}

#[test]
fn go_asks_for_a_nearby_scan_unless_said_by_the_actor() {
    let mut q = WebsocketQueue::new();
    assert!(q.handle_chat(Some("someone"), "bot", "owner", "go"));
    assert!(q.handle_chat(None, "bot", "owner", "go"));
    assert!(!q.handle_chat(Some("bot"), "bot", "owner", "go"));
    assert_eq!(q.len(), 0);
}
