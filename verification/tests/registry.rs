use rusty_chat::{Addr, Chat, Message, MessageType, Shared, User};
use tokio::sync::mpsc::{unbounded_channel, UnboundedReceiver};

fn addr(port: u16) -> Addr {
    Addr::V4 { ip: 0x7f00_0001, port }
}

fn user(port: u16, name: &str) -> User {
    User { addr: addr(port), usrname: name.to_string() }
}

fn connect(shared: &mut Shared, port: u16, name: &str) -> UnboundedReceiver<String> {
    let (tx, rx) = unbounded_channel();
    shared.register(user(port, name), tx);
    rx
}

fn members(shared: &Shared) -> Vec<Vec<Addr>> {
    shared.chats().iter().map(|chat| chat.members.clone()).collect()
}

fn received(rx: &mut UnboundedReceiver<String>) -> Vec<String> {
    let mut lines = Vec::new();
    while let Ok(line) = rx.try_recv() {
        lines.push(line);
    }
    lines
}

fn note(text: &str) -> Message {
    Message { text: text.to_string(), msg_type: MessageType::SystemInfo, author: "SYSTEM".to_string() }
}

fn line(text: &str) -> String {
    format!("{{\"text\":\"{}\",\"msg_type\":\"SystemInfo\",\"author\":\"SYSTEM\"}}", text)
}

#[test]
fn new_registry_is_empty() {
    let shared = Shared::new();
    assert!(shared.chats().is_empty());
    assert!(shared.get_usr_from_addr(addr(1)).is_none());
    assert!(shared.get_usr_from_name("Alice".to_string()).is_none());
}

#[test]
fn addresses_differ_by_every_part() {
    assert_eq!(addr(1), Addr::V4 { ip: 0x7f00_0001, port: 1 });
    assert_ne!(addr(1), addr(2));
    assert_ne!(addr(1), Addr::V4 { ip: 0x7f00_0002, port: 1 });
    let six = Addr::V6 { ip: 1, port: 1, flowinfo: 0, scope_id: 0 };
    assert_ne!(addr(1), six);
    assert_ne!(six, Addr::V6 { ip: 1, port: 1, flowinfo: 1, scope_id: 0 });
    assert_ne!(six, Addr::V6 { ip: 1, port: 1, flowinfo: 0, scope_id: 1 });
}

#[test]
fn registered_users_are_found_by_address_and_name() {
    let mut shared = Shared::new();
    let _a = connect(&mut shared, 1, "Alice");
    let _b = connect(&mut shared, 2, "Bob");
    assert_eq!(shared.get_usr_from_addr(addr(2)), Some(&user(2, "Bob")));
    assert_eq!(shared.get_usr_from_name("Alice".to_string()), Some(&user(1, "Alice")));
    assert!(shared.get_usr_from_addr(addr(3)).is_none());
    assert!(shared.get_usr_from_name("Carol".to_string()).is_none());
}

#[test]
fn users_are_listed_in_the_order_of_their_registration() {
    let mut shared = Shared::new();
    assert!(shared.users().is_empty());
    let _b = connect(&mut shared, 2, "Bob");
    let _a = connect(&mut shared, 1, "Alice");
    let _c = connect(&mut shared, 2, "Bob");
    assert_eq!(shared.users(), vec![user(2, "Bob"), user(1, "Alice")]);
    shared.unregister(&user(2, "Bob"));
    assert_eq!(shared.users(), vec![user(1, "Alice")]);
}

#[test]
fn first_user_of_a_name_is_found() {
    let mut shared = Shared::new();
    let _a = connect(&mut shared, 1, "Twin");
    let _b = connect(&mut shared, 2, "Twin");
    assert_eq!(shared.get_usr_from_name("Twin".to_string()), Some(&user(1, "Twin")));
}

#[test]
fn user_with_empty_name_is_registered() {
    let mut shared = Shared::new();
    let _a = connect(&mut shared, 1, "");
    assert_eq!(shared.get_usr_from_name(String::new()), Some(&user(1, "")));
}

#[test]
fn registering_again_replaces_the_channel() {
    let mut shared = Shared::new();
    let mut old = connect(&mut shared, 1, "Alice");
    let _b = connect(&mut shared, 2, "Bob");
    let mut new = connect(&mut shared, 1, "Alice");
    shared.join_chat(&user(2, "Bob"), &"Alice".to_string());
    let report = shared.broadcast(addr(2), &note("x"), &note(""));
    assert_eq!(report.len(), 1);
    assert!(received(&mut old).is_empty());
    assert_eq!(received(&mut new), vec![line("x")]);
}

#[test]
fn unregistered_user_is_found_no_more() {
    let mut shared = Shared::new();
    let _a = connect(&mut shared, 1, "Alice");
    let _b = connect(&mut shared, 2, "Bob");
    shared.unregister(&user(1, "Alice"));
    assert!(shared.get_usr_from_addr(addr(1)).is_none());
    assert_eq!(shared.get_usr_from_name("Bob".to_string()), Some(&user(2, "Bob")));
    shared.unregister(&user(3, "Nobody"));
    assert_eq!(shared.get_usr_from_name("Bob".to_string()), Some(&user(2, "Bob")));
}

#[test]
fn unregistering_needs_address_and_name() {
    let mut shared = Shared::new();
    let _a = connect(&mut shared, 1, "Alice");
    shared.unregister(&user(1, "Alicia"));
    shared.unregister(&user(2, "Alice"));
    assert_eq!(shared.get_usr_from_addr(addr(1)), Some(&user(1, "Alice")));
}

#[test]
fn joining_an_absent_user_makes_a_chat_of_one() {
    let mut shared = Shared::new();
    let _c = connect(&mut shared, 3, "Carol");
    shared.join_chat(&user(3, "Carol"), &"ghost".to_string());
    assert_eq!(members(&shared), vec![vec![addr(3)]]);
}

#[test]
fn joining_a_user_in_no_chat_makes_a_chat_of_two() {
    let mut shared = Shared::new();
    let _a = connect(&mut shared, 1, "Alice");
    let _b = connect(&mut shared, 2, "Bob");
    shared.join_chat(&user(2, "Bob"), &"Alice".to_string());
    assert_eq!(members(&shared), vec![vec![addr(2), addr(1)]]);
}

#[test]
fn joining_a_user_in_chats_joins_each_of_them() {
    let mut shared = Shared::new();
    let _a = connect(&mut shared, 1, "Alice");
    let _b = connect(&mut shared, 2, "Bob");
    let _c = connect(&mut shared, 3, "Carol");
    let _d = connect(&mut shared, 4, "Dave");
    shared.join_chat(&user(1, "Alice"), &"nobody".to_string());
    shared.join_chat(&user(2, "Bob"), &"nobody".to_string());
    shared.join_chat(&user(1, "Alice"), &"none".to_string());
    assert_eq!(members(&shared), vec![vec![addr(1)], vec![addr(2)], vec![addr(1)]]);
    shared.join_chat(&user(3, "Carol"), &"Alice".to_string());
    assert_eq!(
        members(&shared),
        vec![vec![addr(1), addr(3)], vec![addr(2)], vec![addr(1), addr(3)]]
    );
    shared.join_chat(&user(4, "Dave"), &"Bob".to_string());
    assert_eq!(
        members(&shared),
        vec![vec![addr(1), addr(3)], vec![addr(2), addr(4)], vec![addr(1), addr(3)]]
    );
}

#[test]
fn joining_twice_stands_twice() {
    let mut shared = Shared::new();
    let _a = connect(&mut shared, 1, "Alice");
    let _b = connect(&mut shared, 2, "Bob");
    shared.join_chat(&user(2, "Bob"), &"Alice".to_string());
    shared.join_chat(&user(2, "Bob"), &"Alice".to_string());
    assert_eq!(members(&shared), vec![vec![addr(2), addr(1), addr(2)]]);
}

#[test]
fn joining_oneself_makes_a_chat_with_oneself() {
    let mut shared = Shared::new();
    let _a = connect(&mut shared, 1, "Alice");
    shared.join_chat(&user(1, "Alice"), &"Alice".to_string());
    assert_eq!(members(&shared), vec![vec![addr(1), addr(1)]]);
}

#[test]
fn no_chat_is_empty_after_joins() {
    let mut shared = Shared::new();
    let _a = connect(&mut shared, 1, "Alice");
    let _b = connect(&mut shared, 2, "Bob");
    let names = ["Alice", "Bob", "ghost", "", "Alice", "Bob"];
    for (i, name) in names.iter().enumerate() {
        let who = user((i % 3) as u16 + 1, "x");
        shared.join_chat(&who, &name.to_string());
        assert!(shared.chats().iter().all(|chat| !chat.members.is_empty()));
    }
    assert_eq!(shared.chats().len(), 4);
}

#[test]
fn chats_of_a_user_are_listed_in_order() {
    let mut shared = Shared::new();
    let _a = connect(&mut shared, 1, "Alice");
    let _b = connect(&mut shared, 2, "Bob");
    shared.join_chat(&user(1, "Alice"), &"ghost".to_string());
    shared.join_chat(&user(2, "Bob"), &"ghost".to_string());
    shared.join_chat(&user(1, "Alice"), &"Bob".to_string());
    assert_eq!(members(&shared), vec![vec![addr(1)], vec![addr(2), addr(1)]]);
    let of_alice: Vec<Chat> = shared
        .get_chats_from_user_addr(addr(1))
        .into_iter()
        .map(|chat| Chat { members: chat.members.clone() })
        .collect();
    assert_eq!(
        of_alice,
        vec![Chat { members: vec![addr(1)] }, Chat { members: vec![addr(2), addr(1)] }]
    );
    assert_eq!(shared.get_chats_from_user_addr(addr(2)).len(), 1);
    assert!(shared.get_chats_from_user_addr(addr(9)).is_empty());
    assert_eq!(shared.get_mut_chats_from_user_addr(addr(1)), vec![0, 1]);
    assert_eq!(shared.get_mut_chats_from_user_addr(addr(2)), vec![1]);
    assert!(shared.get_mut_chats_from_user_addr(addr(9)).is_empty());
}

#[test]
fn chat_knows_its_members() {
    let chat = Chat { members: vec![addr(1), addr(2)] };
    assert!(chat.has_member(addr(1)));
    assert!(chat.has_member(addr(2)));
    assert!(!chat.has_member(addr(3)));
    assert!(!Chat { members: vec![] }.has_member(addr(1)));
}

#[test]
fn leaving_takes_the_address_out_and_drops_empty_chats() {
    let mut shared = Shared::new();
    let _a = connect(&mut shared, 1, "Alice");
    let _b = connect(&mut shared, 2, "Bob");
    shared.join_chat(&user(1, "Alice"), &"ghost".to_string());
    shared.join_chat(&user(2, "Bob"), &"ghost".to_string());
    shared.join_chat(&user(1, "Alice"), &"Bob".to_string());
    shared.join_chat(&user(1, "Alice"), &"Bob".to_string());
    assert_eq!(members(&shared), vec![vec![addr(1)], vec![addr(2), addr(1), addr(1)]]);
    shared.leave_chats(addr(1));
    assert_eq!(members(&shared), vec![vec![addr(2)]]);
    shared.leave_chats(addr(7));
    assert_eq!(members(&shared), vec![vec![addr(2)]]);
    shared.leave_chats(addr(2));
    assert!(members(&shared).is_empty());
}

#[test]
fn broadcast_reaches_the_other_members_only() {
    let mut shared = Shared::new();
    let mut a = connect(&mut shared, 1, "Alice");
    let mut b = connect(&mut shared, 2, "Bob");
    let mut c = connect(&mut shared, 3, "Carol");
    shared.join_chat(&user(2, "Bob"), &"Alice".to_string());
    shared.join_chat(&user(3, "Carol"), &"ghost".to_string());
    let report = shared.broadcast(addr(1), &note("to all"), &note("to me"));
    assert_eq!(report.len(), 2);
    assert_eq!((report[0].to, report[0].line.clone(), report[0].enqueued), (addr(1), line("to me"), true));
    assert_eq!((report[1].to, report[1].line.clone(), report[1].enqueued), (addr(2), line("to all"), true));
    assert_eq!(received(&mut a), vec![line("to me")]);
    assert_eq!(received(&mut b), vec![line("to all")]);
    assert!(received(&mut c).is_empty());
}

#[test]
fn broadcast_of_a_sender_in_no_chat_reaches_nobody() {
    let mut shared = Shared::new();
    let mut a = connect(&mut shared, 1, "Alice");
    let mut b = connect(&mut shared, 2, "Bob");
    shared.join_chat(&user(2, "Bob"), &"ghost".to_string());
    let report = shared.broadcast(addr(1), &note("to all"), &note("to me"));
    assert!(report.is_empty());
    assert!(received(&mut a).is_empty());
    assert!(received(&mut b).is_empty());
}

#[test]
fn sender_gets_no_variant_without_text() {
    let mut shared = Shared::new();
    let mut a = connect(&mut shared, 1, "Alice");
    let mut b = connect(&mut shared, 2, "Bob");
    shared.join_chat(&user(2, "Bob"), &"Alice".to_string());
    let report = shared.broadcast(addr(1), &note("to all"), &note(""));
    assert_eq!(report.len(), 1);
    assert!(received(&mut a).is_empty());
    assert_eq!(received(&mut b), vec![line("to all")]);
}

#[test]
fn sender_gets_nothing_back_of_one_message_for_both() {
    let mut shared = Shared::new();
    let mut a = connect(&mut shared, 1, "Alice");
    let mut b = connect(&mut shared, 2, "Bob");
    shared.join_chat(&user(2, "Bob"), &"Alice".to_string());
    let message = note("same");
    let report = shared.broadcast(addr(1), &message, &message);
    assert_eq!(report.len(), 1);
    assert_eq!(report[0].to, addr(2));
    assert!(received(&mut a).is_empty());
    assert_eq!(received(&mut b), vec![line("same")]);
}

#[test]
fn member_of_two_chats_gets_the_message_twice() {
    let mut shared = Shared::new();
    let mut a = connect(&mut shared, 1, "Alice");
    let mut b = connect(&mut shared, 2, "Bob");
    shared.join_chat(&user(1, "Alice"), &"ghost".to_string());
    shared.join_chat(&user(1, "Alice"), &"ghost".to_string());
    shared.join_chat(&user(2, "Bob"), &"Alice".to_string());
    assert_eq!(members(&shared), vec![vec![addr(1), addr(2)], vec![addr(1), addr(2)]]);
    let report = shared.broadcast(addr(1), &note("hello"), &note("mine"));
    assert_eq!(report.len(), 4);
    assert_eq!(received(&mut a), vec![line("mine"), line("mine")]);
    assert_eq!(received(&mut b), vec![line("hello"), line("hello")]);
}

#[test]
fn member_that_is_not_registered_gets_nothing() {
    let mut shared = Shared::new();
    let _a = connect(&mut shared, 1, "Alice");
    let mut b = connect(&mut shared, 2, "Bob");
    shared.join_chat(&user(2, "Bob"), &"Alice".to_string());
    shared.join_chat(&user(5, "Eve"), &"Alice".to_string());
    assert_eq!(members(&shared), vec![vec![addr(2), addr(1), addr(5)]]);
    let report = shared.broadcast(addr(1), &note("hello"), &note(""));
    assert_eq!(report.len(), 1);
    assert_eq!(received(&mut b), vec![line("hello")]);
}

#[test]
fn line_for_a_closed_channel_is_dropped() {
    let mut shared = Shared::new();
    let mut a = connect(&mut shared, 1, "Alice");
    let b = connect(&mut shared, 2, "Bob");
    let mut c = connect(&mut shared, 3, "Carol");
    shared.join_chat(&user(2, "Bob"), &"Alice".to_string());
    shared.join_chat(&user(3, "Carol"), &"Alice".to_string());
    drop(b);
    let report = shared.broadcast(addr(1), &note("hello"), &note(""));
    assert_eq!(report.len(), 2);
    assert_eq!((report[0].to, report[0].enqueued), (addr(2), false));
    assert_eq!((report[1].to, report[1].enqueued), (addr(3), true));
    assert!(received(&mut a).is_empty());
    assert_eq!(received(&mut c), vec![line("hello")]);
}

#[test]
fn disconnect_tells_the_others_and_clears_the_user() {
    let mut shared = Shared::new();
    let mut a = connect(&mut shared, 1, "Alice");
    let mut b = connect(&mut shared, 2, "Bob");
    shared.join_chat(&user(2, "Bob"), &"Alice".to_string());
    shared.join_chat(&user(2, "Bob"), &"ghost".to_string());
    let report = shared.disconnect(&user(2, "Bob"), &note("gone"), &note("bye"));
    assert_eq!(report.len(), 3);
    assert_eq!(received(&mut a), vec![line("gone")]);
    assert_eq!(received(&mut b), vec![line("bye"), line("bye")]);
    assert!(shared.get_usr_from_addr(addr(2)).is_none());
    assert_eq!(members(&shared), vec![vec![addr(1)]]);
}
