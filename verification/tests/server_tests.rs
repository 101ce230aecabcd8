use bvchat::server::{
    tell, Action, Message, ServerState, COMMAND_TEXT, NAME_IN_USE_TEXT, NOT_ADMIN_TEXT, SPAM_TEXT,
};
use bvchat::users::{UserData, UserList};

fn s(t: &str) -> String {
    String::from(t)
}

fn send(to: &str, text: &str) -> Action {
    Action::Send { to: s(to), text: s(text) }
}

#[test]
fn get_admin() {
    let mut list = UserList::new();
    list.insert(String::from("test"), UserData { user_id: 0 });
    assert_eq!(bvchat::users::get_admin(&list), Some(String::from("test")));
}

#[test]
fn is_admin() {
    let mut list = UserList::new();
    list.insert(String::from("test"), UserData { user_id: 0 });
    let mut actions = Vec::new();
    assert!(bvchat::server::is_admin("test", &list, &mut actions));
    assert!(actions.is_empty());
}

#[test]
fn get_admin_picks_lowest_number() {
    let mut list = UserList::new();
    assert_eq!(bvchat::users::get_admin(&list), None);
    list.insert(s("b"), UserData { user_id: 5 });
    list.insert(s("a"), UserData { user_id: 2 });
    list.insert(s("c"), UserData { user_id: 9 });
    assert_eq!(bvchat::users::get_admin(&list), Some(s("a")));
    assert!(list.remove(&s("a")));
    assert!(!list.remove(&s("a")));
    assert_eq!(bvchat::users::get_admin(&list), Some(s("b")));
    assert_eq!(list.len(), 2);
    assert_eq!(list.names(), vec![s("b"), s("c")]);
}

#[test]
fn insert_replaces_number_in_place() {
    let mut list = UserList::new();
    list.insert(s("a"), UserData { user_id: 1 });
    list.insert(s("b"), UserData { user_id: 2 });
    list.insert(s("a"), UserData { user_id: 7 });
    assert_eq!(list.names(), vec![s("a"), s("b")]);
    assert_eq!(list.get(&s("a")), Some(UserData { user_id: 7 }));
    assert_eq!(list.get(&s("z")), None);
    assert!(list.contains_key(&s("b")));
    assert_eq!(bvchat::users::get_admin(&list), Some(s("b")));
}

#[test]
fn non_admin_is_told() {
    let mut list = UserList::new();
    list.insert(s("boss"), UserData { user_id: 0 });
    list.insert(s("other"), UserData { user_id: 1 });
    let mut actions = Vec::new();
    assert!(!bvchat::server::is_admin("other", &list, &mut actions));
    assert_eq!(actions, vec![send("other", NOT_ADMIN_TEXT)]);
    let mut actions = Vec::new();
    assert!(!bvchat::server::is_admin("ghost", &list, &mut actions));
    assert!(actions.is_empty());
    let empty = UserList::new();
    assert!(!bvchat::server::is_admin("boss", &empty, &mut actions));
    assert!(actions.is_empty());
}

#[test]
fn tell_builds_direct_message() {
    assert_eq!(
        tell("a", "b", "hi"),
        Message::DirectMessage { from: s("a"), to: s("b"), contents: s("hi") }
    );
}

fn two_users() -> ServerState {
    let mut st = ServerState::new();
    assert_eq!(st.handle(Message::Login(s("alice"))), vec![Action::Register(s("alice"))]);
    assert_eq!(bvchat::users::get_admin(st.users()), Some(s("alice")));
    assert_eq!(
        st.handle(Message::Login(s("bob"))),
        vec![send("alice", "bob has connected"), Action::Register(s("bob"))]
    );
    assert_eq!(st.next_user_id(), 2);
    st
}

#[test]
fn chat_and_me_reach_everyone() {
    let mut st = two_users();
    assert_eq!(
        st.handle(Message::Chat(s("bob"), s("hi\n"))),
        vec![send("alice", "bob: hi\n"), send("bob", "bob: hi\n")]
    );
    assert_eq!(
        st.handle(Message::Me(s("alice"))),
        vec![send("alice", "alice says hi"), send("bob", "alice says hi")]
    );
}

#[test]
fn second_login_under_same_name() {
    let mut st = two_users();
    assert_eq!(
        st.handle(Message::Login(s("alice"))),
        vec![
            Action::Refuse { text: s(NAME_IN_USE_TEXT) },
            Action::ShutdownNewcomer,
            send("alice", "alice has connected"),
            send("bob", "alice has connected"),
            Action::Register(s("alice")),
        ]
    );
    // alice now has the newest number, so bob is the admin.
    assert_eq!(bvchat::users::get_admin(st.users()), Some(s("bob")));
    assert_eq!(st.users().names(), vec![s("alice"), s("bob")]);
}

#[test]
fn direct_message_saved_until_login() {
    let mut st = two_users();
    assert_eq!(
        st.handle(Message::DirectMessage { from: s("alice"), to: s("bob"), contents: s("yo") }),
        vec![send("bob", "alice tells you: yo")]
    );
    assert_eq!(
        st.handle(Message::DirectMessage { from: s("alice"), to: s("carol"), contents: s("one") }),
        vec![]
    );
    assert_eq!(
        st.handle(Message::DirectMessage { from: s("bob"), to: s("dave"), contents: s("x") }),
        vec![]
    );
    assert_eq!(
        st.handle(Message::DirectMessage { from: s("bob"), to: s("carol"), contents: s("two") }),
        vec![]
    );
    assert_eq!(
        st.handle(Message::Login(s("carol"))),
        vec![
            send("alice", "carol has connected"),
            send("bob", "carol has connected"),
            Action::Register(s("carol")),
            send("carol", "alice tells you: one"),
            send("carol", "bob tells you: two"),
        ]
    );
    // Delivered messages are gone; dave's stays.
    st.handle(Message::Exit(s("carol")));
    assert_eq!(
        st.handle(Message::Login(s("carol"))),
        vec![
            send("alice", "carol has connected"),
            send("bob", "carol has connected"),
            Action::Register(s("carol")),
        ]
    );
    let acts = st.handle(Message::Login(s("dave")));
    assert_eq!(acts.last(), Some(&send("dave", "bob tells you: x")));
}

#[test]
fn exit_disconnects_and_announces() {
    let mut st = two_users();
    assert_eq!(
        st.handle(Message::Exit(s("bob"))),
        vec![Action::Disconnect(s("bob")), send("alice", "bob has exited.")]
    );
    assert!(!st.users().contains_key(&s("bob")));
    assert_eq!(st.handle(Message::Exit(s("zed"))), vec![send("alice", "zed has exited.")]);
}

#[test]
fn replies_only_to_logged_in_users() {
    let mut st = two_users();
    assert_eq!(st.handle(Message::Help(s("bob"))), vec![send("bob", COMMAND_TEXT)]);
    assert_eq!(st.handle(Message::Help(s("zed"))), vec![]);
    assert_eq!(st.handle(Message::Spam(s("alice"))), vec![send("alice", SPAM_TEXT)]);
    assert_eq!(
        st.handle(Message::Motd(s("alice"))),
        vec![Action::LoadMotd, Action::SendMotd(s("alice"))]
    );
    assert_eq!(st.handle(Message::Motd(s("zed"))), vec![Action::LoadMotd]);
    assert_eq!(
        st.handle(Message::Who(s("bob"))),
        vec![send("bob", "alice"), send("bob", "bob")]
    );
    assert_eq!(st.handle(Message::Who(s("zed"))), vec![]);
}

#[test]
fn only_admin_moderates() {
    let mut st = two_users();
    assert_eq!(
        st.handle(Message::Kick(s("bob"), s("alice"))),
        vec![send("bob", NOT_ADMIN_TEXT)]
    );
    assert_eq!(
        st.handle(Message::Ban(s("bob"), s("alice"))),
        vec![send("bob", NOT_ADMIN_TEXT)]
    );
    assert_eq!(
        st.handle(Message::Unban(s("bob"), s("alice"))),
        vec![send("bob", NOT_ADMIN_TEXT)]
    );
    assert_eq!(st.handle(Message::Kick(s("zed"), s("alice"))), vec![]);
    assert!(st.users().contains_key(&s("alice")));
}

#[test]
fn admin_bans_and_kicks() {
    let mut st = two_users();
    assert_eq!(
        st.handle(Message::Ban(s("alice"), s("bob"))),
        vec![
            Action::BanUser(s("bob")),
            send("alice", "bob has been banned."),
            send("bob", "bob has been banned."),
        ]
    );
    assert_eq!(
        st.handle(Message::Kick(s("alice"), s("bob"))),
        vec![Action::Disconnect(s("bob"))]
    );
    assert!(!st.users().contains_key(&s("bob")));
    assert_eq!(st.handle(Message::Kick(s("alice"), s("bob"))), vec![]);
    assert_eq!(
        st.handle(Message::Unban(s("alice"), s("bob"))),
        vec![Action::UnbanUser(s("bob")), send("alice", "bob has been unbanned.")]
    );
}

#[test]
fn admin_passes_to_next_oldest() {
    let mut st = two_users();
    st.handle(Message::Login(s("carol")));
    assert_eq!(bvchat::users::get_admin(st.users()), Some(s("alice")));
    st.handle(Message::Exit(s("alice")));
    assert_eq!(bvchat::users::get_admin(st.users()), Some(s("bob")));
    st.handle(Message::Exit(s("bob")));
    st.handle(Message::Exit(s("carol")));
    assert_eq!(bvchat::users::get_admin(st.users()), None);
}
