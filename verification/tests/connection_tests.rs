use bvchat::connection::{connection_step, line_panics, ConnectionHandler, ConnectionStep};
use bvchat::server::{Action, Message, ServerState};

fn s(t: &str) -> String {
    String::from(t)
}

fn step(messages: Vec<Message>, echo: Option<&str>, stop: bool) -> ConnectionStep {
    ConnectionStep { messages, echo: echo.map(s), stop }
}

#[test]
fn chat_line() {
    assert_eq!(
        connection_step("u", "hello there\n", false),
        step(vec![Message::Chat(s("u"), s("hello there\n"))], Some("hello there\n"), false)
    );
}

#[test]
fn empty_line_means_gone() {
    assert_eq!(connection_step("u", "", false), step(vec![Message::Exit(s("u"))], None, true));
    assert_eq!(connection_step("u", "", true), step(vec![Message::Exit(s("u"))], None, true));
}

#[test]
fn spam_line() {
    assert_eq!(
        connection_step("u", "/tell\n", true),
        step(vec![Message::Spam(s("u"))], Some("/tell\n"), false)
    );
}

#[test]
fn simple_commands() {
    assert_eq!(connection_step("u", "/help\n", false), step(vec![Message::Help(s("u"))], Some("/help"), false));
    assert_eq!(connection_step("u", "/motd\n", false), step(vec![Message::Motd(s("u"))], Some("/motd"), false));
    assert_eq!(connection_step("u", "/me\n", false), step(vec![Message::Me(s("u"))], Some("/me"), false));
    assert_eq!(connection_step("u", "/who\n", false), step(vec![Message::Who(s("u"))], Some("/who"), false));
    assert_eq!(connection_step("u", "/exit\n", false), step(vec![Message::Exit(s("u"))], None, true));
    assert_eq!(connection_step("u", "/nope\n", false), step(vec![], Some("/nope"), false));
    // With a word after it, the command word ends at the space.
    assert_eq!(connection_step("u", "/help me\n", false), step(vec![Message::Help(s("u"))], Some("/help"), false));
}

#[test]
fn tell_command() {
    assert_eq!(
        connection_step("u", "/tell bob hi there\n", false),
        step(
            vec![Message::DirectMessage { from: s("u"), to: s("bob"), contents: s("hi there") }],
            Some("/tell"),
            false
        )
    );
    assert_eq!(
        connection_step("u", "/tell bob\n", false),
        step(
            vec![Message::DirectMessage {
                from: s("Server"),
                to: s("u"),
                contents: s("Invalid /tell format")
            }],
            Some("/tell"),
            false
        )
    );
    assert_eq!(
        connection_step("u", "/tell \n", false),
        step(
            vec![Message::DirectMessage {
                from: s("Server"),
                to: s("u"),
                contents: s("Invalid /tell format")
            }],
            Some("/tell"),
            false
        )
    );
}

#[test]
fn moderation_commands() {
    assert_eq!(
        connection_step("u", "/ban bob\n", false),
        step(vec![Message::Ban(s("u"), s("bob")), Message::Kick(s("u"), s("bob"))], Some("/ban"), false)
    );
    assert_eq!(
        connection_step("u", "/unban bob\n", false),
        step(vec![Message::Unban(s("u"), s("bob"))], Some("/unban"), false)
    );
    assert_eq!(
        connection_step("u", "/kick bob\n", false),
        step(vec![Message::Kick(s("u"), s("bob"))], Some("/kick"), false)
    );
}

#[test]
fn lines_the_handler_gives_up_on() {
    assert!(line_panics("/tell\n"));
    assert!(line_panics("/ban\n"));
    assert!(line_panics("/kick "));
    assert!(line_panics("/hé"));
    assert!(line_panics("/tell bob é"));
    assert!(!line_panics("/tell \n"));
    assert!(!line_panics("/héllo"));
    assert!(!line_panics("/help\n"));
    assert!(!line_panics("hé"));
    assert!(!line_panics(""));
}

#[test]
fn handler_counts_lines() {
    let mut h = ConnectionHandler::new(s("u"));
    for _ in 0..4 {
        assert_eq!(
            h.on_line("hi\n"),
            Some(step(vec![Message::Chat(s("u"), s("hi\n"))], Some("hi\n"), false))
        );
    }
    // The fifth line within five seconds trips the spam counter.
    assert_eq!(h.on_line("hi\n"), Some(step(vec![Message::Spam(s("u"))], Some("hi\n"), false)));
    // Held back, even a line it would give up on is only spam.
    assert_eq!(h.on_line("/tell\n"), Some(step(vec![Message::Spam(s("u"))], Some("/tell\n"), false)));
    assert_eq!(h.on_line(""), Some(step(vec![Message::Exit(s("u"))], None, true)));
}

#[test]
fn handler_gives_up_on_bad_line() {
    let mut h = ConnectionHandler::new(s("u"));
    assert_eq!(h.on_line("/tell\n"), None);
}

#[test]
fn ban_line_from_admin_bans_and_kicks() {
    let mut st = ServerState::new();
    st.handle(Message::Login(s("boss")));
    st.handle(Message::Login(s("bob")));
    let step = connection_step("boss", "/ban bob\n", false);
    let mut actions = Vec::new();
    for m in step.messages {
        actions.extend(st.handle(m));
    }
    assert!(actions.contains(&Action::BanUser(s("bob"))));
    assert!(actions.contains(&Action::Disconnect(s("bob"))));
    assert!(!st.users().contains_key(&s("bob")));
}

#[test]
fn connection_exits_once_at_the_end() {
    let lines = ["hi\n", "/who\n", "/exit\n", "never read\n"];
    let mut sent = Vec::new();
    for line in lines.iter() {
        let step = connection_step("u", line, false);
        sent.extend(step.messages);
        if step.stop {
            break;
        }
    }
    assert_eq!(
        sent,
        vec![Message::Chat(s("u"), s("hi\n")), Message::Who(s("u")), Message::Exit(s("u"))]
    );
}

#[test]
fn handler_at_given_times() {
    let second: u128 = 1_000_000_000;
    let mut h = ConnectionHandler::new(s("u"));
    for k in 0..4u128 {
        assert_eq!(
            h.on_line_at("hi\n", k * second, k * second),
            Some(step(vec![Message::Chat(s("u"), s("hi\n"))], Some("hi\n"), false))
        );
    }
    // Five lines within five seconds: the fifth is spam.
    assert_eq!(
        h.on_line_at("hi\n", 4 * second, 4 * second),
        Some(step(vec![Message::Spam(s("u"))], Some("hi\n"), false))
    );
    // Still held back 20 s after tripping.
    assert_eq!(
        h.on_line_at("/tell\n", 24 * second, 24 * second),
        Some(step(vec![Message::Spam(s("u"))], Some("/tell\n"), false))
    );
    // After the penalty the counter starts afresh, and the bad line is given up on.
    assert_eq!(h.on_line_at("/tell\n", 25 * second, 25 * second), None);
    assert_eq!(h.on_line_at("", 0, 0), Some(step(vec![Message::Exit(s("u"))], None, true)));
}
