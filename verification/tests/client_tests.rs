use bvchat::client::{input_panics, is_blocked, parse_input, sender_of, ClientInput};
use bvchat::text::drop_last_char;

fn s(t: &str) -> String {
    String::from(t)
}

#[test]
fn sender_is_before_first_colon() {
    assert_eq!(sender_of("bob: hi: there\n"), s("bob"));
    assert_eq!(sender_of("no colon\n"), s("no colon\n"));
    assert_eq!(sender_of(":x"), s(""));
}

#[test]
fn blocked_senders() {
    let list = vec![s("bob"), s("eve")];
    assert!(is_blocked(&list, "bob: hello\n"));
    assert!(!is_blocked(&list, "alice: hello\n"));
    assert!(!is_blocked(&list, "bob has connected\n"));
}

#[test]
fn typed_commands() {
    assert_eq!(parse_input("/block bob\n"), ClientInput::Block(s("bob")));
    assert_eq!(parse_input("/unblock bob\n"), ClientInput::Unblock(s("bob")));
    assert_eq!(parse_input("/block \n"), ClientInput::Block(s("")));
    assert_eq!(parse_input("/block\n"), ClientInput::Block(s("")));
    assert_eq!(parse_input("/exit\n"), ClientInput::Exit);
    assert_eq!(parse_input("/tell bob hi\n"), ClientInput::Send);
    assert_eq!(parse_input("hello\n"), ClientInput::Send);
}

#[test]
fn typed_lines_given_up_on() {
    assert!(input_panics("/block"));
    assert!(input_panics("/blocké"));
    assert!(input_panics("/unblock"));
    assert!(!input_panics("/unblock\n"));
    assert!(!input_panics("/block\n"));
    assert!(!input_panics("/unblock \n"));
    assert!(!input_panics("hello"));
}

#[test]
fn dropping_last_character() {
    assert_eq!(drop_last_char("name\n"), s("name"));
    assert_eq!(drop_last_char("é"), s(""));
    assert_eq!(drop_last_char(""), s(""));
}

#[test]
fn blocked_direct_messages_and_emotes() {
    let list = vec![s("bob")];
    assert!(is_blocked(&list, "bob tells you: hi\n"));
    assert!(is_blocked(&list, "bob says hi\n"));
    assert!(is_blocked(&list, "bob says hi"));
    assert!(!is_blocked(&list, "bobby tells you: hi\n"));
    assert!(!is_blocked(&list, "alice tells you: bob tells you: hi\n"));
    assert!(!is_blocked(&list, "bob says hello\n"));
    assert!(!is_blocked(&vec![], "bob: hi\n"));
}
