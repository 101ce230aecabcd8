//! The client's logic: what a typed line asks for, who sent an incoming
//! line, and whether that sender is blocked.
use crate::text::{
    find_char, find_char_in, has_prefix, is_ascii_char, is_ascii_char_exec, is_first,
    lemma_first_exists, spec_drop_last_char, starts_with, substring,
};
use vstd::prelude::*;

verus! {

/// The sender of an incoming line: what comes before its first colon, or
/// the whole line when it has none.
pub open spec fn spec_sender_of(m: Seq<char>) -> Seq<char> {
    match find_char(m, ':') {
        Some(i) => m.take(i),
        None => m,
    }
}

/// The sender is the longest start of the line without a colon: the line
/// begins with it, it holds no colon, and it is either the whole line or
/// followed by a colon.
pub proof fn lemma_sender_before_first_colon(m: Seq<char>)
    ensures
        has_prefix(m, spec_sender_of(m)),
        !spec_sender_of(m).contains(':'),
        spec_sender_of(m).len() == m.len() || m[spec_sender_of(m).len() as int] == ':',
{
    let r = spec_sender_of(m);
    match find_char(m, ':') {
        Some(i) => {
            assert(is_first(m, ':', i));
            assert(r =~= m.take(i));
            if r.contains(':') {
                let k = choose|k: int| 0 <= k < r.len() && r[k] == ':';
                assert(m[k] == ':');
            }
        },
        None => {
            if m.contains(':') {
                let j = choose|j: int| 0 <= j < m.len() && m[j] == ':';
                lemma_first_exists(m, ':', j);
            }
            assert(m.take(m.len() as int) =~= m);
        },
    }
}

/// Finds the sender of an incoming line.
pub fn sender_of(message: &str) -> (r: String)
    ensures
        r@ == spec_sender_of(message@),
{
    match find_char_in(message, ':') {
        Some(i) => substring(message, 0, i),
        None => String::from_str(message),
    }
}

/// A line without its line end, if it has one.
pub open spec fn line_body(m: Seq<char>) -> Seq<char> {
    if m.len() > 0 && m.last() == '\n' {
        m.drop_last()
    } else {
        m
    }
}

/// Whether incoming line `m` is a message from `name`: a chat line
/// (`name` before the first colon), a direct message (`name tells you: …`)
/// or an emote (`name says hi`).
pub open spec fn comes_from(m: Seq<char>, name: Seq<char>) -> bool {
    ||| spec_sender_of(m) == name
    ||| has_prefix(m, name + " tells you: "@)
    ||| line_body(m) == name + " says hi"@
}

/// `a` followed by `b`.
fn joined(a: &str, b: &str) -> (r: String)
    ensures
        r@ == a@ + b@,
{
    let mut r = String::from_str(a);
    r.append(b);
    r
}

/// Whether an incoming line is a message from a blocked user: from one of
/// the names on the lines of the block list.
pub fn is_blocked(block_list: &Vec<String>, message: &str) -> (b: bool)
    ensures
        b == exists|i: int|
            0 <= i < block_list@.len() && comes_from(message@, #[trigger] block_list@[i]@),
{
    let sender = sender_of(message);
    let n = message.unicode_len();
    let body = if n > 0 && message.get_char(n - 1) == '\n' {
        substring(message, 0, n - 1)
    } else {
        String::from_str(message)
    };
    assert(body@ == line_body(message@));
    let mut i: usize = 0;
    while i < block_list.len()
        invariant
            i <= block_list.len(),
            sender@ == spec_sender_of(message@),
            body@ == line_body(message@),
            forall|j: int| 0 <= j < i ==> !comes_from(message@, #[trigger] block_list@[j]@),
        decreases block_list.len() - i,
    {
        let name = &block_list[i];
        let direct = joined(name.as_str(), " tells you: ");
        let emote = joined(name.as_str(), " says hi");
        if *name == sender || starts_with(message, direct.as_str()) || body == emote {
            assert(comes_from(message@, block_list@[i as int]@));
            return true;
        }
        i = i + 1;
    }
    false
}

/// What a line typed by the user asks for.
#[derive(Debug, PartialEq, Eq)]
pub enum ClientInput {
    /// Add this name to the block list.
    Block(String),
    /// Remove this name from the block list.
    Unblock(String),
    /// Leave.
    Exit,
    /// Send the line to the server as it is.
    Send,
}

/// A [`ClientInput`] with its strings as character sequences.
pub enum InputView {
    Block(Seq<char>),
    Unblock(Seq<char>),
    Exit,
    Send,
}

impl View for ClientInput {
    type V = InputView;

    open spec fn view(&self) -> InputView {
        match self {
            ClientInput::Block(n) => InputView::Block(n@),
            ClientInput::Unblock(n) => InputView::Unblock(n@),
            ClientInput::Exit => InputView::Exit,
            ClientInput::Send => InputView::Send,
        }
    }
}

/// The typed lines the client cannot cut where it means to, and so gives
/// up on: `/block` not followed by a one-byte character at position 6, or
/// `/unblock` not followed by one at position 8 (the name starts one
/// character further on).
pub open spec fn spec_input_panics(s: Seq<char>) -> bool {
    if has_prefix(s, "/block"@) {
        s.len() < 7 || !is_ascii_char(s[6])
    } else if has_prefix(s, "/unblock"@) {
        s.len() < 9 || !is_ascii_char(s[8])
    } else {
        false
    }
}

/// What typed line `s` (with its line end) asks for: the name after
/// `/block ` or `/unblock `, without its last character (the line end).
pub open spec fn spec_parse_input(s: Seq<char>) -> InputView {
    if has_prefix(s, "/block"@) {
        InputView::Block(spec_drop_last_char(s.skip(7)))
    } else if has_prefix(s, "/unblock"@) {
        InputView::Unblock(spec_drop_last_char(s.skip(9)))
    } else if has_prefix(s, "/exit"@) {
        InputView::Exit
    } else {
        InputView::Send
    }
}

/// Whether the client gives up on typed line `input`.
pub fn input_panics(input: &str) -> (b: bool)
    ensures
        b == spec_input_panics(input@),
{
    let n = input.unicode_len();
    if starts_with(input, "/block") {
        n < 7 || !is_ascii_char_exec(input.get_char(6))
    } else if starts_with(input, "/unblock") {
        n < 9 || !is_ascii_char_exec(input.get_char(8))
    } else {
        false
    }
}

/// The name in a `/block` or `/unblock` line, from position `from` on,
/// without the last character.
fn name_from(input: &str, from: usize) -> (r: String)
    requires
        from <= input@.len(),
    ensures
        r@ == spec_drop_last_char(input@.skip(from as int)),
{
    let n = input.unicode_len();
    if n - from == 0 {
        assert(input@.skip(from as int).len() == 0);
        String::new()
    } else {
        let r = substring(input, from, n - 1);
        assert(r@ =~= input@.skip(from as int).drop_last());
        r
    }
}

/// Reads what typed line `input` asks for.
pub fn parse_input(input: &str) -> (c: ClientInput)
    requires
        !spec_input_panics(input@),
    ensures
        c@ == spec_parse_input(input@),
{
    if starts_with(input, "/block") {
        ClientInput::Block(name_from(input, 7))
    } else if starts_with(input, "/unblock") {
        ClientInput::Unblock(name_from(input, 9))
    } else if starts_with(input, "/exit") {
        ClientInput::Exit
    } else {
        ClientInput::Send
    }
}

} // verus!
