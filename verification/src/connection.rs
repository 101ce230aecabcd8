//! What a client's connection handler makes of each line the client sends:
//! chat, a command, or a notice that the client sends too fast.
use crate::counter::{spec_mark, spec_triggered, CounterView, TimeoutCounter};
use crate::server::{
    lemma_ban_kicks, spec_handle, spec_is_admin, tell, view_wf, ActionView, Message, MessageView,
    ServerView,
};
use crate::users::has_user;
use crate::text::{
    find_char, find_char_in, is_ascii_char, is_ascii_char_exec, is_first, lemma_first_unique,
    same_text, substring,
};
use std::time::Instant;
use vstd::prelude::*;

verus! {

/// Seconds a client that sends too fast is held back.
pub const SPAM_DELAY: u64 = 20;

/// How many lines within the spam window make a client a spammer.
pub const SPAM_MAX_LINES: usize = 5;

/// Seconds of the spam window.
pub const SPAM_WINDOW: u64 = 5;

/// Where a command line splits into the command and the rest: at the first
/// space, or before the last character when there is none.
pub open spec fn split_index(s: Seq<char>) -> int {
    match find_char(s, ' ') {
        Some(i) => i,
        None => s.len() - 1,
    }
}

/// The command word of a command line.
pub open spec fn command_of(s: Seq<char>) -> Seq<char> {
    s.take(split_index(s))
}

/// What follows the command word, from the split on.
pub open spec fn rest_of(s: Seq<char>) -> Seq<char> {
    s.skip(split_index(s))
}

/// The argument of a command: the rest without its first and last
/// character (the space after the command and the line end).
pub open spec fn argument_of(s: Seq<char>) -> Seq<char> {
    rest_of(s).subrange(1, rest_of(s).len() - 1)
}

/// The commands that take an argument.
pub open spec fn takes_argument(cmd: Seq<char>) -> bool {
    cmd == "/tell"@ || cmd == "/ban"@ || cmd == "/unban"@ || cmd == "/kick"@
}

/// The lines on which the handler cannot cut the text where it means to
/// (a cut inside a character, or a slice that ends before it starts), and
/// so gives up on the connection: a command line without a space whose
/// last character takes more than one byte, or a command that takes an
/// argument with fewer than two characters after the command word or whose
/// last character takes more than one byte.
pub open spec fn spec_line_panics(s: Seq<char>) -> bool {
    &&& s.len() > 0
    &&& s[0] == '/'
    &&& {
        ||| find_char(s, ' ') is None && !is_ascii_char(s.last())
        ||| takes_argument(command_of(s)) && (rest_of(s).len() < 2 || !is_ascii_char(s.last()))
    }
}

/// What `/tell` with argument `arg` from `u` becomes: a direct message to
/// the first word, or a note from the server to `u` when there is only one
/// word.
pub open spec fn spec_tell_command(u: Seq<char>, arg: Seq<char>) -> MessageView {
    match find_char(arg, ' ') {
        Some(i) => MessageView::DirectMessage {
            from: u,
            to: arg.take(i),
            contents: arg.skip(i + 1),
        },
        None => MessageView::DirectMessage {
            from: "Server"@,
            to: u,
            contents: "Invalid /tell format"@,
        },
    }
}

/// The messages a command line `s` from `u` becomes.
pub open spec fn spec_command_messages(u: Seq<char>, s: Seq<char>) -> Seq<MessageView> {
    let cmd = command_of(s);
    let arg = argument_of(s);
    if cmd == "/help"@ {
        seq![MessageView::Help(u)]
    } else if cmd == "/tell"@ {
        seq![spec_tell_command(u, arg)]
    } else if cmd == "/motd"@ {
        seq![MessageView::Motd(u)]
    } else if cmd == "/exit"@ {
        seq![MessageView::Exit(u)]
    } else if cmd == "/ban"@ {
        seq![MessageView::Ban(u, arg), MessageView::Kick(u, arg)]
    } else if cmd == "/unban"@ {
        seq![MessageView::Unban(u, arg)]
    } else if cmd == "/kick"@ {
        seq![MessageView::Kick(u, arg)]
    } else if cmd == "/me"@ {
        seq![MessageView::Me(u)]
    } else if cmd == "/who"@ {
        seq![MessageView::Who(u)]
    } else {
        Seq::empty()
    }
}

/// What the handler does with one line.
pub struct StepView {
    /// The messages for the server, in order.
    pub messages: Seq<MessageView>,
    /// The text the handler prints to its log afterwards, if it goes on.
    pub echo: Option<Seq<char>>,
    /// Whether the handler stops reading from this client.
    pub stop: bool,
}

/// What the handler of user `u` does with line `s` (as read, with its line
/// end; empty when the client has gone), given whether the client was
/// found to send too fast.
pub open spec fn spec_step(u: Seq<char>, s: Seq<char>, spam: bool) -> StepView {
    if s.len() == 0 {
        StepView { messages: seq![MessageView::Exit(u)], echo: None, stop: true }
    } else if spam {
        StepView { messages: seq![MessageView::Spam(u)], echo: Some(s), stop: false }
    } else if s[0] == '/' {
        if command_of(s) == "/exit"@ {
            StepView { messages: seq![MessageView::Exit(u)], echo: None, stop: true }
        } else {
            StepView {
                messages: spec_command_messages(u, s),
                echo: Some(command_of(s)),
                stop: false,
            }
        }
    } else {
        StepView { messages: seq![MessageView::Chat(u, s)], echo: Some(s), stop: false }
    }
}

/// What the handler does with one line.
#[derive(Debug, PartialEq, Eq)]
pub struct ConnectionStep {
    /// The messages for the server, in order.
    pub messages: Vec<Message>,
    /// The text to print to the log afterwards, if the handler goes on.
    pub echo: Option<String>,
    /// Whether the handler stops reading from this client.
    pub stop: bool,
}

impl View for ConnectionStep {
    type V = StepView;

    open spec fn view(&self) -> StepView {
        StepView {
            messages: self.messages@.map_values(|m: Message| m@),
            echo: match self.echo {
                Some(e) => Some(e@),
                None => None,
            },
            stop: self.stop,
        }
    }
}

/// Whether the handler gives up on line `line` (see [`spec_line_panics`]).
pub fn line_panics(line: &str) -> (b: bool)
    ensures
        b == spec_line_panics(line@),
{
    let n = line.unicode_len();
    if n == 0 || line.get_char(0) != '/' {
        return false;
    }
    let last_ascii = is_ascii_char_exec(line.get_char(n - 1));
    let space = find_char_in(line, ' ');
    let idx = match space {
        Some(i) => i,
        None => n - 1,
    };
    if space.is_none() && !last_ascii {
        return true;
    }
    let cmd = substring(line, 0, idx);
    assert(cmd@ == command_of(line@));
    let arg_cmd = same_text(&cmd, "/tell") || same_text(&cmd, "/ban") || same_text(&cmd, "/unban")
        || same_text(&cmd, "/kick");
    arg_cmd && (n - idx < 2 || !last_ascii)
}

/// The messages for a command line, appended to `out`.
fn command_messages(username: &str, line: &str, out: &mut Vec<Message>)
    requires
        line@.len() > 0,
        line@[0] == '/',
        !spec_line_panics(line@),
    ensures
        final(out)@.map_values(|m: Message| m@) == old(out)@.map_values(|m: Message| m@)
            + spec_command_messages(username@, line@),
{
    let ghost start = old(out)@.map_values(|m: Message| m@);
    let ghost u = username@;
    let ghost s = line@;
    let n = line.unicode_len();
    let idx = match find_char_in(line, ' ') {
        Some(i) => i,
        None => n - 1,
    };
    let cmd = substring(line, 0, idx);
    assert(cmd@ == command_of(s));
    let user = String::from_str(username);
    let takes_arg = same_text(&cmd, "/tell") || same_text(&cmd, "/ban") || same_text(
        &cmd,
        "/unban",
    ) || same_text(&cmd, "/kick");
    let mut arg = String::new();
    if takes_arg {
        let rest = line.substring_char(idx, n);
        assert(rest@ =~= rest_of(s));
        let rn = rest.unicode_len();
        arg = substring(rest, 1, rn - 1);
        assert(arg@ == argument_of(s));
    }
    let ghost before = out@.map_values(|m: Message| m@);
    if same_text(&cmd, "/help") {
        out.push(Message::Help(user));
    } else if same_text(&cmd, "/tell") {
        let m = match find_char_in(&arg, ' ') {
            Some(i) => {
                let an = arg.unicode_len();
                tell(
                    username,
                    arg.as_str().substring_char(0, i),
                    arg.as_str().substring_char(i + 1, an),
                )
            },
            None => tell("Server", username, "Invalid /tell format"),
        };
        assert(m@ == spec_tell_command(u, arg@));
        out.push(m);
    } else if same_text(&cmd, "/motd") {
        out.push(Message::Motd(user));
    } else if same_text(&cmd, "/exit") {
        out.push(Message::Exit(user));
    } else if same_text(&cmd, "/ban") {
        out.push(Message::Ban(user.clone(), arg.clone()));
        out.push(Message::Kick(user, arg));
    } else if same_text(&cmd, "/unban") {
        out.push(Message::Unban(user, arg));
    } else if same_text(&cmd, "/kick") {
        out.push(Message::Kick(user, arg));
    } else if same_text(&cmd, "/me") {
        out.push(Message::Me(user));
    } else if same_text(&cmd, "/who") {
        out.push(Message::Who(user));
    }
    assert(out@.map_values(|m: Message| m@) =~= start + spec_command_messages(u, s));
}

/// What the handler of user `username` does with line `line`, given
/// whether the client was found to send too fast.
pub fn connection_step(username: &str, line: &str, spam: bool) -> (st: ConnectionStep)
    requires
        spam || !spec_line_panics(line@),
    ensures
        st@ == spec_step(username@, line@, spam),
{
    let n = line.unicode_len();
    let mut messages: Vec<Message> = Vec::new();
    if n == 0 {
        messages.push(Message::Exit(String::from_str(username)));
        let st = ConnectionStep { messages, echo: None, stop: true };
        assert(st@.messages =~= spec_step(username@, line@, spam).messages);
        return st;
    }
    if spam {
        messages.push(Message::Spam(String::from_str(username)));
        let st = ConnectionStep { messages, echo: Some(String::from_str(line)), stop: false };
        assert(st@.messages =~= spec_step(username@, line@, spam).messages);
        return st;
    }
    if line.get_char(0) == '/' {
        let idx = match find_char_in(line, ' ') {
            Some(i) => i,
            None => n - 1,
        };
        let cmd = substring(line, 0, idx);
        assert(cmd@ == command_of(line@));
        if same_text(&cmd, "/exit") {
            messages.push(Message::Exit(String::from_str(username)));
            let st = ConnectionStep { messages, echo: None, stop: true };
            assert(st@.messages =~= spec_step(username@, line@, spam).messages);
            return st;
        }
        assert(messages@.map_values(|m: Message| m@) =~= Seq::<MessageView>::empty());
        command_messages(username, line, &mut messages);
        let st = ConnectionStep { messages, echo: Some(cmd), stop: false };
        assert(st@.messages =~= spec_step(username@, line@, spam).messages);
        st
    } else {
        messages.push(Message::Chat(String::from_str(username), String::from_str(line)));
        let st = ConnectionStep { messages, echo: Some(String::from_str(line)), stop: false };
        assert(st@.messages =~= spec_step(username@, line@, spam).messages);
        st
    }
}

/// The handler of one client's connection: whose it is, and the counter
/// that finds out whether the client sends too fast.
pub struct ConnectionHandler {
    username: String,
    timeout: TimeoutCounter,
}

impl ConnectionHandler {
    /// The user this handler serves.
    pub closed spec fn username(&self) -> Seq<char> {
        self.username@
    }

    /// The state of the spam counter.
    pub closed spec fn timeout(&self) -> CounterView {
        self.timeout@
    }

    /// The moment the spam counter's times count from.
    pub closed spec fn clock_origin(&self) -> Instant {
        self.timeout.origin()
    }

    /// A handler for `username`, with a fresh spam counter: `SPAM_MAX_LINES`
    /// lines within `SPAM_WINDOW` seconds hold the client back for
    /// `SPAM_DELAY` seconds.
    pub fn new(username: String) -> (h: Self)
        ensures
            h.username() == username@,
            h.timeout().attempts.len() == 0,
            h.timeout().max_attempts == SPAM_MAX_LINES,
            h.timeout().clear_time is None,
            h.timeout().penalty_delay == SPAM_DELAY,
            h.timeout().window_size == SPAM_WINDOW,
    {
        ConnectionHandler {
            username,
            timeout: TimeoutCounter::new(SPAM_MAX_LINES, SPAM_DELAY, SPAM_WINDOW),
        }
    }

    /// Handles one line as read from the client (empty when the client
    /// has gone), at given times in nanoseconds since the spam counter was
    /// made: a non-empty line is first counted at `t_mark`, then the
    /// counter is asked at `t_check` whether the client sends too fast.
    /// Answers `None` on a line on which the handler gives up (see
    /// [`spec_line_panics`]).
    pub fn on_line_at(&mut self, line: &str, t_mark: u128, t_check: u128) -> (r: Option<
        ConnectionStep,
    >)
        ensures
            final(self).username() == old(self).username(),
            final(self).clock_origin() == old(self).clock_origin(),
            line@.len() == 0 ==> final(self).timeout() == old(self).timeout() && (r matches Some(
                st,
            ) && st@ == spec_step(old(self).username(), line@, false)),
            line@.len() > 0 ==> ({
                let (c, spam) = spec_triggered(spec_mark(old(self).timeout(), t_mark), t_check);
                &&& final(self).timeout() == c
                &&& if !spam && spec_line_panics(line@) {
                    r is None
                } else {
                    (r matches Some(st) && st@ == spec_step(old(self).username(), line@, spam))
                }
            }),
    {
        let n = line.unicode_len();
        if n == 0 {
            return Some(connection_step(self.username.as_str(), line, false));
        }
        self.timeout.mark_at(t_mark);
        let spam = self.timeout.triggered_at(t_check);
        if !spam && line_panics(line) {
            None
        } else {
            Some(connection_step(self.username.as_str(), line, spam))
        }
    }

    /// Handles one line as read from the client (empty when the client
    /// has gone), as [`ConnectionHandler::on_line_at`] does, reading the
    /// clock for the times: first for counting the line, then for the
    /// check (an empty line reads no clock).
    pub fn on_line(&mut self, line: &str) -> (r: Option<ConnectionStep>)
        ensures
            final(self).username() == old(self).username(),
            final(self).clock_origin() == old(self).clock_origin(),
            line@.len() == 0 ==> final(self).timeout() == old(self).timeout() && (r matches Some(
                st,
            ) && st@ == spec_step(old(self).username(), line@, false)),
            line@.len() > 0 ==> exists|t1: u128, t2: u128|
                {
                    let (c, spam) = #[trigger] spec_triggered(
                        spec_mark(old(self).timeout(), t1),
                        t2,
                    );
                    &&& final(self).timeout() == c
                    &&& if !spam && spec_line_panics(line@) {
                        r is None
                    } else {
                        (r matches Some(st) && st@ == spec_step(old(self).username(), line@, spam))
                    }
                },
    {
        let n = line.unicode_len();
        if n == 0 {
            return self.on_line_at(line, 0, 0);
        }
        let t_mark = self.timeout.elapsed_nanos();
        let t_check = self.timeout.elapsed_nanos();
        let r = self.on_line_at(line, t_mark, t_check);
        assert(spec_triggered(spec_mark(old(self).timeout(), t_mark), t_check) == (
            self.timeout(),
            spec_triggered(spec_mark(old(self).timeout(), t_mark), t_check).1,
        ));
        r
    }
}

/// Only a step that stops sends `Exit`, and it sends nothing else.
pub proof fn lemma_step_exit(u: Seq<char>, s: Seq<char>, spam: bool)
    ensures
        spec_step(u, s, spam).stop ==> spec_step(u, s, spam).messages == seq![
            MessageView::Exit(u),
        ],
        !spec_step(u, s, spam).stop ==> forall|i: int|
            0 <= i < spec_step(u, s, spam).messages.len() ==> !(
            #[trigger] spec_step(u, s, spam).messages[i] is Exit),
{
}

/// The messages a connection of user `u` sends for the lines `lines` it
/// reads, where `spams[i]` says whether line `i` was found to be sent too
/// fast: each step's messages in turn, up to and including the first step
/// that stops (nothing after it is read).
pub open spec fn spec_session(u: Seq<char>, lines: Seq<Seq<char>>, spams: Seq<bool>) -> Seq<
    MessageView,
>
    decreases lines.len(),
{
    if lines.len() == 0 || spams.len() == 0 {
        Seq::empty()
    } else {
        let st = spec_step(u, lines[0], spams[0]);
        if st.stop {
            st.messages
        } else {
            st.messages + spec_session(u, lines.drop_first(), spams.drop_first())
        }
    }
}

/// Whether one of the lines stops the connection (the client has gone, or
/// sent `/exit` while not held back as spam).
pub open spec fn spec_session_stops(u: Seq<char>, lines: Seq<Seq<char>>, spams: Seq<bool>) -> bool
    decreases lines.len(),
{
    lines.len() > 0 && spams.len() > 0 && (spec_step(u, lines[0], spams[0]).stop
        || spec_session_stops(u, lines.drop_first(), spams.drop_first()))
}

/// A connection says goodbye once: when it stops, the last message it has
/// sent is `Exit` for its user and no earlier message is an `Exit`; while it
/// has not stopped, it has sent no `Exit` at all.
pub proof fn lemma_session_exits_once(u: Seq<char>, lines: Seq<Seq<char>>, spams: Seq<bool>)
    ensures
        spec_session_stops(u, lines, spams) ==> {
            let m = spec_session(u, lines, spams);
            &&& m.len() > 0
            &&& m.last() == MessageView::Exit(u)
            &&& forall|i: int| 0 <= i < m.len() - 1 ==> !(#[trigger] m[i] is Exit)
        },
        !spec_session_stops(u, lines, spams) ==> forall|i: int|
            0 <= i < spec_session(u, lines, spams).len() ==> !(
            #[trigger] spec_session(u, lines, spams)[i] is Exit),
    decreases lines.len(),
{
    if lines.len() > 0 && spams.len() > 0 {
        let st = spec_step(u, lines[0], spams[0]);
        lemma_step_exit(u, lines[0], spams[0]);
        if !st.stop {
            let rest_lines = lines.drop_first();
            let rest_spams = spams.drop_first();
            lemma_session_exits_once(u, rest_lines, rest_spams);
            let r = spec_session(u, rest_lines, rest_spams);
            let m = spec_session(u, lines, spams);
            assert(m == st.messages + r);
            assert forall|i: int| 0 <= i < m.len() && i < st.messages.len() implies !(
            #[trigger] m[i] is Exit) by {
                assert(m[i] == st.messages[i]);
            }
            assert forall|i: int|
                st.messages.len() <= i < m.len() implies m[i] == r[i - st.messages.len()] by {}
        }
    }
}

/// Plain lines: an empty line means the client has gone (one `Exit`, then
/// stop, nothing printed); a line held back as spam becomes one `Spam`
/// notice and is printed whole; any other line that does not start with
/// `/` is one chat message carrying the whole line, printed whole.
pub proof fn lemma_plain_lines(u: Seq<char>, s: Seq<char>, spam: bool)
    ensures
        s.len() == 0 ==> spec_step(u, s, spam) == (StepView {
            messages: seq![MessageView::Exit(u)],
            echo: None,
            stop: true,
        }),
        s.len() > 0 && spam ==> spec_step(u, s, spam) == (StepView {
            messages: seq![MessageView::Spam(u)],
            echo: Some(s),
            stop: false,
        }),
        s.len() > 0 && !spam && s[0] != '/' ==> spec_step(u, s, spam) == (StepView {
            messages: seq![MessageView::Chat(u, s)],
            echo: Some(s),
            stop: false,
        }),
{
}

/// `/tell`: the line `/tell to contents` (with its line end), where `to`
/// holds no space, becomes one direct message from the sender to `to`
/// carrying `contents`, and the handler prints `/tell`.
pub proof fn lemma_tell_line(u: Seq<char>, to: Seq<char>, contents: Seq<char>)
    requires
        !to.contains(' '),
    ensures
        ({
            let line = "/tell "@ + to + " "@ + contents + "\n"@;
            spec_step(u, line, false) == StepView {
                messages: seq![
                    MessageView::DirectMessage { from: u, to: to, contents: contents },
                ],
                echo: Some("/tell"@),
                stop: false,
            }
        }),
{
    reveal_strlit("/tell ");
    reveal_strlit("/tell");
    reveal_strlit(" ");
    reveal_strlit("\n");
    reveal_strlit("/exit");
    reveal_strlit("/help");
    let line = "/tell "@ + to + " "@ + contents + "\n"@;
    assert(line[0] == '/');
    assert(line[5] == ' ');
    assert(is_first(line, ' ', 5));
    lemma_first_unique(line, ' ', 5);
    assert(command_of(line) =~= "/tell"@);
    assert("/tell"@[1] == 't' && "/exit"@[1] == 'e' && "/help"@[1] == 'h');
    assert("/tell"@ != "/exit"@);
    assert("/tell"@ != "/help"@);
    let arg = argument_of(line);
    assert(arg =~= to + " "@ + contents);
    let i = to.len() as int;
    assert(arg[i] == ' ');
    assert forall|j: int| 0 <= j < i implies arg[j] != ' ' by {
        assert(arg[j] == to[j]);
    }
    assert(is_first(arg, ' ', i));
    lemma_first_unique(arg, ' ', i);
    assert(arg.take(i) =~= to);
    assert(arg.skip(i + 1) =~= contents);
}

} // verus!
