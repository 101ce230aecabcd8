//! The server's state machine: the messages the connection handlers send
//! it, the state it keeps, and the actions (writes to sockets, changes to
//! the ban list) that each message causes.
use crate::users::{
    admin_of, get_admin, has_user, ids_of, index_of, lemma_admin_is_lowest, lemma_min_index,
    min_index, names_of, spec_insert, spec_remove, unique_names, UserData, UserList, UsersView,
};
use vstd::prelude::*;

verus! {

/// The text `/help` answers with.
pub const COMMAND_TEXT: &'static str = "AVAILABLE COMMANDS:
    /who - Diplsays list of all users
    /exit - Disconnects from server and quit client
    /tell user message - Sends direct message to specified chat
    /motd - Diplsays message of the day
    /me - Display emote message
    /help - Display commands... You did it!
    /block user - Prevents user from recieving message from specified user
    /unblock user - Allow user to unblock previously blocked user

    ADMIN ONLY COMMANDS
    /kick user - Kick user from server
    /ban user - Immediately kicks user from server and dissallows reconnection
    /unban user - Removes ban on specified user";

/// The text a user who sends too fast is told.
pub const SPAM_TEXT: &'static str =
    "Too many messages sent too quickly. Please wait 20 seconds before sending again.";

/// The text a user who is not the admin is told when trying an admin command.
pub const NOT_ADMIN_TEXT: &'static str = "You are not the admin";

/// The text a second login under a name that is in use is told.
pub const NAME_IN_USE_TEXT: &'static str = "This name is already in use";

/// What the connection handlers tell the server.
#[derive(Debug, PartialEq, Eq)]
pub enum Message {
    /// (banner, bannee)
    Ban(String, String),
    /// (sender, contents)
    Chat(String, String),
    /// A message for one user.
    DirectMessage { from: String, to: String, contents: String },
    /// (username)
    Exit(String),
    /// (kicker, kickee)
    Kick(String, String),
    /// (username); the connection itself travels beside the message.
    Login(String),
    /// (username)
    Motd(String),
    /// (username)
    Help(String),
    /// (username)
    Spam(String),
    /// (banner, bannee)
    Unban(String, String),
    /// (username)
    Me(String),
    /// (username)
    Who(String),
}

/// A [`Message`] with its strings as character sequences.
pub enum MessageView {
    Ban(Seq<char>, Seq<char>),
    Chat(Seq<char>, Seq<char>),
    DirectMessage { from: Seq<char>, to: Seq<char>, contents: Seq<char> },
    Exit(Seq<char>),
    Kick(Seq<char>, Seq<char>),
    Login(Seq<char>),
    Motd(Seq<char>),
    Help(Seq<char>),
    Spam(Seq<char>),
    Unban(Seq<char>, Seq<char>),
    Me(Seq<char>),
    Who(Seq<char>),
}

impl View for Message {
    type V = MessageView;

    open spec fn view(&self) -> MessageView {
        match self {
            Message::Ban(a, b) => MessageView::Ban(a@, b@),
            Message::Chat(a, b) => MessageView::Chat(a@, b@),
            Message::DirectMessage { from, to, contents } => MessageView::DirectMessage {
                from: from@,
                to: to@,
                contents: contents@,
            },
            Message::Exit(a) => MessageView::Exit(a@),
            Message::Kick(a, b) => MessageView::Kick(a@, b@),
            Message::Login(a) => MessageView::Login(a@),
            Message::Motd(a) => MessageView::Motd(a@),
            Message::Help(a) => MessageView::Help(a@),
            Message::Spam(a) => MessageView::Spam(a@),
            Message::Unban(a, b) => MessageView::Unban(a@, b@),
            Message::Me(a) => MessageView::Me(a@),
            Message::Who(a) => MessageView::Who(a@),
        }
    }
}

/// What the server asks of the program around it, in order.
#[derive(Debug, PartialEq, Eq)]
pub enum Action {
    /// Write `text` and a newline to the socket of the logged-in user `to`.
    Send { to: String, text: String },
    /// Write `text` and a newline to the connection that is logging in.
    Refuse { text: String },
    /// Shut down, both ways, the connection that is logging in.
    ShutdownNewcomer,
    /// Keep the connection that is logging in as the socket of this user,
    /// in place of any earlier one.
    Register(String),
    /// Shut down, both ways, the socket of this user and forget it.
    Disconnect(String),
    /// Add this name to the ban list.
    BanUser(String),
    /// Remove this name from the ban list.
    UnbanUser(String),
    /// Read the message of the day from disk.
    LoadMotd,
    /// Write the message of the day, as read, to the socket of this user.
    SendMotd(String),
}

/// An [`Action`] with its strings as character sequences.
pub enum ActionView {
    Send { to: Seq<char>, text: Seq<char> },
    Refuse { text: Seq<char> },
    ShutdownNewcomer,
    Register(Seq<char>),
    Disconnect(Seq<char>),
    BanUser(Seq<char>),
    UnbanUser(Seq<char>),
    LoadMotd,
    SendMotd(Seq<char>),
}

impl View for Action {
    type V = ActionView;

    open spec fn view(&self) -> ActionView {
        match self {
            Action::Send { to, text } => ActionView::Send { to: to@, text: text@ },
            Action::Refuse { text } => ActionView::Refuse { text: text@ },
            Action::ShutdownNewcomer => ActionView::ShutdownNewcomer,
            Action::Register(a) => ActionView::Register(a@),
            Action::Disconnect(a) => ActionView::Disconnect(a@),
            Action::BanUser(a) => ActionView::BanUser(a@),
            Action::UnbanUser(a) => ActionView::UnbanUser(a@),
            Action::LoadMotd => ActionView::LoadMotd,
            Action::SendMotd(a) => ActionView::SendMotd(a@),
        }
    }
}

/// The views of a sequence of actions.
pub open spec fn views(acts: Seq<Action>) -> Seq<ActionView> {
    acts.map_values(|a: Action| a@)
}

/// `text` sent to every logged-in user, in list order.
pub open spec fn spec_broadcast(users: UsersView, text: Seq<char>) -> Seq<ActionView> {
    users.map_values(|u: (Seq<char>, i32)| ActionView::Send { to: u.0, text: text })
}

/// `text` sent to `name` if it is logged in; nothing otherwise.
pub open spec fn spec_reply(users: UsersView, name: Seq<char>, text: Seq<char>) -> Seq<
    ActionView,
> {
    if has_user(users, name) {
        seq![ActionView::Send { to: name, text: text }]
    } else {
        Seq::empty()
    }
}

/// Whether `username` is the admin, and what is sent on the way: a user
/// who is logged in but not the admin is told so.
pub open spec fn spec_is_admin(users: UsersView, username: Seq<char>) -> (bool, Seq<ActionView>) {
    match admin_of(users) {
        Some(a) => {
            if a == username {
                (true, Seq::empty())
            } else {
                (false, spec_reply(users, username, NOT_ADMIN_TEXT@))
            }
        },
        None => (false, Seq::empty()),
    }
}

/// The line a direct message is delivered as.
pub open spec fn tell_text(from: Seq<char>, contents: Seq<char>) -> Seq<char> {
    from + " tells you: "@ + contents
}

/// A saved direct message: (from, to, contents).
pub type SavedView = (Seq<char>, Seq<char>, Seq<char>);

/// The abstract state of the server.
#[verifier::ext_equal]
pub struct ServerView {
    /// The logged-in users.
    pub users: UsersView,
    /// The number the next login gets.
    pub next_id: int,
    /// Direct messages for users who were not logged in, in arrival order.
    pub saved: Seq<SavedView>,
}

/// The numbers are distinct, and below the next number to be given.
pub open spec fn view_wf(s: ServerView) -> bool {
    &&& unique_names(s.users)
    &&& 0 <= s.next_id <= i32::MAX
    &&& forall|i: int| 0 <= i < s.users.len() ==> 0 <= #[trigger] s.users[i].1 < s.next_id
    &&& forall|i: int, j: int|
        0 <= i < s.users.len() && 0 <= j < s.users.len() && i != j ==> #[trigger] s.users[i].1
            != #[trigger] s.users[j].1
}

/// Whether a saved message is for `name`.
pub open spec fn is_for(name: Seq<char>) -> spec_fn(SavedView) -> bool {
    |d: SavedView| d.1 == name
}

/// Whether a saved message is for someone other than `name`.
pub open spec fn is_not_for(name: Seq<char>) -> spec_fn(SavedView) -> bool {
    |d: SavedView| d.1 != name
}

/// The deliveries of saved messages to `name`, who just logged in.
pub open spec fn deliveries(saved: Seq<SavedView>, name: Seq<char>) -> Seq<ActionView> {
    saved.filter(is_for(name)).map_values(
        |d: SavedView| ActionView::Send { to: name, text: tell_text(d.0, d.2) },
    )
}

/// What the server does with one message: its next state and its actions.
///
/// A login under a name that is already in use tells the newcomer that the
/// name is taken and shuts the newcomer's connection down, but the login
/// still goes through: it is announced to everyone, and the newcomer's
/// (closed) connection takes the place of the earlier one, with a new
/// number. Nothing returns early after the refusal; the earlier connection
/// keeps reading but no longer receives anything.
pub open spec fn spec_handle(s: ServerView, m: MessageView) -> (ServerView, Seq<ActionView>) {
    match m {
        MessageView::Chat(u, msg) => (s, spec_broadcast(s.users, u + ": "@ + msg)),
        MessageView::Me(u) => (s, spec_broadcast(s.users, u + " says hi"@)),
        MessageView::Login(u) => {
            let refuse = if has_user(s.users, u) {
                seq![ActionView::Refuse { text: NAME_IN_USE_TEXT@ }, ActionView::ShutdownNewcomer]
            } else {
                Seq::empty()
            };
            let next = ServerView {
                users: spec_insert(s.users, u, s.next_id as i32),
                next_id: s.next_id + 1,
                saved: s.saved.filter(is_not_for(u)),
            };
            (
                next,
                refuse + spec_broadcast(s.users, u + " has connected"@) + seq![
                    ActionView::Register(u),
                ] + deliveries(s.saved, u),
            )
        },
        MessageView::DirectMessage { from, to, contents } => {
            if has_user(s.users, to) {
                (s, seq![ActionView::Send { to: to, text: tell_text(from, contents) }])
            } else {
                (ServerView { saved: s.saved.push((from, to, contents)), ..s }, Seq::empty())
            }
        },
        MessageView::Exit(u) => {
            let users = spec_remove(s.users, u);
            let close = if has_user(s.users, u) {
                seq![ActionView::Disconnect(u)]
            } else {
                Seq::empty()
            };
            (ServerView { users: users, ..s }, close + spec_broadcast(users, u + " has exited."@))
        },
        MessageView::Motd(u) => (
            s,
            seq![ActionView::LoadMotd] + if has_user(s.users, u) {
                seq![ActionView::SendMotd(u)]
            } else {
                Seq::empty()
            },
        ),
        MessageView::Help(u) => (s, spec_reply(s.users, u, COMMAND_TEXT@)),
        MessageView::Spam(u) => (s, spec_reply(s.users, u, SPAM_TEXT@)),
        MessageView::Ban(b, e) => {
            let (ok, told) = spec_is_admin(s.users, b);
            if ok {
                (
                    s,
                    told + seq![ActionView::BanUser(e)] + spec_broadcast(
                        s.users,
                        e + " has been banned."@,
                    ),
                )
            } else {
                (s, told)
            }
        },
        MessageView::Unban(b, e) => {
            let (ok, told) = spec_is_admin(s.users, b);
            if ok {
                (
                    s,
                    told + seq![ActionView::UnbanUser(e)] + spec_broadcast(
                        s.users,
                        e + " has been unbanned."@,
                    ),
                )
            } else {
                (s, told)
            }
        },
        MessageView::Who(u) => {
            if has_user(s.users, u) {
                (
                    s,
                    s.users.map_values(
                        |p: (Seq<char>, i32)| ActionView::Send { to: u, text: p.0 },
                    ),
                )
            } else {
                (s, Seq::empty())
            }
        },
        MessageView::Kick(k, e) => {
            let (ok, told) = spec_is_admin(s.users, k);
            if ok && has_user(s.users, e) {
                (
                    ServerView { users: spec_remove(s.users, e), ..s },
                    told + seq![ActionView::Disconnect(e)],
                )
            } else {
                (s, told)
            }
        },
    }
}

/// `a`, `b` and `c` one after the other.
fn concat3(a: &str, b: &str, c: &str) -> (r: String)
    ensures
        r@ == a@ + b@ + c@,
{
    let mut r = String::from_str(a);
    r.append(b);
    r.append(c);
    r
}

/// Appends a `Send` of `text` to every logged-in user, in list order.
fn broadcast(users: &UserList, text: &String, actions: &mut Vec<Action>)
    ensures
        views(final(actions)@) == views(old(actions)@) + spec_broadcast(users@, text@),
{
    let names = users.names();
    assert(names@.map_values(|s: String| s@).len() == names_of(users@).len());
    let ghost start = views(actions@);
    let mut i: usize = 0;
    while i < names.len()
        invariant
            i <= names.len(),
            names@.map_values(|s: String| s@) == names_of(users@),
            names@.len() == users@.len(),
            views(actions@) =~= start + spec_broadcast(users@, text@).take(i as int),
        decreases names.len() - i,
    {
        let ghost before = actions@;
        assert(names@.map_values(|s: String| s@)[i as int] == names_of(users@)[i as int]);
        actions.push(Action::Send { to: names[i].clone(), text: text.clone() });
        assert(views(actions@) =~= views(before).push(spec_broadcast(users@, text@)[i as int]));
        assert(spec_broadcast(users@, text@).take(i as int + 1) =~= spec_broadcast(
            users@,
            text@,
        ).take(i as int).push(spec_broadcast(users@, text@)[i as int]));
        i = i + 1;
    }
    assert(spec_broadcast(users@, text@).take(i as int) =~= spec_broadcast(users@, text@));
}

/// Appends a `Send` of `text` to `name` if it is logged in.
fn reply(users: &UserList, name: &String, text: String, actions: &mut Vec<Action>)
    ensures
        views(final(actions)@) == views(old(actions)@) + spec_reply(users@, name@, text@),
{
    let ghost start = actions@;
    if users.contains_key(name) {
        actions.push(Action::Send { to: name.clone(), text });
        assert(views(actions@) =~= views(start) + spec_reply(users@, name@, text@));
    } else {
        assert(views(actions@) =~= views(start) + spec_reply(users@, name@, text@));
    }
}

/// Checks that `username` is the admin of the server; a logged-in user who
/// is not is told so through `actions`.
pub fn is_admin(username: &str, user_list: &UserList, actions: &mut Vec<Action>) -> (b: bool)
    ensures
        b == spec_is_admin(user_list@, username@).0,
        views(final(actions)@) == views(old(actions)@) + spec_is_admin(user_list@, username@).1,
{
    let ghost start = actions@;
    match get_admin(user_list) {
        Some(user) => {
            let name = username.to_owned();
            if user == name {
                assert(views(actions@) =~= views(start) + Seq::<ActionView>::empty());
                true
            } else {
                reply(user_list, &name, String::from_str(NOT_ADMIN_TEXT), actions);
                false
            }
        },
        None => {
            assert(views(actions@) =~= views(start) + Seq::<ActionView>::empty());
            false
        },
    }
}

/// Builds a direct message from `from` to `to`.
pub fn tell(from: &str, to: &str, contents: &str) -> (m: Message)
    ensures
        m@ == (MessageView::DirectMessage { from: from@, to: to@, contents: contents@ }),
{
    let from = String::from_str(from);
    let to = String::from_str(to);
    let contents = String::from_str(contents);
    Message::DirectMessage { from, to, contents }
}

/// `a` followed by `b`.
fn concat2(a: &str, b: &str) -> (r: String)
    ensures
        r@ == a@ + b@,
{
    let mut r = String::from_str(a);
    r.append(b);
    r
}

/// A saved direct message with its strings as character sequences.
pub open spec fn saved_view(d: (String, String, String)) -> SavedView {
    (d.0@, d.1@, d.2@)
}

/// Logging in keeps the state well formed.
proof fn lemma_insert_wf(s: ServerView, u: Seq<char>)
    requires
        view_wf(s),
        s.next_id < i32::MAX,
        unique_names(spec_insert(s.users, u, s.next_id as i32)),
    ensures
        view_wf(
            ServerView {
                users: spec_insert(s.users, u, s.next_id as i32),
                next_id: s.next_id + 1,
                saved: s.saved.filter(is_not_for(u)),
            },
        ),
{
    let users = spec_insert(s.users, u, s.next_id as i32);
    if has_user(s.users, u) {
        let k = index_of(s.users, u);
        assert forall|i: int| 0 <= i < users.len() implies 0 <= #[trigger] users[i].1 < s.next_id
            + 1 by {
            if i != k {
                assert(users[i] == s.users[i]);
            }
        }
        assert forall|i: int, j: int|
            0 <= i < users.len() && 0 <= j < users.len() && i != j implies #[trigger] users[i].1
            != #[trigger] users[j].1 by {
            if i != k && j != k {
                assert(users[i] == s.users[i]);
                assert(users[j] == s.users[j]);
            } else if i == k {
                assert(users[j] == s.users[j]);
            } else {
                assert(users[i] == s.users[i]);
            }
        }
    } else {
        let n = s.users.len() as int;
        assert forall|i: int| 0 <= i < users.len() implies 0 <= #[trigger] users[i].1 < s.next_id
            + 1 by {
            if i < n {
                assert(users[i] == s.users[i]);
            }
        }
        assert forall|i: int, j: int|
            0 <= i < users.len() && 0 <= j < users.len() && i != j implies #[trigger] users[i].1
            != #[trigger] users[j].1 by {
            if i < n && j < n {
                assert(users[i] == s.users[i]);
                assert(users[j] == s.users[j]);
            } else if i < n {
                assert(users[i] == s.users[i]);
            } else {
                assert(users[j] == s.users[j]);
            }
        }
    }
}

/// Logging out keeps the state well formed.
proof fn lemma_remove_wf(s: ServerView, u: Seq<char>)
    requires
        view_wf(s),
        unique_names(spec_remove(s.users, u)),
    ensures
        view_wf(ServerView { users: spec_remove(s.users, u), ..s }),
{
    let users = spec_remove(s.users, u);
    if has_user(s.users, u) {
        let k = index_of(s.users, u);
        assert forall|i: int| 0 <= i < users.len() implies 0 <= #[trigger] users[i].1
            < s.next_id by {
            if i < k {
                assert(users[i] == s.users[i]);
            } else {
                assert(users[i] == s.users[i + 1]);
            }
        }
        assert forall|i: int, j: int|
            0 <= i < users.len() && 0 <= j < users.len() && i != j implies #[trigger] users[i].1
            != #[trigger] users[j].1 by {
            let ii = if i < k {
                i
            } else {
                i + 1
            };
            let jj = if j < k {
                j
            } else {
                j + 1
            };
            assert(users[i] == s.users[ii]);
            assert(users[j] == s.users[jj]);
        }
    }
}

/// Splits the saved messages: those for `name` are delivered through
/// `actions`, in order; the others are returned, in order.
fn deliver_saved(saved: &Vec<(String, String, String)>, name: &String, actions: &mut Vec<Action>)
    -> (kept: Vec<(String, String, String)>)
    ensures
        kept@.map_values(|d: (String, String, String)| saved_view(d)) == saved@.map_values(
            |d: (String, String, String)| saved_view(d),
        ).filter(is_not_for(name@)),
        views(final(actions)@) == views(old(actions)@) + deliveries(
            saved@.map_values(|d: (String, String, String)| saved_view(d)),
            name@,
        ),
{
    let ghost sv = saved@.map_values(|d: (String, String, String)| saved_view(d));
    let ghost start = views(actions@);
    let mut kept: Vec<(String, String, String)> = Vec::new();
    let mut i: usize = 0;
    while i < saved.len()
        invariant
            i <= saved.len(),
            sv == saved@.map_values(|d: (String, String, String)| saved_view(d)),
            kept@.map_values(|d: (String, String, String)| saved_view(d)) == sv.take(
                i as int,
            ).filter(is_not_for(name@)),
            views(actions@) == start + deliveries(sv.take(i as int), name@),
        decreases saved.len() - i,
    {
        let ghost prev = sv.take(i as int);
        let ghost next = sv.take(i as int + 1);
        assert(next.drop_last() =~= prev);
        assert(next.last() == sv[i as int]);
        assert(sv[i as int] == saved_view(saved@[i as int]));
        reveal_with_fuel(Seq::filter, 1);
        let ghost kept_before = kept@;
        let ghost acts_before = actions@;
        if saved[i].1 == *name {
            let text = concat3(&saved[i].0, " tells you: ", &saved[i].2);
            actions.push(Action::Send { to: name.clone(), text });
            assert(next.filter(is_for(name@)) == prev.filter(is_for(name@)).push(sv[i as int]));
            assert(next.filter(is_not_for(name@)) == prev.filter(is_not_for(name@)));
            assert(deliveries(next, name@) =~= deliveries(prev, name@).push(
                ActionView::Send { to: name@, text: tell_text(sv[i as int].0, sv[i as int].2) },
            ));
            assert(views(actions@) =~= views(acts_before).push(
                ActionView::Send { to: name@, text: tell_text(sv[i as int].0, sv[i as int].2) },
            ));
        } else {
            let d = (saved[i].0.clone(), saved[i].1.clone(), saved[i].2.clone());
            kept.push(d);
            assert(next.filter(is_for(name@)) == prev.filter(is_for(name@)));
            assert(next.filter(is_not_for(name@)) == prev.filter(is_not_for(name@)).push(
                sv[i as int],
            ));
            assert(kept@.map_values(|d: (String, String, String)| saved_view(d)) =~= kept_before.map_values(
                |d: (String, String, String)| saved_view(d),
            ).push(sv[i as int]));
        }
        i = i + 1;
    }
    assert(sv.take(i as int) =~= sv);
    kept
}

/// Appends a `Send` to `to` of each logged-in name, in list order.
fn send_names(users: &UserList, to: &String, actions: &mut Vec<Action>)
    ensures
        views(final(actions)@) == views(old(actions)@) + users@.map_values(
            |p: (Seq<char>, i32)| ActionView::Send { to: to@, text: p.0 },
        ),
{
    let names = users.names();
    assert(names@.map_values(|s: String| s@).len() == names_of(users@).len());
    let ghost all = users@.map_values(|p: (Seq<char>, i32)| ActionView::Send { to: to@, text: p.0 });
    let ghost start = views(actions@);
    let mut i: usize = 0;
    while i < names.len()
        invariant
            i <= names.len(),
            names@.map_values(|s: String| s@) == names_of(users@),
            names@.len() == users@.len(),
            all == users@.map_values(|p: (Seq<char>, i32)| ActionView::Send { to: to@, text: p.0 }),
            views(actions@) =~= start + all.take(i as int),
        decreases names.len() - i,
    {
        let ghost before = actions@;
        assert(names@.map_values(|s: String| s@)[i as int] == names_of(users@)[i as int]);
        actions.push(Action::Send { to: to.clone(), text: names[i].clone() });
        assert(views(actions@) =~= views(before).push(all[i as int]));
        assert(all.take(i as int + 1) =~= all.take(i as int).push(all[i as int]));
        i = i + 1;
    }
    assert(all.take(i as int) =~= all);
}

/// The server: who is logged in, the number the next login gets, and the
/// direct messages waiting for users who are not logged in.
pub struct ServerState {
    users: UserList,
    next_id: i32,
    saved: Vec<(String, String, String)>,
}

impl View for ServerState {
    type V = ServerView;

    closed spec fn view(&self) -> ServerView {
        ServerView {
            users: self.users@,
            next_id: self.next_id as int,
            saved: self.saved@.map_values(|d: (String, String, String)| saved_view(d)),
        }
    }
}

impl ServerState {
    /// The state is well formed.
    pub open spec fn wf(&self) -> bool {
        view_wf(self@)
    }

    /// A server with nobody logged in and nothing saved.
    pub fn new() -> (s: Self)
        ensures
            s.wf(),
            s@.users == UsersView::empty(),
            s@.next_id == 0,
            s@.saved == Seq::<SavedView>::empty(),
    {
        let s = ServerState { users: UserList::new(), next_id: 0, saved: Vec::new() };
        assert(s@.saved =~= Seq::<SavedView>::empty());
        s
    }

    /// The logged-in users.
    pub fn users(&self) -> (u: &UserList)
        ensures
            u@ == self@.users,
    {
        &self.users
    }

    /// The number the next login gets.
    pub fn next_user_id(&self) -> (n: i32)
        ensures
            n == self@.next_id,
    {
        self.next_id
    }

    /// Handles one message: updates the state and returns what to do, in
    /// order. A login needs a number to give, so the numbers must not be
    /// used up.
    pub fn handle(&mut self, m: Message) -> (acts: Vec<Action>)
        requires
            old(self).wf(),
            m is Login ==> old(self)@.next_id < i32::MAX,
        ensures
            final(self).wf(),
            final(self)@ == spec_handle(old(self)@, m@).0,
            views(acts@) == spec_handle(old(self)@, m@).1,
    {
        let ghost s0 = self@;
        let ghost mv = m@;
        let mut acts: Vec<Action> = Vec::new();
        assert(views(acts@) =~= Seq::<ActionView>::empty());
        match m {
            Message::Chat(u, msg) => {
                let t = concat3(&u, ": ", &msg);
                broadcast(&self.users, &t, &mut acts);
            },
            Message::Me(u) => {
                let t = concat2(&u, " says hi");
                broadcast(&self.users, &t, &mut acts);
            },
            Message::Login(u) => {
                if self.users.contains_key(&u) {
                    acts.push(Action::Refuse { text: String::from_str(NAME_IN_USE_TEXT) });
                    acts.push(Action::ShutdownNewcomer);
                }
                let ghost refuse = if has_user(s0.users, u@) {
                    seq![
                        ActionView::Refuse { text: NAME_IN_USE_TEXT@ },
                        ActionView::ShutdownNewcomer,
                    ]
                } else {
                    Seq::empty()
                };
                assert(views(acts@) =~= refuse);
                let t = concat2(&u, " has connected");
                broadcast(&self.users, &t, &mut acts);
                let ghost a2 = views(acts@);
                assert(a2 == refuse + spec_broadcast(s0.users, u@ + " has connected"@));
                self.users.insert(u.clone(), UserData { user_id: self.next_id });
                proof {
                    use_type_invariant(&self.users);
                }
                self.next_id = self.next_id + 1;
                acts.push(Action::Register(u.clone()));
                let ghost a3 = views(acts@);
                assert(a3 =~= a2.push(ActionView::Register(u@)));
                let kept = deliver_saved(&self.saved, &u, &mut acts);
                self.saved = kept;
                proof {
                    lemma_insert_wf(s0, u@);
                }
                assert(views(acts@) == a3 + deliveries(s0.saved, u@));
                assert(views(acts@) =~= spec_handle(s0, mv).1);
            },
            Message::DirectMessage { from, to, contents } => {
                if self.users.contains_key(&to) {
                    let text = concat3(&from, " tells you: ", &contents);
                    acts.push(Action::Send { to, text });
                } else {
                    let ghost before = self@.saved;
                    self.saved.push((from, to, contents));
                    assert(self@.saved =~= before.push(saved_view(self.saved@.last())));
                }
                assert(views(acts@) =~= spec_handle(s0, mv).1);
            },
            Message::Exit(u) => {
                let was = self.users.remove(&u);
                proof {
                    use_type_invariant(&self.users);
                    lemma_remove_wf(s0, u@);
                }
                if was {
                    acts.push(Action::Disconnect(u.clone()));
                }
                let t = concat2(&u, " has exited.");
                broadcast(&self.users, &t, &mut acts);
                assert(views(acts@) =~= spec_handle(s0, mv).1);
            },
            Message::Motd(u) => {
                acts.push(Action::LoadMotd);
                if self.users.contains_key(&u) {
                    acts.push(Action::SendMotd(u));
                }
                assert(views(acts@) =~= spec_handle(s0, mv).1);
            },
            Message::Help(u) => {
                reply(&self.users, &u, String::from_str(COMMAND_TEXT), &mut acts);
            },
            Message::Spam(u) => {
                reply(&self.users, &u, String::from_str(SPAM_TEXT), &mut acts);
            },
            Message::Ban(b, e) => {
                if is_admin(&b, &self.users, &mut acts) {
                    acts.push(Action::BanUser(e.clone()));
                    let t = concat2(&e, " has been banned.");
                    broadcast(&self.users, &t, &mut acts);
                }
                assert(views(acts@) =~= spec_handle(s0, mv).1);
            },
            Message::Unban(b, e) => {
                if is_admin(&b, &self.users, &mut acts) {
                    acts.push(Action::UnbanUser(e.clone()));
                    let t = concat2(&e, " has been unbanned.");
                    broadcast(&self.users, &t, &mut acts);
                }
                assert(views(acts@) =~= spec_handle(s0, mv).1);
            },
            Message::Who(u) => {
                if self.users.contains_key(&u) {
                    send_names(&self.users, &u, &mut acts);
                }
                assert(views(acts@) =~= spec_handle(s0, mv).1);
            },
            Message::Kick(k, e) => {
                if is_admin(&k, &self.users, &mut acts) {
                    if self.users.remove(&e) {
                        proof {
                            use_type_invariant(&self.users);
                            lemma_remove_wf(s0, e@);
                        }
                        acts.push(Action::Disconnect(e));
                    }
                }
                assert(views(acts@) =~= spec_handle(s0, mv).1);
            },
        }
        acts
    }
}

/// The admin is the user who has been logged in the longest: in a well
/// formed state every other logged-in user has a strictly higher number.
pub proof fn lemma_admin_logged_in_longest(s: ServerView)
    requires
        view_wf(s),
        s.users.len() > 0,
    ensures
        has_user(s.users, admin_of(s.users)->0),
        forall|j: int|
            0 <= j < s.users.len() && s.users[j].0 != admin_of(s.users)->0 ==> s.users[min_index(
                ids_of(s.users),
            )].1 < #[trigger] s.users[j].1,
{
    lemma_admin_is_lowest(s.users);
}

/// Whoever logs in to an empty server becomes its admin.
pub proof fn lemma_first_login_is_admin(s: ServerView, u: Seq<char>)
    requires
        view_wf(s),
        s.users.len() == 0,
        s.next_id < i32::MAX,
    ensures
        admin_of(spec_handle(s, MessageView::Login(u)).0.users) == Some(u),
{
    let users = spec_handle(s, MessageView::Login(u)).0.users;
    assert(!has_user(s.users, u));
    assert(users =~= seq![(u, s.next_id as i32)]);
}

/// A new name logging in does not change who the admin is.
pub proof fn lemma_login_keeps_admin(s: ServerView, u: Seq<char>)
    requires
        view_wf(s),
        s.users.len() > 0,
        !has_user(s.users, u),
        s.next_id < i32::MAX,
    ensures
        admin_of(spec_handle(s, MessageView::Login(u)).0.users) == admin_of(s.users),
{
    let users = spec_handle(s, MessageView::Login(u)).0.users;
    assert(users == s.users.push((u, s.next_id as i32)));
    let ids = ids_of(s.users);
    let ids2 = ids_of(users);
    assert(ids2.drop_last() =~= ids);
    assert(ids2.last() == s.next_id as i32);
    lemma_min_index(ids);
    let k = min_index(ids);
    assert(ids[k] == s.users[k].1);
    assert(min_index(ids2) == k);
    assert(users[k] == s.users[k]);
}

/// A direct message to someone who is not logged in is kept until that
/// user logs in, and is then delivered to them; nothing for them stays
/// saved.
pub proof fn lemma_saved_message_delivered(
    s: ServerView,
    from: Seq<char>,
    to: Seq<char>,
    contents: Seq<char>,
)
    requires
        view_wf(s),
        !has_user(s.users, to),
        s.next_id < i32::MAX,
    ensures
        ({
            let s1 = spec_handle(
                s,
                MessageView::DirectMessage { from: from, to: to, contents: contents },
            ).0;
            let (s2, acts) = spec_handle(s1, MessageView::Login(to));
            &&& s1.saved.last() == (from, to, contents)
            &&& acts.contains(ActionView::Send { to: to, text: tell_text(from, contents) })
            &&& has_user(s2.users, to)
            &&& forall|i: int| 0 <= i < s2.saved.len() ==> (#[trigger] s2.saved[i]).1 != to
        }),
{
    let s1 = spec_handle(s, MessageView::DirectMessage { from: from, to: to, contents: contents }).0;
    let d = (from, to, contents);
    assert(s1.saved == s.saved.push(d));
    let (s2, acts) = spec_handle(s1, MessageView::Login(to));
    reveal_with_fuel(Seq::filter, 1);
    assert(s1.saved.drop_last() =~= s.saved);
    let f = s1.saved.filter(is_for(to));
    assert(f == s.saved.filter(is_for(to)).push(d));
    let dl = deliveries(s1.saved, to);
    let last = ActionView::Send { to: to, text: tell_text(from, contents) };
    assert(dl[dl.len() - 1] == last);
    let refuse = if has_user(s1.users, to) {
        seq![ActionView::Refuse { text: NAME_IN_USE_TEXT@ }, ActionView::ShutdownNewcomer]
    } else {
        Seq::<ActionView>::empty()
    };
    let prefix = refuse + spec_broadcast(s1.users, to + " has connected"@) + seq![
        ActionView::Register(to),
    ];
    assert(acts == prefix + dl);
    assert(acts[prefix.len() + dl.len() - 1] == last);
    assert(spec_insert(s1.users, to, s1.next_id as i32).last() == (to, s1.next_id as i32));
    assert(s2.users[s2.users.len() - 1].0 == to);
    assert forall|i: int| 0 <= i < s2.saved.len() implies (#[trigger] s2.saved[i]).1 != to by {
        s1.saved.lemma_filter_pred(is_not_for(to), i);
    }
}

/// Only the admin can kick, ban or unban: from anyone else such a request
/// changes nothing, and at most tells the requester that they are not the
/// admin.
pub proof fn lemma_only_admin_moderates(s: ServerView, actor: Seq<char>, target: Seq<char>)
    requires
        !spec_is_admin(s.users, actor).0,
    ensures
        spec_handle(s, MessageView::Kick(actor, target)) == (s, spec_is_admin(s.users, actor).1),
        spec_handle(s, MessageView::Ban(actor, target)) == (s, spec_is_admin(s.users, actor).1),
        spec_handle(s, MessageView::Unban(actor, target)) == (s, spec_is_admin(s.users, actor).1),
        spec_is_admin(s.users, actor).1 == spec_reply(s.users, actor, NOT_ADMIN_TEXT@)
            || spec_is_admin(s.users, actor).1 == Seq::<ActionView>::empty(),
{
}

/// `/ban` kicks: after the admin's ban request and the kick request that
/// the connection handler sends with it, the banned user is logged out,
/// and the ban list was told to take the name.
pub proof fn lemma_ban_kicks(s: ServerView, admin: Seq<char>, target: Seq<char>)
    requires
        view_wf(s),
        spec_is_admin(s.users, admin).0,
    ensures
        ({
            let (s1, a1) = spec_handle(s, MessageView::Ban(admin, target));
            let (s2, a2) = spec_handle(s1, MessageView::Kick(admin, target));
            &&& a1.contains(ActionView::BanUser(target))
            &&& !has_user(s2.users, target)
            &&& has_user(s.users, target) ==> a2.contains(ActionView::Disconnect(target))
        }),
{
    let (s1, a1) = spec_handle(s, MessageView::Ban(admin, target));
    assert(a1[0] == ActionView::BanUser(target));
    let (s2, a2) = spec_handle(s1, MessageView::Kick(admin, target));
    if has_user(s.users, target) {
        lemma_remove_gone(s.users, target);
        assert(a2[0] == ActionView::Disconnect(target));
    }
}

/// After removing `name`, it is no longer listed, and every other name is
/// listed exactly when it was before.
pub proof fn lemma_remove_gone(users: UsersView, name: Seq<char>)
    requires
        unique_names(users),
    ensures
        !has_user(spec_remove(users, name), name),
        forall|other: Seq<char>|
            other != name ==> has_user(spec_remove(users, name), other) == has_user(users, other),
{
    if has_user(users, name) {
        let k = index_of(users, name);
        let r = spec_remove(users, name);
        assert forall|i: int| 0 <= i < r.len() implies r[i].0 != name by {
            if i < k {
                assert(r[i] == users[i]);
            } else {
                assert(r[i] == users[i + 1]);
            }
        }
        assert forall|other: Seq<char>| other != name implies has_user(r, other) == has_user(
            users,
            other,
        ) by {
            if has_user(users, other) {
                let j = choose|j: int| 0 <= j < users.len() && users[j].0 == other;
                if j < k {
                    assert(r[j] == users[j]);
                } else {
                    assert(r[j - 1] == users[j]);
                }
            }
            if has_user(r, other) {
                let j = choose|j: int| 0 <= j < r.len() && r[j].0 == other;
                if j < k {
                    assert(r[j] == users[j]);
                } else {
                    assert(r[j] == users[j + 1]);
                }
            }
        }
    }
}

/// After logging `name` in it is listed, and every other name is listed
/// exactly when it was before.
pub proof fn lemma_insert_present(users: UsersView, name: Seq<char>, id: i32)
    ensures
        has_user(spec_insert(users, name, id), name),
        forall|other: Seq<char>|
            other != name ==> has_user(spec_insert(users, name, id), other) == has_user(
                users,
                other,
            ),
{
    let r = spec_insert(users, name, id);
    if has_user(users, name) {
        let k = index_of(users, name);
        assert(r[k].0 == name);
        assert forall|other: Seq<char>| other != name implies has_user(r, other) == has_user(
            users,
            other,
        ) by {
            if has_user(users, other) {
                let j = choose|j: int| 0 <= j < users.len() && users[j].0 == other;
                assert(r[j] == users[j]);
            }
            if has_user(r, other) {
                let j = choose|j: int| 0 <= j < r.len() && r[j].0 == other;
                assert(r[j] == users[j]);
            }
        }
    } else {
        assert(r[users.len() as int].0 == name);
        assert forall|other: Seq<char>| other != name implies has_user(r, other) == has_user(
            users,
            other,
        ) by {
            if has_user(users, other) {
                let j = choose|j: int| 0 <= j < users.len() && users[j].0 == other;
                assert(r[j] == users[j]);
            }
            if has_user(r, other) {
                let j = choose|j: int| 0 <= j < r.len() && r[j].0 == other;
                assert(r[j] == users[j]);
            }
        }
    }
}

/// Logging in and out: after a login the name is logged in, after an exit
/// it is not, and nobody else's presence changes either way.
pub proof fn lemma_login_exit(s: ServerView, u: Seq<char>)
    requires
        view_wf(s),
    ensures
        has_user(spec_handle(s, MessageView::Login(u)).0.users, u),
        !has_user(spec_handle(s, MessageView::Exit(u)).0.users, u),
        forall|other: Seq<char>|
            other != u ==> has_user(spec_handle(s, MessageView::Login(u)).0.users, other)
                == has_user(s.users, other) && has_user(
                spec_handle(s, MessageView::Exit(u)).0.users,
                other,
            ) == has_user(s.users, other),
{
    lemma_insert_present(s.users, u, s.next_id as i32);
    lemma_remove_gone(s.users, u);
}

/// A chat line reaches every logged-in user, once each, and changes
/// nothing on the server.
pub proof fn lemma_chat_reaches_everyone(s: ServerView, u: Seq<char>, msg: Seq<char>)
    requires
        view_wf(s),
    ensures
        ({
            let (s1, acts) = spec_handle(s, MessageView::Chat(u, msg));
            &&& s1 == s
            &&& acts.len() == s.users.len()
            &&& forall|v: Seq<char>|
                has_user(s.users, v) ==> acts.contains(
                    ActionView::Send { to: v, text: u + ": "@ + msg },
                )
            &&& forall|i: int, j: int|
                0 <= i < acts.len() && 0 <= j < acts.len() && i != j ==> acts[i] != acts[j]
        }),
{
    let (s1, acts) = spec_handle(s, MessageView::Chat(u, msg));
    assert forall|v: Seq<char>| has_user(s.users, v) implies acts.contains(
        ActionView::Send { to: v, text: u + ": "@ + msg },
    ) by {
        let k = choose|k: int| 0 <= k < s.users.len() && s.users[k].0 == v;
        assert(acts[k] == ActionView::Send { to: v, text: u + ": "@ + msg });
    }
    assert forall|i: int, j: int|
        0 <= i < acts.len() && 0 <= j < acts.len() && i != j implies acts[i] != acts[j] by {
        assert(s.users[i].0 != s.users[j].0);
    }
}

/// `/who` answers the asker with every logged-in name, once each.
pub proof fn lemma_who_lists_everyone_once(s: ServerView, u: Seq<char>)
    requires
        view_wf(s),
        has_user(s.users, u),
    ensures
        ({
            let (s1, acts) = spec_handle(s, MessageView::Who(u));
            &&& s1 == s
            &&& acts.len() == s.users.len()
            &&& forall|v: Seq<char>|
                has_user(s.users, v) ==> acts.contains(ActionView::Send { to: u, text: v })
            &&& forall|i: int, j: int|
                0 <= i < acts.len() && 0 <= j < acts.len() && i != j ==> acts[i] != acts[j]
        }),
{
    let (s1, acts) = spec_handle(s, MessageView::Who(u));
    assert forall|v: Seq<char>| has_user(s.users, v) implies acts.contains(
        ActionView::Send { to: u, text: v },
    ) by {
        let k = choose|k: int| 0 <= k < s.users.len() && s.users[k].0 == v;
        assert(acts[k] == ActionView::Send { to: u, text: v });
    }
    assert forall|i: int, j: int|
        0 <= i < acts.len() && 0 <= j < acts.len() && i != j implies acts[i] != acts[j] by {
        assert(s.users[i].0 != s.users[j].0);
    }
}

/// The admin is exactly the logged-in user with the lowest number,
/// whatever that number is: in a well-formed state, `u` passes the admin
/// check if and only if it is logged in and no logged-in user has a lower
/// number.
pub proof fn lemma_admin_iff_lowest_number(s: ServerView, u: Seq<char>)
    requires
        view_wf(s),
    ensures
        spec_is_admin(s.users, u).0 <==> (has_user(s.users, u) && forall|j: int|
            0 <= j < s.users.len() ==> s.users[index_of(s.users, u)].1 <= #[trigger] s.users[j].1),
{
    if s.users.len() > 0 {
        lemma_admin_is_lowest(s.users);
        let k = min_index(ids_of(s.users));
        if spec_is_admin(s.users, u).0 {
            let i = index_of(s.users, u);
            assert(s.users[k].0 == u);
            assert(s.users[i].0 == u);
            assert(i == k);
        }
        if has_user(s.users, u) && forall|j: int|
            0 <= j < s.users.len() ==> s.users[index_of(s.users, u)].1 <= #[trigger] s.users[j].1 {
            let i = index_of(s.users, u);
            assert(s.users[i].1 <= s.users[k].1);
            assert(s.users[k].1 <= s.users[i].1);
            assert(i == k);
        }
    }
}

/// A direct message to a logged-in user is written to that user at once,
/// as `from tells you: contents`, and changes nothing on the server: in
/// particular it is not saved for a later login.
pub proof fn lemma_direct_message_to_present_user(
    s: ServerView,
    from: Seq<char>,
    to: Seq<char>,
    contents: Seq<char>,
)
    requires
        has_user(s.users, to),
    ensures
        spec_handle(s, MessageView::DirectMessage { from: from, to: to, contents: contents }).0
            == s,
        spec_handle(s, MessageView::DirectMessage { from: from, to: to, contents: contents }).1
            == seq![ActionView::Send { to: to, text: from + " tells you: "@ + contents }],
{
}

/// Which messages change the server, and how: a chat, an emote, a
/// message-of-the-day, help, spam notice, `/who`, ban or unban request
/// changes nothing; an exit only removes the user who leaves; a kick only
/// removes someone, and only when the admin asks; a login adds its name
/// with the next number and hands over that name's saved messages; a direct
/// message at most saves itself. No message but a login uses up a number,
/// and no message but a login removes a saved message.
pub proof fn lemma_state_changes(s: ServerView, m: MessageView)
    ensures
        ({
            let s1 = spec_handle(s, m).0;
            &&& !(m is Login) ==> s1.next_id == s.next_id
            &&& !(m is Login) ==> forall|i: int|
                0 <= i < s.saved.len() ==> s1.saved.contains(#[trigger] s.saved[i])
            &&& (m is Chat || m is Me || m is Motd || m is Help || m is Spam || m is Who
                || m is Ban || m is Unban) ==> s1 == s
            &&& m is Exit ==> s1 == ServerView { users: spec_remove(s.users, m->Exit_0), ..s }
            &&& m is Kick ==> (s1 == s || (spec_is_admin(s.users, m->Kick_0).0 && s1
                == ServerView { users: spec_remove(s.users, m->Kick_1), ..s }))
            &&& m is Login ==> s1.next_id == s.next_id + 1 && s1.users == spec_insert(
                s.users,
                m->Login_0,
                s.next_id as i32,
            )
        }),
{
    let s1 = spec_handle(s, m).0;
    if !(m is Login) {
        assert forall|i: int| 0 <= i < s.saved.len() implies s1.saved.contains(
            #[trigger] s.saved[i],
        ) by {
            if m is DirectMessage && !has_user(s.users, m->DirectMessage_to) {
                assert(s1.saved[i] == s.saved[i]);
            } else {
                assert(s1.saved[i] == s.saved[i]);
            }
        }
    }
}

/// Saved direct messages wait for their reader: a message saved for `to`
/// stays saved through every message except `to`'s own login (whoever else
/// logs in, leaves, is kicked or writes), and `to`'s next login delivers it
/// to `to` as `from tells you: contents`.
pub proof fn lemma_saved_message_waits(s: ServerView, m: MessageView, d: SavedView)
    requires
        s.saved.contains(d),
    ensures
        m != MessageView::Login(d.1) ==> spec_handle(s, m).0.saved.contains(d),
        spec_handle(s, MessageView::Login(d.1)).1.contains(
            ActionView::Send { to: d.1, text: d.0 + " tells you: "@ + d.2 },
        ),
{
    let k = choose|k: int| 0 <= k < s.saved.len() && s.saved[k] == d;
    if m != MessageView::Login(d.1) {
        if m is Login {
            let u = m->Login_0;
            assert(u != d.1);
            assert(is_not_for(u)(s.saved[k]));
            s.saved.lemma_filter_contains(is_not_for(u), k);
        } else {
            lemma_state_changes(s, m);
        }
    }
    let v = d.1;
    let f = s.saved.filter(is_for(v));
    assert(is_for(v)(s.saved[k]));
    s.saved.lemma_filter_contains(is_for(v), k);
    let j = choose|j: int| 0 <= j < f.len() && f[j] == d;
    let dl = deliveries(s.saved, v);
    let send = ActionView::Send { to: v, text: d.0 + " tells you: "@ + d.2 };
    assert(dl[j] == send);
    let acts = spec_handle(s, MessageView::Login(v)).1;
    let refuse = if has_user(s.users, v) {
        seq![ActionView::Refuse { text: NAME_IN_USE_TEXT@ }, ActionView::ShutdownNewcomer]
    } else {
        Seq::<ActionView>::empty()
    };
    let prefix = refuse + spec_broadcast(s.users, v + " has connected"@) + seq![
        ActionView::Register(v),
    ];
    assert(acts == prefix + dl);
    assert(acts[prefix.len() + j] == send);
}

} // verus!
