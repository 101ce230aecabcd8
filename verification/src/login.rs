//! The checks a new connection goes through: the ban list, the stored
//! credentials, and the count of failed logins from each address.
use crate::counter::{elapsed, spec_mark, spec_triggered, CounterView, TimeoutCounter};
use std::time::Instant;
use vstd::prelude::*;

verus! {

/// Failed logins from one address that lock it out.
pub const LOGIN_MAX_FAILURES: usize = 3;

/// Seconds an address stays locked out.
pub const LOGIN_PENALTY: u64 = 120;

/// Seconds within which the failures must fall.
pub const LOGIN_WINDOW: u64 = 30;

/// The lines of a file as character sequences.
pub open spec fn lines_view(lines: Seq<String>) -> Seq<Seq<char>> {
    lines.map_values(|l: String| l@)
}

/// Whether `name` is one of `lines` (the ban list, a block list).
pub fn contains_line(lines: &Vec<String>, name: &str) -> (b: bool)
    ensures
        b == lines_view(lines@).contains(name@),
{
    let wanted = String::from_str(name);
    let mut i: usize = 0;
    while i < lines.len()
        invariant
            i <= lines.len(),
            wanted@ == name@,
            forall|j: int| 0 <= j < i ==> lines_view(lines@)[j] != name@,
        decreases lines.len() - i,
    {
        if lines[i] == wanted {
            assert(lines_view(lines@)[i as int] == name@);
            assert(lines_view(lines@).contains(name@));
            return true;
        }
        i = i + 1;
    }
    false
}

/// Whether a line differs from `name`.
pub open spec fn is_other_line(name: Seq<char>) -> spec_fn(Seq<char>) -> bool {
    |l: Seq<char>| l != name
}

/// `lines` without those equal to `name`, in order (what is left of the
/// ban list after an unban, or of a block list after an unblock).
pub fn without_line(lines: &Vec<String>, name: &str) -> (kept: Vec<String>)
    ensures
        lines_view(kept@) == lines_view(lines@).filter(is_other_line(name@)),
{
    let name = String::from_str(name);
    let ghost lv = lines_view(lines@);
    let mut kept: Vec<String> = Vec::new();
    let mut i: usize = 0;
    while i < lines.len()
        invariant
            i <= lines.len(),
            lv == lines_view(lines@),
            lines_view(kept@) == lv.take(i as int).filter(is_other_line(name@)),
        decreases lines.len() - i,
    {
        reveal_with_fuel(Seq::filter, 1);
        assert(lv.take(i as int + 1).drop_last() =~= lv.take(i as int));
        let ghost before = kept@;
        if lines[i] != name {
            kept.push(lines[i].clone());
            assert(lines_view(kept@) =~= lines_view(before).push(lv[i as int]));
        }
        i = i + 1;
    }
    assert(lv.take(i as int) =~= lv);
    kept
}

/// The text of a file that holds `lines`, each followed by a line end.
pub open spec fn spec_file_text(lines: Seq<Seq<char>>) -> Seq<char>
    decreases lines.len(),
{
    if lines.len() == 0 {
        Seq::empty()
    } else {
        spec_file_text(lines.drop_last()) + lines.last() + "\n"@
    }
}

/// The text to write for a list file (the ban list, a block list) that
/// holds `lines`: each line followed by a line end.
pub fn file_text(lines: &Vec<String>) -> (t: String)
    ensures
        t@ == spec_file_text(lines_view(lines@)),
{
    let ghost lv = lines_view(lines@);
    let mut t = String::new();
    let mut i: usize = 0;
    assert(lv.take(0) =~= Seq::<Seq<char>>::empty());
    while i < lines.len()
        invariant
            i <= lines.len(),
            lv == lines_view(lines@),
            t@ == spec_file_text(lv.take(i as int)),
        decreases lines.len() - i,
    {
        assert(lv.take(i as int + 1).drop_last() =~= lv.take(i as int));
        assert(lv.take(i as int + 1).last() == lines@[i as int]@);
        t.append(lines[i].as_str());
        t.append("\n");
        i = i + 1;
    }
    assert(lv.take(i as int) =~= lv);
    t
}

/// The password stored for `name`: the file holds a name on one line and
/// its password on the next, and a later pair for the same name wins.
pub open spec fn stored_password(lines: Seq<Seq<char>>, name: Seq<char>) -> Option<Seq<char>>
    decreases lines.len(),
{
    if lines.len() < 2 {
        None
    } else if lines[lines.len() - 2] == name {
        Some(lines[lines.len() - 1])
    } else {
        stored_password(lines.take(lines.len() - 2), name)
    }
}

/// How a login attempt stands against the stored credentials.
#[derive(Debug, PartialEq, Eq)]
pub enum LoginCheck {
    /// The name is known and the password matches.
    Accepted,
    /// The name is known and the password does not match.
    Rejected,
    /// The name is not known: it is to be stored with this password, and
    /// the login succeeds.
    NewUser,
}

/// The outcome of a login with `password` for `name`.
pub open spec fn spec_check_login(lines: Seq<Seq<char>>, name: Seq<char>, password: Seq<char>)
    -> LoginCheck {
    match stored_password(lines, name) {
        Some(p) => if p == password {
            LoginCheck::Accepted
        } else {
            LoginCheck::Rejected
        },
        None => LoginCheck::NewUser,
    }
}

/// Checks a login against the stored credentials `lines` (names and
/// passwords on alternate lines, so there is an even number of them).
pub fn check_login(lines: &Vec<String>, username: &str, password: &str) -> (c: LoginCheck)
    requires
        lines@.len() % 2 == 0,
    ensures
        c == spec_check_login(lines_view(lines@), username@, password@),
{
    let name = String::from_str(username);
    let ghost lv = lines_view(lines@);
    let mut found: Option<usize> = None;
    let mut i: usize = 0;
    while i < lines.len()
        invariant
            i <= lines.len(),
            i % 2 == 0,
            lines.len() % 2 == 0,
            lv == lines_view(lines@),
            match found {
                Some(k) => k < lines.len() && stored_password(lv.take(i as int), name@) == Some(
                    lv[k as int],
                ),
                None => stored_password(lv.take(i as int), name@) is None,
            },
        decreases lines.len() - i,
    {
        let ghost next = lv.take(i as int + 2);
        assert(next.take(i as int) =~= lv.take(i as int));
        assert(next[i as int] == lv[i as int]);
        assert(next[i as int + 1] == lv[i as int + 1]);
        if lines[i] == name {
            found = Some(i + 1);
        }
        i = i + 2;
    }
    assert(lv.take(i as int) =~= lv);
    match found {
        Some(k) => {
            let pw = String::from_str(password);
            if lines[k] == pw {
                LoginCheck::Accepted
            } else {
                LoginCheck::Rejected
            }
        },
        None => LoginCheck::NewUser,
    }
}

/// The pair at even position `p` (name at `p`, password at `p + 1`) is the
/// last pair of `lines` that stores `name`.
pub open spec fn is_last_pair_for(lines: Seq<Seq<char>>, name: Seq<char>, p: int) -> bool {
    &&& 0 <= p
    &&& p % 2 == 0
    &&& p + 1 < lines.len()
    &&& lines[p] == name
    &&& forall|q: int| p < q < lines.len() && q % 2 == 0 ==> #[trigger] lines[q] != name
}

/// The stored password is the one of the last pair that stores the name:
/// with names and passwords on alternate lines, a login is accepted
/// exactly when the last pair for that name holds that password, refused
/// when it holds another, and treated as a new user exactly when no pair
/// holds the name.
pub proof fn lemma_login_uses_last_pair(lines: Seq<Seq<char>>, name: Seq<char>, password: Seq<char>)
    requires
        lines.len() % 2 == 0,
    ensures
        (spec_check_login(lines, name, password) == LoginCheck::NewUser) <==> (forall|q: int|
            0 <= q < lines.len() && q % 2 == 0 ==> #[trigger] lines[q] != name),
        (spec_check_login(lines, name, password) == LoginCheck::Accepted) <==> exists|p: int|
            #[trigger] is_last_pair_for(lines, name, p) && lines[p + 1] == password,
        (spec_check_login(lines, name, password) == LoginCheck::Rejected) <==> exists|p: int|
            #[trigger] is_last_pair_for(lines, name, p) && lines[p + 1] != password,
{
    lemma_stored_password_is_last_pair(lines, name);
    match stored_password(lines, name) {
        Some(pw) => {
            let p = choose|p: int| #[trigger] is_last_pair_for(lines, name, p) && lines[p + 1] == pw;
            assert forall|p2: int| #[trigger] is_last_pair_for(lines, name, p2) implies p2 == p by {
                if p2 < p {
                    assert(lines[p] == name);
                } else if p < p2 {
                    assert(lines[p2] == name);
                }
            }
        },
        None => {
            assert forall|p: int| !#[trigger] is_last_pair_for(lines, name, p) by {
                if is_last_pair_for(lines, name, p) {
                    assert(lines[p] == name);
                }
            }
        },
    }
}

/// `stored_password` finds the last pair for the name, if there is one.
proof fn lemma_stored_password_is_last_pair(lines: Seq<Seq<char>>, name: Seq<char>)
    requires
        lines.len() % 2 == 0,
    ensures
        stored_password(lines, name) is None <==> (forall|q: int|
            0 <= q < lines.len() && q % 2 == 0 ==> #[trigger] lines[q] != name),
        stored_password(lines, name) matches Some(pw) ==> exists|p: int|
            #[trigger] is_last_pair_for(lines, name, p) && lines[p + 1] == pw,
    decreases lines.len(),
{
    if lines.len() >= 2 {
        let n = lines.len() as int;
        let prev = lines.take(n - 2);
        lemma_stored_password_is_last_pair(prev, name);
        assert forall|q: int| 0 <= q < n - 2 implies prev[q] == lines[q] by {}
        if lines[n - 2] == name {
            assert(is_last_pair_for(lines, name, n - 2));
        } else {
            if stored_password(prev, name) is None {
                assert forall|q: int| 0 <= q < lines.len() && q % 2 == 0 implies #[trigger] lines[q]
                    != name by {
                    if q < n - 2 {
                        assert(prev[q] == lines[q]);
                    }
                }
            } else {
                let pw = stored_password(prev, name)->0;
                let p = choose|p: int| #[trigger] is_last_pair_for(prev, name, p) && prev[p + 1]
                    == pw;
                assert(prev[p] == lines[p]);
                assert(prev[p + 1] == lines[p + 1]);
                assert forall|q: int| p < q < lines.len() && q % 2 == 0 implies #[trigger] lines[q]
                    != name by {
                    if q < n - 2 {
                        assert(prev[q] == lines[q]);
                    }
                }
                assert(is_last_pair_for(lines, name, p));
                assert(lines[p] == name);
            }
        }
    }
}

/// A new user is stored with the password it logged in with: the same
/// name and password then log in, and any other password is refused.
pub proof fn lemma_new_user_can_log_in_again(
    lines: Seq<Seq<char>>,
    name: Seq<char>,
    password: Seq<char>,
    other: Seq<char>,
)
    requires
        spec_check_login(lines, name, password) == LoginCheck::NewUser,
        other != password,
    ensures
        spec_check_login(lines + seq![name, password], name, password) == LoginCheck::Accepted,
        spec_check_login(lines + seq![name, password], name, other) == LoginCheck::Rejected,
{
    let l2 = lines + seq![name, password];
    assert(l2[l2.len() - 2] == name);
    assert(l2[l2.len() - 1] == password);
}

/// Banning and unbanning: a name added to the ban list is found there, and
/// after it is removed it is not, while every other name keeps its place.
pub proof fn lemma_ban_then_unban(lines: Seq<Seq<char>>, name: Seq<char>, other: Seq<char>)
    requires
        other != name,
    ensures
        lines.push(name).contains(name),
        !lines.push(name).filter(is_other_line(name)).contains(name),
        lines.push(name).filter(is_other_line(name)).contains(other) == lines.contains(other),
{
    let l2 = lines.push(name);
    assert(l2[l2.len() - 1] == name);
    let f = l2.filter(is_other_line(name));
    if f.contains(name) {
        let i = choose|i: int| 0 <= i < f.len() && f[i] == name;
        l2.lemma_filter_pred(is_other_line(name), i);
    }
    if lines.contains(other) {
        let i = choose|i: int| 0 <= i < lines.len() && lines[i] == other;
        assert(l2[i] == other);
        l2.lemma_filter_contains(is_other_line(name), i);
    }
    if f.contains(other) {
        broadcast use vstd::seq_lib::group_filter_ensures;

        let i = choose|i: int| 0 <= i < f.len() && f[i] == other;
        l2.lemma_filter_contains_rev(is_other_line(name), other);
        let j = choose|j: int| 0 <= j < l2.len() && l2[j] == other;
        assert(j < lines.len());
        assert(lines[j] == other);
    }
}

/// The failed logins counted for each address.
pub struct LoginGate {
    entries: Vec<(String, TimeoutCounter)>,
}

/// Each address with the state of its counter.
pub type GateView = Seq<(Seq<char>, CounterView)>;

/// Whether `ip` has failed before.
pub open spec fn has_address(g: GateView, ip: Seq<char>) -> bool {
    exists|i: int| 0 <= i < g.len() && g[i].0 == ip
}

/// Where `ip` stands (meaningful when it has failed before).
pub open spec fn address_index(g: GateView, ip: Seq<char>) -> int {
    choose|i: int| 0 <= i < g.len() && g[i].0 == ip
}

/// No address is listed twice.
pub open spec fn unique_addresses(g: GateView) -> bool {
    forall|i: int, j: int| 0 <= i < g.len() && 0 <= j < g.len() && i != j ==> g[i].0 != g[j].0
}

/// A counter with the login settings: `LOGIN_MAX_FAILURES` failures
/// within `LOGIN_WINDOW` seconds lock the address out for `LOGIN_PENALTY`
/// seconds.
pub open spec fn has_login_settings(c: CounterView) -> bool {
    &&& c.max_attempts == LOGIN_MAX_FAILURES
    &&& c.penalty_delay == LOGIN_PENALTY
    &&& c.window_size == LOGIN_WINDOW
}

/// No address is listed twice and every counter has the login settings.
pub open spec fn gate_wf(g: GateView) -> bool {
    &&& unique_addresses(g)
    &&& forall|i: int| 0 <= i < g.len() ==> has_login_settings(#[trigger] g[i].1)
}

/// The counter an address gets at its first failure: nothing counted yet.
pub open spec fn fresh_login_counter() -> CounterView {
    CounterView {
        attempts: Seq::empty(),
        max_attempts: LOGIN_MAX_FAILURES as nat,
        clear_time: None,
        penalty_delay: LOGIN_PENALTY,
        window_size: LOGIN_WINDOW,
    }
}

impl View for LoginGate {
    type V = GateView;

    closed spec fn view(&self) -> GateView {
        self.entries@.map_values(|e: (String, TimeoutCounter)| (e.0@, e.1@))
    }
}

impl LoginGate {
    /// The moment the counter of the address at position `i` was made.
    pub closed spec fn origin_at(&self, i: int) -> Instant {
        self.entries@[i].1.origin()
    }

    /// Addresses are never listed twice, and every counter has the login
    /// settings.
    #[verifier::type_invariant]
    pub open spec fn well_formed(self) -> bool {
        gate_wf(self@)
    }

    /// No address has failed yet.
    pub fn new() -> (g: Self)
        ensures
            g@ == GateView::empty(),
    {
        let g = LoginGate { entries: Vec::new() };
        assert(g@ =~= GateView::empty());
        g
    }

    /// Where `ip` stands, if it has failed before.
    fn find(&self, ip: &String) -> (r: Option<usize>)
        ensures
            r is Some <==> has_address(self@, ip@),
            r matches Some(i) ==> i < self@.len() && i == address_index(self@, ip@),
    {
        proof {
            use_type_invariant(self);
        }
        let mut i: usize = 0;
        while i < self.entries.len()
            invariant
                i <= self.entries.len(),
                self@.len() == self.entries@.len(),
                forall|j: int| 0 <= j < i ==> self@[j].0 != ip@,
                unique_addresses(self@),
            decreases self.entries.len() - i,
        {
            if self.entries[i].0 == *ip {
                assert(self@[i as int].0 == ip@);
                proof {
                    let c = address_index(self@, ip@);
                    assert(0 <= c < self@.len() && self@[c].0 == ip@);
                }
                return Some(i);
            }
            i = i + 1;
        }
        None
    }

    /// Whether a connection from `ip` may try to log in: an address that
    /// has failed before is let in unless its counter is tripped (asking
    /// the counter updates it).
    pub fn may_try(&mut self, ip: &String) -> (ok: bool)
        ensures
            forall|i: int|
                0 <= i < old(self)@.len() ==> #[trigger] final(self).origin_at(i) == old(
                    self,
                ).origin_at(i),
            !has_address(old(self)@, ip@) ==> ok && final(self)@ == old(self)@,
            has_address(old(self)@, ip@) ==> exists|now: u128|
                {
                    let (c, tripped) = #[trigger] spec_triggered(
                        old(self)@[address_index(old(self)@, ip@)].1,
                        now,
                    );
                    &&& ok == !tripped
                    &&& final(self)@ == old(self)@.update(address_index(old(self)@, ip@), (ip@, c))
                },
    {
        proof {
            use_type_invariant(&*self);
        }
        let ghost g0 = self@;
        let ghost e0 = self.entries@;
        match self.find(ip) {
            None => true,
            Some(i) => {
                let mut entries: Vec<(String, TimeoutCounter)> = Vec::new();
                std::mem::swap(&mut entries, &mut self.entries);
                let (name, mut counter) = entries.remove(i);
                let ghost c0 = counter@;
                let tripped = counter.triggered();
                let ghost now = choose|t: u128| (counter@, tripped) == spec_triggered(c0, t);
                entries.insert(i, (name, counter));
                let ghost g1 = entries@.map_values(|e: (String, TimeoutCounter)| (e.0@, e.1@));
                assert(g1 =~= g0.update(i as int, (ip@, counter@)));
                assert(gate_wf(g1)) by {
                    assert forall|a: int, b: int|
                        0 <= a < g1.len() && 0 <= b < g1.len() && a != b implies g1[a].0
                        != g1[b].0 by {
                        assert(g1[a].0 == g0[a].0);
                        assert(g1[b].0 == g0[b].0);
                    }
                    assert forall|a: int| 0 <= a < g1.len() implies has_login_settings(
                        #[trigger] g1[a].1,
                    ) by {
                        if a != i {
                            assert(g1[a] == g0[a]);
                        } else {
                            assert(has_login_settings(g0[a].1));
                        }
                    }
                }
                assert forall|j: int| 0 <= j < e0.len() implies #[trigger] entries@[j].1.origin()
                    == e0[j].1.origin() by {
                    if j != i {
                        assert(entries@[j] == e0[j]);
                    }
                }
                self.entries = entries;
                assert(spec_triggered(g0[i as int].1, now) == (counter@, tripped));
                !tripped
            },
        }
    }

    /// Counts a failed login from `ip`: an address that has failed before
    /// has the failure marked; a new address gets a fresh counter, with
    /// nothing marked yet.
    pub fn record_failure(&mut self, ip: String)
        ensures
            forall|i: int|
                0 <= i < old(self)@.len() ==> #[trigger] final(self).origin_at(i) == old(
                    self,
                ).origin_at(i),
            !has_address(old(self)@, ip@) ==> final(self)@ == old(self)@.push(
                (ip@, fresh_login_counter()),
            ),
            !has_address(old(self)@, ip@) ==> final(self)@.last().1.penalty_delay == LOGIN_PENALTY
                && final(self)@.last().1.window_size == LOGIN_WINDOW
                && final(self)@.last().1.max_attempts == LOGIN_MAX_FAILURES
                && final(self)@.last().1.attempts.len() == 0
                && final(self)@.last().1.clear_time is None,
            has_address(old(self)@, ip@) ==> exists|now: u128|
                final(self)@ == old(self)@.update(
                    address_index(old(self)@, ip@),
                    (ip@, #[trigger] spec_mark(old(self)@[address_index(old(self)@, ip@)].1, now)),
                ),
    {
        proof {
            use_type_invariant(&*self);
        }
        let ghost g0 = self@;
        let ghost n = ip@;
        let ghost e0 = self.entries@;
        let found = self.find(&ip);
        let mut entries: Vec<(String, TimeoutCounter)> = Vec::new();
        std::mem::swap(&mut entries, &mut self.entries);
        match found {
            None => {
                let counter = TimeoutCounter::new(LOGIN_MAX_FAILURES, LOGIN_PENALTY, LOGIN_WINDOW);
                entries.push((ip, counter));
                let ghost g1 = entries@.map_values(|e: (String, TimeoutCounter)| (e.0@, e.1@));
                assert(g1 =~= g0.push((n, fresh_login_counter())));
                assert forall|j: int| 0 <= j < e0.len() implies #[trigger] entries@[j].1.origin()
                    == e0[j].1.origin() by {
                    assert(entries@[j] == e0[j]);
                }
                assert(gate_wf(g1)) by {
                    assert forall|a: int, b: int|
                        0 <= a < g1.len() && 0 <= b < g1.len() && a != b implies g1[a].0
                        != g1[b].0 by {
                        if a < g0.len() {
                            assert(g1[a].0 == g0[a].0);
                        }
                        if b < g0.len() {
                            assert(g1[b].0 == g0[b].0);
                        }
                    }
                    assert forall|a: int| 0 <= a < g1.len() implies has_login_settings(
                        #[trigger] g1[a].1,
                    ) by {
                        if a < g0.len() {
                            assert(g1[a] == g0[a]);
                        }
                    }
                }
                self.entries = entries;
            },
            Some(i) => {
                let (name, mut counter) = entries.remove(i);
                let ghost c0 = counter@;
                counter.mark();
                let ghost now = choose|t: u128| counter@ == spec_mark(c0, t);
                entries.insert(i, (name, counter));
                let ghost g1 = entries@.map_values(|e: (String, TimeoutCounter)| (e.0@, e.1@));
                assert(g1 =~= g0.update(i as int, (n, counter@)));
                assert(gate_wf(g1)) by {
                    assert forall|a: int, b: int|
                        0 <= a < g1.len() && 0 <= b < g1.len() && a != b implies g1[a].0
                        != g1[b].0 by {
                        assert(g1[a].0 == g0[a].0);
                        assert(g1[b].0 == g0[b].0);
                    }
                    assert forall|a: int| 0 <= a < g1.len() implies has_login_settings(
                        #[trigger] g1[a].1,
                    ) by {
                        if a != i {
                            assert(g1[a] == g0[a]);
                        } else {
                            assert(has_login_settings(g0[a].1));
                        }
                    }
                }
                assert forall|j: int| 0 <= j < e0.len() implies #[trigger] entries@[j].1.origin()
                    == e0[j].1.origin() by {
                    if j != i {
                        assert(entries@[j] == e0[j]);
                    }
                }
                self.entries = entries;
                assert(spec_mark(g0[i as int].1, now) == counter@);
            },
        }
    }
}

/// An address that is locked out stays locked out for two minutes: in a
/// well-formed gate every counter remembers 3 failures, trips when they
/// fall within 30 seconds, and, once tripped at `t`, answers every check up
/// to 120 seconds after `t` with `true` (so `may_try` refuses), and every
/// later check with `false`.
pub proof fn lemma_lockout_lasts_two_minutes(g: GateView, ip: Seq<char>, now: u128)
    requires
        gate_wf(g),
        has_address(g, ip),
    ensures
        g[address_index(g, ip)].1.max_attempts == 3,
        g[address_index(g, ip)].1.window_size == 30,
        g[address_index(g, ip)].1.penalty_delay == 120,
        g[address_index(g, ip)].1.clear_time is Some ==> (spec_triggered(
            g[address_index(g, ip)].1,
            now,
        ).1 <==> elapsed(g[address_index(g, ip)].1.clear_time->0, now) <= 120_000_000_000),
{
    let k = address_index(g, ip);
    assert(has_login_settings(g[k].1));
}

} // verus!
