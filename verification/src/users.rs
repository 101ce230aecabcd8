//! The logged-in users: each name with the number it was given at login,
//! and the admin, who is the user with the lowest number.
use vstd::prelude::*;

verus! {

/// What the server keeps of a logged-in user besides its name.
#[derive(Debug, PartialEq, Eq)]
pub struct UserData {
    /// The number given at login; lower numbers logged in earlier.
    pub user_id: i32,
}

/// The users as a sequence of (name, number) pairs.
pub type UsersView = Seq<(Seq<char>, i32)>;

/// No name occurs twice.
pub open spec fn unique_names(users: UsersView) -> bool {
    forall|i: int, j: int| 0 <= i < users.len() && 0 <= j < users.len() && i != j
        ==> users[i].0 != users[j].0
}

/// Whether `name` is logged in.
pub open spec fn has_user(users: UsersView, name: Seq<char>) -> bool {
    exists|i: int| 0 <= i < users.len() && users[i].0 == name
}

/// Where `name` stands in the list (meaningful when it is logged in).
pub open spec fn index_of(users: UsersView, name: Seq<char>) -> int {
    choose|i: int| 0 <= i < users.len() && users[i].0 == name
}

/// The list after logging `name` in with number `id`: an existing entry of
/// that name keeps its place and takes the new number; otherwise the entry
/// is added at the end.
pub open spec fn spec_insert(users: UsersView, name: Seq<char>, id: i32) -> UsersView {
    if has_user(users, name) {
        users.update(index_of(users, name), (name, id))
    } else {
        users.push((name, id))
    }
}

/// The list without `name`.
pub open spec fn spec_remove(users: UsersView, name: Seq<char>) -> UsersView {
    if has_user(users, name) {
        users.remove(index_of(users, name))
    } else {
        users
    }
}

/// The numbers of the users, in list order.
pub open spec fn ids_of(users: UsersView) -> Seq<i32> {
    users.map_values(|u: (Seq<char>, i32)| u.1)
}

/// The names of the users, in list order.
pub open spec fn names_of(users: UsersView) -> Seq<Seq<char>> {
    users.map_values(|u: (Seq<char>, i32)| u.0)
}

/// The position of the first smallest number (0 for an empty sequence).
pub open spec fn min_index(ids: Seq<i32>) -> int
    decreases ids.len(),
{
    if ids.len() <= 1 {
        0
    } else {
        let k = min_index(ids.drop_last());
        if ids.last() < ids[k] {
            ids.len() - 1
        } else {
            k
        }
    }
}

/// The admin: the name of the first user with the lowest number, if any
/// user is logged in.
pub open spec fn admin_of(users: UsersView) -> Option<Seq<char>> {
    if users.len() == 0 {
        None
    } else {
        Some(users[min_index(ids_of(users))].0)
    }
}

/// `min_index` picks the first position holding the smallest number.
pub proof fn lemma_min_index(ids: Seq<i32>)
    requires
        ids.len() > 0,
    ensures
        0 <= min_index(ids) < ids.len(),
        forall|j: int| 0 <= j < ids.len() ==> ids[min_index(ids)] <= #[trigger] ids[j],
        forall|j: int| 0 <= j < min_index(ids) ==> ids[min_index(ids)] < #[trigger] ids[j],
    decreases ids.len(),
{
    if ids.len() > 1 {
        let p = ids.drop_last();
        lemma_min_index(p);
        let k = min_index(ids);
        assert forall|j: int| 0 <= j < ids.len() implies ids[k] <= #[trigger] ids[j] by {
            if j < ids.len() - 1 {
                assert(p[j] == ids[j]);
            }
        }
        assert forall|j: int| 0 <= j < k implies ids[k] < #[trigger] ids[j] by {
            assert(p[j] == ids[j]);
        }
    }
}

/// The admin is a logged-in user whose number is the lowest, and no user
/// listed before it has the same number.
pub proof fn lemma_admin_is_lowest(users: UsersView)
    requires
        users.len() > 0,
    ensures
        admin_of(users) is Some,
        has_user(users, admin_of(users)->0),
        forall|j: int| 0 <= j < users.len() ==> users[min_index(ids_of(users))].1 <= #[trigger] users[j].1,
        0 <= min_index(ids_of(users)) < users.len(),
        admin_of(users)->0 == users[min_index(ids_of(users))].0,
{
    lemma_min_index(ids_of(users));
    let k = min_index(ids_of(users));
    assert(users[k].0 == admin_of(users)->0);
    assert forall|j: int| 0 <= j < users.len() implies users[k].1 <= users[j].1 by {
        assert(ids_of(users)[j] == users[j].1);
    }
}

/// The logged-in users, keyed by name.
pub struct UserList {
    entries: Vec<(String, i32)>,
}

impl View for UserList {
    type V = UsersView;

    closed spec fn view(&self) -> UsersView {
        self.entries@.map_values(|e: (String, i32)| (e.0@, e.1))
    }
}

impl UserList {
    /// Names are never listed twice.
    #[verifier::type_invariant]
    pub open spec fn well_formed(self) -> bool {
        unique_names(self@)
    }

    /// An empty list.
    pub fn new() -> (l: Self)
        ensures
            l@ == UsersView::empty(),
    {
        let l = UserList { entries: Vec::new() };
        assert(l@ =~= UsersView::empty());
        l
    }

    /// How many users are logged in.
    pub fn len(&self) -> (n: usize)
        ensures
            n == self@.len(),
    {
        self.entries.len()
    }

    /// Where `name` stands, if it is logged in.
    fn find(&self, name: &String) -> (r: Option<usize>)
        ensures
            r is Some <==> has_user(self@, name@),
            r matches Some(i) ==> i < self@.len() && self@[i as int].0 == name@ && i
                == index_of(self@, name@),
    {
        proof {
            use_type_invariant(self);
        }
        let mut i: usize = 0;
        while i < self.entries.len()
            invariant
                i <= self.entries.len(),
                self@.len() == self.entries@.len(),
                forall|j: int| 0 <= j < i ==> self@[j].0 != name@,
                unique_names(self@),
            decreases self.entries.len() - i,
        {
            if self.entries[i].0 == *name {
                assert(self@[i as int].0 == name@);
                proof {
                    let c = index_of(self@, name@);
                    assert(0 <= c < self@.len() && self@[c].0 == name@);
                }
                return Some(i);
            }
            i = i + 1;
        }
        None
    }

    /// Whether `name` is logged in.
    pub fn contains_key(&self, name: &String) -> (b: bool)
        ensures
            b == has_user(self@, name@),
    {
        self.find(name).is_some()
    }

    /// The number of `name`, if it is logged in.
    pub fn get(&self, name: &String) -> (r: Option<UserData>)
        ensures
            r is Some <==> has_user(self@, name@),
            r matches Some(d) ==> d.user_id == self@[index_of(self@, name@)].1,
    {
        match self.find(name) {
            Some(i) => Some(UserData { user_id: self.entries[i].1 }),
            None => None,
        }
    }

    /// Logs `name` in with `data`: an existing entry of that name keeps its
    /// place and takes the new number, otherwise the entry goes to the end.
    pub fn insert(&mut self, name: String, data: UserData)
        ensures
            final(self)@ == spec_insert(old(self)@, name@, data.user_id),
    {
        proof {
            use_type_invariant(&*self);
        }
        let ghost old_view = self@;
        let found = self.find(&name);
        let mut entries: Vec<(String, i32)> = Vec::new();
        std::mem::swap(&mut entries, &mut self.entries);
        let ghost n = name@;
        match found {
            Some(i) => {
                entries.set(i, (name, data.user_id));
            },
            None => {
                entries.push((name, data.user_id));
            },
        }
        let ghost new_view = entries@.map_values(|e: (String, i32)| (e.0@, e.1));
        proof {
            if found is Some {
                assert(new_view =~= old_view.update(found->0 as int, (n, data.user_id)));
            } else {
                assert(new_view =~= old_view.push((n, data.user_id)));
            }
        }
        self.entries = entries;
    }

    /// Forgets `name`; says whether it was logged in.
    pub fn remove(&mut self, name: &String) -> (was: bool)
        ensures
            was == has_user(old(self)@, name@),
            final(self)@ == spec_remove(old(self)@, name@),
    {
        proof {
            use_type_invariant(&*self);
        }
        let ghost old_view = self@;
        match self.find(name) {
            Some(i) => {
                let mut entries: Vec<(String, i32)> = Vec::new();
                std::mem::swap(&mut entries, &mut self.entries);
                entries.remove(i);
                let ghost new_view = entries@.map_values(|e: (String, i32)| (e.0@, e.1));
                assert(new_view =~= old_view.remove(i as int));
                self.entries = entries;
                true
            },
            None => false,
        }
    }

    /// The names, in list order.
    pub fn names(&self) -> (v: Vec<String>)
        ensures
            v@.map_values(|s: String| s@) == names_of(self@),
    {
        let mut v: Vec<String> = Vec::new();
        let mut i: usize = 0;
        while i < self.entries.len()
            invariant
                i <= self.entries.len(),
                self@.len() == self.entries@.len(),
                v@.map_values(|s: String| s@) =~= names_of(self@).take(i as int),
            decreases self.entries.len() - i,
        {
            let ghost before = v@.map_values(|s: String| s@);
            let s = self.entries[i].0.clone();
            v.push(s);
            assert(v@.map_values(|s: String| s@) =~= before.push(self@[i as int].0));
            assert(names_of(self@).take(i as int + 1) =~= names_of(self@).take(i as int).push(
                self@[i as int].0,
            ));
            i = i + 1;
        }
        assert(names_of(self@).take(i as int) =~= names_of(self@));
        v
    }
}

/// Finds the admin: the user with the lowest number (the first such user
/// in list order), or `None` when nobody is logged in.
pub fn get_admin(user_list: &UserList) -> (r: Option<String>)
    ensures
        r is Some <==> user_list@.len() > 0,
        r matches Some(a) ==> admin_of(user_list@) == Some(a@),
        r is None ==> admin_of(user_list@) is None,
{
    let n = user_list.entries.len();
    if n == 0 {
        return None;
    }
    let ghost ids = ids_of(user_list@);
    let mut best: usize = 0;
    let mut i: usize = 1;
    while i < n
        invariant
            1 <= i <= n,
            n == user_list.entries@.len(),
            n == user_list@.len(),
            ids == ids_of(user_list@),
            best == min_index(ids.take(i as int)),
            best < i,
        decreases n - i,
    {
        assert(ids.take(i as int + 1).drop_last() =~= ids.take(i as int));
        proof {
            lemma_min_index(ids.take(i as int));
        }
        if user_list.entries[i].1 < user_list.entries[best].1 {
            best = i;
        }
        i = i + 1;
    }
    assert(ids.take(n as int) =~= ids);
    assert(user_list@[best as int].0 == user_list.entries@[best as int].0@);
    Some(user_list.entries[best].0.clone())
}

} // verus!
