//! The shared server state: the channel tree, the account registry, and the
//! set of online users — plus session establishment and teardown.

use vstd::prelude::*;
use vstd::pervasive::VecAdditionalExecFns;
use vstd::slice::slice_to_vec;
use vstd::string::StringSliceAdditionalSpecFns;
use crate::channel::ChannelTree;
use crate::event::Event;
use crate::perm::{PermLevel, READ_BIT, WRITE_BIT, MANAGE_BIT};
use crate::user::{fnv1a, User, UserConfig};
use crate::util::bytes_eq;

verus! {

/// The index of the first account named `name`.
pub open spec fn user_index(users: Seq<(Vec<u8>, UserConfig)>, name: Seq<u8>) -> Option<int>
    decreases users.len(),
{
    if users.len() == 0 {
        None
    } else if users[0].0@ == name {
        Some(0int)
    } else {
        match user_index(users.drop_first(), name) {
            Some(i) => Some(i + 1),
            None => None,
        }
    }
}

/// Facts about [`user_index`]: it stays in bounds, lands on the name, and is
/// `None` exactly when the name is absent.
pub proof fn lemma_user_index(users: Seq<(Vec<u8>, UserConfig)>, name: Seq<u8>)
    ensures
        user_index(users, name) matches Some(i) ==> 0 <= i < users.len() && users[i].0@ == name,
        (user_index(users, name) is None) <==> (forall|j: int|
            0 <= j < users.len() ==> #[trigger] users[j].0@ != name),
    decreases users.len(),
{
    if users.len() == 0 {
    } else if users[0].0@ == name {
    } else {
        let d = users.drop_first();
        lemma_user_index(d, name);
        if user_index(users, name) is None {
            assert forall|j: int| 0 <= j < users.len() implies #[trigger] users[j].0@ != name by {
                if j > 0 {
                    assert(users[j] == d[j - 1]);
                }
            }
        }
        if forall|j: int| 0 <= j < users.len() ==> #[trigger] users[j].0@ != name {
            assert forall|j: int| 0 <= j < d.len() implies #[trigger] d[j].0@ != name by {
                assert(d[j] == users[j + 1]);
            }
        }
        match user_index(d, name) {
            Some(i) => {
                assert(users[i + 1] == d[i as int]);
            },
            None => {},
        }
    }
}

/// True when some entry of `names` holds exactly the bytes of `name`.
pub open spec fn online_contains(names: Seq<Vec<u8>>, name: Seq<u8>) -> bool {
    exists|j: int| 0 <= j < names.len() && #[trigger] names[j]@ == name
}

/// `names` with its first `name` entry taken out; unchanged when absent.
pub open spec fn remove_online(names: Seq<Vec<u8>>, name: Seq<u8>) -> Seq<Vec<u8>>
    decreases names.len(),
{
    if names.len() == 0 {
        names
    } else if names[0]@ == name {
        names.drop_first()
    } else {
        seq![names[0]] + remove_online(names.drop_first(), name)
    }
}

/// Removing the first `name` entry at its index `k` matches the spec form.
proof fn lemma_remove_online_first(names: Seq<Vec<u8>>, name: Seq<u8>, k: int)
    requires
        0 <= k < names.len(),
        names[k]@ == name,
        forall|j: int| 0 <= j < k ==> #[trigger] names[j]@ != name,
    ensures
        remove_online(names, name) == names.remove(k),
    decreases names.len(),
{
    if k == 0 {
        assert(remove_online(names, name) =~= names.remove(0));
    } else {
        lemma_remove_online_first(names.drop_first(), name, k - 1);
        assert(names.drop_first().remove(k - 1) =~= names.remove(k).drop_first());
        assert(seq![names[0]] + names.remove(k).drop_first() =~= names.remove(k));
    }
}

/// When no entry holds `name`, removal changes nothing.
proof fn lemma_remove_online_none(names: Seq<Vec<u8>>, name: Seq<u8>)
    requires
        forall|j: int| 0 <= j < names.len() ==> #[trigger] names[j]@ != name,
    ensures
        remove_online(names, name) == names,
    decreases names.len(),
{
    if names.len() > 0 {
        lemma_remove_online_none(names.drop_first(), name);
        assert(seq![names[0]] + names.drop_first() =~= names);
    }
}

/// The whole chat service's state.
pub struct Server {
    /// The channel tree; node 0 is the root channel.
    pub tree: ChannelTree,
    /// The account registry, names unique.
    pub users: Vec<(Vec<u8>, UserConfig)>,
    /// The names of the connected users, unique, in connection order.
    pub online_users: Vec<Vec<u8>>,
}

impl Server {
    /// The tree is rooted and the two registries hold no duplicate name.
    pub open spec fn wf(&self) -> bool {
        &&& self.tree.wf()
        &&& forall|i: int, j: int|
            0 <= i < j < self.users.len() ==> self.users[i].0@ != self.users[j].0@
        &&& forall|i: int, j: int|
            0 <= i < j < self.online_users.len() ==> self.online_users[i]@
                != self.online_users[j]@
    }

    /// The index of the account named `name`.
    pub fn find_user(&self, name: &[u8]) -> (r: Option<usize>)
        ensures
            (r is None) == (user_index(self.users@, name@) is None),
            r matches Some(i) ==> i < self.users@.len() && user_index(self.users@, name@)
                == Some(i as int),
    {
        let ghost whole = self.users@;
        let mut i: usize = 0;
        proof {
            assert(whole.skip(0) =~= whole);
            lemma_user_index(whole, name@);
        }
        while i < self.users.len()
            invariant
                i <= whole.len(),
                whole == self.users@,
                forall|j: int| 0 <= j < i ==> #[trigger] whole[j].0@ != name@,
                user_index(whole, name@) matches Some(k) ==> 0 <= k < whole.len()
                    && whole[k].0@ == name@,
                (user_index(whole, name@) is None) <==> (forall|j: int|
                    0 <= j < whole.len() ==> #[trigger] whole[j].0@ != name@),
            decreases whole.len() - i,
        {
            if bytes_eq(self.users[i].0.as_slice(), name) {
                proof {
                    lemma_user_index_first(whole, name@, i as int);
                }
                return Some(i);
            }
            i = i + 1;
        }
        None
    }

    /// Checks a login: the account must exist and the digest of `pass` must
    /// match its stored digest. Returns the account's index exactly then.
    pub fn validate_pass(&self, uname: &[u8], pass: &[u8]) -> (r: Option<usize>)
        ensures
            match user_index(self.users@, uname@) {
                Some(i) => {
                    if self.users@[i].1.hash == fnv1a(pass@) {
                        r matches Some(k) && k == i
                    } else {
                        r is None
                    }
                },
                None => r is None,
            },
    {
        match self.find_user(uname) {
            Some(i) => {
                if self.users[i].1.hash == UserConfig::hash(pass) {
                    Some(i)
                } else {
                    None
                }
            },
            None => None,
        }
    }

    /// The node an absolute path names; `None` when a segment is missing.
    pub fn channel_from_path(&self, path: &Vec<Vec<u8>>) -> (r: Option<usize>)
        requires
            self.wf(),
        ensures
            r == self.tree.resolve_spec(path.deep_view()),
            r matches Some(id) ==> id < self.tree.nodes@.len(),
    {
        self.tree.resolve(path)
    }

    /// Appends a new account. The caller has already ruled the name out of
    /// the registry.
    pub fn add_user(&mut self, name: Vec<u8>, config: UserConfig)
        requires
            old(self).wf(),
            user_index(old(self).users@, name@) is None,
        ensures
            final(self).wf(),
            final(self).users@ == old(self).users@.push((name, config)),
            final(self).tree == old(self).tree,
            final(self).online_users == old(self).online_users,
    {
        proof {
            lemma_user_index(self.users@, name@);
        }
        self.users.push((name, config));
        proof {
            let u1 = self.users@;
            assert forall|i: int, j: int| 0 <= i < j < u1.len() implies u1[i].0@ != u1[j].0@ by {
                if j == u1.len() - 1 {
                    assert(u1[i] == old(self).users@[i]);
                }
            }
        }
    }

    /// Overwrites the stored password digest of the account at `i`.
    pub fn set_user_hash(&mut self, i: usize, h: u64)
        requires
            old(self).wf(),
            i < old(self).users@.len(),
        ensures
            final(self).wf(),
            final(self).users@.len() == old(self).users@.len(),
            final(self).users@[i as int].0 == old(self).users@[i as int].0,
            final(self).users@[i as int].1.hash == h,
            final(self).users@[i as int].1.roles == old(self).users@[i as int].1.roles,
            forall|j: int|
                0 <= j < old(self).users@.len() && j != i
                    ==> final(self).users@[j] == old(self).users@[j],
            final(self).tree == old(self).tree,
            final(self).online_users == old(self).online_users,
    {
        let mut entry = (Vec::new(), UserConfig { hash: h, roles: Vec::new() });
        self.users.set_and_swap(i, &mut entry);
        let (name, config) = entry;
        let mut entry2 = (name, UserConfig { hash: h, roles: config.roles });
        self.users.set_and_swap(i, &mut entry2);
        proof {
            assert(self.users@ =~= old(self).users@.update(
                i as int,
                self.users@[i as int],
            ));
            assert forall|a: int, b: int|
                0 <= a < b < self.users@.len() implies self.users@[a].0@
                != self.users@[b].0@ by {
                assert(self.users@[a].0 == old(self).users@[a].0);
                assert(self.users@[b].0 == old(self).users@[b].0);
            }
        }
    }

    /// Marks `name` online; nothing changes when it already is.
    pub fn go_online(&mut self, name: &[u8])
        requires
            old(self).wf(),
        ensures
            final(self).wf(),
            final(self).tree == old(self).tree,
            final(self).users == old(self).users,
            online_contains(final(self).online_users@, name@),
            online_contains(old(self).online_users@, name@)
                ==> final(self).online_users == old(self).online_users,
            !online_contains(old(self).online_users@, name@)
                ==> final(self).online_users@.len() == old(self).online_users@.len() + 1
                    && final(self).online_users@.last()@ == name@
                    && (forall|j: int|
                        0 <= j < old(self).online_users@.len()
                            ==> final(self).online_users@[j] == old(self).online_users@[j]),
    {
        let mut i: usize = 0;
        while i < self.online_users.len()
            invariant
                self == old(self),
                self.wf(),
                i <= self.online_users@.len(),
                forall|j: int| 0 <= j < i ==> #[trigger] self.online_users@[j]@ != name@,
            decreases self.online_users@.len() - i,
        {
            if bytes_eq(self.online_users[i].as_slice(), name) {
                return ;
            }
            i = i + 1;
        }
        let owned = slice_to_vec(name);
        self.online_users.push(owned);
        proof {
            let o1 = self.online_users@;
            assert(o1[o1.len() - 1]@ == name@);
            assert(online_contains(o1, name@));
            assert forall|a: int, b: int| 0 <= a < b < o1.len() implies o1[a]@ != o1[b]@ by {
                if b == o1.len() - 1 {
                    assert(o1[a] == old(self).online_users@[a]);
                }
            }
        }
    }

    /// Marks `name` offline; nothing changes when it was not online.
    pub fn go_offline(&mut self, name: &[u8])
        requires
            old(self).wf(),
        ensures
            final(self).wf(),
            final(self).tree == old(self).tree,
            final(self).users == old(self).users,
            forall|j: int|
                0 <= j < final(self).online_users@.len()
                    ==> #[trigger] final(self).online_users@[j]@ != name@,
            final(self).online_users@ == remove_online(old(self).online_users@, name@),
    {
        let mut i: usize = 0;
        while i < self.online_users.len()
            invariant
                self.wf(),
                self.tree == old(self).tree,
                self.users == old(self).users,
                i <= self.online_users@.len(),
                self.online_users@ == old(self).online_users@,
                forall|j: int| 0 <= j < i ==> #[trigger] self.online_users@[j]@ != name@,
            decreases self.online_users@.len() - i,
        {
            if bytes_eq(self.online_users[i].as_slice(), name) {
                let ghost o0 = self.online_users@;
                self.online_users.remove(i);
                proof {
                    lemma_remove_online_first(o0, name@, i as int);
                    let o1 = self.online_users@;
                    assert forall|j: int| 0 <= j < o1.len() implies #[trigger] o1[j]@
                        != name@ by {
                        if j < i {
                            assert(o1[j] == o0[j]);
                        } else {
                            assert(o1[j] == o0[j + 1]);
                            assert(o0[i as int]@ == name@);
                        }
                    }
                    assert forall|a: int, b: int| 0 <= a < b < o1.len() implies o1[a]@
                        != o1[b]@ by {
                        let a0: int = if a < i { a } else { a + 1 };
                        let b0: int = if b < i { b } else { b + 1 };
                        assert(o1[a] == o0[a0]);
                        assert(o1[b] == o0[b0]);
                    }
                }
                return ;
            }
            i = i + 1;
        }
        proof {
            lemma_remove_online_none(self.online_users@, name@);
        }
    }

    /// Opens a session for the authenticated `name`: marks it online,
    /// subscribes a fresh session to the root channel, and announces the
    /// join on the root bus. The session's cursor starts before its own
    /// join event, so the new user sees themselves join.
    pub fn open_session(&mut self, name: Vec<u8>) -> (u: User)
        requires
            old(self).wf(),
            old(self).tree.nodes[0].bus.log().len() < u64::MAX,
        ensures
            final(self).wf(),
            u.wf(&final(self).tree),
            u.name == name,
            u.buffer@.len() == 0,
            u.cursor == 0,
            u.state is Normal,
            u.path@.len() == 0,
            u.channel.channel == 0,
            u.channel.next == old(self).tree.nodes[0].bus.log().len(),
            final(self).tree.nodes[0].bus.log() == old(self).tree.nodes[0].bus.log().push(
                crate::event::EventView::Join { who: name@ },
            ),
            final(self).users == old(self).users,
            online_contains(final(self).online_users@, name@),
            online_contains(old(self).online_users@, name@)
                ==> final(self).online_users == old(self).online_users,
            !online_contains(old(self).online_users@, name@)
                ==> final(self).online_users@.len() == old(self).online_users@.len() + 1
                    && final(self).online_users@.last()@ == name@
                    && (forall|j: int|
                        0 <= j < old(self).online_users@.len()
                            ==> final(self).online_users@[j] == old(self).online_users@[j]),
    {
        self.go_online(name.as_slice());
        let user = User::new(name, &self.tree);
        let joined = slice_to_vec(user.name.as_slice());
        self.tree.publish(0, Event::Join(joined));
        user
    }

    /// Tears a session down: announces the leave and then the session's own
    /// terminate sentinel on its current channel, and marks the user
    /// offline. The delivery loop stops when it reaches the sentinel.
    pub fn close_session(&mut self, user: &User)
        requires
            old(self).wf(),
            user.wf(&old(self).tree),
            old(self).tree.nodes[user.channel.channel as int].bus.log().len() + 2 <= u64::MAX,
        ensures
            final(self).wf(),
            user.wf(&final(self).tree),
            final(self).tree.nodes[user.channel.channel as int].bus.log() == old(
                self,
            ).tree.nodes[user.channel.channel as int].bus.log().push(
                crate::event::EventView::Leave { who: user.name@ },
            ).push(crate::event::EventView::Terminate),
            final(self).users == old(self).users,
            final(self).online_users@ == remove_online(old(self).online_users@, user.name@),
            forall|j: int|
                0 <= j < final(self).online_users@.len()
                    ==> #[trigger] final(self).online_users@[j]@ != user.name@,
    {
        let who = slice_to_vec(user.name.as_slice());
        user.channel.send(&mut self.tree, Event::Leave(who));
        user.channel.send(&mut self.tree, Event::Terminate);
        self.go_offline(user.name.as_slice());
    }
}

/// True when no two accounts share a name.
pub open spec fn users_unique(users: Seq<(Vec<u8>, UserConfig)>) -> bool {
    forall|i: int, j: int| 0 <= i < j < users.len() ==> users[i].0@ != users[j].0@
}

/// Assembles a server from a rebuilt tree and a loaded account registry —
/// the compute half of loading persisted state. Succeeds exactly when no
/// account name repeats; nobody starts online.
pub fn assemble(tree: ChannelTree, users: Vec<(Vec<u8>, UserConfig)>) -> (r: Option<Server>)
    requires
        tree.wf(),
    ensures
        (r is Some) == users_unique(users@),
        r matches Some(s) ==> s.wf() && s.tree == tree && s.users == users
            && s.online_users@.len() == 0,
{
    let mut i: usize = 0;
    while i < users.len()
        invariant
            i <= users@.len(),
            forall|a: int, b: int| 0 <= a < b < i ==> users@[a].0@ != users@[b].0@,
        decreases users@.len() - i,
    {
        let mut j: usize = 0;
        while j < i
            invariant
                j <= i < users@.len(),
                forall|a: int| 0 <= a < j ==> #[trigger] users@[a].0@ != users@[i as int].0@,
            decreases i - j,
        {
            if bytes_eq(users[j].0.as_slice(), users[i].0.as_slice()) {
                return None;
            }
            j = j + 1;
        }
        i = i + 1;
    }
    Some(Server { tree, users, online_users: Vec::new() })
}

impl Default for Server {
    /// The state a server starts from when nothing was persisted: one root
    /// channel with no rules, one privileged account named `admin` whose
    /// password is `admin` and whose single role grants every capability,
    /// and nobody online.
    fn default() -> (r: Server)
        ensures
            r.wf(),
            r.tree.nodes@.len() == 1,
            r.tree.nodes[0].perms@.len() == 0,
            r.tree.nodes[0].children@.len() == 0,
            r.tree.nodes[0].bus.log().len() == 0,
            r.users@.len() == 1,
            r.users@[0].0@ == "admin".spec_bytes(),
            r.users@[0].1.hash == fnv1a("admin".spec_bytes()),
            r.users@[0].1.roles@.len() == 1,
            r.users@[0].1.roles@[0].0@ == "admin".spec_bytes(),
            r.users@[0].1.roles@[0].1.bits == (READ_BIT | WRITE_BIT | MANAGE_BIT),
            r.online_users@.len() == 0,
    {
        let name = slice_to_vec("admin".as_bytes());
        let role_name = slice_to_vec("admin".as_bytes());
        let level = PermLevel::read().or(PermLevel::write()).or(PermLevel::manage());
        let mut roles: Vec<(Vec<u8>, PermLevel)> = Vec::new();
        roles.push((role_name, level));
        let mut config = UserConfig::new("admin".as_bytes());
        config.roles = roles;
        let mut users: Vec<(Vec<u8>, UserConfig)> = Vec::new();
        users.push((name, config));
        Server { tree: ChannelTree::new(), users, online_users: Vec::new() }
    }
}

/// When entry `i` carries `name` and no earlier entry does, `user_index`
/// lands on `i`.
proof fn lemma_user_index_first(users: Seq<(Vec<u8>, UserConfig)>, name: Seq<u8>, i: int)

    requires
        0 <= i < users.len(),
        users[i].0@ == name,
        forall|j: int| 0 <= j < i ==> #[trigger] users[j].0@ != name,
    ensures
        user_index(users, name) == Some(i),
    decreases i,
{
    if i > 0 {
        lemma_user_index_first(users.drop_first(), name, i - 1);
    }
}

} // verus!
