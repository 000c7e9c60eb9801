//! The channel tree: named nodes, each owning a permission list, a child
//! map and an event bus.
//!
//! Nodes live in an arena indexed by creation order, so a child's index is
//! always greater than its parent's — that gives the tree its acyclicity.
//! Removing a channel only detaches it from its parent's child list: the
//! node and its bus survive, so sessions already subscribed to it keep
//! receiving events (an orphaned channel), exactly until they switch away.

use vstd::prelude::*;
use vstd::pervasive::VecAdditionalExecFns;
use vstd::string::StringSliceAdditionalSpecFns;
use crate::bus::{Bus, RecvOutcome};
use crate::event::Event;
use crate::perm::PermEntry;
use crate::term::push_str;
use crate::util::{bytes_eq, push_all, fmt_u64, dec_rep};

verus! {

/// One node of the channel tree.
pub struct Channel {
    /// Access rules, kept sorted by specificity.
    pub perms: Vec<PermEntry>,
    /// Child name to arena index of the child node.
    pub children: Vec<(Vec<u8>, usize)>,
    /// This channel's event bus.
    pub bus: Bus,
}

/// The arena index of the first child named `name`, scanning in stored order.
pub open spec fn child_id(children: Seq<(Vec<u8>, usize)>, name: Seq<u8>) -> Option<usize>
    decreases children.len(),
{
    if children.len() == 0 {
        None
    } else if children[0].0@ == name {
        Some(children[0].1)
    } else {
        child_id(children.drop_first(), name)
    }
}

/// `child_id` finds an entry exactly when one carries the name.
pub proof fn lemma_child_id(children: Seq<(Vec<u8>, usize)>, name: Seq<u8>)
    ensures
        (child_id(children, name) is None) <==> (forall|i: int|
            0 <= i < children.len() ==> #[trigger] children[i].0@ != name),
        child_id(children, name) matches Some(c) ==> exists|i: int|
            0 <= i < children.len() && #[trigger] children[i].0@ == name && children[i].1 == c,
    decreases children.len(),
{
    if children.len() == 0 {
    } else if children[0].0@ == name {
    } else {
        let d = children.drop_first();
        lemma_child_id(d, name);
        if child_id(children, name) is None {
            assert forall|i: int| 0 <= i < children.len() implies #[trigger] children[i].0@
                != name by {
                if i > 0 {
                    assert(children[i] == d[i - 1]);
                }
            }
        }
        if forall|i: int| 0 <= i < children.len() ==> #[trigger] children[i].0@ != name {
            assert forall|i: int| 0 <= i < d.len() implies #[trigger] d[i].0@ != name by {
                assert(d[i] == children[i + 1]);
            }
        }
        match child_id(d, name) {
            Some(c) => {
                let i = choose|i: int|
                    0 <= i < d.len() && #[trigger] d[i].0@ == name && d[i].1 == c;
                assert(children[i + 1] == d[i]);
                assert(children[i + 1].0@ == name);
            },
            None => {},
        }
    }
}

/// The first `name` entry taken out; unchanged when none carries the name.
pub open spec fn remove_child_entry(
    children: Seq<(Vec<u8>, usize)>,
    name: Seq<u8>,
) -> Seq<(Vec<u8>, usize)>
    decreases children.len(),
{
    if children.len() == 0 {
        children
    } else if children[0].0@ == name {
        children.drop_first()
    } else {
        seq![children[0]] + remove_child_entry(children.drop_first(), name)
    }
}

impl Channel {
    /// Structural health of one node: children point strictly forward in the
    /// arena and carry distinct names.
    pub open spec fn wf(&self, own: int, n: int) -> bool {
        &&& self.bus.wf()
        &&& forall|i: int| 0 <= i < self.children.len() ==> own < #[trigger] self.children[i].1 < n
        &&& forall|i: int, j: int|
            0 <= i < j < self.children.len() ==> self.children[i].0@ != self.children[j].0@
    }

    /// A fresh channel: no rules, no children, an empty bus.
    pub fn new() -> (r: Channel)
        ensures
            r.perms@.len() == 0,
            r.children@.len() == 0,
            r.bus.wf(),
            r.bus.log().len() == 0,
    {
        Channel { perms: Vec::new(), children: Vec::new(), bus: Bus::new() }
    }

    /// The arena index of the child named `name`, executable form.
    pub fn find_child(&self, name: &[u8]) -> (r: Option<usize>)
        ensures
            r == child_id(self.children@, name@),
    {
        let mut i: usize = 0;
        proof {
            assert(self.children@.skip(0) =~= self.children@);
        }
        while i < self.children.len()
            invariant
                i <= self.children@.len(),
                child_id(self.children@.skip(i as int), name@) == child_id(self.children@, name@),
            decreases self.children@.len() - i,
        {
            proof {
                assert(self.children@.skip(i as int).drop_first() =~= self.children@.skip(i + 1));
            }
            if bytes_eq(self.children[i].0.as_slice(), name) {
                return Some(self.children[i].1);
            }
            i = i + 1;
        }
        None
    }
}

/// All nodes of an arena are well formed.
pub open spec fn nodes_wf(nodes: Seq<Channel>) -> bool {
    forall|i: int| 0 <= i < nodes.len() ==> #[trigger] nodes[i].wf(i, nodes.len() as int)
}

/// The node reached from `at` by following `path` one segment at a time.
pub open spec fn resolve_from(nodes: Seq<Channel>, at: usize, path: Seq<Seq<u8>>) -> Option<usize>
    decreases path.len(),
{
    if at >= nodes.len() {
        None
    } else if path.len() == 0 {
        Some(at)
    } else {
        match child_id(nodes[at as int].children@, path[0]) {
            Some(c) => resolve_from(nodes, c, path.drop_first()),
            None => None,
        }
    }
}

/// Read resolution is idempotent: two resolutions of the same path against
/// the same tree — no mutation in between — name the same node.
pub proof fn lemma_resolve_idempotent(
    tree: ChannelTree,
    path: Seq<Seq<u8>>,
    r1: Option<usize>,
    r2: Option<usize>,
)
    requires
        r1 == tree.resolve_spec(path),
        r2 == tree.resolve_spec(path),
    ensures
        r1 == r2,
{
}

/// The rooted arena of channel nodes; index 0 is the root.
pub struct ChannelTree {
    pub nodes: Vec<Channel>,
}

impl ChannelTree {
    /// The arena holds a root and every node is well formed.
    pub open spec fn wf(&self) -> bool {
        &&& 1 <= self.nodes.len()
        &&& nodes_wf(self.nodes@)
    }

    /// The node `path` names, starting from the root.
    pub open spec fn resolve_spec(&self, path: Seq<Seq<u8>>) -> Option<usize> {
        resolve_from(self.nodes@, 0, path)
    }

    /// A tree holding only a root channel.
    pub fn new() -> (r: ChannelTree)
        ensures
            r.wf(),
            r.nodes@.len() == 1,
            r.nodes[0].perms@.len() == 0,
            r.nodes[0].children@.len() == 0,
            r.nodes[0].bus.log().len() == 0,
    {
        let mut nodes: Vec<Channel> = Vec::new();
        nodes.push(Channel::new());
        ChannelTree { nodes }
    }

    /// Walks `path` from the root, one segment at a time, and returns the
    /// node it names; `None` when some segment is missing.
    pub fn resolve(&self, path: &Vec<Vec<u8>>) -> (r: Option<usize>)
        requires
            self.wf(),
        ensures
            r == self.resolve_spec(path.deep_view()),
            r matches Some(id) ==> id < self.nodes@.len(),
    {
        let ghost full: Seq<Seq<u8>> = path.deep_view();
        let mut at: usize = 0;
        let mut k: usize = 0;
        proof {
            assert(full.skip(0) =~= full);
        }
        while k < path.len()
            invariant
                self.wf(),
                k <= path@.len(),
                at < self.nodes@.len(),
                full == path.deep_view(),
                full.len() == path@.len(),
                forall|j: int| 0 <= j < full.len() ==> full[j] == #[trigger] path@[j]@,
                resolve_from(self.nodes@, at, full.skip(k as int)) == self.resolve_spec(full),
            decreases path@.len() - k,
        {
            proof {
                assert(full.skip(k as int).drop_first() =~= full.skip(k + 1));
                assert(full.skip(k as int)[0] == path@[k as int]@);
                assert(self.nodes@[at as int].wf(at as int, self.nodes@.len() as int));
            }
            match self.nodes[at].find_child(path[k].as_slice()) {
                Some(c) => {
                    proof {
                        lemma_child_id(self.nodes@[at as int].children@, path@[k as int]@);
                    }
                    at = c;
                },
                None => {
                    proof {
                        assert(resolve_from(self.nodes@, at, full.skip(k as int)) is None);
                    }
                    return None;
                },
            }
            k = k + 1;
        }
        proof {
            assert(full.skip(k as int) =~= Seq::<Seq<u8>>::empty());
        }
        Some(at)
    }

    /// Appends a fresh channel under `parent` with the given rules and an
    /// empty bus, and returns its arena index. The caller has already ruled
    /// out a name collision.
    pub fn create(&mut self, parent: usize, name: Vec<u8>, perms: Vec<PermEntry>) -> (id: usize)
        requires
            old(self).wf(),
            parent < old(self).nodes@.len(),
            child_id(old(self).nodes[parent as int].children@, name@) is None,
        ensures
            final(self).wf(),
            id == old(self).nodes@.len(),
            final(self).nodes@.len() == old(self).nodes@.len() + 1,
            final(self).nodes[id as int].perms == perms,
            final(self).nodes[id as int].children@.len() == 0,
            final(self).nodes[id as int].bus.log().len() == 0,
            final(self).nodes[parent as int].children@
                == old(self).nodes[parent as int].children@.push((name, id)),
            final(self).nodes[parent as int].perms == old(self).nodes[parent as int].perms,
            final(self).nodes[parent as int].bus == old(self).nodes[parent as int].bus,
            forall|i: int|
                0 <= i < old(self).nodes@.len() && i != parent
                    ==> final(self).nodes[i] == old(self).nodes[i],
    {
        let id = self.nodes.len();
        let mut node = Channel::new();
        node.perms = perms;
        self.nodes.push(node);
        let mut parent_node = Channel::new();
        self.nodes.set_and_swap(parent, &mut parent_node);
        parent_node.children.push((name, id));
        self.nodes.set_and_swap(parent, &mut parent_node);
        proof {
            let n0 = old(self).nodes@;
            let n1 = self.nodes@;
            assert(forall|i: int| 0 <= i < n0.len() && i != parent ==> n1[i] == n0[i]);
            lemma_child_id(n0[parent as int].children@, name@);
            assert forall|i: int| 0 <= i < n1.len() implies #[trigger] n1[i].wf(
                i,
                n1.len() as int,
            ) by {
                if i < n0.len() {
                    assert(n0[i].wf(i, n0.len() as int));
                    if i == parent {
                        let c0 = n0[parent as int].children@;
                        let c1 = n1[parent as int].children@;
                        assert(c1 =~= c0.push((name, id)));
                        assert forall|a: int, b: int| 0 <= a < b < c1.len() implies c1[a].0@
                            != c1[b].0@ by {
                            if b == c1.len() - 1 {
                                assert(c1[a].0@ != name@);
                            }
                        }
                    }
                }
            }
        }
        id
    }

    /// Detaches the child named `name` from `parent`'s child list and says
    /// whether one was there. The node itself stays in the arena, so
    /// subscriptions already held into it keep working.
    pub fn remove_child(&mut self, parent: usize, name: &[u8]) -> (r: bool)
        requires
            old(self).wf(),
            parent < old(self).nodes@.len(),
        ensures
            final(self).wf(),
            final(self).nodes@.len() == old(self).nodes@.len(),
            r == (child_id(old(self).nodes[parent as int].children@, name@) is Some),
            final(self).nodes[parent as int].children@
                == remove_child_entry(old(self).nodes[parent as int].children@, name@),
            final(self).nodes[parent as int].perms == old(self).nodes[parent as int].perms,
            final(self).nodes[parent as int].bus == old(self).nodes[parent as int].bus,
            forall|i: int|
                0 <= i < old(self).nodes@.len() && i != parent
                    ==> final(self).nodes[i] == old(self).nodes[i],
    {
        let ghost c0 = old(self).nodes[parent as int].children@;
        let mut parent_node = Channel::new();
        self.nodes.set_and_swap(parent, &mut parent_node);
        let found = find_child_index(&parent_node.children, name);
        let r = match found {
            Some(k) => {
                parent_node.children.remove(k);
                proof {
                    lemma_remove_first_entry(c0, name@, k as int);
                }
                true
            },
            None => {
                proof {
                    lemma_child_id(c0, name@);
                    lemma_remove_none(c0, name@);
                }
                false
            },
        };
        self.nodes.set_and_swap(parent, &mut parent_node);
        proof {
            lemma_child_id(c0, name@);
            let n0 = old(self).nodes@;
            let n1 = self.nodes@;
            assert(n1 =~= n0.update(parent as int, n1[parent as int]));
            assert forall|i: int| 0 <= i < n1.len() implies #[trigger] n1[i].wf(
                i,
                n1.len() as int,
            ) by {
                assert(n0[i].wf(i, n0.len() as int));
                if i == parent {
                    lemma_remove_entry_wf(c0, name@, parent as int, n0.len() as int);
                }
            }
        }
        r
    }

    /// A fresh subscription into `node`'s bus: its cursor starts at the end
    /// of the log, so only events published after this call are delivered.
    pub fn subscribe(&self, node: usize) -> (s: SubscribedChannel)
        requires
            self.wf(),
            node < self.nodes@.len(),
        ensures
            s.channel == node,
            s.next == self.nodes[node as int].bus.log().len(),
            s.wf(self),
    {
        proof {
            assert(self.nodes@[node as int].wf(node as int, self.nodes@.len() as int));
        }
        let n = self.nodes[node].bus.log_len();
        SubscribedChannel { channel: node, next: n }
    }

    /// Publishes `e` into `node`'s bus; nothing else moves.
    pub fn publish(&mut self, node: usize, e: Event)
        requires
            old(self).wf(),
            node < old(self).nodes@.len(),
            old(self).nodes[node as int].bus.log().len() < u64::MAX,
        ensures
            final(self).wf(),
            final(self).nodes@.len() == old(self).nodes@.len(),
            final(self).nodes[node as int].bus.log()
                == old(self).nodes[node as int].bus.log().push(e@),
            final(self).nodes[node as int].perms == old(self).nodes[node as int].perms,
            final(self).nodes[node as int].children == old(self).nodes[node as int].children,
            forall|i: int|
                0 <= i < old(self).nodes@.len() && i != node
                    ==> final(self).nodes[i] == old(self).nodes[i],
    {
        proof {
            assert(old(self).nodes@[node as int].wf(node as int, old(self).nodes@.len() as int));
        }
        let mut n = Channel::new();
        self.nodes.set_and_swap(node, &mut n);
        n.bus.publish(e);
        self.nodes.set_and_swap(node, &mut n);
        proof {
            let n0 = old(self).nodes@;
            let n1 = self.nodes@;
            assert(n1 =~= n0.update(node as int, n1[node as int]));
            assert forall|i: int| 0 <= i < n1.len() implies #[trigger] n1[i].wf(
                i,
                n1.len() as int,
            ) by {
                assert(n0[i].wf(i, n0.len() as int));
            }
        }
    }

    /// The names of `node`'s children, in stored order.
    pub fn list_children(&self, node: usize) -> (r: Vec<Vec<u8>>)
        requires
            self.wf(),
            node < self.nodes@.len(),
        ensures
            r.deep_view() == self.nodes[node as int].children@.map_values(
                |c: (Vec<u8>, usize)| c.0@,
            ),
    {
        let cs = &self.nodes[node].children;
        let mut r: Vec<Vec<u8>> = Vec::new();
        let mut i: usize = 0;
        while i < cs.len()
            invariant
                i <= cs@.len(),
                r.deep_view() =~~= cs@.map_values(|c: (Vec<u8>, usize)| c.0@).take(i as int),
            decreases cs@.len() - i,
        {
            let c = cs[i].0.clone();
            proof {
                assert(c@ =~= cs@[i as int].0@);
            }
            r.push(c);
            proof {
                assert(r.deep_view() =~~= cs@.map_values(|c: (Vec<u8>, usize)| c.0@).take(
                    i + 1,
                ));
            }
            i = i + 1;
        }
        proof {
            let m = cs@.map_values(|c: (Vec<u8>, usize)| c.0@);
            assert(m.take(cs@.len() as int) =~= m);
        }
        r
    }
}

/// The index of the first child entry named `name`.
fn find_child_index(children: &Vec<(Vec<u8>, usize)>, name: &[u8]) -> (r: Option<usize>)
    ensures
        r matches Some(k) ==> k < children@.len() && children@[k as int].0@ == name@ && (
        forall|j: int| 0 <= j < k ==> #[trigger] children@[j].0@ != name@),
        r is None ==> forall|j: int| 0 <= j < children@.len() ==> #[trigger] children@[j].0@ != name@,
{
    let mut i: usize = 0;
    while i < children.len()
        invariant
            i <= children@.len(),
            forall|j: int| 0 <= j < i ==> #[trigger] children@[j].0@ != name@,
        decreases children@.len() - i,
    {
        if bytes_eq(children[i].0.as_slice(), name) {
            return Some(i);
        }
        i = i + 1;
    }
    None
}

/// Removing the first `name` entry at its index `k` matches the spec form.
proof fn lemma_remove_first_entry(children: Seq<(Vec<u8>, usize)>, name: Seq<u8>, k: int)
    requires
        0 <= k < children.len(),
        children[k].0@ == name,
        forall|j: int| 0 <= j < k ==> #[trigger] children[j].0@ != name,
    ensures
        remove_child_entry(children, name) == children.remove(k),
    decreases children.len(),
{
    if k == 0 {
        assert(remove_child_entry(children, name) =~= children.remove(0));
    } else {
        lemma_remove_first_entry(children.drop_first(), name, k - 1);
        assert(children.drop_first().remove(k - 1) =~= children.remove(k).drop_first());
        assert(seq![children[0]] + children.remove(k).drop_first() =~= children.remove(k));
    }
}

/// When no entry carries `name`, removal changes nothing.
proof fn lemma_remove_none(children: Seq<(Vec<u8>, usize)>, name: Seq<u8>)
    requires
        forall|j: int| 0 <= j < children.len() ==> #[trigger] children[j].0@ != name,
    ensures
        remove_child_entry(children, name) == children,
    decreases children.len(),
{
    if children.len() > 0 {
        lemma_remove_none(children.drop_first(), name);
        assert(seq![children[0]] + children.drop_first() =~= children);
    }
}

/// Removal keeps the surviving entries' ids in range and their names
/// pairwise distinct.
proof fn lemma_remove_entry_wf(children: Seq<(Vec<u8>, usize)>, name: Seq<u8>, own: int, n: int)
    requires
        forall|i: int| 0 <= i < children.len() ==> own < #[trigger] children[i].1 < n,
        forall|i: int, j: int| 0 <= i < j < children.len() ==> children[i].0@ != children[j].0@,
    ensures
        forall|i: int|
            0 <= i < remove_child_entry(children, name).len()
                ==> own < #[trigger] remove_child_entry(children, name)[i].1 < n,
        forall|i: int, j: int|
            0 <= i < j < remove_child_entry(children, name).len()
                ==> remove_child_entry(children, name)[i].0@
                != remove_child_entry(children, name)[j].0@,
    decreases children.len(),
{
    let res = remove_child_entry(children, name);
    if children.len() == 0 {
    } else {
        let d = children.drop_first();
        assert forall|i: int| 0 <= i < d.len() implies own < #[trigger] d[i].1 < n by {
            assert(d[i] == children[i + 1]);
        }
        assert forall|i: int, j: int| 0 <= i < j < d.len() implies d[i].0@ != d[j].0@ by {
            assert(d[i] == children[i + 1]);
            assert(d[j] == children[j + 1]);
        }
        if children[0].0@ == name {
        } else {
            lemma_remove_entry_wf(d, name, own, n);
            lemma_remove_entry_subset(d, name);
            let rd = remove_child_entry(d, name);
            assert(res =~= seq![children[0]] + rd);
            assert forall|i: int, j: int| 0 <= i < j < res.len() implies res[i].0@
                != res[j].0@ by {
                if i == 0 {
                    assert(res[j] == rd[j - 1]);
                    let w = choose|w: int| 0 <= w < d.len() && #[trigger] rd[j - 1] == d[w];
                    assert(d[w] == children[w + 1]);
                    assert(children[0].0@ != children[w + 1].0@);
                } else {
                    assert(res[i] == rd[i - 1]);
                    assert(res[j] == rd[j - 1]);
                }
            }
            assert forall|i: int| 0 <= i < res.len() implies own < #[trigger] res[i].1 < n by {
                if i > 0 {
                    assert(res[i] == rd[i - 1]);
                }
            }
        }
    }
}

/// Every entry surviving a removal stood in the original list.
proof fn lemma_remove_entry_subset(children: Seq<(Vec<u8>, usize)>, name: Seq<u8>)
    ensures
        forall|i: int|
            0 <= i < remove_child_entry(children, name).len()
                ==> exists|j: int|
                    0 <= j < children.len() && #[trigger] remove_child_entry(children, name)[i]
                        == children[j],
    decreases children.len(),
{
    if children.len() > 0 {
        let d = children.drop_first();
        lemma_remove_entry_subset(d, name);
        if children[0].0@ == name {
            assert forall|i: int|
                0 <= i < remove_child_entry(children, name).len() implies exists|j: int|
                0 <= j < children.len() && #[trigger] remove_child_entry(children, name)[i]
                    == children[j] by {
                assert(remove_child_entry(children, name)[i] == children[i + 1]);
            }
        } else {
            let rd = remove_child_entry(d, name);
            assert(remove_child_entry(children, name) =~= seq![children[0]] + rd);
            assert forall|i: int|
                0 <= i < remove_child_entry(children, name).len() implies exists|j: int|
                0 <= j < children.len() && #[trigger] remove_child_entry(children, name)[i]
                    == children[j] by {
                if i == 0 {
                    assert(remove_child_entry(children, name)[0] == children[0]);
                } else {
                    assert(remove_child_entry(children, name)[i] == rd[i - 1]);
                    let w = choose|w: int| 0 <= w < d.len() && #[trigger] rd[i - 1] == d[w];
                    assert(d[w] == children[w + 1]);
                }
            }
        }
    }
}

/// Three spaces per level, from level two on.
pub open spec fn indent(level: nat) -> Seq<u8>
    decreases level,
{
    if level == 0 {
        Seq::empty()
    } else {
        "   ".spec_bytes() + indent((level - 1) as nat)
    }
}

/// One line of the tree drawing: depth, indent, branch glyph, name.
pub open spec fn draw_line(level: nat, name: Seq<u8>, last: bool) -> Seq<u8> {
    dec_rep(level) + (if level <= 1 {
        Seq::empty()
    } else {
        indent(level)
    }) + (if level < 1 {
        Seq::empty()
    } else if last {
        "└─".spec_bytes()
    } else {
        "├─".spec_bytes()
    }) + name + "\r\n".spec_bytes()
}

/// The drawing of the subtree rooted at `at`, labelled `name`.
pub open spec fn draw_node(nodes: Seq<Channel>, name: Seq<u8>, at: usize, level: nat, last: bool) -> Seq<u8>
    decreases nodes.len() - at, 1int, 0int,
    when at < nodes.len() && nodes_wf(nodes)
{
    draw_line(level, name, last) + draw_children(nodes, at, nodes[at as int].children@, (level + 1) as nat)
}

/// The drawings of the children still to visit, `cs`, one subtree each.
pub open spec fn draw_children(nodes: Seq<Channel>, at: usize, cs: Seq<(Vec<u8>, usize)>, level: nat) -> Seq<u8>
    decreases nodes.len() - at, 0int, cs.len(),
    when at < nodes.len() && nodes_wf(nodes) && (forall|i: int|
        0 <= i < cs.len() ==> at < #[trigger] cs[i].1 < nodes.len())
{
    if cs.len() == 0 {
        Seq::empty()
    } else {
        draw_node(nodes, cs[0].0@, cs[0].1, level, cs.len() == 1)
            + draw_children(nodes, at, cs.drop_first(), level)
    }
}

impl ChannelTree {
    /// Appends the drawing of the subtree rooted at `at` to `out`.
    fn draw(&self, out: &mut Vec<u8>, name: &[u8], at: usize, level: usize, last: bool)
        requires
            self.wf(),
            at < self.nodes@.len(),
            level <= at,
        ensures
            final(out)@ == old(out)@ + draw_node(self.nodes@, name@, at, level as nat, last),
        decreases self.nodes@.len() - at,
    {
        let digits = fmt_u64(level as u64);
        push_all(out, digits.as_slice());
        if level > 1 {
            let mut l: usize = 0;
            let ghost mid = out@;
            while l < level
                invariant
                    l <= level,
                    out@ == mid + indent(l as nat),
                decreases level - l,
            {
                let ghost before = out@;
                push_str(out, "   ");
                proof {
                    assert(before + "   ".spec_bytes() =~= mid + indent((l + 1) as nat)) by {
                        lemma_indent_step(l as nat);
                    }
                }
                l = l + 1;
            }
        }
        if level >= 1 {
            if last {
                push_str(out, "└─");
            } else {
                push_str(out, "├─");
            }
        }
        push_all(out, name);
        push_str(out, "\r\n");
        proof {
            assert(out@ =~= old(out)@ + draw_line(level as nat, name@, last));
        }
        let ghost lvl1: nat = (level + 1) as nat;
        let ghost cs0 = self.nodes@[at as int].children@;
        let n = self.nodes[at].children.len();
        let mut i: usize = 0;
        proof {
            assert(self.nodes@[at as int].wf(at as int, self.nodes@.len() as int));
            assert(cs0.skip(0) =~= cs0);
        }
        while i < n
            invariant
                self.wf(),
                at < self.nodes@.len(),
                level <= at,
                n == self.nodes@[at as int].children@.len(),
                cs0 == self.nodes@[at as int].children@,
                lvl1 == (level + 1) as nat,
                i <= n,
                out@ + draw_children(self.nodes@, at, cs0.skip(i as int), lvl1)
                    == old(out)@ + draw_node(self.nodes@, name@, at, level as nat, last),
            decreases n - i,
        {
            proof {
                assert(self.nodes@[at as int].wf(at as int, self.nodes@.len() as int));
                assert(cs0.skip(i as int)[0] == cs0[i as int]);
                assert(cs0.skip(i as int).drop_first() =~= cs0.skip(i + 1));
            }
            let child = self.nodes[at].children[i].1;
            let cname = self.nodes[at].children[i].0.clone();
            proof {
                assert(cname@ =~= cs0[i as int].0@);
            }
            let is_last = i == n - 1;
            proof {
                assert((cs0.skip(i as int).len() == 1) == is_last);
            }
            self.draw(out, cname.as_slice(), child, level + 1, is_last);
            proof {
                assert(draw_children(self.nodes@, at, cs0.skip(i as int), lvl1)
                    == draw_node(
                    self.nodes@,
                    cs0[i as int].0@,
                    cs0[i as int].1,
                    lvl1,
                    cs0.skip(i as int).len() == 1,
                ) + draw_children(self.nodes@, at, cs0.skip(i + 1), lvl1));
                assert(out@ + draw_children(self.nodes@, at, cs0.skip(i + 1), lvl1)
                    =~= old(out)@ + draw_node(self.nodes@, name@, at, level as nat, last));
            }
            i = i + 1;
        }
        proof {
            assert(cs0.skip(n as int) =~= Seq::<(Vec<u8>, usize)>::empty());
            assert(out@ =~= old(out)@ + draw_node(self.nodes@, name@, at, level as nat, last));
        }
    }

    /// Draws the subtree rooted at `at` the way the terminal shows it: the
    /// root as `/`, children indented with branch glyphs, depth first.
    pub fn render(&self, at: usize) -> (r: Vec<u8>)
        requires
            self.wf(),
            at < self.nodes@.len(),
        ensures
            r@ == draw_node(self.nodes@, "/".spec_bytes(), at, 0, true),
    {
        let mut out: Vec<u8> = Vec::new();
        self.draw(&mut out, "/".as_bytes(), at, 0, true);
        proof {
            assert(out@ =~= draw_node(self.nodes@, "/".spec_bytes(), at, 0, true));
        }
        out
    }
}

/// Unfolds one level of [`indent`].
proof fn lemma_indent_step(l: nat)
    ensures
        indent((l + 1) as nat) =~= indent(l) + "   ".spec_bytes(),
    decreases l,
{
    if l > 0 {
        lemma_indent_step((l - 1) as nat);
    }
}


/// The shape a node's child list must have at position `own` in an arena of
/// `n` nodes: entries point strictly forward and carry distinct names.
pub open spec fn children_shape(children: Seq<(Vec<u8>, usize)>, own: int, n: int) -> bool {
    &&& forall|k: int| 0 <= k < children.len() ==> own < #[trigger] children[k].1 < n
    &&& forall|k: int, l: int| 0 <= k < l < children.len() ==> children[k].0@ != children[l].0@
}

/// The shape plain parts — one (rules, child list) pair per node — must
/// have to describe a rooted tree.
pub open spec fn parts_shape(parts: Seq<(Vec<PermEntry>, Vec<(Vec<u8>, usize)>)>) -> bool {
    &&& parts.len() >= 1
    &&& forall|i: int|
        0 <= i < parts.len() ==> children_shape(#[trigger] parts[i].1@, i, parts.len() as int)
}

/// Rebuilds a tree from plain parts, giving every node a fresh bus — the
/// compute half of loading a persisted tree. Succeeds exactly when the
/// parts describe a rooted tree with forward-pointing, uniquely named
/// children.
#[verifier::rlimit(100)]
pub fn tree_from_parts(parts: Vec<(Vec<PermEntry>, Vec<(Vec<u8>, usize)>)>) -> (r: Option<
    ChannelTree,
>)
    ensures
        (r is Some) == parts_shape(parts@),
        r matches Some(t) ==> t.wf(),
        r matches Some(t) ==> t.nodes@.len() == parts@.len(),
        r matches Some(t) ==> forall|i: int|
            #![trigger t.nodes@[i]]
            0 <= i < parts@.len() ==> t.nodes@[i].perms == parts@[i].0 && t.nodes@[i].children
                == parts@[i].1 && t.nodes@[i].bus.log().len() == 0,
{
    let n = parts.len();
    if n == 0 {
        return None;
    }
    let mut i: usize = 0;
    while i < n
        invariant
            n == parts@.len(),
            i <= n,
            forall|j: int| 0 <= j < i ==> children_shape(#[trigger] parts@[j].1@, j, n as int),
        decreases n - i,
    {
        let children = &parts[i].1;
        let mut k: usize = 0;
        while k < children.len()
            invariant
                n == parts@.len(),
                i < n,
                children == &parts@[i as int].1,
                k <= children@.len(),
                forall|x: int| 0 <= x < k ==> i < #[trigger] children@[x].1 < n,
                forall|x: int, y: int| 0 <= x < y < k ==> children@[x].0@ != children@[y].0@,
            decreases children@.len() - k,
        {
            if children[k].1 <= i || children[k].1 >= n {
                return None;
            }
            let mut l: usize = 0;
            while l < k
                invariant
                    n == parts@.len(),
                    i < n,
                    children == &parts@[i as int].1,
                    l <= k < children@.len(),
                    forall|x: int| 0 <= x < l ==> #[trigger] children@[x].0@ != children@[k as int].0@,
                decreases k - l,
            {
                if bytes_eq(children[l].0.as_slice(), children[k].0.as_slice()) {
                    return None;
                }
                l = l + 1;
            }
            k = k + 1;
        }
        proof {
            assert(children_shape(parts@[i as int].1@, i as int, n as int));
        }
        i = i + 1;
    }
    let ghost all = parts@;
    let mut rest = parts;
    let mut nodes: Vec<Channel> = Vec::new();
    let mut built: usize = 0;
    while rest.len() > 0
        invariant
            all.len() == n,
            built <= n,
            rest@ == all.skip(built as int),
            nodes@.len() == built,
            forall|j: int|
                0 <= j < built ==> #[trigger] nodes@[j].perms == all[j].0 && nodes@[j].children
                    == all[j].1 && nodes@[j].bus.wf() && nodes@[j].bus.log().len() == 0,
        decreases rest@.len(),
    {
        proof {
            assert(rest@[0] == all[built as int]);
            assert(rest@.drop_first() =~= all.skip(built + 1));
        }
        let (perms, children) = rest.remove(0);
        let mut node = Channel::new();
        node.perms = perms;
        node.children = children;
        nodes.push(node);
        built = built + 1;
    }
    proof {
        assert(nodes@.len() == n);
        assert forall|j: int| 0 <= j < n implies #[trigger] nodes@[j].wf(j, n as int) by {
            assert(nodes@[j].perms == all[j].0 && nodes@[j].children == all[j].1
                && nodes@[j].bus.wf() && nodes@[j].bus.log().len() == 0);
            assert(children_shape(all[j].1@, j, n as int));
        }
    }
    let t = ChannelTree { nodes };
    proof {
        assert(all =~= parts@);
        assert(t.wf());
        assert forall|j: int|
            #![trigger t.nodes@[j]]
            0 <= j < n implies t.nodes@[j].perms == all[j].0 && t.nodes@[j].children == all[j].1
            && t.nodes@[j].bus.log().len() == 0 by {
            assert(t.nodes@[j].perms == all[j].0 && t.nodes@[j].children == all[j].1
                && t.nodes@[j].bus.wf() && t.nodes@[j].bus.log().len() == 0);
        }
    }
    Some(t)
}

/// A session's live handle into one channel's bus: the channel's arena index
/// and the cursor of the next event to deliver.
pub struct SubscribedChannel {
    pub channel: usize,
    pub next: u64,
}

impl SubscribedChannel {
    /// The subscription points into the arena and its cursor into the log.
    pub open spec fn wf(&self, tree: &ChannelTree) -> bool {
        &&& (self.channel as int) < tree.nodes@.len()
        &&& self.next <= tree.nodes[self.channel as int].bus.log().len()
    }

    /// Publishes `event` into the subscribed channel's bus.
    pub fn send(&self, tree: &mut ChannelTree, event: Event)
        requires
            old(tree).wf(),
            self.wf(old(tree)),
            old(tree).nodes[self.channel as int].bus.log().len() < u64::MAX,
        ensures
            final(tree).wf(),
            self.wf(final(tree)),
            final(tree).nodes@.len() == old(tree).nodes@.len(),
            final(tree).nodes[self.channel as int].bus.log()
                == old(tree).nodes[self.channel as int].bus.log().push(event@),
            forall|i: int|
                0 <= i < old(tree).nodes@.len() && i != self.channel
                    ==> final(tree).nodes[i] == old(tree).nodes[i],
    {
        tree.publish(self.channel, event);
    }

    /// One receive attempt; see [`Bus::recv`] for the delivery guarantees.
    pub fn recv(&mut self, tree: &ChannelTree) -> (r: RecvOutcome)
        requires
            tree.wf(),
            old(self).wf(tree),
        ensures
            final(self).wf(tree),
            final(self).channel == old(self).channel,
            ({
                let bus = &tree.nodes[old(self).channel as int].bus;
                let cap = crate::bus::BUFFER_SIZE as nat;
                &&& final(self).next == crate::bus::recv_cursor(
                    bus.log().len(),
                    cap,
                    old(self).next as nat,
                )
                &&& (old(self).next == bus.log().len() ==> r is Empty)
                &&& (old(self).next < crate::bus::oldest_retained(bus.log().len(), cap)
                    ==> (r matches RecvOutcome::Lagged(n) && n == crate::bus::oldest_retained(
                        bus.log().len(),
                        cap,
                    ) - old(self).next))
                &&& (crate::bus::oldest_retained(bus.log().len(), cap) <= old(self).next
                    < bus.log().len() ==> (r matches RecvOutcome::Received(e) && e@
                    == bus.log()[old(self).next as int]))
            }),
    {
        proof {
            assert(tree.nodes@[self.channel as int].wf(
                self.channel as int,
                tree.nodes@.len() as int,
            ));
        }
        tree.nodes[self.channel].bus.recv(&mut self.next)
    }
}

} // verus!
