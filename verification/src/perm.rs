//! Permission model: access levels, restriction kinds, and the
//! first-match-wins resolution over a specificity-sorted rule list.

use vstd::prelude::*;
use crate::util::bytes_eq;

verus! {

/// Bit for the READ capability.
pub const READ_BIT: u8 = 1;

/// Bit for the WRITE capability.
pub const WRITE_BIT: u8 = 2;

/// Bit for the MANAGE capability.
pub const MANAGE_BIT: u8 = 4;

/// An access level: a bitset over the READ, WRITE and MANAGE capabilities.
#[derive(Clone, Copy, PartialEq, Eq, Structural, Debug)]
pub struct PermLevel {
    pub bits: u8,
}

impl PermLevel {
    /// True when every capability of `o` is also in `self` (superset test).
    pub open spec fn has(self, o: PermLevel) -> bool {
        self.bits & o.bits == o.bits
    }

    /// The empty level.
    pub fn none() -> (r: PermLevel)
        ensures
            r.bits == 0,
    {
        PermLevel { bits: 0 }
    }

    /// The READ level.
    pub fn read() -> (r: PermLevel)
        ensures
            r.bits == READ_BIT,
    {
        PermLevel { bits: READ_BIT }
    }

    /// The WRITE level.
    pub fn write() -> (r: PermLevel)
        ensures
            r.bits == WRITE_BIT,
    {
        PermLevel { bits: WRITE_BIT }
    }

    /// The MANAGE level.
    pub fn manage() -> (r: PermLevel)
        ensures
            r.bits == MANAGE_BIT,
    {
        PermLevel { bits: MANAGE_BIT }
    }

    /// The union of two levels.
    pub fn or(self, o: PermLevel) -> (r: PermLevel)
        ensures
            r.bits == self.bits | o.bits,
    {
        PermLevel { bits: self.bits | o.bits }
    }

    /// Superset test, executable form of [`PermLevel::has`].
    pub fn contains(self, o: PermLevel) -> (r: bool)
        ensures
            r == self.has(o),
    {
        self.bits & o.bits == o.bits
    }
}

/// The subject of a permission rule: a specific user, a role, or everyone.
#[derive(Debug)]
pub enum RestrictionKind {
    User(Vec<u8>),
    Role(Vec<u8>),
    All,
}

impl RestrictionKind {
    /// Specificity rank: user rules sort before role rules, which sort
    /// before rules that apply to everyone.
    pub open spec fn rank(&self) -> int {
        match self {
            RestrictionKind::User(_) => 0,
            RestrictionKind::Role(_) => 1,
            RestrictionKind::All => 2,
        }
    }

    /// Executable form of [`RestrictionKind::rank`].
    pub fn rank_exec(&self) -> (r: u8)
        ensures
            r == self.rank(),
    {
        match self {
            RestrictionKind::User(_) => 0,
            RestrictionKind::Role(_) => 1,
            RestrictionKind::All => 2,
        }
    }
}

/// One rule of a channel's permission list.
pub struct PermEntry {
    pub kind: RestrictionKind,
    pub level: PermLevel,
}

/// True when `kind` applies to `id` holding the role grants `roles`.
pub open spec fn kind_matches(
    kind: RestrictionKind,
    id: Seq<u8>,
    roles: Seq<(Vec<u8>, PermLevel)>,
) -> bool {
    match kind {
        RestrictionKind::User(u) => u@ == id,
        RestrictionKind::Role(r) => exists|i: int| 0 <= i < roles.len() && #[trigger] roles[i].0@ == r@,
        RestrictionKind::All => true,
    }
}

/// The level of the first rule that applies, or the empty level when none does.
pub open spec fn resolve_permission_spec(
    perms: Seq<PermEntry>,
    id: Seq<u8>,
    roles: Seq<(Vec<u8>, PermLevel)>,
) -> PermLevel
    decreases perms.len(),
{
    if perms.len() == 0 {
        PermLevel { bits: 0 }
    } else if kind_matches(perms[0].kind, id, roles) {
        perms[0].level
    } else {
        resolve_permission_spec(perms.drop_first(), id, roles)
    }
}

/// True when the rule list is sorted by specificity, most specific first.
pub open spec fn perms_sorted(perms: Seq<PermEntry>) -> bool {
    forall|i: int, j: int|
        0 <= i <= j < perms.len() ==> #[trigger] perms[i].kind.rank() <= #[trigger] perms[j].kind.rank()
}

/// True when `roles` grants a role named `name`.
pub fn has_role_named(roles: &Vec<(Vec<u8>, PermLevel)>, name: &[u8]) -> (r: bool)
    ensures
        r == exists|i: int| 0 <= i < roles@.len() && #[trigger] roles@[i].0@ == name@,
{
    let mut i: usize = 0;
    while i < roles.len()
        invariant
            i <= roles@.len(),
            forall|j: int| 0 <= j < i ==> #[trigger] roles@[j].0@ != name@,
        decreases roles@.len() - i,
    {
        if bytes_eq(roles[i].0.as_slice(), name) {
            return true;
        }
        i = i + 1;
    }
    false
}

/// Executable form of [`kind_matches`].
pub fn kind_matches_exec(
    kind: &RestrictionKind,
    identity: &[u8],
    roles: &Vec<(Vec<u8>, PermLevel)>,
) -> (r: bool)
    ensures
        r == kind_matches(*kind, identity@, roles@),
{
    match kind {
        RestrictionKind::User(u) => bytes_eq(u.as_slice(), identity),
        RestrictionKind::Role(name) => has_role_named(roles, name.as_slice()),
        RestrictionKind::All => true,
    }
}

/// Scans the rule list in stored order and returns the level of the first
/// rule that applies to `identity` with role grants `roles`; the empty level
/// when no rule applies.
pub fn resolve_permission(
    perms: &Vec<PermEntry>,
    identity: &[u8],
    roles: &Vec<(Vec<u8>, PermLevel)>,
) -> (r: PermLevel)
    ensures
        r == resolve_permission_spec(perms@, identity@, roles@),
{
    let mut i: usize = 0;
    proof {
        assert(perms@.skip(0) =~= perms@);
    }
    while i < perms.len()
        invariant
            i <= perms@.len(),
            resolve_permission_spec(perms@.skip(i as int), identity@, roles@)
                == resolve_permission_spec(perms@, identity@, roles@),
        decreases perms@.len() - i,
    {
        proof {
            assert(perms@.skip(i as int).drop_first() =~= perms@.skip(i + 1));
        }
        if kind_matches_exec(&perms[i].kind, identity, roles) {
            return perms[i].level;
        }
        i = i + 1;
    }
    PermLevel { bits: 0 }
}

/// Reorders a rule list by specificity, most specific first, keeping the
/// stored order within each specificity class: exactly the user rules in
/// order, then the role rules, then the rules for everyone.
pub fn sort_perms(perms: Vec<PermEntry>) -> (r: Vec<PermEntry>)
    ensures
        r@ == perms@.filter(|e: PermEntry| e.kind.rank() == 0) + perms@.filter(
            |e: PermEntry| e.kind.rank() == 1,
        ) + perms@.filter(|e: PermEntry| e.kind.rank() == 2),
        perms_sorted(r@),
{
    let ghost orig = perms@;
    let ghost p0 = |e: PermEntry| e.kind.rank() == 0;
    let ghost p1 = |e: PermEntry| e.kind.rank() == 1;
    let ghost p2 = |e: PermEntry| e.kind.rank() == 2;
    let mut rest = perms;
    let mut v0: Vec<PermEntry> = Vec::new();
    let mut v1: Vec<PermEntry> = Vec::new();
    let mut v2: Vec<PermEntry> = Vec::new();
    let ghost n = orig.len();
    let total = rest.len();
    proof {
        assert(n == total);
    }
    let mut i: usize = 0;
    proof {
        reveal(Seq::filter);
        assert(orig.take(0).filter(p0) =~= Seq::<PermEntry>::empty());
        assert(orig.take(0).filter(p1) =~= Seq::<PermEntry>::empty());
        assert(orig.take(0).filter(p2) =~= Seq::<PermEntry>::empty());
        assert(rest@ =~= orig.skip(0));
    }
    while rest.len() > 0
        invariant
            i <= n,
            n == orig.len(),
            n <= usize::MAX,
            rest@ == orig.skip(i as int),
            p0 == (|e: PermEntry| e.kind.rank() == 0),
            p1 == (|e: PermEntry| e.kind.rank() == 1),
            p2 == (|e: PermEntry| e.kind.rank() == 2),
            v0@ == orig.take(i as int).filter(p0),
            v1@ == orig.take(i as int).filter(p1),
            v2@ == orig.take(i as int).filter(p2),
        decreases rest@.len(),
    {
        proof {
            reveal(Seq::filter);
            assert(rest@.len() == n - i);
            assert(orig.take(i + 1) =~= orig.take(i as int) + seq![orig[i as int]]);
            Seq::filter_distributes_over_add(orig.take(i as int), seq![orig[i as int]], p0);
            Seq::filter_distributes_over_add(orig.take(i as int), seq![orig[i as int]], p1);
            Seq::filter_distributes_over_add(orig.take(i as int), seq![orig[i as int]], p2);
            assert(seq![orig[i as int]].drop_last() =~= Seq::<PermEntry>::empty());
            assert(rest@[0] == orig[i as int]);
            assert(rest@.drop_first() =~= orig.skip(i + 1));
        }
        let e = rest.remove(0);
        let k = e.kind.rank_exec();
        proof {
            reveal(Seq::filter);
            assert(Seq::<PermEntry>::empty().filter(p0) =~= Seq::<PermEntry>::empty());
            assert(Seq::<PermEntry>::empty().filter(p1) =~= Seq::<PermEntry>::empty());
            assert(Seq::<PermEntry>::empty().filter(p2) =~= Seq::<PermEntry>::empty());
            assert(seq![orig[i as int]].filter(p0) == if p0(orig[i as int]) {
                Seq::<PermEntry>::empty().push(orig[i as int])
            } else {
                Seq::<PermEntry>::empty()
            });
            assert(seq![orig[i as int]].filter(p1) == if p1(orig[i as int]) {
                Seq::<PermEntry>::empty().push(orig[i as int])
            } else {
                Seq::<PermEntry>::empty()
            });
            assert(seq![orig[i as int]].filter(p2) == if p2(orig[i as int]) {
                Seq::<PermEntry>::empty().push(orig[i as int])
            } else {
                Seq::<PermEntry>::empty()
            });
        }
        if k == 0 {
            v0.push(e);
        } else if k == 1 {
            v1.push(e);
        } else {
            v2.push(e);
        }
        proof {
            reveal(Seq::filter);
            assert(v0@ =~= orig.take(i + 1).filter(p0));
            assert(v1@ =~= orig.take(i + 1).filter(p1));
            assert(v2@ =~= orig.take(i + 1).filter(p2));
        }
        i = i + 1;
    }
    proof {
        assert(orig.take(n as int) =~= orig);
    }
    let mut r = v0;
    r.append(&mut v1);
    r.append(&mut v2);
    proof {
        let f0 = orig.filter(p0);
        let f1 = orig.filter(p1);
        let f2 = orig.filter(p2);
        assert(r@ =~= f0 + f1 + f2);
        assert forall|a: int, b: int| 0 <= a <= b < r@.len() implies #[trigger] r@[a].kind.rank()
            <= #[trigger] r@[b].kind.rank() by {
            broadcast use vstd::seq_lib::group_filter_ensures;

            assert(r@[a] == if a < f0.len() {
                f0[a]
            } else if a < f0.len() + f1.len() {
                f1[a - f0.len()]
            } else {
                f2[a - f0.len() - f1.len()]
            });
            assert(r@[b] == if b < f0.len() {
                f0[b]
            } else if b < f0.len() + f1.len() {
                f1[b - f0.len()]
            } else {
                f2[b - f0.len() - f1.len()]
            });
        }
    }
    r
}

/// When the first applicable rule stands at index `i`, resolution returns
/// that rule's level.
pub proof fn lemma_first_match(
    perms: Seq<PermEntry>,
    id: Seq<u8>,
    roles: Seq<(Vec<u8>, PermLevel)>,
    i: int,
)
    requires
        0 <= i < perms.len(),
        kind_matches(perms[i].kind, id, roles),
        forall|j: int| 0 <= j < i ==> !kind_matches(#[trigger] perms[j].kind, id, roles),
    ensures
        resolve_permission_spec(perms, id, roles) == perms[i].level,
    decreases i,
{
    if i > 0 {
        lemma_first_match(perms.drop_first(), id, roles, i - 1);
    }
}

/// Specificity precedence: in a specificity-sorted list that holds a rule for
/// the user `id` and a rule for everyone, resolution for `id` returns the
/// user rule's level — the broader rule cannot shadow it.
pub proof fn lemma_user_precedence(
    perms: Seq<PermEntry>,
    id: Seq<u8>,
    roles: Seq<(Vec<u8>, PermLevel)>,
    i: int,
    a: int,
)
    requires
        perms_sorted(perms),
        0 <= i < perms.len(),
        perms[i].kind matches RestrictionKind::User(u) && u@ == id,
        forall|j: int|
            0 <= j < perms.len() && j != i
                ==> !((#[trigger] perms[j].kind) matches RestrictionKind::User(u) && u@ == id),
        0 <= a < perms.len(),
        perms[a].kind is All,
    ensures
        resolve_permission_spec(perms, id, roles) == perms[i].level,
{
    assert forall|j: int| 0 <= j < i implies !kind_matches(#[trigger] perms[j].kind, id, roles) by {
        assert(perms[j].kind.rank() <= perms[i].kind.rank());
        assert(perms[i].kind.rank() == 0);
        assert(perms[j].kind matches RestrictionKind::User(_));
    }
    lemma_first_match(perms, id, roles, i);
}

} // verus!
