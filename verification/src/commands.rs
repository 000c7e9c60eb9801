//! The command dispatcher: parsing `:`-prefixed lines into operations
//! against the tree, the permission model and the account registry — and
//! the line-editor state machine that feeds it.

use vstd::prelude::*;
use vstd::string::StringSliceAdditionalSpecFns;
use crate::perm::{PermEntry, PermLevel, MANAGE_BIT};
use crate::server::{user_index, Server};
use crate::term::{bold, red, reset, push_str};
use crate::user::{global_bits, User};
use crate::util::{bytes_eq, push_all, split_on};

verus! {

/// Why a command was refused; rendered only to the invoking session.
#[derive(Clone, Copy, PartialEq, Eq, Structural, Debug)]
pub enum CommandError {
    InvalidUtf8,
    InvalidArgs,
    InvalidPath,
    InvalidCommand,
    NotFound,
    AlreadyExists,
    Forbidden,
    Unimplemented,
}

/// The wording of each error.
pub open spec fn error_text(e: CommandError) -> Seq<u8> {
    match e {
        CommandError::InvalidUtf8 => "EUTF: Invalid utf8".spec_bytes(),
        CommandError::InvalidArgs => "EBADA: Invalid arguments".spec_bytes(),
        CommandError::InvalidPath => "EIPATH: Invalid Path".spec_bytes(),
        CommandError::InvalidCommand => "EINVAL: Invalid command".spec_bytes(),
        CommandError::NotFound => "ENFOUND: Not found".spec_bytes(),
        CommandError::AlreadyExists => "EEXIST: Already exists".spec_bytes(),
        CommandError::Forbidden => "EFRBD: Forbidden".spec_bytes(),
        CommandError::Unimplemented => "EUNIMP: Not implemented".spec_bytes(),
    }
}

/// How an error reaches the terminal: red and bold.
pub open spec fn error_message(e: CommandError) -> Seq<u8> {
    red() + bold() + error_text(e) + reset()
}

impl CommandError {
    /// Renders the error for the terminal.
    pub fn message(&self) -> (r: Vec<u8>)
        ensures
            r@ == error_message(*self),
    {
        let mut out: Vec<u8> = Vec::new();
        push_str(&mut out, "\x1b[31m");
        push_str(&mut out, "\x1b[1m");
        match self {
            CommandError::InvalidUtf8 => push_str(&mut out, "EUTF: Invalid utf8"),
            CommandError::InvalidArgs => push_str(&mut out, "EBADA: Invalid arguments"),
            CommandError::InvalidPath => push_str(&mut out, "EIPATH: Invalid Path"),
            CommandError::InvalidCommand => push_str(&mut out, "EINVAL: Invalid command"),
            CommandError::NotFound => push_str(&mut out, "ENFOUND: Not found"),
            CommandError::AlreadyExists => push_str(&mut out, "EEXIST: Already exists"),
            CommandError::Forbidden => push_str(&mut out, "EFRBD: Forbidden"),
            CommandError::Unimplemented => push_str(&mut out, "EUNIMP: Not implemented"),
        }
        push_str(&mut out, "\x1b[0m");
        proof {
            assert(out@ =~= error_message(*self));
        }
        out
    }
}

/// A command line's tokens: split on single spaces, empty tokens dropped —
/// so repeated interior spaces collapse when arguments are re-joined.
pub open spec fn tokens_of(line: Seq<u8>) -> Seq<Seq<u8>> {
    split_on(line, 32)
}

/// The tokens re-joined with single spaces.
pub open spec fn join_spaces(ts: Seq<Seq<u8>>) -> Seq<u8>
    decreases ts.len(),
{
    if ts.len() == 0 {
        Seq::empty()
    } else if ts.len() == 1 {
        ts[0]
    } else {
        join_spaces(ts.drop_last()) + " ".spec_bytes() + ts.last()
    }
}

/// The online-user listing: one name per line.
pub open spec fn userlist(names: Seq<Vec<u8>>) -> Seq<u8>
    decreases names.len(),
{
    if names.len() == 0 {
        Seq::empty()
    } else {
        userlist(names.drop_last()) + names.last()@ + "\r\n".spec_bytes()
    }
}

/// The letters of the capabilities a level holds.
pub open spec fn level_letters(l: PermLevel) -> Seq<u8> {
    (if l.has(PermLevel { bits: crate::perm::READ_BIT }) {
        "R".spec_bytes()
    } else {
        Seq::empty()
    }) + (if l.has(PermLevel { bits: crate::perm::WRITE_BIT }) {
        "W".spec_bytes()
    } else {
        Seq::empty()
    }) + (if l.has(PermLevel { bits: MANAGE_BIT }) {
        "M".spec_bytes()
    } else {
        Seq::empty()
    })
}

/// One line of the permission listing.
pub open spec fn perm_line(e: PermEntry) -> Seq<u8> {
    (match e.kind {
        crate::perm::RestrictionKind::User(u) => "User(".spec_bytes() + u@ + ")".spec_bytes(),
        crate::perm::RestrictionKind::Role(r) => "Role(".spec_bytes() + r@ + ")".spec_bytes(),
        crate::perm::RestrictionKind::All => "All".spec_bytes(),
    }) + ": ".spec_bytes() + level_letters(e.level) + "\r\n".spec_bytes()
}

/// The permission listing of a channel, one rule per line, stored order.
pub open spec fn perms_render(ps: Seq<PermEntry>) -> Seq<u8>
    decreases ps.len(),
{
    if ps.len() == 0 {
        Seq::empty()
    } else {
        perms_render(ps.drop_last()) + perm_line(ps.last())
    }
}

/// The role grants behind `name`, or none for an unknown account.
pub open spec fn invoker_roles(
    users: Seq<(Vec<u8>, crate::user::UserConfig)>,
    name: Seq<u8>,
) -> Seq<(Vec<u8>, PermLevel)> {
    match user_index(users, name) {
        Some(i) => users[i].1.roles@,
        None => Seq::empty(),
    }
}

/// The account-level union of `name`'s grants, or nothing for an unknown
/// account.
pub open spec fn invoker_global(
    users: Seq<(Vec<u8>, crate::user::UserConfig)>,
    name: Seq<u8>,
) -> u8 {
    match user_index(users, name) {
        Some(i) => global_bits(users[i].1.roles@),
        None => 0,
    }
}

/// The MANAGE level.
pub open spec fn manage_lvl() -> PermLevel {
    PermLevel { bits: MANAGE_BIT }
}

/// True when `name`'s account-level grants include MANAGE: the operator
/// override that applies on any channel.
pub open spec fn is_admin(users: Seq<(Vec<u8>, crate::user::UserConfig)>, name: Seq<u8>) -> bool {
    (PermLevel { bits: invoker_global(users, name) }).has(manage_lvl())
}

/// True when `name` may perform MANAGE-class operations on a channel with
/// rules `perms`: by the channel's own resolution, or by the operator
/// override — checked in addition to, not instead of, the channel's rules.
pub open spec fn can_manage(
    users: Seq<(Vec<u8>, crate::user::UserConfig)>,
    name: Seq<u8>,
    perms: Seq<PermEntry>,
) -> bool {
    crate::perm::resolve_permission_spec(perms, name, invoker_roles(users, name)).has(manage_lvl())
        || is_admin(users, name)
}

/// True when the token holds exactly the bytes of `s`.
fn tok_is(t: &Vec<u8>, s: &str) -> (r: bool)
    ensures
        r == (t@ == s.spec_bytes()),
{
    bytes_eq(t.as_slice(), s.as_bytes())
}

/// Re-joins `ts[from..]` with single spaces.
fn join_tokens(ts: &Vec<Vec<u8>>, from: usize) -> (r: Vec<u8>)
    requires
        from <= ts@.len(),
    ensures
        r@ == join_spaces(ts.deep_view().skip(from as int)),
{
    let ghost tail = ts.deep_view().skip(from as int);
    let mut r: Vec<u8> = Vec::new();
    let mut k: usize = from;
    while k < ts.len()
        invariant
            from <= k <= ts@.len(),
            tail == ts.deep_view().skip(from as int),
            tail.len() == ts@.len() - from,
            forall|j: int| 0 <= j < tail.len() ==> tail[j] == #[trigger] ts@[from + j]@,
            r@ == join_spaces(tail.take(k - from)),
        decreases ts@.len() - k,
    {
        proof {
            assert(tail.take(k - from + 1).drop_last() =~= tail.take(k - from));
            assert(tail.take(k - from + 1).last() == ts@[k as int]@);
        }
        if k > from {
            push_str(&mut r, " ");
        }
        push_all(&mut r, ts[k].as_slice());
        proof {
            assert(r@ =~= join_spaces(tail.take(k - from + 1)));
        }
        k = k + 1;
    }
    proof {
        assert(tail.take(ts@.len() - from) =~= tail);
    }
    r
}

/// Renders the online-user listing.
fn render_userlist(names: &Vec<Vec<u8>>) -> (r: Vec<u8>)
    ensures
        r@ == userlist(names@),
{
    let mut r: Vec<u8> = Vec::new();
    let mut k: usize = 0;
    while k < names.len()
        invariant
            k <= names@.len(),
            r@ == userlist(names@.take(k as int)),
        decreases names@.len() - k,
    {
        proof {
            assert(names@.take(k + 1).drop_last() =~= names@.take(k as int));
            assert(names@.take(k + 1).last() == names@[k as int]);
        }
        push_all(&mut r, names[k].as_slice());
        push_str(&mut r, "\r\n");
        proof {
            assert(r@ =~= userlist(names@.take(k + 1)));
        }
        k = k + 1;
    }
    proof {
        assert(names@.take(names@.len() as int) =~= names@);
    }
    r
}

/// Renders a channel's permission listing.
#[verifier::rlimit(100)]
fn render_perms(ps: &Vec<PermEntry>) -> (r: Vec<u8>)
    ensures
        r@ == perms_render(ps@),
{
    let mut r: Vec<u8> = Vec::new();
    let mut k: usize = 0;
    while k < ps.len()
        invariant
            k <= ps@.len(),
            r@ == perms_render(ps@.take(k as int)),
        decreases ps@.len() - k,
    {
        proof {
            assert(ps@.take(k + 1).drop_last() =~= ps@.take(k as int));
            assert(ps@.take(k + 1).last() == ps@[k as int]);
        }
        match &ps[k].kind {
            crate::perm::RestrictionKind::User(u) => {
                push_str(&mut r, "User(");
                push_all(&mut r, u.as_slice());
                push_str(&mut r, ")");
            },
            crate::perm::RestrictionKind::Role(n) => {
                push_str(&mut r, "Role(");
                push_all(&mut r, n.as_slice());
                push_str(&mut r, ")");
            },
            crate::perm::RestrictionKind::All => {
                push_str(&mut r, "All");
            },
        }
        push_str(&mut r, ": ");
        let lvl = ps[k].level;
        if lvl.contains(PermLevel::read()) {
            push_str(&mut r, "R");
        }
        if lvl.contains(PermLevel::write()) {
            push_str(&mut r, "W");
        }
        if lvl.contains(PermLevel::manage()) {
            push_str(&mut r, "M");
        }
        push_str(&mut r, "\r\n");
        proof {
            assert(r@ =~= perms_render(ps@.take(k + 1)));
        }
        k = k + 1;
    }
    proof {
        assert(ps@.take(ps@.len() as int) =~= ps@);
    }
    r
}

/// Whether the invoker holds the operator override.
fn invoker_is_admin(server: &Server, name: &[u8]) -> (r: bool)
    ensures
        r == is_admin(server.users@, name@),
{
    match server.find_user(name) {
        Some(i) => server.users[i].1.get_global_perms().contains(PermLevel::manage()),
        None => {
            proof {
                assert(invoker_global(server.users@, name@) == 0);
                assert(0u8 & 4u8 == 0u8) by (bit_vector);
            }
            false
        },
    }
}

/// Whether the invoker may manage the channel at `node`.
fn invoker_can_manage(server: &Server, name: &[u8], node: usize) -> (r: bool)
    requires
        server.wf(),
        node < server.tree.nodes@.len(),
    ensures
        r == can_manage(server.users@, name@, server.tree.nodes@[node as int].perms@),
{
    match server.find_user(name) {
        Some(i) => {
            let lvl = crate::perm::resolve_permission(
                &server.tree.nodes[node].perms,
                name,
                &server.users[i].1.roles,
            );
            if lvl.contains(PermLevel::manage()) {
                true
            } else {
                server.users[i].1.get_global_perms().contains(PermLevel::manage())
            }
        },
        None => {
            let empty_roles: Vec<(Vec<u8>, PermLevel)> = Vec::new();
            proof {
                assert(empty_roles@ =~= Seq::<(Vec<u8>, PermLevel)>::empty());
            }
            let lvl = crate::perm::resolve_permission(
                &server.tree.nodes[node].perms,
                name,
                &empty_roles,
            );
            proof {
                assert(invoker_global(server.users@, name@) == 0);
                assert(0u8 & 4u8 == 0u8) by (bit_vector);
            }
            lvl.contains(PermLevel::manage())
        },
    }
}

/// What a successful command asks of the session.
pub enum CommandOutcome {
    /// The session continues; write these bytes to its terminal.
    Continue(Vec<u8>),
    /// The command closed the session; write these bytes, then hang up.
    Quit(Vec<u8>),
}

/// The help overlay.
pub open spec fn help_text() -> Seq<u8> {
    "== Commands ==\r\nhelp, h         - show this message\r\nclear           - clear the terminal\r\nquit, q         - close the connection\r\nreply, r <name> <message> - reply to <name>\r\n\r\nmake-channel, mkch <path>    - create a new channel\r\nremove-channel, rmch <path>  - remove a channel\r\nchannel, ch <path>           - move to a channel\r\nchannels, ls                 - list channels\r\nall-users, lsa               - list online users\r\nchannel-perms, lsperm <path> - list permissions for a channel\r\n\r\npasswd <pass>                - change your password\r\n\r\n== Admin Commands ==\r\nuseradd <name>               - create a new user\r\npasswd-reset <name>          - reset a user's password\r\n".spec_bytes()
}

/// The help overlay, executable form.
fn help_bytes() -> (r: Vec<u8>)
    ensures
        r@ == help_text(),
{
    let mut out: Vec<u8> = Vec::new();
    push_str(
        &mut out,
        "== Commands ==\r\nhelp, h         - show this message\r\nclear           - clear the terminal\r\nquit, q         - close the connection\r\nreply, r <name> <message> - reply to <name>\r\n\r\nmake-channel, mkch <path>    - create a new channel\r\nremove-channel, rmch <path>  - remove a channel\r\nchannel, ch <path>           - move to a channel\r\nchannels, ls                 - list channels\r\nall-users, lsa               - list online users\r\nchannel-perms, lsperm <path> - list permissions for a channel\r\n\r\npasswd <pass>                - change your password\r\n\r\n== Admin Commands ==\r\nuseradd <name>               - create a new user\r\npasswd-reset <name>          - reset a user's password\r\n",
    );
    out
}

/// A one-token command named `a`.
pub open spec fn cmd1(toks: Seq<Seq<u8>>, a: &str) -> bool {
    toks.len() == 1 && toks[0] == a.spec_bytes()
}

/// A two-token command named `a`.
pub open spec fn cmd2(toks: Seq<Seq<u8>>, a: &str) -> bool {
    toks.len() == 2 && toks[0] == a.spec_bytes()
}

/// A command named `a` taking any number of arguments.
pub open spec fn cmd_many(toks: Seq<Seq<u8>>, a: &str) -> bool {
    toks.len() >= 1 && toks[0] == a.spec_bytes()
}

/// The token shapes the grammar knows; everything else is an invalid
/// command.
pub open spec fn known_shape(toks: Seq<Seq<u8>>) -> bool {
    ||| cmd1(toks, "help")
    ||| cmd1(toks, "h")
    ||| cmd1(toks, "quit")
    ||| cmd1(toks, "q")
    ||| cmd1(toks, "clear")
    ||| cmd_many(toks, "reply")
    ||| cmd_many(toks, "r")
    ||| cmd2(toks, "useradd")
    ||| cmd2(toks, "passwd-reset")
    ||| cmd2(toks, "passwd")
    ||| cmd_many(toks, "make-priv-channel")
    ||| cmd_many(toks, "mkchp")
    ||| cmd2(toks, "make-channel")
    ||| cmd2(toks, "mkch")
    ||| cmd2(toks, "remove-channel")
    ||| cmd2(toks, "rmch")
    ||| cmd2(toks, "channel")
    ||| cmd2(toks, "ch")
    ||| cmd1(toks, "channels")
    ||| cmd1(toks, "ls")
    ||| cmd1(toks, "all-users")
    ||| cmd1(toks, "lsa")
    ||| cmd2(toks, "channel-perms")
    ||| cmd2(toks, "lsperm")
    ||| cmd1(toks, "users")
    ||| cmd2(toks, "user")
}

/// The whole input/output relation of [`dispatch`]: how the server and the
/// invoking session after the call relate to those before it, and which
/// result comes back, for every line.
pub open spec fn dispatch_post(
    s0: Server,
    u0: User,
    line: Seq<u8>,
    s1: Server,
    u1: User,
    r: Result<CommandOutcome, CommandError>,
) -> bool {
    let toks = tokens_of(line);
    let me = u0.name@;
    let ch = u0.channel.channel as int;
    let log0 = s0.tree.nodes[ch].bus.log();
    &&& u1.name == u0.name
    &&& (r is Err ==> s1 == s0 && u1 == u0)
    &&& (!vstd::utf8::valid_utf8(line) ==> r == Err::<CommandOutcome, CommandError>(
        CommandError::InvalidUtf8,
    ))
    &&& (vstd::utf8::valid_utf8(line) ==> ({
            if cmd1(toks, "help") || cmd1(toks, "h") {
                r matches Ok(CommandOutcome::Continue(o))
                && o@ == crate::user::info_wrap(help_text()) + crate::term::clear_line()
                && s1 == s0
                && (u1.state matches crate::user::UserState::Info(d) && d@ == help_text())
                && u1.buffer@.len() == 0 && u1.cursor == 0
                && u1.channel == u0.channel && u1.path == u0.path
            } else if cmd1(toks, "quit") || cmd1(toks, "q") {
                r matches Ok(CommandOutcome::Quit(o))
                && o@ == crate::term::clear_line() + "\r".spec_bytes()
                && s1.tree.nodes[ch].bus.log() == log0.push(
                    crate::event::EventView::Leave { who: me },
                ).push(crate::event::EventView::Terminate)
                && s1.users == s0.users
                && s1.online_users@ == crate::server::remove_online(s0.online_users@, me)
                && (forall|j: int|
                    0 <= j < s1.online_users@.len() ==> #[trigger] s1.online_users@[j]@ != me)
                && u1 == u0
            } else if cmd1(toks, "clear") {
                r matches Ok(CommandOutcome::Continue(o))
                && o@ == crate::term::clear_screen() + crate::term::clear_line()
                && s1 == s0
                && u1.state == u0.state && u1.buffer@.len() == 0 && u1.cursor == 0
                && u1.channel == u0.channel && u1.path == u0.path
            } else if cmd_many(toks, "reply") || cmd_many(toks, "r") {
                if toks.len() < 3 {
                    r == Err::<CommandOutcome, CommandError>(CommandError::InvalidArgs)
                } else if user_index(s0.users@, toks[1]) is None {
                    r == Err::<CommandOutcome, CommandError>(CommandError::NotFound)
                } else {
                    r matches Ok(CommandOutcome::Continue(o))
                    && o@ == crate::term::clear_line()
                    && s1.tree.nodes[ch].bus.log() == log0.push(
                        crate::event::EventView::Reply {
                            sender: me,
                            recipient: toks[1],
                            text: join_spaces(toks.skip(2)),
                        },
                    )
                    && s1.tree.nodes@.len() == s0.tree.nodes@.len()
                    && (forall|i: int|
                        0 <= i < s0.tree.nodes@.len() && i != ch
                            ==> s1.tree.nodes@[i] == #[trigger] s0.tree.nodes@[i])
                    && s1.users == s0.users && s1.online_users == s0.online_users
                    && u1.state == u0.state && u1.buffer@.len() == 0 && u1.cursor == 0
                    && u1.channel == u0.channel && u1.path == u0.path
                }
            } else if cmd2(toks, "passwd") {
                match user_index(s0.users@, me) {
                    None => r == Err::<CommandOutcome, CommandError>(CommandError::NotFound),
                    Some(i) => {
                        r matches Ok(CommandOutcome::Continue(o))
                        && o@ == crate::term::clear_line()
                        && s1.users@.len() == s0.users@.len()
                        && s1.users@[i].0 == s0.users@[i].0
                        && s1.users@[i].1.hash == crate::user::fnv1a(toks[1])
                        && s1.users@[i].1.roles == s0.users@[i].1.roles
                        && (forall|j: int|
                            0 <= j < s0.users@.len() && j != i
                                ==> s1.users@[j] == #[trigger] s0.users@[j])
                        && s1.tree == s0.tree && s1.online_users == s0.online_users
                        && u1.state == u0.state && u1.buffer@.len() == 0 && u1.cursor == 0
                        && u1.channel == u0.channel && u1.path == u0.path
                    },
                }
            } else if cmd2(toks, "useradd") {
                if !is_admin(s0.users@, me) {
                    r == Err::<CommandOutcome, CommandError>(CommandError::Forbidden)
                } else if user_index(s0.users@, toks[1]) is Some {
                    r == Err::<CommandOutcome, CommandError>(CommandError::AlreadyExists)
                } else {
                    r matches Ok(CommandOutcome::Continue(o))
                    && (u1.state matches crate::user::UserState::Info(d)
                        && o@ == crate::user::info_wrap(d@) + crate::term::clear_line()
                        && d@.len() == 8
                        && (forall|k: int| 0 <= k < 8 ==> crate::user::is_alnum(#[trigger] d@[k]))
                        && s1.users@.len() == s0.users@.len() + 1
                        && s1.users@.last().0@ == toks[1]
                        && s1.users@.last().1.hash == crate::user::fnv1a(d@)
                        && s1.users@.last().1.roles@.len() == 0)
                    && (forall|j: int|
                        0 <= j < s0.users@.len() ==> s1.users@[j] == #[trigger] s0.users@[j])
                    && s1.tree == s0.tree && s1.online_users == s0.online_users
                    && u1.buffer@.len() == 0 && u1.cursor == 0
                    && u1.channel == u0.channel && u1.path == u0.path
                }
            } else if cmd2(toks, "passwd-reset") {
                if !is_admin(s0.users@, me) {
                    r == Err::<CommandOutcome, CommandError>(CommandError::Forbidden)
                } else {
                    match user_index(s0.users@, toks[1]) {
                        None => r == Err::<CommandOutcome, CommandError>(CommandError::NotFound),
                        Some(i) => {
                            r matches Ok(CommandOutcome::Continue(o))
                            && (u1.state matches crate::user::UserState::Info(d)
                                && o@ == crate::user::info_wrap(d@) + crate::term::clear_line()
                                && d@.len() == 8
                                && (forall|k: int|
                                    0 <= k < 8 ==> crate::user::is_alnum(#[trigger] d@[k]))
                                && s1.users@[i].1.hash == crate::user::fnv1a(d@))
                            && s1.users@.len() == s0.users@.len()
                            && s1.users@[i].0 == s0.users@[i].0
                            && s1.users@[i].1.roles == s0.users@[i].1.roles
                            && (forall|j: int|
                                0 <= j < s0.users@.len() && j != i
                                    ==> s1.users@[j] == #[trigger] s0.users@[j])
                            && s1.tree == s0.tree && s1.online_users == s0.online_users
                            && u1.buffer@.len() == 0 && u1.cursor == 0
                            && u1.channel == u0.channel && u1.path == u0.path
                        },
                    }
                }
            } else if cmd2(toks, "make-channel") || cmd2(toks, "mkch") {
                let p = crate::path::joined_path(u0.path.deep_view(), toks[1]);
                if p.len() == 0 {
                    r == Err::<CommandOutcome, CommandError>(CommandError::InvalidPath)
                } else {
                    match s0.tree.resolve_spec(p.drop_last()) {
                        None => r == Err::<CommandOutcome, CommandError>(
                            CommandError::InvalidPath,
                        ),
                        Some(par) => {
                            if !can_manage(s0.users@, me, s0.tree.nodes@[par as int].perms@) {
                                r == Err::<CommandOutcome, CommandError>(CommandError::Forbidden)
                            } else if crate::channel::child_id(
                                s0.tree.nodes@[par as int].children@,
                                p.last(),
                            ) is Some {
                                r == Err::<CommandOutcome, CommandError>(
                                    CommandError::AlreadyExists,
                                )
                            } else {
                                let nid = s0.tree.nodes@.len() as int;
                                r matches Ok(CommandOutcome::Continue(o))
                                && o@ == crate::term::clear_line()
                                && s1.tree.nodes@.len() == s0.tree.nodes@.len() + 1
                                && s1.tree.nodes@[nid].perms@.len() == 2
                                && (s1.tree.nodes@[nid].perms@[0].kind matches
                                    crate::perm::RestrictionKind::User(u) && u@ == me)
                                && s1.tree.nodes@[nid].perms@[0].level.bits == (
                                crate::perm::READ_BIT | crate::perm::WRITE_BIT | MANAGE_BIT)
                                && s1.tree.nodes@[nid].perms@[1].kind is All
                                && s1.tree.nodes@[nid].perms@[1].level.bits == (
                                crate::perm::READ_BIT | crate::perm::WRITE_BIT)
                                && s1.tree.nodes@[nid].children@.len() == 0
                                && s1.tree.nodes@[nid].bus.log().len() == 0
                                && s1.tree.nodes@[par as int].children@.len()
                                    == s0.tree.nodes@[par as int].children@.len() + 1
                                && (forall|j: int|
                                    0 <= j < s0.tree.nodes@[par as int].children@.len()
                                        ==> s1.tree.nodes@[par as int].children@[j]
                                        == #[trigger] s0.tree.nodes@[par as int].children@[j])
                                && s1.tree.nodes@[par as int].children@.last().0@ == p.last()
                                && s1.tree.nodes@[par as int].children@.last().1 == nid
                                && s1.tree.nodes@[par as int].perms
                                    == s0.tree.nodes@[par as int].perms
                                && s1.tree.nodes@[par as int].bus == s0.tree.nodes@[par as int].bus
                                && (forall|i: int|
                                    0 <= i < s0.tree.nodes@.len() && i != par
                                        ==> s1.tree.nodes@[i] == #[trigger] s0.tree.nodes@[i])
                                && s1.users == s0.users && s1.online_users == s0.online_users
                                && u1.state == u0.state && u1.buffer@.len() == 0 && u1.cursor == 0
                                && u1.channel == u0.channel && u1.path == u0.path
                            }
                        },
                    }
                }
            } else if cmd2(toks, "remove-channel") || cmd2(toks, "rmch") {
                let p = crate::path::joined_path(u0.path.deep_view(), toks[1]);
                if p.len() == 0 {
                    r == Err::<CommandOutcome, CommandError>(CommandError::InvalidPath)
                } else {
                    match s0.tree.resolve_spec(p.drop_last()) {
                        None => r == Err::<CommandOutcome, CommandError>(
                            CommandError::InvalidPath,
                        ),
                        Some(par) => {
                            match crate::channel::child_id(
                                s0.tree.nodes@[par as int].children@,
                                p.last(),
                            ) {
                                None => r == Err::<CommandOutcome, CommandError>(
                                    CommandError::NotFound,
                                ),
                                Some(c) => {
                                    if !can_manage(
                                        s0.users@,
                                        me,
                                        s0.tree.nodes@[c as int].perms@,
                                    ) {
                                        r == Err::<CommandOutcome, CommandError>(
                                            CommandError::Forbidden,
                                        )
                                    } else {
                                        r matches Ok(CommandOutcome::Continue(o))
                                        && o@ == crate::term::clear_line()
                                        && s1.tree.nodes@.len() == s0.tree.nodes@.len()
                                        && s1.tree.nodes@[par as int].children@
                                            == crate::channel::remove_child_entry(
                                            s0.tree.nodes@[par as int].children@,
                                            p.last(),
                                        )
                                        && s1.tree.nodes@[par as int].perms
                                            == s0.tree.nodes@[par as int].perms
                                        && s1.tree.nodes@[par as int].bus
                                            == s0.tree.nodes@[par as int].bus
                                        && (forall|i: int|
                                            0 <= i < s0.tree.nodes@.len() && i != par
                                                ==> s1.tree.nodes@[i] == #[trigger] s0.tree.nodes@[i])
                                        && s1.users == s0.users
                                        && s1.online_users == s0.online_users
                                        && u1.state == u0.state && u1.buffer@.len() == 0
                                        && u1.cursor == 0 && u1.channel == u0.channel
                                        && u1.path == u0.path
                                    }
                                },
                            }
                        },
                    }
                }
            } else if cmd2(toks, "channel") || cmd2(toks, "ch") {
                let p = crate::path::joined_path(u0.path.deep_view(), toks[1]);
                match s0.tree.resolve_spec(p) {
                    None => r == Err::<CommandOutcome, CommandError>(CommandError::InvalidPath),
                    Some(t) => {
                        r matches Ok(CommandOutcome::Continue(o))
                        && o@ == crate::term::clear_line()
                        && s1 == s0
                        && u1.path.deep_view() == p
                        && u1.channel.channel == t
                        && u1.channel.next == s0.tree.nodes@[t as int].bus.log().len()
                        && u1.state == u0.state && u1.buffer@.len() == 0 && u1.cursor == 0
                    },
                }
            } else if cmd1(toks, "channels") || cmd1(toks, "ls") {
                match s0.tree.resolve_spec(u0.path.deep_view()) {
                    None => r == Err::<CommandOutcome, CommandError>(CommandError::InvalidPath),
                    Some(t) => {
                        let drawing = crate::channel::draw_node(
                            s0.tree.nodes@,
                            "/".spec_bytes(),
                            t,
                            0,
                            true,
                        );
                        r matches Ok(CommandOutcome::Continue(o))
                        && o@ == crate::user::info_wrap(drawing) + crate::term::clear_line()
                        && s1 == s0
                        && (u1.state matches crate::user::UserState::Info(d) && d@ == drawing)
                        && u1.buffer@.len() == 0 && u1.cursor == 0
                        && u1.channel == u0.channel && u1.path == u0.path
                    },
                }
            } else if cmd1(toks, "all-users") || cmd1(toks, "lsa") {
                r matches Ok(CommandOutcome::Continue(o))
                && o@ == crate::user::info_wrap(userlist(s0.online_users@))
                    + crate::term::clear_line()
                && s1 == s0
                && (u1.state matches crate::user::UserState::Info(d) && d@ == userlist(
                    s0.online_users@,
                ))
                && u1.buffer@.len() == 0 && u1.cursor == 0
                && u1.channel == u0.channel && u1.path == u0.path
            } else if cmd2(toks, "channel-perms") || cmd2(toks, "lsperm") {
                let p = crate::path::joined_path(u0.path.deep_view(), toks[1]);
                match s0.tree.resolve_spec(p) {
                    None => r == Err::<CommandOutcome, CommandError>(CommandError::InvalidPath),
                    Some(t) => {
                        let listing = perms_render(s0.tree.nodes@[t as int].perms@);
                        r matches Ok(CommandOutcome::Continue(o))
                        && o@ == crate::user::info_wrap(listing) + crate::term::clear_line()
                        && s1 == s0
                        && (u1.state matches crate::user::UserState::Info(d) && d@ == listing)
                        && u1.buffer@.len() == 0 && u1.cursor == 0
                        && u1.channel == u0.channel && u1.path == u0.path
                    },
                }
            } else if cmd_many(toks, "make-priv-channel") || cmd_many(toks, "mkchp")
                || cmd1(toks, "users") || cmd2(toks, "user") {
                r == Err::<CommandOutcome, CommandError>(CommandError::Unimplemented)
            } else {
                r == Err::<CommandOutcome, CommandError>(CommandError::InvalidCommand)
            }
    }))
}

/// Parses a trimmed, `:`-stripped line and carries the command out against
/// the server and the invoking session.
///
/// Every command either succeeds — possibly with an overlay reply — fails
/// with one error and leaves every piece of state exactly as it was, or,
/// for `quit`, closes the session. Validation (well-formed UTF-8, arity,
/// permission, existence, collision) happens before any mutation.
pub fn dispatch(server: &mut Server, user: &mut User, line: &[u8]) -> (r: Result<
    CommandOutcome,
    CommandError,
>)
    requires
        old(server).wf(),
        old(user).wf(&old(server).tree),
        old(server).tree.nodes[old(user).channel.channel as int].bus.log().len() + 2
            <= u64::MAX,
    ensures
        final(server).wf(),
        final(user).wf(&final(server).tree),
        dispatch_post(*old(server), *old(user), line@, *final(server), *final(user), r),
{
    if !crate::util::is_utf8(line) {
        return Err(CommandError::InvalidUtf8);
    }
    let toks = crate::util::split_bytes(line, 32);
    proof {
        let tv = toks.deep_view();
        assert(tv.len() == toks@.len());
        assert forall|j: int| 0 <= j < toks@.len() implies tv[j] == #[trigger] toks@[j]@ by {
            assert(tv[j] =~= toks@[j]@);
        }
    }
    let n = toks.len();
    if n == 1 && (tok_is(&toks[0], "help") || tok_is(&toks[0], "h")) {
        let help = help_bytes();
        let mut out = user.info(help.as_slice());
        push_str(&mut out, "\x1b[2K\r");
        user.buf_clear();
        Ok(CommandOutcome::Continue(out))
    } else if n == 1 && (tok_is(&toks[0], "quit") || tok_is(&toks[0], "q")) {
        server.close_session(user);
        let mut out: Vec<u8> = Vec::new();
        push_str(&mut out, "\x1b[2K\r");
        push_str(&mut out, "\r");
        Ok(CommandOutcome::Quit(out))
    } else if n == 1 && tok_is(&toks[0], "clear") {
        let mut out: Vec<u8> = Vec::new();
        push_str(&mut out, "\x1b[2J\x1b[H");
        push_str(&mut out, "\x1b[2K\r");
        user.buf_clear();
        Ok(CommandOutcome::Continue(out))
    } else if n >= 1 && (tok_is(&toks[0], "reply") || tok_is(&toks[0], "r")) {
        if n < 3 {
            return Err(CommandError::InvalidArgs);
        }
        match server.find_user(toks[1].as_slice()) {
            None => Err(CommandError::NotFound),
            Some(_) => {
                let msg = join_tokens(&toks, 2);
                let sender = vstd::slice::slice_to_vec(user.name.as_slice());
                let recipient = vstd::slice::slice_to_vec(toks[1].as_slice());
                let ev = crate::event::Event::Reply(sender, recipient, msg);
                user.channel.send(&mut server.tree, ev);
                let mut out: Vec<u8> = Vec::new();
                push_str(&mut out, "\x1b[2K\r");
                user.buf_clear();
                Ok(CommandOutcome::Continue(out))
            },
        }
    } else if n == 2 && tok_is(&toks[0], "passwd") {
        match server.find_user(user.name.as_slice()) {
            None => Err(CommandError::NotFound),
            Some(i) => {
                let h = crate::user::UserConfig::hash(toks[1].as_slice());
                server.set_user_hash(i, h);
                let mut out: Vec<u8> = Vec::new();
                push_str(&mut out, "\x1b[2K\r");
                user.buf_clear();
                Ok(CommandOutcome::Continue(out))
            },
        }
    } else if n == 2 && tok_is(&toks[0], "useradd") {
        if !invoker_is_admin(server, user.name.as_slice()) {
            return Err(CommandError::Forbidden);
        }
        match server.find_user(toks[1].as_slice()) {
            Some(_) => Err(CommandError::AlreadyExists),
            None => {
                let pass = crate::user::UserConfig::gen_pass();
                let config = crate::user::UserConfig::new(pass.as_slice());
                let uname = vstd::slice::slice_to_vec(toks[1].as_slice());
                server.add_user(uname, config);
                let mut out = user.info(pass.as_slice());
                push_str(&mut out, "\x1b[2K\r");
                user.buf_clear();
                Ok(CommandOutcome::Continue(out))
            },
        }
    } else if n == 2 && tok_is(&toks[0], "passwd-reset") {
        if !invoker_is_admin(server, user.name.as_slice()) {
            return Err(CommandError::Forbidden);
        }
        match server.find_user(toks[1].as_slice()) {
            None => Err(CommandError::NotFound),
            Some(i) => {
                let pass = crate::user::UserConfig::gen_pass();
                let h = crate::user::UserConfig::hash(pass.as_slice());
                server.set_user_hash(i, h);
                let mut out = user.info(pass.as_slice());
                push_str(&mut out, "\x1b[2K\r");
                user.buf_clear();
                Ok(CommandOutcome::Continue(out))
            },
        }
    } else if n == 2 && (tok_is(&toks[0], "make-channel") || tok_is(&toks[0], "mkch")) {
        let mut p = crate::path::parse_path(&user.path, toks[1].as_slice());
        if p.len() == 0 {
            return Err(CommandError::InvalidPath);
        }
        let ghost full_p = p.deep_view();
        let name = p.pop().unwrap();
        proof {
            assert(p.deep_view() =~~= full_p.drop_last());
            assert(name@ =~~= full_p.last());
        }
        match server.channel_from_path(&p) {
            None => Err(CommandError::InvalidPath),
            Some(par) => {
                if !invoker_can_manage(server, user.name.as_slice(), par) {
                    Err(CommandError::Forbidden)
                } else {
                    match server.tree.nodes[par].find_child(name.as_slice()) {
                        Some(_) => Err(CommandError::AlreadyExists),
                        None => {
                            let lvl_rwm = PermLevel::read().or(PermLevel::write()).or(
                                PermLevel::manage(),
                            );
                            let lvl_rw = PermLevel::read().or(PermLevel::write());
                            let mut perms: Vec<PermEntry> = Vec::new();
                            perms.push(
                                PermEntry {
                                    kind: crate::perm::RestrictionKind::User(
                                        vstd::slice::slice_to_vec(user.name.as_slice()),
                                    ),
                                    level: lvl_rwm,
                                },
                            );
                            perms.push(
                                PermEntry { kind: crate::perm::RestrictionKind::All, level: lvl_rw },
                            );
                            let _id = server.tree.create(par, name, perms);
                            let mut out: Vec<u8> = Vec::new();
                            push_str(&mut out, "\x1b[2K\r");
                            user.buf_clear();
                            Ok(CommandOutcome::Continue(out))
                        },
                    }
                }
            },
        }
    } else if n == 2 && (tok_is(&toks[0], "remove-channel") || tok_is(&toks[0], "rmch")) {
        let mut p = crate::path::parse_path(&user.path, toks[1].as_slice());
        if p.len() == 0 {
            return Err(CommandError::InvalidPath);
        }
        let ghost full_p = p.deep_view();
        let name = p.pop().unwrap();
        proof {
            assert(p.deep_view() =~~= full_p.drop_last());
            assert(name@ =~~= full_p.last());
        }
        match server.channel_from_path(&p) {
            None => Err(CommandError::InvalidPath),
            Some(par) => {
                match server.tree.nodes[par].find_child(name.as_slice()) {
                    None => Err(CommandError::NotFound),
                    Some(child) => {
                        proof {
                            crate::channel::lemma_child_id(
                                server.tree.nodes@[par as int].children@,
                                name@,
                            );
                            assert(server.tree.nodes@[par as int].wf(
                                par as int,
                                server.tree.nodes@.len() as int,
                            ));
                        }
                        if !invoker_can_manage(server, user.name.as_slice(), child) {
                            Err(CommandError::Forbidden)
                        } else {
                            let _removed = server.tree.remove_child(par, name.as_slice());
                            let mut out: Vec<u8> = Vec::new();
                            push_str(&mut out, "\x1b[2K\r");
                            user.buf_clear();
                            Ok(CommandOutcome::Continue(out))
                        }
                    },
                }
            },
        }
    } else if n == 2 && (tok_is(&toks[0], "channel") || tok_is(&toks[0], "ch")) {
        let p = crate::path::parse_path(&user.path, toks[1].as_slice());
        match server.channel_from_path(&p) {
            None => Err(CommandError::InvalidPath),
            Some(t) => {
                user.path = p;
                user.channel = server.tree.subscribe(t);
                let mut out: Vec<u8> = Vec::new();
                push_str(&mut out, "\x1b[2K\r");
                user.buf_clear();
                Ok(CommandOutcome::Continue(out))
            },
        }
    } else if n == 1 && (tok_is(&toks[0], "channels") || tok_is(&toks[0], "ls")) {
        match server.channel_from_path(&user.path) {
            None => Err(CommandError::InvalidPath),
            Some(t) => {
                let drawing = server.tree.render(t);
                let mut out = user.info(drawing.as_slice());
                push_str(&mut out, "\x1b[2K\r");
                user.buf_clear();
                Ok(CommandOutcome::Continue(out))
            },
        }
    } else if n == 1 && (tok_is(&toks[0], "all-users") || tok_is(&toks[0], "lsa")) {
        let listing = render_userlist(&server.online_users);
        let mut out = user.info(listing.as_slice());
        push_str(&mut out, "\x1b[2K\r");
        user.buf_clear();
        Ok(CommandOutcome::Continue(out))
    } else if n == 2 && (tok_is(&toks[0], "channel-perms") || tok_is(&toks[0], "lsperm")) {
        let p = crate::path::parse_path(&user.path, toks[1].as_slice());
        match server.channel_from_path(&p) {
            None => Err(CommandError::InvalidPath),
            Some(t) => {
                let listing = render_perms(&server.tree.nodes[t].perms);
                let mut out = user.info(listing.as_slice());
                push_str(&mut out, "\x1b[2K\r");
                user.buf_clear();
                Ok(CommandOutcome::Continue(out))
            },
        }
    } else if n >= 1 && (tok_is(&toks[0], "make-priv-channel") || tok_is(&toks[0], "mkchp")) {
        Err(CommandError::Unimplemented)
    } else if n == 1 && tok_is(&toks[0], "users") {
        Err(CommandError::Unimplemented)
    } else if n == 2 && tok_is(&toks[0], "user") {
        Err(CommandError::Unimplemented)
    } else {
        Err(CommandError::InvalidCommand)
    }
}

/// Trigger marker tying [`handle_input`]'s contract to the dispatcher
/// result it existentially quantifies over.
pub open spec fn command_outcome_marker(dr: Result<CommandOutcome, CommandError>) -> bool {
    true
}

/// What the editor asks of the transport after one chunk of input bytes.
pub enum InputOutcome {
    /// Write these bytes to the terminal and keep the session.
    Continue(Vec<u8>),
    /// Write these bytes, then hang the session up.
    Close(Vec<u8>),
}

/// The bytes that dismiss a shown overlay; nothing when none is shown.
pub open spec fn dismiss_bytes(state: crate::user::UserState) -> Seq<u8> {
    match state {
        crate::user::UserState::Info(d) => crate::user::overlay_clear(d@),
        crate::user::UserState::Normal => Seq::empty(),
    }
}

/// The session with any overlay dismissed.
pub open spec fn user_dismissed(u: User) -> User {
    User { state: crate::user::UserState::Normal, ..u }
}

/// The largest line the editor accepts; further insertion is silently
/// rejected, and Enter still submits what fits.
pub const MAX_MSG_LEN: usize = 1024;

/// Feeds one chunk of raw input bytes through the line editor.
///
/// A shown overlay is dismissed first and the keystroke is then processed
/// as usual. Control bytes edit or submit the line: Enter publishes it as a
/// message, or — when the trimmed line starts with `:` — hands the rest to
/// [`dispatch`], whose errors come back as an overlay. A control-C closes
/// the session.
pub fn handle_input(server: &mut Server, user: &mut User, data: &[u8]) -> (r: InputOutcome)
    requires
        old(server).wf(),
        old(user).wf(&old(server).tree),
        old(server).tree.nodes[old(user).channel.channel as int].bus.log().len() + 2
            <= u64::MAX,
    ensures
        final(server).wf(),
        final(user).wf(&final(server).tree),
        final(user).name == old(user).name,
        ({
            let s0 = *old(server);
            let u0 = *old(user);
            let s1 = *final(server);
            let u1 = *final(user);
            let umid = user_dismissed(u0);
            let pre = dismiss_bytes(u0.state);
            let me = u0.name@;
            let ch = u0.channel.channel as int;
            let log0 = s0.tree.nodes[ch].bus.log();
            if data@.len() == 1 && data@[0] == 3 {
                r matches InputOutcome::Close(o)
                && o@ == pre + "\r".spec_bytes()
                && s1.tree.nodes[ch].bus.log() == log0.push(
                    crate::event::EventView::Leave { who: me },
                ).push(crate::event::EventView::Terminate)
                && s1.users == s0.users
                && s1.online_users@ == crate::server::remove_online(s0.online_users@, me)
                && (forall|j: int|
                    0 <= j < s1.online_users@.len() ==> #[trigger] s1.online_users@[j]@ != me)
                && u1 == umid
            } else if data@.len() == 1 && data@[0] == 13 {
                if u0.buffer@.len() == 0 {
                    r matches InputOutcome::Continue(o) && o@ == pre && s1 == s0 && u1 == umid
                } else {
                    let tr = crate::util::trim_spec(u0.buffer@);
                    if tr.len() > 0 && tr[0] == 58 {
                        exists|dr: Result<CommandOutcome, CommandError>|
                            {
                                &&& #[trigger] command_outcome_marker(dr)
                                &&& (dr matches Ok(CommandOutcome::Continue(o2)) ==> (
                                dispatch_post(s0, umid, tr.drop_first(), s1, u1, dr)
                                    && (r matches InputOutcome::Continue(o) && o@ == pre + o2@)))
                                &&& (dr matches Ok(CommandOutcome::Quit(o2)) ==> (dispatch_post(
                                    s0,
                                    umid,
                                    tr.drop_first(),
                                    s1,
                                    u1,
                                    dr,
                                ) && (r matches InputOutcome::Close(o) && o@ == pre + o2@)))
                                &&& (dr matches Err(e) ==> (dispatch_post(
                                    s0,
                                    umid,
                                    tr.drop_first(),
                                    s0,
                                    umid,
                                    dr,
                                ) && s1 == s0 && (u1.state matches crate::user::UserState::Info(d)
                                    && d@ == error_message(e)) && u1.buffer@.len() == 0
                                    && u1.cursor == 0 && u1.channel == u0.channel && u1.path
                                    == u0.path && (r matches InputOutcome::Continue(o) && o@ == pre
                                    + crate::user::info_wrap(error_message(e)))))
                            }
                    } else {
                        r matches InputOutcome::Continue(o)
                        && o@ == pre + crate::term::clear_line()
                        && s1.tree.nodes[ch].bus.log() == log0.push(
                            crate::event::EventView::Msg { sender: me, text: u0.buffer@ },
                        )
                        && s1.tree.nodes@.len() == s0.tree.nodes@.len()
                        && (forall|i: int|
                            0 <= i < s0.tree.nodes@.len() && i != ch
                                ==> s1.tree.nodes@[i] == #[trigger] s0.tree.nodes@[i])
                        && s1.users == s0.users && s1.online_users == s0.online_users
                        && u1.state is Normal && u1.buffer@.len() == 0 && u1.cursor == 0
                        && u1.channel == u0.channel && u1.path == u0.path
                    }
                }
            } else if data@.len() == 1 && data@[0] == 127 {
                s1 == s0 && u1.state is Normal && u1.channel == u0.channel && u1.path == u0.path
                    && if u0.cursor > 0 {
                    r matches InputOutcome::Continue(o)
                    && o@ == pre + crate::term::erase_char()
                    && u1.buffer@ == u0.buffer@.remove(u0.cursor - 1)
                    && u1.cursor == u0.cursor - 1
                } else {
                    r matches InputOutcome::Continue(o) && o@ == pre && u1.buffer == u0.buffer
                        && u1.cursor == u0.cursor
                }
            } else if data@.len() == 3 && data@[0] == 27 && data@[1] == 91 && (data@[2] == 65
                || data@[2] == 66) {
                r matches InputOutcome::Continue(o) && o@ == pre && s1 == s0 && u1 == umid
            } else if data@.len() == 3 && data@[0] == 27 && data@[1] == 91 && data@[2] == 67 {
                s1 == s0 && u1.state is Normal && u1.buffer == u0.buffer && u1.channel
                    == u0.channel && u1.path == u0.path && if u0.cursor < u0.buffer@.len() {
                    r matches InputOutcome::Continue(o) && o@ == pre + data@ && u1.cursor
                        == u0.cursor + 1
                } else {
                    r matches InputOutcome::Continue(o) && o@ == pre && u1.cursor == u0.cursor
                }
            } else if data@.len() == 3 && data@[0] == 27 && data@[1] == 91 && data@[2] == 68 {
                s1 == s0 && u1.state is Normal && u1.buffer == u0.buffer && u1.channel
                    == u0.channel && u1.path == u0.path && if u0.cursor > 0 {
                    r matches InputOutcome::Continue(o) && o@ == pre + data@ && u1.cursor
                        == u0.cursor - 1
                } else {
                    r matches InputOutcome::Continue(o) && o@ == pre && u1.cursor == u0.cursor
                }
            } else {
                s1 == s0 && u1.state is Normal && u1.channel == u0.channel && u1.path == u0.path
                    && if u0.buffer@.len() >= MAX_MSG_LEN {
                    r matches InputOutcome::Continue(o) && o@ == pre && u1.buffer == u0.buffer
                        && u1.cursor == u0.cursor
                } else {
                    r matches InputOutcome::Continue(o)
                    && o@ == pre + data@
                    && u1.buffer@ == u0.buffer@.subrange(0, u0.cursor as int) + data@
                        + u0.buffer@.subrange(u0.cursor as int, u0.buffer@.len() as int)
                    && u1.cursor == u0.cursor + data@.len()
                }
            }
        }),
{
    let mut pre: Vec<u8> = Vec::new();
    match &user.state {
        crate::user::UserState::Info(d) => {
            let cleared = user.clear_info(d.as_slice());
            push_all(&mut pre, cleared.as_slice());
        },
        crate::user::UserState::Normal => {},
    }
    user.state = crate::user::UserState::Normal;
    proof {
        assert(pre@ =~= dismiss_bytes(old(user).state));
        assert(*user =~= user_dismissed(*old(user)));
    }
    if data.len() == 1 && data[0] == 3 {
        server.close_session(user);
        push_str(&mut pre, "\r");
        InputOutcome::Close(pre)
    } else if data.len() == 1 && data[0] == 13 {
        if user.buffer.len() == 0 {
            return InputOutcome::Continue(pre);
        }
        let (a, b) = crate::util::trim_range(user.buffer.as_slice());
        if a < b && user.buffer[a] == 58 {
            proof {
                let tr = crate::util::trim_spec(old(user).buffer@);
                assert(tr == old(user).buffer@.subrange(a as int, b as int));
                assert(tr[0] == old(user).buffer@[a as int]);
                assert(tr.drop_first() =~= old(user).buffer@.subrange(a + 1, b as int));
            }
            let rest = vstd::slice::slice_to_vec(
                vstd::slice::slice_subrange(user.buffer.as_slice(), a + 1, b),
            );
            let ghost smid = *server;
            let ghost umid_g = *user;
            let ghost grest = rest@;
            let dr = dispatch(server, user, rest.as_slice());
            let ghost gdr = dr;
            match dr {
                Ok(CommandOutcome::Continue(o2)) => {
                    push_all(&mut pre, o2.as_slice());
                    proof {
                        assert(command_outcome_marker(gdr));
                        assert(dispatch_post(smid, umid_g, grest, *server, *user, gdr));
                    }
                    InputOutcome::Continue(pre)
                },
                Ok(CommandOutcome::Quit(o2)) => {
                    push_all(&mut pre, o2.as_slice());
                    proof {
                        assert(command_outcome_marker(gdr));
                        assert(dispatch_post(smid, umid_g, grest, *server, *user, gdr));
                    }
                    InputOutcome::Close(pre)
                },
                Err(e) => {
                    let msg = e.message();
                    let shown = user.info(msg.as_slice());
                    user.buf_clear();
                    push_all(&mut pre, shown.as_slice());
                    proof {
                        assert(command_outcome_marker(gdr));
                        assert(dispatch_post(smid, umid_g, grest, smid, umid_g, gdr));
                    }
                    InputOutcome::Continue(pre)
                },
            }
        } else {
            let sender = vstd::slice::slice_to_vec(user.name.as_slice());
            let text = vstd::slice::slice_to_vec(user.buffer.as_slice());
            let ev = crate::event::Event::Msg(sender, text);
            user.channel.send(&mut server.tree, ev);
            push_str(&mut pre, "\x1b[2K\r");
            user.buf_clear();
            InputOutcome::Continue(pre)
        }
    } else if data.len() == 1 && data[0] == 127 {
        if user.cursor > 0 {
            let cur = user.cursor;
            user.buffer.remove(cur - 1);
            user.cursor = cur - 1;
            push_str(&mut pre, "\x1b[D\x1b[P");
        }
        InputOutcome::Continue(pre)
    } else if data.len() == 3 && data[0] == 27 && data[1] == 91 && (data[2] == 65 || data[2]
        == 66) {
        InputOutcome::Continue(pre)
    } else if data.len() == 3 && data[0] == 27 && data[1] == 91 && data[2] == 67 {
        if user.cursor < user.buffer.len() {
            user.cursor = user.cursor + 1;
            push_all(&mut pre, data);
        }
        InputOutcome::Continue(pre)
    } else if data.len() == 3 && data[0] == 27 && data[1] == 91 && data[2] == 68 {
        if user.cursor > 0 {
            user.cursor = user.cursor - 1;
            push_all(&mut pre, data);
        }
        InputOutcome::Continue(pre)
    } else {
        if user.buffer.len() < MAX_MSG_LEN {
            let ghost buf0 = user.buffer@;
            let cur = user.cursor;
            let mut i: usize = 0;
            while i < data.len()
                invariant
                    i <= data@.len(),
                    cur + i <= user.buffer@.len(),
                    cur <= buf0.len(),
                    user.name == old(user).name,
                    user.channel == old(user).channel,
                    user.path == old(user).path,
                    user.state is Normal,
                    *server == *old(server),
                    old(server).wf(),
                    old(user).channel.wf(&old(server).tree),
                    pre@ == dismiss_bytes(old(user).state),
                    user.buffer@ =~= buf0.subrange(0, cur as int) + data@.subrange(0, i as int)
                        + buf0.subrange(cur as int, buf0.len() as int),
                decreases data@.len() - i,
            {
                let blen = user.buffer.len();
                proof {
                    assert(cur + i <= blen);
                }
                user.buffer.insert(cur + i, data[i]);
                proof {
                    assert(user.buffer@ =~= buf0.subrange(0, cur as int) + data@.subrange(
                        0,
                        i + 1,
                    ) + buf0.subrange(cur as int, buf0.len() as int));
                }
                i = i + 1;
            }
            proof {
                assert(data@.subrange(0, data@.len() as int) =~= data@);
            }
            let flen = user.buffer.len();
            proof {
                assert(cur + data@.len() <= flen);
            }
            user.cursor = cur + data.len();
            push_all(&mut pre, data);
        }
        InputOutcome::Continue(pre)
    }
}

} // verus!
