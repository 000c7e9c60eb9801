//! Accounts and per-session state.
//!
//! A [`UserConfig`] is one account: a one-way digest of the password and the
//! account's role grants. A [`User`] is one connected session: its identity,
//! the line being edited, the rendering state and the live subscription.

use vstd::prelude::*;
use vstd::slice::slice_to_vec;
use vstd::string::StringSliceAdditionalSpecFns;
use crate::bus::{oldest_retained, recv_cursor, RecvOutcome, BUFFER_SIZE};
use crate::channel::{ChannelTree, SubscribedChannel};
use crate::event::{render_spec, EventView};
use crate::perm::PermLevel;
use crate::term::{clear_line, clear_prev_line, push_str};
use crate::util::{dec_rep, fmt_u64, push_all};
use rand::Rng;

verus! {

/// The starting state of the password digest.
pub const FNV_OFFSET: u64 = 0xcbf29ce484222325;

/// The multiplier of the password digest.
pub const FNV_PRIME: u64 = 0x100000001b3;

/// The digest after folding in every byte of `s`, left to right.
pub open spec fn fnv1a(s: Seq<u8>) -> u64
    decreases s.len(),
{
    if s.len() == 0 {
        FNV_OFFSET
    } else {
        (fnv1a(s.drop_last()) ^ (s.last() as u64)).wrapping_mul(FNV_PRIME)
    }
}

/// True for ASCII letters and digits.
pub open spec fn is_alnum(b: u8) -> bool {
    (48 <= b <= 57) || (65 <= b <= 90) || (97 <= b <= 122)
}

/// The level of the first grant named `name`, if any.
pub open spec fn role_level(roles: Seq<(Vec<u8>, PermLevel)>, name: Seq<u8>) -> Option<PermLevel>
    decreases roles.len(),
{
    if roles.len() == 0 {
        None
    } else if roles[0].0@ == name {
        Some(roles[0].1)
    } else {
        role_level(roles.drop_first(), name)
    }
}

/// The union of the levels of all grants.
pub open spec fn global_bits(roles: Seq<(Vec<u8>, PermLevel)>) -> u8
    decreases roles.len(),
{
    if roles.len() == 0 {
        0
    } else {
        global_bits(roles.drop_last()) | roles.last().1.bits
    }
}

/// One account: password digest and role grants.
pub struct UserConfig {
    /// One-way digest of the password bytes.
    pub hash: u64,
    /// Role name to granted level.
    pub roles: Vec<(Vec<u8>, PermLevel)>,
}

impl UserConfig {
    /// A fresh account with the given password and no grants.
    pub fn new(pass: &[u8]) -> (r: UserConfig)
        ensures
            r.hash == fnv1a(pass@),
            r.roles@.len() == 0,
    {
        UserConfig { hash: UserConfig::hash(pass), roles: Vec::new() }
    }

    /// A generated one-time password.
    ///
    /// Relies on `rand`'s thread rng sampling the `Alphanumeric`
    /// distribution: each drawn byte is an ASCII letter or digit. Nothing
    /// more is promised of a random value.
    #[verifier::external_body]
    pub fn gen_pass() -> (r: [u8; 8])
        ensures
            forall|i: int| 0 <= i < 8 ==> is_alnum(#[trigger] r@[i]),
    {
        let mut pass = [0u8; 8];
        rand::thread_rng()
            .sample_iter(&rand::distributions::Alphanumeric)
            .zip(pass.iter_mut())
            .for_each(|(c, b)| *b = c);
        pass
    }

    /// The deterministic one-way digest of `pass`.
    pub fn hash(pass: &[u8]) -> (r: u64)
        ensures
            r == fnv1a(pass@),
    {
        let mut h: u64 = FNV_OFFSET;
        let mut i: usize = 0;
        while i < pass.len()
            invariant
                i <= pass@.len(),
                h == fnv1a(pass@.take(i as int)),
            decreases pass@.len() - i,
        {
            proof {
                assert(pass@.take(i + 1).drop_last() =~= pass@.take(i as int));
                assert(pass@.take(i + 1).last() == pass@[i as int]);
            }
            h = (h ^ (pass[i] as u64)).wrapping_mul(FNV_PRIME);
            i = i + 1;
        }
        proof {
            assert(pass@.take(pass@.len() as int) =~= pass@);
        }
        h
    }

    /// The level this account's grants give for the role `name`.
    pub fn get_role(&self, name: &[u8]) -> (r: Option<PermLevel>)
        ensures
            r == role_level(self.roles@, name@),
    {
        let mut i: usize = 0;
        proof {
            assert(self.roles@.skip(0) =~= self.roles@);
        }
        while i < self.roles.len()
            invariant
                i <= self.roles@.len(),
                role_level(self.roles@.skip(i as int), name@) == role_level(self.roles@, name@),
            decreases self.roles@.len() - i,
        {
            proof {
                assert(self.roles@.skip(i as int).drop_first() =~= self.roles@.skip(i + 1));
            }
            if crate::util::bytes_eq(self.roles[i].0.as_slice(), name) {
                return Some(self.roles[i].1);
            }
            i = i + 1;
        }
        None
    }

    /// The account's effective global level: the union of every grant.
    pub fn get_global_perms(&self) -> (r: PermLevel)
        ensures
            r.bits == global_bits(self.roles@),
    {
        let mut acc = PermLevel::none();
        let mut i: usize = 0;
        while i < self.roles.len()
            invariant
                i <= self.roles@.len(),
                acc.bits == global_bits(self.roles@.take(i as int)),
            decreases self.roles@.len() - i,
        {
            proof {
                assert(self.roles@.take(i + 1).drop_last() =~= self.roles@.take(i as int));
                assert(self.roles@.take(i + 1).last() == self.roles@[i as int]);
            }
            acc = acc.or(self.roles[i].1);
            i = i + 1;
        }
        proof {
            assert(self.roles@.take(self.roles@.len() as int) =~= self.roles@);
        }
        acc
    }
}

/// What the session is showing: the live input line, or a transient
/// one-shot overlay that the next keystroke dismisses.
pub enum UserState {
    Info(Vec<u8>),
    Normal,
}

/// One connected session.
pub struct User {
    /// The account name this session authenticated as.
    pub name: Vec<u8>,
    /// The line being edited.
    pub buffer: Vec<u8>,
    /// Where the next insertion goes, in `0 ..= buffer.len()`.
    pub cursor: usize,
    /// Normal editing, or a transient info overlay.
    pub state: UserState,
    /// The live subscription into the current channel.
    pub channel: SubscribedChannel,
    /// The current channel's absolute path, one segment per element.
    pub path: Vec<Vec<u8>>,
}

/// What the delivery loop should do after one receive attempt.
pub enum DeliveryStep {
    /// Nothing pending: wait for the wake signal.
    Suspend,
    /// The session's own terminate sentinel arrived: the loop ends.
    Stop,
    /// Write these bytes to the session's terminal, then poll again.
    Output(Vec<u8>),
}

/// The bytes that clear an overlay of `data`: one line-erase when the
/// overlay is a single line, else one previous-line-erase per line break.
pub open spec fn overlay_clear(data: Seq<u8>) -> Seq<u8> {
    if count_newlines(data) == 0 {
        clear_line()
    } else {
        repeat_clear(count_newlines(data))
    }
}

/// How many line-feed bytes `s` holds.
pub open spec fn count_newlines(s: Seq<u8>) -> nat
    decreases s.len(),
{
    if s.len() == 0 {
        0
    } else {
        count_newlines(s.drop_last()) + (if s.last() == 10 {
            1nat
        } else {
            0nat
        })
    }
}

/// `n` previous-line-erase sequences.
pub open spec fn repeat_clear(n: nat) -> Seq<u8>
    decreases n,
{
    if n == 0 {
        Seq::empty()
    } else {
        clear_prev_line() + repeat_clear((n - 1) as nat)
    }
}

/// What showing an overlay sends: erase the input line, print the overlay,
/// return the carriage.
pub open spec fn info_wrap(d: Seq<u8>) -> Seq<u8> {
    clear_line() + d + "\r".spec_bytes()
}

/// The lossy-delivery notice for `n` missed events.
pub open spec fn lag_notice(n: nat) -> Seq<u8> {
    "ECHL: Channel Lost Events: ".spec_bytes() + dec_rep(n) + "\r\n".spec_bytes()
}

/// What one delivered event writes to the terminal: erase what the session
/// shows, print the event, then restore the overlay and the edit buffer so
/// in-progress input is never lost.
pub open spec fn delivery_output(state: UserState, buffer: Seq<u8>, e: EventView) -> Seq<u8> {
    match state {
        UserState::Normal => {
            if buffer.len() == 0 {
                render_spec(e) + "\r\n".spec_bytes()
            } else {
                clear_line() + render_spec(e) + "\r\n".spec_bytes() + buffer
            }
        },
        UserState::Info(d) => {
            overlay_clear(d@) + render_spec(e) + "\r\n".spec_bytes() + d@ + buffer
        },
    }
}

impl User {
    /// The session is consistent with the tree it lives in.
    pub open spec fn wf(&self, tree: &ChannelTree) -> bool {
        &&& self.channel.wf(tree)
        &&& self.cursor <= self.buffer.len()
    }

    /// A fresh session for `name`, subscribed to the root channel, with an
    /// empty edit buffer.
    pub fn new(name: Vec<u8>, tree: &ChannelTree) -> (r: User)
        requires
            tree.wf(),
        ensures
            r.wf(tree),
            r.name == name,
            r.buffer@.len() == 0,
            r.cursor == 0,
            r.state is Normal,
            r.path@.len() == 0,
            r.channel.channel == 0,
            r.channel.next == tree.nodes[0].bus.log().len(),
    {
        User {
            name,
            buffer: Vec::new(),
            cursor: 0,
            state: UserState::Normal,
            channel: tree.subscribe(0),
            path: Vec::new(),
        }
    }

    /// Empties the edit buffer and homes the cursor.
    pub fn buf_clear(&mut self)
        ensures
            final(self).buffer@.len() == 0,
            final(self).cursor == 0,
            final(self).name == old(self).name,
            final(self).state == old(self).state,
            final(self).channel == old(self).channel,
            final(self).path == old(self).path,
    {
        self.buffer.clear();
        self.cursor = 0;
    }

    /// Shows `data` as a one-shot overlay and returns the bytes that put it
    /// on the terminal in place of the input line.
    pub fn info(&mut self, data: &[u8]) -> (out: Vec<u8>)
        ensures
            final(self).state matches UserState::Info(d) && d@ == data@,
            final(self).buffer == old(self).buffer,
            final(self).cursor == old(self).cursor,
            final(self).name == old(self).name,
            final(self).channel == old(self).channel,
            final(self).path == old(self).path,
            out@ == info_wrap(data@),
    {
        self.state = UserState::Info(slice_to_vec(data));
        let mut out: Vec<u8> = Vec::new();
        push_str(&mut out, "\x1b[2K\r");
        push_all(&mut out, data);
        push_str(&mut out, "\r");
        proof {
            assert(out@ =~= clear_line() + data@ + "\r".spec_bytes());
        }
        out
    }

    /// The bytes that erase a shown overlay of `data`.
    pub fn clear_info(&self, data: &[u8]) -> (out: Vec<u8>)
        ensures
            out@ == overlay_clear(data@),
    {
        let mut count: u64 = 0;
        let mut i: usize = 0;
        while i < data.len()
            invariant
                i <= data@.len(),
                count == count_newlines(data@.take(i as int)),
                count <= i,
            decreases data@.len() - i,
        {
            proof {
                assert(data@.take(i + 1).drop_last() =~= data@.take(i as int));
                assert(data@.take(i + 1).last() == data@[i as int]);
            }
            if data[i] == 10 {
                count = count + 1;
            }
            i = i + 1;
        }
        proof {
            assert(data@.take(data@.len() as int) =~= data@);
        }
        let mut out: Vec<u8> = Vec::new();
        if count == 0 {
            push_str(&mut out, "\x1b[2K\r");
            proof {
                assert(out@ =~= overlay_clear(data@));
            }
        } else {
            let mut k: u64 = 0;
            while k < count
                invariant
                    k <= count,
                    out@ == repeat_clear(k as nat),
                decreases count - k,
            {
                push_str(&mut out, "\x1b[1F\x1b[2K");
                proof {
                    lemma_repeat_clear_step(k as nat);
                    assert(out@ =~= repeat_clear((k + 1) as nat));
                }
                k = k + 1;
            }
            proof {
                assert(out@ =~= overlay_clear(data@));
            }
        }
        out
    }

    /// One turn of the delivery loop: attempt to receive from the current
    /// subscription and say what to do — suspend on an idle bus, stop on the
    /// session's terminate sentinel, otherwise write the lag notice or the
    /// rendered event with the session's display restored around it.
    pub fn delivery_step(&mut self, tree: &ChannelTree) -> (r: DeliveryStep)
        requires
            tree.wf(),
            old(self).wf(tree),
        ensures
            final(self).wf(tree),
            final(self).name == old(self).name,
            final(self).buffer == old(self).buffer,
            final(self).cursor == old(self).cursor,
            final(self).state == old(self).state,
            final(self).path == old(self).path,
            final(self).channel.channel == old(self).channel.channel,
            ({
                let log = tree.nodes[old(self).channel.channel as int].bus.log();
                let c = old(self).channel.next as nat;
                let oldest = oldest_retained(log.len(), BUFFER_SIZE as nat);
                &&& final(self).channel.next == recv_cursor(log.len(), BUFFER_SIZE as nat, c)
                &&& (c == log.len() ==> r is Suspend)
                &&& (c < oldest ==> (r matches DeliveryStep::Output(o) && o@ == lag_notice(
                    (oldest - c) as nat,
                )))
                &&& (oldest <= c < log.len() && log[c as int] is Terminate ==> r is Stop)
                &&& (oldest <= c < log.len() && !(log[c as int] is Terminate) ==> (
                r matches DeliveryStep::Output(o) && o@ == delivery_output(
                    old(self).state,
                    old(self).buffer@,
                    log[c as int],
                )))
            }),
    {
        match self.channel.recv(tree) {
            RecvOutcome::Empty => DeliveryStep::Suspend,
            RecvOutcome::Lagged(n) => {
                let mut out: Vec<u8> = Vec::new();
                push_str(&mut out, "ECHL: Channel Lost Events: ");
                let digits = fmt_u64(n);
                push_all(&mut out, digits.as_slice());
                push_str(&mut out, "\r\n");
                proof {
                    assert(out@ =~= lag_notice(n as nat));
                }
                DeliveryStep::Output(out)
            },
            RecvOutcome::Received(e) => {
                match e {
                    crate::event::Event::Terminate => DeliveryStep::Stop,
                    e => {
                        let mut out: Vec<u8> = Vec::new();
                        match &self.state {
                            UserState::Normal => {
                                if self.buffer.len() > 0 {
                                    push_str(&mut out, "\x1b[2K\r");
                                }
                                let line = e.render();
                                push_all(&mut out, line.as_slice());
                                push_str(&mut out, "\r\n");
                                if self.buffer.len() > 0 {
                                    push_all(&mut out, self.buffer.as_slice());
                                }
                            },
                            UserState::Info(d) => {
                                let cleared = self.clear_info(d.as_slice());
                                push_all(&mut out, cleared.as_slice());
                                let line = e.render();
                                push_all(&mut out, line.as_slice());
                                push_str(&mut out, "\r\n");
                                push_all(&mut out, d.as_slice());
                                push_all(&mut out, self.buffer.as_slice());
                            },
                        }
                        proof {
                            assert(out@ =~= delivery_output(
                                self.state,
                                self.buffer@,
                                e@,
                            ));
                        }
                        DeliveryStep::Output(out)
                    },
                }
            },
        }
    }
}

/// Unfolds one step of [`repeat_clear`].
proof fn lemma_repeat_clear_step(n: nat)
    ensures
        repeat_clear((n + 1) as nat) =~= repeat_clear(n) + clear_prev_line(),
    decreases n,
{
    if n > 0 {
        lemma_repeat_clear_step((n - 1) as nat);
    }
}

} // verus!
