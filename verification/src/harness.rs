//! The bot harness's decisions: which bot types it can start, what it does with each message
//! of the server, and how it retries a connection.
use vstd::prelude::*;

use crate::protocol::ConnectionError;

verus! {

/// The bots a harness can start.
#[derive(Debug, Clone, Copy, PartialEq, Eq, Structural)]
pub enum BotKind {
    CrumbFollower,
    RandomWalk,
}

/// The bot types a harness can start, in the order they were registered, and the bot each
/// name starts.
pub struct Harness {
    pub bot_types: Vec<String>,
    pub kinds: Vec<BotKind>,
}

impl Harness {
    /// One bot per name, each name once.
    pub open spec fn wf(&self) -> bool {
        &&& self.kinds@.len() == self.bot_types@.len()
        &&& type_names(self.bot_types@).no_duplicates()
    }

    /// The bot that `name` starts, if it is registered.
    pub open spec fn registered_kind(&self, name: Seq<char>) -> Option<BotKind> {
        let names = type_names(self.bot_types@);
        if names.contains(name) {
            Some(self.kinds@[names.index_of(name)])
        } else {
            None
        }
    }
}

/// The views of the registered bot types.
pub open spec fn type_names(types: Seq<String>) -> Seq<Seq<char>> {
    types.map_values(|t: String| t@)
}

/// What one connection of the harness keeps: the map size the server announced, the bots that
/// get updates and the bots that can still be killed.
pub struct Session {
    pub map_size: Option<(usize, usize)>,
    pub channels: Vec<u32>,
    pub kill_signals: Vec<u32>,
}

/// A message of the server, as far as the harness reads it.
pub enum HarnessEvent {
    ConnectAck { map_size: (usize, usize) },
    AssignBot { bot_id: u32, bot_type: String },
    ServerUpdate { bot_id: u32 },
    Close,
    KillBot { bot_id: u32 },
}

/// What the harness does with a message.
pub enum HarnessStep {
    /// Nothing more than recording the map size.
    MapSizeSet,
    /// Start a bot of a registered type.
    Spawn { bot_id: u32, bot_type: String, kind: BotKind },
    /// Hand the update to the bot it is for.
    Forward { bot_id: u32 },
    /// Stop reading and shut the connection down.
    Shutdown,
    /// Tell a running bot to stop.
    Kill { bot_id: u32 },
    /// The server asked to kill a bot that is not running.
    KillUnknown { bot_id: u32 },
}

/// `s` with `id` in it: unchanged when it is there, else `id` added at the end.
pub open spec fn with_id(s: Seq<u32>, id: u32) -> Seq<u32> {
    if s.contains(id) {
        s
    } else {
        s.push(id)
    }
}

/// `s` without `id`.
pub open spec fn without_id(s: Seq<u32>, id: u32) -> Seq<u32> {
    s.filter(other_than(id))
}

/// Holds of every id but `id`.
pub open spec fn other_than(id: u32) -> spec_fn(u32) -> bool {
    |x: u32| x != id
}

/// The step `r` and the session afterwards (`m1`, `c1`, `k1`) are what the harness makes of
/// `msg` in the session `m0`, `c0`, `k0`: map size, bots with updates, bots that can be killed.
pub open spec fn on_message_done(
    msg: HarnessEvent,
    r: HarnessStep,
    m0: Option<(usize, usize)>,
    c0: Seq<u32>,
    k0: Seq<u32>,
    m1: Option<(usize, usize)>,
    c1: Seq<u32>,
    k1: Seq<u32>,
) -> bool {
    match msg {
        HarnessEvent::ConnectAck { map_size } => {
            &&& r is MapSizeSet
            &&& m1 == Some(map_size)
            &&& c1 == c0
            &&& k1 == k0
        },
        HarnessEvent::AssignBot { bot_id, bot_type } => {
            &&& r matches HarnessStep::Spawn { bot_id: b, bot_type: t, kind: k }
            &&& r->Spawn_bot_id == bot_id
            &&& r->Spawn_bot_type@ == bot_type@
            &&& m1 == m0
            &&& c1 == with_id(c0, bot_id)
            &&& k1 == with_id(k0, bot_id)
        },
        HarnessEvent::ServerUpdate { bot_id } => {
            &&& r == (HarnessStep::Forward { bot_id })
            &&& m1 == m0
            &&& c1 == c0
            &&& k1 == k0
        },
        HarnessEvent::Close => {
            &&& r is Shutdown
            &&& m1 == m0
            &&& c1 == c0
            &&& k1 == k0
        },
        HarnessEvent::KillBot { bot_id } => {
            &&& (if k0.contains(bot_id) {
                r == (HarnessStep::Kill { bot_id })
            } else {
                r == (HarnessStep::KillUnknown { bot_id })
            })
            &&& m1 == m0
            &&& c1 == c0
            &&& k1 == without_id(k0, bot_id)
        },
    }
}

/// An assigned bot gets updates and can be killed afterwards.
pub proof fn lemma_assigned_bot_is_known(
    bot_id: u32,
    bot_type: String,
    r: HarnessStep,
    m0: Option<(usize, usize)>,
    c0: Seq<u32>,
    k0: Seq<u32>,
    m1: Option<(usize, usize)>,
    c1: Seq<u32>,
    k1: Seq<u32>,
)
    requires
        on_message_done(HarnessEvent::AssignBot { bot_id, bot_type }, r, m0, c0, k0, m1, c1, k1),
    ensures
        c1.contains(bot_id),
        k1.contains(bot_id),
{
    if !c0.contains(bot_id) {
        assert(c1[c0.len() as int] == bot_id);
    }
    if !k0.contains(bot_id) {
        assert(k1[k0.len() as int] == bot_id);
    }
}

/// A killed bot can not be killed again: a second kill reports it unknown.
pub proof fn lemma_killed_bot_is_gone(
    bot_id: u32,
    r: HarnessStep,
    m0: Option<(usize, usize)>,
    c0: Seq<u32>,
    k0: Seq<u32>,
    m1: Option<(usize, usize)>,
    c1: Seq<u32>,
    k1: Seq<u32>,
)
    requires
        on_message_done(HarnessEvent::KillBot { bot_id }, r, m0, c0, k0, m1, c1, k1),
    ensures
        !k1.contains(bot_id),
{
    if k1.contains(bot_id) {
        let i = choose|i: int| 0 <= i < k1.len() && k1[i] == bot_id;
        k0.lemma_filter_pred(other_than(bot_id), i);
    }
}

fn add_id(v: &mut Vec<u32>, id: u32)
    ensures
        final(v)@ == with_id(old(v)@, id),
{
    let mut i: usize = 0;
    while i < v.len()
        invariant
            i <= v@.len(),
            v@ == old(v)@,
            forall|j: int| 0 <= j < i ==> v@[j] != id,
        decreases v@.len() - i,
    {
        if v[i] == id {
            proof {
                assert(old(v)@.contains(id)) by {
                    assert(old(v)@[i as int] == id);
                }
            }
            return;
        }
        i = i + 1;
    }
    proof {
        assert(!old(v)@.contains(id));
    }
    v.push(id);
}

/// Takes `id` out of `v`; whether it was there.
fn remove_id(v: &mut Vec<u32>, id: u32) -> (r: bool)
    ensures
        r == old(v)@.contains(id),
        final(v)@ == without_id(old(v)@, id),
{
    let mut out: Vec<u32> = Vec::new();
    let mut found = false;
    let mut i: usize = 0;
    let ghost keep = other_than(id);
    while i < v.len()
        invariant
            i <= v@.len(),
            v@ == old(v)@,
            keep == other_than(id),
            out@ == v@.take(i as int).filter(keep),
            found == v@.take(i as int).contains(id),
        decreases v@.len() - i,
    {
        let x = v[i];
        proof {
            assert(v@.take(i as int + 1) =~= v@.take(i as int).push(x));
            v@.take(i as int).lemma_filter_push(x, keep);
            if v@.take(i as int + 1).contains(id) && x != id {
                let k = choose|k: int| 0 <= k < i + 1 && #[trigger] v@.take(i as int + 1)[k] == id;
                assert(v@.take(i as int)[k] == id);
            }
            if x == id {
                assert(v@.take(i as int + 1)[i as int] == id);
            }
            if v@.take(i as int).contains(id) {
                let k = choose|k: int| 0 <= k < i && #[trigger] v@.take(i as int)[k] == id;
                assert(v@.take(i as int + 1)[k] == id);
            }
        }
        if x != id {
            out.push(x);
        } else {
            found = true;
        }
        i = i + 1;
    }
    proof {
        assert(v@.take(v@.len() as int) =~= v@);
    }
    *v = out;
    found
}

impl Harness {
    /// A harness with no bot types.
    pub fn new() -> (r: Self)
        ensures
            r.bot_types@.len() == 0,
            r.wf(),
    {
        let r = Harness { bot_types: Vec::new(), kinds: Vec::new() };
        proof {
            assert(type_names(r.bot_types@) =~= Seq::<Seq<char>>::empty());
        }
        r
    }

    /// Registers the bot `kind` under `name`; a name registered again keeps its place and
    /// starts the bot it was registered with last.
    pub fn register(&mut self, name: String, kind: BotKind)
        requires
            old(self).wf(),
        ensures
            final(self).wf(),
            type_names(old(self).bot_types@).contains(name@) ==> type_names(final(self).bot_types@)
                == type_names(old(self).bot_types@),
            !type_names(old(self).bot_types@).contains(name@) ==> type_names(
                final(self).bot_types@,
            ) == type_names(old(self).bot_types@).push(name@),
            final(self).registered_kind(name@) == Some(kind),
            forall|n: Seq<char>|
                n != name@ ==> #[trigger] final(self).registered_kind(n) == old(self).registered_kind(n),
    {
        let ghost names = type_names(self.bot_types@);
        let mut i: usize = 0;
        while i < self.bot_types.len()
            invariant
                i <= self.bot_types@.len(),
                self.bot_types@ == old(self).bot_types@,
                self.kinds@ == old(self).kinds@,
                names == type_names(self.bot_types@),
                self.wf(),
                forall|j: int| 0 <= j < i ==> names[j] != name@,
            decreases self.bot_types@.len() - i,
        {
            if self.bot_types[i] == name {
                self.kinds.set(i, kind);
                proof {
                    assert(names[i as int] == name@);
                    assert(names.index_of(name@) == i as int);
                    assert forall|n: Seq<char>| n != name@ implies #[trigger] self.registered_kind(n)
                        == old(self).registered_kind(n) by {
                        if names.contains(n) {
                            assert(names[names.index_of(n)] == n);
                        }
                    }
                }
                return;
            }
            i = i + 1;
        }
        let ghost old_kinds = self.kinds@;
        self.bot_types.push(name);
        self.kinds.push(kind);
        proof {
            let names2 = type_names(self.bot_types@);
            assert(names2 =~= names.push(name@));
            assert(!names.contains(name@));
            assert(names2[names.len() as int] == name@);
            let jn = names2.index_of(name@);
            assert(0 <= jn < names2.len() && names2[jn] == name@);
            if jn < names.len() {
                assert(names[jn] == names2[jn]);
            }
            assert(jn == names.len() as int);
            assert(self.kinds@[jn] == kind);
            assert forall|a: int, b: int| 0 <= a < names2.len() && 0 <= b < names2.len() && a != b implies names2[a]
                != names2[b] by {
                if a < names.len() && b < names.len() {
                    assert(names2[a] == names[a] && names2[b] == names[b]);
                } else if a < names.len() {
                    assert(names2[a] == names[a]);
                } else if b < names.len() {
                    assert(names2[b] == names[b]);
                }
            }
            assert forall|n: Seq<char>| n != name@ implies #[trigger] self.registered_kind(n)
                == old(self).registered_kind(n) by {
                if names.contains(n) {
                    let j = names.index_of(n);
                    assert(names2[j] == n);
                    assert(names2.contains(n));
                    assert(names2.index_of(n) == j);
                }
                if names2.contains(n) {
                    let j = names2.index_of(n);
                    assert(names[j] == n);
                }
            }
        }
    }

    /// The bot `name` starts, if it is registered.
    pub fn kind_of(&self, name: &String) -> (r: Option<BotKind>)
        requires
            self.wf(),
        ensures
            r == self.registered_kind(name@),
    {
        let ghost names = type_names(self.bot_types@);
        let mut i: usize = 0;
        while i < self.bot_types.len()
            invariant
                i <= self.bot_types@.len(),
                names == type_names(self.bot_types@),
                self.wf(),
                forall|j: int| 0 <= j < i ==> names[j] != name@,
            decreases self.bot_types@.len() - i,
        {
            if self.bot_types[i] == *name {
                proof {
                    assert(names[i as int] == name@);
                    assert(names.index_of(name@) == i as int);
                }
                return Some(self.kinds[i]);
            }
            i = i + 1;
        }
        None
    }

    /// Whether a bot type named `name` is registered.
    pub fn is_registered(&self, name: &String) -> (r: bool)
        ensures
            r == type_names(self.bot_types@).contains(name@),
    {
        let mut i: usize = 0;
        while i < self.bot_types.len()
            invariant
                i <= self.bot_types@.len(),
                forall|j: int| 0 <= j < i ==> self.bot_types@[j]@ != name@,
            decreases self.bot_types@.len() - i,
        {
            if self.bot_types[i] == *name {
                proof {
                    assert(type_names(self.bot_types@)[i as int] == name@);
                }
                return true;
            }
            i = i + 1;
        }
        proof {
            if type_names(self.bot_types@).contains(name@) {
                let k = choose|k: int|
                    0 <= k < type_names(self.bot_types@).len() && type_names(self.bot_types@)[k]
                        == name@;
                assert(self.bot_types@[k]@ == name@);
            }
        }
        false
    }

    /// What the harness does with a message of the server: it records the map size, starts
    /// an assigned bot (which then gets updates and can be killed), forwards an update, shuts
    /// down on close, and kills a running bot (which can then not be killed again).
    pub fn on_message(&self, session: &mut Session, msg: HarnessEvent) -> (r: HarnessStep)
        requires
            self.wf(),
            msg matches HarnessEvent::AssignBot { bot_type, .. } ==> type_names(
                self.bot_types@,
            ).contains(bot_type@),
            msg matches HarnessEvent::ServerUpdate { bot_id } ==> old(session).channels@.contains(
                bot_id,
            ),
        ensures
            r matches HarnessStep::Spawn { bot_type, kind, .. } ==> self.registered_kind(bot_type@)
                == Some(kind),
            on_message_done(
                msg,
                r,
                old(session).map_size,
                old(session).channels@,
                old(session).kill_signals@,
                final(session).map_size,
                final(session).channels@,
                final(session).kill_signals@,
            ),
    {
        match msg {
            HarnessEvent::ConnectAck { map_size } => {
                session.map_size = Some(map_size);
                HarnessStep::MapSizeSet
            },
            HarnessEvent::AssignBot { bot_id, bot_type } => {
                add_id(&mut session.kill_signals, bot_id);
                add_id(&mut session.channels, bot_id);
                let kind = match self.kind_of(&bot_type) {
                    Some(k) => k,
                    None => BotKind::CrumbFollower,
                };
                HarnessStep::Spawn { bot_id, bot_type, kind }
            },
            HarnessEvent::ServerUpdate { bot_id } => HarnessStep::Forward { bot_id },
            HarnessEvent::Close => HarnessStep::Shutdown,
            HarnessEvent::KillBot { bot_id } => {
                if remove_id(&mut session.kill_signals, bot_id) {
                    HarnessStep::Kill { bot_id }
                } else {
                    HarnessStep::KillUnknown { bot_id }
                }
            },
        }
    }
}

impl Session {
    /// A connection that has heard nothing yet.
    pub fn new() -> (r: Self)
        ensures
            r.map_size is None,
            r.channels@.len() == 0,
            r.kill_signals@.len() == 0,
    {
        Session { map_size: None, channels: Vec::new(), kill_signals: Vec::new() }
    }
}

/// The map size the server announced.
pub fn map_size(session: &Session) -> (r: (usize, usize))
    requires
        session.map_size is Some,
    ensures
        session.map_size == Some(r),
{
    match session.map_size {
        Some(s) => s,
        None => (0, 0),
    }
}

/// The longest wait a `Duration` can hold, in nanoseconds.
pub const MAX_DELAY_NANOS: u128 = 18446744073709551615999999999u128;

/// Attempts to connect, with a wait that doubles after each failure.
pub struct Backoff {
    pub attempts: u32,
    pub max_retries: u32,
    /// The next wait, in nanoseconds.
    pub delay_nanos: u128,
}

/// What to do after a failed attempt to connect.
pub enum RetryStep {
    /// Wait this many nanoseconds, then try again.
    Wait { nanos: u128 },
    /// Stop trying.
    GiveUp(ConnectionError),
}

impl Backoff {
    /// No attempt made yet; the first wait is `base_delay_nanos`.
    pub fn new(max_retries: u32, base_delay_nanos: u128) -> (r: Self)
        requires
            base_delay_nanos <= MAX_DELAY_NANOS,
        ensures
            r.attempts == 0,
            r.max_retries == max_retries,
            r.delay_nanos == base_delay_nanos,
    {
        Backoff { attempts: 0, max_retries, delay_nanos: base_delay_nanos }
    }

    /// Whether another attempt may be made.
    pub fn may_try(&self) -> (r: bool)
        ensures
            r == (self.attempts < self.max_retries),
    {
        self.attempts < self.max_retries
    }

    /// Counts a failed attempt: give up when it was the last allowed one, else wait the
    /// current delay, which then doubles (up to the longest wait there is).
    pub fn on_failure(&mut self) -> (r: RetryStep)
        requires
            old(self).attempts < old(self).max_retries,
            old(self).delay_nanos <= MAX_DELAY_NANOS,
        ensures
            final(self).attempts == old(self).attempts + 1,
            final(self).max_retries == old(self).max_retries,
            final(self).delay_nanos <= MAX_DELAY_NANOS,
            final(self).attempts == old(self).max_retries ==> (r matches RetryStep::GiveUp(
                ConnectionError::MaxRetriesExceeded { attempts },
            ) && attempts == final(self).attempts) && final(self).delay_nanos == old(
                self,
            ).delay_nanos,
            final(self).attempts < old(self).max_retries ==> r == (RetryStep::Wait {
                nanos: old(self).delay_nanos,
            }) && final(self).delay_nanos == (if 2 * old(self).delay_nanos <= MAX_DELAY_NANOS {
                2 * old(self).delay_nanos
            } else {
                MAX_DELAY_NANOS as int
            }),
    {
        self.attempts = self.attempts + 1;
        if self.attempts == self.max_retries {
            return RetryStep::GiveUp(ConnectionError::MaxRetriesExceeded { attempts: self.attempts });
        }
        let wait = self.delay_nanos;
        self.delay_nanos = if self.delay_nanos <= MAX_DELAY_NANOS / 2 {
            self.delay_nanos * 2
        } else {
            MAX_DELAY_NANOS
        };
        RetryStep::Wait { nanos: wait }
    }

    /// The error when no attempt succeeded.
    pub fn exhausted(&self) -> (r: ConnectionError)
        ensures
            r matches ConnectionError::MaxRetriesExceeded { attempts } && attempts == self.attempts,
    {
        ConnectionError::MaxRetriesExceeded { attempts: self.attempts }
    }
}

/// What a send or a receive does next, after `attempts` failed tries.
pub enum IoStep {
    /// Try (again).
    Try,
    /// Stop: it took too long.
    TimedOut(ConnectionError),
    /// Stop: every allowed try failed.
    GiveUp(ConnectionError),
}

/// The next step of a send or a receive that has failed `attempts` times out of
/// `max_retries`, `elapsed_ms` milliseconds after it started: give up once no try is left,
/// else stop when it has run longer than allowed (`timed_out`), else try.
pub fn io_step(attempts: u32, max_retries: u32, timed_out: bool, elapsed_ms: u64) -> (r: IoStep)
    ensures
        attempts >= max_retries ==> r == IoStep::GiveUp(ConnectionError::MaxRetriesExceeded { attempts }),
        attempts < max_retries && timed_out ==> r == IoStep::TimedOut(
            ConnectionError::Timeout { duration_ms: elapsed_ms },
        ),
        attempts < max_retries && !timed_out ==> r is Try,
{
    if attempts >= max_retries {
        IoStep::GiveUp(ConnectionError::MaxRetriesExceeded { attempts })
    } else if timed_out {
        IoStep::TimedOut(ConnectionError::Timeout { duration_ms: elapsed_ms })
    } else {
        IoStep::Try
    }
}

/// The wait after `k` failed attempts that started from a wait of `base`: doubled `k` times,
/// at most the longest wait there is.
pub open spec fn wait_after(base: int, k: nat) -> int
    decreases k,
{
    if k == 0 {
        base
    } else {
        let w = wait_after(base, (k - 1) as nat);
        if 2 * w <= MAX_DELAY_NANOS {
            2 * w
        } else {
            MAX_DELAY_NANOS as int
        }
    }
}

/// The wait handed out after each failed attempt doubles from the first one, up to the longest
/// wait there is: a backoff whose wait is `wait_after(base, k)` after `k` failures has
/// `wait_after(base, k + 1)` after the next one that does not give up.
pub proof fn lemma_wait_doubles(b0: Backoff, b1: Backoff, r: RetryStep, base: int)
    requires
        b0.delay_nanos == wait_after(base, b0.attempts as nat),
        b0.attempts < b0.max_retries,
        b1.attempts == b0.attempts + 1,
        b1.attempts < b0.max_retries ==> r == (RetryStep::Wait { nanos: b0.delay_nanos })
            && b1.delay_nanos == (if 2 * b0.delay_nanos <= MAX_DELAY_NANOS {
            2 * b0.delay_nanos
        } else {
            MAX_DELAY_NANOS as int
        }),
    ensures
        b1.attempts < b0.max_retries ==> b1.delay_nanos == wait_after(base, b1.attempts as nat),
{
}

} // verus!
