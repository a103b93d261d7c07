//! Activity-coalesced persistent store for the bot's mutable configuration.
//!
//! The store owns one configuration value and a debounce timer. Reads never
//! touch the timer. A write applies its mutation and then runs the autosave
//! tick: if the timer's deadline has passed, the write reports that a persist
//! is due and rearms the timer a full interval ahead; otherwise nothing
//! happens. The persist action itself — serializing the state and writing it
//! to the storage backend — belongs to the storage collaborator around the
//! store, which performs it exactly when a write reports it due.

use vstd::prelude::*;

verus! {

broadcast use vstd::std_specs::hash::group_hash_axioms;

use std::collections::HashSet;

/// The channels the bot posts into.
pub struct Channels {
    /// Channel greeting new members; `0` when unset.
    pub welcome: u64,
    /// Channels subscribed to Naze Boku tweet notifications.
    pub naze: HashSet<u64>,
    /// Channels subscribed to Azur Lane Slow Ahead notifications.
    pub bisokuzenshin: HashSet<u64>,
}

/// The bot's persistent configuration.
pub struct DiscordConfig {
    pub channels: Channels,
    /// The bot owner's user id; `0` when not yet discovered.
    pub owner: u64,
}

impl Channels {
    pub open spec fn is_default(self) -> bool {
        &&& self.welcome == 0
        &&& self.naze@ == Set::<u64>::empty()
        &&& self.bisokuzenshin@ == Set::<u64>::empty()
    }

    /// Flips channel `ch`'s subscription to Naze Boku notifications; returns
    /// whether the channel is subscribed afterwards.
    pub fn toggle_naze(&mut self, ch: u64) -> (added: bool)
        ensures
            added == !old(self).naze@.contains(ch),
            final(self).naze@ == if added {
                old(self).naze@.insert(ch)
            } else {
                old(self).naze@.remove(ch)
            },
            final(self).welcome == old(self).welcome,
            final(self).bisokuzenshin == old(self).bisokuzenshin,
    {
        if self.naze.contains(&ch) {
            self.naze.remove(&ch);
            false
        } else {
            self.naze.insert(ch);
            true
        }
    }

    /// Flips channel `ch`'s subscription to Azur Lane Slow Ahead
    /// notifications; returns whether the channel is subscribed afterwards.
    pub fn toggle_bisokuzenshin(&mut self, ch: u64) -> (added: bool)
        ensures
            added == !old(self).bisokuzenshin@.contains(ch),
            final(self).bisokuzenshin@ == if added {
                old(self).bisokuzenshin@.insert(ch)
            } else {
                old(self).bisokuzenshin@.remove(ch)
            },
            final(self).welcome == old(self).welcome,
            final(self).naze == old(self).naze,
    {
        if self.bisokuzenshin.contains(&ch) {
            self.bisokuzenshin.remove(&ch);
            false
        } else {
            self.bisokuzenshin.insert(ch);
            true
        }
    }

    /// Makes channel `ch` the welcoming channel, or un-sets it if it already
    /// is; returns whether it is the welcoming channel afterwards.
    pub fn toggle_welcome(&mut self, ch: u64) -> (set: bool)
        ensures
            set == (old(self).welcome != ch),
            final(self).welcome == if set {
                ch
            } else {
                0u64
            },
            final(self).naze == old(self).naze,
            final(self).bisokuzenshin == old(self).bisokuzenshin,
    {
        if self.welcome == ch {
            self.welcome = 0;
            false
        } else {
            self.welcome = ch;
            true
        }
    }
}

impl Default for Channels {
    fn default() -> (r: Self)
        ensures
            r.is_default(),
    {
        Channels { welcome: 0, naze: HashSet::new(), bisokuzenshin: HashSet::new() }
    }
}

impl DiscordConfig {
    pub open spec fn is_default(self) -> bool {
        self.owner == 0 && self.channels.is_default()
    }
}

impl Default for DiscordConfig {
    fn default() -> (r: Self)
        ensures
            r.is_default(),
    {
        DiscordConfig { channels: Channels::default(), owner: 0 }
    }
}

/// The deadline a timer armed at `now` fires at: a full interval ahead,
/// capped at the largest representable time.
pub open spec fn armed_deadline(now: u64, interval: u64) -> u64 {
    if now + interval <= u64::MAX {
        (now + interval) as u64
    } else {
        u64::MAX
    }
}

/// The autosave tick fires exactly when the write observing it happens at or
/// after the armed deadline.
pub open spec fn tick_fires(deadline: u64, now: u64) -> bool {
    now >= deadline
}

fn arm(now: u64, interval: u64) -> (r: u64)
    ensures
        r == armed_deadline(now, interval),
{
    if interval <= u64::MAX - now {
        now + interval
    } else {
        u64::MAX
    }
}

/// The configuration store: one configuration value behind read and write
/// entry points, coupled to the debounce timer that coalesces persistence.
pub struct Discord {
    config: DiscordConfig,
    deadline: u64,
    interval: u64,
}

impl Discord {
    /// The stored configuration.
    pub closed spec fn state(self) -> DiscordConfig {
        self.config
    }

    /// When the armed timer fires.
    pub closed spec fn deadline(self) -> u64 {
        self.deadline
    }

    /// The fixed debounce interval.
    pub closed spec fn interval(self) -> u64 {
        self.interval
    }

    /// Builds the store around a configuration loaded from storage, falling
    /// back to the default configuration when the load produced nothing. The
    /// timer starts armed a full interval past `now`.
    pub fn new(loaded: Option<DiscordConfig>, now: u64, interval: u64) -> (r: Self)
        ensures
            loaded is Some ==> r.state() == loaded->Some_0,
            loaded is None ==> r.state().is_default(),
            r.deadline() == armed_deadline(now, interval),
            r.interval() == interval,
    {
        let config = match loaded {
            Some(config) => config,
            None => DiscordConfig::default(),
        };
        Discord { config, deadline: arm(now, interval), interval }
    }

    /// Invokes `f` with shared access to the configuration and returns `f`'s
    /// result. Reading never invokes the persist action and never advances
    /// the timer.
    pub fn with_read<R, F: FnOnce(&DiscordConfig) -> R>(&self, f: F) -> (r: R)
        requires
            call_requires(f, (&self.state(),)),
        ensures
            call_ensures(f, (&self.state(),), r),
    {
        f(&self.config)
    }

    /// Invokes `f` with exclusive access to the configuration, then runs the
    /// autosave tick: when the timer's deadline has passed, the call reports
    /// a persist due (`true` in the second component) and rearms the timer a
    /// full interval past `now`; otherwise the timer is left as it was.
    /// Returns `f`'s own result unchanged by the tick.
    pub fn with_write<R, F: FnOnce(DiscordConfig) -> (DiscordConfig, R)>(
        &mut self,
        now: u64,
        f: F,
    ) -> (out: (R, bool))
        requires
            call_requires(f, (old(self).state(),)),
        ensures
            call_ensures(f, (old(self).state(),), (final(self).state(), out.0)),
            out.1 == tick_fires(old(self).deadline(), now),
            final(self).interval() == old(self).interval(),
            final(self).deadline() == if tick_fires(old(self).deadline(), now) {
                armed_deadline(now, old(self).interval())
            } else {
                old(self).deadline()
            },
    {
        let mut config = DiscordConfig::default();
        core::mem::swap(&mut self.config, &mut config);
        let (config, res) = f(config);
        self.config = config;
        let due = now >= self.deadline;
        if due {
            self.deadline = arm(now, self.interval);
        }
        (res, due)
    }
}

/// Debounced persistence: once a write's tick fires at `t1` and rearms the
/// timer, no write strictly earlier than a full interval past `t1` can fire
/// the tick again — the persist action runs at most once per interval.
pub proof fn lemma_persist_coalesced(deadline: u64, interval: u64, t1: u64, t2: u64)
    requires
        tick_fires(deadline, t1),
        t1 + interval <= u64::MAX,
        t2 < t1 + interval,
    ensures
        !tick_fires(armed_deadline(t1, interval), t2),
{
}

} // verus!
