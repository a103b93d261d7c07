//! Telemetry sink: increment-only named counters, owned explicitly and
//! passed down to callers rather than living in a process-wide static.

use vstd::prelude::*;

verus! {

/// The counters the bot records.
#[derive(Clone, Copy, PartialEq, Eq, Structural, Debug)]
pub enum Counter {
    DiscordConnected,
    DiscordReConnected,
    DiscordBrokenConfigUpdate,
    DiscordNoAppInfo,
    DiscordMsgReject,
    DiscordMsgFail,
    DiscordShutdown,
    DiscordFailure,
    DiscordCmdNum,
    DiscordNewMember,
    DiscordLossMember,
    TwitterStartStream,
    TwitterRetweet,
    TwitterUnfilteredTweet,
}

/// Counters of the social-media worker.
#[derive(Debug)]
pub struct Twitter {
    /// Number of times the tweet stream has been started.
    pub start_stream: u64,
    /// Number of times a tweet was redirected.
    pub retweet: u64,
    /// Number of times an incoming tweet was discarded for unmatching hash tags.
    pub unfiltered_tweet: u64,
}

/// Counters of the chat client.
#[derive(Debug)]
pub struct Discord {
    /// The client has connected.
    pub connected: u64,
    /// The client has re-connected.
    pub re_connected: u64,
    /// Unable to update the configuration file.
    pub broken_config_update: u64,
    /// Failed to retrieve application info.
    pub no_app_info: u64,
    /// A message was rejected by the service.
    pub msg_reject: u64,
    /// Failed to send a message.
    pub msg_fail: u64,
    /// The client shut down gracefully.
    pub shutdown: u64,
    /// The client aborted with an error.
    pub failure: u64,
    /// Number of commands handled.
    pub cmd_count: u64,
    /// Number of new members.
    pub new_member: u64,
    /// Number of removed members.
    pub loss_member: u64,
}

/// All the bot's counters.
#[derive(Debug)]
pub struct Stats {
    pub discord: Discord,
    pub twitter: Twitter,
}

/// A counter one step further along, stopping at the largest representable
/// count rather than wrapping back to zero.
pub open spec fn bumped(x: u64) -> u64 {
    if x == u64::MAX {
        x
    } else {
        (x + 1) as u64
    }
}

impl Stats {
    /// The value a named counter holds.
    pub open spec fn counter(self, c: Counter) -> u64 {
        match c {
            Counter::DiscordConnected => self.discord.connected,
            Counter::DiscordReConnected => self.discord.re_connected,
            Counter::DiscordBrokenConfigUpdate => self.discord.broken_config_update,
            Counter::DiscordNoAppInfo => self.discord.no_app_info,
            Counter::DiscordMsgReject => self.discord.msg_reject,
            Counter::DiscordMsgFail => self.discord.msg_fail,
            Counter::DiscordShutdown => self.discord.shutdown,
            Counter::DiscordFailure => self.discord.failure,
            Counter::DiscordCmdNum => self.discord.cmd_count,
            Counter::DiscordNewMember => self.discord.new_member,
            Counter::DiscordLossMember => self.discord.loss_member,
            Counter::TwitterStartStream => self.twitter.start_stream,
            Counter::TwitterRetweet => self.twitter.retweet,
            Counter::TwitterUnfilteredTweet => self.twitter.unfiltered_tweet,
        }
    }

    pub open spec fn all_zero(self) -> bool {
        forall|c: Counter| self.counter(c) == 0
    }

    /// Builds the sink with every counter at zero.
    pub fn new() -> (r: Self)
        ensures
            r.all_zero(),
    {
        let r = Stats {
            discord: Discord {
                connected: 0,
                re_connected: 0,
                broken_config_update: 0,
                no_app_info: 0,
                msg_reject: 0,
                msg_fail: 0,
                shutdown: 0,
                failure: 0,
                cmd_count: 0,
                new_member: 0,
                loss_member: 0,
            },
            twitter: Twitter { start_stream: 0, retweet: 0, unfiltered_tweet: 0 },
        };
        proof {
            assert forall|c: Counter| r.counter(c) == 0 by {}
        }
        r
    }

    /// Records one occurrence on the named counter and leaves every other
    /// counter as it was.
    pub fn increment(&mut self, c: Counter)
        ensures
            final(self).counter(c) == bumped(old(self).counter(c)),
            forall|o: Counter| o != c ==> final(self).counter(o) == old(self).counter(o),
    {
        match c {
            Counter::DiscordConnected => self.discord.connected = bump(self.discord.connected),
            Counter::DiscordReConnected => self.discord.re_connected = bump(
                self.discord.re_connected,
            ),
            Counter::DiscordBrokenConfigUpdate => self.discord.broken_config_update = bump(
                self.discord.broken_config_update,
            ),
            Counter::DiscordNoAppInfo => self.discord.no_app_info = bump(self.discord.no_app_info),
            Counter::DiscordMsgReject => self.discord.msg_reject = bump(self.discord.msg_reject),
            Counter::DiscordMsgFail => self.discord.msg_fail = bump(self.discord.msg_fail),
            Counter::DiscordShutdown => self.discord.shutdown = bump(self.discord.shutdown),
            Counter::DiscordFailure => self.discord.failure = bump(self.discord.failure),
            Counter::DiscordCmdNum => self.discord.cmd_count = bump(self.discord.cmd_count),
            Counter::DiscordNewMember => self.discord.new_member = bump(self.discord.new_member),
            Counter::DiscordLossMember => self.discord.loss_member = bump(
                self.discord.loss_member,
            ),
            Counter::TwitterStartStream => self.twitter.start_stream = bump(
                self.twitter.start_stream,
            ),
            Counter::TwitterRetweet => self.twitter.retweet = bump(self.twitter.retweet),
            Counter::TwitterUnfilteredTweet => self.twitter.unfiltered_tweet = bump(
                self.twitter.unfiltered_tweet,
            ),
        }
    }

    /// Clears every counter back to zero.
    pub fn reset(&mut self)
        ensures
            final(self).all_zero(),
    {
        self.discord.connected = 0;
        self.discord.re_connected = 0;
        self.discord.broken_config_update = 0;
        self.discord.no_app_info = 0;
        self.discord.msg_reject = 0;
        self.discord.msg_fail = 0;
        self.discord.shutdown = 0;
        self.discord.failure = 0;
        self.discord.cmd_count = 0;
        self.discord.new_member = 0;
        self.discord.loss_member = 0;
        self.twitter.start_stream = 0;
        self.twitter.retweet = 0;
        self.twitter.unfiltered_tweet = 0;
        proof {
            assert forall|c: Counter| self.counter(c) == 0 by {}
        }
    }
}

fn bump(x: u64) -> (r: u64)
    ensures
        r == bumped(x),
{
    if x == u64::MAX {
        x
    } else {
        x + 1
    }
}

} // verus!
