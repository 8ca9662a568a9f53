//! Rate limiting policies, and which limiters a configuration asks for.
use vstd::prelude::*;

verus! {

/// A rate limiting policy: `burst` requests, one more every `per_seconds`
/// seconds, where the policy is enabled.
#[derive(Debug, Clone, Copy)]
pub struct Policy {
    pub enabled: bool,
    pub per_seconds: u64,
    pub burst: u32,
}

impl Policy {
    /// An enabled policy.
    pub fn new(per_seconds: u64, burst: u32) -> (r: Self)
        requires
            burst > 0,
        ensures
            r.enabled,
            r.per_seconds == per_seconds,
            r.burst == burst,
    {
        Policy { enabled: true, per_seconds, burst }
    }

    /// The policy, disabled.
    pub fn disabled(self) -> (r: Self)
        ensures
            !r.enabled,
            r.per_seconds == self.per_seconds,
            r.burst == self.burst,
    {
        Policy { enabled: false, ..self }
    }

    /// The period of the policy's quota, in seconds: at least one.
    pub fn quota_period(&self) -> (r: u64)
        ensures
            r == if self.per_seconds < 1 {
                1
            } else {
                self.per_seconds
            },
    {
        if self.per_seconds < 1 {
            1
        } else {
            self.per_seconds
        }
    }
}

impl Default for Policy {
    /// Three requests, one more every ten seconds.
    fn default() -> (r: Self)
        ensures
            r.enabled,
            r.per_seconds == 10,
            r.burst == 3,
    {
        Policy::new(10, 3)
    }
}

/// The rate limits of the server.
#[derive(Debug, Clone, Copy)]
pub struct RateLimitersConfig {
    pub enabled: bool,
    pub call_invite: Policy,
    pub call_invite_per_minute: u32,
    pub failed_auth: Policy,
    pub failed_auth_per_minute: u32,
}

impl Default for RateLimitersConfig {
    /// Call invites limited to three, one more every ten seconds, and twenty
    /// a minute; failed logins not limited.
    fn default() -> (r: Self)
        ensures
            r.enabled,
            r.call_invite.enabled && r.call_invite.per_seconds == 10 && r.call_invite.burst == 3,
            r.call_invite_per_minute == 20,
            !r.failed_auth.enabled && r.failed_auth.per_seconds == 60 && r.failed_auth.burst == 5,
            r.failed_auth_per_minute == 0,
    {
        RateLimitersConfig {
            enabled: true,
            call_invite: Policy::new(10, 3),
            call_invite_per_minute: 20,
            failed_auth: Policy::new(60, 5).disabled(),
            failed_auth_per_minute: 0,
        }
    }
}

/// The limiters that a configuration asks for: for each kind of request, a
/// quota of a burst replenished one request per period (in seconds), and a
/// limit per minute, where there is one.
#[derive(Debug, Clone, Copy)]
pub struct LimiterPlan {
    pub call_invite: Option<(u64, u32)>,
    pub call_invite_per_minute: Option<u32>,
    pub failed_auth: Option<(u64, u32)>,
    pub failed_auth_per_minute: Option<u32>,
}

/// The quota of an enabled policy.
pub open spec fn policy_quota(p: Policy) -> Option<(u64, u32)> {
    if p.enabled {
        Some(
            (
                if p.per_seconds < 1 {
                    1u64
                } else {
                    p.per_seconds
                },
                p.burst,
            ),
        )
    } else {
        None
    }
}

/// A limit per minute, where it is not zero.
pub open spec fn per_minute(n: u32) -> Option<u32> {
    if n > 0 {
        Some(n)
    } else {
        None
    }
}

impl LimiterPlan {
    /// The limiters that `config` asks for: none where it is disabled.
    pub fn from_config(config: &RateLimitersConfig) -> (r: Self)
        requires
            config.call_invite.burst > 0,
            config.failed_auth.burst > 0,
        ensures
            !config.enabled ==> r == (LimiterPlan {
                call_invite: None,
                call_invite_per_minute: None,
                failed_auth: None,
                failed_auth_per_minute: None,
            }),
            config.enabled ==> r == (LimiterPlan {
                call_invite: policy_quota(config.call_invite),
                call_invite_per_minute: per_minute(config.call_invite_per_minute),
                failed_auth: policy_quota(config.failed_auth),
                failed_auth_per_minute: per_minute(config.failed_auth_per_minute),
            }),
    {
        if !config.enabled {
            return LimiterPlan {
                call_invite: None,
                call_invite_per_minute: None,
                failed_auth: None,
                failed_auth_per_minute: None,
            };
        }
        let call_invite = if config.call_invite.enabled {
            Some((config.call_invite.quota_period(), config.call_invite.burst))
        } else {
            None
        };
        let call_invite_per_minute = if config.call_invite_per_minute > 0 {
            Some(config.call_invite_per_minute)
        } else {
            None
        };
        let failed_auth = if config.failed_auth.enabled {
            Some((config.failed_auth.quota_period(), config.failed_auth.burst))
        } else {
            None
        };
        let failed_auth_per_minute = if config.failed_auth_per_minute > 0 {
            Some(config.failed_auth_per_minute)
        } else {
            None
        };
        LimiterPlan { call_invite, call_invite_per_minute, failed_auth, failed_auth_per_minute }
    }
}

} // verus!
