//! The request-handling core behind the two endpoints: a get increments the
//! counter, resolves a theme and renders the new value; an authenticated set
//! overwrites a counter after the token and range checks.

use vstd::prelude::*;
use crate::store::{CounterStore, spec_increment};
use crate::theme::Registry;
use crate::render::{render_svg, spec_svg};
use crate::assoc::str_eq;

verus! {

/// Why a set request is not authorized.
#[derive(Debug)]
pub enum UnauthorizedReason {
    /// No token is configured on the server side.
    MissingTokenConfig,
    /// The request presented no token.
    MissingToken,
    /// The presented token does not match the configured one.
    InvalidToken,
}

/// The outcome of a set request.
#[derive(Debug)]
pub enum SetOutcome {
    /// The counter was set.
    Done,
    /// Rejected without touching the store: not authorized.
    Unauthorized(UnauthorizedReason),
    /// Rejected without touching the store: a negative count.
    BadRequest,
}

/// Why a get request fails.
#[derive(Debug)]
pub enum GetError {
    /// The registry holds no theme at all.
    NoThemes,
}

/// The outcome a set request decides to, from the configured token, the
/// presented token and the requested count: token checks first, then the
/// range check.
pub open spec fn spec_set_outcome(
    cfg: Option<Seq<char>>,
    provided: Option<Seq<char>>,
    count: i64,
) -> SetOutcome {
    if cfg is None {
        SetOutcome::Unauthorized(UnauthorizedReason::MissingTokenConfig)
    } else if provided is None {
        SetOutcome::Unauthorized(UnauthorizedReason::MissingToken)
    } else if provided->Some_0 != cfg->Some_0 {
        SetOutcome::Unauthorized(UnauthorizedReason::InvalidToken)
    } else if count < 0 {
        SetOutcome::BadRequest
    } else {
        SetOutcome::Done
    }
}

/// Decide a set request from the configured token, the presented token and
/// the requested count, without touching any store.
pub fn decide_set(cfg: Option<&String>, provided: Option<&str>, count: i64) -> (r: SetOutcome)
    ensures
        r == spec_set_outcome(
            match cfg {
                Some(t) => Some(t@),
                None => None,
            },
            match provided {
                Some(p) => Some(p@),
                None => None,
            },
            count,
        ),
{
    let expected = match cfg {
        None => {
            return SetOutcome::Unauthorized(UnauthorizedReason::MissingTokenConfig);
        },
        Some(t) => t,
    };
    let presented = match provided {
        None => {
            return SetOutcome::Unauthorized(UnauthorizedReason::MissingToken);
        },
        Some(p) => p,
    };
    if !str_eq(presented, expected.as_str()) {
        return SetOutcome::Unauthorized(UnauthorizedReason::InvalidToken);
    }
    if count < 0 {
        return SetOutcome::BadRequest;
    }
    SetOutcome::Done
}

/// The request-handling core: the counter store, the theme registry built
/// once at startup, the default theme key, and the optional set-token.
pub struct Service {
    /// Named counters.
    pub store: CounterStore,
    /// All loaded themes, read-only after startup.
    pub registry: Registry,
    /// The theme used when the request names none.
    pub default_theme: String,
    /// The token a set request must present; absent means sets are refused.
    pub api_auth_token: Option<String>,
}

impl Service {
    /// The store and the registry are well formed.
    pub open spec fn wf(&self) -> bool {
        self.store.wf() && self.registry.wf()
    }

    /// Handle a get request: increment the counter first, then resolve the
    /// theme and render the new value. The increment takes effect even when
    /// theme resolution then fails: counter state and image response are not
    /// transactionally linked.
    pub fn get_image(&mut self, name: &str, requested_theme: Option<&str>) -> (r: Result<
        String,
        GetError,
    >)
        requires
            old(self).wf(),
            old(self).store@.contains_key(name@) ==> old(self).store@[name@] < u64::MAX,
        ensures
            final(self).wf(),
            final(self).store@ == spec_increment(old(self).store@, name@),
            final(self).registry == old(self).registry,
            final(self).default_theme == old(self).default_theme,
            final(self).api_auth_token == old(self).api_auth_token,
            (r is Err) <==> old(self).registry.entries@.len() == 0,
            r matches Ok(svg) ==> ({
                let req = match requested_theme {
                    Some(s) => Some(s@),
                    None => None,
                };
                let t = old(self).registry.spec_resolve(req, old(self).default_theme@);
                t is Some && svg@ == spec_svg(t->Some_0, final(self).store@[name@])
            }),
    {
        let count = self.store.increment(name);
        match self.registry.resolve(requested_theme, self.default_theme.as_str()) {
            None => Err(GetError::NoThemes),
            Some(theme) => Ok(render_svg(theme, count)),
        }
    }

    /// Handle a set request: decide it from the configured and presented
    /// tokens and the requested count, and write the store exactly when the
    /// outcome is success.
    pub fn set_count(&mut self, name: &str, count: i64, provided_token: Option<&str>) -> (r:
        SetOutcome)
        requires
            old(self).wf(),
        ensures
            final(self).wf(),
            final(self).registry == old(self).registry,
            final(self).default_theme == old(self).default_theme,
            final(self).api_auth_token == old(self).api_auth_token,
            ({
                let cfg = match old(self).api_auth_token {
                    Some(t) => Some(t@),
                    None => None,
                };
                let prov = match provided_token {
                    Some(p) => Some(p@),
                    None => None,
                };
                &&& r == spec_set_outcome(cfg, prov, count)
                &&& (r is Done ==> final(self).store@ == old(self).store@.insert(
                    name@,
                    count as u64,
                ))
                &&& (!(r is Done) ==> final(self).store@ == old(self).store@)
            }),
    {
        let decision = decide_set(self.api_auth_token.as_ref(), provided_token, count);
        match decision {
            SetOutcome::Done => {
                self.store.set(name, count as u64);
                SetOutcome::Done
            },
            other => other,
        }
    }
}

} // verus!
