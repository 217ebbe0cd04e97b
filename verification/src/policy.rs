//! Egress policy: a provider may be restricted to loopback addresses, either
//! by its own flag or by the global local-only mode.

use vstd::prelude::*;

use crate::models::EngineError;
use crate::models::ProviderProfile;
use crate::models::ProviderProfileInput;
use crate::models::opt_view;
use crate::text::mask_api_key;
use crate::text::spec_mask;

verus! {

/// The host part of a URL text, as the URL parser reads it; none when the
/// text does not parse as a URL or the URL carries no host.
pub uninterp spec fn host_of(s: Seq<char>) -> Option<Seq<char>>;

/// Relies on url::Url::parse and url::Url::host_str: the host of a parsed
/// URL is a function of the URL text alone, and absent exactly when the text
/// does not parse or the URL has no host part.
#[verifier::external_body]
fn url_host(raw: &str) -> (r: Option<String>)
    ensures
        opt_view(r) == host_of(raw@),
{
    match url::Url::parse(raw) {
        Ok(u) => u.host_str().map(|h| h.to_string()),
        Err(_) => None,
    }
}

/// The hosts that count as loopback.
pub open spec fn loopback_host(h: Seq<char>) -> bool {
    h == "localhost"@ || h == "127.0.0.1"@ || h == "::1"@
}

/// The URL text parses and its host is a loopback name or address.
pub open spec fn spec_is_localhost(s: Seq<char>) -> bool {
    match host_of(s) {
        Option::Some(h) => loopback_host(h),
        Option::None => false,
    }
}

/// Whether a base URL points at the local machine.
pub fn is_localhost_url(raw: &str) -> (r: bool)
    ensures
        r == spec_is_localhost(raw@),
{
    match url_host(raw) {
        Option::None => false,
        Option::Some(h) => {
            h == "localhost".to_owned() || h == "127.0.0.1".to_owned() || h == "::1".to_owned()
        },
    }
}

/// The egress rule: a local-only provider, and any provider under global
/// local-only mode, must have a loopback base URL.
pub open spec fn spec_egress_allowed(
    full_local_mode: bool,
    provider_local_only: bool,
    base_url: Seq<char>,
) -> bool {
    (provider_local_only ==> spec_is_localhost(base_url)) && (full_local_mode
        ==> spec_is_localhost(base_url))
}

/// Decide whether the egress policy admits a provider's base URL.
pub fn egress_allowed(full_local_mode: bool, provider_local_only: bool, base_url: &str) -> (r:
    bool)
    ensures
        r == spec_egress_allowed(full_local_mode, provider_local_only, base_url@),
{
    if provider_local_only || full_local_mode {
        let lh = is_localhost_url(base_url);
        (!provider_local_only || lh) && (!full_local_mode || lh)
    } else {
        true
    }
}

/// Check a provider profile before it is stored: a local-only provider must
/// name a loopback base URL. On success the profile is returned with its API
/// key masked.
pub fn validate_provider_input(profile: ProviderProfileInput) -> (r: Result<
    ProviderProfile,
    EngineError,
>)
    ensures
        match r {
            Result::Ok(q) => {
                &&& !(profile.full_local_only && !spec_is_localhost(profile.base_url@))
                &&& q.id@ == profile.id@
                &&& q.name@ == profile.name@
                &&& q.base_url@ == profile.base_url@
                &&& q.api_key_masked@ == spec_mask(profile.api_key@)
                &&& opt_view(q.proxy_url) == opt_view(profile.proxy_url)
                &&& q.full_local_only == profile.full_local_only
            },
            Result::Err(e) => {
                &&& profile.full_local_only
                &&& !spec_is_localhost(profile.base_url@)
                &&& e == EngineError::PolicyViolation
            },
        },
{
    if profile.full_local_only && !is_localhost_url(profile.base_url.as_str()) {
        return Result::Err(EngineError::PolicyViolation);
    }
    let masked = mask_api_key(profile.api_key.as_str());
    Result::Ok(
        ProviderProfile {
            id: profile.id,
            name: profile.name,
            base_url: profile.base_url,
            api_key_masked: masked,
            proxy_url: profile.proxy_url,
            full_local_only: profile.full_local_only,
        },
    )
}

} // verus!
