//! What each source can provide.

use vstd::prelude::*;
use crate::domain::candidate::ProviderId;

verus! {

/// Source limits the UI explains instead of silently showing gaps.
#[derive(Clone, Copy, Debug, PartialEq, Eq, Structural)]
pub struct CapabilityHint {
    pub no_year: bool,
    pub no_track_no: bool,
    pub no_verbatim: bool,
    pub no_translation_verified: bool,
}

impl Default for CapabilityHint {
    fn default() -> (r: Self)
        ensures
            !r.no_year && !r.no_track_no && !r.no_verbatim && !r.no_translation_verified,
    {
        CapabilityHint {
            no_year: false,
            no_track_no: false,
            no_verbatim: false,
            no_translation_verified: false,
        }
    }
}

/// NetEase offers everything; QQ lacks track numbers and word timing; KuGou
/// also has unverified translations; KuWo additionally gives no year.
pub fn capability_hint(provider: ProviderId) -> (r: CapabilityHint)
    ensures
        r.no_year == (provider == ProviderId::KuWo),
        r.no_track_no == (provider != ProviderId::NetEase),
        r.no_verbatim == (provider != ProviderId::NetEase),
        r.no_translation_verified == (provider == ProviderId::KuGou || provider == ProviderId::KuWo),
{
    match provider {
        ProviderId::NetEase => CapabilityHint::default(),
        ProviderId::QQ => CapabilityHint {
            no_year: false,
            no_track_no: true,
            no_verbatim: true,
            no_translation_verified: false,
        },
        ProviderId::KuGou => CapabilityHint {
            no_year: false,
            no_track_no: true,
            no_verbatim: true,
            no_translation_verified: true,
        },
        ProviderId::KuWo => CapabilityHint {
            no_year: true,
            no_track_no: true,
            no_verbatim: true,
            no_translation_verified: true,
        },
    }
}

} // verus!
