//! Mapping an estimated token count to a model tier, or rejecting the
//! request. The thresholds encode cost/quality tradeoffs against the upstream
//! model family and are held in configuration values rather than scattered
//! through the orchestration logic.

use vstd::prelude::*;
use crate::text::{digits_spec, u64_to_string};

verus! {

/// A named model with its token ceiling: the estimated tokens of a request
/// sent at this tier must not exceed the ceiling.
pub struct ModelTier {
    pub name: &'static str,
    pub ceiling: u64,
}

/// The summarize-path policy: reject above a hard limit, use the premium
/// tier below a low threshold, and a tier with a larger context window
/// otherwise.
pub struct SummarizeSelector {
    pub reject_over: u64,
    pub premium_under: u64,
    pub premium: ModelTier,
    pub wide: ModelTier,
}

/// The clean-transcript policy: one higher-capability tier up to its ceiling.
pub struct CleanSelector {
    pub tier: ModelTier,
}

/// The rejection message for a summarize request over the hard limit.
pub open spec fn too_long_summarize_msg(tokens: nat) -> Seq<char> {
    "Transcript too long to summarize. ("@ + digits_spec(tokens) + " tokens)"@
}

/// The rejection message for a clean-transcript request over the ceiling.
pub open spec fn too_long_clean_msg(tokens: nat) -> Seq<char> {
    "Transcript too long to clean up. ("@ + digits_spec(tokens) + " tokens)"@
}

impl SummarizeSelector {
    /// Whether this policy's tiers can honour what `select` promises.
    pub open spec fn wf(self) -> bool {
        &&& self.premium_under <= self.premium.ceiling
        &&& self.reject_over <= self.wide.ceiling
    }

    /// The deployed summarize policy.
    pub fn standard() -> (r: Self)
        ensures
            r.reject_over == 13000,
            r.premium_under == 3000,
            r.premium.name@ == "gpt-4"@,
            r.premium.ceiling == 3000,
            r.wide.name@ == "gpt-4-32k"@,
            r.wide.ceiling == 13000,
            r.wf(),
    {
        SummarizeSelector {
            reject_over: 13000,
            premium_under: 3000,
            premium: ModelTier { name: "gpt-4", ceiling: 3000 },
            wide: ModelTier { name: "gpt-4-32k", ceiling: 13000 },
        }
    }

    /// Picks the tier for an estimated token count, or rejects the request:
    /// a count over the hard limit is rejected, a count under the low
    /// threshold gets the premium tier, and anything else the wide tier.
    pub fn select(&self, tokens: u64) -> (r: Result<ModelTier, String>)
        ensures
            ({
                match r {
                    Err(e) => tokens > self.reject_over && e@ == too_long_summarize_msg(
                        tokens as nat,
                    ),
                    Ok(tier) => {
                        &&& tokens <= self.reject_over
                        &&& tokens < self.premium_under ==> (tier.name@ == self.premium.name@
                            && tier.ceiling == self.premium.ceiling)
                        &&& tokens >= self.premium_under ==> (tier.name@ == self.wide.name@
                            && tier.ceiling == self.wide.ceiling)
                        &&& self.wf() ==> tokens <= tier.ceiling
                    },
                }
            }),
    {
        if tokens > self.reject_over {
            let mut e = String::from_str("Transcript too long to summarize. (");
            let d = u64_to_string(tokens);
            e.append(d.as_str());
            e.append(" tokens)");
            proof {
                assert(e@ =~= too_long_summarize_msg(tokens as nat));
            }
            Err(e)
        } else if tokens < self.premium_under {
            Ok(ModelTier { name: self.premium.name, ceiling: self.premium.ceiling })
        } else {
            Ok(ModelTier { name: self.wide.name, ceiling: self.wide.ceiling })
        }
    }
}

impl CleanSelector {
    /// The deployed clean-transcript policy.
    pub fn standard() -> (r: Self)
        ensures
            r.tier.name@ == "gpt-4-1106-preview"@,
            r.tier.ceiling == 75000,
    {
        CleanSelector { tier: ModelTier { name: "gpt-4-1106-preview", ceiling: 75000 } }
    }

    /// Picks the single tier when the estimate is at or below its ceiling,
    /// and rejects the request otherwise.
    pub fn select(&self, tokens: u64) -> (r: Result<ModelTier, String>)
        ensures
            ({
                match r {
                    Err(e) => tokens > self.tier.ceiling && e@ == too_long_clean_msg(
                        tokens as nat,
                    ),
                    Ok(tier) => {
                        &&& tokens <= self.tier.ceiling
                        &&& tier.name@ == self.tier.name@
                        &&& tier.ceiling == self.tier.ceiling
                    },
                }
            }),
    {
        if tokens > self.tier.ceiling {
            let mut e = String::from_str("Transcript too long to clean up. (");
            let d = u64_to_string(tokens);
            e.append(d.as_str());
            e.append(" tokens)");
            proof {
                assert(e@ =~= too_long_clean_msg(tokens as nat));
            }
            Err(e)
        } else {
            Ok(ModelTier { name: self.tier.name, ceiling: self.tier.ceiling })
        }
    }
}

} // verus!
