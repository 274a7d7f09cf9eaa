//! What a machine can hold.

use crate::error::{config_outcome, TinyAgentError};
use crate::text::{cat6, decimal, decimal_u64};
use vstd::prelude::*;

verus! {

#[derive(Debug, Clone, PartialEq, Eq)]
pub struct HardwareProfile {
    pub name: String,
    pub ctx_size: u32,
    pub batch_size: u32,
    pub ubatch_size: u32,
    pub threads: String,
    pub metal: bool,
    pub recommended_quant: String,
    pub max_loaded_models: u8,
    pub memory_limit_mb: u64,
}

/// What is said of an estimate that does not fit.
pub open spec fn footprint_message(estimate: u64, limit: u64, profile: Seq<char>) -> Seq<char> {
    "estimated model footprint is "@ + decimal(estimate as nat) + " MB, above "@ + decimal(
        limit as nat,
    ) + " MB limit for profile "@ + profile
}

impl HardwareProfile {
    pub fn mac_8gb() -> (profile: Self)
        ensures
            profile.name@ == "mac-8gb"@,
            profile.ctx_size == 4096,
            profile.batch_size == 128,
            profile.ubatch_size == 64,
            profile.threads@ == "auto"@,
            profile.metal,
            profile.recommended_quant@ == "Q4_K_M"@,
            profile.max_loaded_models == 1,
            profile.memory_limit_mb == 5500,
    {
        HardwareProfile {
            name: "mac-8gb".to_owned(),
            ctx_size: 4096,
            batch_size: 128,
            ubatch_size: 64,
            threads: "auto".to_owned(),
            metal: true,
            recommended_quant: "Q4_K_M".to_owned(),
            max_loaded_models: 1,
            memory_limit_mb: 5500,
        }
    }

    pub fn validate_memory_estimate(&self, estimated_peak_mb: u64) -> (result: Result<
        (),
        TinyAgentError,
    >)
        ensures
            config_outcome(
                result,
                if estimated_peak_mb > self.memory_limit_mb {
                    Err(
                        footprint_message(estimated_peak_mb, self.memory_limit_mb, self.name@),
                    )
                } else {
                    Ok(())
                },
            ),
    {
        if estimated_peak_mb > self.memory_limit_mb {
            return Err(
                TinyAgentError::Configuration(
                    cat6(
                        "estimated model footprint is ",
                        decimal_u64(estimated_peak_mb).as_str(),
                        " MB, above ",
                        decimal_u64(self.memory_limit_mb).as_str(),
                        " MB limit for profile ",
                        self.name.as_str(),
                    ),
                ),
            );
        }
        Ok(())
    }
}

} // verus!
