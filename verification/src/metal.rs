//! The GPU backend as the rest of the program sees it.

use crate::error::{outcome, Fault, TinyAgentError};
use crate::text::{cat3, views};
use crate::types::{GenerateRequest, ModelFacts, ModelInfo, TokenEvent};
use vstd::prelude::*;

verus! {

#[derive(Debug, Clone, PartialEq, Eq)]
pub struct MetalBackendConfig {
    pub package_path: Option<String>,
    pub profile: String,
    pub ctx_size: u32,
    pub batch_size: u32,
    pub ubatch_size: u32,
}

#[derive(Debug, Clone, PartialEq, Eq)]
pub struct MetalDeviceInfo {
    pub name: String,
}

impl View for MetalDeviceInfo {
    type V = Seq<char>;

    open spec fn view(&self) -> Seq<char> {
        self.name@
    }
}

/// The device of the given name, if there is one.
pub open spec fn device_found(found: Option<String>) -> Result<Seq<char>, Fault> {
    match found {
        Some(name) => Ok(name@),
        None => Err(
            Fault::Configuration(
                "no default Metal device found; TinyMetalAgent requires Apple Silicon or a Metal-capable GPU"@,
            ),
        ),
    }
}

impl MetalDeviceInfo {
    /// The system's default device, whose name was found or not.
    pub fn system_default(found: Option<String>) -> (result: Result<Self, TinyAgentError>)
        ensures
            outcome(result, device_found(found)),
    {
        match found {
            Some(name) => Ok(MetalDeviceInfo { name }),
            None => Err(
                TinyAgentError::Configuration(
                    "no default Metal device found; TinyMetalAgent requires Apple Silicon or a Metal-capable GPU".to_owned(),
                ),
            ),
        }
    }
}

#[derive(Debug)]
pub struct MetalBackend {
    config: MetalBackendConfig,
    model: ModelInfo,
    device: MetalDeviceInfo,
}

/// What the backend says of its model: it runs on the device, and either its
/// kernels are still to come or a package is.
pub open spec fn listed_model(model: ModelFacts, device: Seq<char>, has_package: bool) -> ModelFacts {
    ModelFacts {
        backend: "custom-metal"@,
        status: if has_package {
            "device:"@ + device + ";kernels-pending"@
        } else {
            "device:"@ + device + ";requires-tma-package"@
        },
        ..model
    }
}

impl MetalBackend {
    pub closed spec fn spec_config(&self) -> MetalBackendConfig {
        self.config
    }

    pub closed spec fn model(&self) -> ModelFacts {
        self.model@
    }

    pub closed spec fn spec_device(&self) -> MetalDeviceInfo {
        self.device
    }

    /// The backend on the system's default device, whose name was found or not.
    pub fn new(config: MetalBackendConfig, model: ModelInfo, found: Option<String>) -> (result: Result<
        Self,
        TinyAgentError,
    >)
        ensures
            match result {
                Ok(backend) => {
                    &&& device_found(found) == Ok::<Seq<char>, Fault>(backend.spec_device()@)
                    &&& backend.spec_config() == config
                    &&& backend.model() == model@
                },
                Err(error) => device_found(found) == Err::<Seq<char>, Fault>(error@),
            },
    {
        match MetalDeviceInfo::system_default(found) {
            Ok(device) => Ok(MetalBackend { config, model, device }),
            Err(error) => Err(error),
        }
    }

    pub fn device(&self) -> (device: &MetalDeviceInfo)
        ensures
            *device == self.spec_device(),
    {
        &self.device
    }

    pub fn config(&self) -> (config: &MetalBackendConfig)
        ensures
            *config == self.spec_config(),
    {
        &self.config
    }

    pub fn models(&self) -> (models: Vec<ModelInfo>)
        ensures
            views(models@) == seq![
                listed_model(
                    self.model(),
                    self.spec_device()@,
                    self.spec_config().package_path is Some,
                ),
            ],
    {
        let mut listed = self.model.clone();
        listed.backend = "custom-metal".to_owned();
        listed.status = if self.config.package_path.is_some() {
            cat3("device:", self.device.name.as_str(), ";kernels-pending")
        } else {
            cat3("device:", self.device.name.as_str(), ";requires-tma-package")
        };
        let mut models: Vec<ModelInfo> = Vec::new();
        models.push(listed);
        assert(views(models@) =~= seq![
            listed_model(
                self.model(),
                self.spec_device()@,
                self.spec_config().package_path is Some,
            ),
        ]);
        models
    }

    /// Generation is refused, whatever is asked for.
    pub fn generate(&self, _request: GenerateRequest) -> (result: Result<
        Vec<TokenEvent>,
        TinyAgentError,
    >)
        ensures
            result is Err,
            result->Err_0@ == Fault::Unsupported(
                "custom Metal inference is scaffolded but kernels are not implemented yet: next steps are TMA loading, tokenizer wiring, f16 matmul parity, RMSNorm, RoPE, attention, KV cache, and sampling"@,
            ),
    {
        Err(
            TinyAgentError::Unsupported(
                "custom Metal inference is scaffolded but kernels are not implemented yet: next steps are TMA loading, tokenizer wiring, f16 matmul parity, RMSNorm, RoPE, attention, KV cache, and sampling".to_owned(),
            ),
        )
    }
}

/// A backend lists its model as its own, on the device that was found, and tells
/// whether a package is still needed.
pub proof fn models_are_listed_on_their_device(model: ModelFacts, device: Seq<char>)
    ensures
        ({
            let with = listed_model(model, device, true);
            let without = listed_model(model, device, false);
            &&& with.id == model.id && without.id == model.id
            &&& with.backend == "custom-metal"@ && without.backend == "custom-metal"@
            &&& with.status == "device:"@ + device + ";kernels-pending"@
            &&& without.status == "device:"@ + device + ";requires-tma-package"@
        }),
{
}

} // verus!
