//! What the commands of the program decide before anything is run.

use crate::backend::{answers_go_to_the_last_user_message, last_user_content};
use crate::llama::{
    argument_behind, basic_prompt, conversations_are_told_in_order, server_arguments,
    servers_are_told_their_settings, LlamaServerConfig,
};
use crate::metal::MetalBackendConfig;
use crate::profile::HardwareProfile;
use crate::scan::{join, joined_by};
use crate::text::{cat3, decimal, decimal_u64, same_text, views};
use crate::tma::{ModelArchitecture, PackageStatus, QwenConfig, SourceFormat, TmaPackageMetadata};
use crate::types::{
    maybe_text, qwen_coder_stub, ChatMessage, Event, GenerateRequest, MessageRole, ModelFacts,
    ModelInfo, TokenEvent,
};
use vstd::prelude::*;

verus! {

#[derive(Debug, Clone, Copy, PartialEq, Eq, Structural)]
pub enum BackendKind {
    Metal,
    Llama,
    Stub,
}

/// What the commands that need a backend have in common.
#[derive(Debug, Clone, PartialEq, Eq)]
pub struct SharedArgs {
    pub profile: String,
    pub model: String,
    pub backend: BackendKind,
    pub package: Option<String>,
    pub gguf: Option<String>,
    pub llama_server_bin: String,
    pub llama_host: String,
    pub llama_port: u16,
}

/// The profile of a name; there is one.
pub fn load_profile(name: &str) -> (result: Result<HardwareProfile, String>)
    ensures
        match result {
            Ok(profile) => {
                &&& name@ == "mac-8gb"@
                &&& profile.name@ == "mac-8gb"@
                &&& profile.ctx_size == 4096
                &&& profile.batch_size == 128
                &&& profile.ubatch_size == 64
                &&& profile.threads@ == "auto"@
                &&& profile.metal
                &&& profile.recommended_quant@ == "Q4_K_M"@
                &&& profile.max_loaded_models == 1
                &&& profile.memory_limit_mb == 5500
            },
            Err(error) => {
                &&& name@ != "mac-8gb"@
                &&& error@ == "unsupported profile "@ + name@ + "; available profiles: mac-8gb"@
            },
        },
{
    if same_text(name, "mac-8gb") {
        Ok(HardwareProfile::mac_8gb())
    } else {
        Err(cat3("unsupported profile ", name, "; available profiles: mac-8gb"))
    }
}

/// The model that the arguments configure.
pub open spec fn model_configured(args: SharedArgs, ctx_size: u32) -> ModelFacts {
    let (backend, status) = match args.backend {
        BackendKind::Metal => (
            "custom-metal"@,
            if args.package is Some {
                "configured"@
            } else {
                "requires-tma-package"@
            },
        ),
        BackendKind::Llama => (
            "llama.cpp-oracle"@,
            if args.gguf is Some {
                "configured"@
            } else {
                "requires-gguf"@
            },
        ),
        BackendKind::Stub => ("stub"@, "stub"@),
    };
    ModelFacts {
        id: args.model@,
        recommended_context_8gb: ctx_size,
        quantization: "tma-f16-first-q8-q4-planned"@,
        backend,
        status,
        ..qwen_coder_stub()
    }
}

pub fn configured_model(args: &SharedArgs, profile: &HardwareProfile) -> (model: ModelInfo)
    ensures
        model@ == model_configured(*args, profile.ctx_size),
{
    let mut model = ModelInfo::default_qwen_coder_stub();
    model.id = args.model.clone();
    model.recommended_context_8gb = profile.ctx_size;
    model.quantization = "tma-f16-first-q8-q4-planned".to_owned();
    match args.backend {
        BackendKind::Metal => {
            model.backend = "custom-metal".to_owned();
            model.status = if args.package.is_some() {
                "configured".to_owned()
            } else {
                "requires-tma-package".to_owned()
            };
        },
        BackendKind::Llama => {
            model.backend = "llama.cpp-oracle".to_owned();
            model.status = if args.gguf.is_some() {
                "configured".to_owned()
            } else {
                "requires-gguf".to_owned()
            };
        },
        BackendKind::Stub => {
            model.backend = "stub".to_owned();
            model.status = "stub".to_owned();
        },
    }
    model
}

/// The backend that is to be built, and the model that it serves.
#[derive(Debug)]
pub enum BackendPlan {
    Stub(ModelInfo),
    Metal(MetalBackendConfig, ModelInfo),
    Llama(LlamaServerConfig, ModelInfo),
}

pub open spec fn missing_gguf() -> Seq<char> {
    "llama oracle backend requires --gguf <model.gguf>. Use --backend metal for TinyEngine or --backend stub for scaffold tests."@
}

/// The settings of the engine's own backend.
pub open spec fn metal_settings(
    args: SharedArgs,
    profile: HardwareProfile,
    config: MetalBackendConfig,
) -> bool {
    &&& maybe_text(config.package_path) == maybe_text(args.package)
    &&& config.profile@ == profile.name@
    &&& config.ctx_size == profile.ctx_size
    &&& config.batch_size == profile.batch_size
    &&& config.ubatch_size == profile.ubatch_size
}

/// The settings of a llama.cpp server, with every layer on the GPU.
pub open spec fn llama_settings(
    args: SharedArgs,
    profile: HardwareProfile,
    config: LlamaServerConfig,
) -> bool {
    &&& config.executable@ == args.llama_server_bin@
    &&& config.host@ == args.llama_host@
    &&& config.port == args.llama_port
    &&& Some(config.model_path@) == maybe_text(args.gguf)
    &&& config.profile@ == profile.name@
    &&& config.ctx_size == profile.ctx_size
    &&& config.batch_size == profile.batch_size
    &&& config.ubatch_size == profile.ubatch_size
    &&& config.gpu_layers == 999
}

fn copied(text: &Option<String>) -> (copy: Option<String>)
    ensures
        maybe_text(copy) == maybe_text(*text),
{
    match text {
        Some(text) => Some(text.clone()),
        None => None,
    }
}

pub fn build_backend(args: &SharedArgs, profile: &HardwareProfile) -> (result: Result<
    BackendPlan,
    String,
>)
    ensures
        match result {
            Ok(BackendPlan::Stub(model)) => args.backend == BackendKind::Stub && model@
                == model_configured(*args, profile.ctx_size),
            Ok(BackendPlan::Metal(config, model)) => args.backend == BackendKind::Metal
                && metal_settings(*args, *profile, config) && model@ == model_configured(
                *args,
                profile.ctx_size,
            ),
            Ok(BackendPlan::Llama(config, model)) => args.backend == BackendKind::Llama
                && llama_settings(*args, *profile, config) && model@ == (ModelFacts {
                status: "loaded"@,
                ..model_configured(*args, profile.ctx_size)
            }),
            Err(error) => args.backend == BackendKind::Llama && args.gguf is None && error@
                == missing_gguf(),
        },
        result is Err <==> args.backend == BackendKind::Llama && args.gguf is None,
{
    let mut model = configured_model(args, profile);
    match args.backend {
        BackendKind::Stub => Ok(BackendPlan::Stub(model)),
        BackendKind::Metal => {
            let config = MetalBackendConfig {
                package_path: copied(&args.package),
                profile: profile.name.clone(),
                ctx_size: profile.ctx_size,
                batch_size: profile.batch_size,
                ubatch_size: profile.ubatch_size,
            };
            Ok(BackendPlan::Metal(config, model))
        },
        BackendKind::Llama => {
            let model_path = match &args.gguf {
                Some(gguf) => gguf.clone(),
                None => return Err(
                    "llama oracle backend requires --gguf <model.gguf>. Use --backend metal for TinyEngine or --backend stub for scaffold tests.".to_owned(),
                ),
            };
            model.backend = "llama.cpp-oracle".to_owned();
            model.status = "loaded".to_owned();
            let config = LlamaServerConfig {
                executable: args.llama_server_bin.clone(),
                host: args.llama_host.clone(),
                port: args.llama_port,
                model_path,
                profile: profile.name.clone(),
                ctx_size: profile.ctx_size,
                batch_size: profile.batch_size,
                ubatch_size: profile.ubatch_size,
                gpu_layers: 999,
            };
            Ok(BackendPlan::Llama(config, model))
        },
    }
}

/// The bits of the 32-bit float 0.7.
pub const CHAT_TEMPERATURE: u32 = 0x3F33_3333;

/// The bits of the 32-bit float 0.0.
pub const BENCH_TEMPERATURE: u32 = 0;

/// A streamed request with one message of the user and no tools.
pub open spec fn asks_once(
    request: GenerateRequest,
    model: Seq<char>,
    content: Seq<char>,
    max_tokens: u32,
    temperature: u32,
) -> bool {
    &&& request.model@ == model
    &&& request.messages@.len() == 1
    &&& request.messages@[0].role == MessageRole::User
    &&& request.messages@[0].content@ == content
    &&& request.messages@[0].name is None
    &&& request.messages@[0].tool_call_id is None
    &&& request.max_tokens == Some(max_tokens)
    &&& request.temperature == Some(temperature)
    &&& request.stream
    &&& request.tools@.len() == 0
}

fn ask_once(model: String, content: String, max_tokens: u32, temperature: u32) -> (request:
    GenerateRequest)
    ensures
        asks_once(request, model@, content@, max_tokens, temperature),
{
    let mut messages: Vec<ChatMessage> = Vec::new();
    messages.push(
        ChatMessage { role: MessageRole::User, content, name: None, tool_call_id: None },
    );
    GenerateRequest {
        model,
        messages,
        max_tokens: Some(max_tokens),
        temperature: Some(temperature),
        stream: true,
        tools: Vec::new(),
    }
}

/// The request of a chat on the command line, whose words are the prompt.
pub fn chat_request(model: String, prompt: &Vec<String>) -> (result: Result<
    GenerateRequest,
    String,
>)
    ensures
        match result {
            Ok(request) => prompt@.len() > 0 && asks_once(
                request,
                model@,
                joined_by(views(prompt@), " "@),
                256,
                CHAT_TEMPERATURE,
            ),
            Err(error) => prompt@.len() == 0 && error@
                == "provide a prompt, for example: tinyagent chat \"ciao\""@,
        },
{
    if prompt.len() == 0 {
        return Err("provide a prompt, for example: tinyagent chat \"ciao\"".to_owned());
    }
    Ok(ask_once(model, join(prompt, " "), 256, CHAT_TEMPERATURE))
}

/// The request of the benchmark of a backend.
pub fn bench_request(model: String) -> (request: GenerateRequest)
    ensures
        asks_once(
            request,
            model@,
            "Say hello from the benchmark."@,
            128,
            BENCH_TEMPERATURE,
        ),
{
    ask_once(model, "Say hello from the benchmark.".to_owned(), 128, BENCH_TEMPERATURE)
}

/// How many events bring a token.
pub open spec fn tokens_brought(events: Seq<Event>) -> nat
    decreases events.len(),
{
    if events.len() == 0 {
        0
    } else {
        tokens_brought(events.drop_last()) + if events.last().token.len() > 0 {
            1nat
        } else {
            0nat
        }
    }
}

proof fn lemma_tokens_brought(events: Seq<Event>)
    ensures
        tokens_brought(events) <= events.len(),
    decreases events.len(),
{
    if events.len() > 0 {
        lemma_tokens_brought(events.drop_last());
    }
}

/// How many events of a stream bring a token.
pub fn count_token_events(events: &Vec<TokenEvent>) -> (count: u64)
    ensures
        count == tokens_brought(views(events@)),
{
    let mut count: u64 = 0;
    let mut index: usize = 0;
    let ghost all = views(events@);
    assert(events@.len() == events.len());
    assert(all.take(0) =~= Seq::<Event>::empty());
    while index < events.len()
        invariant
            index <= events@.len(),
            events@.len() == events.len(),
            all == views(events@),
            count == tokens_brought(all.take(index as int)),
        decreases events@.len() - index,
    {
        let ghost next = all.take(index + 1);
        proof {
            assert(next.drop_last() =~= all.take(index as int));
            assert(next.last() == events@[index as int]@);
            lemma_tokens_brought(all.take(index as int));
            reveal_strlit("");
            if events@[index as int].token@.len() == 0 {
                assert(events@[index as int].token@ =~= ""@);
            }
        }
        if !same_text(events[index].token.as_str(), "") {
            count = count + 1;
        }
        index = index + 1;
    }
    assert(all.take(index as int) =~= all);
    count
}

/// The address that a server listens at.
pub fn listen_address(host: &str, port: u16) -> (address: String)
    ensures
        address@ == host@ + ":"@ + decimal(port as nat),
{
    cat3(host, ":", decimal_u64(port as u64).as_str())
}

/// The metadata of a conversion. A tokenizer and a configuration are taken
/// over from a Hugging Face checkpoint alone.
pub fn convert_metadata(
    model_id: String,
    source: SourceFormat,
    input: String,
    tokenizer_found: bool,
    qwen_config: Option<QwenConfig>,
) -> (metadata: TmaPackageMetadata)
    ensures
        metadata.format_version == 1,
        metadata.model_id@ == model_id@,
        metadata.architecture == ModelArchitecture::Qwen25,
        metadata.source == source,
        metadata.source_path@ == input@,
        metadata.status == PackageStatus::MetadataOnly,
        metadata.tensors@.len() == 0,
        maybe_text(metadata.tokenizer_path) == if source == SourceFormat::HuggingFace
            && tokenizer_found {
            Some("tokenizer.json"@)
        } else {
            None
        },
        metadata.qwen_config == if source == SourceFormat::HuggingFace {
            qwen_config
        } else {
            None
        },
{
    let mut metadata = TmaPackageMetadata::scaffold(
        model_id,
        ModelArchitecture::Qwen25,
        source,
        input,
    );
    match source {
        SourceFormat::HuggingFace => {
            if tokenizer_found {
                metadata.tokenizer_path = Some("tokenizer.json".to_owned());
            }
            metadata.qwen_config = qwen_config;
        },
        SourceFormat::Gguf => {},
    }
    metadata
}

/// A server is started on the model that was given, at the address that was
/// given, with the sizes of the profile and all layers on the GPU. The engine's
/// own backend gets the same sizes.
pub proof fn backends_get_the_sizes_of_the_profile(
    args: SharedArgs,
    profile: HardwareProfile,
    llama: LlamaServerConfig,
    metal: MetalBackendConfig,
)
    requires
        llama_settings(args, profile, llama),
        metal_settings(args, profile, metal),
        args.gguf is Some,
    ensures
        ({
            let behind = |flag: Seq<char>| argument_behind(server_arguments(llama), flag);
            &&& behind("-m"@) == Some(args.gguf->0@)
            &&& behind("--host"@) == Some(args.llama_host@)
            &&& behind("--port"@) == Some(decimal(args.llama_port as nat))
            &&& behind("-c"@) == Some(decimal(profile.ctx_size as nat))
            &&& behind("-b"@) == Some(decimal(profile.batch_size as nat))
            &&& behind("-ub"@) == Some(decimal(profile.ubatch_size as nat))
            &&& behind("-ngl"@) == Some(decimal(999))
        }),
        llama.executable@ == args.llama_server_bin@,
        llama.profile@ == profile.name@ && metal.profile@ == profile.name@,
        metal.ctx_size == llama.ctx_size,
        metal.batch_size == llama.batch_size,
        metal.ubatch_size == llama.ubatch_size,
        args.package is Some ==> metal.package_path is Some && metal.package_path->0@
            == args.package->0@,
        args.package is None ==> metal.package_path is None,
{
    servers_are_told_their_settings(llama);
}

/// What is asked on the command line is what is answered to: a backend finds it
/// as the last message of the user, and a server is prompted with it alone.
pub proof fn what_is_asked_is_answered_to(
    request: GenerateRequest,
    model: Seq<char>,
    content: Seq<char>,
    max_tokens: u32,
    temperature: u32,
)
    requires
        asks_once(request, model, content, max_tokens, temperature),
    ensures
        last_user_content(request.messages@) == content,
        basic_prompt(request.messages@) == "user:\n"@ + content + "\n\n"@ + "assistant:\n"@,
        request.model@ == model,
        request.max_tokens == Some(max_tokens),
        request.temperature == Some(temperature),
        request.stream,
        request.tools@.len() == 0,
{
    let messages = request.messages@;
    answers_go_to_the_last_user_message(messages);
    assert(messages[0].role == MessageRole::User);
    assert(messages =~= seq![messages[0]]);
    conversations_are_told_in_order(Seq::empty(), messages);
}

/// A model is configured just where its backend was given its file; the one that
/// answers without a model needs none.
pub proof fn models_are_configured_by_their_files(args: SharedArgs, ctx_size: u32)
    ensures
        ({
            let facts = model_configured(args, ctx_size);
            &&& facts.id == args.model@
            &&& facts.recommended_context_8gb == ctx_size
            &&& facts.status == match (args.backend, args.package, args.gguf) {
                (BackendKind::Metal, Some(_), _) => "configured"@,
                (BackendKind::Metal, None, _) => "requires-tma-package"@,
                (BackendKind::Llama, _, Some(_)) => "configured"@,
                (BackendKind::Llama, _, None) => "requires-gguf"@,
                (BackendKind::Stub, _, _) => "stub"@,
            }
            &&& facts.backend == match args.backend {
                BackendKind::Metal => "custom-metal"@,
                BackendKind::Llama => "llama.cpp-oracle"@,
                BackendKind::Stub => "stub"@,
            }
        }),
{
}

/// Events bring as many tokens as they have texts that are not empty, whatever
/// their order.
pub proof fn tokens_are_counted_once(earlier: Seq<Event>, later: Seq<Event>, event: Event)
    ensures
        tokens_brought(earlier + later) == tokens_brought(earlier) + tokens_brought(later),
        tokens_brought(seq![event]) == if event.token.len() == 0 {
            0nat
        } else {
            1nat
        },
    decreases later.len(),
{
    assert(tokens_brought(seq![event]) == if event.token.len() == 0 {
        0nat
    } else {
        1nat
    }) by {
        reveal_with_fuel(tokens_brought, 2);
        assert(seq![event].drop_last() =~= Seq::<Event>::empty());
    }
    if later.len() == 0 {
        assert(earlier + later =~= earlier);
    } else {
        tokens_are_counted_once(earlier, later.drop_last(), event);
        assert((earlier + later).drop_last() =~= earlier + later.drop_last());
    }
}

} // verus!
