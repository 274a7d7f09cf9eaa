//! What the calls of a token compute. A call is read as a step on a memory
//! that holds a vector in each buffer, and a layer as a function of the hidden
//! state, of its parameters and of the keys and the values of the past. The
//! arithmetic of the kernels is left open: what is said here holds of any.

use crate::generation::groups_per_layer;
use crate::hf_config::QwenRuntimeConfig;
use crate::model::{kv_dim, ModelImage, QwenProjectionBackend};
use crate::plan::{
    decode_calls, kv_write_call, layer_calls, layers_calls, next_token_calls, next_token_plan,
    pairwise_call, parts, parts_cover, q4_call, rope_call, Argument, BufferName, Call, FloatName,
    Kernel, LayerBuffer, LayerUploads, Projection, TensorBuffer, Upload,
};
use crate::projection::{
    batch_steps, batched_layer_steps, batches_refusal, q8_step, row_steps, rows_refusal,
    uploads_refusal, ProjectionArgument, ProjectionRequest, ProjectionStep, RowStep,
};
use crate::quant::QuantEncoding;
use vstd::prelude::*;

verus! {

/// The buffers of a matrix of four-bit numbers.
pub struct Packed<V> {
    pub weight: V,
    pub scales: V,
    pub biases: V,
    pub dims: V,
}

/// The buffers of a matrix of bytes.
pub struct Bytes<V> {
    pub values: V,
    pub scales: V,
    pub dims: V,
}

/// The arithmetic of the kernels. Lengths, numbers of heads and positions are
/// given behind the vectors.
#[verifier::reject_recursive_types(V)]
pub struct Arithmetic<V> {
    /// The sum of two vectors of a length.
    pub add: spec_fn(V, V, int) -> V,
    /// The first vector, activated, times the second, both of a length.
    pub swiglu: spec_fn(V, V, int) -> V,
    /// A vector over its root mean square, times a weight, both of a length;
    /// the last number keeps the divisor from zero.
    pub rmsnorm: spec_fn(V, V, int, V) -> V,
    /// A matrix of four-bit numbers times a vector, plus a bias.
    pub packed_product: spec_fn(Packed<V>, V, V) -> V,
    /// A matrix of bytes times a vector, plus a bias.
    pub bytes_product: spec_fn(Bytes<V>, V, V) -> V,
    /// The heads of a vector, turned as stands at a position: how many heads,
    /// how wide, the position, the base.
    pub rotate: spec_fn(V, int, int, int, V) -> V,
    /// What a query reads of keys and values: how many query heads, how many
    /// key-value heads, how wide, the scale.
    pub attend: spec_fn(V, Seq<V>, Seq<V>, int, int, int, V) -> V,
    /// Where the greatest number of a vector of a length stands first.
    pub argmax: spec_fn(V, int) -> V,
    /// The floats that the kernels are handed.
    pub float: spec_fn(FloatName) -> V,
}

/// A vector in each buffer; a cache holds a vector from each of its places on.
#[verifier::reject_recursive_types(V)]
pub struct Memory<V> {
    pub held: Map<BufferName, V>,
    pub stored: Map<(BufferName, int), V>,
}

impl<V> Memory<V> {
    pub open spec fn put(self, name: BufferName, value: V) -> Memory<V> {
        Memory { held: self.held.insert(name, value), stored: self.stored }
    }

    pub open spec fn store(self, cache: BufferName, place: int, value: V) -> Memory<V> {
        Memory { held: self.held, stored: self.stored.insert((cache, place), value) }
    }
}

/// The first `count` rows of a cache of rows of a width.
pub open spec fn cache_rows<V>(
    stored: Map<(BufferName, int), V>,
    cache: BufferName,
    width: int,
    count: int,
) -> Seq<V> {
    Seq::new(count as nat, |row: int| stored[(cache, row * width)])
}

/// The buffer that a call is handed at a place.
pub open spec fn buffer_at(call: Call, place: int) -> BufferName {
    call.arguments[place]->Buffer_0
}

/// What stands in the buffer that a call is handed at a place.
pub open spec fn held_at<V>(memory: Memory<V>, call: Call, place: int) -> V {
    memory.held[buffer_at(call, place)]
}

/// The float that a call is handed at a place.
pub open spec fn float_at<V>(arithmetic: Arithmetic<V>, call: Call, place: int) -> V {
    (arithmetic.float)(call.arguments[place]->Float_0)
}

/// The number that a call is handed at a place.
pub open spec fn word_at(call: Call, place: int) -> int {
    call.arguments[place]->Word_0 as int
}

/// What a call does to the memory. The kernel for several rows at once is
/// none of a decoded token.
pub open spec fn run_call<V>(arithmetic: Arithmetic<V>, memory: Memory<V>, call: Call) -> Memory<
    V,
> {
    match call.kernel {
        Kernel::Q4Matvec => memory.put(
            buffer_at(call, 5),
            (arithmetic.packed_product)(
                Packed {
                    weight: held_at(memory, call, 1),
                    scales: held_at(memory, call, 2),
                    biases: held_at(memory, call, 3),
                    dims: held_at(memory, call, 6),
                },
                held_at(memory, call, 0),
                held_at(memory, call, 4),
            ),
        ),
        Kernel::Q4Matmul => memory,
        Kernel::Q8Matvec => memory.put(
            buffer_at(call, 4),
            (arithmetic.bytes_product)(
                Bytes {
                    values: held_at(memory, call, 1),
                    scales: held_at(memory, call, 2),
                    dims: held_at(memory, call, 5),
                },
                held_at(memory, call, 0),
                held_at(memory, call, 3),
            ),
        ),
        Kernel::Rmsnorm => memory.put(
            buffer_at(call, 2),
            (arithmetic.rmsnorm)(
                held_at(memory, call, 0),
                held_at(memory, call, 1),
                word_at(call, 3),
                float_at(arithmetic, call, 4),
            ),
        ),
        Kernel::Rope => match call.arguments[1] {
            Argument::Words3(heads, head_dim, position) => memory.put(
                buffer_at(call, 0),
                (arithmetic.rotate)(
                    held_at(memory, call, 0),
                    heads as int,
                    head_dim as int,
                    position as int,
                    float_at(arithmetic, call, 2),
                ),
            ),
            _ => memory,
        },
        Kernel::KvWrite => match call.arguments[4] {
            Argument::Words2(position, width) => memory.store(
                buffer_at(call, 2),
                position * width,
                held_at(memory, call, 0),
            ).store(buffer_at(call, 3), position * width, held_at(memory, call, 1)),
            _ => memory,
        },
        Kernel::Attention => match call.arguments[4] {
            Argument::Words4(position, heads, kv_heads, head_dim) => memory.put(
                buffer_at(call, 3),
                (arithmetic.attend)(
                    held_at(memory, call, 0),
                    cache_rows(
                        memory.stored,
                        buffer_at(call, 1),
                        kv_heads * head_dim,
                        position + 1,
                    ),
                    cache_rows(
                        memory.stored,
                        buffer_at(call, 2),
                        kv_heads * head_dim,
                        position + 1,
                    ),
                    heads as int,
                    kv_heads as int,
                    head_dim as int,
                    float_at(arithmetic, call, 5),
                ),
            ),
            _ => memory,
        },
        Kernel::Add => memory.put(
            buffer_at(call, 2),
            (arithmetic.add)(
                held_at(memory, call, 0),
                held_at(memory, call, 1),
                word_at(call, 3),
            ),
        ),
        Kernel::Swiglu => memory.put(
            buffer_at(call, 2),
            (arithmetic.swiglu)(
                held_at(memory, call, 0),
                held_at(memory, call, 1),
                word_at(call, 3),
            ),
        ),
        Kernel::Argmax => memory.put(
            buffer_at(call, 1),
            (arithmetic.argmax)(held_at(memory, call, 0), word_at(call, 2)),
        ),
    }
}

/// What calls do to the memory, one after the other.
pub open spec fn run_calls<V>(
    arithmetic: Arithmetic<V>,
    memory: Memory<V>,
    calls: Seq<Call>,
) -> Memory<V>
    decreases calls.len(),
{
    if calls.len() == 0 {
        memory
    } else {
        run_call(arithmetic, run_calls(arithmetic, memory, calls.drop_last()), calls.last())
    }
}

proof fn lemma_run_more<V>(
    arithmetic: Arithmetic<V>,
    memory: Memory<V>,
    before: Seq<Call>,
    after: Seq<Call>,
)
    ensures
        run_calls(arithmetic, memory, before + after) == run_calls(
            arithmetic,
            run_calls(arithmetic, memory, before),
            after,
        ),
    decreases after.len(),
{
    if after.len() == 0 {
        assert(before + after =~= before);
    } else {
        lemma_run_more(arithmetic, memory, before, after.drop_last());
        assert((before + after).drop_last() =~= before + after.drop_last());
    }
}

proof fn lemma_run_next<V>(
    arithmetic: Arithmetic<V>,
    memory: Memory<V>,
    calls: Seq<Call>,
    count: int,
)
    requires
        0 <= count < calls.len(),
    ensures
        run_calls(arithmetic, memory, calls.take(count + 1)) == run_call(
            arithmetic,
            run_calls(arithmetic, memory, calls.take(count)),
            calls[count],
        ),
{
    assert(calls.take(count + 1).drop_last() =~= calls.take(count));
}

/// A product with a matrix of four-bit numbers, and its bias.
pub struct Linear<V> {
    pub matrix: Packed<V>,
    pub bias: V,
}

/// The parameters of a layer.
pub struct LayerParameters<V> {
    pub input_norm: V,
    pub post_norm: V,
    pub q: Linear<V>,
    pub k: Linear<V>,
    pub v: Linear<V>,
    pub o: Linear<V>,
    pub gate: Linear<V>,
    pub up: Linear<V>,
    pub down: Linear<V>,
}

/// The uploaded matrix of a projection of a layer, with a bias.
pub open spec fn uploaded<V>(
    held: Map<BufferName, V>,
    layer: usize,
    projection: Projection,
    bias: BufferName,
) -> Linear<V> {
    Linear {
        matrix: Packed {
            weight: held[BufferName::Tensor { layer, projection, buffer: TensorBuffer::Q4Weight }],
            scales: held[BufferName::Tensor { layer, projection, buffer: TensorBuffer::Scales }],
            biases: held[BufferName::Tensor { layer, projection, buffer: TensorBuffer::Biases }],
            dims: held[BufferName::Tensor { layer, projection, buffer: TensorBuffer::Dims }],
        },
        bias: held[bias],
    }
}

/// The parameters of a layer as they stand in the memory: queries, keys and
/// values have biases of their own, the other projections a bias of zeros.
pub open spec fn parameters<V>(held: Map<BufferName, V>, layer: usize) -> LayerParameters<V> {
    let own = |own: LayerBuffer| BufferName::Layer { layer, own };
    let zeros = |projection: Projection|
        BufferName::Tensor { layer, projection, buffer: TensorBuffer::ZeroLinearBias };
    LayerParameters {
        input_norm: held[own(LayerBuffer::InputNormWeight)],
        post_norm: held[own(LayerBuffer::PostNormWeight)],
        q: uploaded(held, layer, Projection::Q, own(LayerBuffer::QBias)),
        k: uploaded(held, layer, Projection::K, own(LayerBuffer::KBias)),
        v: uploaded(held, layer, Projection::V, own(LayerBuffer::VBias)),
        o: uploaded(held, layer, Projection::O, zeros(Projection::O)),
        gate: uploaded(held, layer, Projection::Gate, zeros(Projection::Gate)),
        up: uploaded(held, layer, Projection::Up, zeros(Projection::Up)),
        down: uploaded(held, layer, Projection::Down, zeros(Projection::Down)),
    }
}

/// The cache of a layer's keys.
pub open spec fn key_cache(layer: usize) -> BufferName {
    BufferName::Layer { layer, own: LayerBuffer::Keys }
}

/// The cache of a layer's values.
pub open spec fn value_cache(layer: usize) -> BufferName {
    BufferName::Layer { layer, own: LayerBuffer::Values }
}

impl<V> Arithmetic<V> {
    pub open spec fn linear(self, linear: Linear<V>, input: V) -> V {
        (self.packed_product)(linear.matrix, input, linear.bias)
    }

    /// A hidden state, normalised.
    pub open spec fn norm(self, config: QwenRuntimeConfig, input: V, weight: V) -> V {
        (self.rmsnorm)(
            input,
            weight,
            config.hidden_size as int,
            (self.float)(FloatName::RmsNormEps),
        )
    }

    /// Heads, turned as stands at a position.
    pub open spec fn turned(
        self,
        config: QwenRuntimeConfig,
        input: V,
        heads: int,
        position: int,
    ) -> V {
        (self.rotate)(
            input,
            heads,
            config.head_dim as int,
            position,
            (self.float)(FloatName::RopeTheta),
        )
    }

    /// The key of a hidden state at a position.
    pub open spec fn key(
        self,
        config: QwenRuntimeConfig,
        of: LayerParameters<V>,
        hidden: V,
        position: int,
    ) -> V {
        self.turned(
            config,
            self.linear(of.k, self.norm(config, hidden, of.input_norm)),
            config.num_key_value_heads as int,
            position,
        )
    }

    /// The value of a hidden state.
    pub open spec fn value(
        self,
        config: QwenRuntimeConfig,
        of: LayerParameters<V>,
        hidden: V,
    ) -> V {
        self.linear(of.v, self.norm(config, hidden, of.input_norm))
    }

    /// What the attention of a layer makes of a hidden state.
    pub open spec fn attention(
        self,
        config: QwenRuntimeConfig,
        of: LayerParameters<V>,
        hidden: V,
        position: int,
        keys: Seq<V>,
        values: Seq<V>,
    ) -> V {
        let query = self.turned(
            config,
            self.linear(of.q, self.norm(config, hidden, of.input_norm)),
            config.num_attention_heads as int,
            position,
        );
        self.linear(
            of.o,
            (self.attend)(
                query,
                keys,
                values,
                config.num_attention_heads as int,
                config.num_key_value_heads as int,
                config.head_dim as int,
                (self.float)(FloatName::AttentionScale),
            ),
        )
    }

    /// What the feed-forward part of a layer makes of a hidden state.
    pub open spec fn feed_forward(
        self,
        config: QwenRuntimeConfig,
        of: LayerParameters<V>,
        hidden: V,
    ) -> V {
        let input = self.norm(config, hidden, of.post_norm);
        self.linear(
            of.down,
            (self.swiglu)(
                self.linear(of.gate, input),
                self.linear(of.up, input),
                config.intermediate_size as int,
            ),
        )
    }

    /// What a layer makes of a hidden state: what the attention makes of it is
    /// added to it, and what the feed-forward part makes of the sum is added to
    /// the sum.
    pub open spec fn layer(
        self,
        config: QwenRuntimeConfig,
        of: LayerParameters<V>,
        hidden: V,
        position: int,
        keys: Seq<V>,
        values: Seq<V>,
    ) -> V {
        let width = config.hidden_size as int;
        let sum = (self.add)(
            hidden,
            self.attention(config, of, hidden, position, keys, values),
            width,
        );
        (self.add)(sum, self.feed_forward(config, of, sum), width)
    }
}

/// The numbers of a configuration fit into the words that kernels are handed,
/// and a key has a width.
pub open spec fn words_fit(config: QwenRuntimeConfig) -> bool {
    &&& config.hidden_size <= u32::MAX
    &&& config.intermediate_size <= u32::MAX
    &&& config.vocab_size <= u32::MAX
    &&& config.num_attention_heads <= u32::MAX
    &&& config.num_key_value_heads <= u32::MAX
    &&& config.head_dim <= u32::MAX
    &&& 0 < kv_dim(config) <= u32::MAX
}

proof fn lemma_rows_apart(width: int, left: int, right: int)
    requires
        width > 0,
        left != right,
    ensures
        left * width != right * width,
{
    assert(left * width != right * width) by (nonlinear_arith)
        requires
            width > 0,
            left != right,
    ;
}

/// The memory behind a layer, given the one before it.
pub open spec fn layer_ran<V>(
    arithmetic: Arithmetic<V>,
    config: QwenRuntimeConfig,
    layer: usize,
    position: int,
    before: Memory<V>,
    after: Memory<V>,
) -> bool {
    let of = parameters(before.held, layer);
    let hidden = before.held[BufferName::Hidden];
    let width = kv_dim(config) as int;
    let key = arithmetic.key(config, of, hidden, position);
    let value = arithmetic.value(config, of, hidden);
    &&& after.held[BufferName::Hidden] == arithmetic.layer(
        config,
        of,
        hidden,
        position,
        cache_rows(before.stored, key_cache(layer), width, position).push(key),
        cache_rows(before.stored, value_cache(layer), width, position).push(value),
    )
    &&& after.stored == before.stored.insert((key_cache(layer), position * width), key).insert(
        (value_cache(layer), position * width),
        value,
    )
    &&& forall|name: BufferName|
        name is Layer || name is Tensor || name is Head || name == BufferName::OutputNormWeight
            ==> #[trigger] after.held[name] == before.held[name]
}

/// The calls of a layer leave in the hidden state what a layer makes of it:
/// attention over the keys and the values of all positions up to its own, then
/// the feed-forward part, each added to what came in. They leave the key and
/// the value of the position in the caches, and all else there and all that
/// belongs to the model as it was.
#[verifier::rlimit(50)]
pub proof fn layer_calls_compute_a_layer<V>(
    arithmetic: Arithmetic<V>,
    model: ModelImage,
    index: int,
    position: usize,
    memory: Memory<V>,
)
    requires
        words_fit(model.config),
        position <= u32::MAX,
        0 <= index <= usize::MAX,
    ensures
        layer_ran(
            arithmetic,
            model.config,
            index as usize,
            position as int,
            memory,
            run_calls(arithmetic, memory, layer_calls(model, index, position)),
        ),
{
    let calls = layer_calls(model, index, position);
    let config = model.config;
    let layer = index as usize;
    let width = kv_dim(config) as int;
    let of = parameters(memory.held, layer);
    let hidden = memory.held[BufferName::Hidden];
    let key = arithmetic.key(config, of, hidden, position as int);
    let value = arithmetic.value(config, of, hidden);
    assert(calls.take(0) =~= Seq::<Call>::empty());
    assert(calls.take(16) =~= calls);
    lemma_run_next(arithmetic, memory, calls, 0);
    lemma_run_next(arithmetic, memory, calls, 1);
    lemma_run_next(arithmetic, memory, calls, 2);
    lemma_run_next(arithmetic, memory, calls, 3);
    lemma_run_next(arithmetic, memory, calls, 4);
    lemma_run_next(arithmetic, memory, calls, 5);
    lemma_run_next(arithmetic, memory, calls, 6);
    lemma_run_next(arithmetic, memory, calls, 7);
    lemma_run_next(arithmetic, memory, calls, 8);
    lemma_run_next(arithmetic, memory, calls, 9);
    lemma_run_next(arithmetic, memory, calls, 10);
    lemma_run_next(arithmetic, memory, calls, 11);
    lemma_run_next(arithmetic, memory, calls, 12);
    lemma_run_next(arithmetic, memory, calls, 13);
    lemma_run_next(arithmetic, memory, calls, 14);
    lemma_run_next(arithmetic, memory, calls, 15);
    let written = run_calls(arithmetic, memory, calls.take(7));
    assert(written.held[BufferName::K] == key);
    assert(written.held[BufferName::V] == value);
    assert(written.stored == memory.stored.insert(
        (key_cache(layer), position * width),
        key,
    ).insert((value_cache(layer), position * width), value));
    let keys = cache_rows(memory.stored, key_cache(layer), width, position as int).push(key);
    let values = cache_rows(memory.stored, value_cache(layer), width, position as int).push(value);
    assert forall|row: int| 0 <= row <= position implies keys[row] == #[trigger] written.stored[(
        key_cache(layer),
        row * width,
    )] && values[row] == written.stored[(value_cache(layer), row * width)] by {
        if row < position {
            lemma_rows_apart(width, row, position as int);
        }
    }
    assert(keys =~= cache_rows(written.stored, key_cache(layer), width, position + 1));
    assert(values =~= cache_rows(written.stored, value_cache(layer), width, position + 1));
}

/// The hidden state behind the first `count` layers.
pub open spec fn hidden_behind<V>(
    arithmetic: Arithmetic<V>,
    config: QwenRuntimeConfig,
    memory: Memory<V>,
    position: int,
    count: int,
) -> V
    decreases count,
{
    if count <= 0 {
        memory.held[BufferName::Hidden]
    } else {
        let layer = (count - 1) as usize;
        let of = parameters(memory.held, layer);
        let hidden = hidden_behind(arithmetic, config, memory, position, count - 1);
        let width = kv_dim(config) as int;
        arithmetic.layer(
            config,
            of,
            hidden,
            position,
            cache_rows(memory.stored, key_cache(layer), width, position).push(
                arithmetic.key(config, of, hidden, position),
            ),
            cache_rows(memory.stored, value_cache(layer), width, position).push(
                arithmetic.value(config, of, hidden),
            ),
        )
    }
}

/// A place of a cache of one of the first `count` layers at a position.
pub open spec fn is_written(
    config: QwenRuntimeConfig,
    position: int,
    count: int,
    place: (BufferName, int),
) -> bool {
    &&& place.1 == position * kv_dim(config)
    &&& match place.0 {
        BufferName::Layer { layer, own } => layer < count && (own == LayerBuffer::Keys || own
            == LayerBuffer::Values),
        _ => false,
    }
}

/// The memory behind `count` layers, given the one before them.
pub open spec fn layers_ran<V>(
    arithmetic: Arithmetic<V>,
    config: QwenRuntimeConfig,
    position: int,
    count: int,
    before: Memory<V>,
    after: Memory<V>,
) -> bool {
    let place = position * kv_dim(config);
    &&& after.held[BufferName::Hidden] == hidden_behind(
        arithmetic,
        config,
        before,
        position,
        count,
    )
    &&& forall|layer: usize|
        #![trigger key_cache(layer)]
        #![trigger value_cache(layer)]
        layer < count ==> {
            let of = parameters(before.held, layer);
            let hidden = hidden_behind(arithmetic, config, before, position, layer as int);
            &&& after.stored[(key_cache(layer), place)] == arithmetic.key(
                config,
                of,
                hidden,
                position,
            )
            &&& after.stored[(value_cache(layer), place)] == arithmetic.value(config, of, hidden)
        }
    &&& forall|at: (BufferName, int)|
        !is_written(config, position, count, at) ==> #[trigger] after.stored[at]
            == before.stored[at]
    &&& forall|name: BufferName|
        name is Layer || name is Tensor || name is Head || name == BufferName::OutputNormWeight
            ==> #[trigger] after.held[name] == before.held[name]
}

#[verifier::rlimit(50)]
proof fn lemma_layers_compute<V>(
    arithmetic: Arithmetic<V>,
    model: ModelImage,
    uploads: Seq<LayerUploads>,
    position: usize,
    count: int,
    memory: Memory<V>,
)
    requires
        words_fit(model.config),
        position <= u32::MAX,
        0 <= count <= usize::MAX,
        layers_calls(model, uploads, position, count) is Ok,
    ensures
        layers_ran(
            arithmetic,
            model.config,
            position as int,
            count,
            memory,
            run_calls(
                arithmetic,
                memory,
                layers_calls(model, uploads, position, count)->Ok_0,
            ),
        ),
    decreases count,
{
    if count > 0 {
        let config = model.config;
        let fewer = layers_calls(model, uploads, position, count - 1)->Ok_0;
        let own = layer_calls(model, count - 1, position);
        let between = run_calls(arithmetic, memory, fewer);
        let after = run_calls(arithmetic, between, own);
        let layer = (count - 1) as usize;
        let width = kv_dim(config) as int;
        lemma_layers_compute(arithmetic, model, uploads, position, count - 1, memory);
        layer_calls_compute_a_layer(arithmetic, model, count - 1, position, between);
        lemma_run_more(arithmetic, memory, fewer, own);
        assert(layers_calls(model, uploads, position, count)->Ok_0 == fewer + own);
        assert(parameters(between.held, layer) == parameters(memory.held, layer));
        assert forall|row: int| 0 <= row < position implies #[trigger] between.stored[(
            key_cache(layer),
            row * width,
        )] == memory.stored[(key_cache(layer), row * width)] && between.stored[(
            value_cache(layer),
            row * width,
        )] == memory.stored[(value_cache(layer), row * width)] by {
            assert(!is_written(
                config,
                position as int,
                count - 1,
                (key_cache(layer), row * width),
            ));
            assert(!is_written(
                config,
                position as int,
                count - 1,
                (value_cache(layer), row * width),
            ));
        }
        assert(cache_rows(between.stored, key_cache(layer), width, position as int) =~= cache_rows(
            memory.stored,
            key_cache(layer),
            width,
            position as int,
        ));
        assert(cache_rows(between.stored, value_cache(layer), width, position as int)
            =~= cache_rows(memory.stored, value_cache(layer), width, position as int));
    } else {
        assert(layers_calls(model, uploads, position, count)->Ok_0 =~= Seq::<Call>::empty());
    }
}

/// To decode a token carries its hidden state through all layers, one after the
/// other, each on what the one before it left. The caches of every layer gain
/// the key and the value of the position, and nothing else there changes.
pub proof fn decoding_computes_all_layers<V>(
    arithmetic: Arithmetic<V>,
    model: ModelImage,
    uploads: Seq<LayerUploads>,
    token_id: u32,
    position: usize,
    memory: Memory<V>,
)
    requires
        words_fit(model.config),
        position <= u32::MAX,
        model.layers.len() <= usize::MAX,
        decode_calls(model, uploads, true, true, token_id, position) is Ok,
    ensures
        layers_ran(
            arithmetic,
            model.config,
            position as int,
            model.layers.len() as int,
            memory,
            run_calls(
                arithmetic,
                memory,
                decode_calls(model, uploads, true, true, token_id, position)->Ok_0,
            ),
        ),
{
    lemma_layers_compute(
        arithmetic,
        model,
        uploads,
        position,
        model.layers.len() as int,
        memory,
    );
}

/// The head as it stands in the memory.
pub open spec fn uploaded_head<V>(held: Map<BufferName, V>) -> Bytes<V> {
    Bytes {
        values: held[BufferName::Head { buffer: TensorBuffer::Q8Values }],
        scales: held[BufferName::Head { buffer: TensorBuffer::Scales }],
        dims: held[BufferName::Head { buffer: TensorBuffer::Dims }],
    }
}

/// To choose a token takes the greatest of the logits, which are the head times
/// the normalised hidden state. The hidden state, the caches and all that
/// belongs to the model stay as they were.
#[verifier::rlimit(50)]
pub proof fn choice_is_greatest_logit<V>(
    arithmetic: Arithmetic<V>,
    model: ModelImage,
    hidden_len: nat,
    head_upload: Option<Upload>,
    memory: Memory<V>,
)
    requires
        words_fit(model.config),
        next_token_plan(model, hidden_len, true, true, head_upload) is Ok,
    ensures
        ({
            let after = run_calls(
                arithmetic,
                memory,
                next_token_plan(model, hidden_len, true, true, head_upload)->Ok_0,
            );
            let zeros = memory.held[BufferName::Head { buffer: TensorBuffer::ZeroLinearBias }];
            let logits = (arithmetic.bytes_product)(
                uploaded_head(memory.held),
                arithmetic.norm(
                    model.config,
                    memory.held[BufferName::Hidden],
                    memory.held[BufferName::OutputNormWeight],
                ),
                zeros,
            );
            &&& after.held[BufferName::ArgmaxIndex] == (arithmetic.argmax)(
                logits,
                model.config.vocab_size as int,
            )
            &&& after.stored == memory.stored
            &&& after.held[BufferName::Hidden] == memory.held[BufferName::Hidden]
            &&& forall|name: BufferName|
                name is Layer || name is Tensor || name is Head || name
                    == BufferName::OutputNormWeight ==> #[trigger] after.held[name]
                    == memory.held[name]
        }),
{
    let calls = next_token_plan(model, hidden_len, true, true, head_upload)->Ok_0;
    assert(calls == next_token_calls(model.config, model.lm_head->0.out_dim));
    assert(calls.take(0) =~= Seq::<Call>::empty());
    assert(calls.take(3) =~= calls);
    lemma_run_next(arithmetic, memory, calls, 0);
    lemma_run_next(arithmetic, memory, calls, 1);
    lemma_run_next(arithmetic, memory, calls, 2);
}

/// The rows of the matrix that a buffer of numbers belongs to.
pub open spec fn matrix_rows(model: ModelImage, dims: BufferName) -> int {
    match dims {
        BufferName::Tensor { layer, projection, .. } => {
            let facts = model.layers[layer as int];
            match projection {
                Projection::Q => facts.q_proj.out_dim as int,
                Projection::K => facts.k_proj.out_dim as int,
                Projection::V => facts.v_proj.out_dim as int,
                Projection::O => facts.o_proj.out_dim as int,
                Projection::Gate => facts.gate_proj.out_dim as int,
                Projection::Up => facts.up_proj.out_dim as int,
                Projection::Down => facts.down_proj.out_dim as int,
            }
        },
        _ => model.lm_head->0.out_dim as int,
    }
}

/// The least number of groups, each of which takes `part` things in hand, takes
/// all of `len` things in hand.
pub open spec fn just_enough(groups: int, part: int, len: int) -> bool {
    &&& len <= groups * part
    &&& groups > 0 ==> (groups - 1) * part < len
}

/// The grid of a call takes all of its work in hand. A product by four-bit
/// numbers does eight rows in a group of 128 threads, one by bytes a single
/// row. The kernels that sum up or compare a whole vector are one group of 256
/// threads. Attention does a head in a group. The others do a number in each
/// of the 256 threads of a group; a rotation does a pair of numbers.
pub open spec fn fully_launched(model: ModelImage, call: Call) -> bool {
    let groups = call.groups.width as int;
    let threads = call.threads.width as int;
    &&& call.groups.height == 1 && call.groups.depth == 1
    &&& call.threads.height == 1 && call.threads.depth == 1
    &&& match call.kernel {
        Kernel::Q4Matvec => threads == 128 && just_enough(
            groups,
            8,
            matrix_rows(model, buffer_at(call, 6)),
        ),
        Kernel::Q4Matmul => false,
        Kernel::Q8Matvec => threads == 128 && groups == matrix_rows(model, buffer_at(call, 5)),
        Kernel::Rmsnorm | Kernel::Argmax => threads == 256 && groups == 1,
        Kernel::Rope => match call.arguments[1] {
            Argument::Words3(heads, head_dim, _) => threads == 256 && just_enough(
                groups,
                256,
                heads * head_dim / 2,
            ),
            _ => false,
        },
        Kernel::KvWrite => match call.arguments[4] {
            Argument::Words2(_, width) => threads == 256 && just_enough(groups, 256, width as int),
            _ => false,
        },
        Kernel::Attention => match call.arguments[4] {
            Argument::Words4(_, heads, _, _) => threads == 128 && groups == heads,
            _ => false,
        },
        Kernel::Add | Kernel::Swiglu => threads == 256 && just_enough(
            groups,
            256,
            word_at(call, 3),
        ),
    }
}

pub proof fn lemma_just_enough(len: nat, part: nat)
    requires
        part > 0,
        len <= usize::MAX,
    ensures
        parts(len, part) <= len,
        just_enough(parts(len, part) as u64 as int, part as int, len as int),
{
    parts_cover(len, part);
    let count = parts(len, part) as int;
    assert(count <= len) by (nonlinear_arith)
        requires
            part > 0,
            len >= 0,
            count > 0 ==> (count - 1) * part < len,
    ;
}

proof fn lemma_q4_launched(
    model: ModelImage,
    layer: usize,
    projection: Projection,
    input: BufferName,
    linear_bias: BufferName,
    output: BufferName,
    out_dim: usize,
)
    requires
        out_dim == matrix_rows(
            model,
            BufferName::Tensor { layer, projection, buffer: TensorBuffer::Dims },
        ),
    ensures
        fully_launched(
            model,
            q4_call(layer, projection, input, linear_bias, output, out_dim as nat),
        ),
{
    let call = q4_call(layer, projection, input, linear_bias, output, out_dim as nat);
    lemma_just_enough(out_dim as nat, 8);
    assert(buffer_at(call, 6) == BufferName::Tensor {
        layer,
        projection,
        buffer: TensorBuffer::Dims,
    });
}

proof fn lemma_rope_launched(
    model: ModelImage,
    values: BufferName,
    heads: usize,
    head_dim: usize,
    position: usize,
)
    requires
        heads <= u32::MAX,
        head_dim <= u32::MAX,
        heads * head_dim <= usize::MAX,
    ensures
        fully_launched(model, rope_call(values, heads, head_dim, position)),
{
    assert(0 <= heads * head_dim) by (nonlinear_arith)
        requires
            0 <= heads,
            0 <= head_dim,
    ;
    lemma_just_enough((heads * head_dim / 2) as nat, 256);
}

proof fn lemma_pairwise_launched(
    model: ModelImage,
    kernel: Kernel,
    left: BufferName,
    right: BufferName,
    output: BufferName,
    len: usize,
)
    requires
        kernel == Kernel::Add || kernel == Kernel::Swiglu,
        len <= u32::MAX,
    ensures
        fully_launched(model, pairwise_call(kernel, left, right, output, len)),
{
    lemma_just_enough(len as nat, 256);
    assert(word_at(pairwise_call(kernel, left, right, output, len), 3) == len);
}

proof fn lemma_kv_write_launched(
    model: ModelImage,
    layer: usize,
    position: usize,
    width: usize,
)
    requires
        width <= u32::MAX,
    ensures
        fully_launched(model, kv_write_call(layer, position, width)),
{
    lemma_just_enough(width as nat, 256);
}

/// Every call of a layer is launched on a grid that takes all of its work in
/// hand, with no idle group.
#[verifier::rlimit(50)]
pub proof fn layer_calls_are_fully_launched(
    model: ModelImage,
    index: int,
    position: usize,
    at: int,
)
    requires
        words_fit(model.config),
        0 <= index < model.layers.len() <= usize::MAX,
        model.config.num_attention_heads * model.config.head_dim <= usize::MAX,
        0 <= at < layer_calls(model, index, position).len(),
    ensures
        fully_launched(model, layer_calls(model, index, position)[at]),
{
    let config = model.config;
    let facts = model.layers[index];
    let layer = index as usize;
    let call = layer_calls(model, index, position)[at];
    let hidden = config.hidden_size;
    let rows = |projection: Projection|
        matrix_rows(
            model,
            BufferName::Tensor { layer, projection, buffer: TensorBuffer::Dims },
        );
    if call.kernel == Kernel::Q4Matvec {
        let projection = buffer_at(call, 6)->Tensor_projection;
        lemma_q4_launched(
            model,
            layer,
            projection,
            buffer_at(call, 0),
            buffer_at(call, 4),
            buffer_at(call, 5),
            rows(projection) as usize,
        );
    } else if call.kernel == Kernel::Rope {
        lemma_rope_launched(
            model,
            BufferName::Q,
            config.num_attention_heads,
            config.head_dim,
            position,
        );
        lemma_rope_launched(
            model,
            BufferName::K,
            config.num_key_value_heads,
            config.head_dim,
            position,
        );
    } else if call.kernel == Kernel::KvWrite {
        lemma_kv_write_launched(model, layer, position, kv_dim(config) as usize);
    } else if call.kernel == Kernel::Add || call.kernel == Kernel::Swiglu {
        lemma_pairwise_launched(
            model,
            call.kernel,
            buffer_at(call, 0),
            buffer_at(call, 1),
            buffer_at(call, 2),
            hidden,
        );
        lemma_pairwise_launched(
            model,
            call.kernel,
            buffer_at(call, 0),
            buffer_at(call, 1),
            buffer_at(call, 2),
            config.intermediate_size,
        );
    }
}

/// Every call that chooses a token is launched on a grid that takes all of its
/// work in hand, with no idle group.
pub proof fn choice_calls_are_fully_launched(model: ModelImage, at: int)
    requires
        model.lm_head is Some,
        0 <= at < next_token_calls(model.config, model.lm_head->0.out_dim).len(),
    ensures
        fully_launched(model, next_token_calls(model.config, model.lm_head->0.out_dim)[at]),
{
}

/// A memory of several rows: what belongs to the model and the caches are
/// shared, the working buffers are each row's own.
#[verifier::reject_recursive_types(V)]
pub struct RowMemory<V> {
    pub shared: Memory<V>,
    pub rows: Seq<Map<BufferName, V>>,
}

impl<V> RowMemory<V> {
    /// A vector is written to a buffer of every row.
    pub open spec fn put(self, name: BufferName, value: spec_fn(int) -> V) -> RowMemory<V> {
        RowMemory {
            shared: self.shared,
            rows: Seq::new(self.rows.len(), |row: int| self.rows[row].insert(name, value(row))),
        }
    }
}

/// A cache of keys and one of values, with the keys and the values of the first
/// `count` rows from a position on.
pub open spec fn with_rows<V>(
    stored: Map<(BufferName, int), V>,
    rows: Seq<Map<BufferName, V>>,
    layer: usize,
    width: int,
    start: int,
    count: int,
) -> Map<(BufferName, int), V>
    decreases count,
{
    if count <= 0 {
        stored
    } else {
        let place = (start + count - 1) * width;
        with_rows(stored, rows, layer, width, start, count - 1).insert(
            (key_cache(layer), place),
            rows[count - 1][BufferName::K],
        ).insert((value_cache(layer), place), rows[count - 1][BufferName::V])
    }
}

/// What a step does to a memory of several rows.
pub open spec fn run_step<V>(
    arithmetic: Arithmetic<V>,
    config: QwenRuntimeConfig,
    layer: usize,
    memory: RowMemory<V>,
    step: RowStep,
) -> RowMemory<V> {
    let of = parameters(memory.shared.held, layer);
    let rows = memory.rows;
    let width = kv_dim(config) as int;
    match step {
        RowStep::Normalize { input, weight, output } => {
            let weight = memory.shared.held[BufferName::Layer { layer, own: weight }];
            memory.put(output, |row: int| arithmetic.norm(config, rows[row][input], weight))
        },
        RowStep::ProjectQkv { input } => memory.put(
            BufferName::Q,
            |row: int| arithmetic.linear(of.q, rows[row][input]),
        ).put(BufferName::K, |row: int| arithmetic.linear(of.k, rows[row][input])).put(
            BufferName::V,
            |row: int| arithmetic.linear(of.v, rows[row][input]),
        ),
        RowStep::ProjectGateUp { input } => memory.put(
            BufferName::Gate,
            |row: int| arithmetic.linear(of.gate, rows[row][input]),
        ).put(BufferName::Up, |row: int| arithmetic.linear(of.up, rows[row][input])),
        RowStep::Project { projection, input, output } => {
            let linear = uploaded(
                memory.shared.held,
                layer,
                projection,
                BufferName::Tensor { layer, projection, buffer: TensorBuffer::ZeroLinearBias },
            );
            memory.put(output, |row: int| arithmetic.linear(linear, rows[row][input]))
        },
        RowStep::Rotate { rows: turned, heads, start } => memory.put(
            turned,
            |row: int| arithmetic.turned(config, rows[row][turned], heads as int, start + row),
        ),
        RowStep::Remember { start } => RowMemory {
            shared: Memory {
                held: memory.shared.held,
                stored: with_rows(
                    memory.shared.stored,
                    rows,
                    layer,
                    width,
                    start as int,
                    rows.len() as int,
                ),
            },
            rows,
        },
        RowStep::Attend { start } => memory.put(
            BufferName::Attn,
            |row: int|
                (arithmetic.attend)(
                    rows[row][BufferName::Q],
                    cache_rows(memory.shared.stored, key_cache(layer), width, start + row + 1),
                    cache_rows(memory.shared.stored, value_cache(layer), width, start + row + 1),
                    config.num_attention_heads as int,
                    config.num_key_value_heads as int,
                    config.head_dim as int,
                    (arithmetic.float)(FloatName::AttentionScale),
                ),
        ),
        RowStep::Add { left, right, output } => memory.put(
            output,
            |row: int|
                (arithmetic.add)(rows[row][left], rows[row][right], config.hidden_size as int),
        ),
        RowStep::Gate { gate, up, output } => memory.put(
            output,
            |row: int|
                (arithmetic.swiglu)(
                    rows[row][gate],
                    rows[row][up],
                    config.intermediate_size as int,
                ),
        ),
    }
}

/// What steps do to a memory of several rows, one after the other.
pub open spec fn run_steps<V>(
    arithmetic: Arithmetic<V>,
    config: QwenRuntimeConfig,
    layer: usize,
    memory: RowMemory<V>,
    steps: Seq<RowStep>,
) -> RowMemory<V>
    decreases steps.len(),
{
    if steps.len() == 0 {
        memory
    } else {
        run_step(
            arithmetic,
            config,
            layer,
            run_steps(arithmetic, config, layer, memory, steps.drop_last()),
            steps.last(),
        )
    }
}

proof fn lemma_step_next<V>(
    arithmetic: Arithmetic<V>,
    config: QwenRuntimeConfig,
    layer: usize,
    memory: RowMemory<V>,
    steps: Seq<RowStep>,
    count: int,
)
    requires
        0 <= count < steps.len(),
    ensures
        run_steps(arithmetic, config, layer, memory, steps.take(count + 1)) == run_step(
            arithmetic,
            config,
            layer,
            run_steps(arithmetic, config, layer, memory, steps.take(count)),
            steps[count],
        ),
{
    assert(steps.take(count + 1).drop_last() =~= steps.take(count));
}

/// A place of the caches of a layer that one of some rows from a position on
/// has of its own.
pub open spec fn is_row_place(
    layer: usize,
    width: int,
    start: int,
    count: int,
    at: (BufferName, int),
) -> bool {
    &&& at.0 == key_cache(layer) || at.0 == value_cache(layer)
    &&& exists|row: int| 0 <= row < count && at.1 == #[trigger] ((start + row) * width)
}

proof fn lemma_with_rows<V>(
    stored: Map<(BufferName, int), V>,
    rows: Seq<Map<BufferName, V>>,
    layer: usize,
    width: int,
    start: int,
    count: int,
)
    requires
        width > 0,
        0 <= count,
    ensures
        forall|row: int|
            0 <= row < count ==> {
                let after = with_rows(stored, rows, layer, width, start, count);
                &&& after[(key_cache(layer), #[trigger] ((start + row) * width))]
                    == rows[row][BufferName::K]
                &&& after[(value_cache(layer), (start + row) * width)] == rows[row][BufferName::V]
            },
        forall|at: (BufferName, int)|
            !is_row_place(layer, width, start, count, at) ==> #[trigger] with_rows(
                stored,
                rows,
                layer,
                width,
                start,
                count,
            )[at] == stored[at],
    decreases count,
{
    if count > 0 {
        lemma_with_rows(stored, rows, layer, width, start, count - 1);
        let before = with_rows(stored, rows, layer, width, start, count - 1);
        let after = with_rows(stored, rows, layer, width, start, count);
        assert forall|row: int| 0 <= row < count implies after[(
            key_cache(layer),
            #[trigger] ((start + row) * width),
        )] == rows[row][BufferName::K] && after[(value_cache(layer), (start + row) * width)]
            == rows[row][BufferName::V] by {
            if row < count - 1 {
                lemma_rows_apart(width, start + row, start + count - 1);
            }
        }
        assert forall|at: (BufferName, int)|
            !is_row_place(layer, width, start, count, at) implies #[trigger] after[at]
            == stored[at] by {
            assert(!is_row_place(layer, width, start, count - 1, at));
            let last = count - 1;
            assert((start + last) * width == (start + count - 1) * width);
        }
    }
}

/// The memory behind a layer on several rows, given the one before it.
pub open spec fn rows_ran<V>(
    arithmetic: Arithmetic<V>,
    config: QwenRuntimeConfig,
    layer: usize,
    start: int,
    before: RowMemory<V>,
    after: RowMemory<V>,
) -> bool {
    let of = parameters(before.shared.held, layer);
    let width = kv_dim(config) as int;
    &&& after.rows.len() == before.rows.len()
    &&& after.shared.held == before.shared.held
    &&& forall|row: int|
        0 <= row < before.rows.len() ==> {
            let hidden = #[trigger] before.rows[row][BufferName::Hidden];
            let position = start + row;
            &&& after.rows[row][BufferName::Hidden] == arithmetic.layer(
                config,
                of,
                hidden,
                position,
                cache_rows(after.shared.stored, key_cache(layer), width, position + 1),
                cache_rows(after.shared.stored, value_cache(layer), width, position + 1),
            )
            &&& after.shared.stored[(key_cache(layer), position * width)] == arithmetic.key(
                config,
                of,
                hidden,
                position,
            )
            &&& after.shared.stored[(value_cache(layer), position * width)] == arithmetic.value(
                config,
                of,
                hidden,
            )
        }
    &&& forall|at: (BufferName, int)|
        !is_row_place(layer, width, start, before.rows.len() as int, at)
            ==> #[trigger] after.shared.stored[at] == before.shared.stored[at]
}

/// The steps of a layer on several rows leave in each row's hidden state what a
/// layer makes of it at the row's own position, over the keys and the values of
/// all positions up to that. The caches gain the keys and the values of the
/// rows, and nothing else there changes.
#[verifier::rlimit(50)]
pub proof fn row_steps_compute_a_layer<V>(
    arithmetic: Arithmetic<V>,
    config: QwenRuntimeConfig,
    layer: usize,
    start: usize,
    memory: RowMemory<V>,
)
    requires
        kv_dim(config) > 0,
    ensures
        rows_ran(
            arithmetic,
            config,
            layer,
            start as int,
            memory,
            run_steps(arithmetic, config, layer, memory, batched_layer_steps(config, start)),
        ),
{
    let steps = batched_layer_steps(config, start);
    let of = parameters(memory.shared.held, layer);
    let width = kv_dim(config) as int;
    let count = memory.rows.len() as int;
    assert(steps.take(0) =~= Seq::<RowStep>::empty());
    assert(steps.take(13) =~= steps);
    lemma_step_next(arithmetic, config, layer, memory, steps, 0);
    lemma_step_next(arithmetic, config, layer, memory, steps, 1);
    lemma_step_next(arithmetic, config, layer, memory, steps, 2);
    lemma_step_next(arithmetic, config, layer, memory, steps, 3);
    lemma_step_next(arithmetic, config, layer, memory, steps, 4);
    lemma_step_next(arithmetic, config, layer, memory, steps, 5);
    lemma_step_next(arithmetic, config, layer, memory, steps, 6);
    lemma_step_next(arithmetic, config, layer, memory, steps, 7);
    lemma_step_next(arithmetic, config, layer, memory, steps, 8);
    lemma_step_next(arithmetic, config, layer, memory, steps, 9);
    lemma_step_next(arithmetic, config, layer, memory, steps, 10);
    lemma_step_next(arithmetic, config, layer, memory, steps, 11);
    lemma_step_next(arithmetic, config, layer, memory, steps, 12);
    let projected = run_steps(arithmetic, config, layer, memory, steps.take(4));
    let after = run_steps(arithmetic, config, layer, memory, steps);
    lemma_with_rows(memory.shared.stored, projected.rows, layer, width, start as int, count);
    assert(projected.rows.len() == count);
    assert(after.shared.stored == with_rows(
        memory.shared.stored,
        projected.rows,
        layer,
        width,
        start as int,
        count,
    ));
    assert forall|row: int| 0 <= row < count implies projected.rows[row][BufferName::K]
        == arithmetic.key(
        config,
        of,
        #[trigger] memory.rows[row][BufferName::Hidden],
        start + row,
    ) && projected.rows[row][BufferName::V] == arithmetic.value(
        config,
        of,
        memory.rows[row][BufferName::Hidden],
    ) by {}
    assert forall|row: int| 0 <= row < count implies after.shared.stored[(
        key_cache(layer),
        (start + row) * width,
    )] == arithmetic.key(
        config,
        of,
        #[trigger] memory.rows[row][BufferName::Hidden],
        start + row,
    ) && after.shared.stored[(value_cache(layer), (start + row) * width)] == arithmetic.value(
        config,
        of,
        memory.rows[row][BufferName::Hidden],
    ) by {
        let place = (start + row) * width;
        assert(after.shared.stored[(key_cache(layer), place)]
            == projected.rows[row][BufferName::K]);
    }
}

/// A layer on several rows computes for each row what the layer computes for
/// that row alone, at the row's own position and with the rows before it in the
/// caches.
#[verifier::rlimit(50)]
pub proof fn rows_compute_what_one_computes<V>(
    arithmetic: Arithmetic<V>,
    model: ModelImage,
    index: int,
    start: usize,
    memory: RowMemory<V>,
    row: int,
    alone: Memory<V>,
)
    requires
        words_fit(model.config),
        0 <= index <= usize::MAX,
        0 <= row < memory.rows.len(),
        start + row <= u32::MAX,
        alone.held[BufferName::Hidden] == memory.rows[row][BufferName::Hidden],
        parameters(alone.held, index as usize) == parameters(memory.shared.held, index as usize),
        ({
            let layer = index as usize;
            let after = run_steps(
                arithmetic,
                model.config,
                layer,
                memory,
                batched_layer_steps(model.config, start),
            );
            let width = kv_dim(model.config) as int;
            &&& cache_rows(alone.stored, key_cache(layer), width, start + row) == cache_rows(
                after.shared.stored,
                key_cache(layer),
                width,
                start + row,
            )
            &&& cache_rows(alone.stored, value_cache(layer), width, start + row) == cache_rows(
                after.shared.stored,
                value_cache(layer),
                width,
                start + row,
            )
        }),
    ensures
        ({
            let layer = index as usize;
            let after = run_steps(
                arithmetic,
                model.config,
                layer,
                memory,
                batched_layer_steps(model.config, start),
            );
            let position = (start + row) as usize;
            let one = run_calls(arithmetic, alone, layer_calls(model, index, position));
            let place = position * kv_dim(model.config);
            &&& after.rows[row][BufferName::Hidden] == one.held[BufferName::Hidden]
            &&& after.shared.stored[(key_cache(layer), place)] == one.stored[(
                key_cache(layer),
                place,
            )]
            &&& after.shared.stored[(value_cache(layer), place)] == one.stored[(
                value_cache(layer),
                place,
            )]
        }),
{
    let layer = index as usize;
    let config = model.config;
    let width = kv_dim(config) as int;
    let position = (start + row) as usize;
    let after = run_steps(
        arithmetic,
        config,
        layer,
        memory,
        batched_layer_steps(config, start),
    );
    row_steps_compute_a_layer(arithmetic, config, layer, start, memory);
    layer_calls_compute_a_layer(arithmetic, model, index, position, alone);
    let hidden = memory.rows[row][BufferName::Hidden];
    let of = parameters(memory.shared.held, layer);
    assert(cache_rows(after.shared.stored, key_cache(layer), width, position + 1) =~= cache_rows(
        alone.stored,
        key_cache(layer),
        width,
        position as int,
    ).push(arithmetic.key(config, of, hidden, position as int)));
    assert(cache_rows(after.shared.stored, value_cache(layer), width, position + 1) =~= cache_rows(
        alone.stored,
        value_cache(layer),
        width,
        position as int,
    ).push(arithmetic.value(config, of, hidden)));
}

/// What a projection is computed to, and where to, given what its kernel finds
/// in the places that it is handed.
pub open spec fn projected<V>(
    arithmetic: Arithmetic<V>,
    held: spec_fn(ProjectionArgument) -> V,
    kernel: Kernel,
    arguments: Seq<ProjectionArgument>,
) -> (ProjectionArgument, V) {
    if kernel == Kernel::Q8Matvec {
        (
            arguments[4],
            (arithmetic.bytes_product)(
                Bytes {
                    values: held(arguments[1]),
                    scales: held(arguments[2]),
                    dims: held(arguments[5]),
                },
                held(arguments[0]),
                held(arguments[3]),
            ),
        )
    } else {
        (
            arguments[5],
            (arithmetic.packed_product)(
                Packed {
                    weight: held(arguments[1]),
                    scales: held(arguments[2]),
                    biases: held(arguments[3]),
                    dims: held(arguments[6]),
                },
                held(arguments[0]),
                held(arguments[4]),
            ),
        )
    }
}

/// A projection multiplies its input by its matrix and adds its own bias, or
/// zeros where it has none. Only the kernel for several rows is told how many
/// there are.
pub proof fn projections_are_products<V>(
    arithmetic: Arithmetic<V>,
    held: spec_fn(ProjectionArgument) -> V,
    step: ProjectionStep,
)
    requires
        step.kernel.is_projection(),
    ensures
        ({
            let arguments = step.argument_list();
            let (output, value) = projected(arithmetic, held, step.kernel, arguments);
            let input = held(ProjectionArgument::Input);
            let part = |buffer: TensorBuffer| held(ProjectionArgument::Tensor(buffer));
            let bias = match step.bias_slot {
                Some(slot) => held(ProjectionArgument::Bias(slot)),
                None => part(TensorBuffer::ZeroLinearBias),
            };
            &&& output == match step.output_slot {
                Some(slot) => ProjectionArgument::ScratchOutput(slot),
                None => ProjectionArgument::TensorOutput,
            }
            &&& step.kernel == Kernel::Q8Matvec ==> arguments.len() == 6 && value == (
            arithmetic.bytes_product)(
                Bytes {
                    values: part(TensorBuffer::Q8Values),
                    scales: part(TensorBuffer::Scales),
                    dims: part(TensorBuffer::Dims),
                },
                input,
                bias,
            )
            &&& step.kernel != Kernel::Q8Matvec ==> value == (arithmetic.packed_product)(
                Packed {
                    weight: part(TensorBuffer::Q4Weight),
                    scales: part(TensorBuffer::Scales),
                    biases: part(TensorBuffer::Biases),
                    dims: part(TensorBuffer::Dims),
                },
                input,
                bias,
            )
            &&& step.kernel == Kernel::Q4Matvec ==> arguments.len() == 7
            &&& step.kernel == Kernel::Q4Matmul ==> arguments.len() == 8 && arguments[7]
                == ProjectionArgument::Batch
        }),
{
}

/// A projection that can run on the four-bit kernels: its matrix has four-bit
/// numbers and stands on the GPU, it is as wide as the input, and the bias, if
/// there is one, is as long as the output.
pub open spec fn can_be_packed(request: ProjectionRequest, width: int) -> bool {
    &&& request.tensor.encoding == QuantEncoding::AffineQ4
    &&& request.tensor.in_dim == width
    &&& request.bias_len is Some ==> request.bias_len->0 == request.tensor.out_dim
    &&& request.upload is Some && request.upload->0.q4_weight && request.upload->0.biases
}

proof fn lemma_rows_can_be_packed(requests: Seq<ProjectionRequest>, input_len: usize, count: int)
    requires
        0 <= count,
    ensures
        rows_refusal(requests, input_len, count) is None && uploads_refusal(requests, count) is None
            <==> forall|i: int|
            0 <= i < count ==> can_be_packed(#[trigger] requests[i], input_len as int),
    decreases count,
{
    if count > 0 {
        lemma_rows_can_be_packed(requests, input_len, count - 1);
        let last = requests[count - 1];
        assert((rows_refusal(requests, input_len, count - 1) is None && uploads_refusal(
            requests,
            count - 1,
        ) is None && can_be_packed(last, input_len as int)) <==> (rows_refusal(
            requests,
            input_len,
            count,
        ) is None && uploads_refusal(requests, count) is None));
    }
}

/// Projections of one row that share their input run just where each of them
/// can. Each then writes all of its own output, with its own bias where it has
/// one.
#[verifier::rlimit(50)]
pub proof fn rows_are_projected_where_they_can_be(
    requests: Seq<ProjectionRequest>,
    input_len: usize,
    index: int,
)
    ensures
        row_steps(requests, input_len) is Ok <==> forall|i: int|
            0 <= i < requests.len() ==> can_be_packed(#[trigger] requests[i], input_len as int),
        row_steps(requests, input_len) is Ok && 0 <= index < requests.len() ==> {
            let steps = row_steps(requests, input_len)->Ok_0;
            let step = steps[index];
            let rows = requests[index].tensor.out_dim;
            &&& steps.len() == requests.len()
            &&& step.kernel == Kernel::Q4Matvec
            &&& step.bias_slot is Some <==> requests[index].bias_len is Some
            &&& step.output_slot is None
            &&& just_enough(step.groups.width as int, 8, rows as int)
            &&& step.groups.height == 1 && step.groups.depth == 1
            &&& step.threads.width == 128 && step.threads.height == 1 && step.threads.depth == 1
            &&& step.output_len == rows
            &&& 4 * rows <= usize::MAX ==> step.output_bytes == 4 * step.output_len
        },
{
    lemma_rows_can_be_packed(requests, input_len, requests.len() as int);
    if 0 <= index < requests.len() {
        lemma_just_enough(requests[index].tensor.out_dim as nat, 8);
    }
}

proof fn lemma_batches_can_be_packed(
    requests: Seq<ProjectionRequest>,
    input_len: usize,
    batch: usize,
    count: int,
)
    requires
        0 <= count,
        batch > 0,
    ensures
        batches_refusal(requests, input_len, batch, count) is None && uploads_refusal(
            requests,
            count,
        ) is None <==> forall|i: int|
            0 <= i < count ==> can_be_packed(
                #[trigger] requests[i],
                requests[i].tensor.in_dim as int,
            ) && input_len == batch * requests[i].tensor.in_dim,
    decreases count,
{
    if count > 0 {
        lemma_batches_can_be_packed(requests, input_len, batch, count - 1);
        let last = requests[count - 1];
        assert((batches_refusal(requests, input_len, batch, count - 1) is None && uploads_refusal(
            requests,
            count - 1,
        ) is None && can_be_packed(last, last.tensor.in_dim as int) && input_len == batch
            * last.tensor.in_dim) <==> (batches_refusal(requests, input_len, batch, count) is None
            && uploads_refusal(requests, count) is None));
    }
}

/// Projections of several rows that share their input run just where there is a
/// row and each of them can. Each then writes all rows of its own output, to a
/// place of its own.
#[verifier::rlimit(50)]
pub proof fn batches_are_projected_where_they_can_be(
    requests: Seq<ProjectionRequest>,
    input_len: usize,
    batch: usize,
    index: int,
)
    requires
        requests.len() > 0,
    ensures
        batch_steps(requests, input_len, batch) is Ok <==> batch > 0 && forall|i: int|
            0 <= i < requests.len() ==> can_be_packed(
                #[trigger] requests[i],
                requests[i].tensor.in_dim as int,
            ) && input_len == batch * requests[i].tensor.in_dim,
        batch_steps(requests, input_len, batch) is Ok && 0 <= index < requests.len()
            && requests.len() <= usize::MAX ==> {
            let steps = batch_steps(requests, input_len, batch)->Ok_0;
            let step = steps[index];
            let rows = requests[index].tensor.out_dim;
            &&& steps.len() == requests.len()
            &&& step.kernel == Kernel::Q4Matmul
            &&& step.bias_slot is Some <==> requests[index].bias_len is Some
            &&& step.output_slot is Some && step.output_slot->0 == index
            &&& step.groups.width == rows && step.groups.depth == 1
            &&& just_enough(step.groups.height as int, 8, batch as int)
            &&& step.threads.width == 128 && step.threads.height == 1 && step.threads.depth == 1
            &&& 4 * (batch * rows) <= usize::MAX ==> step.output_len == batch * rows
                && step.output_bytes == 4 * (batch * rows)
        },
{
    if batch > 0 {
        lemma_batches_can_be_packed(requests, input_len, batch, requests.len() as int);
    }
    if 0 <= index < requests.len() {
        lemma_just_enough(batch as nat, 8);
        let rows = requests[index].tensor.out_dim as int;
        assert(0 <= batch * rows) by (nonlinear_arith)
            requires
                0 <= batch,
                0 <= rows,
        ;
    }
}

/// A projection by bytes runs just where its matrix has bytes, stands on the GPU
/// and is as wide as the input, and the bias, if there is one, is as long as the
/// output. It then writes all of its output.
pub proof fn bytes_are_projected_where_they_can_be(request: ProjectionRequest, input_len: usize)
    ensures
        q8_step(request, input_len) is Ok <==> {
            &&& request.tensor.encoding == QuantEncoding::GgufQ8_0
            &&& request.tensor.in_dim == input_len
            &&& request.bias_len is Some ==> request.bias_len->0 == request.tensor.out_dim
            &&& request.upload is Some && request.upload->0.q8_values
        },
        q8_step(request, input_len) is Ok ==> {
            let step = q8_step(request, input_len)->Ok_0;
            let rows = request.tensor.out_dim;
            &&& step.kernel == Kernel::Q8Matvec
            &&& step.bias_slot is Some <==> request.bias_len is Some
            &&& step.output_slot is None
            &&& step.groups.width == rows && step.groups.height == 1 && step.groups.depth == 1
            &&& step.threads.width == 128 && step.threads.height == 1 && step.threads.depth == 1
            &&& step.output_len == rows
            &&& 4 * rows <= usize::MAX ==> step.output_bytes == 4 * step.output_len
        },
{
}

/// How many of some calls are products with a matrix.
pub open spec fn products_of(calls: Seq<Call>) -> nat
    decreases calls.len(),
{
    if calls.len() == 0 {
        0
    } else {
        products_of(calls.drop_last()) + if calls.last().kernel.is_projection() {
            1nat
        } else {
            0nat
        }
    }
}

/// How many of some steps are products, those that share an input counted once.
pub open spec fn product_groups_of(steps: Seq<RowStep>) -> nat
    decreases steps.len(),
{
    if steps.len() == 0 {
        0
    } else {
        product_groups_of(steps.drop_last()) + match steps.last() {
            RowStep::ProjectQkv { .. } | RowStep::ProjectGateUp { .. } | RowStep::Project {
                ..
            } => 1nat,
            _ => 0nat,
        }
    }
}

/// A report counts the products of a layer: each of them where they run one by
/// one, and those that share an input once where they run together.
#[verifier::rlimit(50)]
pub proof fn reports_count_the_products(model: ModelImage, index: int, position: usize)
    ensures
        products_of(layer_calls(model, index, position)) == groups_per_layer(
            QwenProjectionBackend::Cpu,
        ),
        product_groups_of(batched_layer_steps(model.config, position)) == groups_per_layer(
            QwenProjectionBackend::Metal,
        ),
{
    let calls = layer_calls(model, index, position);
    let steps = batched_layer_steps(model.config, position);
    lemma_products_next(calls, 16);
    lemma_groups_next(steps, 13);
    assert(calls.take(16) =~= calls);
    assert(steps.take(13) =~= steps);
    reveal_with_fuel(products_up_to, 17);
    reveal_with_fuel(groups_up_to, 14);
}

spec fn products_up_to(calls: Seq<Call>, count: nat) -> nat
    decreases count,
{
    if count == 0 {
        0
    } else {
        products_up_to(calls, (count - 1) as nat) + if calls[count - 1].kernel.is_projection() {
            1nat
        } else {
            0nat
        }
    }
}

spec fn groups_up_to(steps: Seq<RowStep>, count: nat) -> nat
    decreases count,
{
    if count == 0 {
        0
    } else {
        groups_up_to(steps, (count - 1) as nat) + match steps[count - 1] {
            RowStep::ProjectQkv { .. } | RowStep::ProjectGateUp { .. } | RowStep::Project {
                ..
            } => 1nat,
            _ => 0nat,
        }
    }
}

proof fn lemma_products_next(calls: Seq<Call>, count: nat)
    requires
        count <= calls.len(),
    ensures
        products_of(calls.take(count as int)) == products_up_to(calls, count),
    decreases count,
{
    if count > 0 {
        lemma_products_next(calls, (count - 1) as nat);
        assert(calls.take(count as int).drop_last() =~= calls.take(count - 1));
    }
}

proof fn lemma_groups_next(steps: Seq<RowStep>, count: nat)
    requires
        count <= steps.len(),
    ensures
        product_groups_of(steps.take(count as int)) == groups_up_to(steps, count),
    decreases count,
{
    if count > 0 {
        lemma_groups_next(steps, (count - 1) as nat);
        assert(steps.take(count as int).drop_last() =~= steps.take(count - 1));
    }
}

} // verus!
