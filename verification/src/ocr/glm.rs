//! GLM OCR model description: repository, dimensions, the weight tensors the
//! checkpoint must hold, configuration checks, image sizing arithmetic, and
//! the rotary position ids of a prompt with one image.
use vstd::prelude::*;
use vstd::string::*;

verus! {

/// GLM OCR checkpoint variant.
#[derive(Clone, Copy, PartialEq, Eq, Debug)]
pub enum GlmOcrVariant {
    /// Official checkpoint published for ONNX community tooling.
    OnnxCommunity,
}

impl GlmOcrVariant {
    /// Model repository of the variant.
    pub fn repo_id(self) -> (id: &'static str)
        ensures
            id@ == "zai-org/GLM-OCR"@,
    {
        match self {
            GlmOcrVariant::OnnxCommunity => "zai-org/GLM-OCR",
        }
    }

    /// Pinned repository revision of the variant.
    pub fn revision(self) -> (revision: &'static str)
        ensures
            revision@ == "ca5d8b3e287e52589e37c28385d9655ee4372f9d"@,
    {
        match self {
            GlmOcrVariant::OnnxCommunity => "ca5d8b3e287e52589e37c28385d9655ee4372f9d",
        }
    }
}

/// Vision encoder dimensions.
#[derive(Clone, Copy, PartialEq, Eq, Debug)]
pub struct GlmOcrVisionDims {
    pub layers: usize,
    pub hidden_size: usize,
    pub intermediate_size: usize,
    pub heads: usize,
    pub temporal_patch_size: usize,
    pub channels: usize,
    pub patch_size: usize,
    pub merge_size: usize,
    pub output_hidden_size: usize,
}

/// Text decoder dimensions.
#[derive(Clone, Copy, PartialEq, Eq, Debug)]
pub struct GlmOcrTextDims {
    pub layers: usize,
    pub vocab_size: usize,
    pub hidden_size: usize,
    pub intermediate_size: usize,
    pub heads: usize,
    pub kv_heads: usize,
    pub head_dim: usize,
    pub attention_q_size: usize,
    pub attention_kv_size: usize,
}

/// Vision encoder dimensions of the official checkpoint.
pub open spec fn vision_dims() -> GlmOcrVisionDims {
    GlmOcrVisionDims {
        layers: 24,
        hidden_size: 1024,
        intermediate_size: 4096,
        heads: 16,
        temporal_patch_size: 2,
        channels: 3,
        patch_size: 14,
        merge_size: 2,
        output_hidden_size: 1536,
    }
}

/// Text decoder dimensions of the official checkpoint.
pub open spec fn text_dims() -> GlmOcrTextDims {
    GlmOcrTextDims {
        layers: 16,
        vocab_size: 59_392,
        hidden_size: 1_536,
        intermediate_size: 4_608,
        heads: 16,
        kv_heads: 8,
        head_dim: 128,
        attention_q_size: 2_048,
        attention_kv_size: 1_024,
    }
}

/// Vision encoder dimensions of the official checkpoint.
pub fn glm_ocr_vision_dims() -> (dims: GlmOcrVisionDims)
    ensures
        dims == vision_dims(),
{
    GlmOcrVisionDims {
        layers: 24,
        hidden_size: 1024,
        intermediate_size: 4096,
        heads: 16,
        temporal_patch_size: 2,
        channels: 3,
        patch_size: 14,
        merge_size: 2,
        output_hidden_size: 1536,
    }
}

/// Text decoder dimensions of the official checkpoint.
pub fn glm_ocr_text_dims() -> (dims: GlmOcrTextDims)
    ensures
        dims == text_dims(),
{
    GlmOcrTextDims {
        layers: 16,
        vocab_size: 59_392,
        hidden_size: 1_536,
        intermediate_size: 4_608,
        heads: 16,
        kv_heads: 8,
        head_dim: 128,
        attention_q_size: 2_048,
        attention_kv_size: 1_024,
    }
}

impl GlmOcrVisionDims {
    /// Values in one flattened image patch.
    pub fn patch_width(self) -> (width: usize)
        requires
            self.channels * self.temporal_patch_size <= usize::MAX,
            self.channels * self.temporal_patch_size * self.patch_size <= usize::MAX,
            self.channels * self.temporal_patch_size * self.patch_size * self.patch_size
                <= usize::MAX,
        ensures
            width == self.channels * self.temporal_patch_size * self.patch_size * self.patch_size,
    {
        self.channels * self.temporal_patch_size * self.patch_size * self.patch_size
    }
}

/// Character of a decimal digit.
pub open spec fn digit_char(d: int) -> char {
    if d == 0 {
        '0'
    } else if d == 1 {
        '1'
    } else if d == 2 {
        '2'
    } else if d == 3 {
        '3'
    } else if d == 4 {
        '4'
    } else if d == 5 {
        '5'
    } else if d == 6 {
        '6'
    } else if d == 7 {
        '7'
    } else if d == 8 {
        '8'
    } else {
        '9'
    }
}

/// Decimal digits of a natural number.
pub open spec fn decimal(n: nat) -> Seq<char>
    decreases n,
{
    if n < 10 {
        seq![digit_char(n as int)]
    } else {
        decimal(n / 10).push(digit_char((n % 10) as int))
    }
}

/// The digit of a number below ten, as a string.
fn digit_str(d: usize) -> (s: &'static str)
    requires
        d < 10,
    ensures
        s@ == seq![digit_char(d as int)],
{
    if d == 0 {
        proof {
            reveal_strlit("0");
        }
        "0"
    } else if d == 1 {
        proof {
            reveal_strlit("1");
        }
        "1"
    } else if d == 2 {
        proof {
            reveal_strlit("2");
        }
        "2"
    } else if d == 3 {
        proof {
            reveal_strlit("3");
        }
        "3"
    } else if d == 4 {
        proof {
            reveal_strlit("4");
        }
        "4"
    } else if d == 5 {
        proof {
            reveal_strlit("5");
        }
        "5"
    } else if d == 6 {
        proof {
            reveal_strlit("6");
        }
        "6"
    } else if d == 7 {
        proof {
            reveal_strlit("7");
        }
        "7"
    } else if d == 8 {
        proof {
            reveal_strlit("8");
        }
        "8"
    } else {
        proof {
            reveal_strlit("9");
        }
        "9"
    }
}

/// Decimal representation of a number.
pub fn decimal_string(n: usize) -> (s: String)
    ensures
        s@ == decimal(n as nat),
    decreases n,
{
    if n < 10 {
        return digit_str(n).to_owned();
    }
    let mut s = decimal_string(n / 10);
    s.append(digit_str(n % 10));
    s
}

/// A string followed by a suffix.
fn suffixed(prefix: &str, suffix: &str) -> (s: String)
    ensures
        s@ == prefix@ + suffix@,
{
    let mut s = prefix.to_owned();
    s.append(suffix);
    s
}

/// Names and shapes viewed as characters and dimensions.
pub open spec fn shapes_view(shapes: Seq<(String, Vec<usize>)>) -> Seq<(Seq<char>, Seq<usize>)> {
    shapes.map_values(|s: (String, Vec<usize>)| (s.0@, s.1@))
}

/// Weight shapes of one vision block.
pub open spec fn vision_block_shapes(layer: nat) -> Seq<(Seq<char>, Seq<usize>)> {
    let d = vision_dims();
    let p = "model.visual.blocks."@ + decimal(layer);
    seq![
        (p + ".norm1.weight"@, seq![d.hidden_size]),
        (p + ".norm2.weight"@, seq![d.hidden_size]),
        (p + ".attn.q_norm.weight"@, seq![(d.hidden_size / d.heads) as usize]),
        (p + ".attn.k_norm.weight"@, seq![(d.hidden_size / d.heads) as usize]),
        (p + ".attn.qkv.weight"@, seq![(d.hidden_size * 3) as usize, d.hidden_size]),
        (p + ".attn.qkv.bias"@, seq![(d.hidden_size * 3) as usize]),
        (p + ".attn.proj.weight"@, seq![d.hidden_size, d.hidden_size]),
        (p + ".attn.proj.bias"@, seq![d.hidden_size]),
        (p + ".mlp.gate_proj.weight"@, seq![d.intermediate_size, d.hidden_size]),
        (p + ".mlp.gate_proj.bias"@, seq![d.intermediate_size]),
        (p + ".mlp.up_proj.weight"@, seq![d.intermediate_size, d.hidden_size]),
        (p + ".mlp.up_proj.bias"@, seq![d.intermediate_size]),
        (p + ".mlp.down_proj.weight"@, seq![d.hidden_size, d.intermediate_size]),
        (p + ".mlp.down_proj.bias"@, seq![d.hidden_size]),
    ]
}

/// Weight shapes of one text decoder layer.
pub open spec fn text_layer_shapes(layer: nat) -> Seq<(Seq<char>, Seq<usize>)> {
    let d = text_dims();
    let p = "model.language_model.layers."@ + decimal(layer);
    seq![
        (p + ".input_layernorm.weight"@, seq![d.hidden_size]),
        (p + ".post_attention_layernorm.weight"@, seq![d.hidden_size]),
        (p + ".post_self_attn_layernorm.weight"@, seq![d.hidden_size]),
        (p + ".post_mlp_layernorm.weight"@, seq![d.hidden_size]),
        (p + ".self_attn.q_proj.weight"@, seq![d.attention_q_size, d.hidden_size]),
        (p + ".self_attn.k_proj.weight"@, seq![d.attention_kv_size, d.hidden_size]),
        (p + ".self_attn.v_proj.weight"@, seq![d.attention_kv_size, d.hidden_size]),
        (p + ".self_attn.o_proj.weight"@, seq![d.hidden_size, d.attention_q_size]),
        (p + ".mlp.gate_up_proj.weight"@, seq![(d.intermediate_size * 2) as usize, d.hidden_size]),
        (p + ".mlp.down_proj.weight"@, seq![d.hidden_size, d.intermediate_size]),
    ]
}

/// Weight shapes of the model outside its repeated blocks.
pub open spec fn base_weight_shapes() -> Seq<(Seq<char>, Seq<usize>)> {
    let v = vision_dims();
    let t = text_dims();
    seq![
        ("model.visual.patch_embed.proj.weight"@, seq![v.hidden_size, v.channels, v.temporal_patch_size, v.patch_size, v.patch_size]),
        ("model.visual.patch_embed.proj.bias"@, seq![v.hidden_size]),
        ("model.visual.post_layernorm.weight"@, seq![v.hidden_size]),
        ("model.visual.downsample.weight"@, seq![v.output_hidden_size, v.hidden_size, v.merge_size, v.merge_size]),
        ("model.visual.downsample.bias"@, seq![v.output_hidden_size]),
        ("model.visual.merger.proj.weight"@, seq![v.output_hidden_size, v.output_hidden_size]),
        ("model.visual.merger.post_projection_norm.weight"@, seq![v.output_hidden_size]),
        ("model.visual.merger.post_projection_norm.bias"@, seq![v.output_hidden_size]),
        ("model.visual.merger.gate_proj.weight"@, seq![(v.output_hidden_size * 3) as usize, v.output_hidden_size]),
        ("model.visual.merger.up_proj.weight"@, seq![(v.output_hidden_size * 3) as usize, v.output_hidden_size]),
        ("model.visual.merger.down_proj.weight"@, seq![v.output_hidden_size, (v.output_hidden_size * 3) as usize]),
        ("model.language_model.embed_tokens.weight"@, seq![t.vocab_size, t.hidden_size]),
        ("model.language_model.norm.weight"@, seq![t.hidden_size]),
        ("lm_head.weight"@, seq![t.vocab_size, t.hidden_size]),
    ]
}

/// Weight shapes of the first `k` vision blocks.
pub open spec fn vision_shapes_upto(k: nat) -> Seq<(Seq<char>, Seq<usize>)>
    decreases k,
{
    if k == 0 {
        seq![]
    } else {
        vision_shapes_upto((k - 1) as nat) + vision_block_shapes((k - 1) as nat)
    }
}

/// Weight shapes of the first `k` text layers.
pub open spec fn text_shapes_upto(k: nat) -> Seq<(Seq<char>, Seq<usize>)>
    decreases k,
{
    if k == 0 {
        seq![]
    } else {
        text_shapes_upto((k - 1) as nat) + text_layer_shapes((k - 1) as nat)
    }
}

/// Every weight tensor the checkpoint must hold, with its shape: the base
/// tensors, then each vision block's, then each text layer's.
pub open spec fn required_shapes() -> Seq<(Seq<char>, Seq<usize>)> {
    base_weight_shapes() + vision_shapes_upto(vision_dims().layers as nat) + text_shapes_upto(
        text_dims().layers as nat,
    )
}

/// Weight shapes of one vision block.
pub fn vision_block_weight_shapes(layer: usize) -> (shapes: Vec<(String, Vec<usize>)>)
    ensures
        shapes_view(shapes@) == vision_block_shapes(layer as nat),
{
    let dims = glm_ocr_vision_dims();
    let mut prefix = "model.visual.blocks.".to_owned();
    let number = decimal_string(layer);
    prefix.append(number.as_str());
    let p = prefix.as_str();
    let shapes = vec![
        (suffixed(p, ".norm1.weight"), vec![dims.hidden_size]),
        (suffixed(p, ".norm2.weight"), vec![dims.hidden_size]),
        (suffixed(p, ".attn.q_norm.weight"), vec![dims.hidden_size / dims.heads]),
        (suffixed(p, ".attn.k_norm.weight"), vec![dims.hidden_size / dims.heads]),
        (suffixed(p, ".attn.qkv.weight"), vec![dims.hidden_size * 3, dims.hidden_size]),
        (suffixed(p, ".attn.qkv.bias"), vec![dims.hidden_size * 3]),
        (suffixed(p, ".attn.proj.weight"), vec![dims.hidden_size, dims.hidden_size]),
        (suffixed(p, ".attn.proj.bias"), vec![dims.hidden_size]),
        (suffixed(p, ".mlp.gate_proj.weight"), vec![dims.intermediate_size, dims.hidden_size]),
        (suffixed(p, ".mlp.gate_proj.bias"), vec![dims.intermediate_size]),
        (suffixed(p, ".mlp.up_proj.weight"), vec![dims.intermediate_size, dims.hidden_size]),
        (suffixed(p, ".mlp.up_proj.bias"), vec![dims.intermediate_size]),
        (suffixed(p, ".mlp.down_proj.weight"), vec![dims.hidden_size, dims.intermediate_size]),
        (suffixed(p, ".mlp.down_proj.bias"), vec![dims.hidden_size]),
    ];
    assert(shapes_view(shapes@)[0] == vision_block_shapes(layer as nat)[0]);
    assert(shapes_view(shapes@)[1] == vision_block_shapes(layer as nat)[1]);
    assert(shapes_view(shapes@)[2] == vision_block_shapes(layer as nat)[2]);
    assert(shapes_view(shapes@)[3] == vision_block_shapes(layer as nat)[3]);
    assert(shapes_view(shapes@)[4] == vision_block_shapes(layer as nat)[4]);
    assert(shapes_view(shapes@)[5] == vision_block_shapes(layer as nat)[5]);
    assert(shapes_view(shapes@)[6] == vision_block_shapes(layer as nat)[6]);
    assert(shapes_view(shapes@)[7] == vision_block_shapes(layer as nat)[7]);
    assert(shapes_view(shapes@)[8] == vision_block_shapes(layer as nat)[8]);
    assert(shapes_view(shapes@)[9] == vision_block_shapes(layer as nat)[9]);
    assert(shapes_view(shapes@)[10] == vision_block_shapes(layer as nat)[10]);
    assert(shapes_view(shapes@)[11] == vision_block_shapes(layer as nat)[11]);
    assert(shapes_view(shapes@)[12] == vision_block_shapes(layer as nat)[12]);
    assert(shapes_view(shapes@)[13] == vision_block_shapes(layer as nat)[13]);
    assert(shapes_view(shapes@) =~= vision_block_shapes(layer as nat));
    shapes
}

/// Weight shapes of one text decoder layer.
pub fn text_layer_weight_shapes(layer: usize) -> (shapes: Vec<(String, Vec<usize>)>)
    ensures
        shapes_view(shapes@) == text_layer_shapes(layer as nat),
{
    let dims = glm_ocr_text_dims();
    let mut prefix = "model.language_model.layers.".to_owned();
    let number = decimal_string(layer);
    prefix.append(number.as_str());
    let p = prefix.as_str();
    let shapes = vec![
        (suffixed(p, ".input_layernorm.weight"), vec![dims.hidden_size]),
        (suffixed(p, ".post_attention_layernorm.weight"), vec![dims.hidden_size]),
        (suffixed(p, ".post_self_attn_layernorm.weight"), vec![dims.hidden_size]),
        (suffixed(p, ".post_mlp_layernorm.weight"), vec![dims.hidden_size]),
        (suffixed(p, ".self_attn.q_proj.weight"), vec![dims.attention_q_size, dims.hidden_size]),
        (suffixed(p, ".self_attn.k_proj.weight"), vec![dims.attention_kv_size, dims.hidden_size]),
        (suffixed(p, ".self_attn.v_proj.weight"), vec![dims.attention_kv_size, dims.hidden_size]),
        (suffixed(p, ".self_attn.o_proj.weight"), vec![dims.hidden_size, dims.attention_q_size]),
        (suffixed(p, ".mlp.gate_up_proj.weight"), vec![dims.intermediate_size * 2, dims.hidden_size]),
        (suffixed(p, ".mlp.down_proj.weight"), vec![dims.hidden_size, dims.intermediate_size]),
    ];
    assert(shapes_view(shapes@)[0] == text_layer_shapes(layer as nat)[0]);
    assert(shapes_view(shapes@)[1] == text_layer_shapes(layer as nat)[1]);
    assert(shapes_view(shapes@)[2] == text_layer_shapes(layer as nat)[2]);
    assert(shapes_view(shapes@)[3] == text_layer_shapes(layer as nat)[3]);
    assert(shapes_view(shapes@)[4] == text_layer_shapes(layer as nat)[4]);
    assert(shapes_view(shapes@)[5] == text_layer_shapes(layer as nat)[5]);
    assert(shapes_view(shapes@)[6] == text_layer_shapes(layer as nat)[6]);
    assert(shapes_view(shapes@)[7] == text_layer_shapes(layer as nat)[7]);
    assert(shapes_view(shapes@)[8] == text_layer_shapes(layer as nat)[8]);
    assert(shapes_view(shapes@)[9] == text_layer_shapes(layer as nat)[9]);
    assert(shapes_view(shapes@) =~= text_layer_shapes(layer as nat));
    shapes
}

/// Every weight tensor the checkpoint must hold, with its shape.
pub fn required_weight_shapes() -> (shapes: Vec<(String, Vec<usize>)>)
    ensures
        shapes_view(shapes@) == required_shapes(),
{
    let vision = glm_ocr_vision_dims();
    let text = glm_ocr_text_dims();
    let mut shapes = vec![
        ("model.visual.patch_embed.proj.weight".to_owned(), vec![vision.hidden_size, vision.channels, vision.temporal_patch_size, vision.patch_size, vision.patch_size]),
        ("model.visual.patch_embed.proj.bias".to_owned(), vec![vision.hidden_size]),
        ("model.visual.post_layernorm.weight".to_owned(), vec![vision.hidden_size]),
        ("model.visual.downsample.weight".to_owned(), vec![vision.output_hidden_size, vision.hidden_size, vision.merge_size, vision.merge_size]),
        ("model.visual.downsample.bias".to_owned(), vec![vision.output_hidden_size]),
        ("model.visual.merger.proj.weight".to_owned(), vec![vision.output_hidden_size, vision.output_hidden_size]),
        ("model.visual.merger.post_projection_norm.weight".to_owned(), vec![vision.output_hidden_size]),
        ("model.visual.merger.post_projection_norm.bias".to_owned(), vec![vision.output_hidden_size]),
        ("model.visual.merger.gate_proj.weight".to_owned(), vec![vision.output_hidden_size * 3, vision.output_hidden_size]),
        ("model.visual.merger.up_proj.weight".to_owned(), vec![vision.output_hidden_size * 3, vision.output_hidden_size]),
        ("model.visual.merger.down_proj.weight".to_owned(), vec![vision.output_hidden_size, vision.output_hidden_size * 3]),
        ("model.language_model.embed_tokens.weight".to_owned(), vec![text.vocab_size, text.hidden_size]),
        ("model.language_model.norm.weight".to_owned(), vec![text.hidden_size]),
        ("lm_head.weight".to_owned(), vec![text.vocab_size, text.hidden_size]),
    ];
    assert(shapes_view(shapes@)[0] == base_weight_shapes()[0]);
    assert(shapes_view(shapes@)[1] == base_weight_shapes()[1]);
    assert(shapes_view(shapes@)[2] == base_weight_shapes()[2]);
    assert(shapes_view(shapes@)[3] == base_weight_shapes()[3]);
    assert(shapes_view(shapes@)[4] == base_weight_shapes()[4]);
    assert(shapes_view(shapes@)[5] == base_weight_shapes()[5]);
    assert(shapes_view(shapes@)[6] == base_weight_shapes()[6]);
    assert(shapes_view(shapes@)[7] == base_weight_shapes()[7]);
    assert(shapes_view(shapes@)[8] == base_weight_shapes()[8]);
    assert(shapes_view(shapes@)[9] == base_weight_shapes()[9]);
    assert(shapes_view(shapes@)[10] == base_weight_shapes()[10]);
    assert(shapes_view(shapes@)[11] == base_weight_shapes()[11]);
    assert(shapes_view(shapes@)[12] == base_weight_shapes()[12]);
    assert(shapes_view(shapes@)[13] == base_weight_shapes()[13]);
    assert(shapes_view(shapes@) =~= base_weight_shapes());
    let mut layer: usize = 0;
    while layer < vision.layers
        invariant
            vision == vision_dims(),
            layer <= vision.layers,
            shapes_view(shapes@) == base_weight_shapes() + vision_shapes_upto(layer as nat),
        decreases vision.layers - layer,
    {
        let mut block = vision_block_weight_shapes(layer);
        let ghost before = shapes@;
        let ghost added = block@;
        shapes.append(&mut block);
        assert(shapes_view(shapes@) =~= shapes_view(before) + shapes_view(added));
        assert(base_weight_shapes() + vision_shapes_upto(layer as nat + 1) =~= base_weight_shapes()
            + vision_shapes_upto(layer as nat) + vision_block_shapes(layer as nat));
        layer = layer + 1;
    }
    let mut layer: usize = 0;
    while layer < text.layers
        invariant
            vision == vision_dims(),
            text == text_dims(),
            layer <= text.layers,
            shapes_view(shapes@) == base_weight_shapes() + vision_shapes_upto(vision.layers as nat)
                + text_shapes_upto(layer as nat),
        decreases text.layers - layer,
    {
        let mut block = text_layer_weight_shapes(layer);
        let ghost before = shapes@;
        let ghost added = block@;
        shapes.append(&mut block);
        assert(shapes_view(shapes@) =~= shapes_view(before) + shapes_view(added));
        assert(base_weight_shapes() + vision_shapes_upto(vision.layers as nat) + text_shapes_upto(
            layer as nat + 1,
        ) =~= base_weight_shapes() + vision_shapes_upto(vision.layers as nat) + text_shapes_upto(
            layer as nat,
        ) + text_layer_shapes(layer as nat));
        layer = layer + 1;
    }
    shapes
}


/// A quotient times its divisor does not exceed the dividend.
proof fn lemma_div_mul_le(x: int, d: int)
    requires
        x >= 0,
        d > 0,
    ensures
        0 <= (x / d) * d <= x,
{
    vstd::arithmetic::div_mod::lemma_fundamental_div_mod(x, d);
    vstd::arithmetic::div_mod::lemma_mod_bound(x, d);
    vstd::arithmetic::div_mod::lemma_div_pos_is_pos(x, d);
    vstd::arithmetic::mul::lemma_mul_is_commutative(x / d, d);
    vstd::arithmetic::mul::lemma_mul_nonnegative(x / d, d);
}

/// Ceiling division through the floor of the shifted dividend.
proof fn lemma_ceil_div(v: int, f: int)
    requires
        v >= 0,
        f > 0,
    ensures
        (v + f - 1) / f == v / f + if v % f == 0 {
            0int
        } else {
            1int
        },
        f > 1 ==> v / f <= v / 2,
{
    vstd::arithmetic::div_mod::lemma_fundamental_div_mod(v, f);
    vstd::arithmetic::div_mod::lemma_mod_bound(v, f);
    let q = v / f;
    let m = v % f;
    vstd::arithmetic::mul::lemma_mul_is_commutative(q, f);
    if m == 0 {
        assert(v + f - 1 == q * f + (f - 1));
        vstd::arithmetic::div_mod::lemma_fundamental_div_mod_converse(v + f - 1, f, q, f - 1);
    } else {
        vstd::arithmetic::mul::lemma_mul_is_distributive_add_other_way(f, q, 1);
        assert(v + f - 1 == (q + 1) * f + (m - 1));
        vstd::arithmetic::div_mod::lemma_fundamental_div_mod_converse(v + f - 1, f, q + 1, m - 1);
    }
    lemma_div_mul_le(v, f);
    vstd::arithmetic::div_mod::lemma_div_pos_is_pos(v, f);
    if f > 1 {
        vstd::arithmetic::div_mod::lemma_div_is_ordered_by_denominator(v, 2, f);
    }
}

/// Rounds a value to the nearest multiple of a factor, halves rounding up.
pub fn round_to_factor(value: u32, factor: u32) -> (rounded: u32)
    requires
        factor > 0,
        value + factor / 2 <= u32::MAX,
    ensures
        rounded == ((value + factor / 2) / (factor as int)) * factor,
{
    let shifted = value + factor / 2;
    proof {
        lemma_div_mul_le(shifted as int, factor as int);
    }
    (shifted / factor) * factor
}

/// Rounds a value up to a multiple of a factor.
pub fn ceil_to_factor(value: u32, factor: u32) -> (rounded: u32)
    requires
        factor > 0,
        (value + factor - 1) / (factor as int) * factor <= u32::MAX,
    ensures
        rounded == (value + factor - 1) / (factor as int) * factor,
{
    proof {
        lemma_ceil_div(value as int, factor as int);
        if factor == 1 {
            vstd::arithmetic::div_mod::lemma_fundamental_div_mod(value as int, 1);
            vstd::arithmetic::div_mod::lemma_mod_bound(value as int, 1);
        }
    }
    let quotient = value / factor + if value % factor == 0 {
        0
    } else {
        1
    };
    quotient * factor
}

/// Rounds a value down to a multiple of a factor.
pub fn floor_to_factor(value: u32, factor: u32) -> (rounded: u32)
    requires
        factor > 0,
    ensures
        rounded == (value / factor) * factor,
{
    proof {
        lemma_div_mul_le(value as int, factor as int);
    }
    (value / factor) * factor
}

/// Largest value of a sequence, `None` when it is empty.
pub open spec fn seq_max(s: Seq<i64>) -> Option<i64>
    decreases s.len(),
{
    if s.len() == 0 {
        None
    } else {
        match seq_max(s.drop_last()) {
            None => Some(s.last()),
            Some(m) => Some(
                if s.last() > m {
                    s.last()
                } else {
                    m
                },
            ),
        }
    }
}

/// Next decode position after a prompt: one past the largest position id of
/// any axis, or one when there are none.
pub fn next_decode_position(position_ids: &[Vec<i64>; 3]) -> (next: i64)
    requires
        forall|a: int, i: int|
            0 <= a < 3 && 0 <= i < position_ids@[a]@.len() ==> position_ids@[a]@[i] < i64::MAX,
    ensures
        next == match seq_max(position_ids@[0]@ + position_ids@[1]@ + position_ids@[2]@) {
            Some(m) => m + 1,
            None => 1,
        },
{
    let mut best: Option<i64> = None;
    let ghost mut seen: Seq<i64> = seq![];
    let mut a: usize = 0;
    while a < 3
        invariant
            a <= 3,
            best == seq_max(seen),
            a == 0 ==> seen == Seq::<i64>::empty(),
            a == 1 ==> seen == position_ids@[0]@,
            a == 2 ==> seen == position_ids@[0]@ + position_ids@[1]@,
            a == 3 ==> seen == position_ids@[0]@ + position_ids@[1]@ + position_ids@[2]@,
            forall|k: int| 0 <= k < seen.len() ==> seen[k] < i64::MAX,
            forall|b: int, i: int|
                0 <= b < 3 && 0 <= i < position_ids@[b]@.len() ==> position_ids@[b]@[i] < i64::MAX,
        decreases 3 - a,
    {
        let axis = &position_ids[a];
        let ghost start = seen;
        let mut i: usize = 0;
        while i < axis.len()
            invariant
                a < 3,
                i <= axis@.len(),
                axis@ == position_ids@[a as int]@,
                seen == start + axis@.subrange(0, i as int),
                best == seq_max(seen),
                forall|k: int| 0 <= k < start.len() ==> start[k] < i64::MAX,
                forall|b: int, j: int|
                    0 <= b < 3 && 0 <= j < position_ids@[b]@.len() ==> position_ids@[b]@[j]
                        < i64::MAX,
            decreases axis@.len() - i,
        {
            let v = axis[i];
            let ghost before = seen;
            proof {
                seen = seen.push(v);
                assert(seen.drop_last() =~= before);
                assert(start + axis@.subrange(0, i as int + 1) =~= seen);
            }
            best = match best {
                None => Some(v),
                Some(m) => if v > m {
                    Some(v)
                } else {
                    Some(m)
                },
            };
            i = i + 1;
        }
        assert(axis@.subrange(0, i as int) =~= axis@);
        a = a + 1;
    }
    proof {
        lemma_seq_max_member(seen);
    }
    match best {
        Some(m) => m + 1,
        None => 1,
    }
}

/// The largest value of a non-empty sequence is one of its values.
proof fn lemma_seq_max_member(s: Seq<i64>)
    ensures
        seq_max(s) matches Some(m) ==> s.contains(m),
    decreases s.len(),
{
    if s.len() > 0 {
        lemma_seq_max_member(s.drop_last());
        if let Some(m) = seq_max(s.drop_last()) {
            if s.last() <= m {
                let k = choose|k: int| 0 <= k < s.drop_last().len() && s.drop_last()[k] == m;
                assert(s[k] == m);
            }
        }
        assert(s[s.len() - 1] == s.last());
    }
}


/// Text decoder section of the model configuration.
pub struct TextConfig {
    pub eos_token_id: Vec<u32>,
    pub pad_token_id: u32,
    pub vocab_size: usize,
}

/// Vision encoder section of the model configuration.
pub struct VisionConfig {
    pub image_size: usize,
    pub patch_size: usize,
    pub spatial_merge_size: usize,
}

/// Model configuration fields the OCR pipeline reads.
pub struct GlmOcrConfig {
    pub image_start_token_id: u32,
    pub image_end_token_id: u32,
    pub image_token_id: u32,
    pub text_config: TextConfig,
    pub vision_config: VisionConfig,
}

/// Image size limits of the preprocessor.
pub struct ImageSize {
    pub shortest_edge: usize,
    pub longest_edge: usize,
}

/// Image preprocessor configuration. Its per-channel mean and standard
/// deviation, which are floating-point values, are read by the application.
pub struct PreprocessorConfig {
    pub size: ImageSize,
    pub patch_size: usize,
    pub temporal_patch_size: usize,
    pub merge_size: usize,
}

/// Ways a model configuration can disagree with itself or its preprocessor.
#[derive(Clone, Copy, PartialEq, Eq, Debug)]
pub enum GlmConfigError {
    /// Image start and end token ids are the same.
    BoundaryTokensEqual,
    /// The image token id equals a boundary token id.
    ImageTokenIsBoundary,
    /// No end-of-sequence token ids are configured.
    MissingEosTokens,
    /// The padding token id is not below the vocabulary size.
    PadTokenOutOfVocab,
    /// The vision image size is zero.
    ZeroImageSize,
    /// The model and preprocessor patch sizes differ.
    PatchSizeMismatch,
    /// The model and preprocessor merge sizes differ.
    MergeSizeMismatch,
}

/// First disagreement of a model configuration with itself or its
/// preprocessor, in the order the checks run, `None` when they agree.
pub open spec fn config_error(
    config: GlmOcrConfig,
    preprocessor: PreprocessorConfig,
) -> Option<GlmConfigError> {
    if config.image_start_token_id == config.image_end_token_id {
        Some(GlmConfigError::BoundaryTokensEqual)
    } else if config.image_token_id == config.image_start_token_id || config.image_token_id
        == config.image_end_token_id {
        Some(GlmConfigError::ImageTokenIsBoundary)
    } else if config.text_config.eos_token_id@.len() == 0 {
        Some(GlmConfigError::MissingEosTokens)
    } else if config.text_config.pad_token_id >= config.text_config.vocab_size as u32 {
        Some(GlmConfigError::PadTokenOutOfVocab)
    } else if config.vision_config.image_size == 0 {
        Some(GlmConfigError::ZeroImageSize)
    } else if config.vision_config.patch_size != preprocessor.patch_size {
        Some(GlmConfigError::PatchSizeMismatch)
    } else if config.vision_config.spatial_merge_size != preprocessor.merge_size {
        Some(GlmConfigError::MergeSizeMismatch)
    } else {
        None
    }
}

impl GlmConfigError {
    /// Message describing the disagreement.
    pub fn message(&self) -> (text: &'static str)
        ensures
            text@ == config_error_text(*self),
    {
        match self {
            GlmConfigError::BoundaryTokensEqual => "GLM OCR image start/end token ids must differ",
            GlmConfigError::ImageTokenIsBoundary =>
                "GLM OCR image token id must differ from boundary tokens",
            GlmConfigError::MissingEosTokens => "GLM OCR EOS token ids are missing",
            GlmConfigError::PadTokenOutOfVocab => "GLM OCR PAD token id exceeds vocab size",
            GlmConfigError::ZeroImageSize => "GLM OCR vision image size must be greater than zero",
            GlmConfigError::PatchSizeMismatch => "GLM OCR config/preprocessor patch sizes differ",
            GlmConfigError::MergeSizeMismatch => "GLM OCR config/preprocessor merge sizes differ",
        }
    }
}

/// Message of a configuration disagreement.
pub open spec fn config_error_text(error: GlmConfigError) -> Seq<char> {
    match error {
        GlmConfigError::BoundaryTokensEqual => "GLM OCR image start/end token ids must differ"@,
        GlmConfigError::ImageTokenIsBoundary =>
            "GLM OCR image token id must differ from boundary tokens"@,
        GlmConfigError::MissingEosTokens => "GLM OCR EOS token ids are missing"@,
        GlmConfigError::PadTokenOutOfVocab => "GLM OCR PAD token id exceeds vocab size"@,
        GlmConfigError::ZeroImageSize => "GLM OCR vision image size must be greater than zero"@,
        GlmConfigError::PatchSizeMismatch => "GLM OCR config/preprocessor patch sizes differ"@,
        GlmConfigError::MergeSizeMismatch => "GLM OCR config/preprocessor merge sizes differ"@,
    }
}

impl GlmOcrConfig {
    /// Checks the configuration against itself and its preprocessor.
    pub fn validate(&self, preprocessor: &PreprocessorConfig) -> (result: Result<(), GlmConfigError>)
        ensures
            match config_error(*self, *preprocessor) {
                Some(e) => result == Err::<(), GlmConfigError>(e),
                None => result is Ok,
            },
    {
        if self.image_start_token_id == self.image_end_token_id {
            return Err(GlmConfigError::BoundaryTokensEqual);
        }
        if self.image_token_id == self.image_start_token_id || self.image_token_id
            == self.image_end_token_id {
            return Err(GlmConfigError::ImageTokenIsBoundary);
        }
        if self.text_config.eos_token_id.len() == 0 {
            return Err(GlmConfigError::MissingEosTokens);
        }
        if self.text_config.pad_token_id >= #[verifier::truncate] (self.text_config.vocab_size as u32) {
            return Err(GlmConfigError::PadTokenOutOfVocab);
        }
        if self.vision_config.image_size == 0 {
            return Err(GlmConfigError::ZeroImageSize);
        }
        if self.vision_config.patch_size != preprocessor.patch_size {
            return Err(GlmConfigError::PatchSizeMismatch);
        }
        if self.vision_config.spatial_merge_size != preprocessor.merge_size {
            return Err(GlmConfigError::MergeSizeMismatch);
        }
        Ok(())
    }

    /// Configuration of the official checkpoint, for tests.
    pub fn for_test() -> (config: Self)
        ensures
            config.image_start_token_id == 59256,
            config.image_end_token_id == 59257,
            config.image_token_id == 59280,
            config.text_config.eos_token_id@ == seq![59246u32, 59253u32],
            config.text_config.pad_token_id == 59246,
            config.text_config.vocab_size == 59392,
            config.vision_config.image_size == 336,
            config.vision_config.patch_size == 14,
            config.vision_config.spatial_merge_size == 2,
    {
        GlmOcrConfig {
            image_start_token_id: 59256,
            image_end_token_id: 59257,
            image_token_id: 59280,
            text_config: TextConfig {
                eos_token_id: vec![59246, 59253],
                pad_token_id: 59246,
                vocab_size: 59392,
            },
            vision_config: VisionConfig { image_size: 336, patch_size: 14, spatial_merge_size: 2 },
        }
    }
}

impl PreprocessorConfig {
    /// Preprocessor configuration of the official checkpoint, for tests.
    pub fn for_test() -> (config: Self)
        ensures
            config.size.shortest_edge == 12_544,
            config.size.longest_edge == 9_633_792,
            config.patch_size == 14,
            config.temporal_patch_size == 2,
            config.merge_size == 2,
    {
        PreprocessorConfig {
            size: ImageSize { shortest_edge: 12_544, longest_edge: 9_633_792 },
            patch_size: 14,
            temporal_patch_size: 2,
            merge_size: 2,
        }
    }
}


/// Ways the rotary position ids of a single-image prompt cannot be built.
#[derive(Clone, Copy, PartialEq, Eq, Debug)]
pub enum PositionIdsError {
    /// The merge size does not fit in `i64`.
    MergeSizeTooLarge,
    /// The merge size or a grid dimension is not positive.
    NonPositiveGrid,
    /// The image token range ends past the sequence.
    RangeExceedsSequence,
    /// The grid height or width is not a multiple of the merge size.
    GridNotDivisible,
    /// The number of image tokens does not fit in `usize`.
    TokenCountTooLarge,
    /// The image token range does not hold one token per merged grid cell.
    TokenCountMismatch,
    /// The image token range starts past `i64::MAX`.
    StartTooLarge,
}

/// Length of a range, zero when it is empty or reversed.
pub open spec fn range_len(start: usize, end: usize) -> int {
    if start < end {
        end - start
    } else {
        0
    }
}

/// Largest of three integers.
pub open spec fn max3(a: int, b: int, c: int) -> int {
    let ab = if a >= b {
        a
    } else {
        b
    };
    if ab >= c {
        ab
    } else {
        c
    }
}

/// First reason, in the order the checks run, why position ids cannot be
/// built, `None` when they can.
pub open spec fn position_ids_error(
    sequence_length: usize,
    start: usize,
    end: usize,
    grid_thw: [i64; 3],
    merge_size: usize,
) -> Option<PositionIdsError> {
    let t = grid_thw@[0] as int;
    let h = grid_thw@[1] as int;
    let w = grid_thw@[2] as int;
    let m = merge_size as int;
    if m > i64::MAX {
        Some(PositionIdsError::MergeSizeTooLarge)
    } else if m == 0 || t <= 0 || h <= 0 || w <= 0 {
        Some(PositionIdsError::NonPositiveGrid)
    } else if end > sequence_length {
        Some(PositionIdsError::RangeExceedsSequence)
    } else if h % m != 0 || w % m != 0 {
        Some(PositionIdsError::GridNotDivisible)
    } else if t * (h / m) * (w / m) > usize::MAX {
        Some(PositionIdsError::TokenCountTooLarge)
    } else if range_len(start, end) != t * (h / m) * (w / m) {
        Some(PositionIdsError::TokenCountMismatch)
    } else if start > i64::MAX {
        Some(PositionIdsError::StartTooLarge)
    } else {
        None
    }
}

/// Position of an image token on an axis: the image start plus the token's
/// frame, row or column.
pub open spec fn image_axis_value(axis: int, start: int, ti: int, hi: int, wi: int) -> i64 {
    (start + if axis == 0 {
        ti
    } else if axis == 1 {
        hi
    } else {
        wi
    }) as i64
}

/// First `len` positions of row `hi` of frame `ti`.
pub open spec fn image_row(axis: int, start: int, ti: int, hi: int, len: int) -> Seq<i64> {
    Seq::new(len as nat, |wi: int| image_axis_value(axis, start, ti, hi, wi))
}

/// Positions of the first `k` rows of frame `ti`, each `w` tokens long.
pub open spec fn image_frame_upto(axis: int, start: int, ti: int, w: int, k: int) -> Seq<i64>
    decreases k,
{
    if k <= 0 {
        seq![]
    } else {
        image_frame_upto(axis, start, ti, w, k - 1) + image_row(axis, start, ti, k - 1, w)
    }
}

/// Positions of the first `k` frames, each `h` rows of `w` tokens.
pub open spec fn image_upto(axis: int, start: int, h: int, w: int, k: int) -> Seq<i64>
    decreases k,
{
    if k <= 0 {
        seq![]
    } else {
        image_upto(axis, start, h, w, k - 1) + image_frame_upto(axis, start, k - 1, w, h)
    }
}

/// Position ids of one axis: text before the image counts up from zero,
/// image tokens take the image start plus their frame, row or column, and
/// text after the image counts up from the image start plus the largest
/// merged grid dimension.
pub open spec fn axis_positions(
    axis: int,
    sequence_length: usize,
    start: usize,
    end: usize,
    grid_thw: [i64; 3],
    merge_size: usize,
) -> Seq<i64> {
    let t = grid_thw@[0] as int;
    let h = (grid_thw@[1] as int) / (merge_size as int);
    let w = (grid_thw@[2] as int) / (merge_size as int);
    Seq::new(start as nat, |i: int| i as i64) + image_upto(axis, start as int, h, w, t) + Seq::new(
        (sequence_length - end) as nat,
        |o: int| (start + max3(t, h, w) + o) as i64,
    )
}

/// Whether building the ids stays within `i64`: the token count and every
/// position fit.
pub open spec fn positions_fit(
    sequence_length: usize,
    start: usize,
    end: usize,
    grid_thw: [i64; 3],
    merge_size: usize,
) -> bool {
    let t = grid_thw@[0] as int;
    let h = grid_thw@[1] as int;
    let w = grid_thw@[2] as int;
    let m = merge_size as int;
    &&& (m <= i64::MAX && m > 0 && t > 0 && h > 0 && w > 0 && end <= sequence_length && h % m == 0
        && w % m == 0) ==> t * (h / m) <= i64::MAX && t * (h / m) * (w / m) <= i64::MAX
    &&& position_ids_error(sequence_length, start, end, grid_thw, merge_size) is None ==> {
        &&& start + max3(t, h / m, w / m) <= i64::MAX
        &&& start + max3(t, h / m, w / m) + (sequence_length - end) <= i64::MAX + 1
    }
}

/// Builds the three-axis rotary position ids of a prompt with one image.
pub fn build_single_image_position_ids(
    sequence_length: usize,
    image_token_range: core::ops::Range<usize>,
    grid_thw: [i64; 3],
    merge_size: usize,
) -> (result: Result<[Vec<i64>; 3], PositionIdsError>)
    requires
        positions_fit(
            sequence_length,
            image_token_range.start,
            image_token_range.end,
            grid_thw,
            merge_size,
        ),
    ensures
        match position_ids_error(
            sequence_length,
            image_token_range.start,
            image_token_range.end,
            grid_thw,
            merge_size,
        ) {
            Some(e) => result == Err::<[Vec<i64>; 3], PositionIdsError>(e),
            None => result matches Ok(ids) && forall|a: int|
                0 <= a < 3 ==> #[trigger] ids@[a]@ == axis_positions(
                    a,
                    sequence_length,
                    image_token_range.start,
                    image_token_range.end,
                    grid_thw,
                    merge_size,
                ),
        },
{
    let start = image_token_range.start;
    let end = image_token_range.end;
    if merge_size as u128 > 9_223_372_036_854_775_807u128 {
        return Err(PositionIdsError::MergeSizeTooLarge);
    }
    let m = merge_size as i64;
    let grid_t = grid_thw[0];
    let grid_h = grid_thw[1];
    let grid_w = grid_thw[2];
    if m == 0 || grid_t <= 0 || grid_h <= 0 || grid_w <= 0 {
        return Err(PositionIdsError::NonPositiveGrid);
    }
    if end > sequence_length {
        return Err(PositionIdsError::RangeExceedsSequence);
    }
    if grid_h % m != 0 || grid_w % m != 0 {
        return Err(PositionIdsError::GridNotDivisible);
    }
    let h = grid_h / m;
    let w = grid_w / m;
    proof {
        vstd::arithmetic::div_mod::lemma_div_pos_is_pos(grid_h as int, m as int);
        vstd::arithmetic::div_mod::lemma_div_pos_is_pos(grid_w as int, m as int);
        assert(grid_h as int == h * m) by {
            vstd::arithmetic::div_mod::lemma_fundamental_div_mod(grid_h as int, m as int);
            vstd::arithmetic::mul::lemma_mul_is_commutative(h as int, m as int);
        }
        assert(grid_w as int == w * m) by {
            vstd::arithmetic::div_mod::lemma_fundamental_div_mod(grid_w as int, m as int);
            vstd::arithmetic::mul::lemma_mul_is_commutative(w as int, m as int);
        }
        assert(h > 0) by (nonlinear_arith)
            requires
                grid_h as int == h * m,
                grid_h > 0,
                h >= 0,
                m > 0,
        ;
        assert(w > 0) by (nonlinear_arith)
            requires
                grid_w as int == w * m,
                grid_w > 0,
                w >= 0,
                m > 0,
        ;
    }
    let th = grid_t * h;
    let expected = th * w;
    proof {
        vstd::arithmetic::mul::lemma_mul_strictly_positive(grid_t as int, h as int);
        vstd::arithmetic::mul::lemma_mul_strictly_positive(th as int, w as int);
    }
    if expected as u64 > usize::MAX as u64 {
        return Err(PositionIdsError::TokenCountTooLarge);
    }
    let expected = expected as usize;
    let len = if start < end {
        end - start
    } else {
        0
    };
    if len != expected {
        return Err(PositionIdsError::TokenCountMismatch);
    }
    if start as u128 > 9_223_372_036_854_775_807u128 {
        return Err(PositionIdsError::StartTooLarge);
    }
    let image_start = start as i64;
    let ghost s = start as int;
    let mut p0: Vec<i64> = Vec::new();
    let mut p1: Vec<i64> = Vec::new();
    let mut p2: Vec<i64> = Vec::new();
    let mut index: usize = 0;
    while index < start
        invariant
            index <= start,
            start <= i64::MAX,
            p0@ == Seq::new(index as nat, |i: int| i as i64),
            p1@ == Seq::new(index as nat, |i: int| i as i64),
            p2@ == Seq::new(index as nat, |i: int| i as i64),
        decreases start - index,
    {
        let position = index as i64;
        p0.push(position);
        p1.push(position);
        p2.push(position);
        assert(p0@ =~= Seq::new(index as nat + 1, |i: int| i as i64));
        assert(p1@ =~= Seq::new(index as nat + 1, |i: int| i as i64));
        assert(p2@ =~= Seq::new(index as nat + 1, |i: int| i as i64));
        index = index + 1;
    }
    let ghost prefix = Seq::new(start as nat, |i: int| i as i64);
    let ghost hh = h as int;
    let ghost ww = w as int;
    let maxd = if grid_t >= h {
        grid_t
    } else {
        h
    };
    let maxd = if maxd >= w {
        maxd
    } else {
        w
    };
    assert(maxd == max3(grid_t as int, hh, ww));
    let mut temporal: i64 = 0;
    while temporal < grid_t
        invariant
            0 <= temporal <= grid_t,
            image_start == s,
            0 <= s,
            s + maxd <= i64::MAX,
            maxd == max3(grid_t as int, hh, ww),
            h == hh,
            w == ww,
            hh > 0,
            ww > 0,
            p0@ == prefix + image_upto(0, s, hh, ww, temporal as int),
            p1@ == prefix + image_upto(1, s, hh, ww, temporal as int),
            p2@ == prefix + image_upto(2, s, hh, ww, temporal as int),
        decreases grid_t - temporal,
    {
        let mut height: i64 = 0;
        while height < h
            invariant
                0 <= temporal < grid_t,
                0 <= height <= hh,
                image_start == s,
                0 <= s,
                s + maxd <= i64::MAX,
                maxd == max3(grid_t as int, hh, ww),
                h == hh,
                w == ww,
                ww > 0,
                p0@ == prefix + image_upto(0, s, hh, ww, temporal as int) + image_frame_upto(
                    0,
                    s,
                    temporal as int,
                    ww,
                    height as int,
                ),
                p1@ == prefix + image_upto(1, s, hh, ww, temporal as int) + image_frame_upto(
                    1,
                    s,
                    temporal as int,
                    ww,
                    height as int,
                ),
                p2@ == prefix + image_upto(2, s, hh, ww, temporal as int) + image_frame_upto(
                    2,
                    s,
                    temporal as int,
                    ww,
                    height as int,
                ),
            decreases hh - height,
        {
            let mut width: i64 = 0;
            while width < w
                invariant
                    0 <= temporal < grid_t,
                    0 <= height < hh,
                    0 <= width <= ww,
                    image_start == s,
                    0 <= s,
                    s + maxd <= i64::MAX,
                    maxd == max3(grid_t as int, hh, ww),
                    h == hh,
                    w == ww,
                    p0@ == prefix + image_upto(0, s, hh, ww, temporal as int) + image_frame_upto(
                        0,
                        s,
                        temporal as int,
                        ww,
                        height as int,
                    ) + image_row(0, s, temporal as int, height as int, width as int),
                    p1@ == prefix + image_upto(1, s, hh, ww, temporal as int) + image_frame_upto(
                        1,
                        s,
                        temporal as int,
                        ww,
                        height as int,
                    ) + image_row(1, s, temporal as int, height as int, width as int),
                    p2@ == prefix + image_upto(2, s, hh, ww, temporal as int) + image_frame_upto(
                        2,
                        s,
                        temporal as int,
                        ww,
                        height as int,
                    ) + image_row(2, s, temporal as int, height as int, width as int),
                decreases ww - width,
            {
                p0.push(image_start + temporal);
                p1.push(image_start + height);
                p2.push(image_start + width);
                proof {
                    assert(image_row(0, s, temporal as int, height as int, width + 1) =~= image_row(
                        0,
                        s,
                        temporal as int,
                        height as int,
                        width as int,
                    ).push(image_axis_value(0, s, temporal as int, height as int, width as int)));
                    assert(image_row(1, s, temporal as int, height as int, width + 1) =~= image_row(
                        1,
                        s,
                        temporal as int,
                        height as int,
                        width as int,
                    ).push(image_axis_value(1, s, temporal as int, height as int, width as int)));
                    assert(image_row(2, s, temporal as int, height as int, width + 1) =~= image_row(
                        2,
                        s,
                        temporal as int,
                        height as int,
                        width as int,
                    ).push(image_axis_value(2, s, temporal as int, height as int, width as int)));
                }
                width = width + 1;
            }
            height = height + 1;
        }
        temporal = temporal + 1;
    }
    let text_start = image_start + maxd;
    let rest = sequence_length - end;
    let ghost image0 = prefix + image_upto(0, s, hh, ww, grid_t as int);
    let ghost image1 = prefix + image_upto(1, s, hh, ww, grid_t as int);
    let ghost image2 = prefix + image_upto(2, s, hh, ww, grid_t as int);
    let mut offset: usize = 0;
    while offset < rest
        invariant
            offset <= rest,
            rest == sequence_length - end,
            text_start == s + maxd,
            0 <= s,
            maxd >= 1,
            s + maxd + rest <= i64::MAX + 1,
            p0@ == image0 + Seq::new(offset as nat, |o: int| (s + maxd + o) as i64),
            p1@ == image1 + Seq::new(offset as nat, |o: int| (s + maxd + o) as i64),
            p2@ == image2 + Seq::new(offset as nat, |o: int| (s + maxd + o) as i64),
        decreases rest - offset,
    {
        let position = text_start + offset as i64;
        p0.push(position);
        p1.push(position);
        p2.push(position);
        assert(Seq::new(offset as nat + 1, |o: int| (s + maxd + o) as i64) =~= Seq::new(
            offset as nat,
            |o: int| (s + maxd + o) as i64,
        ).push(position));
        offset = offset + 1;
    }
    let ids = [p0, p1, p2];
    assert forall|a: int| 0 <= a < 3 implies #[trigger] ids@[a]@ == axis_positions(
        a,
        sequence_length,
        start,
        end,
        grid_thw,
        merge_size,
    ) by {
        if a == 0 {
        } else if a == 1 {
        } else {
        }
    }
    Ok(ids)
}

/// Whether every position of `s` lies in `[lo, hi)`.
pub open spec fn positions_within(s: Seq<i64>, lo: int, hi: int) -> bool {
    forall|i: int| 0 <= i < s.len() ==> lo <= #[trigger] s[i] < hi
}

/// Joining two runs of positions that lie in a band keeps them in it.
proof fn lemma_within_join(a: Seq<i64>, b: Seq<i64>, lo: int, hi: int)
    requires
        positions_within(a, lo, hi),
        positions_within(b, lo, hi),
    ensures
        positions_within(a + b, lo, hi),
{
    assert forall|i: int| 0 <= i < (a + b).len() implies lo <= #[trigger] (a + b)[i] < hi by {
        if i < a.len() {
            assert((a + b)[i] == a[i]);
        } else {
            assert((a + b)[i] == b[i - a.len()]);
        }
    }
}

/// A row of image tokens of frame `ti < t`, row `hi < h`, at most `w` long,
/// holds positions from the image start up to, not including, the image start
/// plus the largest grid dimension.
proof fn lemma_row_within(axis: int, start: int, ti: int, hi: int, len: int, t: int, h: int, w: int)
    requires
        0 <= start,
        0 <= ti < t,
        0 <= hi < h,
        0 <= len <= w,
        start + max3(t, h, w) <= i64::MAX,
    ensures
        image_row(axis, start, ti, hi, len).len() == len,
        positions_within(image_row(axis, start, ti, hi, len), start, start + max3(t, h, w)),
{
    let row = image_row(axis, start, ti, hi, len);
    assert forall|i: int| 0 <= i < row.len() implies start <= #[trigger] row[i] < start + max3(
        t,
        h,
        w,
    ) by {
        assert(row[i] == image_axis_value(axis, start, ti, hi, i));
    }
}

/// The first `k <= h` rows of frame `ti < t` hold `k * w` positions in the band.
proof fn lemma_frame_within(axis: int, start: int, ti: int, k: int, t: int, h: int, w: int)
    requires
        0 <= start,
        0 <= ti < t,
        0 <= k <= h,
        0 <= w,
        start + max3(t, h, w) <= i64::MAX,
    ensures
        image_frame_upto(axis, start, ti, w, k).len() == k * w,
        positions_within(image_frame_upto(axis, start, ti, w, k), start, start + max3(t, h, w)),
    decreases k,
{
    if k > 0 {
        lemma_frame_within(axis, start, ti, k - 1, t, h, w);
        lemma_row_within(axis, start, ti, k - 1, w, t, h, w);
        lemma_within_join(
            image_frame_upto(axis, start, ti, w, k - 1),
            image_row(axis, start, ti, k - 1, w),
            start,
            start + max3(t, h, w),
        );
        assert((k - 1) * w + w == k * w) by (nonlinear_arith);
    }
}

/// The first `k <= t` frames hold `k * h * w` positions in the band.
proof fn lemma_image_within(axis: int, start: int, k: int, t: int, h: int, w: int)
    requires
        0 <= start,
        0 <= k <= t,
        0 <= h,
        0 <= w,
        start + max3(t, h, w) <= i64::MAX,
    ensures
        image_upto(axis, start, h, w, k).len() == k * h * w,
        positions_within(image_upto(axis, start, h, w, k), start, start + max3(t, h, w)),
    decreases k,
{
    if k > 0 {
        lemma_image_within(axis, start, k - 1, t, h, w);
        lemma_frame_within(axis, start, k - 1, h, t, h, w);
        lemma_within_join(
            image_upto(axis, start, h, w, k - 1),
            image_frame_upto(axis, start, k - 1, w, h),
            start,
            start + max3(t, h, w),
        );
        assert((k - 1) * h * w + h * w == k * h * w) by (nonlinear_arith);
    }
}

/// Token `r * w + wi` of the first `k` rows of frame `ti` is the token of row
/// `r`, column `wi`.
proof fn lemma_frame_token(axis: int, start: int, ti: int, w: int, k: int, r: int, wi: int)
    requires
        0 <= r < k,
        0 <= wi < w,
    ensures
        image_frame_upto(axis, start, ti, w, k).len() == k * w,
        image_frame_upto(axis, start, ti, w, k)[r * w + wi] == image_axis_value(
            axis,
            start,
            ti,
            r,
            wi,
        ),
    decreases k,
{
    let prev = image_frame_upto(axis, start, ti, w, k - 1);
    let row = image_row(axis, start, ti, k - 1, w);
    if k - 1 > 0 {
        lemma_frame_token(axis, start, ti, w, k - 1, 0, 0);
    }
    assert(prev.len() == (k - 1) * w);
    assert((k - 1) * w + w == k * w) by (nonlinear_arith);
    if r < k - 1 {
        lemma_frame_token(axis, start, ti, w, k - 1, r, wi);
        assert(r * w + wi < (k - 1) * w) by (nonlinear_arith)
            requires
                0 <= r < k - 1,
                0 <= wi < w,
        {
            assert(r * w + w <= (k - 1) * w);
        }
        assert((prev + row)[r * w + wi] == prev[r * w + wi]);
    } else {
        assert(r * w + wi - (k - 1) * w == wi) by (nonlinear_arith)
            requires
                r == k - 1,
        ;
        assert((prev + row)[r * w + wi] == row[wi]);
    }
}

/// Token `f * (h * w) + r * w + wi` of the first `k` frames is the token of
/// frame `f`, row `r`, column `wi`.
proof fn lemma_image_token(axis: int, start: int, h: int, w: int, k: int, f: int, r: int, wi: int)
    requires
        0 <= f < k,
        0 <= r < h,
        0 <= wi < w,
    ensures
        image_upto(axis, start, h, w, k).len() == k * (h * w),
        image_upto(axis, start, h, w, k)[f * (h * w) + r * w + wi] == image_axis_value(
            axis,
            start,
            f,
            r,
            wi,
        ),
    decreases k,
{
    let prev = image_upto(axis, start, h, w, k - 1);
    let frame = image_frame_upto(axis, start, k - 1, w, h);
    lemma_frame_token(axis, start, k - 1, w, h, r, wi);
    if k - 1 > 0 {
        lemma_image_token(axis, start, h, w, k - 1, 0, r, wi);
    }
    assert(prev.len() == (k - 1) * (h * w));
    assert((k - 1) * (h * w) + h * w == k * (h * w)) by (nonlinear_arith);
    assert(0 <= r * w + wi < h * w) by (nonlinear_arith)
        requires
            0 <= r < h,
            0 <= wi < w,
    ;
    if f < k - 1 {
        lemma_image_token(axis, start, h, w, k - 1, f, r, wi);
        assert(f * (h * w) + r * w + wi < (k - 1) * (h * w)) by (nonlinear_arith)
            requires
                0 <= f < k - 1,
                0 <= r * w + wi < h * w,
        {
            assert(f * (h * w) + h * w <= (k - 1) * (h * w));
        }
        assert((prev + frame)[f * (h * w) + r * w + wi] == prev[f * (h * w) + r * w + wi]);
    } else {
        assert(f * (h * w) + r * w + wi - (k - 1) * (h * w) == r * w + wi) by (nonlinear_arith)
            requires
                f == k - 1,
        ;
        assert((prev + frame)[f * (h * w) + r * w + wi] == frame[r * w + wi]);
    }
}

/// Image tokens are laid out frame by frame, row by row: the token at offset
/// `x` into the image range has frame `x / (h * w)`, row `(x % (h * w)) / w`
/// and column `x % w` of the merged grid, and its id on the frame, row or
/// column axis is the image start plus that frame, row or column.
pub proof fn lemma_image_token_positions(
    axis: int,
    sequence_length: usize,
    start: usize,
    end: usize,
    grid_thw: [i64; 3],
    merge_size: usize,
)
    requires
        0 <= axis < 3,
        position_ids_error(sequence_length, start, end, grid_thw, merge_size) is None,
        positions_fit(sequence_length, start, end, grid_thw, merge_size),
    ensures
        ({
            let p = axis_positions(axis, sequence_length, start, end, grid_thw, merge_size);
            let h = (grid_thw@[1] as int) / (merge_size as int);
            let w = (grid_thw@[2] as int) / (merge_size as int);
            forall|i: int|
                start <= i < end ==> #[trigger] p[i] == start + if axis == 0 {
                    (i - start) / (h * w)
                } else if axis == 1 {
                    ((i - start) % (h * w)) / w
                } else {
                    (i - start) % w
                }
        }),
{
    let m = merge_size as int;
    let t = grid_thw@[0] as int;
    let h = (grid_thw@[1] as int) / m;
    let w = (grid_thw@[2] as int) / m;
    let s = start as int;
    lemma_positions_follow_image(axis, sequence_length, start, end, grid_thw, merge_size);
    vstd::arithmetic::div_mod::lemma_fundamental_div_mod(grid_thw@[1] as int, m);
    vstd::arithmetic::div_mod::lemma_fundamental_div_mod(grid_thw@[2] as int, m);
    vstd::arithmetic::div_mod::lemma_div_pos_is_pos(grid_thw@[1] as int, m);
    vstd::arithmetic::div_mod::lemma_div_pos_is_pos(grid_thw@[2] as int, m);
    assert(h > 0) by {
        if h == 0 {
            assert(m * h == 0) by (nonlinear_arith)
                requires
                    h == 0,
            ;
        }
    }
    assert(w > 0) by {
        if w == 0 {
            assert(m * w == 0) by (nonlinear_arith)
                requires
                    w == 0,
            ;
        }
    }
    assert(t * h * w == t * (h * w)) by (nonlinear_arith);
    assert(t * (h * w) > 0) by {
        vstd::arithmetic::mul::lemma_mul_strictly_positive(h, w);
        vstd::arithmetic::mul::lemma_mul_strictly_positive(t, h * w);
    }
    let big = max3(t, h, w);
    lemma_image_within(axis, s, t, t, h, w);
    let prefix = Seq::new(start as nat, |i: int| i as i64);
    let image = image_upto(axis, s, h, w, t);
    let rest = Seq::new((sequence_length - end) as nat, |o: int| (s + big + o) as i64);
    let p = axis_positions(axis, sequence_length, start, end, grid_thw, merge_size);
    assert(p == prefix + image + rest);
    assert forall|i: int| start <= i < end implies #[trigger] p[i] == start + if axis == 0 {
        (i - start) / (h * w)
    } else if axis == 1 {
        ((i - start) % (h * w)) / w
    } else {
        (i - start) % w
    } by {
        let x = i - s;
        let hw = h * w;
        let f = x / hw;
        let rem = x % hw;
        let r = rem / w;
        let wi = rem % w;
        vstd::arithmetic::div_mod::lemma_fundamental_div_mod(x, hw);
        vstd::arithmetic::div_mod::lemma_fundamental_div_mod(rem, w);
        vstd::arithmetic::div_mod::lemma_mod_pos_bound(x, hw);
        vstd::arithmetic::div_mod::lemma_mod_pos_bound(rem, w);
        vstd::arithmetic::div_mod::lemma_div_pos_is_pos(x, hw);
        vstd::arithmetic::div_mod::lemma_div_pos_is_pos(rem, w);
        assert(x == f * hw + r * w + wi) by (nonlinear_arith)
            requires
                x == hw * f + rem,
                rem == w * r + wi,
        ;
        assert(r < h) by (nonlinear_arith)
            requires
                rem < hw,
                hw == h * w,
                rem == w * r + wi,
                0 <= wi,
                w > 0,
        ;
        assert(f < t) by (nonlinear_arith)
            requires
                x < t * hw,
                x == f * hw + r * w + wi,
                0 <= r * w + wi,
                hw > 0,
        ;
        assert(x < t * hw);
        lemma_image_token(axis, s, h, w, t, f, r, wi);
        assert(p[i] == (prefix + image)[i]);
        assert((prefix + image)[i] == image[x]);
        assert(x % w == wi) by {
            vstd::arithmetic::div_mod::lemma_mod_mod(x, w, h);
            vstd::arithmetic::mul::lemma_mul_is_commutative(w, h);
        }
    }
}

/// On every axis the ids of a built prompt are ordered around the image: each
/// axis holds one id per token; text before the image counts up from zero and
/// stays below every later id; every id after the image is greater than every
/// id of an image token, since text after the image resumes past the largest
/// merged grid dimension (frames, rows and columns alike); and text after the
/// image counts up.
pub proof fn lemma_positions_follow_image(
    axis: int,
    sequence_length: usize,
    start: usize,
    end: usize,
    grid_thw: [i64; 3],
    merge_size: usize,
)
    requires
        0 <= axis < 3,
        position_ids_error(sequence_length, start, end, grid_thw, merge_size) is None,
        positions_fit(sequence_length, start, end, grid_thw, merge_size),
    ensures
        ({
            let p = axis_positions(axis, sequence_length, start, end, grid_thw, merge_size);
            &&& p.len() == sequence_length
            &&& forall|i: int| 0 <= i < start ==> #[trigger] p[i] == i
            &&& forall|i: int, j: int|
                0 <= i < start <= j < sequence_length ==> #[trigger] p[i] < #[trigger] p[j]
            &&& forall|i: int, j: int|
                start <= i < end <= j < sequence_length ==> #[trigger] p[i] < #[trigger] p[j]
            &&& forall|i: int, j: int|
                end <= i < j < sequence_length ==> #[trigger] p[i] < #[trigger] p[j]
        }),
{
    let m = merge_size as int;
    let t = grid_thw@[0] as int;
    let h = (grid_thw@[1] as int) / m;
    let w = (grid_thw@[2] as int) / m;
    let s = start as int;
    let big = max3(t, h, w);
    vstd::arithmetic::div_mod::lemma_fundamental_div_mod(grid_thw@[1] as int, m);
    vstd::arithmetic::div_mod::lemma_fundamental_div_mod(grid_thw@[2] as int, m);
    vstd::arithmetic::div_mod::lemma_div_pos_is_pos(grid_thw@[1] as int, m);
    vstd::arithmetic::div_mod::lemma_div_pos_is_pos(grid_thw@[2] as int, m);
    assert(h > 0) by {
        if h == 0 {
            assert(m * h == 0) by (nonlinear_arith)
                requires
                    h == 0,
            ;
        }
    }
    assert(w > 0) by {
        if w == 0 {
            assert(m * w == 0) by (nonlinear_arith)
                requires
                    w == 0,
            ;
        }
    }
    assert(t * h * w > 0) by {
        vstd::arithmetic::mul::lemma_mul_strictly_positive(t, h);
        vstd::arithmetic::mul::lemma_mul_strictly_positive(t * h, w);
    }
    assert(s < end);
    assert(big >= 1);
    lemma_image_within(axis, s, t, t, h, w);
    let prefix = Seq::new(start as nat, |i: int| i as i64);
    let image = image_upto(axis, s, h, w, t);
    let rest = Seq::new((sequence_length - end) as nat, |o: int| (s + big + o) as i64);
    let p = axis_positions(axis, sequence_length, start, end, grid_thw, merge_size);
    assert(p == prefix + image + rest);
    assert(image.len() == end - s);
    assert forall|i: int| 0 <= i < start implies #[trigger] p[i] == i by {
        assert(p[i] == (prefix + image)[i]);
        assert((prefix + image)[i] == prefix[i]);
    }
    assert forall|i: int| start <= i < end implies s <= #[trigger] p[i] < s + big by {
        assert(p[i] == (prefix + image)[i]);
        assert((prefix + image)[i] == image[i - s]);
    }
    assert forall|j: int| end <= j < sequence_length implies #[trigger] p[j] == s + big + (j - end) by {
        assert(p[j] == rest[j - end]);
    }
}

/// Adding one more piece to a sequence built by `Seq::new` appends that
/// piece to the flattened sequence.
pub proof fn lemma_flatten_new_step<A>(n: nat, f: spec_fn(int) -> Seq<A>)
    ensures
        Seq::new(n + 1, f).flatten_alt() == Seq::new(n, f).flatten_alt() + f(n as int),
{
    assert(Seq::new(n + 1, f).drop_last() =~= Seq::new(n, f));
}

/// A patch offset inside a merge block stays below the grid size.
proof fn lemma_block_offset_fits(block: int, offset: int, m: int, size: int)
    requires
        0 <= block < size / m,
        0 <= offset < m,
        m > 0,
        size >= 0,
    ensures
        block * m + offset < size,
{
    assert(block * m + offset < size) by (nonlinear_arith)
        requires
            0 <= block < size / m,
            0 <= offset < m,
            m > 0,
            size >= 0,
    {
        assert((block + 1) * m <= (size / m) * m);
        assert((size / m) * m <= size);
    }
}

/// Ids of the patches of one merge-block row: the row, then each column.
pub open spec fn vision_cell_ids(m: int, block_row: int, block_column: int, row_offset: int) -> Seq<Seq<usize>> {
    Seq::new(
        m as nat,
        |column_offset: int|
            seq![(block_row * m + row_offset) as usize, (block_column * m + column_offset) as usize],
    )
}

/// Ids of the patches of one merge block, row by row.
pub open spec fn vision_block_ids(m: int, block_row: int, block_column: int) -> Seq<Seq<usize>> {
    Seq::new(m as nat, |row_offset: int| vision_cell_ids(m, block_row, block_column, row_offset)).flatten_alt()
}

/// Ids of one row of merge blocks, block by block.
pub open spec fn vision_block_row_ids(m: int, columns: int, block_row: int) -> Seq<Seq<usize>> {
    Seq::new(columns as nat, |block_column: int| vision_block_ids(m, block_row, block_column)).flatten_alt()
}

/// Ids of one frame, row of merge blocks by row.
pub open spec fn vision_frame_ids(m: int, rows: int, columns: int) -> Seq<Seq<usize>> {
    Seq::new(rows as nat, |block_row: int| vision_block_row_ids(m, columns, block_row)).flatten_alt()
}

/// Row and column ids of every vision patch, frame by frame, in merge-block
/// order; rows and columns past the last whole block are left out.
pub open spec fn vision_position_ids(t: int, h: int, w: int, m: int) -> Seq<Seq<usize>> {
    Seq::new(t as nat, |frame: int| vision_frame_ids(m, h / m, w / m)).flatten_alt()
}

/// Ids viewed as sequences.
pub open spec fn id_views(ids: Seq<[usize; 2]>) -> Seq<Seq<usize>> {
    ids.map_values(|a: [usize; 2]| a@)
}

/// Builds the row and column position id of every vision patch.
pub fn build_vision_position_ids(grid_thw: [i64; 3], merge_size: usize) -> (ids: Vec<[usize; 2]>)
    requires
        merge_size > 0,
        0 <= grid_thw@[0] <= usize::MAX,
        0 <= grid_thw@[1] <= usize::MAX,
        0 <= grid_thw@[2] <= usize::MAX,
    ensures
        ids@.len() == vision_position_ids(
            grid_thw@[0] as int,
            grid_thw@[1] as int,
            grid_thw@[2] as int,
            merge_size as int,
        ).len(),
        forall|k: int|
            0 <= k < ids@.len() ==> (#[trigger] ids@[k])@ == vision_position_ids(
                grid_thw@[0] as int,
                grid_thw@[1] as int,
                grid_thw@[2] as int,
                merge_size as int,
            )[k],
{
    let time = grid_thw[0] as usize;
    let height = grid_thw[1] as usize;
    let width = grid_thw[2] as usize;
    let m = merge_size;
    assert(time == grid_thw@[0] && height == grid_thw@[1] && width == grid_thw@[2]);
    let rows = height / m;
    let columns = width / m;
    let mut ids: Vec<[usize; 2]> = Vec::new();
    let mut frame: usize = 0;
    while frame < time
        invariant
            frame <= time,
            m == merge_size, m > 0, rows == height / m, columns == width / m,
            id_views(ids@) == Seq::new(frame as nat, |f: int| vision_frame_ids((merge_size as int), rows as int, columns as int)).flatten_alt(),
        decreases time - frame,
    {
        let ghost base0 = id_views(ids@);
        let mut block_row: usize = 0;
        while block_row < rows
            invariant
                block_row <= rows,
                m == merge_size, m > 0, rows == height / m, columns == width / m,
                id_views(ids@) == base0 + Seq::new(block_row as nat, |br: int| vision_block_row_ids((merge_size as int), columns as int, br)).flatten_alt(),
            decreases rows - block_row,
        {
            let ghost base1 = id_views(ids@);
            let mut block_column: usize = 0;
            while block_column < columns
                invariant
                    block_row < rows, block_column <= columns,
                    m == merge_size, m > 0, rows == height / m, columns == width / m,
                    id_views(ids@) == base1 + Seq::new(block_column as nat, |bc: int| vision_block_ids((merge_size as int), block_row as int, bc)).flatten_alt(),
                decreases columns - block_column,
            {
                let ghost base2 = id_views(ids@);
                let mut row_offset: usize = 0;
                while row_offset < m
                    invariant
                        block_row < rows, block_column < columns, row_offset <= m,
                        m == merge_size, m > 0, rows == height / m, columns == width / m,
                        id_views(ids@) == base2 + Seq::new(row_offset as nat, |ro: int| vision_cell_ids((merge_size as int), block_row as int, block_column as int, ro)).flatten_alt(),
                    decreases m - row_offset,
                {
                    let ghost base3 = id_views(ids@);
                    let mut column_offset: usize = 0;
                    while column_offset < m
                        invariant
                            block_row < rows, block_column < columns, row_offset < m, column_offset <= m,
                            m == merge_size, m > 0, rows == height / m, columns == width / m,
                            id_views(ids@) == base3 + vision_cell_ids((merge_size as int), block_row as int, block_column as int, row_offset as int).subrange(0, column_offset as int),
                        decreases m - column_offset,
                    {
                        proof {
                            lemma_block_offset_fits(block_row as int, row_offset as int, m as int, height as int);
                            lemma_block_offset_fits(block_column as int, column_offset as int, m as int, width as int);
                        }
                        let id: [usize; 2] = [block_row * m + row_offset, block_column * m + column_offset];
                        let ghost before = id_views(ids@);
                        ids.push(id);
                        proof {
                            let cell = vision_cell_ids((merge_size as int), block_row as int, block_column as int, row_offset as int);
                            assert(id@ =~= cell[column_offset as int]);
                            assert(id_views(ids@) =~= before.push(id@));
                            assert(cell.subrange(0, column_offset as int + 1) =~= cell.subrange(0, column_offset as int).push(cell[column_offset as int]));
                            assert(id_views(ids@) =~= base3 + cell.subrange(0, column_offset as int + 1));
                        }
                        column_offset = column_offset + 1;
                    }
                    proof {
                        let cell = vision_cell_ids((merge_size as int), block_row as int, block_column as int, row_offset as int);
                        assert(cell.subrange(0, m as int) =~= cell);
                        let prefix = Seq::new(row_offset as nat, |ro: int| vision_cell_ids((merge_size as int), block_row as int, block_column as int, ro)).flatten_alt();
                        assert(base2 + prefix + cell =~= base2 + (prefix + cell));
                    }
                    proof {
                        lemma_flatten_new_step(row_offset as nat, |ro: int| vision_cell_ids((merge_size as int), block_row as int, block_column as int, ro));
                    }
                    row_offset = row_offset + 1;
                }
                proof {
                    lemma_flatten_new_step(block_column as nat, |bc: int| vision_block_ids((merge_size as int), block_row as int, bc));
                    let prefix = Seq::new(block_column as nat, |bc: int| vision_block_ids((merge_size as int), block_row as int, bc)).flatten_alt();
                    let block = vision_block_ids((merge_size as int), block_row as int, block_column as int);
                    assert(Seq::new(row_offset as nat, |ro: int| vision_cell_ids((merge_size as int), block_row as int, block_column as int, ro)).flatten_alt() == block);
                    assert(base1 + prefix + block =~= base1 + (prefix + block));
                }
                block_column = block_column + 1;
            }
            proof {
                lemma_flatten_new_step(block_row as nat, |br: int| vision_block_row_ids((merge_size as int), columns as int, br));
                let prefix = Seq::new(block_row as nat, |br: int| vision_block_row_ids((merge_size as int), columns as int, br)).flatten_alt();
                let row = vision_block_row_ids((merge_size as int), columns as int, block_row as int);
                assert(Seq::new(block_column as nat, |bc: int| vision_block_ids((merge_size as int), block_row as int, bc)).flatten_alt() == row);
                assert(base0 + prefix + row =~= base0 + (prefix + row));
            }
            block_row = block_row + 1;
        }
        proof {
            lemma_flatten_new_step(frame as nat, |f: int| vision_frame_ids((merge_size as int), rows as int, columns as int));
            assert(Seq::new(block_row as nat, |br: int| vision_block_row_ids((merge_size as int), columns as int, br)).flatten_alt() == vision_frame_ids((merge_size as int), rows as int, columns as int));
        }
        frame = frame + 1;
    }
    proof {
        let spec_ids = vision_position_ids(grid_thw@[0] as int, grid_thw@[1] as int, grid_thw@[2] as int, (merge_size as int));
        assert(Seq::new(frame as nat, |f: int| vision_frame_ids((merge_size as int), rows as int, columns as int)) =~= Seq::new(
            (grid_thw@[0] as int) as nat,
            |f: int| vision_frame_ids((merge_size as int), (grid_thw@[1] as int) / (merge_size as int), (grid_thw@[2] as int) / (merge_size as int)),
        ));
        assert forall|k: int| 0 <= k < ids@.len() implies (#[trigger] ids@[k])@ == spec_ids[k] by {
            assert(id_views(ids@)[k] == ids@[k]@);
        }
    }
    ids
}

/// Two positions of a grid with `rows` rows, written column-major, are the
/// same only for the same row and column.
pub proof fn lemma_grid_position_unique(column: int, row: int, other_column: int, other_row: int, rows: int)
    requires
        0 <= row < rows,
        0 <= other_row < rows,
        column * rows + row == other_column * rows + other_row,
    ensures
        column == other_column,
        row == other_row,
{
    vstd::arithmetic::div_mod::lemma_fundamental_div_mod_converse(column * rows + row, rows, column, row);
    vstd::arithmetic::div_mod::lemma_fundamental_div_mod_converse(
        other_column * rows + other_row,
        rows,
        other_column,
        other_row,
    );
}

/// A position below `rows * columns`, for a row below `rows` and a column
/// below `columns`.
proof fn lemma_grid_position_bound(column: int, row: int, rows: int, columns: int)
    requires
        0 <= row < rows,
        0 <= column < columns,
    ensures
        0 <= column * rows + row < rows * columns,
{
    assert(0 <= column * rows + row < rows * columns) by (nonlinear_arith)
        requires
            0 <= row < rows,
            0 <= column < columns,
    ;
}

/// Whether `out` holds the row-major `rows` by `columns` matrix `values`
/// transposed: the value at row `r`, column `c` at position `c * rows + r`.
pub open spec fn transposed_entries<T>(values: Seq<T>, out: Seq<T>, rows: int, columns: int) -> bool {
    forall|r: int, c: int| 0 <= r < rows && 0 <= c < columns ==> #[trigger] out[c * rows + r] == values[r * columns + c]
}

/// Transposing a matrix and then its transpose gives the matrix back.
pub proof fn lemma_transpose_round_trip<T>(values: Seq<T>, once: Seq<T>, twice: Seq<T>, rows: int, columns: int)
    requires
        rows >= 0,
        columns >= 0,
        values.len() == rows * columns,
        twice.len() == values.len(),
        transposed_entries(values, once, rows, columns),
        transposed_entries(once, twice, columns, rows),
    ensures
        twice == values,
{
    assert forall|k: int| 0 <= k < values.len() implies twice[k] == values[k] by {
        assert(columns > 0) by (nonlinear_arith)
            requires
                0 <= k < rows * columns,
                rows >= 0,
                columns >= 0,
        ;
        let r = k / columns;
        let c = k % columns;
        vstd::arithmetic::div_mod::lemma_fundamental_div_mod(k, columns);
        vstd::arithmetic::div_mod::lemma_mod_pos_bound(k, columns);
        vstd::arithmetic::mul::lemma_mul_is_commutative(columns, r);
        assert(0 <= r < rows) by (nonlinear_arith)
            requires
                k == columns * r + c,
                0 <= c < columns,
                0 <= k < rows * columns,
        ;
        assert(twice[r * columns + c] == once[c * rows + r]);
        assert(once[c * rows + r] == values[r * columns + c]);
    }
    assert(twice =~= values);
}

/// Transposes a row-major `rows` by `columns` matrix held flat: the value
/// at row `r`, column `c` moves to position `c * rows + r`. Positions past
/// `rows * columns` hold the type's default value.
pub fn transpose_flattened_matrix<T: Copy + Default>(values: &[T], rows: usize, columns: usize) -> (transposed: Vec<T>)
    requires
        rows * columns <= values@.len(),
    ensures
        transposed@.len() == values@.len(),
        transposed_entries(values@, transposed@, rows as int, columns as int),
        forall|k: int| rows * columns <= k < values@.len() ==> call_ensures(T::default, (), #[trigger] transposed@[k]),
{
    let len = values.len();
    let mut transposed: Vec<T> = Vec::new();
    while transposed.len() < len
        invariant
            len == values@.len(),
            transposed@.len() <= len,
            forall|k: int| 0 <= k < transposed@.len() ==> call_ensures(T::default, (), #[trigger] transposed@[k]),
        decreases len - transposed@.len(),
    {
        let zero = T::default();
        transposed.push(zero);
    }
    let mut row: usize = 0;
    while row < rows
        invariant
            len == values@.len(),
            rows * columns <= len,
            row <= rows,
            transposed@.len() == len,
            forall|r: int, c: int|
                0 <= r < row && 0 <= c < columns ==> #[trigger] transposed@[c * rows + r] == values@[r * columns + c],
            forall|k: int| rows * columns <= k < len ==> call_ensures(T::default, (), #[trigger] transposed@[k]),
        decreases rows - row,
    {
        let mut column: usize = 0;
        while column < columns
            invariant
                len == values@.len(),
                rows * columns <= len,
                row < rows,
                column <= columns,
                transposed@.len() == len,
                forall|r: int, c: int|
                    0 <= r < row && 0 <= c < columns ==> #[trigger] transposed@[c * rows + r] == values@[r * columns + c],
                forall|c: int| 0 <= c < column ==> #[trigger] transposed@[c * rows + row] == values@[row * columns + c],
                forall|k: int| rows * columns <= k < len ==> call_ensures(T::default, (), #[trigger] transposed@[k]),
            decreases columns - column,
        {
            proof {
                lemma_grid_position_bound(column as int, row as int, rows as int, columns as int);
                lemma_grid_position_bound(row as int, column as int, columns as int, rows as int);
                vstd::arithmetic::mul::lemma_mul_is_commutative(rows as int, columns as int);
            }
            let target = column * rows + row;
            let source = row * columns + column;
            let ghost before = transposed@;
            transposed.set(target, values[source]);
            proof {
                assert forall|r: int, c: int| 0 <= r < row && 0 <= c < columns implies #[trigger] transposed@[c * rows
                    + r] == values@[r * columns + c] by {
                    lemma_grid_position_bound(c, r, rows as int, columns as int);
                    if c * rows + r == target {
                        lemma_grid_position_unique(c, r, column as int, row as int, rows as int);
                    }
                    assert(before[c * rows + r] == values@[r * columns + c]);
                }
                assert forall|c: int| 0 <= c < column + 1 implies #[trigger] transposed@[c * rows + row]
                    == values@[row * columns + c] by {
                    lemma_grid_position_bound(c, row as int, rows as int, columns as int);
                    if c < column {
                        if c * rows + row == target {
                            lemma_grid_position_unique(c, row as int, column as int, row as int, rows as int);
                        }
                        assert(before[c * rows + row] == values@[row * columns + c]);
                    }
                }
                assert forall|k: int| rows * columns <= k < len implies call_ensures(
                    T::default,
                    (),
                    #[trigger] transposed@[k],
                ) by {
                    assert(before[k] == transposed@[k]);
                }
            }
            column = column + 1;
        }
        row = row + 1;
    }
    transposed
}

/// Transposes the flat patch embedding weight from output-major to
/// input-major order.
pub fn transpose_flattened_patch_weight<T: Copy + Default>(values: &[T], output_size: usize, input_size: usize) -> (transposed: Vec<T>)
    requires
        output_size * input_size <= values@.len(),
    ensures
        transposed@.len() == values@.len(),
        transposed_entries(values@, transposed@, output_size as int, input_size as int),
        forall|k: int|
            output_size * input_size <= k < values@.len() ==> call_ensures(T::default, (), #[trigger] transposed@[k]),
{
    transpose_flattened_matrix(values, output_size, input_size)
}

/// Ways image dimensions cannot be resized for GLM OCR.
#[derive(Clone, Copy, PartialEq, Eq, Debug)]
pub enum ResizeError {
    /// The resize factor does not fit in `u32`.
    FactorTooLarge,
    /// The resize factor is zero.
    ZeroFactor,
    /// The longer side is more than 200 times the shorter one.
    AspectRatioTooLarge,
}

/// Text of a resize error.
pub open spec fn resize_error_text(error: ResizeError) -> Seq<char> {
    match error {
        ResizeError::FactorTooLarge => "GLM OCR resize factor does not fit into u32"@,
        ResizeError::ZeroFactor => "GLM OCR resize factor must be greater than zero"@,
        ResizeError::AspectRatioTooLarge => "GLM OCR input image aspect ratio is too large"@,
    }
}

impl ResizeError {
    /// Human-readable description of the error.
    pub fn message(&self) -> (text: &'static str)
        ensures
            text@ == resize_error_text(*self),
    {
        match self {
            ResizeError::FactorTooLarge => "GLM OCR resize factor does not fit into u32",
            ResizeError::ZeroFactor => "GLM OCR resize factor must be greater than zero",
            ResizeError::AspectRatioTooLarge => "GLM OCR input image aspect ratio is too large",
        }
    }
}

/// First reason, in the order the checks run, why an image cannot be
/// resized: a factor too large for `u32`, a zero factor, or a longer side
/// more than 200 times the shorter one (integer division).
pub open spec fn spec_resize_error(width: u32, height: u32, factor: usize) -> Option<ResizeError> {
    let longer = if width >= height { width } else { height };
    let shorter = if width <= height { width } else { height };
    if factor > u32::MAX {
        Some(ResizeError::FactorTooLarge)
    } else if factor == 0 {
        Some(ResizeError::ZeroFactor)
    } else if longer / shorter > 200 {
        Some(ResizeError::AspectRatioTooLarge)
    } else {
        None
    }
}

/// Checks the dimensions and factor of an image before it is resized. The
/// ratio check divides by the shorter side, so an image with a zero side is
/// left out once the factor is valid.
pub fn resize_error(width: u32, height: u32, factor: usize) -> (error: Option<ResizeError>)
    requires
        factor <= u32::MAX && factor > 0 ==> width > 0 && height > 0,
    ensures
        error == spec_resize_error(width, height, factor),
{
    if factor > 4294967295usize {
        return Some(ResizeError::FactorTooLarge);
    }
    if factor == 0 {
        return Some(ResizeError::ZeroFactor);
    }
    let longer = if width >= height { width } else { height };
    let shorter = if width <= height { width } else { height };
    if longer / shorter > 200 {
        return Some(ResizeError::AspectRatioTooLarge);
    }
    None
}

} // verus!
