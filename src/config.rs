use vstd::prelude::*;

verus! {

broadcast use vstd::string::to_string_from_display_ensures_for_str;

/// Lowest accepted audio sampling rate, in samples per second.
pub const MIN_SAMPLING_RATE: usize = 8000;
/// Highest accepted audio sampling rate, in samples per second.
pub const MAX_SAMPLING_RATE: usize = 192000;
/// Largest accepted number of attention heads.
pub const MAX_ATTENTION_HEADS: usize = 32;
/// Largest accepted number of hidden decoder layers.
pub const MAX_HIDDEN_LAYERS: usize = 24;

/// Configuration for the complete MusicGen pipeline.
#[derive(Debug, Clone)]
pub struct MusicGenConfig {
    pub audio_encoder: AudioEncoderConfig,
    pub decoder: DecoderConfig,
    pub text_encoder: TextEncoderConfig,
    pub batch_size: usize,
    pub device: String,
}

/// Audio encoder configuration.
#[derive(Debug, Clone)]
pub struct AudioEncoderConfig {
    pub sampling_rate: usize,
    pub hop_length: usize,
    pub n_fft: usize,
}

/// Transformer decoder configuration.
#[derive(Debug, Clone)]
pub struct DecoderConfig {
    pub num_attention_heads: usize,
    pub num_hidden_layers: usize,
    pub top_k: usize,
    pub pad_token_id: i64,
    pub hidden_size: usize,
}

/// Text encoder configuration.
#[derive(Debug, Clone)]
pub struct TextEncoderConfig {
    pub d_kv: usize,
    pub d_model: usize,
    pub max_position_embeddings: usize,
}

/// Declares `std::io::Error` so that `ConfigError` can carry it through; nothing is
/// assumed of its contents.
#[verifier::external_type_specification]
#[verifier::external_body]
pub struct ExIoError(std::io::Error);

/// Declares `serde_json::Error` so that `ConfigError` can carry it through; nothing is
/// assumed of its contents.
#[verifier::external_type_specification]
#[verifier::external_body]
pub struct ExJsonError(serde_json::Error);

/// Configuration error types.
#[derive(Debug)]
pub enum ConfigError {
    ValidationError(String),
    IoError(std::io::Error),
    SerializationError(serde_json::Error),
}

impl AudioEncoderConfig {
    pub open spec fn spec_valid(&self) -> bool {
        MIN_SAMPLING_RATE <= self.sampling_rate <= MAX_SAMPLING_RATE
    }
}

impl DecoderConfig {
    pub open spec fn spec_valid(&self) -> bool {
        &&& 1 <= self.num_attention_heads <= MAX_ATTENTION_HEADS
        &&& 1 <= self.num_hidden_layers <= MAX_HIDDEN_LAYERS
    }
}

impl MusicGenConfig {
    /// The configuration is accepted: every range holds and the batch size is positive.
    pub open spec fn spec_valid(&self) -> bool {
        &&& self.audio_encoder.spec_valid()
        &&& self.decoder.spec_valid()
        &&& self.batch_size > 0
    }

    /// The configuration holds the documented default of every field.
    pub open spec fn is_default(&self) -> bool {
        &&& is_default_audio_encoder(self.audio_encoder)
        &&& is_default_decoder(self.decoder)
        &&& is_default_text_encoder(self.text_encoder)
        &&& self.batch_size == 1
        &&& self.device@ == "cpu"@
    }
}

pub open spec fn is_default_audio_encoder(a: AudioEncoderConfig) -> bool {
    a.sampling_rate == 44100 && a.hop_length == 512 && a.n_fft == 2048
}

pub open spec fn is_default_decoder(d: DecoderConfig) -> bool {
    &&& d.num_attention_heads == 8
    &&& d.num_hidden_layers == 6
    &&& d.top_k == 50
    &&& d.pad_token_id == 0
    &&& d.hidden_size == 768
}

pub open spec fn is_default_text_encoder(t: TextEncoderConfig) -> bool {
    t.d_kv == 64 && t.d_model == 768 && t.max_position_embeddings == 512
}

pub fn default_audio_encoder() -> (r: AudioEncoderConfig)
    ensures
        is_default_audio_encoder(r),
{
    AudioEncoderConfig {
        sampling_rate: default_sampling_rate(),
        hop_length: default_hop_length(),
        n_fft: default_n_fft(),
    }
}

pub fn default_decoder() -> (r: DecoderConfig)
    ensures
        is_default_decoder(r),
{
    DecoderConfig {
        num_attention_heads: default_num_attention_heads(),
        num_hidden_layers: default_num_hidden_layers(),
        top_k: default_top_k(),
        pad_token_id: default_pad_token_id(),
        hidden_size: default_hidden_size(),
    }
}

pub fn default_text_encoder() -> (r: TextEncoderConfig)
    ensures
        is_default_text_encoder(r),
{
    TextEncoderConfig {
        d_kv: default_d_kv(),
        d_model: default_d_model(),
        max_position_embeddings: default_max_position_embeddings(),
    }
}

pub fn default_sampling_rate() -> (r: usize)
    ensures
        r == 44100,
{
    44100
}

pub fn default_hop_length() -> (r: usize)
    ensures
        r == 512,
{
    512
}

pub fn default_n_fft() -> (r: usize)
    ensures
        r == 2048,
{
    2048
}

pub fn default_num_attention_heads() -> (r: usize)
    ensures
        r == 8,
{
    8
}

pub fn default_num_hidden_layers() -> (r: usize)
    ensures
        r == 6,
{
    6
}

pub fn default_top_k() -> (r: usize)
    ensures
        r == 50,
{
    50
}

pub fn default_pad_token_id() -> (r: i64)
    ensures
        r == 0,
{
    0
}

pub fn default_hidden_size() -> (r: usize)
    ensures
        r == 768,
{
    768
}

pub fn default_d_kv() -> (r: usize)
    ensures
        r == 64,
{
    64
}

pub fn default_d_model() -> (r: usize)
    ensures
        r == 768,
{
    768
}

pub fn default_max_position_embeddings() -> (r: usize)
    ensures
        r == 512,
{
    512
}

pub fn default_batch_size() -> (r: usize)
    ensures
        r == 1,
{
    1
}

pub fn default_device() -> (r: String)
    ensures
        r@ == "cpu"@,
{
    "cpu".to_string()
}

impl MusicGenConfig {
    /// Checks every range of the configuration; the error names the first field out of range.
    pub fn validate(&self) -> (r: Result<(), ConfigError>)
        ensures
            r is Ok <==> self.spec_valid(),
            r is Err ==> r->Err_0 is ValidationError,
    {
        let a = &self.audio_encoder;
        if a.sampling_rate < MIN_SAMPLING_RATE || a.sampling_rate > MAX_SAMPLING_RATE {
            return Err(ConfigError::ValidationError(
                "audio_encoder.sampling_rate must lie in 8000..=192000".to_string(),
            ));
        }
        let d = &self.decoder;
        if d.num_attention_heads < 1 || d.num_attention_heads > MAX_ATTENTION_HEADS {
            return Err(ConfigError::ValidationError(
                "decoder.num_attention_heads must lie in 1..=32".to_string(),
            ));
        }
        if d.num_hidden_layers < 1 || d.num_hidden_layers > MAX_HIDDEN_LAYERS {
            return Err(ConfigError::ValidationError(
                "decoder.num_hidden_layers must lie in 1..=24".to_string(),
            ));
        }
        if self.batch_size == 0 {
            return Err(ConfigError::ValidationError("Batch size cannot be zero".to_string()));
        }
        Ok(())
    }

    /// Create configuration with default values.
    pub fn default() -> (r: Self)
        ensures
            r.is_default(),
            r.spec_valid(),
    {
        Self {
            audio_encoder: default_audio_encoder(),
            decoder: default_decoder(),
            text_encoder: default_text_encoder(),
            batch_size: default_batch_size(),
            device: default_device(),
        }
    }
}

} // verus!
