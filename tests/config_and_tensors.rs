use musicgpt::config::{default_device, ConfigError, MusicGenConfig};
use musicgpt::tensor::{
    dupe_zeros_along_first_dim, full_tensor, identity_tensor, ones_tensor, reshape_tensor,
    zeros_tensor, TensorData, TensorError,
};

#[test]
fn default_config_values() {
    let c = MusicGenConfig::default();
    assert_eq!(c.audio_encoder.sampling_rate, 44100);
    assert_eq!(c.audio_encoder.hop_length, 512);
    assert_eq!(c.audio_encoder.n_fft, 2048);
    assert_eq!(c.decoder.num_attention_heads, 8);
    assert_eq!(c.decoder.num_hidden_layers, 6);
    assert_eq!(c.decoder.top_k, 50);
    assert_eq!(c.decoder.pad_token_id, 0);
    assert_eq!(c.decoder.hidden_size, 768);
    assert_eq!(c.text_encoder.d_kv, 64);
    assert_eq!(c.text_encoder.d_model, 768);
    assert_eq!(c.text_encoder.max_position_embeddings, 512);
    assert_eq!(c.batch_size, 1);
    assert_eq!(c.device, "cpu");
    assert_eq!(default_device(), "cpu");
    assert!(c.validate().is_ok());
}

fn rejected(c: &MusicGenConfig) -> bool {
    matches!(c.validate(), Err(ConfigError::ValidationError(_)))
}

#[test]
fn validate_rejects_out_of_range_values() {
    let mut c = MusicGenConfig::default();
    c.audio_encoder.sampling_rate = 7999;
    assert!(rejected(&c));
    c.audio_encoder.sampling_rate = 192000;
    assert!(c.validate().is_ok());
    c.audio_encoder.sampling_rate = 192001;
    assert!(rejected(&c));
    let mut c = MusicGenConfig::default();
    c.decoder.num_attention_heads = 0;
    assert!(rejected(&c));
    c.decoder.num_attention_heads = 33;
    assert!(rejected(&c));
    let mut c = MusicGenConfig::default();
    c.decoder.num_hidden_layers = 25;
    assert!(rejected(&c));
    let mut c = MusicGenConfig::default();
    c.batch_size = 0;
    match c.validate() {
        Err(ConfigError::ValidationError(m)) => assert_eq!(m, "Batch size cannot be zero"),
        _ => panic!("expected a validation error"),
    }
}

#[test]
fn zeros_ones_full_tensors() {
    let z: TensorData<i64> = zeros_tensor(&[2, 3]);
    assert_eq!(z.shape, vec![2, 3]);
    assert_eq!(z.data, vec![0; 6]);
    let o: TensorData<i32> = ones_tensor(&[4]);
    assert_eq!(o.data, vec![1; 4]);
    let f = full_tensor(&[2, 2, 2], 7u8);
    assert_eq!(f.data, vec![7; 8]);
    let e: TensorData<i64> = zeros_tensor(&[3, 0, 5]);
    assert!(e.data.is_empty());
    let s: TensorData<i64> = ones_tensor(&[]);
    assert_eq!(s.data, vec![1]);
}

#[test]
fn identity_tensor_is_identity() {
    let t: TensorData<i64> = identity_tensor(3);
    assert_eq!(t.shape, vec![3, 3]);
    assert_eq!(t.data, vec![1, 0, 0, 0, 1, 0, 0, 0, 1]);
}

#[test]
fn dupe_zeros_doubles_first_dim() {
    let t = TensorData { shape: vec![1, 3], data: vec![4i64, 5, 6] };
    let d = dupe_zeros_along_first_dim(t);
    assert_eq!(d.shape, vec![2, 3]);
    assert_eq!(d.data, vec![4, 5, 6, 0, 0, 0]);
}

#[test]
fn reshape_checks_element_count() {
    let t = TensorData { shape: vec![2, 3], data: vec![1i64, 2, 3, 4, 5, 6] };
    let r = reshape_tensor(t, &[3, 2]).ok().unwrap();
    assert_eq!(r.shape, vec![3, 2]);
    assert_eq!(r.data, vec![1, 2, 3, 4, 5, 6]);
    let t = TensorData { shape: vec![2], data: vec![1i64, 2] };
    assert!(matches!(reshape_tensor(t, &[3]), Err(TensorError::ShapeMismatch)));
}
