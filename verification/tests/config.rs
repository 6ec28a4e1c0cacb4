use pnet_datalink::datalink;
use pnet_datalink::winpkfilter::{Config, DEFAULT_BUFFER_SIZE};

#[test]
fn default_config_uses_4096_byte_buffers() {
    let config = Config::default();
    assert_eq!(config.write_buffer_size, 4096);
    assert_eq!(config.read_buffer_size, 4096);
    assert_eq!(DEFAULT_BUFFER_SIZE, 4096);
}

#[test]
fn config_from_generic_config_keeps_buffer_sizes() {
    let generic = datalink::Config { write_buffer_size: 1500, read_buffer_size: 9000 };
    let config = Config::from(&generic);
    assert_eq!(config, Config { write_buffer_size: 1500, read_buffer_size: 9000 });
}

#[test]
fn config_is_copy_and_comparable() {
    let a = Config { write_buffer_size: 1, read_buffer_size: 2 };
    let b = a;
    assert_eq!(a, b);
    assert_ne!(a, Config { write_buffer_size: 2, read_buffer_size: 1 });
}
