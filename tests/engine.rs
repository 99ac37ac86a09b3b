use crypto_api_blake2::B2Impl;

fn unhex(s: &str) -> Vec<u8> {
    (0..s.len() / 2)
        .map(|i| u8::from_str_radix(&s[2 * i..2 * i + 2], 16).unwrap())
        .collect()
}

fn counting(n: usize) -> Vec<u8> {
    (0..n).map(|i| (i % 256) as u8).collect()
}

#[test]
fn engine_hash_of_empty_input() {
    let mut state = B2Impl::init(64);
    assert_eq!(state.hash_len(), 64);
    let mut buf = vec![0; 64];
    state.finish(&mut buf);
    assert_eq!(buf, unhex("786a02f742015903c6c6fd852552d272912f4740e15847618a86e217f71f5419d25e1031afee585313896444934eb04b903a685b1448b755d56f701afe9be2ce"));
}

#[test]
fn engine_updates_chain() {
    let data = counting(300);
    let mut buf = vec![0; 64];
    B2Impl::init(64).update(&data[..100]).update(&data[100..]).finish(&mut buf);
    assert_eq!(buf, unhex("d9cf5983dc6b34c0fa1f0226926855ad3eccd2bcdcd8f8053b9a80664d33b5afcc32fd21c70ea14f4ef50ca97c3203c4d1803159f0e01bb6cb1d1c83db52b63c"));
}

#[test]
fn engine_exact_block_boundaries() {
    // 128 bytes stay buffered as the last block; 129 bytes compress one block first
    let mut a = vec![0; 64];
    B2Impl::init(64).update(&counting(128)).finish(&mut a);
    assert_eq!(a, unhex("2319e3789c47e2daa5fe807f61bec2a1a6537fa03f19ff32e87eecbfd64b7e0e8ccff439ac333b040f19b0c4ddd11a61e24ac1fe0f10a039806c5dcc0da3d115"));
    let mut b = vec![0; 64];
    B2Impl::init(64).update(&counting(128)).update(&counting(129)[128..]).finish(&mut b);
    assert_eq!(b, unhex("f59711d44a031d5f97a9413c065d1e614c417ede998590325f49bad2fd444d3e4418be19aec4e11449ac1a57207898bc57d76a1bcf3566292c20c683a5c4648f"));
}

#[test]
fn engine_keyed_and_derived() {
    let mut mac = vec![0; 64];
    B2Impl::init_mac(64, &counting(64)).update(&counting(129)).finish(&mut mac);
    assert_eq!(mac, unhex("64475dfe7600d7171bea0b394e27c9b00d8e74dd1e416a79473682ad3dfdbb706631558055cfc8a40e07bd015a4540dcdea15883cbbf31412df1de1cd4152b91"));
    let mut key = vec![0; 32];
    B2Impl::init_kdf(32, &counting(32), &counting(16), &counting(16)).finish(&mut key);
    assert_eq!(key, unhex("ef5ac9ede4ff5817b718b5f0df9c701cb8cefd4bb48d86c0fcc7f51ff9457423"));
}

#[test]
fn engine_smallest_output() {
    let mut state = B2Impl::init(1);
    assert_eq!(state.hash_len(), 1);
    state.update(b"abc");
    let mut buf = vec![0; 1];
    state.finish(&mut buf);
    assert_eq!(buf, vec![0x6b]);
}

#[test]
fn engine_empty_updates_change_nothing() {
    let mut a = vec![0; 20];
    B2Impl::init(20).update(b"").update(b"abc").update(b"").finish(&mut a);
    assert_eq!(a, unhex("384264f676f39536840523f284921cdc68b6846b"));
}
