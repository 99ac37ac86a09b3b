use crypto_api_blake2::b2b_api::{BUF_LEN_INVALID, BUF_LEN_TOO_LARGE, BUF_LEN_TOO_SMALL};
use crypto_api_blake2::{Blake2Error, Blake2b};

fn unhex(s: &str) -> Vec<u8> {
    (0..s.len() / 2)
        .map(|i| u8::from_str_radix(&s[2 * i..2 * i + 2], 16).unwrap())
        .collect()
}

fn counting(n: usize) -> Vec<u8> {
    (0..n).map(|i| (i % 256) as u8).collect()
}

struct TestVector {
    input: Vec<u8>,
    output: &'static str,
}

fn vectors() -> Vec<TestVector> {
    vec![
        TestVector { input: vec![], output: "786a02f742015903c6c6fd852552d272912f4740e15847618a86e217f71f5419d25e1031afee585313896444934eb04b903a685b1448b755d56f701afe9be2ce" },
        TestVector { input: b"abc".to_vec(), output: "ba80a53f981c4d0d6a2797b69f12f6e94c212f14685ac4b74b12bb6fdbffa2d17d87c5392aab792dc252d5de4533cc9518d38aa8dbf1925ab92386edd4009923" },
        TestVector { input: b"The quick brown fox jumps over the lazy dog".to_vec(), output: "a8add4bdddfd93e4877d2746e62817b116364a1fa7bc148d95090bc7333b3673f82401cf7aa2e4cb1ecd90296e3f14cb5413f8ed77be73045b13914cdcd6a918" },
        TestVector { input: counting(1), output: "2fa3f686df876995167e7c2e5d74c4c7b6e48f8068fe0e44208344d480f7904c36963e44115fe3eb2a3ac8694c28bcb4f5a0f3276f2e79487d8219057a506e4b" },
        TestVector { input: counting(127), output: "b6292669ccd38d5f01caae96ba272c76a879a45743afa0725d83b9ebb26665b731f1848c52f11972b6644f554c064fa90780dbbbf3a89d4fc31f67df3e5857ef" },
        TestVector { input: counting(128), output: "2319e3789c47e2daa5fe807f61bec2a1a6537fa03f19ff32e87eecbfd64b7e0e8ccff439ac333b040f19b0c4ddd11a61e24ac1fe0f10a039806c5dcc0da3d115" },
        TestVector { input: counting(129), output: "f59711d44a031d5f97a9413c065d1e614c417ede998590325f49bad2fd444d3e4418be19aec4e11449ac1a57207898bc57d76a1bcf3566292c20c683a5c4648f" },
        TestVector { input: counting(255), output: "5b21c5fd8868367612474fa2e70e9cfa2201ffeee8fafab5797ad58fefa17c9b5b107da4a3db6320baaf2c8617d5a51df914ae88da3867c2d41f0cc14fa67928" },
        TestVector { input: counting(256), output: "1ecc896f34d3f9cac484c73f75f6a5fb58ee6784be41b35f46067b9c65c63a6794d3d744112c653f73dd7deb6666204c5a9bfa5b46081fc10fdbe7884fa5cbf8" },
        TestVector { input: counting(300), output: "d9cf5983dc6b34c0fa1f0226926855ad3eccd2bcdcd8f8053b9a80664d33b5afcc32fd21c70ea14f4ef50ca97c3203c4d1803159f0e01bb6cb1d1c83db52b63c" },
        TestVector { input: counting(1000), output: "9fe687126e6566313081b43167cbfa0b4f721b45a5afd4076af327765d63a616478ffbd1cd5fbe4033e8638b8bcf8de6b3978b54a30f1d9d8d68fbe66c2b74cf" },
        TestVector { input: vec![], output: "2e" },
        TestVector { input: b"abc".to_vec(), output: "6b" },
        TestVector { input: b"abc".to_vec(), output: "384264f676f39536840523f284921cdc68b6846b" },
        TestVector { input: b"abc".to_vec(), output: "bddd813c634239723171ef3fee98579b94964e3bb1cb3e427262c8c068d52319" },
        TestVector { input: b"The quick brown fox jumps over the lazy dog".to_vec(), output: "b7c81b228b6bd912930e8f0b5387989691c1cee1e65aade4da3b86a3c9f678fc8018f6ed9e2906720c8d2a3aeda9c03d" },
    ]
}

impl TestVector {
    fn test(&self) {
        let output = unhex(self.output);
        match output.len() {
            64 => self.test_constlen(&output),
            _ => self.test_varlen(&output),
        }
    }

    fn test_constlen(&self, output: &[u8]) {
        let hash = Blake2b::new();
        let mut buf = vec![0; 64];
        assert_eq!(hash.hash(&mut buf, &self.input).unwrap(), 64);
        assert_eq!(buf, output, "{} failed", self.output);
        // The variable-length interface agrees at 64 bytes
        let mut buf = vec![0; 64];
        hash.varlen_hash(&mut buf, &self.input).unwrap();
        assert_eq!(buf, output, "{} failed", self.output);
    }

    fn test_varlen(&self, output: &[u8]) {
        let hash = Blake2b::new();
        let mut buf = vec![0; output.len()];
        assert_eq!(hash.varlen_hash(&mut buf, &self.input).unwrap(), output.len());
        assert_eq!(buf, output, "{} failed", self.output);
    }
}

#[test]
fn blake2b_hash_test() {
    for vector in vectors() {
        vector.test()
    }
}

struct ApiTestVector {
    output_len: usize,
    error_desc: &'static str,
}

impl ApiTestVector {
    fn test(&self) {
        match self.error_desc {
            BUF_LEN_INVALID => self.test_constlen(),
            _ => self.test_varlen(),
        }
    }

    fn test_constlen(&self) {
        let hash = Blake2b::new();
        let mut buf = vec![0; self.output_len];
        let err = hash.hash(&mut buf, b"Testolope").unwrap_err();
        assert_eq!(err, Blake2Error::ApiMisuse(self.error_desc), "length {}", self.output_len);
        assert!(buf.iter().all(|b| *b == 0));
    }

    fn test_varlen(&self) {
        let hash = Blake2b::new();
        let mut buf = vec![0; self.output_len];
        let err = hash.varlen_hash(&mut buf, b"Testolope").unwrap_err();
        assert_eq!(err, Blake2Error::ApiMisuse(self.error_desc), "length {}", self.output_len);
        assert!(buf.iter().all(|b| *b == 0));
    }
}

#[test]
fn blake2b_hash_test_api() {
    let vectors = vec![
        ApiTestVector { output_len: 0, error_desc: BUF_LEN_INVALID },
        ApiTestVector { output_len: 32, error_desc: BUF_LEN_INVALID },
        ApiTestVector { output_len: 63, error_desc: BUF_LEN_INVALID },
        ApiTestVector { output_len: 65, error_desc: BUF_LEN_INVALID },
        ApiTestVector { output_len: 0, error_desc: BUF_LEN_TOO_SMALL },
        ApiTestVector { output_len: 65, error_desc: BUF_LEN_TOO_LARGE },
        ApiTestVector { output_len: 128, error_desc: BUF_LEN_TOO_LARGE },
    ];
    for vector in vectors {
        vector.test()
    }
}

#[test]
fn error_descriptions_read_as_before() {
    assert_eq!(BUF_LEN_INVALID, "`buf.len()` is invalid");
    assert_eq!(BUF_LEN_TOO_SMALL, "`buf.len()` is too small");
    assert_eq!(BUF_LEN_TOO_LARGE, "`buf.len()` is too large");
}

#[test]
fn known_answer_empty_input() {
    let mut buf = vec![0; 64];
    Blake2b::new().hash(&mut buf, &[]).unwrap();
    assert_eq!(buf, unhex("786a02f742015903c6c6fd852552d272912f4740e15847618a86e217f71f5419d25e1031afee585313896444934eb04b903a685b1448b755d56f701afe9be2ce"));
}

#[test]
fn boundary_output_lengths() {
    let hash = Blake2b::new();
    for len in [1usize, 64] {
        let mut buf = vec![0; len];
        assert_eq!(hash.varlen_hash(&mut buf, b"abc"), Ok(len));
    }
    for len in [0usize, 65] {
        let mut buf = vec![0; len];
        assert!(hash.varlen_hash(&mut buf, b"abc").is_err());
    }
}

#[test]
fn hashing_twice_agrees() {
    let hash = Blake2b::new();
    let data = counting(517);
    for len in [1usize, 20, 33, 64] {
        let mut a = vec![0; len];
        let mut b = vec![0; len];
        hash.varlen_hash(&mut a, &data).unwrap();
        hash.varlen_hash(&mut b, &data).unwrap();
        assert_eq!(a, b);
    }
}

#[test]
fn multi_block_input() {
    let mut buf = vec![0; 64];
    Blake2b::new().hash(&mut buf, &counting(300)).unwrap();
    assert_eq!(buf, unhex("d9cf5983dc6b34c0fa1f0226926855ad3eccd2bcdcd8f8053b9a80664d33b5afcc32fd21c70ea14f4ef50ca97c3203c4d1803159f0e01bb6cb1d1c83db52b63c"));
}
