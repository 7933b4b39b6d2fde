use create2crunch::search::{
    checksum_address, checksum_encode, full_salt, is_zero_reward, leading_zero_bytes,
    prefix_match, report_line, salt_digest, total_zero_bytes, MAX_INCREMENTER,
};
use create2crunch::bytes::to_fixed_47;
use create2crunch::{build_header, evaluate_salt, Config, Reward};

fn hex_bytes(s: &str) -> Vec<u8> {
    (0..s.len() / 2).map(|i| u8::from_str_radix(&s[2 * i..2 * i + 2], 16).unwrap()).collect()
}

// keccak256(0x00), the init code hash of a contract whose code is one zero byte
const ZERO_CODE_HASH: &str = "bc36789e7a1e281436464229828f817d6612f7b477d66591ff96a9e064bcc98a";

fn config(factory: &str, caller: &str, prefix: Option<&str>) -> Config {
    let mut f = [0u8; 20];
    f.copy_from_slice(&hex_bytes(factory));
    let mut c = [0u8; 20];
    c.copy_from_slice(&hex_bytes(caller));
    let mut h = [0u8; 32];
    h.copy_from_slice(&hex_bytes(ZERO_CODE_HASH));
    Config {
        factory_address: f,
        calling_address: c,
        init_code_hash: h,
        gpu_device: 255,
        leading_zeroes_threshold: 0,
        total_zeroes_threshold: 0,
        prefix: prefix.map(|p| p.to_string()),
        leading_ones: 0,
    }
}

#[test]
fn checksum_matches_known_vector() {
    let a = "5aaeb6053f3e94c9b9a09f33669435e7ef1beaed".to_string();
    assert_eq!(checksum_encode(&a), "0x5aAeb6053F3E94C9b9A09f33669435E7Ef1BeAed");
    let b = "fb6916095ca1df60bb79ce92ce3ea74c37c5d359".to_string();
    assert_eq!(checksum_encode(&b), "0xfB6916095ca1df60bB79Ce92cE3Ea74c37c5d359");
    let c = "dbf03b407c01e7cd3cbea99509d93f8dddc8c6fb".to_string();
    assert_eq!(checksum_encode(&c), "0xdbF03B407c01E7cD3CBea99509d93f8DDDC8C6FB");
}

#[test]
fn checksum_uppercases_by_hash_nibbles() {
    let mut hash = [0u8; 32];
    hash[0] = 0x80; // first nibble 8: upper, second nibble 0: lower
    hash[1] = 0x07; // third nibble 0, fourth 7: lower
    let a = "abcd".to_string();
    assert_eq!(checksum_address(&a, &hash), "0xAbcd");
    hash[1] = 0x0f;
    assert_eq!(checksum_address(&a, &hash), "0xAbcD");
}

#[test]
fn create2_known_vectors() {
    // EIP-1014 example 0: zero deployer, zero salt, code 0x00
    let cfg = config("0000000000000000000000000000000000000000", "0000000000000000000000000000000000000000", Some("4d1a2e2b"));
    let header_vec = build_header(&cfg, &[0u8; 6]);
    let header = to_fixed_47(&header_vec);
    let found = evaluate_salt(&cfg, &Reward::new(Vec::new()), &header_vec, &header, 0).unwrap();
    assert_eq!(found.address, "0x4D1A2e2bB4F88F0250f26Ffff098B0b30B26BF38");
    assert_eq!(found.full_salt, format!("0x{}", "0".repeat(64)));
    assert_eq!(found.reward, "0");
    assert_eq!(found.output, format!("0x{} => 0x4D1A2e2bB4F88F0250f26Ffff098B0b30B26BF38 => 0", "0".repeat(64)));

    // EIP-1014 example 1: deployer 0xdeadbeef..., zero salt
    let cfg = config("deadbeef00000000000000000000000000000000", "0000000000000000000000000000000000000000", Some("b928"));
    let header_vec = build_header(&cfg, &[0u8; 6]);
    let header = to_fixed_47(&header_vec);
    let found = evaluate_salt(&cfg, &Reward::new(Vec::new()), &header_vec, &header, 0).unwrap();
    assert_eq!(found.address, "0xB928f69Bb1D91Cd65274e3c79d8986362984fDA3");

    // EIP-1014 example 2: salt 0x000000000000000000000000feed0000...
    let cfg = config("deadbeef00000000000000000000000000000000", "000000000000000000000000feed000000000000", Some("d041"));
    let header_vec = build_header(&cfg, &[0u8; 6]);
    let header = to_fixed_47(&header_vec);
    let found = evaluate_salt(&cfg, &Reward::new(Vec::new()), &header_vec, &header, 0).unwrap();
    assert_eq!(found.address, "0xD04116cDd17beBE565EB2422F2497E06cC1C9833");
    assert_eq!(found.full_salt, "0x000000000000000000000000feed000000000000000000000000000000000000");
}

#[test]
fn non_matching_prefix_gives_nothing() {
    let cfg = config("0000000000000000000000000000000000000000", "0000000000000000000000000000000000000000", Some("4d1a2e2c"));
    let header_vec = build_header(&cfg, &[0u8; 6]);
    let header = to_fixed_47(&header_vec);
    assert!(evaluate_salt(&cfg, &Reward::new(Vec::new()), &header_vec, &header, 0).is_none());
}

#[test]
fn header_layout() {
    let cfg = config("deadbeef00000000000000000000000000000000", "000000000000000000000000feed000000000000", None);
    let h = build_header(&cfg, &[1, 2, 3, 4, 5, 6]);
    assert_eq!(h.len(), 47);
    assert_eq!(h[0], 0xff);
    assert_eq!(&h[1..5], &[0xde, 0xad, 0xbe, 0xef]);
    assert_eq!(h[33], 0xfe);
    assert_eq!(&h[41..], &[1, 2, 3, 4, 5, 6]);
}

#[test]
fn full_salt_is_caller_random_and_nonce() {
    let cfg = config("deadbeef00000000000000000000000000000000", "000000000000000000000000feed000000000000", None);
    let h = build_header(&cfg, &[0xaa; 6]);
    let s = full_salt(&h, &[0, 0, 0, 0, 1, 2]);
    assert_eq!(s, "0x000000000000000000000000feed000000000000aaaaaaaaaaaa000000000102");
}

#[test]
fn digest_of_create2_message() {
    let cfg = config("0000000000000000000000000000000000000000", "0000000000000000000000000000000000000000", None);
    let h = build_header(&cfg, &[0u8; 6]);
    let res = salt_digest(&to_fixed_47(&h), &[0u8; 6], &cfg.init_code_hash);
    assert_eq!(&res[12..], &hex_bytes("4d1a2e2bb4f88f0250f26ffff098b0b30b26bf38")[..]);
}

#[test]
fn zero_byte_counts() {
    let mut res = [0xffu8; 32];
    res[12] = 0;
    res[13] = 0;
    res[20] = 0;
    assert_eq!(total_zero_bytes(&res), 3);
    assert_eq!(leading_zero_bytes(&res), 2);
    let mut all_zero = [0xffu8; 32];
    for b in all_zero[12..].iter_mut() {
        *b = 0;
    }
    assert_eq!(total_zero_bytes(&all_zero), 20);
    assert_eq!(leading_zero_bytes(&all_zero), 0);
    let none = [0u8; 32].map(|_| 1u8);
    assert_eq!(total_zero_bytes(&none), 0);
    assert_eq!(leading_zero_bytes(&none), 0);
}

#[test]
fn reward_table_lookup() {
    let r = Reward::new(vec![(43, "5".to_string()), (43, "7".to_string()), (3, "0".to_string())]);
    assert_eq!(r.get(&43), "5");
    assert_eq!(r.get(&3), "0");
    assert_eq!(r.get(&99), "0");
    assert!(is_zero_reward(&r.get(&3)));
    assert!(!is_zero_reward(&r.get(&43)));
    assert!(!is_zero_reward(&"00".to_string()));
}

#[test]
fn efficiency_without_prefix() {
    let mut res = [0xffu8; 32];
    res[12] = 0;
    res[13] = 0;
    res[14] = 0;
    let hex = "000000ffffffffffffffffffffffffffffffffff".to_string();
    let rewards = Reward::new(vec![(3 * 20 + 3, "12".to_string())]);
    assert!(prefix_match(&None, &hex, &res, &rewards));
    assert!(!prefix_match(&None, &hex, &res, &Reward::new(Vec::new())));
    // only two zero bytes: never efficient
    res[14] = 0xff;
    let rewards = Reward::new(vec![(2 * 20 + 2, "12".to_string())]);
    assert!(!prefix_match(&None, &hex, &res, &rewards));
    assert!(prefix_match(&Some("0000".to_string()), &hex, &res, &rewards));
    assert!(!prefix_match(&Some("0001".to_string()), &hex, &res, &rewards));
}

#[test]
fn report_line_format() {
    let l = report_line(&"0xab".to_string(), &"0xCd".to_string(), &"3".to_string());
    assert_eq!(l, "0xab => 0xCd => 3");
    assert_eq!(MAX_INCREMENTER, 0xffffffffffff);
}

#[test]
fn checksum_changes_only_letter_case() {
    let a = "fb6916095ca1df60bb79ce92ce3ea74c37c5d359".to_string();
    let c = checksum_encode(&a);
    assert_eq!(c.len(), 42);
    assert_eq!(c.to_lowercase(), format!("0x{}", a));
}
