use create2crunch::config::{parse_address, parse_hash};
use create2crunch::text::without_prefix;
use create2crunch::{Config, HexError};

fn args(list: &[&str]) -> Vec<String> {
    list.iter().map(|s| s.to_string()).collect()
}

const FACTORY: &str = "0x0000000000ffe8b47b3e2130213b802212439497";
const CALLER: &str = "0x0000000000000000000000000000000000000000";
const HASH: &str = "0x21c35dbe1b344a2488cf3321d6ce542f8e9f305544ff09e4993a62319a497c1f";

#[test]
fn missing_arguments_are_reported_in_order() {
    assert_eq!(Config::new(args(&[])).err(), Some("didn't get a factory_address argument."));
    assert_eq!(Config::new(args(&["prog"])).err(), Some("didn't get a factory_address argument."));
    assert_eq!(
        Config::new(args(&["prog", FACTORY])).err(),
        Some("didn't get a calling_address argument.")
    );
    assert_eq!(
        Config::new(args(&["prog", FACTORY, CALLER])).err(),
        Some("didn't get an init_code_hash argument.")
    );
}

#[test]
fn valid_arguments_give_defaults() {
    let c = Config::new(args(&["prog", FACTORY, CALLER, HASH])).unwrap();
    assert_eq!(c.factory_address[5], 0xff);
    assert_eq!(c.factory_address[19], 0x97);
    assert_eq!(c.calling_address, [0u8; 20]);
    assert_eq!(c.init_code_hash[0], 0x21);
    assert_eq!(c.init_code_hash[31], 0x1f);
    assert_eq!(c.gpu_device, 255);
    assert_eq!(c.leading_zeroes_threshold, 7);
    assert_eq!(c.total_zeroes_threshold, 5);
    assert_eq!(c.prefix, None);
    assert_eq!(c.leading_ones, 0);
}

#[test]
fn optional_device_and_thresholds() {
    let f = format!("0x{}", "11".repeat(20));
    let c = format!("0x{}", "22".repeat(20));
    let h = format!("0x{}", "33".repeat(32));
    let cfg = Config::new(args(&["c2c", &f, &c, &h, "0", "3", "5"])).unwrap();
    assert_eq!(cfg.factory_address, [0x11; 20]);
    assert_eq!(cfg.calling_address, [0x22; 20]);
    assert_eq!(cfg.init_code_hash, [0x33; 32]);
    assert_eq!(cfg.gpu_device, 0);
    assert_eq!(cfg.leading_zeroes_threshold, 3);
    assert_eq!(cfg.total_zeroes_threshold, 5);
    assert_eq!(cfg.prefix, None);
    assert_eq!(cfg.leading_ones, 0);
    let cfg = Config::new(args(&["c2c", &f, &c, &h, "+3", "9"])).unwrap();
    assert_eq!(cfg.gpu_device, 3);
    assert_eq!(cfg.leading_zeroes_threshold, 9);
    assert_eq!(cfg.total_zeroes_threshold, 5);
}

#[test]
fn bad_thresholds_are_reported() {
    let f = format!("0x{}", "11".repeat(20));
    let c = format!("0x{}", "22".repeat(20));
    let h = format!("0x{}", "33".repeat(32));
    assert_eq!(
        Config::new(args(&["c2c", &f, &c, &h, "0", "256"])).err(),
        Some("invalid leading zeroes threshold value supplied.")
    );
    assert_eq!(
        Config::new(args(&["c2c", &f, &c, &h, "0", "1", "x"])).err(),
        Some("invalid total zeroes threshold value supplied.")
    );
    // threshold errors come before hex errors
    assert_eq!(
        Config::new(args(&["c2c", "zz", &c, &h, "0", "-1"])).err(),
        Some("invalid leading zeroes threshold value supplied.")
    );
}

#[test]
fn prefix_argument_is_stripped_and_zeroes_thresholds() {
    let c = Config::new(args(&["prog", FACTORY, CALLER, HASH, "+3", "1", "2", "0xdead"])).unwrap();
    assert_eq!(c.gpu_device, 3);
    assert_eq!(c.prefix, Some("dead".to_string()));
    assert_eq!(c.leading_zeroes_threshold, 0);
    assert_eq!(c.total_zeroes_threshold, 0);
    // thresholds are not read when a prefix is given
    let c = Config::new(args(&["prog", FACTORY, CALLER, HASH, "0", "x", "y", "BEEF"])).unwrap();
    assert_eq!(c.prefix, Some("BEEF".to_string()));
}

#[test]
fn bare_0x_arguments_give_errors() {
    assert_eq!(
        Config::new(args(&["prog", "0x", CALLER, HASH])).err(),
        Some("invalid length for factory address argument.")
    );
    assert_eq!(
        Config::new(args(&["prog", FACTORY, "0x", HASH])).err(),
        Some("invalid length for calling address argument.")
    );
    assert_eq!(
        Config::new(args(&["prog", FACTORY, CALLER, "0x"])).err(),
        Some("invalid length for initialization code hash argument.")
    );
    let c = Config::new(args(&["prog", FACTORY, CALLER, HASH, "1", "2", "3", "0x"])).unwrap();
    assert_eq!(c.prefix, Some(String::new()));
}

#[test]
fn bad_hex_is_reported() {
    assert_eq!(
        Config::new(args(&["prog", "0xzz", CALLER, HASH])).err(),
        Some("could not decode factory address argument.")
    );
    assert_eq!(
        Config::new(args(&["prog", FACTORY, "abc", HASH])).err(),
        Some("could not decode calling address argument.")
    );
    assert_eq!(
        Config::new(args(&["prog", FACTORY, CALLER, "0x1g"])).err(),
        Some("could not decode initialization code hash argument.")
    );
}

#[test]
fn bad_lengths_are_reported() {
    assert_eq!(
        Config::new(args(&["prog", "0xabcd", CALLER, HASH])).err(),
        Some("invalid length for factory address argument.")
    );
    assert_eq!(
        Config::new(args(&["prog", FACTORY, "", HASH])).err(),
        Some("invalid length for calling address argument.")
    );
    assert_eq!(
        Config::new(args(&["prog", FACTORY, CALLER, FACTORY])).err(),
        Some("invalid length for initialization code hash argument.")
    );
}

#[test]
fn bad_device_and_prefix_are_reported() {
    assert_eq!(
        Config::new(args(&["prog", FACTORY, CALLER, HASH, "-1"])).err(),
        Some("invalid gpu device value.")
    );
    assert_eq!(
        Config::new(args(&["prog", FACTORY, CALLER, HASH, "4294967296"])).err(),
        Some("invalid gpu device value.")
    );
    assert_eq!(
        Config::new(args(&["prog", FACTORY, CALLER, HASH, "1", "2", "3", "0xdeadbeeg"])).err(),
        Some("prefix must contain only valid hexadecimal characters")
    );
}

#[test]
fn parse_address_pads_and_truncates() {
    let a = parse_address("0x0000000000ffe8b47b3e2130213b802212439497").unwrap();
    assert_eq!(a[5], 0xff);
    let short = parse_address("0x123").unwrap();
    let mut expected = [0u8; 20];
    expected[18] = 0x01;
    expected[19] = 0x23;
    assert_eq!(short, expected);
    let long = parse_address(&"11".repeat(21).replacen("11", "22", 1)).unwrap();
    let mut expected = [0x11u8; 20];
    expected[0] = 0x22;
    assert_eq!(long, expected);
    assert_eq!(parse_address("").unwrap(), [0u8; 20]);
    assert_eq!(parse_address("0x").unwrap(), [0u8; 20]);
}

#[test]
fn parse_address_with_and_without_prefix_agree() {
    let s = "deadbeef00000000000000000000000000000000";
    assert_eq!(parse_address(s), parse_address(&format!("0x{}", s)));
}

#[test]
fn parse_errors_name_the_first_bad_byte() {
    assert_eq!(
        parse_address("0xabzz"),
        Err(HexError::InvalidHexCharacter { c: 'z', index: 2 })
    );
    assert_eq!(
        parse_hash("q"),
        Err(HexError::InvalidHexCharacter { c: 'q', index: 1 })
    );
}

#[test]
fn parse_hash_right_aligns() {
    let h = parse_hash("ff").unwrap();
    let mut expected = [0u8; 32];
    expected[31] = 0xff;
    assert_eq!(h, expected);
}

#[test]
fn command_line_defaults_and_values() {
    let c = Config::from_command_line(&args(&["prog"])).unwrap();
    assert_eq!(c.leading_ones, 8);
    assert_eq!(c.gpu_device, 0);
    assert_eq!(c.factory_address, [0u8; 20]);
    assert_eq!(c.init_code_hash, [0u8; 32]);
    assert_eq!(c.prefix, None);
    let c = Config::from_command_line(&args(&["prog", "x", "0x01", "02", "0x03", "255"])).unwrap();
    assert_eq!(c.leading_ones, 8);
    assert_eq!(c.factory_address[19], 1);
    assert_eq!(c.calling_address[19], 2);
    assert_eq!(c.init_code_hash[31], 3);
    assert_eq!(c.gpu_device, 255);
    let c = Config::from_command_line(&args(&["prog", "12", "0x01", "02", "0x03", "bad"])).unwrap();
    assert_eq!(c.leading_ones, 12);
    assert_eq!(c.gpu_device, 0);
    assert_eq!(
        Config::from_command_line(&args(&["prog", "1", "0x01", "0xg2"])).err(),
        Some(HexError::InvalidHexCharacter { c: 'g', index: 0 })
    );
}

#[test]
fn address_hex_text_reads_back() {
    let mut addr = [0u8; 20];
    for (i, b) in addr.iter_mut().enumerate() {
        *b = (i as u8).wrapping_mul(37).wrapping_add(5);
    }
    let text = hex::encode(addr);
    assert_eq!(parse_address(&text), Ok(addr));
    let mut hash = [0u8; 32];
    hash[0] = 0xab;
    hash[31] = 0x01;
    assert_eq!(parse_hash(&hex::encode(hash)), Ok(hash));
}

#[test]
fn without_prefix_drops_two_characters() {
    assert_eq!(without_prefix("0x".to_string()), "");
    assert_eq!(without_prefix("0xab".to_string()), "ab");
    assert_eq!(without_prefix("x".to_string()), "");
}
