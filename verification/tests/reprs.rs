use xc_lib::reprs::parse_num;

#[test]
fn test_parse_hex() {
    assert_eq!(parse_num("0xc").unwrap(), 12);
    assert_eq!(parse_num("12h").unwrap(), 18);
    assert_eq!(parse_num("0xCaFeBaBe123").unwrap(), 13949712720163);
    assert_eq!(parse_num("dEaDbEeFh").unwrap(), 3735928559);
    assert!(parse_num("0xCh").is_err());

    assert_eq!(parse_num("Cc").unwrap(), 204);
    assert_eq!(parse_num("123abc").unwrap(), 1194684);
}

#[test]
fn test_parse_bin() {
    assert_eq!(parse_num("0b101").unwrap(), 5);
    assert_eq!(parse_num("011101110b").unwrap(), 238);
    assert_eq!(parse_num("000110101001011110b").unwrap(), 27230);
    assert!(parse_num("0b101b").is_err());
    assert!(parse_num("1010012b").is_err());
}

#[test]
fn test_parse_dec() {
    assert_eq!(parse_num("01010").unwrap(), 1010);
    assert_eq!(parse_num("1234").unwrap(), 1234);
    assert_eq!(parse_num("-4321").unwrap(), -4321);
}

#[test]
fn test_parse_num_rejects() {
    assert!(parse_num("").is_err());
    assert!(parse_num("0x").is_err());
    assert!(parse_num("h").is_err());
    assert!(parse_num("-").is_err());
    assert!(parse_num("0xzz").is_err());
}

#[test]
fn test_parse_num_range() {
    assert_eq!(
        parse_num("170141183460469231731687303715884105727").unwrap(),
        i128::MAX
    );
    assert_eq!(
        parse_num("-170141183460469231731687303715884105728").unwrap(),
        i128::MIN
    );
    assert!(parse_num("170141183460469231731687303715884105728").is_err());
    assert!(parse_num("-170141183460469231731687303715884105729").is_err());
}
