use xc_lib::show::PresentNum;

#[test]
fn test_show() {
    let i: i128 = 0xCAFEBABE;
    assert_eq!(i.as_dec(false), "3 405 691 582  ");
    assert_eq!(i.as_dec(true), "3405691582");
    assert_eq!(i.as_hex(false), "ca feb abe h");
    assert_eq!(i.as_hex(true), "cafebabe");
    assert_eq!(
        i.as_bin(false),
        (
            "1100 1010 1111 1110 1011 1010 1011 1110 b".to_string(),
            "---28---24---20---16---12----8----4----0 ".to_string()
        )
    );
    assert_eq!(
        i.as_bin(true),
        (
            "11001010111111101011101010111110".to_string(),
            "".to_string()
        )
    );
    assert_eq!(
        i.show_all(),
        "\u{1b}[36mDec                             3 405 691 582  \u{1b}[0m\n\
         \u{1b}[92mHex                                ca feb abe h\u{1b}[0m\n\
         \u{1b}[91mBin   1100 1010 1111 1110 1011 1010 1011 1110 b\u{1b}[0m\n\
         \u{1b}[90m      ---28---24---20---16---12----8----4----0 \u{1b}[0m"
    );
}

#[test]
fn test_show_negative() {
    let i: i128 = -1;
    assert_eq!(i.as_dec(true), "-1");
    // Hexadecimal and binary show the two's-complement representation.
    assert_eq!(i.as_hex(true), "ffffffffffffffffffffffffffffffff");
    assert_eq!(i.as_bin(true).0.len(), 128);
}

#[test]
fn test_show_zero() {
    let i: i128 = 0;
    assert_eq!(i.as_dec(true), "0");
    assert_eq!(i.as_hex(true), "0");
    assert_eq!(i.as_bin(true).0, "0");
    assert_eq!(i.as_bin(false), ("0 b".to_string(), "----0 ".to_string()));
}

#[test]
fn test_group_str() {
    let (grouped, ruler) = i128::group_str("cafebabe".to_string(), 3);
    assert_eq!(grouped, "ca feb abe");
    assert_eq!(ruler, "---6---3----0 ");
    let (grouped, _) = i128::group_str("abc".to_string(), 3);
    assert_eq!(grouped, "abc");
}
