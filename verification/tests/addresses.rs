use ipaps::addr::{is_non_public_ip, sorted_distinct, IpAddr};
use ipaps::text::{is_white_space, trimmed};

fn v4(a: u32, b: u32, c: u32, d: u32) -> IpAddr {
    IpAddr::V4((a << 24) | (b << 16) | (c << 8) | d)
}

fn v6(s: [u16; 8]) -> IpAddr {
    let mut bits: u128 = 0;
    for x in s.iter() {
        bits = (bits << 16) | (*x as u128);
    }
    IpAddr::V6(bits)
}

#[test]
fn ipv4_text_is_dotted_decimal() {
    assert_eq!(v4(142, 250, 188, 14).to_text(), "142.250.188.14");
    assert_eq!(v4(0, 0, 0, 0).to_text(), "0.0.0.0");
    assert_eq!(v4(255, 255, 255, 255).to_text(), "255.255.255.255");
    assert_eq!(v4(10, 0, 200, 7).to_text(), "10.0.200.7");
}

#[test]
fn ipv6_text_is_canonical() {
    assert_eq!(v6([0, 0, 0, 0, 0, 0, 0, 0]).to_text(), "::");
    assert_eq!(v6([0, 0, 0, 0, 0, 0, 0, 1]).to_text(), "::1");
    assert_eq!(v6([0x2001, 0xdb8, 0, 0, 0, 0, 0, 0]).to_text(), "2001:db8::");
    assert_eq!(
        v6([0x2607, 0xf8b0, 0x4005, 0x80b, 0, 0, 0, 0x200e]).to_text(),
        "2607:f8b0:4005:80b::200e"
    );
    assert_eq!(
        v6([1, 2, 3, 4, 5, 6, 7, 0xffff]).to_text(),
        "1:2:3:4:5:6:7:ffff"
    );
}

#[test]
fn one_zero_segment_is_written_out() {
    assert_eq!(v6([1, 0, 3, 4, 5, 6, 7, 8]).to_text(), "1:0:3:4:5:6:7:8");
}

#[test]
fn first_of_equal_runs_is_shortened() {
    assert_eq!(v6([1, 0, 0, 4, 5, 0, 0, 8]).to_text(), "1::4:5:0:0:8");
    assert_eq!(v6([1, 0, 0, 4, 0, 0, 0, 8]).to_text(), "1:0:0:4::8");
}

#[test]
fn mapped_addresses_end_in_dotted_decimal() {
    assert_eq!(
        v6([0, 0, 0, 0, 0, 0xffff, 0xc000, 0x0280]).to_text(),
        "::ffff:192.0.2.128"
    );
    assert_eq!(
        v6([0, 0, 0, 0, 0, 0, 0xc000, 0x0280]).to_text(),
        "::c000:280"
    );
}

#[test]
fn blocks_outside_the_public_internet() {
    for ip in [
        v4(127, 0, 0, 1),
        v4(10, 1, 2, 3),
        v4(172, 16, 0, 0),
        v4(172, 31, 255, 255),
        v4(192, 168, 1, 1),
        v4(169, 254, 0, 9),
        v4(255, 255, 255, 255),
        v4(0, 0, 0, 0),
        v4(100, 64, 0, 0),
        v4(100, 127, 255, 255),
        v4(192, 0, 2, 1),
        v4(198, 51, 100, 1),
        v4(203, 0, 113, 1),
        v6([0, 0, 0, 0, 0, 0, 0, 1]),
        v6([0, 0, 0, 0, 0, 0, 0, 0]),
        v6([0xfc00, 0, 0, 0, 0, 0, 0, 1]),
        v6([0xfdff, 0xffff, 0, 0, 0, 0, 0, 1]),
        v6([0xfe80, 0, 0, 0, 0, 0, 0, 1]),
        v6([0xfebf, 0, 0, 0, 0, 0, 0, 1]),
        v6([0x2001, 0x0db8, 0, 0, 0, 0, 0, 1]),
    ] {
        assert!(is_non_public_ip(ip), "{:?}", ip);
    }
}

#[test]
fn neighbours_of_the_blocks_are_public() {
    for ip in [
        v4(8, 8, 8, 8),
        v4(126, 255, 255, 255),
        v4(128, 0, 0, 0),
        v4(172, 15, 255, 255),
        v4(172, 32, 0, 0),
        v4(192, 167, 0, 1),
        v4(100, 63, 255, 255),
        v4(100, 128, 0, 0),
        v4(192, 0, 3, 0),
        v4(198, 51, 101, 0),
        v4(0, 0, 0, 1),
        v4(255, 255, 255, 254),
        v6([0, 0, 0, 0, 0, 0, 0, 2]),
        v6([0xfbff, 0, 0, 0, 0, 0, 0, 0]),
        v6([0xfe00, 0, 0, 0, 0, 0, 0, 0]),
        v6([0xfec0, 0, 0, 0, 0, 0, 0, 0]),
        v6([0x2001, 0x0db9, 0, 0, 0, 0, 0, 0]),
        v6([0, 0, 0, 0, 0, 0xffff, 0x7f00, 1]),
    ] {
        assert!(!is_non_public_ip(ip), "{:?}", ip);
    }
}

#[test]
fn addresses_are_sorted_and_distinct() {
    let a = v4(1, 1, 1, 1);
    let b = v4(9, 0, 0, 0);
    let c = v6([0, 0, 0, 0, 0, 0, 0, 1]);
    let d = v6([0x2001, 0, 0, 0, 0, 0, 0, 0]);
    assert_eq!(
        sorted_distinct(&vec![d, b, a, b, c, a, d]),
        vec![a, b, c, d]
    );
    assert_eq!(sorted_distinct(&vec![]), vec![]);
}

#[test]
fn white_space_agrees_with_the_standard_library() {
    for code in 0..=0x10ffffu32 {
        if let Some(c) = char::from_u32(code) {
            assert_eq!(is_white_space(c), c.is_whitespace(), "{:x}", code);
        }
    }
}

#[test]
fn distinct_addresses_have_distinct_texts() {
    let mut seen: Vec<String> = Vec::new();
    for mask in 0..256u32 {
        let mut s = [0u16; 8];
        for i in 0..8 {
            if mask & (1 << i) != 0 {
                s[i] = 0x10 + i as u16;
            }
        }
        let text = v6(s).to_text();
        assert!(!seen.contains(&text), "{}", text);
        seen.push(text);
    }
    assert_ne!(v4(1, 11, 1, 1).to_text(), v4(11, 1, 1, 1).to_text());
}

#[test]
fn trimming_agrees_with_the_standard_library() {
    for s in ["", "  ", "a", " a b\t", "\u{2003}x\u{85}", "\r\nline\r\n", "\u{200b}y"] {
        assert_eq!(trimmed(s), s.trim());
        assert_eq!(trimmed(&trimmed(s)), trimmed(s));
    }
}
