use picmyweb::ip::{is_ipv4, is_ipv6, is_u16};

fn v4(text: &str) -> bool {
    let chars: Vec<char> = text.chars().collect();
    is_ipv4(&chars, 0, chars.len())
}

fn v6(text: &str) -> bool {
    let chars: Vec<char> = text.chars().collect();
    is_ipv6(&chars, 0, chars.len())
}

fn port(text: &str) -> bool {
    let chars: Vec<char> = text.chars().collect();
    is_u16(&chars, 0, chars.len())
}

#[test]
fn ipv4_accepts_four_octets() {
    for text in ["0.0.0.0", "1.2.3.4", "255.255.255.255", "192.168.1.1", "10.0.0.5", "9.99.199.249"] {
        assert!(v4(text), "{:?}", text);
    }
}

#[test]
fn ipv4_rejects_what_is_no_dotted_quad() {
    for text in [
        "", ".", "...", "1", "1.2", "1.2.3", "1.2.3.", ".1.2.3", "1.2.3.4.", "1.2.3.4.5", "1..3.4",
        "256.0.0.0", "0.0.0.256", "999.1.1.1", "1000.1.1.1", "00.0.0.0", "01.2.3.4", "1.2.3.04",
        "1.2.3.4 ", " 1.2.3.4", "+1.2.3.4", "-1.2.3.4", "1.2.3.a", "1.2.3.0x1", "1,2,3,4",
        "１.2.3.4", "1.2.3.4\n",
    ] {
        assert!(!v4(text), "{:?}", text);
    }
}

#[test]
fn ipv4_reads_the_range_it_is_given() {
    let chars: Vec<char> = "x1.2.3.4y".chars().collect();
    assert!(is_ipv4(&chars, 1, 8));
    assert!(!is_ipv4(&chars, 0, 8));
    assert!(!is_ipv4(&chars, 1, 9));
    assert!(!is_ipv4(&chars, 3, 3));
}

#[test]
fn ipv6_accepts_full_and_compressed_forms() {
    for text in [
        "::", "::1", "1::", "1:2:3:4:5:6:7:8", "0:0:0:0:0:0:0:0", "ffff:FFFF:AbCd:0:00:000:0000:1",
        "2001:db8::ff00:42:8329", "fe80::1", "1::8", "1:2:3:4:5:6:7::", "::2:3:4:5:6:7:8",
        "1:2:3::5:6:7:8", "::ffff:192.168.0.1", "::1.2.3.4", "1:2:3:4:5:6:1.2.3.4",
        "1:2:3:4:5::1.2.3.4", "64:ff9b::192.0.2.33", "1::1.2.3.4",
    ] {
        assert!(v6(text), "{:?}", text);
    }
}

#[test]
fn ipv6_rejects_what_is_no_address() {
    for text in [
        "", ":", ":::", "::::", "1", "1:2", "1:2:3:4:5:6:7", "1:2:3:4:5:6:7:8:9", "1:2:3:4:5:6:7:8:",
        ":1:2:3:4:5:6:7:8", "1:2:3:4:5:6:7:8::", "::1:2:3:4:5:6:7:8", "1::2::3", "1:::2", "12345::",
        "::12345", "g::", "::g", "1.2.3.4", "::1.2.3", "::1.2.3.4.5", "::256.1.1.1", "::01.2.3.4",
        "1.2.3.4::", "1:2:3:4:5:6:7:1.2.3.4", "1:2:3:4:5:6::1.2.3.4", "::1.2.3.4:5", "1:2.3.4.5::",
        "[::1]", "::1%eth0", " ::1", "::1 ", "::１", "1:2:3:4:5:6:7:", "fe80::1/64",
        "::2:3:4:5:6:7:1.2.3.4",
    ] {
        assert!(!v6(text), "{:?}", text);
    }
}

#[test]
fn ipv6_reads_the_range_it_is_given() {
    let chars: Vec<char> = "[::1]:80".chars().collect();
    assert!(is_ipv6(&chars, 1, 4));
    assert!(!is_ipv6(&chars, 0, 5));
    assert!(!is_ipv6(&chars, 1, 5));
}

#[test]
fn port_text_is_a_decimal_of_sixteen_bits() {
    for text in ["0", "1", "80", "8080", "65535", "+0", "+65535", "0080", "000000000000000000000001"] {
        assert!(port(text), "{:?}", text);
    }
    for text in [
        "", "+", "-", "-0", "-1", "65536", "70000", "99999999999999999999999999", "+65536", "++1",
        "1+", "8o", "0x50", " 80", "80 ", "8 0", "８０", "1.0", "1e3",
    ] {
        assert!(!port(text), "{:?}", text);
    }
}
