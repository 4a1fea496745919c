use gdpr_consent::{vendor_chart, ConsentString};

const TENS: &str = "    0000000000 1111111111 2222222222 3333333333 4444444444 5555555555 6666666666 7777777777 8888888888 9999999999";
const UNITS: &str = "    0123456789 0123456789 0123456789 0123456789 0123456789 0123456789 0123456789 0123456789 0123456789 0123456789";

#[test]
fn chart_of_canonical_sample() {
    let cs = ConsentString::parse("BOEFEAyOEFEAyAHABDENAI4AAAB9vABAASA").unwrap();
    let lines = vendor_chart(&cs);
    assert_eq!(lines.len(), 27);
    assert_eq!(lines[0], TENS);
    assert_eq!(lines[1], UNITS);
    let mut row0 = String::from("  0");
    for vid in 0..100 {
        if vid % 10 == 0 {
            row0.push(' ');
        }
        row0.push(if vid == 0 || vid == 9 { ' ' } else { '#' });
    }
    assert_eq!(lines[2], row0);
    assert_eq!(lines[12], TENS);
    assert_eq!(lines[13], UNITS);
    assert_eq!(lines[14], format!("{:3} ##########", 10).replace("##########", &full_row()));
    // row 20 holds vendors 2000 to 2011
    assert_eq!(lines[26], " 20 ########## ##");
}

fn full_row() -> String {
    let mut s = String::new();
    for g in 0..10 {
        if g > 0 {
            s.push(' ');
        }
        s.push_str("##########");
    }
    s
}

#[test]
fn chart_of_a_short_bitfield() {
    let mut bits = String::new();
    let a = "ABCDEFGHIJKLMNOPQRSTUVWXYZabcdefghijklmnopqrstuvwxyz0123456789-_".as_bytes();
    // the canonical header with max_vendor_id 5, bitfield mode, vendors 1, 3 and 4 granted
    let header = "BOEFEAyOEFEAyAHABDENAI4AAAB9vABAASA";
    for c in header.chars().take(26) {
        let v = a.iter().position(|&x| x as char == c).unwrap();
        bits.push_str(&format!("{:06b}", v));
    }
    bits.truncate(156);
    bits.push_str(&format!("{:016b}", 5));
    bits.push_str("0");
    bits.push_str("10110");
    while bits.len() % 6 != 0 {
        bits.push('0');
    }
    let text: String = bits
        .as_bytes()
        .chunks(6)
        .map(|c| a[usize::from_str_radix(std::str::from_utf8(c).unwrap(), 2).unwrap()] as char)
        .collect();
    let cs = ConsentString::parse(&text).unwrap();
    let lines = vendor_chart(&cs);
    assert_eq!(lines, vec![TENS.to_string(), UNITS.to_string(), "  0  # ## ".to_string()]);
}
