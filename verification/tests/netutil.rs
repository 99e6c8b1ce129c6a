use plate_studio::netutil::{
    ips_from_ip_output, is_usable_lan_v4, lan_base_urls, parse_ipv4_chars, usable_unique,
    Ipv4Octets,
};

fn ip(a: u8, b: u8, c: u8, d: u8) -> Ipv4Octets {
    Ipv4Octets(a, b, c, d)
}

fn parse(s: &str) -> Option<Ipv4Octets> {
    let chars: Vec<char> = s.chars().collect();
    parse_ipv4_chars(&chars)
}

#[test]
fn usable_lan_addresses() {
    assert!(is_usable_lan_v4(ip(192, 168, 1, 10)));
    assert!(is_usable_lan_v4(ip(10, 0, 0, 2)));
    assert!(is_usable_lan_v4(ip(172, 16, 0, 1)));
    assert!(is_usable_lan_v4(ip(172, 31, 255, 1)));
    assert!(!is_usable_lan_v4(ip(172, 32, 0, 1)));
    assert!(!is_usable_lan_v4(ip(127, 0, 0, 1)));
    assert!(!is_usable_lan_v4(ip(0, 0, 0, 0)));
    assert!(!is_usable_lan_v4(ip(169, 254, 3, 4)));
    assert!(!is_usable_lan_v4(ip(224, 0, 0, 1)));
    assert!(!is_usable_lan_v4(ip(198, 18, 0, 1)));
    assert!(!is_usable_lan_v4(ip(8, 8, 8, 8)));
}

#[test]
fn dotted_decimal_parsing() {
    assert_eq!(parse("192.168.1.10"), Some(ip(192, 168, 1, 10)));
    assert_eq!(parse("0.0.0.0"), Some(ip(0, 0, 0, 0)));
    assert_eq!(parse("255.255.255.255"), Some(ip(255, 255, 255, 255)));
    assert_eq!(parse("1.2.3.0"), Some(ip(1, 2, 3, 0)));
    for s in [
        "256.1.1.1", "01.2.3.4", "1.2.3", "1.2.3.4.5", "1..2.3", "", "a.b.c.d", "1.2.3.4 ",
        " 1.2.3.4", "1.2.3.04", "10.0.0.1/24", "1234.1.1.1", "+1.2.3.4", "1.2.3.-4", "１.2.3.4",
    ] {
        assert_eq!(parse(s), None, "{s:?}");
    }
}

const IP_OUTPUT: &str = "lo               UNKNOWN        127.0.0.1/8 \n\
enp3s0           UP             192.168.1.23/24 10.0.0.5/8 \n\
docker0          DOWN           172.17.0.1/16 \n\
wlan0            UP             192.168.1.23/24 172.20.1.4/16\r\n\
tun0             UNKNOWN        198.18.0.1/15 \n\
eth1             DOWN           10.9.9.9/8 \n\
eth2             UP             8.8.8.8/32 bogus 10.1.1.1/8\n";

#[test]
fn reads_ip_command_output() {
    let ips = ips_from_ip_output(IP_OUTPUT);
    assert_eq!(
        ips,
        vec![ip(192, 168, 1, 23), ip(10, 0, 0, 5), ip(172, 20, 1, 4), ip(10, 1, 1, 1)]
    );
    assert!(ips_from_ip_output("").is_empty());
}

#[test]
fn probed_addresses_filtered_once() {
    let found = usable_unique(&[ip(127, 0, 0, 1), ip(10, 0, 0, 2), ip(10, 0, 0, 2), ip(192, 168, 0, 9)]);
    assert_eq!(found, vec![ip(10, 0, 0, 2), ip(192, 168, 0, 9)]);
}

#[test]
fn base_urls_ranked_and_fallback() {
    let urls = lan_base_urls(
        &[ip(172, 20, 1, 4), ip(10, 0, 0, 5)],
        &[ip(192, 168, 1, 23), ip(10, 0, 0, 5), ip(10, 2, 0, 1)],
        18765,
    );
    assert_eq!(
        urls,
        vec![
            "http://192.168.1.23:18765".to_string(),
            "http://10.0.0.5:18765".to_string(),
            "http://10.2.0.1:18765".to_string(),
            "http://172.20.1.4:18765".to_string(),
        ]
    );
    assert_eq!(lan_base_urls(&[], &[], 18765), vec!["http://127.0.0.1:18765".to_string()]);
}
