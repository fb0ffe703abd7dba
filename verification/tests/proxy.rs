use brush_traffic::proxy::parse_ipv4;
use brush_traffic::{Proxy, ProxyType};

#[test]
fn test_proxy_type() {
    let http: String = ProxyType::HTTP.into_string();
    assert_eq!("http".to_string(), http);

    let https: ProxyType = "https".to_string().into();
    assert_eq!(ProxyType::HTTPS, https);
}

#[test]
fn test_proxy() {
    let proxy: String = Proxy::new("https".to_string(), "127.0.0.1".to_string(), 8080)
        .into_string();
    assert_eq!(proxy, "https://127.0.0.1:8080");
}

#[test]
fn protocol_normalization_cases() {
    assert_eq!(ProxyType::from("HTTPS".to_string()), ProxyType::HTTPS);
    assert_eq!(ProxyType::from("http,https".to_string()), ProxyType::HTTPS);
    assert_eq!(ProxyType::from("say HTTP,HTTPS both".to_string()), ProxyType::HTTPS);
    assert_eq!(ProxyType::from("http".to_string()), ProxyType::HTTP);
    assert_eq!(ProxyType::from("socks5".to_string()), ProxyType::HTTP);
    assert_eq!(ProxyType::from("".to_string()), ProxyType::HTTP);
}

#[test]
fn scheme_names() {
    assert_eq!(ProxyType::HTTPS.into_string(), "https");
    assert_eq!(ProxyType::HTTP.into_string(), "http");
}

#[test]
fn address_round_trip() {
    let p = Proxy::new("http".to_string(), "8.8.8.8".to_string(), 53);
    assert_eq!(p.into_string(), "http://8.8.8.8:53");

    let p = Proxy::new("http".to_string(), "255.255.255.255".to_string(), 65535);
    assert_eq!(p.into_string(), "http://255.255.255.255:65535");

    let p = Proxy::new("https".to_string(), "0.0.0.0".to_string(), 0);
    assert_eq!(p.into_string(), "https://0.0.0.0:0");

    let p = Proxy::new("unknown".to_string(), "10.20.30.40".to_string(), 3128);
    assert_eq!(p.into_string(), "http://10.20.30.40:3128");
}

#[test]
fn parse_ipv4_accepts_and_rejects() {
    let a = parse_ipv4(b"1.2.3.4").expect("valid quad");
    assert_eq!((a.o1, a.o2, a.o3, a.o4), (1, 2, 3, 4));

    let a = parse_ipv4(b"255.0.255.0").expect("valid quad");
    assert_eq!((a.o1, a.o2, a.o3, a.o4), (255, 0, 255, 0));

    assert!(parse_ipv4(b"256.1.1.1").is_none());
    assert!(parse_ipv4(b"01.2.3.4").is_none());
    assert!(parse_ipv4(b"1.2.3").is_none());
    assert!(parse_ipv4(b"1.2.3.4.5").is_none());
    assert!(parse_ipv4(b"1.2.3.4 ").is_none());
    assert!(parse_ipv4(b"").is_none());
    assert!(parse_ipv4(b"a.b.c.d").is_none());
}
