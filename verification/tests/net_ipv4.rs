use sysx::ipv4::{is_valid_ipv4, str_to_ipv4, Ipv4Socket};

// is_valid_ipv4 tests

#[test]
fn test_is_valid_ipv4_correct() {
    assert!(is_valid_ipv4("192.168.0.1:8080"));
    assert!(is_valid_ipv4("127.0.0.1:80"));
    assert!(is_valid_ipv4("0.0.0.0:0"));
    assert!(is_valid_ipv4("255.255.255.255:65535"));
}

#[test]
fn test_is_valid_ipv4_incorrect() {
    assert!(!is_valid_ipv4("192.168.0.1")); // missing port
    assert!(!is_valid_ipv4("192.168.0:8080")); // incomplete address
    assert!(!is_valid_ipv4("192.168.0.1:65536")); // port out of range
    assert!(!is_valid_ipv4("192.168.0.256:8080")); // octet out of range
    assert!(!is_valid_ipv4("192.168.0.1:")); // empty port
    assert!(!is_valid_ipv4(":8080")); // empty address
    assert!(!is_valid_ipv4("192.168.0.1:abc")); // malformed port
}

#[test]
fn test_is_valid_ipv4_edge_cases() {
    assert!(is_valid_ipv4("0.0.0.0:0")); // smallest values
    assert!(is_valid_ipv4("255.255.255.255:65535")); // largest values
    assert!(!is_valid_ipv4("256.256.256.256:65536")); // beyond the largest values
}

// str_to_ipv4 tests

#[test]
fn test_str_to_ipv4_correct() {
    let addr = str_to_ipv4("127.0.0.1:8080").unwrap();
    assert_eq!(addr.ip(), (127, 0, 0, 1));
    assert_eq!(addr.port(), 8080);
}

#[test]
fn test_str_to_ipv4_incorrect() {
    assert!(str_to_ipv4("192.168.0.1").is_none()); // missing port
    assert!(str_to_ipv4("192.168.0:8080").is_none()); // incomplete address
    assert!(str_to_ipv4("192.168.0.1:65536").is_none()); // port out of range
    assert!(str_to_ipv4("192.168.0.256:8080").is_none()); // octet out of range
}

#[test]
fn test_str_to_ipv4_edge_cases() {
    // Smallest values
    let min_addr = str_to_ipv4("0.0.0.0:0").unwrap();
    assert_eq!(min_addr.ip(), (0, 0, 0, 0));
    assert_eq!(min_addr.port(), 0);

    // Largest values
    let max_addr = str_to_ipv4("255.255.255.255:65535").unwrap();
    assert_eq!(max_addr.ip(), (255, 255, 255, 255));
    assert_eq!(max_addr.port(), 65535);
}

#[test]
fn test_str_to_ipv4_special_addresses() {
    // Localhost
    let localhost = str_to_ipv4("127.0.0.1:80").unwrap();
    assert_eq!(localhost.ip(), (127, 0, 0, 1));

    // Broadcast
    let broadcast = str_to_ipv4("255.255.255.255:8080").unwrap();
    assert_eq!(broadcast.ip(), (255, 255, 255, 255));

    // Unspecified
    let unspecified = str_to_ipv4("0.0.0.0:8080").unwrap();
    assert_eq!(unspecified.ip(), (0, 0, 0, 0));
}

#[test]
fn test_str_to_ipv4_invalid_separators() {
    assert!(str_to_ipv4("192,168,0,1:8080").is_none()); // commas instead of dots
    assert!(str_to_ipv4("192.168.0.1;8080").is_none()); // semicolon instead of colon
    assert!(str_to_ipv4("192.168.0.1/8080").is_none()); // slash instead of colon
}

#[test]
fn test_ipv4_socket_equality() {
    let left = str_to_ipv4("10.0.0.1:443").unwrap();
    let right = Ipv4Socket { a: 10, b: 0, c: 0, d: 1, port: 443 };
    assert_eq!(left, right);
    assert_eq!(str_to_ipv4("10.0.0.1"), None);
}
