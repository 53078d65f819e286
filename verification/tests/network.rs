use unix_tools::network::{header_line, Opt};

#[test]
fn default_bind_address() {
    let opt = Opt { bind: "127.0.0.1".to_string(), port: 8080 };
    assert_eq!(opt.bind_address(), "127.0.0.1:8080");
}

#[test]
fn other_bind_addresses() {
    assert_eq!(Opt { bind: "localhost".to_string(), port: 0 }.bind_address(), "localhost:0");
    assert_eq!(Opt { bind: String::new(), port: u32::MAX }.bind_address(), ":4294967295");
    assert_eq!(Opt { bind: "::1".to_string(), port: 443 }.bind_address(), "::1:443");
}

#[test]
fn address_ends_with_port() {
    let a = Opt { bind: "example.org".to_string(), port: 9000 }.bind_address();
    let (host, port) = a.rsplit_once(':').unwrap();
    assert_eq!(host, "example.org");
    assert_eq!(port.parse::<u32>().unwrap(), 9000);
}

#[test]
fn header_lines() {
    assert_eq!(header_line("content-type", b"text/html"), Some("content-type: text/html\n".to_string()));
    assert_eq!(header_line("x-empty", b""), Some("x-empty: \n".to_string()));
    assert_eq!(header_line("x-tab", b"a\tb ~"), Some("x-tab: a\tb ~\n".to_string()));
}

#[test]
fn header_values_that_are_not_visible_ascii() {
    assert_eq!(header_line("x", b"caf\xc3\xa9"), None);
    assert_eq!(header_line("x", b"a\x7fb"), None);
    assert_eq!(header_line("x", b"line\nbreak"), None);
    assert_eq!(header_line("x", b"\x00"), None);
}
