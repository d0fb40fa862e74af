use telemetry_safe::net::{
    IpAddress, Ipv4Address, Ipv6Address, SocketAddress, SocketAddressV4, SocketAddressV6,
};
use telemetry_safe::telemetry;

#[test]
fn ipv4_addresses_render_in_dotted_decimal() {
    assert_eq!(telemetry(&Ipv4Address([127, 0, 0, 1])).to_string(), "127.0.0.1");
    assert_eq!(telemetry(&Ipv4Address([255, 10, 0, 200])).to_string(), "255.10.0.200");
}

#[test]
fn ipv6_addresses_shorten_the_longest_zero_run() {
    assert_eq!(telemetry(&Ipv6Address([0; 8])).to_string(), "::");
    assert_eq!(telemetry(&Ipv6Address([0, 0, 0, 0, 0, 0, 0, 1])).to_string(), "::1");
    assert_eq!(telemetry(&Ipv6Address([0x2001, 0xdb8, 0, 0, 0, 0, 0, 1])).to_string(), "2001:db8::1");
    assert_eq!(telemetry(&Ipv6Address([0xfe80, 0, 0, 0, 0, 0, 0, 0])).to_string(), "fe80::");
    // A single zero segment stays as `0`; of two equal runs the first is shortened.
    assert_eq!(telemetry(&Ipv6Address([1, 0, 2, 3, 4, 5, 6, 7])).to_string(), "1:0:2:3:4:5:6:7");
    assert_eq!(telemetry(&Ipv6Address([1, 0, 0, 2, 0, 0, 3, 0xabcd])).to_string(), "1::2:0:0:3:abcd");
    assert_eq!(telemetry(&Ipv6Address([1, 0, 0, 2, 0, 0, 0, 3])).to_string(), "1:0:0:2::3");
}

#[test]
fn ipv4_mapped_addresses_end_in_dotted_decimal() {
    assert_eq!(
        telemetry(&Ipv6Address([0, 0, 0, 0, 0, 0xffff, 0xc000, 0x0280])).to_string(),
        "::ffff:192.0.2.128"
    );
}

#[test]
fn socket_addresses_render_with_their_ports() {
    let v4 = SocketAddressV4 { ip: Ipv4Address([10, 0, 0, 1]), port: 8080 };
    assert_eq!(telemetry(&v4).to_string(), "10.0.0.1:8080");
    let loopback = Ipv6Address([0, 0, 0, 0, 0, 0, 0, 1]);
    let v6 = SocketAddressV6 { ip: loopback, port: 443, flowinfo: 7, scope_id: 0 };
    assert_eq!(telemetry(&v6).to_string(), "[::1]:443");
    let scoped = SocketAddressV6 {
        ip: Ipv6Address([0xfe80, 0, 0, 0, 0, 0, 0, 1]),
        port: 80,
        flowinfo: 0,
        scope_id: 2,
    };
    assert_eq!(telemetry(&scoped).to_string(), "[fe80::1%2]:80");
}

#[test]
fn address_enums_render_their_variant() {
    assert_eq!(telemetry(&IpAddress::V4(Ipv4Address([1, 2, 3, 4]))).to_string(), "1.2.3.4");
    assert_eq!(telemetry(&IpAddress::V6(Ipv6Address([0; 8]))).to_string(), "::");
    let sock = SocketAddress::V4(SocketAddressV4 { ip: Ipv4Address([1, 2, 3, 4]), port: 1 });
    assert_eq!(telemetry(&sock).to_string(), "1.2.3.4:1");
}
