use vstd::prelude::*;

use crate::decimal::{digits, write_unsigned};
use crate::formatter::{join, lemma_join_push, TelemetryFormatter};
use crate::to_telemetry::ToTelemetry;

use core::fmt::Error as FmtError;

verus! {

/// An IPv4 address, by its four octets (what `Ipv4Addr::octets` gives).
#[derive(Clone, Copy)]
pub struct Ipv4Address(pub [u8; 4]);

/// An IPv6 address, by its eight 16-bit segments (what `Ipv6Addr::segments` gives).
#[derive(Clone, Copy)]
pub struct Ipv6Address(pub [u16; 8]);

/// An IPv4 or an IPv6 address.
#[derive(Clone, Copy)]
pub enum IpAddress {
    /// An IPv4 address.
    V4(Ipv4Address),
    /// An IPv6 address.
    V6(Ipv6Address),
}

/// An IPv4 socket address: an address and a port.
#[derive(Clone, Copy)]
pub struct SocketAddressV4 {
    /// The address.
    pub ip: Ipv4Address,
    /// The port.
    pub port: u16,
}

/// An IPv6 socket address: an address, a port, a flow label and a scope.
#[derive(Clone, Copy)]
pub struct SocketAddressV6 {
    /// The address.
    pub ip: Ipv6Address,
    /// The port.
    pub port: u16,
    /// The flow label, which the text does not show.
    pub flowinfo: u32,
    /// The scope; shown after `%` when it is not 0.
    pub scope_id: u32,
}

/// An IPv4 or an IPv6 socket address.
#[derive(Clone, Copy)]
pub enum SocketAddress {
    /// An IPv4 socket address.
    V4(SocketAddressV4),
    /// An IPv6 socket address.
    V6(SocketAddressV6),
}

/// The lowercase hexadecimal digit for `d < 16`.
pub open spec fn hex_char(d: nat) -> char {
    if d < 10 {
        (48 + d) as char
    } else {
        (87 + d) as char
    }
}

/// The lowercase hexadecimal digits of `n`, most significant first, without
/// leading zeros (`0` is the single digit `0`).
pub open spec fn hex_digits(n: nat) -> Seq<char>
    decreases n,
{
    if n < 16 {
        seq![hex_char(n)]
    } else {
        hex_digits(n / 16).push(hex_char(n % 16))
    }
}

/// Segments in hexadecimal, separated by `:`.
pub open spec fn hex_groups(segments: Seq<u16>) -> Seq<char> {
    join(segments.map_values(|x: u16| hex_digits(x as nat)), seq![':'])
}

/// The length of the run of zero segments that starts at `i`.
pub open spec fn zero_run(segments: Seq<u16>, i: int) -> nat
    decreases segments.len() - i,
{
    if 0 <= i < segments.len() && segments[i] == 0 {
        1 + zero_run(segments, i + 1)
    } else {
        0
    }
}

/// The start and length of the leftmost longest run of zero segments that
/// starts at or after `i` (length 0 where there is none).
pub open spec fn longest_zero_run(segments: Seq<u16>, i: int) -> (int, nat)
    decreases segments.len() - i,
{
    if i < 0 || i >= segments.len() {
        (segments.len() as int, 0)
    } else {
        let later = longest_zero_run(segments, i + 1);
        if zero_run(segments, i) >= later.1 {
            (i, zero_run(segments, i))
        } else {
            later
        }
    }
}

/// Whether the address is IPv4-mapped (`::ffff:a.b.c.d`).
pub open spec fn is_ipv4_mapped(segments: Seq<u16>) -> bool {
    segments[0] == 0 && segments[1] == 0 && segments[2] == 0 && segments[3] == 0 && segments[4]
        == 0 && segments[5] == 0xffff
}

/// The octets of the IPv4 address in the last two segments.
pub open spec fn mapped_octets(segments: Seq<u16>) -> Seq<u8> {
    seq![
        (segments[6] / 256) as u8,
        (segments[6] % 256) as u8,
        (segments[7] / 256) as u8,
        (segments[7] % 256) as u8,
    ]
}

/// The text of the IPv6 address with segments `segments`, as `Ipv6Addr`'s
/// `Display` writes it: an IPv4-mapped address as `::ffff:` and dotted decimal;
/// otherwise the segments in lowercase hexadecimal separated by `:`, with the
/// leftmost longest run of two or more zero segments written as `::`.
pub open spec fn ipv6_text(segments: Seq<u16>) -> Seq<char> {
    if is_ipv4_mapped(segments) {
        seq![':', ':', 'f', 'f', 'f', 'f', ':'] + ipv4_text(mapped_octets(segments))
    } else {
        let (start, len) = longest_zero_run(segments, 0);
        if len > 1 {
            hex_groups(segments.subrange(0, start)) + seq![':', ':'] + hex_groups(
                segments.subrange(start + len, segments.len() as int),
            )
        } else {
            hex_groups(segments)
        }
    }
}

/// The hexadecimal digit for `d < 16`.
fn hex_digit(d: u16) -> (c: char)
    requires
        d < 16,
    ensures
        c == hex_char(d as nat),
{
    match d {
        0 => '0',
        1 => '1',
        2 => '2',
        3 => '3',
        4 => '4',
        5 => '5',
        6 => '6',
        7 => '7',
        8 => '8',
        9 => '9',
        10 => 'a',
        11 => 'b',
        12 => 'c',
        13 => 'd',
        14 => 'e',
        _ => 'f',
    }
}

/// Writes the hexadecimal digits of `n`.
fn write_hex(f: &mut TelemetryFormatter, n: u16)
    ensures
        final(f)@ == old(f)@ + hex_digits(n as nat),
    decreases n,
{
    if n >= 16 {
        write_hex(f, n / 16);
    }
    let d = hex_digit(n % 16);
    f.write_char(d);
    proof {
        if n >= 16 {
            assert(hex_digits(n as nat) == hex_digits((n / 16) as nat).push(hex_char((n % 16) as nat)));
        } else {
            assert(n % 16 == n);
        }
    }
}

/// Writes `segments[start..end]` in hexadecimal, separated by `:`.
fn write_hex_groups(f: &mut TelemetryFormatter, segments: &[u16; 8], start: usize, end: usize)
    requires
        start <= end <= 8,
    ensures
        final(f)@ == old(f)@ + hex_groups(segments@.subrange(start as int, end as int)),
{
    let ghost base = f@;
    let mut i = start;
    while i < end
        invariant
            start <= i <= end <= 8,
            segments@.len() == 8,
            f@ == base + hex_groups(segments@.subrange(start as int, i as int)),
        decreases end - i,
    {
        let ghost before = segments@.subrange(start as int, i as int);
        if i > start {
            f.write_char(':');
        }
        write_hex(f, segments[i]);
        proof {
            let items = before.map_values(|x: u16| hex_digits(x as nat));
            let x = hex_digits(segments@[i as int] as nat);
            lemma_join_push(items, seq![':'], x);
            assert(segments@.subrange(start as int, i + 1).map_values(
                |x: u16| hex_digits(x as nat),
            ) =~= items.push(x));
        }
        i = i + 1;
    }
}

/// Writes the text of the IPv6 address with segments `segments`.
fn write_ipv6(f: &mut TelemetryFormatter, segments: &[u16; 8])
    ensures
        final(f)@ == old(f)@ + ipv6_text(segments@),
{
    let ghost base = f@;
    let ghost s = segments@;
    if segments[0] == 0 && segments[1] == 0 && segments[2] == 0 && segments[3] == 0
        && segments[4] == 0 && segments[5] == 0xffff {
        f.write_str("::ffff:");
        let octets: [u8; 4] = [
            (segments[6] / 256) as u8,
            (segments[6] % 256) as u8,
            (segments[7] / 256) as u8,
            (segments[7] % 256) as u8,
        ];
        write_ipv4(f, &octets);
        proof {
            reveal_strlit("::ffff:");
            assert(octets@ =~= mapped_octets(s));
            assert(f@ =~= base + ipv6_text(s));
        }
        return;
    }
    // From the last segment down: the run of zeros at `i`, and the leftmost
    // longest run at or after `i`.
    let mut i: usize = 8;
    let mut run: usize = 0;
    let mut best_start: usize = 8;
    let mut best_len: usize = 0;
    while i > 0
        invariant
            i <= 8,
            s.len() == 8,
            s == segments@,
            run == zero_run(s, i as int),
            (best_start as int, best_len as nat) == longest_zero_run(s, i as int),
            run <= 8 - i,
            best_start <= 8,
            best_len <= 8 - best_start,
        decreases i,
    {
        i = i - 1;
        if segments[i] == 0 {
            run = run + 1;
        } else {
            run = 0;
        }
        if run >= best_len {
            best_start = i;
            best_len = run;
        }
    }
    if best_len > 1 {
        write_hex_groups(f, segments, 0, best_start);
        f.write_str("::");
        write_hex_groups(f, segments, best_start + best_len, 8);
        proof {
            reveal_strlit("::");
        }
    } else {
        write_hex_groups(f, segments, 0, 8);
        proof {
            assert(s.subrange(0, 8) =~= s);
        }
    }
}

/// Dotted decimal: the four octets in decimal, joined by `.`.
pub open spec fn ipv4_text(octets: Seq<u8>) -> Seq<char> {
    digits(octets[0] as nat) + seq!['.'] + digits(octets[1] as nat) + seq!['.'] + digits(
        octets[2] as nat,
    ) + seq!['.'] + digits(octets[3] as nat)
}

/// `ip:port`.
pub open spec fn socket_v4_text(a: SocketAddressV4) -> Seq<char> {
    ipv4_text(a.ip.0@) + seq![':'] + digits(a.port as nat)
}

/// `[ip]:port`, or `[ip%scope]:port` for a non-zero scope; the flow label is not shown.
pub open spec fn socket_v6_text(a: SocketAddressV6) -> Seq<char> {
    seq!['['] + ipv6_text(a.ip.0@) + (if a.scope_id == 0 {
        Seq::empty()
    } else {
        seq!['%'] + digits(a.scope_id as nat)
    }) + seq![']', ':'] + digits(a.port as nat)
}

/// Writes the four octets in dotted decimal.
fn write_ipv4(f: &mut TelemetryFormatter, octets: &[u8; 4])
    ensures
        final(f)@ == old(f)@ + ipv4_text(octets@),
{
    write_unsigned(f, octets[0] as u128);
    f.write_char('.');
    write_unsigned(f, octets[1] as u128);
    f.write_char('.');
    write_unsigned(f, octets[2] as u128);
    f.write_char('.');
    write_unsigned(f, octets[3] as u128);
    proof {
        assert(final(f)@ =~= old(f)@ + ipv4_text(octets@));
    }
}

impl ToTelemetry for Ipv4Address {
    open spec fn telemetry_repr(&self) -> Seq<char> {
        ipv4_text(self.0@)
    }

    open spec fn telemetry_fails(&self) -> bool {
        false
    }

    fn fmt_telemetry(&self, f: &mut TelemetryFormatter) -> Result<(), FmtError> {
        write_ipv4(f, &self.0);
        Ok(())
    }
}

impl ToTelemetry for Ipv6Address {
    open spec fn telemetry_repr(&self) -> Seq<char> {
        ipv6_text(self.0@)
    }

    open spec fn telemetry_fails(&self) -> bool {
        false
    }

    fn fmt_telemetry(&self, f: &mut TelemetryFormatter) -> Result<(), FmtError> {
        write_ipv6(f, &self.0);
        Ok(())
    }
}

impl ToTelemetry for IpAddress {
    open spec fn telemetry_repr(&self) -> Seq<char> {
        match self {
            IpAddress::V4(a) => a.telemetry_repr(),
            IpAddress::V6(a) => a.telemetry_repr(),
        }
    }

    open spec fn telemetry_fails(&self) -> bool {
        false
    }

    fn fmt_telemetry(&self, f: &mut TelemetryFormatter) -> Result<(), FmtError> {
        match self {
            IpAddress::V4(a) => a.fmt_telemetry(f),
            IpAddress::V6(a) => a.fmt_telemetry(f),
        }
    }
}

impl ToTelemetry for SocketAddressV4 {
    open spec fn telemetry_repr(&self) -> Seq<char> {
        socket_v4_text(*self)
    }

    open spec fn telemetry_fails(&self) -> bool {
        false
    }

    fn fmt_telemetry(&self, f: &mut TelemetryFormatter) -> Result<(), FmtError> {
        write_ipv4(f, &self.ip.0);
        f.write_char(':');
        write_unsigned(f, self.port as u128);
        proof {
            assert(final(f)@ =~= old(f)@ + socket_v4_text(*self));
        }
        Ok(())
    }
}

impl ToTelemetry for SocketAddressV6 {
    open spec fn telemetry_repr(&self) -> Seq<char> {
        socket_v6_text(*self)
    }

    open spec fn telemetry_fails(&self) -> bool {
        false
    }

    fn fmt_telemetry(&self, f: &mut TelemetryFormatter) -> Result<(), FmtError> {
        f.write_char('[');
        write_ipv6(f, &self.ip.0);
        if self.scope_id != 0 {
            f.write_char('%');
            write_unsigned(f, self.scope_id as u128);
        }
        f.write_char(']');
        f.write_char(':');
        write_unsigned(f, self.port as u128);
        proof {
            assert(final(f)@ =~= old(f)@ + socket_v6_text(*self));
        }
        Ok(())
    }
}

impl ToTelemetry for SocketAddress {
    open spec fn telemetry_repr(&self) -> Seq<char> {
        match self {
            SocketAddress::V4(a) => a.telemetry_repr(),
            SocketAddress::V6(a) => a.telemetry_repr(),
        }
    }

    open spec fn telemetry_fails(&self) -> bool {
        false
    }

    fn fmt_telemetry(&self, f: &mut TelemetryFormatter) -> Result<(), FmtError> {
        match self {
            SocketAddress::V4(a) => a.fmt_telemetry(f),
            SocketAddress::V6(a) => a.fmt_telemetry(f),
        }
    }
}

/// Law: an IPv4 address renders as its four octets in decimal, separated by `.`.
pub proof fn law_ipv4_renders_dotted_decimal(a: Ipv4Address)
    ensures
        a.telemetry_repr() == digits(a.0[0] as nat) + seq!['.'] + digits(a.0[1] as nat) + seq!['.']
            + digits(a.0[2] as nat) + seq!['.'] + digits(a.0[3] as nat),
        IpAddress::V4(a).telemetry_repr() == a.telemetry_repr(),
        !IpAddress::V4(a).telemetry_fails(),
{
}

/// Law: an address enum renders as the address it wraps.
pub proof fn law_ip_address_renders_what_it_wraps(a: Ipv6Address)
    ensures
        IpAddress::V6(a).telemetry_repr() == a.telemetry_repr(),
        !IpAddress::V6(a).telemetry_fails(),
{
}

/// Law: a socket address renders as its address then `:` and the port in
/// decimal; an IPv6 address stands in brackets, with `%` and the scope in
/// decimal before the closing bracket when the scope is not 0, and the flow
/// label is not shown. The socket address enum renders as the socket address
/// it wraps, and never fails.
pub proof fn law_socket_addresses_render_address_and_port(a4: SocketAddressV4, a6: SocketAddressV6)
    ensures
        a4.telemetry_repr() == a4.ip.telemetry_repr() + seq![':'] + digits(a4.port as nat),
        a6.telemetry_repr() == seq!['['] + a6.ip.telemetry_repr() + (if a6.scope_id == 0 {
            Seq::empty()
        } else {
            seq!['%'] + digits(a6.scope_id as nat)
        }) + seq![']', ':'] + digits(a6.port as nat),
        SocketAddress::V4(a4).telemetry_repr() == a4.telemetry_repr(),
        SocketAddress::V6(a6).telemetry_repr() == a6.telemetry_repr(),
        !SocketAddress::V4(a4).telemetry_fails(),
        !SocketAddress::V6(a6).telemetry_fails(),
{
}

/// The number that a string of lowercase hexadecimal digits denotes.
pub open spec fn hex_value(s: Seq<char>) -> int
    decreases s.len(),
{
    if s.len() == 0 {
        0
    } else {
        hex_value(s.drop_last()) * 16 + (if s.last() <= '9' {
            s.last() as int - 48
        } else {
            s.last() as int - 87
        })
    }
}

/// Law: `hex_digits(n)` is the lowercase hexadecimal notation of `n`: at least
/// one digit, each `0`..`9` or `a`..`f`, no leading zero unless `n` is zero,
/// and it denotes `n`.
pub proof fn law_hex_digits_denote_the_number(n: nat)
    ensures
        hex_digits(n).len() >= 1,
        forall|i: int|
            0 <= i < hex_digits(n).len() ==> ('0' <= #[trigger] hex_digits(n)[i] <= '9' || 'a'
                <= hex_digits(n)[i] <= 'f'),
        hex_digits(n)[0] != '0' || n == 0,
        hex_value(hex_digits(n)) == n,
    decreases n,
{
    if n >= 16 {
        law_hex_digits_denote_the_number(n / 16);
        let d = hex_digits(n);
        assert(d.drop_last() =~= hex_digits(n / 16));
        assert(d[0] == hex_digits(n / 16)[0]);
        assert(d.last() == hex_char((n % 16) as nat));
        assert(hex_value(d) == hex_value(hex_digits(n / 16)) * 16 + (n % 16));
        assert((n / 16) * 16 + n % 16 == n) by (nonlinear_arith);
        assert forall|i: int| 0 <= i < d.len() implies ('0' <= #[trigger] d[i] <= '9' || 'a' <= d[i]
            <= 'f') by {
            if i < d.len() - 1 {
                assert(d[i] == hex_digits(n / 16)[i]);
            }
        }
    } else {
        let d = hex_digits(n);
        assert(d.drop_last() =~= Seq::<char>::empty());
        assert(hex_value(d.drop_last()) == 0);
        assert(d.last() == hex_char(n));
    }
}

/// Where no two zero segments are adjacent, no run of zeros is longer than one.
proof fn lemma_no_long_zero_run(s: Seq<u16>, i: int)
    requires
        0 <= i,
        forall|k: int| 0 <= k < s.len() - 1 ==> !(#[trigger] s[k] == 0 && s[k + 1] == 0),
    ensures
        longest_zero_run(s, i).1 <= 1,
    decreases s.len() - i,
{
    if i < s.len() {
        lemma_no_long_zero_run(s, i + 1);
        if s[i] == 0 && i + 1 < s.len() {
            assert(!(s[i] == 0 && s[i + 1] == 0));
            assert(zero_run(s, i + 1) == 0);
        }
        if s[i] == 0 && i + 1 >= s.len() {
            assert(zero_run(s, i + 1) == 0);
        }
    }
}

/// Law: an IPv6 address that is not IPv4-mapped and has no two adjacent zero
/// segments renders as all eight segments in lowercase hexadecimal separated by
/// `:` (nothing is shortened); an IPv4-mapped one renders as `::ffff:` and the
/// dotted decimal of the bytes of its last two segments.
pub proof fn law_ipv6_renders_hex_groups(a: Ipv6Address)
    ensures
        !is_ipv4_mapped(a.0@) && (forall|k: int|
            0 <= k < 7 ==> !(#[trigger] a.0@[k] == 0 && a.0@[k + 1] == 0)) ==> a.telemetry_repr()
            == join(a.0@.map_values(|x: u16| hex_digits(x as nat)), seq![':']),
        a.0@[0] == 0 && a.0@[1] == 0 && a.0@[2] == 0 && a.0@[3] == 0 && a.0@[4] == 0 && a.0@[5]
            == 0xffff ==> a.telemetry_repr() == seq![':', ':', 'f', 'f', 'f', 'f', ':'] + digits(
            (a.0@[6] / 256) as nat,
        ) + seq!['.'] + digits((a.0@[6] % 256) as nat) + seq!['.'] + digits((a.0@[7] / 256) as nat)
            + seq!['.'] + digits((a.0@[7] % 256) as nat),
{
    let s = a.0@;
    if !is_ipv4_mapped(s) && (forall|k: int| 0 <= k < 7 ==> !(#[trigger] s[k] == 0 && s[k + 1] == 0)) {
        lemma_no_long_zero_run(s, 0);
    }
}

} // verus!
