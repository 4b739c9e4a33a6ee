//! IPv4 and IPv6 addresses and socket addresses, with their standard text renderings.

use vstd::prelude::*;
use crate::text::{
    all_digits, dec, digit_run, digits_value, hex, is_digit, lemma_canonical_digits, lemma_dec,
    lemma_digit_run, lemma_digit_run_exact, push_dec, push_hex,
};

verus! {

/// An IPv4 address, as its four octets in network order.
#[derive(Clone, Copy, Debug, PartialEq, Eq, Hash, Structural)]
pub struct Ipv4Addr(pub u8, pub u8, pub u8, pub u8);

/// An IPv6 address, as its eight 16-bit segments in network order.
#[derive(Clone, Copy, Debug, PartialEq, Eq, Hash, Structural)]
pub struct Ipv6Addr(pub u16, pub u16, pub u16, pub u16, pub u16, pub u16, pub u16, pub u16);

/// An IP address of either family.
#[derive(Clone, Copy, Debug, PartialEq, Eq, Hash, Structural)]
pub enum IpAddr {
    V4(Ipv4Addr),
    V6(Ipv6Addr),
}

/// An IPv4 address with a port.
#[derive(Clone, Copy, Debug, PartialEq, Eq, Hash, Structural)]
pub struct SocketAddrV4 {
    pub ip: Ipv4Addr,
    pub port: u16,
}

/// An IPv6 address with a port, a flow label and a scope id.
#[derive(Clone, Copy, Debug, PartialEq, Eq, Hash, Structural)]
pub struct SocketAddrV6 {
    pub ip: Ipv6Addr,
    pub port: u16,
    pub flowinfo: u32,
    pub scope_id: u32,
}

/// A socket address of either family.
#[derive(Clone, Copy, Debug, PartialEq, Eq, Hash, Structural)]
pub enum SocketAddr {
    V4(SocketAddrV4),
    V6(SocketAddrV6),
}

impl Ipv4Addr {
    pub fn new(a: u8, b: u8, c: u8, d: u8) -> (r: Ipv4Addr)
        ensures
            r == Ipv4Addr(a, b, c, d),
    {
        Ipv4Addr(a, b, c, d)
    }

    /// The address as a 32-bit number, first octet most significant.
    pub open spec fn to_u32(self) -> u32 {
        (self.0 as int * 0x100_0000 + self.1 as int * 0x1_0000 + self.2 as int * 0x100
            + self.3 as int) as u32
    }

    /// The dotted-decimal rendering, such as "10.0.0.1".
    pub open spec fn text(self) -> Seq<char> {
        dec(self.0 as nat) + seq!['.'] + dec(self.1 as nat) + seq!['.'] + dec(self.2 as nat)
            + seq!['.'] + dec(self.3 as nat)
    }

    pub fn to_bits(&self) -> (r: u32)
        ensures
            r == self.to_u32(),
    {
        (self.0 as u32) * 0x100_0000 + (self.1 as u32) * 0x1_0000 + (self.2 as u32) * 0x100
            + (self.3 as u32)
    }

    /// Appends the dotted-decimal rendering.
    pub fn write_to(&self, out: &mut String)
        ensures
            final(out)@ == old(out)@ + self.text(),
    {
        proof {
            reveal_strlit(".");
        }
        push_dec(out, self.0 as u64);
        out.append(".");
        push_dec(out, self.1 as u64);
        out.append(".");
        push_dec(out, self.2 as u64);
        out.append(".");
        push_dec(out, self.3 as u64);
        assert(final(out)@ =~= old(out)@ + self.text());
    }

    pub fn to_string(&self) -> (r: String)
        ensures
            r@ == self.text(),
    {
        let mut s = String::new();
        self.write_to(&mut s);
        assert(s@ =~= self.text());
        s
    }
}

/// The length of the run of zero segments that starts at `i`.
pub open spec fn zero_run(s: Seq<u16>, i: int) -> nat
    decreases s.len() - i,
{
    if 0 <= i < s.len() && s[i] == 0 {
        1 + zero_run(s, i + 1)
    } else {
        0
    }
}

/// The start and length of the longest run of zero segments that starts before `n`,
/// the leftmost one among runs of equal length; `(0, 0)` when there is none.
pub open spec fn longest_zero_run(s: Seq<u16>, n: int) -> (int, nat)
    decreases n,
{
    if n <= 0 {
        (0, 0)
    } else {
        let best = longest_zero_run(s, n - 1);
        if zero_run(s, n - 1) > best.1 {
            (n - 1, zero_run(s, n - 1))
        } else {
            best
        }
    }
}

/// Segments in lower-case hexadecimal, separated by ':'.
pub open spec fn hex_groups(s: Seq<u16>) -> Seq<char>
    decreases s.len(),
{
    if s.len() == 0 {
        Seq::empty()
    } else if s.len() == 1 {
        hex(s[0] as nat)
    } else {
        hex_groups(s.drop_last()) + seq![':'] + hex(s.last() as nat)
    }
}

impl Ipv6Addr {
    pub open spec fn segments(self) -> Seq<u16> {
        seq![self.0, self.1, self.2, self.3, self.4, self.5, self.6, self.7]
    }

    /// Whether this is an IPv4-mapped address `::ffff:a.b.c.d`.
    pub open spec fn is_ipv4_mapped(self) -> bool {
        self.0 == 0 && self.1 == 0 && self.2 == 0 && self.3 == 0 && self.4 == 0 && self.5
            == 0xffff
    }

    /// The IPv4 address held in the last two segments.
    pub open spec fn low_ipv4(self) -> Ipv4Addr {
        Ipv4Addr(
            (self.6 / 256) as u8,
            (self.6 % 256) as u8,
            (self.7 / 256) as u8,
            (self.7 % 256) as u8,
        )
    }

    /// The standard rendering: an IPv4-mapped address as `::ffff:` and dotted decimal;
    /// otherwise hexadecimal segments, where the longest run of two or more zero segments
    /// (the leftmost of equal runs) is written as "::".
    pub open spec fn text(self) -> Seq<char> {
        if self.is_ipv4_mapped() {
            seq![':', ':', 'f', 'f', 'f', 'f', ':'] + self.low_ipv4().text()
        } else {
            let s = self.segments();
            let run = longest_zero_run(s, 8);
            if run.1 > 1 {
                hex_groups(s.subrange(0, run.0)) + seq![':', ':'] + hex_groups(
                    s.subrange(run.0 + run.1, 8),
                )
            } else {
                hex_groups(s)
            }
        }
    }

    pub fn new(a: u16, b: u16, c: u16, d: u16, e: u16, f: u16, g: u16, h: u16) -> (r: Ipv6Addr)
        ensures
            r == Ipv6Addr(a, b, c, d, e, f, g, h),
    {
        Ipv6Addr(a, b, c, d, e, f, g, h)
    }

    pub fn segment_vec(&self) -> (r: Vec<u16>)
        ensures
            r@ == self.segments(),
    {
        let r = vec![self.0, self.1, self.2, self.3, self.4, self.5, self.6, self.7];
        assert(r@ =~= self.segments());
        r
    }

    /// Appends the standard rendering.
    pub fn write_to(&self, out: &mut String)
        ensures
            final(out)@ == old(out)@ + self.text(),
    {
        proof {
            reveal_strlit("::ffff:");
            reveal_strlit("::");
            reveal_strlit(":");
        }
        if self.0 == 0 && self.1 == 0 && self.2 == 0 && self.3 == 0 && self.4 == 0 && self.5
            == 0xffff {
            out.append("::ffff:");
            let v4 = Ipv4Addr(
                (self.6 / 256) as u8,
                (self.6 % 256) as u8,
                (self.7 / 256) as u8,
                (self.7 % 256) as u8,
            );
            v4.write_to(out);
            assert(final(out)@ =~= old(out)@ + self.text());
            return ;
        }
        let s = self.segment_vec();
        let (start, len) = longest_zero_run_in(&s);
        if len > 1 {
            write_groups(&s, 0, start, out);
            out.append("::");
            write_groups(&s, start + len, 8, out);
            assert(final(out)@ =~= old(out)@ + self.text());
        } else {
            write_groups(&s, 0, 8, out);
            assert(s@.subrange(0, 8) =~= s@);
            assert(final(out)@ =~= old(out)@ + self.text());
        }
    }

    pub fn to_string(&self) -> (r: String)
        ensures
            r@ == self.text(),
    {
        let mut s = String::new();
        self.write_to(&mut s);
        assert(s@ =~= self.text());
        s
    }
}

/// Counts the zero segments from `i` on.
fn zero_run_in(s: &Vec<u16>, i: usize) -> (r: usize)
    requires
        i <= s@.len() <= 8,
    ensures
        r == zero_run(s@, i as int),
        r <= s@.len() - i,
    decreases s@.len() - i,
{
    if i < s.len() && s[i] == 0 {
        1 + zero_run_in(s, i + 1)
    } else {
        0
    }
}

/// Finds the longest run of zero segments, the leftmost among equal ones.
fn longest_zero_run_in(s: &Vec<u16>) -> (r: (usize, usize))
    requires
        s@.len() == 8,
    ensures
        r.0 == longest_zero_run(s@, 8).0,
        r.1 == longest_zero_run(s@, 8).1,
        r.0 + r.1 <= 8,
{
    let mut start: usize = 0;
    let mut len: usize = 0;
    let mut i: usize = 0;
    while i < 8
        invariant
            s@.len() == 8,
            i <= 8,
            start == longest_zero_run(s@, i as int).0,
            len == longest_zero_run(s@, i as int).1,
            start + len <= 8,
        decreases 8 - i,
    {
        let run = zero_run_in(s, i);
        if run > len {
            start = i;
            len = run;
        }
        i += 1;
    }
    (start, len)
}

/// Appends the segments `s[from..to]` in hexadecimal, separated by ':'.
fn write_groups(s: &Vec<u16>, from: usize, to: usize, out: &mut String)
    requires
        from <= to <= s@.len(),
    ensures
        final(out)@ == old(out)@ + hex_groups(s@.subrange(from as int, to as int)),
    decreases to - from,
{
    proof {
        reveal_strlit(":");
    }
    if from == to {
        assert(s@.subrange(from as int, to as int) =~= Seq::<u16>::empty());
        assert(final(out)@ =~= old(out)@);
    } else if from + 1 == to {
        push_hex(out, s[from]);
        assert(s@.subrange(from as int, to as int) =~= seq![s@[from as int]]);
    } else {
        write_groups(s, from, to - 1, out);
        out.append(":");
        push_hex(out, s[to - 1]);
        let ghost g = s@.subrange(from as int, to as int);
        assert(g.drop_last() =~= s@.subrange(from as int, to - 1));
        assert(final(out)@ =~= old(out)@ + hex_groups(g));
    }
}

impl IpAddr {
    /// The standard rendering of the address.
    pub open spec fn text(self) -> Seq<char> {
        match self {
            IpAddr::V4(a) => a.text(),
            IpAddr::V6(a) => a.text(),
        }
    }

    pub fn write_to(&self, out: &mut String)
        ensures
            final(out)@ == old(out)@ + self.text(),
    {
        match self {
            IpAddr::V4(a) => a.write_to(out),
            IpAddr::V6(a) => a.write_to(out),
        }
    }

    pub fn to_string(&self) -> (r: String)
        ensures
            r@ == self.text(),
    {
        let mut s = String::new();
        self.write_to(&mut s);
        assert(s@ =~= self.text());
        s
    }
}

impl SocketAddr {
    /// The standard rendering: "a.b.c.d:port", or "[v6]:port" with "%scope" inside the
    /// brackets when the scope id is not zero.
    pub open spec fn text(self) -> Seq<char> {
        match self {
            SocketAddr::V4(a) => a.ip.text() + seq![':'] + dec(a.port as nat),
            SocketAddr::V6(a) => seq!['['] + a.ip.text() + (if a.scope_id == 0 {
                Seq::empty()
            } else {
                seq!['%'] + dec(a.scope_id as nat)
            }) + seq![']', ':'] + dec(a.port as nat),
        }
    }

    pub fn new_v4(ip: Ipv4Addr, port: u16) -> (r: SocketAddr)
        ensures
            r == SocketAddr::V4(SocketAddrV4 { ip, port }),
    {
        SocketAddr::V4(SocketAddrV4 { ip, port })
    }

    pub fn write_to(&self, out: &mut String)
        ensures
            final(out)@ == old(out)@ + self.text(),
    {
        proof {
            reveal_strlit(":");
            reveal_strlit("[");
            reveal_strlit("%");
            reveal_strlit("]:");
        }
        match self {
            SocketAddr::V4(a) => {
                a.ip.write_to(out);
                out.append(":");
                push_dec(out, a.port as u64);
                assert(final(out)@ =~= old(out)@ + self.text());
            },
            SocketAddr::V6(a) => {
                out.append("[");
                a.ip.write_to(out);
                if a.scope_id != 0 {
                    out.append("%");
                    push_dec(out, a.scope_id as u64);
                }
                out.append("]:");
                push_dec(out, a.port as u64);
                assert(final(out)@ =~= old(out)@ + self.text());
            },
        }
    }

    pub fn to_string(&self) -> (r: String)
        ensures
            r@ == self.text(),
    {
        let mut s = String::new();
        self.write_to(&mut s);
        assert(s@ =~= self.text());
        s
    }
}

/// Reads one octet of a dotted-decimal address at `i`: one to three digits, without a
/// leading zero unless the octet is "0", of value at most 255. Gives the octet and the
/// position after its digits.
pub open spec fn read_octet(w: Seq<char>, i: int) -> Option<(u8, int)> {
    let k = digit_run(w, i) as int;
    if k == 0 || k > 3 || (k > 1 && w[i] == '0') || digits_value(w.subrange(i, i + k)) > 255 {
        None
    } else {
        Some((digits_value(w.subrange(i, i + k)) as u8, i + k))
    }
}

/// Reads an octet at `i` and then the '.' after it, or, for the last octet, the end of `w`.
pub open spec fn read_group(w: Seq<char>, i: int, last: bool) -> Option<(u8, int)> {
    match read_octet(w, i) {
        None => None,
        Some((v, j)) => if last {
            if j == w.len() {
                Some((v, j))
            } else {
                None
            }
        } else {
            if j < w.len() && w[j] == '.' {
                Some((v, j + 1))
            } else {
                None
            }
        },
    }
}

/// Reads a dotted-decimal address group by group.
pub open spec fn scan_ipv4(w: Seq<char>) -> Option<Ipv4Addr> {
    match read_group(w, 0, false) {
        None => None,
        Some((a, i)) => match read_group(w, i, false) {
            None => None,
            Some((b, j)) => match read_group(w, j, false) {
                None => None,
                Some((c, k)) => match read_group(w, k, true) {
                    None => None,
                    Some((d, _)) => Some(Ipv4Addr(a, b, c, d)),
                },
            },
        },
    }
}

/// The address whose dotted-decimal rendering is exactly `w`, if there is one.
pub open spec fn spec_parse_ipv4(w: Seq<char>) -> Option<Ipv4Addr> {
    if exists|a: Ipv4Addr| a.text() == w {
        Some(choose|a: Ipv4Addr| a.text() == w)
    } else {
        None
    }
}

/// The separator that follows a group: '.' for the first three, nothing after the last.
pub open spec fn group_sep(last: bool) -> Seq<char> {
    if last {
        Seq::empty()
    } else {
        seq!['.']
    }
}

/// A group that reads successfully is the rendering of its octet and its separator.
proof fn lemma_read_group_sound(w: Seq<char>, i: int, last: bool)
    requires
        0 <= i <= w.len(),
        read_group(w, i, last) is Some,
    ensures
        ({
            let (v, j) = read_group(w, i, last)->0;
            &&& i < j <= w.len()
            &&& w.subrange(i, j) == dec(v as nat) + group_sep(last)
            &&& last ==> j == w.len()
        }),
{
    lemma_digit_run(w, i);
    let k = digit_run(w, i) as int;
    let g = w.subrange(i, i + k);
    assert(all_digits(g)) by {
        assert forall|m: int| 0 <= m < g.len() implies is_digit(#[trigger] g[m]) by {
            assert(g[m] == w[i + m]);
        }
    }
    assert(g[0] == w[i]);
    lemma_canonical_digits(g);
    let (v, j) = read_group(w, i, last)->0;
    if last {
        assert(w.subrange(i, j) =~= dec(v as nat) + group_sep(last));
    } else {
        assert(w.subrange(i, j) =~= dec(v as nat) + group_sep(last));
    }
}

/// The rendering of an octet, followed by its separator, reads back as that octet.
proof fn lemma_read_group_complete(w: Seq<char>, i: int, last: bool, v: u8)
    requires
        0 <= i,
        i + dec(v as nat).len() + group_sep(last).len() <= w.len(),
        w.subrange(i, i + dec(v as nat).len() + group_sep(last).len()) == dec(v as nat)
            + group_sep(last),
        last ==> i + dec(v as nat).len() == w.len(),
    ensures
        read_group(w, i, last) == Some((v, i + dec(v as nat).len() + group_sep(last).len())),
{
    let n = dec(v as nat).len() as int;
    lemma_dec(v as nat);
    let seg = w.subrange(i, i + n + group_sep(last).len());
    assert forall|j: int| i <= j < i + n implies is_digit(#[trigger] w[j]) by {
        assert(w[j] == seg[j - i]);
        assert(seg[j - i] == dec(v as nat)[j - i]);
    }
    if !last {
        assert(w[i + n] == seg[n]);
    }
    lemma_digit_run_exact(w, i, n);
    assert(w.subrange(i, i + n) =~= dec(v as nat)) by {
        assert forall|j: int| 0 <= j < n implies w.subrange(i, i + n)[j] == dec(v as nat)[j] by {
            assert(w[i + j] == seg[j]);
        }
    }
    assert(w[i] == dec(v as nat)[0]);
}

/// Splits a rendering at the end of the first group.
proof fn lemma_text_groups(a: Ipv4Addr)
    ensures
        ({
            let w = a.text();
            let n0 = dec(a.0 as nat).len() as int;
            let n1 = dec(a.1 as nat).len() as int;
            let n2 = dec(a.2 as nat).len() as int;
            let n3 = dec(a.3 as nat).len() as int;
            &&& w.len() == n0 + n1 + n2 + n3 + 3
            &&& w.subrange(0, n0 + 1) == dec(a.0 as nat) + group_sep(false)
            &&& w.subrange(n0 + 1, n0 + n1 + 2) == dec(a.1 as nat) + group_sep(false)
            &&& w.subrange(n0 + n1 + 2, n0 + n1 + n2 + 3) == dec(a.2 as nat) + group_sep(false)
            &&& w.subrange(n0 + n1 + n2 + 3, w.len() as int) == dec(a.3 as nat) + group_sep(true)
        }),
{
    let w = a.text();
    let n0 = dec(a.0 as nat).len() as int;
    let n1 = dec(a.1 as nat).len() as int;
    let n2 = dec(a.2 as nat).len() as int;
    assert(w.subrange(0, n0 + 1) =~= dec(a.0 as nat) + group_sep(false));
    assert(w.subrange(n0 + 1, n0 + n1 + 2) =~= dec(a.1 as nat) + group_sep(false));
    assert(w.subrange(n0 + n1 + 2, n0 + n1 + n2 + 3) =~= dec(a.2 as nat) + group_sep(false));
    assert(w.subrange(n0 + n1 + n2 + 3, w.len() as int) =~= dec(a.3 as nat) + group_sep(true));
}

/// A text that reads as an address is that address's rendering.
proof fn lemma_scan_ipv4_sound(w: Seq<char>)
    requires
        scan_ipv4(w) is Some,
    ensures
        scan_ipv4(w)->0.text() == w,
{
    lemma_read_group_sound(w, 0, false);
    let (a, i) = read_group(w, 0, false)->0;
    lemma_read_group_sound(w, i, false);
    let (b, j) = read_group(w, i, false)->0;
    lemma_read_group_sound(w, j, false);
    let (c, k) = read_group(w, j, false)->0;
    lemma_read_group_sound(w, k, true);
    let (d, l) = read_group(w, k, true)->0;
    lemma_join_groups(w, i, j, k, Ipv4Addr(a, b, c, d));
}

/// A text cut into four pieces that are the groups of `x` is the rendering of `x`.
proof fn lemma_join_groups(w: Seq<char>, i: int, j: int, k: int, x: Ipv4Addr)
    requires
        0 < i < j < k < w.len(),
        w.subrange(0, i) == dec(x.0 as nat) + group_sep(false),
        w.subrange(i, j) == dec(x.1 as nat) + group_sep(false),
        w.subrange(j, k) == dec(x.2 as nat) + group_sep(false),
        w.subrange(k, w.len() as int) == dec(x.3 as nat) + group_sep(true),
    ensures
        x.text() == w,
{
    assert(w =~= w.subrange(0, i) + w.subrange(i, j) + w.subrange(j, k) + w.subrange(
        k,
        w.len() as int,
    ));
    assert(group_sep(true) =~= Seq::<char>::empty());
    assert(dec(x.3 as nat) + group_sep(true) =~= dec(x.3 as nat));
    assert(x.text() =~= w);
}

/// An address's rendering reads back as that address.
proof fn lemma_scan_ipv4_complete(a: Ipv4Addr)
    ensures
        scan_ipv4(a.text()) == Some(a),
{
    let w = a.text();
    lemma_text_groups(a);
    let n0 = dec(a.0 as nat).len() as int;
    let n1 = dec(a.1 as nat).len() as int;
    let n2 = dec(a.2 as nat).len() as int;
    lemma_read_group_complete(w, 0, false, a.0);
    lemma_read_group_complete(w, n0 + 1, false, a.1);
    lemma_read_group_complete(w, n0 + n1 + 2, false, a.2);
    lemma_read_group_complete(w, n0 + n1 + n2 + 3, true, a.3);
}

/// Reading a text group by group gives an address exactly when the text is that
/// address's rendering.
pub proof fn lemma_scan_ipv4(w: Seq<char>)
    ensures
        scan_ipv4(w) matches Some(a) ==> a.text() == w,
        forall|a: Ipv4Addr| a.text() == w ==> scan_ipv4(w) == Some(a),
{
    if scan_ipv4(w) is Some {
        lemma_scan_ipv4_sound(w);
    }
    assert forall|a: Ipv4Addr| a.text() == w implies scan_ipv4(w) == Some(a) by {
        lemma_scan_ipv4_complete(a);
    }
}

/// Reads an octet at `i` (see `read_octet`).
fn read_octet_in(w: &Vec<char>, i: usize) -> (r: Option<(u8, usize)>)
    requires
        i <= w@.len(),
    ensures
        match r {
            Some((v, j)) => read_octet(w@, i as int) == Some((v, j as int)),
            None => read_octet(w@, i as int) is None,
        },
{
    let n = w.len();
    proof {
        lemma_digit_run(w@, i as int);
    }
    let mut k: usize = 0;
    while k < 4 && k < n - i && '0' <= w[i + k] && w[i + k] <= '9'
        invariant
            n == w@.len(),
            i + k <= n,
            k <= 4,
            forall|j: int| i <= j < i + k ==> is_digit(#[trigger] w@[j]),
            k <= digit_run(w@, i as int),
        decreases 4 - k,
    {
        proof {
            lemma_digit_run(w@, i as int);
            if k == digit_run(w@, i as int) {
                assert(is_digit(w@[i + k]));
            }
        }
        k += 1;
    }
    if k == 0 || k > 3 {
        proof {
            if k == 0 {
                lemma_digit_run_exact(w@, i as int, 0);
            }
        }
        return None;
    }
    proof {
        lemma_digit_run_exact(w@, i as int, k as int);
    }
    if k > 1 && w[i] == '0' {
        return None;
    }
    let ghost g = w@.subrange(i as int, i + k);
    let mut v: u32 = 0;
    let mut m: usize = 0;
    while m < k
        invariant
            1 <= k <= 3,
            n == w@.len(),
            i + k <= n,
            g == w@.subrange(i as int, i + k),
            forall|j: int| i <= j < i + k ==> is_digit(#[trigger] w@[j]),
            m <= k,
            v == digits_value(g.take(m as int)),
            v < 1000,
            m == 0 ==> v == 0,
            m == 1 ==> v < 10,
            m == 2 ==> v < 100,
        decreases k - m,
    {
        let c = w[i + m];
        assert(is_digit(w@[i + m]));
        assert(g.take(m + 1).drop_last() =~= g.take(m as int));
        v = v * 10 + (c as u32 - '0' as u32);
        m += 1;
    }
    assert(g.take(k as int) =~= g);
    if v > 255 {
        return None;
    }
    Some((v as u8, i + k))
}

/// Reads a group at `i` (see `read_group`).
fn read_group_in(w: &Vec<char>, i: usize, last: bool) -> (r: Option<(u8, usize)>)
    requires
        i <= w@.len(),
    ensures
        match r {
            Some((v, j)) => read_group(w@, i as int, last) == Some((v, j as int)) && j <= w@.len(),
            None => read_group(w@, i as int, last) is None,
        },
{
    match read_octet_in(w, i) {
        None => None,
        Some((v, j)) => {
            proof {
                lemma_digit_run(w@, i as int);
            }
            if last {
                if j == w.len() {
                    Some((v, j))
                } else {
                    None
                }
            } else {
                if j < w.len() && w[j] == '.' {
                    Some((v, j + 1))
                } else {
                    None
                }
            }
        },
    }
}

impl Ipv4Addr {
    /// Reads a dotted-decimal address: the address whose rendering is exactly `w[from..to]`.
    pub fn parse_chars(w: &Vec<char>, from: usize, to: usize) -> (r: Option<Ipv4Addr>)
        requires
            from <= to <= w@.len(),
        ensures
            r == spec_parse_ipv4(w@.subrange(from as int, to as int)),
    {
        let mut part: Vec<char> = Vec::new();
        let mut i = from;
        while i < to
            invariant
                from <= i <= to <= w@.len(),
                part@ == w@.subrange(from as int, i as int),
            decreases to - i,
        {
            part.push(w[i]);
            i += 1;
            assert(part@ =~= w@.subrange(from as int, i as int));
        }
        let ghost s = part@;
        proof {
            lemma_scan_ipv4(s);
        }
        let r = match read_group_in(&part, 0, false) {
            None => None,
            Some((a, i)) => match read_group_in(&part, i, false) {
                None => None,
                Some((b, j)) => match read_group_in(&part, j, false) {
                    None => None,
                    Some((c, k)) => match read_group_in(&part, k, true) {
                        None => None,
                        Some((d, _)) => Some(Ipv4Addr(a, b, c, d)),
                    },
                },
            },
        };
        assert(r == scan_ipv4(s));
        proof {
            if exists|a: Ipv4Addr| a.text() == s {
                let a = choose|a: Ipv4Addr| a.text() == s;
                assert(scan_ipv4(s) == Some(a));
            }
        }
        r
    }

    /// Reads a dotted-decimal address: the address whose rendering is exactly `s`.
    pub fn parse(s: &str) -> (r: Option<Ipv4Addr>)
        ensures
            r == spec_parse_ipv4(s@),
    {
        let w = crate::text::chars_of(s);
        let r = Ipv4Addr::parse_chars(&w, 0, w.len());
        assert(w@.subrange(0, w@.len() as int) =~= s@);
        r
    }
}

} // verus!
