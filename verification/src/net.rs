//! IPv4 CIDR blocks ("10.0.0.0/24"): membership, text rendering and parsing.

use vstd::prelude::*;
use crate::addr::{lemma_scan_ipv4, spec_parse_ipv4, IpAddr, Ipv4Addr};
use crate::text::{
    chars_of, dec, is_digit, lemma_dec, lemma_digit_run_exact, parse_u8, push_dec, spec_parse_u8,
    IntErrorKind,
};

verus! {

/// The error text when the block has no '/'.
pub const MISSING_SLASH: &'static str = "missing /";

/// The error text when the address part is not a dotted-decimal IPv4 address.
pub const BAD_ADDRESS: &'static str = "invalid IPv4 address syntax";

/// The error text when the prefix length is empty.
pub const EMPTY_NUMBER: &'static str = "cannot parse integer from empty string";

/// The error text when the prefix length holds something other than digits.
pub const INVALID_DIGIT: &'static str = "invalid digit found in string";

/// The error text when the prefix length is longer than the 32 bits of an address.
pub const PREFIX_TOO_LONG: &'static str = "prefix length must be at most 32";

/// The error text when the prefix length does not fit in a byte.
pub const NUMBER_TOO_LARGE: &'static str = "number too large to fit in target type";

/// An IPv4 CIDR block: an address and the number of leading bits that the block fixes.
#[derive(Clone, Copy, Debug, PartialEq, Eq, Hash, Structural)]
pub struct Ipv4Network {
    pub addr: Ipv4Addr,
    pub prefix_len: u8,
}

/// Whether the first `prefix` bits (counted from the most significant) of `x` and `y` agree.
pub open spec fn prefix_match(prefix: u8, x: u32, y: u32) -> bool {
    prefix == 0 || (x >> ((32 - prefix) as u32)) == (y >> ((32 - prefix) as u32))
}

/// The mask whose `prefix` most significant bits are set: 2^32 - 2^(32 - prefix).
pub fn mask_from_prefix(prefix: u8) -> (mask: u32)
    requires
        prefix <= 32,
    ensures
        mask as int == 0x1_0000_0000 - (1u64 << ((32 - prefix) as u64)),
        forall|x: u32, y: u32| (x & mask) == (y & mask) <==> prefix_match(prefix, x, y),
{
    if prefix == 0 {
        assert(1u64 << 32u64 == 0x1_0000_0000) by (bit_vector);
        assert(forall|x: u32, y: u32| (x & 0u32) == (y & 0u32)) by (bit_vector);
        0
    } else {
        let s: u32 = (32 - prefix) as u32;
        let mask = !0u32 << s;
        assert(forall|x: u32, y: u32| ((x & mask) == (y & mask) <==> (x >> s) == (y >> s)))
            by (bit_vector)
            requires
                mask == !0u32 << s,
                s < 32,
        ;
        assert(mask as u64 == 0x1_0000_0000u64 - (1u64 << (s as u64))) by (bit_vector)
            requires
                mask == !0u32 << s,
                s < 32,
        ;
        mask
    }
}

impl Ipv4Network {
    /// Whether the block holds `ip`: an IPv4 address that agrees with the block's address
    /// on the first `prefix_len` bits. No IPv6 address is in an IPv4 block.
    pub open spec fn spec_contains(self, ip: IpAddr) -> bool {
        match ip {
            IpAddr::V4(a) => self.prefix_len <= 32 && prefix_match(
                self.prefix_len,
                self.addr.to_u32(),
                a.to_u32(),
            ),
            IpAddr::V6(_) => false,
        }
    }

    /// Whether a membership test for `ip` fails: an IPv4 address tested against a
    /// prefix longer than 32 bits.
    pub open spec fn contains_fails(self, ip: IpAddr) -> bool {
        ip is V4 && self.prefix_len > 32
    }

    pub fn contains(&self, ip: IpAddr) -> (r: bool)
        requires
            !self.contains_fails(ip),
        ensures
            r == self.spec_contains(ip),
    {
        match ip {
            IpAddr::V4(v4) => {
                let mask = mask_from_prefix(self.prefix_len);
                self.addr.to_bits() & mask == v4.to_bits() & mask
            },
            IpAddr::V6(_) => false,
        }
    }

    /// The rendering "a.b.c.d/len".
    pub open spec fn text(self) -> Seq<char> {
        self.addr.text() + seq!['/'] + dec(self.prefix_len as nat)
    }

    pub fn write_to(&self, out: &mut String)
        ensures
            final(out)@ == old(out)@ + self.text(),
    {
        proof {
            reveal_strlit("/");
        }
        self.addr.write_to(out);
        out.append("/");
        push_dec(out, self.prefix_len as u64);
        assert(final(out)@ =~= old(out)@ + self.text());
    }

    pub fn to_string(&self) -> (r: String)
        ensures
            r@ == self.text(),
    {
        let mut s = String::new();
        self.write_to(&mut s);
        assert(s@ =~= self.text());
        s
    }
}

/// The position of the first `c` in `s` at or after `i`.
pub open spec fn find_char(s: Seq<char>, c: char, i: int) -> Option<int>
    decreases s.len() - i,
{
    if i < 0 || i >= s.len() {
        None
    } else if s[i] == c {
        Some(i)
    } else {
        find_char(s, c, i + 1)
    }
}

/// The error text for a prefix length that does not read as a byte.
pub open spec fn int_error_text(kind: IntErrorKind) -> Seq<char> {
    match kind {
        IntErrorKind::Empty => EMPTY_NUMBER@,
        IntErrorKind::InvalidDigit => INVALID_DIGIT@,
        IntErrorKind::PosOverflow => NUMBER_TOO_LARGE@,
    }
}

/// How a text reads as a block: it is cut at its first '/'; the part before must be the
/// dotted-decimal rendering of an address and the part after must read as a byte
/// (see `spec_parse_u8`) of at most 32.
pub open spec fn spec_parse_network(s: Seq<char>) -> Result<Ipv4Network, Seq<char>> {
    match find_char(s, '/', 0) {
        None => Err(MISSING_SLASH@),
        Some(k) => match spec_parse_ipv4(s.take(k)) {
            None => Err(BAD_ADDRESS@),
            Some(addr) => match spec_parse_u8(s.skip(k + 1)) {
                Ok(prefix_len) => if prefix_len <= 32 {
                    Ok(Ipv4Network { addr, prefix_len })
                } else {
                    Err(PREFIX_TOO_LONG@)
                },
                Err(kind) => Err(int_error_text(kind)),
            },
        },
    }
}

/// Finds the first `c` in `w` at or after `i`.
fn find_char_in(w: &Vec<char>, c: char, i: usize) -> (r: Option<usize>)
    requires
        i <= w@.len(),
    ensures
        match r {
            Some(k) => find_char(w@, c, i as int) == Some(k as int) && k < w@.len(),
            None => find_char(w@, c, i as int) is None,
        },
    decreases w@.len() - i,
{
    if i >= w.len() {
        None
    } else if w[i] == c {
        Some(i)
    } else {
        find_char_in(w, c, i + 1)
    }
}

impl Ipv4Network {
    /// Reads a block such as "10.0.0.0/24" (see `spec_parse_network`).
    pub fn parse(s: &str) -> (r: Result<Ipv4Network, String>)
        ensures
            match r {
                Ok(n) => spec_parse_network(s@) == Ok::<Ipv4Network, Seq<char>>(n),
                Err(e) => spec_parse_network(s@) == Err::<Ipv4Network, Seq<char>>(e@),
            },
    {
        let w = chars_of(s);
        match find_char_in(&w, '/', 0) {
            None => Err(String::from_str(MISSING_SLASH)),
            Some(k) => {
                assert(w@.subrange(0, k as int) =~= s@.take(k as int));
                assert(w@.subrange(k + 1, w@.len() as int) =~= s@.skip(k + 1));
                match Ipv4Addr::parse_chars(&w, 0, k) {
                    None => Err(String::from_str(BAD_ADDRESS)),
                    Some(addr) => match parse_u8(&w, k + 1, w.len()) {
                        Ok(prefix_len) => if prefix_len <= 32 {
                            Ok(Ipv4Network { addr, prefix_len })
                        } else {
                            Err(String::from_str(PREFIX_TOO_LONG))
                        },
                        Err(IntErrorKind::Empty) => Err(String::from_str(EMPTY_NUMBER)),
                        Err(IntErrorKind::InvalidDigit) => Err(String::from_str(INVALID_DIGIT)),
                        Err(IntErrorKind::PosOverflow) => Err(
                            String::from_str(NUMBER_TOO_LARGE),
                        ),
                    },
                }
            },
        }
    }
}

impl std::str::FromStr for Ipv4Network {
    type Err = String;

    fn from_str(s: &str) -> (r: Result<Ipv4Network, String>)
        ensures
            match r {
                Ok(n) => spec_parse_network(s@) == Ok::<Ipv4Network, Seq<char>>(n),
                Err(e) => spec_parse_network(s@) == Err::<Ipv4Network, Seq<char>>(e@),
            },
    {
        Ipv4Network::parse(s)
    }
}

/// The first `c` at or after `i` is found where it stands.
proof fn lemma_find_char(s: Seq<char>, c: char, i: int, k: int)
    requires
        0 <= i <= k < s.len(),
        s[k] == c,
        forall|j: int| i <= j < k ==> s[j] != c,
    ensures
        find_char(s, c, i) == Some(k),
    decreases k - i,
{
    if i < k {
        lemma_find_char(s, c, i + 1, k);
    }
}

/// A rendering holds only digits and dots.
proof fn lemma_text_chars(a: Ipv4Addr)
    ensures
        forall|j: int| 0 <= j < a.text().len() ==> is_digit(#[trigger] a.text()[j]) || a.text()[j]
            == '.',
{
    lemma_dec(a.0 as nat);
    lemma_dec(a.1 as nat);
    lemma_dec(a.2 as nat);
    lemma_dec(a.3 as nat);
}

/// The decimal rendering of a byte reads back as that byte.
pub proof fn lemma_parse_u8_dec(v: u8)
    ensures
        spec_parse_u8(dec(v as nat)) == Ok::<u8, IntErrorKind>(v),
{
    let d = dec(v as nat);
    lemma_dec(v as nat);
    assert(is_digit(d[0]));
    lemma_digit_run_exact(d, 0, d.len() as int);
    assert(d.take(d.len() as int) =~= d);
}

/// Rendering a block (with a prefix of at most 32 bits) and reading the text back gives
/// the same block.
pub proof fn lemma_parse_text(n: Ipv4Network)
    requires
        n.prefix_len <= 32,
    ensures
        spec_parse_network(n.text()) == Ok::<Ipv4Network, Seq<char>>(n),
{
    let s = n.text();
    let t = n.addr.text();
    let k = t.len() as int;
    lemma_text_chars(n.addr);
    assert forall|j: int| 0 <= j < k implies s[j] != '/' by {
        assert(s[j] == t[j]);
    }
    assert(s[k] == '/');
    lemma_find_char(s, '/', 0, k);
    assert(s.take(k) =~= t);
    assert(s.skip(k + 1) =~= dec(n.prefix_len as nat));
    lemma_scan_ipv4(t);
    assert(spec_parse_ipv4(t) == Some(n.addr)) by {
        let a = choose|a: Ipv4Addr| a.text() == t;
        assert(n.addr.text() == t);
    }
    lemma_parse_u8_dec(n.prefix_len);
}

} // verus!
