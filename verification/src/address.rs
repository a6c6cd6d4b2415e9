//! Socket addresses of clients and their textual form.
use crate::text::{append_decimal, append_hexadecimal};
use vstd::prelude::*;
use vstd::string::*;

verus! {

/// The IP address and port of a client.
#[allow(inconsistent_fields)]
#[derive(Clone, Copy, Debug, PartialEq, Eq)]
pub enum ClientAddress {
    /// An IPv4 address, its octets in network order, and a port.
    V4 { octets: [u8; 4], port: u16 },
    /// An IPv6 address, its octets in network order, and a port.
    V6 { octets: [u8; 16], port: u16 },
}

/// What a [`ClientAddress`] says.
#[verifier::ext_equal]
pub enum AddressView {
    V4 { octets: Seq<u8>, port: u16 },
    V6 { octets: Seq<u8>, port: u16 },
}

impl View for ClientAddress {
    type V = AddressView;

    open spec fn view(&self) -> AddressView {
        match self {
            ClientAddress::V4 { octets, port } => AddressView::V4 { octets: octets@, port: *port },
            ClientAddress::V6 { octets, port } => AddressView::V6 { octets: octets@, port: *port },
        }
    }
}

/// What an optional client address says.
pub open spec fn view_of(address: Option<ClientAddress>) -> Option<AddressView> {
    match address {
        Some(a) => Some(a@),
        None => None,
    }
}

/// The number that two octets in network order stand for.
pub open spec fn be16(hi: u8, lo: u8) -> u16 {
    (hi * 256 + lo) as u16
}

/// The eight 16-bit groups of an IPv6 address.
pub open spec fn groups(octets: Seq<u8>) -> Seq<u16> {
    Seq::new(8, |i: int| be16(octets[2 * i], octets[2 * i + 1]))
}

/// Dotted decimal text of an IPv4 address.
pub open spec fn ipv4_text(octets: Seq<u8>) -> Seq<char> {
    crate::text::decimal(octets[0] as nat) + "."@ + crate::text::decimal(octets[1] as nat) + "."@
        + crate::text::decimal(octets[2] as nat) + "."@ + crate::text::decimal(octets[3] as nat)
}

/// Groups in hexadecimal, separated by colons.
pub open spec fn groups_text(groups: Seq<u16>) -> Seq<char>
    decreases groups.len(),
{
    if groups.len() == 0 {
        Seq::empty()
    } else if groups.len() == 1 {
        crate::text::hexadecimal(groups[0] as nat)
    } else {
        groups_text(groups.drop_last()) + ":"@ + crate::text::hexadecimal(groups.last() as nat)
    }
}

/// Whether the `len` groups from `start` on are all zero.
pub open spec fn is_zero_run(groups: Seq<u16>, start: int, len: int) -> bool {
    &&& 0 <= start
    &&& 0 <= len
    &&& start + len <= groups.len()
    &&& forall|k: int| start <= k < start + len ==> #[trigger] groups[k] == 0
}

/// Whether the `len` groups from `start` on are the longest run of zeros, the leftmost of those
/// that are as long.
pub open spec fn is_longest_zero_run(groups: Seq<u16>, start: int, len: int) -> bool {
    &&& is_zero_run(groups, start, len)
    &&& forall|s: int, l: int| #[trigger]
        is_zero_run(groups, s, l) ==> l < len || (l == len && start <= s)
}

/// The longest run of zeros: where it starts and how long it is.
pub open spec fn longest_zero_run(groups: Seq<u16>) -> (int, int) {
    choose|start: int, len: int| is_longest_zero_run(groups, start, len)
}

/// Whether an IPv6 address stands for an IPv4 address (`::ffff:0:0/96`).
pub open spec fn is_ipv4_mapped(octets: Seq<u8>) -> bool {
    &&& forall|i: int| 0 <= i < 10 ==> #[trigger] octets[i] == 0
    &&& octets[10] == 0xff
    &&& octets[11] == 0xff
}

/// Canonical text of an IPv6 address: lower case hexadecimal groups without leading zeros, of
/// which the leftmost longest run of two or more zeros is left out; an IPv4-mapped address ends in
/// dotted decimal.
pub open spec fn ipv6_text(octets: Seq<u8>) -> Seq<char> {
    let (start, len) = longest_zero_run(groups(octets));
    if is_ipv4_mapped(octets) {
        "::ffff:"@ + ipv4_text(octets.subrange(12, 16))
    } else if len >= 2 {
        groups_text(groups(octets).take(start)) + "::"@ + groups_text(
            groups(octets).skip(start + len),
        )
    } else {
        groups_text(groups(octets))
    }
}

/// There is only one leftmost longest run of zeros.
pub proof fn lemma_longest_zero_run(groups: Seq<u16>, start: int, len: int)
    requires
        is_longest_zero_run(groups, start, len),
    ensures
        longest_zero_run(groups) == (start, len),
{
    let (s, l) = longest_zero_run(groups);
    assert(is_longest_zero_run(groups, s, l));
    assert(is_zero_run(groups, s, l));
    assert(is_zero_run(groups, start, len));
}

/// Appends the dotted decimal text of an IPv4 address.
pub(crate) fn append_ipv4(out: &mut String, a: u8, b: u8, c: u8, d: u8)
    ensures
        final(out)@ == old(out)@ + ipv4_text(seq![a, b, c, d]),
{
    append_decimal(out, a as usize);
    out.append(".");
    append_decimal(out, b as usize);
    out.append(".");
    append_decimal(out, c as usize);
    out.append(".");
    append_decimal(out, d as usize);
    assert(out@ == old(out)@ + ipv4_text(seq![a, b, c, d]));
}

/// Appends the groups from `from` up to `to`, separated by colons.
fn append_groups(out: &mut String, groups: &Vec<u16>, from: usize, to: usize)
    requires
        from <= to <= groups@.len(),
    ensures
        final(out)@ == old(out)@ + groups_text(groups@.subrange(from as int, to as int)),
{
    let mut k: usize = from;
    while k < to
        invariant
            from <= k <= to <= groups@.len(),
            out@ == old(out)@ + groups_text(groups@.subrange(from as int, k as int)),
        decreases to - k,
    {
        if k > from {
            out.append(":");
        }
        append_hexadecimal(out, groups[k] as usize);
        proof {
            let upto = groups@.subrange(from as int, k + 1);
            assert(upto.drop_last() == groups@.subrange(from as int, k as int));
        }
        k += 1;
    }
}

/// The leftmost longest run of zeros.
fn find_zero_run(groups: &Vec<u16>) -> (run: (usize, usize))
    ensures
        is_longest_zero_run(groups@, run.0 as int, run.1 as int),
{
    let mut start: usize = 0;
    let mut len: usize = 0;
    let mut current: usize = 0;
    let mut k: usize = 0;
    while k < groups.len()
        invariant
            current <= k <= groups@.len(),
            is_zero_run(groups@, k - current, current as int),
            forall|s: int, l: int| #[trigger]
                is_zero_run(groups@, s, l) && s + l == k ==> l <= current,
            is_zero_run(groups@, start as int, len as int),
            start + len <= k,
            forall|s: int, l: int| #[trigger]
                is_zero_run(groups@, s, l) && s + l <= k ==> l < len || (l == len && start <= s),
        decreases groups@.len() - k,
    {
        proof {
            assert forall|s: int, l: int| #[trigger]
                is_zero_run(groups@, s, l) && s + l == k + 1 && l > 0 implies groups@[k as int] == 0
                && l - 1 <= current by {
                assert(is_zero_run(groups@, s, l - 1));
                assert(groups@[s + l - 1] == 0);
            }
        }
        if groups[k] == 0 {
            current += 1;
            if current > len {
                start = k + 1 - current;
                len = current;
            }
        } else {
            current = 0;
        }
        k += 1;
    }
    (start, len)
}

/// Appends the text of an IPv6 address.
pub(crate) fn append_ipv6(out: &mut String, octets: &[u8; 16])
    ensures
        final(out)@ == old(out)@ + ipv6_text(octets@),
{
    let mut mapped: bool = octets[10] == 0xff && octets[11] == 0xff;
    let mut values: Vec<u16> = Vec::new();
    let mut i: usize = 0;
    while i < 8
        invariant
            i <= 8,
            values@ == groups(octets@).take(i as int),
            mapped <==> octets@[10] == 0xff && octets@[11] == 0xff && forall|k: int|
                0 <= k < 10 && k < 2 * i ==> #[trigger] octets@[k] == 0,
        decreases 8 - i,
    {
        let hi: u8 = octets[2 * i];
        let lo: u8 = octets[2 * i + 1];
        if i < 5 && (hi != 0 || lo != 0) {
            mapped = false;
        }
        values.push(hi as u16 * 256 + lo as u16);
        i += 1;
    }
    assert(values@ == groups(octets@));
    if mapped {
        out.append("::ffff:");
        append_ipv4(out, octets[12], octets[13], octets[14], octets[15]);
        assert(octets@.subrange(12, 16) == seq![octets@[12], octets@[13], octets@[14], octets@[15]]);
        assert(out@ == old(out)@ + ipv6_text(octets@));
    } else {
        let (start, len) = find_zero_run(&values);
        proof {
            lemma_longest_zero_run(values@, start as int, len as int);
        }
        if len >= 2 {
            append_groups(out, &values, 0, start);
            out.append("::");
            append_groups(out, &values, start + len, 8);
            assert(values@.take(start as int) == values@.subrange(0, start as int));
            assert(values@.skip(start + len) == values@.subrange(start + len, 8));
            assert(out@ == old(out)@ + ipv6_text(octets@));
        } else {
            append_groups(out, &values, 0, 8);
            assert(values@ == values@.subrange(0, 8));
        }
    }
}

/// The text of an IPv4 address is made of printable characters.
pub proof fn lemma_ipv4_text_printable(octets: Seq<u8>)
    ensures
        crate::text::is_printable(ipv4_text(octets)),
{
    reveal_strlit(".");
    crate::text::lemma_numeral_printable(octets[0] as nat, 10);
    crate::text::lemma_numeral_printable(octets[1] as nat, 10);
    crate::text::lemma_numeral_printable(octets[2] as nat, 10);
    crate::text::lemma_numeral_printable(octets[3] as nat, 10);
}

/// The text of groups is made of printable characters.
proof fn lemma_groups_text_printable(groups: Seq<u16>)
    ensures
        crate::text::is_printable(groups_text(groups)),
    decreases groups.len(),
{
    reveal_strlit(":");
    if groups.len() > 0 {
        crate::text::lemma_numeral_printable(groups.last() as nat, 16);
        lemma_groups_text_printable(groups.drop_last());
    }
}

/// The text of an IPv6 address is made of printable characters.
pub proof fn lemma_ipv6_text_printable(octets: Seq<u8>)
    ensures
        crate::text::is_printable(ipv6_text(octets)),
{
    reveal_strlit("::");
    reveal_strlit("::ffff:");
    let (start, len) = longest_zero_run(groups(octets));
    lemma_ipv4_text_printable(octets.subrange(12, 16));
    lemma_groups_text_printable(groups(octets));
    lemma_groups_text_printable(groups(octets).take(start));
    lemma_groups_text_printable(groups(octets).skip(start + len));
}

} // verus!
