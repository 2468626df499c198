//! Internet addresses.
use vstd::prelude::*;
use vstd::std_specs::convert::FromSpecImpl;

use crate::text::nat_text;
use crate::text::render_nat;

verus! {

/// An address of the Internet Protocol, version 4: its four bytes as they
/// come from the wire, the last byte of the address first.
#[derive(Debug, Clone, Copy, Hash, PartialEq, Eq)]
pub struct IpV4(pub [u8; 4]);

/// An address of the Internet Protocol, version 6: its sixteen bytes as they
/// come from the wire, the last byte of the address first.
#[derive(Debug, Clone, Copy, Hash, PartialEq, Eq)]
pub struct IpV6(pub [u8; 16]);

impl View for IpV4 {
    type V = Seq<u8>;

    open spec fn view(&self) -> Seq<u8> {
        self.0@
    }
}

impl View for IpV6 {
    type V = Seq<u8>;

    open spec fn view(&self) -> Seq<u8> {
        self.0@
    }
}

impl IpV4 {
    /// The address of these bytes.
    pub fn new(data: [u8; 4]) -> (r: Self)
        ensures
            r@ == data@,
    {
        Self(data)
    }

    /// The bytes of the address in the order in which an address is written:
    /// the bytes of the wire, the last one first.
    pub fn octets(&self) -> (r: [u8; 4])
        ensures
            r@ == self@.reverse(),
    {
        let r: [u8; 4] = [self.0[3], self.0[2], self.0[1], self.0[0]];
        assert(r@ =~= self@.reverse());
        r
    }
}

impl IpV6 {
    /// The address of these bytes.
    pub fn new(data: [u8; 16]) -> (r: Self)
        ensures
            r@ == data@,
    {
        Self(data)
    }

    /// The bytes of the address in the order in which an address is written:
    /// the bytes of the wire, the last one first.
    pub fn octets(&self) -> (r: [u8; 16])
        ensures
            r@ == self@.reverse(),
    {
        let mut r: [u8; 16] = [0u8; 16];
        let mut i: usize = 0;
        while i < 16
            invariant
                i <= 16,
                forall|j: int| 0 <= j < i ==> r@[j] == self@[15 - j],
            decreases 16 - i,
        {
            r[i] = self.0[15 - i];
            i = i + 1;
        }
        assert(r@ =~= self@.reverse());
        r
    }
}

/// The text of an address of version 4, from its four bytes in the order in
/// which they are written: each byte in decimal digits, with dots between
/// them.
pub open spec fn ipv4_text(octets: Seq<u8>) -> Seq<char> {
    nat_text(octets[0] as nat) + seq!['.'] + nat_text(octets[1] as nat) + seq!['.'] + nat_text(
        octets[2] as nat,
    ) + seq!['.'] + nat_text(octets[3] as nat)
}

/// The hexadecimal digit of a number below sixteen, in lower case.
pub open spec fn hex_digit(n: nat) -> char {
    if n < 10 {
        (0x30 + n) as char
    } else {
        (0x61 + n - 10) as char
    }
}

/// A number in hexadecimal digits of lower case, without leading zeros.
pub open spec fn hex_text(n: nat) -> Seq<char>
    decreases n,
{
    if n < 16 {
        seq![hex_digit(n)]
    } else {
        hex_text(n / 16).push(hex_digit(n % 16))
    }
}

/// The eight groups of an address of version 6, from its sixteen bytes in
/// the order in which they are written: two bytes make a group, the more
/// significant byte first.
pub open spec fn groups(octets: Seq<u8>) -> Seq<u16> {
    Seq::new(8, |i: int| (octets[2 * i] as int * 256 + octets[2 * i + 1] as int) as u16)
}

/// How many groups from the one at `i` on are zero without a break.
pub open spec fn zero_run(groups: Seq<u16>, i: int) -> nat
    decreases groups.len() - i,
{
    if 0 <= i < groups.len() && groups[i] == 0 {
        1 + zero_run(groups, i + 1)
    } else {
        0
    }
}

/// The longest run of zero groups that begins at `i` or behind it, as the
/// place where it begins and its length; of several of that length the
/// first.  The length is zero where no group from `i` on is zero.
pub open spec fn longest_zero_run(groups: Seq<u16>, i: int) -> (int, nat)
    decreases groups.len() - i,
{
    if 0 <= i < groups.len() {
        let rest = longest_zero_run(groups, i + 1);
        let here = zero_run(groups, i);
        if here > 0 && here >= rest.1 {
            (i, here)
        } else {
            rest
        }
    } else {
        (groups.len() as int, 0nat)
    }
}

/// The groups in hexadecimal digits, with colons between them.
pub open spec fn join_groups(groups: Seq<u16>) -> Seq<char>
    decreases groups.len(),
{
    if groups.len() == 0 {
        Seq::empty()
    } else if groups.len() == 1 {
        hex_text(groups[0] as nat)
    } else {
        join_groups(groups.drop_last()) + seq![':'] + hex_text(groups.last() as nat)
    }
}

/// Whether an address of version 6 stands for one of version 4: its first
/// five groups are zero and the sixth has all its bits set.
pub open spec fn is_ipv4_mapped(octets: Seq<u8>) -> bool {
    &&& forall|i: int| 0 <= i < 10 ==> octets[i] == 0
    &&& octets[10] == 0xff
    &&& octets[11] == 0xff
}

/// The text of an address of version 6, from its sixteen bytes in the order
/// in which they are written.  An address that stands for one of version 4
/// is `::ffff:` and the text of that address.  In any other the groups are
/// joined by colons, and the longest run of two or more zero groups, the
/// first of several, is left out, with `::` in its place.
pub open spec fn ipv6_text(octets: Seq<u8>) -> Seq<char> {
    if is_ipv4_mapped(octets) {
        seq![':', ':', 'f', 'f', 'f', 'f', ':'] + ipv4_text(octets.skip(12))
    } else {
        let groups = groups(octets);
        let run = longest_zero_run(groups, 0);
        if run.1 > 1 {
            join_groups(groups.take(run.0)) + seq![':', ':'] + join_groups(
                groups.skip(run.0 + run.1),
            )
        } else {
            join_groups(groups)
        }
    }
}

/// Appends the text of the address of version 4 with these bytes.
fn push_ipv4(out: &mut String, a: u8, b: u8, c: u8, d: u8)
    ensures
        final(out)@ == old(out)@ + ipv4_text(seq![a, b, c, d]),
{
    render_nat(out, a as u128);
    out.push('.');
    render_nat(out, b as u128);
    out.push('.');
    render_nat(out, c as u128);
    out.push('.');
    render_nat(out, d as u128);
    assert(out@ =~= old(out)@ + ipv4_text(seq![a, b, c, d]));
}

/// Appends a number in hexadecimal digits.
fn push_hex(out: &mut String, n: u16)
    ensures
        final(out)@ == old(out)@ + hex_text(n as nat),
    decreases n,
{
    if n >= 16 {
        push_hex(out, n / 16);
    }
    let d: u8 = (n % 16) as u8;
    let c: char = if d < 10 {
        (0x30u8 + d) as char
    } else {
        (0x61u8 + (d - 10)) as char
    };
    assert(c == hex_digit((n % 16) as nat));
    out.push(c);
    assert(out@ =~= old(out)@ + hex_text(n as nat));
}

/// Appends the groups from `from` up to `to`, with colons between them.
fn push_groups(out: &mut String, groups: &[u16; 8], from: usize, to: usize)
    requires
        from <= to <= 8,
    ensures
        final(out)@ == old(out)@ + join_groups(groups@.subrange(from as int, to as int)),
{
    let mut i: usize = from;
    assert(out@ =~= old(out)@ + join_groups(groups@.subrange(from as int, from as int)));
    while i < to
        invariant
            from <= i <= to <= 8,
            out@ == old(out)@ + join_groups(groups@.subrange(from as int, i as int)),
        decreases to - i,
    {
        let ghost before = out@;
        if i > from {
            out.push(':');
        }
        push_hex(out, groups[i]);
        proof {
            let next = groups@.subrange(from as int, i + 1);
            assert(next.drop_last() =~= groups@.subrange(from as int, i as int));
            assert(next.last() == groups@[i as int]);
            if i > from {
                assert(out@ =~= before + seq![':'] + hex_text(groups@[i as int] as nat));
                assert(out@ =~= old(out)@ + join_groups(next));
            } else {
                assert(before =~= old(out)@);
                assert(out@ =~= old(out)@ + join_groups(next));
            }
        }
        i = i + 1;
    }
}

/// The groups of the sixteen bytes of an address.
fn groups_of(octets: &[u8; 16]) -> (r: [u16; 8])
    ensures
        r@ == groups(octets@),
{
    let mut r: [u16; 8] = [0u16; 8];
    let mut i: usize = 0;
    while i < 8
        invariant
            i <= 8,
            forall|j: int| 0 <= j < i ==> r@[j] == groups(octets@)[j],
        decreases 8 - i,
    {
        let high: u16 = octets[2 * i] as u16;
        let low: u16 = octets[2 * i + 1] as u16;
        r[i] = high * 256 + low;
        i = i + 1;
    }
    assert(r@ =~= groups(octets@));
    r
}

/// The longest run of zero groups: where it begins and its length.
fn find_zero_run(groups: &[u16; 8]) -> (r: (usize, usize))
    ensures
        (r.0 as int, r.1 as nat) == longest_zero_run(groups@, 0),
        r.0 + r.1 <= 8,
{
    let mut start: usize = 8;
    let mut len: usize = 0;
    let mut run: usize = 0;
    let mut i: usize = 8;
    while i > 0
        invariant
            i <= 8,
            run == zero_run(groups@, i as int),
            run <= 8 - i,
            (start as int, len as nat) == longest_zero_run(groups@, i as int),
            i <= start,
            start + len <= 8,
        decreases i,
    {
        i = i - 1;
        if groups[i] == 0 {
            run = run + 1;
        } else {
            run = 0;
        }
        if run > 0 && run >= len {
            start = i;
            len = run;
        }
    }
    (start, len)
}

/// Whether the sixteen bytes of an address stand for one of version 4.
fn ipv4_mapped(octets: &[u8; 16]) -> (r: bool)
    ensures
        r == is_ipv4_mapped(octets@),
{
    let mut i: usize = 0;
    while i < 10
        invariant
            i <= 10,
            forall|j: int| 0 <= j < i ==> octets@[j] == 0,
        decreases 10 - i,
    {
        if octets[i] != 0 {
            return false;
        }
        i = i + 1;
    }
    octets[10] == 0xff && octets[11] == 0xff
}

impl IpV4 {
    /// The address in text, as `127.0.0.1`.
    pub fn to_text(&self) -> (text: String)
        ensures
            text@ == ipv4_text(self@.reverse()),
    {
        let octets: [u8; 4] = self.octets();
        let mut text: String = String::new();
        push_ipv4(&mut text, octets[0], octets[1], octets[2], octets[3]);
        assert(seq![octets@[0], octets@[1], octets@[2], octets@[3]] =~= octets@);
        text
    }
}

impl IpV6 {
    /// The address in text, as `2001:db8::1`.
    pub fn to_text(&self) -> (text: String)
        ensures
            text@ == ipv6_text(self@.reverse()),
    {
        let octets: [u8; 16] = self.octets();
        let mut text: String = String::new();
        if ipv4_mapped(&octets) {
            text.push(':');
            text.push(':');
            text.push('f');
            text.push('f');
            text.push('f');
            text.push('f');
            text.push(':');
            push_ipv4(&mut text, octets[12], octets[13], octets[14], octets[15]);
            assert(seq![octets@[12], octets@[13], octets@[14], octets@[15]] =~= octets@.skip(12));
            assert(text@ =~= seq![':', ':', 'f', 'f', 'f', 'f', ':'] + ipv4_text(octets@.skip(12)));
        } else {
            let groups: [u16; 8] = groups_of(&octets);
            let (start, len) = find_zero_run(&groups);
            if len > 1 {
                push_groups(&mut text, &groups, 0, start);
                text.push(':');
                text.push(':');
                push_groups(&mut text, &groups, start + len, 8);
                assert(groups@.subrange(0, start as int) =~= groups@.take(start as int));
                assert(groups@.subrange(start + len, 8) =~= groups@.skip(start + len));
                assert(text@ =~= join_groups(groups@.take(start as int)) + seq![':', ':']
                    + join_groups(groups@.skip(start + len)));
            } else {
                push_groups(&mut text, &groups, 0, 8);
                assert(groups@.subrange(0, 8) =~= groups@);
                assert(text@ =~= join_groups(groups@));
            }
        }
        text
    }
}

impl From<IpV4> for String {
    /// The address in text.
    fn from(value: IpV4) -> (text: String)
        ensures
            text@ == ipv4_text(value@.reverse()),
    {
        value.to_text()
    }
}

impl FromSpecImpl<IpV4> for String {
    open spec fn obeys_from_spec() -> bool {
        false
    }

    open spec fn from_spec(v: IpV4) -> String {
        arbitrary()
    }
}

impl From<IpV6> for String {
    /// The address in text.
    fn from(value: IpV6) -> (text: String)
        ensures
            text@ == ipv6_text(value@.reverse()),
    {
        value.to_text()
    }
}

impl FromSpecImpl<IpV6> for String {
    open spec fn obeys_from_spec() -> bool {
        false
    }

    open spec fn from_spec(v: IpV6) -> String {
        arbitrary()
    }
}

} // verus!
