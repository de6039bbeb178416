//! How addresses are written.

use vstd::prelude::*;

use crate::addr::IpAddr;
use crate::bytes::{push_ascii, push_dec, push_hex};

verus! {

/// An IPv4 address in dotted decimals.
pub open spec fn v4_text(ip: nat) -> Seq<u8> {
    use_dots(
        crate::bytes::dec_text(ip / 0x100_0000 % 256),
        crate::bytes::dec_text(ip / 0x1_0000 % 256),
        crate::bytes::dec_text(ip / 0x100 % 256),
        crate::bytes::dec_text(ip % 256),
    )
}

pub open spec fn use_dots(a: Seq<u8>, b: Seq<u8>, c: Seq<u8>, d: Seq<u8>) -> Seq<u8> {
    a + crate::bytes::ascii("."@) + b + crate::bytes::ascii("."@) + c + crate::bytes::ascii("."@)
        + d
}

/// The last `count` groups of 16 bits of a number, the most significant first.
pub open spec fn groups(n: nat, count: nat) -> Seq<u16>
    decreases count,
{
    if count == 0 {
        Seq::empty()
    } else {
        groups(n / 0x1_0000, (count - 1) as nat).push((n % 0x1_0000) as u16)
    }
}

/// How many groups from `start` on are zero without a break.
pub open spec fn zero_run(segments: Seq<u16>, start: int) -> nat
    decreases segments.len() - start,
{
    if 0 <= start < segments.len() && segments[start] == 0 {
        1 + zero_run(segments, start + 1)
    } else {
        0
    }
}

/// The first of the longest runs of zeros that begin before `upto`: where it
/// begins and how long it is.
pub open spec fn longest_zero_run(segments: Seq<u16>, upto: nat) -> (int, nat)
    decreases upto,
{
    if upto == 0 {
        (0, 0)
    } else {
        let best = longest_zero_run(segments, (upto - 1) as nat);
        let here = zero_run(segments, upto - 1);
        if here > best.1 {
            (upto - 1, here)
        } else {
            best
        }
    }
}

/// Groups in hexadecimal, with colons between them.
pub open spec fn joined(segments: Seq<u16>) -> Seq<u8>
    decreases segments.len(),
{
    if segments.len() == 0 {
        Seq::empty()
    } else if segments.len() == 1 {
        crate::bytes::hex_text(segments[0] as nat)
    } else {
        joined(segments.drop_last()) + crate::bytes::ascii(":"@) + crate::bytes::hex_text(
            segments.last() as nat,
        )
    }
}

/// An IPv6 address. One that holds an IPv4 address ends in its dotted decimals.
/// In any other the first of the longest runs of two or more zero groups is
/// written as two colons.
pub open spec fn v6_text(ip: nat) -> Seq<u8> {
    let segments = groups(ip, 8);
    let (start, len) = longest_zero_run(segments, 8);
    if ip / 0x1_0000_0000 == 0xffff {
        crate::bytes::ascii("::ffff:"@) + v4_text(ip % 0x1_0000_0000)
    } else if len > 1 {
        joined(segments.take(start)) + crate::bytes::ascii("::"@) + joined(
            segments.skip(start + len),
        )
    } else {
        joined(segments)
    }
}

pub open spec fn ip_text(ip: IpAddr) -> Seq<u8> {
    match ip {
        IpAddr::V4(ip) => v4_text(ip as nat),
        IpAddr::V6(ip) => v6_text(ip as nat),
    }
}

/// The run that is written as two colons is the longest, and the first of its
/// length.
pub proof fn law_longest_zero_run(segments: Seq<u16>, upto: nat, start: int)
    requires
        0 <= start < upto,
    ensures
        ({
            let best = longest_zero_run(segments, upto);
            &&& zero_run(segments, start) <= best.1
            &&& zero_run(segments, start) == best.1 && best.1 > 0 ==> best.0 <= start
        }),
    decreases upto,
{
    if start < upto - 1 {
        law_longest_zero_run(segments, (upto - 1) as nat, start);
    }
    lemma_longest_is_a_run(segments, (upto - 1) as nat);
}

proof fn lemma_longest_is_a_run(segments: Seq<u16>, upto: nat)
    ensures
        ({
            let best = longest_zero_run(segments, upto);
            &&& best.1 > 0 ==> 0 <= best.0 < upto && zero_run(segments, best.0) == best.1
        }),
    decreases upto,
{
    if upto > 0 {
        lemma_longest_is_a_run(segments, (upto - 1) as nat);
    }
}

fn push_v4(out: &mut Vec<u8>, ip: u32)
    ensures
        final(out)@ == old(out)@ + v4_text(ip as nat),
{
    proof {
        reveal_strlit(".");
    }
    push_dec(out, (ip / 0x100_0000 % 256) as u64);
    push_ascii(out, ".");
    push_dec(out, (ip / 0x1_0000 % 256) as u64);
    push_ascii(out, ".");
    push_dec(out, (ip / 0x100 % 256) as u64);
    push_ascii(out, ".");
    push_dec(out, (ip % 256) as u64);
    assert(out@ =~= old(out)@ + v4_text(ip as nat));
}

fn groups_of(n: u128, count: usize) -> (segments: Vec<u16>)
    ensures
        segments@ == groups(n as nat, count as nat),
    decreases count,
{
    if count == 0 {
        Vec::new()
    } else {
        let mut segments = groups_of(n / 0x1_0000, count - 1);
        segments.push((n % 0x1_0000) as u16);
        segments
    }
}

fn zero_run_from(segments: &Vec<u16>, start: usize) -> (len: usize)
    requires
        start <= segments.len(),
    ensures
        len == zero_run(segments@, start as int),
        start + len <= segments.len(),
    decreases segments.len() - start,
{
    if start < segments.len() && segments[start] == 0 {
        1 + zero_run_from(segments, start + 1)
    } else {
        0
    }
}

/// Appends the groups from `from` to before `to`.
fn push_joined(out: &mut Vec<u8>, segments: &Vec<u16>, from: usize, to: usize)
    requires
        from <= to <= segments.len(),
    ensures
        final(out)@ == old(out)@ + joined(segments@.subrange(from as int, to as int)),
    decreases to - from,
{
    proof {
        reveal_strlit(":");
    }
    let ghost part = segments@.subrange(from as int, to as int);
    if from < to {
        if from + 1 < to {
            push_joined(out, segments, from, to - 1);
            push_ascii(out, ":");
            assert(part.drop_last() =~= segments@.subrange(from as int, to - 1));
        }
        push_hex(out, segments[to - 1]);
    }
    assert(out@ =~= old(out)@ + joined(part));
}

fn push_v6(out: &mut Vec<u8>, ip: u128)
    ensures
        final(out)@ == old(out)@ + v6_text(ip as nat),
{
    proof {
        reveal_strlit("::ffff:");
        reveal_strlit("::");
    }
    if ip / 0x1_0000_0000 == 0xffff {
        push_ascii(out, "::ffff:");
        push_v4(out, (ip % 0x1_0000_0000) as u32);
        assert(out@ =~= old(out)@ + v6_text(ip as nat));
        return;
    }
    let segments = groups_of(ip, 8);
    proof {
        lemma_groups_len(ip as nat, 8);
    }
    let mut start: usize = 0;
    let mut len: usize = 0;
    let mut i: usize = 0;
    while i < 8
        invariant
            i <= 8,
            segments.len() == 8,
            longest_zero_run(segments@, i as nat) == (start as int, len as nat),
            start + len <= 8,
        decreases 8 - i,
    {
        let here: usize = zero_run_from(&segments, i);
        if here > len {
            start = i;
            len = here;
        }
        i = i + 1;
    }
    if len > 1 {
        push_joined(out, &segments, 0, start);
        push_ascii(out, "::");
        push_joined(out, &segments, start + len, 8);
        assert(segments@.take(start as int) =~= segments@.subrange(0, start as int));
        assert(segments@.skip(start + len) =~= segments@.subrange(start + len, 8));
    } else {
        push_joined(out, &segments, 0, 8);
        assert(segments@ =~= segments@.subrange(0, 8));
    }
    assert(out@ =~= old(out)@ + v6_text(ip as nat));
}

proof fn lemma_groups_len(n: nat, count: nat)
    ensures
        groups(n, count).len() == count,
    decreases count,
{
    if count > 0 {
        lemma_groups_len(n / 0x1_0000, (count - 1) as nat);
    }
}

/// Appends an address as text.
pub(crate) fn push_ip(out: &mut Vec<u8>, ip: IpAddr)
    ensures
        final(out)@ == old(out)@ + ip_text(ip),
{
    match ip {
        IpAddr::V4(ip) => push_v4(out, ip),
        IpAddr::V6(ip) => push_v6(out, ip),
    }
}

proof fn lemma_four_bytes(a: nat, b: nat, c: nat, d: nat)
    requires
        a < 256,
        b < 256,
        c < 256,
        d < 256,
    ensures
        ({
            let n = a * 0x100_0000 + b * 0x1_0000 + c * 0x100 + d;
            &&& n / 0x100_0000 % 256 == a
            &&& n / 0x1_0000 % 256 == b
            &&& n / 0x100 % 256 == c
            &&& n % 256 == d
        }),
{
    let n = a * 0x100_0000 + b * 0x1_0000 + c * 0x100 + d;
    assert(n / 0x100_0000 == a);
    assert(n / 0x1_0000 == a * 256 + b);
    assert(n / 0x100 == a * 0x1_0000 + b * 0x100 + c);
}

/// The text of an IPv4 address is its four bytes in decimal, from the highest to the
/// lowest, with dots between them.
pub proof fn law_v4_text_is_four_numbers_with_dots(a: nat, b: nat, c: nat, d: nat)
    requires
        a < 256,
        b < 256,
        c < 256,
        d < 256,
    ensures
        v4_text(a * 0x100_0000 + b * 0x1_0000 + c * 0x100 + d) == crate::bytes::dec_text(a)
            + seq![0x2eu8] + crate::bytes::dec_text(b) + seq![0x2eu8] + crate::bytes::dec_text(c)
            + seq![0x2eu8] + crate::bytes::dec_text(d),
{
    reveal_strlit(".");
    assert(crate::bytes::ascii("."@) =~= seq![0x2eu8]);
    lemma_four_bytes(a, b, c, d);
}

/// The number that groups of sixteen bits make up, the highest first.
pub open spec fn read_groups(segments: Seq<u16>) -> int
    decreases segments.len(),
{
    if segments.len() == 0 {
        0
    } else {
        read_groups(segments.drop_last()) * 0x1_0000 + segments.last()
    }
}

/// How many different numbers so many groups can make up.
pub open spec fn group_range(count: nat) -> int
    decreases count,
{
    if count == 0 {
        1
    } else {
        group_range((count - 1) as nat) * 0x1_0000
    }
}

proof fn lemma_groups(n: nat, count: nat)
    requires
        n < group_range(count),
    ensures
        groups(n, count).len() == count,
        read_groups(groups(n, count)) == n,
    decreases count,
{
    if count > 0 {
        assert(n / 0x1_0000 < group_range((count - 1) as nat));
        lemma_groups(n / 0x1_0000, (count - 1) as nat);
        assert(groups(n, count).drop_last() =~= groups(n / 0x1_0000, (count - 1) as nat));
    }
}

proof fn lemma_read_groups_unique(a: Seq<u16>, b: Seq<u16>)
    requires
        a.len() == b.len(),
        read_groups(a) == read_groups(b),
    ensures
        a == b,
    decreases a.len(),
{
    if a.len() > 0 {
        assert(read_groups(a) % 0x1_0000 == a.last());
        assert(read_groups(b) % 0x1_0000 == b.last());
        assert(read_groups(a) / 0x1_0000 == read_groups(a.drop_last()));
        assert(read_groups(b) / 0x1_0000 == read_groups(b.drop_last()));
        lemma_read_groups_unique(a.drop_last(), b.drop_last());
        assert(a =~= a.drop_last().push(a.last()));
        assert(b =~= b.drop_last().push(b.last()));
    } else {
        assert(a =~= b);
    }
}

proof fn lemma_zero_run(segments: Seq<u16>, start: int)
    requires
        0 <= start <= segments.len(),
    ensures
        ({
            let k = zero_run(segments, start) as int;
            &&& start + k <= segments.len()
            &&& forall|i: int| start <= i < start + k ==> #[trigger] segments[i] == 0
            &&& start + k < segments.len() ==> segments[start + k] != 0
        }),
    decreases segments.len() - start,
{
    if start < segments.len() && segments[start] == 0 {
        lemma_zero_run(segments, start + 1);
    }
}

/// Whether so many groups from `start` on are there and are zero.
pub open spec fn zeros(segments: Seq<u16>, start: int, len: int) -> bool {
    &&& 0 <= start <= start + len <= segments.len()
    &&& forall|i: int| start <= i < start + len ==> #[trigger] segments[i] == 0
}

/// The groups of an address as text, with colons between them.
pub proof fn law_groups_are_joined_by_colons(segments: Seq<u16>, next: u16)
    ensures
        joined(Seq::empty()) == Seq::<u8>::empty(),
        joined(seq![next]) == crate::bytes::hex_text(next as nat),
        segments.len() > 0 ==> joined(segments.push(next)) == joined(segments) + seq![0x3au8]
            + crate::bytes::hex_text(next as nat),
{
    reveal_strlit(":");
    assert(crate::bytes::ascii(":"@) =~= seq![0x3au8]);
    assert(segments.push(next).drop_last() =~= segments);
    assert(seq![next].drop_last() =~= Seq::<u16>::empty());
}

/// The text of an IPv6 address is its eight groups in hexadecimal with colons between
/// them. Where two or more groups in a row are zero, the longest such row, and of two
/// as long the first, is written as two colons. An address that stands for an IPv4
/// address is written as `::ffff:` and that one.
pub proof fn law_v6_text_shortens_the_longest_row_of_zeros(
    segments: Seq<u16>,
    start: int,
    len: int,
)
    requires
        segments.len() == 8,
        zeros(segments, start, len),
        forall|s: int, k: int| #[trigger]
            zeros(segments, s, k) && k > 0 ==> k < len || (k == len && start <= s),
    ensures
        ({
            let text = v6_text(read_groups(segments) as nat);
            let mapped = segments[0] == 0 && segments[1] == 0 && segments[2] == 0 && segments[3]
                == 0 && segments[4] == 0 && segments[5] == 0xffff;
            &&& mapped ==> text == seq![0x3au8, 0x3a, 0x66, 0x66, 0x66, 0x66, 0x3a] + v4_text(
                (segments[6] * 0x1_0000 + segments[7]) as nat,
            )
            &&& !mapped && len >= 2 ==> text == joined(segments.take(start)) + seq![0x3au8, 0x3a]
                + joined(segments.skip(start + len))
            &&& !mapped && len < 2 ==> text == joined(segments)
        }),
{
    reveal_strlit("::ffff:");
    reveal_strlit("::");
    assert(crate::bytes::ascii("::ffff:"@) =~= seq![0x3au8, 0x3a, 0x66, 0x66, 0x66, 0x66, 0x3a]);
    assert(crate::bytes::ascii("::"@) =~= seq![0x3au8, 0x3a]);
    lemma_value_of_eight(segments);
    let n = read_groups(segments);
    lemma_groups(n as nat, 8);
    lemma_read_groups_unique(groups(n as nat, 8), segments);
    let best = longest_zero_run(segments, 8);
    lemma_longest_is_a_run(segments, 8);
    if best.1 > 0 {
        lemma_zero_run(segments, best.0);
        let k = best.1 as int;
        assert(zeros(segments, best.0, k));
        assert(k < len || (k == len && start <= best.0));
    }
    if len > 0 {
        lemma_zero_run(segments, start);
        law_longest_zero_run(segments, 8, start);
        let z = zero_run(segments, start) as int;
        assert(z >= len) by {
            if z < len {
                assert(segments[start + z] == 0);
            }
        }
        assert(best.1 >= len);
        assert(best.1 == len);
        assert(z == best.1);
        assert(best.0 == start);
    }
}

proof fn lemma_value_of_eight(segments: Seq<u16>)
    requires
        segments.len() == 8,
    ensures
        0 <= read_groups(segments) < group_range(8),
        read_groups(segments) / 0x1_0000_0000 == 0xffff <==> segments[0] == 0 && segments[1] == 0
            && segments[2] == 0 && segments[3] == 0 && segments[4] == 0 && segments[5] == 0xffff,
        read_groups(segments) % 0x1_0000_0000 == segments[6] * 0x1_0000 + segments[7],
{
    let s7 = segments.drop_last();
    let s6 = s7.drop_last();
    let s5 = s6.drop_last();
    let s4 = s5.drop_last();
    let s3 = s4.drop_last();
    let s2 = s3.drop_last();
    let s1 = s2.drop_last();
    let s0 = s1.drop_last();
    assert(read_groups(s0) == 0);
    assert(read_groups(s1) == segments[0]);
    assert(read_groups(s2) == segments[0] * 0x1_0000 + segments[1]);
    assert(read_groups(s3) == read_groups(s2) * 0x1_0000 + segments[2]);
    assert(read_groups(s4) == read_groups(s3) * 0x1_0000 + segments[3]);
    assert(read_groups(s5) == read_groups(s4) * 0x1_0000 + segments[4]);
    assert(read_groups(s6) == read_groups(s5) * 0x1_0000 + segments[5]);
    assert(read_groups(s7) == read_groups(s6) * 0x1_0000 + segments[6]);
    assert(read_groups(segments) == read_groups(s7) * 0x1_0000 + segments[7]);
    reveal_with_fuel(group_range, 9);
}

} // verus!
