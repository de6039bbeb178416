//! Numbers and text as bytes.

use vstd::prelude::*;
use vstd::string::*;

verus! {

/// The last `width` bytes of a number, the most significant first.
pub open spec fn be_bytes(n: nat, width: nat) -> Seq<u8>
    decreases width,
{
    if width == 0 {
        Seq::empty()
    } else {
        be_bytes(n / 256, (width - 1) as nat).push((n % 256) as u8)
    }
}

/// A number in decimal digits.
pub open spec fn dec_text(n: nat) -> Seq<u8>
    decreases n,
{
    if n < 10 {
        seq![(0x30 + n) as u8]
    } else {
        dec_text(n / 10).push((0x30 + n % 10) as u8)
    }
}

/// One hexadecimal digit.
pub open spec fn hex_digit(n: nat) -> u8 {
    if n < 10 {
        (0x30 + n) as u8
    } else {
        (0x57 + n) as u8
    }
}

/// A number in hexadecimal digits, with small letters.
pub open spec fn hex_text(n: nat) -> Seq<u8>
    decreases n,
{
    if n < 16 {
        seq![hex_digit(n)]
    } else {
        hex_text(n / 16).push(hex_digit(n % 16))
    }
}

/// A text of ASCII characters as bytes.
pub open spec fn ascii(text: Seq<char>) -> Seq<u8> {
    text.map_values(|c: char| c as u8)
}

/// The number that bytes stand for, the most significant first.
pub open spec fn be_value(bytes: Seq<u8>) -> nat
    decreases bytes.len(),
{
    if bytes.len() == 0 {
        0
    } else {
        be_value(bytes.drop_last()) * 256 + bytes.last() as nat
    }
}

/// 256 to the power of `width`.
pub open spec fn byte_range(width: nat) -> nat
    decreases width,
{
    if width == 0 {
        1
    } else {
        256 * byte_range((width - 1) as nat)
    }
}

/// A number that fits can be read back from its bytes.
pub proof fn law_be_bytes_round_trip(n: nat, width: nat)
    requires
        n < byte_range(width),
    ensures
        be_bytes(n, width).len() == width,
        be_value(be_bytes(n, width)) == n,
    decreases width,
{
    if width > 0 {
        assert(n / 256 < byte_range((width - 1) as nat)) by (nonlinear_arith)
            requires
                n < 256 * byte_range((width - 1) as nat),
        ;
        law_be_bytes_round_trip(n / 256, (width - 1) as nat);
        let rest = be_bytes(n / 256, (width - 1) as nat);
        assert(be_bytes(n, width).drop_last() =~= rest);
    }
}

pub(crate) fn push_be(out: &mut Vec<u8>, value: u128, width: usize)
    ensures
        final(out)@ == old(out)@ + be_bytes(value as nat, width as nat),
    decreases width,
{
    if width > 0 {
        push_be(out, value / 256, width - 1);
        out.push((value % 256) as u8);
    }
    assert(out@ =~= old(out)@ + be_bytes(value as nat, width as nat));
}

pub(crate) fn push_dec(out: &mut Vec<u8>, value: u64)
    ensures
        final(out)@ == old(out)@ + dec_text(value as nat),
    decreases value,
{
    if value >= 10 {
        push_dec(out, value / 10);
    }
    out.push(0x30 + (value % 10) as u8);
    assert(out@ =~= old(out)@ + dec_text(value as nat));
}

pub(crate) fn push_hex(out: &mut Vec<u8>, value: u16)
    ensures
        final(out)@ == old(out)@ + hex_text(value as nat),
    decreases value,
{
    if value >= 16 {
        push_hex(out, value / 16);
    }
    let digit: u8 = (value % 16) as u8;
    if digit < 10 {
        out.push(0x30 + digit);
    } else {
        out.push(0x57 + digit);
    }
    assert(out@ =~= old(out)@ + hex_text(value as nat));
}

pub(crate) fn push_ascii(out: &mut Vec<u8>, text: &str)
    requires
        text.is_ascii(),
    ensures
        final(out)@ == old(out)@ + ascii(text@),
{
    let bytes = text.as_bytes();
    assert(bytes@ =~= ascii(text@));
    let mut i: usize = 0;
    while i < bytes.len()
        invariant
            i <= bytes@.len(),
            bytes@ == ascii(text@),
            out@ == old(out)@ + bytes@.take(i as int),
        decreases bytes@.len() - i,
    {
        out.push(bytes[i]);
        i = i + 1;
        assert(out@ =~= old(out)@ + bytes@.take(i as int));
    }
    assert(bytes@.take(i as int) =~= bytes@);
}

/// The number that decimal digits stand for.
pub open spec fn read_dec(digits: Seq<u8>) -> int
    decreases digits.len(),
{
    if digits.len() == 0 {
        0
    } else {
        read_dec(digits.drop_last()) * 10 + (digits.last() - 0x30)
    }
}

/// The number that hexadecimal digits stand for.
pub open spec fn read_hex(digits: Seq<u8>) -> int
    decreases digits.len(),
{
    if digits.len() == 0 {
        0
    } else {
        read_hex(digits.drop_last()) * 16 + (if digits.last() <= 0x39 {
            digits.last() - 0x30
        } else {
            digits.last() - 0x61 + 10
        })
    }
}

/// The decimal text of a number reads back as the number; it holds digits only and no
/// needless zero in front.
pub proof fn law_decimal_text_reads_back(n: nat)
    ensures
        read_dec(dec_text(n)) == n,
        dec_text(n).len() > 0,
        forall|i: int| 0 <= i < dec_text(n).len() ==> 0x30 <= #[trigger] dec_text(n)[i] <= 0x39,
        n > 0 ==> dec_text(n)[0] != 0x30,
        n == 0 ==> dec_text(n) == seq![0x30u8],
    decreases n,
{
    if n < 10 {
        assert(dec_text(n) =~= seq![(0x30 + n) as u8]);
        assert(dec_text(n).drop_last() =~= Seq::<u8>::empty());
        assert(read_dec(Seq::<u8>::empty()) == 0);
    } else {
        law_decimal_text_reads_back(n / 10);
        assert(dec_text(n).drop_last() =~= dec_text(n / 10));
    }
}

/// The hexadecimal text of a number reads back as the number; it holds digits and
/// small letters only, and no needless zero in front.
pub proof fn law_hexadecimal_text_reads_back(n: nat)
    ensures
        read_hex(hex_text(n)) == n,
        hex_text(n).len() > 0,
        forall|i: int|
            0 <= i < hex_text(n).len() ==> 0x30 <= #[trigger] hex_text(n)[i] <= 0x39 || 0x61
                <= hex_text(n)[i] <= 0x66,
        n > 0 ==> hex_text(n)[0] != 0x30,
        n == 0 ==> hex_text(n) == seq![0x30u8],
    decreases n,
{
    if n < 16 {
        assert(hex_text(n) =~= seq![hex_digit(n)]);
        assert(hex_text(n).drop_last() =~= Seq::<u8>::empty());
        assert(read_hex(Seq::<u8>::empty()) == 0);
    } else {
        law_hexadecimal_text_reads_back(n / 16);
        assert(hex_text(n).drop_last() =~= hex_text(n / 16));
    }
}

} // verus!
