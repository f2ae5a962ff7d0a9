//! Fixed-width hexadecimal fields of the persisted textual formats.
//!
//! Every integer of the formats is written big-endian in a fixed number of
//! lower-case hex digits, so fields need no delimiters and decoding a field
//! consumes exactly its width.

use vstd::prelude::*;

verus! {

/// 16 to the power `n`: the number of values a field of `n` hex digits holds.
pub open spec fn pow16(n: nat) -> int
    decreases n,
{
    if n == 0 {
        1
    } else {
        16 * pow16((n - 1) as nat)
    }
}

pub open spec fn is_hex_digit(c: u8) -> bool {
    (48 <= c <= 57) || (97 <= c <= 102)
}

pub open spec fn hex_val(c: u8) -> int {
    if c < 58 {
        c - 48
    } else {
        c - 87
    }
}

pub open spec fn hex_digit(n: int) -> u8 {
    if n < 10 {
        (48 + n) as u8
    } else {
        (87 + n) as u8
    }
}

/// `x` written in `n` hex digits, most significant first.
pub open spec fn enc_hex(x: int, n: nat) -> Seq<u8>
    decreases n,
{
    if n == 0 {
        Seq::empty()
    } else {
        enc_hex(x / 16, (n - 1) as nat).push(hex_digit(x % 16))
    }
}

pub open spec fn all_hex(s: Seq<u8>) -> bool {
    forall|i: int| 0 <= i < s.len() ==> is_hex_digit(#[trigger] s[i])
}

/// The value of a big-endian string of hex digits.
pub open spec fn dec_hex(s: Seq<u8>) -> int
    decreases s.len(),
{
    if s.len() == 0 {
        0
    } else {
        dec_hex(s.drop_last()) * 16 + hex_val(s.last())
    }
}

pub proof fn lemma_pow16_pos(n: nat)
    ensures
        pow16(n) >= 1,
    decreases n,
{
    if n > 0 {
        lemma_pow16_pos((n - 1) as nat);
    }
}

/// An `n`-digit field holds exactly the values below `pow16(n)`, and
/// decoding recovers the value that was written.
pub proof fn lemma_enc_hex(x: int, n: nat)
    requires
        0 <= x < pow16(n),
    ensures
        enc_hex(x, n).len() == n,
        all_hex(enc_hex(x, n)),
        dec_hex(enc_hex(x, n)) == x,
    decreases n,
{
    if n == 0 {
    } else {
        let d = x % 16;
        let q = x / 16;
        assert(0 <= d < 16);
        assert(q == x / 16);
        assert(pow16(n) == 16 * pow16((n - 1) as nat));
        assert(0 <= q < pow16((n - 1) as nat)) by {
            lemma_pow16_pos((n - 1) as nat);
            assert(x < 16 * pow16((n - 1) as nat));
            assert(x / 16 < pow16((n - 1) as nat)) by (nonlinear_arith)
                requires
                    x >= 0,
                    pow16((n - 1) as nat) >= 1,
                    x < 16 * pow16((n - 1) as nat),
            ;
        }
        lemma_enc_hex(q, (n - 1) as nat);
        let s = enc_hex(x, n);
        assert(s == enc_hex(q, (n - 1) as nat).push(hex_digit(d)));
        assert(s.drop_last() == enc_hex(q, (n - 1) as nat));
        assert(s.last() == hex_digit(d));
        assert(is_hex_digit(hex_digit(d)) && hex_val(hex_digit(d)) == d);
        assert(dec_hex(s) == q * 16 + d);
        assert(q * 16 + d == x) by (nonlinear_arith)
            requires
                d == x % 16,
                q == x / 16,
        ;
        assert forall|i: int| 0 <= i < s.len() implies is_hex_digit(#[trigger] s[i]) by {
            if i < s.len() - 1 {
                assert(s[i] == enc_hex(q, (n - 1) as nat)[i]);
            }
        }
    }
}

pub proof fn lemma_pow16_16()
    ensures
        pow16(16) == 0x1_0000_0000_0000_0000,
{
    reveal_with_fuel(pow16, 17);
}

pub proof fn lemma_pow16_32()
    ensures
        pow16(32) == 0x1_0000_0000_0000_0000_0000_0000_0000_0000,
{
    reveal_with_fuel(pow16, 33);
}

fn hex_digit_exec(n: u8) -> (r: u8)
    requires
        n < 16,
    ensures
        r == hex_digit(n as int),
{
    if n < 10 {
        48 + n
    } else {
        87 + n
    }
}

fn hex_val_exec(c: u8) -> (r: Option<u8>)
    ensures
        is_hex_digit(c) ==> r == Some((hex_val(c) as u8)),
        !is_hex_digit(c) ==> r is None,
{
    if 48 <= c && c <= 57 {
        Some(c - 48)
    } else if 97 <= c && c <= 102 {
        Some(c - 87)
    } else {
        None
    }
}

/// Appends `x` as an `n`-digit hex field.
pub fn push_hex(out: &mut Vec<u8>, x: u128, n: usize)
    requires
        n <= 32,
        (x as int) < pow16(n as nat),
    ensures
        final(out)@ == old(out)@ + enc_hex(x as int, n as nat),
    decreases n,
{
    if n == 0 {
        proof {
            assert(out@ =~= old(out)@ + enc_hex(x as int, 0));
        }
    } else {
        proof {
            lemma_pow16_pos((n - 1) as nat);
            assert((x as int) / 16 < pow16((n - 1) as nat)) by (nonlinear_arith)
                requires
                    x >= 0,
                    pow16((n - 1) as nat) >= 1,
                    (x as int) < 16 * pow16((n - 1) as nat),
            ;
        }
        push_hex(out, x / 16, n - 1);
        let d = hex_digit_exec((x % 16) as u8);
        out.push(d);
        proof {
            assert(out@ =~= old(out)@ + enc_hex(x as int, n as nat));
        }
    }
}

/// Reads the `n`-digit hex field at `pos`, if it is there and well formed.
pub fn read_hex(bytes: &Vec<u8>, pos: usize, n: usize) -> (r: Option<u128>)
    requires
        n <= 32,
    ensures
        ({
            let seg = bytes@.subrange(pos as int, pos as int + n as int);
            match r {
                Some(v) => pos + n <= bytes@.len() && all_hex(seg) && v as int == dec_hex(seg)
                    && (v as int) < pow16(n as nat),
                None => pos + n > bytes@.len() || !all_hex(seg),
            }
        }),
{
    let len: usize = bytes.len();
    if pos > len || n > len - pos {
        return None;
    }
    let ghost seg = bytes@.subrange(pos as int, pos as int + n as int);
    let mut acc: u128 = 0;
    let mut i: usize = 0;
    proof {
        lemma_pow16_32();
        assert(seg.subrange(0, 0) =~= Seq::<u8>::empty());
    }
    while i < n
        invariant
            len == bytes@.len(),
            pos + n <= len,
            n <= 32,
            0 <= i <= n,
            seg == bytes@.subrange(pos as int, pos as int + n as int),
            all_hex(seg.subrange(0, i as int)),
            acc as int == dec_hex(seg.subrange(0, i as int)),
            (acc as int) < pow16(i as nat),
            pow16(32) == 0x1_0000_0000_0000_0000_0000_0000_0000_0000,
        decreases n - i,
    {
        let c = bytes[pos + i];
        assert(c == seg[i as int]);
        match hex_val_exec(c) {
            Some(d) => {
                proof {
                    lemma_pow16_mono(i as nat, 31);
                    assert(pow16(32) == 16 * pow16(31));
                    assert(acc as int * 16 + 15 < pow16(32)) by (nonlinear_arith)
                        requires
                            (acc as int) < pow16(31),
                            pow16(32) == 16 * pow16(31),
                    ;
                }
                let new_acc: u128 = acc * 16 + (d as u128);
                proof {
                    let sub1 = seg.subrange(0, i as int + 1);
                    assert(sub1.drop_last() =~= seg.subrange(0, i as int));
                    assert(sub1.last() == c);
                    assert(new_acc as int == dec_hex(sub1));
                    assert(pow16((i + 1) as nat) == 16 * pow16(i as nat));
                    assert((new_acc as int) < pow16((i + 1) as nat)) by (nonlinear_arith)
                        requires
                            (acc as int) < pow16(i as nat),
                            (new_acc as int) <= (acc as int) * 16 + 15,
                            pow16((i + 1) as nat) == 16 * pow16(i as nat),
                    ;
                }
                acc = new_acc;
                i += 1;
            },
            None => {
                return None;
            },
        }
    }
    proof {
        assert(seg.subrange(0, n as int) =~= seg);
    }
    Some(acc)
}

pub proof fn lemma_pow16_mono(a: nat, b: nat)
    requires
        a <= b,
    ensures
        pow16(a) <= pow16(b),
    decreases b,
{
    if a < b {
        lemma_pow16_mono(a, (b - 1) as nat);
        lemma_pow16_pos((b - 1) as nat);
    }
}

} // verus!
