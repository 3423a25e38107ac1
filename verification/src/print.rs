//! Rendering numbers as digit strings.
use vstd::prelude::*;
use vstd::arithmetic::power2::{pow2, lemma_pow2_unfold};
use vstd::arithmetic::div_mod::{lemma_div_is_ordered_by_denominator, lemma_div_plus_one};
use vstd::utf8::valid_utf8;
use vstd::string::StringSliceAdditionalSpecFns;

verus! {

/// Failure to read a digit buffer as text.
#[derive(Clone, Copy, Debug, PartialEq, Eq, Structural)]
pub struct ParseError;

/// The ASCII digit for `d` (`0`-`9`, then `A`-`F`).
pub open spec fn digit_char(d: int) -> u8 {
    if d < 10 { (48 + d) as u8 } else { (55 + d) as u8 }
}

/// The digits of `n` in base `base`, most significant first, without
/// leading zeros (`0` is the single digit `0`).
pub open spec fn digits_of(n: nat, base: nat) -> Seq<u8>
    decreases n,
{
    if base < 2 || n < base {
        seq![digit_char(n as int)]
    } else {
        proof {
            vstd::arithmetic::div_mod::lemma_div_decreases(n as int, base as int);
        }
        digits_of(n / base, base).push(digit_char((n % base) as int))
    }
}

proof fn lemma_digits_len(n: nat, base: nat, k: nat)
    requires
        2 <= base,
        1 <= k,
        n < pow2(k),
    ensures
        digits_of(n, base).len() <= k,
    decreases n,
{
    if n >= base {
        lemma_pow2_unfold(k);
        vstd::arithmetic::power2::lemma2_to64();
        if k == 1 {
            assert(false);
        }
        lemma_div_is_ordered_by_denominator(n as int, 2, base as int);
        assert(n / 2 < pow2((k - 1) as nat)) by {
            vstd::arithmetic::div_mod::lemma_div_by_multiple_is_strongly_ordered(
                n as int,
                pow2(k) as int,
                pow2((k - 1) as nat) as int,
                2,
            );
            vstd::arithmetic::div_mod::lemma_div_by_multiple(pow2((k - 1) as nat) as int, 2);
        }
        vstd::arithmetic::div_mod::lemma_div_decreases(n as int, base as int);
        lemma_digits_len(n / base, base, (k - 1) as nat);
    }
}

/// `core::str::from_utf8`: the bytes read as a string slice, which the
/// standard library documents to succeed exactly when they are valid UTF-8,
/// the slice then holding those very bytes.
#[verifier::external_body]
fn str_from_utf8(v: &[u8]) -> (r: Result<&str, ()>)
    ensures
        r is Ok <==> valid_utf8(v@),
        r matches Ok(s) ==> s.spec_bytes() == v@,
{
    match core::str::from_utf8(v) {
        Ok(s) => Ok(s),
        Err(_) => Err(()),
    }
}

/// The digits a `u32_to_base` result holds, `len` of them at the tail of
/// the buffer, as text; `ParseError` if they are not valid UTF-8.
pub fn slice_to_str(slice: &[u8; 33], len: usize) -> (r: Result<&str, ParseError>)
    requires
        len <= 33,
    ensures
        r is Ok <==> valid_utf8(slice@.subrange(33 - len, 33)),
        r matches Ok(s) ==> s.spec_bytes() == slice@.subrange(33 - len, 33),
{
    let whole = vstd::array::array_as_slice(slice);
    let real_part = vstd::slice::slice_subrange(whole, 33 - len, 33);
    match str_from_utf8(real_part) {
        Ok(s) => Ok(s),
        Err(_) => Err(ParseError),
    }
}

/// Writes `addr` in base `base` (2 to 16) into the tail of a 33-byte buffer
/// and returns the buffer with the number of digits; `Err` for other bases.
pub fn u32_to_base(addr: u32, base: u8) -> (r: Result<([u8; 33], usize), ()>)
    ensures
        r.is_ok() == (2 <= base <= 16),
        r.is_ok() ==> {
            let (buf, len) = r.unwrap();
            &&& len == digits_of(addr as nat, base as nat).len()
            &&& 1 <= len <= 33
            &&& buf@.subrange(33 - len, 33) == digits_of(addr as nat, base as nat)
            &&& forall|i: int| 0 <= i < 33 - len ==> buf@[i] == 0
        },
{
    if !(2 <= base && base <= 16) {
        return Err(());
    }
    let mut buf: [u8; 33] = [0; 33];
    if addr == 0 {
        buf[32] = 48;
        assert(buf@.subrange(32, 33) =~= seq![48u8]);
        return Ok((buf, 1));
    }
    let ghost a0 = addr as nat;
    let mut addr = addr;
    let mut idx: usize = 33;
    proof {
        vstd::arithmetic::power2::lemma2_to64();
        lemma_digits_len(a0, base as nat, 32);
    }
    while addr != 0 && idx > 0
        invariant
            2 <= base <= 16,
            idx <= 33,
            buf@.len() == 33,
            digits_of(a0, base as nat).len() <= 32,
            forall|i: int| 0 <= i < idx ==> buf@[i] == 0,
            addr > 0 ==> digits_of(a0, base as nat) == digits_of(addr as nat, base as nat) + buf@.subrange(idx as int, 33),
            addr == 0 ==> digits_of(a0, base as nat) == buf@.subrange(idx as int, 33),
            addr == 0 ==> idx < 33,
        decreases idx,
    {
        proof {
            if addr as nat >= base as nat {
                assert(digits_of(addr as nat, base as nat) == digits_of(addr as nat / base as nat, base as nat).push(digit_char((addr as nat % base as nat) as int)));
            }
        }
        let ghost old_buf = buf@;
        let ghost old_addr = addr;
        idx = idx - 1;
        let d = (addr % (base as u32)) as u8;
        buf[idx] = if d < 10 { 48 + d } else { 55 + d };
        addr = addr / (base as u32);
        proof {
            assert(buf@.subrange(idx as int, 33) =~= seq![digit_char(d as int)] + old_buf.subrange(idx + 1, 33));
            if old_addr as nat >= base as nat {
                let hi = digits_of(addr as nat, base as nat);
                assert(hi.push(digit_char(d as int)) + old_buf.subrange(idx + 1, 33) =~= hi + buf@.subrange(idx as int, 33));
                vstd::arithmetic::div_mod::lemma_div_pos_is_pos(old_addr as int, base as int);
                assert(addr > 0) by {
                    vstd::arithmetic::div_mod::lemma_div_non_zero(old_addr as int, base as int);
                }
            } else {
                vstd::arithmetic::div_mod::lemma_basic_div(old_addr as int, base as int);
                vstd::arithmetic::div_mod::lemma_small_mod(old_addr as nat, base as nat);
                assert(addr == 0);
                assert(old_addr % (base as u32) == old_addr);
            }
        }
    }
    proof {
        if addr != 0 {
            assert(idx == 0);
            assert(digits_of(a0, base as nat).len() >= 34);
        }
    }
    let len = buf.len() - idx;
    Ok((buf, len))
}

} // verus!
