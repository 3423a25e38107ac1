//! Lines of a stack dump: the address range of 16 bytes, the bytes in hex
//! in groups of four, and the bytes as text.
use vstd::prelude::*;

verus! {

/// The lowercase hex digit of `d` (below 16).
pub open spec fn hex_digit(d: int) -> u8 {
    if d < 10 { (0x30 + d) as u8 } else { (0x61 + d - 10) as u8 }
}

/// The last `n` hex digits of `v`, most significant first.
pub open spec fn hex_digits(v: nat, n: nat) -> Seq<u8>
    decreases n,
{
    if n == 0 {
        Seq::empty()
    } else {
        hex_digits(v / 16, (n - 1) as nat).push(hex_digit((v % 16) as int))
    }
}

/// How a byte shows in the text column: itself when printable, else a dot.
pub open spec fn shown(b: u8) -> u8 {
    if 32 <= b < 127 { b } else { 0x2Eu8 }
}

/// The hex column: four groups of four bytes, two digits per byte, each
/// group followed by a space.
pub open spec fn hex_column(row: Seq<u8>) -> Seq<u8> {
    Seq::new(4, |g: int| Seq::new(4, |k: int| hex_digits(row[4 * g + k] as nat, 2)).flatten().push(0x20u8)).flatten()
}

/// The dump line of the 16 bytes `row` found at `addr`: the first and last
/// address in 8 hex digits joined by `-`, a space, the hex column, the text
/// column and a newline.
pub open spec fn dump_line(row: Seq<u8>, addr: u32) -> Seq<u8> {
    hex_digits(addr as nat, 8) + seq![0x2Du8] + hex_digits((addr + 15) as nat, 8) + seq![0x20u8] + hex_column(row)
        + row.map_values(|b: u8| shown(b)) + seq![0x0Au8]
}

/// Appends the last `n` hex digits of `v`.
fn push_hex(out: &mut Vec<u8>, v: u32, n: usize)
    requires
        n <= 8,
    ensures
        final(out)@ == old(out)@ + hex_digits(v as nat, n as nat),
    decreases n,
{
    if n == 0 {
        assert(old(out)@ + hex_digits(v as nat, 0) =~= old(out)@);
        return;
    }
    push_hex(out, v / 16, n - 1);
    let d = (v % 16) as u8;
    let c = if d < 10 { 0x30 + d } else { 0x61 + d - 10 };
    out.push(c);
    assert(final(out)@ =~= old(out)@ + hex_digits(v as nat, n as nat));
}

/// The text column of `row`.
fn push_shown(out: &mut Vec<u8>, row: &[u8; 16])
    ensures
        final(out)@ == old(out)@ + row@.map_values(|b: u8| shown(b)),
{
    let mut i: usize = 0;
    while i < 16
        invariant
            i <= 16,
            row@.len() == 16,
            out@ == old(out)@ + row@.subrange(0, i as int).map_values(|b: u8| shown(b)),
        decreases 16 - i,
    {
        let b = row[i];
        out.push(if 32 <= b && b < 127 { b } else { 0x2E });
        assert(row@.subrange(0, i + 1).map_values(|b: u8| shown(b)) =~= row@.subrange(0, i as int).map_values(
            |b: u8| shown(b),
        ).push(shown(b)));
        i = i + 1;
    }
    assert(row@.subrange(0, 16) =~= row@);
}

/// The hex column of `row`.
fn push_hex_column(out: &mut Vec<u8>, row: &[u8; 16])
    ensures
        final(out)@ == old(out)@ + hex_column(row@),
{
    let ghost groups = Seq::new(
        4,
        |g: int| Seq::new(4, |k: int| hex_digits(row@[4 * g + k] as nat, 2)).flatten().push(0x20u8),
    );
    let mut g: usize = 0;
    while g < 4
        invariant
            g <= 4,
            row@.len() == 16,
            groups == Seq::new(
                4,
                |g: int| Seq::new(4, |k: int| hex_digits(row@[4 * g + k] as nat, 2)).flatten().push(0x20u8),
            ),
            out@ == old(out)@ + groups.subrange(0, g as int).flatten(),
        decreases 4 - g,
    {
        let ghost before = out@;
        let ghost parts = Seq::new(4, |k: int| hex_digits(row@[4 * g + k] as nat, 2));
        let mut k: usize = 0;
        while k < 4
            invariant
                k <= 4,
                g < 4,
                row@.len() == 16,
                parts == Seq::new(4, |k: int| hex_digits(row@[4 * g + k] as nat, 2)),
                out@ == before + parts.subrange(0, k as int).flatten(),
            decreases 4 - k,
        {
            push_hex(out, row[4 * g + k] as u32, 2);
            proof {
                parts.subrange(0, k as int).lemma_flatten_push(parts[k as int]);
                assert(parts.subrange(0, k + 1) =~= parts.subrange(0, k as int).push(parts[k as int]));
            }
            k = k + 1;
        }
        out.push(0x20);
        proof {
            assert(parts.subrange(0, 4) =~= parts);
            assert(groups[g as int] == parts.flatten().push(0x20u8));
            groups.subrange(0, g as int).lemma_flatten_push(groups[g as int]);
            assert(groups.subrange(0, g + 1) =~= groups.subrange(0, g as int).push(groups[g as int]));
        }
        g = g + 1;
    }
    assert(groups.subrange(0, 4) =~= groups);
}

/// The dump line of the 16 bytes `row` found at address `addr`.
pub fn dump_row(row: &[u8; 16], addr: u32) -> (r: Vec<u8>)
    requires
        addr + 15 <= u32::MAX,
    ensures
        r@ == dump_line(row@, addr),
{
    let mut out: Vec<u8> = Vec::new();
    push_hex(&mut out, addr, 8);
    out.push(0x2D);
    push_hex(&mut out, addr + 15, 8);
    out.push(0x20);
    push_hex_column(&mut out, row);
    push_shown(&mut out, row);
    out.push(0x0A);
    assert(out@ =~= dump_line(row@, addr));
    out
}

} // verus!
