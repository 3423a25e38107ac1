//! Parsing hexadecimal numbers.
use vstd::prelude::*;

verus! {

/// Bytes skipped before a number: tab, space and newline.
pub open spec fn is_leading_space(b: u8) -> bool {
    b == 9 || b == 32 || b == 10
}

/// Bytes that end a number: tab, space, newline and NUL.
pub open spec fn is_terminator(b: u8) -> bool {
    is_leading_space(b) || b == 0
}

/// The value of a hexadecimal digit (either case), if `b` is one.
pub open spec fn hex_value(b: u8) -> Option<int> {
    if 48 <= b <= 57 {
        Some(b - 48)
    } else if 97 <= b <= 102 {
        Some(b - 97 + 10)
    } else if 65 <= b <= 70 {
        Some(b - 65 + 10)
    } else {
        None
    }
}

/// Index of the first byte at or after `k` that is not leading space.
pub open spec fn skip_space(bytes: Seq<u8>, k: int) -> int
    decreases bytes.len() - k,
{
    if 0 <= k < bytes.len() && is_leading_space(bytes[k]) {
        skip_space(bytes, k + 1)
    } else {
        k
    }
}

/// Where the digits start: after leading space and an optional `0x`.
pub open spec fn digits_start(bytes: Seq<u8>) -> int {
    let k = skip_space(bytes, 0);
    if k + 1 < bytes.len() && bytes[k] == 48 && bytes[k + 1] == 120 { k + 2 } else { k }
}

/// The number whose digits start at `i`, `acc` being the value read so far:
/// digits accumulate until the end of the input or a terminator; any other
/// byte makes the input invalid.
pub open spec fn parse_hex(bytes: Seq<u8>, i: int, acc: int) -> Option<int>
    decreases bytes.len() - i,
{
    if i >= bytes.len() || i < 0 {
        Some(acc)
    } else {
        match hex_value(bytes[i]) {
            Some(d) => parse_hex(bytes, i + 1, acc * 16 + d),
            None => if is_terminator(bytes[i]) { Some(acc) } else { None },
        }
    }
}

/// What `hextou` reads from `bytes`: nothing for input that is empty or only
/// leading space, for a byte that is neither a digit nor a terminator, and
/// for a value above `usize::MAX`; the number otherwise.
pub open spec fn hex_number(bytes: Seq<u8>) -> Option<int> {
    if skip_space(bytes, 0) >= bytes.len() {
        None
    } else {
        match parse_hex(bytes, digits_start(bytes), 0) {
            Some(v) => if v <= usize::MAX { Some(v) } else { None },
            None => None,
        }
    }
}

proof fn lemma_skip_ge(bytes: Seq<u8>, k: int)
    requires
        0 <= k,
    ensures
        skip_space(bytes, k) >= k,
    decreases bytes.len() - k,
{
    if 0 <= k < bytes.len() && is_leading_space(bytes[k]) {
        lemma_skip_ge(bytes, k + 1);
    }
}

/// Reading on never makes the value smaller.
proof fn lemma_parse_ge(bytes: Seq<u8>, i: int, acc: int)
    requires
        0 <= acc,
    ensures
        parse_hex(bytes, i, acc) matches Some(v) ==> v >= acc,
    decreases bytes.len() - i,
{
    if 0 <= i < bytes.len() {
        if let Some(d) = hex_value(bytes[i]) {
            lemma_parse_ge(bytes, i + 1, acc * 16 + d);
        }
    }
}

/// Reads a hexadecimal number, skipping leading spaces and an optional `0x`,
/// up to the end of `bytes` or a space, newline, tab or NUL (see
/// `hex_number`).
pub fn hextou(bytes: &[u8]) -> (r: Option<usize>)
    ensures
        r == (match hex_number(bytes@) {
            Some(v) => Some(v as usize),
            None => None,
        }),
{
    let mut starting_idx: usize = 0;
    proof {
        lemma_skip_ge(bytes@, 0);
    }
    while starting_idx < bytes.len()
        && (bytes[starting_idx] == 9 || bytes[starting_idx] == 32 || bytes[starting_idx] == 10)
        invariant
            0 <= starting_idx <= skip_space(bytes@, 0),
            skip_space(bytes@, starting_idx as int) == skip_space(bytes@, 0),
        decreases bytes@.len() - starting_idx,
    {
        starting_idx = starting_idx + 1;
        proof {
            lemma_skip_ge(bytes@, starting_idx as int);
        }
    }
    if starting_idx >= bytes.len() {
        return None;
    }
    let start = if starting_idx + 1 < bytes.len() && bytes[starting_idx] == 48 && bytes[starting_idx + 1] == 120 {
        starting_idx + 2
    } else {
        starting_idx
    };
    let mut result: usize = 0;
    let mut i: usize = start;
    while i < bytes.len()
        invariant
            start <= i,
            start == digits_start(bytes@),
            skip_space(bytes@, 0) < bytes@.len(),
            parse_hex(bytes@, digits_start(bytes@), 0) == parse_hex(bytes@, i as int, result as int),
        decreases bytes@.len() - i,
    {
        let byte = bytes[i];
        let digit: u8;
        if byte >= 48 && byte <= 57 {
            digit = byte - 48;
        } else if byte >= 97 && byte <= 102 {
            digit = byte - 97 + 10;
        } else if byte >= 65 && byte <= 70 {
            digit = byte - 65 + 10;
        } else if byte == 9 || byte == 32 || byte == 10 || byte == 0 {
            return Some(result);
        } else {
            return None;
        }
        if result > (usize::MAX - digit as usize) / 16 {
            proof {
                lemma_parse_ge(bytes@, i + 1, result * 16 + digit);
            }
            return None;
        }
        result = result * 16 + digit as usize;
        i = i + 1;
    }
    Some(result)
}

} // verus!
