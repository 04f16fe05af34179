//! Object identifiers: 128-bit, globally unique, opaque keys, and the
//! conversions between an ID and its two 64-bit halves.

use vstd::prelude::*;
use vstd::string::StringSliceAdditionalSpecFns;

verus! {

/// A 128-bit object identifier.  The ID `0` is reserved and never names a
/// real object; the view's hash table uses it to mark an empty bucket.
pub type ObjID = u128;

/// The mathematical composition of two 64-bit halves into one 128-bit ID.
pub open spec fn spec_objid_from_parts(upper: u64, lower: u64) -> int {
    upper * 0x1_0000_0000_0000_0000 + lower
}

/// Splits an ID into its (upper, lower) 64-bit halves.
pub fn objid_split(id: ObjID) -> (r: (u64, u64))
    ensures
        id == spec_objid_from_parts(r.0, r.1),
{
    let upper = #[verifier::truncate] ((id >> 64) as u64);
    let lower = #[verifier::truncate] ((id & 0xffff_ffff_ffff_ffff) as u64);
    proof {
        assert(id == ((id >> 64) as u64) * 0x1_0000_0000_0000_0000 + ((id & 0xffff_ffff_ffff_ffff) as u64))
            by (bit_vector);
    }
    (upper, lower)
}

/// Joins two 64-bit halves into an ID, upper half first.
pub fn objid_from_parts(upper: u64, lower: u64) -> (r: ObjID)
    ensures
        r == spec_objid_from_parts(upper, lower),
{
    let r = ((upper as u128) << 64) | lower as u128;
    proof {
        let u = upper as u128;
        let l = lower as u128;
        assert(u <= 0xffff_ffff_ffff_ffff && l <= 0xffff_ffff_ffff_ffff ==>
            ((u << 64) | l) == u * 0x1_0000_0000_0000_0000 + l) by (bit_vector);
    }
    r
}

/// Joins two halves given as signed words, reinterpreted as unsigned.
pub fn objid_join(hi: i64, lo: i64) -> (r: ObjID)
    ensures
        r == spec_objid_from_parts(hi as u64, lo as u64),
{
    objid_from_parts(hi as u64, lo as u64)
}


/// Whether `b` is an ASCII hexadecimal digit.
pub open spec fn is_hex_digit(b: u8) -> bool {
    (48 <= b <= 57) || (97 <= b <= 102) || (65 <= b <= 70)
}

/// The value of an ASCII hexadecimal digit.
pub open spec fn hex_digit_val(b: u8) -> int {
    if 48 <= b <= 57 {
        b - 48
    } else if 97 <= b <= 102 {
        b - 87
    } else if 65 <= b <= 70 {
        b - 55
    } else {
        0
    }
}

/// Whether every byte of `s[i..j)` is a hexadecimal digit.
pub open spec fn all_hex(s: Seq<u8>, i: int, j: int) -> bool {
    forall|k: int| i <= k < j ==> is_hex_digit(#[trigger] s[k])
}

/// The number the hexadecimal digits `s[i..j)` spell, most significant
/// first.
pub open spec fn hex_val(s: Seq<u8>, i: int, j: int) -> int
    decreases j - i,
{
    if i >= j {
        0
    } else {
        hex_val(s, i, j - 1) * 16 + hex_digit_val(s[j - 1])
    }
}

/// A hexadecimal value is nonnegative and never shrinks as digits are
/// appended.
pub proof fn lemma_hex_val_mono(s: Seq<u8>, i: int, k: int, j: int)
    requires
        i <= k <= j,
    ensures
        0 <= hex_val(s, i, k) <= hex_val(s, i, j),
    decreases j - i,
{
    if k < j {
        lemma_hex_val_mono(s, i, k, j - 1);
        assert(hex_val(s, i, j) == hex_val(s, i, j - 1) * 16 + hex_digit_val(s[j - 1]));
        assert(hex_val(s, i, j - 1) * 16 >= hex_val(s, i, j - 1)) by (nonlinear_arith)
            requires
                hex_val(s, i, j - 1) >= 0,
        ;
    } else if i < j {
        lemma_hex_val_mono(s, i, i, j - 1);
        assert(hex_val(s, i, j - 1) * 16 >= 0) by (nonlinear_arith)
            requires
                hex_val(s, i, j - 1) >= 0,
        ;
    }
}

/// What parsing `s[i..j)` as hexadecimal yields under the bound `max`:
/// nothing for an empty or non-hexadecimal run or a value out of bounds.
pub open spec fn spec_parse_hex(s: Seq<u8>, i: int, j: int, max: int) -> Option<u128> {
    if i >= j || !all_hex(s, i, j) || hex_val(s, i, j) > max {
        None
    } else {
        Some(hex_val(s, i, j) as u128)
    }
}

/// The start of `s[i..j)` after discarding every leading `0x`.
pub open spec fn strip0x_from(s: Seq<u8>, i: int, j: int) -> int
    decreases j - i,
{
    if i + 1 < j && s[i] == 48 && s[i + 1] == 120 {
        strip0x_from(s, i + 2, j)
    } else {
        i
    }
}

/// Whether `b` is ASCII whitespace, as string trimming discards it.
pub open spec fn is_space(b: u8) -> bool {
    b == 32 || b == 9 || b == 10 || b == 13
}

/// The start of `s[i..j)` after discarding leading whitespace.
pub open spec fn trim_lo(s: Seq<u8>, i: int, j: int) -> int
    decreases j - i,
{
    if i < j && is_space(s[i]) {
        trim_lo(s, i + 1, j)
    } else {
        i
    }
}

/// The end of `s[i..j)` after discarding trailing whitespace.
pub open spec fn trim_hi(s: Seq<u8>, i: int, j: int) -> int
    decreases j - i,
{
    if i < j && is_space(s[j - 1]) {
        trim_hi(s, i, j - 1)
    } else {
        j
    }
}

/// The first colon of `s[i..j)`, or `j` when there is none.
pub open spec fn first_colon(s: Seq<u8>, i: int, j: int) -> int
    decreases j - i,
{
    if i >= j {
        j
    } else if s[i] == 58 {
        i
    } else {
        first_colon(s, i + 1, j)
    }
}

/// What parsing a textual object ID yields.
///
/// The text is trimmed of surrounding whitespace.  A colon splits it into
/// upper and lower 64-bit halves — a second colon ends the lower half —
/// each stripped of leading `0x` markers and read as hexadecimal.  Without
/// a colon the whole is one hexadecimal 128-bit number.
pub open spec fn spec_objid_parse(s: Seq<u8>) -> Option<ObjID> {
    let lo = trim_lo(s, 0, s.len() as int);
    let hi = trim_hi(s, lo, s.len() as int);
    let c = first_colon(s, lo, hi);
    if c < hi {
        let c2 = first_colon(s, c + 1, hi);
        let up = spec_parse_hex(s, strip0x_from(s, lo, c), c, 0xffff_ffff_ffff_ffff);
        let lw = spec_parse_hex(s, strip0x_from(s, c + 1, c2), c2, 0xffff_ffff_ffff_ffff);
        if up is Some && lw is Some {
            Some((up->Some_0 * 0x1_0000_0000_0000_0000 + lw->Some_0) as u128)
        } else {
            None
        }
    } else {
        spec_parse_hex(s, strip0x_from(s, lo, hi), hi, 0xffff_ffff_ffff_ffff_ffff_ffff_ffff_ffff)
    }
}

/// Parses the hexadecimal run `b[i..j)` under the bound `max`.
fn parse_hex(b: &[u8], i: usize, j: usize, max: u128) -> (r: Option<u128>)
    requires
        i <= j <= b@.len(),
    ensures
        r == spec_parse_hex(b@, i as int, j as int, max as int),
{
    if i == j {
        return None;
    }
    let mut acc: u128 = 0;
    let mut k = i;
    while k < j
        invariant
            i <= k <= j <= b@.len(),
            all_hex(b@, i as int, k as int),
            acc == hex_val(b@, i as int, k as int),
            acc <= max,
        decreases j - k,
    {
        let ch = b[k];
        let d: u128 = if 48 <= ch && ch <= 57 {
            (ch - 48) as u128
        } else if 97 <= ch && ch <= 102 {
            (ch - 87) as u128
        } else if 65 <= ch && ch <= 70 {
            (ch - 55) as u128
        } else {
            proof {
                assert(!is_hex_digit(b@[k as int]));
            }
            return None;
        };
        proof {
            assert(is_hex_digit(b@[k as int]));
            assert(d == hex_digit_val(b@[k as int]));
            assert(hex_val(b@, i as int, k + 1)
                == hex_val(b@, i as int, k as int) * 16 + hex_digit_val(b@[k as int]));
        }
        if d > max {
            proof {
                lemma_hex_val_mono(b@, i as int, k + 1, j as int);
            }
            return None;
        }
        if acc > (max - d) / 16 {
            proof {
                assert(acc * 16 + d > max) by (nonlinear_arith)
                    requires
                        acc > (max - d) / 16,
                        d <= max,
                        0 <= d < 16,
                        acc >= 0,
                ;
                lemma_hex_val_mono(b@, i as int, k + 1, j as int);
            }
            return None;
        }
        proof {
            assert(acc * 16 + d <= max) by (nonlinear_arith)
                requires
                    acc <= (max - d) / 16,
                    d <= max,
                    0 <= d < 16,
                    acc >= 0,
            ;
        }
        acc = acc * 16 + d;
        k = k + 1;
    }
    Some(acc)
}

/// Parses a textual object ID: an optional `0x`-marked hexadecimal number,
/// or two colon-separated 64-bit halves, surrounded by whitespace.
pub fn objid_parse(s: &str) -> (r: Option<ObjID>)
    ensures
        r == spec_objid_parse(s.spec_bytes()),
{
    let b = s.as_bytes();
    let n = b.len();
    let mut lo: usize = 0;
    while lo < n && (b[lo] == 32 || b[lo] == 9 || b[lo] == 10 || b[lo] == 13)
        invariant
            lo <= n == b@.len(),
            trim_lo(b@, 0, n as int) == trim_lo(b@, lo as int, n as int),
        decreases n - lo,
    {
        lo = lo + 1;
    }
    let mut hi: usize = n;
    while hi > lo && (b[hi - 1] == 32 || b[hi - 1] == 9 || b[hi - 1] == 10 || b[hi - 1] == 13)
        invariant
            lo <= hi <= n == b@.len(),
            lo as int == trim_lo(b@, 0, n as int),
            trim_hi(b@, lo as int, n as int) == trim_hi(b@, lo as int, hi as int),
        decreases hi,
    {
        hi = hi - 1;
    }
    proof {
        assert(hi as int == trim_hi(b@, lo as int, n as int));
    }
    let c = find_colon(b, lo, hi);
    if c < hi {
        let up_lo = strip_marker(b, lo, c);
        let c2 = find_colon(b, c + 1, hi);
        let lw_lo = strip_marker(b, c + 1, c2);
        let up = parse_hex(b, up_lo, c, 0xffff_ffff_ffff_ffff);
        let lw = parse_hex(b, lw_lo, c2, 0xffff_ffff_ffff_ffff);
        match (up, lw) {
            (Some(u), Some(l)) => {
                proof {
                    lemma_hex_val_mono(b@, up_lo as int, up_lo as int, c as int);
                    lemma_hex_val_mono(b@, lw_lo as int, lw_lo as int, c2 as int);
                    assert(u <= 0xffff_ffff_ffff_ffffu128);
                    assert(l <= 0xffff_ffff_ffff_ffffu128);
                }
                let r = objid_from_parts(u as u64, l as u64);
                Some(r)
            },
            _ => None,
        }
    } else {
        let w_lo = strip_marker(b, lo, hi);
        parse_hex(b, w_lo, hi, 0xffff_ffff_ffff_ffff_ffff_ffff_ffff_ffff)
    }
}

/// Finds the first colon of `b[i..j)`, or `j` when there is none.
fn find_colon(b: &[u8], i: usize, j: usize) -> (r: usize)
    requires
        i <= j <= b@.len(),
    ensures
        r == first_colon(b@, i as int, j as int),
        i <= r <= j,
{
    let mut k = i;
    while k < j
        invariant
            i <= k <= j <= b@.len(),
            first_colon(b@, i as int, j as int) == first_colon(b@, k as int, j as int),
        decreases j - k,
    {
        if b[k] == 58 {
            return k;
        }
        k = k + 1;
    }
    j
}

/// Skips every leading `0x` of `b[i..j)`.
fn strip_marker(b: &[u8], i: usize, j: usize) -> (r: usize)
    requires
        i <= j <= b@.len(),
    ensures
        r == strip0x_from(b@, i as int, j as int),
        i <= r <= j,
{
    let mut k = i;
    while j - k > 1 && b[k] == 48 && b[k + 1] == 120
        invariant
            i <= k <= j <= b@.len(),
            strip0x_from(b@, i as int, j as int) == strip0x_from(b@, k as int, j as int),
        decreases j - k,
    {
        k = k + 2;
    }
    k
}

} // verus!
