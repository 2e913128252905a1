//! Well-formedness of a flattened device tree, checked before the tree is
//! handed to the outside parser.
//!
//! [`dtb_structure_ok`] pins down a strict shape for the blob: in-range
//! struct and strings blocks; a structure block that is one balanced node
//! tree — begin-node tokens with NUL-terminated ASCII unit names padded to
//! the word size, property tokens with complete headers, in-range values
//! and valid name offsets, end-node tokens never below the root — closed by
//! an end-of-structure token; cell-size properties exactly one word wide;
//! nesting at most 32 deep. Every admitted blob parses cleanly: the shape
//! rules out the malformed inputs (out-of-range block offsets, missing NUL
//! terminators, non-UTF-8 names, truncated or oversized properties, bad
//! name offsets, short cell values, runaway nesting) on which the parser
//! would otherwise abort. [`dtb_valid`] is the verified check for it.

use vstd::prelude::*;

verus! {

/// Structure-block token: node start.
pub const TOKEN_BEGIN_NODE: u32 = 1;

/// Structure-block token: node end.
pub const TOKEN_END_NODE: u32 = 2;

/// Structure-block token: property.
pub const TOKEN_PROP: u32 = 3;

/// Structure-block token: end of the whole block.
pub const TOKEN_END: u32 = 9;

/// Largest blob the checker accepts; keeps every offset computation inside
/// the machine word even on a 32-bit target. Real trees are a few hundred
/// kilobytes.
pub const DTB_MAX_BYTES: usize = 0x0fff_ffff;

/// The big-endian word at offset `i`.
pub open spec fn be32_at(d: Seq<u8>, i: int) -> int
    recommends
        0 <= i,
        i + 4 <= d.len(),
{
    (d[i] as int) * 0x100_0000 + (d[i + 1] as int) * 0x1_0000 + (d[i + 2] as int) * 0x100 + (d[i
        + 3] as int)
}

/// `n` rounded up to the word size.
pub open spec fn pad4(n: int) -> int {
    n + ((4 - (n % 4)) % 4)
}

/// Offset of the first NUL byte at or after `i`, if any.
pub open spec fn find_nul(d: Seq<u8>, i: int) -> Option<int>
    decreases d.len() - i,
{
    if i < 0 || i >= d.len() {
        None
    } else if d[i] == 0 {
        Some(i)
    } else {
        find_nul(d, i + 1)
    }
}

/// Every byte in `[lo, hi)` is seven-bit, so the range is valid UTF-8.
pub open spec fn ascii_ok(d: Seq<u8>, lo: int, hi: int) -> bool {
    forall|j: int| lo <= j < hi ==> (#[trigger] d[j]) < 0x80
}

/// A property name offset is usable: it points at a NUL-terminated ASCII
/// name inside the strings block, and a cell-size name (any name opening
/// with `#`) carries exactly one word of value.
pub open spec fn prop_name_ok(st: Seq<u8>, nameoff: int, value_len: int) -> bool {
    match find_nul(st, nameoff) {
        Some(e) => ascii_ok(st, nameoff, e) && ((e > nameoff && st[nameoff] == 35) ==> value_len
            == 4),
        None => false,
    }
}

/// One pass over the structure block `sb` from offset `p` at node depth
/// `d`: token by token, every node and property well-formed, ending with
/// the root's end-node token followed by the end-of-structure token.
pub open spec fn walk_ok(sb: Seq<u8>, st: Seq<u8>, p: int, d: int) -> bool
    decreases sb.len() - p,
{
    if p < 0 || p + 8 > sb.len() {
        false
    } else {
        let tok = be32_at(sb, p);
        if tok == TOKEN_BEGIN_NODE {
            match find_nul(sb, p + 4) {
                Some(e) => {
                    if e < p + 4 || e >= sb.len() {
                        false
                    } else if !ascii_ok(sb, p + 4, e) {
                        false
                    } else if d + 1 > 32 {
                        false
                    } else {
                        let q = p + 4 + pad4(e - (p + 4) + 1);
                        if q + 4 > sb.len() {
                            false
                        } else {
                            walk_ok(sb, st, q, d + 1)
                        }
                    }
                },
                None => false,
            }
        } else if tok == TOKEN_PROP {
            if d == 0 || p + 12 > sb.len() {
                false
            } else {
                let value_len = be32_at(sb, p + 4);
                let nameoff = be32_at(sb, p + 8);
                if !prop_name_ok(st, nameoff, value_len) {
                    false
                } else {
                    let q = p + 12 + pad4(value_len);
                    if q + 4 > sb.len() {
                        false
                    } else {
                        walk_ok(sb, st, q, d)
                    }
                }
            }
        } else if tok == TOKEN_END_NODE {
            if d == 0 {
                false
            } else if d == 1 {
                be32_at(sb, p + 4) == TOKEN_END
            } else {
                walk_ok(sb, st, p + 4, d - 1)
            }
        } else {
            false
        }
    }
}

/// A blob the outside parser is allowed to see: header present, both
/// blocks in range, and the structure block shaped as [`walk_ok`] demands.
pub open spec fn dtb_structure_ok(d: Seq<u8>) -> bool {
    &&& d.len() >= 40
    &&& d.len() <= DTB_MAX_BYTES
    &&& ({
        let so = be32_at(d, 8);
        let ss = be32_at(d, 36);
        let to = be32_at(d, 12);
        let ts = be32_at(d, 32);
        &&& so + ss <= d.len()
        &&& to + ts <= d.len()
        &&& walk_ok(d.subrange(so, so + ss), d.subrange(to, to + ts), 0, 0)
    })
}

/// The big-endian word at offset `i`.
fn read_be32(s: &[u8], i: usize) -> (r: u32)
    requires
        i + 4 <= s@.len(),
    ensures
        r as int == be32_at(s@, i as int),
{
    let n = s.len();
    let b0 = *vstd::slice::slice_index_get(s, i);
    let b1 = *vstd::slice::slice_index_get(s, i + 1);
    let b2 = *vstd::slice::slice_index_get(s, i + 2);
    let b3 = *vstd::slice::slice_index_get(s, i + 3);
    (b0 as u32) * 0x100_0000 + (b1 as u32) * 0x1_0000 + (b2 as u32) * 0x100 + (b3 as u32)
}

/// Scan for the first NUL byte at or after `from`.
fn find_nul_exec(s: &[u8], from: usize) -> (r: Option<usize>)
    ensures
        (match r {
            Some(e) => Some(e as int),
            None => None,
        }) == find_nul(s@, from as int),
        r matches Some(e) ==> from <= e < s@.len(),
{
    let n = s.len();
    let mut i = from;
    while i < n
        invariant
            from <= i,
            n == s@.len(),
            find_nul(s@, from as int) == find_nul(s@, i as int),
        decreases n - i,
    {
        if *vstd::slice::slice_index_get(s, i) == 0 {
            return Some(i);
        }
        i += 1;
    }
    None
}

/// Check that `[lo, hi)` holds only seven-bit bytes.
fn ascii_upto(s: &[u8], lo: usize, hi: usize) -> (r: bool)
    requires
        lo <= hi <= s@.len(),
    ensures
        r == ascii_ok(s@, lo as int, hi as int),
{
    let mut i = lo;
    while i < hi
        invariant
            lo <= i <= hi <= s@.len(),
            forall|j: int| lo <= j < i ==> (#[trigger] s@[j]) < 0x80,
        decreases hi - i,
    {
        if *vstd::slice::slice_index_get(s, i) >= 0x80 {
            return false;
        }
        i += 1;
    }
    true
}

/// Walk the structure block, mirroring [`walk_ok`] step by step.
fn walk(sb: &[u8], st: &[u8]) -> (r: bool)
    requires
        sb@.len() <= DTB_MAX_BYTES,
        st@.len() <= DTB_MAX_BYTES,
    ensures
        r == walk_ok(sb@, st@, 0, 0),
{
    let n = sb.len();
    let mut p: usize = 0;
    let mut d: usize = 0;
    loop
        invariant
            p <= n,
            d <= 32,
            n == sb@.len(),
            n <= DTB_MAX_BYTES,
            st@.len() <= DTB_MAX_BYTES,
            walk_ok(sb@, st@, 0, 0) == walk_ok(sb@, st@, p as int, d as int),
        decreases n - p,
    {
        if p + 8 > n {
            return false;
        }
        let tok = read_be32(sb, p);
        if tok == TOKEN_BEGIN_NODE {
            let e = match find_nul_exec(sb, p + 4) {
                Some(e) => e,
                None => {
                    return false;
                },
            };
            if !ascii_upto(sb, p + 4, e) {
                return false;
            }
            if d + 1 > 32 {
                return false;
            }
            let name_len = e - (p + 4) + 1;
            let q = p + 4 + (name_len + ((4 - (name_len % 4)) % 4));
            proof {
                assert(q as int == p + 4 + pad4(e - (p + 4) + 1));
            }
            if q + 4 > n {
                return false;
            }
            proof {
                assert(walk_ok(sb@, st@, p as int, d as int) == walk_ok(sb@, st@, q as int, d
                    + 1));
            }
            p = q;
            d = d + 1;
        } else if tok == TOKEN_PROP {
            if d == 0 {
                return false;
            }
            if p + 12 > n {
                return false;
            }
            let value_len_w = read_be32(sb, p + 4);
            let nameoff_w = read_be32(sb, p + 8);
            if value_len_w as usize > n {
                proof {
                    assert(p as int + 12 + pad4(value_len_w as int) + 4 > n as int);
                }
                return false;
            }
            let value_len = value_len_w as usize;
            let nameoff = nameoff_w as usize;
            let name_end = match find_nul_exec(st, nameoff) {
                Some(e) => e,
                None => {
                    proof {
                        assert(!prop_name_ok(st@, nameoff as int, value_len as int));
                    }
                    return false;
                },
            };
            if !ascii_upto(st, nameoff, name_end) {
                return false;
            }
            if name_end > nameoff && *vstd::slice::slice_index_get(st, nameoff) == 35
                && value_len != 4 {
                return false;
            }
            proof {
                assert(prop_name_ok(st@, nameoff as int, value_len as int));
            }
            let q = p + 12 + (value_len + ((4 - (value_len % 4)) % 4));
            proof {
                assert(q as int == p + 12 + pad4(value_len as int));
            }
            if q + 4 > n {
                return false;
            }
            proof {
                assert(walk_ok(sb@, st@, p as int, d as int) == walk_ok(sb@, st@, q as int,
                    d as int));
            }
            p = q;
        } else if tok == TOKEN_END_NODE {
            if d == 0 {
                return false;
            }
            if d == 1 {
                return read_be32(sb, p + 4) == TOKEN_END;
            }
            proof {
                assert(walk_ok(sb@, st@, p as int, d as int) == walk_ok(sb@, st@, p + 4, d
                    - 1));
            }
            p = p + 4;
            d = d - 1;
        } else {
            return false;
        }
    }
}

/// Is this blob well-formed enough to hand to the device-tree parser?
pub fn dtb_valid(dtb: &[u8]) -> (r: bool)
    ensures
        r == dtb_structure_ok(dtb@),
{
    let len = dtb.len();
    if len < 40 || len > DTB_MAX_BYTES {
        return false;
    }
    let so = read_be32(dtb, 8) as usize;
    let ss = read_be32(dtb, 36) as usize;
    let to = read_be32(dtb, 12) as usize;
    let ts = read_be32(dtb, 32) as usize;
    if so > len || ss > len - so {
        return false;
    }
    if to > len || ts > len - to {
        return false;
    }
    let sb = vstd::slice::slice_subrange(dtb, so, so + ss);
    let st = vstd::slice::slice_subrange(dtb, to, to + ts);
    walk(sb, st)
}

} // verus!
