//! Rendering of closed runs.
//!
//! A flushed run becomes exactly one output record.  Without counting,
//! the record is the run's representative line verbatim.  With
//! counting, the record is the run length in decimal, right-aligned in
//! a field of minimum width 4 padded with spaces, then a single space,
//! then the representative line verbatim.

use vstd::prelude::*;

use crate::engine::Record;
use crate::lines::push_all;

verus! {

/// Byte value of a space.
pub const SPACE: u8 = 32;

/// Byte value of the digit `0`.
pub const DIGIT_ZERO: u8 = 48;

/// The decimal digits of `n`, as ASCII bytes, most significant first,
/// with no leading zeros (a single `0` for zero).
pub open spec fn decimal(n: nat) -> Seq<u8>
    decreases n,
{
    if n < 10 {
        seq![(DIGIT_ZERO + n) as u8]
    } else {
        decimal(n / 10).push((DIGIT_ZERO + n % 10) as u8)
    }
}

/// `len` spaces.
pub open spec fn spaces(len: nat) -> Seq<u8> {
    Seq::new(len, |i: int| SPACE)
}

/// The counting prefix for a run of length `n`: the decimal digits
/// right-aligned in a field of minimum width 4, followed by one space.
pub open spec fn count_prefix(n: nat) -> Seq<u8> {
    let pad: nat = if decimal(n).len() < 4 {
        (4 - decimal(n).len()) as nat
    } else {
        0
    };
    spaces(pad) + decimal(n) + seq![SPACE]
}

/// The bytes emitted for a run with representative `line` and length
/// `count`: the line verbatim, prefixed with the count field when
/// `counting` is set.
pub open spec fn rendered(line: Seq<u8>, count: nat, counting: bool) -> Seq<u8> {
    if counting {
        count_prefix(count) + line
    } else {
        line
    }
}

/// All records of a run sequence, rendered in order.
pub open spec fn rendered_all(gs: Seq<(Seq<u8>, nat)>, counting: bool) -> Seq<Seq<u8>> {
    gs.map_values(|g: (Seq<u8>, nat)| rendered(g.0, g.1, counting))
}

/// The decimal digits of `n`, as a byte vector.
pub fn format_decimal(n: u64) -> (v: Vec<u8>)
    ensures
        v@ == decimal(n as nat),
    decreases n,
{
    if n < 10 {
        let mut v: Vec<u8> = Vec::new();
        v.push(DIGIT_ZERO + (n as u8));
        proof {
            assert(v@ =~= decimal(n as nat));
        }
        v
    } else {
        let mut v = format_decimal(n / 10);
        v.push(DIGIT_ZERO + ((n % 10) as u8));
        v
    }
}

/// The bytes to emit for the closed run `record`: its representative
/// line verbatim, prefixed with the right-aligned count field when
/// `counting` is set.
pub fn render_record(record: &Record, counting: bool) -> (out: Vec<u8>)
    ensures
        out@ == rendered(record.line@, record.count as nat, counting),
{
    let mut out: Vec<u8> = Vec::new();
    if counting {
        let digits = format_decimal(record.count);
        let pad: usize = if digits.len() < 4 {
            4 - digits.len()
        } else {
            0
        };
        let mut i: usize = 0;
        while i < pad
            invariant
                i <= pad,
                out@ == spaces(i as nat),
            decreases pad - i,
        {
            out.push(SPACE);
            proof {
                assert(spaces(i as nat).push(SPACE) =~= spaces((i + 1) as nat));
            }
            i = i + 1;
        }
        push_all(&mut out, &digits);
        out.push(SPACE);
        proof {
            assert(out@ =~= spaces(pad as nat) + decimal(record.count as nat) + seq![SPACE]);
            assert(out@ == count_prefix(record.count as nat));
        }
    }
    push_all(&mut out, &record.line);
    proof {
        if !counting {
            assert(out@ =~= record.line@);
        }
    }
    out
}

} // verus!
