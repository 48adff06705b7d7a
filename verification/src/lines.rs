//! Lines and their comparison keys.
//!
//! A line is a plain byte vector holding exactly what was read,
//! including any trailing line-terminator bytes.  Two lines belong to
//! the same run when their comparison keys are equal: the key is the
//! line with every trailing `\n` or `\r` byte removed.

use vstd::prelude::*;

verus! {

/// Byte value of `\n`.
pub const LINE_FEED: u8 = 10;

/// Byte value of `\r`.
pub const CARRIAGE_RETURN: u8 = 13;

/// A byte is part of a line terminator when it is `\n` or `\r`.
pub open spec fn is_terminator(b: u8) -> bool {
    b == LINE_FEED || b == CARRIAGE_RETURN
}

/// The comparison key of a line: the line with every trailing
/// terminator byte removed.  Only equality of keys matters for
/// grouping; the stored line, terminator included, is what gets
/// emitted.
pub open spec fn key(line: Seq<u8>) -> Seq<u8>
    decreases line.len(),
{
    if line.len() > 0 && is_terminator(line.last()) {
        key(line.drop_last())
    } else {
        line
    }
}

/// Exec test for a terminator byte.
pub fn is_terminator_byte(b: u8) -> (r: bool)
    ensures
        r == is_terminator(b),
{
    b == LINE_FEED || b == CARRIAGE_RETURN
}

/// Length of the comparison key of `line`: the line's length with
/// trailing terminator bytes not counted.
pub fn key_len(line: &Vec<u8>) -> (n: usize)
    ensures
        n <= line@.len(),
        key(line@) == line@.take(n as int),
{
    let mut n: usize = line.len();
    proof {
        assert(line@.take(line@.len() as int) =~= line@);
    }
    loop
        invariant
            n <= line@.len(),
            key(line@) == key(line@.take(n as int)),
        ensures
            n <= line@.len(),
            key(line@) == key(line@.take(n as int)),
            n == 0 || !is_terminator(line@[n - 1]),
        decreases n,
    {
        if n == 0 {
            break;
        }
        if !is_terminator_byte(line[n - 1]) {
            break;
        }
        proof {
            assert(line@.take(n as int).drop_last() =~= line@.take(n - 1));
        }
        n = n - 1;
    }
    proof {
        if n > 0 {
            assert(line@.take(n as int).last() == line@[n - 1]);
        }
        assert(key(line@.take(n as int)) == line@.take(n as int));
    }
    n
}

/// Whether two lines have the same comparison key.
pub fn keys_equal(a: &Vec<u8>, b: &Vec<u8>) -> (r: bool)
    ensures
        r == (key(a@) == key(b@)),
{
    let na = key_len(a);
    let nb = key_len(b);
    if na != nb {
        proof {
            assert(key(a@).len() == na);
            assert(key(b@).len() == nb);
        }
        return false;
    }
    let mut j: usize = 0;
    while j < na
        invariant
            j <= na == nb,
            na <= a@.len(),
            nb <= b@.len(),
            key(a@) == a@.take(na as int),
            key(b@) == b@.take(nb as int),
            forall|k: int| 0 <= k < j ==> a@[k] == b@[k],
        decreases na - j,
    {
        if a[j] != b[j] {
            proof {
                assert(key(a@)[j as int] != key(b@)[j as int]);
            }
            return false;
        }
        j = j + 1;
    }
    proof {
        assert(key(a@) =~= key(b@));
    }
    true
}

/// A fresh vector holding the same bytes as `src`.
pub fn copy_bytes(src: &Vec<u8>) -> (r: Vec<u8>)
    ensures
        r@ == src@,
{
    let mut r: Vec<u8> = Vec::new();
    let mut i: usize = 0;
    while i < src.len()
        invariant
            i <= src@.len(),
            r@ == src@.take(i as int),
        decreases src@.len() - i,
    {
        r.push(src[i]);
        proof {
            assert(src@.take(i as int).push(src@[i as int]) =~= src@.take(i + 1));
        }
        i = i + 1;
    }
    proof {
        assert(src@.take(src@.len() as int) =~= src@);
    }
    r
}

/// Appends all bytes of `src` to `dst`.
pub fn push_all(dst: &mut Vec<u8>, src: &Vec<u8>)
    ensures
        final(dst)@ == old(dst)@ + src@,
{
    let ghost start = dst@;
    let mut i: usize = 0;
    while i < src.len()
        invariant
            i <= src@.len(),
            dst@ == start + src@.take(i as int),
        decreases src@.len() - i,
    {
        dst.push(src[i]);
        proof {
            assert(start + src@.take(i as int).push(src@[i as int]) =~= start + src@.take(i + 1));
            assert(src@.take(i as int).push(src@[i as int]) =~= src@.take(i + 1));
        }
        i = i + 1;
    }
    proof {
        assert(src@.take(src@.len() as int) =~= src@);
    }
}

} // verus!
