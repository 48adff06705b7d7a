//! The deduplication engine.
//!
//! The engine consumes lines one at a time and keeps the state of the
//! currently open run: the run's first line (its representative) and
//! how many lines it has absorbed so far.  A line whose comparison key
//! differs from the representative's closes the run, which is handed
//! back as a [`Record`]; the final run is closed by [`Engine::finish`].
//!
//! The mathematical model is [`groups`]: the sequence of
//! `(representative, length)` pairs of the maximal runs of adjacent
//! lines sharing a comparison key, in input order.

use vstd::prelude::*;

use crate::lines::{copy_bytes, key, keys_equal};

verus! {

/// One maximal run of adjacent lines with equal comparison keys: the
/// run's first line, terminator included, and the number of lines in
/// the run.
pub struct Record {
    /// The first line of the run, exactly as it was read.
    pub line: Vec<u8>,
    /// How many consecutive lines the run absorbed; always at least 1.
    pub count: u64,
}

/// The runs of `ls`: for each maximal run of adjacent lines whose
/// comparison keys are equal, the pair of the run's first line and the
/// run's length, in input order.
pub open spec fn groups(ls: Seq<Seq<u8>>) -> Seq<(Seq<u8>, nat)>
    decreases ls.len(),
{
    if ls.len() == 0 {
        Seq::empty()
    } else {
        let g = groups(ls.drop_last());
        let l = ls.last();
        if g.len() > 0 && key(g.last().0) == key(l) {
            g.update(g.len() - 1, (g.last().0, (g.last().1 + 1) as nat))
        } else {
            g.push((l, 1))
        }
    }
}

/// There is a run exactly when there is a line; the last run's
/// representative has the key of the last line, and every run has
/// absorbed at least one line.
pub proof fn lemma_groups_last(ls: Seq<Seq<u8>>)
    requires
        ls.len() > 0,
    ensures
        groups(ls).len() > 0,
        key(groups(ls).last().0) == key(ls.last()),
        groups(ls).last().1 >= 1,
    decreases ls.len(),
{
    if ls.drop_last().len() > 0 {
        lemma_groups_last(ls.drop_last());
    }
}

/// The streaming deduplication state: the representative of the run
/// that is currently open and the number of lines it has absorbed.  A
/// count of 0 means that no run is open yet.
pub struct Engine {
    /// First line of the open run; meaningless while `count` is 0.
    pub representative: Vec<u8>,
    /// Number of lines absorbed into the open run.
    pub count: u64,
}

impl Engine {
    /// A fresh engine with no run open.
    pub fn new() -> (e: Engine)
        ensures
            e.count == 0,
    {
        Engine { representative: Vec::new(), count: 0 }
    }

    /// Feeds one line to the engine.  The very first line always opens
    /// a run; a line whose key matches the open run's representative
    /// joins the run; a line with a different key closes the run,
    /// which is returned, and opens a new one.
    pub fn push(&mut self, line: Vec<u8>) -> (flushed: Option<Record>)
        requires
            old(self).count < u64::MAX,
        ensures
            final(self).count == if old(self).count > 0 && key(old(self).representative@) == key(
                line@,
            ) {
                old(self).count + 1
            } else {
                1int
            },
            final(self).representative@ == if old(self).count > 0 && key(
                old(self).representative@,
            ) == key(line@) {
                old(self).representative@
            } else {
                line@
            },
            flushed is Some <==> old(self).count > 0 && key(old(self).representative@) != key(
                line@,
            ),
            flushed is Some ==> flushed.unwrap().line@ == old(self).representative@
                && flushed.unwrap().count == old(self).count,
    {
        if self.count == 0 {
            self.representative = line;
            self.count = 1;
            None
        } else if keys_equal(&self.representative, &line) {
            self.count = self.count + 1;
            None
        } else {
            let closed = Record { line: copy_bytes(&self.representative), count: self.count };
            self.representative = line;
            self.count = 1;
            Some(closed)
        }
    }

    /// Closes the run that is still open after the input is exhausted,
    /// if any: returns it as a record, or nothing when no line was ever
    /// pushed.
    pub fn finish(&self) -> (closed: Option<Record>)
        ensures
            closed is Some <==> self.count > 0,
            closed is Some ==> closed.unwrap().line@ == self.representative@
                && closed.unwrap().count == self.count,
    {
        if self.count == 0 {
            None
        } else {
            Some(Record { line: copy_bytes(&self.representative), count: self.count })
        }
    }
}

} // verus!
