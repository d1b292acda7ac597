//! Peptides bound by an allele, the proteins they come from, and binding records.
use vstd::prelude::*;
use crate::text::substring;
use std::ops::Range;

verus! {

/// Errors of sequence access.
#[derive(Debug, Clone, Copy, PartialEq, Eq, Structural)]
pub enum SequenceError {
    /// A position (first) beyond the protein's current length (second).
    ProteinTooShort(usize, usize),
}

/// The characters of `s` at the positions that `mask` lists, in the order they occur in `s`.
/// Positions count from 0; those at or beyond the end of `s` select nothing.
pub open spec fn select_positions(s: Seq<char>, mask: Seq<usize>) -> Seq<char>
    decreases s.len(),
{
    if s.len() == 0 {
        Seq::empty()
    } else if mask.contains((s.len() - 1) as usize) {
        select_positions(s.drop_last(), mask).push(s.last())
    } else {
        select_positions(s.drop_last(), mask)
    }
}

/// The characters of `s` outside the index range `[start, end)`.
pub open spec fn outside_range(s: Seq<char>, start: int, end: int) -> Seq<char>
    decreases s.len(),
{
    if s.len() == 0 {
        Seq::empty()
    } else if start <= s.len() - 1 < end {
        outside_range(s.drop_last(), start, end)
    } else {
        outside_range(s.drop_last(), start, end).push(s.last())
    }
}

fn mask_has(mask: &[usize], i: usize) -> (r: bool)
    ensures
        r == mask@.contains(i),
{
    let mut k: usize = 0;
    while k < mask.len()
        invariant
            k <= mask@.len(),
            forall|j: int| 0 <= j < k ==> mask@[j] != i,
        decreases mask@.len() - k,
    {
        if mask[k] == i {
            assert(mask@[k as int] == i);
            return true;
        }
        k = k + 1;
    }
    false
}

/// A peptide as the predictor reports it, with its alignment to a 9-residue core.
#[derive(Debug)]
pub struct Peptide {
    pub pos: usize,
    pub seq: String,
    pub identity: String,
    pub icore: String,
    pub offset: usize,
    pub gap: Range<usize>,
    pub ins: Range<usize>,
}

/// The core of a peptide: with a gap in the alignment, the residues outside it; otherwise
/// the whole sequence.
pub open spec fn core_spec(p: Peptide) -> Seq<char> {
    if p.gap.end > p.gap.start {
        outside_range(p.seq@, p.gap.start as int, p.gap.end as int)
    } else {
        p.seq@
    }
}

impl Peptide {
    /// Builds a peptide from its alignment: offset, gap start and length, insertion start and
    /// length.
    pub fn new(pos: usize, seq: String, identity: String, icore: String, alignment_mods: &[usize]) -> (r: Peptide)
        requires
            alignment_mods@.len() >= 5,
            alignment_mods@[1] + alignment_mods@[2] <= usize::MAX,
            alignment_mods@[3] + alignment_mods@[4] <= usize::MAX,
        ensures
            r.pos == pos,
            r.seq == seq,
            r.identity == identity,
            r.icore == icore,
            r.offset == alignment_mods@[0],
            r.gap.start == alignment_mods@[1],
            r.gap.end == alignment_mods@[1] + alignment_mods@[2],
            r.ins.start == alignment_mods@[3],
            r.ins.end == alignment_mods@[3] + alignment_mods@[4],
    {
        let offset = alignment_mods[0];
        let gap = Range { start: alignment_mods[1], end: alignment_mods[1] + alignment_mods[2] };
        let ins = Range { start: alignment_mods[3], end: alignment_mods[3] + alignment_mods[4] };
        Peptide { pos, seq, identity, icore, offset, gap, ins }
    }

    pub fn seq(&self) -> (r: &str)
        ensures
            r@ == self.seq@,
    {
        self.seq.as_str()
    }

    /// Number of residues.
    pub fn len(&self) -> (r: usize)
        ensures
            r == self.seq@.len(),
    {
        self.seq.as_str().unicode_len()
    }

    pub fn gap_region(&self) -> (r: &Range<usize>)
        ensures
            *r == self.gap,
    {
        &self.gap
    }

    pub fn ins_region(&self) -> (r: &Range<usize>)
        ensures
            *r == self.ins,
    {
        &self.ins
    }

    pub fn sequence(&self) -> (r: &str)
        ensures
            r@ == self.seq@,
    {
        self.seq.as_str()
    }

    /// Identifier of the source protein.
    pub fn protein(&self) -> (r: &str)
        ensures
            r@ == self.identity@,
    {
        self.identity.as_str()
    }

    pub fn icore(&self) -> (r: &str)
        ensures
            r@ == self.icore@,
    {
        self.icore.as_str()
    }

    /// The alignment as `(offset, gap range, insertion range)`.
    pub fn aa_diff(&self) -> (r: (usize, &Range<usize>, &Range<usize>))
        ensures
            r.0 == self.offset,
            *r.1 == self.gap,
            *r.2 == self.ins,
    {
        (self.offset, &self.gap, &self.ins)
    }

    /// The peptide's core sequence: residues in the alignment gap are left out.
    pub fn core_seq(&self) -> (r: String)
        ensures
            r@ == core_spec(*self),
    {
        let s = self.seq.as_str();
        let n = s.unicode_len();
        if self.gap.end > self.gap.start {
            let mut out = String::new();
            let mut i: usize = 0;
            while i < n
                invariant
                    n == s@.len(),
                    s@ == self.seq@,
                    i <= n,
                    out@ == outside_range(s@.take(i as int), self.gap.start as int, self.gap.end as int),
                decreases n - i,
            {
                assert(s@.take(i + 1).drop_last() =~= s@.take(i as int));
                if !(self.gap.start <= i && i < self.gap.end) {
                    let piece = s.substring_char(i, i + 1);
                    assert(piece@ =~= seq![s@[i as int]]);
                    out.append(piece);
                }
                i = i + 1;
            }
            assert(s@.take(n as int) =~= s@);
            out
        } else {
            self.seq.clone()
        }
    }

    /// The residues at the positions that `aa_pos` lists, counted from 0, in sequence order.
    pub fn sequence_motif(&self, aa_pos: &[usize]) -> (r: String)
        ensures
            r@ == select_positions(self.seq@, aa_pos@),
    {
        let s = self.seq.as_str();
        let n = s.unicode_len();
        let mut out = String::new();
        let mut i: usize = 0;
        while i < n
            invariant
                n == s@.len(),
                s@ == self.seq@,
                i <= n,
                out@ == select_positions(s@.take(i as int), aa_pos@),
            decreases n - i,
        {
            assert(s@.take(i + 1).drop_last() =~= s@.take(i as int));
            if mask_has(aa_pos, i) {
                let piece = s.substring_char(i, i + 1);
                assert(piece@ =~= seq![s@[i as int]]);
                out.append(piece);
            }
            i = i + 1;
        }
        assert(s@.take(n as int) =~= s@);
        out
    }

    /// Whether two peptides are the same record: position, protein and sequence.
    pub fn same(&self, other: &Peptide) -> (r: bool)
        ensures
            r == (self.pos == other.pos && self.identity@ == other.identity@ && self.seq@ == other.seq@),
    {
        self.pos == other.pos && self.identity.eq(&other.identity) && self.seq.eq(&other.seq)
    }
}

impl PartialEq for Peptide {
    fn eq(&self, other: &Peptide) -> (r: bool) {
        self.same(other)
    }
}

impl vstd::std_specs::cmp::PartialEqSpecImpl for Peptide {
    open spec fn obeys_eq_spec() -> bool {
        true
    }

    open spec fn eq_spec(&self, other: &Peptide) -> bool {
        self.pos == other.pos && self.identity@ == other.identity@ && self.seq@ == other.seq@
    }
}

impl Eq for Peptide {
}

/// `s` with `t` written from position `pos` on, over what is there and past the end.
pub open spec fn write_at(s: Seq<char>, pos: int, t: Seq<char>) -> Seq<char> {
    s.take(pos) + t + (if pos + t.len() < s.len() { s.skip(pos + t.len()) } else { Seq::empty() })
}

/// A protein sequence rebuilt from the peptides that cover it.
#[derive(Debug, Clone)]
pub struct Protein {
    pub identity: String,
    pub sequence: String,
}

impl Protein {
    /// A protein with no residues yet.
    pub fn new(identity: &str) -> (r: Protein)
        ensures
            r.identity@ == identity@,
            r.sequence@ == Seq::<char>::empty(),
    {
        Protein { identity: String::from_str(identity), sequence: String::new() }
    }

    pub fn identity(&self) -> (r: &str)
        ensures
            r@ == self.identity@,
    {
        self.identity.as_str()
    }

    pub fn seq(&self) -> (r: &str)
        ensures
            r@ == self.sequence@,
    {
        self.sequence.as_str()
    }

    /// Writes `sequence` at position `pos` (from 0), over what is there and past the end. A
    /// position beyond the current length is an error and changes nothing.
    pub fn add_sequence_at_pos(&mut self, pos: usize, sequence: &str) -> (r: Result<(), SequenceError>)
        ensures
            final(self).identity == old(self).identity,
            pos > old(self).sequence@.len() ==> r == Err::<(), SequenceError>(
                SequenceError::ProteinTooShort(pos, old(self).sequence@.len() as usize),
            ) && final(self).sequence == old(self).sequence,
            pos <= old(self).sequence@.len() ==> r is Ok && final(self).sequence@ == write_at(
                old(self).sequence@,
                pos as int,
                sequence@,
            ),
    {
        let cur = self.sequence.as_str();
        let n = cur.unicode_len();
        if pos > n {
            return Err(SequenceError::ProteinTooShort(pos, n));
        }
        let m = sequence.unicode_len();
        let mut out = substring(cur, 0, pos);
        out.append(sequence);
        if m < n - pos {
            let tail = substring(cur, pos + m, n);
            out.append(tail.as_str());
        }
        proof {
            if !(pos + m < n) {
                assert(out@ =~= out@ + Seq::<char>::empty());
            }
        }
        self.sequence = out;
        Ok(())
    }

    /// The residues from `start` up to `end` (from 0, end excluded).
    pub fn sequence(&self, start: usize, end: usize) -> (r: Result<String, SequenceError>)
        requires
            start <= end,
        ensures
            end > self.sequence@.len() ==> r == Err::<String, SequenceError>(
                SequenceError::ProteinTooShort(end, self.sequence@.len() as usize),
            ),
            end <= self.sequence@.len() ==> (r matches Ok(s) && s@ == self.sequence@.subrange(
                start as int,
                end as int,
            )),
    {
        let cur = self.sequence.as_str();
        let n = cur.unicode_len();
        if end > n {
            Err(SequenceError::ProteinTooShort(end, n))
        } else {
            Ok(substring(cur, start, end))
        }
    }
}

impl PartialEq for Protein {
    fn eq(&self, other: &Protein) -> (r: bool) {
        self.identity.eq(&other.identity) && self.sequence.eq(&other.sequence)
    }
}

impl vstd::std_specs::cmp::PartialEqSpecImpl for Protein {
    open spec fn obeys_eq_spec() -> bool {
        true
    }

    open spec fn eq_spec(&self, other: &Protein) -> bool {
        self.identity@ == other.identity@ && self.sequence@ == other.sequence@
    }
}

impl Eq for Protein {
}

/// A peptide bound by an allele, with its percentile rank in units of 1/10000 of a percent
/// (a rank of 0.5% is 5000).
#[derive(Debug)]
pub struct BindingInfo {
    pub peptide: Peptide,
    pub rank: u32,
}

impl BindingInfo {
    /// The residues at the given positions (from 0).
    pub fn motif(&self, aa_pos: &[usize]) -> (r: String)
        ensures
            r@ == select_positions(self.peptide.seq@, aa_pos@),
    {
        self.peptide.sequence_motif(aa_pos)
    }

    pub fn peptide(&self) -> (r: &Peptide)
        ensures
            *r == self.peptide,
    {
        &self.peptide
    }

    pub fn seq(&self) -> (r: &str)
        ensures
            r@ == self.peptide.seq@,
    {
        self.peptide.seq()
    }

    pub fn len(&self) -> (r: usize)
        ensures
            r == self.peptide.seq@.len(),
    {
        self.peptide.len()
    }

    pub fn rank(&self) -> (r: u32)
        ensures
            r == self.rank,
    {
        self.rank
    }
}

} // verus!
