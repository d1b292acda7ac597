//! Alignment of a peptide to its binding core, as runs of matches, deletions and insertions.
use vstd::prelude::*;

verus! {

/// A run of alignment steps of one kind.
#[derive(Debug, Clone, Copy, PartialEq, Eq, Structural)]
pub enum PeptideDifference {
    Match(usize),
    Deletion(usize),
    Insertion(usize),
}

/// Kind of a step: 0 match, 1 deletion, 2 insertion.
pub open spec fn diff_kind(d: PeptideDifference) -> u8 {
    match d {
        PeptideDifference::Match(_) => 0,
        PeptideDifference::Deletion(_) => 1,
        PeptideDifference::Insertion(_) => 2,
    }
}

pub open spec fn diff_len(d: PeptideDifference) -> usize {
    match d {
        PeptideDifference::Match(n) => n,
        PeptideDifference::Deletion(n) => n,
        PeptideDifference::Insertion(n) => n,
    }
}

pub open spec fn diff_of(kind: u8, n: usize) -> PeptideDifference {
    if kind == 0 {
        PeptideDifference::Match(n)
    } else if kind == 1 {
        PeptideDifference::Deletion(n)
    } else {
        PeptideDifference::Insertion(n)
    }
}

impl PeptideDifference {
    pub fn kind(&self) -> (r: u8)
        ensures
            r == diff_kind(*self),
    {
        match self {
            PeptideDifference::Match(_) => 0,
            PeptideDifference::Deletion(_) => 1,
            PeptideDifference::Insertion(_) => 2,
        }
    }

    /// The same run, `n` steps longer.
    pub fn extended(&self, n: usize) -> (r: PeptideDifference)
        requires
            diff_len(*self) + n <= usize::MAX,
        ensures
            diff_kind(r) == diff_kind(*self),
            diff_len(r) == diff_len(*self) + n,
    {
        match self {
            PeptideDifference::Match(v) => PeptideDifference::Match(*v + n),
            PeptideDifference::Deletion(v) => PeptideDifference::Deletion(*v + n),
            PeptideDifference::Insertion(v) => PeptideDifference::Insertion(*v + n),
        }
    }
}

/// The step kinds for the first `n` residues of `pep` against `core`, and how much of
/// `core` they consume. Each residue is compared with the next core character: equal is a
/// match (the core advances), `-` an insertion, anything else a deletion; once the core is
/// used up, the remaining residues give no step.
pub open spec fn align_steps(pep: Seq<char>, core: Seq<char>, n: nat) -> (Seq<u8>, nat)
    decreases n,
{
    if n == 0 {
        (Seq::empty(), 0)
    } else {
        let (ks, j) = align_steps(pep, core, (n - 1) as nat);
        if j < core.len() {
            if core[j as int] == pep[n - 1] {
                (ks.push(0), j + 1)
            } else if core[j as int] == '-' {
                (ks.push(2), j)
            } else {
                (ks.push(1), j)
            }
        } else {
            (ks, j)
        }
    }
}

/// Step kinds grouped into runs of equal kind.
pub open spec fn runs(ks: Seq<u8>) -> Seq<PeptideDifference>
    decreases ks.len(),
{
    if ks.len() == 0 {
        Seq::empty()
    } else {
        let p = runs(ks.drop_last());
        if p.len() > 0 && diff_kind(p.last()) == ks.last() {
            p.update(p.len() - 1, diff_of(ks.last(), (diff_len(p.last()) + 1) as usize))
        } else {
            p.push(diff_of(ks.last(), 1))
        }
    }
}

proof fn lemma_align_bounds(pep: Seq<char>, core: Seq<char>, n: nat)
    ensures
        align_steps(pep, core, n).0.len() <= n,
        align_steps(pep, core, n).1 <= core.len(),
        align_steps(pep, core, n).1 <= n,
    decreases n,
{
    if n > 0 {
        lemma_align_bounds(pep, core, (n - 1) as nat);
    }
}

proof fn lemma_runs_bound(ks: Seq<u8>)
    ensures
        forall|i: int| 0 <= i < runs(ks).len() ==> diff_len(#[trigger] runs(ks)[i]) <= ks.len(),
        runs(ks).len() <= ks.len(),
    decreases ks.len(),
{
    if ks.len() > 0 {
        lemma_runs_bound(ks.drop_last());
    }
}

/// The alignment of `peptide` to `core` as runs of matches, deletions and insertions.
pub fn edit_distance(peptide: &str, core: &str) -> (r: Vec<PeptideDifference>)
    ensures
        r@ == runs(align_steps(peptide@, core@, peptide@.len()).0),
{
    let n = peptide.unicode_len();
    let m = core.unicode_len();
    let mut result: Vec<PeptideDifference> = Vec::new();
    let mut j: usize = 0;
    let mut i: usize = 0;
    while i < n
        invariant
            n == peptide@.len(),
            m == core@.len(),
            i <= n,
            j as nat == align_steps(peptide@, core@, i as nat).1,
            result@ == runs(align_steps(peptide@, core@, i as nat).0),
        decreases n - i,
    {
        proof {
            lemma_align_bounds(peptide@, core@, i as nat);
            lemma_runs_bound(align_steps(peptide@, core@, i as nat).0);
        }
        let ghost ks = align_steps(peptide@, core@, i as nat).0;
        if j < m {
            let c = core.get_char(j);
            let p = peptide.get_char(i);
            let kind: u8 = if c == p {
                0
            } else if c == '-' {
                2
            } else {
                1
            };
            assert(align_steps(peptide@, core@, (i + 1) as nat).0 == ks.push(kind));
            assert(ks.push(kind).drop_last() =~= ks);
            let len = result.len();
            if len > 0 && result[len - 1].kind() == kind {
                let last = result[len - 1];
                assert(diff_len(last) <= ks.len());
                let next = last.extended(1);
                result.set(len - 1, next);
                assert(next == diff_of(kind, (diff_len(last) + 1) as usize));
            } else {
                let step = if kind == 0 {
                    PeptideDifference::Match(1)
                } else if kind == 1 {
                    PeptideDifference::Deletion(1)
                } else {
                    PeptideDifference::Insertion(1)
                };
                result.push(step);
            }
            if kind == 0 {
                j = j + 1;
            }
        }
        i = i + 1;
    }
    result
}

/// The residues consumed by the first runs: matches and deletions.
pub open spec fn consumed(steps: Seq<PeptideDifference>) -> nat
    decreases steps.len(),
{
    if steps.len() == 0 {
        0
    } else {
        consumed(steps.drop_last()) + match steps.last() {
            PeptideDifference::Match(n) => n as nat,
            PeptideDifference::Deletion(n) => n as nat,
            PeptideDifference::Insertion(_) => 0nat,
        }
    }
}

pub open spec fn clamp(x: nat, len: nat) -> int {
    if x <= len { x as int } else { len as int }
}

/// `n` gap characters.
pub open spec fn gaps(n: nat) -> Seq<char>
    decreases n,
{
    if n == 0 { Seq::empty() } else { gaps((n - 1) as nat).push('-') }
}

/// The core that an alignment makes of a peptide: matched residues kept, deleted ones left
/// out, each insertion written as `-`.
pub open spec fn core_from(steps: Seq<PeptideDifference>, pep: Seq<char>) -> Seq<char>
    decreases steps.len(),
{
    if steps.len() == 0 {
        Seq::empty()
    } else {
        let p = core_from(steps.drop_last(), pep);
        let at = consumed(steps.drop_last());
        match steps.last() {
            PeptideDifference::Match(n) => p + pep.subrange(clamp(at, pep.len()), clamp(at + n as nat, pep.len())),
            PeptideDifference::Deletion(_) => p,
            PeptideDifference::Insertion(n) => p + gaps(n as nat),
        }
    }
}

/// Rebuilds the core sequence from an alignment and its peptide.
pub fn pep_to_core(steps: &[PeptideDifference], peptide: &str) -> (r: String)
    ensures
        r@ == core_from(steps@, peptide@),
{
    let len = peptide.unicode_len();
    let mut out = String::new();
    let mut at: usize = 0;
    let mut i: usize = 0;
    while i < steps.len()
        invariant
            len == peptide@.len(),
            i <= steps@.len(),
            at as int == clamp(consumed(steps@.take(i as int)), len as nat),
            out@ == core_from(steps@.take(i as int), peptide@),
        decreases steps@.len() - i,
    {
        let ghost pre = steps@.take(i as int);
        assert(steps@.take(i + 1).drop_last() =~= pre);
        assert(steps@.take(i + 1).last() == steps@[i as int]);
        match steps[i] {
            PeptideDifference::Match(n) => {
                let end = if n <= len - at { at + n } else { len };
                let piece = peptide.substring_char(at, end);
                out.append(piece);
                at = end;
            },
            PeptideDifference::Deletion(n) => {
                at = if n <= len - at { at + n } else { len };
            },
            PeptideDifference::Insertion(n) => {
                let mut k: usize = 0;
                let ghost base = out@;
                while k < n
                    invariant
                        k <= n,
                        out@ == base + gaps(k as nat),
                    decreases n - k,
                {
                    proof { reveal_strlit("-"); }
                    out.append("-");
                    assert(out@ =~= base + gaps((k + 1) as nat));
                    k = k + 1;
                }
            },
        }
        i = i + 1;
    }
    assert(steps@.take(steps@.len() as int) =~= steps@);
    out
}

} // verus!
