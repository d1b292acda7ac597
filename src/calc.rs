//! Bound-motif extraction, the allele-pair combinator and the fraction-shared calculator.
use vstd::prelude::*;
use crate::peptide::{BindingInfo, Protein, select_positions};
use crate::hla::{ClassI, ClassIView, class_i_lt};
use crate::ligand::{KirLigandInfo, KirLigandInfoView, KirLigandMap, LigandMotif, lookup};
use crate::measure::Measure;
use crate::grid::{grid, grid_plane, grid_row};

verus! {

/// The characters of each string.
pub open spec fn texts(v: Seq<String>) -> Seq<Seq<char>> {
    v.map_values(|s: String| s@)
}

/// A record counts as bound when its rank is below the threshold and its peptide has the
/// required length.
pub open spec fn is_bound(b: BindingInfo, threshold: u32, length: usize) -> bool {
    b.rank < threshold && b.peptide.seq@.len() == length
}

/// A peptide projected through a mask of positions (from 0), or whole without one.
pub open spec fn project(s: Seq<char>, mask: Option<Seq<usize>>) -> Seq<char> {
    match mask {
        Some(m) => select_positions(s, m),
        None => s,
    }
}

/// The motifs of the bound records, in record order, duplicates kept.
pub open spec fn bound_motifs(
    recs: Seq<BindingInfo>,
    threshold: u32,
    length: usize,
    mask: Option<Seq<usize>>,
) -> Seq<Seq<char>>
    decreases recs.len(),
{
    if recs.len() == 0 {
        Seq::empty()
    } else if is_bound(recs.last(), threshold, length) {
        bound_motifs(recs.drop_last(), threshold, length, mask).push(project(recs.last().peptide.seq@, mask))
    } else {
        bound_motifs(recs.drop_last(), threshold, length, mask)
    }
}

/// Extraction splits over any division of the records into consecutive chunks: extracting
/// the chunks apart and joining the results gives what extracting all at once gives, so the
/// motifs do not depend on how the work is divided.
pub proof fn lemma_extraction_splits(
    a: Seq<BindingInfo>,
    b: Seq<BindingInfo>,
    threshold: u32,
    length: usize,
    mask: Option<Seq<usize>>,
)
    ensures
        bound_motifs(a + b, threshold, length, mask) == bound_motifs(a, threshold, length, mask)
            + bound_motifs(b, threshold, length, mask),
    decreases b.len(),
{
    if b.len() == 0 {
        assert(a + b =~= a);
        assert(bound_motifs(a, threshold, length, mask) + Seq::<Seq<char>>::empty() =~= bound_motifs(
            a,
            threshold,
            length,
            mask,
        ));
    } else {
        lemma_extraction_splits(a, b.drop_last(), threshold, length, mask);
        assert((a + b).drop_last() =~= a + b.drop_last());
        assert((a + b).last() == b.last());
        let x = bound_motifs(a, threshold, length, mask);
        let y = bound_motifs(b.drop_last(), threshold, length, mask);
        if is_bound(b.last(), threshold, length) {
            assert((x + y).push(project(b.last().peptide.seq@, mask)) =~= x + y.push(
                project(b.last().peptide.seq@, mask),
            ));
        }
    }
}

/// The motifs of the bound records among `records`: each bound peptide projected through
/// `aa_pos` (positions from 0, those past the peptide's end skipped), or whole without a mask.
pub fn extract_bound_motifs(
    records: &[BindingInfo],
    threshold: u32,
    length: usize,
    aa_pos: Option<&[usize]>,
) -> (r: Vec<String>)
    ensures
        texts(r@) == bound_motifs(
            records@,
            threshold,
            length,
            match aa_pos {
                Some(m) => Some(m@),
                None => None,
            },
        ),
{
    let ghost mask = match aa_pos {
        Some(m) => Some(m@),
        None => None::<Seq<usize>>,
    };
    let mut out: Vec<String> = Vec::new();
    let mut i: usize = 0;
    while i < records.len()
        invariant
            i <= records@.len(),
            mask == match aa_pos {
                Some(m) => Some(m@),
                None => None::<Seq<usize>>,
            },
            texts(out@) == bound_motifs(records@.take(i as int), threshold, length, mask),
        decreases records@.len() - i,
    {
        let rec = &records[i];
        assert(records@.take(i + 1).drop_last() =~= records@.take(i as int));
        assert(records@.take(i + 1).last() == *rec);
        if rec.rank < threshold && rec.len() == length {
            let m = match aa_pos {
                Some(p) => rec.motif(p),
                None => String::from_str(rec.seq()),
            };
            let ghost before = texts(out@);
            out.push(m);
            assert(texts(out@) =~= before.push(m@));
        }
        i = i + 1;
    }
    assert(records@.take(records@.len() as int) =~= records@);
    out
}

/// The motifs with later repeats removed, first occurrences kept in order.
pub open spec fn dedup_spec(s: Seq<Seq<char>>) -> Seq<Seq<char>>
    decreases s.len(),
{
    if s.len() == 0 {
        Seq::empty()
    } else if s.drop_last().contains(s.last()) {
        dedup_spec(s.drop_last())
    } else {
        dedup_spec(s.drop_last()).push(s.last())
    }
}

pub proof fn lemma_dedup_members(s: Seq<Seq<char>>, x: Seq<char>)
    ensures
        dedup_spec(s).contains(x) <==> s.contains(x),
    decreases s.len(),
{
    if s.len() > 0 {
        lemma_dedup_members(s.drop_last(), x);
        let p = s.drop_last();
        assert(s =~= p.push(s.last()));
        if s.contains(x) && x != s.last() {
            let i = choose|i: int| 0 <= i < s.len() && s[i] == x;
            assert(p[i] == x);
        }
        if p.contains(x) {
            let i = choose|i: int| 0 <= i < p.len() && p[i] == x;
            assert(s[i] == x);
        }
        assert(s[s.len() - 1] == s.last());
        let d = dedup_spec(p);
        if !p.contains(s.last()) {
            assert(d.push(s.last())[d.len() as int] == s.last());
            if d.push(s.last()).contains(x) && x != s.last() {
                let i = choose|i: int| 0 <= i < d.len() + 1 && d.push(s.last())[i] == x;
                assert(d[i] == x);
            }
            if d.contains(x) {
                let i = choose|i: int| 0 <= i < d.len() && d[i] == x;
                assert(d.push(s.last())[i] == x);
            }
        }
    }
}

fn contains_text_in(v: &Vec<String>, t: &String) -> (r: bool)
    ensures
        r == texts(v@).contains(t@),
{
    let mut k: usize = 0;
    while k < v.len()
        invariant
            k <= v@.len(),
            forall|j: int| 0 <= j < k ==> v@[j]@ != t@,
        decreases v@.len() - k,
    {
        if v[k].eq(t) {
            assert(texts(v@)[k as int] == t@);
            return true;
        }
        k = k + 1;
    }
    assert forall|j: int| 0 <= j < texts(v@).len() implies texts(v@)[j] != t@ by {
        assert(texts(v@)[j] == v@[j]@);
    }
    false
}

/// The motifs with later repeats removed.
pub fn dedup_motifs(v: &Vec<String>) -> (r: Vec<String>)
    ensures
        texts(r@) == dedup_spec(texts(v@)),
{
    let mut out: Vec<String> = Vec::new();
    let mut i: usize = 0;
    while i < v.len()
        invariant
            i <= v@.len(),
            texts(out@) == dedup_spec(texts(v@).take(i as int)),
        decreases v@.len() - i,
    {
        let ghost pre = texts(v@).take(i as int);
        assert(texts(v@).take(i + 1).drop_last() =~= pre);
        assert(texts(v@).take(i + 1).last() == v@[i as int]@);
        proof { lemma_dedup_members(pre, v@[i as int]@); }
        if !contains_text_in(&out, &v[i]) {
            let ghost before = texts(out@);
            out.push(v[i].clone());
            assert(texts(out@) =~= before.push(v@[i as int]@));
        }
        i = i + 1;
    }
    assert(texts(v@).take(v@.len() as int) =~= texts(v@));
    out
}

/// How many of `a`'s motifs (counted with repeats) also occur in `b`.
pub open spec fn shared_count(a: Seq<Seq<char>>, b: Seq<Seq<char>>) -> nat
    decreases a.len(),
{
    if a.len() == 0 {
        0
    } else if b.contains(a.last()) {
        shared_count(a.drop_last(), b) + 1
    } else {
        shared_count(a.drop_last(), b)
    }
}

/// No motif occurs twice.
pub open spec fn distinct_motifs(s: Seq<Seq<char>>) -> bool {
    forall|i: int, j: int| 0 <= i < j < s.len() ==> s[i] != s[j]
}

proof fn lemma_dedup_distinct(s: Seq<Seq<char>>)
    ensures
        distinct_motifs(dedup_spec(s)),
    decreases s.len(),
{
    if s.len() > 0 {
        let p = s.drop_last();
        lemma_dedup_distinct(p);
        let d = dedup_spec(p);
        if !p.contains(s.last()) {
            lemma_dedup_members(p, s.last());
            let q = d.push(s.last());
            assert forall|i: int, j: int| 0 <= i < j < q.len() implies #[trigger] q[i] != #[trigger] q[j] by {
                if j == d.len() {
                    assert(q[i] == d[i]);
                    assert(d.contains(d[i]));
                } else {
                    assert(q[i] == d[i] && q[j] == d[j]);
                }
            }
        }
    }
}

/// For motif lists without repeats the shared count is the size of their common set.
proof fn lemma_shared_count_common(a: Seq<Seq<char>>, b: Seq<Seq<char>>)
    requires
        distinct_motifs(a),
    ensures
        shared_count(a, b) == a.to_set().intersect(b.to_set()).len(),
    decreases a.len(),
{
    if a.len() == 0 {
        assert(a.to_set().intersect(b.to_set()) =~= Set::<Seq<char>>::empty());
    } else {
        let p = a.drop_last();
        let x = a.last();
        assert forall|i: int, j: int| 0 <= i < j < p.len() implies p[i] != p[j] by {
            assert(p[i] == a[i] && p[j] == a[j]);
        }
        lemma_shared_count_common(p, b);
        assert(!p.contains(x)) by {
            if p.contains(x) {
                let i = choose|i: int| 0 <= i < p.len() && p[i] == x;
                assert(a[i] == a[a.len() - 1]);
            }
        }
        assert(a =~= p.push(x));
        assert(a.to_set() =~= p.to_set().insert(x)) by {
            assert forall|y: Seq<char>| a.to_set().contains(y) <==> p.to_set().insert(x).contains(y) by {
                if a.contains(y) {
                    let i = choose|i: int| 0 <= i < a.len() && a[i] == y;
                    if i < p.len() {
                        assert(p[i] == y);
                    }
                }
                if p.contains(y) {
                    let i = choose|i: int| 0 <= i < p.len() && p[i] == y;
                    assert(a[i] == y);
                }
                if y == x {
                    assert(a[a.len() - 1] == x);
                }
            }
        }
        let common = p.to_set().intersect(b.to_set());
        assert(!common.contains(x));
        if b.contains(x) {
            assert(a.to_set().intersect(b.to_set()) =~= common.insert(x));
        } else {
            assert(a.to_set().intersect(b.to_set()) =~= common);
        }
    }
}

/// With repeats removed, the two sides share the same number of motifs: the fractions shared
/// differ only in their denominators, each side's own motif count.
pub proof fn lemma_unique_shared_symmetric(a: Seq<Seq<char>>, b: Seq<Seq<char>>)
    ensures
        shared_count(dedup_spec(a), dedup_spec(b)) == shared_count(dedup_spec(b), dedup_spec(a)),
{
    lemma_dedup_distinct(a);
    lemma_dedup_distinct(b);
    lemma_shared_count_common(dedup_spec(a), dedup_spec(b));
    lemma_shared_count_common(dedup_spec(b), dedup_spec(a));
    assert(dedup_spec(a).to_set().intersect(dedup_spec(b).to_set()) =~= dedup_spec(b).to_set().intersect(
        dedup_spec(a).to_set(),
    ));
}

pub proof fn lemma_shared_count_bound(a: Seq<Seq<char>>, b: Seq<Seq<char>>)
    ensures
        shared_count(a, b) <= a.len(),
    decreases a.len(),
{
    if a.len() > 0 {
        lemma_shared_count_bound(a.drop_last(), b);
    }
}

/// How many of `a`'s motifs occur in `b`.
pub fn count_shared(a: &Vec<String>, b: &Vec<String>) -> (r: usize)
    ensures
        r == shared_count(texts(a@), texts(b@)),
{
    let mut n: usize = 0;
    let mut i: usize = 0;
    while i < a.len()
        invariant
            i <= a@.len(),
            n == shared_count(texts(a@).take(i as int), texts(b@)),
            n <= i,
        decreases a@.len() - i,
    {
        assert(texts(a@).take(i + 1).drop_last() =~= texts(a@).take(i as int));
        assert(texts(a@).take(i + 1).last() == a@[i as int]@);
        if contains_text_in(b, &a[i]) {
            n = n + 1;
        }
        i = i + 1;
    }
    assert(texts(a@).take(a@.len() as int) =~= texts(a@));
    n
}

/// An exact ratio. A zero denominator marks a ratio that is undefined.
#[derive(Debug, Clone, Copy, PartialEq, Eq, Structural)]
pub struct Ratio {
    pub numerator: u64,
    pub denominator: u64,
}

impl Ratio {
    pub open spec fn defined(self) -> bool {
        self.denominator > 0
    }

    /// `self` is strictly below `other`, compared by cross-multiplication.
    pub open spec fn lt(self, other: Ratio) -> bool {
        self.numerator * other.denominator < other.numerator * self.denominator
    }

    /// The ratio 1.
    pub fn one() -> (r: Ratio)
        ensures
            r == (Ratio { numerator: 1, denominator: 1 }),
    {
        Ratio { numerator: 1, denominator: 1 }
    }

    /// The ratio 0.
    pub fn zero() -> (r: Ratio)
        ensures
            r == (Ratio { numerator: 0, denominator: 1 }),
    {
        Ratio { numerator: 0, denominator: 1 }
    }

    /// Whether `self` is strictly below `other`.
    pub fn less_than(&self, other: &Ratio) -> (r: bool)
        ensures
            r == self.lt(*other),
    {
        let x = self.numerator as u128;
        let y = other.denominator as u128;
        let z = other.numerator as u128;
        let w = self.denominator as u128;
        assert(x * y <= u64::MAX as u128 * u64::MAX as u128) by (nonlinear_arith)
            requires
                x <= u64::MAX,
                y <= u64::MAX,
        ;
        assert(z * w <= u64::MAX as u128 * u64::MAX as u128) by (nonlinear_arith)
            requires
                z <= u64::MAX,
                w <= u64::MAX,
        ;
        x * y < z * w
    }
}

/// A part of a whole, as an exact ratio.
pub open spec fn fraction(part: nat, whole: nat) -> Ratio {
    Ratio { numerator: part as u64, denominator: whole as u64 }
}

/// The motifs that count for one side: the bound motifs, with repeats removed when `unique`.
pub open spec fn counted_motifs(
    recs: Seq<BindingInfo>,
    threshold: u32,
    length: usize,
    mask: Option<Seq<usize>>,
    unique: bool,
) -> Seq<Seq<char>> {
    if unique {
        dedup_spec(bound_motifs(recs, threshold, length, mask))
    } else {
        bound_motifs(recs, threshold, length, mask)
    }
}

/// The binding records predicted for one allele.
#[derive(Debug)]
pub struct AlleleBinding {
    pub allele: ClassI,
    pub records: Vec<BindingInfo>,
}

/// A binding corpus: the alleles it names, and the binding records of each.
#[derive(Debug)]
pub struct BindingData {
    pub alleles: Vec<ClassI>,
    pub allele_binding: Vec<AlleleBinding>,
    pub proteome: Vec<Protein>,
    pub strong_threshold: Option<u32>,
    pub weak_threshold: Option<u32>,
}

/// Rank thresholds assumed when a report declares none: 0.5% for strong binders and 2% for
/// weak ones, in units of 1/10000 of a percent.
pub const STRONG_THRESHOLD: u32 = 5000;
pub const WEAK_THRESHOLD: u32 = 20000;

/// Index of the first binding entry for allele `a`.
pub open spec fn binding_index(bs: Seq<AlleleBinding>, a: ClassIView) -> Option<int>
    decreases bs.len(),
{
    if bs.len() == 0 {
        None
    } else {
        match binding_index(bs.drop_last(), a) {
            Some(i) => Some(i),
            None => if bs.last().allele@ == a { Some(bs.len() - 1) } else { None },
        }
    }
}

pub proof fn lemma_binding_index(bs: Seq<AlleleBinding>, a: ClassIView)
    ensures
        match binding_index(bs, a) {
            Some(i) => 0 <= i < bs.len() && bs[i].allele@ == a && forall|j: int| 0 <= j < i ==> bs[j].allele@ != a,
            None => forall|j: int| 0 <= j < bs.len() ==> bs[j].allele@ != a,
        },
    decreases bs.len(),
{
    if bs.len() > 0 {
        let p = bs.drop_last();
        lemma_binding_index(p, a);
        assert forall|j: int| 0 <= j < p.len() implies #[trigger] bs[j] == p[j] by {}
    }
}

/// Whether the corpus holds binding records for allele `a`.
pub open spec fn has_binding(bs: Seq<AlleleBinding>, a: ClassIView) -> bool {
    binding_index(bs, a) is Some
}

/// The binding records for allele `a`.
pub open spec fn records_of(bs: Seq<AlleleBinding>, a: ClassIView) -> Seq<BindingInfo> {
    bs[binding_index(bs, a)->Some_0].records@
}

impl BindingData {
    /// An empty corpus.
    pub fn new() -> (r: BindingData)
        ensures
            r.alleles@.len() == 0,
            r.allele_binding@.len() == 0,
            r.proteome@.len() == 0,
            r.strong_threshold is None,
            r.weak_threshold is None,
    {
        BindingData {
            alleles: Vec::new(),
            allele_binding: Vec::new(),
            proteome: Vec::new(),
            strong_threshold: None,
            weak_threshold: None,
        }
    }

    /// The strong-binder threshold the report declared, or 0.5%.
    pub open spec fn strong_cutoff(self) -> u32 {
        match self.strong_threshold {
            Some(t) => t,
            None => STRONG_THRESHOLD,
        }
    }

    /// The weak-binder threshold the report declared, or 2%.
    pub open spec fn weak_cutoff(self) -> u32 {
        match self.weak_threshold {
            Some(t) => t,
            None => WEAK_THRESHOLD,
        }
    }

    /// The strong-binder threshold the report declared, or 0.5%.
    pub fn strong_threshold(&self) -> (r: u32)
        ensures
            r == self.strong_cutoff(),
    {
        match self.strong_threshold {
            Some(t) => t,
            None => STRONG_THRESHOLD,
        }
    }

    /// The weak-binder threshold the report declared, or 2%.
    pub fn weak_threshold(&self) -> (r: u32)
        ensures
            r == self.weak_cutoff(),
    {
        match self.weak_threshold {
            Some(t) => t,
            None => WEAK_THRESHOLD,
        }
    }

    /// The identifiers of the proteins.
    pub fn proteins(&self) -> (r: Vec<String>)
        ensures
            r@.len() == self.proteome@.len(),
            forall|k: int| 0 <= k < r@.len() ==> r@[k]@ == self.proteome@[k].identity@,
    {
        let mut out: Vec<String> = Vec::new();
        let mut i: usize = 0;
        while i < self.proteome.len()
            invariant
                i <= self.proteome@.len(),
                out@.len() == i,
                forall|k: int| 0 <= k < i ==> out@[k]@ == self.proteome@[k].identity@,
            decreases self.proteome@.len() - i,
        {
            out.push(self.proteome[i].identity.clone());
            i = i + 1;
        }
        out
    }
    /// The records for `allele`, or none when the corpus has none for it.
    pub fn get_binding_info(&self, allele: &ClassI) -> (r: Option<&Vec<BindingInfo>>)
        ensures
            match r {
                Some(v) => has_binding(self.allele_binding@, allele@) && v@ == records_of(
                    self.allele_binding@,
                    allele@,
                ),
                None => !has_binding(self.allele_binding@, allele@),
            },
    {
        let mut i: usize = 0;
        proof { lemma_binding_index(self.allele_binding@, allele@); }
        while i < self.allele_binding.len()
            invariant
                i <= self.allele_binding@.len(),
                forall|j: int| 0 <= j < i ==> self.allele_binding@[j].allele@ != allele@,
            decreases self.allele_binding@.len() - i,
        {
            if self.allele_binding[i].allele.same(allele) {
                proof {
                    lemma_binding_index(self.allele_binding@, allele@);
                    let f = binding_index(self.allele_binding@, allele@);
                    if let Some(k) = f {
                        assert(k == i);
                    }
                }
                return Some(&self.allele_binding[i].records);
            }
            i = i + 1;
        }
        None
    }

    /// The alleles of the corpus.
    pub fn list_alleles(&self) -> (r: &Vec<ClassI>)
        ensures
            r == &self.alleles,
    {
        &self.alleles
    }
}

/// An ordered pair of alleles with the binding records of each.
#[derive(Debug)]
pub struct CalculatorComb<'a> {
    pub alleles: (&'a ClassI, &'a ClassI),
    pub binding_data: (&'a [BindingInfo], &'a [BindingInfo]),
}

/// A pair is built when its alleles differ and the corpus holds records for both.
pub open spec fn pair_kept(bs: Seq<AlleleBinding>, a: ClassIView, b: ClassIView) -> bool {
    a != b && has_binding(bs, a) && has_binding(bs, b)
}

/// The pairs `(als[i], als[0..j])` that are kept, in order.
pub open spec fn pair_row(als: Seq<ClassI>, bs: Seq<AlleleBinding>, i: int, j: nat) -> Seq<(ClassIView, ClassIView)>
    decreases j,
{
    if j == 0 {
        Seq::empty()
    } else if pair_kept(bs, als[i]@, als[j - 1]@) {
        pair_row(als, bs, i, (j - 1) as nat).push((als[i]@, als[j - 1]@))
    } else {
        pair_row(als, bs, i, (j - 1) as nat)
    }
}

/// The kept pairs whose first allele is among `als[0..i]`, in nested-loop order.
pub open spec fn pairs_upto(als: Seq<ClassI>, bs: Seq<AlleleBinding>, i: nat) -> Seq<(ClassIView, ClassIView)>
    decreases i,
{
    if i == 0 {
        Seq::empty()
    } else {
        pairs_upto(als, bs, (i - 1) as nat) + pair_row(als, bs, i - 1, als.len())
    }
}

proof fn lemma_pair_row_kept(als: Seq<ClassI>, bs: Seq<AlleleBinding>, i: int, j: nat)
    ensures
        forall|k: int| 0 <= k < pair_row(als, bs, i, j).len() ==> pair_kept(bs, #[trigger] pair_row(als, bs, i, j)[k].0, pair_row(als, bs, i, j)[k].1),
    decreases j,
{
    if j > 0 {
        lemma_pair_row_kept(als, bs, i, (j - 1) as nat);
        let p = pair_row(als, bs, i, (j - 1) as nat);
        if pair_kept(bs, als[i]@, als[j - 1]@) {
            let x = (als[i]@, als[j - 1]@);
            assert forall|k: int| 0 <= k < p.len() + 1 implies pair_kept(bs, #[trigger] p.push(x)[k].0, p.push(x)[k].1) by {
                if k < p.len() {
                    assert(p.push(x)[k] == p[k]);
                }
            }
        }
    }
}

/// Every pair that the combinator builds has two different alleles, and the corpus holds
/// binding records for both: an allele without records appears in no pair, on either side.
pub proof fn lemma_pairs_exclude_missing(als: Seq<ClassI>, bs: Seq<AlleleBinding>, i: nat)
    ensures
        forall|k: int| 0 <= k < pairs_upto(als, bs, i).len() ==> {
            let p = #[trigger] pairs_upto(als, bs, i)[k];
            p.0 != p.1 && has_binding(bs, p.0) && has_binding(bs, p.1)
        },
    decreases i,
{
    if i > 0 {
        lemma_pairs_exclude_missing(als, bs, (i - 1) as nat);
        lemma_pair_row_kept(als, bs, i - 1, als.len());
        let a = pairs_upto(als, bs, (i - 1) as nat);
        let b = pair_row(als, bs, i - 1, als.len());
        assert forall|k: int| 0 <= k < (a + b).len() implies {
            let p = #[trigger] (a + b)[k];
            p.0 != p.1 && has_binding(bs, p.0) && has_binding(bs, p.1)
        } by {
            if k < a.len() {
                assert((a + b)[k] == a[k]);
            } else {
                assert((a + b)[k] == b[k - a.len()]);
            }
        }
    }
}

/// What a built pair holds: the pair of alleles `p` and the records of each.
pub open spec fn comb_holds(c: CalculatorComb, bs: Seq<AlleleBinding>, p: (ClassIView, ClassIView)) -> bool {
    &&& c.alleles.0@ == p.0
    &&& c.alleles.1@ == p.1
    &&& c.binding_data.0@ == records_of(bs, p.0)
    &&& c.binding_data.1@ == records_of(bs, p.1)
}

/// Every ordered pair of different alleles of the corpus for which it holds records on both
/// sides, first allele in the outer loop.
pub fn create_calc_combs(binding_data: &BindingData) -> (r: Vec<CalculatorComb<'_>>)
    ensures
        r@.len() == pairs_upto(binding_data.alleles@, binding_data.allele_binding@, binding_data.alleles@.len()).len(),
        forall|k: int| 0 <= k < r@.len() ==> comb_holds(
            #[trigger] r@[k],
            binding_data.allele_binding@,
            pairs_upto(binding_data.alleles@, binding_data.allele_binding@, binding_data.alleles@.len())[k],
        ),
{
    let als = &binding_data.alleles;
    let ghost bs = binding_data.allele_binding@;
    let n = als.len();
    let mut out: Vec<CalculatorComb<'_>> = Vec::new();
    let mut i: usize = 0;
    while i < n
        invariant
            n == als@.len(),
            als == &binding_data.alleles,
            bs == binding_data.allele_binding@,
            i <= n,
            out@.len() == pairs_upto(als@, bs, i as nat).len(),
            forall|k: int| 0 <= k < out@.len() ==> comb_holds(#[trigger] out@[k], bs, pairs_upto(als@, bs, i as nat)[k]),
        decreases n - i,
    {
        let mut j: usize = 0;
        let ghost base = pairs_upto(als@, bs, i as nat);
        while j < n
            invariant
                n == als@.len(),
                als == &binding_data.alleles,
                bs == binding_data.allele_binding@,
                i < n,
                j <= n,
                base == pairs_upto(als@, bs, i as nat),
                out@.len() == base.len() + pair_row(als@, bs, i as int, j as nat).len(),
                forall|k: int| 0 <= k < out@.len() ==> comb_holds(#[trigger] out@[k], bs, (base + pair_row(als@, bs, i as int, j as nat))[k]),
            decreases n - j,
        {
            let a = &als[i];
            let b = &als[j];
            if !a.same(b) {
                match (binding_data.get_binding_info(a), binding_data.get_binding_info(b)) {
                    (Some(ra), Some(rb)) => {
                        let ghost before = out@;
                        out.push(CalculatorComb { alleles: (a, b), binding_data: (ra.as_slice(), rb.as_slice()) });
                        proof {
                            let row = pair_row(als@, bs, i as int, j as nat);
                            assert(pair_row(als@, bs, i as int, (j + 1) as nat) == row.push((als@[i as int]@, als@[j as int]@)));
                            assert((base + row).push((als@[i as int]@, als@[j as int]@)) =~= base + row.push((als@[i as int]@, als@[j as int]@)));
                            assert forall|k: int| 0 <= k < out@.len() implies comb_holds(#[trigger] out@[k], bs, (base + pair_row(als@, bs, i as int, (j + 1) as nat))[k]) by {
                                if k < before.len() {
                                    assert(out@[k] == before[k]);
                                }
                            }
                        }
                    },
                    _ => {
                        assert(pair_row(als@, bs, i as int, (j + 1) as nat) == pair_row(als@, bs, i as int, j as nat));
                    },
                }
            } else {
                assert(pair_row(als@, bs, i as int, (j + 1) as nat) == pair_row(als@, bs, i as int, j as nat));
            }
            j = j + 1;
        }
        assert(pairs_upto(als@, bs, (i + 1) as nat) == base + pair_row(als@, bs, i as int, n as nat));
        i = i + 1;
    }
    out
}

impl<'a> CalculatorComb<'a> {
    pub fn new(
        index_allele: &'a ClassI,
        non_index_allele: &'a ClassI,
        index_bd: &'a [BindingInfo],
        non_index_bd: &'a [BindingInfo],
    ) -> (r: CalculatorComb<'a>)
        ensures
            r.alleles.0 == index_allele,
            r.alleles.1 == non_index_allele,
            r.binding_data.0@ == index_bd@,
            r.binding_data.1@ == non_index_bd@,
    {
        CalculatorComb { alleles: (index_allele, non_index_allele), binding_data: (index_bd, non_index_bd) }
    }

    /// The bound motifs of each side under `aa_pos`.
    pub fn get_motifs(&self, threshold: u32, length: usize, aa_pos: &[usize]) -> (r: (Vec<String>, Vec<String>))
        ensures
            texts(r.0@) == bound_motifs(self.binding_data.0@, threshold, length, Some(aa_pos@)),
            texts(r.1@) == bound_motifs(self.binding_data.1@, threshold, length, Some(aa_pos@)),
    {
        (
            extract_bound_motifs(self.binding_data.0, threshold, length, Some(aa_pos)),
            extract_bound_motifs(self.binding_data.1, threshold, length, Some(aa_pos)),
        )
    }

    /// How many motifs (or whole peptides, without positions) each side binds; with `unique`,
    /// each distinct one counts once.
    pub fn count_bound(&self, threshold: u32, unique: bool, length: usize, aa_pos: Option<&[usize]>) -> (r: (usize, usize))
        ensures
            r.0 == counted_motifs(self.binding_data.0@, threshold, length, match aa_pos { Some(m) => Some(m@), None => None }, unique).len(),
            r.1 == counted_motifs(self.binding_data.1@, threshold, length, match aa_pos { Some(m) => Some(m@), None => None }, unique).len(),
    {
        let a = extract_bound_motifs(self.binding_data.0, threshold, length, aa_pos);
        let b = extract_bound_motifs(self.binding_data.1, threshold, length, aa_pos);
        if unique {
            let da = dedup_motifs(&a);
            let db = dedup_motifs(&b);
            (da.len(), db.len())
        } else {
            (a.len(), b.len())
        }
    }

    /// The fraction of each side's motifs that the other side binds too: shared motifs of
    /// the index side over the index side's count, and likewise for the other side. The two
    /// need not agree; with `unique` their numerators do, so they differ only by each side's
    /// own count. A side with no motifs gives an undefined ratio (zero denominator).
    pub fn calculate_shared_motifs(&self, motif: &[usize], threshold: u32, unique: bool, length: usize) -> (r: (Ratio, Ratio))
        ensures
            r.0 == fraction(
                shared_count(
                    counted_motifs(self.binding_data.0@, threshold, length, Some(motif@), unique),
                    counted_motifs(self.binding_data.1@, threshold, length, Some(motif@), unique),
                ),
                counted_motifs(self.binding_data.0@, threshold, length, Some(motif@), unique).len(),
            ),
            r.1 == fraction(
                shared_count(
                    counted_motifs(self.binding_data.1@, threshold, length, Some(motif@), unique),
                    counted_motifs(self.binding_data.0@, threshold, length, Some(motif@), unique),
                ),
                counted_motifs(self.binding_data.1@, threshold, length, Some(motif@), unique).len(),
            ),
            unique ==> r.0.numerator == r.1.numerator,
    {
        proof {
            lemma_unique_shared_symmetric(
                bound_motifs(self.binding_data.0@, threshold, length, Some(motif@)),
                bound_motifs(self.binding_data.1@, threshold, length, Some(motif@)),
            );
        }
        let (a0, b0) = self.get_motifs(threshold, length, motif);
        let (a, b) = if unique {
            (dedup_motifs(&a0), dedup_motifs(&b0))
        } else {
            (a0, b0)
        };
        assert(texts(a@).len() == a@.len() && texts(b@).len() == b@.len());
        let sa = count_shared(&a, &b);
        let sb = count_shared(&b, &a);
        (
            Ratio { numerator: sa as u64, denominator: a.len() as u64 },
            Ratio { numerator: sb as u64, denominator: b.len() as u64 },
        )
    }
}

/// The row that decides an allele's motif among several: the one whose allele comes first,
/// the earliest of equals.
pub open spec fn least_row(rows: Seq<KirLigandInfoView>) -> Option<KirLigandInfoView>
    decreases rows.len(),
{
    if rows.len() == 0 {
        None
    } else {
        match least_row(rows.drop_last()) {
            None => Some(rows.last()),
            Some(x) => if class_i_lt(rows.last().allele, x.allele) { Some(rows.last()) } else { Some(x) },
        }
    }
}

/// The ligand motif that the index assigns to an allele, if any.
pub open spec fn motif_of(rows: Seq<KirLigandInfoView>, a: ClassIView) -> Option<LigandMotif> {
    match least_row(lookup(rows, a)) {
        Some(x) => Some(x.motif),
        None => None,
    }
}

/// The row that decides the ligand motif of `allele`: the one the index returns for it, or
/// the first in allele order when it returns several.
pub fn ligand_row(ligand_map: &KirLigandMap, allele: &ClassI) -> (r: Option<KirLigandInfo>)
    requires
        ligand_map.wf(),
    ensures
        match r {
            Some(x) => least_row(lookup(ligand_map.rows_view(), allele@)) == Some(x@),
            None => least_row(lookup(ligand_map.rows_view(), allele@)) is None,
        },
{
    let rows = ligand_map.get_allele_info(allele);
    let ghost rv = rows@.map_values(|x: KirLigandInfo| x@);
    let mut best: Option<usize> = None;
    let mut i: usize = 0;
    while i < rows.len()
        invariant
            i <= rows@.len(),
            rv == rows@.map_values(|x: KirLigandInfo| x@),
            match best {
                Some(b) => b < i && least_row(rv.take(i as int)) == Some(rv[b as int]),
                None => i == 0,
            },
        decreases rows@.len() - i,
    {
        assert(rv.take(i + 1).drop_last() =~= rv.take(i as int));
        assert(rv.take(i + 1).last() == rv[i as int]);
        assert(rv[i as int] == rows@[i as int]@);
        match best {
            None => {
                best = Some(i);
            },
            Some(b) => {
                assert(rv[b as int] == rows@[b as int]@);
                if rows[i].0.precedes(&rows[b].0) {
                    best = Some(i);
                }
            },
        }
        i = i + 1;
    }
    assert(rv.take(rows@.len() as int) =~= rv);
    match best {
        Some(b) => {
            assert(rv[b as int] == rows@[b as int]@);
            Some(rows[b].duplicate())
        },
        None => None,
    }
}

/// The ligand motif of `allele`, from the row that `ligand_row` picks.
pub fn ligand_motif(ligand_map: &KirLigandMap, allele: &ClassI) -> (r: Option<LigandMotif>)
    requires
        ligand_map.wf(),
    ensures
        r == motif_of(ligand_map.rows_view(), allele@),
{
    match ligand_row(ligand_map, allele) {
        Some(x) => Some(x.1),
        None => None,
    }
}

/// The fraction shared by one pair of alleles under one measure and peptide length.
#[derive(Debug)]
pub struct CalcFsResult {
    pub measure: String,
    pub index: ClassI,
    pub non_index: ClassI,
    pub index_ligand_motif: Option<LigandMotif>,
    pub non_index_ligand_motif: Option<LigandMotif>,
    pub fraction_shared: Ratio,
    pub peptide_length: usize,
    pub index_bound: usize,
    pub non_index_bound: usize,
}

impl CalcFsResult {
    /// A copy with the same contents.
    pub fn duplicate(&self) -> (r: CalcFsResult)
        ensures
            r == *self,
    {
        CalcFsResult {
            measure: self.measure.clone(),
            index: self.index.duplicate(),
            non_index: self.non_index.duplicate(),
            index_ligand_motif: self.index_ligand_motif,
            non_index_ligand_motif: self.non_index_ligand_motif,
            fraction_shared: self.fraction_shared,
            peptide_length: self.peptide_length,
            index_bound: self.index_bound,
            non_index_bound: self.non_index_bound,
        }
    }
}

/// What the result for pair `c`, measure `m` and length `l` holds.
pub open spec fn fs_result_holds(
    res: CalcFsResult,
    c: CalculatorComb,
    m: Measure,
    l: usize,
    rows: Seq<KirLigandInfoView>,
    threshold: u32,
    unique: bool,
) -> bool {
    let a = counted_motifs(c.binding_data.0@, threshold, l, Some(m.motif_pos@), unique);
    let b = counted_motifs(c.binding_data.1@, threshold, l, Some(m.motif_pos@), unique);
    &&& res.measure@ == m.name@
    &&& res.index@ == c.alleles.0@
    &&& res.non_index@ == c.alleles.1@
    &&& res.index_ligand_motif == motif_of(rows, c.alleles.0@)
    &&& res.non_index_ligand_motif == motif_of(rows, c.alleles.1@)
    &&& res.fraction_shared == fraction(shared_count(a, b), a.len())
    &&& res.peptide_length == l
    &&& res.index_bound == a.len()
    &&& res.non_index_bound == b.len()
}

/// One result per pair, measure and peptide length, in nested-loop order (pairs outermost,
/// lengths innermost).
pub fn calculate_fs(
    combinations: &[CalculatorComb],
    measures: &[Measure],
    ligand_map: &KirLigandMap,
    pep_lengths: &[usize],
    threshold: u32,
    unique: bool,
) -> (r: Vec<CalcFsResult>)
    requires
        ligand_map.wf(),
    ensures
        r@.len() == grid(combinations@.len() as nat, measures@.len() as nat, pep_lengths@.len() as nat).len(),
        forall|k: int| 0 <= k < r@.len() ==> {
            let t = grid(combinations@.len() as nat, measures@.len() as nat, pep_lengths@.len() as nat)[k];
            fs_result_holds(#[trigger] r@[k], combinations@[t.0], measures@[t.1], pep_lengths@[t.2], ligand_map.rows_view(), threshold, unique)
        },
{
    let n_c = combinations.len();
    let n_m = measures.len();
    let n_l = pep_lengths.len();
    let ghost rows = ligand_map.rows_view();
    let mut out: Vec<CalcFsResult> = Vec::new();
    let mut ci: usize = 0;
    while ci < n_c
        invariant
            n_c == combinations@.len(),
            n_m == measures@.len(),
            n_l == pep_lengths@.len(),
            rows == ligand_map.rows_view(),
            ligand_map.wf(),
            ci <= n_c,
            out@.len() == grid(ci as nat, n_m as nat, n_l as nat).len(),
            forall|k: int| 0 <= k < out@.len() ==> {
                let t = grid(ci as nat, n_m as nat, n_l as nat)[k];
                fs_result_holds(#[trigger] out@[k], combinations@[t.0], measures@[t.1], pep_lengths@[t.2], rows, threshold, unique)
            },
        decreases n_c - ci,
    {
        let comb = &combinations[ci];
        let index_motif = ligand_motif(ligand_map, comb.alleles.0);
        let non_index_motif = ligand_motif(ligand_map, comb.alleles.1);
        let ghost base = grid(ci as nat, n_m as nat, n_l as nat);
        let mut mi: usize = 0;
        while mi < n_m
            invariant
                n_c == combinations@.len(),
                n_m == measures@.len(),
                n_l == pep_lengths@.len(),
                rows == ligand_map.rows_view(),
                ligand_map.wf(),
                ci < n_c,
                mi <= n_m,
                *comb == combinations@[ci as int],
                index_motif == motif_of(rows, comb.alleles.0@),
                non_index_motif == motif_of(rows, comb.alleles.1@),
                base == grid(ci as nat, n_m as nat, n_l as nat),
                out@.len() == (base + grid_plane(ci as int, mi as nat, n_l as nat)).len(),
                forall|k: int| 0 <= k < out@.len() ==> {
                    let t = (base + grid_plane(ci as int, mi as nat, n_l as nat))[k];
                    fs_result_holds(#[trigger] out@[k], combinations@[t.0], measures@[t.1], pep_lengths@[t.2], rows, threshold, unique)
                },
            decreases n_m - mi,
        {
            let measure = &measures[mi];
            let ghost plane = base + grid_plane(ci as int, mi as nat, n_l as nat);
            let mut li: usize = 0;
            while li < n_l
                invariant
                    n_c == combinations@.len(),
                    n_m == measures@.len(),
                    n_l == pep_lengths@.len(),
                    ci < n_c,
                    mi < n_m,
                    li <= n_l,
                    *comb == combinations@[ci as int],
                    *measure == measures@[mi as int],
                    index_motif == motif_of(rows, comb.alleles.0@),
                    non_index_motif == motif_of(rows, comb.alleles.1@),
                    plane == base + grid_plane(ci as int, mi as nat, n_l as nat),
                    out@.len() == (plane + grid_row(ci as int, mi as int, li as nat)).len(),
                    forall|k: int| 0 <= k < out@.len() ==> {
                        let t = (plane + grid_row(ci as int, mi as int, li as nat))[k];
                        fs_result_holds(#[trigger] out@[k], combinations@[t.0], measures@[t.1], pep_lengths@[t.2], rows, threshold, unique)
                    },
                decreases n_l - li,
            {
                let length = pep_lengths[li];
                let (index_bound, non_index_bound) = comb.count_bound(threshold, unique, length, Some(measure.motif_pos.as_slice()));
                let (fraction_shared, _) = comb.calculate_shared_motifs(measure.motif_pos.as_slice(), threshold, unique, length);
                let res = CalcFsResult {
                    measure: measure.name.clone(),
                    index: comb.alleles.0.duplicate(),
                    non_index: comb.alleles.1.duplicate(),
                    index_ligand_motif: index_motif,
                    non_index_ligand_motif: non_index_motif,
                    fraction_shared,
                    peptide_length: length,
                    index_bound,
                    non_index_bound,
                };
                let ghost before = out@;
                let ghost keys = plane + grid_row(ci as int, mi as int, li as nat);
                out.push(res);
                proof {
                    let t = (ci as int, mi as int, li as int);
                    assert(grid_row(ci as int, mi as int, (li + 1) as nat) == grid_row(ci as int, mi as int, li as nat).push(t));
                    assert(keys.push(t) =~= plane + grid_row(ci as int, mi as int, (li + 1) as nat));
                    assert forall|k: int| 0 <= k < out@.len() implies {
                        let u = (plane + grid_row(ci as int, mi as int, (li + 1) as nat))[k];
                        fs_result_holds(#[trigger] out@[k], combinations@[u.0], measures@[u.1], pep_lengths@[u.2], rows, threshold, unique)
                    } by {
                        if k < before.len() {
                            assert(out@[k] == before[k]);
                            assert(keys.push(t)[k] == keys[k]);
                        } else {
                            assert(keys.push(t)[k] == t);
                        }
                    }
                }
                li = li + 1;
            }
            proof {
                assert(grid_plane(ci as int, (mi + 1) as nat, n_l as nat) == grid_plane(ci as int, mi as nat, n_l as nat) + grid_row(ci as int, mi as int, n_l as nat));
                assert(plane + grid_row(ci as int, mi as int, n_l as nat) =~= base + grid_plane(ci as int, (mi + 1) as nat, n_l as nat));
            }
            mi = mi + 1;
        }
        proof {
            assert(grid((ci + 1) as nat, n_m as nat, n_l as nat) == grid(ci as nat, n_m as nat, n_l as nat) + grid_plane(ci as int, n_m as nat, n_l as nat));
        }
        ci = ci + 1;
    }
    out
}

} // verus!
