//! Cohort scores: per individual, the best match of its genotype to each index allele,
//! adjusted for the KIRs it carries, with LILRB similarity.
use vstd::prelude::*;
use crate::calc::{CalcFsResult, Ratio};
use crate::grid::{grid, grid_plane, grid_row};
use crate::measure::Measure;
use crate::hla::{ClassI, ClassIView};
use crate::kir::{Domain, Kir, KirProtein, KirView, Tail};
use crate::ligand::{KirLigandMap, KirLigandInfoView, motif_spec, strip_cr};
use crate::kir::{kir_readable, kir_spec};
use crate::text::{split_all, split_spec};
use crate::calc::{ligand_motif, motif_of};
use crate::ligand::{LigandMotif, kir_relevant};

verus! {

/// A KIR and the ligand motifs it recognises.
#[derive(Debug)]
pub struct KirMotifBinding {
    pub kir: Kir,
    pub motifs: Vec<LigandMotif>,
}

/// The KIRs of `tab` that recognise motif `m`, in table order.
pub open spec fn bound_kirs(tab: Seq<KirMotifBinding>, m: LigandMotif) -> Seq<KirView>
    decreases tab.len(),
{
    if tab.len() == 0 {
        Seq::empty()
    } else if tab.last().motifs@.contains(m) {
        bound_kirs(tab.drop_last(), m).push(tab.last().kir@)
    } else {
        bound_kirs(tab.drop_last(), m)
    }
}

fn motifs_have(v: &Vec<LigandMotif>, m: LigandMotif) -> (r: bool)
    ensures
        r == v@.contains(m),
{
    let mut k: usize = 0;
    while k < v.len()
        invariant
            k <= v@.len(),
            forall|j: int| 0 <= j < k ==> v@[j] != m,
        decreases v@.len() - k,
    {
        if v[k] == m {
            assert(v@[k as int] == m);
            return true;
        }
        k = k + 1;
    }
    false
}

/// No KIR occurs twice.
pub open spec fn kirs_distinct(s: Seq<KirView>) -> bool {
    forall|i: int, j: int| 0 <= i < j < s.len() ==> s[i] != s[j]
}

proof fn lemma_bound_kirs_from(tab: Seq<KirMotifBinding>, m: LigandMotif, x: KirView)
    requires
        bound_kirs(tab, m).contains(x),
    ensures
        exists|i: int| 0 <= i < tab.len() && (#[trigger] tab[i]).kir@ == x,
    decreases tab.len(),
{
    let p = tab.drop_last();
    let b = bound_kirs(p, m);
    if b.contains(x) {
        lemma_bound_kirs_from(p, m, x);
        let i = choose|i: int| 0 <= i < p.len() && (#[trigger] p[i]).kir@ == x;
        assert(tab[i] == p[i]);
    } else {
        assert(tab[tab.len() - 1] == tab.last());
        if tab.last().motifs@.contains(m) {
            let q = b.push(tab.last().kir@);
            let j = choose|j: int| 0 <= j < q.len() && q[j] == x;
            if j < b.len() {
                assert(q[j] == b[j]);
            }
        }
    }
}

proof fn lemma_bound_kirs_distinct(tab: Seq<KirMotifBinding>, m: LigandMotif)
    requires
        kirs_unique(binding_views(tab)),
    ensures
        kirs_distinct(bound_kirs(tab, m)),
    decreases tab.len(),
{
    if tab.len() > 0 {
        let p = tab.drop_last();
        assert forall|i: int| 0 <= i < p.len() implies #[trigger] p[i] == tab[i] by {}
        assert forall|i: int, j: int| 0 <= i < p.len() && 0 <= j < p.len() && i != j implies binding_views(p)[i].0 != binding_views(p)[j].0 by {
            assert(binding_views(p)[i].0 == binding_views(tab)[i].0);
            assert(binding_views(p)[j].0 == binding_views(tab)[j].0);
        }
        lemma_bound_kirs_distinct(p, m);
        let b = bound_kirs(p, m);
        let last = tab.last();
        if last.motifs@.contains(m) {
            let q = b.push(last.kir@);
            assert forall|i: int, j: int| 0 <= i < j < q.len() implies q[i] != q[j] by {
                if j == b.len() {
                    assert(q[i] == b[i]);
                    assert(b.contains(b[i]));
                    lemma_bound_kirs_from(p, m, b[i]);
                    let k = choose|k: int| 0 <= k < p.len() && (#[trigger] p[k]).kir@ == b[i];
                    assert(binding_views(tab)[k].0 == tab[k].kir@);
                    assert(binding_views(tab)[tab.len() - 1].0 == last.kir@);
                } else {
                    assert(q[i] == b[i] && q[j] == b[j]);
                }
            }
        }
    }
}

proof fn lemma_tail_kirs_from(tab: Seq<KirMotifBinding>, m: LigandMotif, t: Tail, x: KirView)
    requires
        bound_kirs_with_tail(tab, m, t).contains(x),
    ensures
        exists|i: int| 0 <= i < tab.len() && (#[trigger] tab[i]).kir@ == x,
    decreases tab.len(),
{
    let p = tab.drop_last();
    let b = bound_kirs_with_tail(p, m, t);
    if b.contains(x) {
        lemma_tail_kirs_from(p, m, t, x);
        let i = choose|i: int| 0 <= i < p.len() && (#[trigger] p[i]).kir@ == x;
        assert(tab[i] == p[i]);
    } else {
        assert(tab[tab.len() - 1] == tab.last());
        if tab.last().motifs@.contains(m) && tab.last().kir.cytoplasmic_tail == t {
            let q = b.push(tab.last().kir@);
            let j = choose|j: int| 0 <= j < q.len() && q[j] == x;
            if j < b.len() {
                assert(q[j] == b[j]);
            }
        }
    }
}

proof fn lemma_tail_kirs_distinct(tab: Seq<KirMotifBinding>, m: LigandMotif, t: Tail)
    requires
        kirs_unique(binding_views(tab)),
    ensures
        kirs_distinct(bound_kirs_with_tail(tab, m, t)),
    decreases tab.len(),
{
    if tab.len() > 0 {
        let p = tab.drop_last();
        assert forall|i: int| 0 <= i < p.len() implies #[trigger] p[i] == tab[i] by {}
        assert forall|i: int, j: int| 0 <= i < p.len() && 0 <= j < p.len() && i != j implies binding_views(p)[i].0 != binding_views(p)[j].0 by {
            assert(binding_views(p)[i].0 == binding_views(tab)[i].0);
            assert(binding_views(p)[j].0 == binding_views(tab)[j].0);
        }
        lemma_tail_kirs_distinct(p, m, t);
        let b = bound_kirs_with_tail(p, m, t);
        let last = tab.last();
        if last.motifs@.contains(m) && last.kir.cytoplasmic_tail == t {
            let q = b.push(last.kir@);
            assert forall|i: int, j: int| 0 <= i < j < q.len() implies q[i] != q[j] by {
                if j == b.len() {
                    assert(q[i] == b[i]);
                    assert(b.contains(b[i]));
                    lemma_tail_kirs_from(p, m, t, b[i]);
                    let k = choose|k: int| 0 <= k < p.len() && (#[trigger] p[k]).kir@ == b[i];
                    assert(binding_views(tab)[k].0 == tab[k].kir@);
                    assert(binding_views(tab)[tab.len() - 1].0 == last.kir@);
                } else {
                    assert(q[i] == b[i] && q[j] == b[j]);
                }
            }
        }
    }
}

/// The views of a list of KIRs.
pub open spec fn kir_views(v: Seq<Kir>) -> Seq<KirView> {
    v.map_values(|k: Kir| k@)
}

/// Copy of a KIR with the same view.
pub fn kir_copy(k: &Kir) -> (r: Kir)
    ensures
        r@ == k@,
{
    let allele = match &k.allele {
        Some(a) => Some(crate::kir::KirAllele {
            series: a.series.clone(),
            cds_syn_sub: crate::text::opt_string_copy(&a.cds_syn_sub),
            non_coding_sub: crate::text::opt_string_copy(&a.non_coding_sub),
        }),
        None => None,
    };
    Kir { ig_like_domain: k.ig_like_domain, cytoplasmic_tail: k.cytoplasmic_tail, protein: k.protein, allele }
}

/// The KIRs that recognise `motif`, in table order.
pub fn get_bound_kirs(motif_interactions: &[KirMotifBinding], motif: LigandMotif) -> (r: Vec<Kir>)
    requires
        kirs_unique(binding_views(motif_interactions@)),
    ensures
        kir_views(r@) == bound_kirs(motif_interactions@, motif),
        kirs_distinct(kir_views(r@)),
{
    proof {
        lemma_bound_kirs_distinct(motif_interactions@, motif);
    }
    let mut out: Vec<Kir> = Vec::new();
    let mut i: usize = 0;
    while i < motif_interactions.len()
        invariant
            i <= motif_interactions@.len(),
            kir_views(out@) == bound_kirs(motif_interactions@.take(i as int), motif),
        decreases motif_interactions@.len() - i,
    {
        let e = &motif_interactions[i];
        assert(motif_interactions@.take(i + 1).drop_last() =~= motif_interactions@.take(i as int));
        assert(motif_interactions@.take(i + 1).last() == *e);
        if motifs_have(&e.motifs, motif) {
            let ghost before = kir_views(out@);
            out.push(kir_copy(&e.kir));
            assert(kir_views(out@) =~= before.push(e.kir@));
        }
        i = i + 1;
    }
    assert(motif_interactions@.take(motif_interactions@.len() as int) =~= motif_interactions@);
    out
}

/// Whether a list of KIRs holds one like `k`.
pub fn kirs_have(v: &[Kir], k: &Kir) -> (r: bool)
    ensures
        r == kir_views(v@).contains(k@),
{
    let mut j: usize = 0;
    while j < v.len()
        invariant
            j <= v@.len(),
            forall|x: int| 0 <= x < j ==> v@[x]@ != k@,
        decreases v@.len() - j,
    {
        if v[j].same(k) {
            assert(kir_views(v@)[j as int] == k@);
            return true;
        }
        j = j + 1;
    }
    assert forall|x: int| 0 <= x < kir_views(v@).len() implies kir_views(v@)[x] != k@ by {
        assert(kir_views(v@)[x] == v@[x]@);
    }
    false
}

/// The KIR-adjusted value of one channel (activating or inhibitory) for a genotype allele.
/// `gene_kirs` are the KIRs that recognise the genotype allele's motif, `index_kirs` the
/// index allele's KIRs of this channel, `carried` the individual's KIRs.
/// - either motif unknown: 0;
/// - neither motif recognised by any KIR: 1;
/// - exactly one recognised: 0;
/// - both recognised: 0 when the index has KIRs of this channel and the individual carries
///   none of those that also recognise the genotype allele's motif; else the base value.
pub open spec fn adjust(
    base: Ratio,
    index_motif: Option<LigandMotif>,
    gene_motif: Option<LigandMotif>,
    gene_kirs: Seq<KirView>,
    index_kirs: Seq<KirView>,
    carried: Seq<KirView>,
) -> Ratio {
    match (index_motif, gene_motif) {
        (Some(a), Some(b)) => if !kir_relevant(a) && !kir_relevant(b) {
            Ratio { numerator: 1, denominator: 1 }
        } else if kir_relevant(a) != kir_relevant(b) {
            Ratio { numerator: 0, denominator: 1 }
        } else if index_kirs.len() > 0 && !(exists|k: KirView|
            gene_kirs.contains(k) && index_kirs.contains(k) && carried.contains(k)) {
            Ratio { numerator: 0, denominator: 1 }
        } else {
            base
        },
        _ => Ratio { numerator: 0, denominator: 1 },
    }
}

/// The four cases of the KIR adjustment: neither motif recognised gives 1, one of them gives
/// 0 either way round, and both give the base value or 0.
pub proof fn lemma_kir_adjustment_cases(
    base: Ratio,
    a: LigandMotif,
    b: LigandMotif,
    gene_kirs: Seq<KirView>,
    index_kirs: Seq<KirView>,
    carried: Seq<KirView>,
)
    ensures
        !kir_relevant(a) && !kir_relevant(b) ==> adjust(base, Some(a), Some(b), gene_kirs, index_kirs, carried)
            == (Ratio { numerator: 1, denominator: 1 }),
        kir_relevant(a) && !kir_relevant(b) ==> adjust(base, Some(a), Some(b), gene_kirs, index_kirs, carried)
            == (Ratio { numerator: 0, denominator: 1 }),
        !kir_relevant(a) && kir_relevant(b) ==> adjust(base, Some(a), Some(b), gene_kirs, index_kirs, carried)
            == (Ratio { numerator: 0, denominator: 1 }),
        kir_relevant(a) && kir_relevant(b) ==> adjust(base, Some(a), Some(b), gene_kirs, index_kirs, carried)
            == base || adjust(base, Some(a), Some(b), gene_kirs, index_kirs, carried) == (Ratio {
            numerator: 0,
            denominator: 1,
        }),
        adjust(base, None, Some(b), gene_kirs, index_kirs, carried) == (Ratio { numerator: 0, denominator: 1 }),
        adjust(base, Some(a), None, gene_kirs, index_kirs, carried) == (Ratio { numerator: 0, denominator: 1 }),
{
}

/// The KIR-adjusted value of one channel; see `adjust`.
pub fn kir_adjusted(
    base: Ratio,
    index_motif: Option<LigandMotif>,
    gene_motif: Option<LigandMotif>,
    gene_kirs: &[Kir],
    index_kirs: &[Kir],
    carried: &[Kir],
) -> (r: Ratio)
    ensures
        r == adjust(base, index_motif, gene_motif, kir_views(gene_kirs@), kir_views(index_kirs@), kir_views(carried@)),
{
    match (index_motif, gene_motif) {
        (Some(a), Some(b)) => {
            let ra = a.any_kirs_bound();
            let rb = b.any_kirs_bound();
            if !ra && !rb {
                Ratio::one()
            } else if ra != rb {
                Ratio::zero()
            } else if index_kirs.len() == 0 {
                base
            } else {
                let mut i: usize = 0;
                while i < gene_kirs.len()
                    invariant
                        i <= gene_kirs@.len(),
                        kir_relevant(a) && kir_relevant(b),
                        index_motif == Some(a),
                        gene_motif == Some(b),
                        index_kirs@.len() > 0,
                        forall|x: int| 0 <= x < i ==> !(kir_views(index_kirs@).contains(gene_kirs@[x]@)
                            && kir_views(carried@).contains(gene_kirs@[x]@)),
                    decreases gene_kirs@.len() - i,
                {
                    let k = &gene_kirs[i];
                    if kirs_have(index_kirs, k) && kirs_have(carried, k) {
                        proof {
                            assert(kir_views(gene_kirs@)[i as int] == k@);
                            assert(kir_views(gene_kirs@).contains(k@));
                            let kv = k@;
                            assert(kir_views(gene_kirs@).contains(kv) && kir_views(index_kirs@).contains(kv)
                                && kir_views(carried@).contains(kv));
                            assert(exists|kk: KirView| kir_views(gene_kirs@).contains(kk) && kir_views(index_kirs@).contains(kk)
                                && kir_views(carried@).contains(kk));
                        }
                        return base;
                    }
                    i = i + 1;
                }
                proof {
                    assert(kir_views(index_kirs@).len() > 0);
                    assert forall|k: KirView|
                        !(kir_views(gene_kirs@).contains(k) && kir_views(index_kirs@).contains(k)
                            && kir_views(carried@).contains(k)) by {
                        if kir_views(gene_kirs@).contains(k) {
                            let x = choose|x: int| 0 <= x < kir_views(gene_kirs@).len() && kir_views(gene_kirs@)[x] == k;
                            assert(gene_kirs@[x]@ == k);
                        }
                    }
                }
                Ratio::zero()
            }
        },
        _ => Ratio::zero(),
    }
}

/// The largest ratio of a sequence, or none when it is empty. Defined ratios come first: the
/// result is the largest defined one (the latest of equals); only when none is defined is it
/// the last, undefined, value.
pub open spec fn max_ratio(s: Seq<Ratio>) -> Option<Ratio>
    decreases s.len(),
{
    if s.len() == 0 {
        None
    } else {
        match max_ratio(s.drop_last()) {
            None => Some(s.last()),
            Some(m) => if !s.last().defined() {
                if m.defined() { Some(m) } else { Some(s.last()) }
            } else if m.defined() && s.last().lt(m) {
                Some(m)
            } else {
                Some(s.last())
            },
        }
    }
}

/// The largest ratio is one of the values; when any value is defined it is defined and no
/// defined value lies above it.
pub proof fn lemma_max_ratio(s: Seq<Ratio>)
    ensures
        s.len() == 0 <==> max_ratio(s) is None,
        max_ratio(s) matches Some(m) ==> s.contains(m),
        max_ratio(s) matches Some(m) ==> ((exists|i: int| 0 <= i < s.len() && (#[trigger] s[i]).defined()) ==> m.defined()),
        max_ratio(s) matches Some(m) ==> forall|i: int| 0 <= i < s.len() && (#[trigger] s[i]).defined() ==> !m.lt(s[i]),
    decreases s.len(),
{
    if s.len() > 0 {
        let p = s.drop_last();
        let x = s.last();
        lemma_max_ratio(p);
        assert(s[s.len() - 1] == x);
        assert forall|i: int| 0 <= i < p.len() implies #[trigger] s[i] == p[i] by {}
        let r = max_ratio(s)->Some_0;
        match max_ratio(p) {
            None => {
                assert(p.len() == 0);
                assert(r == x);
                if x.defined() {
                    lemma_lt_irreflexive(x);
                }
            },
            Some(m) => {
                let i0 = choose|i: int| 0 <= i < p.len() && p[i] == m;
                assert(s[i0] == m);
                if x.defined() {
                    lemma_lt_irreflexive(x);
                    if m.defined() && x.lt(m) {
                        lemma_lt_asymmetric(x, m);
                    }
                }
                assert forall|i: int| 0 <= i < s.len() && (#[trigger] s[i]).defined() implies !r.lt(s[i]) by {
                    if i < p.len() {
                        assert(p[i].defined());
                        if r != m {
                            assert(r == x && m.defined() && !x.lt(m));
                            lemma_lt_order(p[i], m, x);
                        }
                    }
                }
                if !m.defined() {
                    assert forall|i: int| 0 <= i < p.len() implies !(#[trigger] p[i]).defined() by {
                        if p[i].defined() {
                            assert(exists|j: int| 0 <= j < p.len() && (#[trigger] p[j]).defined());
                        }
                    }
                }
            },
        }
    }
}

proof fn lemma_lt_irreflexive(x: Ratio)
    ensures
        !x.lt(x),
{
}

proof fn lemma_lt_asymmetric(x: Ratio, y: Ratio)
    requires
        x.lt(y),
    ensures
        !y.lt(x),
{
}

/// Cross-multiplied comparison is transitive through a defined middle ratio.
proof fn lemma_lt_order(x: Ratio, m: Ratio, y: Ratio)
    requires
        !m.lt(x),
        !y.lt(m),
        m.defined(),
    ensures
        !y.lt(x),
{
    let a = x.numerator as int;
    let b = x.denominator as int;
    let c = m.numerator as int;
    let d = m.denominator as int;
    let e = y.numerator as int;
    let f = y.denominator as int;
    assert(e * b * d >= a * f * d) by (nonlinear_arith)
        requires
            c * b >= a * d,
            e * d >= c * f,
            b >= 0,
            f >= 0,
            d > 0,
    ;
    assert(e * b >= a * f) by (nonlinear_arith)
        requires
            e * b * d >= a * f * d,
            d > 0,
    ;
}

/// LILRB similarity of two alleles: each receptor's score in millionths.
#[derive(Debug)]
pub struct LilrbScore {
    pub first_allele: ClassI,
    pub second_allele: ClassI,
    pub lilrb1_score: u32,
    pub lilrb2_score: u32,
}

pub struct LilrbScoreView {
    pub first_allele: ClassIView,
    pub second_allele: ClassIView,
    pub lilrb1_score: u32,
    pub lilrb2_score: u32,
}

impl View for LilrbScore {
    type V = LilrbScoreView;

    open spec fn view(&self) -> LilrbScoreView {
        LilrbScoreView {
            first_allele: self.first_allele@,
            second_allele: self.second_allele@,
            lilrb1_score: self.lilrb1_score,
            lilrb2_score: self.lilrb2_score,
        }
    }
}

impl LilrbScore {
    pub fn duplicate(&self) -> (r: LilrbScore)
        ensures
            r@ == self@,
    {
        LilrbScore {
            first_allele: self.first_allele.duplicate(),
            second_allele: self.second_allele.duplicate(),
            lilrb1_score: self.lilrb1_score,
            lilrb2_score: self.lilrb2_score,
        }
    }
}

pub open spec fn lilrb_views(v: Seq<LilrbScore>) -> Seq<LilrbScoreView> {
    v.map_values(|x: LilrbScore| x@)
}

/// Two alleles share an allele group: the same gene and first field.
pub open spec fn same_group(x: ClassIView, a: ClassIView) -> bool {
    x.gene == a.gene && x.allele_group == a.allele_group
}

/// A stored pair matches an allele by group when either side shares its allele group; it
/// matches exactly when either side is the allele.
pub open spec fn score_matches(s: LilrbScoreView, a: ClassIView, exact: bool) -> bool {
    (same_group(s.first_allele, a) || same_group(s.second_allele, a)) && (!exact || s.first_allele == a
        || s.second_allele == a)
}

/// The stored pairs that match `a` (exactly, or by group), in order.
pub open spec fn matching_scores(ss: Seq<LilrbScoreView>, a: ClassIView, exact: bool) -> Seq<LilrbScoreView>
    decreases ss.len(),
{
    if ss.len() == 0 {
        Seq::empty()
    } else if score_matches(ss.last(), a, exact) {
        matching_scores(ss.drop_last(), a, exact).push(ss.last())
    } else {
        matching_scores(ss.drop_last(), a, exact)
    }
}

/// The LILRB records for an allele: those naming it exactly when there are any, else those
/// that share its allele group on either side.
pub open spec fn lilrb_matching(ss: Seq<LilrbScoreView>, a: ClassIView) -> Seq<LilrbScoreView> {
    if matching_scores(ss, a, true).len() > 0 {
        matching_scores(ss, a, true)
    } else {
        matching_scores(ss, a, false)
    }
}

proof fn lemma_matching_len(ss: Seq<LilrbScoreView>, a: ClassIView, exact: bool)
    ensures
        matching_scores(ss, a, exact).len() <= ss.len(),
    decreases ss.len(),
{
    if ss.len() > 0 {
        lemma_matching_len(ss.drop_last(), a, exact);
    }
}

fn scores_matching(scores: &[LilrbScore], allele: &ClassI, exact: bool) -> (r: Vec<LilrbScore>)
    ensures
        lilrb_views(r@) == matching_scores(lilrb_views(scores@), allele@, exact),
{
    let ghost sv = lilrb_views(scores@);
    let mut out: Vec<LilrbScore> = Vec::new();
    let mut i: usize = 0;
    while i < scores.len()
        invariant
            i <= scores@.len(),
            sv == lilrb_views(scores@),
            lilrb_views(out@) == matching_scores(sv.take(i as int), allele@, exact),
        decreases scores@.len() - i,
    {
        let s = &scores[i];
        assert(sv.take(i + 1).drop_last() =~= sv.take(i as int));
        assert(sv.take(i + 1).last() == s@);
        let group = s.first_allele.same_group(allele) || s.second_allele.same_group(allele);
        let hit = group && (!exact || s.first_allele.same(allele) || s.second_allele.same(allele));
        if hit {
            let ghost before = lilrb_views(out@);
            out.push(s.duplicate());
            assert(lilrb_views(out@) =~= before.push(s@));
        }
        i = i + 1;
    }
    assert(sv.take(scores@.len() as int) =~= sv);
    out
}

/// The LILRB records that concern `allele`: those naming it exactly when there are any,
/// else those sharing its allele group.
pub fn get_matching(scores: &[LilrbScore], allele: &ClassI) -> (r: Vec<LilrbScore>)
    ensures
        lilrb_views(r@) == lilrb_matching(lilrb_views(scores@), allele@),
{
    let exact = scores_matching(scores, allele, true);
    if exact.len() > 0 {
        exact
    } else {
        scores_matching(scores, allele, false)
    }
}

pub open spec fn sum_lilrb1(ss: Seq<LilrbScoreView>) -> nat
    decreases ss.len(),
{
    if ss.len() == 0 { 0 } else { sum_lilrb1(ss.drop_last()) + ss.last().lilrb1_score as nat }
}

pub open spec fn sum_lilrb2(ss: Seq<LilrbScoreView>) -> nat
    decreases ss.len(),
{
    if ss.len() == 0 { 0 } else { sum_lilrb2(ss.drop_last()) + ss.last().lilrb2_score as nat }
}

/// The two receptors' average scores over matching records, as exact ratios.
fn lilrb_average(m: &Vec<LilrbScore>) -> (r: (Ratio, Ratio))
    requires
        m@.len() <= u32::MAX,
    ensures
        r.0 == (Ratio { numerator: sum_lilrb1(lilrb_views(m@)) as u64, denominator: m@.len() as u64 }),
        r.1 == (Ratio { numerator: sum_lilrb2(lilrb_views(m@)) as u64, denominator: m@.len() as u64 }),
        sum_lilrb1(lilrb_views(m@)) <= u64::MAX,
        sum_lilrb2(lilrb_views(m@)) <= u64::MAX,
{
    let ghost mv = lilrb_views(m@);
    let mut s1: u64 = 0;
    let mut s2: u64 = 0;
    let mut i: usize = 0;
    while i < m.len()
        invariant
            i <= m@.len(),
            m@.len() <= u32::MAX,
            mv == lilrb_views(m@),
            s1 == sum_lilrb1(mv.take(i as int)),
            s2 == sum_lilrb2(mv.take(i as int)),
            s1 <= i * (u32::MAX as int),
            s2 <= i * (u32::MAX as int),
        decreases m@.len() - i,
    {
        assert(mv.take(i + 1).drop_last() =~= mv.take(i as int));
        assert(mv.take(i + 1).last() == m@[i as int]@);
        assert((i + 1) * (u32::MAX as int) == i * (u32::MAX as int) + u32::MAX) by (nonlinear_arith);
        assert(i * (u32::MAX as int) <= (u32::MAX as int) * (u32::MAX as int)) by (nonlinear_arith)
            requires
                i <= u32::MAX,
        ;
        s1 = s1 + m[i].lilrb1_score as u64;
        s2 = s2 + m[i].lilrb2_score as u64;
        i = i + 1;
    }
    assert(mv.take(m@.len() as int) =~= mv);
    (Ratio { numerator: s1, denominator: m.len() as u64 }, Ratio { numerator: s2, denominator: m.len() as u64 })
}

/// An individual of the cohort: six HLA alleles and the KIR genes it carries.
#[derive(Debug)]
pub struct Individual {
    pub id: String,
    pub hla_genotype: Vec<ClassI>,
    pub kir_genotype: Vec<Kir>,
}

/// What the cohort computation knows of one index allele: its motif and the activating and
/// inhibitory KIRs that recognise it.
#[derive(Debug)]
pub struct IndexEntry {
    pub allele: ClassI,
    pub motif: Option<LigandMotif>,
    pub act_kirs: Vec<Kir>,
    pub inh_kirs: Vec<Kir>,
}

/// Index of the last stored result for measure `m`, length `l` and the pair `(i, g)`: a later
/// result for the same key replaces an earlier one.
pub open spec fn fs_index(rs: Seq<CalcFsResult>, m: Seq<char>, l: usize, i: ClassIView, g: ClassIView) -> Option<int>
    decreases rs.len(),
{
    if rs.len() == 0 {
        None
    } else {
        let r = rs.last();
        if r.measure@ == m && r.peptide_length == l && r.index@ == i && r.non_index@ == g {
            Some(rs.len() - 1)
        } else {
            fs_index(rs.drop_last(), m, l, i, g)
        }
    }
}

proof fn lemma_fs_index(rs: Seq<CalcFsResult>, m: Seq<char>, l: usize, i: ClassIView, g: ClassIView)
    ensures
        match fs_index(rs, m, l, i, g) {
            Some(k) => 0 <= k < rs.len() && rs[k].measure@ == m && rs[k].peptide_length == l && rs[k].index@ == i
                && rs[k].non_index@ == g && forall|j: int| k < j < rs.len() ==> !(rs[j].measure@ == m && rs[j].peptide_length == l
                && rs[j].index@ == i && rs[j].non_index@ == g),
            None => forall|j: int| 0 <= j < rs.len() ==> !(rs[j].measure@ == m && rs[j].peptide_length == l
                && rs[j].index@ == i && rs[j].non_index@ == g),
        },
    decreases rs.len(),
{
    if rs.len() > 0 {
        let p = rs.drop_last();
        lemma_fs_index(p, m, l, i, g);
        assert forall|j: int| 0 <= j < p.len() implies #[trigger] rs[j] == p[j] by {}
    }
}

/// The values one genotype allele contributes: its fraction shared and the inhibitory- and
/// activating-KIR-adjusted values. None when it is the index allele or when no result is
/// stored for the pair; a stored fraction that is undefined is carried as it is.
pub open spec fn allele_fs(
    rs: Seq<CalcFsResult>,
    m: Seq<char>,
    l: usize,
    e: IndexEntry,
    g: ClassIView,
    tab: Seq<KirMotifBinding>,
    carried: Seq<KirView>,
) -> Option<(Ratio, Ratio, Ratio)> {
    if g == e.allele@ {
        None
    } else {
        match fs_index(rs, m, l, e.allele@, g) {
            None => None,
            Some(k) => {
                let r = rs[k];
                let gk = match r.non_index_ligand_motif {
                    Some(x) => bound_kirs(tab, x),
                    None => Seq::empty(),
                };
                Some((
                    r.fraction_shared,
                    adjust(r.fraction_shared, e.motif, r.non_index_ligand_motif, gk, kir_views(e.inh_kirs@), carried),
                    adjust(r.fraction_shared, e.motif, r.non_index_ligand_motif, gk, kir_views(e.act_kirs@), carried),
                ))
            },
        }
    }
}

/// The LILRB averages one genotype allele contributes, when the index allele and then the
/// genotype allele have matching records; none for the index allele itself.
pub open spec fn allele_lilrb(ss: Seq<LilrbScoreView>, i: ClassIView, g: ClassIView) -> Option<(Ratio, Ratio)> {
    let idx = lilrb_matching(ss, i);
    if idx.len() == 0 || g == i {
        None
    } else {
        let mm = lilrb_matching(idx, g);
        if mm.len() == 0 {
            None
        } else {
            Some((
                Ratio { numerator: sum_lilrb1(mm) as u64, denominator: mm.len() as u64 },
                Ratio { numerator: sum_lilrb2(mm) as u64, denominator: mm.len() as u64 },
            ))
        }
    }
}

/// The contributions of the genotype alleles `geno`, in order, those without one left out.
pub open spec fn fs_values(
    geno: Seq<ClassI>,
    rs: Seq<CalcFsResult>,
    m: Seq<char>,
    l: usize,
    e: IndexEntry,
    tab: Seq<KirMotifBinding>,
    carried: Seq<KirView>,
) -> Seq<(Ratio, Ratio, Ratio)>
    decreases geno.len(),
{
    if geno.len() == 0 {
        Seq::empty()
    } else {
        let p = fs_values(geno.drop_last(), rs, m, l, e, tab, carried);
        match allele_fs(rs, m, l, e, geno.last()@, tab, carried) {
            Some(v) => p.push(v),
            None => p,
        }
    }
}

pub open spec fn lilrb_values(geno: Seq<ClassI>, ss: Seq<LilrbScoreView>, i: ClassIView) -> Seq<(Ratio, Ratio)>
    decreases geno.len(),
{
    if geno.len() == 0 {
        Seq::empty()
    } else {
        let p = lilrb_values(geno.drop_last(), ss, i);
        match allele_lilrb(ss, i, geno.last()@) {
            Some(v) => p.push(v),
            None => p,
        }
    }
}

/// The scores of one individual against one index allele, for one measure and length.
#[derive(Debug)]
pub struct CohortResult {
    pub index: ClassI,
    pub id: String,
    pub measure: String,
    pub fs: Option<Ratio>,
    pub ikir_fs: Option<Ratio>,
    pub akir_fs: Option<Ratio>,
    pub lilrb1: Option<Ratio>,
    pub lilrb2: Option<Ratio>,
    pub peptide_length: usize,
    pub alleles_considered: usize,
}

/// What the result for index `e`, measure `m`, length `l` and individual `ind` holds: each
/// score is the largest over the contributing genotype alleles.
pub open spec fn cohort_holds(
    res: CohortResult,
    e: IndexEntry,
    m: Seq<char>,
    l: usize,
    ind: Individual,
    rs: Seq<CalcFsResult>,
    tab: Seq<KirMotifBinding>,
    ss: Seq<LilrbScoreView>,
) -> bool {
    let fv = fs_values(ind.hla_genotype@, rs, m, l, e, tab, kir_views(ind.kir_genotype@));
    let lv = lilrb_values(ind.hla_genotype@, ss, e.allele@);
    &&& res.index@ == e.allele@
    &&& res.id@ == ind.id@
    &&& res.measure@ == m
    &&& res.peptide_length == l
    &&& res.alleles_considered == fv.len()
    &&& res.fs == max_ratio(fv.map_values(|v: (Ratio, Ratio, Ratio)| v.0))
    &&& res.ikir_fs == max_ratio(fv.map_values(|v: (Ratio, Ratio, Ratio)| v.1))
    &&& res.akir_fs == max_ratio(fv.map_values(|v: (Ratio, Ratio, Ratio)| v.2))
    &&& res.lilrb1 == max_ratio(lv.map_values(|v: (Ratio, Ratio)| v.0))
    &&& res.lilrb2 == max_ratio(lv.map_values(|v: (Ratio, Ratio)| v.1))
}

proof fn lemma_fs_values_len(
    geno: Seq<ClassI>,
    rs: Seq<CalcFsResult>,
    m: Seq<char>,
    l: usize,
    e: IndexEntry,
    tab: Seq<KirMotifBinding>,
    carried: Seq<KirView>,
)
    ensures
        fs_values(geno, rs, m, l, e, tab, carried).len() <= geno.len(),
    decreases geno.len(),
{
    if geno.len() > 0 {
        lemma_fs_values_len(geno.drop_last(), rs, m, l, e, tab, carried);
    }
}

/// The cohort's fraction shared is the best match among the genotype alleles with a stored
/// result: it is one of their values, and when any of them is defined it is defined and no
/// defined value lies above it; it is none exactly when no allele has a stored result, and the
/// count of alleles considered is the number that have one.
pub proof fn lemma_cohort_takes_best(
    res: CohortResult,
    e: IndexEntry,
    m: Seq<char>,
    l: usize,
    ind: Individual,
    rs: Seq<CalcFsResult>,
    tab: Seq<KirMotifBinding>,
    ss: Seq<LilrbScoreView>,
)
    requires
        cohort_holds(res, e, m, l, ind, rs, tab, ss),
    ensures
        ({
            let fv = fs_values(ind.hla_genotype@, rs, m, l, e, tab, kir_views(ind.kir_genotype@));
            &&& res.alleles_considered == fv.len()
            &&& res.alleles_considered <= ind.hla_genotype@.len()
            &&& (fv.len() == 0 <==> res.fs is None)
            &&& (res.fs matches Some(best) ==> exists|i: int| 0 <= i < fv.len() && fv[i].0 == best)
            &&& (res.fs matches Some(best) ==> ((exists|i: int| 0 <= i < fv.len() && (#[trigger] fv[i]).0.defined())
                ==> best.defined()))
            &&& (res.fs matches Some(best) ==> forall|i: int| 0 <= i < fv.len() && (#[trigger] fv[i]).0.defined()
                ==> !best.lt(fv[i].0))
        }),
{
    let carried = kir_views(ind.kir_genotype@);
    let fv = fs_values(ind.hla_genotype@, rs, m, l, e, tab, carried);
    let firsts = fv.map_values(|v: (Ratio, Ratio, Ratio)| v.0);
    lemma_fs_values_len(ind.hla_genotype@, rs, m, l, e, tab, carried);
    lemma_max_ratio(firsts);
    assert forall|i: int| 0 <= i < fv.len() implies #[trigger] firsts[i] == fv[i].0 by {}
    if let Some(best) = res.fs {
        let j = choose|j: int| 0 <= j < firsts.len() && firsts[j] == best;
        assert(fv[j].0 == best);
        if exists|i: int| 0 <= i < fv.len() && (#[trigger] fv[i]).0.defined() {
            let i = choose|i: int| 0 <= i < fv.len() && (#[trigger] fv[i]).0.defined();
            assert(firsts[i].defined());
        }
        assert forall|i: int| 0 <= i < fv.len() && (#[trigger] fv[i]).0.defined() implies !best.lt(fv[i].0) by {
            assert(firsts[i] == fv[i].0);
            assert(firsts[i].defined());
        }
    }
}

proof fn lemma_max_single(x: Ratio)
    ensures
        max_ratio(seq![x]) == Some(x),
{
    let s = seq![x];
    assert(s.drop_last() =~= Seq::<Ratio>::empty());
    assert(max_ratio(Seq::<Ratio>::empty()) is None);
    assert(s.last() == x);
}

proof fn lemma_fs_values_none(
    geno: Seq<ClassI>,
    rs: Seq<CalcFsResult>,
    m: Seq<char>,
    l: usize,
    e: IndexEntry,
    tab: Seq<KirMotifBinding>,
    carried: Seq<KirView>,
)
    requires
        forall|i: int| 0 <= i < geno.len() ==> allele_fs(rs, m, l, e, (#[trigger] geno[i])@, tab, carried) is None,
    ensures
        fs_values(geno, rs, m, l, e, tab, carried).len() == 0,
    decreases geno.len(),
{
    if geno.len() > 0 {
        let p = geno.drop_last();
        assert forall|i: int| 0 <= i < p.len() implies allele_fs(rs, m, l, e, (#[trigger] p[i])@, tab, carried) is None by {
            assert(p[i] == geno[i]);
        }
        lemma_fs_values_none(p, rs, m, l, e, tab, carried);
        assert(geno.last() == geno[geno.len() - 1]);
    }
}

proof fn lemma_fs_values_single(
    geno: Seq<ClassI>,
    rs: Seq<CalcFsResult>,
    m: Seq<char>,
    l: usize,
    e: IndexEntry,
    tab: Seq<KirMotifBinding>,
    carried: Seq<KirView>,
    j: int,
)
    requires
        0 <= j < geno.len(),
        allele_fs(rs, m, l, e, geno[j]@, tab, carried) is Some,
        forall|i: int| 0 <= i < geno.len() && i != j ==> allele_fs(rs, m, l, e, (#[trigger] geno[i])@, tab, carried) is None,
    ensures
        fs_values(geno, rs, m, l, e, tab, carried) == seq![allele_fs(rs, m, l, e, geno[j]@, tab, carried)->Some_0],
    decreases geno.len(),
{
    let p = geno.drop_last();
    assert forall|i: int| 0 <= i < p.len() && i != j implies allele_fs(rs, m, l, e, (#[trigger] p[i])@, tab, carried) is None by {
        assert(p[i] == geno[i]);
    }
    if j == geno.len() - 1 {
        lemma_fs_values_none(p, rs, m, l, e, tab, carried);
        assert(geno.last() == geno[j]);
        assert(fs_values(p, rs, m, l, e, tab, carried).push(allele_fs(rs, m, l, e, geno[j]@, tab, carried)->Some_0)
            =~= seq![allele_fs(rs, m, l, e, geno[j]@, tab, carried)->Some_0]);
    } else {
        assert(p[j] == geno[j]);
        lemma_fs_values_single(p, rs, m, l, e, tab, carried, j);
        assert(geno.last() == geno[geno.len() - 1]);
    }
}

/// The KIRs that recognise a genotype allele's motif; none for an unknown motif.
pub open spec fn gene_kirs_for(tab: Seq<KirMotifBinding>, m: Option<LigandMotif>) -> Seq<KirView> {
    match m {
        Some(x) => bound_kirs(tab, x),
        None => Seq::empty(),
    }
}

/// The stored result that genotype allele `j` of `ind` is scored by: the last one for its key.
pub open spec fn stored_for(
    rs: Seq<CalcFsResult>,
    m: Seq<char>,
    l: usize,
    e: IndexEntry,
    ind: Individual,
    j: int,
) -> CalcFsResult {
    rs[fs_index(rs, m, l, e.allele@, ind.hla_genotype@[j]@)->Some_0]
}

/// The KIR adjustment seen from a cohort result: when exactly one genotype allele `g`
/// contributes, the result's fraction shared is the last stored one for `(index, g)`, and
/// each adjusted value follows the four cases: neither motif recognised by a KIR gives 1,
/// exactly one gives 0, both give the stored fraction or 0 (by the KIRs carried), and an
/// unknown motif on either side gives 0.
pub proof fn lemma_cohort_kir_cases(
    res: CohortResult,
    e: IndexEntry,
    m: Seq<char>,
    l: usize,
    ind: Individual,
    rs: Seq<CalcFsResult>,
    tab: Seq<KirMotifBinding>,
    ss: Seq<LilrbScoreView>,
    j: int,
)
    requires
        cohort_holds(res, e, m, l, ind, rs, tab, ss),
        0 <= j < ind.hla_genotype@.len(),
        allele_fs(rs, m, l, e, ind.hla_genotype@[j]@, tab, kir_views(ind.kir_genotype@)) is Some,
        forall|i: int| 0 <= i < ind.hla_genotype@.len() && i != j ==> allele_fs(rs, m, l, e, (#[trigger] ind.hla_genotype@[i])@, tab, kir_views(ind.kir_genotype@)) is None,
    ensures
        res.alleles_considered == 1,
        stored_for(rs, m, l, e, ind, j).index@ == e.allele@,
        stored_for(rs, m, l, e, ind, j).non_index@ == ind.hla_genotype@[j]@,
        stored_for(rs, m, l, e, ind, j).measure@ == m,
        stored_for(rs, m, l, e, ind, j).peptide_length == l,
        res.fs == Some(stored_for(rs, m, l, e, ind, j).fraction_shared),
        res.ikir_fs == Some(adjust(stored_for(rs, m, l, e, ind, j).fraction_shared, e.motif, stored_for(rs, m, l, e, ind, j).non_index_ligand_motif,
            gene_kirs_for(tab, stored_for(rs, m, l, e, ind, j).non_index_ligand_motif), kir_views(e.inh_kirs@), kir_views(ind.kir_genotype@))),
        res.akir_fs == Some(adjust(stored_for(rs, m, l, e, ind, j).fraction_shared, e.motif, stored_for(rs, m, l, e, ind, j).non_index_ligand_motif,
            gene_kirs_for(tab, stored_for(rs, m, l, e, ind, j).non_index_ligand_motif), kir_views(e.act_kirs@), kir_views(ind.kir_genotype@))),
        e.motif is None || stored_for(rs, m, l, e, ind, j).non_index_ligand_motif is None ==> res.ikir_fs == Some(
            Ratio { numerator: 0, denominator: 1 },
        ) && res.akir_fs == Some(Ratio { numerator: 0, denominator: 1 }),
        e.motif is Some && stored_for(rs, m, l, e, ind, j).non_index_ligand_motif is Some && !kir_relevant(
            e.motif->Some_0,
        ) && !kir_relevant(stored_for(rs, m, l, e, ind, j).non_index_ligand_motif->Some_0) ==> res.ikir_fs == Some(
            Ratio { numerator: 1, denominator: 1 },
        ) && res.akir_fs == Some(Ratio { numerator: 1, denominator: 1 }),
        e.motif is Some && stored_for(rs, m, l, e, ind, j).non_index_ligand_motif is Some && kir_relevant(
            e.motif->Some_0,
        ) != kir_relevant(stored_for(rs, m, l, e, ind, j).non_index_ligand_motif->Some_0) ==> res.ikir_fs == Some(
            Ratio { numerator: 0, denominator: 1 },
        ) && res.akir_fs == Some(Ratio { numerator: 0, denominator: 1 }),
        e.motif is Some && stored_for(rs, m, l, e, ind, j).non_index_ligand_motif is Some && kir_relevant(
            e.motif->Some_0,
        ) && kir_relevant(stored_for(rs, m, l, e, ind, j).non_index_ligand_motif->Some_0) ==> (res.ikir_fs == Some(
            stored_for(rs, m, l, e, ind, j).fraction_shared,
        ) || res.ikir_fs == Some(Ratio { numerator: 0, denominator: 1 })) && (res.akir_fs == Some(
            stored_for(rs, m, l, e, ind, j).fraction_shared,
        ) || res.akir_fs == Some(Ratio { numerator: 0, denominator: 1 })),
{
    let carried = kir_views(ind.kir_genotype@);
    let geno = ind.hla_genotype@;
    lemma_fs_values_single(geno, rs, m, l, e, tab, carried, j);
    lemma_fs_index(rs, m, l, e.allele@, geno[j]@);
    let fv = fs_values(geno, rs, m, l, e, tab, carried);
    let v = fv[0];
    assert(fv.map_values(|x: (Ratio, Ratio, Ratio)| x.0) =~= seq![v.0]);
    assert(fv.map_values(|x: (Ratio, Ratio, Ratio)| x.1) =~= seq![v.1]);
    assert(fv.map_values(|x: (Ratio, Ratio, Ratio)| x.2) =~= seq![v.2]);
    assert(seq![v.0].drop_last() =~= Seq::<Ratio>::empty());
    assert(seq![v.1].drop_last() =~= Seq::<Ratio>::empty());
    assert(seq![v.2].drop_last() =~= Seq::<Ratio>::empty());
    lemma_max_single(v.0);
    lemma_max_single(v.1);
    lemma_max_single(v.2);
    let r = rs[fs_index(rs, m, l, e.allele@, geno[j]@)->Some_0];
    let gk = match r.non_index_ligand_motif {
        Some(x) => bound_kirs(tab, x),
        None => Seq::empty(),
    };
    let w = allele_fs(rs, m, l, e, geno[j]@, tab, carried)->Some_0;
    assert(v == w);
    assert(geno[j]@ != e.allele@);
    assert(w.0 == r.fraction_shared);
    assert(w.1 == adjust(r.fraction_shared, e.motif, r.non_index_ligand_motif, gk, kir_views(e.inh_kirs@), carried));
    assert(w.2 == adjust(r.fraction_shared, e.motif, r.non_index_ligand_motif, gk, kir_views(e.act_kirs@), carried));
    assert(res.fs == Some(v.0) && res.ikir_fs == Some(v.1) && res.akir_fs == Some(v.2));
    match (e.motif, r.non_index_ligand_motif) {
        (Some(a), Some(b)) => {
            lemma_kir_adjustment_cases(r.fraction_shared, a, b, gk, kir_views(e.inh_kirs@), carried);
            lemma_kir_adjustment_cases(r.fraction_shared, a, b, gk, kir_views(e.act_kirs@), carried);
        },
        _ => {},
    }
}

/// The largest of a list of ratios.
pub fn max_of(v: &Vec<Ratio>) -> (r: Option<Ratio>)
    ensures
        r == max_ratio(v@),
{
    let mut best: Option<Ratio> = None;
    let mut i: usize = 0;
    while i < v.len()
        invariant
            i <= v@.len(),
            best == max_ratio(v@.take(i as int)),
        decreases v@.len() - i,
    {
        assert(v@.take(i + 1).drop_last() =~= v@.take(i as int));
        assert(v@.take(i + 1).last() == v@[i as int]);
        match best {
            None => {
                best = Some(v[i]);
            },
            Some(b) => {
                let x = v[i];
                if x.denominator == 0 {
                    if b.denominator == 0 {
                        best = Some(x);
                    }
                } else if !(b.denominator > 0 && x.less_than(&b)) {
                    best = Some(x);
                }
            },
        }
        i = i + 1;
    }
    assert(v@.take(v@.len() as int) =~= v@);
    best
}

fn find_fs_result(results: &[CalcFsResult], measure: &String, length: usize, index: &ClassI, g: &ClassI) -> (r: Option<usize>)
    ensures
        match r {
            Some(k) => fs_index(results@, measure@, length, index@, g@) == Some(k as int) && k < results@.len(),
            None => fs_index(results@, measure@, length, index@, g@) is None,
        },
{
    proof { lemma_fs_index(results@, measure@, length, index@, g@); }
    let mut k: usize = results.len();
    while k > 0
        invariant
            k <= results@.len(),
            forall|j: int| k <= j < results@.len() ==> !(results@[j].measure@ == measure@ && results@[j].peptide_length == length
                && results@[j].index@ == index@ && results@[j].non_index@ == g@),
        decreases k,
    {
        let r = &results[k - 1];
        if r.peptide_length == length && r.measure.eq(measure) && r.index.same(index) && r.non_index.same(g) {
            proof {
                lemma_fs_index(results@, measure@, length, index@, g@);
                if let Some(x) = fs_index(results@, measure@, length, index@, g@) {
                    assert(x == k - 1);
                }
            }
            return Some(k - 1);
        }
        k = k - 1;
    }
    None
}

/// The scores of `individual` against `index` for one measure and peptide length: for each
/// genotype allele other than the index, the stored fraction shared and its KIR-adjusted
/// values, and the LILRB averages; each score is the largest over the alleles that have one.
pub fn cohort_entry(
    index: &IndexEntry,
    measure: &String,
    length: usize,
    individual: &Individual,
    results: &[CalcFsResult],
    kir_motif_interactions: &[KirMotifBinding],
    lilrb_scores: &[LilrbScore],
) -> (r: CohortResult)
    requires
        lilrb_scores@.len() <= u32::MAX,
        kirs_unique(binding_views(kir_motif_interactions@)),
    ensures
        cohort_holds(r, *index, measure@, length, *individual, results@, kir_motif_interactions@, lilrb_views(lilrb_scores@)),
{
    let ghost rs = results@;
    let ghost tab = kir_motif_interactions@;
    let ghost ss = lilrb_views(lilrb_scores@);
    let ghost carried = kir_views(individual.kir_genotype@);
    let geno = &individual.hla_genotype;
    let index_scores = get_matching(lilrb_scores, &index.allele);
    proof {
        lemma_matching_len(ss, index.allele@, true);
        lemma_matching_len(ss, index.allele@, false);
    }
    let mut fs: Vec<Ratio> = Vec::new();
    let mut ikir: Vec<Ratio> = Vec::new();
    let mut akir: Vec<Ratio> = Vec::new();
    let mut l1: Vec<Ratio> = Vec::new();
    let mut l2: Vec<Ratio> = Vec::new();
    let mut i: usize = 0;
    while i < geno.len()
        invariant
            i <= geno@.len(),
            geno == &individual.hla_genotype,
            rs == results@,
            tab == kir_motif_interactions@,
            kirs_unique(binding_views(kir_motif_interactions@)),
            ss == lilrb_views(lilrb_scores@),
            carried == kir_views(individual.kir_genotype@),
            lilrb_views(index_scores@) == lilrb_matching(ss, index.allele@),
            index_scores@.len() <= u32::MAX,
            fs@ == fs_values(geno@.take(i as int), rs, measure@, length, *index, tab, carried).map_values(|v: (Ratio, Ratio, Ratio)| v.0),
            ikir@ == fs_values(geno@.take(i as int), rs, measure@, length, *index, tab, carried).map_values(|v: (Ratio, Ratio, Ratio)| v.1),
            akir@ == fs_values(geno@.take(i as int), rs, measure@, length, *index, tab, carried).map_values(|v: (Ratio, Ratio, Ratio)| v.2),
            l1@ == lilrb_values(geno@.take(i as int), ss, index.allele@).map_values(|v: (Ratio, Ratio)| v.0),
            l2@ == lilrb_values(geno@.take(i as int), ss, index.allele@).map_values(|v: (Ratio, Ratio)| v.1),
            fs@.len() <= i,
        decreases geno@.len() - i,
    {
        let g = &geno[i];
        let ghost pre = geno@.take(i as int);
        assert(geno@.take(i + 1).drop_last() =~= pre);
        assert(geno@.take(i + 1).last() == *g);
        let ghost fv = fs_values(pre, rs, measure@, length, *index, tab, carried);
        let ghost lv = lilrb_values(pre, ss, index.allele@);
        let is_index = index.allele.same(g);
        if index_scores.len() > 0 && !is_index {
            let gm = get_matching(index_scores.as_slice(), g);
            if gm.len() > 0 {
                proof {
                    lemma_matching_len(lilrb_views(index_scores@), g@, true);
                    lemma_matching_len(lilrb_views(index_scores@), g@, false);
                }
                let (a, b) = lilrb_average(&gm);
                l1.push(a);
                l2.push(b);
                assert(l1@ =~= lv.push((a, b)).map_values(|v: (Ratio, Ratio)| v.0));
                assert(l2@ =~= lv.push((a, b)).map_values(|v: (Ratio, Ratio)| v.1));
            }
        }
        if !is_index {
            match find_fs_result(results, measure, length, &index.allele, g) {
                Some(k) => {
                    let r = &results[k];
                    let base = r.fraction_shared;
                    {
                        let gk = match r.non_index_ligand_motif {
                            Some(x) => get_bound_kirs(kir_motif_interactions, x),
                            None => Vec::new(),
                        };
                        proof {
                            if r.non_index_ligand_motif is None {
                                assert(kir_views(gk@) =~= Seq::<KirView>::empty());
                            }
                        }
                        let ik = kir_adjusted(base, index.motif, r.non_index_ligand_motif, gk.as_slice(), index.inh_kirs.as_slice(), individual.kir_genotype.as_slice());
                        let ak = kir_adjusted(base, index.motif, r.non_index_ligand_motif, gk.as_slice(), index.act_kirs.as_slice(), individual.kir_genotype.as_slice());
                        fs.push(base);
                        ikir.push(ik);
                        akir.push(ak);
                        assert(fs@ =~= fv.push((base, ik, ak)).map_values(|v: (Ratio, Ratio, Ratio)| v.0));
                        assert(ikir@ =~= fv.push((base, ik, ak)).map_values(|v: (Ratio, Ratio, Ratio)| v.1));
                        assert(akir@ =~= fv.push((base, ik, ak)).map_values(|v: (Ratio, Ratio, Ratio)| v.2));
                    }
                },
                None => {},
            }
        }
        i = i + 1;
    }
    assert(geno@.take(geno@.len() as int) =~= geno@);
    CohortResult {
        index: index.allele.duplicate(),
        id: individual.id.clone(),
        measure: measure.clone(),
        fs: max_of(&fs),
        ikir_fs: max_of(&ikir),
        akir_fs: max_of(&akir),
        lilrb1: max_of(&l1),
        lilrb2: max_of(&l2),
        peptide_length: length,
        alleles_considered: fs.len(),
    }
}

/// The KIRs of `tab` with tail `t` that recognise motif `m`, in table order.
pub open spec fn bound_kirs_with_tail(tab: Seq<KirMotifBinding>, m: LigandMotif, t: Tail) -> Seq<KirView>
    decreases tab.len(),
{
    if tab.len() == 0 {
        Seq::empty()
    } else if tab.last().motifs@.contains(m) && tab.last().kir.cytoplasmic_tail == t {
        bound_kirs_with_tail(tab.drop_last(), m, t).push(tab.last().kir@)
    } else {
        bound_kirs_with_tail(tab.drop_last(), m, t)
    }
}

/// The KIRs with tail `t` that recognise a motif; none for an unknown motif.
pub open spec fn index_kirs_spec(tab: Seq<KirMotifBinding>, m: Option<LigandMotif>, t: Tail) -> Seq<KirView> {
    match m {
        Some(x) => bound_kirs_with_tail(tab, x, t),
        None => Seq::empty(),
    }
}

fn kirs_with_tail(tab: &[KirMotifBinding], m: LigandMotif, t: Tail) -> (r: Vec<Kir>)
    ensures
        kir_views(r@) == bound_kirs_with_tail(tab@, m, t),
{
    let mut out: Vec<Kir> = Vec::new();
    let mut i: usize = 0;
    while i < tab.len()
        invariant
            i <= tab@.len(),
            kir_views(out@) == bound_kirs_with_tail(tab@.take(i as int), m, t),
        decreases tab@.len() - i,
    {
        let e = &tab[i];
        assert(tab@.take(i + 1).drop_last() =~= tab@.take(i as int));
        assert(tab@.take(i + 1).last() == *e);
        if motifs_have(&e.motifs, m) && e.kir.cytoplasmic_tail == t {
            let ghost before = kir_views(out@);
            out.push(kir_copy(&e.kir));
            assert(kir_views(out@) =~= before.push(e.kir@));
        }
        i = i + 1;
    }
    assert(tab@.take(tab@.len() as int) =~= tab@);
    out
}

/// Index of the first result whose index allele is `a`.
pub open spec fn first_result_for(rs: Seq<CalcFsResult>, a: ClassIView) -> Option<int>
    decreases rs.len(),
{
    if rs.len() == 0 {
        None
    } else {
        match first_result_for(rs.drop_last(), a) {
            Some(k) => Some(k),
            None => if rs.last().index@ == a { Some(rs.len() - 1) } else { None },
        }
    }
}

proof fn lemma_first_result_for(rs: Seq<CalcFsResult>, a: ClassIView)
    ensures
        match first_result_for(rs, a) {
            Some(k) => 0 <= k < rs.len() && rs[k].index@ == a && forall|j: int| 0 <= j < k ==> rs[j].index@ != a,
            None => forall|j: int| 0 <= j < rs.len() ==> rs[j].index@ != a,
        },
    decreases rs.len(),
{
    if rs.len() > 0 {
        let p = rs.drop_last();
        lemma_first_result_for(p, a);
        assert forall|j: int| 0 <= j < p.len() implies #[trigger] rs[j] == p[j] by {}
    }
}

/// The index alleles that have results, in the order given, each once.
pub open spec fn index_list(als: Seq<ClassI>, rs: Seq<CalcFsResult>) -> Seq<ClassIView>
    decreases als.len(),
{
    if als.len() == 0 {
        Seq::empty()
    } else {
        let p = index_list(als.drop_last(), rs);
        let a = als.last()@;
        if first_result_for(rs, a) is Some && !p.contains(a) {
            p.push(a)
        } else {
            p
        }
    }
}

/// What the cache knows of index allele `a`.
pub open spec fn entry_holds(e: IndexEntry, a: ClassIView, rs: Seq<CalcFsResult>, tab: Seq<KirMotifBinding>) -> bool {
    &&& e.allele@ == a
    &&& e.motif == rs[first_result_for(rs, a)->Some_0].index_ligand_motif
    &&& kir_views(e.act_kirs@) == index_kirs_spec(tab, e.motif, Tail::Short)
    &&& kir_views(e.inh_kirs@) == index_kirs_spec(tab, e.motif, Tail::Long)
}

/// Whether a result's index allele is one of `als`.
pub open spec fn is_index_of(r: CalcFsResult, als: Seq<ClassI>) -> bool {
    exists|j: int| 0 <= j < als.len() && als[j]@ == r.index@
}

/// The results whose index allele is one of `als`, in order.
pub open spec fn results_for(rs: Seq<CalcFsResult>, als: Seq<ClassI>) -> Seq<CalcFsResult>
    decreases rs.len(),
{
    if rs.len() == 0 {
        Seq::empty()
    } else if is_index_of(rs.last(), als) {
        results_for(rs.drop_last(), als).push(rs.last())
    } else {
        results_for(rs.drop_last(), als)
    }
}

/// The stored results and what the cohort computation needs of each index allele.
#[derive(Debug)]
pub struct IndexCache {
    pub indexes: Vec<IndexEntry>,
    pub keys: Vec<(String, usize)>,
    pub fs_results: Vec<CalcFsResult>,
}

fn has_allele(v: &Vec<IndexEntry>, a: &ClassI) -> (r: bool)
    ensures
        r == (exists|k: int| 0 <= k < v@.len() && v@[k].allele@ == a@),
{
    let mut k: usize = 0;
    while k < v.len()
        invariant
            k <= v@.len(),
            forall|j: int| 0 <= j < k ==> v@[j].allele@ != a@,
        decreases v@.len() - k,
    {
        if v[k].allele.same(a) {
            return true;
        }
        k = k + 1;
    }
    false
}

fn first_result_index(rs: &Vec<CalcFsResult>, a: &ClassI) -> (r: Option<usize>)
    ensures
        match r {
            Some(k) => first_result_for(rs@, a@) == Some(k as int) && k < rs@.len(),
            None => first_result_for(rs@, a@) is None,
        },
{
    proof { lemma_first_result_for(rs@, a@); }
    let mut k: usize = 0;
    while k < rs.len()
        invariant
            k <= rs@.len(),
            forall|j: int| 0 <= j < k ==> rs@[j].index@ != a@,
        decreases rs@.len() - k,
    {
        if rs[k].index.same(a) {
            proof {
                lemma_first_result_for(rs@, a@);
                if let Some(x) = first_result_for(rs@, a@) {
                    assert(x == k);
                }
            }
            return Some(k);
        }
        k = k + 1;
    }
    None
}

impl IndexCache {
    /// Gathers, for each index allele with results (in the order given, each once), its motif
    /// (from its first result) and the activating and inhibitory KIRs that recognise that
    /// motif; the (measure, length) keys, measures outermost; and the results of the index
    /// alleles, in order (a lookup takes the last one for a key).
    pub fn new(
        index_alleles: &[ClassI],
        fs_result: Vec<CalcFsResult>,
        kir_interactions: &[KirMotifBinding],
        measures: &[Measure],
        pep_lengths: &[usize],
    ) -> (r: IndexCache)
        requires
            kirs_unique(binding_views(kir_interactions@)),
        ensures
            forall|k: int| 0 <= k < r.indexes@.len() ==> kirs_distinct(kir_views((#[trigger] r.indexes@[k]).act_kirs@))
                && kirs_distinct(kir_views(r.indexes@[k].inh_kirs@)),
            r.fs_results@ == results_for(fs_result@, index_alleles@),
            r.indexes@.len() == index_list(index_alleles@, fs_result@).len(),
            forall|k: int| 0 <= k < r.indexes@.len() ==> entry_holds(
                #[trigger] r.indexes@[k],
                index_list(index_alleles@, fs_result@)[k],
                fs_result@,
                kir_interactions@,
            ),
            r.keys@.len() == grid_plane(0, measures@.len() as nat, pep_lengths@.len() as nat).len(),
            forall|k: int| 0 <= k < r.keys@.len() ==> {
                let t = grid_plane(0, measures@.len() as nat, pep_lengths@.len() as nat)[k];
                (#[trigger] r.keys@[k]).0@ == measures@[t.1].name@ && r.keys@[k].1 == pep_lengths@[t.2]
            },
    {
        let ghost rs = fs_result@;
        let ghost tab = kir_interactions@;
        let mut indexes: Vec<IndexEntry> = Vec::new();
        let mut i: usize = 0;
        while i < index_alleles.len()
            invariant
                i <= index_alleles@.len(),
                rs == fs_result@,
                tab == kir_interactions@,
                indexes@.len() == index_list(index_alleles@.take(i as int), rs).len(),
                forall|k: int| 0 <= k < indexes@.len() ==> entry_holds(#[trigger] indexes@[k], index_list(index_alleles@.take(i as int), rs)[k], rs, tab),
            decreases index_alleles@.len() - i,
        {
            let a = &index_alleles[i];
            let ghost pre = index_alleles@.take(i as int);
            let ghost lst = index_list(pre, rs);
            assert(index_alleles@.take(i + 1).drop_last() =~= pre);
            assert(index_alleles@.take(i + 1).last() == *a);
            let present = has_allele(&indexes, a);
            proof {
                if lst.contains(a@) {
                    let j = choose|j: int| 0 <= j < lst.len() && lst[j] == a@;
                    assert(indexes@[j].allele@ == a@);
                }
                if present {
                    let j = choose|j: int| 0 <= j < indexes@.len() && indexes@[j].allele@ == a@;
                    assert(entry_holds(indexes@[j], lst[j], rs, tab));
                    assert(lst.contains(a@));
                }
            }
            if !present {
                match first_result_index(&fs_result, a) {
                    Some(k) => {
                        let motif = fs_result[k].index_ligand_motif;
                        let (act_kirs, inh_kirs) = match motif {
                            Some(m) => (kirs_with_tail(kir_interactions, m, Tail::Short), kirs_with_tail(kir_interactions, m, Tail::Long)),
                            None => (Vec::new(), Vec::new()),
                        };
                        proof {
                            if motif is None {
                                assert(kir_views(act_kirs@) =~= Seq::<KirView>::empty());
                                assert(kir_views(inh_kirs@) =~= Seq::<KirView>::empty());
                            }
                        }
                        let ghost before = indexes@;
                        indexes.push(IndexEntry { allele: a.duplicate(), motif, act_kirs, inh_kirs });
                        proof {
                            assert(index_list(index_alleles@.take(i + 1), rs) == lst.push(a@));
                            assert forall|q: int| 0 <= q < indexes@.len() implies entry_holds(#[trigger] indexes@[q], lst.push(a@)[q], rs, tab) by {
                                if q < before.len() {
                                    assert(indexes@[q] == before[q]);
                                }
                            }
                        }
                    },
                    None => {},
                }
            }
            i = i + 1;
        }
        assert(index_alleles@.take(index_alleles@.len() as int) =~= index_alleles@);
        let n_m = measures.len();
        let n_l = pep_lengths.len();
        let mut keys: Vec<(String, usize)> = Vec::new();
        let mut mi: usize = 0;
        while mi < n_m
            invariant
                n_m == measures@.len(),
                n_l == pep_lengths@.len(),
                mi <= n_m,
                keys@.len() == grid_plane(0, mi as nat, n_l as nat).len(),
                forall|k: int| 0 <= k < keys@.len() ==> {
                    let t = grid_plane(0, mi as nat, n_l as nat)[k];
                    (#[trigger] keys@[k]).0@ == measures@[t.1].name@ && keys@[k].1 == pep_lengths@[t.2]
                },
            decreases n_m - mi,
        {
            let ghost base = grid_plane(0, mi as nat, n_l as nat);
            let mut li: usize = 0;
            while li < n_l
                invariant
                    n_m == measures@.len(),
                    n_l == pep_lengths@.len(),
                    mi < n_m,
                    li <= n_l,
                    base == grid_plane(0, mi as nat, n_l as nat),
                    keys@.len() == (base + grid_row(0, mi as int, li as nat)).len(),
                    forall|k: int| 0 <= k < keys@.len() ==> {
                        let t = (base + grid_row(0, mi as int, li as nat))[k];
                        (#[trigger] keys@[k]).0@ == measures@[t.1].name@ && keys@[k].1 == pep_lengths@[t.2]
                    },
                decreases n_l - li,
            {
                let ghost before = keys@;
                let ghost ks = base + grid_row(0, mi as int, li as nat);
                keys.push((measures[mi].name.clone(), pep_lengths[li]));
                proof {
                    let t = (0int, mi as int, li as int);
                    assert(grid_row(0, mi as int, (li + 1) as nat) == grid_row(0, mi as int, li as nat).push(t));
                    assert(ks.push(t) =~= base + grid_row(0, mi as int, (li + 1) as nat));
                    assert forall|k: int| 0 <= k < keys@.len() implies {
                        let u = (base + grid_row(0, mi as int, (li + 1) as nat))[k];
                        (#[trigger] keys@[k]).0@ == measures@[u.1].name@ && keys@[k].1 == pep_lengths@[u.2]
                    } by {
                        if k < before.len() {
                            assert(keys@[k] == before[k]);
                            assert(ks.push(t)[k] == ks[k]);
                        } else {
                            assert(ks.push(t)[k] == t);
                        }
                    }
                }
                li = li + 1;
            }
            assert(grid_plane(0, (mi + 1) as nat, n_l as nat) == base + grid_row(0, mi as int, n_l as nat));
            mi = mi + 1;
        }
        let mut fs_results: Vec<CalcFsResult> = Vec::new();
        let mut q: usize = 0;
        while q < fs_result.len()
            invariant
                q <= fs_result@.len(),
                fs_results@ == results_for(fs_result@.take(q as int), index_alleles@),
            decreases fs_result@.len() - q,
        {
            assert(fs_result@.take(q + 1).drop_last() =~= fs_result@.take(q as int));
            assert(fs_result@.take(q + 1).last() == fs_result@[q as int]);
            let mut a: usize = 0;
            let mut hit = false;
            while a < index_alleles.len() && !hit
                invariant
                    a <= index_alleles@.len(),
                    q < fs_result@.len(),
                    hit ==> is_index_of(fs_result@[q as int], index_alleles@),
                    !hit ==> forall|j: int| 0 <= j < a ==> index_alleles@[j]@ != fs_result@[q as int].index@,
                decreases index_alleles@.len() - a,
            {
                if index_alleles[a].same(&fs_result[q].index) {
                    hit = true;
                }
                a = a + 1;
            }
            if hit {
                fs_results.push(fs_result[q].duplicate());
            }
            q = q + 1;
        }
        assert(fs_result@.take(fs_result@.len() as int) =~= fs_result@);
        proof {
            assert forall|k: int| 0 <= k < indexes@.len() implies kirs_distinct(kir_views((#[trigger] indexes@[k]).act_kirs@))
                && kirs_distinct(kir_views(indexes@[k].inh_kirs@)) by {
                if let Some(mo) = indexes@[k].motif {
                    lemma_tail_kirs_distinct(tab, mo, Tail::Short);
                    lemma_tail_kirs_distinct(tab, mo, Tail::Long);
                }
            }
        }
        IndexCache { indexes, keys, fs_results }
    }
}

/// One result per individual, (measure, length) key and index allele, in nested-loop order
/// (individuals outermost, index alleles innermost).
pub fn calculate_index_cohort_fs(
    index_cache: &IndexCache,
    cohort: &[Individual],
    kir_motif_interactions: &[KirMotifBinding],
    lilrb_scores: &[LilrbScore],
) -> (r: Vec<CohortResult>)
    requires
        lilrb_scores@.len() <= u32::MAX,
        kirs_unique(binding_views(kir_motif_interactions@)),
    ensures
        r@.len() == grid(cohort@.len() as nat, index_cache.keys@.len() as nat, index_cache.indexes@.len() as nat).len(),
        forall|k: int| 0 <= k < r@.len() ==> {
            let t = grid(cohort@.len() as nat, index_cache.keys@.len() as nat, index_cache.indexes@.len() as nat)[k];
            cohort_holds(
                #[trigger] r@[k],
                index_cache.indexes@[t.2],
                index_cache.keys@[t.1].0@,
                index_cache.keys@[t.1].1,
                cohort@[t.0],
                index_cache.fs_results@,
                kir_motif_interactions@,
                lilrb_views(lilrb_scores@),
            )
        },
{
    let n_c = cohort.len();
    let n_m = index_cache.keys.len();
    let n_l = index_cache.indexes.len();
    let ghost rs = index_cache.fs_results@;
    let ghost tab = kir_motif_interactions@;
    let ghost ss = lilrb_views(lilrb_scores@);
    let mut out: Vec<CohortResult> = Vec::new();
    let mut ci: usize = 0;
    while ci < n_c
        invariant
            n_c == cohort@.len(),
            n_m == index_cache.keys@.len(),
            n_l == index_cache.indexes@.len(),
            rs == index_cache.fs_results@,
            tab == kir_motif_interactions@,
            kirs_unique(binding_views(kir_motif_interactions@)),
            ss == lilrb_views(lilrb_scores@),
            lilrb_scores@.len() <= u32::MAX,
            ci <= n_c,
            out@.len() == grid(ci as nat, n_m as nat, n_l as nat).len(),
            forall|k: int| 0 <= k < out@.len() ==> {
                let t = grid(ci as nat, n_m as nat, n_l as nat)[k];
                cohort_holds(#[trigger] out@[k], index_cache.indexes@[t.2], index_cache.keys@[t.1].0@, index_cache.keys@[t.1].1, cohort@[t.0], rs, tab, ss)
            },
        decreases n_c - ci,
    {
        let individual = &cohort[ci];
        let ghost base = grid(ci as nat, n_m as nat, n_l as nat);
        let mut mi: usize = 0;
        while mi < n_m
            invariant
                n_c == cohort@.len(),
                n_m == index_cache.keys@.len(),
                n_l == index_cache.indexes@.len(),
                rs == index_cache.fs_results@,
                tab == kir_motif_interactions@,
                kirs_unique(binding_views(kir_motif_interactions@)),
                ss == lilrb_views(lilrb_scores@),
                lilrb_scores@.len() <= u32::MAX,
                ci < n_c,
                mi <= n_m,
                *individual == cohort@[ci as int],
                base == grid(ci as nat, n_m as nat, n_l as nat),
                out@.len() == (base + grid_plane(ci as int, mi as nat, n_l as nat)).len(),
                forall|k: int| 0 <= k < out@.len() ==> {
                    let t = (base + grid_plane(ci as int, mi as nat, n_l as nat))[k];
                    cohort_holds(#[trigger] out@[k], index_cache.indexes@[t.2], index_cache.keys@[t.1].0@, index_cache.keys@[t.1].1, cohort@[t.0], rs, tab, ss)
                },
            decreases n_m - mi,
        {
            let key = &index_cache.keys[mi];
            let ghost plane = base + grid_plane(ci as int, mi as nat, n_l as nat);
            let mut li: usize = 0;
            while li < n_l
                invariant
                    n_c == cohort@.len(),
                    n_m == index_cache.keys@.len(),
                    n_l == index_cache.indexes@.len(),
                    rs == index_cache.fs_results@,
                    tab == kir_motif_interactions@,
                    kirs_unique(binding_views(kir_motif_interactions@)),
                    ss == lilrb_views(lilrb_scores@),
                    lilrb_scores@.len() <= u32::MAX,
                    ci < n_c,
                    mi < n_m,
                    li <= n_l,
                    *individual == cohort@[ci as int],
                    *key == index_cache.keys@[mi as int],
                    plane == base + grid_plane(ci as int, mi as nat, n_l as nat),
                    out@.len() == (plane + grid_row(ci as int, mi as int, li as nat)).len(),
                    forall|k: int| 0 <= k < out@.len() ==> {
                        let t = (plane + grid_row(ci as int, mi as int, li as nat))[k];
                        cohort_holds(#[trigger] out@[k], index_cache.indexes@[t.2], index_cache.keys@[t.1].0@, index_cache.keys@[t.1].1, cohort@[t.0], rs, tab, ss)
                    },
                decreases n_l - li,
            {
                let res = cohort_entry(
                    &index_cache.indexes[li],
                    &key.0,
                    key.1,
                    individual,
                    index_cache.fs_results.as_slice(),
                    kir_motif_interactions,
                    lilrb_scores,
                );
                let ghost before = out@;
                let ghost keys = plane + grid_row(ci as int, mi as int, li as nat);
                out.push(res);
                proof {
                    let t = (ci as int, mi as int, li as int);
                    assert(grid_row(ci as int, mi as int, (li + 1) as nat) == grid_row(ci as int, mi as int, li as nat).push(t));
                    assert(keys.push(t) =~= plane + grid_row(ci as int, mi as int, (li + 1) as nat));
                    assert forall|k: int| 0 <= k < out@.len() implies {
                        let u = (plane + grid_row(ci as int, mi as int, (li + 1) as nat))[k];
                        cohort_holds(#[trigger] out@[k], index_cache.indexes@[u.2], index_cache.keys@[u.1].0@, index_cache.keys@[u.1].1, cohort@[u.0], rs, tab, ss)
                    } by {
                        if k < before.len() {
                            assert(out@[k] == before[k]);
                            assert(keys.push(t)[k] == keys[k]);
                        } else {
                            assert(keys.push(t)[k] == t);
                        }
                    }
                }
                li = li + 1;
            }
            proof {
                assert(grid_plane(ci as int, (mi + 1) as nat, n_l as nat) == grid_plane(ci as int, mi as nat, n_l as nat) + grid_row(ci as int, mi as int, n_l as nat));
                assert(plane + grid_row(ci as int, mi as int, n_l as nat) =~= base + grid_plane(ci as int, (mi + 1) as nat, n_l as nat));
            }
            mi = mi + 1;
        }
        proof {
            assert(grid((ci + 1) as nat, n_m as nat, n_l as nat) == grid(ci as nat, n_m as nat, n_l as nat) + grid_plane(ci as int, n_m as nat, n_l as nat));
        }
        ci = ci + 1;
    }
    out
}

/// Index of the first table entry for KIR `k`.
pub open spec fn kir_entry(tab: Seq<KirMotifBinding>, k: KirView) -> Option<int>
    decreases tab.len(),
{
    if tab.len() == 0 {
        None
    } else {
        match kir_entry(tab.drop_last(), k) {
            Some(i) => Some(i),
            None => if tab.last().kir@ == k { Some(tab.len() - 1) } else { None },
        }
    }
}

proof fn lemma_kir_entry(tab: Seq<KirMotifBinding>, k: KirView)
    ensures
        match kir_entry(tab, k) {
            Some(i) => 0 <= i < tab.len() && tab[i].kir@ == k && forall|j: int| 0 <= j < i ==> tab[j].kir@ != k,
            None => forall|j: int| 0 <= j < tab.len() ==> tab[j].kir@ != k,
        },
    decreases tab.len(),
{
    if tab.len() > 0 {
        let p = tab.drop_last();
        lemma_kir_entry(p, k);
        assert forall|j: int| 0 <= j < p.len() implies #[trigger] tab[j] == p[j] by {}
    }
}

/// The motifs recognised by the carried KIRs `ks`, each KIR's motifs in table order.
pub open spec fn carried_motifs(ks: Seq<Kir>, tab: Seq<KirMotifBinding>) -> Seq<LigandMotif>
    decreases ks.len(),
{
    if ks.len() == 0 {
        Seq::empty()
    } else {
        carried_motifs(ks.drop_last(), tab) + match kir_entry(tab, ks.last()@) {
            Some(i) => tab[i].motifs@,
            None => Seq::empty(),
        }
    }
}

/// The motifs of the genotype alleles that have one, in genotype order.
pub open spec fn genotype_motifs(geno: Seq<ClassI>, rows: Seq<KirLigandInfoView>) -> Seq<LigandMotif>
    decreases geno.len(),
{
    if geno.len() == 0 {
        Seq::empty()
    } else {
        match motif_of(rows, geno.last()@) {
            Some(m) => genotype_motifs(geno.drop_last(), rows).push(m),
            None => genotype_motifs(geno.drop_last(), rows),
        }
    }
}

impl Individual {
    /// The ligand motifs that the individual's KIRs recognise.
    pub fn kir_bound_motifs(&self, motif_binding_map: &[KirMotifBinding]) -> (r: Vec<LigandMotif>)
        ensures
            r@ == carried_motifs(self.kir_genotype@, motif_binding_map@),
    {
        let ghost tab = motif_binding_map@;
        let mut out: Vec<LigandMotif> = Vec::new();
        let mut i: usize = 0;
        while i < self.kir_genotype.len()
            invariant
                i <= self.kir_genotype@.len(),
                tab == motif_binding_map@,
                out@ == carried_motifs(self.kir_genotype@.take(i as int), tab),
            decreases self.kir_genotype@.len() - i,
        {
            let k = &self.kir_genotype[i];
            assert(self.kir_genotype@.take(i + 1).drop_last() =~= self.kir_genotype@.take(i as int));
            assert(self.kir_genotype@.take(i + 1).last() == *k);
            proof { lemma_kir_entry(tab, k@); }
            let mut j: usize = 0;
            let mut found: Option<usize> = None;
            while j < motif_binding_map.len() && found.is_none()
                invariant
                    j <= tab.len(),
                    tab == motif_binding_map@,
                    found is None ==> forall|x: int| 0 <= x < j ==> tab[x].kir@ != k@,
                    found matches Some(f) ==> f < tab.len() && tab[f as int].kir@ == k@ && forall|x: int| 0 <= x < f ==> tab[x].kir@ != k@,
                decreases tab.len() - j,
            {
                if motif_binding_map[j].kir.same(k) {
                    found = Some(j);
                }
                j = j + 1;
            }
            let ghost before = out@;
            match found {
                Some(f) => {
                    proof {
                        if let Some(x) = kir_entry(tab, k@) {
                            assert(x == f);
                        }
                    }
                    let ms = &motif_binding_map[f].motifs;
                    let mut q: usize = 0;
                    while q < ms.len()
                        invariant
                            q <= ms@.len(),
                            out@ == before + ms@.take(q as int),
                        decreases ms@.len() - q,
                    {
                        out.push(ms[q]);
                        assert(ms@.take(q + 1) =~= ms@.take(q as int).push(ms@[q as int]));
                        assert(out@ =~= before + ms@.take(q + 1));
                        q = q + 1;
                    }
                    assert(ms@.take(ms@.len() as int) =~= ms@);
                },
                None => {
                    assert(kir_entry(tab, k@) is None);
                    assert(out@ =~= before + Seq::<LigandMotif>::empty());
                },
            }
            i = i + 1;
        }
        assert(self.kir_genotype@.take(self.kir_genotype@.len() as int) =~= self.kir_genotype@);
        out
    }

    /// The ligand motifs of the individual's HLA alleles, for those the index resolves.
    pub fn get_hla_motifs(&self, hla_ligand_map: &KirLigandMap) -> (r: Vec<LigandMotif>)
        requires
            hla_ligand_map.wf(),
        ensures
            r@ == genotype_motifs(self.hla_genotype@, hla_ligand_map.rows_view()),
    {
        let mut out: Vec<LigandMotif> = Vec::new();
        let mut i: usize = 0;
        while i < self.hla_genotype.len()
            invariant
                i <= self.hla_genotype@.len(),
                hla_ligand_map.wf(),
                out@ == genotype_motifs(self.hla_genotype@.take(i as int), hla_ligand_map.rows_view()),
            decreases self.hla_genotype@.len() - i,
        {
            assert(self.hla_genotype@.take(i + 1).drop_last() =~= self.hla_genotype@.take(i as int));
            assert(self.hla_genotype@.take(i + 1).last() == self.hla_genotype@[i as int]);
            match ligand_motif(hla_ligand_map, &self.hla_genotype[i]) {
                Some(m) => out.push(m),
                None => {},
            }
            i = i + 1;
        }
        assert(self.hla_genotype@.take(self.hla_genotype@.len() as int) =~= self.hla_genotype@);
        out
    }
}

/// The KIR genes a cohort file records, in column order.
pub open spec fn cohort_kir(i: int) -> KirView {
    let (d, t, p) = if i == 0 {
        (Domain::Two, Tail::Long, KirProtein::KP1)
    } else if i == 1 {
        (Domain::Two, Tail::Long, KirProtein::KP2)
    } else if i == 2 {
        (Domain::Two, Tail::Long, KirProtein::KP3)
    } else if i == 3 {
        (Domain::Two, Tail::Long, KirProtein::KP4)
    } else if i == 4 {
        (Domain::Two, Tail::Long, KirProtein::KP5)
    } else if i == 5 {
        (Domain::Two, Tail::Short, KirProtein::KP1)
    } else if i == 6 {
        (Domain::Two, Tail::Short, KirProtein::KP2)
    } else if i == 7 {
        (Domain::Two, Tail::Short, KirProtein::KP3)
    } else if i == 8 {
        (Domain::Two, Tail::Short, KirProtein::KP4)
    } else if i == 9 {
        (Domain::Two, Tail::Short, KirProtein::KP5)
    } else if i == 10 {
        (Domain::Three, Tail::Short, KirProtein::KP1)
    } else if i == 11 {
        (Domain::Three, Tail::Long, KirProtein::KP1)
    } else {
        (Domain::Three, Tail::Long, KirProtein::KP2)
    };
    KirView { ig_like_domain: d, cytoplasmic_tail: t, protein: p, allele: None }
}

fn cohort_kir_exec(i: usize) -> (r: Kir)
    requires
        i < 13,
    ensures
        r@ == cohort_kir(i as int),
{
    let (d, t, p) = if i == 0 {
        (Domain::Two, Tail::Long, KirProtein::KP1)
    } else if i == 1 {
        (Domain::Two, Tail::Long, KirProtein::KP2)
    } else if i == 2 {
        (Domain::Two, Tail::Long, KirProtein::KP3)
    } else if i == 3 {
        (Domain::Two, Tail::Long, KirProtein::KP4)
    } else if i == 4 {
        (Domain::Two, Tail::Long, KirProtein::KP5)
    } else if i == 5 {
        (Domain::Two, Tail::Short, KirProtein::KP1)
    } else if i == 6 {
        (Domain::Two, Tail::Short, KirProtein::KP2)
    } else if i == 7 {
        (Domain::Two, Tail::Short, KirProtein::KP3)
    } else if i == 8 {
        (Domain::Two, Tail::Short, KirProtein::KP4)
    } else if i == 9 {
        (Domain::Two, Tail::Short, KirProtein::KP5)
    } else if i == 10 {
        (Domain::Three, Tail::Short, KirProtein::KP1)
    } else if i == 11 {
        (Domain::Three, Tail::Long, KirProtein::KP1)
    } else {
        (Domain::Three, Tail::Long, KirProtein::KP2)
    };
    Kir { ig_like_domain: d, cytoplasmic_tail: t, protein: p, allele: None }
}

/// One row of a cohort file: an id, six HLA alleles and the presence of each recorded KIR
/// gene, in the order KIR2DL1-5, KIR2DS1-5, KIR3DS1, KIR3DL1, KIR3DL2.
#[derive(Debug)]
pub struct CohortTemp {
    pub id: String,
    pub a1: ClassI,
    pub a2: ClassI,
    pub b1: ClassI,
    pub b2: ClassI,
    pub c1: ClassI,
    pub c2: ClassI,
    pub kirs: [Option<bool>; 13],
}

/// The recorded KIRs marked present among the first `n` columns.
pub open spec fn present_kirs(flags: Seq<Option<bool>>, n: nat) -> Seq<KirView>
    decreases n,
{
    if n == 0 {
        Seq::empty()
    } else if flags[n - 1] == Some(true) {
        present_kirs(flags, (n - 1) as nat).push(cohort_kir(n - 1))
    } else {
        present_kirs(flags, (n - 1) as nat)
    }
}

impl Individual {
    /// The individual a cohort row describes: its six alleles in the order A, A, B, B, C, C,
    /// and the KIRs marked present.
    pub fn from_record(cohort: CohortTemp) -> (r: Individual)
        ensures
            r.id == cohort.id,
            r.hla_genotype@ == seq![cohort.a1, cohort.a2, cohort.b1, cohort.b2, cohort.c1, cohort.c2],
            kir_views(r.kir_genotype@) == present_kirs(cohort.kirs@, 13),
    {
        let ghost old_flags = cohort.kirs@;
        let mut kir_genotype: Vec<Kir> = Vec::new();
        let mut i: usize = 0;
        while i < 13
            invariant
                i <= 13,
                cohort.kirs@.len() == 13,
                cohort.kirs@ == old_flags,
                kir_views(kir_genotype@) == present_kirs(cohort.kirs@, i as nat),
            decreases 13 - i,
        {
            if cohort.kirs[i] == Some(true) {
                let ghost before = kir_views(kir_genotype@);
                kir_genotype.push(cohort_kir_exec(i));
                assert(kir_views(kir_genotype@) =~= before.push(cohort_kir(i as int)));
            }
            i = i + 1;
        }
        let hla_genotype = vec![cohort.a1, cohort.a2, cohort.b1, cohort.b2, cohort.c1, cohort.c2];
        Individual { id: cohort.id, hla_genotype, kir_genotype }
    }
}

/// The entries of a KIR table as values.
pub open spec fn binding_views(v: Seq<KirMotifBinding>) -> Seq<(KirView, Seq<LigandMotif>)> {
    v.map_values(|b: KirMotifBinding| (b.kir@, b.motifs@))
}

/// The motifs among `cells` that read, in order; the others are left out.
pub open spec fn parsed_motifs(cells: Seq<Seq<char>>) -> Seq<LigandMotif>
    decreases cells.len(),
{
    if cells.len() == 0 {
        Seq::empty()
    } else {
        match motif_spec(cells.last()) {
            Some(m) => parsed_motifs(cells.drop_last()).push(m),
            None => parsed_motifs(cells.drop_last()),
        }
    }
}

/// The entries after adding KIR `k` with motifs `ms`: it replaces the entry for the same KIR,
/// or comes last.
pub open spec fn kir_insert(tab: Seq<(KirView, Seq<LigandMotif>)>, k: KirView, ms: Seq<LigandMotif>) -> Seq<(KirView, Seq<LigandMotif>)> {
    if exists|i: int| 0 <= i < tab.len() && tab[i].0 == k {
        tab.update(choose|i: int| 0 <= i < tab.len() && tab[i].0 == k, (k, ms))
    } else {
        tab.push((k, ms))
    }
}

/// The motifs a table line gives: its second tab-separated cell split at `;`.
pub open spec fn line_motifs(l: Seq<char>) -> Seq<LigandMotif> {
    parsed_motifs(split_spec(split_spec(l, '\t')[1], ';'))
}

/// The table that lines `KIR<TAB>motif;motif;...` give. A line contributes when it has a
/// second cell, at least one of its motifs reads and its KIR reads; others are skipped.
pub open spec fn kir_table_spec(lines: Seq<Seq<char>>) -> Seq<(KirView, Seq<LigandMotif>)>
    decreases lines.len(),
{
    if lines.len() == 0 {
        Seq::empty()
    } else {
        kir_line_step(kir_table_spec(lines.drop_last()), lines.last())
    }
}

pub open spec fn kirs_unique(tab: Seq<(KirView, Seq<LigandMotif>)>) -> bool {
    forall|i: int, j: int| 0 <= i < tab.len() && 0 <= j < tab.len() && i != j ==> tab[i].0 != tab[j].0
}

fn strip_cr_text(s: &str) -> (r: String)
    ensures
        r@ == strip_cr(s@),
{
    let n = s.unicode_len();
    if n > 0 && s.get_char(n - 1) == '\r' {
        let r = crate::text::substring(s, 0, n - 1);
        assert(r@ =~= s@.drop_last());
        r
    } else {
        String::from_str(s)
    }
}

/// The motifs of a cell `motif;motif;...` that read.
#[verifier::rlimit(40)]
fn parse_motif_list(cell: &str) -> (r: Vec<LigandMotif>)
    ensures
        r@ == parsed_motifs(split_spec(cell@, ';')),
{
    let pieces = split_all(cell, ';');
    let ghost pv = pieces@.map_values(|x: String| x@);
    let mut motifs: Vec<LigandMotif> = Vec::new();
    let mut q: usize = 0;
    while q < pieces.len()
        invariant
            q <= pieces@.len(),
            pv == pieces@.map_values(|x: String| x@),
            motifs@ == parsed_motifs(pv.take(q as int)),
        decreases pieces@.len() - q,
    {
        assert(pv.take(q + 1).drop_last() =~= pv.take(q as int));
        assert(pv.take(q + 1).last() == pieces@[q as int]@);
        match LigandMotif::parse(pieces[q].as_str()) {
            Ok(m) => motifs.push(m),
            Err(_) => {},
        }
        q = q + 1;
    }
    assert(pv.take(pieces@.len() as int) =~= pv);
    motifs
}

/// The table after one more line.
#[verifier::opaque]
pub open spec fn kir_line_step(p: Seq<(KirView, Seq<LigandMotif>)>, line: Seq<char>) -> Seq<(KirView, Seq<LigandMotif>)> {
    let l = strip_cr(line);
    let cells = split_spec(l, '\t');
    if cells.len() >= 2 && line_motifs(l).len() > 0 && kir_readable(cells[0]) {
        kir_insert(p, kir_spec(cells[0]), line_motifs(l))
    } else {
        p
    }
}

fn add_kir_entry(out: &mut Vec<KirMotifBinding>, k: Kir, motifs: Vec<LigandMotif>)
    requires
        kirs_unique(binding_views(old(out)@)),
    ensures
        kirs_unique(binding_views(final(out)@)),
        binding_views(final(out)@) == kir_insert(binding_views(old(out)@), k@, motifs@),
{
    let ghost before = binding_views(out@);
    let mut j: usize = 0;
    let mut found: Option<usize> = None;
    while j < out.len() && found.is_none()
        invariant
            j <= out@.len(),
            before == binding_views(out@),
            found is None ==> forall|x: int| 0 <= x < j ==> out@[x].kir@ != k@,
            found matches Some(f) ==> f < out@.len() && out@[f as int].kir@ == k@,
        decreases out@.len() - j,
    {
        if out[j].kir.same(&k) {
            found = Some(j);
        }
        j = j + 1;
    }
    let ghost kv = k@;
    let ghost mv = motifs@;
    match found {
        Some(f) => {
            out.set(f, KirMotifBinding { kir: k, motifs });
            proof {
                assert(before[f as int].0 == kv);
                let c = choose|c: int| 0 <= c < before.len() && before[c].0 == kv;
                assert(c == f);
                assert(binding_views(out@) =~= kir_insert(before, kv, mv));
                let after = binding_views(out@);
                assert forall|a: int, b: int|
                    0 <= a < after.len() && 0 <= b < after.len() && a != b implies after[a].0 != after[b].0 by {
                    if a == f {
                        assert(before[b].0 != before[f as int].0);
                    } else if b == f {
                        assert(before[a].0 != before[f as int].0);
                    } else {
                        assert(before[a].0 != before[b].0);
                    }
                }
            }
        },
        None => {
            proof {
                assert forall|x: int| 0 <= x < before.len() implies before[x].0 != kv by {
                    assert(before[x].0 == out@[x].kir@);
                }
            }
            out.push(KirMotifBinding { kir: k, motifs });
            assert(binding_views(out@) =~= kir_insert(before, kv, mv));
        },
    }
}

fn add_kir_line(out: &mut Vec<KirMotifBinding>, line: &str)
    requires
        kirs_unique(binding_views(old(out)@)),
    ensures
        kirs_unique(binding_views(final(out)@)),
        binding_views(final(out)@) == kir_line_step(binding_views(old(out)@), line@),
{
    reveal(kir_line_step);
    let l = strip_cr_text(line);
    let cells = split_all(l.as_str(), '\t');
    if cells.len() >= 2 {
        assert(cells@.map_values(|x: String| x@)[1] == cells@[1]@);
        assert(cells@.map_values(|x: String| x@)[0] == cells@[0]@);
        let motifs = parse_motif_list(cells[1].as_str());
        if motifs.len() > 0 {
            match Kir::parse(cells[0].as_str()) {
                Ok(k) => {
                    add_kir_entry(out, k, motifs);
                },
                Err(_) => {},
            }
        }
    }
}

/// Reads a KIR/motif table: lines `KIR<TAB>motif;motif;...`. Motifs that do not read are
/// left out; a line without motifs, without a second cell or whose KIR does not read is
/// skipped; a later line for the same KIR replaces an earlier one.
#[verifier::rlimit(40)]
pub fn read_kir_motif_binding(text: &str) -> (r: Vec<KirMotifBinding>)
    ensures
        binding_views(r@) == kir_table_spec(split_spec(text@, '\n')),
        kirs_unique(binding_views(r@)),
{
    let lines = split_all(text, '\n');
    let ghost lv = lines@.map_values(|x: String| x@);
    let mut out: Vec<KirMotifBinding> = Vec::new();
    assert(binding_views(out@) =~= Seq::<(KirView, Seq<LigandMotif>)>::empty());
    let mut i: usize = 0;
    while i < lines.len()
        invariant
            i <= lines@.len(),
            lv == lines@.map_values(|x: String| x@),
            binding_views(out@) == kir_table_spec(lv.take(i as int)),
            kirs_unique(binding_views(out@)),
        decreases lines@.len() - i,
    {
        assert(lv.take(i + 1).drop_last() =~= lv.take(i as int));
        assert(lv.take(i + 1).last() == lines@[i as int]@);
        add_kir_line(&mut out, lines[i].as_str());
        i = i + 1;
    }
    assert(lv.take(lines@.len() as int) =~= lv);
    out
}

} // verus!
