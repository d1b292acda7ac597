//! Summaries of a binding corpus: which lengths it holds, how many peptides each allele binds
//! per protein and length, and the ligand annotation of each allele.
use vstd::prelude::*;
use crate::calc::{AlleleBinding, BindingData};
use crate::grid::{grid, grid_plane, grid_row};
use crate::hla::{ClassI, ClassIView};
use crate::ligand::{AlleleFreq, KirLigandInfo, KirLigandInfoView, KirLigandMap, LigandMotif};
use crate::peptide::BindingInfo;
use crate::measure::{insert_position, strictly_increasing};

verus! {

/// The lengths of all peptides in the corpus.
pub open spec fn corpus_lengths(bs: Seq<AlleleBinding>) -> Set<usize> {
    Set::new(|l: usize| exists|e: int, i: int| 0 <= e < bs.len() && 0 <= i < bs[e].records@.len()
        && bs[e].records@[i].peptide.seq@.len() == l)
}

impl BindingData {
    /// The distinct peptide lengths of the corpus, in increasing order.
    pub fn pep_lengths(&self) -> (r: Vec<usize>)
        ensures
            strictly_increasing(r@),
            r@.to_set() == corpus_lengths(self.allele_binding@),
    {
        let ghost bs = self.allele_binding@;
        let mut out: Vec<usize> = Vec::new();
        let mut e: usize = 0;
        while e < self.allele_binding.len()
            invariant
                e <= bs.len(),
                bs == self.allele_binding@,
                strictly_increasing(out@),
                out@.to_set() == Set::new(|l: usize| exists|x: int, i: int| 0 <= x < e && 0 <= i < bs[x].records@.len()
                    && bs[x].records@[i].peptide.seq@.len() == l),
            decreases bs.len() - e,
        {
            let recs = &self.allele_binding[e].records;
            let mut i: usize = 0;
            while i < recs.len()
                invariant
                    e < bs.len(),
                    i <= recs@.len(),
                    bs == self.allele_binding@,
                    *recs == bs[e as int].records,
                    strictly_increasing(out@),
                    out@.to_set() == Set::new(|l: usize| (exists|x: int, j: int| 0 <= x < e && 0 <= j < bs[x].records@.len()
                        && bs[x].records@[j].peptide.seq@.len() == l) || (exists|j: int| 0 <= j < i
                        && recs@[j].peptide.seq@.len() == l)),
                decreases recs@.len() - i,
            {
                let ghost before = out@.to_set();
                let len = recs[i].len();
                let _ = insert_position(&mut out, len);
                proof {
                    let s_new = Set::new(|l: usize| (exists|x: int, j: int| 0 <= x < e && 0 <= j < bs[x].records@.len()
                        && bs[x].records@[j].peptide.seq@.len() == l) || (exists|j: int| 0 <= j < i + 1
                        && recs@[j].peptide.seq@.len() == l));
                    assert forall|l: usize| out@.to_set().contains(l) <==> s_new.contains(l) by {
                        if l == len {
                            assert(recs@[i as int].peptide.seq@.len() == l);
                        }
                        if (exists|j: int| 0 <= j < i + 1 && recs@[j].peptide.seq@.len() == l) {
                            let j = choose|j: int| 0 <= j < i + 1 && recs@[j].peptide.seq@.len() == l;
                            if j < i {
                                assert(exists|j2: int| 0 <= j2 < i && recs@[j2].peptide.seq@.len() == l);
                            }
                        }
                    }
                    assert(out@.to_set() =~= s_new);
                }
                i = i + 1;
            }
            proof {
                let s_next = Set::new(|l: usize| exists|x: int, j: int| 0 <= x < e + 1 && 0 <= j < bs[x].records@.len()
                    && bs[x].records@[j].peptide.seq@.len() == l);
                assert forall|l: usize| out@.to_set().contains(l) <==> s_next.contains(l) by {
                    if (exists|j: int| 0 <= j < recs@.len() && recs@[j].peptide.seq@.len() == l) {
                        let j = choose|j: int| 0 <= j < recs@.len() && recs@[j].peptide.seq@.len() == l;
                        assert(bs[e as int].records@[j].peptide.seq@.len() == l);
                    }
                    if s_next.contains(l) {
                        let (x, j) = choose|x: int, j: int| 0 <= x < e + 1 && 0 <= j < bs[x].records@.len()
                            && bs[x].records@[j].peptide.seq@.len() == l;
                        if x == e {
                            assert(recs@[j].peptide.seq@.len() == l);
                        } else {
                            assert(exists|x2: int, j2: int| 0 <= x2 < e && 0 <= j2 < bs[x2].records@.len()
                                && bs[x2].records@[j2].peptide.seq@.len() == l);
                        }
                    }
                }
                assert(out@.to_set() =~= s_next);
            }
            e = e + 1;
        }
        assert(out@.to_set() =~= corpus_lengths(bs));
        out
    }
}

/// How many peptides an allele binds from one protein at one length.
#[derive(Debug)]
pub struct BindingMeta {
    pub allele: ClassI,
    pub protein: String,
    pub n_strong_bound: usize,
    pub n_weak_bound: usize,
    pub pep_length: usize,
}

/// The records of `recs` of length `l` from protein `p` with a rank below `t`.
pub open spec fn count_bound_in(recs: Seq<BindingInfo>, p: Seq<char>, l: usize, t: u32) -> nat
    decreases recs.len(),
{
    if recs.len() == 0 {
        0
    } else {
        let r = recs.last();
        count_bound_in(recs.drop_last(), p, l, t) + if r.peptide.seq@.len() == l && r.peptide.identity@ == p
            && r.rank < t { 1nat } else { 0nat }
    }
}

/// The records of allele `a`, none when the corpus has none for it.
pub open spec fn records_or_none(bs: Seq<AlleleBinding>, a: ClassIView) -> Seq<BindingInfo> {
    if crate::calc::has_binding(bs, a) { crate::calc::records_of(bs, a) } else { Seq::empty() }
}

fn count_records(recs: &Vec<BindingInfo>, protein: &String, length: usize, threshold: u32) -> (r: usize)
    ensures
        r == count_bound_in(recs@, protein@, length, threshold),
{
    let mut n: usize = 0;
    let mut i: usize = 0;
    while i < recs.len()
        invariant
            i <= recs@.len(),
            n == count_bound_in(recs@.take(i as int), protein@, length, threshold),
            n <= i,
        decreases recs@.len() - i,
    {
        assert(recs@.take(i + 1).drop_last() =~= recs@.take(i as int));
        assert(recs@.take(i + 1).last() == recs@[i as int]);
        let r = &recs[i];
        if r.len() == length && r.peptide.identity.eq(protein) && r.rank < threshold {
            n = n + 1;
        }
        i = i + 1;
    }
    assert(recs@.take(recs@.len() as int) =~= recs@);
    n
}

/// What the summary for allele `a`, protein `p` and length `l` holds.
pub open spec fn meta_holds(m: BindingMeta, d: BindingData, a: ClassI, p: Seq<char>, l: usize) -> bool {
    let recs = records_or_none(d.allele_binding@, a@);
    &&& m.allele@ == a@
    &&& m.protein@ == p
    &&& m.pep_length == l
    &&& m.n_strong_bound == count_bound_in(recs, p, l, d.strong_cutoff())
    &&& m.n_weak_bound == count_bound_in(recs, p, l, d.weak_cutoff())
}

/// For each allele, protein and peptide length of the corpus (alleles outermost, lengths in
/// increasing order innermost), how many of the allele's peptides from that protein and of
/// that length rank below the strong and the weak thresholds.
pub fn create_binding_metadata(binding_data: &BindingData) -> (r: Vec<BindingMeta>)
    ensures
        exists|lengths: Seq<usize>| {
            &&& strictly_increasing(lengths)
            &&& lengths.to_set() == corpus_lengths(binding_data.allele_binding@)
            &&& r@.len() == grid(binding_data.alleles@.len() as nat, binding_data.proteome@.len() as nat, lengths.len() as nat).len()
            &&& forall|k: int| 0 <= k < r@.len() ==> {
                let t = grid(binding_data.alleles@.len() as nat, binding_data.proteome@.len() as nat, lengths.len() as nat)[k];
                meta_holds(#[trigger] r@[k], *binding_data, binding_data.alleles@[t.0], binding_data.proteome@[t.1].identity@, lengths[t.2])
            }
        },
{
    let d = binding_data;
    let lengths = d.pep_lengths();
    let strong = d.strong_threshold();
    let weak = d.weak_threshold();
    let n_c = d.alleles.len();
    let n_m = d.proteome.len();
    let n_l = lengths.len();
    let mut out: Vec<BindingMeta> = Vec::new();
    let mut ci: usize = 0;
    while ci < n_c
        invariant
            n_c == d.alleles@.len(),
            n_m == d.proteome@.len(),
            n_l == lengths@.len(),
            strong == d.strong_cutoff(),
            weak == d.weak_cutoff(),
            ci <= n_c,
            out@.len() == grid(ci as nat, n_m as nat, n_l as nat).len(),
            forall|k: int| 0 <= k < out@.len() ==> {
                let t = grid(ci as nat, n_m as nat, n_l as nat)[k];
                meta_holds(#[trigger] out@[k], *d, d.alleles@[t.0], d.proteome@[t.1].identity@, lengths@[t.2])
            },
        decreases n_c - ci,
    {
        let allele = &d.alleles[ci];
        let empty: Vec<BindingInfo> = Vec::new();
        let recs = match d.get_binding_info(allele) {
            Some(v) => v,
            None => &empty,
        };
        assert(recs@ == records_or_none(d.allele_binding@, allele@));
        let ghost base = grid(ci as nat, n_m as nat, n_l as nat);
        let mut mi: usize = 0;
        while mi < n_m
            invariant
                n_c == d.alleles@.len(),
                n_m == d.proteome@.len(),
                n_l == lengths@.len(),
                strong == d.strong_cutoff(),
                weak == d.weak_cutoff(),
                ci < n_c,
                mi <= n_m,
                *allele == d.alleles@[ci as int],
                recs@ == records_or_none(d.allele_binding@, allele@),
                base == grid(ci as nat, n_m as nat, n_l as nat),
                out@.len() == (base + grid_plane(ci as int, mi as nat, n_l as nat)).len(),
                forall|k: int| 0 <= k < out@.len() ==> {
                    let t = (base + grid_plane(ci as int, mi as nat, n_l as nat))[k];
                    meta_holds(#[trigger] out@[k], *d, d.alleles@[t.0], d.proteome@[t.1].identity@, lengths@[t.2])
                },
            decreases n_m - mi,
        {
            let protein = &d.proteome[mi].identity;
            let ghost plane = base + grid_plane(ci as int, mi as nat, n_l as nat);
            let mut li: usize = 0;
            while li < n_l
                invariant
                    n_c == d.alleles@.len(),
                    n_m == d.proteome@.len(),
                    n_l == lengths@.len(),
                    strong == d.strong_cutoff(),
                    weak == d.weak_cutoff(),
                    ci < n_c,
                    mi < n_m,
                    li <= n_l,
                    *allele == d.alleles@[ci as int],
                    *protein == d.proteome@[mi as int].identity,
                    recs@ == records_or_none(d.allele_binding@, allele@),
                    plane == base + grid_plane(ci as int, mi as nat, n_l as nat),
                    out@.len() == (plane + grid_row(ci as int, mi as int, li as nat)).len(),
                    forall|k: int| 0 <= k < out@.len() ==> {
                        let t = (plane + grid_row(ci as int, mi as int, li as nat))[k];
                        meta_holds(#[trigger] out@[k], *d, d.alleles@[t.0], d.proteome@[t.1].identity@, lengths@[t.2])
                    },
                decreases n_l - li,
            {
                let length = lengths[li];
                let m = BindingMeta {
                    allele: allele.duplicate(),
                    protein: protein.clone(),
                    n_strong_bound: count_records(recs, protein, length, strong),
                    n_weak_bound: count_records(recs, protein, length, weak),
                    pep_length: length,
                };
                let ghost before = out@;
                let ghost keys = plane + grid_row(ci as int, mi as int, li as nat);
                out.push(m);
                proof {
                    let t = (ci as int, mi as int, li as int);
                    assert(grid_row(ci as int, mi as int, (li + 1) as nat) == grid_row(ci as int, mi as int, li as nat).push(t));
                    assert(keys.push(t) =~= plane + grid_row(ci as int, mi as int, (li + 1) as nat));
                    assert forall|k: int| 0 <= k < out@.len() implies {
                        let u = (plane + grid_row(ci as int, mi as int, (li + 1) as nat))[k];
                        meta_holds(#[trigger] out@[k], *d, d.alleles@[u.0], d.proteome@[u.1].identity@, lengths@[u.2])
                    } by {
                        if k < before.len() {
                            assert(out@[k] == before[k]);
                            assert(keys.push(t)[k] == keys[k]);
                        } else {
                            assert(keys.push(t)[k] == t);
                        }
                    }
                }
                li = li + 1;
            }
            proof {
                assert(grid_plane(ci as int, (mi + 1) as nat, n_l as nat) == grid_plane(ci as int, mi as nat, n_l as nat) + grid_row(ci as int, mi as int, n_l as nat));
                assert(plane + grid_row(ci as int, mi as int, n_l as nat) =~= base + grid_plane(ci as int, (mi + 1) as nat, n_l as nat));
            }
            mi = mi + 1;
        }
        proof {
            assert(grid((ci + 1) as nat, n_m as nat, n_l as nat) == grid(ci as nat, n_m as nat, n_l as nat) + grid_plane(ci as int, n_m as nat, n_l as nat));
        }
        ci = ci + 1;
    }
    out
}

/// The ligand annotation of an allele: the reference allele, motif and frequency of the row
/// that decides its motif.
#[derive(Debug)]
pub struct LigandMeta {
    pub kir_ligand_allele: ClassI,
    pub kir_ligand_motif: LigandMotif,
    pub kir_ligand_allele_freq: AlleleFreq,
}

impl LigandMeta {
    pub fn new(ligand_info: &KirLigandInfo) -> (r: LigandMeta)
        ensures
            r.kir_ligand_allele@ == ligand_info@.allele,
            r.kir_ligand_motif == ligand_info@.motif,
            r.kir_ligand_allele_freq == ligand_info@.freq,
    {
        LigandMeta {
            kir_ligand_allele: ligand_info.0.duplicate(),
            kir_ligand_motif: ligand_info.1,
            kir_ligand_allele_freq: ligand_info.2,
        }
    }
}

/// An allele of the corpus with its ligand annotation, if the index has one.
#[derive(Debug)]
pub struct AlleleMeta {
    pub allele: ClassI,
    pub ligand_meta: Option<LigandMeta>,
}

pub open spec fn allele_meta_holds(m: AlleleMeta, a: ClassIView, rows: Seq<KirLigandInfoView>) -> bool {
    &&& m.allele@ == a
    &&& match (m.ligand_meta, crate::calc::least_row(crate::ligand::lookup(rows, a))) {
        (Some(lm), Some(x)) => lm.kir_ligand_allele@ == x.allele && lm.kir_ligand_motif == x.motif
            && lm.kir_ligand_allele_freq == x.freq,
        (None, None) => true,
        _ => false,
    }
}

/// Each allele of the corpus with the ligand row that decides its motif.
pub fn create_allele_metadata(binding_data: &BindingData, kir_ligand_map: &KirLigandMap) -> (r: Vec<AlleleMeta>)
    requires
        kir_ligand_map.wf(),
    ensures
        r@.len() == binding_data.alleles@.len(),
        forall|k: int| 0 <= k < r@.len() ==> allele_meta_holds(#[trigger] r@[k], binding_data.alleles@[k]@, kir_ligand_map.rows_view()),
{
    let mut out: Vec<AlleleMeta> = Vec::new();
    let mut i: usize = 0;
    while i < binding_data.alleles.len()
        invariant
            i <= binding_data.alleles@.len(),
            kir_ligand_map.wf(),
            out@.len() == i,
            forall|k: int| 0 <= k < i ==> allele_meta_holds(#[trigger] out@[k], binding_data.alleles@[k]@, kir_ligand_map.rows_view()),
        decreases binding_data.alleles@.len() - i,
    {
        let a = &binding_data.alleles[i];
        let ligand_meta = match crate::calc::ligand_row(kir_ligand_map, a) {
            Some(row) => Some(LigandMeta::new(&row)),
            None => None,
        };
        out.push(AlleleMeta { allele: a.duplicate(), ligand_meta });
        i = i + 1;
    }
    out
}

} // verus!
