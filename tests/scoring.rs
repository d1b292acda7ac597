use fs_tool::calc::{
    calculate_fs, create_calc_combs, extract_bound_motifs, AlleleBinding, BindingData, CalcFsResult,
    CalculatorComb, Ratio,
};
use fs_tool::cohort::{
    calculate_index_cohort_fs, cohort_entry, get_bound_kirs, get_matching, kir_adjusted, read_kir_motif_binding, CohortTemp,
    IndexCache, IndexEntry, Individual, KirMotifBinding, LilrbScore,
};
use fs_tool::hla::ClassI;
use fs_tool::kir::Kir;
use fs_tool::ligand::{AlleleFreq, IoError, KirLigandInfo, KirLigandMap, LigandMotif};
use fs_tool::measure::Measure;
use fs_tool::peptide::{BindingInfo, Peptide};

fn hla(s: &str) -> ClassI {
    s.parse::<ClassI>().unwrap()
}

fn kir(s: &str) -> Kir {
    s.parse::<Kir>().unwrap()
}

fn record(seq: &str, rank: u32) -> BindingInfo {
    BindingInfo { peptide: Peptide::new(0, seq.to_string(), "prot".to_string(), seq.to_string(), &[0; 5]), rank }
}

fn ratio(n: u64, d: u64) -> Ratio {
    Ratio { numerator: n, denominator: d }
}

#[test]
fn fraction_shared_is_asymmetric() {
    let x = hla("A*01:01");
    let y = hla("A*02:01");
    let xs = vec![record("AHQM", 10), record("BNQK", 10), record("CDEF", 10)];
    let ys = vec![record("AHQM", 10), record("BNQK", 10), record("ZZZZ", 10)];
    let comb = CalculatorComb::new(&x, &y, &xs, &ys);
    let (fx, fy) = comb.calculate_shared_motifs(&[0, 1, 2, 3], 5000, true, 4);
    assert_eq!(fx, ratio(2, 3));
    assert_eq!(fy, ratio(2, 3));

    let ys2 = vec![record("AHQM", 10), record("BNQK", 10)];
    let comb2 = CalculatorComb::new(&x, &y, &xs, &ys2);
    let (fx2, fy2) = comb2.calculate_shared_motifs(&[0, 1, 2, 3], 5000, true, 4);
    assert_eq!(fx2, ratio(2, 3));
    assert_eq!(fy2, ratio(2, 2));
}

#[test]
fn unique_counts_each_motif_once() {
    let x = hla("A*01:01");
    let y = hla("A*02:01");
    let xs = vec![record("AHQM", 10), record("AHQM", 10), record("CDEF", 10), record("CDEF", 9000)];
    let ys = vec![record("AHQM", 10)];
    let comb = CalculatorComb::new(&x, &y, &xs, &ys);
    assert_eq!(comb.count_bound(5000, true, 4, None), (2, 1));
    assert_eq!(comb.count_bound(5000, false, 4, None), (3, 1));
    assert_eq!(comb.calculate_shared_motifs(&[0, 1, 2, 3], 5000, false, 4).0, ratio(2, 3));
    assert_eq!(comb.count_bound(5000, false, 5, None), (0, 0));
    let (a, _) = comb.calculate_shared_motifs(&[0], 5000, false, 5);
    assert_eq!(a.denominator, 0);
}

#[test]
fn extraction_filters_and_projects() {
    let recs = vec![record("ABCDEFGH", 100), record("ABCDEFGHI", 100), record("HGFEDCBA", 6000), record("QRSTUVWX", 4999)];
    let masked = extract_bound_motifs(&recs, 5000, 8, Some(&[1, 3, 20]));
    assert_eq!(masked, vec!["BD".to_string(), "RT".to_string()]);
    let whole = extract_bound_motifs(&recs, 5000, 8, None);
    assert_eq!(whole, vec!["ABCDEFGH".to_string(), "QRSTUVWX".to_string()]);
    let again = extract_bound_motifs(&recs, 5000, 8, Some(&[1, 3, 20]));
    assert_eq!(masked, again);
    let mut joined = extract_bound_motifs(&recs[..2], 5000, 8, Some(&[1, 3, 20]));
    joined.extend(extract_bound_motifs(&recs[2..], 5000, 8, Some(&[1, 3, 20])));
    assert_eq!(joined, masked);
}

#[test]
fn pairs_skip_alleles_without_binding_data() {
    let a = hla("A*01:01");
    let b = hla("B*07:02");
    let z = hla("C*07:01");
    let data = BindingData {
        alleles: vec![a.duplicate(), b.duplicate(), z.duplicate()],
        allele_binding: vec![
            AlleleBinding { allele: a.duplicate(), records: vec![record("AAAA", 1)] },
            AlleleBinding { allele: b.duplicate(), records: vec![record("BBBB", 1)] },
        ],
        proteome: vec![],
        strong_threshold: None,
        weak_threshold: None,
    };
    let combs = create_calc_combs(&data);
    assert_eq!(combs.len(), 2);
    assert_eq!(*combs[0].alleles.0, a);
    assert_eq!(*combs[0].alleles.1, b);
    assert_eq!(*combs[1].alleles.0, b);
    assert_eq!(*combs[1].alleles.1, a);
    for c in &combs {
        assert_ne!(*c.alleles.0, z);
        assert_ne!(*c.alleles.1, z);
    }
    assert!(data.get_binding_info(&z).is_none());
}

#[test]
fn kir_adjustment_four_cases() {
    let base = ratio(3, 4);
    let k2dl1 = kir("KIR2DL1");
    let k2ds1 = kir("KIR2DS1");
    let none: Vec<Kir> = vec![];
    let one = ratio(1, 1);
    let zero = ratio(0, 1);
    assert_eq!(kir_adjusted(base, Some(LigandMotif::Bw6), Some(LigandMotif::Unclassified), &none, &none, &none), one);
    assert_eq!(kir_adjusted(base, Some(LigandMotif::C2), Some(LigandMotif::Bw6), &none, &none, &none), zero);
    assert_eq!(kir_adjusted(base, Some(LigandMotif::Bw6), Some(LigandMotif::C2), &none, &none, &none), zero);
    let gene_kirs = vec![k2dl1.clone()];
    let index_kirs = vec![k2dl1.clone()];
    let carried = vec![k2dl1.clone()];
    assert_eq!(kir_adjusted(base, Some(LigandMotif::C2), Some(LigandMotif::C2), &gene_kirs, &index_kirs, &carried), base);
    let carried_other = vec![k2ds1.clone()];
    assert_eq!(kir_adjusted(base, Some(LigandMotif::C2), Some(LigandMotif::C2), &gene_kirs, &index_kirs, &carried_other), zero);
    assert_eq!(kir_adjusted(base, Some(LigandMotif::C2), Some(LigandMotif::C2), &gene_kirs, &none, &carried_other), base);
    assert_eq!(kir_adjusted(base, None, Some(LigandMotif::C2), &gene_kirs, &index_kirs, &carried), zero);
    assert_eq!(kir_adjusted(base, Some(LigandMotif::C2), None, &gene_kirs, &index_kirs, &carried), zero);
}

#[test]
fn lilrb_group_fallback() {
    let scores = vec![LilrbScore {
        first_allele: hla("A*02:01"),
        second_allele: hla("B*07:02"),
        lilrb1_score: 500_000,
        lilrb2_score: 250_000,
    }];
    let found = get_matching(&scores, &hla("A*02:05"));
    assert_eq!(found.len(), 1);
    assert_eq!(found[0].first_allele, hla("A*02:01"));
    assert!(get_matching(&scores, &hla("A*03:01")).is_empty());
    let both = vec![
        LilrbScore { first_allele: hla("A*02:01"), second_allele: hla("B*07:02"), lilrb1_score: 1, lilrb2_score: 1 },
        LilrbScore { first_allele: hla("A*02:05"), second_allele: hla("B*08:01"), lilrb1_score: 2, lilrb2_score: 2 },
    ];
    let exact = get_matching(&both, &hla("A*02:05"));
    assert_eq!(exact.len(), 1);
    assert_eq!(exact[0].lilrb1_score, 2);
}

fn fs_result(index: &ClassI, other: &ClassI, fs: Ratio, motif: Option<LigandMotif>) -> CalcFsResult {
    CalcFsResult {
        measure: "all".to_string(),
        index: index.duplicate(),
        non_index: other.duplicate(),
        index_ligand_motif: Some(LigandMotif::Bw6),
        non_index_ligand_motif: motif,
        fraction_shared: fs,
        peptide_length: 9,
        index_bound: fs.denominator as usize,
        non_index_bound: 1,
    }
}

fn individual(id: &str, alleles: [&str; 6], kirs: Vec<Kir>) -> Individual {
    Individual { id: id.to_string(), hla_genotype: alleles.iter().map(|a| hla(a)).collect(), kir_genotype: kirs }
}

#[test]
fn cohort_takes_the_best_allele() {
    let index = hla("A*01:01");
    let g1 = hla("A*02:01");
    let g2 = hla("B*07:02");
    let results = vec![
        fs_result(&index, &g1, ratio(3, 10), Some(LigandMotif::Bw6)),
        fs_result(&index, &g2, ratio(7, 10), Some(LigandMotif::Bw6)),
    ];
    let entry = IndexEntry { allele: index.duplicate(), motif: Some(LigandMotif::Bw6), act_kirs: vec![], inh_kirs: vec![] };
    let person = individual("donor1", ["A*01:01", "A*02:01", "B*07:02", "B*44:02", "C*07:01", "C*05:01"], vec![]);
    let r = cohort_entry(&entry, &"all".to_string(), 9, &person, &results, &[], &[]);
    assert_eq!(r.fs, Some(ratio(7, 10)));
    assert_eq!(r.alleles_considered, 2);
    assert_eq!(r.ikir_fs, Some(ratio(1, 1)));
    assert_eq!(r.akir_fs, Some(ratio(1, 1)));
    assert_eq!(r.lilrb1, None);
    assert_eq!(r.id, "donor1");
}

#[test]
fn cohort_without_results_considers_nothing() {
    let index = hla("A*01:01");
    let entry = IndexEntry { allele: index.duplicate(), motif: None, act_kirs: vec![], inh_kirs: vec![] };
    let person = individual("donor2", ["A*02:01", "A*02:01", "B*07:02", "B*07:02", "C*07:01", "C*07:01"], vec![]);
    let scores = vec![LilrbScore { first_allele: hla("A*01:01"), second_allele: hla("B*07:02"), lilrb1_score: 40, lilrb2_score: 10 }];
    let r = cohort_entry(&entry, &"all".to_string(), 9, &person, &[], &[], &scores);
    assert_eq!(r.fs, None);
    assert_eq!(r.alleles_considered, 0);
    assert_eq!(r.lilrb1, Some(ratio(40, 1)));
    assert_eq!(r.lilrb2, Some(ratio(10, 1)));
}

fn ligand_table() -> KirLigandMap {
    let text = "# allele\tmotif\tfrequency\nA*02:07:01:01\tBw6\tCommon or Well Defined\nB*07:02:01\tBw6\tRare\nC*02:02:02:01\tC2\r\nC*01:02:01\tC1\tCommon\n\n";
    KirLigandMap::init(text).unwrap()
}

#[test]
fn ligand_table_reads_and_resolves() {
    let map = ligand_table();
    assert_eq!(map.len(), 4);
    let exact = map.get_allele_info(&hla("B*07:02:01"));
    assert_eq!(exact.len(), 1);
    assert_eq!(*exact[0].freq(), AlleleFreq::Rare);
    let twice = map.get_allele_info(&hla("A*02:07"));
    assert_eq!(twice.len(), 1);
    assert_eq!(*twice[0].allele(), hla("A*02:07:01:01"));
    assert_eq!(*twice[0].motif(), LigandMotif::Bw6);
    assert!(map.get_allele_info(&hla("A*02:15")).is_empty());
    assert!(map.get_allele_info(&hla("A*02")).is_empty());
    assert_eq!(map.get_allele_info(&hla("A*02:07")), map.get_allele_info(&hla("A*02:07")));
    let c2 = map.get_allele_info(&hla("C*02:02"));
    assert_eq!(*c2[0].motif(), LigandMotif::C2);
}

#[test]
fn ligand_table_errors_name_the_line() {
    assert_eq!(KirLigandMap::init("A*01:01\tBw6\nnot an allele\tC1\n").err(), Some(IoError::CouldNotReadAllele(2)));
    assert_eq!(KirLigandMap::init("# c\nA*01:01\tZZ\n").err(), Some(IoError::CouldNotReadMotif(2)));
    assert_eq!(KirLigandMap::init("A*01:01\n").err(), Some(IoError::CouldNotReadMotif(1)));
}

#[test]
fn ligand_map_insert_replaces_same_allele() {
    let mut map = KirLigandMap::new();
    map.insert_info(KirLigandInfo::new(hla("A*01:01"), LigandMotif::Bw6, AlleleFreq::Common));
    map.insert_info(KirLigandInfo::new(hla("A*01:01"), LigandMotif::A3, AlleleFreq::Rare));
    assert_eq!(map.len(), 1);
    assert_eq!(*map.get_allele_info(&hla("A*01:01"))[0].motif(), LigandMotif::A3);
}

#[test]
fn fs_and_cohort_end_to_end() {
    let a = hla("A*02:07");
    let c = hla("C*02:02");
    let data = BindingData {
        alleles: vec![a.duplicate(), c.duplicate()],
        allele_binding: vec![
            AlleleBinding { allele: a.duplicate(), records: vec![record("AAAAAAAAA", 10), record("CCCCCCCCC", 10)] },
            AlleleBinding { allele: c.duplicate(), records: vec![record("AAAAAAAAA", 10)] },
        ],
        proteome: vec![],
        strong_threshold: None,
        weak_threshold: None,
    };
    let combs = create_calc_combs(&data);
    let measures = vec!["all:0,1,2,3,4,5,6,7,8".parse::<Measure>().unwrap()];
    let map = ligand_table();
    let results = calculate_fs(&combs, &measures, &map, &[9], 5000, true);
    assert_eq!(results.len(), 2);
    assert_eq!(results[0].fraction_shared, ratio(1, 2));
    assert_eq!(results[0].index_ligand_motif, Some(LigandMotif::Bw6));
    assert_eq!(results[0].non_index_ligand_motif, Some(LigandMotif::C2));
    assert_eq!(results[1].fraction_shared, ratio(1, 1));
    assert_eq!(results[0].index_bound, 2);

    let interactions = vec![KirMotifBinding { kir: kir("KIR2DL1"), motifs: vec![LigandMotif::C2] }];
    let bound = get_bound_kirs(&interactions, LigandMotif::C2);
    assert_eq!(bound, vec![kir("KIR2DL1")]);
    let cache = IndexCache::new(&[c.duplicate()], results, &interactions, &measures, &[9]);
    assert_eq!(cache.indexes.len(), 1);
    assert_eq!(cache.indexes[0].inh_kirs, vec![kir("KIR2DL1")]);
    assert!(cache.indexes[0].act_kirs.is_empty());
    assert_eq!(cache.keys, vec![("all".to_string(), 9)]);

    let person = individual("p", ["A*02:07", "A*02:07", "B*07:02", "B*07:02", "C*02:02", "C*01:02"], vec![kir("KIR2DL1")]);
    let out = calculate_index_cohort_fs(&cache, &[person], &interactions, &[]);
    assert_eq!(out.len(), 1);
    assert_eq!(out[0].fs, Some(ratio(1, 1)));
    assert_eq!(out[0].alleles_considered, 2);
    assert_eq!(out[0].ikir_fs, Some(ratio(0, 1)));
    assert_eq!(out[0].akir_fs, Some(ratio(0, 1)));
}

#[test]
fn individual_from_cohort_row() {
    let mut kirs = [None; 13];
    kirs[0] = Some(true);
    kirs[1] = Some(false);
    kirs[12] = Some(true);
    let row = CohortTemp {
        id: "x".to_string(),
        a1: hla("A*01:01"),
        a2: hla("A*02:01"),
        b1: hla("B*07:02"),
        b2: hla("B*08:01"),
        c1: hla("C*07:01"),
        c2: hla("C*07:02"),
        kirs,
    };
    let ind = Individual::from_record(row);
    assert_eq!(ind.hla_genotype.len(), 6);
    assert_eq!(ind.kir_genotype, vec![kir("KIR2DL1"), kir("KIR3DL2")]);
    let table = vec![KirMotifBinding { kir: kir("KIR2DL1"), motifs: vec![LigandMotif::C2] }];
    assert_eq!(ind.kir_bound_motifs(&table), vec![LigandMotif::C2]);
    let map = ligand_table();
    assert_eq!(ind.get_hla_motifs(&map), vec![LigandMotif::Bw6]);
}

#[test]
fn kir_motif_table_reads() {
    let text = "KIR2DL1\tC2\nKIR2DL2\tC1;C2\r\nKIR3DL1\tBw4-80I;Bw4-80T\nKIR2DS4\tnone\n# KIR\tmotifs\nKIR2DL1\tC2;A3\nlonely\n";
    let table = read_kir_motif_binding(text);
    assert_eq!(table.len(), 3);
    assert_eq!(table[0].kir, kir("KIR2DL1"));
    assert_eq!(table[0].motifs, vec![LigandMotif::C2, LigandMotif::A3]);
    assert_eq!(table[1].motifs, vec![LigandMotif::C1, LigandMotif::C2]);
    assert_eq!(table[2].kir, kir("KIR3DL1"));
}

#[test]
fn default_measures_follow_the_given_ones() {
    let given = vec!["X:1".parse::<Measure>().unwrap()];
    let all = fs_tool::measure::get_measures(Some(given), false);
    let names: Vec<String> = all.iter().map(|m| m.name.clone()).collect();
    assert_eq!(names, vec!["X".to_string(), "TCR".to_string(), "KIR".to_string()]);
    assert_eq!(all[2].motif_pos, vec![2, 7, 8, 9]);
    assert!(fs_tool::measure::get_measures(None, true).is_empty());
}

#[test]
fn cohort_uses_the_last_stored_result_for_a_key() {
    let index = hla("A*01:01");
    let g = hla("A*02:01");
    let results = vec![
        fs_result(&index, &g, ratio(1, 10), Some(LigandMotif::Bw6)),
        fs_result(&index, &g, ratio(9, 10), Some(LigandMotif::Bw6)),
    ];
    let entry = IndexEntry { allele: index.duplicate(), motif: Some(LigandMotif::Bw6), act_kirs: vec![], inh_kirs: vec![] };
    let person = individual("donor3", ["A*01:01", "A*02:01", "B*07:02", "B*44:02", "C*07:01", "C*05:01"], vec![]);
    let r = cohort_entry(&entry, &"all".to_string(), 9, &person, &results, &[], &[]);
    assert_eq!(r.fs, Some(ratio(9, 10)));
    assert_eq!(r.alleles_considered, 1);

    let other = hla("B*08:01");
    let cache = IndexCache::new(
        &[index.duplicate()],
        vec![fs_result(&other, &g, ratio(1, 2), None), fs_result(&index, &g, ratio(1, 3), None)],
        &[],
        &["all:0".parse::<Measure>().unwrap()],
        &[9],
    );
    assert_eq!(cache.fs_results.len(), 1);
    assert_eq!(cache.fs_results[0].index, index);
}

#[test]
fn unique_fractions_share_a_numerator() {
    let x = hla("A*01:01");
    let y = hla("A*02:01");
    let xs = vec![record("AHQM", 10), record("BNQK", 10), record("CDEF", 10), record("CDEF", 10)];
    let ys = vec![record("AHQM", 10), record("BNQK", 10)];
    let comb = CalculatorComb::new(&x, &y, &xs, &ys);
    let (fx, fy) = comb.calculate_shared_motifs(&[0, 1, 2, 3], 5000, true, 4);
    assert_eq!(fx.numerator, fy.numerator);
    assert_eq!((fx.denominator, fy.denominator), (3, 2));
}

#[test]
fn undefined_fraction_still_counts_and_is_adjusted() {
    let index = hla("A*01:01");
    let g1 = hla("A*02:01");
    let results = vec![fs_result(&index, &g1, ratio(0, 0), Some(LigandMotif::Unclassified))];
    let entry = IndexEntry { allele: index.duplicate(), motif: Some(LigandMotif::Bw6), act_kirs: vec![], inh_kirs: vec![] };
    let person = individual("donor4", ["A*01:01", "A*02:01", "B*07:02", "B*44:02", "C*07:01", "C*05:01"], vec![]);
    let r = cohort_entry(&entry, &"all".to_string(), 9, &person, &results, &[], &[]);
    assert_eq!(r.alleles_considered, 1);
    assert_eq!(r.fs, Some(ratio(0, 0)));
    assert_eq!(r.ikir_fs, Some(ratio(1, 1)));
    assert_eq!(r.akir_fs, Some(ratio(1, 1)));

    let g2 = hla("B*07:02");
    let mixed = vec![
        fs_result(&index, &g1, ratio(0, 0), Some(LigandMotif::C1)),
        fs_result(&index, &g2, ratio(1, 4), Some(LigandMotif::Bw6)),
    ];
    let r2 = cohort_entry(&entry, &"all".to_string(), 9, &person, &mixed, &[], &[]);
    assert_eq!(r2.alleles_considered, 2);
    assert_eq!(r2.fs, Some(ratio(1, 4)));
    assert_eq!(r2.ikir_fs, Some(ratio(1, 1)));
}
