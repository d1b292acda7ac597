use fs_tool::error::NomenclatureError;
use fs_tool::hla::{ClassI, ExpressionChange, Gene, ToDisplay};
use fs_tool::kir::{Domain, Kir, KirAllele, KirProtein, Tail};
use fs_tool::ligand::{AlleleFreq, LigandMotif};
use fs_tool::mhc::{hla_name_to_locus, IPDFrequency, HLA, MHCI};

fn allele(
    gene: Gene,
    group: &str,
    protein: Option<&str>,
    cds: Option<&str>,
    non_coding: Option<&str>,
) -> ClassI {
    ClassI::new(
        gene,
        group.to_string(),
        protein.map(|s| s.to_string()),
        cds.map(|s| s.to_string()),
        non_coding.map(|s| s.to_string()),
        ExpressionChange::Unknown,
    )
}

#[test]
fn test_kir_tail_naming_correct() {
    let correct = "L";
    assert_eq!(correct.parse::<Tail>().unwrap(), Tail::Long);
}

#[test]
#[should_panic]
fn test_kir_tail_naming_incorrect() {
    let incorrect = "Z";
    incorrect.parse::<Tail>().unwrap();
}

#[test]
fn test_parse_kir() {
    let kir = "3DL2".parse::<Kir>().unwrap();
    let expected = Kir {
        ig_like_domain: Domain::Three,
        cytoplasmic_tail: Tail::Long,
        protein: KirProtein::KP2,
        allele: None,
    };
    assert_eq!(kir, expected);
}

#[test]
fn kir_ligand_test_known_ligands() {
    let lg_group = "A03".parse::<LigandMotif>().unwrap();
    assert_eq!(LigandMotif::A3, lg_group)
}

#[test]
fn hla_test_expression_change() {
    let expression_change: ExpressionChange = "Q".parse().unwrap();

    assert_eq!(ExpressionChange::Q, expression_change);
    assert_eq!(String::from("Q"), expression_change.to_display());
}

#[test]
fn hla_test_known_ligands() {
    let ligand_motif = "A03".parse::<LigandMotif>().unwrap();
    assert_eq!(LigandMotif::A3, ligand_motif)
}

#[test]
fn test_hla_from_str() {
    let hla = "A03:02:101".parse::<ClassI>().unwrap();
    assert_eq!(allele(Gene::A, "03", Some("02"), Some("101"), None), hla);
}

#[test]
fn test_hla_into_str() {
    let hla = allele(Gene::A, "03", Some("02"), Some("101"), None);

    assert_eq!(hla.to_display(), "A0302101".to_string());

    assert_eq!(hla.to_nomenclature_string(), "HLA-A*03:02:101".to_string());
}

#[test]
fn mhc_I_test_expression_change() {
    let expression_change: ExpressionChange = "Q".parse().unwrap();

    assert_eq!(ExpressionChange::Q, expression_change);
    assert_eq!(String::from("Q"), expression_change.to_display());
}

#[test]
fn mhc_I_test_known_ligands() {
    let ligand_motif = "A03".parse::<LigandMotif>().unwrap();
    assert_eq!(LigandMotif::A3, ligand_motif)
}

fn mhc_i() -> MHCI {
    MHCI {
        gene: Gene::A,
        allele_group: "03".to_string(),
        hla_protein: Some("02".to_string()),
        cds_synonymous: Some("101".to_string()),
        non_coding: None,
        expression_change: ExpressionChange::Unknown,
        ligand_motif: None,
    }
}

#[test]
fn test_mhcI_parse() {
    let parsed = "A03:02:101".parse::<MHCI>().unwrap();
    assert_eq!(mhc_i(), parsed);
}

#[test]
fn test_mhcI_into_str() {
    let mhc_i = mhc_i();

    assert_eq!(mhc_i.to_display(), "A0302101".to_string());

    assert_eq!(mhc_i.to_nomenclature_string(), "HLA-A*03:02:101".to_string());
}

#[test]
fn expression_change_from_char() {
    let c = 'C';

    assert_eq!(ExpressionChange::from(c), ExpressionChange::C);
}

#[test]
fn gene_from_char_iter() {
    let gene: Gene = Gene::from_chars("DP");

    assert_eq!(gene, Gene::DP);
}

#[test]
fn to_hla() {
    let hla = HLA::new("HLA-C*01:101").unwrap();

    assert_eq!(hla.allele, allele(Gene::C, "01", Some("101"), None, None));
    assert_eq!(hla.ligand_group, None);
    assert_eq!(hla.ipd_frequency, None);
}

#[test]
fn to_hla_incomplete() {
    let hla = HLA::new("A01").unwrap();

    assert_eq!(hla.allele, allele(Gene::A, "01", None, None, None));
    assert_eq!(hla.ligand_group, None);
    assert_eq!(hla.ipd_frequency, None);
}

#[test]
fn test_display_hla() {
    let hla1 = HLA::new("A01").unwrap();
    let hla2 = HLA::new("A01:102").unwrap();
    println!("{}\n{}", hla1.allele.to_nomenclature_string(), hla2.allele.to_nomenclature_string());
    assert_eq!(hla2.allele.to_nomenclature_string(), "HLA-A*01:102");
}

#[test]
fn ligand_group_text_defaults_to_na() {
    let mut hla = HLA::new("A*02:01").unwrap();
    assert_eq!(hla.lg_as_str(), "NA");
    hla.set_ligand_info(LigandMotif::Bw6, IPDFrequency::Common);
    assert_eq!(hla.lg_as_str(), "Bw6");
}

#[test]
fn test_to_ipd_freq() {
    let ipd_frequency = "Common or Well Defined".parse::<IPDFrequency>().unwrap();
    assert_eq!(ipd_frequency, IPDFrequency::Common);
}

#[test]
fn test_hla_to_locus() {
    assert_eq!(hla_name_to_locus("A0301"), Gene::A);
    assert_eq!(hla_name_to_locus("0301"), Gene::Unknown);
}

#[test]
fn test_create_hla() {
    let hla = HLA::new("HLA-A*01:101").unwrap();
    assert_eq!(hla.allele, allele(Gene::A, "01", Some("101"), None, None));
}

#[test]
fn kir_with_allele_parses_fields() {
    let kir = "KIR2DL1*00101".parse::<Kir>().unwrap();
    assert_eq!(kir.ig_like_domain, Domain::Two);
    assert_eq!(kir.cytoplasmic_tail, Tail::Long);
    assert_eq!(kir.protein, KirProtein::KP1);
    let expected = KirAllele {
        series: "001".to_string(),
        cds_syn_sub: Some("01".to_string()),
        non_coding_sub: None,
    };
    assert_eq!(kir.allele, Some(expected));
    assert!(kir.is_inhibitory());
    assert!(!kir.is_activating());
}

#[test]
fn kir_errors_name_the_failing_part() {
    assert!(matches!("4DL1".parse::<Kir>(), Err(NomenclatureError::UnknownKirDomain(s)) if s == "4D"));
    assert!(matches!("2DX1".parse::<Kir>(), Err(NomenclatureError::UnknownKirTail(s)) if s == "X"));
    assert!(matches!("2DL9".parse::<Kir>(), Err(NomenclatureError::UnknownKirProtein(s)) if s == "9"));
    assert!(matches!("2DL1*0".parse::<Kir>(), Err(NomenclatureError::UnknownKirAllele(s)) if s == "0"));
}

#[test]
fn kir_tags_round_trip() {
    for t in [Tail::Long, Tail::Short, Tail::Pseudo] {
        assert_eq!(Tail::parse(t.as_str()).unwrap(), t);
    }
    for d in [Domain::Two, Domain::Three] {
        assert_eq!(Domain::parse(d.as_str()).unwrap(), d);
    }
    for p in [
        KirProtein::KP1,
        KirProtein::KP2,
        KirProtein::KP3,
        KirProtein::KP4,
        KirProtein::KP5,
        KirProtein::KP5A,
        KirProtein::KP5B,
    ] {
        assert_eq!(KirProtein::parse(p.as_str()).unwrap(), p);
    }
}

#[test]
fn motifs_round_trip_and_relevance() {
    let all = [
        LigandMotif::A11,
        LigandMotif::A3,
        LigandMotif::Bw4_80T,
        LigandMotif::Bw4_80I,
        LigandMotif::Bw6,
        LigandMotif::C1,
        LigandMotif::C2,
        LigandMotif::Unclassified,
    ];
    for m in all {
        assert_eq!(LigandMotif::parse(m.as_str()).unwrap(), m);
    }
    assert_eq!(" Bw4-80I ".parse::<LigandMotif>().unwrap(), LigandMotif::Bw4_80I);
    assert!("Bw5".parse::<LigandMotif>().is_err());
    assert!(!LigandMotif::Bw6.any_kirs_bound());
    assert!(!LigandMotif::Unclassified.any_kirs_bound());
    assert!(LigandMotif::C1.any_kirs_bound());
}

#[test]
fn expression_tags_round_trip() {
    for e in [
        ExpressionChange::N,
        ExpressionChange::L,
        ExpressionChange::S,
        ExpressionChange::C,
        ExpressionChange::A,
        ExpressionChange::Q,
        ExpressionChange::Unknown,
    ] {
        assert_eq!(ExpressionChange::parse(e.as_str()).unwrap(), e);
    }
    assert!(ExpressionChange::parse("X").is_err());
}

#[test]
fn allele_freq_from_cells() {
    assert_eq!(AlleleFreq::from_text("Common or Well Defined"), AlleleFreq::Common);
    assert_eq!(AlleleFreq::from_text(" Rare "), AlleleFreq::Rare);
    assert_eq!(AlleleFreq::from_text("often"), AlleleFreq::Unknown);
    assert_eq!(AlleleFreq::Common.as_str(), "Common or Well Defined");
}

#[test]
fn class_i_parse_errors() {
    assert!(matches!("A0301".parse::<ClassI>(), Err(NomenclatureError::CouldNotParseClassI(_))));
    assert!(matches!(":01".parse::<ClassI>(), Err(NomenclatureError::GeneUnknown(_))));
    let n = "HLA-A*01:01:01:02N".parse::<ClassI>().unwrap();
    assert_eq!(n.expression_change, ExpressionChange::N);
    assert_eq!(n.non_coding, Some("02N".to_string()));
}

#[test]
fn generalizing_drops_one_field_at_a_time() {
    let a = "A*02:07:01:01".parse::<ClassI>().unwrap();
    let once = a.generalize().unwrap();
    assert_eq!(once.to_nomenclature_string(), "HLA-A*02:07:01");
    let twice = once.generalize().unwrap();
    assert_eq!(twice.to_nomenclature_string(), "HLA-A*02:07");
    let thrice = twice.generalize().unwrap();
    assert_eq!(thrice.to_nomenclature_string(), "HLA-A*02");
    assert!(thrice.generalize().is_none());
}

#[test]
fn alleles_order_by_fields() {
    let a = "A*02:01".parse::<ClassI>().unwrap();
    let b = "A*02:07".parse::<ClassI>().unwrap();
    let c = "B*07:02".parse::<ClassI>().unwrap();
    let d = "A*02".parse::<ClassI>().unwrap();
    assert!(a.precedes(&b));
    assert!(!b.precedes(&a));
    assert!(b.precedes(&c));
    assert!(d.precedes(&a));
    assert!(!a.precedes(&a));
}
