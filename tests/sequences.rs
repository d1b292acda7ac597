use fs_tool::hla::ClassI;
use fs_tool::measure::{ConfigError, Measure};
use fs_tool::netmhcpan::{parse_decimal_e4, read_netmhcpan, NetMhcError};
use fs_tool::meta::{create_allele_metadata, create_binding_metadata};
use fs_tool::ligand::{KirLigandMap, LigandMotif};
use fs_tool::peptide::{Peptide, Protein, SequenceError};
use fs_tool::proteome::{edit_distance, pep_to_core, PeptideDifference};

#[test]
fn test_peptide_core() {
    let identity = String::from("Gag_180_209");
    let seq1 = String::from("GHQAAMQMLK");
    let seq2 = String::from("HQAAMQMLK");
    let mut protein = Protein::new(&identity);
    protein.add_sequence_at_pos(0, &seq1).unwrap();
    protein.add_sequence_at_pos(1, &seq2).unwrap();

    let alignments_mode_none = [0; 5];
    let alignments_mode_one = [0, 1, 1, 0, 0];
    let pep_identical = Peptide::new(1, seq2.clone(), identity.clone(), seq1.clone(), &alignments_mode_none);
    let pep_diff = Peptide::new(0, seq1.clone(), identity.clone(), seq2.clone(), &alignments_mode_one);

    let expected_core_diff = String::from("GQAAMQMLK");

    assert_eq!(pep_identical.core_seq(), pep_identical.sequence().to_string());
    assert_ne!(pep_diff.core_seq(), pep_diff.sequence().to_string());
    assert_eq!(pep_diff.core_seq(), expected_core_diff);
}

#[test]
fn test_add_seq_to_protein() {
    let mut protein = Protein::new("Gag");
    let expected = Protein { identity: "Gag".to_string(), sequence: "ABCDEF".to_string() };
    protein.add_sequence_at_pos(0, "ABCDEF").unwrap();
    assert_eq!(protein, expected);

    protein.add_sequence_at_pos(2, "DEFG").unwrap();
    let expected = Protein { identity: "Gag".to_string(), sequence: "ABDEFG".to_string() };
    assert_eq!(protein, expected);
}

#[test]
fn protein_rejects_a_position_past_its_end() {
    let mut protein = Protein::new("Gag");
    protein.add_sequence_at_pos(0, "ABC").unwrap();
    assert_eq!(protein.add_sequence_at_pos(5, "X"), Err(SequenceError::ProteinTooShort(5, 3)));
    assert_eq!(protein.seq(), "ABC");
    protein.add_sequence_at_pos(1, "Z").unwrap();
    assert_eq!(protein.seq(), "AZC");
    assert_eq!(protein.sequence(1, 3).unwrap(), "ZC");
    assert_eq!(protein.sequence(1, 4), Err(SequenceError::ProteinTooShort(4, 3)));
}

#[test]
fn test_get_motif() {
    let input_measure = "CD8:2,3,4,5,6,9";
    let measure = input_measure.parse::<Measure>().unwrap();

    let input_peptide = "ABCDEFGHIJ";
    let expected = String::from("BCDEFI");

    let motif = measure.get_motif(&input_peptide);

    assert_eq!(motif.into_string(), expected);
}

#[test]
fn test_get_motif_peptide_too_short() {
    let input_measure = "CD8:2,3,4,5,6,9";
    let measure = input_measure.parse::<Measure>().unwrap();

    let input_peptide = "ABCDEFGH";
    let expected = String::from("BCDEF");

    let motif = measure.get_motif(&input_peptide);

    assert_eq!(motif.into_string(), expected);
}

#[test]
fn test_create_measure() {
    let input_measure = "CD8:2,3,4,5,6,9";
    let measure = input_measure.parse::<Measure>().unwrap();

    assert_eq!(measure.name, "CD8");
    assert_eq!(measure.motif_pos, vec![2, 3, 4, 5, 6, 9]);
}

#[test]
fn malformed_measures_are_errors() {
    assert!(matches!("CD8".parse::<Measure>(), Err(ConfigError::IncorrectMeasure(_))));
    assert!(matches!("CD8:1:2".parse::<Measure>(), Err(ConfigError::IncorrectMeasure(_))));
    assert!(matches!("CD8:1,x".parse::<Measure>(), Err(ConfigError::NotANumber(_))));
    assert!(matches!("CD8:".parse::<Measure>(), Err(ConfigError::NotANumber(_))));
    assert!(matches!("CD8:99999999999999999999999".parse::<Measure>(), Err(ConfigError::NotANumber(_))));
    assert!(matches!("CD8:2,5,2".parse::<Measure>(), Err(ConfigError::RepeatedPosition(2))));
}

#[test]
fn measure_positions_come_out_sorted() {
    let measure = "KIR:9,2,8,7".parse::<Measure>().unwrap();
    assert_eq!(measure.motif_pos, vec![2, 7, 8, 9]);
    let built = Measure::new("TCR".to_string(), "6,2,3").unwrap();
    assert_eq!(built.motif_pos, vec![2, 3, 6]);
}

#[test]
fn calculate_edits() {
    let peptide = "TVGGHQAAMQM";
    let core = "TVHQAAMQM";

    let result = edit_distance(peptide, core);

    let expected = vec![
        PeptideDifference::Match(2),
        PeptideDifference::Deletion(2),
        PeptideDifference::Match(7),
    ];

    assert_eq!(result, expected);
}

#[test]
fn get_core() {
    let peptide = "TVGGHQAAMQM";
    let core = "TVHQAAMQM";

    let result = edit_distance(peptide, core);

    assert_eq!(pep_to_core(&result, peptide), core);
}

#[test]
fn insertions_become_gaps() {
    let steps = vec![PeptideDifference::Match(2), PeptideDifference::Insertion(2), PeptideDifference::Match(1)];
    assert_eq!(pep_to_core(&steps, "ABC"), "AB--C");
}

#[test]
fn test_netmhcpan_line() {
    let example_wo_ba = vec![
        "3",
        "HLA-A*03:01",
        "QDLNTMLNTVG",
        "QDLNTNTVG",
        "0",
        "5",
        "2",
        "0",
        "0",
        "QDLNTMLNTVG",
        "Gag_180_209",
        "0.0000040",
        "96.0000",
    ];
    assert_eq!(example_wo_ba.len(), 13);
}

#[test]
fn check_netmhcpan_error() {}

#[test]
fn sequence_motif_counts_from_zero_and_skips_past_the_end() {
    let p = Peptide::new(0, "ABCDEFGH".to_string(), "P".to_string(), "ABCDEFGH".to_string(), &[0; 5]);
    assert_eq!(p.sequence_motif(&[0, 2, 9]), "AC");
    assert_eq!(p.len(), 8);
}

#[test]
fn netmhcpan_report_reads() {
    let report = "# NetMHCpan version 4.0\n\
HLA-A03:01 : Distance to training data  0.000 (using nearest neighbor HLA-A03:01)\n\
# Rank Threshold for Strong binding peptides   0.500\n\
# Rank Threshold for Weak binding peptides   2.000\n\
-----\n\
  Pos          HLA         Peptide       Core Of Gp Gl Ip Il        Icore        Identity     Score Aff(nM)   %Rank  BindLevel\n\
    1  HLA-A*03:01     TPQDLNTMLNT  TPLNTMLNT  0  2  2  0  0  TPQDLNTMLNT     Gag_180_209 0.0190370 40692.6 77.6355\n\
    2  HLA-A*03:01     PQDLNTMLNTV  PQDLNTMLV  0  8  2  0  0  PQDLNTMLNTV     Gag_180_209 0.0012 40000.0 1.2000 <= WB\n";
    let data = read_netmhcpan(report).unwrap();
    let a0301 = "A*03:01".parse::<ClassI>().unwrap();
    assert_eq!(data.alleles, vec![a0301.duplicate()]);
    assert_eq!(data.strong_threshold(), 5000);
    assert_eq!(data.weak_threshold(), 20000);
    assert_eq!(data.proteins(), vec!["Gag_180_209".to_string()]);
    assert_eq!(data.proteome[0].seq(), "TPQDLNTMLNTV");
    let recs = data.get_binding_info(&a0301).unwrap();
    assert_eq!(recs.len(), 2);
    assert_eq!(recs[0].rank, 776355);
    assert_eq!(recs[1].rank, 12000);
    assert_eq!(recs[1].peptide.pos, 1);
    assert_eq!(recs[0].peptide.gap_region().clone(), 2..4);

    let broken = "    1  HLA-A*03:01     TPQDLNTMLNT  TPLNTMLNT  0  2\n";
    assert_eq!(read_netmhcpan(broken).err(), Some(NetMhcError::ParseError(1)));
    let gap = "    5  HLA-A*03:01     TPQDLNTMLNT  TPLNTMLNT  0  2  2  0  0  TPQDLNTMLNT     Gag 0.01 40692.6 77.6355\n";
    assert_eq!(read_netmhcpan(gap).err(), Some(NetMhcError::ProteinTooShort(1)));
}

#[test]
fn decimals_in_ten_thousandths() {
    assert_eq!(parse_decimal_e4("0.5"), Some(5000));
    assert_eq!(parse_decimal_e4("2"), Some(20000));
    assert_eq!(parse_decimal_e4("77.63559"), Some(776355));
    assert_eq!(parse_decimal_e4(".5"), None);
    assert_eq!(parse_decimal_e4("1.2.3"), None);
    assert_eq!(parse_decimal_e4("500000"), None);
}

#[test]
fn binding_metadata_counts_by_protein_and_length() {
    let report = "HLA-A03:01 : Distance to training data  0.000 (using nearest neighbor HLA-A03:01)\n\
    1  HLA-A*03:01     TPQDLNTMLNT  TPLNTMLNT  0  2  2  0  0  TPQDLNTMLNT     Gag_180_209 0.0190370 40692.6 0.3000\n\
    2  HLA-A*03:01     PQDLNTMLNTV  PQDLNTMLV  0  8  2  0  0  PQDLNTMLNTV     Gag_180_209 0.0012 40000.0 1.2000 <= WB\n\
    1  HLA-A*03:01     MGARASVL  MGARASVL  0  0  0  0  0  MGARASVL     Gag_1_8 0.0012 40000.0 5.0\n";
    let data = read_netmhcpan(report).unwrap();
    assert_eq!(data.pep_lengths(), vec![8, 11]);
    let meta = create_binding_metadata(&data);
    assert_eq!(meta.len(), 4);
    assert_eq!(meta[0].protein, "Gag_180_209");
    assert_eq!(meta[0].pep_length, 8);
    assert_eq!((meta[0].n_strong_bound, meta[0].n_weak_bound), (0, 0));
    assert_eq!(meta[1].pep_length, 11);
    assert_eq!((meta[1].n_strong_bound, meta[1].n_weak_bound), (1, 2));
    assert_eq!(meta[2].protein, "Gag_1_8");
    assert_eq!((meta[2].n_strong_bound, meta[2].n_weak_bound), (0, 0));

    let map = KirLigandMap::init("A*03:01:01:01\tA3\tCommon\n").unwrap();
    let alleles = create_allele_metadata(&data, &map);
    assert_eq!(alleles.len(), 1);
    let lm = alleles[0].ligand_meta.as_ref().unwrap();
    assert_eq!(lm.kir_ligand_motif, LigandMotif::A3);
    assert_eq!(lm.kir_ligand_allele.to_nomenclature_string(), "HLA-A*03:01:01:01");
}
