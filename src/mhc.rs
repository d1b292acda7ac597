//! An HLA allele with its KIR ligand annotation, and locus reading from names.
use vstd::prelude::*;
use crate::error::NomenclatureError;
use crate::hla::{ClassI, ClassIView, ExpressionChange, Gene, class_i_compact, class_i_nomenclature};
use crate::ligand::{LigandMotif, motif_text};
use crate::text::{contains_text, contains_text_exec, opt_chars, opt_string_copy, remove_spaces, remove_spaces_exec, str_eq};

verus! {

/// An MHC class I allele with the ligand motif a table assigns it.
#[derive(Debug, Clone)]
pub struct MHCI {
    pub gene: Gene,
    pub allele_group: String,
    pub hla_protein: Option<String>,
    pub cds_synonymous: Option<String>,
    pub non_coding: Option<String>,
    pub expression_change: ExpressionChange,
    pub ligand_motif: Option<LigandMotif>,
}

impl MHCI {
    /// The allele these fields name.
    pub open spec fn allele_view(&self) -> ClassIView {
        ClassIView {
            gene: self.gene,
            allele_group: self.allele_group@,
            hla_protein: opt_chars(self.hla_protein),
            cds_syn_sub: opt_chars(self.cds_synonymous),
            non_coding: opt_chars(self.non_coding),
            expression_change: self.expression_change,
        }
    }

    /// Reads a name as `ClassI::parse` does; the motif starts unknown.
    pub fn parse(s: &str) -> (r: Result<MHCI, NomenclatureError>)
        ensures
            match ClassI::parse_result(s@) {
                Some(a) => r matches Ok(m) && m.allele_view() == a && m.ligand_motif is None,
                None => r is Err,
            },
    {
        match ClassI::parse(s) {
            Ok(a) => Ok(MHCI {
                gene: a.gene,
                allele_group: a.allele_group,
                hla_protein: a.hla_protein,
                cds_synonymous: a.cds_syn_sub,
                non_coding: a.non_coding,
                expression_change: a.expression_change,
                ligand_motif: None,
            }),
            Err(e) => Err(e),
        }
    }

    /// The same allele as a `ClassI`.
    pub fn to_class_i(&self) -> (r: ClassI)
        ensures
            r@ == self.allele_view(),
    {
        ClassI {
            gene: self.gene,
            allele_group: self.allele_group.clone(),
            hla_protein: opt_string_copy(&self.hla_protein),
            cds_syn_sub: opt_string_copy(&self.cds_synonymous),
            non_coding: opt_string_copy(&self.non_coding),
            expression_change: self.expression_change,
        }
    }

    /// The nomenclature form, such as `HLA-A*03:02:101`.
    pub fn to_nomenclature_string(&self) -> (r: String)
        ensures
            r@ == class_i_nomenclature(self.allele_view()),
    {
        self.to_class_i().to_nomenclature_string()
    }

    /// The compact form, such as `A0302101`.
    pub fn to_display(&self) -> (r: String)
        ensures
            r@ == class_i_compact(self.allele_view()),
    {
        self.to_class_i().to_display()
    }
}

impl PartialEq for MHCI {
    fn eq(&self, other: &MHCI) -> (r: bool) {
        self.to_class_i().same(&other.to_class_i()) && self.ligand_motif == other.ligand_motif
    }
}

impl vstd::std_specs::cmp::PartialEqSpecImpl for MHCI {
    open spec fn obeys_eq_spec() -> bool {
        true
    }

    open spec fn eq_spec(&self, other: &MHCI) -> bool {
        self.allele_view() == other.allele_view() && self.ligand_motif == other.ligand_motif
    }
}

impl Eq for MHCI {
}

impl std::str::FromStr for MHCI {
    type Err = NomenclatureError;

    fn from_str(s: &str) -> Result<MHCI, NomenclatureError> {
        MHCI::parse(s)
    }
}

/// How common an allele is, as the IPD database classifies it.
#[derive(Debug, Clone, Copy, PartialEq, Eq, Structural, Hash)]
pub enum IPDFrequency {
    Rare,
    Common,
    Unknown,
}

/// The frequency that a cell names: text holding `Common`, or `Rare` or `Unknown` (whitespace
/// ignored).
pub open spec fn ipd_frequency_spec(s: Seq<char>) -> Option<IPDFrequency> {
    if contains_text(s, seq!['C', 'o', 'm', 'm', 'o', 'n']) {
        Some(IPDFrequency::Common)
    } else if remove_spaces(s) == seq!['R', 'a', 'r', 'e'] {
        Some(IPDFrequency::Rare)
    } else if remove_spaces(s) == seq!['U', 'n', 'k', 'n', 'o', 'w', 'n'] {
        Some(IPDFrequency::Unknown)
    } else {
        None
    }
}

impl IPDFrequency {
    pub fn parse(s: &str) -> (r: Result<IPDFrequency, NomenclatureError>)
        ensures
            match ipd_frequency_spec(s@) {
                Some(f) => r == Ok::<IPDFrequency, NomenclatureError>(f),
                None => r matches Err(NomenclatureError::UnknownFrequency(e)) && e@ == s@,
            },
    {
        proof {
            reveal_strlit("Common");
            reveal_strlit("Rare");
            reveal_strlit("Unknown");
        }
        assert("Common"@ =~= seq!['C', 'o', 'm', 'm', 'o', 'n']);
        assert("Rare"@ =~= seq!['R', 'a', 'r', 'e']);
        assert("Unknown"@ =~= seq!['U', 'n', 'k', 'n', 'o', 'w', 'n']);
        if contains_text_exec(s, "Common") {
            return Ok(IPDFrequency::Common);
        }
        let t = remove_spaces_exec(s);
        if str_eq(t.as_str(), "Rare") {
            Ok(IPDFrequency::Rare)
        } else if str_eq(t.as_str(), "Unknown") {
            Ok(IPDFrequency::Unknown)
        } else {
            Err(NomenclatureError::UnknownFrequency(String::from_str(s)))
        }
    }
}

impl std::str::FromStr for IPDFrequency {
    type Err = NomenclatureError;

    fn from_str(s: &str) -> Result<IPDFrequency, NomenclatureError> {
        IPDFrequency::parse(s)
    }
}

/// The locus that the first two characters of a name give: each letter that names a locus
/// (`A`, `B`, `C`, or `P`, `M`, `O`, `Q`, `R` for the `D` loci) sets it, the later one winning.
pub open spec fn locus_spec(s: Seq<char>) -> Gene {
    let first = locus_step(Gene::Unknown, s[0]);
    locus_step(first, s[1])
}

pub open spec fn locus_step(g: Gene, c: char) -> Gene {
    if c == 'A' {
        Gene::A
    } else if c == 'B' {
        Gene::B
    } else if c == 'C' {
        Gene::C
    } else if c == 'P' {
        Gene::DP
    } else if c == 'M' {
        Gene::DM
    } else if c == 'O' {
        Gene::DO
    } else if c == 'Q' {
        Gene::DQ
    } else if c == 'R' {
        Gene::DR
    } else {
        g
    }
}

fn locus_step_exec(g: Gene, c: char) -> (r: Gene)
    ensures
        r == locus_step(g, c),
{
    if c == 'A' {
        Gene::A
    } else if c == 'B' {
        Gene::B
    } else if c == 'C' {
        Gene::C
    } else if c == 'P' {
        Gene::DP
    } else if c == 'M' {
        Gene::DM
    } else if c == 'O' {
        Gene::DO
    } else if c == 'Q' {
        Gene::DQ
    } else if c == 'R' {
        Gene::DR
    } else {
        g
    }
}

/// The locus named at the start of an allele name without its `HLA-` prefix.
pub fn hla_name_to_locus(hla_name: &str) -> (r: Gene)
    requires
        hla_name@.len() >= 2,
    ensures
        r == locus_spec(hla_name@),
{
    let first = locus_step_exec(Gene::Unknown, hla_name.get_char(0));
    locus_step_exec(first, hla_name.get_char(1))
}

/// An HLA allele with the ligand group and frequency that a ligand table gives it.
#[derive(Debug, Clone)]
pub struct HLA {
    pub allele: ClassI,
    pub ligand_group: Option<LigandMotif>,
    pub ipd_frequency: Option<IPDFrequency>,
}

impl HLA {
    /// Reads an allele name; the annotation starts empty.
    pub fn new(name: &str) -> (r: Result<HLA, NomenclatureError>)
        ensures
            match ClassI::parse_result(name@) {
                Some(a) => r matches Ok(h) && h.allele@ == a && h.ligand_group is None && h.ipd_frequency is None,
                None => r is Err,
            },
    {
        match ClassI::parse(name) {
            Ok(allele) => Ok(HLA { allele, ligand_group: None, ipd_frequency: None }),
            Err(e) => Err(e),
        }
    }

    /// The ligand group as text, `NA` when unknown.
    pub fn lg_as_str(&self) -> (r: &'static str)
        ensures
            r@ == match self.ligand_group {
                Some(m) => motif_text(m),
                None => seq!['N', 'A'],
            },
    {
        match self.ligand_group {
            Some(m) => m.as_str(),
            None => {
                proof { reveal_strlit("NA"); }
                assert("NA"@ =~= seq!['N', 'A']);
                "NA"
            },
        }
    }

    /// Records the ligand group and frequency.
    pub fn set_ligand_info(&mut self, motif: LigandMotif, freq: IPDFrequency)
        ensures
            final(self).allele == old(self).allele,
            final(self).ligand_group == Some(motif),
            final(self).ipd_frequency == Some(freq),
    {
        self.ligand_group = Some(motif);
        self.ipd_frequency = Some(freq);
    }
}

} // verus!
