//! Errors of nomenclature parsing and configuration.
use vstd::prelude::*;

verus! {

/// Errors met while reading HLA, KIR and ligand-motif names.
#[derive(Debug, Clone)]
pub enum NomenclatureError {
    UnknownLigandMotif(String),
    UnknownExpressionChangeTag(String),
    CouldNotParseClassI(String),
    GeneUnknown(String),
    NoAlleleGroup(String),
    EmptyAlleleString,
    UnknownKirTail(String),
    UnknownKirDomain(String),
    UnknownKirProtein(String),
    UnknownKirAllele(String),
    UnknownFrequency(String),
}

} // verus!
