//! Functional similarity of HLA class I alleles: bound-motif extraction, pairwise
//! fraction-shared scores and KIR/LILRB-adjusted cohort aggregation.
#![allow(non_camel_case_types)]

pub mod text;
pub mod error;
pub mod kir;
pub mod hla;
pub mod mhc;
pub mod ligand;
pub mod peptide;
pub mod proteome;
pub mod netmhcpan;
pub mod meta;
pub mod measure;
pub mod grid;
pub mod calc;
pub mod cohort;
