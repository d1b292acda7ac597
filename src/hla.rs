//! HLA class I allele names and their generalisation.
use vstd::prelude::*;
use crate::error::NomenclatureError;
use crate::text::{
    field, opt_chars, opt_str_eq, remove_char, remove_char_exec, split_once, substring, trim_start,
    trim_start_exec,
};

verus! {

/// The fields of an HLA name, from least to most specific.
#[derive(Debug, Clone, Copy, PartialEq, Eq, Structural)]
pub enum HlaFields {
    AlleleGroup,
    Protein,
    CodingSynSub,
    NonCoding,
}

/// HLA gene (locus).
#[derive(Debug, Clone, Copy, PartialEq, Eq, Structural, Hash)]
pub enum Gene {
    A,
    B,
    C,
    DP,
    DM,
    DO,
    DQ,
    DR,
    Unknown,
}

/// Suffix that marks a change of expression.
#[derive(Debug, Clone, Copy, PartialEq, Eq, Structural, Hash)]
pub enum ExpressionChange {
    N,
    L,
    S,
    C,
    A,
    Q,
    Unknown,
}

/// The gene that a sequence of characters starts with.
pub open spec fn gene_spec(s: Seq<char>) -> Gene {
    if s.len() == 0 {
        Gene::Unknown
    } else if s[0] == 'A' {
        Gene::A
    } else if s[0] == 'B' {
        Gene::B
    } else if s[0] == 'C' {
        Gene::C
    } else if s[0] == 'D' && s.len() > 1 {
        if s[1] == 'P' {
            Gene::DP
        } else if s[1] == 'M' {
            Gene::DM
        } else if s[1] == 'O' {
            Gene::DO
        } else if s[1] == 'Q' {
            Gene::DQ
        } else if s[1] == 'R' {
            Gene::DR
        } else {
            Gene::Unknown
        }
    } else {
        Gene::Unknown
    }
}

/// How a gene is written; an unknown gene is written `Unknown`.
pub open spec fn gene_text(g: Gene) -> Seq<char> {
    match g {
        Gene::A => seq!['A'],
        Gene::B => seq!['B'],
        Gene::C => seq!['C'],
        Gene::DP => seq!['D', 'P'],
        Gene::DM => seq!['D', 'M'],
        Gene::DO => seq!['D', 'O'],
        Gene::DQ => seq!['D', 'Q'],
        Gene::DR => seq!['D', 'R'],
        Gene::Unknown => seq!['U', 'n', 'k', 'n', 'o', 'w', 'n'],
    }
}

pub open spec fn expression_spec(c: char) -> ExpressionChange {
    if c == 'N' {
        ExpressionChange::N
    } else if c == 'L' {
        ExpressionChange::L
    } else if c == 'S' {
        ExpressionChange::S
    } else if c == 'C' {
        ExpressionChange::C
    } else if c == 'A' {
        ExpressionChange::A
    } else if c == 'Q' {
        ExpressionChange::Q
    } else {
        ExpressionChange::Unknown
    }
}

/// How an expression change is written; an unknown one is written as nothing.
pub open spec fn expression_text(e: ExpressionChange) -> Seq<char> {
    match e {
        ExpressionChange::N => seq!['N'],
        ExpressionChange::L => seq!['L'],
        ExpressionChange::S => seq!['S'],
        ExpressionChange::C => seq!['C'],
        ExpressionChange::A => seq!['A'],
        ExpressionChange::Q => seq!['Q'],
        ExpressionChange::Unknown => Seq::empty(),
    }
}

/// The expression change that a tag names: one of the letters, or nothing.
pub open spec fn expression_tag_spec(s: Seq<char>) -> Option<ExpressionChange> {
    if s.len() == 0 {
        Some(ExpressionChange::Unknown)
    } else if s.len() == 1 && expression_spec(s[0]) != ExpressionChange::Unknown {
        Some(expression_spec(s[0]))
    } else {
        None
    }
}

/// Each expression change reads back from its own tag.
pub proof fn lemma_expression_round_trip(e: ExpressionChange)
    ensures
        expression_tag_spec(expression_text(e)) == Some(e),
{
    let t = expression_text(e);
    if t.len() == 1 {
        assert(t[0] == t[0]);
    }
}

impl Gene {
    /// Reads the gene at the start of a name: `A`, `B`, `C`, or `D` followed by `P`, `M`, `O`,
    /// `Q` or `R`.
    pub fn from_chars(s: &str) -> (r: Gene)
        ensures
            r == gene_spec(s@),
    {
        let n = s.unicode_len();
        if n == 0 {
            return Gene::Unknown;
        }
        let c = s.get_char(0);
        if c == 'A' {
            Gene::A
        } else if c == 'B' {
            Gene::B
        } else if c == 'C' {
            Gene::C
        } else if c == 'D' && n > 1 {
            let d = s.get_char(1);
            if d == 'P' {
                Gene::DP
            } else if d == 'M' {
                Gene::DM
            } else if d == 'O' {
                Gene::DO
            } else if d == 'Q' {
                Gene::DQ
            } else if d == 'R' {
                Gene::DR
            } else {
                Gene::Unknown
            }
        } else {
            Gene::Unknown
        }
    }

    pub fn is_unknown(&self) -> (r: bool)
        ensures
            r == (*self == Gene::Unknown),
    {
        *self == Gene::Unknown
    }

    /// How the gene is written.
    pub fn as_str(&self) -> (r: &'static str)
        ensures
            r@ == gene_text(*self),
    {
        match self {
            Gene::A => { proof { reveal_strlit("A"); } "A" },
            Gene::B => { proof { reveal_strlit("B"); } "B" },
            Gene::C => { proof { reveal_strlit("C"); } "C" },
            Gene::DP => { proof { reveal_strlit("DP"); } "DP" },
            Gene::DM => { proof { reveal_strlit("DM"); } "DM" },
            Gene::DO => { proof { reveal_strlit("DO"); } "DO" },
            Gene::DQ => { proof { reveal_strlit("DQ"); } "DQ" },
            Gene::DR => { proof { reveal_strlit("DR"); } "DR" },
            Gene::Unknown => { proof { reveal_strlit("Unknown"); } "Unknown" },
        }
    }
}

impl ExpressionChange {
    /// The change that a suffix letter marks; any other character marks none.
    pub fn from_char(c: char) -> (r: ExpressionChange)
        ensures
            r == expression_spec(c),
    {
        if c == 'N' {
            ExpressionChange::N
        } else if c == 'L' {
            ExpressionChange::L
        } else if c == 'S' {
            ExpressionChange::S
        } else if c == 'C' {
            ExpressionChange::C
        } else if c == 'A' {
            ExpressionChange::A
        } else if c == 'Q' {
            ExpressionChange::Q
        } else {
            ExpressionChange::Unknown
        }
    }

    /// Reads a tag: one of the suffix letters, or the empty tag.
    pub fn parse(s: &str) -> (r: Result<ExpressionChange, NomenclatureError>)
        ensures
            match expression_tag_spec(s@) {
                Some(e) => r == Ok::<ExpressionChange, NomenclatureError>(e),
                None => r matches Err(NomenclatureError::UnknownExpressionChangeTag(t)) && t@ == s@,
            },
    {
        let n = s.unicode_len();
        if n == 0 {
            return Ok(ExpressionChange::Unknown);
        }
        if n == 1 {
            let e = ExpressionChange::from_char(s.get_char(0));
            if e != ExpressionChange::Unknown {
                return Ok(e);
            }
        }
        Err(NomenclatureError::UnknownExpressionChangeTag(String::from_str(s)))
    }

    /// How the change is written.
    pub fn as_str(&self) -> (r: &'static str)
        ensures
            r@ == expression_text(*self),
    {
        match self {
            ExpressionChange::N => { proof { reveal_strlit("N"); } "N" },
            ExpressionChange::L => { proof { reveal_strlit("L"); } "L" },
            ExpressionChange::S => { proof { reveal_strlit("S"); } "S" },
            ExpressionChange::C => { proof { reveal_strlit("C"); } "C" },
            ExpressionChange::A => { proof { reveal_strlit("A"); } "A" },
            ExpressionChange::Q => { proof { reveal_strlit("Q"); } "Q" },
            ExpressionChange::Unknown => { proof { reveal_strlit(""); } "" },
        }
    }
}

impl From<char> for ExpressionChange {
    fn from(c: char) -> (r: ExpressionChange) {
        ExpressionChange::from_char(c)
    }
}

impl vstd::std_specs::convert::FromSpecImpl<char> for ExpressionChange {
    open spec fn obeys_from_spec() -> bool {
        true
    }

    open spec fn from_spec(c: char) -> ExpressionChange {
        expression_spec(c)
    }
}

impl std::str::FromStr for ExpressionChange {
    type Err = NomenclatureError;

    fn from_str(s: &str) -> Result<ExpressionChange, NomenclatureError> {
        ExpressionChange::parse(s)
    }
}

/// Types that can be written out as text.
pub trait ToDisplay {
    fn to_display(&self) -> String;
}

impl ToDisplay for Gene {
    fn to_display(&self) -> String {
        String::from_str(self.as_str())
    }
}

impl ToDisplay for ExpressionChange {
    fn to_display(&self) -> String {
        String::from_str(self.as_str())
    }
}

/// An HLA class I allele: gene, allele group and up to three more specific fields.
#[derive(Debug, Clone)]
pub struct ClassI {
    pub gene: Gene,
    pub allele_group: String,
    pub hla_protein: Option<String>,
    pub cds_syn_sub: Option<String>,
    pub non_coding: Option<String>,
    pub expression_change: ExpressionChange,
}

pub struct ClassIView {
    pub gene: Gene,
    pub allele_group: Seq<char>,
    pub hla_protein: Option<Seq<char>>,
    pub cds_syn_sub: Option<Seq<char>>,
    pub non_coding: Option<Seq<char>>,
    pub expression_change: ExpressionChange,
}

impl View for ClassI {
    type V = ClassIView;

    open spec fn view(&self) -> ClassIView {
        ClassIView {
            gene: self.gene,
            allele_group: self.allele_group@,
            hla_protein: opt_chars(self.hla_protein),
            cds_syn_sub: opt_chars(self.cds_syn_sub),
            non_coding: opt_chars(self.non_coding),
            expression_change: self.expression_change,
        }
    }
}

pub open spec fn present(o: Option<Seq<char>>) -> nat {
    if o is Some { 1 } else { 0 }
}

/// Number of nomenclature fields an allele names: the allele group and each present field.
pub open spec fn field_count(a: ClassIView) -> nat {
    1 + present(a.hla_protein) + present(a.cds_syn_sub) + present(a.non_coding)
}

/// The allele one step less specific: its last present field dropped, with no expression
/// suffix; none when only the allele group is left.
pub open spec fn generalize_spec(a: ClassIView) -> Option<ClassIView> {
    if a.non_coding is Some {
        Some(ClassIView { non_coding: None, expression_change: ExpressionChange::Unknown, ..a })
    } else if a.cds_syn_sub is Some {
        Some(ClassIView { cds_syn_sub: None, expression_change: ExpressionChange::Unknown, ..a })
    } else if a.hla_protein is Some {
        Some(ClassIView { hla_protein: None, expression_change: ExpressionChange::Unknown, ..a })
    } else {
        None
    }
}

/// Each generalisation drops exactly one field, and there is one exactly when more than the
/// allele group is named.
pub proof fn lemma_generalize_shortens(a: ClassIView)
    ensures
        generalize_spec(a) is None <==> field_count(a) == 1,
        generalize_spec(a) matches Some(g) ==> field_count(g) + 1 == field_count(a),
{
}

/// Generalising twice from an allele yields one with two fields fewer, or none when fewer
/// than three fields are named: the search for related alleles always ends.
pub proof fn lemma_generalize_twice(a: ClassIView)
    ensures
        match generalize_spec(a) {
            Some(g) => match generalize_spec(g) {
                Some(h) => field_count(h) + 2 == field_count(a) && field_count(h) < field_count(g),
                None => field_count(a) == 2,
            },
            None => field_count(a) == 1,
        },
        field_count(a) >= 3 <==> (generalize_spec(a) matches Some(g) && generalize_spec(g) is Some),
{
    lemma_generalize_shortens(a);
    if let Some(g) = generalize_spec(a) {
        lemma_generalize_shortens(g);
    }
}

/// Position of a gene in declaration order.
pub open spec fn gene_rank_spec(g: Gene) -> u8 {
    match g {
        Gene::A => 0,
        Gene::B => 1,
        Gene::C => 2,
        Gene::DP => 3,
        Gene::DM => 4,
        Gene::DO => 5,
        Gene::DQ => 6,
        Gene::DR => 7,
        Gene::Unknown => 8,
    }
}

pub fn gene_rank(g: Gene) -> (r: u8)
    ensures
        r == gene_rank_spec(g),
{
    match g {
        Gene::A => 0,
        Gene::B => 1,
        Gene::C => 2,
        Gene::DP => 3,
        Gene::DM => 4,
        Gene::DO => 5,
        Gene::DQ => 6,
        Gene::DR => 7,
        Gene::Unknown => 8,
    }
}

/// Position of an expression change in declaration order.
pub open spec fn expression_rank_spec(e: ExpressionChange) -> u8 {
    match e {
        ExpressionChange::N => 0,
        ExpressionChange::L => 1,
        ExpressionChange::S => 2,
        ExpressionChange::C => 3,
        ExpressionChange::A => 4,
        ExpressionChange::Q => 5,
        ExpressionChange::Unknown => 6,
    }
}

pub fn expression_rank(e: ExpressionChange) -> (r: u8)
    ensures
        r == expression_rank_spec(e),
{
    match e {
        ExpressionChange::N => 0,
        ExpressionChange::L => 1,
        ExpressionChange::S => 2,
        ExpressionChange::C => 3,
        ExpressionChange::A => 4,
        ExpressionChange::Q => 5,
        ExpressionChange::Unknown => 6,
    }
}

/// Order of alleles: by gene, then field by field (an absent field first), then expression change.
pub open spec fn class_i_lt(a: ClassIView, b: ClassIView) -> bool {
    if a.gene != b.gene {
        gene_rank_spec(a.gene) < gene_rank_spec(b.gene)
    } else if a.allele_group != b.allele_group {
        crate::text::chars_lt(a.allele_group, b.allele_group)
    } else if a.hla_protein != b.hla_protein {
        crate::text::opt_chars_lt(a.hla_protein, b.hla_protein)
    } else if a.cds_syn_sub != b.cds_syn_sub {
        crate::text::opt_chars_lt(a.cds_syn_sub, b.cds_syn_sub)
    } else if a.non_coding != b.non_coding {
        crate::text::opt_chars_lt(a.non_coding, b.non_coding)
    } else {
        expression_rank_spec(a.expression_change) < expression_rank_spec(b.expression_change)
    }
}

/// The text of an allele name once its `HLA-` prefixes and every `*` are removed.
pub open spec fn class_i_text(s: Seq<char>) -> Seq<char> {
    remove_char(trim_start(s, seq!['H', 'L', 'A', '-']), '*')
}

/// The part before the first `:`.
pub open spec fn class_i_head(s: Seq<char>) -> Seq<char> {
    field(class_i_text(s), ':', 0)->Some_0
}

/// A name longer than three characters needs its fields separated by colons.
pub open spec fn class_i_lacks_colons(s: Seq<char>) -> bool {
    crate::text::first_index_of(class_i_text(s), ':') is None && class_i_text(s).len() > 3
}

/// The allele that a readable name denotes.
pub open spec fn class_i_spec(s: Seq<char>) -> ClassIView {
    let h = class_i_text(s);
    ClassIView {
        gene: gene_spec(class_i_head(s).take(1)),
        allele_group: class_i_head(s).skip(1),
        hla_protein: field(h, ':', 1),
        cds_syn_sub: field(h, ':', 2),
        non_coding: field(h, ':', 3),
        expression_change: if h.len() == 0 { ExpressionChange::Unknown } else { expression_spec(h.last()) },
    }
}

pub open spec fn opt_field_text(o: Option<Seq<char>>) -> Seq<char> {
    match o {
        Some(f) => f,
        None => Seq::empty(),
    }
}

pub open spec fn opt_colon_field_text(o: Option<Seq<char>>) -> Seq<char> {
    match o {
        Some(f) => seq![':'] + f,
        None => Seq::empty(),
    }
}

/// The compact form of an allele, such as `A0302101`.
pub open spec fn class_i_compact(a: ClassIView) -> Seq<char> {
    gene_text(a.gene) + a.allele_group + opt_field_text(a.hla_protein) + opt_field_text(a.cds_syn_sub)
        + opt_field_text(a.non_coding) + expression_text(a.expression_change)
}

/// The nomenclature form of an allele, such as `HLA-A*03:02:101`.
pub open spec fn class_i_nomenclature(a: ClassIView) -> Seq<char> {
    seq!['H', 'L', 'A', '-'] + gene_text(a.gene) + seq!['*'] + a.allele_group + opt_colon_field_text(
        a.hla_protein,
    ) + opt_colon_field_text(a.cds_syn_sub) + opt_colon_field_text(a.non_coding) + expression_text(
        a.expression_change,
    )
}

fn append_opt(out: &mut String, o: &Option<String>, colon: bool)
    ensures
        final(out)@ == old(out)@ + (if colon { opt_colon_field_text(opt_chars(*o)) } else {
            opt_field_text(opt_chars(*o))
        }),
{
    match o {
        Some(f) => {
            if colon {
                proof { reveal_strlit(":"); }
                assert(":"@ =~= seq![':']);
                out.append(":");
                out.append(f.as_str());
                assert(final(out)@ =~= old(out)@ + (seq![':'] + f@));
            } else {
                out.append(f.as_str());
            }
        },
        None => {
            assert(old(out)@ + Seq::<char>::empty() =~= old(out)@);
        },
    }
}

impl ClassI {
    pub fn new(
        gene: Gene,
        allele_group: String,
        hla_protein: Option<String>,
        cds_syn_sub: Option<String>,
        non_coding: Option<String>,
        expression_change: ExpressionChange,
    ) -> (r: ClassI)
        ensures
            r.gene == gene,
            r.allele_group == allele_group,
            r.hla_protein == hla_protein,
            r.cds_syn_sub == cds_syn_sub,
            r.non_coding == non_coding,
            r.expression_change == expression_change,
    {
        ClassI { gene, allele_group, hla_protein, cds_syn_sub, non_coding, expression_change }
    }

    /// Reads a name such as `HLA-A*03:02`, `A03:02:101` or `B07`.
    pub fn parse(s: &str) -> (r: Result<ClassI, NomenclatureError>)
        ensures
            class_i_lacks_colons(s@) ==> (r matches Err(NomenclatureError::CouldNotParseClassI(e))
                && e@ == s@),
            !class_i_lacks_colons(s@) && class_i_head(s@).len() == 0 ==> (r matches Err(
                NomenclatureError::GeneUnknown(e),
            ) && e@ == s@),
            !class_i_lacks_colons(s@) && class_i_head(s@).len() > 0 ==> (r matches Ok(a) && a@
                == class_i_spec(s@)),
    {
        proof { reveal_strlit("HLA-"); }
        assert("HLA-"@ =~= seq!['H', 'L', 'A', '-']);
        let trimmed = trim_start_exec(s, "HLA-");
        let h = remove_char_exec(trimmed.as_str(), '*');
        let hs = h.as_str();
        let n = hs.unicode_len();
        if crate::text::find_char(hs, ':').is_none() && n > 3 {
            return Err(NomenclatureError::CouldNotParseClassI(String::from_str(s)));
        }
        let (head, rest1) = split_once(hs, ':');
        let hn = head.unicode_len();
        if hn == 0 {
            return Err(NomenclatureError::GeneUnknown(String::from_str(s)));
        }
        let gene = Gene::from_chars(substring(head.as_str(), 0, 1).as_str());
        assert(head@.subrange(0, 1) =~= head@.take(1));
        let allele_group = substring(head.as_str(), 1, hn);
        assert(allele_group@ =~= head@.skip(1));
        let expression_change = if n == 0 {
            ExpressionChange::Unknown
        } else {
            ExpressionChange::from_char(hs.get_char(n - 1))
        };
        let mut hla_protein: Option<String> = None;
        let mut cds_syn_sub: Option<String> = None;
        let mut non_coding: Option<String> = None;
        match rest1 {
            Some(r1) => {
                let (f1, rest2) = split_once(r1.as_str(), ':');
                assert(field(h@, ':', 1) == field(r1@, ':', 0));
                hla_protein = Some(f1);
                match rest2 {
                    Some(r2) => {
                        let (f2, rest3) = split_once(r2.as_str(), ':');
                        assert(field(h@, ':', 2) == field(r1@, ':', 1));
                        assert(field(r1@, ':', 1) == field(r2@, ':', 0));
                        cds_syn_sub = Some(f2);
                        match rest3 {
                            Some(r3) => {
                                let (f3, _rest4) = split_once(r3.as_str(), ':');
                                assert(field(h@, ':', 3) == field(r1@, ':', 2));
                                assert(field(r1@, ':', 2) == field(r2@, ':', 1));
                                assert(field(r2@, ':', 1) == field(r3@, ':', 0));
                                non_coding = Some(f3);
                            },
                            None => {
                                assert(field(h@, ':', 3) == field(r1@, ':', 2));
                                assert(field(r1@, ':', 2) == field(r2@, ':', 1));
                            },
                        }
                    },
                    None => {
                        assert(field(h@, ':', 2) == field(r1@, ':', 1));
                        assert(field(h@, ':', 3) == field(r1@, ':', 2));
                    },
                }
            },
            None => {
                assert(field(h@, ':', 1) is None);
                assert(field(h@, ':', 2) is None);
                assert(field(h@, ':', 3) is None);
            },
        }
        Ok(ClassI { gene, allele_group, hla_protein, cds_syn_sub, non_coding, expression_change })
    }

    /// A copy with the same fields.
    pub fn duplicate(&self) -> (r: ClassI)
        ensures
            r == *self,
            r@ == self@,
    {
        ClassI {
            gene: self.gene,
            allele_group: self.allele_group.clone(),
            hla_protein: crate::text::opt_string_copy(&self.hla_protein),
            cds_syn_sub: crate::text::opt_string_copy(&self.cds_syn_sub),
            non_coding: crate::text::opt_string_copy(&self.non_coding),
            expression_change: self.expression_change,
        }
    }

    /// Whether this allele comes strictly before `other`: by gene, then field by field, an
    /// absent field first.
    pub fn precedes(&self, other: &ClassI) -> (r: bool)
        ensures
            r == class_i_lt(self@, other@),
    {
        let a = gene_rank(self.gene);
        let b = gene_rank(other.gene);
        if a != b {
            return a < b;
        }
        if !self.allele_group.eq(&other.allele_group) {
            return crate::text::chars_lt_exec(self.allele_group.as_str(), other.allele_group.as_str());
        }
        if !opt_str_eq(&self.hla_protein, &other.hla_protein) {
            return crate::text::opt_chars_lt_exec(&self.hla_protein, &other.hla_protein);
        }
        if !opt_str_eq(&self.cds_syn_sub, &other.cds_syn_sub) {
            return crate::text::opt_chars_lt_exec(&self.cds_syn_sub, &other.cds_syn_sub);
        }
        if !opt_str_eq(&self.non_coding, &other.non_coding) {
            return crate::text::opt_chars_lt_exec(&self.non_coding, &other.non_coding);
        }
        expression_rank(self.expression_change) < expression_rank(other.expression_change)
    }

    /// The allele that reading `s` gives, or none when reading fails.
    pub open spec fn parse_result(s: Seq<char>) -> Option<ClassIView> {
        if !class_i_lacks_colons(s) && class_i_head(s).len() > 0 {
            Some(class_i_spec(s))
        } else {
            None
        }
    }

    /// The allele group: the first field of the name.
    pub fn allele_group(&self) -> (r: &String)
        ensures
            r@ == self.allele_group@,
    {
        &self.allele_group
    }

    /// Whether both name the same allele.
    pub fn same(&self, other: &ClassI) -> (r: bool)
        ensures
            r == (self@ == other@),
    {
        self.gene == other.gene && self.allele_group.eq(&other.allele_group) && opt_str_eq(
            &self.hla_protein,
            &other.hla_protein,
        ) && opt_str_eq(&self.cds_syn_sub, &other.cds_syn_sub) && opt_str_eq(
            &self.non_coding,
            &other.non_coding,
        ) && self.expression_change == other.expression_change
    }

    /// Whether both alleles share their gene and allele group.
    pub fn same_group(&self, other: &ClassI) -> (r: bool)
        ensures
            r == (self.gene == other.gene && self@.allele_group == other@.allele_group),
    {
        self.gene == other.gene && self.allele_group.eq(&other.allele_group)
    }

    /// The allele one step less specific, or none when only the allele group is named.
    pub fn generalize(&self) -> (r: Option<ClassI>)
        ensures
            match r {
                Some(g) => generalize_spec(self@) == Some(g@),
                None => generalize_spec(self@) is None,
            },
    {
        if self.non_coding.is_some() {
            Some(ClassI {
                gene: self.gene,
                allele_group: self.allele_group.clone(),
                hla_protein: self.hla_protein.clone(),
                cds_syn_sub: self.cds_syn_sub.clone(),
                non_coding: None,
                expression_change: ExpressionChange::Unknown,
            })
        } else if self.cds_syn_sub.is_some() {
            Some(ClassI {
                gene: self.gene,
                allele_group: self.allele_group.clone(),
                hla_protein: self.hla_protein.clone(),
                cds_syn_sub: None,
                non_coding: None,
                expression_change: ExpressionChange::Unknown,
            })
        } else if self.hla_protein.is_some() {
            Some(ClassI {
                gene: self.gene,
                allele_group: self.allele_group.clone(),
                hla_protein: None,
                cds_syn_sub: None,
                non_coding: None,
                expression_change: ExpressionChange::Unknown,
            })
        } else {
            None
        }
    }

    /// The compact form, such as `A0302101`.
    pub fn to_display(&self) -> (r: String)
        ensures
            r@ == class_i_compact(self@),
    {
        let mut out = String::from_str(self.gene.as_str());
        out.append(self.allele_group.as_str());
        append_opt(&mut out, &self.hla_protein, false);
        append_opt(&mut out, &self.cds_syn_sub, false);
        append_opt(&mut out, &self.non_coding, false);
        out.append(self.expression_change.as_str());
        out
    }

    /// The nomenclature form, such as `HLA-A*03:02:101`.
    pub fn to_nomenclature_string(&self) -> (r: String)
        ensures
            r@ == class_i_nomenclature(self@),
    {
        proof {
            reveal_strlit("HLA-");
            reveal_strlit("*");
        }
        assert("HLA-"@ =~= seq!['H', 'L', 'A', '-']);
        assert("*"@ =~= seq!['*']);
        let mut out = String::from_str("HLA-");
        out.append(self.gene.as_str());
        out.append("*");
        out.append(self.allele_group.as_str());
        append_opt(&mut out, &self.hla_protein, true);
        append_opt(&mut out, &self.cds_syn_sub, true);
        append_opt(&mut out, &self.non_coding, true);
        out.append(self.expression_change.as_str());
        out
    }
}

impl PartialEq for ClassI {
    fn eq(&self, other: &ClassI) -> (r: bool) {
        self.same(other)
    }
}

impl vstd::std_specs::cmp::PartialEqSpecImpl for ClassI {
    open spec fn obeys_eq_spec() -> bool {
        true
    }

    open spec fn eq_spec(&self, other: &ClassI) -> bool {
        self@ == other@
    }
}

impl Eq for ClassI {
}

impl std::str::FromStr for ClassI {
    type Err = NomenclatureError;

    fn from_str(s: &str) -> Result<ClassI, NomenclatureError> {
        ClassI::parse(s)
    }
}

} // verus!
