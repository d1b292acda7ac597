//! Killer-cell immunoglobulin-like receptor (KIR) names.
use vstd::prelude::*;
use crate::error::NomenclatureError;
use crate::text::{
    after_n, chars_at, chars_at_exec, first_index_of, first_n, find_char, opt_chars, opt_str_eq,
    substring, trim_start, trim_start_exec,
};

verus! {

/// Cytoplasmic tail: long tails are inhibitory, short ones activating.
#[derive(Debug, Clone, Copy, PartialEq, Eq, Structural, Hash)]
pub enum Tail {
    Long,
    Short,
    Pseudo,
}

/// Number of immunoglobulin-like domains.
#[derive(Debug, Clone, Copy, PartialEq, Eq, Structural, Hash)]
pub enum Domain {
    Two,
    Three,
}

/// Protein number within a domain/tail family.
#[derive(Debug, Clone, Copy, PartialEq, Eq, Structural, Hash)]
pub enum KirProtein {
    KP1,
    KP2,
    KP3,
    KP4,
    KP5,
    KP5A,
    KP5B,
}

pub open spec fn tail_spec(s: Seq<char>) -> Option<Tail> {
    if s == seq!['L'] {
        Some(Tail::Long)
    } else if s == seq!['S'] {
        Some(Tail::Short)
    } else if s == seq!['P'] {
        Some(Tail::Pseudo)
    } else {
        None
    }
}

pub open spec fn tail_text(t: Tail) -> Seq<char> {
    match t {
        Tail::Long => seq!['L'],
        Tail::Short => seq!['S'],
        Tail::Pseudo => seq!['P'],
    }
}

pub open spec fn domain_spec(s: Seq<char>) -> Option<Domain> {
    if s == seq!['2', 'D'] {
        Some(Domain::Two)
    } else if s == seq!['3', 'D'] {
        Some(Domain::Three)
    } else {
        None
    }
}

pub open spec fn domain_text(d: Domain) -> Seq<char> {
    match d {
        Domain::Two => seq!['2', 'D'],
        Domain::Three => seq!['3', 'D'],
    }
}

pub open spec fn protein_spec(s: Seq<char>) -> Option<KirProtein> {
    if s == seq!['1'] {
        Some(KirProtein::KP1)
    } else if s == seq!['2'] {
        Some(KirProtein::KP2)
    } else if s == seq!['3'] {
        Some(KirProtein::KP3)
    } else if s == seq!['4'] {
        Some(KirProtein::KP4)
    } else if s == seq!['5'] {
        Some(KirProtein::KP5)
    } else if s == seq!['5', 'A'] {
        Some(KirProtein::KP5A)
    } else if s == seq!['5', 'B'] {
        Some(KirProtein::KP5B)
    } else {
        None
    }
}

pub open spec fn protein_text(p: KirProtein) -> Seq<char> {
    match p {
        KirProtein::KP1 => seq!['1'],
        KirProtein::KP2 => seq!['2'],
        KirProtein::KP3 => seq!['3'],
        KirProtein::KP4 => seq!['4'],
        KirProtein::KP5 => seq!['5'],
        KirProtein::KP5A => seq!['5', 'A'],
        KirProtein::KP5B => seq!['5', 'B'],
    }
}

/// Every tail reads back from its own text.
pub proof fn lemma_tail_round_trip(t: Tail)
    ensures
        tail_spec(tail_text(t)) == Some(t),
{
    assert(seq!['L'] != seq!['S']) by { assert(seq!['L'][0] != seq!['S'][0]); }
    assert(seq!['L'] != seq!['P']) by { assert(seq!['L'][0] != seq!['P'][0]); }
    assert(seq!['S'] != seq!['P']) by { assert(seq!['S'][0] != seq!['P'][0]); }
}

/// Every domain reads back from its own text.
pub proof fn lemma_domain_round_trip(d: Domain)
    ensures
        domain_spec(domain_text(d)) == Some(d),
{
    assert(seq!['2', 'D'] != seq!['3', 'D']) by { assert(seq!['2', 'D'][0] != seq!['3', 'D'][0]); }
}

/// Every protein number reads back from its own text.
pub proof fn lemma_protein_round_trip(p: KirProtein)
    ensures
        protein_spec(protein_text(p)) == Some(p),
{
    let one = seq!['1'];
    let two = seq!['2'];
    let three = seq!['3'];
    let four = seq!['4'];
    let five = seq!['5'];
    let five_a = seq!['5', 'A'];
    let five_b = seq!['5', 'B'];
    assert(one[0] != two[0] && one[0] != three[0] && one[0] != four[0] && one[0] != five[0]);
    assert(two[0] != three[0] && two[0] != four[0] && two[0] != five[0]);
    assert(three[0] != four[0] && three[0] != five[0] && four[0] != five[0]);
    assert(one != two && one != three && one != four && one != five);
    assert(two != three && two != four && two != five);
    assert(three != four && three != five && four != five);
    assert(five_a.len() != one.len() && five_b.len() != one.len());
    assert(five_a[1] != five_b[1]);
}

impl Tail {
    pub fn parse(s: &str) -> (r: Result<Tail, NomenclatureError>)
        ensures
            match tail_spec(s@) {
                Some(t) => r == Ok::<Tail, NomenclatureError>(t),
                None => r matches Err(NomenclatureError::UnknownKirTail(e)) && e@ == s@,
            },
    {
        if s.unicode_len() == 1 {
            let c = s.get_char(0);
            if c == 'L' {
                assert(s@ =~= seq!['L']);
                return Ok(Tail::Long);
            } else if c == 'S' {
                assert(s@ =~= seq!['S']);
                return Ok(Tail::Short);
            } else if c == 'P' {
                assert(s@ =~= seq!['P']);
                return Ok(Tail::Pseudo);
            }
            assert(s@ != seq!['L'] && s@ != seq!['S'] && s@ != seq!['P']) by {
                assert(s@[0] == c);
            }
        }
        Err(NomenclatureError::UnknownKirTail(String::from_str(s)))
    }

    /// The tag of this tail.
    pub fn as_str(&self) -> (r: &'static str)
        ensures
            r@ == tail_text(*self),
    {
        match self {
            Tail::Long => {
                proof { reveal_strlit("L"); }
                "L"
            },
            Tail::Short => {
                proof { reveal_strlit("S"); }
                "S"
            },
            Tail::Pseudo => {
                proof { reveal_strlit("P"); }
                "P"
            },
        }
    }
}

impl Domain {
    pub fn parse(s: &str) -> (r: Result<Domain, NomenclatureError>)
        ensures
            match domain_spec(s@) {
                Some(d) => r == Ok::<Domain, NomenclatureError>(d),
                None => r matches Err(NomenclatureError::UnknownKirDomain(e)) && e@ == s@,
            },
    {
        if s.unicode_len() == 2 && s.get_char(1) == 'D' {
            let c = s.get_char(0);
            if c == '2' {
                assert(s@ =~= seq!['2', 'D']);
                return Ok(Domain::Two);
            } else if c == '3' {
                assert(s@ =~= seq!['3', 'D']);
                return Ok(Domain::Three);
            }
            assert(s@ != seq!['2', 'D'] && s@ != seq!['3', 'D']) by {
                assert(s@[0] == c);
            }
        }
        proof {
            if s@.len() == 2 {
                assert(seq!['2', 'D'][1] == 'D');
                assert(seq!['3', 'D'][1] == 'D');
            }
        }
        Err(NomenclatureError::UnknownKirDomain(String::from_str(s)))
    }

    /// The tag of this domain count.
    pub fn as_str(&self) -> (r: &'static str)
        ensures
            r@ == domain_text(*self),
    {
        match self {
            Domain::Two => {
                proof { reveal_strlit("2D"); }
                "2D"
            },
            Domain::Three => {
                proof { reveal_strlit("3D"); }
                "3D"
            },
        }
    }
}

impl KirProtein {
    pub fn parse(s: &str) -> (r: Result<KirProtein, NomenclatureError>)
        ensures
            match protein_spec(s@) {
                Some(p) => r == Ok::<KirProtein, NomenclatureError>(p),
                None => r matches Err(NomenclatureError::UnknownKirProtein(e)) && e@ == s@,
            },
    {
        let n = s.unicode_len();
        if n == 1 {
            let c = s.get_char(0);
            assert(s@ =~= seq![c]);
            if c == '1' {
                return Ok(KirProtein::KP1);
            } else if c == '2' {
                return Ok(KirProtein::KP2);
            } else if c == '3' {
                return Ok(KirProtein::KP3);
            } else if c == '4' {
                return Ok(KirProtein::KP4);
            } else if c == '5' {
                return Ok(KirProtein::KP5);
            }
        } else if n == 2 && s.get_char(0) == '5' {
            let c = s.get_char(1);
            assert(s@ =~= seq!['5', c]);
            if c == 'A' {
                return Ok(KirProtein::KP5A);
            } else if c == 'B' {
                return Ok(KirProtein::KP5B);
            }
        }
        proof {
            assert(seq!['5', 'A'].len() == 2 && seq!['5', 'B'].len() == 2);
            assert(seq!['5', 'A'][0] == '5' && seq!['5', 'B'][0] == '5');
            assert(seq!['5', 'A'][1] == 'A' && seq!['5', 'B'][1] == 'B');
            assert(seq!['1'][0] == '1' && seq!['2'][0] == '2' && seq!['3'][0] == '3');
            assert(seq!['4'][0] == '4' && seq!['5'][0] == '5');
        }
        Err(NomenclatureError::UnknownKirProtein(String::from_str(s)))
    }

    /// The tag of this protein number.
    pub fn as_str(&self) -> (r: &'static str)
        ensures
            r@ == protein_text(*self),
    {
        match self {
            KirProtein::KP1 => {
                proof { reveal_strlit("1"); }
                "1"
            },
            KirProtein::KP2 => {
                proof { reveal_strlit("2"); }
                "2"
            },
            KirProtein::KP3 => {
                proof { reveal_strlit("3"); }
                "3"
            },
            KirProtein::KP4 => {
                proof { reveal_strlit("4"); }
                "4"
            },
            KirProtein::KP5 => {
                proof { reveal_strlit("5"); }
                "5"
            },
            KirProtein::KP5A => {
                proof { reveal_strlit("5A"); }
                "5A"
            },
            KirProtein::KP5B => {
                proof { reveal_strlit("5B"); }
                "5B"
            },
        }
    }
}

impl std::str::FromStr for Tail {
    type Err = NomenclatureError;

    fn from_str(s: &str) -> Result<Tail, NomenclatureError> {
        Tail::parse(s)
    }
}

impl std::str::FromStr for Domain {
    type Err = NomenclatureError;

    fn from_str(s: &str) -> Result<Domain, NomenclatureError> {
        Domain::parse(s)
    }
}

impl std::str::FromStr for KirProtein {
    type Err = NomenclatureError;

    fn from_str(s: &str) -> Result<KirProtein, NomenclatureError> {
        KirProtein::parse(s)
    }
}

/// Allele of a KIR gene: a three-character series and two optional two-character fields.
#[derive(Debug, Clone)]
pub struct KirAllele {
    pub series: String,
    pub cds_syn_sub: Option<String>,
    pub non_coding_sub: Option<String>,
}

pub struct KirAlleleView {
    pub series: Seq<char>,
    pub cds_syn_sub: Option<Seq<char>>,
    pub non_coding_sub: Option<Seq<char>>,
}

impl View for KirAllele {
    type V = KirAlleleView;

    open spec fn view(&self) -> KirAlleleView {
        KirAlleleView {
            series: self.series@,
            cds_syn_sub: opt_chars(self.cds_syn_sub),
            non_coding_sub: opt_chars(self.non_coding_sub),
        }
    }
}

/// An empty text reads as an absent field.
pub open spec fn nonempty(s: Seq<char>) -> Option<Seq<char>> {
    if s.len() == 0 { None } else { Some(s) }
}

/// The allele that a text names, when its series has three characters.
pub open spec fn kir_allele_spec(s: Seq<char>) -> Option<KirAlleleView> {
    if first_n(s, 3).len() != 3 {
        None
    } else {
        Some(KirAlleleView {
            series: first_n(s, 3),
            cds_syn_sub: nonempty(chars_at(s, 3, 2)),
            non_coding_sub: nonempty(chars_at(s, 5, 2)),
        })
    }
}

fn nonempty_exec(s: String) -> (r: Option<String>)
    ensures
        opt_chars(r) == nonempty(s@),
{
    if s.unicode_len() == 0 { None } else { Some(s) }
}

impl KirAllele {
    /// Reads an allele such as `00101`: series `001`, then `01`.
    pub fn parse(s: &str) -> (r: Result<KirAllele, NomenclatureError>)
        ensures
            match kir_allele_spec(s@) {
                Some(a) => r matches Ok(k) && k@ == a,
                None => r matches Err(NomenclatureError::UnknownKirAllele(e)) && e@ == s@,
            },
    {
        let series = chars_at_exec(s, 0, 3);
        assert(chars_at(s@, 0, 3) =~= first_n(s@, 3));
        if series.unicode_len() != 3 {
            return Err(NomenclatureError::UnknownKirAllele(String::from_str(s)));
        }
        let cds = chars_at_exec(s, 3, 2);
        let nc = chars_at_exec(s, 5, 2);
        Ok(KirAllele {
            series,
            cds_syn_sub: nonempty_exec(cds),
            non_coding_sub: nonempty_exec(nc),
        })
    }

    /// Whether both alleles have the same fields.
    pub fn same(&self, other: &KirAllele) -> (r: bool)
        ensures
            r == (self@ == other@),
    {
        self.series.eq(&other.series) && opt_str_eq(&self.cds_syn_sub, &other.cds_syn_sub)
            && opt_str_eq(&self.non_coding_sub, &other.non_coding_sub)
    }
}

/// A KIR gene, optionally down to its allele.
#[derive(Debug, Clone)]
pub struct Kir {
    pub ig_like_domain: Domain,
    pub cytoplasmic_tail: Tail,
    pub protein: KirProtein,
    pub allele: Option<KirAllele>,
}

pub struct KirView {
    pub ig_like_domain: Domain,
    pub cytoplasmic_tail: Tail,
    pub protein: KirProtein,
    pub allele: Option<KirAlleleView>,
}

impl View for Kir {
    type V = KirView;

    open spec fn view(&self) -> KirView {
        KirView {
            ig_like_domain: self.ig_like_domain,
            cytoplasmic_tail: self.cytoplasmic_tail,
            protein: self.protein,
            allele: match self.allele {
                Some(a) => Some(a@),
                None => None,
            },
        }
    }
}

/// A KIR name without its leading `KIR` tags.
pub open spec fn kir_body(s: Seq<char>) -> Seq<char> {
    trim_start(s, seq!['K', 'I', 'R'])
}

/// The gene part of a KIR name: what precedes the first `*`.
pub open spec fn kir_type_part(s: Seq<char>) -> Seq<char> {
    match first_index_of(kir_body(s), '*') {
        Some(i) => kir_body(s).take(i),
        None => kir_body(s),
    }
}

/// The allele part of a KIR name: what follows the first `*`.
pub open spec fn kir_allele_part(s: Seq<char>) -> Option<Seq<char>> {
    match first_index_of(kir_body(s), '*') {
        Some(i) => Some(kir_body(s).skip(i + 1)),
        None => None,
    }
}

pub open spec fn kir_domain_text(s: Seq<char>) -> Seq<char> {
    first_n(kir_type_part(s), 2)
}

pub open spec fn kir_tail_text(s: Seq<char>) -> Seq<char> {
    chars_at(kir_type_part(s), 2, 1)
}

pub open spec fn kir_protein_text(s: Seq<char>) -> Seq<char> {
    after_n(kir_type_part(s), 3)
}

/// Whether a KIR name reads without error.
pub open spec fn kir_readable(s: Seq<char>) -> bool {
    &&& domain_spec(kir_domain_text(s)) is Some
    &&& tail_spec(kir_tail_text(s)) is Some
    &&& protein_spec(kir_protein_text(s)) is Some
    &&& match kir_allele_part(s) {
        Some(a) => kir_allele_spec(a) is Some,
        None => true,
    }
}

/// The KIR that a readable name denotes.
pub open spec fn kir_spec(s: Seq<char>) -> KirView {
    KirView {
        ig_like_domain: domain_spec(kir_domain_text(s))->Some_0,
        cytoplasmic_tail: tail_spec(kir_tail_text(s))->Some_0,
        protein: protein_spec(kir_protein_text(s))->Some_0,
        allele: match kir_allele_part(s) {
            Some(a) => kir_allele_spec(a),
            None => None,
        },
    }
}

/// The error that an unreadable name gives: the first part that fails, in reading order.
pub open spec fn kir_error_spec(s: Seq<char>, e: NomenclatureError) -> bool {
    if domain_spec(kir_domain_text(s)) is None {
        e matches NomenclatureError::UnknownKirDomain(t) && t@ == kir_domain_text(s)
    } else if tail_spec(kir_tail_text(s)) is None {
        e matches NomenclatureError::UnknownKirTail(t) && t@ == kir_tail_text(s)
    } else if protein_spec(kir_protein_text(s)) is None {
        e matches NomenclatureError::UnknownKirProtein(t) && t@ == kir_protein_text(s)
    } else {
        e matches NomenclatureError::UnknownKirAllele(t) && t@ == kir_allele_part(s)->Some_0
    }
}

impl Kir {
    /// Reads a KIR name such as `KIR2DL1`, `3DS1` or `KIR2DL1*00101`.
    pub fn parse(s: &str) -> (r: Result<Kir, NomenclatureError>)
        ensures
            kir_readable(s@) <==> r is Ok,
            r matches Ok(k) ==> k@ == kir_spec(s@),
            r matches Err(e) ==> kir_error_spec(s@, e),
    {
        proof { reveal_strlit("KIR"); }
        let body = trim_start_exec(s, "KIR");
        let b = body.as_str();
        assert("KIR"@ =~= seq!['K', 'I', 'R']);
        assert(b@ == kir_body(s@));
        let n = b.unicode_len();
        let star = find_char(b, '*');
        let (type_part, allele_part) = match star {
            Some(i) => {
                proof { crate::text::lemma_first_index_of(b@, '*'); }
                (substring(b, 0, i), Some(substring(b, i + 1, n)))
            },
            None => (substring(b, 0, n), None),
        };
        proof {
            assert(type_part@ =~= kir_type_part(s@));
            match star {
                Some(i) => { assert(allele_part->Some_0@ =~= kir_allele_part(s@)->Some_0); },
                None => {},
            }
        }
        let t = type_part.as_str();
        let d_text = chars_at_exec(t, 0, 2);
        assert(chars_at(t@, 0, 2) =~= first_n(t@, 2));
        let ig_like_domain = match Domain::parse(d_text.as_str()) {
            Ok(d) => d,
            Err(e) => { return Err(e); },
        };
        let t_text = chars_at_exec(t, 2, 1);
        let cytoplasmic_tail = match Tail::parse(t_text.as_str()) {
            Ok(x) => x,
            Err(e) => { return Err(e); },
        };
        let tn = t.unicode_len();
        let p_text = if tn <= 3 { String::new() } else { substring(t, 3, tn) };
        assert(p_text@ =~= after_n(t@, 3));
        let protein = match KirProtein::parse(p_text.as_str()) {
            Ok(p) => p,
            Err(e) => { return Err(e); },
        };
        let allele = match allele_part {
            Some(a) => match KirAllele::parse(a.as_str()) {
                Ok(x) => Some(x),
                Err(e) => { return Err(e); },
            },
            None => None,
        };
        Ok(Kir { ig_like_domain, cytoplasmic_tail, protein, allele })
    }

    /// Whether both name the same receptor, allele included.
    pub fn same(&self, other: &Kir) -> (r: bool)
        ensures
            r == (self@ == other@),
    {
        if self.ig_like_domain != other.ig_like_domain || self.cytoplasmic_tail != other.cytoplasmic_tail
            || self.protein != other.protein {
            return false;
        }
        match (&self.allele, &other.allele) {
            (Some(a), Some(b)) => a.same(b),
            (None, None) => true,
            _ => false,
        }
    }

    /// A short tail marks an activating receptor.
    pub fn is_activating(&self) -> (r: bool)
        ensures
            r == (self.cytoplasmic_tail == Tail::Short),
    {
        self.cytoplasmic_tail == Tail::Short
    }

    /// A long tail marks an inhibitory receptor.
    pub fn is_inhibitory(&self) -> (r: bool)
        ensures
            r == (self.cytoplasmic_tail == Tail::Long),
    {
        self.cytoplasmic_tail == Tail::Long
    }
}

impl PartialEq for KirAllele {
    fn eq(&self, other: &KirAllele) -> (r: bool) {
        self.same(other)
    }
}

impl vstd::std_specs::cmp::PartialEqSpecImpl for KirAllele {
    open spec fn obeys_eq_spec() -> bool {
        true
    }

    open spec fn eq_spec(&self, other: &KirAllele) -> bool {
        self@ == other@
    }
}

impl Eq for KirAllele {
}

impl PartialEq for Kir {
    fn eq(&self, other: &Kir) -> (r: bool) {
        self.same(other)
    }
}

impl vstd::std_specs::cmp::PartialEqSpecImpl for Kir {
    open spec fn obeys_eq_spec() -> bool {
        true
    }

    open spec fn eq_spec(&self, other: &Kir) -> bool {
        self@ == other@
    }
}

impl Eq for Kir {
}

impl std::str::FromStr for Kir {
    type Err = NomenclatureError;

    fn from_str(s: &str) -> Result<Kir, NomenclatureError> {
        Kir::parse(s)
    }
}

} // verus!
