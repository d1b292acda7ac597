//! KIR ligand motifs of HLA class I alleles, and the index that resolves an allele to them.
use vstd::prelude::*;
use crate::error::NomenclatureError;
use crate::hla::{ClassI, ClassIView, class_i_lt, generalize_spec};
use crate::text::{contains_text, contains_text_exec, field, first_index_of, remove_spaces, remove_spaces_exec, split_all, str_eq};

verus! {

/// Classification of an allele's peptide-binding groove by the KIRs that recognise it.
#[derive(Debug, Clone, Copy, PartialEq, Eq, Structural, Hash)]
pub enum LigandMotif {
    A11,
    A3,
    Bw4_80T,
    Bw4_80I,
    Bw6,
    C1,
    C2,
    Unclassified,
}

/// How common an allele is.
#[derive(Debug, Clone, Copy, PartialEq, Eq, Structural, Hash)]
pub enum AlleleFreq {
    Common,
    Rare,
    Unknown,
}

/// How a motif is written.
pub open spec fn motif_text(m: LigandMotif) -> Seq<char> {
    match m {
        LigandMotif::A11 => seq!['A', '1', '1'],
        LigandMotif::A3 => seq!['A', '3'],
        LigandMotif::Bw4_80T => seq!['B', 'w', '4', '-', '8', '0', 'T'],
        LigandMotif::Bw4_80I => seq!['B', 'w', '4', '-', '8', '0', 'I'],
        LigandMotif::Bw6 => seq!['B', 'w', '6'],
        LigandMotif::C1 => seq!['C', '1'],
        LigandMotif::C2 => seq!['C', '2'],
        LigandMotif::Unclassified => seq!['U', 'n', 'c', 'l', 'a', 's', 's', 'i', 'f', 'i', 'e', 'd'],
    }
}

/// The motif a tag names once whitespace is removed; `A03`, `C01` and `C02` are accepted too.
pub open spec fn motif_spec(s: Seq<char>) -> Option<LigandMotif> {
    let t = remove_spaces(s);
    if t == motif_text(LigandMotif::A11) {
        Some(LigandMotif::A11)
    } else if t == motif_text(LigandMotif::A3) || t == seq!['A', '0', '3'] {
        Some(LigandMotif::A3)
    } else if t == motif_text(LigandMotif::Bw4_80T) {
        Some(LigandMotif::Bw4_80T)
    } else if t == motif_text(LigandMotif::Bw4_80I) {
        Some(LigandMotif::Bw4_80I)
    } else if t == motif_text(LigandMotif::Bw6) {
        Some(LigandMotif::Bw6)
    } else if t == motif_text(LigandMotif::C1) || t == seq!['C', '0', '1'] {
        Some(LigandMotif::C1)
    } else if t == motif_text(LigandMotif::C2) || t == seq!['C', '0', '2'] {
        Some(LigandMotif::C2)
    } else if t == motif_text(LigandMotif::Unclassified) {
        Some(LigandMotif::Unclassified)
    } else {
        None
    }
}

/// Motifs that some KIR recognises: all but `Bw6` and `Unclassified`.
pub open spec fn kir_relevant(m: LigandMotif) -> bool {
    m != LigandMotif::Bw6 && m != LigandMotif::Unclassified
}

pub open spec fn motif_rank_spec(m: LigandMotif) -> u8 {
    match m {
        LigandMotif::A11 => 0,
        LigandMotif::A3 => 1,
        LigandMotif::Bw4_80T => 2,
        LigandMotif::Bw4_80I => 3,
        LigandMotif::Bw6 => 4,
        LigandMotif::C1 => 5,
        LigandMotif::C2 => 6,
        LigandMotif::Unclassified => 7,
    }
}

/// The frequency that a table cell names: any text holding `Common`, or `Rare` (whitespace
/// ignored); anything else is unknown.
pub open spec fn freq_spec(s: Seq<char>) -> AlleleFreq {
    if contains_text(s, seq!['C', 'o', 'm', 'm', 'o', 'n']) {
        AlleleFreq::Common
    } else if remove_spaces(s) == seq!['R', 'a', 'r', 'e'] {
        AlleleFreq::Rare
    } else {
        AlleleFreq::Unknown
    }
}

pub open spec fn freq_text(f: AlleleFreq) -> Seq<char> {
    match f {
        AlleleFreq::Common => seq![
            'C', 'o', 'm', 'm', 'o', 'n', ' ', 'o', 'r', ' ', 'W', 'e', 'l', 'l', ' ', 'D', 'e',
            'f', 'i', 'n', 'e', 'd'
        ],
        AlleleFreq::Rare => seq!['R', 'a', 'r', 'e'],
        AlleleFreq::Unknown => Seq::empty(),
    }
}

fn lit_eq(t: &str, lit: &str) -> (r: bool)
    ensures
        r == (t@ == lit@),
{
    str_eq(t, lit)
}

impl LigandMotif {
    /// Reads a motif tag such as `A3`, `Bw4-80I` or `C1`.
    pub fn parse(s: &str) -> (r: Result<LigandMotif, NomenclatureError>)
        ensures
            match motif_spec(s@) {
                Some(m) => r == Ok::<LigandMotif, NomenclatureError>(m),
                None => r matches Err(NomenclatureError::UnknownLigandMotif(e)) && e@ == remove_spaces(s@),
            },
    {
        let t = remove_spaces_exec(s);
        let ts = t.as_str();
        proof {
            reveal_strlit("A11");
            reveal_strlit("A3");
            reveal_strlit("A03");
            reveal_strlit("Bw4-80T");
            reveal_strlit("Bw4-80I");
            reveal_strlit("Bw6");
            reveal_strlit("C1");
            reveal_strlit("C01");
            reveal_strlit("C2");
            reveal_strlit("C02");
            reveal_strlit("Unclassified");
        }
        assert("A11"@ =~= motif_text(LigandMotif::A11));
        assert("A3"@ =~= motif_text(LigandMotif::A3));
        assert("A03"@ =~= seq!['A', '0', '3']);
        assert("Bw4-80T"@ =~= motif_text(LigandMotif::Bw4_80T));
        assert("Bw4-80I"@ =~= motif_text(LigandMotif::Bw4_80I));
        assert("Bw6"@ =~= motif_text(LigandMotif::Bw6));
        assert("C1"@ =~= motif_text(LigandMotif::C1));
        assert("C01"@ =~= seq!['C', '0', '1']);
        assert("C2"@ =~= motif_text(LigandMotif::C2));
        assert("C02"@ =~= seq!['C', '0', '2']);
        assert("Unclassified"@ =~= motif_text(LigandMotif::Unclassified));
        if lit_eq(ts, "A11") {
            Ok(LigandMotif::A11)
        } else if lit_eq(ts, "A3") || lit_eq(ts, "A03") {
            Ok(LigandMotif::A3)
        } else if lit_eq(ts, "Bw4-80T") {
            Ok(LigandMotif::Bw4_80T)
        } else if lit_eq(ts, "Bw4-80I") {
            Ok(LigandMotif::Bw4_80I)
        } else if lit_eq(ts, "Bw6") {
            Ok(LigandMotif::Bw6)
        } else if lit_eq(ts, "C1") || lit_eq(ts, "C01") {
            Ok(LigandMotif::C1)
        } else if lit_eq(ts, "C2") || lit_eq(ts, "C02") {
            Ok(LigandMotif::C2)
        } else if lit_eq(ts, "Unclassified") {
            Ok(LigandMotif::Unclassified)
        } else {
            Err(NomenclatureError::UnknownLigandMotif(t))
        }
    }

    /// How the motif is written.
    pub fn as_str(&self) -> (r: &'static str)
        ensures
            r@ == motif_text(*self),
    {
        match self {
            LigandMotif::A11 => { proof { reveal_strlit("A11"); } "A11" },
            LigandMotif::A3 => { proof { reveal_strlit("A3"); } "A3" },
            LigandMotif::Bw4_80T => { proof { reveal_strlit("Bw4-80T"); } "Bw4-80T" },
            LigandMotif::Bw4_80I => { proof { reveal_strlit("Bw4-80I"); } "Bw4-80I" },
            LigandMotif::Bw6 => { proof { reveal_strlit("Bw6"); } "Bw6" },
            LigandMotif::C1 => { proof { reveal_strlit("C1"); } "C1" },
            LigandMotif::C2 => { proof { reveal_strlit("C2"); } "C2" },
            LigandMotif::Unclassified => { proof { reveal_strlit("Unclassified"); } "Unclassified" },
        }
    }

    /// Whether any KIR recognises this motif.
    pub fn any_kirs_bound(&self) -> (r: bool)
        ensures
            r == kir_relevant(*self),
    {
        *self != LigandMotif::Bw6 && *self != LigandMotif::Unclassified
    }

    /// Position in declaration order.
    pub fn rank(&self) -> (r: u8)
        ensures
            r == motif_rank_spec(*self),
    {
        match self {
            LigandMotif::A11 => 0,
            LigandMotif::A3 => 1,
            LigandMotif::Bw4_80T => 2,
            LigandMotif::Bw4_80I => 3,
            LigandMotif::Bw6 => 4,
            LigandMotif::C1 => 5,
            LigandMotif::C2 => 6,
            LigandMotif::Unclassified => 7,
        }
    }
}

/// Every motif reads back from its own text.
pub proof fn lemma_motif_round_trip(m: LigandMotif)
    ensures
        motif_spec(motif_text(m)) == Some(m),
{
    let t = motif_text(m);
    assert(remove_spaces(t) =~= t) by {
        lemma_no_spaces(t);
    }
    let a11 = motif_text(LigandMotif::A11);
    let a3 = motif_text(LigandMotif::A3);
    let a03 = seq!['A', '0', '3'];
    let t80 = motif_text(LigandMotif::Bw4_80T);
    let i80 = motif_text(LigandMotif::Bw4_80I);
    let bw6 = motif_text(LigandMotif::Bw6);
    let c1 = motif_text(LigandMotif::C1);
    let c01 = seq!['C', '0', '1'];
    let c2 = motif_text(LigandMotif::C2);
    let c02 = seq!['C', '0', '2'];
    let un = motif_text(LigandMotif::Unclassified);
    assert(a11[1] != a3[1] && a11[1] != a03[1] && a3.len() != a03.len());
    assert(t80[6] != i80[6]);
    assert(t80.len() != bw6.len() && t80[0] != a11[0] && t80[0] != c1[0]);
    assert(bw6[0] != a11[0] && bw6[0] != c1[0] && bw6.len() != a3.len() && bw6[1] != a03[1]);
    assert(c1[1] != c2[1] && c1.len() != c01.len() && c2.len() != c02.len() && c01[2] != c02[2]);
    assert(c1[0] != a3[0] && c01[0] != a03[0] && c1[0] != a11[0] && c2[0] != a3[0]);
    assert(c01[0] != a11[0] && c02[0] != a11[0]);
    assert(un.len() != a11.len() && un.len() != a3.len() && un.len() != t80.len() && un.len() != bw6.len());
    assert(t80.len() != a11.len() && t80.len() != a3.len() && i80.len() != c1.len());
    assert(c1[0] != t80[0] && c2[0] != i80[0] && c01[0] != t80[0]);
}

proof fn lemma_no_spaces(t: Seq<char>)
    requires
        forall|i: int| 0 <= i < t.len() ==> !crate::text::is_space(t[i]),
    ensures
        remove_spaces(t) == t,
    decreases t.len(),
{
    if t.len() > 0 {
        lemma_no_spaces(t.drop_last());
        assert(t.drop_last().push(t.last()) =~= t);
    }
}

impl AlleleFreq {
    /// Reads a frequency cell: text holding `Common`, or `Rare`; anything else is unknown.
    pub fn from_text(s: &str) -> (r: AlleleFreq)
        ensures
            r == freq_spec(s@),
    {
        proof {
            reveal_strlit("Common");
            reveal_strlit("Rare");
        }
        assert("Common"@ =~= seq!['C', 'o', 'm', 'm', 'o', 'n']);
        assert("Rare"@ =~= seq!['R', 'a', 'r', 'e']);
        if contains_text_exec(s, "Common") {
            AlleleFreq::Common
        } else {
            let t = remove_spaces_exec(s);
            if str_eq(t.as_str(), "Rare") {
                AlleleFreq::Rare
            } else {
                AlleleFreq::Unknown
            }
        }
    }

    /// How the frequency is written.
    pub fn as_str(&self) -> (r: &'static str)
        ensures
            r@ == freq_text(*self),
    {
        match self {
            AlleleFreq::Common => {
                proof { reveal_strlit("Common or Well Defined"); }
                "Common or Well Defined"
            },
            AlleleFreq::Rare => { proof { reveal_strlit("Rare"); } "Rare" },
            AlleleFreq::Unknown => { proof { reveal_strlit(""); } "" },
        }
    }

    pub fn rank(&self) -> (r: u8)
        ensures
            r == (match *self {
                AlleleFreq::Common => 0u8,
                AlleleFreq::Rare => 1u8,
                AlleleFreq::Unknown => 2u8,
            }),
    {
        match self {
            AlleleFreq::Common => 0,
            AlleleFreq::Rare => 1,
            AlleleFreq::Unknown => 2,
        }
    }
}

impl std::str::FromStr for LigandMotif {
    type Err = NomenclatureError;

    fn from_str(s: &str) -> Result<LigandMotif, NomenclatureError> {
        LigandMotif::parse(s)
    }
}

/// One row of the ligand table: an allele, its motif and how common it is.
#[derive(Debug, Clone)]
pub struct KirLigandInfo(pub ClassI, pub LigandMotif, pub AlleleFreq);

pub struct KirLigandInfoView {
    pub allele: ClassIView,
    pub motif: LigandMotif,
    pub freq: AlleleFreq,
}

impl View for KirLigandInfo {
    type V = KirLigandInfoView;

    open spec fn view(&self) -> KirLigandInfoView {
        KirLigandInfoView { allele: self.0@, motif: self.1, freq: self.2 }
    }
}

impl KirLigandInfo {
    pub fn new(hla: ClassI, motif: LigandMotif, freq: AlleleFreq) -> (r: KirLigandInfo)
        ensures
            r@ == (KirLigandInfoView { allele: hla@, motif, freq }),
    {
        KirLigandInfo(hla, motif, freq)
    }

    pub fn allele(&self) -> (r: &ClassI)
        ensures
            r@ == self@.allele,
    {
        &self.0
    }

    pub fn motif(&self) -> (r: &LigandMotif)
        ensures
            *r == self@.motif,
    {
        &self.1
    }

    pub fn freq(&self) -> (r: &AlleleFreq)
        ensures
            *r == self@.freq,
    {
        &self.2
    }

    /// A copy with the same contents.
    pub fn duplicate(&self) -> (r: KirLigandInfo)
        ensures
            r@ == self@,
    {
        KirLigandInfo(self.0.duplicate(), self.1, self.2)
    }
}

impl PartialEq for KirLigandInfo {
    fn eq(&self, other: &KirLigandInfo) -> (r: bool) {
        self.0.same(&other.0) && self.1 == other.1 && self.2 == other.2
    }
}

impl vstd::std_specs::cmp::PartialEqSpecImpl for KirLigandInfo {
    open spec fn obeys_eq_spec() -> bool {
        true
    }

    open spec fn eq_spec(&self, other: &KirLigandInfo) -> bool {
        self@ == other@
    }
}

impl Eq for KirLigandInfo {
}

/// Once a prefix of the lines fails, the whole table fails with the same error.
proof fn lemma_table_error_persists(lines: Seq<Seq<char>>, j: int)
    requires
        0 <= j <= lines.len(),
        table_spec(lines.take(j)) is Err,
    ensures
        table_spec(lines) == table_spec(lines.take(j)),
    decreases lines.len(),
{
    if j == lines.len() {
        assert(lines.take(j) =~= lines);
    } else {
        let p = lines.drop_last();
        assert(p.take(j) =~= lines.take(j));
        lemma_table_error_persists(p, j);
    }
}

/// A reference allele relates to a query when generalising it once or twice gives the query.
pub open spec fn related(cached: ClassIView, q: ClassIView) -> bool {
    match generalize_spec(cached) {
        Some(g) => g == q || (generalize_spec(g) matches Some(h) && h == q),
        None => false,
    }
}

/// The rows whose allele relates to `q`, in table order.
pub open spec fn related_rows(rows: Seq<KirLigandInfoView>, q: ClassIView) -> Seq<KirLigandInfoView>
    decreases rows.len(),
{
    if rows.len() == 0 {
        Seq::empty()
    } else if related(rows.last().allele, q) {
        related_rows(rows.drop_last(), q).push(rows.last())
    } else {
        related_rows(rows.drop_last(), q)
    }
}

/// Whether some row is for exactly `q`.
pub open spec fn has_exact(rows: Seq<KirLigandInfoView>, q: ClassIView) -> bool {
    exists|i: int| 0 <= i < rows.len() && rows[i].allele == q
}

/// No two rows are for the same allele.
pub open spec fn rows_unique(rows: Seq<KirLigandInfoView>) -> bool {
    forall|i: int, j: int|
        0 <= i < rows.len() && 0 <= j < rows.len() && i != j ==> rows[i].allele != rows[j].allele
}

/// What a lookup returns: the row for exactly `q` when there is one, else every row whose
/// allele generalises to `q` in one or two steps.
pub open spec fn lookup(rows: Seq<KirLigandInfoView>, q: ClassIView) -> Seq<KirLigandInfoView> {
    if has_exact(rows, q) {
        seq![rows[choose|i: int| 0 <= i < rows.len() && rows[i].allele == q]]
    } else {
        related_rows(rows, q)
    }
}

pub proof fn lemma_related_rows_members(rows: Seq<KirLigandInfoView>, q: ClassIView, x: KirLigandInfoView)
    ensures
        related_rows(rows, q).contains(x) <==> (rows.contains(x) && related(x.allele, q)),
    decreases rows.len(),
{
    if rows.len() > 0 {
        lemma_related_rows_members(rows.drop_last(), q, x);
        assert(rows =~= rows.drop_last().push(rows.last()));
        if rows.contains(x) && x != rows.last() {
            let i = choose|i: int| 0 <= i < rows.len() && rows[i] == x;
            assert(rows.drop_last()[i] == x);
        }
        if rows.drop_last().contains(x) {
            let i = choose|i: int| 0 <= i < rows.drop_last().len() && rows.drop_last()[i] == x;
            assert(rows[i] == x);
        }
        if related(rows.last().allele, q) {
            let p = related_rows(rows.drop_last(), q);
            if p.push(rows.last()).contains(x) && x != rows.last() {
                let i = choose|i: int| 0 <= i < p.push(rows.last()).len() && p.push(rows.last())[i] == x;
                assert(p[i] == x);
            }
            if p.contains(x) {
                let i = choose|i: int| 0 <= i < p.len() && p[i] == x;
                assert(p.push(rows.last())[i] == x);
            }
            assert(p.push(rows.last())[p.len() as int] == rows.last());
        }
        assert(rows[rows.len() - 1] == rows.last());
    }
}

/// A lookup is a function of the table's rows as a set and of the query: two tables with the
/// same rows, in any order, give the same rows for equal queries, so repeated lookups agree.
pub proof fn lemma_lookup_stable(
    rows1: Seq<KirLigandInfoView>,
    rows2: Seq<KirLigandInfoView>,
    q1: ClassIView,
    q2: ClassIView,
)
    requires
        rows_unique(rows1),
        rows_unique(rows2),
        rows1.to_set() == rows2.to_set(),
        q1 == q2,
    ensures
        lookup(rows1, q1).to_set() == lookup(rows2, q2).to_set(),
{
    assert forall|x: KirLigandInfoView| rows1.contains(x) <==> rows2.contains(x) by {
        assert(rows1.to_set().contains(x) == rows1.contains(x));
        assert(rows2.to_set().contains(x) == rows2.contains(x));
    }
    if has_exact(rows1, q1) {
        let i = choose|i: int| 0 <= i < rows1.len() && rows1[i].allele == q1;
        assert(rows1.contains(rows1[i]));
        let j2 = choose|j: int| 0 <= j < rows2.len() && rows2[j] == rows1[i];
        assert(has_exact(rows2, q2));
        let j = choose|j: int| 0 <= j < rows2.len() && rows2[j].allele == q2;
        assert(rows2[j] == rows2[j2]);
        assert(lookup(rows1, q1) =~= lookup(rows2, q2));
    } else {
        assert(!has_exact(rows2, q2)) by {
            if has_exact(rows2, q2) {
                let j = choose|j: int| 0 <= j < rows2.len() && rows2[j].allele == q2;
                assert(rows2.contains(rows2[j]));
                let i = choose|i: int| 0 <= i < rows1.len() && rows1[i] == rows2[j];
            }
        }
        assert forall|x: KirLigandInfoView|
            lookup(rows1, q1).to_set().contains(x) <==> lookup(rows2, q2).to_set().contains(x) by {
            lemma_related_rows_members(rows1, q1, x);
            lemma_related_rows_members(rows2, q2, x);
        }
        assert(lookup(rows1, q1).to_set() =~= lookup(rows2, q2).to_set());
    }
}

/// The rows after adding `x`: it replaces the row for the same allele, or comes last.
pub open spec fn insert_row(rows: Seq<KirLigandInfoView>, x: KirLigandInfoView) -> Seq<KirLigandInfoView> {
    if has_exact(rows, x.allele) {
        rows.update(choose|i: int| 0 <= i < rows.len() && rows[i].allele == x.allele, x)
    } else {
        rows.push(x)
    }
}

/// Errors of reading a ligand table, with the line number (from 1) where they arise.
#[derive(Debug, Clone, Copy, PartialEq, Eq, Structural)]
pub enum IoError {
    CouldNotReadAllele(usize),
    CouldNotReadMotif(usize),
    CouldNotParseLine,
}

/// A line without its trailing carriage return.
pub open spec fn strip_cr(l: Seq<char>) -> Seq<char> {
    if l.len() > 0 && l.last() == '\r' { l.drop_last() } else { l }
}

/// Blank lines and lines starting with `#` hold no row.
pub open spec fn is_skipped(l: Seq<char>) -> bool {
    l.len() == 0 || l[0] == '#'
}

/// The frequency of a row: its third cell when it has exactly three, else unknown.
pub open spec fn row_freq(l: Seq<char>) -> AlleleFreq {
    if field(l, '\t', 2) is Some && field(l, '\t', 3) is None {
        freq_spec(field(l, '\t', 2)->Some_0)
    } else {
        AlleleFreq::Unknown
    }
}

/// Whether the allele cell of a row reads.
pub open spec fn row_allele_ok(l: Seq<char>) -> bool {
    ClassI::parse_result(field(l, '\t', 0)->Some_0) is Some
}

/// Whether the motif cell of a row is there and reads.
pub open spec fn row_motif_ok(l: Seq<char>) -> bool {
    field(l, '\t', 1) matches Some(c) && motif_spec(c) is Some
}

/// The row that a tab-separated line `allele, motif[, frequency]` gives.
pub open spec fn row_spec(l: Seq<char>) -> KirLigandInfoView {
    KirLigandInfoView {
        allele: ClassI::parse_result(field(l, '\t', 0)->Some_0)->Some_0,
        motif: motif_spec(field(l, '\t', 1)->Some_0)->Some_0,
        freq: row_freq(l),
    }
}

/// The rows that a table's lines give, or the first error.
pub open spec fn table_spec(lines: Seq<Seq<char>>) -> Result<Seq<KirLigandInfoView>, IoError>
    decreases lines.len(),
{
    if lines.len() == 0 {
        Ok(Seq::empty())
    } else {
        match table_spec(lines.drop_last()) {
            Err(e) => Err(e),
            Ok(rows) => {
                let l = strip_cr(lines.last());
                if is_skipped(l) {
                    Ok(rows)
                } else if !row_allele_ok(l) {
                    Err(IoError::CouldNotReadAllele(lines.len() as usize))
                } else if !row_motif_ok(l) {
                    Err(IoError::CouldNotReadMotif(lines.len() as usize))
                } else {
                    Ok(insert_row(rows, row_spec(l)))
                }
            },
        }
    }
}

fn strip_cr_exec(s: &str) -> (r: String)
    ensures
        r@ == strip_cr(s@),
{
    let n = s.unicode_len();
    if n > 0 && s.get_char(n - 1) == '\r' {
        let r = crate::text::substring(s, 0, n - 1);
        assert(r@ =~= s@.drop_last());
        r
    } else {
        String::from_str(s)
    }
}

impl KirLigandInfo {
    /// Reads a tab-separated line `allele, motif[, frequency]` of a ligand table; `row` is the
    /// line number given in errors.
    pub fn parse_row(line: &str, row: usize) -> (r: Result<KirLigandInfo, IoError>)
        ensures
            !row_allele_ok(line@) ==> r == Err::<KirLigandInfo, IoError>(IoError::CouldNotReadAllele(row)),
            row_allele_ok(line@) && !row_motif_ok(line@) ==> r == Err::<KirLigandInfo, IoError>(IoError::CouldNotReadMotif(row)),
            row_allele_ok(line@) && row_motif_ok(line@) ==> (r matches Ok(x) && x@ == row_spec(line@)),
    {
        let cells = split_all(line, '\t');
        let allele = match ClassI::parse(cells[0].as_str()) {
            Ok(a) => a,
            Err(_) => {
                return Err(IoError::CouldNotReadAllele(row));
            },
        };
        if cells.len() < 2 {
            return Err(IoError::CouldNotReadMotif(row));
        }
        let motif = match LigandMotif::parse(cells[1].as_str()) {
            Ok(m) => m,
            Err(_) => {
                return Err(IoError::CouldNotReadMotif(row));
            },
        };
        let freq = if cells.len() == 3 {
            AlleleFreq::from_text(cells[2].as_str())
        } else {
            AlleleFreq::Unknown
        };
        proof {
            if cells@.len() == 3 {
                assert(field(line@, '\t', 2) == Some(cells@[2]@));
            } else if cells@.len() > 3 {
                assert(field(line@, '\t', 3) == Some(cells@[3]@));
            }
        }
        Ok(KirLigandInfo(allele, motif, freq))
    }
}

/// The ligand-motif index: one row per reference allele.
pub struct KirLigandMap {
    rows: Vec<KirLigandInfo>,
}

impl KirLigandMap {
    /// The rows, in the order they were added.
    pub closed spec fn rows_view(&self) -> Seq<KirLigandInfoView> {
        self.rows@.map_values(|r: KirLigandInfo| r@)
    }

    pub open spec fn wf(&self) -> bool {
        rows_unique(self.rows_view())
    }

    /// An empty index.
    pub fn new() -> (r: KirLigandMap)
        ensures
            r.wf(),
            r.rows_view() == Seq::<KirLigandInfoView>::empty(),
    {
        let r = KirLigandMap { rows: Vec::new() };
        assert(r.rows_view() =~= Seq::<KirLigandInfoView>::empty());
        r
    }

    /// Reads a ligand table: tab-separated lines `allele, motif[, frequency]`; lines starting
    /// with `#` are comments, and a later row for an allele replaces an earlier one. Blank
    /// lines hold no row and are skipped, as a delimited-file reader skips empty records; in
    /// particular the empty piece after a final line break is no error. The first line that does not read is an error naming its line number.
    #[verifier::rlimit(60)]
    pub fn init(text: &str) -> (r: Result<KirLigandMap, IoError>)
        ensures
            match table_spec(crate::text::split_spec(text@, '\n')) {
                Ok(rows) => r matches Ok(m) && m.wf() && m.rows_view() == rows,
                Err(e) => r == Err::<KirLigandMap, IoError>(e),
            },
    {
        let lines = split_all(text, '\n');
        let ghost lv = lines@.map_values(|s: String| s@);
        let mut map = KirLigandMap::new();
        let mut i: usize = 0;
        while i < lines.len()
            invariant
                i <= lines@.len(),
                lv == lines@.map_values(|s: String| s@),
                lv == crate::text::split_spec(text@, '\n'),
                map.wf(),
                table_spec(lv.take(i as int)) == Ok::<Seq<KirLigandInfoView>, IoError>(map.rows_view()),
            decreases lines@.len() - i,
        {
            assert(lv.take(i + 1).drop_last() =~= lv.take(i as int));
            assert(lv.take(i + 1).last() == lines@[i as int]@);
            let l = strip_cr_exec(lines[i].as_str());
            let n = l.as_str().unicode_len();
            if !(n == 0 || l.as_str().get_char(0) == '#') {
                match KirLigandInfo::parse_row(l.as_str(), i + 1) {
                    Ok(info) => {
                        map.insert_info(info);
                    },
                    Err(e) => {
                        proof {
                            assert(table_spec(lv.take(i + 1)) == Err::<Seq<KirLigandInfoView>, IoError>(e));
                            lemma_table_error_persists(lv, (i + 1) as int);
                            assert(lv.take(i + 1) =~= lv.take(i + 1));
                        }
                        return Err(e);
                    },
                }
            }
            i = i + 1;
        }
        assert(lv.take(lines@.len() as int) =~= lv);
        Ok(map)
    }

    /// Number of reference alleles.
    pub fn len(&self) -> (r: usize)
        ensures
            r == self.rows_view().len(),
    {
        self.rows.len()
    }

    /// The reference alleles, in table order.
    pub fn alleles(&self) -> (r: Vec<ClassI>)
        ensures
            r@.len() == self.rows_view().len(),
            forall|i: int| 0 <= i < r@.len() ==> r@[i]@ == self.rows_view()[i].allele,
    {
        let mut out: Vec<ClassI> = Vec::new();
        let mut i: usize = 0;
        while i < self.rows.len()
            invariant
                i <= self.rows@.len(),
                out@.len() == i,
                forall|k: int| 0 <= k < i ==> out@[k]@ == self.rows_view()[k].allele,
            decreases self.rows@.len() - i,
        {
            out.push(self.rows[i].0.duplicate());
            i = i + 1;
        }
        out
    }

    /// Adds a row, replacing the one for the same allele if there is one.
    pub fn insert_info(&mut self, info: KirLigandInfo)
        requires
            old(self).wf(),
        ensures
            final(self).wf(),
            final(self).rows_view() == insert_row(old(self).rows_view(), info@),
    {
        let n = self.rows.len();
        let mut i: usize = 0;
        while i < n
            invariant
                n == self.rows@.len(),
                i <= n,
                *self == *old(self),
                old(self).wf(),
                forall|k: int| 0 <= k < i ==> self.rows_view()[k].allele != info@.allele,
            decreases n - i,
        {
            assert(self.rows_view()[i as int] == self.rows@[i as int]@);
            if self.rows[i].0.same(&info.0) {
                let ghost before = self.rows_view();
                assert(before[i as int] == self.rows@[i as int]@);
                assert(before[i as int].allele == info@.allele);
                assert(has_exact(before, info@.allele));
                self.rows.set(i, info);
                proof {
                    assert(self.rows_view() =~= before.update(i as int, info@));
                    let c = choose|c: int| 0 <= c < before.len() && before[c].allele == info@.allele;
                    assert(c == i);
                    let after = self.rows_view();
                    assert forall|a: int, b: int|
                        0 <= a < after.len() && 0 <= b < after.len() && a != b implies after[a].allele
                            != after[b].allele by {
                        if a == i {
                            assert(before[b].allele != before[i as int].allele);
                        } else if b == i {
                            assert(before[a].allele != before[i as int].allele);
                        } else {
                            assert(before[a].allele != before[b].allele);
                        }
                    }
                }
                return;
            }
            i = i + 1;
        }
        let ghost before = self.rows_view();
        proof {
            assert(!has_exact(before, info@.allele));
        }
        self.rows.push(info);
        assert(self.rows_view() =~= before.push(info@));
    }

    /// The rows for `allele`: its own row when the table has one; otherwise every row whose
    /// allele becomes `allele` after one or two generalisations. Empty when none relates.
    pub fn get_allele_info(&self, allele: &ClassI) -> (r: Vec<KirLigandInfo>)
        requires
            self.wf(),
        ensures
            r@.map_values(|x: KirLigandInfo| x@) == lookup(self.rows_view(), allele@),
    {
        let n = self.rows.len();
        let mut i: usize = 0;
        while i < n
            invariant
                n == self.rows@.len(),
                i <= n,
                forall|k: int| 0 <= k < i ==> self.rows_view()[k].allele != allele@,
                self.wf(),
            decreases n - i,
        {
            assert(self.rows_view()[i as int] == self.rows@[i as int]@);
            if self.rows[i].0.same(allele) {
                let mut out: Vec<KirLigandInfo> = Vec::new();
                out.push(self.rows[i].duplicate());
                proof {
                    let rows = self.rows_view();
                    assert(rows[i as int].allele == allele@);
                    assert(has_exact(rows, allele@));
                    let c = choose|c: int| 0 <= c < rows.len() && rows[c].allele == allele@;
                    assert(c == i);
                    assert(out@.map_values(|x: KirLigandInfo| x@) =~= lookup(rows, allele@));
                }
                return out;
            }
            i = i + 1;
        }
        let mut out: Vec<KirLigandInfo> = Vec::new();
        let mut j: usize = 0;
        while j < n
            invariant
                n == self.rows@.len(),
                j <= n,
                out@.map_values(|x: KirLigandInfo| x@) == related_rows(self.rows_view().take(j as int), allele@),
            decreases n - j,
        {
            let row = &self.rows[j];
            let ghost rows = self.rows_view();
            assert(rows[j as int] == row@);
            assert(rows.take(j + 1).drop_last() =~= rows.take(j as int));
            assert(rows.take(j + 1).last() == row@);
            let mut hit = false;
            match row.0.generalize() {
                Some(once) => {
                    if once.same(allele) {
                        hit = true;
                    } else {
                        match once.generalize() {
                            Some(twice) => {
                                if twice.same(allele) {
                                    hit = true;
                                }
                            },
                            None => {},
                        }
                    }
                },
                None => {},
            }
            assert(hit == related(row@.allele, allele@));
            if hit {
                let ghost before = out@.map_values(|x: KirLigandInfo| x@);
                out.push(row.duplicate());
                assert(out@.map_values(|x: KirLigandInfo| x@) =~= before.push(row@));
            }
            j = j + 1;
        }
        proof {
            assert(self.rows_view().take(n as int) =~= self.rows_view());
            assert(!has_exact(self.rows_view(), allele@));
        }
        out
    }
}

} // verus!
