//! Reading a NetMHCpan report: its nearest-neighbour lines, rank thresholds and peptide lines.
use vstd::prelude::*;
use crate::hla::{ClassI, ClassIView};
use crate::measure::{digits_value, is_digit, number_spec, parse_number};
use crate::peptide::{BindingInfo, Peptide, Protein, write_at};
use crate::calc::{AlleleBinding, BindingData};
use std::ops::Range;
use crate::text::{first_index_of, find_char, first_n, is_space, is_space_exec, occurs_at, occurs_at_exec, substring};

verus! {

/// The whitespace-separated words of `s`.
pub open spec fn words(s: Seq<char>) -> Seq<Seq<char>>
    decreases s.len(),
{
    if s.len() == 0 {
        Seq::empty()
    } else {
        let p = words(s.drop_last());
        let c = s.last();
        if is_space(c) {
            p
        } else if s.len() >= 2 && !is_space(s[s.len() - 2]) && p.len() > 0 {
            p.update(p.len() - 1, p.last().push(c))
        } else {
            p.push(seq![c])
        }
    }
}

/// Splits `s` into its whitespace-separated words.
pub fn split_words(s: &str) -> (r: Vec<String>)
    ensures
        r@.map_values(|x: String| x@) == words(s@),
{
    let n = s.unicode_len();
    let mut out: Vec<String> = Vec::new();
    let mut i: usize = 0;
    while i < n
        invariant
            n == s@.len(),
            i <= n,
            out@.map_values(|x: String| x@) == words(s@.take(i as int)),
        decreases n - i,
    {
        let c = s.get_char(i);
        let ghost pre = s@.take(i as int);
        let ghost before = out@.map_values(|x: String| x@);
        assert(s@.take(i + 1).drop_last() =~= pre);
        assert(s@.take(i + 1).last() == c);
        if !is_space_exec(c) {
            let piece = s.substring_char(i, i + 1);
            assert(piece@ =~= seq![c]);
            let len = out.len();
            if i > 0 && !is_space_exec(s.get_char(i - 1)) && len > 0 {
                assert(s@.take(i + 1)[i - 1] == s@[i - 1]);
                let mut last = out[len - 1].clone();
                assert(before[len - 1] == out@[len - 1]@);
                last.append(piece);
                assert(last@ == before.last().push(c));
                out.set(len - 1, last);
                assert(out@.map_values(|x: String| x@) =~= before.update(before.len() - 1, before.last().push(c)));
            } else {
                proof {
                    if i > 0 {
                        assert(s@.take(i + 1)[i - 1] == s@[i - 1]);
                    }
                }
                out.push(String::from_str(piece));
                assert(out@.map_values(|x: String| x@) =~= before.push(seq![c]));
            }
        }
        i = i + 1;
    }
    assert(s@.take(n as int) =~= s@);
    out
}

/// Whether a word is a number as the report writes them: digits and points.
pub open spec fn is_numeric(w: Seq<char>) -> bool {
    w.len() > 0 && forall|i: int| 0 <= i < w.len() ==> (is_digit(w[i]) || w[i] == '.')
}

fn is_numeric_exec(w: &str) -> (r: bool)
    ensures
        r == is_numeric(w@),
{
    let n = w.unicode_len();
    if n == 0 {
        return false;
    }
    let mut i: usize = 0;
    while i < n
        invariant
            n == w@.len(),
            i <= n,
            forall|k: int| 0 <= k < i ==> (is_digit(w@[k]) || w@[k] == '.'),
        decreases n - i,
    {
        let c = w.get_char(i);
        if !(('0' <= c && c <= '9') || c == '.') {
            return false;
        }
        i = i + 1;
    }
    true
}

pub open spec fn pow10(k: nat) -> nat
    decreases k,
{
    if k == 0 { 1 } else { 10 * pow10((k - 1) as nat) }
}

/// The digits before the point.
pub open spec fn dec_int(w: Seq<char>) -> Seq<char> {
    match first_index_of(w, '.') {
        Some(i) => w.take(i),
        None => w,
    }
}

/// The digits after the point.
pub open spec fn dec_frac(w: Seq<char>) -> Seq<char> {
    match first_index_of(w, '.') {
        Some(i) => w.skip(i + 1),
        None => Seq::empty(),
    }
}

/// A decimal number in units of 1/10000, further digits dropped: `0.5` is 5000 and
/// `77.6355` is 776355. None unless it is digits, optionally a point and more digits, with
/// at least one digit before the point, and fits in `u32`.
pub open spec fn decimal_e4(w: Seq<char>) -> Option<u32> {
    let int_part = dec_int(w);
    let frac = dec_frac(w);
    let f4 = first_n(frac, 4);
    let v = digits_value(int_part) * 10000 + digits_value(f4) * pow10((4 - f4.len()) as nat);
    if int_part.len() > 0 && (forall|k: int| 0 <= k < int_part.len() ==> is_digit(int_part[k])) && (forall|k: int|
        0 <= k < frac.len() ==> is_digit(frac[k])) && v <= u32::MAX {
        Some(v as u32)
    } else {
        None
    }
}

proof fn lemma_digits_bound(s: Seq<char>)
    requires
        forall|k: int| 0 <= k < s.len() ==> is_digit(s[k]),
    ensures
        digits_value(s) < pow10(s.len()),
    decreases s.len(),
{
    if s.len() > 0 {
        let p = s.drop_last();
        assert forall|k: int| 0 <= k < p.len() implies is_digit(p[k]) by {
            assert(p[k] == s[k]);
        }
        lemma_digits_bound(p);
        let d = ((s.last() as u32) - ('0' as u32)) as nat;
        assert(d <= 9);
        let a = digits_value(p);
        let b = pow10(p.len());
        assert(a * 10 + d < 10 * b) by (nonlinear_arith)
            requires
                a < b,
                d <= 9,
        ;
    }
}

/// Reads a decimal number in units of 1/10000.
pub fn parse_decimal_e4(w: &str) -> (r: Option<u32>)
    ensures
        r == decimal_e4(w@),
{
    let n = w.unicode_len();
    let (int_part, frac) = match find_char(w, '.') {
        Some(i) => {
            proof { crate::text::lemma_first_index_of(w@, '.'); }
            (substring(w, 0, i), substring(w, i + 1, n))
        },
        None => (substring(w, 0, n), String::new()),
    };
    proof {
        match first_index_of(w@, '.') {
            Some(i) => {
                assert(int_part@ =~= w@.take(i));
                assert(frac@ =~= w@.skip(i + 1));
            },
            None => {
                assert(int_part@ =~= w@);
                assert(frac@ =~= Seq::<char>::empty());
            },
        }
        assert(int_part@ == dec_int(w@));
        assert(frac@ == dec_frac(w@));
    }
    let ip = match parse_number(int_part.as_str()) {
        Some(v) => v,
        None => {
            proof {
                let d = digits_value(int_part@);
                if int_part@.len() > 0 && (forall|j: int| 0 <= j < int_part@.len() ==> is_digit(int_part@[j])) {
                    assert(d > usize::MAX);
                    let f4 = first_n(frac@, 4);
                    let e = digits_value(f4) * pow10((4 - f4.len()) as nat);
                    assert(d * 10000 + e > u32::MAX) by (nonlinear_arith)
                        requires
                            d > usize::MAX,
                            usize::MAX >= u32::MAX,
                    ;
                }
            }
            return None;
        },
    };
    let fl = frac.as_str().unicode_len();
    let mut k: usize = 0;
    while k < fl
        invariant
            fl == frac@.len(),
            k <= fl,
            frac@ == dec_frac(w@),
            forall|j: int| 0 <= j < k ==> is_digit(frac@[j]),
        decreases fl - k,
    {
        let c = frac.as_str().get_char(k);
        if !('0' <= c && c <= '9') {
            proof {
                assert(!is_digit(frac@[k as int]));
            }
            return None;
        }
        k = k + 1;
    }
    let f4_len: usize = if fl <= 4 { fl } else { 4 };
    let f4 = substring(frac.as_str(), 0, f4_len);
    assert(f4@ =~= first_n(frac@, 4));
    proof {
        assert forall|j: int| 0 <= j < f4@.len() implies is_digit(f4@[j]) by {
            assert(f4@[j] == frac@[j]);
        }
        lemma_digits_bound(f4@);
        assert(pow10(0) == 1);
        assert(pow10(1) == 10);
        assert(pow10(2) == 100);
        assert(pow10(3) == 1000);
        assert(pow10(4) == 10000);
    }
    let fv: u64 = match parse_number(f4.as_str()) {
        Some(v) => v as u64,
        None => 0,
    };
    proof {
        if f4@.len() == 0 {
            assert(digits_value(f4@) == 0);
        }
    }
    let scale: u64 = if f4_len == 0 {
        10000
    } else if f4_len == 1 {
        1000
    } else if f4_len == 2 {
        100
    } else if f4_len == 3 {
        10
    } else {
        1
    };
    assert(scale == pow10((4 - f4_len) as nat));
    if ip > 429496 {
        proof {
            let d = digits_value(int_part@);
            let f4 = first_n(frac@, 4);
            let e = digits_value(f4) * pow10((4 - f4.len()) as nat);
            assert(d * 10000 + e > u32::MAX) by (nonlinear_arith)
                requires
                    d > 429496,
            ;
        }
        return None;
    }
    let total: u64 = (ip as u64) * 10000 + fv * scale;
    if total > u32::MAX as u64 {
        return None;
    }
    Some(total as u32)
}

/// A rank threshold that a report declares, in units of 1/10000 of a percent.
#[derive(Debug, Clone, Copy, PartialEq, Eq, Structural)]
pub enum RankThreshold {
    Strong(u32),
    Weak(u32),
}

/// What a report line holds.
#[derive(Debug)]
pub enum ReportLine {
    /// An allele the predictions were made for.
    Neighbour(ClassI),
    Threshold(RankThreshold),
    /// A peptide's binding record for an allele.
    Binding(ClassI, BindingInfo),
    Other,
}

/// A report line that should hold a peptide record but does not read; the line number is
/// counted from 1.
#[derive(Debug, Clone, Copy, PartialEq, Eq, Structural)]
pub enum NetMhcError {
    ParseError(usize),
    ProteinTooShort(usize),
}

pub open spec fn hla_prefix() -> Seq<char> {
    seq!['H', 'L', 'A', '-']
}

pub open spec fn threshold_prefix() -> Seq<char> {
    seq!['#', ' ', 'R', 'a', 'n', 'k', ' ', 'T', 'h', 'r', 'e', 's', 'h', 'o', 'l', 'd']
}

/// A line of nearest-neighbour annotation starts with `HLA-`.
pub open spec fn is_nn_line(s: Seq<char>) -> bool {
    occurs_at(s, 0, hla_prefix())
}

pub open spec fn is_rank_line(s: Seq<char>) -> bool {
    occurs_at(s, 0, threshold_prefix())
}

/// A peptide line starts, after whitespace, with a digit.
pub open spec fn is_peptide_line(s: Seq<char>) -> bool {
    words(s).len() > 0 && is_digit(words(s)[0][0])
}

/// The threshold a rank line declares: its fifth word names the kind and its last word the
/// value.
pub open spec fn threshold_spec(s: Seq<char>) -> Option<RankThreshold> {
    let w = words(s);
    if w.len() >= 6 && decimal_e4(w.last()) is Some {
        if w[4] == seq!['S', 't', 'r', 'o', 'n', 'g'] {
            Some(RankThreshold::Strong(decimal_e4(w.last())->Some_0))
        } else if w[4] == seq!['W', 'e', 'a', 'k'] {
            Some(RankThreshold::Weak(decimal_e4(w.last())->Some_0))
        } else {
            None
        }
    } else {
        None
    }
}

/// The word that holds the rank: after the score comes the affinity when predicted, then the
/// rank.
pub open spec fn rank_word(w: Seq<Seq<char>>) -> Seq<char> {
    if w.len() >= 14 && is_numeric(w[13]) { w[13] } else { w[12] }
}

/// Whether a peptide line reads: position (from 1), allele, peptide, core, five alignment
/// numbers, interaction core, protein, score, then optionally affinity, then rank.
pub open spec fn peptide_line_ok(s: Seq<char>) -> bool {
    let w = words(s);
    &&& w.len() >= 13
    &&& number_spec(w[0]) matches Some(p) && p >= 1
    &&& ClassI::parse_result(w[1]) is Some
    &&& forall|k: int| 4 <= k < 9 ==> #[trigger] number_spec(w[k]) is Some
    &&& number_spec(w[5])->Some_0 + number_spec(w[6])->Some_0 <= usize::MAX
    &&& number_spec(w[7])->Some_0 + number_spec(w[8])->Some_0 <= usize::MAX
    &&& is_numeric(w[11])
    &&& decimal_e4(rank_word(w)) is Some
}

/// What a readable peptide line records.
pub open spec fn peptide_line_holds(s: Seq<char>, a: ClassI, b: BindingInfo) -> bool {
    let w = words(s);
    let m = |k: int| number_spec(w[k])->Some_0;
    &&& a@ == ClassI::parse_result(w[1])->Some_0
    &&& b.peptide.pos == number_spec(w[0])->Some_0 - 1
    &&& b.peptide.seq@ == w[2]
    &&& b.peptide.icore@ == w[9]
    &&& b.peptide.identity@ == w[10]
    &&& b.peptide.offset == m(4)
    &&& b.peptide.gap == (Range { start: m(5), end: (m(5) + m(6)) as usize })
    &&& b.peptide.ins == (Range { start: m(7), end: (m(7) + m(8)) as usize })
    &&& b.rank == decimal_e4(rank_word(w))->Some_0
}

fn word_is(w: &String, lit: &str) -> (r: bool)
    ensures
        r == (w@ == lit@),
{
    crate::text::str_eq(w.as_str(), lit)
}

fn numbers_4_to_8(w: &Vec<String>) -> (r: Option<Vec<usize>>)
    requires
        w@.len() >= 9,
    ensures
        match r {
            Some(v) => v@.len() == 5 && (forall|k: int| 4 <= k < 9 ==> #[trigger] number_spec(w@[k]@) == Some(v@[k - 4])),
            None => !(forall|k: int| 4 <= k < 9 ==> #[trigger] number_spec(w@[k]@) is Some),
        },
{
    let mut out: Vec<usize> = Vec::new();
    let mut k: usize = 4;
    while k < 9
        invariant
            w@.len() >= 9,
            4 <= k <= 9,
            out@.len() == k - 4,
            forall|j: int| 4 <= j < k ==> #[trigger] number_spec(w@[j]@) == Some(out@[j - 4]),
        decreases 9 - k,
    {
        match parse_number(w[k].as_str()) {
            Some(v) => out.push(v),
            None => {
                return None;
            },
        }
        k = k + 1;
    }
    Some(out)
}

/// Reads a peptide line of a report.
pub fn parse_peptide_line(line: &str) -> (r: Option<(ClassI, BindingInfo)>)
    ensures
        match r {
            Some((a, b)) => peptide_line_ok(line@) && peptide_line_holds(line@, a, b),
            None => !peptide_line_ok(line@),
        },
{
    let w = split_words(line);
    let ghost wv = w@.map_values(|x: String| x@);
    if w.len() < 13 {
        return None;
    }
    assert(forall|k: int| 0 <= k < w@.len() ==> #[trigger] wv[k] == w@[k]@);
    let pos = match parse_number(w[0].as_str()) {
        Some(p) => p,
        None => {
            return None;
        },
    };
    if pos < 1 {
        return None;
    }
    let allele = match ClassI::parse(w[1].as_str()) {
        Ok(a) => a,
        Err(_) => {
            return None;
        },
    };
    let mods = match numbers_4_to_8(&w) {
        Some(v) => v,
        None => {
            return None;
        },
    };
    assert(number_spec(wv[5]) == Some(mods@[1]));
    assert(number_spec(wv[6]) == Some(mods@[2]));
    assert(number_spec(wv[7]) == Some(mods@[3]));
    assert(number_spec(wv[8]) == Some(mods@[4]));
    assert(number_spec(wv[4]) == Some(mods@[0]));
    if mods[1] > usize::MAX - mods[2] || mods[3] > usize::MAX - mods[4] {
        return None;
    }
    if !is_numeric_exec(w[11].as_str()) {
        return None;
    }
    let rank_idx: usize = if w.len() >= 14 && is_numeric_exec(w[13].as_str()) { 13 } else { 12 };
    assert(rank_word(wv) == w@[rank_idx as int]@);
    let rank = match parse_decimal_e4(w[rank_idx].as_str()) {
        Some(x) => x,
        None => {
            return None;
        },
    };
    let peptide = Peptide::new(pos - 1, w[2].clone(), w[10].clone(), w[9].clone(), mods.as_slice());
    Some((allele, BindingInfo { peptide, rank }))
}

/// Reads one line of a report.
pub fn parse_line(line: &str) -> (r: Option<ReportLine>)
    ensures
        is_nn_line(line@) ==> match r {
            Some(ReportLine::Neighbour(a)) => ClassI::parse_result(words(line@)[0]) == Some(a@),
            None => ClassI::parse_result(words(line@)[0]) is None,
            _ => false,
        },
        !is_nn_line(line@) && is_rank_line(line@) ==> match r {
            Some(ReportLine::Threshold(t)) => threshold_spec(line@) == Some(t),
            Some(ReportLine::Other) => threshold_spec(line@) is None,
            _ => false,
        },
        !is_nn_line(line@) && !is_rank_line(line@) && is_peptide_line(line@) ==> match r {
            Some(ReportLine::Binding(a, b)) => peptide_line_ok(line@) && peptide_line_holds(line@, a, b),
            None => !peptide_line_ok(line@),
            _ => false,
        },
        !is_nn_line(line@) && !is_rank_line(line@) && !is_peptide_line(line@) ==> r matches Some(ReportLine::Other),
{
    proof {
        reveal_strlit("HLA-");
        reveal_strlit("# Rank Threshold");
        reveal_strlit("Strong");
        reveal_strlit("Weak");
    }
    assert("HLA-"@ =~= hla_prefix());
    assert("# Rank Threshold"@ =~= threshold_prefix());
    assert("Strong"@ =~= seq!['S', 't', 'r', 'o', 'n', 'g']);
    assert("Weak"@ =~= seq!['W', 'e', 'a', 'k']);
    let w = split_words(line);
    let ghost wv = w@.map_values(|x: String| x@);
    assert(forall|k: int| 0 <= k < w@.len() ==> #[trigger] wv[k] == w@[k]@);
    if occurs_at_exec(line, 0, "HLA-") {
        proof {
            assert(line@.len() >= 4);
            assert(!is_space(line@[0]));
            lemma_first_word(line@);
        }
        return match ClassI::parse(w[0].as_str()) {
            Ok(a) => Some(ReportLine::Neighbour(a)),
            Err(_) => None,
        };
    }
    if occurs_at_exec(line, 0, "# Rank Threshold") {
        let n = w.len();
        if n >= 6 {
            match parse_decimal_e4(w[n - 1].as_str()) {
                Some(v) => {
                    if word_is(&w[4], "Strong") {
                        return Some(ReportLine::Threshold(RankThreshold::Strong(v)));
                    } else if word_is(&w[4], "Weak") {
                        return Some(ReportLine::Threshold(RankThreshold::Weak(v)));
                    }
                },
                None => {},
            }
        }
        return Some(ReportLine::Other);
    }
    if w.len() > 0 && w[0].as_str().unicode_len() > 0 {
        let c = w[0].as_str().get_char(0);
        if '0' <= c && c <= '9' {
            return match parse_peptide_line(line) {
                Some((a, b)) => Some(ReportLine::Binding(a, b)),
                None => None,
            };
        }
    }
    proof {
        if words(line@).len() > 0 {
            lemma_words_nonempty(line@);
        }
    }
    Some(ReportLine::Other)
}

/// Every word has at least one character.
proof fn lemma_words_nonempty(s: Seq<char>)
    ensures
        forall|k: int| 0 <= k < words(s).len() ==> #[trigger] words(s)[k].len() > 0,
    decreases s.len(),
{
    if s.len() > 0 {
        lemma_words_nonempty(s.drop_last());
        let p = words(s.drop_last());
        let c = s.last();
        if !is_space(c) {
            if s.len() >= 2 && !is_space(s[s.len() - 2]) && p.len() > 0 {
                let q = p.update(p.len() - 1, p.last().push(c));
                assert forall|k: int| 0 <= k < q.len() implies #[trigger] q[k].len() > 0 by {
                    if k < p.len() - 1 {
                        assert(q[k] == p[k]);
                    }
                }
            } else {
                let q = p.push(seq![c]);
                assert forall|k: int| 0 <= k < q.len() implies #[trigger] q[k].len() > 0 by {
                    if k < p.len() {
                        assert(q[k] == p[k]);
                    }
                }
            }
        }
    }
}

/// A line that starts with a non-space character has a first word that starts the line.
proof fn lemma_first_word(s: Seq<char>)
    requires
        s.len() > 0,
        !is_space(s[0]),
    ensures
        words(s).len() > 0,
        words(s)[0].len() > 0,
    decreases s.len(),
{
    lemma_words_nonempty(s);
    if s.len() > 1 {
        assert(s.drop_last()[0] == s[0]);
        lemma_first_word(s.drop_last());
    } else {
        assert(words(s.drop_last()) =~= Seq::<Seq<char>>::empty());
    }
}

/// What a binding record holds, as plain values.
pub struct RecordView {
    pub pos: usize,
    pub seq: Seq<char>,
    pub identity: Seq<char>,
    pub icore: Seq<char>,
    pub offset: usize,
    pub gap: Range<usize>,
    pub ins: Range<usize>,
    pub rank: u32,
}

pub open spec fn record_view(b: BindingInfo) -> RecordView {
    RecordView {
        pos: b.peptide.pos,
        seq: b.peptide.seq@,
        identity: b.peptide.identity@,
        icore: b.peptide.icore@,
        offset: b.peptide.offset,
        gap: b.peptide.gap,
        ins: b.peptide.ins,
        rank: b.rank,
    }
}

/// The record a readable peptide line gives.
pub open spec fn record_spec(s: Seq<char>) -> RecordView {
    let w = words(s);
    let m = |k: int| number_spec(w[k])->Some_0;
    RecordView {
        pos: (number_spec(w[0])->Some_0 - 1) as usize,
        seq: w[2],
        identity: w[10],
        icore: w[9],
        offset: m(4),
        gap: Range { start: m(5), end: (m(5) + m(6)) as usize },
        ins: Range { start: m(7), end: (m(7) + m(8)) as usize },
        rank: decimal_e4(rank_word(w))->Some_0,
    }
}

/// What a report line holds, as plain values.
pub enum LineView {
    Neighbour(ClassIView),
    Threshold(RankThreshold),
    Binding(ClassIView, RecordView),
    Other,
}

pub open spec fn line_view(l: ReportLine) -> LineView {
    match l {
        ReportLine::Neighbour(a) => LineView::Neighbour(a@),
        ReportLine::Threshold(t) => LineView::Threshold(t),
        ReportLine::Binding(a, b) => LineView::Binding(a@, record_view(b)),
        ReportLine::Other => LineView::Other,
    }
}

#[verifier::opaque]
/// What a line of a report holds; none when it should hold a record or an allele and does not
/// read.
pub open spec fn line_spec(s: Seq<char>) -> Option<LineView> {
    if is_nn_line(s) {
        match ClassI::parse_result(words(s)[0]) {
            Some(a) => Some(LineView::Neighbour(a)),
            None => None,
        }
    } else if is_rank_line(s) {
        match threshold_spec(s) {
            Some(t) => Some(LineView::Threshold(t)),
            None => Some(LineView::Other),
        }
    } else if is_peptide_line(s) {
        if peptide_line_ok(s) {
            Some(LineView::Binding(ClassI::parse_result(words(s)[1])->Some_0, record_spec(s)))
        } else {
            None
        }
    } else {
        Some(LineView::Other)
    }
}

/// Reads one line of a report, as `line_spec` states.
pub fn read_line(line: &str) -> (r: Option<ReportLine>)
    ensures
        match r {
            Some(l) => line_spec(line@) == Some(line_view(l)),
            None => line_spec(line@) is None,
        },
{
    reveal(line_spec);
    parse_line(line)
}

/// A corpus as plain values.
pub struct CorpusView {
    pub alleles: Seq<ClassIView>,
    pub bindings: Seq<(ClassIView, Seq<RecordView>)>,
    pub proteins: Seq<(Seq<char>, Seq<char>)>,
    pub strong: Option<u32>,
    pub weak: Option<u32>,
}

pub open spec fn corpus_view(d: BindingData) -> CorpusView {
    CorpusView {
        alleles: d.alleles@.map_values(|a: ClassI| a@),
        bindings: d.allele_binding@.map_values(|e: AlleleBinding| (e.allele@, e.records@.map_values(|b: BindingInfo| record_view(b)))),
        proteins: d.proteome@.map_values(|p: Protein| (p.identity@, p.sequence@)),
        strong: d.strong_threshold,
        weak: d.weak_threshold,
    }
}

pub open spec fn empty_corpus() -> CorpusView {
    CorpusView { alleles: Seq::empty(), bindings: Seq::empty(), proteins: Seq::empty(), strong: None, weak: None }
}

/// Index of the first protein with identifier `id`.
pub open spec fn protein_index(ps: Seq<(Seq<char>, Seq<char>)>, id: Seq<char>) -> Option<int>
    decreases ps.len(),
{
    if ps.len() == 0 {
        None
    } else {
        match protein_index(ps.drop_last(), id) {
            Some(i) => Some(i),
            None => if ps.last().0 == id { Some(ps.len() - 1) } else { None },
        }
    }
}

/// Index of the first entry for allele `a`.
pub open spec fn entry_index(bs: Seq<(ClassIView, Seq<RecordView>)>, a: ClassIView) -> Option<int>
    decreases bs.len(),
{
    if bs.len() == 0 {
        None
    } else {
        match entry_index(bs.drop_last(), a) {
            Some(i) => Some(i),
            None => if bs.last().0 == a { Some(bs.len() - 1) } else { None },
        }
    }
}

proof fn lemma_protein_index(ps: Seq<(Seq<char>, Seq<char>)>, id: Seq<char>)
    ensures
        match protein_index(ps, id) {
            Some(i) => 0 <= i < ps.len() && ps[i].0 == id && forall|j: int| 0 <= j < i ==> ps[j].0 != id,
            None => forall|j: int| 0 <= j < ps.len() ==> ps[j].0 != id,
        },
    decreases ps.len(),
{
    if ps.len() > 0 {
        let p = ps.drop_last();
        lemma_protein_index(p, id);
        assert forall|j: int| 0 <= j < p.len() implies #[trigger] ps[j] == p[j] by {}
    }
}

proof fn lemma_entry_index(bs: Seq<(ClassIView, Seq<RecordView>)>, a: ClassIView)
    ensures
        match entry_index(bs, a) {
            Some(i) => 0 <= i < bs.len() && bs[i].0 == a && forall|j: int| 0 <= j < i ==> bs[j].0 != a,
            None => forall|j: int| 0 <= j < bs.len() ==> bs[j].0 != a,
        },
    decreases bs.len(),
{
    if bs.len() > 0 {
        let p = bs.drop_last();
        lemma_entry_index(p, a);
        assert forall|j: int| 0 <= j < p.len() implies #[trigger] bs[j] == p[j] by {}
    }
}

#[verifier::opaque]
/// The corpus after one line: a new allele is listed once; the first declaration of each
/// threshold is kept; a record is written into its protein's sequence (which must reach its
/// position) and added to its allele's records. None when the protein is too short.
pub open spec fn apply_line(c: CorpusView, l: LineView) -> Option<CorpusView> {
    match l {
        LineView::Neighbour(a) => Some(
            if c.alleles.contains(a) { c } else { CorpusView { alleles: c.alleles.push(a), ..c } },
        ),
        LineView::Threshold(RankThreshold::Strong(v)) => Some(
            CorpusView { strong: if c.strong is None { Some(v) } else { c.strong }, ..c },
        ),
        LineView::Threshold(RankThreshold::Weak(v)) => Some(
            CorpusView { weak: if c.weak is None { Some(v) } else { c.weak }, ..c },
        ),
        LineView::Binding(a, r) => {
            let (ps, idx) = match protein_index(c.proteins, r.identity) {
                Some(i) => (c.proteins, i),
                None => (c.proteins.push((r.identity, Seq::<char>::empty())), c.proteins.len() as int),
            };
            let old_seq = ps[idx].1;
            if r.pos > old_seq.len() {
                None
            } else {
                let bs = match entry_index(c.bindings, a) {
                    Some(j) => c.bindings.update(j, (a, c.bindings[j].1.push(r))),
                    None => c.bindings.push((a, seq![r])),
                };
                Some(CorpusView {
                    proteins: ps.update(idx, (r.identity, write_at(old_seq, r.pos as int, r.seq))),
                    bindings: bs,
                    ..c
                })
            }
        },
        LineView::Other => Some(c),
    }
}

/// The corpus that a report's lines give, or the first error with its line number.
pub open spec fn corpus_after(lines: Seq<Seq<char>>) -> Result<CorpusView, NetMhcError>
    decreases lines.len(),
{
    if lines.len() == 0 {
        Ok(empty_corpus())
    } else {
        match corpus_after(lines.drop_last()) {
            Err(e) => Err(e),
            Ok(c) => match line_spec(lines.last()) {
                None => Err(NetMhcError::ParseError(lines.len() as usize)),
                Some(l) => match apply_line(c, l) {
                    None => Err(NetMhcError::ProteinTooShort(lines.len() as usize)),
                    Some(c2) => Ok(c2),
                },
            },
        }
    }
}

proof fn lemma_corpus_error_persists(lines: Seq<Seq<char>>, j: int)
    requires
        0 <= j <= lines.len(),
        corpus_after(lines.take(j)) is Err,
    ensures
        corpus_after(lines) == corpus_after(lines.take(j)),
    decreases lines.len(),
{
    if j == lines.len() {
        assert(lines.take(j) =~= lines);
    } else {
        let p = lines.drop_last();
        assert(p.take(j) =~= lines.take(j));
        lemma_corpus_error_persists(p, j);
    }
}

fn copy_record(b: &BindingInfo) -> (r: BindingInfo)
    ensures
        record_view(r) == record_view(*b),
{
    let p = &b.peptide;
    BindingInfo {
        peptide: Peptide {
            pos: p.pos,
            seq: p.seq.clone(),
            identity: p.identity.clone(),
            icore: p.icore.clone(),
            offset: p.offset,
            gap: Range { start: p.gap.start, end: p.gap.end },
            ins: Range { start: p.ins.start, end: p.ins.end },
        },
        rank: b.rank,
    }
}

impl BindingData {
    /// Adds what one report line holds; false, with nothing changed, when the record's
    /// protein is too short for its position.
    pub fn add_line(&mut self, line: ReportLine) -> (r: bool)
        ensures
            match apply_line(corpus_view(*old(self)), line_view(line)) {
                Some(c) => r && corpus_view(*final(self)) == c,
                None => !r && *final(self) == *old(self),
            },
    {
        reveal(apply_line);
        let ghost c = corpus_view(*self);
        let ghost lv0 = line_view(line);
        match line {
            ReportLine::Neighbour(a) => {
                assert(lv0 == LineView::Neighbour(a@));
                let mut k: usize = 0;
                while k < self.alleles.len()
                    invariant
                        k <= self.alleles@.len(),
                        c == corpus_view(*self),
                        *self == *old(self),
                        c == corpus_view(*old(self)),
                        lv0 == LineView::Neighbour(a@),
                        lv0 == line_view(line),
                        forall|j: int| 0 <= j < k ==> self.alleles@[j]@ != a@,
                    decreases self.alleles@.len() - k,
                {
                    if self.alleles[k].same(&a) {
                        assert(c.alleles[k as int] == a@);
                        assert(c.alleles.contains(a@));
                        assert(apply_line(c, LineView::Neighbour(a@)) == Some(c)) by {
                            reveal(apply_line);
                        }
                        return true;
                    }
                    k = k + 1;
                }
                assert(!c.alleles.contains(a@)) by {
                    if c.alleles.contains(a@) {
                        let j = choose|j: int| 0 <= j < c.alleles.len() && c.alleles[j] == a@;
                        assert(self.alleles@[j]@ == a@);
                    }
                }
                self.alleles.push(a);
                assert(corpus_view(*self).alleles =~= c.alleles.push(a@));
                true
            },
            ReportLine::Threshold(RankThreshold::Strong(v)) => {
                if self.strong_threshold.is_none() {
                    self.strong_threshold = Some(v);
                }
                true
            },
            ReportLine::Threshold(RankThreshold::Weak(v)) => {
                if self.weak_threshold.is_none() {
                    self.weak_threshold = Some(v);
                }
                true
            },
            ReportLine::Binding(a, b) => {
                let ghost rv = record_view(b);
                proof {
                    lemma_protein_index(c.proteins, rv.identity);
                    lemma_entry_index(c.bindings, a@);
                }
                let mut pi: usize = 0;
                while pi < self.proteome.len() && !self.proteome[pi].identity.eq(&b.peptide.identity)
                    invariant
                        pi <= self.proteome@.len(),
                        c == corpus_view(*self),
                        rv == record_view(b),
                        forall|j: int| 0 <= j < pi ==> self.proteome@[j].identity@ != rv.identity,
                    decreases self.proteome@.len() - pi,
                {
                    pi = pi + 1;
                }
                let n_prot = self.proteome.len();
                let mut target = if pi < n_prot {
                    let p = &self.proteome[pi];
                    Protein { identity: p.identity.clone(), sequence: p.sequence.clone() }
                } else {
                    Protein { identity: b.peptide.identity.clone(), sequence: String::new() }
                };
                proof {
                    if pi < n_prot {
                        assert(c.proteins[pi as int] == (self.proteome@[pi as int].identity@, self.proteome@[pi as int].sequence@));
                        assert(protein_index(c.proteins, rv.identity) == Some(pi as int));
                    } else {
                        assert(protein_index(c.proteins, rv.identity) is None) by {
                            if let Some(x) = protein_index(c.proteins, rv.identity) {
                                assert(self.proteome@[x].identity@ == c.proteins[x].0);
                            }
                        }
                    }
                }
                match target.add_sequence_at_pos(b.peptide.pos, b.peptide.seq.as_str()) {
                    Err(_) => {
                        return false;
                    },
                    Ok(()) => {},
                }
                let ghost ps_before = if pi < n_prot { c.proteins } else { c.proteins.push((rv.identity, Seq::<char>::empty())) };
                if pi < n_prot {
                    self.proteome.set(pi, target);
                } else {
                    self.proteome.push(target);
                }
                assert(corpus_view(*self).proteins =~= ps_before.update(pi as int, (rv.identity, write_at(ps_before[pi as int].1, rv.pos as int, rv.seq))));
                let mut ei: usize = 0;
                while ei < self.allele_binding.len() && !self.allele_binding[ei].allele.same(&a)
                    invariant
                        ei <= self.allele_binding@.len(),
                        c.bindings == corpus_view(*self).bindings,
                        forall|j: int| 0 <= j < ei ==> self.allele_binding@[j].allele@ != a@,
                    decreases self.allele_binding@.len() - ei,
                {
                    ei = ei + 1;
                }
                let ghost ps_after = corpus_view(*self).proteins;
                if ei < self.allele_binding.len() {
                    proof {
                        assert(c.bindings[ei as int].0 == a@);
                        assert(entry_index(c.bindings, a@) == Some(ei as int));
                    }
                    let mut recs: Vec<BindingInfo> = Vec::new();
                    let old_recs = &self.allele_binding[ei].records;
                    let mut q: usize = 0;
                    while q < old_recs.len()
                        invariant
                            q <= old_recs@.len(),
                            recs@.len() == q,
                            forall|j: int| 0 <= j < q ==> record_view(#[trigger] recs@[j]) == record_view(old_recs@[j]),
                        decreases old_recs@.len() - q,
                    {
                        recs.push(copy_record(&old_recs[q]));
                        q = q + 1;
                    }
                    let ghost old_view = old_recs@.map_values(|x: BindingInfo| record_view(x));
                    recs.push(b);
                    assert(recs@.map_values(|x: BindingInfo| record_view(x)) =~= old_view.push(rv));
                    let allele = self.allele_binding[ei].allele.duplicate();
                    self.allele_binding.set(ei, AlleleBinding { allele, records: recs });
                    assert(corpus_view(*self).bindings =~= c.bindings.update(ei as int, (a@, c.bindings[ei as int].1.push(rv))));
                } else {
                    proof {
                        assert(entry_index(c.bindings, a@) is None) by {
                            if let Some(x) = entry_index(c.bindings, a@) {
                                assert(self.allele_binding@[x].allele@ == c.bindings[x].0);
                            }
                        }
                    }
                    let mut recs: Vec<BindingInfo> = Vec::new();
                    recs.push(b);
                    assert(recs@.map_values(|x: BindingInfo| record_view(x)) =~= seq![rv]);
                    let ghost av = a@;
                    self.allele_binding.push(AlleleBinding { allele: a, records: recs });
                    assert(corpus_view(*self).bindings[c.bindings.len() as int] == (av, seq![rv]));
                    assert(corpus_view(*self).bindings =~= c.bindings.push((a@, seq![rv])));
                }
                assert(corpus_view(*self).proteins == ps_after);
                true
            },
            ReportLine::Other => true,
        }
    }
}

/// Reads a NetMHCpan report: its alleles, declared rank thresholds, proteins rebuilt from
/// the peptides, and each allele's binding records. The first line that should hold a record
/// or an allele and does not read, or whose protein is too short for its position, is an
/// error naming its line number.
#[verifier::rlimit(50)]
pub fn read_netmhcpan(text: &str) -> (r: Result<BindingData, NetMhcError>)
    ensures
        match corpus_after(crate::text::split_spec(text@, '\n')) {
            Ok(c) => r matches Ok(d) && corpus_view(d) == c,
            Err(e) => r == Err::<BindingData, NetMhcError>(e),
        },
{
    let lines = crate::text::split_all(text, '\n');
    let ghost lv = lines@.map_values(|x: String| x@);
    let mut data = BindingData::new();
    assert(corpus_view(data).alleles =~= Seq::<ClassIView>::empty());
    assert(corpus_view(data).bindings =~= Seq::<(ClassIView, Seq<RecordView>)>::empty());
    assert(corpus_view(data).proteins =~= Seq::<(Seq<char>, Seq<char>)>::empty());
    assert(corpus_view(data) == empty_corpus());
    let mut i: usize = 0;
    while i < lines.len()
        invariant
            i <= lines@.len(),
            lv == lines@.map_values(|x: String| x@),
            lv == crate::text::split_spec(text@, '\n'),
            corpus_after(lv.take(i as int)) == Ok::<CorpusView, NetMhcError>(corpus_view(data)),
        decreases lines@.len() - i,
    {
        let ghost pre = lv.take(i as int);
        let ghost cur = lv.take(i + 1);
        assert(cur.drop_last() =~= pre);
        assert(cur.last() == lines@[i as int]@);
        assert(cur.len() == i + 1);
        match read_line(lines[i].as_str()) {
            None => {
                proof {
                    assert(corpus_after(cur) == Err::<CorpusView, NetMhcError>(NetMhcError::ParseError((i + 1) as usize)));
                    lemma_corpus_error_persists(lv, (i + 1) as int);
                }
                return Err(NetMhcError::ParseError(i + 1));
            },
            Some(l) => {
                let ghost before = corpus_view(data);
                let ghost lview = line_view(l);
                if !data.add_line(l) {
                    proof {
                        assert(apply_line(before, lview) is None);
                        assert(corpus_after(cur) == Err::<CorpusView, NetMhcError>(NetMhcError::ProteinTooShort((i + 1) as usize)));
                        lemma_corpus_error_persists(lv, (i + 1) as int);
                    }
                    return Err(NetMhcError::ProteinTooShort(i + 1));
                }
            },
        }
        i = i + 1;
    }
    assert(lv.take(lines@.len() as int) =~= lv);
    Ok(data)
}

} // verus!
