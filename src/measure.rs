//! Measures: named sets of peptide positions that project a peptide onto a sub-motif.
use vstd::prelude::*;
use crate::text::{field, first_index_of, split_once};

verus! {

/// Errors of configuration text.
#[derive(Debug, Clone)]
pub enum ConfigError {
    /// A measure that is not `name:positions`.
    IncorrectMeasure(String),
    /// A position that is not a number.
    NotANumber(String),
    /// A position given twice.
    RepeatedPosition(usize),
}

pub open spec fn is_digit(c: char) -> bool {
    '0' <= c && c <= '9'
}

/// The value of a string of decimal digits.
pub open spec fn digits_value(s: Seq<char>) -> nat
    decreases s.len(),
{
    if s.len() == 0 {
        0
    } else {
        digits_value(s.drop_last()) * 10 + ((s.last() as u32) - ('0' as u32)) as nat
    }
}

/// The number that a text names: one or more decimal digits whose value fits in `usize`.
pub open spec fn number_spec(s: Seq<char>) -> Option<usize> {
    if s.len() > 0 && (forall|i: int| 0 <= i < s.len() ==> is_digit(s[i])) && digits_value(s)
        <= usize::MAX {
        Some(digits_value(s) as usize)
    } else {
        None
    }
}

/// The numbers of a comma-separated list, when every item is a number.
pub open spec fn number_list_spec(s: Seq<char>) -> Option<Seq<usize>>
    decreases s.len(),
{
    match first_index_of(s, ',') {
        Some(i) => if 0 <= i < s.len() {
            match (number_spec(s.take(i)), number_list_spec(s.skip(i + 1))) {
                (Some(v), Some(rest)) => Some(seq![v] + rest),
                _ => None,
            }
        } else {
            None
        },
        None => match number_spec(s) {
            Some(v) => Some(seq![v]),
            None => None,
        },
    }
}

proof fn lemma_digits_prefix(s: Seq<char>, i: int)
    requires
        0 <= i < s.len(),
    ensures
        s.take(i + 1).drop_last() == s.take(i),
        s.take(i + 1).last() == s[i],
{
    assert(s.take(i + 1).drop_last() =~= s.take(i));
}

proof fn lemma_digits_monotone(s: Seq<char>, i: int)
    requires
        0 <= i <= s.len(),
        forall|k: int| 0 <= k < s.len() ==> is_digit(s[k]),
    ensures
        digits_value(s.take(i)) <= digits_value(s),
    decreases s.len() - i,
{
    if i < s.len() {
        lemma_digits_monotone(s, i + 1);
        lemma_digits_prefix(s, i);
        let v = digits_value(s.take(i));
        assert(digits_value(s.take(i + 1)) == v * 10 + ((s[i] as u32) - ('0' as u32)) as nat);
        assert(v <= v * 10 + ((s[i] as u32) - ('0' as u32)) as nat) by (nonlinear_arith);
    } else {
        assert(s.take(i) =~= s);
    }
}

/// Reads a decimal number that fits in `usize`.
pub fn parse_number(s: &str) -> (r: Option<usize>)
    ensures
        r == number_spec(s@),
{
    let n = s.unicode_len();
    if n == 0 {
        return None;
    }
    let mut v: usize = 0;
    let mut i: usize = 0;
    while i < n
        invariant
            n == s@.len(),
            i <= n,
            forall|k: int| 0 <= k < i ==> is_digit(s@[k]),
            v as nat == digits_value(s@.take(i as int)),
        decreases n - i,
    {
        let c = s.get_char(i);
        proof { lemma_digits_prefix(s@, i as int); }
        if !('0' <= c && c <= '9') {
            return None;
        }
        let d = (c as u32 - '0' as u32) as usize;
        if v > (usize::MAX - d) / 10 {
            proof {
                assert(v * 10 + d > usize::MAX) by (nonlinear_arith)
                    requires
                        v > (usize::MAX - d) / 10,
                        d <= 9,
                ;
                if forall|k: int| 0 <= k < s@.len() ==> is_digit(s@[k]) {
                    lemma_digits_monotone(s@, i + 1);
                }
            }
            return None;
        }
        assert(v * 10 + d <= usize::MAX) by (nonlinear_arith)
            requires
                v <= (usize::MAX - d) / 10,
                d <= 9,
        ;
        v = v * 10 + d;
        i = i + 1;
    }
    assert(s@.take(n as int) =~= s@);
    Some(v)
}

/// Reads a comma-separated list of numbers.
pub fn parse_number_list(s: &str) -> (r: Option<Vec<usize>>)
    ensures
        match number_list_spec(s@) {
            Some(l) => r matches Some(v) && v@ == l,
            None => r is None,
        },
{
    let mut out: Vec<usize> = Vec::new();
    let mut rest = String::from_str(s);
    loop
        invariant
            number_list_spec(s@) == match number_list_spec(rest@) {
                Some(l) => Some(out@ + l),
                None => None::<Seq<usize>>,
            },
        decreases rest@.len(),
    {
        let r = rest.as_str();
        let n = r.unicode_len();
        proof { crate::text::lemma_first_index_of(r@, ','); }
        match crate::text::find_char(r, ',') {
            Some(i) => {
                let head = crate::text::substring(r, 0, i);
                let tail = crate::text::substring(r, i + 1, n);
                assert(head@ =~= r@.take(i as int));
                assert(tail@ =~= r@.skip(i + 1));
                match parse_number(head.as_str()) {
                    Some(v) => {
                        let ghost before = out@;
                        out.push(v);
                        proof {
                            match number_list_spec(tail@) {
                                Some(l) => {
                                    assert(before + (seq![v] + l) =~= out@ + l);
                                },
                                None => {},
                            }
                        }
                        rest = tail;
                    },
                    None => {
                        return None;
                    },
                }
            },
            None => {
                match parse_number(r) {
                    Some(v) => {
                        out.push(v);
                        return Some(out);
                    },
                    None => {
                        return None;
                    },
                }
            },
        }
    }
}

pub open spec fn strictly_increasing(s: Seq<usize>) -> bool {
    forall|i: int, j: int| 0 <= i < j < s.len() ==> s[i] < s[j]
}

/// Inserts `x` into a strictly increasing vector unless it is there; true when it was not.
pub fn insert_position(v: &mut Vec<usize>, x: usize) -> (r: bool)
    requires
        strictly_increasing(old(v)@),
    ensures
        r == !old(v)@.contains(x),
        strictly_increasing(final(v)@),
        final(v)@.to_set() == old(v)@.to_set().insert(x),
{
    let mut k: usize = 0;
    while k < v.len() && v[k] < x
        invariant
            k <= v@.len(),
            forall|j: int| 0 <= j < k ==> v@[j] < x,
        decreases v@.len() - k,
    {
        k = k + 1;
    }
    let ghost before = v@;
    if k < v.len() && v[k] == x {
        assert(before.to_set() =~= before.to_set().insert(x)) by {
            assert(before.to_set().contains(x)) by {
                assert(before[k as int] == x);
            }
        }
        assert(before.contains(x)) by {
            assert(before[k as int] == x);
        }
        return false;
    }
    assert(!before.contains(x)) by {
        if before.contains(x) {
            let j = choose|j: int| 0 <= j < before.len() && before[j] == x;
            if j >= k {
                if j > k {
                    assert(before[k as int] < before[j]);
                }
            }
        }
    }
    v.insert(k, x);
    proof {
        let after = v@;
        assert(after =~= before.subrange(0, k as int).push(x) + before.subrange(k as int, before.len() as int));
        assert forall|i: int, j: int| 0 <= i < j < after.len() implies after[i] < after[j] by {
            if j < k {
            } else if j == k {
                assert(after[i] == before[i]);
            } else if i == k {
                assert(after[j] == before[j - 1]);
                assert(before[k as int] > x);
                if j - 1 > k {
                    assert(before[k as int] < before[j - 1]);
                }
            } else if i < k {
                assert(after[j] == before[j - 1]);
                assert(after[i] == before[i]);
            } else {
                assert(after[j] == before[j - 1]);
                assert(after[i] == before[i - 1]);
            }
        }
        assert forall|y: usize| after.to_set().contains(y) <==> before.to_set().insert(x).contains(y) by {
            if after.to_set().contains(y) {
                let i = choose|i: int| 0 <= i < after.len() && after[i] == y;
                if i < k {
                    assert(before[i] == y);
                } else if i > k {
                    assert(before[i - 1] == y);
                }
            }
            if before.to_set().contains(y) {
                let i = choose|i: int| 0 <= i < before.len() && before[i] == y;
                if i < k {
                    assert(after[i] == y);
                } else {
                    assert(after[i + 1] == y);
                }
            }
            if y == x {
                assert(after[k as int] == x);
            }
        }
        assert(after.to_set() =~= before.to_set().insert(x));
    }
    true
}

/// No value occurs twice.
pub open spec fn no_repeats(l: Seq<usize>) -> bool {
    forall|i: int, j: int| 0 <= i < j < l.len() ==> l[i] != l[j]
}

/// The positions of a list in increasing order, or the first value that repeats an earlier one.
pub fn sort_positions(l: &Vec<usize>) -> (r: Result<Vec<usize>, usize>)
    ensures
        match r {
            Ok(v) => no_repeats(l@) && strictly_increasing(v@) && v@.to_set() == l@.to_set(),
            Err(x) => !no_repeats(l@) && l@.contains(x),
        },
{
    let mut out: Vec<usize> = Vec::new();
    let mut i: usize = 0;
    assert(out@.to_set() =~= l@.take(0).to_set());
    while i < l.len()
        invariant
            i <= l@.len(),
            strictly_increasing(out@),
            out@.to_set() == l@.take(i as int).to_set(),
            no_repeats(l@.take(i as int)),
        decreases l@.len() - i,
    {
        let x = l[i];
        let ghost before = out@;
        assert(l@.take(i + 1) =~= l@.take(i as int).push(x));
        if !insert_position(&mut out, x) {
            proof {
                assert(l@.take(i as int).to_set().contains(x));
                let j = choose|j: int| 0 <= j < i && l@.take(i as int)[j] == x;
                assert(l@[j] == l@[i as int]);
                assert(l@.contains(x)) by {
                    assert(l@[i as int] == x);
                }
            }
            return Err(x);
        }
        proof {
            assert(!l@.take(i as int).to_set().contains(x));
            let pre = l@.take(i as int);
            assert forall|y: usize| #[trigger] pre.push(x).to_set().contains(y) <==> pre.to_set().insert(x).contains(y) by {
                if pre.push(x).contains(y) {
                    let j = choose|j: int| 0 <= j < pre.len() + 1 && pre.push(x)[j] == y;
                    if j < pre.len() {
                        assert(pre[j] == y);
                    }
                }
                if pre.contains(y) {
                    let j = choose|j: int| 0 <= j < pre.len() && pre[j] == y;
                    assert(pre.push(x)[j] == y);
                }
                if y == x {
                    assert(pre.push(x)[pre.len() as int] == x);
                }
            }
            assert(pre.push(x).to_set() =~= pre.to_set().insert(x));
            assert(out@.to_set() =~= l@.take(i + 1).to_set());
            let t = l@.take(i + 1);
            let p = l@.take(i as int);
            assert forall|a: int, b: int| 0 <= a < b < t.len() implies #[trigger] t[a] != #[trigger] t[b] by {
                if b == i {
                    assert(t[a] == p[a]);
                    assert(p.contains(t[a]));
                    assert(p.to_set().contains(t[a]));
                } else {
                    assert(t[a] == p[a]);
                    assert(t[b] == p[b]);
                }
            }
        }
        i = i + 1;
    }
    assert(l@.take(l@.len() as int) =~= l@);
    Ok(out)
}

/// A named set of positions.
#[derive(Debug, Clone)]
pub struct Measure {
    pub name: String,
    pub motif_pos: Vec<usize>,
}

/// The measure that a text `name:i,j,...` names.
pub open spec fn measure_spec(s: Seq<char>) -> Option<(Seq<char>, Seq<usize>)> {
    match (field(s, ':', 0), field(s, ':', 1), field(s, ':', 2)) {
        (Some(name), Some(list), None) => match number_list_spec(list) {
            Some(l) => Some((name, l)),
            None => None,
        },
        _ => None,
    }
}

/// The residues of `s` whose residue number (counted from 1) `mask` lists, in sequence order.
pub open spec fn select_residues(s: Seq<char>, mask: Seq<usize>) -> Seq<char>
    decreases s.len(),
{
    if s.len() == 0 {
        Seq::empty()
    } else if mask.contains(s.len() as usize) {
        select_residues(s.drop_last(), mask).push(s.last())
    } else {
        select_residues(s.drop_last(), mask)
    }
}

/// The residues that a measure picks from a peptide.
#[derive(Debug, Clone, PartialEq, Eq)]
pub struct Motif(pub String);

impl Motif {
    pub fn into_string(self) -> (r: String)
        ensures
            r == self.0,
    {
        self.0
    }
}

impl Measure {
    /// A measure named `name` with the positions of the comma-separated list `s`, in
    /// increasing order; a list item that is not a number, or a position given twice, is an
    /// error.
    pub fn new(name: String, s: &str) -> (r: Result<Measure, ConfigError>)
        ensures
            match number_list_spec(s@) {
                Some(l) => if no_repeats(l) {
                    r matches Ok(m) && m.name == name && strictly_increasing(m.motif_pos@)
                        && m.motif_pos@.to_set() == l.to_set()
                } else {
                    r matches Err(ConfigError::RepeatedPosition(x)) && l.contains(x)
                },
                None => r matches Err(ConfigError::NotANumber(t)) && t@ == s@,
            },
    {
        match parse_number_list(s) {
            Some(list) => match sort_positions(&list) {
                Ok(motif_pos) => Ok(Measure { name, motif_pos }),
                Err(x) => Err(ConfigError::RepeatedPosition(x)),
            },
            None => Err(ConfigError::NotANumber(String::from_str(s))),
        }
    }

    /// Reads `name:i,j,...`, positions sorted; a text without exactly one `:`, with a
    /// position that is not a number or with a position given twice is an error.
    pub fn parse(s: &str) -> (r: Result<Measure, ConfigError>)
        ensures
            match measure_spec(s@) {
                Some((name, l)) => if no_repeats(l) {
                    r matches Ok(m) && m.name@ == name && strictly_increasing(m.motif_pos@)
                        && m.motif_pos@.to_set() == l.to_set()
                } else {
                    r matches Err(ConfigError::RepeatedPosition(x)) && l.contains(x)
                },
                None => r is Err,
            },
    {
        let (name, rest) = split_once(s, ':');
        match rest {
            None => Err(ConfigError::IncorrectMeasure(String::from_str(s))),
            Some(list_and_more) => {
                let (list, more) = split_once(list_and_more.as_str(), ':');
                assert(field(s@, ':', 1) == field(list_and_more@, ':', 0));
                assert(field(s@, ':', 2) == field(list_and_more@, ':', 1));
                if more.is_some() {
                    proof {
                        let m = more->Some_0;
                        assert(field(m@, ':', 0) is Some);
                        assert(field(list_and_more@, ':', 1) == field(m@, ':', 0));
                    }
                    return Err(ConfigError::IncorrectMeasure(String::from_str(s)));
                }
                Measure::new(name, list.as_str())
            },
        }
    }

    /// The residues of `peptide` at this measure's positions, read as residue numbers from 1;
    /// positions past the end pick nothing.
    pub fn get_motif(&self, peptide: &str) -> (r: Motif)
        ensures
            r.0@ == select_residues(peptide@, self.motif_pos@),
    {
        let n = peptide.unicode_len();
        let mut out = String::new();
        let mut i: usize = 0;
        while i < n
            invariant
                n == peptide@.len(),
                i <= n,
                out@ == select_residues(peptide@.take(i as int), self.motif_pos@),
            decreases n - i,
        {
            assert(peptide@.take(i + 1).drop_last() =~= peptide@.take(i as int));
            if contains_pos(&self.motif_pos, i + 1) {
                let piece = peptide.substring_char(i, i + 1);
                assert(piece@ =~= seq![peptide@[i as int]]);
                out.append(piece);
            }
            i = i + 1;
        }
        assert(peptide@.take(n as int) =~= peptide@);
        Motif(out)
    }
}

fn contains_pos(v: &Vec<usize>, p: usize) -> (r: bool)
    ensures
        r == v@.contains(p),
{
    let mut k: usize = 0;
    while k < v.len()
        invariant
            k <= v@.len(),
            forall|j: int| 0 <= j < k ==> v@[j] != p,
        decreases v@.len() - k,
    {
        if v[k] == p {
            assert(v@[k as int] == p);
            return true;
        }
        k = k + 1;
    }
    false
}

/// The default measures: T-cell receptor contacts `TCR:2,3,4,5,6,9`, then KIR contacts
/// `KIR:2,7,8,9`.
pub open spec fn default_measures() -> Seq<(Seq<char>, Seq<usize>)> {
    seq![
        (seq!['T', 'C', 'R'], seq![2usize, 3, 4, 5, 6, 9]),
        (seq!['K', 'I', 'R'], seq![2usize, 7, 8, 9]),
    ]
}

pub open spec fn measure_views(v: Seq<Measure>) -> Seq<(Seq<char>, Seq<usize>)> {
    v.map_values(|m: Measure| (m.name@, m.motif_pos@))
}

/// The measures asked for, followed by the default ones unless `drop` is set.
pub fn get_measures(measures: Option<Vec<Measure>>, drop: bool) -> (r: Vec<Measure>)
    ensures
        measure_views(r@) == match measures {
            Some(v) => measure_views(v@),
            None => Seq::empty(),
        } + if drop { Seq::empty() } else { default_measures() },
{
    let mut out = match measures {
        Some(v) => v,
        None => Vec::new(),
    };
    let ghost given = measure_views(out@);
    if !drop {
        proof {
            reveal_strlit("TCR");
            reveal_strlit("KIR");
        }
        let tcr = Measure { name: String::from_str("TCR"), motif_pos: vec![2, 3, 4, 5, 6, 9] };
        let kir = Measure { name: String::from_str("KIR"), motif_pos: vec![2, 7, 8, 9] };
        assert(tcr.name@ =~= seq!['T', 'C', 'R']);
        assert(kir.name@ =~= seq!['K', 'I', 'R']);
        assert(tcr.motif_pos@ =~= seq![2usize, 3, 4, 5, 6, 9]);
        assert(kir.motif_pos@ =~= seq![2usize, 7, 8, 9]);
        out.push(tcr);
        out.push(kir);
        assert(measure_views(out@) =~= given + default_measures());
    } else {
        assert(measure_views(out@) =~= given + Seq::<(Seq<char>, Seq<usize>)>::empty());
    }
    out
}

impl std::str::FromStr for Measure {
    type Err = ConfigError;

    fn from_str(s: &str) -> Result<Measure, ConfigError> {
        Measure::parse(s)
    }
}

} // verus!
