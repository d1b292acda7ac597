//! Character-level helpers on strings, with their meaning stated over `Seq<char>`.
use vstd::prelude::*;

verus! {

/// `p` occurs in `s` starting at character `at`.
pub open spec fn occurs_at(s: Seq<char>, at: int, p: Seq<char>) -> bool {
    0 <= at && at + p.len() <= s.len() && s.subrange(at, at + p.len()) == p
}

/// The position reached from `i` after skipping every repeated copy of `p`
/// (the behaviour of trimming a prefix as often as it matches).
pub open spec fn skip_repeats(s: Seq<char>, p: Seq<char>, i: int) -> int
    decreases s.len() - i,
{
    if p.len() > 0 && 0 <= i && occurs_at(s, i, p) {
        skip_repeats(s, p, i + p.len())
    } else {
        i
    }
}

/// `s` with every leading copy of `p` removed.
pub open spec fn trim_start(s: Seq<char>, p: Seq<char>) -> Seq<char> {
    s.skip(skip_repeats(s, p, 0))
}

/// `s` with every occurrence of `c` removed.
pub open spec fn without_char(s: Seq<char>, c: char) -> Seq<char> {
    s.filter(|x: char| x != c)
}

/// Index of the first `c` in `s`, if any.
pub open spec fn first_index_of(s: Seq<char>, c: char) -> Option<int>
    decreases s.len(),
{
    if s.len() == 0 {
        None
    } else if s[0] == c {
        Some(0)
    } else {
        match first_index_of(s.skip(1), c) {
            Some(i) => Some(i + 1),
            None => None,
        }
    }
}

pub proof fn lemma_skip_repeats_bounds(s: Seq<char>, p: Seq<char>, i: int)
    requires
        0 <= i <= s.len(),
    ensures
        i <= skip_repeats(s, p, i) <= s.len(),
    decreases s.len() - i,
{
    if p.len() > 0 && occurs_at(s, i, p) {
        lemma_skip_repeats_bounds(s, p, i + p.len());
    }
}

pub proof fn lemma_first_index_of(s: Seq<char>, c: char)
    ensures
        match first_index_of(s, c) {
            Some(i) => 0 <= i < s.len() && s[i] == c && forall|j: int| 0 <= j < i ==> s[j] != c,
            None => forall|j: int| 0 <= j < s.len() ==> s[j] != c,
        },
    decreases s.len(),
{
    if s.len() > 0 && s[0] != c {
        lemma_first_index_of(s.skip(1), c);
        match first_index_of(s.skip(1), c) {
            Some(i) => {
                assert forall|j: int| 0 <= j < i + 1 implies s[j] != c by {
                    if j > 0 {
                        assert(s[j] == s.skip(1)[j - 1]);
                    }
                }
            },
            None => {
                assert forall|j: int| 0 <= j < s.len() implies s[j] != c by {
                    if j > 0 {
                        assert(s[j] == s.skip(1)[j - 1]);
                    }
                }
            },
        }
    }
}

/// Whether two strings hold the same characters.
pub fn str_eq(a: &str, b: &str) -> (r: bool)
    ensures
        r == (a@ == b@),
{
    let n = a.unicode_len();
    if n != b.unicode_len() {
        return false;
    }
    let mut i: usize = 0;
    while i < n
        invariant
            n == a@.len(),
            n == b@.len(),
            i <= n,
            forall|j: int| 0 <= j < i ==> a@[j] == b@[j],
        decreases n - i,
    {
        if a.get_char(i) != b.get_char(i) {
            return false;
        }
        i = i + 1;
    }
    assert(a@ =~= b@);
    true
}

/// Whether `p` occurs in `s` starting at character `at`.
pub fn occurs_at_exec(s: &str, at: usize, p: &str) -> (r: bool)
    ensures
        r == occurs_at(s@, at as int, p@),
{
    let n = s.unicode_len();
    let m = p.unicode_len();
    if at > n || m > n - at {
        return false;
    }
    let mut j: usize = 0;
    while j < m
        invariant
            n == s@.len(),
            m == p@.len(),
            at + m <= n,
            j <= m,
            forall|k: int| 0 <= k < j ==> s@[at + k] == p@[k],
        decreases m - j,
    {
        if s.get_char(at + j) != p.get_char(j) {
            assert(s@.subrange(at as int, at + m)[j as int] != p@[j as int]);
            return false;
        }
        j = j + 1;
    }
    assert(s@.subrange(at as int, at + m) =~= p@);
    true
}

/// Position after all leading copies of `p` in `s`.
pub fn skip_repeats_exec(s: &str, p: &str) -> (r: usize)
    ensures
        r as int == skip_repeats(s@, p@, 0),
        r <= s@.len(),
{
    let n = s.unicode_len();
    let m = p.unicode_len();
    let mut i: usize = 0;
    if m == 0 {
        return 0;
    }
    while occurs_at_exec(s, i, p)
        invariant
            n == s@.len(),
            m == p@.len(),
            m > 0,
            i <= n,
            skip_repeats(s@, p@, i as int) == skip_repeats(s@, p@, 0),
        decreases n - i,
    {
        i = i + m;
    }
    i
}

/// `s` with every leading copy of `p` removed.
pub fn trim_start_exec(s: &str, p: &str) -> (r: String)
    ensures
        r@ == trim_start(s@, p@),
{
    let i = skip_repeats_exec(s, p);
    let n = s.unicode_len();
    String::from_str(s.substring_char(i, n))
}

/// The characters of `s` from `from` up to `to`.
pub fn substring(s: &str, from: usize, to: usize) -> (r: String)
    requires
        from <= to <= s@.len(),
    ensures
        r@ == s@.subrange(from as int, to as int),
{
    String::from_str(s.substring_char(from, to))
}

/// Index of the first `c` in `s`, if any.
pub fn find_char(s: &str, c: char) -> (r: Option<usize>)
    ensures
        match r {
            Some(i) => first_index_of(s@, c) == Some(i as int),
            None => first_index_of(s@, c) is None,
        },
{
    let n = s.unicode_len();
    let mut i: usize = 0;
    proof {
        lemma_first_index_of(s@, c);
    }
    while i < n
        invariant
            n == s@.len(),
            i <= n,
            forall|j: int| 0 <= j < i ==> s@[j] != c,
        decreases n - i,
    {
        if s.get_char(i) == c {
            proof {
                lemma_first_index_of(s@, c);
                let f = first_index_of(s@, c);
                assert(f == Some(i as int));
            }
            return Some(i);
        }
        i = i + 1;
    }
    None
}

/// The characters of an optional string.
pub open spec fn opt_chars(o: Option<String>) -> Option<Seq<char>> {
    match o {
        Some(s) => Some(s@),
        None => None,
    }
}

/// The first `n` characters of `s` (all of them when it is shorter).
pub open spec fn first_n(s: Seq<char>, n: int) -> Seq<char> {
    if s.len() <= n { s } else { s.take(n) }
}

/// `s` without its first `n` characters (empty when it is shorter).
pub open spec fn after_n(s: Seq<char>, n: int) -> Seq<char> {
    if s.len() <= n { Seq::empty() } else { s.skip(n) }
}

/// Up to `n` characters of `s` from position `at`.
pub open spec fn chars_at(s: Seq<char>, at: int, n: int) -> Seq<char> {
    first_n(after_n(s, at), n)
}

/// Whether two optional strings hold the same characters.
pub fn opt_str_eq(a: &Option<String>, b: &Option<String>) -> (r: bool)
    ensures
        r == (opt_chars(*a) == opt_chars(*b)),
{
    match (a, b) {
        (Some(x), Some(y)) => x.eq(y),
        (None, None) => true,
        _ => false,
    }
}

/// Up to `n` characters of `s` from position `at`.
pub fn chars_at_exec(s: &str, at: usize, n: usize) -> (r: String)
    requires
        at + n <= usize::MAX,
    ensures
        r@ == chars_at(s@, at as int, n as int),
{
    let len = s.unicode_len();
    if len <= at {
        let e = String::new();
        proof {
            assert(e@ =~= chars_at(s@, at as int, n as int));
        }
        e
    } else {
        let end = if len - at <= n { len } else { at + n };
        let r = substring(s, at, end);
        proof {
            assert(r@ =~= chars_at(s@, at as int, n as int));
        }
        r
    }
}

/// `s` with every `c` removed.
pub open spec fn remove_char(s: Seq<char>, c: char) -> Seq<char>
    decreases s.len(),
{
    if s.len() == 0 {
        Seq::empty()
    } else if s.last() == c {
        remove_char(s.drop_last(), c)
    } else {
        remove_char(s.drop_last(), c).push(s.last())
    }
}

/// `s` with every `c` removed.
pub fn remove_char_exec(s: &str, c: char) -> (r: String)
    ensures
        r@ == remove_char(s@, c),
{
    let n = s.unicode_len();
    let mut out = String::new();
    let mut i: usize = 0;
    while i < n
        invariant
            n == s@.len(),
            i <= n,
            out@ == remove_char(s@.take(i as int), c),
        decreases n - i,
    {
        let ch = s.get_char(i);
        assert(s@.take(i + 1).drop_last() =~= s@.take(i as int));
        if ch != c {
            let piece = s.substring_char(i, i + 1);
            assert(piece@ =~= seq![ch]);
            out.append(piece);
            assert(out@ =~= remove_char(s@.take(i as int), c).push(ch));
        }
        i = i + 1;
    }
    assert(s@.take(n as int) =~= s@);
    out
}

/// The `k`-th field of `s` when split at `sep`.
pub open spec fn field(s: Seq<char>, sep: char, k: nat) -> Option<Seq<char>>
    decreases s.len(), k,
{
    match first_index_of(s, sep) {
        Some(i) => if k == 0 {
            Some(s.take(i))
        } else if 0 <= i < s.len() {
            field(s.skip(i + 1), sep, (k - 1) as nat)
        } else {
            None
        },
        None => if k == 0 { Some(s) } else { None },
    }
}

/// Splits `s` at its first `sep`: what precedes it, and what follows when there is one.
pub fn split_once(s: &str, sep: char) -> (r: (String, Option<String>))
    ensures
        Some(r.0@) == field(s@, sep, 0),
        r.1 matches Some(rest) ==> rest@.len() < s@.len(),
        match r.1 {
            Some(rest) => forall|k: nat| field(s@, sep, k + 1) == #[trigger] field(rest@, sep, k),
            None => forall|k: nat| k > 0 ==> #[trigger] field(s@, sep, k) is None,
        },
{
    let n = s.unicode_len();
    proof { lemma_first_index_of(s@, sep); }
    match find_char(s, sep) {
        Some(i) => {
            let head = substring(s, 0, i);
            let rest = substring(s, i + 1, n);
            proof {
                assert(head@ =~= s@.take(i as int));
                assert(rest@ =~= s@.skip(i + 1));
                assert forall|k: nat| field(s@, sep, k + 1) == #[trigger] field(rest@, sep, k) by {
                    assert((k + 1) as nat != 0);
                }
            }
            (head, Some(rest))
        },
        None => {
            let head = substring(s, 0, n);
            assert(head@ =~= s@);
            (head, None)
        },
    }
}

/// `a` comes strictly before `b` in lexicographic order of characters.
pub open spec fn chars_lt(a: Seq<char>, b: Seq<char>) -> bool
    decreases a.len(),
{
    if a.len() == 0 {
        b.len() > 0
    } else if b.len() == 0 {
        false
    } else if a[0] != b[0] {
        (a[0] as u32) < (b[0] as u32)
    } else {
        chars_lt(a.skip(1), b.skip(1))
    }
}

/// Whether `a` comes strictly before `b` in lexicographic order of characters.
pub fn chars_lt_exec(a: &str, b: &str) -> (r: bool)
    ensures
        r == chars_lt(a@, b@),
{
    let n = a.unicode_len();
    let m = b.unicode_len();
    let mut i: usize = 0;
    assert(a@.skip(0) =~= a@ && b@.skip(0) =~= b@);
    while i < n && i < m
        invariant
            n == a@.len(),
            m == b@.len(),
            i <= n,
            i <= m,
            chars_lt(a@, b@) == chars_lt(a@.skip(i as int), b@.skip(i as int)),
        decreases n - i,
    {
        let x = a.get_char(i);
        let y = b.get_char(i);
        assert(a@.skip(i as int)[0] == x && b@.skip(i as int)[0] == y);
        if x != y {
            return (x as u32) < (y as u32);
        }
        assert(a@.skip(i as int).skip(1) =~= a@.skip(i + 1));
        assert(b@.skip(i as int).skip(1) =~= b@.skip(i + 1));
        i = i + 1;
    }
    i < m
}

/// Optional texts in order: an absent one first.
pub open spec fn opt_chars_lt(a: Option<Seq<char>>, b: Option<Seq<char>>) -> bool {
    match (a, b) {
        (None, Some(_)) => true,
        (Some(x), Some(y)) => chars_lt(x, y),
        _ => false,
    }
}

pub fn opt_chars_lt_exec(a: &Option<String>, b: &Option<String>) -> (r: bool)
    ensures
        r == opt_chars_lt(opt_chars(*a), opt_chars(*b)),
{
    match (a, b) {
        (None, Some(_)) => true,
        (Some(x), Some(y)) => chars_lt_exec(x.as_str(), y.as_str()),
        _ => false,
    }
}

/// Whitespace as the ASCII table has it.
pub open spec fn is_space(c: char) -> bool {
    c == ' ' || c == '\t' || c == '\n' || c == '\r' || c == '\x0B' || c == '\x0C'
}

pub fn is_space_exec(c: char) -> (r: bool)
    ensures
        r == is_space(c),
{
    c == ' ' || c == '\t' || c == '\n' || c == '\r' || c == '\x0B' || c == '\x0C'
}

/// `s` with its whitespace removed.
pub open spec fn remove_spaces(s: Seq<char>) -> Seq<char>
    decreases s.len(),
{
    if s.len() == 0 {
        Seq::empty()
    } else if is_space(s.last()) {
        remove_spaces(s.drop_last())
    } else {
        remove_spaces(s.drop_last()).push(s.last())
    }
}

/// `s` with its whitespace removed.
pub fn remove_spaces_exec(s: &str) -> (r: String)
    ensures
        r@ == remove_spaces(s@),
{
    let n = s.unicode_len();
    let mut out = String::new();
    let mut i: usize = 0;
    while i < n
        invariant
            n == s@.len(),
            i <= n,
            out@ == remove_spaces(s@.take(i as int)),
        decreases n - i,
    {
        let ch = s.get_char(i);
        assert(s@.take(i + 1).drop_last() =~= s@.take(i as int));
        if !is_space_exec(ch) {
            let piece = s.substring_char(i, i + 1);
            assert(piece@ =~= seq![ch]);
            out.append(piece);
            assert(out@ =~= remove_spaces(s@.take(i as int)).push(ch));
        }
        i = i + 1;
    }
    assert(s@.take(n as int) =~= s@);
    out
}

/// Whether `p` occurs anywhere in `s`.
pub open spec fn contains_text(s: Seq<char>, p: Seq<char>) -> bool {
    exists|i: int| occurs_at(s, i, p)
}

pub fn contains_text_exec(s: &str, p: &str) -> (r: bool)
    ensures
        r == contains_text(s@, p@),
{
    let n = s.unicode_len();
    let mut i: usize = 0;
    loop
        invariant
            n == s@.len(),
            i <= n,
            forall|j: int| 0 <= j < i ==> !occurs_at(s@, j, p@),
        ensures
            forall|j: int| 0 <= j <= n ==> !occurs_at(s@, j, p@),
        decreases n - i,
    {
        if occurs_at_exec(s, i, p) {
            return true;
        }
        if i == n {
            break;
        }
        i = i + 1;
    }
    assert forall|j: int| !occurs_at(s@, j, p@) by {
        if 0 <= j <= n {
        }
    }
    false
}

/// A copy of an optional string.
pub fn opt_string_copy(o: &Option<String>) -> (r: Option<String>)
    ensures
        r == *o,
        opt_chars(r) == opt_chars(*o),
{
    match o {
        Some(s) => Some(s.clone()),
        None => None,
    }
}

/// The pieces of `s` between the separators `sep`.
pub open spec fn split_spec(s: Seq<char>, sep: char) -> Seq<Seq<char>> {
    let n = choose|n: nat| field(s, sep, n) is None && forall|k: nat| k < n ==> #[trigger] field(s, sep, k) is Some;
    Seq::new(n, |k: int| field(s, sep, k as nat)->Some_0)
}

proof fn lemma_split_spec(s: Seq<char>, sep: char, v: Seq<String>)
    requires
        forall|k: int| 0 <= k < v.len() ==> field(s, sep, k as nat) == Some(#[trigger] v[k]@),
        field(s, sep, v.len() as nat) is None,
    ensures
        v.map_values(|x: String| x@) == split_spec(s, sep),
{
    let m = v.len() as nat;
    assert(forall|k: nat| k < m ==> #[trigger] field(s, sep, k) is Some) by {
        assert forall|k: nat| k < m implies #[trigger] field(s, sep, k) is Some by {
            assert(field(s, sep, k as int as nat) == Some(v[k as int]@));
        }
    }
    let n = choose|n: nat| field(s, sep, n) is None && forall|k: nat| k < n ==> #[trigger] field(s, sep, k) is Some;
    if n < m {
        assert(field(s, sep, n) is Some);
    }
    if m < n {
        assert(field(s, sep, m) is Some);
    }
    assert(n == m);
    assert(v.map_values(|x: String| x@) =~= split_spec(s, sep));
}

/// Splits `s` at every `sep`.
pub fn split_all(s: &str, sep: char) -> (r: Vec<String>)
    ensures
        r@.map_values(|x: String| x@) == split_spec(s@, sep),
        r@.len() > 0,
        forall|k: int| 0 <= k < r@.len() ==> field(s@, sep, k as nat) == Some(#[trigger] r@[k]@),
        field(s@, sep, r@.len() as nat) is None,
{
    let mut out: Vec<String> = Vec::new();
    let mut rest = String::from_str(s);
    loop
        invariant
            forall|k: nat| field(s@, sep, k + out@.len()) == #[trigger] field(rest@, sep, k),
            forall|k: int| 0 <= k < out@.len() ==> field(s@, sep, k as nat) == Some(#[trigger] out@[k]@),
        decreases rest@.len(),
    {
        let (head, tail) = split_once(rest.as_str(), sep);
        let ghost done = out@.len();
        assert(field(s@, sep, (0 + done) as nat) == field(rest@, sep, 0));
        out.push(head);
        match tail {
            Some(t) => {
                proof {
                    lemma_first_index_of(rest@, sep);
                    assert forall|k: nat| field(s@, sep, k + out@.len()) == #[trigger] field(t@, sep, k) by {
                        assert(field(s@, sep, (k + 1) + done) == field(rest@, sep, k + 1));
                        assert(k + out@.len() == (k + 1) + done);
                    }
                }
                rest = t;
            },
            None => {
                proof {
                    assert(field(s@, sep, (1 + done) as nat) == field(rest@, sep, 1));
                    lemma_split_spec(s@, sep, out@);
                }
                return out;
            },
        }
    }
}

} // verus!
