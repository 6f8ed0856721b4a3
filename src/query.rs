//! The label query language: `pid:N owner:"name" name:pattern`, clauses
//! separated by whitespace, values bare or double-quoted with `\` escapes.
use vstd::prelude::*;
use crate::process_list::Columns;
use crate::text::{chars_of, push_char};

verus! {

/// One clause of a label query.
pub enum Label {
    Pid(usize),
    Owner(String),
    Name(String),
}

/// The mathematical form of a clause.
pub enum LabelSpec {
    Pid(nat),
    Owner(Seq<char>),
    Name(Seq<char>),
}

impl View for Label {
    type V = LabelSpec;

    open spec fn view(&self) -> LabelSpec {
        match self {
            Label::Pid(n) => LabelSpec::Pid(*n as nat),
            Label::Owner(s) => LabelSpec::Owner(s@),
            Label::Name(s) => LabelSpec::Name(s@),
        }
    }
}

/// A label query that could not be parsed.
#[derive(Clone, Copy, Debug, PartialEq, Eq, Structural)]
pub struct ParseFailure;

/// The clauses of a parsed query, as mathematical values.
pub open spec fn labels_view(v: Seq<Label>) -> Seq<LabelSpec> {
    v.map_values(|l: Label| l@)
}

/// Characters that separate clauses.
pub open spec fn is_space(c: char) -> bool {
    c == ' ' || c == '\t' || c == '\n' || c == '\r'
}

/// Reading a quoted value from `i`, just past the opening quote, with `acc`
/// already read: the unescaped text and the index just past the closing quote.
pub open spec fn quoted_from(s: Seq<char>, i: int, acc: Seq<char>) -> Option<(Seq<char>, int)>
    decreases s.len() - i,
{
    if i < 0 || i >= s.len() {
        None
    } else if s[i] == '"' {
        Some((acc, i + 1))
    } else if s[i] == '\\' {
        if i + 1 >= s.len() {
            None
        } else {
            quoted_from(s, i + 2, acc.push(s[i + 1]))
        }
    } else {
        quoted_from(s, i + 1, acc.push(s[i]))
    }
}

/// The end of the run of non-space characters that starts at `i`.
pub open spec fn bare_end(s: Seq<char>, i: int) -> int
    decreases s.len() - i,
{
    if i < 0 || i >= s.len() || is_space(s[i]) {
        i
    } else {
        bare_end(s, i + 1)
    }
}

/// The end of the run of space characters that starts at `i`.
pub open spec fn space_end(s: Seq<char>, i: int) -> int
    decreases s.len() - i,
{
    if 0 <= i < s.len() && is_space(s[i]) {
        space_end(s, i + 1)
    } else {
        i
    }
}

/// A value starting at `i`: quoted when it opens with `"`, else a non-empty
/// bare token; the text and the index just past it.
pub open spec fn value_at(s: Seq<char>, i: int) -> Option<(Seq<char>, int)> {
    if 0 <= i < s.len() && s[i] == '"' {
        quoted_from(s, i + 1, Seq::empty())
    } else {
        let e = bare_end(s, i);
        if e > i {
            Some((s.subrange(i, e), e))
        } else {
            None
        }
    }
}

/// A label with its colon at `i`: the column it names and the index just past
/// the colon.
pub open spec fn label_at(s: Seq<char>, i: int) -> Option<(Columns, int)> {
    if 0 <= i && i + 4 <= s.len() && s.subrange(i, i + 4) == seq!['p', 'i', 'd', ':'] {
        Some((Columns::Pid, i + 4))
    } else if 0 <= i && i + 6 <= s.len() && s.subrange(i, i + 6) == seq![
        'o',
        'w',
        'n',
        'e',
        'r',
        ':',
    ] {
        Some((Columns::Owner, i + 6))
    } else if 0 <= i && i + 5 <= s.len() && s.subrange(i, i + 5) == seq![
        'n',
        'a',
        'm',
        'e',
        ':',
    ] {
        Some((Columns::Name, i + 5))
    } else {
        None
    }
}

/// Every character is an ASCII decimal digit, and there is at least one.
pub open spec fn is_digits(t: Seq<char>) -> bool {
    t.len() > 0 && forall|k: int| 0 <= k < t.len() ==> '0' <= #[trigger] t[k] <= '9'
}

/// The number that a run of decimal digits denotes.
pub open spec fn digits_value(t: Seq<char>) -> nat
    decreases t.len(),
{
    if t.len() == 0 {
        0
    } else {
        digits_value(t.drop_last()) * 10 + (t.last() as nat - '0' as nat) as nat
    }
}

/// A clause starting at `i`: its value and the index just past it.
pub open spec fn clause_at(s: Seq<char>, i: int) -> Option<(LabelSpec, int)> {
    match label_at(s, i) {
        None => None,
        Some((col, j)) => match value_at(s, j) {
            None => None,
            Some((v, k)) => match col {
                Columns::Pid => if is_digits(v) && digits_value(v) <= usize::MAX {
                    Some((LabelSpec::Pid(digits_value(v)), k))
                } else {
                    None
                },
                Columns::Owner => Some((LabelSpec::Owner(v), k)),
                Columns::Name => Some((LabelSpec::Name(v), k)),
            },
        },
    }
}

proof fn lemma_quoted_advances(s: Seq<char>, i: int, acc: Seq<char>)
    ensures
        quoted_from(s, i, acc) matches Some((_, e)) ==> i < e <= s.len(),
    decreases s.len() - i,
{
    if 0 <= i < s.len() && s[i] != '"' {
        if s[i] == '\\' {
            if i + 1 < s.len() {
                lemma_quoted_advances(s, i + 2, acc.push(s[i + 1]));
            }
        } else {
            lemma_quoted_advances(s, i + 1, acc.push(s[i]));
        }
    }
}

proof fn lemma_bare_end(s: Seq<char>, i: int)
    requires
        0 <= i <= s.len(),
    ensures
        i <= bare_end(s, i) <= s.len(),
        forall|k: int| i <= k < bare_end(s, i) ==> !is_space(#[trigger] s[k]),
        bare_end(s, i) < s.len() ==> is_space(s[bare_end(s, i)]),
    decreases s.len() - i,
{
    if i < s.len() && !is_space(s[i]) {
        lemma_bare_end(s, i + 1);
    }
}

proof fn lemma_space_end(s: Seq<char>, i: int)
    requires
        0 <= i <= s.len(),
    ensures
        i <= space_end(s, i) <= s.len(),
    decreases s.len() - i,
{
    if i < s.len() && is_space(s[i]) {
        lemma_space_end(s, i + 1);
    }
}

proof fn lemma_clause_advances(s: Seq<char>, i: int)
    ensures
        clause_at(s, i) matches Some((_, e)) ==> 0 <= i < e <= s.len(),
{
    if let Some((_, j)) = label_at(s, i) {
        if 0 <= j < s.len() && s[j] == '"' {
            lemma_quoted_advances(s, j + 1, Seq::empty());
        } else if j <= s.len() {
            lemma_bare_end(s, j);
        }
    }
}

/// Reading clauses from `i`, with `acc` already read: each clause is followed
/// either by the end of the input or by spaces and a further clause.
pub open spec fn clauses_from(s: Seq<char>, i: int, acc: Seq<LabelSpec>) -> Option<Seq<LabelSpec>>
    decreases s.len() - i,
    via clauses_from_decreases
{
    match clause_at(s, i) {
        None => None,
        Some((c, j)) => if j >= s.len() {
            Some(acc.push(c))
        } else if !is_space(s[j]) {
            None
        } else {
            let k = space_end(s, j);
            if k >= s.len() {
                None
            } else {
                clauses_from(s, k, acc.push(c))
            }
        },
    }
}

#[via_fn]
proof fn clauses_from_decreases(s: Seq<char>, i: int, acc: Seq<LabelSpec>) {
    lemma_clause_advances(s, i);
    if let Some((c, j)) = clause_at(s, i) {
        if j < s.len() {
            lemma_space_end(s, j);
        }
    }
}

/// The clauses of a label query, or `None` where it is malformed. The empty
/// query has no clauses.
pub open spec fn parse_spec(s: Seq<char>) -> Option<Seq<LabelSpec>> {
    if s.len() == 0 {
        Some(Seq::empty())
    } else {
        clauses_from(s, 0, Seq::empty())
    }
}

fn space(c: char) -> (r: bool)
    ensures
        r == is_space(c),
{
    c == ' ' || c == '\t' || c == '\n' || c == '\r'
}

fn read_quoted(s: &Vec<char>, start: usize) -> (r: Option<(Vec<char>, usize)>)
    requires
        start <= s.len(),
    ensures
        match quoted_from(s@, start as int, Seq::empty()) {
            None => r is None,
            Some((v, e)) => r matches Some((x, f)) && x@ == v && f == e,
        },
{
    let mut i: usize = start;
    let mut acc: Vec<char> = Vec::new();
    while i < s.len()
        invariant
            start <= i <= s.len(),
            quoted_from(s@, i as int, acc@) == quoted_from(s@, start as int, Seq::empty()),
        decreases s.len() - i,
    {
        if s[i] == '"' {
            return Some((acc, i + 1));
        } else if s[i] == '\\' {
            if i + 1 >= s.len() {
                return None;
            }
            acc.push(s[i + 1]);
            i = i + 2;
        } else {
            acc.push(s[i]);
            i = i + 1;
        }
    }
    None
}

fn read_bare(s: &Vec<char>, start: usize) -> (r: (Vec<char>, usize))
    requires
        start <= s.len(),
    ensures
        r.1 == bare_end(s@, start as int),
        r.0@ == s@.subrange(start as int, r.1 as int),
{
    let mut j: usize = start;
    let mut acc: Vec<char> = Vec::new();
    while j < s.len() && !space(s[j])
        invariant
            start <= j <= s.len(),
            bare_end(s@, j as int) == bare_end(s@, start as int),
            acc@ == s@.subrange(start as int, j as int),
        decreases s.len() - j,
    {
        acc.push(s[j]);
        j = j + 1;
        assert(acc@ =~= s@.subrange(start as int, j as int));
    }
    (acc, j)
}

fn skip_spaces(s: &Vec<char>, start: usize) -> (r: usize)
    requires
        start <= s.len(),
    ensures
        r == space_end(s@, start as int),
        r <= s.len(),
{
    let mut j: usize = start;
    while j < s.len() && space(s[j])
        invariant
            start <= j <= s.len(),
            space_end(s@, j as int) == space_end(s@, start as int),
        decreases s.len() - j,
    {
        j = j + 1;
    }
    j
}

fn read_value(s: &Vec<char>, start: usize) -> (r: Option<(Vec<char>, usize)>)
    requires
        start <= s.len(),
    ensures
        match value_at(s@, start as int) {
            None => r is None,
            Some((v, e)) => r matches Some((x, f)) && x@ == v && f == e,
        },
{
    if start < s.len() && s[start] == '"' {
        read_quoted(s, start + 1)
    } else {
        let (v, e) = read_bare(s, start);
        if e > start {
            Some((v, e))
        } else {
            None
        }
    }
}

fn read_label(s: &Vec<char>, i: usize) -> (r: Option<(Columns, usize)>)
    requires
        i <= s.len(),
    ensures
        match label_at(s@, i as int) {
            None => r is None,
            Some((c, e)) => r == Some((c, e as usize)),
        },
{
    let n = s.len();
    if n - i >= 4 && s[i] == 'p' && s[i + 1] == 'i' && s[i + 2] == 'd' && s[i + 3] == ':' {
        assert(s@.subrange(i as int, i + 4) =~= seq!['p', 'i', 'd', ':']);
        return Some((Columns::Pid, i + 4));
    }
    assert(i + 4 <= n ==> s@.subrange(i as int, i + 4)[0] == s@[i as int]);
    assert(i + 4 <= n ==> s@.subrange(i as int, i + 4)[3] == s@[i + 3]);
    if n - i >= 6 && s[i] == 'o' && s[i + 1] == 'w' && s[i + 2] == 'n' && s[i + 3] == 'e' && s[i
        + 4] == 'r' && s[i + 5] == ':' {
        assert(s@.subrange(i as int, i + 6) =~= seq!['o', 'w', 'n', 'e', 'r', ':']);
        return Some((Columns::Owner, i + 6));
    }
    assert(i + 6 <= n ==> s@.subrange(i as int, i + 6)[0] == s@[i as int]);
    if n - i >= 5 && s[i] == 'n' && s[i + 1] == 'a' && s[i + 2] == 'm' && s[i + 3] == 'e' && s[i
        + 4] == ':' {
        assert(s@.subrange(i as int, i + 5) =~= seq!['n', 'a', 'm', 'e', ':']);
        return Some((Columns::Name, i + 5));
    }
    assert(i + 5 <= n ==> s@.subrange(i as int, i + 5)[0] == s@[i as int]);
    assert(i + 5 <= n ==> s@.subrange(i as int, i + 5)[1] == s@[i + 1]);
    assert(i + 5 <= n ==> s@.subrange(i as int, i + 5)[2] == s@[i + 2]);
    assert(i + 5 <= n ==> s@.subrange(i as int, i + 5)[3] == s@[i + 3]);
    assert(i + 5 <= n ==> s@.subrange(i as int, i + 5)[4] == s@[i + 4]);
    None
}

proof fn lemma_digits_prefix(t: Seq<char>, m: int)
    requires
        0 <= m <= t.len(),
        forall|k: int| 0 <= k < t.len() ==> '0' <= #[trigger] t[k] <= '9',
    ensures
        digits_value(t.take(m)) <= digits_value(t),
    decreases t.len() - m,
{
    if m < t.len() {
        lemma_digits_prefix(t, m + 1);
        assert(t.take(m + 1).drop_last() =~= t.take(m));
    } else {
        assert(t.take(m) =~= t);
    }
}

/// The number that `t` denotes, when it is a run of decimal digits whose
/// value fits in `usize`.
pub fn number_of(t: &Vec<char>) -> (r: Option<usize>)
    ensures
        r is Some <==> is_digits(t@) && digits_value(t@) <= usize::MAX,
        r matches Some(n) ==> n == digits_value(t@),
{
    if t.len() == 0 {
        return None;
    }
    let mut v: usize = 0;
    let mut k: usize = 0;
    while k < t.len()
        invariant
            k <= t.len(),
            forall|m: int| 0 <= m < k ==> '0' <= #[trigger] t@[m] <= '9',
            v == digits_value(t@.take(k as int)),
        decreases t.len() - k,
    {
        let c = t[k];
        if c < '0' || c > '9' {
            return None;
        }
        let d = (c as u32 - '0' as u32) as usize;
        assert(t@.take(k + 1).drop_last() =~= t@.take(k as int));
        match v.checked_mul(10) {
            None => {
                proof {
                    if is_digits(t@) {
                        lemma_digits_prefix(t@, k + 1);
                    }
                }
                return None;
            },
            Some(w) => match w.checked_add(d) {
                None => {
                    proof {
                        if is_digits(t@) {
                            lemma_digits_prefix(t@, k + 1);
                        }
                    }
                    return None;
                },
                Some(x) => {
                    v = x;
                },
            },
        }
        k = k + 1;
    }
    assert(t@.take(t.len() as int) =~= t@);
    Some(v)
}

/// A `String` holding the characters of `v`.
pub fn string_of(v: &Vec<char>) -> (r: String)
    ensures
        r@ == v@,
{
    let mut r = String::new();
    let mut k: usize = 0;
    while k < v.len()
        invariant
            k <= v.len(),
            r@ == v@.take(k as int),
        decreases v.len() - k,
    {
        push_char(&mut r, v[k]);
        k = k + 1;
        assert(r@ =~= v@.take(k as int));
    }
    assert(v@.take(v.len() as int) =~= v@);
    r
}

fn read_clause(s: &Vec<char>, i: usize) -> (r: Option<(Label, usize)>)
    requires
        i <= s.len(),
    ensures
        match clause_at(s@, i as int) {
            None => r is None,
            Some((c, e)) => r matches Some((l, f)) && l@ == c && f == e,
        },
{
    let (col, j) = match read_label(s, i) {
        None => return None,
        Some(x) => x,
    };
    let (v, k) = match read_value(s, j) {
        None => return None,
        Some(x) => x,
    };
    match col {
        Columns::Pid => match number_of(&v) {
            None => None,
            Some(n) => Some((Label::Pid(n), k)),
        },
        Columns::Owner => Some((Label::Owner(string_of(&v)), k)),
        Columns::Name => Some((Label::Name(string_of(&v)), k)),
    }
}

/// Parses a label query into its clauses, in the order they appear.
pub fn parse_labels(input: &str) -> (r: Result<Vec<Label>, ParseFailure>)
    ensures
        match parse_spec(input@) {
            None => r is Err,
            Some(cs) => r matches Ok(v) && labels_view(v@) == cs,
        },
{
    let s = chars_of(input);
    let mut out: Vec<Label> = Vec::new();
    if s.len() == 0 {
        assert(labels_view(out@) =~= Seq::empty());
        return Ok(out);
    }
    let mut i: usize = 0;
    assert(labels_view(out@) =~= Seq::empty());
    loop
        invariant
            i < s.len(),
            s@ == input@,
            clauses_from(s@, i as int, labels_view(out@)) == parse_spec(input@),
        decreases s.len() - i,
    {
        proof {
            lemma_clause_advances(s@, i as int);
        }
        let ghost before = out@;
        match read_clause(&s, i) {
            None => return Err(ParseFailure),
            Some((c, j)) => {
                out.push(c);
                assert(labels_view(out@) =~= labels_view(before).push(c@));
                if j >= s.len() {
                    return Ok(out);
                }
                if !space(s[j]) {
                    return Err(ParseFailure);
                }
                let k = skip_spaces(&s, j);
                proof {
                    lemma_space_end(s@, j as int);
                }
                if k >= s.len() {
                    return Err(ParseFailure);
                }
                i = k;
            },
        }
    }
}

} // verus!
