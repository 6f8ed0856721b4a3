//! The process list: search state, filtering of a snapshot, and ordering of
//! the result by a selectable column.
use vstd::prelude::*;
use crate::pattern::{pattern_compiles, pattern_matches, Pattern};
use crate::query::{labels_view, parse_labels, parse_spec, Label, LabelSpec};
use crate::text::{
    contains_seq, fold, lemma_lex_asym, lemma_lex_total, lemma_lex_trans, lex_lt, lower_of, text_contains, text_lt,
};

verus! {

/// Direction in which the active column orders the list.
#[derive(Clone, Copy, Debug, PartialEq, Eq, Structural)]
pub enum Order {
    Asc,
    Desc,
}

/// The other direction.
pub open spec fn flip(o: Order) -> Order {
    match o {
        Order::Asc => Order::Desc,
        Order::Desc => Order::Asc,
    }
}

impl std::ops::Not for Order {
    type Output = Self;

    fn not(self) -> (r: Self) {
        match self {
            Order::Asc => Order::Desc,
            Order::Desc => Order::Asc,
        }
    }
}

impl vstd::std_specs::ops::NotSpecImpl for Order {
    open spec fn obeys_not_spec() -> bool {
        true
    }

    open spec fn not_req(self) -> bool {
        true
    }

    open spec fn not_spec(self) -> Order {
        flip(self)
    }
}

/// A column of the process list; also the label of a label-query clause.
#[derive(Clone, Copy, Debug, PartialEq, Eq, Structural)]
pub enum Columns {
    Pid,
    Owner,
    Name,
}

/// One process of a snapshot, as the list reads it.
#[derive(Debug, PartialEq, Eq)]
pub struct ProcessRecord {
    pub pid: usize,
    /// The owning user's name; `None` where it could not be resolved.
    pub owner: Option<String>,
    pub name: String,
}

/// Why a search could not be carried out.
#[derive(Clone, Copy, Debug, PartialEq, Eq, Structural)]
pub enum SearchError {
    /// A regular expression of the search does not compile.
    InvalidPattern,
}

/// The records that a sequence of borrowed records refers to.
pub open spec fn records(v: Seq<&ProcessRecord>) -> Seq<ProcessRecord> {
    v.map_values(|r: &ProcessRecord| *r)
}

/// Whether one clause of a label query holds of a record. `pid` compares
/// numbers, `owner` and `name` test for a substring under the case mode; with
/// regex mode a `name` value is a regular expression.
pub open spec fn clause_holds(
    c: LabelSpec,
    r: ProcessRecord,
    regex: bool,
    case_sensitive: bool,
) -> bool {
    match c {
        LabelSpec::Pid(n) => r.pid as nat == n,
        LabelSpec::Owner(o) => match r.owner {
            Some(u) => contains_seq(fold(u@, case_sensitive), fold(o, case_sensitive)),
            None => false,
        },
        LabelSpec::Name(t) => if regex {
            pattern_matches(t, r.name@)
        } else {
            contains_seq(fold(r.name@, case_sensitive), fold(t, case_sensitive))
        },
    }
}

/// Every clause holds of the record.
pub open spec fn all_clauses_hold(
    cs: Seq<LabelSpec>,
    r: ProcessRecord,
    regex: bool,
    case_sensitive: bool,
) -> bool {
    forall|k: int| 0 <= k < cs.len() ==> clause_holds(#[trigger] cs[k], r, regex, case_sensitive)
}

/// With regex mode on, every `name` value is a pattern that compiles.
pub open spec fn patterns_compile(cs: Seq<LabelSpec>, regex: bool) -> bool {
    regex ==> forall|k: int|
        0 <= k < cs.len() ==> (#[trigger] cs[k] matches LabelSpec::Name(t) ==> pattern_compiles(t))
}

fn clause_ok(
    l: &Label,
    pat: &Option<Pattern>,
    r: &ProcessRecord,
    regex: bool,
    case_sensitive: bool,
) -> (b: bool)
    requires
        l matches Label::Name(t) ==> (regex ==> (*pat matches Some(q) && q.source() == t@)),
    ensures
        b == clause_holds(l@, *r, regex, case_sensitive),
{
    match l {
        Label::Pid(n) => r.pid == *n,
        Label::Owner(o) => match &r.owner {
            Some(u) => text_contains(u.as_str(), o.as_str(), case_sensitive),
            None => false,
        },
        Label::Name(t) => if regex {
            match pat {
                Some(q) => q.is_match(r.name.as_str()),
                None => false,
            }
        } else {
            text_contains(r.name.as_str(), t.as_str(), case_sensitive)
        },
    }
}

/// The text a record is ordered by in a text column; an unresolved owner
/// orders as the empty string.
pub open spec fn key_text(r: ProcessRecord, col: Columns) -> Seq<char> {
    match col {
        Columns::Owner => match r.owner {
            Some(u) => u@,
            None => Seq::empty(),
        },
        _ => r.name@,
    }
}

/// `a` orders strictly before `b` in ascending order of the column: pids as
/// numbers, owners and names as text under the case mode.
pub open spec fn key_lt(a: ProcessRecord, b: ProcessRecord, col: Columns, case_sensitive: bool) -> bool {
    match col {
        Columns::Pid => a.pid < b.pid,
        _ => lex_lt(fold(key_text(a, col), case_sensitive), fold(key_text(b, col), case_sensitive)),
    }
}

/// `a` orders strictly before `b` in the column and direction.
pub open spec fn goes_before(
    a: ProcessRecord,
    b: ProcessRecord,
    col: Columns,
    order: Order,
    case_sensitive: bool,
) -> bool {
    match order {
        Order::Asc => key_lt(a, b, col, case_sensitive),
        Order::Desc => key_lt(b, a, col, case_sensitive),
    }
}

/// Where `x` goes in `p`: before the first element that it orders strictly
/// before, or at the end.
pub open spec fn insert_pos(
    p: Seq<ProcessRecord>,
    x: ProcessRecord,
    col: Columns,
    order: Order,
    case_sensitive: bool,
) -> int
    decreases p.len(),
{
    if p.len() == 0 || goes_before(x, p[0], col, order, case_sensitive) {
        0
    } else {
        1 + insert_pos(p.drop_first(), x, col, order, case_sensitive)
    }
}

/// The stable ordering of `s` by the column and direction: each element, in
/// turn, goes after every element placed so far that it does not order
/// strictly before.
pub open spec fn sorted_spec(
    s: Seq<ProcessRecord>,
    col: Columns,
    order: Order,
    case_sensitive: bool,
) -> Seq<ProcessRecord>
    decreases s.len(),
{
    if s.len() == 0 {
        s
    } else {
        let p = sorted_spec(s.drop_last(), col, order, case_sensitive);
        p.insert(insert_pos(p, s.last(), col, order, case_sensitive), s.last())
    }
}

fn key_less(x: &ProcessRecord, y: &ProcessRecord, col: Columns, case_sensitive: bool) -> (r: bool)
    ensures
        r == key_lt(*x, *y, col, case_sensitive),
{
    match col {
        Columns::Pid => x.pid < y.pid,
        Columns::Owner => {
            proof {
                reveal_strlit("");
            }
            let xo = match &x.owner {
                Some(u) => u.as_str(),
                None => "",
            };
            let yo = match &y.owner {
                Some(u) => u.as_str(),
                None => "",
            };
            assert(xo@ =~= key_text(*x, col));
            assert(yo@ =~= key_text(*y, col));
            text_lt(xo, yo, case_sensitive)
        },
        Columns::Name => text_lt(x.name.as_str(), y.name.as_str(), case_sensitive),
    }
}

/// Whether `a` orders strictly before `b` in the column and direction.
pub fn precedes(
    a: &ProcessRecord,
    b: &ProcessRecord,
    col: Columns,
    order: Order,
    case_sensitive: bool,
) -> (r: bool)
    ensures
        r == goes_before(*a, *b, col, order, case_sensitive),
{
    match order {
        Order::Asc => key_less(a, b, col, case_sensitive),
        Order::Desc => key_less(b, a, col, case_sensitive),
    }
}

proof fn lemma_insert_pos_bound(
    p: Seq<ProcessRecord>,
    x: ProcessRecord,
    col: Columns,
    order: Order,
    case_sensitive: bool,
)
    ensures
        0 <= insert_pos(p, x, col, order, case_sensitive) <= p.len(),
    decreases p.len(),
{
    if p.len() > 0 && !goes_before(x, p[0], col, order, case_sensitive) {
        lemma_insert_pos_bound(p.drop_first(), x, col, order, case_sensitive);
    }
}

proof fn lemma_sorted_len(s: Seq<ProcessRecord>, col: Columns, order: Order, case_sensitive: bool)
    ensures
        sorted_spec(s, col, order, case_sensitive).len() == s.len(),
    decreases s.len(),
{
    if s.len() > 0 {
        lemma_sorted_len(s.drop_last(), col, order, case_sensitive);
        let p = sorted_spec(s.drop_last(), col, order, case_sensitive);
        lemma_insert_pos_bound(p, s.last(), col, order, case_sensitive);
    }
}

/// `records` ordered stably by the column and direction.
pub fn sort_records<'a>(
    records_in: Vec<&'a ProcessRecord>,
    col: Columns,
    order: Order,
    case_sensitive: bool,
) -> (r: Vec<&'a ProcessRecord>)
    ensures
        records(r@) == sorted_spec(records(records_in@), col, order, case_sensitive),
{
    let ghost src = records(records_in@);
    let mut out: Vec<&'a ProcessRecord> = Vec::new();
    assert(records(out@) =~= sorted_spec(src.take(0), col, order, case_sensitive));
    for i in 0..records_in.len()
        invariant
            src == records(records_in@),
            records(out@) == sorted_spec(src.take(i as int), col, order, case_sensitive),
            out.len() == i,
    {
        let x = records_in[i];
        let ghost p = records(out@);
        proof {
            lemma_sorted_len(src.take(i as int), col, order, case_sensitive);
        }
        let mut j: usize = 0;
        assert(p.skip(0) =~= p);
        while j < out.len() && !precedes(x, out[j], col, order, case_sensitive)
            invariant
                j <= out.len(),
                p == records(out@),
                insert_pos(p, *x, col, order, case_sensitive) == j + insert_pos(
                    p.skip(j as int),
                    *x,
                    col,
                    order,
                    case_sensitive,
                ),
            decreases out.len() - j,
        {
            assert(p.skip(j as int).drop_first() =~= p.skip(j + 1));
            j = j + 1;
        }
        assert(j < out.len() ==> p.skip(j as int)[0] == p[j as int]);
        out.insert(j, x);
        assert(src.take(i + 1).drop_last() =~= src.take(i as int));
        assert(records(out@) =~= p.insert(j as int, *x));
    }
    assert(src.take(records_in.len() as int) =~= src);
    out
}

/// Search text, search modes, and the ordering of the process list.
pub struct ProcessListState {
    pub search: String,
    pub regex: bool,
    pub label_search: bool,
    /// Whether the search field has yet to take the focus.
    pub first: bool,
    pub sort: Columns,
    pub order: Order,
    pub case_sensitive: bool,
}

impl Default for ProcessListState {
    fn default() -> (r: Self)
        ensures
            r.search@ == Seq::<char>::empty(),
            !r.regex,
            !r.label_search,
            r.first,
            r.sort == Columns::Pid,
            r.order == Order::Asc,
            !r.case_sensitive,
    {
        ProcessListState {
            search: String::new(),
            regex: false,
            label_search: false,
            first: true,
            sort: Columns::Pid,
            order: Order::Asc,
            case_sensitive: false,
        }
    }
}

/// A search made ready to test records against.
enum Prepared {
    Plain,
    Regex(Pattern),
    Labels(Vec<Label>, Vec<Option<Pattern>>),
    Nothing,
}

impl ProcessListState {
    /// Whether the record is kept by the current search. A malformed label
    /// query keeps nothing; the empty label query keeps everything.
    pub open spec fn matches_spec(&self, r: ProcessRecord) -> bool {
        if self.label_search {
            match parse_spec(self.search@) {
                Some(cs) => all_clauses_hold(cs, r, self.regex, self.case_sensitive),
                None => false,
            }
        } else if self.regex {
            pattern_matches(self.search@, r.name@)
        } else {
            contains_seq(fold(r.name@, self.case_sensitive), fold(self.search@, self.case_sensitive))
        }
    }

    /// Whether the current search can be carried out: every regular
    /// expression it uses compiles.
    pub open spec fn search_ok(&self) -> bool {
        if self.label_search {
            match parse_spec(self.search@) {
                Some(cs) => patterns_compile(cs, self.regex),
                None => true,
            }
        } else if self.regex {
            pattern_compiles(self.search@)
        } else {
            true
        }
    }

    /// The records of `snapshot` that the search keeps, in snapshot order.
    pub open spec fn filter_spec(&self, snapshot: Seq<ProcessRecord>) -> Seq<ProcessRecord> {
        snapshot.filter(|r: ProcessRecord| self.matches_spec(r))
    }

    spec fn prepared_for(&self, p: Prepared) -> bool {
        match p {
            Prepared::Plain => !self.label_search && !self.regex,
            Prepared::Regex(pat) => !self.label_search && self.regex && pat.source()
                == self.search@,
            Prepared::Labels(ls, pats) => self.label_search && parse_spec(self.search@)
                == Some(labels_view(ls@)) && pats.len() == ls.len() && forall|k: int|
                0 <= k < ls.len() ==> match #[trigger] ls@[k] {
                    Label::Name(t) => self.regex ==> (pats@[k] matches Some(q) && q.source()
                        == t@),
                    _ => true,
                },
            Prepared::Nothing => self.label_search && parse_spec(self.search@) is None,
        }
    }

    /// Whether the search keeps one record; an error where a regular
    /// expression of the search does not compile.
    pub fn matches(&self, r: &ProcessRecord) -> (b: Result<bool, SearchError>)
        ensures
            b is Err <==> !self.search_ok(),
            b matches Ok(m) ==> m == self.matches_spec(*r),
    {
        let p = self.prepare()?;
        Ok(self.keep(&p, r))
    }

    /// The search result of `snapshot`, ordered by the active column and
    /// direction.
    pub open spec fn view_spec(&self, snapshot: Seq<ProcessRecord>) -> Seq<ProcessRecord> {
        sorted_spec(self.filter_spec(snapshot), self.sort, self.order, self.case_sensitive)
    }

    /// The records of `snapshot` that the search keeps, ordered by the active
    /// column and direction; an error where a regular expression of the search
    /// does not compile.
    pub fn sorted_processes<'a>(&self, snapshot: &'a Vec<ProcessRecord>) -> (r: Result<
        Vec<&'a ProcessRecord>,
        SearchError,
    >)
        ensures
            r is Err <==> !self.search_ok(),
            r matches Ok(v) ==> records(v@) == self.view_spec(snapshot@),
    {
        let found = self.filtered_processes(snapshot)?;
        Ok(sort_records(found, self.sort, self.order, self.case_sensitive))
    }

    /// A click on a column header: the active column flips its direction,
    /// another column becomes active in ascending order.
    pub fn select_column(&mut self, col: Columns)
        ensures
            (final(self).sort, final(self).order) == select_spec(old(self).sort, old(self).order, col),
            final(self).search == old(self).search,
            final(self).regex == old(self).regex,
            final(self).label_search == old(self).label_search,
            final(self).first == old(self).first,
            final(self).case_sensitive == old(self).case_sensitive,
    {
        if self.sort == col {
            self.order = std::ops::Not::not(self.order);
        } else {
            self.order = Order::Asc;
        }
        self.sort = col;
    }

    fn keep(&self, p: &Prepared, r: &ProcessRecord) -> (b: bool)
        requires
            self.prepared_for(*p),
        ensures
            b == self.matches_spec(*r),
    {
        match p {
            Prepared::Plain => text_contains(r.name.as_str(), self.search.as_str(), self.case_sensitive),
            Prepared::Regex(q) => q.is_match(r.name.as_str()),
            Prepared::Nothing => false,
            Prepared::Labels(ls, pats) => {
                let ghost cs = labels_view(ls@);
                let mut all = true;
                for k in 0..ls.len()
                    invariant
                        self.prepared_for(*p),
                        *p == Prepared::Labels(*ls, *pats),
                        cs == labels_view(ls@),
                        all == forall|m: int| 0 <= m < k ==> clause_holds(#[trigger] cs[m], *r, self.regex, self.case_sensitive),
                {
                    assert(cs[k as int] == ls@[k as int]@);
                    let ok = clause_ok(&ls[k], &pats[k], r, self.regex, self.case_sensitive);
                    all = all && ok;
                }
                all
            },
        }
    }

    /// The records of `snapshot` that the search keeps, in snapshot order;
    /// an error where a regular expression of the search does not compile.
    pub fn filtered_processes<'a>(&self, snapshot: &'a Vec<ProcessRecord>) -> (r: Result<
        Vec<&'a ProcessRecord>,
        SearchError,
    >)
        ensures
            r is Err <==> !self.search_ok(),
            r matches Ok(v) ==> records(v@) == self.filter_spec(snapshot@),
    {
        let p = match self.prepare() {
            Err(e) => return Err(e),
            Ok(p) => p,
        };
        let mut out: Vec<&'a ProcessRecord> = Vec::new();
        proof {
            reveal(Seq::filter);
        }
        for i in 0..snapshot.len()
            invariant
                self.prepared_for(p),
                records(out@) == self.filter_spec(snapshot@.take(i as int)),
        {
            let ghost before = out@;
            let r = &snapshot[i];
            assert(snapshot@.take(i + 1).drop_last() =~= snapshot@.take(i as int));
            assert(snapshot@.take(i + 1).last() == *r);
            proof {
                reveal(Seq::filter);
            }
            if self.keep(&p, r) {
                out.push(r);
                assert(records(out@) =~= records(before).push(*r));
            }
        }
        assert(snapshot@.take(snapshot.len() as int) =~= snapshot@);
        Ok(out)
    }

    fn prepare(&self) -> (r: Result<Prepared, SearchError>)
        ensures
            r is Err <==> !self.search_ok(),
            r matches Ok(p) ==> self.prepared_for(p),
    {
        if self.label_search {
            let labels = match parse_labels(self.search.as_str()) {
                Err(_) => return Ok(Prepared::Nothing),
                Ok(ls) => ls,
            };
            let ghost cs = labels_view(labels@);
            let mut pats: Vec<Option<Pattern>> = Vec::new();
            for i in 0..labels.len()
                invariant
                    self.label_search,
                    cs == labels_view(labels@),
                    parse_spec(self.search@) == Some(cs),
                    pats.len() == i,
                    forall|k: int| 0 <= k < i ==> match #[trigger] labels@[k] {
                        Label::Name(t) => self.regex ==> (pats@[k] matches Some(q) && q.source()
                            == t@),
                        _ => true,
                    },
                    self.regex ==> forall|k: int| 0 <= k < i ==> (#[trigger] cs[k] matches LabelSpec::Name(t) ==> pattern_compiles(t)),
            {
                match &labels[i] {
                    Label::Name(t) => if self.regex {
                        match Pattern::compile(t.as_str()) {
                            None => {
                                assert(cs[i as int] == labels@[i as int]@);
                                assert(cs[i as int] == LabelSpec::Name(t@));
                                assert(!(cs[i as int] matches LabelSpec::Name(u) ==> pattern_compiles(u)));
                                return Err(SearchError::InvalidPattern);
                            },
                            Some(q) => pats.push(Some(q)),
                        }
                    } else {
                        pats.push(None);
                    },
                    _ => pats.push(None),
                }
                assert(cs[i as int] == labels@[i as int]@);
            }
            Ok(Prepared::Labels(labels, pats))
        } else if self.regex {
            match Pattern::compile(self.search.as_str()) {
                None => Err(SearchError::InvalidPattern),
                Some(q) => Ok(Prepared::Regex(q)),
            }
        } else {
            Ok(Prepared::Plain)
        }
    }
}

/// The active column and direction after a click on the header of `col`.
pub open spec fn select_spec(sort: Columns, order: Order, col: Columns) -> (Columns, Order) {
    if sort == col {
        (col, flip(order))
    } else {
        (col, Order::Asc)
    }
}

proof fn lemma_filter_mem(s: Seq<ProcessRecord>, pred: spec_fn(ProcessRecord) -> bool, x: ProcessRecord)
    ensures
        s.filter(pred).contains(x) <==> s.contains(x) && pred(x),
    decreases s.len(),
{
    reveal(Seq::filter);
    if s.len() > 0 {
        lemma_filter_mem(s.drop_last(), pred, x);
        assert(s =~= s.drop_last().push(s.last()));
        if s.drop_last().contains(x) {
            let k = choose|k: int| 0 <= k < s.drop_last().len() && s.drop_last()[k] == x;
            assert(s[k] == x);
        }
        if pred(s.last()) {
            let f = s.drop_last().filter(pred);
            if f.contains(x) {
                let k = choose|k: int| 0 <= k < f.len() && f[k] == x;
                assert(f.push(s.last())[k] == x);
            }
            assert(f.push(s.last())[f.len() as int] == s.last());
        }
        if s.contains(x) {
            let k = choose|k: int| 0 <= k < s.len() && s[k] == x;
            if k < s.len() - 1 {
                assert(s.drop_last()[k] == x);
            }
        }
    }
}

proof fn lemma_filter_none(s: Seq<ProcessRecord>, pred: spec_fn(ProcessRecord) -> bool)
    requires
        forall|x: ProcessRecord| !#[trigger] pred(x),
    ensures
        s.filter(pred) == Seq::<ProcessRecord>::empty(),
    decreases s.len(),
{
    reveal(Seq::filter);
    if s.len() > 0 {
        lemma_filter_none(s.drop_last(), pred);
    } else {
        assert(s =~= Seq::<ProcessRecord>::empty());
    }
}

/// The records of `snapshot` that one clause keeps, in snapshot order.
pub open spec fn clause_result(
    snapshot: Seq<ProcessRecord>,
    c: LabelSpec,
    regex: bool,
    case_sensitive: bool,
) -> Seq<ProcessRecord> {
    snapshot.filter(|x: ProcessRecord| clause_holds(c, x, regex, case_sensitive))
}

/// Under a well-formed label query, a record is kept exactly when it is in
/// the snapshot and each clause, on its own, keeps it: the result is the
/// intersection of the clauses' results.
pub proof fn lemma_clauses_intersect(
    st: ProcessListState,
    cs: Seq<LabelSpec>,
    snapshot: Seq<ProcessRecord>,
    r: ProcessRecord,
)
    requires
        st.label_search,
        parse_spec(st.search@) == Some(cs),
    ensures
        st.filter_spec(snapshot).contains(r) <==> snapshot.contains(r) && forall|k: int|
            0 <= k < cs.len() ==> #[trigger] clause_result(snapshot, cs[k], st.regex, st.case_sensitive).contains(r),
{
    lemma_filter_mem(snapshot, |x: ProcessRecord| st.matches_spec(x), r);
    assert forall|k: int| 0 <= k < cs.len() implies (#[trigger] clause_result(snapshot, cs[k], st.regex, st.case_sensitive).contains(r) <==> snapshot.contains(r) && clause_holds(cs[k], r, st.regex, st.case_sensitive)) by {
        lemma_filter_mem(
            snapshot,
            |x: ProcessRecord| clause_holds(cs[k], x, st.regex, st.case_sensitive),
            r,
        );
    }
    if snapshot.contains(r) && !all_clauses_hold(cs, r, st.regex, st.case_sensitive) {
        let k = choose|k: int|
            0 <= k < cs.len() && !clause_holds(#[trigger] cs[k], r, st.regex, st.case_sensitive);
        assert(!clause_result(snapshot, cs[k], st.regex, st.case_sensitive).contains(r));
    }
}

/// A malformed label query is no error and keeps no record.
pub proof fn lemma_malformed_keeps_nothing(st: ProcessListState, snapshot: Seq<ProcessRecord>)
    requires
        st.label_search,
        parse_spec(st.search@) is None,
    ensures
        st.search_ok(),
        st.filter_spec(snapshot) == Seq::<ProcessRecord>::empty(),
{
    lemma_filter_none(snapshot, |x: ProcessRecord| st.matches_spec(x));
}

/// Two clicks on the header of the active column restore its direction, and
/// so the order of the result.
pub proof fn lemma_select_twice(st: ProcessListState, col: Columns, snapshot: Seq<ProcessRecord>)
    requires
        st.sort == col,
    ensures
        ({
            let (c1, o1) = select_spec(st.sort, st.order, col);
            let (c2, o2) = select_spec(c1, o1, col);
            &&& c2 == st.sort
            &&& o2 == st.order
            &&& (ProcessListState { sort: c2, order: o2, ..st }).view_spec(snapshot) == st.view_spec(
                snapshot,
            )
        }),
{
    let (c1, o1) = select_spec(st.sort, st.order, col);
    let (c2, o2) = select_spec(c1, o1, col);
    let st2 = ProcessListState { sort: c2, order: o2, ..st };
    assert(st2.search == st.search);
    assert(forall|x: ProcessRecord| st2.matches_spec(x) == st.matches_spec(x));
    assert(st2.filter_spec(snapshot) == st.filter_spec(snapshot));
}

/// Without case sensitivity, a plain search gives the same answer when the
/// search text and the process name are replaced by texts with the same
/// lower-case forms.
pub proof fn lemma_case_insensitive_match(
    st: ProcessListState,
    search2: String,
    r: ProcessRecord,
    name2: String,
)
    requires
        !st.case_sensitive,
        !st.regex,
        !st.label_search,
        lower_of(search2@) == lower_of(st.search@),
        lower_of(name2@) == lower_of(r.name@),
    ensures
        (ProcessListState { search: search2, ..st }).matches_spec(ProcessRecord { name: name2, ..r })
            == st.matches_spec(r),
{
}

/// No element of `s` orders strictly before an element that precedes it.
pub open spec fn is_sorted(s: Seq<ProcessRecord>, col: Columns, order: Order, case_sensitive: bool) -> bool {
    forall|i: int, j: int|
        0 <= i < j < s.len() ==> !goes_before(#[trigger] s[j], #[trigger] s[i], col, order, case_sensitive)
}

proof fn lemma_before_asym(a: ProcessRecord, b: ProcessRecord, col: Columns, order: Order, case_sensitive: bool)
    ensures
        goes_before(a, b, col, order, case_sensitive) ==> !goes_before(b, a, col, order, case_sensitive),
{
    lemma_lex_asym(fold(key_text(a, col), case_sensitive), fold(key_text(b, col), case_sensitive));
    lemma_lex_asym(fold(key_text(b, col), case_sensitive), fold(key_text(a, col), case_sensitive));
}

proof fn lemma_before_trans(
    a: ProcessRecord,
    b: ProcessRecord,
    c: ProcessRecord,
    col: Columns,
    order: Order,
    case_sensitive: bool,
)
    requires
        goes_before(a, b, col, order, case_sensitive),
        goes_before(b, c, col, order, case_sensitive),
    ensures
        goes_before(a, c, col, order, case_sensitive),
{
    let ka = fold(key_text(a, col), case_sensitive);
    let kb = fold(key_text(b, col), case_sensitive);
    let kc = fold(key_text(c, col), case_sensitive);
    if col != Columns::Pid {
        match order {
            Order::Asc => lemma_lex_trans(ka, kb, kc),
            Order::Desc => lemma_lex_trans(kc, kb, ka),
        }
    }
}

proof fn lemma_insert_pos_props(
    p: Seq<ProcessRecord>,
    x: ProcessRecord,
    col: Columns,
    order: Order,
    case_sensitive: bool,
)
    ensures
        forall|j: int|
            0 <= j < insert_pos(p, x, col, order, case_sensitive) ==> !goes_before(
                x,
                #[trigger] p[j],
                col,
                order,
                case_sensitive,
            ),
        insert_pos(p, x, col, order, case_sensitive) < p.len() ==> goes_before(
            x,
            p[insert_pos(p, x, col, order, case_sensitive)],
            col,
            order,
            case_sensitive,
        ),
    decreases p.len(),
{
    lemma_insert_pos_bound(p, x, col, order, case_sensitive);
    if p.len() > 0 && !goes_before(x, p[0], col, order, case_sensitive) {
        let q = p.drop_first();
        lemma_insert_pos_props(q, x, col, order, case_sensitive);
        lemma_insert_pos_bound(q, x, col, order, case_sensitive);
        let k = insert_pos(q, x, col, order, case_sensitive);
        if k < q.len() {
            assert(p[k + 1] == q[k]);
        }
        assert forall|j: int| 0 <= j < insert_pos(p, x, col, order, case_sensitive) implies !goes_before(
            x,
            #[trigger] p[j],
            col,
            order,
            case_sensitive,
        ) by {
            if j > 0 {
                assert(p[j] == q[j - 1]);
            }
        }
    }
}

proof fn lemma_insert_keeps_sorted(
    p: Seq<ProcessRecord>,
    x: ProcessRecord,
    col: Columns,
    order: Order,
    case_sensitive: bool,
)
    requires
        is_sorted(p, col, order, case_sensitive),
    ensures
        is_sorted(
            p.insert(insert_pos(p, x, col, order, case_sensitive), x),
            col,
            order,
            case_sensitive,
        ),
{
    let k = insert_pos(p, x, col, order, case_sensitive);
    lemma_insert_pos_bound(p, x, col, order, case_sensitive);
    lemma_insert_pos_props(p, x, col, order, case_sensitive);
    let q = p.insert(k, x);
    assert forall|i: int, j: int| 0 <= i < j < q.len() implies !goes_before(
        #[trigger] q[j],
        #[trigger] q[i],
        col,
        order,
        case_sensitive,
    ) by {
        if i == k {
            lemma_before_asym(x, p[k], col, order, case_sensitive);
            if j - 1 > k {
                assert(!goes_before(p[j - 1], p[k], col, order, case_sensitive));
                if goes_before(p[j - 1], x, col, order, case_sensitive) {
                    lemma_before_trans(p[j - 1], x, p[k], col, order, case_sensitive);
                }
            }
        } else if j == k {
            assert(q[i] == p[i]);
        } else if i > k {
            assert(q[i] == p[i - 1] && q[j] == p[j - 1]);
        } else if j > k {
            assert(q[i] == p[i] && q[j] == p[j - 1]);
        } else {
            assert(q[i] == p[i] && q[j] == p[j]);
        }
    }
}

/// The stable ordering is sorted by the column and direction.
pub proof fn lemma_sorted_spec_sorted(
    s: Seq<ProcessRecord>,
    col: Columns,
    order: Order,
    case_sensitive: bool,
)
    ensures
        is_sorted(sorted_spec(s, col, order, case_sensitive), col, order, case_sensitive),
    decreases s.len(),
{
    if s.len() > 0 {
        lemma_sorted_spec_sorted(s.drop_last(), col, order, case_sensitive);
        lemma_insert_keeps_sorted(
            sorted_spec(s.drop_last(), col, order, case_sensitive),
            s.last(),
            col,
            order,
            case_sensitive,
        );
    }
}

/// Ordering a sequence that is already sorted leaves it as it is.
pub proof fn lemma_sorted_fixed(s: Seq<ProcessRecord>, col: Columns, order: Order, case_sensitive: bool)
    requires
        is_sorted(s, col, order, case_sensitive),
    ensures
        sorted_spec(s, col, order, case_sensitive) == s,
    decreases s.len(),
{
    if s.len() > 0 {
        let p = s.drop_last();
        assert(is_sorted(p, col, order, case_sensitive)) by {
            assert forall|i: int, j: int| 0 <= i < j < p.len() implies !goes_before(
                #[trigger] p[j],
                #[trigger] p[i],
                col,
                order,
                case_sensitive,
            ) by {
                assert(p[i] == s[i] && p[j] == s[j]);
            }
        }
        lemma_sorted_fixed(p, col, order, case_sensitive);
        lemma_insert_pos_bound(p, s.last(), col, order, case_sensitive);
        lemma_insert_pos_props(p, s.last(), col, order, case_sensitive);
        let k = insert_pos(p, s.last(), col, order, case_sensitive);
        if k < p.len() {
            assert(s[k] == p[k]);
            assert(!goes_before(s[s.len() - 1], s[k], col, order, case_sensitive));
        }
        assert(p.insert(p.len() as int, s.last()) =~= s);
    }
}

/// Ordering rearranges: every record occurs as often in the result as in
/// the input.
pub proof fn lemma_sort_permutes(s: Seq<ProcessRecord>, col: Columns, order: Order, case_sensitive: bool)
    ensures
        sorted_spec(s, col, order, case_sensitive).to_multiset() == s.to_multiset(),
    decreases s.len(),
{
    broadcast use vstd::seq_lib::group_to_multiset_ensures;

    if s.len() > 0 {
        let p = sorted_spec(s.drop_last(), col, order, case_sensitive);
        lemma_sort_permutes(s.drop_last(), col, order, case_sensitive);
        lemma_insert_pos_bound(p, s.last(), col, order, case_sensitive);
        vstd::seq_lib::to_multiset_insert(p, insert_pos(p, s.last(), col, order, case_sensitive), s.last());
        assert(s =~= s.drop_last().push(s.last()));
    }
}

/// Ordering twice by the same column and direction gives what ordering once
/// gives.
pub proof fn lemma_sort_idempotent(s: Seq<ProcessRecord>, col: Columns, order: Order, case_sensitive: bool)
    ensures
        sorted_spec(sorted_spec(s, col, order, case_sensitive), col, order, case_sensitive)
            == sorted_spec(s, col, order, case_sensitive),
{
    lemma_sorted_spec_sorted(s, col, order, case_sensitive);
    lemma_sorted_fixed(sorted_spec(s, col, order, case_sensitive), col, order, case_sensitive);
}

/// `a` and `b` have the same key in the column: equal pids, or texts equal
/// under the case mode.
pub open spec fn same_key(a: ProcessRecord, b: ProcessRecord, col: Columns, case_sensitive: bool) -> bool {
    match col {
        Columns::Pid => a.pid == b.pid,
        _ => fold(key_text(a, col), case_sensitive) == fold(key_text(b, col), case_sensitive),
    }
}

/// The records of `s` whose key equals that of `e`, in the order of `s`.
pub open spec fn key_class(
    s: Seq<ProcessRecord>,
    e: ProcessRecord,
    col: Columns,
    case_sensitive: bool,
) -> Seq<ProcessRecord> {
    s.filter(|x: ProcessRecord| same_key(x, e, col, case_sensitive))
}

proof fn lemma_before_keys(
    a: ProcessRecord,
    b: ProcessRecord,
    c: ProcessRecord,
    col: Columns,
    order: Order,
    case_sensitive: bool,
)
    ensures
        same_key(a, b, col, case_sensitive) ==> !goes_before(a, b, col, order, case_sensitive),
        !same_key(a, b, col, case_sensitive) ==> goes_before(a, b, col, order, case_sensitive)
            || goes_before(b, a, col, order, case_sensitive),
        same_key(b, c, col, case_sensitive) ==> (goes_before(a, b, col, order, case_sensitive)
            == goes_before(a, c, col, order, case_sensitive)),
{
    let ka = fold(key_text(a, col), case_sensitive);
    let kb = fold(key_text(b, col), case_sensitive);
    lemma_lex_asym(ka, kb);
    lemma_lex_asym(ka, ka);
    lemma_lex_total(ka, kb);
}

proof fn lemma_after_insert_pos(
    p: Seq<ProcessRecord>,
    x: ProcessRecord,
    col: Columns,
    order: Order,
    case_sensitive: bool,
    j: int,
)
    requires
        is_sorted(p, col, order, case_sensitive),
        insert_pos(p, x, col, order, case_sensitive) <= j < p.len(),
    ensures
        goes_before(x, p[j], col, order, case_sensitive),
{
    let k = insert_pos(p, x, col, order, case_sensitive);
    lemma_insert_pos_bound(p, x, col, order, case_sensitive);
    lemma_insert_pos_props(p, x, col, order, case_sensitive);
    if j > k {
        assert(!goes_before(p[j], p[k], col, order, case_sensitive));
        lemma_before_keys(p[k], p[j], p[j], col, order, case_sensitive);
        lemma_before_keys(x, p[k], p[j], col, order, case_sensitive);
        if goes_before(p[k], p[j], col, order, case_sensitive) {
            lemma_before_trans(x, p[k], p[j], col, order, case_sensitive);
        }
    }
}

proof fn lemma_insert_class(
    p: Seq<ProcessRecord>,
    x: ProcessRecord,
    e: ProcessRecord,
    col: Columns,
    order: Order,
    case_sensitive: bool,
)
    requires
        is_sorted(p, col, order, case_sensitive),
    ensures
        key_class(p.insert(insert_pos(p, x, col, order, case_sensitive), x), e, col, case_sensitive)
            == if same_key(x, e, col, case_sensitive) {
            key_class(p, e, col, case_sensitive).push(x)
        } else {
            key_class(p, e, col, case_sensitive)
        },
{
    let k = insert_pos(p, x, col, order, case_sensitive);
    lemma_insert_pos_bound(p, x, col, order, case_sensitive);
    let pred = |y: ProcessRecord| same_key(y, e, col, case_sensitive);
    let front = p.take(k);
    let back = p.skip(k);
    assert(p =~= front + back);
    assert(p.insert(k, x) =~= front + seq![x] + back);
    Seq::filter_distributes_over_add(front, back, pred);
    Seq::filter_distributes_over_add(front + seq![x], back, pred);
    Seq::filter_distributes_over_add(front, seq![x], pred);
    reveal(Seq::filter);
    assert(seq![x].drop_last() =~= Seq::<ProcessRecord>::empty());
    if same_key(x, e, col, case_sensitive) {
        assert forall|y: ProcessRecord| #[trigger] back.contains(y) implies !pred(y) by {
            let j = choose|j: int| 0 <= j < back.len() && back[j] == y;
            lemma_after_insert_pos(p, x, col, order, case_sensitive, k + j);
            assert(back[j] == p[k + j]);
            lemma_before_keys(x, y, y, col, order, case_sensitive);
            lemma_before_keys(x, x, y, col, order, case_sensitive);
        }
        lemma_filter_all_out(back, pred);
        assert(seq![x].filter(pred) =~= seq![x]);
    } else {
        assert(!pred(x));
        assert(seq![x].last() == x);
        assert(seq![x].drop_last().filter(pred) =~= Seq::<ProcessRecord>::empty());
        assert(seq![x].filter(pred) =~= Seq::<ProcessRecord>::empty());
    }
}

proof fn lemma_filter_all_out(s: Seq<ProcessRecord>, pred: spec_fn(ProcessRecord) -> bool)
    requires
        forall|y: ProcessRecord| #[trigger] s.contains(y) ==> !pred(y),
    ensures
        s.filter(pred) == Seq::<ProcessRecord>::empty(),
    decreases s.len(),
{
    reveal(Seq::filter);
    if s.len() > 0 {
        assert forall|y: ProcessRecord| #[trigger] s.drop_last().contains(y) implies !pred(y) by {
            let j = choose|j: int| 0 <= j < s.drop_last().len() && s.drop_last()[j] == y;
            assert(s[j] == y);
            assert(s.contains(y));
        }
        lemma_filter_all_out(s.drop_last(), pred);
        assert(s.contains(s[s.len() - 1]));
    } else {
        assert(s =~= Seq::<ProcessRecord>::empty());
    }
}

/// Ordering is stable: the records that share a key with `e` keep their
/// relative order, whatever the column and direction.
pub proof fn lemma_sort_stable(
    s: Seq<ProcessRecord>,
    e: ProcessRecord,
    col: Columns,
    order: Order,
    case_sensitive: bool,
)
    ensures
        key_class(sorted_spec(s, col, order, case_sensitive), e, col, case_sensitive) == key_class(
            s,
            e,
            col,
            case_sensitive,
        ),
    decreases s.len(),
{
    if s.len() > 0 {
        let p = sorted_spec(s.drop_last(), col, order, case_sensitive);
        lemma_sort_stable(s.drop_last(), e, col, order, case_sensitive);
        lemma_sorted_spec_sorted(s.drop_last(), col, order, case_sensitive);
        lemma_insert_class(p, s.last(), e, col, order, case_sensitive);
        reveal(Seq::filter);
    } else {
        reveal(Seq::filter);
    }
}

} // verus!
