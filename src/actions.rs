//! A plan of file moves, its text form, and the statistics of a run.

use vstd::prelude::*;
use vstd::std_specs::iter::IteratorSpec;

verus! {

/// A planned move as (source, destination).
pub type PathPair = (Seq<char>, Seq<char>);

/// The moves of a list of string pairs.
pub open spec fn pairs_view(v: Seq<(String, String)>) -> Seq<PathPair> {
    v.map_values(|a: (String, String)| (a.0@, a.1@))
}

/// How many outcomes are successes.
pub open spec fn count_true(s: Seq<bool>) -> nat
    decreases s.len(),
{
    if s.len() == 0 {
        0
    } else {
        count_true(s.drop_last()) + if s.last() {
            1nat
        } else {
            0nat
        }
    }
}

/// How many outcomes are failures.
pub open spec fn count_false(s: Seq<bool>) -> nat
    decreases s.len(),
{
    if s.len() == 0 {
        0
    } else {
        count_false(s.drop_last()) + if s.last() {
            0nat
        } else {
            1nat
        }
    }
}

/// Every outcome is a success or a failure.
pub proof fn lemma_outcomes_split(s: Seq<bool>)
    ensures
        count_true(s) + count_false(s) == s.len(),
    decreases s.len(),
{
    if s.len() > 0 {
        lemma_outcomes_split(s.drop_last());
    }
}

/// The line that stands for one move: `"<source>" -> "<destination>"`.
pub open spec fn plan_line(a: PathPair) -> Seq<char> {
    seq!['"'] + a.0 + seq!['"', ' ', '-', '>', ' ', '"'] + a.1 + seq!['"', '\n']
}

/// The text of a plan: one line per move, in plan order.
pub open spec fn plan_text(plan: Seq<PathPair>) -> Seq<char>
    decreases plan.len(),
{
    if plan.len() == 0 {
        seq![]
    } else {
        plan_line(plan[0]) + plan_text(plan.drop_first())
    }
}

/// A line without its trailing carriage return, if it has one.
pub open spec fn strip_cr(l: Seq<char>) -> Seq<char> {
    if l.len() > 0 && l.last() == '\r' {
        l.drop_last()
    } else {
        l
    }
}

/// The lines of `t`, the current line having begun with `cur`: split at
/// each `\n`, without the carriage return that may end a line, and no
/// empty line after a final `\n`.
pub open spec fn lines_from(t: Seq<char>, cur: Seq<char>) -> Seq<Seq<char>>
    decreases t.len(),
{
    if t.len() == 0 {
        if cur.len() == 0 {
            seq![]
        } else {
            seq![strip_cr(cur)]
        }
    } else if t[0] == '\n' {
        seq![strip_cr(cur)] + lines_from(t.drop_first(), seq![])
    } else {
        lines_from(t.drop_first(), cur.push(t[0]))
    }
}

pub open spec fn text_lines(t: Seq<char>) -> Seq<Seq<char>> {
    lines_from(t, seq![])
}

/// The characters trimmed from both ends of each half of a plan line.
pub open spec fn is_trimmed(c: char) -> bool {
    c == ' ' || c == '"'
}

pub open spec fn trim_start(s: Seq<char>) -> Seq<char>
    decreases s.len(),
{
    if s.len() > 0 && is_trimmed(s[0]) {
        trim_start(s.drop_first())
    } else {
        s
    }
}

pub open spec fn trim_end(s: Seq<char>) -> Seq<char>
    decreases s.len(),
{
    if s.len() > 0 && is_trimmed(s.last()) {
        trim_end(s.drop_last())
    } else {
        s
    }
}

/// `s` without spaces and quotes at either end.
pub open spec fn trim(s: Seq<char>) -> Seq<char> {
    trim_end(trim_start(s))
}

pub open spec fn arrow_at(l: Seq<char>, k: int) -> bool {
    0 <= k && k + 1 < l.len() && l[k] == '-' && l[k + 1] == '>'
}

/// The first position at or after `from` where `->` starts, or -1.
pub open spec fn find_arrow(l: Seq<char>, from: int) -> int
    decreases l.len() - from,
{
    if from < 0 || from + 1 >= l.len() {
        -1
    } else if arrow_at(l, from) {
        from
    } else {
        find_arrow(l, from + 1)
    }
}

/// The move a plan line stands for: the line split at its first `->`, each
/// half trimmed; none when the line holds no `->`.
pub open spec fn parse_line(l: Seq<char>) -> Option<PathPair> {
    let k = find_arrow(l, 0);
    if k < 0 {
        None
    } else {
        Some((trim(l.subrange(0, k)), trim(l.subrange(k + 2, l.len() as int))))
    }
}

/// Every line stands for a move.
pub open spec fn all_lines_parse(ls: Seq<Seq<char>>) -> bool {
    forall|k: int| 0 <= k < ls.len() ==> (#[trigger] parse_line(ls[k])) is Some
}

/// The moves the lines stand for, in order.
pub open spec fn parsed_plan(ls: Seq<Seq<char>>) -> Seq<PathPair> {
    ls.map_values(|l: Seq<char>| parse_line(l)->0)
}

/// Why a plan text was refused.
#[derive(PartialEq, Eq, Structural, Clone, Copy, Debug)]
pub enum PlanError {
    /// The line with this number (counting from 1) holds no `->`.
    MalformedLine(usize),
}

/// Relies on `String`'s `FromIterator<char>`: the characters, in order.
#[verifier::external_body]
fn string_of(chars: &Vec<char>, from: usize, to: usize) -> (r: String)
    requires
        from <= to <= chars@.len(),
    ensures
        r@ == chars@.subrange(from as int, to as int),
{
    chars[from..to].iter().collect()
}

/// The characters of `s`, in order.
fn chars_of(s: &str) -> (r: Vec<char>)
    ensures
        r@ == s@,
{
    broadcast use vstd::string::axiom_spec_iter, vstd::string::next_postcondition;

    let mut it = s.chars();
    let mut out: Vec<char> = Vec::new();
    loop
        invariant
            out@ + it.remaining() == s@,
            it.obeys_prophetic_iter_laws(),
            it.decrease() is Some,
        ensures
            out@ == s@,
        decreases it.decrease()->0,
    {
        match it.next() {
            Some(c) => {
                out.push(c);
                assert(out@ + it.remaining() =~= s@);
            },
            None => {
                assert(out@ =~= s@);
                break ;
            },
        }
    }
    out
}

proof fn lemma_trim_start_steps(t: Seq<char>, a0: int, a: int, b: int)
    requires
        0 <= a0 <= a <= b <= t.len(),
        forall|k: int| a0 <= k < a ==> is_trimmed(#[trigger] t[k]),
    ensures
        trim_start(t.subrange(a0, b)) == trim_start(t.subrange(a, b)),
    decreases a - a0,
{
    if a0 < a {
        assert(t.subrange(a0, b).drop_first() =~= t.subrange(a0 + 1, b));
        lemma_trim_start_steps(t, a0 + 1, a, b);
    }
}

proof fn lemma_trim_end_steps(t: Seq<char>, a: int, b: int, b0: int)
    requires
        0 <= a <= b <= b0 <= t.len(),
        forall|k: int| b <= k < b0 ==> is_trimmed(#[trigger] t[k]),
    ensures
        trim_end(t.subrange(a, b0)) == trim_end(t.subrange(a, b)),
    decreases b0 - b,
{
    if b < b0 {
        assert(t.subrange(a, b0).drop_last() =~= t.subrange(a, b0 - 1));
        lemma_trim_end_steps(t, a, b, b0 - 1);
    }
}

/// `t[from..to]` trimmed of spaces and quotes at both ends.
fn trimmed(t: &Vec<char>, from: usize, to: usize) -> (r: String)
    requires
        from <= to <= t@.len(),
    ensures
        r@ == trim(t@.subrange(from as int, to as int)),
{
    let mut a = from;
    while a < to && (t[a] == ' ' || t[a] == '"')
        invariant
            from <= a <= to,
            to <= t@.len(),
            forall|k: int| from <= k < a ==> is_trimmed(#[trigger] t@[k]),
        decreases to - a,
    {
        a += 1;
    }
    proof {
        lemma_trim_start_steps(t@, from as int, a as int, to as int);
    }
    let mut b = to;
    while b > a && (t[b - 1] == ' ' || t[b - 1] == '"')
        invariant
            a <= b <= to,
            to <= t@.len(),
            forall|k: int| b <= k < to ==> is_trimmed(#[trigger] t@[k]),
        decreases b - a,
    {
        b -= 1;
    }
    proof {
        lemma_trim_end_steps(t@, a as int, b as int, to as int);
    }
    string_of(t, a, b)
}

proof fn lemma_find_arrow_skip(l: Seq<char>, from: int, k: int)
    requires
        0 <= from <= k,
        forall|j: int| from <= j < k ==> !arrow_at(l, j),
    ensures
        find_arrow(l, from) == find_arrow(l, k),
    decreases k - from,
{
    if from < k {
        lemma_find_arrow_skip(l, from + 1, k);
    }
}

/// The move that line `t[from..to]` stands for.
fn parse_line_at(t: &Vec<char>, from: usize, to: usize) -> (r: Option<(String, String)>)
    requires
        from <= to <= t@.len(),
    ensures
        match r {
            Some(a) => parse_line(t@.subrange(from as int, to as int)) == Some((a.0@, a.1@)),
            None => parse_line(t@.subrange(from as int, to as int)) is None,
        },
{
    let ghost l = t@.subrange(from as int, to as int);
    let mut k = from;
    while to - k >= 2 && !(t[k] == '-' && t[k + 1] == '>')
        invariant
            from <= k <= to,
            to <= t@.len(),
            l == t@.subrange(from as int, to as int),
            forall|j: int| 0 <= j < k - from ==> !arrow_at(l, j),
        decreases to - k,
    {
        k += 1;
    }
    proof {
        lemma_find_arrow_skip(l, 0, k - from);
    }
    if to - k < 2 {
        return None;
    }
    let source = trimmed(t, from, k);
    let destination = trimmed(t, k + 2, to);
    proof {
        assert(l.subrange(0, k - from) =~= t@.subrange(from as int, k as int));
        assert(l.subrange(k - from + 2, l.len() as int) =~= t@.subrange(k + 2, to as int));
    }
    Some((source, destination))
}

/// A path that a plan line carries unchanged: no quote or line break, and
/// no space at either end.
pub open spec fn plain_path(s: Seq<char>) -> bool {
    &&& forall|i: int| 0 <= i < s.len() ==> #[trigger] s[i] != '"' && s[i] != '\n'
    &&& s.len() > 0 ==> s[0] != ' ' && s.last() != ' '
}

/// `s` holds no `->`.
pub open spec fn has_no_arrow(s: Seq<char>) -> bool {
    forall|i: int| 0 <= i && i + 1 < s.len() ==> !(#[trigger] s[i] == '-' && s[i + 1] == '>')
}

/// Every move of the plan survives its text form.
pub open spec fn exportable(plan: Seq<PathPair>) -> bool {
    forall|k: int|
        0 <= k < plan.len() ==> plain_path(#[trigger] plan[k].0) && plain_path(plan[k].1)
            && has_no_arrow(plan[k].0)
}

/// A plan line without its line break.
pub open spec fn line_body(a: PathPair) -> Seq<char> {
    seq!['"'] + a.0 + seq!['"', ' ', '-', '>', ' ', '"'] + a.1 + seq!['"']
}

proof fn lemma_trim_start_prefix(p: Seq<char>, x: Seq<char>)
    requires
        forall|i: int| 0 <= i < p.len() ==> is_trimmed(#[trigger] p[i]),
        x.len() == 0 || !is_trimmed(x[0]),
    ensures
        trim_start(p + x) == x,
    decreases p.len(),
{
    if p.len() == 0 {
        assert(p + x =~= x);
    } else {
        assert((p + x)[0] == p[0]);
        assert((p + x).drop_first() =~= p.drop_first() + x);
        lemma_trim_start_prefix(p.drop_first(), x);
    }
}

proof fn lemma_trim_end_suffix(x: Seq<char>, q: Seq<char>)
    requires
        forall|i: int| 0 <= i < q.len() ==> is_trimmed(#[trigger] q[i]),
        x.len() == 0 || !is_trimmed(x.last()),
    ensures
        trim_end(x + q) == x,
    decreases q.len(),
{
    if q.len() == 0 {
        assert(x + q =~= x);
    } else {
        assert((x + q).last() == q.last());
        assert((x + q).drop_last() =~= x + q.drop_last());
        lemma_trim_end_suffix(x, q.drop_last());
    }
}

proof fn lemma_trim_wrapped(p: Seq<char>, s: Seq<char>, q: Seq<char>)
    requires
        forall|i: int| 0 <= i < p.len() ==> is_trimmed(#[trigger] p[i]),
        forall|i: int| 0 <= i < q.len() ==> is_trimmed(#[trigger] q[i]),
        plain_path(s),
    ensures
        trim(p + s + q) == s,
{
    if s.len() > 0 {
        assert(s[0] != '"');
        assert(s[s.len() - 1] != '"');
        assert(p + s + q =~= p + (s + q));
        assert((s + q)[0] == s[0]);
        lemma_trim_start_prefix(p, s + q);
        lemma_trim_end_suffix(s, q);
    } else {
        let e = Seq::<char>::empty();
        assert(p + s + q =~= (p + q) + e);
        assert forall|i: int| 0 <= i < (p + q).len() implies is_trimmed(#[trigger] (p + q)[i]) by {
            if i >= p.len() {
                assert((p + q)[i] == q[i - p.len()]);
            }
        }
        lemma_trim_start_prefix(p + q, e);
        assert(trim_end(e) == e);
        assert(s =~= e);
    }
}

proof fn lemma_parse_body(a: PathPair)
    requires
        plain_path(a.0),
        plain_path(a.1),
        has_no_arrow(a.0),
    ensures
        parse_line(line_body(a)) == Some(a),
{
    let s = a.0;
    let d = a.1;
    let m = s.len() as int;
    let body = line_body(a);
    let mid = seq!['"', ' ', '-', '>', ' ', '"'];
    assert(body.len() == m + d.len() + 8);
    assert forall|j: int| 1 <= j <= m implies body[j] == s[j - 1] by {}
    assert(body[m + 1] == '"');
    assert(body[m + 2] == ' ');
    assert(body[m + 3] == '-');
    assert(body[m + 4] == '>');
    assert forall|j: int| 0 <= j < m + 3 implies !arrow_at(body, j) by {
        if 1 <= j < m {
            assert(body[j] == s[j - 1] && body[j + 1] == s[j]);
        }
    }
    lemma_find_arrow_skip(body, 0, m + 3);
    assert(arrow_at(body, m + 3));
    assert(find_arrow(body, 0) == m + 3);
    let left = body.subrange(0, m + 3);
    let right = body.subrange(m + 5, body.len() as int);
    assert(left =~= seq!['"'] + s + seq!['"', ' ']);
    assert(right =~= seq![' ', '"'] + d + seq!['"']);
    let q1 = seq!['"', ' '];
    let p1 = seq!['"'];
    assert forall|i: int| 0 <= i < q1.len() implies is_trimmed(#[trigger] q1[i]) by {}
    assert forall|i: int| 0 <= i < p1.len() implies is_trimmed(#[trigger] p1[i]) by {}
    lemma_trim_wrapped(p1, s, q1);
    let p2 = seq![' ', '"'];
    assert forall|i: int| 0 <= i < p2.len() implies is_trimmed(#[trigger] p2[i]) by {}
    lemma_trim_wrapped(p2, d, p1);
}

proof fn lemma_lines_of_body(body: Seq<char>, rest: Seq<char>, cur: Seq<char>)
    requires
        forall|i: int| 0 <= i < body.len() ==> #[trigger] body[i] != '\n',
    ensures
        lines_from(body + seq!['\n'] + rest, cur) == seq![strip_cr(cur + body)] + lines_from(
            rest,
            seq![],
        ),
    decreases body.len(),
{
    let t = body + seq!['\n'] + rest;
    if body.len() == 0 {
        assert(t[0] == '\n');
        assert(t.drop_first() =~= rest);
        assert(cur + body =~= cur);
    } else {
        assert(t[0] == body[0]);
        assert(t.drop_first() =~= body.drop_first() + seq!['\n'] + rest);
        lemma_lines_of_body(body.drop_first(), rest, cur.push(body[0]));
        assert(cur.push(body[0]) + body.drop_first() =~= cur + body);
    }
}

proof fn lemma_lines_of_plan(plan: Seq<PathPair>)
    requires
        exportable(plan),
    ensures
        text_lines(plan_text(plan)) == plan.map_values(|a: PathPair| line_body(a)),
    decreases plan.len(),
{
    if plan.len() == 0 {
        assert(plan.map_values(|a: PathPair| line_body(a)) =~= Seq::<Seq<char>>::empty());
    } else {
        let a = plan[0];
        let body = line_body(a);
        let rest = plan.drop_first();
        assert forall|k: int| 0 <= k < rest.len() implies plain_path(#[trigger] rest[k].0)
            && plain_path(rest[k].1) && has_no_arrow(rest[k].0) by {
            assert(rest[k] == plan[k + 1]);
        }
        lemma_lines_of_plan(rest);
        assert(plain_path(plan[0].0) && plain_path(plan[0].1));
        assert forall|i: int| 0 <= i < body.len() implies #[trigger] body[i] != '\n' by {
            if 1 <= i <= a.0.len() {
                assert(body[i] == a.0[i - 1]);
            } else if a.0.len() + 7 <= i < a.0.len() + 7 + a.1.len() {
                assert(body[i] == a.1[i - a.0.len() - 7]);
            }
        }
        assert(plan_line(a) =~= body + seq!['\n']);
        assert(plan_text(plan) =~= body + seq!['\n'] + plan_text(rest));
        lemma_lines_of_body(body, plan_text(rest), seq![]);
        assert(Seq::<char>::empty() + body =~= body);
        assert(body.last() == '"');
        assert(plan.map_values(|a: PathPair| line_body(a)) =~= seq![body] + rest.map_values(
            |a: PathPair| line_body(a),
        ));
    }
}

/// Reading back the text of a plan gives the same moves in the same order,
/// for every plan whose paths hold no quote or line break, no space at
/// either end, and whose sources hold no `->`.
pub proof fn lemma_plan_round_trip(plan: Seq<PathPair>)
    requires
        exportable(plan),
    ensures
        all_lines_parse(text_lines(plan_text(plan))),
        parsed_plan(text_lines(plan_text(plan))) == plan,
{
    lemma_lines_of_plan(plan);
    let ls = text_lines(plan_text(plan));
    assert forall|k: int| 0 <= k < ls.len() implies parse_line(#[trigger] ls[k]) == Some(plan[k]) by {
        assert(ls[k] == line_body(plan[k]));
        assert(plain_path(plan[k].0));
        lemma_parse_body(plan[k]);
    }
    assert(parsed_plan(ls) =~= plan);
}

/// An ordered plan of moves, with the statistics of the run that made or
/// executes it.
pub struct Actions {
    actions: Vec<(String, String)>,
    total_files_scanned: u32,
    total_files_moved: u32,
    total_files_skipped: u32,
    total_files_errors: u32,
}

impl Actions {
    /// The moves, in order.
    pub closed spec fn plan(&self) -> Seq<PathPair> {
        pairs_view(self.actions@)
    }

    pub closed spec fn scanned(&self) -> u32 {
        self.total_files_scanned
    }

    pub closed spec fn moved(&self) -> u32 {
        self.total_files_moved
    }

    pub closed spec fn skipped(&self) -> u32 {
        self.total_files_skipped
    }

    pub closed spec fn errors(&self) -> u32 {
        self.total_files_errors
    }

    /// An empty plan with every count at zero.
    pub fn new() -> (r: Self)
        ensures
            r.plan() == Seq::<PathPair>::empty(),
            r.scanned() == 0,
            r.moved() == 0,
            r.skipped() == 0,
            r.errors() == 0,
    {
        let r = Actions {
            actions: Vec::new(),
            total_files_scanned: 0,
            total_files_moved: 0,
            total_files_skipped: 0,
            total_files_errors: 0,
        };
        assert(r.plan() =~= Seq::<PathPair>::empty());
        r
    }

    /// Appends the move of `source` to `destination`.
    pub fn add_action(&mut self, source: String, destination: String)
        ensures
            final(self).plan() == old(self).plan().push((source@, destination@)),
            final(self).scanned() == old(self).scanned(),
            final(self).moved() == old(self).moved(),
            final(self).skipped() == old(self).skipped(),
            final(self).errors() == old(self).errors(),
    {
        let ghost sv = source@;
        let ghost dv = destination@;
        self.actions.push((source, destination));
        assert(self.plan() =~= old(self).plan().push((sv, dv)));
    }

    /// The plan that a plan text stands for, one move per line, with every
    /// count at zero. A line without `->` refuses the whole text.
    pub fn from(text: &str) -> (r: Result<Actions, PlanError>)
        ensures
            match r {
                Ok(a) => {
                    &&& all_lines_parse(text_lines(text@))
                    &&& a.plan() == parsed_plan(text_lines(text@))
                    &&& a.scanned() == 0 && a.moved() == 0 && a.skipped() == 0 && a.errors() == 0
                },
                Err(PlanError::MalformedLine(n)) => {
                    &&& 1 <= n <= text_lines(text@).len()
                    &&& parse_line(text_lines(text@)[n - 1]) is None
                    &&& forall|k: int|
                        0 <= k < n - 1 ==> (#[trigger] parse_line(text_lines(text@)[k])) is Some
                },
            },
    {
        let t = chars_of(text);
        let mut actions = Actions::new();
        let mut start: usize = 0;
        let mut i: usize = 0;
        let mut n: usize = 0;
        let ghost mut done: Seq<Seq<char>> = seq![];
        proof {
            assert(t@.skip(0) =~= t@);
            assert(t@.subrange(0, 0) =~= Seq::<char>::empty());
            assert(done + lines_from(t@.skip(0), t@.subrange(0, 0)) =~= text_lines(t@));
            assert(parsed_plan(done) =~= Seq::<PathPair>::empty());
        }
        while i < t.len()
            invariant
                start <= i <= t@.len(),
                t@ == text@,
                text_lines(t@) == done + lines_from(t@.skip(i as int), t@.subrange(start as int, i as int)),
                n == done.len(),
                done.len() <= start,
                all_lines_parse(done),
                actions.plan() == parsed_plan(done),
                actions.scanned() == 0 && actions.moved() == 0 && actions.skipped() == 0
                    && actions.errors() == 0,
            decreases t@.len() - i,
        {
            let ghost cur = t@.subrange(start as int, i as int);
            proof {
                assert(t@.skip(i as int)[0] == t@[i as int]);
                assert(t@.skip(i as int).drop_first() =~= t@.skip(i + 1));
            }
            if t[i] == '\n' {
                let mut end = i;
                if end > start && t[end - 1] == '\r' {
                    end = end - 1;
                }
                let ghost line = t@.subrange(start as int, end as int);
                proof {
                    assert(line =~= strip_cr(cur));
                    assert(text_lines(t@)[done.len() as int] == line);
                }
                match parse_line_at(&t, start, end) {
                    Some(a) => {
                        let (source, destination) = a;
                        actions.add_action(source, destination);
                    },
                    None => {
                        proof {
                            assert forall|k: int| 0 <= k < n implies (#[trigger] parse_line(
                                text_lines(text@)[k],
                            )) is Some by {
                                assert(text_lines(text@)[k] == done[k]);
                            }
                        }
                        return Err(PlanError::MalformedLine(n + 1));
                    },
                }
                proof {
                    let ghost next = done.push(line);
                    assert(t@.subrange(i + 1, i + 1) =~= Seq::<char>::empty());
                    assert(done + (seq![line] + lines_from(t@.skip(i + 1), seq![])) =~= next
                        + lines_from(t@.skip(i + 1), t@.subrange(i + 1, i + 1)));
                    assert(parsed_plan(next) =~= parsed_plan(done).push(parse_line(line)->0));
                    assert forall|k: int| 0 <= k < next.len() implies (#[trigger] parse_line(
                        next[k],
                    )) is Some by {
                        if k < done.len() {
                            assert(next[k] == done[k]);
                        }
                    }
                    done = next;
                }
                n = n + 1;
                start = i + 1;
            } else {
                proof {
                    assert(cur.push(t@[i as int]) =~= t@.subrange(start as int, i + 1));
                }
            }
            i += 1;
        }
        let ghost cur = t@.subrange(start as int, i as int);
        proof {
            assert(t@.skip(i as int) =~= Seq::<char>::empty());
        }
        if start < i {
            let mut end = i;
            if t[end - 1] == '\r' {
                end = end - 1;
            }
            let ghost line = t@.subrange(start as int, end as int);
            proof {
                assert(line =~= strip_cr(cur));
                assert(text_lines(t@) =~= done.push(line));
            }
            match parse_line_at(&t, start, end) {
                Some(a) => {
                    let (source, destination) = a;
                    actions.add_action(source, destination);
                    proof {
                        let ghost next = done.push(line);
                        assert(parsed_plan(next) =~= parsed_plan(done).push(parse_line(line)->0));
                        assert forall|k: int| 0 <= k < next.len() implies (#[trigger] parse_line(
                            next[k],
                        )) is Some by {
                            if k < done.len() {
                                assert(next[k] == done[k]);
                            }
                        }
                        done = next;
                    }
                },
                None => {
                    proof {
                        assert forall|k: int| 0 <= k < n implies (#[trigger] parse_line(
                            text_lines(text@)[k],
                        )) is Some by {
                            assert(text_lines(text@)[k] == done[k]);
                        }
                    }
                    return Err(PlanError::MalformedLine(n + 1));
                },
            }
        } else {
            proof {
                assert(cur =~= Seq::<char>::empty());
                assert(text_lines(t@) =~= done);
            }
        }
        Ok(actions)
    }

    /// The number of moves in the plan.
    pub fn len(&self) -> (r: usize)
        ensures
            r == self.plan().len(),
    {
        self.actions.len()
    }

    /// The source and destination of move `i`.
    pub fn action(&self, i: usize) -> (r: (&String, &String))
        requires
            i < self.plan().len(),
        ensures
            (r.0@, r.1@) == self.plan()[i as int],
    {
        let a = &self.actions[i];
        (&a.0, &a.1)
    }

    /// Accounts for the execution of the plan: `outcomes[i]` tells whether
    /// move `i` succeeded. Each success counts as moved and each failure as
    /// an error; one failure does not affect the others.
    pub fn execute_actions(&mut self, outcomes: &Vec<bool>)
        requires
            outcomes@.len() == old(self).plan().len(),
            old(self).moved() + outcomes@.len() <= u32::MAX,
            old(self).errors() + outcomes@.len() <= u32::MAX,
        ensures
            final(self).moved() == old(self).moved() + count_true(outcomes@),
            final(self).errors() == old(self).errors() + count_false(
                outcomes@,
            ),
            final(self).plan() == old(self).plan(),
            final(self).scanned() == old(self).scanned(),
            final(self).skipped() == old(self).skipped(),
    {
        let mut i: usize = 0;
        while i < outcomes.len()
            invariant
                i <= outcomes@.len(),
                outcomes@.len() == old(self).plan().len(),
                self.actions == old(self).actions,
                self.total_files_scanned == old(self).scanned(),
                self.total_files_skipped == old(self).skipped(),
                self.total_files_moved == old(self).moved() + count_true(outcomes@.take(i as int)),
                self.total_files_errors == old(self).errors() + count_false(
                    outcomes@.take(i as int),
                ),
                old(self).moved() + outcomes@.len() <= u32::MAX,
                old(self).errors() + outcomes@.len() <= u32::MAX,
            decreases outcomes@.len() - i,
        {
            proof {
                assert(outcomes@.take(i + 1).drop_last() =~= outcomes@.take(i as int));
                lemma_outcomes_split(outcomes@.take(i as int));
            }
            if outcomes[i] {
                self.total_files_moved = self.total_files_moved + 1;
            } else {
                self.total_files_errors = self.total_files_errors + 1;
            }
            i += 1;
        }
        assert(outcomes@.take(i as int) =~= outcomes@);
    }

    /// The plan as text, one `"<source>" -> "<destination>"` line per move.
    pub fn export_actions(&self) -> (r: String)
        ensures
            r@ == plan_text(self.plan()),
    {
        let ghost plan = self.plan();
        let mut out = String::new();
        proof {
            assert(plan.skip(0) =~= plan);
            assert(out@ + plan_text(plan.skip(0)) =~= plan_text(plan));
        }
        let mut i: usize = 0;
        while i < self.actions.len()
            invariant
                i <= plan.len(),
                plan == self.plan(),
                plan_text(plan) == out@ + plan_text(plan.skip(i as int)),
            decreases plan.len() - i,
        {
            proof {
                reveal_strlit("\"");
                reveal_strlit("\" -> \"");
                reveal_strlit("\"\n");
                assert(plan[i as int] == (self.actions@[i as int].0@, self.actions@[i as int].1@));
                assert(plan.skip(i as int).drop_first() =~= plan.skip(i + 1));
                assert(plan.skip(i as int)[0] == plan[i as int]);
            }
            let ghost before = out@;
            out.append("\"");
            out.append(self.actions[i].0.as_str());
            out.append("\" -> \"");
            out.append(self.actions[i].1.as_str());
            out.append("\"\n");
            proof {
                assert(out@ =~= before + plan_line(plan[i as int]));
                assert(plan_text(plan.skip(i as int)) == plan_line(plan[i as int]) + plan_text(
                    plan.skip(i + 1),
                ));
                assert(before + plan_text(plan.skip(i as int)) =~= out@ + plan_text(
                    plan.skip(i + 1),
                ));
            }
            i += 1;
        }
        assert(plan.skip(i as int) =~= Seq::<PathPair>::empty());
        assert(out@ + plan_text(plan.skip(i as int)) =~= out@);
        out
    }

    /// Counts one more regular file seen by a scan.
    pub(crate) fn count_scanned(&mut self)
        requires
            old(self).scanned() < u32::MAX,
        ensures
            final(self).scanned() == old(self).scanned() + 1,
            final(self).plan() == old(self).plan(),
            final(self).moved() == old(self).moved(),
            final(self).skipped() == old(self).skipped(),
            final(self).errors() == old(self).errors(),
    {
        self.total_files_scanned = self.total_files_scanned + 1;
    }

    /// Counts one more file that no rule claims.
    pub(crate) fn count_skipped(&mut self)
        requires
            old(self).skipped() < u32::MAX,
        ensures
            final(self).skipped() == old(self).skipped() + 1,
            final(self).plan() == old(self).plan(),
            final(self).scanned() == old(self).scanned(),
            final(self).moved() == old(self).moved(),
            final(self).errors() == old(self).errors(),
    {
        self.total_files_skipped = self.total_files_skipped + 1;
    }

    /// Counts one more error.
    pub(crate) fn count_error(&mut self)
        requires
            old(self).errors() < u32::MAX,
        ensures
            final(self).errors() == old(self).errors() + 1,
            final(self).plan() == old(self).plan(),
            final(self).scanned() == old(self).scanned(),
            final(self).moved() == old(self).moved(),
            final(self).skipped() == old(self).skipped(),
    {
        self.total_files_errors = self.total_files_errors + 1;
    }

    pub fn get_total_files_scanned(&self) -> (r: u32)
        ensures
            r == self.scanned(),
    {
        self.total_files_scanned
    }

    pub fn get_total_files_moved(&self) -> (r: u32)
        ensures
            r == self.moved(),
    {
        self.total_files_moved
    }

    pub fn get_total_files_skipped(&self) -> (r: u32)
        ensures
            r == self.skipped(),
    {
        self.total_files_skipped
    }

    pub fn get_total_files_errors(&self) -> (r: u32)
        ensures
            r == self.errors(),
    {
        self.total_files_errors
    }
}

} // verus!
