//! Gitignore-style pattern rules: compiling one pattern line into a token
//! sequence, matching a path against it, and combining rule sets.
//!
//! Paths are plain strings using `/` as the separator.

use vstd::prelude::*;

use crate::strutil::to_chars;

verus! {

/// Mathematical model of one pattern token.
pub enum TokenModel {
    /// A literal run of characters, escapes already removed.
    Literal(Seq<char>),
    /// Directory separator.
    Slash,
    /// Single asterisk: any run of non-separator characters.
    Asterisk,
    /// Double asterisk: may match across directories.
    DoubleAsterisk,
    /// Any single non-separator character.
    QuestionMark,
    /// Character ranges, with a negation flag.
    CharRange(bool, Seq<(char, char)>),
}

/// One pattern element, as compiled from a pattern line.
#[derive(Debug)]
pub enum GitIgnoreRuleElements {
    /// A literal string, with escapes removed
    Literal(String),
    /// Directory separator
    Slash,
    /// Single asterisk (*)
    Asterisk,
    /// Double asterisk (**)
    DoubleAsterisk,
    /// Single character wildcard (?)
    QuestionMark,
    /// Character range, e.g., [a-zA-Z]
    /// single char [c] is represented: (false, vec![(c,c)])
    /// Negated ranges [!a-z] is represented: (true, vec![(a,z)])
    CharRange((bool, Vec<(char, char)>)),
}

impl DeepView for GitIgnoreRuleElements {
    type V = TokenModel;

    open spec fn deep_view(&self) -> TokenModel {
        match self {
            GitIgnoreRuleElements::Literal(s) => TokenModel::Literal(s@),
            GitIgnoreRuleElements::Slash => TokenModel::Slash,
            GitIgnoreRuleElements::Asterisk => TokenModel::Asterisk,
            GitIgnoreRuleElements::DoubleAsterisk => TokenModel::DoubleAsterisk,
            GitIgnoreRuleElements::QuestionMark => TokenModel::QuestionMark,
            GitIgnoreRuleElements::CharRange(r) => TokenModel::CharRange(r.0, r.1@),
        }
    }
}

/// Element-wise comparison of two range lists.
fn ranges_eq(a: &Vec<(char, char)>, b: &Vec<(char, char)>) -> (r: bool)
    ensures
        r == (a@ == b@),
{
    if a.len() != b.len() {
        assert(a@ != b@);
        return false;
    }
    let mut i: usize = 0;
    while i < a.len()
        invariant
            i <= a@.len(),
            a@.len() == b@.len(),
            forall|j: int| 0 <= j < i ==> a@[j] == b@[j],
        decreases a@.len() - i,
    {
        if a[i].0 != b[i].0 || a[i].1 != b[i].1 {
            assert(a@[i as int] != b@[i as int]);
            return false;
        }
        assert(a@[i as int] == b@[i as int]);
        i = i + 1;
    }
    assert(a@ =~= b@);
    true
}

impl PartialEq for GitIgnoreRuleElements {
    fn eq(&self, other: &Self) -> (r: bool) {
        match (self, other) {
            (GitIgnoreRuleElements::Literal(a), GitIgnoreRuleElements::Literal(b)) => *a == *b,
            (GitIgnoreRuleElements::Slash, GitIgnoreRuleElements::Slash) => true,
            (GitIgnoreRuleElements::Asterisk, GitIgnoreRuleElements::Asterisk) => true,
            (
                GitIgnoreRuleElements::DoubleAsterisk,
                GitIgnoreRuleElements::DoubleAsterisk,
            ) => true,
            (GitIgnoreRuleElements::QuestionMark, GitIgnoreRuleElements::QuestionMark) => true,
            (GitIgnoreRuleElements::CharRange(x), GitIgnoreRuleElements::CharRange(y)) => {
                x.0 == y.0 && ranges_eq(&x.1, &y.1)
            },
            _ => false,
        }
    }
}

impl vstd::std_specs::cmp::PartialEqSpecImpl for GitIgnoreRuleElements {
    open spec fn obeys_eq_spec() -> bool {
        true
    }

    open spec fn eq_spec(&self, other: &Self) -> bool {
        self.deep_view() == other.deep_view()
    }
}

/// Holds when the candidate is fully consumed, or the rule matches
/// directories only, or the next unconsumed character starts a new segment.
pub open spec fn end_ok(s: Seq<char>, dirs_only: bool) -> bool {
    s.len() == 0 || dirs_only || s[0] == '/'
}

/// Holds when `c` falls inside one of the ranges.
pub open spec fn char_in_ranges(c: char, rs: Seq<(char, char)>) -> bool {
    exists|i: int| 0 <= i < rs.len() && rs[i].0 <= c && c <= rs[i].1
}

/// Holds when the sequence contains no separator.
pub open spec fn no_slash(s: Seq<char>) -> bool {
    forall|i: int| 0 <= i < s.len() ==> s[i] != '/'
}

/// Index of the first separator, or the length if there is none.
pub open spec fn first_slash(s: Seq<char>) -> int
    decreases s.len(),
{
    if s.len() == 0 {
        0
    } else if s[0] == '/' {
        0
    } else {
        1 + first_slash(s.skip(1))
    }
}

pub proof fn lemma_first_slash(s: Seq<char>)
    ensures
        0 <= first_slash(s) <= s.len(),
        no_slash(s.take(first_slash(s))),
        first_slash(s) < s.len() ==> s[first_slash(s)] == '/',
        first_slash(s) == s.len() ==> no_slash(s),
    decreases s.len(),
{
    if s.len() == 0 {
    } else if s[0] == '/' {
        assert(s.take(0) =~= Seq::<char>::empty());
    } else {
        lemma_first_slash(s.skip(1));
        let f = first_slash(s);
        assert forall|i: int| 0 <= i < f implies s.take(f)[i] != '/' by {
            if i > 0 {
                assert(s.skip(1).take(f - 1)[i - 1] == s[i]);
            }
        }
        if f == s.len() {
            assert forall|i: int| 0 <= i < s.len() implies s[i] != '/' by {
                if i > 0 {
                    assert(s.skip(1)[i - 1] == s[i]);
                }
            }
        }
    }
}

/// Token-by-token matching of a token sequence against a candidate string.
pub open spec fn match_plain(t: Seq<TokenModel>, s: Seq<char>, dirs_only: bool) -> bool
    decreases t.len(), s.len(), 0int,
{
    if t.len() == 0 {
        end_ok(s, dirs_only)
    } else {
        match t[0] {
            TokenModel::Literal(l) => {
                &&& s.len() >= l.len()
                &&& s.take(l.len() as int) == l
                &&& match_plain(t.skip(1), s.skip(l.len() as int), dirs_only)
            },
            TokenModel::Slash => {
                if s.len() == 0 {
                    t.len() == 1
                } else {
                    s[0] == '/' && match_plain(t.skip(1), s.skip(1), dirs_only)
                }
            },
            TokenModel::Asterisk => {
                if t.len() == 1 {
                    // Consume the rest of the current segment, at least one
                    // character; the end condition then always holds.
                    s.len() >= 1 && s[0] != '/'
                } else {
                    &&& s.len() >= 1
                    &&& s[0] != '/'
                    &&& exists|k: int|
                        0 <= k < s.len() && no_slash(s.take(k)) && match_plain(
                            t.skip(1),
                            s.skip(k),
                            dirs_only,
                        )
                }
            },
            TokenModel::DoubleAsterisk => {
                if t.len() == 1 {
                    true
                } else {
                    match_skipping(t.skip(1), s, dirs_only)
                }
            },
            TokenModel::QuestionMark => {
                s.len() >= 1 && s[0] != '/' && match_plain(t.skip(1), s.skip(1), dirs_only)
            },
            TokenModel::CharRange(negated, rs) => {
                &&& s.len() >= 1
                &&& char_in_ranges(s[0], rs) != negated
                &&& match_plain(t.skip(1), s.skip(1), dirs_only)
            },
        }
    }
}

/// Matching with the leading-separator normalization: a leading Slash token
/// anchors the pattern and is dropped together with a leading separator of
/// the candidate; a pattern that is a bare separator matches nothing.
pub open spec fn match_tokens(t: Seq<TokenModel>, s: Seq<char>, dirs_only: bool) -> bool
    decreases t.len(), s.len(), 2int,
{
    if t.len() > 0 && t[0] is Slash {
        if t.len() == 1 {
            false
        } else {
            let s2 = if s.len() > 0 && s[0] == '/' {
                s.skip(1)
            } else {
                s
            };
            match_plain(t.skip(1), s2, dirs_only)
        }
    } else {
        match_plain(t, s, dirs_only)
    }
}

/// Matching after a double asterisk: try the remaining tokens against the
/// candidate as is, then with leading path segments stripped one at a time.
pub open spec fn match_skipping(t: Seq<TokenModel>, s: Seq<char>, dirs_only: bool) -> bool
    decreases t.len(), s.len(), 3int,
    via match_skipping_decreases
{
    if match_tokens(t, s, dirs_only) {
        true
    } else if first_slash(s) < s.len() {
        match_skipping(t, s.skip(first_slash(s) + 1), dirs_only)
    } else {
        false
    }
}

#[via_fn]
proof fn match_skipping_decreases(t: Seq<TokenModel>, s: Seq<char>, dirs_only: bool) {
    lemma_first_slash(s);
}

proof fn lemma_first_slash_at(s: Seq<char>, m: int)
    requires
        0 <= m <= s.len(),
        no_slash(s.take(m)),
        m < s.len() ==> s[m] == '/',
    ensures
        first_slash(s) == m,
    decreases s.len(),
{
    if m == 0 {
    } else {
        assert(s.take(m)[0] == s[0]);
        assert(forall|i: int|
            0 <= i < m - 1 ==> #[trigger] s.skip(1).take(m - 1)[i] == s.take(m)[i + 1]);
        lemma_first_slash_at(s.skip(1), m - 1);
    }
}

/// Token-by-token matcher over indices into the token and candidate vectors.
#[verifier::loop_isolation(false)]
fn m_plain_x(t: &Vec<GitIgnoreRuleElements>, ti: usize, s: &Vec<char>, si: usize, d: bool) -> (r:
    bool)
    requires
        ti <= t@.len(),
        si <= s@.len(),
    ensures
        r == match_plain(t.deep_view().skip(ti as int), s@.skip(si as int), d),
    decreases t@.len() - ti, s@.len() - si, 0int,
{
    let ghost tv = t.deep_view().skip(ti as int);
    let ghost sv = s@.skip(si as int);
    if ti == t.len() {
        return si == s.len() || d || s[si] == '/';
    }
    assert(tv[0] == t@[ti as int].deep_view());
    match &t[ti] {
        GitIgnoreRuleElements::Literal(l) => {
            let llen = l.as_str().unicode_len();
            if s.len() - si < llen {
                return false;
            }
            let mut j: usize = 0;
            while j < llen
                invariant
                    j <= llen,
                    llen == l@.len(),
                    ti < t@.len(),
                    si + llen <= s@.len(),
                    t@[ti as int] == GitIgnoreRuleElements::Literal(*l),
                    forall|q: int| 0 <= q < j ==> s@[si + q] == l@[q],
                decreases llen - j,
            {
                if s[si + j] != l.as_str().get_char(j) {
                    assert(sv.take(llen as int)[j as int] != l@[j as int]);
                    return false;
                }
                j = j + 1;
            }
            assert(sv.take(llen as int) =~= l@);
            let rec = m_plain_x(t, ti + 1, s, si + llen, d);
            assert(tv.skip(1) =~= t.deep_view().skip(ti + 1));
            assert(sv.skip(llen as int) =~= s@.skip(si + llen));
            rec
        },
        GitIgnoreRuleElements::Slash => {
            if si == s.len() {
                ti + 1 == t.len()
            } else if s[si] == '/' {
                let rec = m_plain_x(t, ti + 1, s, si + 1, d);
                assert(tv.skip(1) =~= t.deep_view().skip(ti + 1));
                assert(sv.skip(1) =~= s@.skip(si + 1));
                rec
            } else {
                false
            }
        },
        GitIgnoreRuleElements::Asterisk => {
            if si == s.len() {
                return false;
            }
            if s[si] == '/' {
                return false;
            }
            if ti + 1 == t.len() {
                return true;
            }
            // Length of the rest of the current segment.
            let mut run: usize = 0;
            while si + run < s.len() && s[si + run] != '/'
                invariant
                    si + run <= s@.len(),
                    forall|q: int| 0 <= q < run ==> #[trigger] s@[si + q] != '/',
                decreases s@.len() - si - run,
            {
                run = run + 1;
            }
            let kmax: usize = if si + run < s.len() {
                run + 1
            } else {
                run
            };
            let ghost trest = t.deep_view().skip(ti + 1);
            let mut k: usize = 0;
            while k < kmax
                invariant
                    k <= kmax,
                    ti + 1 <= t@.len(),
                    si + run <= s@.len(),
                    kmax == if si + run < s@.len() {
                        run + 1
                    } else {
                        run as int
                    },
                    si + run < s@.len() ==> s@[si + run] == '/',
                    forall|q: int| 0 <= q < run ==> #[trigger] s@[si + q] != '/',
                    trest == t.deep_view().skip(ti + 1),
                    forall|p: int| si <= p < si + k ==> !match_plain(trest, #[trigger] s@.skip(p), d),
                decreases kmax - k,
            {
                if m_plain_x(t, ti + 1, s, si + k, d) {
                    assert forall|ii: int| 0 <= ii < k implies sv.take(k as int)[ii] != '/' by {
                        assert(sv.take(k as int)[ii] == s@[si + ii]);
                    }
                    assert(no_slash(sv.take(k as int)));
                    assert(s@.skip(si + k) =~= sv.skip(k as int));
                    assert(tv.skip(1) =~= trest);
                    assert(match_plain(tv.skip(1), sv.skip(k as int), d));
                    assert(0 <= k < sv.len());
                    return true;
                }
                k = k + 1;
            }
            assert forall|q: int|
                0 <= q < sv.len() && no_slash(sv.take(q)) implies !match_plain(
                tv.skip(1),
                sv.skip(q),
                d,
            ) by {
                if q > run {
                    assert(sv.take(q)[run as int] == s@[si + run]);
                    assert(false);
                } else {
                    assert(q < kmax);
                    assert(!match_plain(trest, s@.skip(si + q), d));
                    assert(sv.skip(q) =~= s@.skip(si + q));
                    assert(tv.skip(1) =~= trest);
                }
            }
            false
        },
        GitIgnoreRuleElements::DoubleAsterisk => {
            if ti + 1 == t.len() {
                true
            } else {
                let rec = m_skip_x(t, ti + 1, s, si, d);
                assert(tv.skip(1) =~= t.deep_view().skip(ti + 1));
                rec
            }
        },
        GitIgnoreRuleElements::QuestionMark => {
            if si < s.len() && s[si] != '/' {
                let rec = m_plain_x(t, ti + 1, s, si + 1, d);
                assert(tv.skip(1) =~= t.deep_view().skip(ti + 1));
                assert(sv.skip(1) =~= s@.skip(si + 1));
                rec
            } else {
                false
            }
        },
        GitIgnoreRuleElements::CharRange(pair) => {
            if si == s.len() {
                return false;
            }
            let c = s[si];
            let rs = &pair.1;
            let mut matched = false;
            let mut i: usize = 0;
            while i < rs.len()
                invariant
                    i <= rs@.len(),
                    matched ==> char_in_ranges(c, rs@),
                    !matched ==> forall|q: int|
                        0 <= q < i ==> !(rs@[q].0 <= c && c <= rs@[q].1),
                decreases rs@.len() - i,
            {
                let (lo, hi) = rs[i];
                if lo <= c && c <= hi {
                    matched = true;
                }
                i = i + 1;
            }
            if matched == pair.0 {
                assert(char_in_ranges(c, rs@) == matched);
                return false;
            }
            assert(char_in_ranges(c, rs@) == matched);
            let rec = m_plain_x(t, ti + 1, s, si + 1, d);
            assert(tv.skip(1) =~= t.deep_view().skip(ti + 1));
            assert(sv.skip(1) =~= s@.skip(si + 1));
            rec
        },
    }
}

/// The matcher entry with leading-separator normalization.
fn m_norm_x(t: &Vec<GitIgnoreRuleElements>, ti: usize, s: &Vec<char>, si: usize, d: bool) -> (r:
    bool)
    requires
        ti <= t@.len(),
        si <= s@.len(),
    ensures
        r == match_tokens(t.deep_view().skip(ti as int), s@.skip(si as int), d),
    decreases t@.len() - ti, s@.len() - si, 2int,
{
    let ghost tv = t.deep_view().skip(ti as int);
    let ghost sv = s@.skip(si as int);
    let leading_slash = ti < t.len() && matches!(&t[ti], GitIgnoreRuleElements::Slash);
    if leading_slash {
        assert(tv[0] == t@[ti as int].deep_view());
        if ti + 1 == t.len() {
            false
        } else if si < s.len() && s[si] == '/' {
            let rec = m_plain_x(t, ti + 1, s, si + 1, d);
            assert(tv.skip(1) =~= t.deep_view().skip(ti + 1));
            assert(sv.skip(1) =~= s@.skip(si + 1));
            rec
        } else {
            let rec = m_plain_x(t, ti + 1, s, si, d);
            assert(tv.skip(1) =~= t.deep_view().skip(ti + 1));
            rec
        }
    } else {
        assert(tv.len() > 0 ==> tv[0] == t@[ti as int].deep_view());
        m_plain_x(t, ti, s, si, d)
    }
}

/// The matcher used after a double asterisk: strips leading segments.
#[verifier::loop_isolation(false)]
fn m_skip_x(t: &Vec<GitIgnoreRuleElements>, ti: usize, s: &Vec<char>, si: usize, d: bool) -> (r:
    bool)
    requires
        ti <= t@.len(),
        si <= s@.len(),
    ensures
        r == match_skipping(t.deep_view().skip(ti as int), s@.skip(si as int), d),
    decreases t@.len() - ti, s@.len() - si, 3int,
{
    let ghost tv = t.deep_view().skip(ti as int);
    let ghost sv = s@.skip(si as int);
    if m_norm_x(t, ti, s, si, d) {
        return true;
    }
    // Find the first separator at or after si.
    let mut j: usize = si;
    while j < s.len() && s[j] != '/'
        invariant
            si <= j <= s@.len(),
            forall|q: int| si <= q < j ==> s@[q] != '/',
        decreases s@.len() - j,
    {
        j = j + 1;
    }
    proof {
        assert(forall|q: int| 0 <= q < j - si ==> #[trigger] sv.take(j - si)[q] == s@[si + q]);
        lemma_first_slash_at(sv, j - si);
    }
    if j < s.len() {
        let rec = m_skip_x(t, ti, s, j + 1, d);
        assert(sv.skip(first_slash(sv) + 1) =~= s@.skip(j + 1));
        rec
    } else {
        false
    }
}

/// Characters that end a literal run.
pub open spec fn is_special(c: char) -> bool {
    c == '/' || c == '*' || c == '?' || c == '[' || c == '\\'
}

/// Length of the leading literal run.
pub open spec fn lit_run(s: Seq<char>) -> int
    decreases s.len(),
{
    if s.len() == 0 || is_special(s[0]) {
        0
    } else {
        1 + lit_run(s.skip(1))
    }
}

pub proof fn lemma_lit_run_bounds(s: Seq<char>)
    ensures
        0 <= lit_run(s) <= s.len(),
    decreases s.len(),
{
    if s.len() > 0 && !is_special(s[0]) {
        lemma_lit_run_bounds(s.skip(1));
    }
}

/// The ranges read from the inside of a bracket expression, stopping at the
/// first closing bracket or at the end of the line.
pub open spec fn range_items(s: Seq<char>) -> Seq<(char, char)>
    decreases s.len(),
{
    if s.len() == 0 {
        Seq::empty()
    } else if s[0] == ']' {
        Seq::empty()
    } else if s.len() >= 2 && s[1] == '-' {
        if s.len() >= 3 {
            seq![(s[0], s[2])] + range_items(s.skip(3))
        } else {
            Seq::empty()
        }
    } else {
        seq![(s[0], s[0])] + range_items(s.skip(1))
    }
}

/// How many characters the bracket expression consumes, the closing bracket
/// included.
pub open spec fn range_len(s: Seq<char>) -> int
    decreases s.len(),
{
    if s.len() == 0 {
        0
    } else if s[0] == ']' {
        1
    } else if s.len() >= 2 && s[1] == '-' {
        if s.len() >= 3 {
            3 + range_len(s.skip(3))
        } else {
            2
        }
    } else {
        1 + range_len(s.skip(1))
    }
}

pub proof fn lemma_range_len_bounds(s: Seq<char>)
    ensures
        0 <= range_len(s) <= s.len(),
    decreases s.len(),
{
    if s.len() == 0 || s[0] == ']' {
    } else if s.len() >= 2 && s[1] == '-' {
        if s.len() >= 3 {
            lemma_range_len_bounds(s.skip(3));
        }
    } else {
        lemma_range_len_bounds(s.skip(1));
    }
}

/// Turns the trimmed body of a pattern line into its token sequence.
pub open spec fn tokenize(s: Seq<char>) -> Seq<TokenModel>
    decreases s.len(),
    via tokenize_decreases
{
    if s.len() == 0 {
        Seq::empty()
    } else if s[0] == '\\' {
        if s.len() == 1 {
            // A dangling escape is dropped.
            Seq::empty()
        } else {
            seq![TokenModel::Literal(seq![s[1]])] + tokenize(s.skip(2))
        }
    } else if s[0] == '/' {
        seq![TokenModel::Slash] + tokenize(s.skip(1))
    } else if s[0] == '*' {
        if s.len() >= 2 && s[1] == '*' {
            seq![TokenModel::DoubleAsterisk] + tokenize(s.skip(2))
        } else {
            seq![TokenModel::Asterisk] + tokenize(s.skip(1))
        }
    } else if s[0] == '?' {
        seq![TokenModel::QuestionMark] + tokenize(s.skip(1))
    } else if s[0] == '[' {
        let negated = s.len() >= 2 && (s[1] == '!' || s[1] == '^');
        let inner = if negated {
            s.skip(2)
        } else {
            s.skip(1)
        };
        let consumed = (if negated {
            2int
        } else {
            1int
        }) + range_len(inner);
        seq![TokenModel::CharRange(negated, range_items(inner))] + tokenize(s.skip(consumed))
    } else {
        seq![TokenModel::Literal(s.take(lit_run(s)))] + tokenize(s.skip(lit_run(s)))
    }
}

#[via_fn]
proof fn tokenize_decreases(s: Seq<char>) {
    if s.len() > 0 {
        if s[0] == '[' {
            let negated = s.len() >= 2 && (s[1] == '!' || s[1] == '^');
            let inner = if negated {
                s.skip(2)
            } else {
                s.skip(1)
            };
            lemma_range_len_bounds(inner);
        } else if !is_special(s[0]) && s[0] != '?' {
            lemma_lit_run_bounds(s.skip(1));
        }
    }
}

/// How many characters the trailing-space trim removes: trailing spaces are
/// dropped unless escaped with a backslash.
pub open spec fn trim_count(s: Seq<char>) -> int
    decreases s.len(),
{
    if s.len() == 0 || s[s.len() - 1] != ' ' {
        0
    } else {
        (if s.len() >= 2 && s[s.len() - 2] == '\\' {
            0int
        } else {
            1int
        }) + trim_count(s.take(s.len() - 1))
    }
}

pub proof fn lemma_trim_count_bounds(s: Seq<char>)
    ensures
        0 <= trim_count(s) <= s.len(),
    decreases s.len(),
{
    if s.len() > 0 && s[s.len() - 1] == ' ' {
        lemma_trim_count_bounds(s.take(s.len() - 1));
    }
}

/// Mathematical model of one compiled rule.
pub struct RuleModel {
    pub pattern: Seq<TokenModel>,
    pub is_negated: bool,
    pub match_all_levels: bool,
    pub dirs_only: bool,
}

/// What compiling one pattern line yields: nothing for blank lines and
/// comments, otherwise the flags read off the raw line and the token
/// sequence of the trimmed body.
pub open spec fn rule_from_line(line: Seq<char>) -> Option<RuleModel> {
    if line.len() == 0 || line[0] == '#' {
        None
    } else {
        let is_negated = line[0] == '!';
        let body0 = if is_negated {
            line.skip(1)
        } else {
            line
        };
        let body = body0.take(body0.len() - trim_count(body0));
        Some(
            RuleModel {
                pattern: tokenize(body),
                is_negated,
                match_all_levels: no_slash(line.take(line.len() - 1)),
                dirs_only: line[line.len() - 1] == '/',
            },
        )
    }
}

/// One compiled gitignore-style rule.
#[derive(Debug)]
pub struct GitIgnoreRule {
    /// Pattern
    pub pattern: Vec<GitIgnoreRuleElements>,
    /// Is the pattern negated
    pub is_negated: bool,
    /// Regular matching, from the root of the rule file, or at any dir level
    /// in between
    pub match_all_levels: bool,
    /// Do we match files and dirs, or dirs only
    pub dirs_only: bool,
}

impl DeepView for GitIgnoreRule {
    type V = RuleModel;

    open spec fn deep_view(&self) -> RuleModel {
        RuleModel {
            pattern: self.pattern.deep_view(),
            is_negated: self.is_negated,
            match_all_levels: self.match_all_levels,
            dirs_only: self.dirs_only,
        }
    }
}

/// True when the character ends a literal run.
fn special_char(c: char) -> (r: bool)
    ensures
        r == is_special(c),
{
    c == '/' || c == '*' || c == '?' || c == '[' || c == '\\'
}

/// Reads the inside of a bracket expression starting at `bstart`; returns
/// the ranges and the index just past what the expression consumed.
#[verifier::loop_isolation(false)]
fn scan_range(cs: &Vec<char>, bstart: usize, end: usize) -> (res: (Vec<(char, char)>, usize))
    requires
        bstart <= end <= cs@.len(),
    ensures
        ({
            let inner = cs@.subrange(bstart as int, end as int);
            &&& res.0@ == range_items(inner)
            &&& res.1 - bstart == range_len(inner)
            &&& bstart <= res.1 <= end
        }),
{
    let ghost inner = cs@.subrange(bstart as int, end as int);
    let mut rv: Vec<(char, char)> = Vec::new();
    let mut j: usize = bstart;
    let mut done = false;
    proof {
        assert(inner.skip(0) =~= inner);
        assert(rv@ =~= Seq::<(char, char)>::empty());
        assert(rv@ + range_items(inner) =~= range_items(inner));
    }
    while j < end && !done
        invariant
            bstart <= j <= end,
            done ==> rv@ == range_items(inner) && j - bstart == range_len(inner),
            !done ==> range_items(inner) == rv@ + range_items(inner.skip(j - bstart))
                && range_len(inner) == (j - bstart) + range_len(inner.skip(j - bstart)),
        decreases end - j,
    {
        let ghost irem = inner.skip(j - bstart);
        proof {
            assert(irem =~= cs@.subrange(j as int, end as int));
        }
        let c0 = cs[j];
        let ghost prev = rv@;
        if c0 == ']' {
            done = true;
            j = j + 1;
        } else if j + 1 < end && cs[j + 1] == '-' {
            if j + 2 < end {
                let c2 = cs[j + 2];
                rv.push((c0, c2));
                proof {
                    assert(inner.skip(j + 3 - bstart) =~= irem.skip(3));
                    assert(rv@ =~= prev + seq![(c0, c2)]);
                    assert(prev + (seq![(c0, c2)] + range_items(irem.skip(3))) =~= (prev + seq![
                        (c0, c2),
                    ]) + range_items(irem.skip(3)));
                }
                j = j + 3;
            } else {
                proof {
                    assert(irem.len() == 2);
                    assert(inner.skip(j + 2 - bstart) =~= irem.skip(2));
                    assert(range_items(irem) =~= Seq::<(char, char)>::empty());
                    assert(prev + range_items(irem) =~= prev);
                    assert(prev + Seq::<(char, char)>::empty() =~= prev);
                }
                j = j + 2;
            }
        } else {
            rv.push((c0, c0));
            proof {
                assert(inner.skip(j + 1 - bstart) =~= irem.skip(1));
                assert(rv@ =~= prev + seq![(c0, c0)]);
                assert(prev + (seq![(c0, c0)] + range_items(irem.skip(1))) =~= (prev + seq![
                    (c0, c0),
                ]) + range_items(irem.skip(1)));
            }
            j = j + 1;
        }
    }
    proof {
        if !done {
            assert(inner.skip(j - bstart) =~= Seq::<char>::empty());
            assert(rv@ + range_items(inner.skip(j - bstart)) =~= rv@);
        }
    }
    (rv, j)
}

/// Collects the literal run starting at `i`; returns the run as a string and
/// the index just past it.
#[verifier::loop_isolation(false)]
fn scan_literal(cs: &Vec<char>, i: usize, end: usize) -> (res: (String, usize))
    requires
        i < end <= cs@.len(),
        !is_special(cs@[i as int]),
    ensures
        ({
            let rem = cs@.subrange(i as int, end as int);
            &&& res.1 - i == lit_run(rem)
            &&& res.0@ == rem.take(lit_run(rem))
            &&& i < res.1 <= end
        }),
{
    let ghost rem = cs@.subrange(i as int, end as int);
    let mut j: usize = i + 1;
    while j < end && !special_char(cs[j])
        invariant
            i + 1 <= j <= end,
            forall|p: int| i <= p < j ==> !is_special(#[trigger] cs@[p]),
        decreases end - j,
    {
        j = j + 1;
    }
    let mut litv: Vec<char> = Vec::new();
    let mut p: usize = i;
    proof {
        assert(litv@ =~= cs@.subrange(i as int, i as int));
    }
    while p < j
        invariant
            i <= p <= j <= cs@.len(),
            litv@ =~= cs@.subrange(i as int, p as int),
        decreases j - p,
    {
        litv.push(cs[p]);
        assert(litv@ =~= cs@.subrange(i as int, p + 1));
        p = p + 1;
    }
    proof {
        assert forall|ii: int| 0 <= ii < j - i implies !is_special(
            #[trigger] rem.take(j - i)[ii],
        ) by {
            assert(rem.take(j - i)[ii] == cs@[i + ii]);
        }
        if j < end {
            assert(rem[j - i] == cs@[j as int]);
        }
        lemma_lit_run_at(rem, j - i);
        assert(litv@ =~= rem.take(lit_run(rem)));
    }
    let lit = crate::strutil::from_chars(&litv);
    (lit, j)
}

/// Tokenizes `cs[start..end]` into pattern elements.
#[verifier::loop_isolation(false)]
#[verifier::rlimit(60)]
fn tokenize_chars(cs: &Vec<char>, start: usize, end: usize) -> (pattern: Vec<
    GitIgnoreRuleElements,
>)
    requires
        start <= end <= cs@.len(),
    ensures
        pattern.deep_view() == tokenize(cs@.subrange(start as int, end as int)),
{
    let ghost body = cs@.subrange(start as int, end as int);
    let mut pattern: Vec<GitIgnoreRuleElements> = Vec::new();
    let mut i: usize = start;
    proof {
        assert(pattern.deep_view() =~= Seq::<TokenModel>::empty());
        assert(body.skip(0) =~= body);
    }
    while i < end
        invariant
            start <= i <= end <= cs@.len(),
            tokenize(body) == pattern.deep_view() + tokenize(body.skip(i - start)),
        decreases end - i,
    {
        let ghost rem = body.skip(i - start);
        proof {
            assert(rem =~= cs@.subrange(i as int, end as int));
        }
        let ghost pv = pattern.deep_view();
        let c = cs[i];
        let ghost mut model: TokenModel = TokenModel::Slash;
        let mut pushed = true;
        let next_i: usize;
        if c == '\\' {
            if i + 1 < end {
                let mut one: Vec<char> = Vec::new();
                one.push(cs[i + 1]);
                let lit = crate::strutil::from_chars(&one);
                proof {
                    model = TokenModel::Literal(seq![cs@[i + 1]]);
                    assert(lit@ =~= seq![cs@[i + 1]]);
                }
                pattern.push(GitIgnoreRuleElements::Literal(lit));
                next_i = i + 2;
            } else {
                // Dangling escape: nothing is pushed and the line ends.
                pushed = false;
                proof {
                    assert(rem.len() == 1);
                    assert(tokenize(rem) =~= Seq::<TokenModel>::empty());
                }
                next_i = i + 1;
            }
        } else if c == '/' {
            pattern.push(GitIgnoreRuleElements::Slash);
            proof {
                model = TokenModel::Slash;
            }
            next_i = i + 1;
        } else if c == '*' {
            if i + 1 < end && cs[i + 1] == '*' {
                pattern.push(GitIgnoreRuleElements::DoubleAsterisk);
                proof {
                    model = TokenModel::DoubleAsterisk;
                }
                next_i = i + 2;
            } else {
                pattern.push(GitIgnoreRuleElements::Asterisk);
                proof {
                    model = TokenModel::Asterisk;
                }
                next_i = i + 1;
            }
        } else if c == '?' {
            pattern.push(GitIgnoreRuleElements::QuestionMark);
            proof {
                model = TokenModel::QuestionMark;
            }
            next_i = i + 1;
        } else if c == '[' {
            let negated = i + 1 < end && (cs[i + 1] == '!' || cs[i + 1] == '^');
            let bstart: usize = if negated {
                i + 2
            } else {
                i + 1
            };
            let ghost inner = cs@.subrange(bstart as int, end as int);
            let pair = scan_range(cs, bstart, end);
            let rv = pair.0;
            next_i = pair.1;
            proof {
                assert(rem.skip(if negated { 2int } else { 1int }) =~= inner);
                model = TokenModel::CharRange(negated, range_items(inner));
            }
            pattern.push(GitIgnoreRuleElements::CharRange((negated, rv)));
            proof {
                let consumed = (if negated {
                    2int
                } else {
                    1int
                }) + range_len(inner);
                assert(rem.skip(consumed) =~= body.skip(next_i - start));
                assert(rem.len() >= 2 ==> rem[1] == cs@[i + 1]);
                assert(tokenize(rem) == seq![model] + tokenize(body.skip(next_i - start)));
            }
        } else {
            // A literal run up to the next special character.
            let pair = scan_literal(cs, i, end);
            next_i = pair.1;
            proof {
                assert(rem =~= cs@.subrange(i as int, end as int));
                model = TokenModel::Literal(rem.take(lit_run(rem)));
            }
            pattern.push(GitIgnoreRuleElements::Literal(pair.0));
            proof {
                assert(rem.skip(lit_run(rem)) =~= body.skip(next_i - start));
            }
        }
        proof {
            if pushed {
                assert(pattern.deep_view() =~= pv.push(model));
                assert(rem.skip(next_i - i) =~= body.skip(next_i - start));
                assert(tokenize(rem) == seq![model] + tokenize(body.skip(next_i - start)));
                assert(pv + tokenize(rem) =~= pattern.deep_view() + tokenize(
                    body.skip(next_i - start),
                ));
            } else {
                assert(pattern.deep_view() =~= pv);
                assert(body.skip(next_i - start) =~= rem.skip(1));
                assert(tokenize(body.skip(next_i - start)) =~= Seq::<TokenModel>::empty());
            }
        }
        i = next_i;
    }
    proof {
        assert(body.skip(i - start) =~= Seq::<char>::empty());
        assert(tokenize(body) =~= pattern.deep_view());
    }
    pattern
}

impl GitIgnoreRule {
    /// Creates a GitIgnoreRule from a line.
    #[verifier::loop_isolation(false)]
    #[verifier::rlimit(60)]
    pub fn from_str(line: &str) -> (r: Option<GitIgnoreRule>)
        ensures
            match r {
                None => rule_from_line(line@) is None,
                Some(rule) => rule_from_line(line@) == Some(rule.deep_view()),
            },
    {
        let cs = to_chars(line);
        let n = cs.len();
        if n == 0 {
            return None;
        }
        if cs[0] == '#' {
            return None;
        }
        let is_negated = cs[0] == '!';
        let dirs_only = cs[n - 1] == '/';

        // No separator anywhere but possibly in last position.
        let mut match_all_levels = true;
        let mut q: usize = 0;
        while q < n - 1
            invariant
                q <= n - 1,
                match_all_levels <==> (forall|p: int| 0 <= p < q ==> #[trigger] line@[p] != '/'),
            decreases n - 1 - q,
        {
            if cs[q] == '/' {
                match_all_levels = false;
            }
            q = q + 1;
        }
        proof {
            let pre = line@.take(n - 1);
            if match_all_levels {
                assert forall|ii: int| 0 <= ii < pre.len() implies pre[ii] != '/' by {
                    assert(pre[ii] == line@[ii]);
                }
            } else {
                let p0 = choose|p: int| 0 <= p < n - 1 && #[trigger] line@[p] == '/';
                assert(pre[p0] == '/');
            }
            assert(match_all_levels == no_slash(line@.take(n - 1)));
        }

        // Trim trailing spaces of the body, unless escaped.
        let start: usize = if is_negated {
            1
        } else {
            0
        };
        let ghost body0 = line@.skip(start as int);
        let mut idx: usize = n;
        let mut trimmed: usize = 0;
        proof {
            assert(body0.take(n - start) =~= body0);
        }
        while idx > start && cs[idx - 1] == ' '
            invariant
                start <= idx <= n,
                trimmed <= n - idx,
                trim_count(body0) == trimmed + trim_count(body0.take(idx - start)),
            decreases idx,
        {
            proof {
                let pre = body0.take(idx - start);
                assert(pre[idx - start - 1] == line@[idx - 1]);
                if idx - 1 > start {
                    assert(pre[idx - start - 2] == line@[idx - 2]);
                }
                assert(pre.take(idx - start - 1) =~= body0.take(idx - 1 - start));
            }
            if idx - 1 > start && cs[idx - 2] == '\\' {
            } else {
                trimmed = trimmed + 1;
            }
            idx = idx - 1;
        }
        proof {
            let pre = body0.take(idx - start);
            if idx > start {
                assert(pre[idx - start - 1] == line@[idx - 1]);
            }
            assert(trim_count(pre) == 0);
            lemma_trim_count_bounds(body0);
        }
        let end: usize = n - trimmed;
        let ghost body = body0.take(body0.len() - trim_count(body0));
        proof {
            assert(body =~= line@.subrange(start as int, end as int));
        }

        // Tokenize the body.
        let pattern = tokenize_chars(&cs, start, end);
        proof {
            assert(body =~= cs@.subrange(start as int, end as int));
            assert(body0 =~= if is_negated {
                line@.skip(1)
            } else {
                line@
            });
        }

        Some(GitIgnoreRule { pattern, is_negated, match_all_levels, dirs_only })
    }
}

proof fn lemma_lit_run_at(s: Seq<char>, m: int)
    requires
        0 <= m <= s.len(),
        forall|i: int| 0 <= i < m ==> !is_special(#[trigger] s.take(m)[i]),
        m < s.len() ==> is_special(s[m as int]),
    ensures
        lit_run(s) == m,
    decreases s.len(),
{
    if m == 0 {
    } else {
        assert(s.take(m)[0] == s[0]);
        assert(forall|i: int|
            0 <= i < m - 1 ==> #[trigger] s.skip(1).take(m - 1)[i] == s.take(m)[i + 1]);
        lemma_lit_run_at(s.skip(1), m - 1);
    }
}

/// The sequence with its trailing separators removed.
pub open spec fn strip_trailing_slashes(s: Seq<char>) -> Seq<char>
    decreases s.len(),
{
    if s.len() > 0 && s[s.len() - 1] == '/' {
        strip_trailing_slashes(s.take(s.len() - 1))
    } else {
        s
    }
}

/// The sequence with its leading separators removed.
pub open spec fn skip_leading_slashes(s: Seq<char>) -> Seq<char>
    decreases s.len(),
{
    if s.len() > 0 && s[0] == '/' {
        skip_leading_slashes(s.skip(1))
    } else {
        s
    }
}

/// The part of `file` relative to the directory `dir`, or nothing when
/// `file` does not lie under `dir`.
pub open spec fn rel_candidate(file: Seq<char>, dir: Seq<char>) -> Option<Seq<char>> {
    let d = strip_trailing_slashes(dir);
    if file == d {
        Some(Seq::empty())
    } else if d.len() == 0 {
        Some(skip_leading_slashes(file))
    } else if file.len() > d.len() && file.take(d.len() as int) == d && file[d.len() as int]
        == '/' {
        Some(skip_leading_slashes(file.skip(d.len() as int)))
    } else {
        None
    }
}

/// Positions in the candidate where a path segment starts.
pub open spec fn seg_boundary(s: Seq<char>, k: int) -> bool {
    0 <= k <= s.len() && (k == 0 || s[k - 1] == '/')
}

/// Whether one compiled rule matches a file lying under the rule's
/// directory: at the top level only, or at any segment depth when the
/// pattern had no internal separator.
pub open spec fn rule_matches_file(r: RuleModel, file: Seq<char>, dir: Seq<char>) -> bool {
    match rel_candidate(file, dir) {
        None => false,
        Some(rel) => if r.match_all_levels {
            exists|k: int|
                seg_boundary(rel, k) && match_tokens(r.pattern, rel.skip(k), r.dirs_only)
        } else {
            match_tokens(r.pattern, rel, r.dirs_only)
        },
    }
}

impl GitIgnoreRule {
    /// Checks if a file name (string) matches a token sequence.
    pub fn string_matches(&self, file: &str, rule: &Vec<GitIgnoreRuleElements>) -> (r: bool)
        ensures
            r == match_tokens(rule.deep_view(), file@, self.dirs_only),
    {
        let fcs = to_chars(file);
        let res = m_norm_x(rule, 0, &fcs, 0, self.dirs_only);
        proof {
            assert(rule.deep_view().skip(0) =~= rule.deep_view());
            assert(fcs@.skip(0) =~= fcs@);
        }
        res
    }

    /// Checks if the current rule matches a file within a dir.
    #[verifier::loop_isolation(false)]
    pub fn file_matches(&self, file: &str, dir: &str) -> (r: bool)
        ensures
            r == rule_matches_file(self.deep_view(), file@, dir@),
    {
        let fcs = to_chars(file);
        let dcs = to_chars(dir);
        let flen = fcs.len();

        // Normalize the directory: drop trailing separators.
        let mut dl: usize = dcs.len();
        proof {
            assert(dir@.take(dl as int) =~= dir@);
        }
        while dl > 0 && dcs[dl - 1] == '/'
            invariant
                dl <= dcs@.len(),
                strip_trailing_slashes(dir@) == strip_trailing_slashes(dir@.take(dl as int)),
            decreases dl,
        {
            proof {
                assert(dir@.take(dl as int).take(dl - 1) =~= dir@.take(dl - 1));
            }
            dl = dl - 1;
        }
        let ghost d = strip_trailing_slashes(dir@);
        proof {
            assert(d =~= dir@.take(dl as int));
        }

        // Compute where the relative candidate starts inside `file`.
        let mut p0: usize;
        let mut equal_prefix = flen >= dl;
        let mut q: usize = 0;
        while q < dl && equal_prefix
            invariant
                q <= dl,
                equal_prefix ==> flen >= dl && (forall|p: int|
                    0 <= p < q ==> file@[p] == dir@.take(dl as int)[p]),
                !equal_prefix ==> !(flen >= dl && file@.take(dl as int) == d),
            decreases dl - q,
        {
            if fcs[q] != dcs[q] {
                proof {
                    assert(file@.take(dl as int)[q as int] != dir@.take(dl as int)[q as int]);
                }
                equal_prefix = false;
            } else {
                proof {
                    assert(dir@.take(dl as int)[q as int] == dir@[q as int]);
                }
            }
            q = q + 1;
        }
        proof {
            if equal_prefix {
                assert(file@.take(dl as int) =~= d);
            }
        }

        if equal_prefix && flen == dl {
            // The file is the directory itself: the candidate is empty.
            p0 = flen;
            proof {
                assert(file@ =~= d);
                assert(file@.skip(p0 as int) =~= Seq::<char>::empty());
            }
        } else if dl == 0 || (equal_prefix && flen > dl && fcs[dl] == '/') {
            proof {
                assert(d.len() == dl);
                if dl == 0 {
                    assert(file@.take(0) =~= d);
                    assert(equal_prefix);
                }
                assert(flen != dl);
                assert(file@ != d);
            }
            p0 = dl;
            let ghost tail = file@.skip(dl as int);
            while p0 < flen && fcs[p0] == '/'
                invariant
                    dl <= p0 <= flen,
                    skip_leading_slashes(tail) == skip_leading_slashes(file@.skip(p0 as int)),
                decreases flen - p0,
            {
                proof {
                    assert(file@.skip(p0 as int).skip(1) =~= file@.skip(p0 + 1));
                }
                p0 = p0 + 1;
            }
            proof {
                assert(skip_leading_slashes(tail) =~= file@.skip(p0 as int));
                if dl == 0 {
                    assert(tail =~= file@);
                }
            }
        } else {
            proof {
                assert(d.len() == dl);
                if file@ == d {
                    assert(flen == dl);
                    assert(file@.take(dl as int) =~= file@);
                    assert(equal_prefix);
                    assert(false);
                }
                if flen > dl && file@.take(dl as int) == d && file@[dl as int] == '/' {
                    assert(equal_prefix);
                    assert(false);
                }
                assert(rel_candidate(file@, dir@) is None);
            }
            return false;
        }
        let ghost rel = rel_candidate(file@, dir@)->Some_0;
        proof {
            assert(rel =~= file@.skip(p0 as int));
        }

        if !self.match_all_levels {
            let res = m_norm_x(&self.pattern, 0, &fcs, p0, self.dirs_only);
            proof {
                assert(self.pattern.deep_view().skip(0) =~= self.pattern.deep_view());
            }
            return res;
        }

        // Try the candidate itself, then with leading segments dropped.
        let mut pos: usize = p0;
        loop
            invariant
                p0 <= pos <= flen,
                seg_boundary(rel, pos - p0),
                forall|k: int|
                    seg_boundary(rel, k) && k < pos - p0 ==> !match_tokens(
                        self.pattern.deep_view(),
                        #[trigger] rel.skip(k),
                        self.dirs_only,
                    ),
            decreases flen - pos,
        {
            let hit = m_norm_x(&self.pattern, 0, &fcs, pos, self.dirs_only);
            proof {
                assert(self.pattern.deep_view().skip(0) =~= self.pattern.deep_view());
                assert(rel.skip(pos - p0) =~= fcs@.skip(pos as int));
            }
            if hit {
                return true;
            }
            // Drop one leading segment: move past the next separator.
            let mut j: usize = pos;
            while j < flen && fcs[j] != '/'
                invariant
                    pos <= j <= flen,
                    forall|p: int| pos <= p < j ==> file@[p] != '/',
                decreases flen - j,
            {
                j = j + 1;
            }
            if j == flen {
                proof {
                    assert forall|k: int|
                        seg_boundary(rel, k) implies !match_tokens(
                        self.pattern.deep_view(),
                        #[trigger] rel.skip(k),
                        self.dirs_only,
                    ) by {
                        if k > pos - p0 {
                            assert(rel[k - 1] == file@[p0 + k - 1]);
                            assert(false);
                        } else if k == pos - p0 {
                            assert(rel.skip(k) =~= fcs@.skip(pos as int));
                        }
                    }
                }
                return false;
            }
            proof {
                assert(file@[j as int] == '/');
                assert(rel[j - p0] == '/');
                assert(seg_boundary(rel, j + 1 - p0));
                assert forall|k: int|
                    seg_boundary(rel, k) && k < j + 1 - p0 implies !match_tokens(
                    self.pattern.deep_view(),
                    #[trigger] rel.skip(k),
                    self.dirs_only,
                ) by {
                    if k > pos - p0 {
                        assert(rel[k - 1] == file@[p0 + k - 1]);
                        assert(false);
                    } else if k == pos - p0 {
                        assert(rel.skip(k) =~= fcs@.skip(pos as int));
                    }
                }
            }
            pos = j + 1;
        }
    }
}

/// Mathematical model of one rule set.
pub struct RuleSetModel {
    pub rules: Seq<RuleModel>,
    pub rule_path: Seq<char>,
}

/// The rules of one ignore file, with the directory it lives in.
#[derive(Debug)]
pub struct GitIgnoreRules {
    /// List of rules found in the file
    pub rules: Vec<GitIgnoreRule>,
    /// Directory where the rule file is located
    pub rule_path: String,
}

impl DeepView for GitIgnoreRules {
    type V = RuleSetModel;

    open spec fn deep_view(&self) -> RuleSetModel {
        RuleSetModel { rules: self.rules.deep_view(), rule_path: self.rule_path@ }
    }
}

/// The rules compiled from a list of pattern lines, in order, with blank
/// lines and comments dropped.
pub open spec fn compiled_lines(ls: Seq<Seq<char>>) -> Seq<RuleModel>
    decreases ls.len(),
{
    if ls.len() == 0 {
        Seq::empty()
    } else {
        (match rule_from_line(ls[0]) {
            None => Seq::empty(),
            Some(m) => seq![m],
        }) + compiled_lines(ls.skip(1))
    }
}

impl GitIgnoreRules {
    /// Compiles the lines of one ignore file, found in directory `rule_path`.
    #[verifier::loop_isolation(false)]
    pub fn from_lines(lines: &Vec<String>, rule_path: String) -> (r: GitIgnoreRules)
        ensures
            r.deep_view().rules == compiled_lines(lines.deep_view()),
            r.rule_path@ == rule_path@,
    {
        let mut rules: Vec<GitIgnoreRule> = Vec::new();
        let mut i: usize = 0;
        proof {
            assert(rules.deep_view() =~= Seq::<RuleModel>::empty());
            assert(lines.deep_view().skip(0) =~= lines.deep_view());
        }
        while i < lines.len()
            invariant
                i <= lines@.len(),
                compiled_lines(lines.deep_view()) == rules.deep_view() + compiled_lines(
                    lines.deep_view().skip(i as int),
                ),
            decreases lines@.len() - i,
        {
            let ghost pv = rules.deep_view();
            let ghost lrest = lines.deep_view().skip(i as int);
            proof {
                assert(lrest[0] == lines@[i as int]@);
                assert(lrest.skip(1) =~= lines.deep_view().skip(i + 1));
            }
            let rule = GitIgnoreRule::from_str(lines[i].as_str());
            match rule {
                Some(rl) => {
                    let ghost m = rl.deep_view();
                    rules.push(rl);
                    proof {
                        assert(rules.deep_view() =~= pv.push(m));
                        assert(pv + (seq![m] + compiled_lines(lrest.skip(1))) =~= pv.push(m)
                            + compiled_lines(lrest.skip(1)));
                    }
                },
                None => {
                    proof {
                        assert(seq![] + compiled_lines(lrest.skip(1)) =~= compiled_lines(
                            lrest.skip(1),
                        ));
                    }
                },
            }
            i = i + 1;
        }
        proof {
            assert(lines.deep_view().skip(i as int) =~= Seq::<Seq<char>>::empty());
            assert(rules.deep_view() + compiled_lines(Seq::empty()) =~= rules.deep_view());
        }
        GitIgnoreRules { rules, rule_path }
    }
}

/// Holds when some rule with the given negation flag, in some collected
/// rule set, matches the file.
pub open spec fn some_rule_matches(
    sets: Seq<RuleSetModel>,
    file: Seq<char>,
    negated: bool,
) -> bool {
    exists|i: int, j: int|
        0 <= i < sets.len() && 0 <= j < sets[i].rules.len() && sets[i].rules[j].is_negated
            == negated && rule_matches_file(sets[i].rules[j], file, sets[i].rule_path)
}

/// What the rule-set combination yields: a negated match anywhere wins and
/// the file is not ignored; otherwise any plain match makes it ignored.
pub open spec fn git_ignored(sets: Seq<RuleSetModel>, file: Seq<char>) -> bool {
    !some_rule_matches(sets, file, true) && some_rule_matches(sets, file, false)
}

/// Decides whether a file is ignored by the collected rule sets: a negated
/// rule matching at any level wins, otherwise any plain match ignores it.
#[verifier::loop_isolation(false)]
pub fn is_git_ignored(filename: &str, all_rules: &Vec<GitIgnoreRules>) -> (r: bool)
    ensures
        r == git_ignored(all_rules.deep_view(), filename@),
{
    let ghost sets = all_rules.deep_view();
    // First pass: a matching negated rule means not ignored, no matter the
    // other matches.
    let mut i: usize = 0;
    while i < all_rules.len()
        invariant
            i <= all_rules@.len(),
            forall|a: int, b: int|
                0 <= a < i && 0 <= b < sets[a].rules.len() && sets[a].rules[b].is_negated
                    ==> !rule_matches_file(#[trigger] sets[a].rules[b], filename@, sets[a].rule_path),
        decreases all_rules@.len() - i,
    {
        let ignore_rules = &all_rules[i];
        let mut j: usize = 0;
        while j < ignore_rules.rules.len()
            invariant
                0 <= i < all_rules@.len(),
                j <= ignore_rules.rules@.len(),
                ignore_rules == all_rules[i as int],
                forall|b: int|
                    0 <= b < j && sets[i as int].rules[b].is_negated ==> !rule_matches_file(
                        #[trigger] sets[i as int].rules[b],
                        filename@,
                        sets[i as int].rule_path,
                    ),
            decreases ignore_rules.rules@.len() - j,
        {
            let rule = &ignore_rules.rules[j];
            if rule.is_negated {
                if rule.file_matches(filename, ignore_rules.rule_path.as_str()) {
                    proof {
                        assert(sets[i as int].rules[j as int] == rule.deep_view());
                    }
                    return false;
                }
            }
            proof {
                assert(sets[i as int].rules[j as int] == rule.deep_view());
            }
            j = j + 1;
        }
        i = i + 1;
    }

    // Second pass, non-negated rules.
    let mut i: usize = 0;
    while i < all_rules.len()
        invariant
            i <= all_rules@.len(),
            !some_rule_matches(sets, filename@, true),
            forall|a: int, b: int|
                0 <= a < i && 0 <= b < sets[a].rules.len() && !sets[a].rules[b].is_negated
                    ==> !rule_matches_file(#[trigger] sets[a].rules[b], filename@, sets[a].rule_path),
        decreases all_rules@.len() - i,
    {
        let ignore_rules = &all_rules[i];
        let mut j: usize = 0;
        while j < ignore_rules.rules.len()
            invariant
                0 <= i < all_rules@.len(),
                j <= ignore_rules.rules@.len(),
                ignore_rules == all_rules[i as int],
                forall|b: int|
                    0 <= b < j && !sets[i as int].rules[b].is_negated ==> !rule_matches_file(
                        #[trigger] sets[i as int].rules[b],
                        filename@,
                        sets[i as int].rule_path,
                    ),
            decreases ignore_rules.rules@.len() - j,
        {
            let rule = &ignore_rules.rules[j];
            if !rule.is_negated {
                if rule.file_matches(filename, ignore_rules.rule_path.as_str()) {
                    proof {
                        assert(sets[i as int].rules[j as int] == rule.deep_view());
                    }
                    return true;
                }
            }
            proof {
                assert(sets[i as int].rules[j as int] == rule.deep_view());
            }
            j = j + 1;
        }
        i = i + 1;
    }

    false
}

} // verus!
