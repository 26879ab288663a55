//! General properties of the library, stated and proved once: determinism
//! of matching, the force of negated rules, trailing-separator patterns,
//! the extension allow-list, and the locality of hidden-path detection.

use vstd::prelude::*;

use crate::filter::{
    base_hidden, ext_allowed, hidden_under, last_slash_idx, lower_of, parent_of, path_extension,
    path_file_name,
};
use crate::git::{
    git_ignored, match_plain, rule_matches_file, some_rule_matches,
    strip_trailing_slashes, RuleModel, RuleSetModel, TokenModel,
};

verus! {

/// Matching is a pure function of the pattern and the path: two results
/// obtained from the same rule, file and directory are equal.
pub proof fn lemma_matching_deterministic(
    r: RuleModel,
    file: Seq<char>,
    dir: Seq<char>,
    b1: bool,
    b2: bool,
)
    requires
        b1 == rule_matches_file(r, file, dir),
        b2 == rule_matches_file(r, file, dir),
    ensures
        b1 == b2,
{
}

/// A matching negated rule, at whatever collected level it lives, means
/// the file is not ignored, no matter which other rules match.
pub proof fn lemma_negation_wins(sets: Seq<RuleSetModel>, file: Seq<char>)
    requires
        some_rule_matches(sets, file, true),
    ensures
        !git_ignored(sets, file),
{
}

/// A pattern ending in a separator matches only when the candidate left
/// for that final token starts a new segment or is fully consumed; such a
/// pattern matches directories only.
pub proof fn lemma_trailing_slash_pattern(rest: Seq<char>)
    ensures
        match_plain(seq![TokenModel::Slash], rest, true) == (rest.len() == 0 || rest[0] == '/'),
{
    let t = seq![TokenModel::Slash];
    assert(t.len() == 1);
    if rest.len() > 0 && rest[0] == '/' {
        assert(t.skip(1) =~= Seq::<TokenModel>::empty());
        assert(match_plain(t.skip(1), rest.skip(1), true));
    }
}

/// An empty allow-list allows every file.
pub proof fn lemma_empty_allowlist_allows_all(p: Seq<char>)
    ensures
        ext_allowed(p, Seq::empty()),
{
}

/// An allow-list holding only the empty entry allows every extensionless
/// file.
pub proof fn lemma_empty_entry_allows_extensionless(p: Seq<char>)
    requires
        path_extension(p) is None,
    ensures
        ext_allowed(p, seq![Seq::empty()]),
{
    let allowed: Seq<Seq<char>> = seq![Seq::empty()];
    assert(allowed[0].len() == 0);
}

/// An allow-list holding only the empty entry rejects a file whose
/// extension does not lowercase to the empty string.
pub proof fn lemma_empty_entry_rejects_extended(p: Seq<char>, e: Seq<char>)
    requires
        path_extension(p) == Some(e),
        lower_of(e).len() > 0,
    ensures
        !ext_allowed(p, seq![Seq::empty()]),
{
    let allowed: Seq<Seq<char>> = seq![Seq::empty()];
    assert forall|i: int| 0 <= i < allowed.len() implies allowed[i] != lower_of(e) by {
        assert(allowed[0].len() == 0);
    }
}

/// Extension matching is case-insensitive: two files whose extensions
/// lowercase to the same thing pass the same allow-lists.
pub proof fn lemma_extension_case_insensitive(
    p1: Seq<char>,
    p2: Seq<char>,
    allowed: Seq<Seq<char>>,
    e1: Seq<char>,
    e2: Seq<char>,
)
    requires
        path_extension(p1) == Some(e1),
        path_extension(p2) == Some(e2),
        lower_of(e1) == lower_of(e2),
    ensures
        ext_allowed(p1, allowed) == ext_allowed(p2, allowed),
{
}

/// The final component of a path below a directory does not depend on the
/// directory.
proof fn lemma_file_name_concat(w: Seq<char>, rest: Seq<char>)
    requires
        w.len() > 0,
        w[w.len() - 1] != '/',
        rest.len() > 0,
        rest[0] != '/',
        rest[rest.len() - 1] != '/',
    ensures
        path_file_name(w + seq!['/'] + rest) == path_file_name(rest),
        last_slash_idx(w + seq!['/'] + rest) == w.len() + 1 + last_slash_idx(rest),
{
    let p = w + seq!['/'] + rest;
    lemma_last_slash_concat(w, rest);
    assert(strip_trailing_slashes(p) == p);
    assert(strip_trailing_slashes(rest) == rest);
    let ls = last_slash_idx(rest);
    crate::filter::lemma_last_slash_idx(rest);
    assert(p.skip(w.len() + 1 + ls + 1) =~= rest.skip(ls + 1));
}

/// Where the last separator of a joined path lies.
proof fn lemma_last_slash_concat(w: Seq<char>, rest: Seq<char>)
    requires
        rest.len() == 0 || rest[rest.len() - 1] != '/',
    ensures
        last_slash_idx(w + seq!['/'] + rest) == w.len() + 1 + last_slash_idx(rest),
    decreases rest.len(), 1int,
{
    let p = w + seq!['/'] + rest;
    if rest.len() == 0 {
        assert(p[p.len() - 1] == '/');
    } else {
        assert(p[p.len() - 1] == rest[rest.len() - 1]);
        assert(p.take(p.len() - 1) =~= w + seq!['/'] + rest.take(rest.len() - 1));
        if rest.len() == 1 {
            lemma_last_slash_concat(w, rest.take(0));
            assert(rest.take(0) =~= Seq::<char>::empty());
            assert(last_slash_idx(rest) == last_slash_idx(rest.take(0)));
        } else {
            if rest[rest.len() - 2] == '/' {
                // The recursion on the shorter tail ends at that separator.
                let r2 = rest.take(rest.len() - 1);
                assert(r2[r2.len() - 1] == '/');
                assert(last_slash_idx(r2) == r2.len() - 1);
                assert(p.take(p.len() - 1)[p.len() - 2] == '/');
                assert(last_slash_idx(p.take(p.len() - 1)) == p.len() - 2);
                assert(last_slash_idx(p) == p.len() - 2);
                assert(last_slash_idx(rest) == rest.len() - 2);
            } else {
                lemma_last_slash_concat_aux(w, rest);
            }
        }
    }
}

/// The inductive step of `lemma_last_slash_concat` for a tail that does
/// not end in a separator.
proof fn lemma_last_slash_concat_aux(w: Seq<char>, rest: Seq<char>)
    requires
        rest.len() >= 2,
        rest[rest.len() - 1] != '/',
        rest[rest.len() - 2] != '/',
    ensures
        last_slash_idx(w + seq!['/'] + rest) == w.len() + 1 + last_slash_idx(rest),
    decreases rest.len(), 0int,
{
    let p = w + seq!['/'] + rest;
    let r2 = rest.take(rest.len() - 1);
    assert(p[p.len() - 1] == rest[rest.len() - 1]);
    assert(p.take(p.len() - 1) =~= w + seq!['/'] + r2);
    assert(r2[r2.len() - 1] == rest[rest.len() - 2]);
    lemma_last_slash_concat(w, r2);
    assert(last_slash_idx(p) == last_slash_idx(p.take(p.len() - 1)));
    assert(last_slash_idx(rest) == last_slash_idx(r2));
}

/// No two consecutive separators.
pub open spec fn single_slashes(s: Seq<char>) -> bool {
    forall|i: int| 1 <= i < s.len() ==> ((#[trigger] s[i]) == '/' ==> s[i - 1] != '/')
}

/// Hidden-path detection does not look above the watch root: for a
/// relative path below the watch directory, the decision is the same
/// under any watch directory. The watch is a normalized non-root
/// directory and the relative part has single separators and none at
/// either end.
pub proof fn lemma_hidden_below_watch_only(w1: Seq<char>, w2: Seq<char>, rest: Seq<char>)
    requires
        w1.len() > 0,
        w1[w1.len() - 1] != '/',
        w2.len() > 0,
        w2[w2.len() - 1] != '/',
        rest.len() > 0,
        rest[0] != '/',
        rest[rest.len() - 1] != '/',
        single_slashes(rest),
    ensures
        hidden_under(w1 + seq!['/'] + rest, w1) == hidden_under(w2 + seq!['/'] + rest, w2),
    decreases rest.len(),
{
    let p1 = w1 + seq!['/'] + rest;
    let p2 = w2 + seq!['/'] + rest;
    lemma_file_name_concat(w1, rest);
    lemma_file_name_concat(w2, rest);
    assert(base_hidden(p1) == base_hidden(p2));
    if !base_hidden(p1) {
        crate::filter::lemma_last_slash_idx(rest);
        let ls = last_slash_idx(rest);
        assert(strip_trailing_slashes(p1) == p1);
        assert(strip_trailing_slashes(p2) == p2);
        if ls == -1 {
            // The parent is the watch directory itself: both walks stop.
            assert(p1.take(w1.len() as int) =~= w1);
            assert(p2.take(w2.len() as int) =~= w2);
            assert(parent_of(p1) == Some(w1));
            assert(parent_of(p2) == Some(w2));
        } else {
            assert(1 <= ls < rest.len());
            let r2 = rest.take(ls);
            assert(r2[0] == rest[0]);
            assert(r2[r2.len() - 1] == rest[ls - 1]);
            assert(rest[ls as int] == '/');
            assert(rest[ls - 1] != '/');
            assert forall|i: int| 1 <= i < r2.len() implies ((#[trigger] r2[i]) == '/' ==> r2[i
                - 1] != '/') by {
                assert(r2[i] == rest[i] && r2[i - 1] == rest[i - 1]);
            }
            assert(single_slashes(r2));
            assert(p1.take(w1.len() + 1 + ls) =~= w1 + seq!['/'] + r2);
            assert(p2.take(w2.len() + 1 + ls) =~= w2 + seq!['/'] + r2);
            assert(parent_of(p1) == Some(w1 + seq!['/'] + r2));
            assert(parent_of(p2) == Some(w2 + seq!['/'] + r2));
            assert(w1 + seq!['/'] + r2 != w1 && w2 + seq!['/'] + r2 != w2) by {
                assert((w1 + seq!['/'] + r2).len() > w1.len());
                assert((w2 + seq!['/'] + r2).len() > w2.len());
            }
            lemma_hidden_below_watch_only(w1, w2, r2);
        }
    }
}

} // verus!