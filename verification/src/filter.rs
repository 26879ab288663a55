//! The change filter: extension allow-list, hidden-path detection, regex
//! include/exclude, and the combined accept/reject decision for one event.
//!
//! Paths are plain strings using `/` as the separator.

use vstd::prelude::*;

use crate::git::{
    git_ignored, is_git_ignored, skip_leading_slashes, strip_trailing_slashes, GitIgnoreRules,
    RuleSetModel,
};
use crate::strutil::to_chars;

verus! {

/// Index of the last separator, or -1 if there is none.
pub open spec fn last_slash_idx(s: Seq<char>) -> int
    decreases s.len(),
{
    if s.len() == 0 {
        -1
    } else if s[s.len() - 1] == '/' {
        s.len() - 1
    } else {
        last_slash_idx(s.take(s.len() - 1))
    }
}

pub proof fn lemma_last_slash_idx(s: Seq<char>)
    ensures
        -1 <= last_slash_idx(s) < s.len(),
        last_slash_idx(s) >= 0 ==> s[last_slash_idx(s)] == '/',
    decreases s.len(),
{
    if s.len() > 0 && s[s.len() - 1] != '/' {
        lemma_last_slash_idx(s.take(s.len() - 1));
        let ls = last_slash_idx(s);
        if ls >= 0 {
            assert(s.take(s.len() - 1)[ls] == s[ls]);
        }
    }
}

/// Index of the last dot, or -1 if there is none.
pub open spec fn last_dot_idx(s: Seq<char>) -> int
    decreases s.len(),
{
    if s.len() == 0 {
        -1
    } else if s[s.len() - 1] == '.' {
        s.len() - 1
    } else {
        last_dot_idx(s.take(s.len() - 1))
    }
}

/// The final path component, after trailing separators are dropped; the
/// current- and parent-directory names yield nothing.
pub open spec fn path_file_name(p: Seq<char>) -> Option<Seq<char>> {
    let t = strip_trailing_slashes(p);
    if t.len() == 0 {
        None
    } else {
        let b = t.skip(last_slash_idx(t) + 1);
        if b == seq!['.'] || b == seq!['.', '.'] {
            None
        } else {
            Some(b)
        }
    }
}

/// The extension: what follows the last dot of the file name, unless that
/// dot is the file name's first character.
pub open spec fn path_extension(p: Seq<char>) -> Option<Seq<char>> {
    match path_file_name(p) {
        None => None,
        Some(b) => {
            let d = last_dot_idx(b);
            if d <= 0 {
                None
            } else {
                Some(b.skip(d + 1))
            }
        },
    }
}

/// What lowercasing a string yields; left abstract, the runtime behaviour
/// is the library's.
pub uninterp spec fn lower_of(s: Seq<char>) -> Seq<char>;

/// Relies on str::to_lowercase: the result depends on the characters alone,
/// and an empty string stays empty.
#[verifier::external_body]
pub(crate) fn lowercase(s: &str) -> (r: String)
    ensures
        r@ == lower_of(s@),
        s@.len() == 0 ==> r@.len() == 0,
{
    s.to_lowercase()
}

/// Whether the file's extension passes the allow-list: an empty list allows
/// everything; an extensionless file needs an empty entry; otherwise the
/// lowercased extension must be listed.
pub open spec fn ext_allowed(p: Seq<char>, allowed: Seq<Seq<char>>) -> bool {
    if allowed.len() == 0 {
        true
    } else {
        match path_extension(p) {
            None => exists|i: int| 0 <= i < allowed.len() && allowed[i].len() == 0,
            Some(e) => exists|i: int| 0 <= i < allowed.len() && allowed[i] == lower_of(e),
        }
    }
}

/// Compares two strings character by character.
pub fn str_eq_chars(a: &str, b: &str) -> (r: bool)
    ensures
        r == (a@ == b@),
{
    let av = to_chars(a);
    let bv = to_chars(b);
    if av.len() != bv.len() {
        return false;
    }
    let mut i: usize = 0;
    while i < av.len()
        invariant
            i <= av@.len(),
            av@.len() == bv@.len(),
            av@ == a@,
            bv@ == b@,
            forall|j: int| 0 <= j < i ==> a@[j] == b@[j],
        decreases av@.len() - i,
    {
        if av[i] != bv[i] {
            return false;
        }
        i = i + 1;
    }
    assert(a@ =~= b@);
    true
}

/// Computes the file name of a path, as `path_file_name` describes it.
#[verifier::loop_isolation(false)]
fn file_name_of(fcs: &Vec<char>, upto: usize) -> (r: Option<(usize, usize)>)
    requires
        upto <= fcs@.len(),
    ensures
        match r {
            None => path_file_name(fcs@.take(upto as int)) is None,
            Some((lo, hi)) => {
                &&& lo < hi <= upto
                &&& path_file_name(fcs@.take(upto as int)) == Some(
                    fcs@.subrange(lo as int, hi as int),
                )
            },
        },
{
    let ghost p = fcs@.take(upto as int);
    // Drop trailing separators.
    let mut m: usize = upto;
    proof {
        assert(p.take(upto as int) =~= p);
    }
    while m > 0 && fcs[m - 1] == '/'
        invariant
            m <= upto,
            strip_trailing_slashes(p) == strip_trailing_slashes(p.take(m as int)),
        decreases m,
    {
        proof {
            assert(p.take(m as int)[m - 1] == fcs@[m - 1]);
            assert(p.take(m as int).take(m - 1) =~= p.take(m - 1));
        }
        m = m - 1;
    }
    let ghost t = strip_trailing_slashes(p);
    proof {
        if m > 0 {
            assert(p.take(m as int)[m - 1] == fcs@[m - 1]);
        }
        assert(t =~= fcs@.take(m as int));
    }
    if m == 0 {
        return None;
    }
    // Find the last separator before m.
    let mut j: usize = m;
    proof {
        assert(t.take(m as int) =~= t);
    }
    while j > 0 && fcs[j - 1] != '/'
        invariant
            j <= m,
            last_slash_idx(t) == last_slash_idx(t.take(j as int)),
        decreases j,
    {
        proof {
            assert(t.take(j as int)[j - 1] == fcs@[j - 1]);
            assert(t.take(j as int).take(j - 1) =~= t.take(j - 1));
        }
        j = j - 1;
    }
    proof {
        if j > 0 {
            assert(t.take(j as int)[j - 1] == fcs@[j - 1]);
        }
        assert(last_slash_idx(t) == j - 1);
        assert(t.skip(j as int) =~= fcs@.subrange(j as int, m as int));
    }
    // The component runs from j to m; "." and ".." yield nothing.
    if m - j == 1 && fcs[j] == '.' {
        proof {
            assert(t.skip(j as int) =~= seq!['.']);
        }
        return None;
    }
    if m - j == 2 && fcs[j] == '.' && fcs[j + 1] == '.' {
        proof {
            assert(t.skip(j as int) =~= seq!['.', '.']);
        }
        return None;
    }
    proof {
        assert(t.skip(j as int) != seq!['.'] && t.skip(j as int) != seq!['.', '.']) by {
            let b = t.skip(j as int);
            if b == seq!['.'] {
                assert(b.len() == 1 && b[0] == '.');
                assert(fcs@[j as int] == '.');
            }
            if b == seq!['.', '.'] {
                assert(b.len() == 2 && b[0] == '.' && b[1] == '.');
                assert(fcs@[j as int] == '.' && fcs@[j + 1] == '.');
            }
        }
    }
    Some((j, m))
}

/// Checks if the filename extension is part of our allow-list.
/// Returns true if the allow-list is empty.
/// If the extension "" is passed, files without extension will match.
#[verifier::loop_isolation(false)]
pub fn extension_matches(filename: &str, allowed_extensions: &Vec<String>) -> (r: bool)
    ensures
        r == ext_allowed(filename@, allowed_extensions.deep_view()),
{
    if allowed_extensions.len() == 0 {
        return true;
    }
    let fcs = to_chars(filename);
    let ghost p = filename@;
    proof {
        assert(fcs@.take(fcs@.len() as int) =~= p);
    }
    let name = file_name_of(&fcs, fcs.len());
    proof {
        match name {
            Some(pair) => {
                assert(pair.0 <= pair.1 <= fcs@.len());
            },
            None => {},
        }
    }

    // Determine the extension, if any.
    let mut ext: Option<String> = None;
    match name {
        None => {},
        Some((lo, hi)) => {
            let ghost b = fcs@.subrange(lo as int, hi as int);
            // Find the last dot inside the component.
            let mut j: usize = hi;
            proof {
                assert(b.take(hi - lo) =~= b);
            }
            while j > lo && fcs[j - 1] != '.'
                invariant
                    lo <= j <= hi,
                    last_dot_idx(b) == last_dot_idx(b.take(j - lo)),
                decreases j,
            {
                proof {
                    assert(b.take(j - lo)[j - lo - 1] == fcs@[j - 1]);
                    assert(b.take(j - lo).take(j - lo - 1) =~= b.take(j - 1 - lo));
                }
                j = j - 1;
            }
            proof {
                if j > lo {
                    assert(b.take(j - lo)[j - lo - 1] == fcs@[j - 1]);
                }
                assert(last_dot_idx(b) == j - lo - 1);
            }
            if j - lo > 1 {
                // A dot at j-1, not in first position: extension is b[j-lo..].
                let mut ev: Vec<char> = Vec::new();
                let mut q: usize = j;
                while q < hi
                    invariant
                        j <= q <= hi,
                        ev@ =~= fcs@.subrange(j as int, q as int),
                    decreases hi - q,
                {
                    ev.push(fcs[q]);
                    assert(ev@ =~= fcs@.subrange(j as int, q + 1));
                    q = q + 1;
                }
                proof {
                    assert(b.skip(last_dot_idx(b) + 1) =~= fcs@.subrange(j as int, hi as int));
                }
                ext = Some(crate::strutil::from_chars(&ev));
            }
        },
    }

    match ext {
        None => {
            // No extension: an empty entry in the allow-list matches.
            let mut i: usize = 0;
            while i < allowed_extensions.len()
                invariant
                    i <= allowed_extensions@.len(),
                    forall|q: int|
                        0 <= q < i ==> #[trigger] allowed_extensions.deep_view()[q].len() != 0,
                decreases allowed_extensions@.len() - i,
            {
                proof {
                    assert(allowed_extensions.deep_view()[i as int] == allowed_extensions@[i as int]@);
                }
                if allowed_extensions[i].as_str().is_empty() {
                    return true;
                }
                i = i + 1;
            }
            false
        },
        Some(e) => {
            let le = lowercase(e.as_str());
            let mut i: usize = 0;
            while i < allowed_extensions.len()
                invariant
                    i <= allowed_extensions@.len(),
                    le@ == lower_of(path_extension(p)->Some_0),
                    forall|q: int|
                        0 <= q < i ==> #[trigger] allowed_extensions.deep_view()[q] != le@,
                decreases allowed_extensions@.len() - i,
            {
                proof {
                    assert(allowed_extensions.deep_view()[i as int] == allowed_extensions@[i as int]@);
                }
                if str_eq_chars(allowed_extensions[i].as_str(), le.as_str()) {
                    return true;
                }
                i = i + 1;
            }
            false
        },
    }
}

/// The parent directory of a path: the path up to its last separator, the
/// bare root for a top-level entry, and nothing for the root or an empty
/// path.
pub open spec fn parent_of(p: Seq<char>) -> Option<Seq<char>> {
    let t = strip_trailing_slashes(p);
    if t.len() == 0 {
        None
    } else {
        let ls = last_slash_idx(t);
        if ls == -1 {
            Some(Seq::empty())
        } else if ls == 0 {
            Some(seq!['/'])
        } else {
            Some(t.take(ls))
        }
    }
}

pub proof fn lemma_strip_trailing_slashes(s: Seq<char>)
    ensures
        strip_trailing_slashes(s).len() <= s.len(),
        strip_trailing_slashes(s).len() > 0 ==> strip_trailing_slashes(s)[strip_trailing_slashes(
            s,
        ).len() - 1] != '/',
        strip_trailing_slashes(s) == s.take(strip_trailing_slashes(s).len() as int),
    decreases s.len(),
{
    if s.len() > 0 && s[s.len() - 1] == '/' {
        lemma_strip_trailing_slashes(s.take(s.len() - 1));
        let t = strip_trailing_slashes(s);
        assert(s.take(s.len() - 1).take(t.len() as int) =~= s.take(t.len() as int));
    } else {
        assert(s.take(s.len() as int) =~= s);
    }
}

/// Whether the final path component itself is hidden: it starts with a dot.
pub open spec fn base_hidden(p: Seq<char>) -> bool {
    match path_file_name(p) {
        None => false,
        Some(b) => b.len() > 0 && b[0] == '.',
    }
}

/// Whether the file or any parent directory up to (and excluding) the watch
/// directory is hidden.
pub open spec fn hidden_under(p: Seq<char>, w: Seq<char>) -> bool
    decreases p.len(),
    via hidden_under_decreases
{
    if base_hidden(p) {
        true
    } else {
        match parent_of(p) {
            None => false,
            Some(q) => if q == w {
                false
            } else {
                hidden_under(q, w)
            },
        }
    }
}

#[via_fn]
proof fn hidden_under_decreases(p: Seq<char>, w: Seq<char>) {
    lemma_parent_shorter(p);
}

pub proof fn lemma_parent_shorter(p: Seq<char>)
    ensures
        parent_of(p) matches Some(q) ==> q.len() < p.len(),
{
    lemma_strip_trailing_slashes(p);
    let t = strip_trailing_slashes(p);
    if t.len() > 0 {
        lemma_last_slash_idx(t);
        let ls = last_slash_idx(t);
        if ls == 0 {
            // The root alone would have been stripped, so t has at least
            // two characters here.
            assert(t.len() >= 2);
        }
    }
}

/// The watch directory as the popped paths will meet it: trailing
/// separators dropped, a bare root kept as the root.
pub open spec fn watch_norm(w: Seq<char>) -> Seq<char> {
    let t = strip_trailing_slashes(w);
    if t.len() == 0 && w.len() > 0 {
        seq!['/']
    } else {
        t
    }
}

/// Checks if the file or any parent directory is hidden
/// up to the watch directory level.
#[verifier::loop_isolation(false)]
#[verifier::rlimit(60)]
pub fn is_hidden(filename: &str, watch: &str) -> (r: bool)
    ensures
        r == hidden_under(filename@, watch_norm(watch@)),
{
    let fcs = to_chars(filename);
    let wcs = to_chars(watch);
    let ghost wn = watch_norm(watch@);

    // Normalize the watch directory.
    let mut wl: usize = wcs.len();
    proof {
        assert(watch@.take(wl as int) =~= watch@);
    }
    while wl > 0 && wcs[wl - 1] == '/'
        invariant
            wl <= wcs@.len(),
            strip_trailing_slashes(watch@) == strip_trailing_slashes(watch@.take(wl as int)),
        decreases wl,
    {
        proof {
            assert(watch@.take(wl as int)[wl - 1] == watch@[wl - 1]);
            assert(watch@.take(wl as int).take(wl - 1) =~= watch@.take(wl - 1));
        }
        wl = wl - 1;
    }
    let mut wv: Vec<char> = Vec::new();
    let mut q: usize = 0;
    proof {
        if wl > 0 {
            assert(watch@.take(wl as int)[wl - 1] == watch@[wl - 1]);
        }
        assert(strip_trailing_slashes(watch@) =~= watch@.take(wl as int));
    }
    if wl == 0 && wcs.len() > 0 {
        wv.push('/');
        proof {
            assert(wv@ =~= wn);
        }
    } else {
        while q < wl
            invariant
                q <= wl <= wcs@.len(),
                wv@ =~= watch@.take(q as int),
            decreases wl - q,
        {
            wv.push(wcs[q]);
            assert(wv@ =~= watch@.take(q + 1));
            q = q + 1;
        }
        proof {
            assert(wv@ =~= wn);
        }
    }

    // Walk from the file upward, stopping at the watch directory.
    let mut cur: usize = fcs.len();
    proof {
        assert(fcs@.take(cur as int) =~= filename@);
    }
    loop
        invariant
            cur <= fcs@.len(),
            wv@ == wn,
            fcs@ == filename@,
            hidden_under(filename@, wn) == hidden_under(fcs@.take(cur as int), wn),
        decreases cur,
    {
        let ghost p = fcs@.take(cur as int);

        // Hidden check on the current path.
        let name = file_name_of(&fcs, cur);
        match name {
            Some((lo, hi)) => {
                if lo < hi && fcs[lo] == '.' {
                    proof {
                        assert(fcs@.subrange(lo as int, hi as int)[0] == fcs@[lo as int]);
                        assert(base_hidden(p));
                    }
                    return true;
                }
                proof {
                    assert(fcs@.subrange(lo as int, hi as int).len() > 0);
                    assert(fcs@.subrange(lo as int, hi as int)[0] == fcs@[lo as int]);
                    assert(!base_hidden(p));
                }
            },
            None => {
                proof {
                    assert(!base_hidden(p));
                }
            },
        }

        // Compute the parent.
        let mut m: usize = cur;
        proof {
            assert(p.take(cur as int) =~= p);
        }
        while m > 0 && fcs[m - 1] == '/'
            invariant
                m <= cur,
                strip_trailing_slashes(p) == strip_trailing_slashes(p.take(m as int)),
            decreases m,
        {
            proof {
                assert(p.take(m as int)[m - 1] == fcs@[m - 1]);
                assert(p.take(m as int).take(m - 1) =~= p.take(m - 1));
            }
            m = m - 1;
        }
        let ghost t = strip_trailing_slashes(p);
        proof {
            if m > 0 {
                assert(p.take(m as int)[m - 1] == fcs@[m - 1]);
            }
            assert(t =~= fcs@.take(m as int));
        }
        if m == 0 {
            // No parent: not hidden.
            return false;
        }
        let mut j: usize = m;
        proof {
            assert(t.take(m as int) =~= t);
        }
        while j > 0 && fcs[j - 1] != '/'
            invariant
                j <= m,
                last_slash_idx(t) == last_slash_idx(t.take(j as int)),
            decreases j,
        {
            proof {
                assert(t.take(j as int)[j - 1] == fcs@[j - 1]);
                assert(t.take(j as int).take(j - 1) =~= t.take(j - 1));
            }
            j = j - 1;
        }
        let parent_len: usize;
        if j == 0 {
            proof {
                assert(last_slash_idx(t) == -1);
            }
            parent_len = 0;
            proof {
                assert(parent_of(p) == Some(Seq::<char>::empty()));
                assert(fcs@.take(0) =~= Seq::<char>::empty());
            }
        } else if j == 1 {
            proof {
                assert(t.take(1)[0] == fcs@[0]);
                assert(last_slash_idx(t) == 0);
            }
            parent_len = 1;
            proof {
                assert(fcs@.take(1) =~= seq![fcs@[0]]);
                assert(fcs@[0] == '/');
                assert(fcs@.take(1) =~= seq!['/']);
                assert(parent_of(p) == Some(seq!['/']));
            }
        } else {
            proof {
                assert(t.take(j as int)[j - 1] == fcs@[j - 1]);
                assert(last_slash_idx(t) == j - 1);
            }
            parent_len = j - 1;
            proof {
                assert(t.take(j - 1) =~= fcs@.take(j - 1));
                assert(parent_of(p) == Some(fcs@.take(parent_len as int)));
            }
        }

        // Stop when the parent is the watch directory.
        let mut same = parent_len == wv.len();
        let mut k: usize = 0;
        while k < parent_len && same
            invariant
                k <= parent_len <= fcs@.len(),
                same ==> parent_len == wv@.len() && (forall|z: int|
                    0 <= z < k ==> fcs@[z] == wv@[z]),
                !same ==> fcs@.take(parent_len as int) != wv@,
            decreases parent_len - k,
        {
            if fcs[k] != wv[k] {
                proof {
                    assert(fcs@.take(parent_len as int)[k as int] != wv@[k as int]);
                }
                same = false;
            }
            k = k + 1;
        }
        proof {
            if same {
                assert(fcs@.take(parent_len as int) =~= wv@);
            }
        }
        if same {
            return false;
        }
        proof {
            assert(fcs@.take(parent_len as int) != wn);
            lemma_parent_shorter(p);
        }
        cur = parent_len;
    }
}

/// The final path component, or the empty string where there is none.
pub open spec fn file_name_or_empty(p: Seq<char>) -> Seq<char> {
    match path_file_name(p) {
        Some(b) => b,
        None => Seq::empty(),
    }
}

/// The final path component as a string, empty where there is none.
#[verifier::loop_isolation(false)]
pub fn base_name_of(path: &str) -> (r: String)
    ensures
        r@ == file_name_or_empty(path@),
{
    let fcs = to_chars(path);
    proof {
        assert(fcs@.take(fcs@.len() as int) =~= path@);
    }
    match file_name_of(&fcs, fcs.len()) {
        None => String::new(),
        Some((lo, hi)) => {
            let mut bv: Vec<char> = Vec::new();
            let mut q: usize = lo;
            proof {
                assert(bv@ =~= fcs@.subrange(lo as int, lo as int));
            }
            while q < hi
                invariant
                    lo <= q <= hi <= fcs@.len(),
                    bv@ =~= fcs@.subrange(lo as int, q as int),
                decreases hi - q,
            {
                bv.push(fcs[q]);
                assert(bv@ =~= fcs@.subrange(lo as int, q + 1));
                q = q + 1;
            }
            crate::strutil::from_chars(&bv)
        },
    }
}

/// Whether a regular expression pattern compiles; left abstract, the
/// runtime behaviour is the regex engine's.
pub uninterp spec fn regex_compiles(pattern: Seq<char>) -> bool;

/// Whether a regular expression matches somewhere in a text; left abstract,
/// the runtime behaviour is the regex engine's.
pub uninterp spec fn regex_matches(pattern: Seq<char>, text: Seq<char>) -> bool;

/// Relies on regex::Regex::new and regex::Regex::is_match: whether the
/// pattern compiles, and whether it matches anywhere in the text, depend on
/// the pattern and the text alone.
#[verifier::external_body]
fn regex_match_once(pattern: &str, text: &str) -> (r: Option<bool>)
    ensures
        r is Some <==> regex_compiles(pattern@),
        r matches Some(b) ==> b == regex_matches(pattern@, text@),
{
    match regex::Regex::new(pattern) {
        Ok(re) => Some(re.is_match(text)),
        Err(_) => None,
    }
}

/// Whether a pattern compiles, decided by trying it on an empty text.
fn regex_check(pattern: &str) -> (r: bool)
    ensures
        r == regex_compiles(pattern@),
{
    match regex_match_once(pattern, "") {
        Some(_) => true,
        None => false,
    }
}

/// The path relative to a directory, as the regex filters see it: the
/// directory prefix and the separators after it dropped, and the path
/// unchanged when it does not start with the directory.
pub open spec fn rel_within_dir(filename: Seq<char>, dir: Seq<char>) -> Seq<char> {
    if filename.len() >= dir.len() && filename.take(dir.len() as int) == dir {
        skip_leading_slashes(filename.skip(dir.len() as int))
    } else {
        filename
    }
}

/// Returns a String showing the relative path of a
/// filename located inside a directory.
#[verifier::loop_isolation(false)]
pub fn relative_path_within_dir(filename: &str, dir: &str) -> (r: String)
    ensures
        r@ == rel_within_dir(filename@, dir@),
{
    let fcs = to_chars(filename);
    let dcs = to_chars(dir);
    let flen = fcs.len();
    let dlen = dcs.len();

    let mut is_prefix = flen >= dlen;
    let mut q: usize = 0;
    while q < dlen && is_prefix
        invariant
            q <= dlen,
            is_prefix ==> flen >= dlen && (forall|p: int| 0 <= p < q ==> filename@[p] == dir@[p]),
            !is_prefix ==> !(flen >= dlen && filename@.take(dlen as int) == dir@),
        decreases dlen - q,
    {
        if fcs[q] != dcs[q] {
            proof {
                assert(filename@.take(dlen as int)[q as int] != dir@[q as int]);
            }
            is_prefix = false;
        }
        q = q + 1;
    }
    if !is_prefix {
        return crate::strutil::from_chars(&fcs);
    }
    proof {
        assert(filename@.take(dlen as int) =~= dir@);
    }

    // Drop the separators that follow the prefix.
    let mut p0: usize = dlen;
    let ghost tail = filename@.skip(dlen as int);
    while p0 < flen && fcs[p0] == '/'
        invariant
            dlen <= p0 <= flen,
            skip_leading_slashes(tail) == skip_leading_slashes(filename@.skip(p0 as int)),
        decreases flen - p0,
    {
        proof {
            assert(filename@.skip(p0 as int).skip(1) =~= filename@.skip(p0 + 1));
        }
        p0 = p0 + 1;
    }
    proof {
        assert(skip_leading_slashes(tail) =~= filename@.skip(p0 as int));
    }
    let mut rv: Vec<char> = Vec::new();
    let mut i: usize = p0;
    proof {
        assert(rv@ =~= filename@.subrange(p0 as int, p0 as int));
    }
    while i < flen
        invariant
            p0 <= i <= flen,
            rv@ =~= filename@.subrange(p0 as int, i as int),
        decreases flen - i,
    {
        rv.push(fcs[i]);
        assert(rv@ =~= filename@.subrange(p0 as int, i + 1));
        i = i + 1;
    }
    proof {
        assert(rv@ =~= filename@.skip(p0 as int));
    }
    crate::strutil::from_chars(&rv)
}

/// Holds when every pattern in the list matches the text.
pub open spec fn all_regexes_match(patterns: Seq<Seq<char>>, text: Seq<char>) -> bool {
    forall|i: int| 0 <= i < patterns.len() ==> regex_matches(#[trigger] patterns[i], text)
}

/// Holds when some pattern in the list matches the text.
pub open spec fn any_regex_matches(patterns: Seq<Seq<char>>, text: Seq<char>) -> bool {
    exists|i: int| 0 <= i < patterns.len() && regex_matches(#[trigger] patterns[i], text)
}

/// Checks that all the given regexes match the path relative to the watch
/// directory; an empty list accepts every file.
#[verifier::loop_isolation(false)]
pub fn has_regex_match(regex: &Vec<String>, filename: &str, watch: &str) -> (r: bool)
    requires
        forall|i: int|
            0 <= i < regex.deep_view().len() ==> regex_compiles(#[trigger] regex.deep_view()[i]),
    ensures
        r == all_regexes_match(regex.deep_view(), rel_within_dir(filename@, watch@)),
{
    // No regex given, we accept all files
    if regex.len() == 0 {
        return true;
    }

    let path = relative_path_within_dir(filename, watch);

    // Now check that all the regexes are matching
    let mut i: usize = 0;
    while i < regex.len()
        invariant
            i <= regex@.len(),
            path@ == rel_within_dir(filename@, watch@),
            forall|q: int|
                0 <= q < i ==> regex_matches(#[trigger] regex.deep_view()[q], path@),
        decreases regex@.len() - i,
    {
        proof {
            assert(regex.deep_view()[i as int] == regex@[i as int]@);
        }
        match regex_match_once(regex[i].as_str(), path.as_str()) {
            Some(true) => {},
            _ => {
                return false;
            },
        }
        i = i + 1;
    }
    true
}

/// Checks whether any of the given regexes matches the path relative to
/// the watch directory; an empty list matches nothing.
#[verifier::loop_isolation(false)]
pub fn has_any_regex_match(regex: &Vec<String>, filename: &str, watch: &str) -> (r: bool)
    requires
        forall|i: int|
            0 <= i < regex.deep_view().len() ==> regex_compiles(#[trigger] regex.deep_view()[i]),
    ensures
        r == any_regex_matches(regex.deep_view(), rel_within_dir(filename@, watch@)),
{
    let path = relative_path_within_dir(filename, watch);
    let mut i: usize = 0;
    while i < regex.len()
        invariant
            i <= regex@.len(),
            path@ == rel_within_dir(filename@, watch@),
            forall|q: int|
                0 <= q < i ==> !regex_matches(#[trigger] regex.deep_view()[q], path@),
        decreases regex@.len() - i,
    {
        proof {
            assert(regex.deep_view()[i as int] == regex@[i as int]@);
        }
        match regex_match_once(regex[i].as_str(), path.as_str()) {
            Some(true) => {
                return true;
            },
            _ => {},
        }
        i = i + 1;
    }
    false
}

/// The validated filter configuration: the extension allow-list, the
/// include and exclude patterns, and the policy flags.
pub struct FilterConfig {
    /// Allowed extensions, lowercased, leading dots stripped; empty allows
    /// everything.
    pub extensions: Vec<String>,
    /// Patterns that the relative path must all match.
    pub regexps: Vec<String>,
    /// Patterns that the relative path must not match.
    pub ignored_regexps: Vec<String>,
    /// Also run for files that no longer exist.
    pub deleted: bool,
    /// Include hidden files and directories.
    pub hidden: bool,
    /// Do not respect ignore rule files.
    pub no_gitignore: bool,
}

impl FilterConfig {
    /// All configured patterns compile.
    pub open spec fn wf(&self) -> bool {
        &&& forall|i: int|
            0 <= i < self.regexps.deep_view().len() ==> regex_compiles(
                #[trigger] self.regexps.deep_view()[i],
            )
        &&& forall|i: int|
            0 <= i < self.ignored_regexps.deep_view().len() ==> regex_compiles(
                #[trigger] self.ignored_regexps.deep_view()[i],
            )
    }

    /// Validates the patterns; the first one that does not compile is
    /// reported as a configuration error.
    #[verifier::loop_isolation(false)]
    pub fn new(
        extensions: Vec<String>,
        regexps: Vec<String>,
        ignored_regexps: Vec<String>,
        deleted: bool,
        hidden: bool,
        no_gitignore: bool,
    ) -> (r: Result<FilterConfig, crate::errors::ArgumentError>)
        ensures
            match r {
                Ok(c) => {
                    &&& c.wf()
                    &&& c.extensions == extensions
                    &&& c.regexps == regexps
                    &&& c.ignored_regexps == ignored_regexps
                    &&& c.deleted == deleted
                    &&& c.hidden == hidden
                    &&& c.no_gitignore == no_gitignore
                },
                Err(e) => {
                    &&& e matches crate::errors::ArgumentError::InvalidRegex(p, _)
                        && !regex_compiles(p@)
                    &&& !((forall|i: int|
                        0 <= i < regexps.deep_view().len() ==> regex_compiles(
                            #[trigger] regexps.deep_view()[i],
                        )) && (forall|i: int|
                        0 <= i < ignored_regexps.deep_view().len() ==> regex_compiles(
                            #[trigger] ignored_regexps.deep_view()[i],
                        )))
                },
            },
    {
        let mut i: usize = 0;
        while i < regexps.len()
            invariant
                i <= regexps@.len(),
                forall|q: int|
                    0 <= q < i ==> regex_compiles(#[trigger] regexps.deep_view()[q]),
            decreases regexps@.len() - i,
        {
            proof {
                assert(regexps.deep_view()[i as int] == regexps@[i as int]@);
            }
            if !regex_check(regexps[i].as_str()) {
                return Err(
                    crate::errors::ArgumentError::InvalidRegex(
                        regexps[i].clone(),
                        String::from_str("invalid pattern"),
                    ),
                );
            }
            i = i + 1;
        }
        let mut i: usize = 0;
        while i < ignored_regexps.len()
            invariant
                i <= ignored_regexps@.len(),
                forall|q: int|
                    0 <= q < i ==> regex_compiles(#[trigger] ignored_regexps.deep_view()[q]),
            decreases ignored_regexps@.len() - i,
        {
            proof {
                assert(ignored_regexps.deep_view()[i as int] == ignored_regexps@[i as int]@);
            }
            if !regex_check(ignored_regexps[i].as_str()) {
                return Err(
                    crate::errors::ArgumentError::InvalidRegex(
                        ignored_regexps[i].clone(),
                        String::from_str("invalid pattern"),
                    ),
                );
            }
            i = i + 1;
        }
        Ok(
            FilterConfig {
                extensions,
                regexps,
                ignored_regexps,
                deleted,
                hidden,
                no_gitignore,
            },
        )
    }
}

/// What the combined filter decides: a file update is dropped when its
/// extension is not allowed, when it was deleted and deletions are not
/// tracked, when the include patterns do not all match, when an exclude
/// pattern matches, when the collected ignore rules reject it, or when it
/// is hidden below the watch root.
pub open spec fn should_ignore(
    filename: Seq<char>,
    cfg: FilterConfig,
    watch: Seq<char>,
    file_exists: bool,
    sets: Seq<RuleSetModel>,
) -> bool {
    ||| !ext_allowed(filename, cfg.extensions.deep_view())
    ||| (!cfg.deleted && !file_exists)
    ||| !all_regexes_match(cfg.regexps.deep_view(), rel_within_dir(filename, watch))
    ||| any_regex_matches(cfg.ignored_regexps.deep_view(), rel_within_dir(filename, watch))
    ||| (!cfg.no_gitignore && git_ignored(sets, filename))
    ||| (!cfg.hidden && hidden_under(filename, watch_norm(watch)))
}

/// Checks if a file update should be ignored.
///
/// The caller hands in whether the file still exists and the ignore rule
/// sets collected between the file and the watch root.
pub fn should_be_ignored(
    filename: &str,
    args: &FilterConfig,
    watch: &str,
    file_exists: bool,
    rule_sets: &Vec<GitIgnoreRules>,
) -> (r: bool)
    requires
        args.wf(),
    ensures
        r == should_ignore(filename@, *args, watch@, file_exists, rule_sets.deep_view()),
{
    if !extension_matches(filename, &args.extensions) {
        return true;
    }
    if !args.deleted && !file_exists {
        return true;
    }
    if !has_regex_match(&args.regexps, filename, watch) {
        return true;
    }
    if has_any_regex_match(&args.ignored_regexps, filename, watch) {
        return true;
    }
    if !args.no_gitignore && is_git_ignored(filename, rule_sets) {
        return true;
    }
    if !args.hidden && is_hidden(filename, watch) {
        return true;
    }
    false
}

/// Validates the filter configuration and then decides one file update:
/// nothing is decided when a pattern does not compile.
pub fn should_be_ignored_checked(
    filename: &str,
    extensions: Vec<String>,
    regexps: Vec<String>,
    ignored_regexps: Vec<String>,
    deleted: bool,
    hidden: bool,
    no_gitignore: bool,
    watch: &str,
    file_exists: bool,
    rule_sets: &Vec<GitIgnoreRules>,
) -> (r: Option<bool>)
    ensures
        match r {
            None => !((forall|i: int|
                0 <= i < regexps.deep_view().len() ==> regex_compiles(
                    #[trigger] regexps.deep_view()[i],
                )) && (forall|i: int|
                0 <= i < ignored_regexps.deep_view().len() ==> regex_compiles(
                    #[trigger] ignored_regexps.deep_view()[i],
                ))),
            Some(b) => b == should_ignore(
                filename@,
                (FilterConfig { extensions, regexps, ignored_regexps, deleted, hidden, no_gitignore }),
                watch@,
                file_exists,
                rule_sets.deep_view(),
            ),
        },
{
    match FilterConfig::new(extensions, regexps, ignored_regexps, deleted, hidden, no_gitignore) {
        Ok(cfg) => {
            let b = should_be_ignored(filename, &cfg, watch, file_exists, rule_sets);
            Some(b)
        },
        Err(_) => None,
    }
}

} // verus!
