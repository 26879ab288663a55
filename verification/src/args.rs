//! The computable parts of argument validation: extension-list
//! normalization, environment-variable entries, and the derived execution
//! mode.

use vstd::prelude::*;

use crate::filter::lower_of;
use crate::strutil::{contains_sub, contains_str, to_chars};

verus! {

/// Use this placeholder to substitute individual updated files in the command.
pub open spec fn file_placeholder() -> Seq<char> {
    "{file}"@
}

/// Use this placeholder to substitute the list of updated files in the command.
pub open spec fn files_placeholder() -> Seq<char> {
    "{files}"@
}

/// Index of the first comma, or the length if there is none.
pub open spec fn first_comma(s: Seq<char>) -> int
    decreases s.len(),
{
    if s.len() == 0 {
        0
    } else if s[0] == ',' {
        0
    } else {
        1 + first_comma(s.skip(1))
    }
}

/// Index of the first equals sign, or the length if there is none.
pub open spec fn first_eq(s: Seq<char>) -> int
    decreases s.len(),
{
    if s.len() == 0 {
        0
    } else if s[0] == '=' {
        0
    } else {
        1 + first_eq(s.skip(1))
    }
}

/// One configured extension, normalized: lowercased, one leading dot
/// dropped.
pub open spec fn norm_ext(e: Seq<char>) -> Seq<char> {
    let l = lower_of(e);
    if l.len() > 0 && l[0] == '.' {
        l.skip(1)
    } else {
        l
    }
}

/// An extension argument split at its first comma into at most two parts,
/// each normalized.
pub open spec fn norm_ext_parts(s: Seq<char>) -> Seq<Seq<char>> {
    let fc = first_comma(s);
    if fc == s.len() {
        seq![norm_ext(s)]
    } else {
        seq![norm_ext(s.take(fc)), norm_ext(s.skip(fc + 1))]
    }
}

/// The whole normalized allow-list.
pub open spec fn normalized_extensions(exts: Seq<Seq<char>>) -> Seq<Seq<char>>
    decreases exts.len(),
{
    if exts.len() == 0 {
        Seq::empty()
    } else {
        norm_ext_parts(exts[0]) + normalized_extensions(exts.skip(1))
    }
}

proof fn lemma_first_comma_at(s: Seq<char>, m: int)
    requires
        0 <= m <= s.len(),
        forall|i: int| 0 <= i < m ==> s[i] != ',',
        m < s.len() ==> s[m] == ',',
    ensures
        first_comma(s) == m,
    decreases s.len(),
{
    if m > 0 {
        assert(forall|i: int| 0 <= i < m - 1 ==> s.skip(1)[i] == s[i + 1]);
        lemma_first_comma_at(s.skip(1), m - 1);
    }
}

proof fn lemma_first_eq_at(s: Seq<char>, m: int)
    requires
        0 <= m <= s.len(),
        forall|i: int| 0 <= i < m ==> s[i] != '=',
        m < s.len() ==> s[m] == '=',
    ensures
        first_eq(s) == m,
    decreases s.len(),
{
    if m > 0 {
        assert(forall|i: int| 0 <= i < m - 1 ==> s.skip(1)[i] == s[i + 1]);
        lemma_first_eq_at(s.skip(1), m - 1);
    }
}

/// Lowercases one part and drops one leading dot.
fn norm_one(part: &Vec<char>) -> (r: String)
    ensures
        r@ == norm_ext(part@),
{
    let s = crate::strutil::from_chars(part);
    let l = crate::filter::lowercase(s.as_str());
    let lv = to_chars(l.as_str());
    if lv.len() > 0 && lv[0] == '.' {
        let mut out: Vec<char> = Vec::new();
        let mut i: usize = 1;
        proof {
            assert(out@ =~= lv@.subrange(1, 1));
        }
        while i < lv.len()
            invariant
                1 <= i <= lv@.len(),
                out@ =~= lv@.subrange(1, i as int),
            decreases lv@.len() - i,
        {
            out.push(lv[i]);
            assert(out@ =~= lv@.subrange(1, i + 1));
            i = i + 1;
        }
        proof {
            assert(out@ =~= lv@.skip(1));
        }
        crate::strutil::from_chars(&out)
    } else {
        l
    }
}

/// Normalizes the configured extension list: each argument may hold a
/// second part after a comma, each part is lowercased and loses one
/// leading dot.
#[verifier::loop_isolation(false)]
pub fn normalize_extensions(extensions: &Vec<String>) -> (r: Vec<String>)
    ensures
        r.deep_view() == normalized_extensions(extensions.deep_view()),
{
    let ghost dv = extensions.deep_view();
    let mut out: Vec<String> = Vec::new();
    let mut i: usize = 0;
    proof {
        assert(out.deep_view() =~= Seq::<Seq<char>>::empty());
        assert(dv.skip(0) =~= dv);
        assert(out.deep_view() + normalized_extensions(dv) =~= normalized_extensions(dv));
    }
    while i < extensions.len()
        invariant
            i <= dv.len(),
            dv == extensions.deep_view(),
            dv.len() == extensions@.len(),
            normalized_extensions(dv) == out.deep_view() + normalized_extensions(
                dv.skip(i as int),
            ),
        decreases dv.len() - i,
    {
        let ghost pv = out.deep_view();
        let ghost rest = dv.skip(i as int);
        proof {
            assert(rest[0] == dv[i as int]);
            assert(rest.skip(1) =~= dv.skip(i + 1));
            assert(dv[i as int] == extensions@[i as int]@);
        }
        let cs = to_chars(extensions[i].as_str());
        let n = cs.len();
        // Find the first comma.
        let mut fc: usize = 0;
        while fc < n && cs[fc] != ','
            invariant
                fc <= n,
                forall|q: int| 0 <= q < fc ==> cs@[q] != ',',
            decreases n - fc,
        {
            fc = fc + 1;
        }
        proof {
            lemma_first_comma_at(cs@, fc as int);
        }
        if fc == n {
            let part = norm_one(&cs);
            out.push(part);
            proof {
                assert(out.deep_view() =~= pv.push(norm_ext(dv[i as int])));
                assert(norm_ext_parts(dv[i as int]) =~= seq![norm_ext(dv[i as int])]);
                assert(pv + (norm_ext_parts(rest[0]) + normalized_extensions(rest.skip(1))) =~= (
                pv.push(norm_ext(dv[i as int]))) + normalized_extensions(rest.skip(1)));
            }
        } else {
            let mut a: Vec<char> = Vec::new();
            let mut q: usize = 0;
            proof {
                assert(a@ =~= cs@.subrange(0, 0));
            }
            while q < fc
                invariant
                    q <= fc <= n == cs@.len(),
                    a@ =~= cs@.subrange(0, q as int),
                decreases fc - q,
            {
                a.push(cs[q]);
                assert(a@ =~= cs@.subrange(0, q + 1));
                q = q + 1;
            }
            let mut b: Vec<char> = Vec::new();
            let mut q2: usize = fc + 1;
            proof {
                assert(b@ =~= cs@.subrange(fc + 1, fc + 1));
            }
            while q2 < n
                invariant
                    fc + 1 <= q2 <= n == cs@.len(),
                    b@ =~= cs@.subrange(fc + 1, q2 as int),
                decreases n - q2,
            {
                b.push(cs[q2]);
                assert(b@ =~= cs@.subrange(fc + 1, q2 + 1));
                q2 = q2 + 1;
            }
            proof {
                assert(a@ =~= dv[i as int].take(fc as int));
                assert(b@ =~= dv[i as int].skip(fc + 1));
            }
            let pa = norm_one(&a);
            let pb = norm_one(&b);
            out.push(pa);
            out.push(pb);
            proof {
                assert(out.deep_view() =~= pv + norm_ext_parts(dv[i as int]));
                assert(pv + (norm_ext_parts(rest[0]) + normalized_extensions(rest.skip(1))) =~= (pv
                    + norm_ext_parts(dv[i as int])) + normalized_extensions(rest.skip(1)));
            }
        }
        i = i + 1;
    }
    proof {
        assert(dv.skip(i as int) =~= Seq::<Seq<char>>::empty());
        assert(out.deep_view() + normalized_extensions(Seq::empty()) =~= out.deep_view());
    }
    out
}

/// Splits one KEY=VALUE entry at its first equals sign; the value is empty
/// when there is none.
#[verifier::loop_isolation(false)]
pub fn parse_env_entry(env_var: &str) -> (r: (String, String))
    ensures
        r.0@ == env_var@.take(first_eq(env_var@)),
        r.1@ == if first_eq(env_var@) == env_var@.len() {
            Seq::<char>::empty()
        } else {
            env_var@.skip(first_eq(env_var@) + 1)
        },
{
    let cs = to_chars(env_var);
    let n = cs.len();
    let mut fe: usize = 0;
    while fe < n && cs[fe] != '='
        invariant
            fe <= n,
            forall|q: int| 0 <= q < fe ==> cs@[q] != '=',
        decreases n - fe,
    {
        fe = fe + 1;
    }
    proof {
        lemma_first_eq_at(cs@, fe as int);
    }
    let mut kv: Vec<char> = Vec::new();
    let mut i: usize = 0;
    proof {
        assert(kv@ =~= cs@.subrange(0, 0));
    }
    while i < fe
        invariant
            i <= fe <= n == cs@.len(),
            kv@ =~= cs@.subrange(0, i as int),
        decreases fe - i,
    {
        kv.push(cs[i]);
        assert(kv@ =~= cs@.subrange(0, i + 1));
        i = i + 1;
    }
    proof {
        assert(kv@ =~= env_var@.take(fe as int));
    }
    let key = crate::strutil::from_chars(&kv);
    if fe == n {
        (key, String::new())
    } else {
        let mut vv: Vec<char> = Vec::new();
        let mut j: usize = fe + 1;
        proof {
            assert(vv@ =~= cs@.subrange(fe + 1, fe + 1));
        }
        while j < n
            invariant
                fe + 1 <= j <= n == cs@.len(),
                vv@ =~= cs@.subrange(fe + 1, j as int),
            decreases n - j,
        {
            vv.push(cs[j]);
            assert(vv@ =~= cs@.subrange(fe + 1, j + 1));
            j = j + 1;
        }
        proof {
            assert(vv@ =~= env_var@.skip(fe + 1));
        }
        (key, crate::strutil::from_chars(&vv))
    }
}

/// Derives the execution mode from the command template: batch unless the
/// single-file placeholder occurs; a plain template without any placeholder
/// also turns on deletion tracking and abort-previous, as the whole pending
/// set is handled by one run.
pub fn derive_execution_mode(command: &str, deleted: bool, abort_previous: bool) -> (r: (
    bool,
    bool,
    bool,
))
    ensures
        r.0 == !contains_sub(command@, file_placeholder()),
        r.1 == if r.0 && !contains_sub(command@, files_placeholder()) {
            true
        } else {
            deleted
        },
        r.2 == if r.0 && !contains_sub(command@, files_placeholder()) {
            true
        } else {
            abort_previous
        },
{
    let batch_exec = !contains_str(command, "{file}");
    if batch_exec && !contains_str(command, "{files}") {
        (batch_exec, true, true)
    } else {
        (batch_exec, deleted, abort_previous)
    }
}

} // verus!
