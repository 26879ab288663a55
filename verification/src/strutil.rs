//! Small verified helpers on strings and character sequences.

use vstd::prelude::*;

verus! {

/// Collects the characters of a string slice into a vector.
pub fn to_chars(s: &str) -> (v: Vec<char>)
    ensures
        v@ == s@,
{
    let n = s.unicode_len();
    let mut v: Vec<char> = Vec::new();
    let mut i: usize = 0;
    while i < n
        invariant
            n == s@.len(),
            i <= n,
            v@ == s@.take(i as int),
        decreases n - i,
    {
        let c = s.get_char(i);
        v.push(c);
        i = i + 1;
        assert(v@ =~= s@.take(i as int));
    }
    assert(v@ =~= s@);
    v
}

/// Relies on String::push: appends one character to the string.
#[verifier::external_body]
fn push_char(s: &mut String, c: char)
    ensures
        final(s)@ == old(s)@.push(c),
{
    s.push(c)
}

/// Builds a string from a vector of characters.
pub fn from_chars(v: &Vec<char>) -> (s: String)
    ensures
        s@ == v@,
{
    let mut s = String::new();
    let mut i: usize = 0;
    while i < v.len()
        invariant
            i <= v@.len(),
            s@ == v@.take(i as int),
        decreases v@.len() - i,
    {
        push_char(&mut s, v[i]);
        i = i + 1;
        assert(s@ =~= v@.take(i as int));
    }
    assert(s@ =~= v@);
    s
}

/// Holds when the text starts with the pattern.
pub open spec fn begins_with(h: Seq<char>, n: Seq<char>) -> bool {
    h.len() >= n.len() && h.take(n.len() as int) == n
}

/// Holds when the pattern occurs somewhere in the text.
pub open spec fn contains_sub(h: Seq<char>, n: Seq<char>) -> bool
    decreases h.len(),
{
    if n.len() == 0 {
        true
    } else if h.len() < n.len() {
        false
    } else if begins_with(h, n) {
        true
    } else {
        contains_sub(h.skip(1), n)
    }
}

/// The text with every occurrence of a non-empty pattern replaced,
/// scanning left to right without overlap; an empty pattern replaces
/// nothing.
pub open spec fn replaced(h: Seq<char>, n: Seq<char>, to: Seq<char>) -> Seq<char>
    decreases h.len(),
{
    if n.len() == 0 || h.len() < n.len() {
        h
    } else if begins_with(h, n) {
        to + replaced(h.skip(n.len() as int), n, to)
    } else {
        seq![h[0]] + replaced(h.skip(1), n, to)
    }
}

/// The parts joined by the separator.
pub open spec fn joined(parts: Seq<Seq<char>>, sep: Seq<char>) -> Seq<char> {
    if parts.len() == 0 {
        Seq::empty()
    } else {
        parts[0] + joined_pre(parts.skip(1), sep)
    }
}

/// The parts each preceded by the separator.
pub open spec fn joined_pre(parts: Seq<Seq<char>>, sep: Seq<char>) -> Seq<char>
    decreases parts.len(),
{
    if parts.len() == 0 {
        Seq::empty()
    } else {
        sep + parts[0] + joined_pre(parts.skip(1), sep)
    }
}

/// Whether the text `h[at..]` starts with `n`.
#[verifier::loop_isolation(false)]
fn begins_at(h: &Vec<char>, at: usize, n: &Vec<char>) -> (r: bool)
    requires
        at <= h@.len(),
    ensures
        r == begins_with(h@.skip(at as int), n@),
{
    let ghost rest = h@.skip(at as int);
    if h.len() - at < n.len() {
        return false;
    }
    let mut j: usize = 0;
    while j < n.len()
        invariant
            j <= n@.len(),
            at + n@.len() <= h@.len(),
            forall|q: int| 0 <= q < j ==> h@[at + q] == n@[q],
        decreases n@.len() - j,
    {
        if h[at + j] != n[j] {
            proof {
                assert(rest.take(n@.len() as int)[j as int] == h@[at + j]);
            }
            return false;
        }
        j = j + 1;
    }
    proof {
        assert(rest.take(n@.len() as int) =~= n@);
    }
    true
}

/// Whether the pattern occurs somewhere in the text.
#[verifier::loop_isolation(false)]
pub fn contains_str(h: &str, n: &str) -> (r: bool)
    ensures
        r == contains_sub(h@, n@),
{
    let hv = to_chars(h);
    let nv = to_chars(n);
    let mut i: usize = 0;
    proof {
        assert(h@.skip(0) =~= h@);
    }
    while i < hv.len() || (i == 0 && nv.len() == 0)
        invariant
            i <= hv@.len(),
            i > 0 ==> n@.len() > 0,
            contains_sub(h@, n@) == contains_sub(h@.skip(i as int), n@),
        decreases hv@.len() + 1 - i,
    {
        if begins_at(&hv, i, &nv) {
            return true;
        }
        proof {
            if n@.len() == 0 {
                assert(h@.skip(i as int).take(0) =~= n@);
                assert(false);
            }
            assert(h@.skip(i as int).skip(1) =~= h@.skip(i + 1));
        }
        i = i + 1;
    }
    proof {
        assert(h@.skip(i as int).len() < n@.len());
    }
    false
}

/// The text with every occurrence of the pattern replaced.
#[verifier::loop_isolation(false)]
pub fn replace_str(h: &str, n: &str, to: &str) -> (r: String)
    ensures
        r@ == replaced(h@, n@, to@),
{
    let hv = to_chars(h);
    let nv = to_chars(n);
    let tv = to_chars(to);
    if nv.len() == 0 {
        let copy = from_chars(&hv);
        return copy;
    }
    let mut out: Vec<char> = Vec::new();
    let mut i: usize = 0;
    proof {
        assert(h@.skip(0) =~= h@);
        assert(out@ + replaced(h@, n@, to@) =~= replaced(h@, n@, to@));
    }
    while i < hv.len()
        invariant
            i <= hv@.len(),
            n@.len() > 0,
            replaced(h@, n@, to@) == out@ + replaced(h@.skip(i as int), n@, to@),
        decreases hv@.len() - i,
    {
        let ghost pre = out@;
        let ghost rest = h@.skip(i as int);
        if begins_at(&hv, i, &nv) {
            let mut j: usize = 0;
            while j < tv.len()
                invariant
                    j <= tv@.len(),
                    out@ =~= pre + to@.take(j as int),
                decreases tv@.len() - j,
            {
                out.push(tv[j]);
                assert(out@ =~= pre + to@.take(j + 1));
                j = j + 1;
            }
            proof {
                assert(out@ =~= pre + to@);
                assert(rest.skip(n@.len() as int) =~= h@.skip(i + n@.len()));
                assert(pre + (to@ + replaced(h@.skip(i + n@.len()), n@, to@)) =~= (pre + to@)
                    + replaced(h@.skip(i + n@.len()), n@, to@));
            }
            i = i + n.unicode_len();
        } else {
            out.push(hv[i]);
            proof {
                assert(out@ =~= pre + seq![h@[i as int]]);
                assert(rest.skip(1) =~= h@.skip(i + 1));
                assert(pre + (seq![h@[i as int]] + replaced(h@.skip(i + 1), n@, to@)) =~= (pre
                    + seq![h@[i as int]]) + replaced(h@.skip(i + 1), n@, to@));
            }
            i = i + 1;
        }
    }
    proof {
        assert(h@.skip(i as int).len() == 0);
        assert(replaced(h@.skip(i as int), n@, to@) == h@.skip(i as int));
        assert(out@ + h@.skip(i as int) =~= out@);
    }
    from_chars(&out)
}

/// The parts joined by the separator.
#[verifier::loop_isolation(false)]
pub fn join_strings(parts: &Vec<String>, sep: &str) -> (r: String)
    ensures
        r@ == joined(parts.deep_view(), sep@),
{
    if parts.len() == 0 {
        return String::new();
    }
    let mut out = parts[0].clone();
    proof {
        assert(parts.deep_view()[0] == parts@[0]@);
    }
    let mut i: usize = 1;
    while i < parts.len()
        invariant
            1 <= i <= parts@.len(),
            out@ + joined_pre(parts.deep_view().skip(i as int), sep@) == joined(
                parts.deep_view(),
                sep@,
            ),
        decreases parts@.len() - i,
    {
        let ghost pre = out@;
        let ghost dv = parts.deep_view();
        proof {
            assert(dv.skip(i as int)[0] == dv[i as int]);
            assert(dv[i as int] == parts@[i as int]@);
            assert(dv.skip(i as int).skip(1) =~= dv.skip(i + 1));
        }
        out.append(sep);
        out.append(parts[i].as_str());
        proof {
            assert(out@ =~= pre + sep@ + parts@[i as int]@);
            assert(pre + (sep@ + dv[i as int] + joined_pre(dv.skip(i + 1), sep@)) =~= (pre + sep@
                + dv[i as int]) + joined_pre(dv.skip(i + 1), sep@));
        }
        i = i + 1;
    }
    proof {
        assert(joined_pre(parts.deep_view().skip(i as int), sep@) =~= Seq::<char>::empty());
        assert(out@ + Seq::<char>::empty() =~= out@);
    }
    out
}

} // verus!
