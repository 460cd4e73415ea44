//! File naming: a downloaded file keeps its extension, and the part before
//! the last dot is slugified; a name without a dot is slugified whole.

use vstd::prelude::*;

verus! {

/// The slug of a string: what `slug::slugify` returns for it. The result
/// is a function of the input characters alone.
pub uninterp spec fn slug_of(s: Seq<char>) -> Seq<char>;

/// Relies on slug::slugify: converts any string to an ASCII slug, a pure
/// function of the input; on an empty input it returns an empty string.
#[verifier::external_body]
fn slugify_str(s: &str) -> (r: String)
    ensures
        r@ == slug_of(s@),
        s@.len() == 0 ==> r@.len() == 0,
{
    slug::slugify(s)
}

/// Relies on String::push: appends one character.
#[verifier::external_body]
pub(crate) fn push_char(s: &mut String, c: char)
    ensures
        final(s)@ == old(s)@.push(c),
{
    s.push(c)
}

/// Relies on String::push_str: appends a whole string.
#[verifier::external_body]
fn push_str_onto(s: &mut String, t: &str)
    ensures
        final(s)@ == old(s)@ + t@,
{
    s.push_str(t)
}

/// True when the string equals the literal; compares by contents.
pub fn string_is(a: &String, lit: &str) -> (r: bool)
    ensures
        r <==> a@ == lit@,
{
    let owned: String = lit.to_owned();
    a.eq(&owned)
}

/// The characters of a string, as a vector.
pub fn str_chars(s: &str) -> (v: Vec<char>)
    ensures
        v@ == s@,
{
    broadcast use vstd::string::axiom_spec_iter;

    let mut v: Vec<char> = Vec::new();
    for c in it: s.chars()
        invariant
            it.seq() == s@,
            v@ == it.seq().subrange(0, it.index() as int),
    {
        v.push(c);
        proof {
            assert(it.seq().subrange(0, it.index() as int).push(c) =~= it.seq().subrange(
                0,
                it.index() as int + 1,
            ));
        }
    }
    proof {
        assert(v@ =~= s@);
    }
    v
}

/// The string made of `cs[from..to]`.
fn chars_to_string(cs: &Vec<char>, from: usize, to: usize) -> (r: String)
    requires
        from <= to <= cs@.len(),
    ensures
        r@ == cs@.subrange(from as int, to as int),
{
    let mut r = String::new();
    let mut k = from;
    while k < to
        invariant
            from <= k <= to <= cs@.len(),
            r@ == cs@.subrange(from as int, k as int),
        decreases to - k,
    {
        push_char(&mut r, cs[k]);
        proof {
            assert(cs@.subrange(from as int, k as int).push(cs@[k as int]) =~= cs@.subrange(
                from as int,
                k as int + 1,
            ));
        }
        k = k + 1;
    }
    r
}

/// The index of the last dot in the string, if any.
pub open spec fn last_dot(p: Seq<char>) -> Option<int>
    decreases p.len(),
{
    if p.len() == 0 {
        None
    } else if p[p.len() - 1] == '.' {
        Some(p.len() - 1)
    } else {
        last_dot(p.drop_last())
    }
}

/// What `filename` returns: the part before the last dot slugified with
/// the extension kept verbatim, or the whole name slugified when there is
/// no dot.
pub open spec fn spec_filename(p: Seq<char>) -> Seq<char> {
    match last_dot(p) {
        Some(k) => slug_of(p.subrange(0, k)) + seq!['.'] + p.subrange(k + 1, p.len() as int),
        None => slug_of(p),
    }
}

/// The on-disk name for a downloaded file: its stem slugified, its
/// extension kept.
pub fn filename(p: &str) -> (r: String)
    ensures
        r@ == spec_filename(p@),
{
    let cs = str_chars(p);
    let n = cs.len();
    let mut k = n;
    let mut dot: Option<usize> = None;
    proof {
        assert(p@.subrange(0, n as int) =~= p@);
    }
    while k > 0
        invariant_except_break
            dot is None,
            last_dot(p@) == last_dot(p@.subrange(0, k as int)),
        invariant
            0 <= k <= n,
            n == cs@.len(),
            cs@ == p@,
        ensures
            n == cs@.len(),
            cs@ == p@,
            match dot {
                Some(d) => d < n && last_dot(p@) == Some(d as int),
                None => last_dot(p@) is None,
            },
        decreases k,
    {
        k = k - 1;
        if cs[k] == '.' {
            dot = Some(k);
            proof {
                let pre = p@.subrange(0, k as int + 1);
                assert(pre[pre.len() - 1] == '.');
                assert(last_dot(pre) == Some(k as int));
            }
            break ;
        }
        proof {
            let pre = p@.subrange(0, k as int + 1);
            assert(pre[pre.len() - 1] != '.');
            assert(pre.drop_last() =~= p@.subrange(0, k as int));
        }
    }
    proof {
        if k == 0 && dot is None {
            assert(p@.subrange(0, 0) =~= Seq::<char>::empty());
        }
    }
    match dot {
        Some(d) => {
            let stem = chars_to_string(&cs, 0, d);
            let mut r = slugify_str(stem.as_str());
            push_char(&mut r, '.');
            let ext = chars_to_string(&cs, d + 1, n);
            push_str_onto(&mut r, ext.as_str());
            proof {
                assert(r@ =~= slug_of(p@.subrange(0, d as int)) + seq!['.'] + p@.subrange(
                    d as int + 1,
                    p@.len() as int,
                ));
            }
            r
        },
        None => slugify_str(p),
    }
}

} // verus!
