//! Working-directory resolution for panes and windows.

use vstd::prelude::*;

verus! {

/// The view of an optional string.
pub open spec fn opt_str_view(o: Option<String>) -> Option<Seq<char>> {
    match o {
        Option::Some(s) => Option::Some(s@),
        Option::None => Option::None,
    }
}

/// The effective working directory for a given path under an enclosing
/// path: absolute and `~`-prefixed paths stand as they are, `.` and an
/// absent path inherit the enclosing path, and anything else is joined to
/// the enclosing path with a `/`.
pub open spec fn sanitize_path_spec(path: Option<Seq<char>>, base: Seq<char>) -> Seq<char> {
    match path {
        Option::Some(p) => if p.len() > 0 && (p[0] == '/' || p[0] == '~') {
            p
        } else if p == seq!['.'] {
            base
        } else {
            base + seq!['/'] + p
        },
        Option::None => base,
    }
}

/// Resolves a pane or window path against the enclosing path.
pub fn sanitize_path(path: &Option<String>, window_path: &String) -> (r: String)
    ensures
        r@ == sanitize_path_spec(opt_str_view(*path), window_path@),
{
    match path {
        Some(p) => {
            let len = p.as_str().unicode_len();
            if len > 0 {
                let c0 = p.as_str().get_char(0);
                if c0 == '/' || c0 == '~' {
                    return p.clone();
                }
            }
            if len == 1 && p.as_str().get_char(0) == '.' {
                proof {
                    assert(p@ =~= seq!['.']);
                }
                window_path.clone()
            } else {
                proof {
                    assert(p@ != seq!['.']) by {
                        if p@ == seq!['.'] {
                            assert(p@.len() == 1 && p@[0] == '.');
                        }
                    }
                }
                let mut r = window_path.clone();
                proof {
                    reveal_strlit("/");
                }
                r.append("/");
                r.append(p.as_str());
                proof {
                    assert(r@ =~= window_path@ + seq!['/'] + p@);
                }
                r
            }
        },
        None => window_path.clone(),
    }
}


/// A path with every `~` replaced by the home directory.
pub open spec fn expand_home_spec(s: Seq<char>, home: Seq<char>) -> Seq<char>
    decreases s.len(),
{
    if s.len() == 0 {
        Seq::empty()
    } else {
        (if s[0] == '~' {
            home
        } else {
            seq![s[0]]
        }) + expand_home_spec(s.drop_first(), home)
    }
}

proof fn lemma_expand_concat(a: Seq<char>, b: Seq<char>, home: Seq<char>)
    ensures
        expand_home_spec(a + b, home) == expand_home_spec(a, home) + expand_home_spec(b, home),
    decreases a.len(),
{
    if a.len() == 0 {
        assert(a + b =~= b);
        assert(expand_home_spec(a, home) + expand_home_spec(b, home) =~= expand_home_spec(
            b,
            home,
        ));
    } else {
        lemma_expand_concat(a.drop_first(), b, home);
        assert((a + b)[0] == a[0]);
        assert((a + b).drop_first() =~= a.drop_first() + b);
        assert(expand_home_spec(a + b, home) =~= expand_home_spec(a, home) + expand_home_spec(
            b,
            home,
        ));
    }
}

proof fn lemma_expand_clean(r: Seq<char>, home: Seq<char>)
    requires
        forall|m: int| 0 <= m < r.len() ==> r[m] != '~',
    ensures
        expand_home_spec(r, home) == r,
    decreases r.len(),
{
    if r.len() > 0 {
        assert(forall|m: int|
            0 <= m < r.drop_first().len() ==> #[trigger] r.drop_first()[m] != '~');
        lemma_expand_clean(r.drop_first(), home);
        assert(expand_home_spec(r, home) =~= r);
    }
}

/// Replaces every `~` in a path with the home directory.
pub fn expand_home(path: &str, home: &str) -> (r: String)
    ensures
        r@ == expand_home_spec(path@, home@),
{
    let len = path.unicode_len();
    let mut out = String::new();
    let mut start: usize = 0;
    let mut i: usize = 0;
    while i < len
        invariant
            start <= i <= len,
            len == path@.len(),
            forall|m: int| start <= m < i ==> path@[m] != '~',
            out@ == expand_home_spec(path@.subrange(0, start as int), home@),
        decreases len - i,
    {
        let c = path.get_char(i);
        if c == '~' {
            let run = path.substring_char(start, i);
            out.append(run);
            out.append(home);
            proof {
                let p0 = path@.subrange(0, start as int);
                let p1 = path@.subrange(start as int, i as int);
                let tilde = path@.subrange(i as int, i + 1 as int);
                assert(tilde =~= seq![path@[i as int]]);
                lemma_expand_clean(p1, home@);
                lemma_expand_concat(p0, p1, home@);
                assert(p0 + p1 =~= path@.subrange(0, i as int));
                assert(tilde[0] == '~');
                assert(tilde.drop_first() =~= Seq::<char>::empty());
                assert(expand_home_spec(Seq::<char>::empty(), home@) == Seq::<char>::empty());
                assert(expand_home_spec(tilde, home@) =~= home@);
                lemma_expand_concat(path@.subrange(0, i as int), tilde, home@);
                assert(path@.subrange(0, i as int) + tilde =~= path@.subrange(0, i + 1 as int));
                assert(out@ =~= expand_home_spec(path@.subrange(0, i + 1 as int), home@));
            }
            start = i + 1;
        }
        i = i + 1;
    }
    let tail = path.substring_char(start, len);
    out.append(tail);
    proof {
        let p0 = path@.subrange(0, start as int);
        let p1 = path@.subrange(start as int, len as int);
        lemma_expand_clean(p1, home@);
        lemma_expand_concat(p0, p1, home@);
        assert(p0 + p1 =~= path@);
        assert(out@ =~= expand_home_spec(path@, home@));
    }
    out
}

} // verus!
