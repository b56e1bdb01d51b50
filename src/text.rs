//! Splitting piece text into lines and groups.
use vstd::prelude::*;

verus! {

/// The pieces of `t` between newlines, empty ones dropped; `cur` is the piece
/// already begun.
pub open spec fn lines_from(t: Seq<char>, cur: Seq<char>) -> Seq<Seq<char>>
    decreases t.len(),
{
    if t.len() == 0 {
        if cur.len() > 0 { seq![cur] } else { seq![] }
    } else if t[0] == '\n' {
        let rest = lines_from(t.drop_first(), seq![]);
        if cur.len() > 0 { seq![cur] + rest } else { rest }
    } else {
        lines_from(t.drop_first(), cur.push(t[0]))
    }
}

/// The non-empty lines of `t`.
pub open spec fn lines_of(t: Seq<char>) -> Seq<Seq<char>> {
    lines_from(t, seq![])
}

/// The pieces of `t` between blank-line separators (two newlines in a row,
/// matched left to right without overlap), empty ones dropped; `cur` is the
/// piece already begun.
pub open spec fn groups_from(t: Seq<char>, cur: Seq<char>) -> Seq<Seq<char>>
    decreases t.len(),
{
    if t.len() == 0 {
        if cur.len() > 0 { seq![cur] } else { seq![] }
    } else if t.len() >= 2 && t[0] == '\n' && t[1] == '\n' {
        let rest = groups_from(t.subrange(2, t.len() as int), seq![]);
        if cur.len() > 0 { seq![cur] + rest } else { rest }
    } else {
        groups_from(t.drop_first(), cur.push(t[0]))
    }
}

/// The non-empty groups of `t`.
pub open spec fn groups_of(t: Seq<char>) -> Seq<Seq<char>> {
    groups_from(t, seq![])
}

/// The contents of each vector.
pub open spec fn views(v: Seq<Vec<char>>) -> Seq<Seq<char>> {
    v.map_values(|x: Vec<char>| x@)
}

/// The characters of `s`.
pub fn chars_of(s: &str) -> (r: Vec<char>)
    ensures
        r@ == s@,
{
    let mut r: Vec<char> = Vec::new();
    for c in it: s.chars()
        invariant
            r@ == it.seq().take(it.index() as int),
            it.seq() == s@,
    {
        r.push(c);
    }
    r
}

/// Splits `t` into its non-empty lines.
pub fn split_lines(t: &Vec<char>) -> (r: Vec<Vec<char>>)
    ensures
        views(r@) == lines_of(t@),
{
    let mut done: Vec<Vec<char>> = Vec::new();
    let mut cur: Vec<char> = Vec::new();
    let mut i: usize = 0;
    assert(t@.subrange(0, t.len() as int) =~= t@);
    assert(views(done@) =~= seq![]);
    while i < t.len()
        invariant
            i <= t.len(),
            views(done@) + lines_from(t@.subrange(i as int, t.len() as int), cur@) == lines_of(t@),
        decreases t.len() - i,
    {
        let ghost rest = t@.subrange(i as int, t.len() as int);
        assert(rest.drop_first() =~= t@.subrange(i + 1, t.len() as int));
        if t[i] == '\n' {
            if cur.len() > 0 {
                let ghost d = views(done@);
                done.push(cur);
                assert(views(done@) =~= d.push(cur@));
                assert(d + (seq![cur@] + lines_from(rest.drop_first(), seq![]))
                    =~= d.push(cur@) + lines_from(rest.drop_first(), seq![]));
            }
            cur = Vec::new();
            assert(cur@ =~= seq![]);
        } else {
            cur.push(t[i]);
        }
        i += 1;
    }
    assert(t@.subrange(i as int, t.len() as int) =~= seq![]);
    if cur.len() > 0 {
        let ghost d = views(done@);
        done.push(cur);
        assert(views(done@) =~= d.push(cur@));
    } else {
        assert(views(done@) + seq![] =~= views(done@));
    }
    done
}

/// Splits `t` into its non-empty groups.
pub fn split_groups(t: &Vec<char>) -> (r: Vec<Vec<char>>)
    ensures
        views(r@) == groups_of(t@),
{
    let mut done: Vec<Vec<char>> = Vec::new();
    let mut cur: Vec<char> = Vec::new();
    let mut i: usize = 0;
    assert(t@.subrange(0, t.len() as int) =~= t@);
    assert(views(done@) =~= seq![]);
    while i < t.len()
        invariant
            i <= t.len(),
            views(done@) + groups_from(t@.subrange(i as int, t.len() as int), cur@) == groups_of(t@),
        decreases t.len() - i,
    {
        let ghost rest = t@.subrange(i as int, t.len() as int);
        if i + 1 < t.len() && t[i] == '\n' && t[i + 1] == '\n' {
            assert(rest.subrange(2, rest.len() as int) =~= t@.subrange(i + 2, t.len() as int));
            if cur.len() > 0 {
                let ghost d = views(done@);
                done.push(cur);
                assert(views(done@) =~= d.push(cur@));
                assert(d + (seq![cur@] + groups_from(rest.subrange(2, rest.len() as int), seq![]))
                    =~= d.push(cur@) + groups_from(rest.subrange(2, rest.len() as int), seq![]));
            }
            cur = Vec::new();
            assert(cur@ =~= seq![]);
            i += 2;
        } else {
            assert(rest.drop_first() =~= t@.subrange(i + 1, t.len() as int));
            cur.push(t[i]);
            i += 1;
        }
    }
    assert(t@.subrange(i as int, t.len() as int) =~= seq![]);
    if cur.len() > 0 {
        let ghost d = views(done@);
        done.push(cur);
        assert(views(done@) =~= d.push(cur@));
    } else {
        assert(views(done@) + seq![] =~= views(done@));
    }
    done
}

} // verus!
