//! Textual `::`-joined paths: splitting into segments, joining segments, and
//! small queries the resolver needs.

use vstd::prelude::*;

verus! {

/// Splits `s` on each `::` separator, carrying the segment built so far in
/// `cur` and the finished segments in `acc`.
pub open spec fn split_rec(s: Seq<char>, cur: Seq<char>, acc: Seq<Seq<char>>) -> Seq<Seq<char>>
    decreases s.len(),
{
    if s.len() >= 2 && s[0] == ':' && s[1] == ':' {
        split_rec(s.skip(2), Seq::empty(), acc.push(cur))
    } else if s.len() == 0 {
        acc.push(cur)
    } else {
        split_rec(s.skip(1), cur.push(s[0]), acc)
    }
}

/// The segments of a `::`-joined path. An empty path has one empty segment.
pub open spec fn spec_split(s: Seq<char>) -> Seq<Seq<char>> {
    split_rec(s, Seq::empty(), Seq::empty())
}

/// Splitting always yields at least one segment, and keeps what was
/// accumulated before.
pub proof fn lemma_split_rec_len(s: Seq<char>, cur: Seq<char>, acc: Seq<Seq<char>>)
    ensures
        split_rec(s, cur, acc).len() > acc.len(),
    decreases s.len(),
{
    if s.len() >= 2 && s[0] == ':' && s[1] == ':' {
        lemma_split_rec_len(s.skip(2), Seq::empty(), acc.push(cur));
    } else if s.len() == 0 {
    } else {
        lemma_split_rec_len(s.skip(1), cur.push(s[0]), acc);
    }
}

/// The segments of a path, rejoined with `::` between them.
pub open spec fn spec_join(segs: Seq<Seq<char>>) -> Seq<char>
    decreases segs.len(),
{
    if segs.len() == 0 {
        Seq::empty()
    } else if segs.len() == 1 {
        segs[0]
    } else {
        segs[0] + seq![':', ':'] + spec_join(segs.skip(1))
    }
}

/// Joining after appending one segment appends `::` and that segment.
pub proof fn lemma_join_push(segs: Seq<Seq<char>>, x: Seq<char>)
    ensures
        segs.len() == 0 ==> spec_join(segs.push(x)) == x,
        segs.len() > 0 ==> spec_join(segs.push(x)) =~= spec_join(segs) + seq![':', ':'] + x,
    decreases segs.len(),
{
    let p = segs.push(x);
    if segs.len() == 0 {
        assert(p.len() == 1);
        assert(p[0] == x);
    } else if segs.len() == 1 {
        assert(p[0] == segs[0]);
        assert(p.skip(1) =~= seq![x]);
        assert(spec_join(p.skip(1)) == x);
    } else {
        assert(p[0] == segs[0]);
        assert(p.skip(1) =~= segs.skip(1).push(x));
        lemma_join_push(segs.skip(1), x);
        assert(spec_join(p) == p[0] + seq![':', ':'] + spec_join(p.skip(1)));
    }
}

/// Relies on `String::push`: appends one character at the end of the string.
#[verifier::external_body]
pub(crate) fn push_char(s: &mut String, c: char)
    ensures
        final(s)@ == old(s)@.push(c),
{
    s.push(c);
}

/// Relies on `str`'s `PartialEq`: two string slices are equal exactly when
/// their character sequences are.
#[verifier::external_body]
pub(crate) fn str_eq(a: &str, b: &str) -> (r: bool)
    ensures
        r == (a@ == b@),
{
    a == b
}

/// Splits a textual path into its `::`-separated segments.
pub fn split_path(s: &str) -> (res: Vec<String>)
    ensures
        res.deep_view() == spec_split(s@),
        res.len() > 0,
{
    let n = s.unicode_len();
    let mut i: usize = 0;
    let mut cur = String::new();
    let mut acc: Vec<String> = Vec::new();
    proof {
        assert(s@.skip(0) =~= s@);
        assert(acc.deep_view() =~= Seq::<Seq<char>>::empty());
        assert(cur@ =~= Seq::<char>::empty());
    }
    while i < n
        invariant
            i <= n,
            n == s@.len(),
            split_rec(s@.skip(i as int), cur@, acc.deep_view()) == spec_split(s@),
        decreases n - i,
    {
        let c = s.get_char(i);
        proof {
            assert(s@.skip(i as int)[0] == s@[i as int]);
        }
        if c == ':' && i + 1 < n && s.get_char(i + 1) == ':' {
            proof {
                assert(s@.skip(i as int).len() >= 2);
                assert(s@.skip(i as int)[1] == s@[i as int + 1]);
                assert(s@.skip(i as int).skip(2) =~= s@.skip(i as int + 2));
            }
            let ghost old_acc = acc.deep_view();
            let ghost old_cur = cur@;
            acc.push(cur);
            proof {
                assert(acc.deep_view() =~= old_acc.push(old_cur));
            }
            cur = String::new();
            i = i + 2;
        } else {
            proof {
                assert(s@.skip(i as int).skip(1) =~= s@.skip(i as int + 1));
                assert(!(s@.skip(i as int).len() >= 2 && s@.skip(i as int)[0] == ':'
                    && s@.skip(i as int)[1] == ':'));
            }
            push_char(&mut cur, c);
            i = i + 1;
        }
    }
    proof {
        assert(s@.skip(n as int) =~= Seq::<char>::empty());
        lemma_split_rec_len(s@, Seq::empty(), Seq::empty());
    }
    let ghost old_acc = acc.deep_view();
    let ghost old_cur = cur@;
    acc.push(cur);
    proof {
        assert(acc.deep_view() =~= old_acc.push(old_cur));
    }
    acc
}

/// Joins segments with `::` between them.
pub fn join_path(segs: &Vec<String>) -> (res: String)
    ensures
        res@ == spec_join(segs.deep_view()),
{
    let mut out = String::new();
    let mut i: usize = 0;
    proof {
        assert(segs.deep_view().take(0) =~= Seq::<Seq<char>>::empty());
    }
    while i < segs.len()
        invariant
            i <= segs.len(),
            out@ == spec_join(segs.deep_view().take(i as int)),
            i == 0 ==> out@.len() == 0,
        decreases segs.len() - i,
    {
        let ghost pre = segs.deep_view().take(i as int);
        if i > 0 {
            out.append("::");
        }
        out.append(segs[i].as_str());
        proof {
            assert(segs.deep_view().take(i as int + 1) =~= pre.push(segs.deep_view()[i as int]));
            lemma_join_push(pre, segs.deep_view()[i as int]);
            reveal_strlit("::");
            if i == 0 {
                assert(out@ =~= segs.deep_view()[0]);
            } else {
                assert(out@ =~= spec_join(pre) + seq![':', ':'] + segs.deep_view()[i as int]);
            }
        }
        i = i + 1;
    }
    proof {
        assert(segs.deep_view().take(segs.len() as int) =~= segs.deep_view());
    }
    out
}

/// Whether the path's last character is `*`, the shape of a wildcard import.
pub fn is_wildcard_path(s: &str) -> (res: bool)
    ensures
        res == (s@.len() > 0 && s@.last() == '*'),
{
    let n = s.unicode_len();
    if n == 0 {
        false
    } else {
        s.get_char(n - 1) == '*'
    }
}

} // verus!
