//! Splitting text on a delimiter and joining it back.
//!
//! A source is a sequence of characters. Splitting on a delimiter yields
//! the ordered parts between the leftmost, non-overlapping occurrences of
//! the delimiter; joining interleaves the same delimiter between the
//! parts. Splitting a source into lines is splitting on the newline
//! character.

use vstd::prelude::*;
use vstd::string::StrSliceExecFns;

verus! {

/// The delimiter `d` occurs in `s` at position `i`.
pub open spec fn occurs_at(s: Seq<char>, d: Seq<char>, i: int) -> bool {
    &&& 0 <= i
    &&& i + d.len() <= s.len()
    &&& s.subrange(i, i + d.len()) == d
}

/// The ordered parts of `s` between the leftmost, non-overlapping
/// occurrences of the delimiter `d`. There is always at least one part;
/// a source in which `d` never occurs is a single part, and an empty
/// delimiter never occurs.
pub open spec fn split_chars(s: Seq<char>, d: Seq<char>) -> Seq<Seq<char>>
    decreases s.len(),
{
    if d.len() == 0 || s.len() == 0 {
        seq![s]
    } else if occurs_at(s, d, 0) {
        seq![Seq::<char>::empty()] + split_chars(s.skip(d.len() as int), d)
    } else {
        let rest = split_chars(s.drop_first(), d);
        seq![seq![s[0]] + rest[0]] + rest.drop_first()
    }
}

/// The parts of `parts` concatenated with the delimiter `d` between
/// each neighbouring pair.
pub open spec fn join_chars(parts: Seq<Seq<char>>, d: Seq<char>) -> Seq<char>
    decreases parts.len(),
{
    if parts.len() == 0 {
        Seq::<char>::empty()
    } else if parts.len() == 1 {
        parts[0]
    } else {
        parts[0] + d + join_chars(parts.drop_first(), d)
    }
}

/// Splitting yields at least one part.
proof fn lemma_split_len(s: Seq<char>, d: Seq<char>)
    ensures
        split_chars(s, d).len() >= 1,
    decreases s.len(),
{
    if d.len() == 0 || s.len() == 0 {
    } else if occurs_at(s, d, 0) {
    } else {
        lemma_split_len(s.drop_first(), d);
    }
}

/// Splitting a source and joining the parts with the same non-empty
/// delimiter reconstructs the source exactly.
pub proof fn lemma_split_join_round_trip(s: Seq<char>, d: Seq<char>)
    requires
        d.len() >= 1,
    ensures
        join_chars(split_chars(s, d), d) == s,
    decreases s.len(),
{
    if s.len() == 0 {
        assert(join_chars(split_chars(s, d), d) =~= s);
    } else if occurs_at(s, d, 0) {
        let tail = s.skip(d.len() as int);
        lemma_split_join_round_trip(tail, d);
        lemma_split_len(tail, d);
        let parts = split_chars(s, d);
        assert(parts.drop_first() =~= split_chars(tail, d));
        assert(parts.len() >= 2);
        assert(join_chars(parts, d) == Seq::<char>::empty() + d + join_chars(split_chars(tail, d), d));
        assert(s.subrange(0, d.len() as int) == d);
        assert(join_chars(parts, d) =~= s);
    } else {
        let head = s.drop_first();
        lemma_split_join_round_trip(head, d);
        lemma_split_len(head, d);
        let rest = split_chars(head, d);
        let parts = split_chars(s, d);
        assert(parts == seq![seq![s[0]] + rest[0]] + rest.drop_first());
        if rest.len() == 1 {
            assert(parts.len() == 1);
            assert(join_chars(parts, d) == seq![s[0]] + rest[0]);
            assert(join_chars(rest, d) == rest[0]);
            assert(join_chars(parts, d) =~= s);
        } else {
            assert(parts.len() >= 2);
            assert(parts[0] == seq![s[0]] + rest[0]);
            assert(parts.drop_first() =~= rest.drop_first());
            assert(join_chars(parts, d) == parts[0] + d + join_chars(rest.drop_first(), d));
            assert(join_chars(rest, d) == rest[0] + d + join_chars(rest.drop_first(), d));
            assert(join_chars(rest, d) == head);
            assert((seq![s[0]] + rest[0]) + d + join_chars(rest.drop_first(), d) =~= seq![s[0]]
                + (rest[0] + d + join_chars(rest.drop_first(), d)));
            assert(join_chars(parts, d) == seq![s[0]] + head);
            assert(join_chars(parts, d) =~= s);
        }
    }
}

/// An occurrence inside a slice of `s` is an occurrence in `s` that
/// lies wholly inside the slice, and at the shifted position.
proof fn lemma_occurs_in_subrange(s: Seq<char>, d: Seq<char>, a: int, b: int, j: int)
    requires
        0 <= a <= b <= s.len(),
        0 <= j,
    ensures
        occurs_at(s.subrange(a, b), d, j) <==> (a + j + d.len() <= b && occurs_at(s, d, a + j)),
{
    let t = s.subrange(a, b);
    if j + d.len() <= t.len() {
        assert(t.subrange(j, j + d.len()) =~= s.subrange(a + j, a + j + d.len()));
    }
}

/// Where the delimiter never occurs, the whole source is the one part.
proof fn lemma_split_no_occurrence(s: Seq<char>, d: Seq<char>)
    requires
        d.len() >= 1,
        forall|j: int| !occurs_at(s, d, j),
    ensures
        split_chars(s, d) == seq![s],
    decreases s.len(),
{
    if s.len() == 0 {
    } else {
        let head = s.drop_first();
        assert forall|j: int| !occurs_at(head, d, j) by {
            if 0 <= j {
                assert(head =~= s.subrange(1, s.len() as int));
                lemma_occurs_in_subrange(s, d, 1, s.len() as int, j);
            }
        }
        lemma_split_no_occurrence(head, d);
        assert(!occurs_at(s, d, 0));
        assert(split_chars(s, d) =~~= seq![s]);
    }
}

/// Splitting at the leftmost occurrence: the part before it, then the
/// split of what follows it.
proof fn lemma_split_first_occurrence(s: Seq<char>, d: Seq<char>, p: int)
    requires
        d.len() >= 1,
        occurs_at(s, d, p),
        forall|j: int| 0 <= j < p ==> !occurs_at(s, d, j),
    ensures
        split_chars(s, d) == seq![s.subrange(0, p)] + split_chars(
            s.subrange(p + d.len(), s.len() as int),
            d,
        ),
    decreases p,
{
    if p == 0 {
        assert(s.len() >= 1);
        assert(s.skip(d.len() as int) =~= s.subrange(p + d.len(), s.len() as int));
        assert(Seq::<char>::empty() =~= s.subrange(0, 0));
        assert(split_chars(s, d) =~~= seq![s.subrange(0, p)] + split_chars(
            s.subrange(p + d.len(), s.len() as int),
            d,
        ));
    } else {
        let head = s.drop_first();
        assert(head =~= s.subrange(1, s.len() as int));
        assert(occurs_at(head, d, p - 1)) by {
            lemma_occurs_in_subrange(s, d, 1, s.len() as int, p - 1);
        }
        assert forall|j: int| 0 <= j < p - 1 implies !occurs_at(head, d, j) by {
            lemma_occurs_in_subrange(s, d, 1, s.len() as int, j);
        }
        lemma_split_first_occurrence(head, d, p - 1);
        lemma_split_len(head.subrange(p - 1 + d.len(), head.len() as int), d);
        let rest = split_chars(head, d);
        assert(rest[0] == head.subrange(0, p - 1));
        assert(seq![s[0]] + rest[0] =~= s.subrange(0, p));
        assert(head.subrange(p - 1 + d.len(), head.len() as int) =~= s.subrange(
            p + d.len(),
            s.len() as int,
        ));
        assert(rest.drop_first() =~= split_chars(s.subrange(p + d.len(), s.len() as int), d));
        assert(!occurs_at(s, d, 0));
        assert(s.len() >= 1);
        assert(split_chars(s, d) =~~= seq![s.subrange(0, p)] + split_chars(
            s.subrange(p + d.len(), s.len() as int),
            d,
        ));
    }
}

/// Joining one more part appends the delimiter and that part.
proof fn lemma_join_push(parts: Seq<Seq<char>>, d: Seq<char>, x: Seq<char>)
    requires
        parts.len() >= 1,
    ensures
        join_chars(parts.push(x), d) == join_chars(parts, d) + d + x,
    decreases parts.len(),
{
    if parts.len() == 1 {
        assert(parts.push(x).drop_first() =~= seq![x]);
        assert(parts.push(x)[0] == parts[0]);
        assert(join_chars(seq![x], d) == x);
        assert(join_chars(parts.push(x), d) == parts[0] + d + x);
    } else {
        assert(parts.push(x).drop_first() =~= parts.drop_first().push(x));
        lemma_join_push(parts.drop_first(), d, x);
        let a = join_chars(parts.drop_first(), d);
        assert(parts[0] + d + (a + d + x) =~= (parts[0] + d + a) + d + x);
    }
}

/// True exactly when the delimiter `d` occurs in `s` at character
/// position `i`.
fn delim_match(s: &str, d: &str, i: usize) -> (b: bool)
    requires
        s@.len() <= usize::MAX,
        i + d@.len() <= s@.len(),
    ensures
        b == occurs_at(s@, d@, i as int),
{
    let dn = d.unicode_len();
    let mut j: usize = 0;
    while j < dn
        invariant
            j <= dn,
            dn == d@.len(),
            s@.len() <= usize::MAX,
            i + dn <= s@.len(),
            forall|t: int| 0 <= t < j ==> s@[i + t] == d@[t],
        decreases dn - j,
    {
        if s.get_char(i + j) != d.get_char(j) {
            assert(!occurs_at(s@, d@, i as int)) by {
                if occurs_at(s@, d@, i as int) {
                    assert(s@.subrange(i as int, i + dn)[j as int] == s@[i + j]);
                }
            }
            return false;
        }
        j = j + 1;
    }
    assert(s@.subrange(i as int, i + dn) =~= d@);
    true
}

/// Splits `s` on each leftmost, non-overlapping occurrence of the
/// non-empty delimiter `d`, in order.
pub fn split_line(s: &str, d: &str) -> (r: Vec<String>)
    requires
        d@.len() >= 1,
    ensures
        r.deep_view() == split_chars(s@, d@),
{
    let n = s.unicode_len();
    let dn = d.unicode_len();
    let mut parts: Vec<String> = Vec::new();
    if dn > n {
        proof {
            lemma_split_no_occurrence(s@, d@);
        }
        parts.push(s.to_owned());
        assert(parts.deep_view() =~~= seq![s@]);
        return parts;
    }
    let mut start: usize = 0;
    let mut i: usize = 0;
    proof {
        assert(s@.subrange(0, n as int) =~= s@);
        assert(parts.deep_view() =~~= Seq::<Seq<char>>::empty());
        assert(parts.deep_view() + split_chars(s@, d@) =~~= split_chars(s@, d@));
    }
    while i <= n - dn
        invariant
            1 <= dn <= n <= usize::MAX,
            n == s@.len(),
            dn == d@.len(),
            start <= i <= n,
            parts.deep_view() + split_chars(s@.subrange(start as int, n as int), d@)
                == split_chars(s@, d@),
            forall|j: int| start <= j < i ==> !occurs_at(s@, d@, j),
        decreases n - i,
    {
        if delim_match(s, d, i) {
            let part = s.substring_char(start, i);
            let ghost old_parts = parts.deep_view();
            parts.push(part.to_owned());
            proof {
                let t = s@.subrange(start as int, n as int);
                assert forall|j: int| 0 <= j < i - start implies !occurs_at(t, d@, j) by {
                    lemma_occurs_in_subrange(s@, d@, start as int, n as int, j);
                }
                assert(occurs_at(t, d@, i - start)) by {
                    lemma_occurs_in_subrange(s@, d@, start as int, n as int, i - start);
                }
                lemma_split_first_occurrence(t, d@, i - start);
                assert(t.subrange(0, i - start) =~= s@.subrange(start as int, i as int));
                assert(t.subrange(i - start + dn, t.len() as int) =~= s@.subrange(
                    i + dn,
                    n as int,
                ));
                assert(parts.deep_view() =~~= old_parts.push(part@));
                assert(parts.deep_view() + split_chars(s@.subrange(i + dn, n as int), d@)
                    =~~= old_parts + split_chars(t, d@));
            }
            i = i + dn;
            start = i;
        } else {
            i = i + 1;
        }
    }
    let last = s.substring_char(start, n);
    let ghost old_parts = parts.deep_view();
    parts.push(last.to_owned());
    proof {
        let t = s@.subrange(start as int, n as int);
        assert forall|j: int| !occurs_at(t, d@, j) by {
            if 0 <= j {
                lemma_occurs_in_subrange(s@, d@, start as int, n as int, j);
                if start + j + dn <= n {
                    assert(start <= start + j < i);
                }
            }
        }
        lemma_split_no_occurrence(t, d@);
        assert(parts.deep_view() =~~= old_parts.push(last@));
        assert(parts.deep_view() =~~= old_parts + split_chars(t, d@));
    }
    parts
}

/// Joins the parts with the delimiter `d` between each neighbouring
/// pair, reconstructing what a split on `d` took apart.
pub fn join_lines(parts: &Vec<String>, d: &str) -> (r: String)
    ensures
        r@ == join_chars(parts.deep_view(), d@),
{
    let mut out = String::new();
    let mut i: usize = 0;
    proof {
        assert(parts.deep_view().take(0) =~= Seq::<Seq<char>>::empty());
    }
    while i < parts.len()
        invariant
            i <= parts@.len(),
            out@ == join_chars(parts.deep_view().take(i as int), d@),
        decreases parts@.len() - i,
    {
        if i > 0 {
            out.append(d);
        }
        out.append(parts[i].as_str());
        proof {
            let dv = parts.deep_view();
            assert(dv[i as int] == parts@[i as int]@);
            assert(dv.take(i + 1) =~= dv.take(i as int).push(dv[i as int]));
            if i > 0 {
                lemma_join_push(dv.take(i as int), d@, dv[i as int]);
            } else {
                assert(dv.take(1) =~= seq![dv[0]]);
            }
        }
        i = i + 1;
    }
    proof {
        assert(parts.deep_view().take(parts@.len() as int) =~= parts.deep_view());
    }
    out
}

/// Splits a source into its lines: the parts of `s` between the
/// newline characters, with a final newline yielding a trailing empty
/// line. Carriage returns are kept as they stand.
pub fn parse(s: String) -> (r: Vec<String>)
    ensures
        r.deep_view() == split_chars(s@, seq!['\n']),
{
    let nl: &str = "\n";
    proof {
        reveal_strlit("\n");
        assert(nl@ =~= seq!['\n']);
    }
    split_line(s.as_str(), nl)
}

} // verus!
