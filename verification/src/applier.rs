//! Building the argument list handed to the external wallpaper setter.
//!
//! The configured extra arguments are a single string that is split on
//! every single space, exactly as the invocation line expects:
//! consecutive spaces and leading or trailing spaces produce empty
//! arguments, and an empty string produces one empty argument.

use vstd::prelude::*;

verus! {

/// The pieces of `s` between single spaces, in order. Always non-empty;
/// an empty input yields one empty piece.
pub open spec fn space_split(s: Seq<char>) -> Seq<Seq<char>>
    decreases s.len(),
{
    if s.len() == 0 {
        seq![Seq::<char>::empty()]
    } else if s[0] == ' ' {
        seq![Seq::<char>::empty()] + space_split(s.drop_first())
    } else {
        let rest = space_split(s.drop_first());
        seq![seq![s[0]] + rest[0]] + rest.drop_first()
    }
}

/// A string without spaces splits into just itself.
pub proof fn lemma_space_split_whole(s: Seq<char>)
    requires
        forall|j: int| 0 <= j < s.len() ==> s[j] != ' ',
    ensures
        space_split(s) == seq![s],
    decreases s.len(),
{
    if s.len() == 0 {
        assert(space_split(s) =~~= seq![s]);
    } else {
        assert(forall|j: int| 0 <= j < s.drop_first().len() ==> s.drop_first()[j] != ' ');
        lemma_space_split_whole(s.drop_first());
        let rest = space_split(s.drop_first());
        assert(rest[0] == s.drop_first());
        assert(seq![s[0]] + s.drop_first() =~= s);
        assert(rest.drop_first() =~= Seq::<Seq<char>>::empty());
        assert(space_split(s) =~~= seq![s]);
    }
}

/// Splitting at the first space: a space-free prefix becomes the first
/// piece, the rest splits on its own.
pub proof fn lemma_space_split_head(a: Seq<char>, b: Seq<char>)
    requires
        forall|j: int| 0 <= j < a.len() ==> a[j] != ' ',
    ensures
        space_split(a + seq![' '] + b) == seq![a] + space_split(b),
    decreases a.len(),
{
    let s = a + seq![' '] + b;
    if a.len() == 0 {
        assert(s =~= seq![' '] + b);
        assert(s[0] == ' ');
        assert(s.drop_first() =~= b);
        assert(space_split(s) =~~= seq![a] + space_split(b));
    } else {
        assert(s.len() > 0 && s[0] == a[0] && s[0] != ' ');
        assert(forall|j: int| 0 <= j < a.drop_first().len() ==> a.drop_first()[j] != ' ');
        lemma_space_split_head(a.drop_first(), b);
        assert(s.drop_first() =~= a.drop_first() + seq![' '] + b);
        let rest = space_split(s.drop_first());
        assert(rest == seq![a.drop_first()] + space_split(b));
        assert(rest[0] == a.drop_first());
        assert(seq![s[0]] + rest[0] =~= a);
        assert(rest.drop_first() =~= space_split(b));
        assert(space_split(s) =~~= seq![a] + space_split(b));
    }
}

/// Split a string on every single space, the way the wallpaper-setter
/// invocation treats the configured extra arguments.
pub fn split_spaces(s: &str) -> (r: Vec<String>)
    ensures
        r@.map_values(|p: String| p@) == space_split(s@),
{
    let n = s.unicode_len();
    let mut out: Vec<String> = Vec::new();
    let mut start: usize = 0;
    let mut i: usize = 0;
    proof {
        assert(s@.subrange(0, n as int) =~= s@);
        assert(out@.map_values(|p: String| p@) + space_split(s@) =~= space_split(s@));
    }
    while i < n
        invariant
            n == s@.len(),
            start <= i <= n,
            forall|j: int| start <= j < i ==> s@[j] != ' ',
            space_split(s@) == out@.map_values(|p: String| p@) + space_split(
                s@.subrange(start as int, n as int),
            ),
        decreases n - i,
    {
        let c = s.get_char(i);
        if c == ' ' {
            let ghost out0 = out@;
            let ghost mid = s@.subrange(start as int, i as int);
            let piece = s.substring_char(start, i).to_owned();
            out.push(piece);
            proof {
                assert(piece@ == mid);
                lemma_space_split_head(mid, s@.subrange(i + 1, n as int));
                assert(s@.subrange(start as int, n as int) =~= mid + seq![' '] + s@.subrange(
                    i + 1,
                    n as int,
                ));
                assert(out@ =~= out0.push(piece));
                assert(out@.map_values(|p: String| p@) =~= out0.map_values(
                    |p: String| p@,
                ).push(mid));
                assert(out@.map_values(|p: String| p@) + space_split(
                    s@.subrange(i + 1, n as int),
                ) =~= (out0.map_values(|p: String| p@) + (seq![mid] + space_split(
                    s@.subrange(i + 1, n as int),
                ))));
            }
            start = i + 1;
        }
        i = i + 1;
    }
    let ghost out0 = out@;
    let ghost tail = s@.subrange(start as int, n as int);
    let piece = s.substring_char(start, n).to_owned();
    out.push(piece);
    proof {
        assert(piece@ == tail);
        lemma_space_split_whole(tail);
        assert(out@ =~= out0.push(piece));
        assert(out@.map_values(|p: String| p@) =~= out0.map_values(|p: String| p@).push(tail));
        assert(out@.map_values(|p: String| p@) =~= out0.map_values(|p: String| p@) + seq![tail]);
    }
    out
}

} // verus!
