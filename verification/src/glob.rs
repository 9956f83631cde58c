//! Glob patterns in which `*` stands for any text.

use vstd::prelude::*;

use crate::text;
use crate::text::{chars_of, find_from, same_text, stands_at};

verus! {

/// Whether the whole of `s` fits the pattern `p`: a `*` fits any run of
/// characters, the empty one included, and any other character fits itself.
pub open spec fn glob_matches(p: Seq<char>, s: Seq<char>) -> bool
    decreases p.len(),
{
    if p.len() == 0 {
        s.len() == 0
    } else if p[0] == '*' {
        exists|k: int| 0 <= k <= s.len() && glob_matches(p.skip(1), #[trigger] s.skip(k))
    } else {
        s.len() > 0 && s[0] == p[0] && glob_matches(p.skip(1), s.skip(1))
    }
}

/// Whether some end of `s` fits `p`: what `*` in front of `p` asks.
spec fn end_matches(p: Seq<char>, s: Seq<char>) -> bool {
    exists|k: int| 0 <= k <= s.len() && glob_matches(p, #[trigger] s.skip(k))
}

/// A piece without `*` in front of a pattern has to stand in front of the text.
pub proof fn literal_front(lit: Seq<char>, rest: Seq<char>, s: Seq<char>)
    requires
        !lit.contains('*'),
    ensures
        glob_matches(lit + rest, s) <==> text::occurs_at(s, lit, 0) && glob_matches(
            rest,
            s.skip(lit.len() as int),
        ),
    decreases lit.len(),
{
    let p = lit + rest;
    if lit.len() == 0 {
        assert(p =~= rest);
        assert(s.skip(0) =~= s);
        assert(s.subrange(0, 0) =~= lit);
    } else {
        assert(lit[0] != '*');
        let tail = lit.skip(1);
        assert forall|c: char| tail.contains(c) implies lit.contains(c) by {
            let i = choose|i: int| 0 <= i < tail.len() && tail[i] == c;
            assert(lit[i + 1] == c);
        }
        assert(p.skip(1) =~= tail + rest);
        if s.len() > 0 {
            let t = s.skip(1);
            literal_front(tail, rest, t);
            if lit.len() <= s.len() {
                assert(t.skip(tail.len() as int) =~= s.skip(lit.len() as int));
                let a = s.subrange(0, lit.len() as int);
                let b = t.subrange(0, tail.len() as int);
                assert(a.skip(1) =~= b);
                assert(a =~= seq![s[0]] + b);
                assert(lit =~= seq![lit[0]] + tail);
                if a == lit {
                    assert(b =~= tail);
                    assert(a[0] == lit[0]);
                }
            }
        }
    }
}

/// A pattern without `*` fits exactly the text that it is.
pub proof fn pattern_without_star_fits_itself(p: Seq<char>, s: Seq<char>)
    requires
        !p.contains('*'),
    ensures
        glob_matches(p, s) <==> p == s,
{
    literal_front(p, Seq::empty(), s);
    assert(p + Seq::<char>::empty() =~= p);
    if p == s {
        assert(s.subrange(0, p.len() as int) =~= p);
    } else if text::occurs_at(s, p, 0) && s.skip(p.len() as int).len() == 0 {
        assert(s =~= s.subrange(0, p.len() as int));
    }
}

/// `*` fits every text.
pub proof fn star_fits_everything(s: Seq<char>)
    ensures
        glob_matches(seq!['*'], s),
{
    assert(seq!['*'].skip(1) =~= Seq::<char>::empty());
    assert(glob_matches(seq!['*'].skip(1), s.skip(s.len() as int)));
}

/// A text `lit` between two `*` fits exactly the texts that `lit` stands in.
pub proof fn starred_piece_fits_texts_with_it(lit: Seq<char>, s: Seq<char>)
    requires
        !lit.contains('*'),
    ensures
        glob_matches(seq!['*'] + lit + seq!['*'], s) <==> exists|i: int|
            text::occurs_at(s, lit, i),
{
    let p = seq!['*'] + lit + seq!['*'];
    assert(p.skip(1) =~= lit + seq!['*']);
    assert(p[0] == '*');
    assert forall|k: int| 0 <= k <= s.len() implies glob_matches(lit + seq!['*'], #[trigger] s.skip(k))
        == text::occurs_at(s, lit, k) by {
        literal_front(lit, seq!['*'], s.skip(k));
        star_fits_everything(s.skip(k).skip(lit.len() as int));
        shift_occurrence(s, lit, k);
    }
    if exists|i: int| text::occurs_at(s, lit, i) {
        let i = choose|i: int| text::occurs_at(s, lit, i);
        assert(glob_matches(lit + seq!['*'], s.skip(i)));
    }
}

proof fn shift_occurrence(s: Seq<char>, pat: Seq<char>, k: int)
    requires
        0 <= k <= s.len(),
    ensures
        text::occurs_at(s.skip(k), pat, 0) == text::occurs_at(s, pat, k),
{
    if k + pat.len() <= s.len() {
        assert(s.skip(k).subrange(0, pat.len() as int) =~= s.subrange(k, k + pat.len()));
    }
}

/// Behind a `*`, a piece that another `*` follows may be taken where it first
/// stands.
proof fn leftmost_piece_suffices(lit: Seq<char>, rest: Seq<char>, s: Seq<char>)
    requires
        !lit.contains('*'),
    ensures
        match text::find(s, lit) {
            Some(i) => 0 <= i && i + lit.len() <= s.len() && (end_matches(
                lit + seq!['*'] + rest,
                s,
            ) <==> end_matches(rest, s.skip(i + lit.len()))),
            None => !end_matches(lit + seq!['*'] + rest, s),
        },
{
    let starred = seq!['*'] + rest;
    assert(lit + seq!['*'] + rest =~= lit + starred);
    assert(starred.skip(1) =~= rest);
    text::find_is_lowest(s, lit);
    assert forall|k: int| 0 <= k <= s.len() implies (glob_matches(lit + starred, #[trigger] s.skip(k))
        <==> text::occurs_at(s, lit, k) && end_matches(rest, s.skip(k + lit.len()))) by {
        literal_front(lit, starred, s.skip(k));
        shift_occurrence(s, lit, k);
        if k + lit.len() <= s.len() {
            assert(s.skip(k).skip(lit.len() as int) =~= s.skip(k + lit.len()));
        }
    }
    if let Some(i) = text::find(s, lit) {
        let from = s.skip(i + lit.len());
        if end_matches(lit + starred, s) {
            let k = choose|k: int| 0 <= k <= s.len() && glob_matches(lit + starred, #[trigger] s.skip(k));
            assert(i <= k);
            let later = s.skip(k + lit.len());
            let j = choose|j: int| 0 <= j <= later.len() && glob_matches(rest, #[trigger] later.skip(j));
            assert(later.skip(j) =~= from.skip(k - i + j));
            assert(glob_matches(rest, from.skip(k - i + j)));
        }
        if end_matches(rest, from) {
            assert(glob_matches(lit + starred, s.skip(i)));
        }
    }
}

/// Behind the last `*`, the rest of the pattern has to stand at the end.
proof fn last_piece_stands_at_end(lit: Seq<char>, s: Seq<char>)
    requires
        !lit.contains('*'),
    ensures
        end_matches(lit, s) <==> lit.len() <= s.len() && text::occurs_at(
            s,
            lit,
            s.len() - lit.len(),
        ),
{
    assert forall|k: int| 0 <= k <= s.len() implies (glob_matches(lit, #[trigger] s.skip(k)) <==> lit
        == s.skip(k)) by {
        pattern_without_star_fits_itself(lit, s.skip(k));
    }
    if lit.len() <= s.len() {
        let k = s.len() - lit.len();
        assert(s.skip(k) =~= s.subrange(k, s.len() as int));
        if lit == s.skip(k) {
            assert(glob_matches(lit, s.skip(k)));
        }
    }
}

/// Whether `s` matches the glob `pattern`, in which only `*` is a wildcard.
pub fn glob_match(pattern: &str, s: &str) -> (r: bool)
    ensures
        r == glob_matches(pattern@, s@),
{
    let p = chars_of(pattern);
    let t = chars_of(s);
    let star: [char; 1] = ['*'];
    assert(star@ =~= seq!['*']);
    let ghost whole = glob_matches(p@, t@);
    assert(p@.skip(0) =~= p@);
    proof {
        text::char_found_iff_contained(p@, '*');
    }
    let first = match find_from(&p, &star, 0) {
        Some(i) => i,
        None => {
            proof {
                pattern_without_star_fits_itself(p@, t@);
            }
            return same_text(pattern, s);
        },
    };
    proof {
        literal_front(p@.take(first as int), p@.skip(first as int), t@);
        assert(p@ =~= p@.take(first as int) + p@.skip(first as int));
        assert(p@.skip(first as int).skip(1) =~= p@.skip(first + 1));
    }
    if !stands_at(&t, vstd::slice::slice_subrange(p.as_slice(), 0, first), 0) {
        return false;
    }
    let mut pos: usize = first;
    let mut at: usize = first + 1;
    loop
        invariant
            star@ == seq!['*'],
            1 <= at <= p@.len(),
            pos <= t@.len(),
            whole == glob_matches(p@, t@),
            p@ == pattern@,
            t@ == s@,
            whole == end_matches(p@.skip(at as int), t@.skip(pos as int)),
        decreases p@.len() - at,
    {
        let ghost rest = p@.skip(at as int);
        let ghost left = t@.skip(pos as int);
        proof {
            text::char_found_iff_contained(rest, '*');
        }
        match find_from(&p, &star, at) {
            Some(end) => {
                let piece = vstd::slice::slice_subrange(p.as_slice(), at, end);
                proof {
                    assert(piece@ =~= rest.take(end - at));
                    assert(rest =~= piece@ + seq!['*'] + p@.skip(end + 1));
                    leftmost_piece_suffices(piece@, p@.skip(end + 1), left);
                }
                match find_from(&t, piece, pos) {
                    Some(i) => {
                        assert(left.skip(i - pos + piece@.len()) =~= t@.skip(i + piece@.len()));
                        pos = i + piece.len();
                        at = end + 1;
                    },
                    None => {
                        return false;
                    },
                }
            },
            None => {
                proof {
                    last_piece_stands_at_end(rest, left);
                }
                let piece = vstd::slice::slice_subrange(p.as_slice(), at, p.len());
                assert(piece@ =~= rest);
                if t.len() - pos < piece.len() {
                    return false;
                }
                let from = t.len() - piece.len();
                assert(left.subrange(from - pos, left.len() as int) =~= t@.subrange(
                    from as int,
                    t@.len() as int,
                ));
                return stands_at(&t, piece, from);
            },
        }
    }
}

/// One step of a pattern: a character other than `*` fits itself in front of
/// the text; a `*` fits nothing, or one character and then more.
pub proof fn pattern_fits_step_by_step(c: char, p: Seq<char>, s: Seq<char>)
    ensures
        c != '*' ==> (glob_matches(seq![c] + p, s) <==> s.len() > 0 && s[0] == c && glob_matches(
            p,
            s.skip(1),
        )),
        c == '*' ==> (glob_matches(seq![c] + p, s) <==> glob_matches(p, s) || (s.len() > 0
            && glob_matches(seq![c] + p, s.skip(1)))),
        glob_matches(Seq::empty(), s) <==> s.len() == 0,
{
    let q = seq![c] + p;
    assert(q.skip(1) =~= p);
    assert(q[0] == c);
    assert(s.skip(0) =~= s);
    if c == '*' {
        if glob_matches(q, s) {
            let k = choose|k: int| 0 <= k <= s.len() && glob_matches(p, #[trigger] s.skip(k));
            if k > 0 {
                assert(s.skip(1).skip(k - 1) =~= s.skip(k));
                assert(glob_matches(q.skip(1), s.skip(1).skip(k - 1)));
            }
        }
        if glob_matches(p, s) {
            assert(glob_matches(q.skip(1), s.skip(0)));
        }
        if s.len() > 0 && glob_matches(q, s.skip(1)) {
            let t = s.skip(1);
            let k = choose|k: int| 0 <= k <= t.len() && glob_matches(p, #[trigger] t.skip(k));
            assert(t.skip(k) =~= s.skip(k + 1));
            assert(glob_matches(q.skip(1), s.skip(k + 1)));
        }
    }
}

/// Two pieces around one `*` fit exactly the texts that begin with the first
/// and end with the second, without overlap.
pub proof fn star_between_pieces_fits_front_and_end(a: Seq<char>, b: Seq<char>, s: Seq<char>)
    requires
        !a.contains('*'),
        !b.contains('*'),
    ensures
        glob_matches(a + seq!['*'] + b, s) <==> a.len() + b.len() <= s.len() && s.take(
            a.len() as int,
        ) == a && s.skip(s.len() - b.len()) == b,
{
    let star = seq!['*'] + b;
    assert(a + seq!['*'] + b =~= a + star);
    literal_front(a, star, s);
    assert(star.skip(1) =~= b);
    let t = s.skip(a.len() as int);
    last_piece_stands_at_end(b, t);
    if a.len() + b.len() <= s.len() {
        assert(t.subrange(t.len() - b.len(), t.len() as int) =~= s.skip(s.len() - b.len()));
        assert(s.subrange(0, a.len() as int) =~= s.take(a.len() as int));
    }
    assert(glob_matches(star, t) == end_matches(b, t));
}

} // verus!
