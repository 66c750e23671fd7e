use vstd::prelude::*;
use vstd::string::StrSliceExecFns;
use crate::post::strings_view;

verus! {

/// The comma-separated pieces of `s`, kept verbatim: no trimming, no
/// deduplication, no filtering of empty pieces. There is always at least one
/// piece; splitting the empty string yields one empty piece.
pub open spec fn split_commas(s: Seq<char>) -> Seq<Seq<char>>
    decreases s.len(),
{
    if s.len() == 0 {
        seq![Seq::<char>::empty()]
    } else if s[0] == ',' {
        seq![Seq::<char>::empty()] + split_commas(s.subrange(1, s.len() as int))
    } else {
        let rest = split_commas(s.subrange(1, s.len() as int));
        seq![seq![s[0]] + rest[0]] + rest.subrange(1, rest.len() as int)
    }
}

pub proof fn lemma_split_commas_len(s: Seq<char>)
    ensures
        split_commas(s).len() >= 1,
    decreases s.len(),
{
    if s.len() != 0 {
        lemma_split_commas_len(s.subrange(1, s.len() as int));
    }
}

/// A string without a comma splits into the one piece that it is.
pub proof fn lemma_split_no_comma(p: Seq<char>)
    requires
        forall|i: int| 0 <= i < p.len() ==> p[i] != ',',
    ensures
        split_commas(p) == seq![p],
    decreases p.len(),
{
    if p.len() == 0 {
        assert(p =~= Seq::<char>::empty());
        assert(split_commas(p) =~= seq![p]);
    } else {
        let tail = p.subrange(1, p.len() as int);
        lemma_split_no_comma(tail);
        lemma_split_commas_len(tail);
        let rest = split_commas(tail);
        assert(rest == seq![tail]);
        assert(rest.subrange(1, rest.len() as int) =~= Seq::<Seq<char>>::empty());
        assert(seq![p[0]] + tail =~= p);
        assert(split_commas(p) =~= seq![p]);
    }
}

/// Splitting at the first comma: a comma-free prefix becomes the first piece,
/// and the remainder splits on its own.
pub proof fn lemma_split_comma_concat(p: Seq<char>, b: Seq<char>)
    requires
        forall|i: int| 0 <= i < p.len() ==> p[i] != ',',
    ensures
        split_commas(p + seq![','] + b) == seq![p] + split_commas(b),
    decreases p.len(),
{
    let s = p + seq![','] + b;
    if p.len() == 0 {
        assert(s =~= seq![','] + b);
        assert(s[0] == ',');
        assert(s.subrange(1, s.len() as int) =~= b);
        assert(p =~= Seq::<char>::empty());
        assert(split_commas(s) =~= seq![p] + split_commas(b));
    } else {
        let ptail = p.subrange(1, p.len() as int);
        lemma_split_comma_concat(ptail, b);
        assert(s[0] == p[0]);
        assert(s[0] != ',');
        assert(s.subrange(1, s.len() as int) =~= ptail + seq![','] + b);
        let rest = split_commas(ptail + seq![','] + b);
        assert(rest == seq![ptail] + split_commas(b));
        lemma_split_commas_len(ptail + seq![','] + b);
        assert(rest[0] == ptail);
        assert(seq![s[0]] + rest[0] =~= p);
        assert(rest.subrange(1, rest.len() as int) =~= split_commas(b));
        assert(split_commas(s) =~= seq![p] + split_commas(b));
    }
}

/// Splits `s` on the comma character into owned strings, exactly as
/// `split_commas` describes.
pub fn split_tags(s: &str) -> (r: Vec<String>)
    ensures
        strings_view(r@) == split_commas(s@),
{
    let n = s.unicode_len();
    let mut r: Vec<String> = Vec::new();
    let mut start: usize = 0;
    let mut i: usize = 0;
    proof {
        assert(s@.subrange(0, n as int) =~= s@);
        assert(strings_view(r@) + split_commas(s@) =~= split_commas(s@));
    }
    while i < n
        invariant
            start <= i <= n,
            n == s@.len(),
            forall|j: int| start as int <= j < i as int ==> s@[j] != ',',
            split_commas(s@) == strings_view(r@) + split_commas(
                s@.subrange(start as int, n as int),
            ),
        decreases n - i,
    {
        let c = s.get_char(i);
        if c == ',' {
            let piece = s.substring_char(start, i).to_owned();
            let ghost prev = r@;
            r.push(piece);
            proof {
                let pv = s@.subrange(start as int, i as int);
                let b = s@.subrange(i as int + 1, n as int);
                assert(s@.subrange(start as int, n as int) =~= pv + seq![','] + b);
                lemma_split_comma_concat(pv, b);
                assert(strings_view(r@) =~= strings_view(prev).push(pv));
                assert(strings_view(prev).push(pv) =~= strings_view(prev) + seq![pv]);
                assert(strings_view(r@) + split_commas(b) =~= strings_view(prev) + (seq![pv]
                    + split_commas(b)));
            }
            start = i + 1;
        }
        i += 1;
    }
    let piece = s.substring_char(start, n).to_owned();
    let ghost prev = r@;
    r.push(piece);
    proof {
        let pv = s@.subrange(start as int, n as int);
        lemma_split_no_comma(pv);
        assert(strings_view(r@) =~= strings_view(prev).push(pv));
        assert(strings_view(prev).push(pv) =~= strings_view(prev) + seq![pv]);
        assert(strings_view(r@) =~= split_commas(s@));
    }
    r
}

} // verus!
