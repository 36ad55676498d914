//! The string operations of the standard library that the generator leans on.

use vstd::prelude::*;

verus! {

/// The text that `str::trim` leaves of a text.
pub uninterp spec fn trimmed(s: Seq<char>) -> Seq<char>;

/// The text that `str::to_lowercase` makes of a text.
pub uninterp spec fn lowercased(s: Seq<char>) -> Seq<char>;

/// The text that `{:?}` prints for a string slice: quoted and escaped.
pub uninterp spec fn quoted(s: Seq<char>) -> Seq<char>;

/// The decimal text that `{}` prints for an index.
pub uninterp spec fn decimal(n: usize) -> Seq<char>;

/// What `str::parse::<usize>` makes of a text: the index, where the text is
/// one that fits the target's `usize`, or the text of its complaint.
pub uninterp spec fn parsed_index(s: Seq<char>) -> Result<usize, Seq<char>>;

/// The pieces between the commas of a text, in order; the commas themselves
/// are in no piece. Read from the left, a comma opens a new, empty piece and
/// any other character joins the last piece; the empty text is one empty
/// piece.
pub open spec fn comma_pieces(s: Seq<char>) -> Seq<Seq<char>>
    decreases s.len(),
{
    if s.len() == 0 {
        seq![Seq::empty()]
    } else {
        let before = comma_pieces(s.drop_last());
        if s.last() == ',' {
            before.push(Seq::empty())
        } else {
            before.drop_last().push(before.last().push(s.last()))
        }
    }
}

/// `str::eq`: two string slices are equal exactly when they hold the same
/// characters.
#[verifier::external_body]
pub(crate) fn same(a: &str, b: &str) -> (r: bool)
    ensures
        r == (a@ == b@),
{
    a == b
}

/// `str::trim`: the result is the named trimmed text of the argument.
#[verifier::external_body]
pub(crate) fn trim(s: &str) -> (r: &str)
    ensures
        r@ == trimmed(s@),
{
    s.trim()
}

/// `str::to_lowercase`: the result is the named lower-cased text.
#[verifier::external_body]
pub(crate) fn lowercase(s: &str) -> (r: String)
    ensures
        r@ == lowercased(s@),
{
    s.to_lowercase()
}

/// `{:?}` on a string slice: the result is the named quoted text.
#[verifier::external_body]
pub(crate) fn debug_quote(s: &str) -> (r: String)
    ensures
        r@ == quoted(s@),
{
    format!("{:?}", s)
}

/// `{}` on a `usize`: the result is the named decimal text.
#[verifier::external_body]
pub(crate) fn index_text(n: usize) -> (r: String)
    ensures
        r@ == decimal(n),
{
    format!("{}", n)
}

/// `str::parse::<usize>`: the result is the named outcome, the complaint
/// given as the text that it prints.
#[verifier::external_body]
pub(crate) fn parse_index(s: &str) -> (r: Result<usize, String>)
    ensures
        match parsed_index(s@) {
            Ok(n) => r == Ok::<usize, String>(n),
            Err(e) => r is Err && r->Err_0@ == e,
        },
{
    match s.parse::<usize>() {
        Ok(n) => Ok(n),
        Err(e) => Err(format!("{}", e)),
    }
}

/// The texts of a run of string slices.
pub open spec fn texts(s: Seq<&str>) -> Seq<Seq<char>> {
    s.map_values(|p: &str| p@)
}

/// Splits a text at its commas.
pub fn split_commas(s: &str) -> (r: Vec<&str>)
    ensures
        texts(r@) == comma_pieces(s@),
{
    let n = s.unicode_len();
    let mut out: Vec<&str> = Vec::new();
    let mut start: usize = 0;
    let mut i: usize = 0;
    assert(s@.take(0) =~= Seq::empty());
    assert(texts(out@).push(s@.subrange(0, 0)) =~= seq![Seq::<char>::empty()]);
    while i < n
        invariant
            n == s@.len(),
            start <= i <= n,
            texts(out@).push(s@.subrange(start as int, i as int)) == comma_pieces(s@.take(i as int)),
        decreases n - i,
    {
        let ghost before = comma_pieces(s@.take(i as int));
        let ghost done = texts(out@);
        proof {
            assert(s@.take(i + 1).drop_last() =~= s@.take(i as int));
            assert(s@.take(i + 1).last() == s@[i as int]);
            assert(before.drop_last() =~= done);
            assert(before.last() == s@.subrange(start as int, i as int));
        }
        if s.get_char(i) == ',' {
            out.push(s.substring_char(start, i));
            start = i + 1;
            proof {
                assert(texts(out@) =~= before);
                assert(s@.subrange(start as int, i + 1) =~= Seq::empty());
            }
        } else {
            proof {
                assert(s@.subrange(start as int, i + 1) =~= s@.subrange(start as int, i as int).push(
                    s@[i as int],
                ));
            }
        }
        i += 1;
    }
    let ghost done = texts(out@);
    out.push(s.substring_char(start, n));
    proof {
        assert(s@.take(n as int) =~= s@);
        assert(texts(out@) =~= done.push(s@.subrange(start as int, n as int)));
    }
    out
}

} // verus!
