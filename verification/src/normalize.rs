use vstd::prelude::*;

verus! {

/// A character that counts toward a phone number: an ASCII decimal digit.
pub open spec fn is_phone_digit(c: char) -> bool {
    48 <= c as int && c as int <= 57
}

/// The digit characters of a raw identifier, in order, everything else
/// (punctuation, spacing, letters) stripped.
pub open spec fn digits_of(s: Seq<char>) -> Seq<char> {
    s.filter(|c: char| is_phone_digit(c))
}

/// The canonical lookup key of a phone number: the last ten of its digit
/// characters, or all of them when fewer than ten remain.
pub open spec fn normalize_phone_spec(s: Seq<char>) -> Seq<char> {
    let d = digits_of(s);
    if d.len() <= 10 {
        d
    } else {
        d.subrange(d.len() - 10, d.len() as int)
    }
}

/// Relies on `core::iter::Iterator::collect`: building a `String` from a
/// slice of characters yields exactly those characters in order.
#[verifier::external_body]
pub(crate) fn string_from_chars(v: &Vec<char>) -> (r: String)
    ensures
        r@ == v@,
{
    v.iter().collect()
}

/// The lowercase form of a string, as `str::to_lowercase` computes it.
pub uninterp spec fn lower_of(s: Seq<char>) -> Seq<char>;

/// Relies on `str::to_lowercase`: the Unicode lowercase form depends on the
/// characters of the input alone.
#[verifier::external_body]
pub(crate) fn lowercase(s: &str) -> (r: String)
    ensures
        r@ == lower_of(s@),
{
    s.to_lowercase()
}

/// Canonicalize a phone number for matching: strip every character that is
/// not an ASCII digit, then keep only the last ten digits.
pub fn normalize_phone(phone: &str) -> (r: String)
    ensures
        r@ == normalize_phone_spec(phone@),
{
    broadcast use vstd::seq_lib::group_filter_ensures;

    let len = phone.unicode_len();
    let mut digits: Vec<char> = Vec::new();
    let mut i: usize = 0;
    while i < len
        invariant
            i <= len,
            len == phone@.len(),
            digits@ == digits_of(phone@.take(i as int)),
        decreases len - i,
    {
        let c = phone.get_char(i);
        if 48u32 <= c as u32 && c as u32 <= 57u32 {
            digits.push(c);
        }
        proof {
            let t = phone@.take(i + 1 as int);
            assert(t.drop_last() =~= phone@.take(i as int));
            assert(t.last() == c);
            reveal_with_fuel(Seq::filter, 2);
            if is_phone_digit(c) {
                assert(digits_of(t) == digits_of(phone@.take(i as int)).push(c));
            } else {
                assert(digits_of(t) == digits_of(phone@.take(i as int)));
            }
        }
        i = i + 1;
    }
    proof {
        assert(phone@.take(len as int) =~= phone@);
    }
    let dlen = digits.len();
    let start: usize = if dlen <= 10 {
        0
    } else {
        dlen - 10
    };
    let mut kept: Vec<char> = Vec::new();
    let mut j: usize = start;
    while j < dlen
        invariant
            start <= j <= dlen,
            dlen == digits@.len(),
            kept@ == digits@.subrange(start as int, j as int),
        decreases dlen - j,
    {
        kept.push(digits[j]);
        proof {
            assert(kept@ =~= digits@.subrange(start as int, j + 1 as int));
        }
        j = j + 1;
    }
    proof {
        if start == 0 {
            assert(digits@.subrange(0, dlen as int) =~= digits@);
        }
    }
    string_from_chars(&kept)
}

/// The phone key depends only on the digit characters: raw strings that
/// differ merely in punctuation or spacing normalize to the same key.
pub proof fn lemma_normalize_depends_on_digits(a: Seq<char>, b: Seq<char>)
    requires
        digits_of(a) == digits_of(b),
    ensures
        normalize_phone_spec(a) == normalize_phone_spec(b),
{
}

/// A leading "+1" country code does not change the key of a number that
/// already carries at least ten digits.
pub proof fn lemma_normalize_plus_one(s: Seq<char>)
    requires
        digits_of(s).len() >= 10,
    ensures
        normalize_phone_spec(seq!['+', '1'] + s) == normalize_phone_spec(s),
{
    let p = seq!['+', '1'];
    Seq::filter_distributes_over_add(p, s, |c: char| is_phone_digit(c));
    assert(digits_of(p) =~= seq!['1']) by {
        assert(p.drop_last() =~= seq!['+']);
        assert(seq!['+'].drop_last() =~= Seq::<char>::empty());
        reveal_with_fuel(Seq::filter, 3);
    }
    let d = digits_of(s);
    let dp = digits_of(p + s);
    assert(dp =~= seq!['1'] + d);
    assert(normalize_phone_spec(p + s) =~= normalize_phone_spec(s));
}

} // verus!
