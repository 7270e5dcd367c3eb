use vstd::prelude::*;
use vstd::string::StrSliceExecFns;

verus! {

/// A character survives normalization exactly when it is an ASCII digit,
/// an ASCII letter, or a Cyrillic letter.
pub open spec fn is_kept_char(c: char) -> bool {
    let u = c as u32;
    ||| 0x30 <= u && u <= 0x39  // '0' ..= '9'
    ||| 0x41 <= u && u <= 0x5A  // 'A' ..= 'Z'
    ||| 0x61 <= u && u <= 0x7A  // 'a' ..= 'z'
    ||| 0x410 <= u && u <= 0x42F  // cyrillic capital letters
    ||| 0x430 <= u && u <= 0x44F  // cyrillic small letters
}

/// Lowercasing for the alphabets the normalizer keeps: ASCII and Cyrillic
/// capital letters move down by 0x20; everything else is unchanged.
pub open spec fn lower_char(c: char) -> char {
    let u = c as u32;
    if (0x41 <= u && u <= 0x5A) || (0x410 <= u && u <= 0x42F) {
        ((u + 0x20) as u32) as char
    } else {
        c
    }
}

/// The canonical form of an utterance: every character that is not an ASCII
/// letter, Cyrillic letter or digit is deleted, and the remainder is
/// lowercased.
pub open spec fn normalize_spec(s: Seq<char>) -> Seq<char>
    decreases s.len(),
{
    if s.len() == 0 {
        Seq::empty()
    } else {
        let prefix = normalize_spec(s.drop_last());
        if is_kept_char(s.last()) {
            prefix.push(lower_char(s.last()))
        } else {
            prefix
        }
    }
}

/// Relies on char::from_u32: it returns the character with the given scalar
/// value, and None exactly for surrogates and values above char::MAX.
#[verifier::external_body]
fn char_from_u32(u: u32) -> (r: Option<char>)
    ensures
        r matches Some(c) ==> c as u32 == u,
        u < 0xD800 ==> r is Some,
{
    char::from_u32(u)
}

/// Relies on String::push: it appends the given character to the end of the
/// string.
#[verifier::external_body]
pub(crate) fn push_char(s: &mut String, c: char)
    ensures
        final(s)@ == old(s)@.push(c),
{
    s.push(c);
}

fn is_kept(c: char) -> (r: bool)
    ensures
        r == is_kept_char(c),
{
    let u = c as u32;
    (0x30 <= u && u <= 0x39) || (0x41 <= u && u <= 0x5A) || (0x61 <= u && u <= 0x7A) || (0x410
        <= u && u <= 0x44F)
}

fn to_lower_char(c: char) -> (r: char)
    ensures
        r == lower_char(c),
{
    let u = c as u32;
    if (0x41 <= u && u <= 0x5A) || (0x410 <= u && u <= 0x42F) {
        match char_from_u32(u + 0x20) {
            Some(l) => {
                proof {
                    vstd::utf8::char_u32_cast(l, (u + 0x20) as u32);
                }
                l
            },
            None => {
                proof {
                    assert(false);
                }
                c
            },
        }
    } else {
        c
    }
}

/// Reduces a raw utterance to its canonical form, which every vocabulary
/// comparison runs against.
pub fn answer_to_standard(text: &str) -> (r: String)
    ensures
        r@ == normalize_spec(text@),
{
    let n = text.unicode_len();
    let mut result = String::new();
    for i in 0..n
        invariant
            n == text@.len(),
            result@ == normalize_spec(text@.subrange(0, i as int)),
    {
        let c = text.get_char(i);
        if is_kept(c) {
            push_char(&mut result, to_lower_char(c));
        }
        proof {
            assert(text@.subrange(0, (i + 1) as int).drop_last() =~= text@.subrange(0, i as int));
            assert(text@.subrange(0, (i + 1) as int).last() == text@[i as int]);
        }
    }
    proof {
        assert(text@.subrange(0, n as int) =~= text@);
    }
    result
}

/// Content equality of two string slices.
pub(crate) fn str_eq(a: &str, b: &str) -> (r: bool)
    ensures
        r == (a@ == b@),
{
    let ao = a.to_owned();
    let bo = b.to_owned();
    ao == bo
}

/// The needle occurs contiguously somewhere inside the haystack.
pub open spec fn contains_seq(hay: Seq<char>, needle: Seq<char>) -> bool {
    exists|i: int|
        0 <= i && i + needle.len() <= hay.len() && #[trigger] hay.subrange(i, i + needle.len())
            == needle
}

fn matches_at(hay: &str, needle: &str, i: usize) -> (r: bool)
    requires
        i + needle@.len() <= hay@.len(),
        hay@.len() <= usize::MAX,
    ensures
        r == (hay@.subrange(i as int, i + needle@.len()) == needle@),
{
    let nn = needle.unicode_len();
    let mut j: usize = 0;
    while j < nn
        invariant
            nn == needle@.len(),
            i + nn <= hay@.len(),
            hay@.len() <= usize::MAX,
            j <= nn,
            forall|k: int| 0 <= k < j ==> hay@[i + k] == needle@[k],
        decreases nn - j,
    {
        if hay.get_char(i + j) != needle.get_char(j) {
            proof {
                assert(hay@.subrange(i as int, i + nn as int)[j as int] == hay@[i + j]);
            }
            return false;
        }
        j += 1;
    }
    proof {
        assert(hay@.subrange(i as int, i + nn as int) =~= needle@);
    }
    true
}

/// Substring search over characters.
pub(crate) fn contains_substring(hay: &str, needle: &str) -> (r: bool)
    ensures
        r == contains_seq(hay@, needle@),
{
    let hn = hay.unicode_len();
    let nn = needle.unicode_len();
    if nn > hn {
        return false;
    }
    if nn == 0 {
        proof {
            assert(hay@.subrange(0, 0 + needle@.len() as int) =~= needle@);
        }
        return true;
    }
    let mut i: usize = 0;
    while i <= hn - nn
        invariant
            1 <= nn <= hn,
            hn == hay@.len(),
            nn == needle@.len(),
            forall|j: int| 0 <= j < i ==> #[trigger] hay@.subrange(j, j + nn) != needle@,
        decreases hn - nn - i + 1,
    {
        if matches_at(hay, needle, i) {
            return true;
        }
        i += 1;
    }
    false
}

proof fn lemma_normalize_chars(s: Seq<char>)
    ensures
        forall|i: int|
            0 <= i < normalize_spec(s).len() ==> is_kept_char(#[trigger] normalize_spec(s)[i])
                && lower_char(normalize_spec(s)[i]) == normalize_spec(s)[i],
    decreases s.len(),
{
    if s.len() > 0 {
        lemma_normalize_chars(s.drop_last());
        let prefix = normalize_spec(s.drop_last());
        assert forall|i: int| 0 <= i < normalize_spec(s).len() implies is_kept_char(
            #[trigger] normalize_spec(s)[i],
        ) && lower_char(normalize_spec(s)[i]) == normalize_spec(s)[i] by {
            if is_kept_char(s.last()) {
                let l = lower_char(s.last());
                assert(is_kept_char(l) && lower_char(l) == l);
                assert(normalize_spec(s) == prefix.push(l));
                if i < prefix.len() {
                    assert(normalize_spec(s)[i] == prefix[i]);
                } else {
                    assert(normalize_spec(s)[i] == l);
                }
            } else {
                assert(normalize_spec(s) == prefix);
            }
        }
    }
}

proof fn lemma_normalize_fixed(t: Seq<char>)
    requires
        forall|i: int|
            0 <= i < t.len() ==> is_kept_char(#[trigger] t[i]) && lower_char(t[i]) == t[i],
    ensures
        normalize_spec(t) == t,
    decreases t.len(),
{
    if t.len() == 0 {
        assert(normalize_spec(t) =~= t);
    } else {
        lemma_normalize_fixed(t.drop_last());
        assert(normalize_spec(t) =~= t);
    }
}

/// Normalization is idempotent: a canonical string normalizes to itself.
pub proof fn lemma_normalize_idempotent(s: Seq<char>)
    ensures
        normalize_spec(normalize_spec(s)) == normalize_spec(s),
{
    lemma_normalize_chars(s);
    lemma_normalize_fixed(normalize_spec(s));
}

} // verus!
