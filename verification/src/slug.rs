//! The slug under which a document is addressed, made from its title.

use crate::text::{chars_of, string_of};
use vstd::prelude::*;

verus! {

/// Whether Unicode counts `c` as a letter or a number.
pub uninterp spec fn char_is_alphanumeric(c: char) -> bool;

/// The lower-case mapping of `c`: one character or more.
pub uninterp spec fn char_lowercase(c: char) -> Seq<char>;

/// `char::is_alphanumeric`: true for the characters that Unicode classes as
/// alphabetic or numeric; the answer depends on the character alone.
pub assume_specification[ char::is_alphanumeric ](c: char) -> (r: bool)
    ensures
        r == char_is_alphanumeric(c),
;

/// `char::to_lowercase`: the characters that the iterator yields, which are
/// the lower-case mapping of `c` and at least one.
#[verifier::external_body]
fn lowercase_of(c: char) -> (r: Vec<char>)
    ensures
        r@ == char_lowercase(c),
        r@.len() >= 1,
{
    c.to_lowercase().collect()
}

/// What a character of the title gives to the slug, from what Unicode says
/// of it: a letter or a number gives the first character of its lower-case
/// mapping, a space gives a hyphen, anything else nothing.
pub open spec fn slug_piece_from(c: char, alphanumeric: bool, lowercase: Seq<char>) -> Option<
    char,
> {
    if alphanumeric {
        if lowercase.len() > 0 {
            Some(lowercase[0])
        } else {
            None
        }
    } else if c == ' ' {
        Some('-')
    } else {
        None
    }
}

/// What a character of the title gives to the slug.
pub open spec fn slug_piece(c: char) -> Option<char> {
    slug_piece_from(c, char_is_alphanumeric(c), char_lowercase(c))
}

/// The slug of a title: what each of its characters gives, in order.
pub open spec fn slug_of(title: Seq<char>) -> Seq<char>
    decreases title.len(),
{
    if title.len() == 0 {
        Seq::empty()
    } else {
        match slug_piece(title.last()) {
            Some(c) => slug_of(title.drop_last()).push(c),
            None => slug_of(title.drop_last()),
        }
    }
}

/// What a character of the title gives to the slug, given whether it is a
/// letter or a number and what its lower-case mapping is.
pub fn slug_char(c: char, alphanumeric: bool, lowercase: &[char]) -> (r: Option<char>)
    ensures
        r == slug_piece_from(c, alphanumeric, lowercase@),
{
    if alphanumeric {
        if lowercase.len() > 0 {
            Some(lowercase[0])
        } else {
            None
        }
    } else if c == ' ' {
        Some('-')
    } else {
        None
    }
}

/// The slug of a title: its letters and numbers in lower case, a hyphen for
/// each space, every other character dropped. An empty title has an empty
/// slug.
pub fn slug_from_title(title: &str) -> (r: String)
    ensures
        r@ == slug_of(title@),
{
    let chars = chars_of(title);
    let mut out: Vec<char> = Vec::new();
    let mut i: usize = 0;
    while i < chars.len()
        invariant
            i <= chars.len(),
            out@ == slug_of(chars@.take(i as int)),
        decreases chars.len() - i,
    {
        let c = chars[i];
        assert(chars@.take(i + 1).drop_last() == chars@.take(i as int));
        let alphanumeric = c.is_alphanumeric();
        let lowercase = if alphanumeric {
            lowercase_of(c)
        } else {
            Vec::new()
        };
        match slug_char(c, alphanumeric, lowercase.as_slice()) {
            Some(piece) => {
                out.push(piece);
            },
            None => {},
        }
        i += 1;
    }
    assert(chars@.take(chars.len() as int) == chars@);
    string_of(out.as_slice())
}

/// The slug is made character by character: that of two texts written one
/// after the other is the two slugs written one after the other, and the
/// empty title has the empty slug. No slug is longer than its title.
pub proof fn lemma_slug_of_concat(first: Seq<char>, second: Seq<char>)
    ensures
        slug_of(first + second) == slug_of(first) + slug_of(second),
        slug_of(Seq::empty()) == Seq::<char>::empty(),
        slug_of(first).len() <= first.len(),
    decreases second.len(), first.len(),
{
    if second.len() == 0 {
        assert(first + second =~= first);
        assert(slug_of(first) + slug_of(second) =~= slug_of(first));
    } else {
        lemma_slug_of_concat(first, second.drop_last());
        assert((first + second).drop_last() =~= first + second.drop_last());
        assert((first + second).last() == second.last());
        match slug_piece(second.last()) {
            Some(c) => {
                assert(slug_of(first) + slug_of(second.drop_last()).push(c) =~= (slug_of(first)
                    + slug_of(second.drop_last())).push(c));
            },
            None => {},
        }
    }
    if first.len() > 0 {
        lemma_slug_of_concat(first.drop_last(), Seq::empty());
    }
}

} // verus!
