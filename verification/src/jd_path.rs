//! Johnny Decimal numbers read from where a document lies: from its file
//! name, `NN.MM Title.md` or `NN Title.md`, or else from the directories
//! above it, `NN Name` for a category and `NN-MM Name` for an area.

use crate::text::{
    all_digits, char_is_digit, chars_of, decimal_text, decimal_value, digit_value, find_char,
    is_digit, lemma_first_of, lemma_first_of_at, lemma_split_on_has_a_piece, parse_small_number,
    parse_u8, position_of, push_decimal, push_two_digits, same_chars, split_first, split_on,
    string_of, two_digit_text,
};
use vstd::prelude::*;
use vstd::slice::slice_subrange;

verus! {

/// Where a document was found: the path as text, and the name of the file
/// it ends in, where it has one that is valid text.
#[derive(Debug, PartialEq)]
pub struct SourcePath {
    pub text: String,
    pub file_name: Option<String>,
}

/// Where a document was found, as mathematical values.
pub struct SourcePathView {
    pub text: Seq<char>,
    pub file_name: Option<Seq<char>>,
}

impl View for SourcePath {
    type V = SourcePathView;

    open spec fn view(&self) -> SourcePathView {
        SourcePathView { text: self.text@, file_name: self.file_name.deep_view() }
    }
}

impl DeepView for SourcePath {
    type V = SourcePathView;

    open spec fn deep_view(&self) -> SourcePathView {
        self.view()
    }
}

impl Clone for SourcePath {
    fn clone(&self) -> (r: Self)
        ensures
            r@ == self@,
    {
        SourcePath {
            text: self.text.clone(),
            file_name: match &self.file_name {
                Some(name) => Some(name.clone()),
                None => None,
            },
        }
    }
}

/// The id of the area whose decade holds `category`.
pub open spec fn area_of(category: u8) -> u8 {
    ((category / 10) * 10) as u8
}

/// The category and the item that a file name gives when it is read as
/// `category.item`: the category is the number before the first dot, which
/// stands at the third character or later, and the item the number between
/// that dot and the first space after it (or the end). Neither where the
/// name has no such dot or no number before it.
pub open spec fn dotted_ids(name: Seq<char>) -> (Option<u8>, Option<u8>) {
    match find_char(name, '.') {
        Some(dot) => {
            if dot >= 2 {
                match parse_u8(name.take(dot)) {
                    Some(category) => {
                        let after = name.skip(dot + 1);
                        let item_text = match find_char(after, ' ') {
                            Some(space) => after.take(space),
                            None => after,
                        };
                        (Some(category), parse_u8(item_text))
                    },
                    None => (None, None),
                }
            } else {
                (None, None)
            }
        },
        None => (None, None),
    }
}

/// The category that a file name gives when it is read as `category title`:
/// the number before the first space, which stands at the second character
/// or later, whatever dots follow.
pub open spec fn spaced_category(name: Seq<char>) -> Option<u8> {
    match find_char(name, ' ') {
        Some(space) => if space >= 1 {
            parse_u8(name.take(space))
        } else {
            None
        },
        None => None,
    }
}

/// The category and the item that a file name gives. It is read as
/// `category.item` first; where that gives no category, it is read as
/// `category title`, which gives no item.
pub open spec fn ids_in_file_name(name: Seq<char>) -> (Option<u8>, Option<u8>) {
    let dotted = dotted_ids(name);
    if dotted.0 is Some {
        dotted
    } else {
        (spaced_category(name), None)
    }
}

/// The number of up to three characters that opens `part` and ends before
/// the first `mark`.
pub open spec fn leading_number(part: Seq<char>, mark: char) -> Option<u8> {
    match find_char(part, mark) {
        Some(at) => if 1 <= at <= 3 {
            parse_u8(part.take(at))
        } else {
            None
        },
        None => None,
    }
}

/// The category that a directory name `NN Name` gives: a number that is
/// not a multiple of ten.
pub open spec fn category_in_part(part: Seq<char>) -> Option<u8> {
    match leading_number(part, ' ') {
        Some(n) => if n % 10 != 0 {
            Some(n)
        } else {
            None
        },
        None => None,
    }
}

/// The area that a directory name `NN-MM Name` gives: a number that is a
/// multiple of ten, a hyphen, a second number and a space.
pub open spec fn area_in_part(part: Seq<char>) -> Option<u8> {
    match find_char(part, '-') {
        Some(at) => {
            if 1 <= at <= 3 && leading_number(part.skip(at + 1), ' ') is Some {
                match parse_u8(part.take(at)) {
                    Some(n) => if n % 10 == 0 {
                        Some(n)
                    } else {
                        None
                    },
                    None => None,
                }
            } else {
                None
            }
        },
        None => None,
    }
}

/// The area and the category that the first telling directory of a path
/// gives: a category with its area, or an area alone. The last component
/// is no directory where it is the name of the file.
pub open spec fn ids_in_parts(parts: Seq<Seq<char>>, file_name: Option<Seq<char>>) -> (
    Option<u8>,
    Option<u8>,
)
    decreases parts.len(),
{
    if parts.len() == 0 {
        (None, None)
    } else if parts.len() == 1 && file_name == Some(parts[0]) {
        (None, None)
    } else {
        match category_in_part(parts[0]) {
            Some(category) => (Some(area_of(category)), Some(category)),
            None => match area_in_part(parts[0]) {
                Some(area) => (Some(area), None),
                None => ids_in_parts(parts.drop_first(), file_name),
            },
        }
    }
}

/// The area, the category and the item that a path gives. The file name
/// decides where it gives a category; else the directories of the path are
/// searched from the first on, and no item is known.
pub open spec fn jd_info(path: SourcePathView) -> (Option<u8>, Option<u8>, Option<u8>) {
    let named = match path.file_name {
        Some(name) => ids_in_file_name(name),
        None => (None, None),
    };
    match named.0 {
        Some(category) => (Some(area_of(category)), Some(category), named.1),
        None => {
            let found = ids_in_parts(split_on(path.text, '/', '\\'), path.file_name);
            (found.0, found.1, None)
        },
    }
}

fn read_dotted(name: &[char]) -> (r: (Option<u8>, Option<u8>))
    ensures
        r == dotted_ids(name@),
{
    match position_of(name, '.') {
        Some(dot) => {
            if dot >= 2 {
                proof {
                    lemma_first_of(name@, '.', '.');
                }
                assert(dot < name.len());
                let head = slice_subrange(name, 0, dot);
                match parse_small_number(head) {
                    Some(category) => {
                        let after = slice_subrange(name, dot + 1, name.len());
                        let item_text = match position_of(after, ' ') {
                            Some(space) => {
                                proof {
                                    lemma_first_of(after@, ' ', ' ');
                                }
                                slice_subrange(after, 0, space)
                            },
                            None => after,
                        };
                        (Some(category), parse_small_number(item_text))
                    },
                    None => (None, None),
                }
            } else {
                (None, None)
            }
        },
        None => (None, None),
    }
}

fn read_spaced(name: &[char]) -> (r: Option<u8>)
    ensures
        r == spaced_category(name@),
{
    match position_of(name, ' ') {
        Some(space) => {
            if space >= 1 {
                proof {
                    lemma_first_of(name@, ' ', ' ');
                }
                parse_small_number(slice_subrange(name, 0, space))
            } else {
                None
            }
        },
        None => None,
    }
}

fn read_file_name(name: &[char]) -> (r: (Option<u8>, Option<u8>))
    ensures
        r == ids_in_file_name(name@),
{
    let dotted = read_dotted(name);
    if dotted.0.is_some() {
        dotted
    } else {
        (read_spaced(name), None)
    }
}

fn read_leading_number(part: &[char], mark: char) -> (r: Option<u8>)
    ensures
        r == leading_number(part@, mark),
{
    match position_of(part, mark) {
        Some(at) => {
            if 1 <= at && at <= 3 {
                proof {
                    lemma_first_of(part@, mark, mark);
                }
                let head = slice_subrange(part, 0, at);
                parse_small_number(head)
            } else {
                None
            }
        },
        None => None,
    }
}

fn read_area(part: &[char]) -> (r: Option<u8>)
    ensures
        r == area_in_part(part@),
{
    match position_of(part, '-') {
        Some(at) => {
            if 1 <= at && at <= 3 {
                proof {
                    lemma_first_of(part@, '-', '-');
                }
                assert(at < part.len());
                let behind = slice_subrange(part, at + 1, part.len());
                if read_leading_number(behind, ' ').is_none() {
                    return None;
                }
                match parse_small_number(slice_subrange(part, 0, at)) {
                    Some(n) => if n % 10 == 0 {
                        Some(n)
                    } else {
                        None
                    },
                    None => None,
                }
            } else {
                None
            }
        },
        None => None,
    }
}

fn read_parts(text: &[char], file_name: &Option<Vec<char>>) -> (r: (Option<u8>, Option<u8>))
    ensures
        r == ids_in_parts(split_on(text@, '/', '\\'), file_name.deep_view()),
{
    let ghost name = file_name.deep_view();
    let mut rest: &[char] = text;
    loop
        invariant
            name == file_name.deep_view(),
            ids_in_parts(split_on(text@, '/', '\\'), name) == ids_in_parts(
                split_on(rest@, '/', '\\'),
                name,
            ),
        decreases rest@.len(),
    {
        let (part, next) = split_first(rest, '/', '\\');
        let ghost tail = match next {
            Some(following) => split_on(following@, '/', '\\'),
            None => Seq::empty(),
        };
        proof {
            assert((seq![part@] + tail).drop_first() == tail);
            match next {
                Some(following) => {
                    lemma_split_on_has_a_piece(following@, '/', '\\');
                },
                None => {},
            }
        }
        let is_file = match (&next, file_name) {
            (None, Some(own)) => {
                assert(own.deep_view() =~= own@);
                same_chars(part, own.as_slice())
            },
            _ => false,
        };
        if is_file {
            return (None, None);
        }
        match read_leading_number(part, ' ') {
            Some(n) => {
                if n % 10 != 0 {
                    return (Some((n / 10) * 10), Some(n));
                }
            },
            None => {},
        }
        match read_area(part) {
            Some(n) => {
                return (Some(n), None);
            },
            None => {},
        }
        match next {
            Some(following) => {
                rest = following;
            },
            None => {
                assert(ids_in_parts(tail, name) == (None::<u8>, None::<u8>));
                return (None, None);
            },
        }
    }
}

/// The area, the category and the item to which a path points, in that
/// order; each is `None` where the path does not give it.
pub fn extract_jd_info_from_path(path: &SourcePath) -> (r: (Option<u8>, Option<u8>, Option<u8>))
    ensures
        r == jd_info(path@),
{
    let file_name = match &path.file_name {
        Some(name) => Some(chars_of(name.as_str())),
        None => None,
    };
    assert(file_name.deep_view() =~= path@.file_name);
    let named = match &file_name {
        Some(name) => read_file_name(name.as_slice()),
        None => (None, None),
    };
    match named.0 {
        Some(category) => (Some((category / 10) * 10), Some(category), named.1),
        None => {
            let chars = chars_of(path.text.as_str());
            let found = read_parts(chars.as_slice(), &file_name);
            (found.0, found.1, None)
        },
    }
}

/// The first five characters of a file name that opens with `NN.MM`, each
/// letter a digit. Empty for any other name.
pub open spec fn identifier_prefix(name: Seq<char>) -> Seq<char> {
    if name.len() >= 5 && is_digit(name[0]) && is_digit(name[1]) && name[2] == '.' && is_digit(
        name[3],
    ) && is_digit(name[4]) {
        name.take(5)
    } else {
        Seq::empty()
    }
}

/// The identifier under which a document is shown: `category.item`, the
/// item in two digits, where both are known; the category alone where the
/// item is not; else the `NN.MM` that opens the file name, if one does.
pub open spec fn identifier_text(
    category: Option<u8>,
    item: Option<u8>,
    file_name: Option<Seq<char>>,
) -> Seq<char> {
    match category {
        Some(c) => match item {
            Some(i) => decimal_text(c as nat) + seq!['.'] + two_digit_text(i as nat),
            None => decimal_text(c as nat),
        },
        None => match file_name {
            Some(name) => identifier_prefix(name),
            None => Seq::empty(),
        },
    }
}

fn read_identifier_prefix<'a>(name: &'a [char]) -> (r: &'a [char])
    ensures
        r@ == identifier_prefix(name@),
{
    if name.len() >= 5 && char_is_digit(name[0]) && char_is_digit(name[1]) && name[2] == '.'
        && char_is_digit(name[3]) && char_is_digit(name[4]) {
        slice_subrange(name, 0, 5)
    } else {
        slice_subrange(name, 0, 0)
    }
}

/// The display identifier of a document, from the category and the item
/// that its path gives and from its file name.
pub fn jd_identifier(category: Option<u8>, item: Option<u8>, file_name: &Option<String>) -> (r:
    String)
    ensures
        r@ == identifier_text(category, item, file_name.deep_view()),
{
    match category {
        Some(c) => {
            let mut out: Vec<char> = Vec::new();
            push_decimal(&mut out, c as u32);
            match item {
                Some(i) => {
                    out.push('.');
                    push_two_digits(&mut out, i);
                },
                None => {},
            }
            string_of(out.as_slice())
        },
        None => match file_name {
            Some(name) => {
                let chars = chars_of(name.as_str());
                let prefix = read_identifier_prefix(chars.as_slice());
                string_of(prefix)
            },
            None => String::new(),
        },
    }
}

/// The number that two digits write.
pub open spec fn two_digit_number(tens: char, units: char) -> u8 {
    (digit_value(tens) * 10 + digit_value(units)) as u8
}

proof fn lemma_two_digits_parse(text: Seq<char>)
    requires
        text.len() == 2,
        is_digit(text[0]),
        is_digit(text[1]),
    ensures
        parse_u8(text) == Some(two_digit_number(text[0], text[1])),
{
    reveal_with_fuel(decimal_value, 3);
    assert(text.drop_last() =~= seq![text[0]]);
    assert(seq![text[0]].drop_last() =~= Seq::<char>::empty());
    assert(seq![text[0]].last() == text[0]);
    assert(decimal_value(text) == digit_value(text[0]) * 10 + digit_value(text[1]));
    assert(all_digits(text));
}

/// A file name that opens with `NN.MM `, each letter a digit, gives the
/// category `NN`, the item `MM` and the area of the category's decade,
/// whatever follows and wherever the file lies.
pub proof fn lemma_numbered_file_name(path: SourcePathView)
    requires
        path.file_name is Some,
        path.file_name.unwrap().len() >= 6,
        is_digit(path.file_name.unwrap()[0]),
        is_digit(path.file_name.unwrap()[1]),
        path.file_name.unwrap()[2] == '.',
        is_digit(path.file_name.unwrap()[3]),
        is_digit(path.file_name.unwrap()[4]),
        path.file_name.unwrap()[5] == ' ',
    ensures
        ({
            let name = path.file_name.unwrap();
            let category = two_digit_number(name[0], name[1]);
            let item = two_digit_number(name[3], name[4]);
            jd_info(path) == (Some(area_of(category)), Some(category), Some(item))
        }),
{
    let name = path.file_name.unwrap();
    lemma_first_of_at(name, '.', '.', 2);
    let head = name.take(2);
    lemma_two_digits_parse(head);
    let after = name.skip(3);
    assert(after[0] == name[3] && after[1] == name[4] && after[2] == name[5]);
    lemma_first_of_at(after, ' ', ' ', 2);
    let item_text = after.take(2);
    lemma_two_digits_parse(item_text);
}

/// A file name that opens with `NN `, each letter a digit, gives the
/// category `NN` and the area of its decade, and no item: whatever follows
/// the space, the ending of the name too, and wherever the file lies.
pub proof fn lemma_titled_file_name(path: SourcePathView)
    requires
        path.file_name is Some,
        path.file_name.unwrap().len() >= 3,
        is_digit(path.file_name.unwrap()[0]),
        is_digit(path.file_name.unwrap()[1]),
        path.file_name.unwrap()[2] == ' ',
    ensures
        ({
            let name = path.file_name.unwrap();
            let category = two_digit_number(name[0], name[1]);
            jd_info(path) == (Some(area_of(category)), Some(category), None::<u8>)
        }),
{
    let name = path.file_name.unwrap();
    lemma_first_of(name, '.', '.');
    match find_char(name, '.') {
        Some(dot) => {
            if dot >= 2 {
                let head = name.take(dot);
                assert(head[2] == ' ');
                assert(!is_digit(head[2]));
                assert(head[0] != '+');
                assert(parse_u8(head) is None);
            }
        },
        None => {},
    }
    lemma_first_of_at(name, ' ', ' ', 2);
    lemma_two_digits_parse(name.take(2));
}

/// A file name that opens with `NN.MM` is read as category and item: the
/// last resort of the identifier never has to speak for such a name.
pub proof fn lemma_identifier_prefix_is_read(name: Seq<char>)
    requires
        identifier_prefix(name).len() > 0,
    ensures
        ids_in_file_name(name).0 == Some(two_digit_number(name[0], name[1])),
{
    lemma_first_of_at(name, '.', '.', 2);
    lemma_two_digits_parse(name.take(2));
}

} // verus!
