//! The metadata block that may open a document, and what is read from a
//! document that has none.

use crate::text::{
    all_whitespace, chars_of, find, find_char, is_text, is_whitespace, join, lemma_find_at,
    lemma_split_join, lemma_trim_padded, lemma_trim_start_padded, lines, parse_small_number,
    parse_u8, position_of, position_of_text, split, split_first, starts_with, string_of,
    take_line, trim, trim_start, trimmed, trimmed_start,
};
use vstd::prelude::*;
use vstd::slice::slice_subrange;

verus! {

/// What a document's metadata block says.
#[derive(Debug, PartialEq)]
pub struct FrontMatter {
    pub title: String,
    pub date: Option<String>,
    pub tags: Vec<String>,
    pub draft: bool,
    pub area_id: Option<u8>,
    pub category_id: Option<u8>,
    pub summary: Option<String>,
    pub related_articles: Vec<String>,
}

/// What a metadata block says, as mathematical values.
pub struct FrontMatterView {
    pub title: Seq<char>,
    pub date: Option<Seq<char>>,
    pub tags: Seq<Seq<char>>,
    pub draft: bool,
    pub area_id: Option<u8>,
    pub category_id: Option<u8>,
    pub summary: Option<Seq<char>>,
    pub related_articles: Seq<Seq<char>>,
}

impl View for FrontMatter {
    type V = FrontMatterView;

    open spec fn view(&self) -> FrontMatterView {
        FrontMatterView {
            title: self.title@,
            date: self.date.deep_view(),
            tags: self.tags.deep_view(),
            draft: self.draft,
            area_id: self.area_id,
            category_id: self.category_id,
            summary: self.summary.deep_view(),
            related_articles: self.related_articles.deep_view(),
        }
    }
}

impl DeepView for FrontMatter {
    type V = FrontMatterView;

    open spec fn deep_view(&self) -> FrontMatterView {
        self.view()
    }
}

/// Whether `s` has at least two characters, the first and the last being `q`.
pub open spec fn is_wrapped_in(s: Seq<char>, q: char) -> bool {
    s.len() >= 2 && s[0] == q && s.last() == q
}

/// `s` without one layer of matching double or single quotes around it.
pub open spec fn unquote(s: Seq<char>) -> Seq<char> {
    if is_wrapped_in(s, '"') || is_wrapped_in(s, '\'') {
        s.subrange(1, s.len() - 1)
    } else {
        s
    }
}

/// One element of a bracketed list: trimmed, then unquoted.
pub open spec fn list_item(piece: Seq<char>) -> Seq<char> {
    unquote(trim(piece))
}

/// Each piece as a list element.
pub open spec fn clean_items(pieces: Seq<Seq<char>>) -> Seq<Seq<char>> {
    pieces.map_values(|p: Seq<char>| list_item(p))
}

/// The elements of a list written as `[a, b, c]`: the pieces between the
/// commas, each trimmed and unquoted; none where the brackets hold nothing
/// but whitespace. `None` for a value that is not in brackets.
pub open spec fn list_items(value: Seq<char>) -> Option<Seq<Seq<char>>> {
    if value.len() > 0 && value[0] == '[' && value.last() == ']' {
        let inner = value.subrange(1, value.len() - 1);
        if trim(inner).len() == 0 {
            Some(Seq::empty())
        } else {
            Some(clean_items(split(inner, ',')))
        }
    } else {
        None
    }
}

/// The elements of a list, or none where the value is no list.
pub open spec fn list_or_empty(value: Seq<char>) -> Seq<Seq<char>> {
    match list_items(value) {
        Some(items) => items,
        None => Seq::empty(),
    }
}

/// The lower-case form of an ASCII capital; any other character unchanged.
pub open spec fn ascii_lower(c: char) -> char {
    if 0x41 <= c as u32 <= 0x5A {
        ((c as u32) + 0x20) as char
    } else {
        c
    }
}

/// Whether `value` reads "true", in capitals or small letters.
pub open spec fn is_true(value: Seq<char>) -> bool {
    &&& value.len() == 4
    &&& ascii_lower(value[0]) == 't'
    &&& ascii_lower(value[1]) == 'r'
    &&& ascii_lower(value[2]) == 'u'
    &&& ascii_lower(value[3]) == 'e'
}

/// The metadata before any line is read.
pub open spec fn empty_front_matter() -> FrontMatterView {
    FrontMatterView {
        title: Seq::empty(),
        date: None,
        tags: Seq::empty(),
        draft: false,
        area_id: None,
        category_id: None,
        summary: None,
        related_articles: Seq::empty(),
    }
}

/// The key of a line of the block: what stands before its first colon,
/// trimmed. `None` for a line without a colon.
pub open spec fn line_key(raw: Seq<char>) -> Option<Seq<char>> {
    let line = trim(raw);
    match find_char(line, ':') {
        Some(at) => Some(trim(line.take(at))),
        None => None,
    }
}

/// The value of a line of the block: what stands behind its first colon,
/// trimmed and unquoted.
pub open spec fn line_value(raw: Seq<char>) -> Seq<char> {
    let line = trim(raw);
    match find_char(line, ':') {
        Some(at) => unquote(trim(line.skip(at + 1))),
        None => Seq::empty(),
    }
}

/// The metadata with the field that `key` names set from `value`. A key
/// that is not known changes nothing; a number that cannot be read unsets
/// its field; a list that is not in brackets empties its field.
pub open spec fn with_field(fm: FrontMatterView, key: Seq<char>, value: Seq<char>)
    -> FrontMatterView {
    if key == "title"@ {
        FrontMatterView { title: value, ..fm }
    } else if key == "date"@ {
        FrontMatterView { date: Some(value), ..fm }
    } else if key == "draft"@ {
        FrontMatterView { draft: is_true(value), ..fm }
    } else if key == "area_id"@ {
        FrontMatterView { area_id: parse_u8(value), ..fm }
    } else if key == "category_id"@ {
        FrontMatterView { category_id: parse_u8(value), ..fm }
    } else if key == "summary"@ {
        FrontMatterView { summary: Some(value), ..fm }
    } else if key == "tags"@ {
        FrontMatterView { tags: list_or_empty(value), ..fm }
    } else if key == "related_articles"@ {
        FrontMatterView { related_articles: list_or_empty(value), ..fm }
    } else {
        fm
    }
}

/// The metadata after one more line of the block. A line is `key: value`,
/// split at its first colon; a line without a colon changes nothing.
pub open spec fn apply_line(fm: FrontMatterView, raw: Seq<char>) -> FrontMatterView {
    match line_key(raw) {
        Some(key) => with_field(fm, key, line_value(raw)),
        None => fm,
    }
}

/// The metadata after the given lines, read in order.
pub open spec fn apply_lines(fm: FrontMatterView, block: Seq<Seq<char>>) -> FrontMatterView
    decreases block.len(),
{
    if block.len() == 0 {
        fm
    } else {
        apply_lines(apply_line(fm, block[0]), block.drop_first())
    }
}

/// The delimiter that opens `text`, if one does.
pub open spec fn opening_delimiter(text: Seq<char>) -> Option<Seq<char>> {
    if "---"@.is_prefix_of(text) {
        Some("---"@)
    } else if "+++"@.is_prefix_of(text) {
        Some("+++"@)
    } else {
        None
    }
}

/// The metadata block and the body of a document that opens, after leading
/// whitespace, with a delimiter that occurs once more: what stands between
/// the two, and what follows the second, both trimmed.
pub open spec fn front_matter_parts(content: Seq<char>) -> Option<(Seq<char>, Seq<char>)> {
    let text = trim_start(content);
    match opening_delimiter(text) {
        None => None,
        Some(delimiter) => {
            let rest = text.skip(delimiter.len() as int);
            match find(rest, delimiter) {
                None => None,
                Some(at) => Some((trim(rest.take(at)), trim(rest.skip(at + delimiter.len())))),
            }
        },
    }
}

/// The text of the first line that opens with "# ", trimmed.
pub open spec fn heading_title(text_lines: Seq<Seq<char>>) -> Option<Seq<char>>
    decreases text_lines.len(),
{
    if text_lines.len() == 0 {
        None
    } else if "# "@.is_prefix_of(text_lines[0]) {
        Some(trim(text_lines[0].skip("# "@.len() as int)))
    } else {
        heading_title(text_lines.drop_first())
    }
}

/// The title of a document that gives none.
pub const UNTITLED: &'static str = "Untitled";

/// The title of a document whose metadata gives none: that of its first
/// heading, or "Untitled" where there is no heading or it is empty.
pub open spec fn fallback_title(body: Seq<char>) -> Seq<char> {
    match heading_title(lines(body)) {
        Some(title) => if title.len() > 0 {
            title
        } else {
            UNTITLED@
        },
        None => UNTITLED@,
    }
}

/// What `parse_front_matter` returns: `None` for a document without a
/// complete metadata block, else the metadata and the body.
pub open spec fn parsed_front_matter(content: Seq<char>) -> Option<(FrontMatterView, Seq<char>)> {
    match front_matter_parts(content) {
        None => None,
        Some((block, body)) => {
            let fm = apply_lines(empty_front_matter(), lines(block));
            if fm.title.len() == 0 {
                Some((FrontMatterView { title: fallback_title(body), ..fm }, body))
            } else {
                Some((fm, body))
            }
        },
    }
}

/// The first line that, trimmed, is neither empty nor a heading; trimmed.
/// Empty where there is no such line.
pub open spec fn first_paragraph(text_lines: Seq<Seq<char>>) -> Seq<char>
    decreases text_lines.len(),
{
    if text_lines.len() == 0 {
        Seq::empty()
    } else {
        let line = trim(text_lines[0]);
        if line.len() > 0 && line[0] != '#' {
            line
        } else {
            first_paragraph(text_lines.drop_first())
        }
    }
}

/// The longest summary kept whole, in characters.
pub const SUMMARY_LIMIT: usize = 150;

/// `text`, cut to its first 150 characters and followed by "..." where it
/// is longer.
pub open spec fn truncated(text: Seq<char>) -> Seq<char> {
    if text.len() > SUMMARY_LIMIT {
        text.take(SUMMARY_LIMIT as int) + "..."@
    } else {
        text
    }
}

/// The title and the summary read from a document's text.
pub open spec fn title_and_summary(content: Seq<char>) -> (Seq<char>, Seq<char>) {
    let text_lines = lines(content);
    (
        match heading_title(text_lines) {
            Some(title) => title,
            None => UNTITLED@,
        },
        truncated(first_paragraph(text_lines)),
    )
}

/// `s` without one layer of matching quotes around it.
pub fn unquoted<'a>(s: &'a [char]) -> (r: &'a [char])
    ensures
        r@ == unquote(s@),
{
    let n = s.len();
    if n >= 2 && ((s[0] == '"' && s[n - 1] == '"') || (s[0] == '\'' && s[n - 1] == '\'')) {
        slice_subrange(s, 1, n - 1)
    } else {
        s
    }
}

proof fn lemma_clean_items_concat(a: Seq<Seq<char>>, b: Seq<Seq<char>>)
    ensures
        clean_items(a + b) == clean_items(a) + clean_items(b),
{
    assert(clean_items(a + b) =~= clean_items(a) + clean_items(b));
}

/// Reads a list written as `[a, b, c]`.
pub fn parse_list(value: &[char]) -> (r: Option<Vec<String>>)
    ensures
        r.deep_view() == list_items(value@),
{
    let n = value.len();
    if n == 0 || value[0] != '[' || value[n - 1] != ']' {
        return None;
    }
    let inner = slice_subrange(value, 1, n - 1);
    let mut out: Vec<String> = Vec::new();
    if trimmed(inner).len() == 0 {
        assert(out.deep_view() =~= Seq::<Seq<char>>::empty());
        return Some(out);
    }
    let mut rest: &[char] = inner;
    let mut done = false;
    assert(Seq::<Seq<char>>::empty() + clean_items(split(inner@, ',')) == clean_items(
        split(inner@, ','),
    ));
    while !done
        invariant
            !done ==> clean_items(split(inner@, ',')) == out.deep_view() + clean_items(
                split(rest@, ','),
            ),
            done ==> clean_items(split(inner@, ',')) == out.deep_view(),
        decreases
                if done {
                    0
                } else {
                    rest@.len() + 1
                },
    {
        let (piece, next) = split_first(rest, ',', ',');
        let item = string_of(unquoted(trimmed(piece)));
        out.push(item);
        let ghost tail = match next {
            Some(following) => split(following@, ','),
            None => Seq::empty(),
        };
        proof {
            lemma_clean_items_concat(seq![piece@], tail);
        }
        match next {
            Some(following) => {
                rest = following;
            },
            None => {
                done = true;
            },
        }
    }
    Some(out)
}

/// Reads a list written as `[a, b, c]`; a value that is no list gives none.
pub fn parse_list_or_empty(value: &[char]) -> (r: Vec<String>)
    ensures
        r.deep_view() == list_or_empty(value@),
{
    match parse_list(value) {
        Some(items) => items,
        None => {
            let out: Vec<String> = Vec::new();
            assert(out.deep_view() =~= Seq::<Seq<char>>::empty());
            out
        },
    }
}

fn lowered(c: char) -> (r: char)
    ensures
        r == ascii_lower(c),
{
    let n: u32 = c as u32;
    if 0x41 <= n && n <= 0x5A {
        ((n + 0x20) as u8) as char
    } else {
        c
    }
}

/// Whether `value` reads "true", in capitals or small letters.
pub fn reads_true(value: &[char]) -> (r: bool)
    ensures
        r == is_true(value@),
{
    value.len() == 4 && lowered(value[0]) == 't' && lowered(value[1]) == 'r' && lowered(value[2])
        == 'u' && lowered(value[3]) == 'e'
}

/// Reads one line of a metadata block into `fm`.
pub fn read_line(fm: FrontMatter, raw: &[char]) -> (r: FrontMatter)
    ensures
        r@ == apply_line(fm@, raw@),
{
    let line = trimmed(raw);
    match position_of(line, ':') {
        None => fm,
        Some(at) => {
            proof {
                crate::text::lemma_first_of(line@, ':', ':');
            }
            assert(at < line.len());
            let key = trimmed(slice_subrange(line, 0, at));
            let value = unquoted(trimmed(slice_subrange(line, at + 1, line.len())));
            assert(key@ == trim(line@.take(at as int)));
            assert(value@ == unquote(trim(line@.skip(at + 1))));
            let mut out = fm;
            if is_text(key, "title") {
                out.title = string_of(value);
            } else if is_text(key, "date") {
                out.date = Some(string_of(value));
            } else if is_text(key, "draft") {
                out.draft = reads_true(value);
            } else if is_text(key, "area_id") {
                out.area_id = parse_small_number(value);
            } else if is_text(key, "category_id") {
                out.category_id = parse_small_number(value);
            } else if is_text(key, "summary") {
                out.summary = Some(string_of(value));
            } else if is_text(key, "tags") {
                out.tags = parse_list_or_empty(value);
            } else if is_text(key, "related_articles") {
                out.related_articles = parse_list_or_empty(value);
            }
            out
        },
    }
}

/// Reads the lines of a metadata block into `fm`, in order.
pub fn read_block(fm: FrontMatter, block: &[char]) -> (r: FrontMatter)
    ensures
        r@ == apply_lines(fm@, lines(block@)),
{
    let mut out = fm;
    let mut rest: &[char] = block;
    while rest.len() > 0
        invariant
            apply_lines(fm@, lines(block@)) == apply_lines(out@, lines(rest@)),
        decreases rest@.len(),
    {
        let (line, next) = take_line(rest);
        assert((seq![line@] + lines(next@)).drop_first() == lines(next@));
        out = read_line(out, line);
        rest = next;
    }
    out
}

/// The trimmed text of the first line of `text` that opens with "# ".
pub fn find_heading_title<'a>(text: &'a [char]) -> (r: Option<&'a [char]>)
    ensures
        match r {
            Some(title) => heading_title(lines(text@)) == Some(title@),
            None => heading_title(lines(text@)) is None,
        },
{
    let marker = chars_of("# ");
    let mut rest: &[char] = text;
    while rest.len() > 0
        invariant
            marker@ == "# "@,
            heading_title(lines(text@)) == heading_title(lines(rest@)),
        decreases rest@.len(),
    {
        let (line, next) = take_line(rest);
        assert((seq![line@] + lines(next@)).drop_first() == lines(next@));
        if starts_with(line, marker.as_slice()) {
            return Some(trimmed(slice_subrange(line, marker.len(), line.len())));
        }
        rest = next;
    }
    None
}

/// The first line of `text` that, trimmed, is neither empty nor a heading.
pub fn find_first_paragraph<'a>(text: &'a [char]) -> (r: &'a [char])
    ensures
        r@ == first_paragraph(lines(text@)),
{
    let mut rest: &[char] = text;
    while rest.len() > 0
        invariant
            first_paragraph(lines(text@)) == first_paragraph(lines(rest@)),
        decreases rest@.len(),
    {
        let (line, next) = take_line(rest);
        assert((seq![line@] + lines(next@)).drop_first() == lines(next@));
        let candidate = trimmed(line);
        if candidate.len() > 0 && candidate[0] != '#' {
            return candidate;
        }
        rest = next;
    }
    rest
}

/// `text` as a summary: whole up to 150 characters, else cut and marked.
pub fn truncate_summary(text: &[char]) -> (r: String)
    ensures
        r@ == truncated(text@),
{
    if text.len() > SUMMARY_LIMIT {
        let mut out = string_of(slice_subrange(text, 0, SUMMARY_LIMIT));
        out.append("...");
        out
    } else {
        string_of(text)
    }
}

/// The title and the summary of a document without metadata: the text of
/// its first heading ("Untitled" without one), and its first paragraph, cut
/// to 150 characters.
pub fn extract_title_and_summary(content: &str) -> (r: (String, String))
    ensures
        r.0@ == title_and_summary(content@).0,
        r.1@ == title_and_summary(content@).1,
{
    let text = chars_of(content);
    let title = match find_heading_title(text.as_slice()) {
        Some(found) => string_of(found),
        None => UNTITLED.to_owned(),
    };
    let summary = truncate_summary(find_first_paragraph(text.as_slice()));
    (title, summary)
}

/// Splits a document into its metadata block and its body.
pub fn split_front_matter<'a>(text: &'a [char]) -> (r: Option<(&'a [char], &'a [char])>)
    ensures
        match r {
            Some((block, body)) => front_matter_parts(text@) == Some((block@, body@)),
            None => front_matter_parts(text@) is None,
        },
{
    let start = trimmed_start(text);
    let dashes = chars_of("---");
    let pluses = chars_of("+++");
    let delimiter = if starts_with(start, dashes.as_slice()) {
        dashes
    } else if starts_with(start, pluses.as_slice()) {
        pluses
    } else {
        return None;
    };
    let rest = slice_subrange(start, delimiter.len(), start.len());
    match position_of_text(rest, delimiter.as_slice()) {
        None => None,
        Some(at) => {
            proof {
                crate::text::lemma_find(rest@, delimiter@);
            }
            let block = trimmed(slice_subrange(rest, 0, at));
            let body = trimmed(slice_subrange(rest, at + delimiter.len(), rest.len()));
            Some((block, body))
        },
    }
}

/// Reads the metadata block that opens a document. `None` where the text
/// does not open with `---` or `+++`, or where the delimiter does not occur
/// a second time; else the metadata and the body that follows the block.
/// Nothing in a block is an error: a line that cannot be read changes
/// nothing, and a document without a title gets that of its first heading,
/// or "Untitled".
pub fn parse_front_matter(content: &str) -> (r: Option<(FrontMatter, String)>)
    ensures
        r.deep_view() == parsed_front_matter(content@),
{
    let text = chars_of(content);
    match split_front_matter(text.as_slice()) {
        None => None,
        Some((block, body)) => {
            let empty = FrontMatter {
                title: String::new(),
                date: None,
                tags: Vec::new(),
                draft: false,
                area_id: None,
                category_id: None,
                summary: None,
                related_articles: Vec::new(),
            };
            assert(empty.tags.deep_view() =~= Seq::<Seq<char>>::empty());
            assert(empty.related_articles.deep_view() =~= Seq::<Seq<char>>::empty());
            let mut fm = read_block(empty, block);
            if fm.title.as_str().is_empty() {
                fm.title = match find_heading_title(body) {
                    Some(found) => if found.len() > 0 {
                        string_of(found)
                    } else {
                        UNTITLED.to_owned()
                    },
                    None => UNTITLED.to_owned(),
                };
            }
            Some((fm, string_of(body)))
        },
    }
}

/// How an element of a list is written.
pub enum Quoting {
    Bare,
    Single,
    Double,
}

/// `item` in the given quoting.
pub open spec fn quoted(item: Seq<char>, quoting: Quoting) -> Seq<char> {
    match quoting {
        Quoting::Bare => item,
        Quoting::Single => seq!['\''] + item + seq!['\''],
        Quoting::Double => seq!['"'] + item + seq!['"'],
    }
}

/// Whether `item` can be written without quotes: it neither begins nor
/// ends with whitespace, and is not itself wrapped in quotes.
pub open spec fn is_plain(item: Seq<char>) -> bool {
    &&& item.len() > 0 ==> !is_whitespace(item[0]) && !is_whitespace(item.last())
    &&& !is_wrapped_in(item, '"')
    &&& !is_wrapped_in(item, '\'')
}

/// An element reads the same in every quoting, whatever whitespace stands
/// around it: quoted, any text; bare, a plain one.
pub proof fn lemma_list_item_in_any_quoting(
    item: Seq<char>,
    quoting: Quoting,
    left: Seq<char>,
    right: Seq<char>,
)
    requires
        all_whitespace(left),
        all_whitespace(right),
        quoting is Bare ==> is_plain(item),
    ensures
        list_item(left + quoted(item, quoting) + right) == item,
{
    let core = quoted(item, quoting);
    match quoting {
        Quoting::Bare => {
            lemma_trim_padded(left, core, right);
        },
        Quoting::Single => {
            assert(core[0] == '\'' && core.last() == '\'');
            lemma_trim_padded(left, core, right);
            assert(core.subrange(1, core.len() - 1) =~= item);
        },
        Quoting::Double => {
            assert(core[0] == '"' && core.last() == '"');
            lemma_trim_padded(left, core, right);
            assert(core.subrange(1, core.len() - 1) =~= item);
        },
    }
}

/// A bracketed list reads as its items, however each of them is quoted:
/// where piece `i` writes item `i` and holds no comma, and the brackets
/// hold more than whitespace, the list of the pieces reads as the list of
/// the items.
pub proof fn lemma_list_items_regardless_of_quoting(
    items: Seq<Seq<char>>,
    pieces: Seq<Seq<char>>,
)
    requires
        pieces.len() == items.len(),
        pieces.len() >= 1,
        trim(join(pieces, ',')).len() > 0,
        forall|i: int| 0 <= i < pieces.len() ==> !(#[trigger] pieces[i]).contains(','),
        forall|i: int| 0 <= i < pieces.len() ==> list_item(#[trigger] pieces[i]) == items[i],
    ensures
        list_items(seq!['['] + join(pieces, ',') + seq![']']) == Some(items),
{
    let value = seq!['['] + join(pieces, ',') + seq![']'];
    assert(value[0] == '[');
    assert(value.last() == ']');
    assert(value.subrange(1, value.len() - 1) =~= join(pieces, ','));
    lemma_split_join(pieces, ',');
    assert(clean_items(pieces) =~= items);
}

/// "true" is read in capitals and in small letters, mixed at will, and
/// nothing else is.
pub proof fn lemma_is_true_in_any_case(value: Seq<char>)
    ensures
        is_true(value) <==> {
            &&& value.len() == 4
            &&& (value[0] == 't' || value[0] == 'T')
            &&& (value[1] == 'r' || value[1] == 'R')
            &&& (value[2] == 'u' || value[2] == 'U')
            &&& (value[3] == 'e' || value[3] == 'E')
        },
{
    if value.len() == 4 {
        lemma_ascii_lower_is(value[0], 't', 'T');
        lemma_ascii_lower_is(value[1], 'r', 'R');
        lemma_ascii_lower_is(value[2], 'u', 'U');
        lemma_ascii_lower_is(value[3], 'e', 'E');
    }
}

proof fn lemma_ascii_lower_is(c: char, small: char, capital: char)
    requires
        0x61 <= small as u32 <= 0x7A,
        capital as u32 + 0x20 == small as u32,
    ensures
        ascii_lower(c) == small <==> (c == small || c == capital),
{
}

/// A line with another key leaves the draft mark as it was.
pub proof fn lemma_draft_kept_by_other_lines(fm: FrontMatterView, block: Seq<Seq<char>>)
    requires
        forall|j: int| 0 <= j < block.len() ==> line_key(#[trigger] block[j]) != Some("draft"@),
    ensures
        apply_lines(fm, block).draft == fm.draft,
    decreases block.len(),
{
    if block.len() > 0 {
        let rest = block.drop_first();
        assert forall|j: int| 0 <= j < rest.len() implies line_key(#[trigger] rest[j]) != Some(
            "draft"@,
        ) by {
            assert(rest[j] == block[j + 1]);
        }
        assert(line_key(block[0]) != Some("draft"@));
        lemma_draft_kept_by_other_lines(apply_line(fm, block[0]), rest);
    }
}

/// The last line with the key `draft` decides whether the document is a
/// draft: it is one exactly when that line reads "true", in any case.
pub proof fn lemma_last_draft_line_decides(fm: FrontMatterView, block: Seq<Seq<char>>, k: int)
    requires
        0 <= k < block.len(),
        line_key(block[k]) == Some("draft"@),
        forall|j: int| k < j < block.len() ==> line_key(#[trigger] block[j]) != Some("draft"@),
    ensures
        apply_lines(fm, block).draft == is_true(line_value(block[k])),
    decreases block.len(),
{
    let rest = block.drop_first();
    if k == 0 {
        reveal_strlit("draft");
        reveal_strlit("title");
        reveal_strlit("date");
        assert("draft"@ != "title"@) by {
            assert("draft"@[0] != "title"@[0]);
        }
        assert("draft"@ != "date"@) by {
            assert("draft"@.len() != "date"@.len());
        }
        assert forall|j: int| 0 <= j < rest.len() implies line_key(#[trigger] rest[j]) != Some(
            "draft"@,
        ) by {
            assert(rest[j] == block[j + 1]);
        }
        lemma_draft_kept_by_other_lines(apply_line(fm, block[0]), rest);
    } else {
        assert(rest[k - 1] == block[k]);
        assert forall|j: int| k - 1 < j < rest.len() implies line_key(#[trigger] rest[j])
            != Some("draft"@) by {
            assert(rest[j] == block[j + 1]);
        }
        lemma_last_draft_line_decides(apply_line(fm, block[0]), rest, k - 1);
    }
}

/// Lines with another key leave the tags as they were.
pub proof fn lemma_tags_kept_by_other_lines(fm: FrontMatterView, block: Seq<Seq<char>>)
    requires
        forall|j: int| 0 <= j < block.len() ==> line_key(#[trigger] block[j]) != Some("tags"@),
    ensures
        apply_lines(fm, block).tags == fm.tags,
    decreases block.len(),
{
    if block.len() > 0 {
        let rest = block.drop_first();
        assert forall|j: int| 0 <= j < rest.len() implies line_key(#[trigger] rest[j]) != Some(
            "tags"@,
        ) by {
            assert(rest[j] == block[j + 1]);
        }
        assert(line_key(block[0]) != Some("tags"@));
        lemma_tags_kept_by_other_lines(apply_line(fm, block[0]), rest);
    }
}

/// The last line with the key `tags` decides the tags: they are the items
/// of its list, and none where its value is no list.
pub proof fn lemma_last_tags_line_decides(fm: FrontMatterView, block: Seq<Seq<char>>, k: int)
    requires
        0 <= k < block.len(),
        line_key(block[k]) == Some("tags"@),
        forall|j: int| k < j < block.len() ==> line_key(#[trigger] block[j]) != Some("tags"@),
    ensures
        apply_lines(fm, block).tags == list_or_empty(line_value(block[k])),
    decreases block.len(),
{
    let rest = block.drop_first();
    if k == 0 {
        reveal_strlit("tags");
        reveal_strlit("title");
        reveal_strlit("date");
        reveal_strlit("draft");
        reveal_strlit("area_id");
        reveal_strlit("category_id");
        reveal_strlit("summary");
        assert("tags"@ != "title"@) by {
            assert("tags"@.len() != "title"@.len());
        }
        assert("tags"@ != "date"@) by {
            assert("tags"@[0] != "date"@[0]);
        }
        assert("tags"@ != "draft"@) by {
            assert("tags"@.len() != "draft"@.len());
        }
        assert("tags"@ != "area_id"@) by {
            assert("tags"@.len() != "area_id"@.len());
        }
        assert("tags"@ != "category_id"@) by {
            assert("tags"@.len() != "category_id"@.len());
        }
        assert("tags"@ != "summary"@) by {
            assert("tags"@.len() != "summary"@.len());
        }
        assert forall|j: int| 0 <= j < rest.len() implies line_key(#[trigger] rest[j]) != Some(
            "tags"@,
        ) by {
            assert(rest[j] == block[j + 1]);
        }
        lemma_tags_kept_by_other_lines(apply_line(fm, block[0]), rest);
    } else {
        assert(rest[k - 1] == block[k]);
        assert forall|j: int| k - 1 < j < rest.len() implies line_key(#[trigger] rest[j])
            != Some("tags"@) by {
            assert(rest[j] == block[j + 1]);
        }
        lemma_last_tags_line_decides(apply_line(fm, block[0]), rest, k - 1);
    }
}

/// The lines of the metadata block of a document; none where it has no
/// block.
pub open spec fn block_lines(content: Seq<char>) -> Seq<Seq<char>> {
    match front_matter_parts(content) {
        Some(parts) => lines(parts.0),
        None => Seq::empty(),
    }
}

/// What a document's metadata block decides on tags and draft mark. Where
/// line `k` of the block is the last one with the key `draft`, the document
/// is a draft exactly when that line reads "true"; where it is the last one
/// with the key `tags`, the tags are the items of its list.
pub proof fn lemma_parsed_draft_and_tags(content: Seq<char>, k: int)
    requires
        0 <= k < block_lines(content).len(),
    ensures
        match parsed_front_matter(content) {
            Some(parsed) => {
                let block = block_lines(content);
                let fm = parsed.0;
                &&& (line_key(block[k]) == Some("draft"@) && (forall|j: int|
                    k < j < block.len() ==> line_key(#[trigger] block[j]) != Some("draft"@)))
                    ==> fm.draft == is_true(line_value(block[k]))
                &&& (line_key(block[k]) == Some("tags"@) && (forall|j: int|
                    k < j < block.len() ==> line_key(#[trigger] block[j]) != Some("tags"@)))
                    ==> fm.tags == list_or_empty(line_value(block[k]))
            },
            None => false,
        },
{
    let block = block_lines(content);
    if line_key(block[k]) == Some("draft"@) && (forall|j: int|
        k < j < block.len() ==> line_key(#[trigger] block[j]) != Some("draft"@)) {
        lemma_last_draft_line_decides(empty_front_matter(), block, k);
    }
    if line_key(block[k]) == Some("tags"@) && (forall|j: int|
        k < j < block.len() ==> line_key(#[trigger] block[j]) != Some("tags"@)) {
        lemma_last_tags_line_decides(empty_front_matter(), block, k);
    }
}

/// A document written as a delimiter, a block, the same delimiter and a
/// body, after any whitespace, is read as that block and that body, both
/// trimmed: provided that the delimiter does not show up before the end of
/// the block.
pub proof fn lemma_parts_of_document(
    padding: Seq<char>,
    delimiter: Seq<char>,
    block: Seq<char>,
    body: Seq<char>,
)
    requires
        all_whitespace(padding),
        delimiter == "---"@ || delimiter == "+++"@,
        forall|j: int|
            0 <= j < block.len() ==> !delimiter.is_prefix_of(
                #[trigger] (block + delimiter).skip(j),
            ),
    ensures
        front_matter_parts(padding + delimiter + block + delimiter + body) == Some(
            (trim(block), trim(body)),
        ),
{
    reveal_strlit("---");
    reveal_strlit("+++");
    let text = delimiter + block + delimiter + body;
    let content = padding + delimiter + block + delimiter + body;
    assert(content =~= padding + text);
    assert(text[0] == delimiter[0]);
    lemma_trim_start_padded(padding, text);
    assert(delimiter.is_prefix_of(text)) by {
        assert(text.subrange(0, delimiter.len() as int) =~= delimiter);
    }
    if delimiter == "+++"@ {
        assert(!"---"@.is_prefix_of(text)) by {
            if "---"@.is_prefix_of(text) {
                assert(text.subrange(0, 3)[0] == "---"@[0]);
            }
        }
    }
    assert(opening_delimiter(text) == Some(delimiter));
    let rest = text.skip(delimiter.len() as int);
    assert(rest =~= block + delimiter + body);
    let k = block.len() as int;
    assert(rest.skip(k) =~= delimiter + body);
    assert(delimiter.is_prefix_of(rest.skip(k))) by {
        assert(rest.skip(k).subrange(0, delimiter.len() as int) =~= delimiter);
    }
    assert forall|j: int| 0 <= j < k implies !delimiter.is_prefix_of(#[trigger] rest.skip(j)) by {
        let inner = (block + delimiter).skip(j);
        if delimiter.is_prefix_of(rest.skip(j)) {
            assert(inner.subrange(0, delimiter.len() as int) =~= rest.skip(j).subrange(
                0,
                delimiter.len() as int,
            ));
            assert(delimiter.is_prefix_of(inner));
        }
    }
    lemma_find_at(rest, delimiter, k);
    assert(rest.take(k) =~= block);
    assert(rest.skip(k + delimiter.len()) =~= body);
}

} // verus!
