//! Markdown: the wiki links of Obsidian rewritten as ordinary links, and
//! the rendering to HTML.

use crate::text::{
    append_chars, chars_of, find, find_char, lemma_find, lemma_first_of, lines,
    lowercase_of_text, lowercase_text, position_of, position_of_text, starts_with, string_of,
    take_line, trim, trimmed,
};
use pulldown_cmark::{html, Options, Parser};
use vstd::prelude::*;
use vstd::slice::slice_subrange;

verus! {

/// The HTML that `pulldown_cmark` renders from a markdown text, with the
/// extensions for strikethrough, tables, footnotes and task lists switched
/// on or off.
pub uninterp spec fn rendered_html(
    markdown: Seq<char>,
    strikethrough: bool,
    tables: bool,
    footnotes: bool,
    tasklists: bool,
) -> Seq<char>;

/// `pulldown_cmark::Parser::new_ext` on the text, with the four options set
/// as given, and `pulldown_cmark::html::push_html` on its events: the HTML
/// is a function of the text and the options alone.
#[verifier::external_body]
fn render_html(markdown: &str, strikethrough: bool, tables: bool, footnotes: bool, tasklists: bool)
    -> (r: String)
    ensures
        r@ == rendered_html(markdown@, strikethrough, tables, footnotes, tasklists),
{
    let mut options = Options::empty();
    options.set(Options::ENABLE_STRIKETHROUGH, strikethrough);
    options.set(Options::ENABLE_TABLES, tables);
    options.set(Options::ENABLE_FOOTNOTES, footnotes);
    options.set(Options::ENABLE_TASKLISTS, tasklists);
    let mut out = String::new();
    html::push_html(&mut out, Parser::new_ext(markdown, options));
    out
}

/// `text` with a hyphen in place of each space.
pub open spec fn hyphenated(text: Seq<char>) -> Seq<char> {
    text.map_values(|c: char| if c == ' ' {
        '-'
    } else {
        c
    })
}

/// The address of the note that a wiki link names: the name in lower case,
/// hyphens for spaces.
pub open spec fn note_address(target: Seq<char>) -> Seq<char> {
    lowercase_text(hyphenated(target))
}

/// What a wiki link shows, and the note that it names: `target|display`,
/// or one text that is both.
pub open spec fn link_parts(content: Seq<char>) -> (Seq<char>, Seq<char>) {
    match find_char(content, '|') {
        Some(at) => (content.skip(at + 1), content.take(at)),
        None => (content, content),
    }
}

/// The markdown link for what shows and the address it leads to.
pub open spec fn markdown_link(display: Seq<char>, address: Seq<char>) -> Seq<char> {
    seq!['['] + display + seq![']', '(', '/', 'n', 'o', 't', 'e', 's', '/'] + address + seq![')']
}

/// `line` with each wiki link `[[target]]` or `[[target|display]]`
/// rewritten as a link to `/notes/` and the note's address: as an HTML link
/// where `as_html` is set, else as a markdown link. An opening `[[` that is
/// never closed stays as it is.
pub open spec fn rewritten_links(line: Seq<char>, as_html: bool) -> Seq<char>
    decreases line.len(),
{
    match find(line, seq!['[', '[']) {
        Some(start) => {
            if 0 <= start && start + 2 <= line.len() {
                let after = line.skip(start + 2);
                match find(after, seq![']', ']']) {
                    Some(end) => {
                        if 0 <= end && end + 2 <= after.len() {
                            let content = after.take(end);
                            line.take(start) + (if as_html {
                                note_link(content)
                            } else {
                                markdown_link(
                                    link_parts(content).0,
                                    note_address(link_parts(content).1),
                                )
                            }) + rewritten_links(after.skip(end + 2), as_html)
                        } else {
                            line
                        }
                    },
                    None => line,
                }
            } else {
                line
            }
        },
        None => line,
    }
}

/// `line` with its wiki links rewritten as markdown links.
pub open spec fn wiki_links(line: Seq<char>) -> Seq<char> {
    rewritten_links(line, false)
}

/// `text` with its wiki links rewritten as HTML links.
pub open spec fn obsidian_links(text: Seq<char>) -> Seq<char> {
    rewritten_links(text, true)
}

/// The text with the wiki links of each line rewritten, every line ended
/// by a line feed.
pub open spec fn obsidian_syntax(text_lines: Seq<Seq<char>>) -> Seq<char>
    decreases text_lines.len(),
{
    if text_lines.len() == 0 {
        Seq::empty()
    } else {
        wiki_links(text_lines[0]) + seq!['\n'] + obsidian_syntax(text_lines.drop_first())
    }
}

fn append_text(out: &mut Vec<char>, text: &str)
    ensures
        final(out)@ == old(out)@ + text@,
{
    let chars = chars_of(text);
    append_chars(out, chars.as_slice());
}

/// The address of the note that a wiki link names.
pub fn note_address_of(target: &[char]) -> (r: Vec<char>)
    ensures
        r@ == note_address(target@),
{
    let mut dashed: Vec<char> = Vec::new();
    let mut i: usize = 0;
    while i < target.len()
        invariant
            i <= target.len(),
            dashed@ == hyphenated(target@).take(i as int),
        decreases target.len() - i,
    {
        let c = target[i];
        dashed.push(if c == ' ' {
            '-'
        } else {
            c
        });
        i += 1;
    }
    assert(hyphenated(target@).take(target.len() as int) =~= hyphenated(target@));
    let text = string_of(dashed.as_slice());
    chars_of(lowercase_of_text(text.as_str()).as_str())
}

/// Appends the markdown link for the content of a wiki link.
fn append_link(out: &mut Vec<char>, content: &[char])
    ensures
        final(out)@ == old(out)@ + markdown_link(
            link_parts(content@).0,
            note_address(link_parts(content@).1),
        ),
{
    let (display, target) = match position_of(content, '|') {
        Some(at) => {
            proof {
                lemma_first_of(content@, '|', '|');
            }
            assert(at < content.len());
            let shown = slice_subrange(content, at + 1, content.len());
            let named = slice_subrange(content, 0, at);
            (shown, named)
        },
        None => (content, content),
    };
    let address = note_address_of(target);
    out.push('[');
    append_chars(out, display);
    append_text(out, "](/notes/");
    append_chars(out, address.as_slice());
    out.push(')');
    proof {
        reveal_strlit("](/notes/");
    }
}

/// Rewrites the wiki links of a text, as HTML links or as markdown links.
fn rewrite_links(chars: &[char], as_html: bool) -> (r: Vec<char>)
    ensures
        r@ == rewritten_links(chars@, as_html),
{
    let opening = chars_of("[[");
    let closing = chars_of("]]");
    proof {
        reveal_strlit("[[");
        reveal_strlit("]]");
    }
    let mut out: Vec<char> = Vec::new();
    let mut rest: &[char] = chars;
    let mut done = false;
    while !done
        invariant
            opening@ == seq!['[', '['],
            closing@ == seq![']', ']'],
            !done ==> rewritten_links(chars@, as_html) == out@ + rewritten_links(rest@, as_html),
            done ==> rewritten_links(chars@, as_html) == out@,
        decreases
                if done {
                    0
                } else {
                    rest@.len() + 1
                },
    {
        let ghost before = out@;
        let found = match position_of_text(rest, opening.as_slice()) {
            Some(start) => {
                proof {
                    lemma_find(rest@, opening@);
                }
                assert(start + 2 <= rest.len());
                let after = slice_subrange(rest, start + 2, rest.len());
                match position_of_text(after, closing.as_slice()) {
                    Some(end) => {
                        proof {
                            lemma_find(after@, closing@);
                        }
                        Some((start, end))
                    },
                    None => None,
                }
            },
            None => None,
        };
        match found {
            Some((start, end)) => {
                let head = slice_subrange(rest, 0, start);
                let after = slice_subrange(rest, start + 2, rest.len());
                let content = slice_subrange(after, 0, end);
                let following = slice_subrange(after, end + 2, after.len());
                append_chars(&mut out, head);
                if as_html {
                    append_note_link(&mut out, content);
                } else {
                    append_link(&mut out, content);
                }
                assert(out@ + rewritten_links(following@, as_html) =~= before + rewritten_links(
                    rest@,
                    as_html,
                ));
                rest = following;
            },
            None => {
                append_chars(&mut out, rest);
                done = true;
            },
        }
    }
    out
}

/// Rewrites the wiki links of a line as markdown links.
pub fn process_wiki_links(line: &str) -> (r: String)
    ensures
        r@ == wiki_links(line@),
{
    let chars = chars_of(line);
    let out = rewrite_links(chars.as_slice(), false);
    string_of(out.as_slice())
}

/// Rewrites the wiki links of a text, line by line; every line of the
/// result ends in a line feed.
pub fn process_obsidian_syntax(content: &str) -> (r: String)
    ensures
        r@ == obsidian_syntax(lines(content@)),
{
    let chars = chars_of(content);
    let mut out = String::new();
    let mut rest: &[char] = chars.as_slice();
    while rest.len() > 0
        invariant
            obsidian_syntax(lines(chars@)) == out@ + obsidian_syntax(lines(rest@)),
        decreases rest@.len(),
    {
        let (line, next) = take_line(rest);
        assert((seq![line@] + lines(next@)).drop_first() == lines(next@));
        let text = string_of(line);
        let processed = process_wiki_links(text.as_str());
        out.append(processed.as_str());
        out.push('\n');
        rest = next;
    }
    out
}

/// Renders a markdown text to HTML, its wiki links rewritten first, with
/// strikethrough, tables, footnotes and task lists.
pub fn markdown_to_html(content: &str) -> (r: String)
    ensures
        r@ == rendered_html(obsidian_syntax(lines(content@)), true, true, true, true),
{
    let processed = process_obsidian_syntax(content);
    render_html(processed.as_str(), true, true, true, true)
}

/// What stands for a character in HTML text: an entity for `&`, `<`, `>`,
/// `"` and `'`, the character itself for any other.
pub open spec fn escaped_char(c: char) -> Seq<char> {
    if c == '&' {
        seq!['&', 'a', 'm', 'p', ';']
    } else if c == '<' {
        seq!['&', 'l', 't', ';']
    } else if c == '>' {
        seq!['&', 'g', 't', ';']
    } else if c == '"' {
        seq!['&', 'q', 'u', 'o', 't', ';']
    } else if c == '\'' {
        seq!['&', '#', '3', '9', ';']
    } else {
        seq![c]
    }
}

/// The text with each character escaped for HTML.
pub open spec fn escaped(text: Seq<char>) -> Seq<char>
    decreases text.len(),
{
    if text.len() == 0 {
        Seq::empty()
    } else {
        escaped(text.drop_last()) + escaped_char(text.last())
    }
}

fn append_escaped(out: &mut Vec<char>, c: char)
    ensures
        final(out)@ == old(out)@ + escaped_char(c),
{
    if c == '&' {
        append_text(out, "&amp;");
        proof {
            reveal_strlit("&amp;");
        }
    } else if c == '<' {
        append_text(out, "&lt;");
        proof {
            reveal_strlit("&lt;");
        }
    } else if c == '>' {
        append_text(out, "&gt;");
        proof {
            reveal_strlit("&gt;");
        }
    } else if c == '"' {
        append_text(out, "&quot;");
        proof {
            reveal_strlit("&quot;");
        }
    } else if c == '\'' {
        append_text(out, "&#39;");
        proof {
            reveal_strlit("&#39;");
        }
    } else {
        out.push(c);
    }
}

/// Escapes a text for HTML: `&`, `<`, `>`, `"` and `'` become entities.
pub fn html_escape(s: &str) -> (r: String)
    ensures
        r@ == escaped(s@),
{
    let chars = chars_of(s);
    let mut out: Vec<char> = Vec::new();
    let mut i: usize = 0;
    while i < chars.len()
        invariant
            i <= chars.len(),
            out@ == escaped(chars@.take(i as int)),
        decreases chars.len() - i,
    {
        assert(chars@.take(i + 1).drop_last() == chars@.take(i as int));
        append_escaped(&mut out, chars[i]);
        i += 1;
    }
    assert(chars@.take(chars.len() as int) == chars@);
    string_of(out.as_slice())
}

/// The tag that opens or closes an element.
pub open spec fn tag(name: Seq<char>, closing: bool) -> Seq<char> {
    if closing {
        seq!['<', '/'] + name + seq!['>']
    } else {
        seq!['<'] + name + seq!['>']
    }
}

/// `text` with each `**` replaced by a tag of `strong`, opening and closing
/// in turn; `open` says whether an element is open at the start. An element
/// left open at the end is closed.
pub open spec fn bold_from(text: Seq<char>, open: bool) -> Seq<char>
    decreases text.len(),
{
    if text.len() == 0 {
        if open {
            tag("strong"@, true)
        } else {
            Seq::empty()
        }
    } else if text.len() >= 2 && text[0] == '*' && text[1] == '*' {
        tag("strong"@, open) + bold_from(text.skip(2), !open)
    } else {
        seq![text[0]] + bold_from(text.drop_first(), open)
    }
}

/// `text` with each `*` that stands alone replaced by a tag of `em`,
/// opening and closing in turn; two `*` in a row stay as they are. `open`
/// says whether an element is open at the start. An element left open at
/// the end is closed.
pub open spec fn italic_from(text: Seq<char>, open: bool) -> Seq<char>
    decreases text.len(),
{
    if text.len() == 0 {
        if open {
            tag("em"@, true)
        } else {
            Seq::empty()
        }
    } else if text.len() >= 2 && text[0] == '*' && text[1] == '*' {
        seq!['*', '*'] + italic_from(text.skip(2), open)
    } else if text[0] == '*' {
        tag("em"@, open) + italic_from(text.drop_first(), !open)
    } else {
        seq![text[0]] + italic_from(text.drop_first(), open)
    }
}

fn append_tag(out: &mut Vec<char>, name: &str, closing: bool)
    ensures
        final(out)@ == old(out)@ + tag(name@, closing),
{
    out.push('<');
    if closing {
        out.push('/');
    }
    append_text(out, name);
    out.push('>');
}

/// Replaces each `**` by a tag of `strong`, opening and closing in turn.
pub fn replace_bold(text: &str) -> (r: String)
    ensures
        r@ == bold_from(text@, false),
{
    let chars = chars_of(text);
    let mut out: Vec<char> = Vec::new();
    let mut in_bold = false;
    let mut i: usize = 0;
    assert(chars@.skip(0) == chars@);
    while i < chars.len()
        invariant
            i <= chars.len(),
            bold_from(chars@, false) == out@ + bold_from(chars@.skip(i as int), in_bold),
        decreases chars.len() - i,
    {
        let ghost before = out@;
        let ghost rest = chars@.skip(i as int);
        if i + 1 < chars.len() && chars[i] == '*' && chars[i + 1] == '*' {
            assert(rest.skip(2) =~= chars@.skip(i + 2));
            append_tag(&mut out, "strong", in_bold);
            in_bold = !in_bold;
            i += 2;
        } else {
            assert(rest.drop_first() =~= chars@.skip(i + 1));
            out.push(chars[i]);
            i += 1;
        }
    }
    let ghost before = out@;
    if in_bold {
        append_tag(&mut out, "strong", true);
    }
    string_of(out.as_slice())
}

/// Replaces each `*` that stands alone by a tag of `em`, opening and
/// closing in turn.
pub fn replace_italic(text: &str) -> (r: String)
    ensures
        r@ == italic_from(text@, false),
{
    let chars = chars_of(text);
    let mut out: Vec<char> = Vec::new();
    let mut in_italic = false;
    let mut i: usize = 0;
    assert(chars@.skip(0) == chars@);
    while i < chars.len()
        invariant
            i <= chars.len(),
            italic_from(chars@, false) == out@ + italic_from(chars@.skip(i as int), in_italic),
        decreases chars.len() - i,
    {
        let ghost before = out@;
        let ghost rest = chars@.skip(i as int);
        assert(rest[0] == chars@[i as int]);
        assert(rest.drop_first() =~= chars@.skip(i + 1));
        if i + 1 < chars.len() {
            assert(rest[1] == chars@[i + 1]);
            assert(rest.skip(2) =~= chars@.skip(i + 2));
        }
        if chars[i] == '*' && i + 1 < chars.len() && chars[i + 1] == '*' {
            out.push('*');
            out.push('*');
            assert(before + (seq!['*', '*'] + italic_from(rest.skip(2), in_italic)) =~= out@
                + italic_from(rest.skip(2), in_italic));
            i += 2;
        } else if chars[i] == '*' {
            append_tag(&mut out, "em", in_italic);
            assert(before + (tag("em"@, in_italic) + italic_from(rest.drop_first(), !in_italic))
                =~= out@ + italic_from(rest.drop_first(), !in_italic));
            in_italic = !in_italic;
            i += 1;
        } else {
            out.push(chars[i]);
            assert(before + (seq![rest[0]] + italic_from(rest.drop_first(), in_italic)) =~= out@
                + italic_from(rest.drop_first(), in_italic));
            i += 1;
        }
    }
    let ghost before = out@;
    if in_italic {
        append_tag(&mut out, "em", true);
    }
    assert(out@ =~= before + italic_from(chars@.skip(chars.len() as int), in_italic));
    string_of(out.as_slice())
}

/// The HTML link for an address and what it shows.
pub open spec fn html_link(address: Seq<char>, display: Seq<char>) -> Seq<char> {
    seq!['<', 'a', ' ', 'h', 'r', 'e', 'f', '=', '"'] + address + seq!['"', '>'] + display + seq![
        '<',
        '/',
        'a',
        '>',
    ]
}

/// The HTML link for the content of a wiki link.
pub open spec fn note_link(content: Seq<char>) -> Seq<char> {
    html_link(
        seq!['/', 'n', 'o', 't', 'e', 's', '/'] + note_address(link_parts(content).1),
        link_parts(content).0,
    )
}

fn append_html_link(out: &mut Vec<char>, address: &[char], display: &[char])
    ensures
        final(out)@ == old(out)@ + html_link(address@, display@),
{
    append_text(out, "<a href=\"");
    append_chars(out, address);
    append_text(out, "\">");
    append_chars(out, display);
    append_text(out, "</a>");
    proof {
        reveal_strlit("<a href=\"");
        reveal_strlit("\">");
        reveal_strlit("</a>");
    }
}

fn append_note_link(out: &mut Vec<char>, content: &[char])
    ensures
        final(out)@ == old(out)@ + note_link(content@),
{
    let (display, target) = match position_of(content, '|') {
        Some(at) => {
            proof {
                lemma_first_of(content@, '|', '|');
            }
            assert(at < content.len());
            let shown = slice_subrange(content, at + 1, content.len());
            let named = slice_subrange(content, 0, at);
            (shown, named)
        },
        None => (content, content),
    };
    let mut address = chars_of("/notes/");
    proof {
        reveal_strlit("/notes/");
    }
    let note = note_address_of(target);
    append_chars(&mut address, note.as_slice());
    append_html_link(out, address.as_slice(), display);
}

/// Rewrites the wiki links of a text as HTML links to `/notes/` and the
/// note's address.
pub fn process_obsidian_links(text: &str) -> (r: String)
    ensures
        r@ == obsidian_links(text@),
{
    let chars = chars_of(text);
    let out = rewrite_links(chars.as_slice(), true);
    string_of(out.as_slice())
}

/// The position in `text` of the `close` that ends a group which is
/// `depth` levels deep at the start of `text`, each `open` going one level
/// deeper.
pub open spec fn matching_close(text: Seq<char>, open: char, close: char, depth: nat) -> Option<
    int,
>
    decreases text.len(),
{
    if text.len() == 0 || depth == 0 {
        None
    } else {
        let deeper: int = if text[0] == open {
            depth as int + 1
        } else if text[0] == close {
            depth - 1
        } else {
            depth as int
        };
        if deeper == 0 {
            Some(0)
        } else {
            match matching_close(text.drop_first(), open, close, deeper as nat) {
                Some(at) => Some(at + 1),
                None => None,
            }
        }
    }
}

fn find_matching_close(text: &[char], open: char, close: char) -> (r: Option<usize>)
    ensures
        match r {
            Some(at) => at < text.len() && matching_close(text@, open, close, 1) == Some(
                at as int,
            ),
            None => matching_close(text@, open, close, 1) is None,
        },
{
    // How many groups are open inside the one to be closed.
    let mut inner: usize = 0;
    let mut i: usize = 0;
    assert(text@.skip(0) == text@);
    while i < text.len()
        invariant
            i <= text.len(),
            inner <= i,
            matching_close(text@, open, close, 1) == match matching_close(
                text@.skip(i as int),
                open,
                close,
                (inner + 1) as nat,
            ) {
                Some(at) => Some(at + i),
                None => None,
            },
        decreases text.len() - i,
    {
        let ghost rest = text@.skip(i as int);
        assert(rest.drop_first() =~= text@.skip(i + 1));
        let c = text[i];
        if c == open {
            inner += 1;
        } else if c == close {
            if inner == 0 {
                return Some(i);
            }
            inner -= 1;
        }
        i += 1;
    }
    None
}

/// The markdown link that opens `text`, if one does: the position of the
/// bracket that closes its text, and that of the parenthesis that closes
/// its address. Brackets and parentheses may nest.
pub open spec fn link_at_start(text: Seq<char>) -> Option<(int, int)> {
    if text.len() > 0 && text[0] == '[' {
        match matching_close(text.skip(1), '[', ']', 1) {
            Some(at) => {
                let text_end = 1 + at;
                if at >= 0 && text_end + 1 < text.len() && text[text_end + 1] == '(' {
                    match matching_close(text.skip(text_end + 2), '(', ')', 1) {
                        Some(more) => if more >= 0 && text_end + 2 + more < text.len() {
                            Some((text_end, text_end + 2 + more))
                        } else {
                            None
                        },
                        None => None,
                    }
                } else {
                    None
                }
            },
            None => None,
        }
    } else {
        None
    }
}

/// `text` with each markdown link `[text](address)` rewritten as an HTML
/// link, and everything else as it is.
pub open spec fn markdown_links(text: Seq<char>) -> Seq<char>
    decreases text.len(),
{
    if text.len() == 0 {
        Seq::empty()
    } else {
        match link_at_start(text) {
            Some((text_end, url_end)) => {
                if 0 < url_end < text.len() {
                    html_link(text.subrange(text_end + 2, url_end), text.subrange(1, text_end))
                        + markdown_links(text.skip(url_end + 1))
                } else {
                    text
                }
            },
            None => seq![text[0]] + markdown_links(text.drop_first()),
        }
    }
}

fn find_link_at_start(text: &[char]) -> (r: Option<(usize, usize)>)
    ensures
        match r {
            Some((text_end, url_end)) => {
                &&& link_at_start(text@) == Some((text_end as int, url_end as int))
                &&& 0 < text_end
                &&& text_end + 2 <= url_end < text.len()
            },
            None => link_at_start(text@) is None,
        },
{
    if text.len() == 0 || text[0] != '[' {
        return None;
    }
    let after = slice_subrange(text, 1, text.len());
    match find_matching_close(after, '[', ']') {
        Some(at) => {
            let text_end = 1 + at;
            if text_end + 1 < text.len() && text[text_end + 1] == '(' {
                let address = slice_subrange(text, text_end + 2, text.len());
                match find_matching_close(address, '(', ')') {
                    Some(more) => Some((text_end, text_end + 2 + more)),
                    None => None,
                }
            } else {
                None
            }
        },
        None => None,
    }
}

/// Rewrites the markdown links of a text as HTML links.
pub fn replace_markdown_links(text: &str) -> (r: String)
    ensures
        r@ == markdown_links(text@),
{
    let chars = chars_of(text);
    let mut out: Vec<char> = Vec::new();
    let mut rest: &[char] = chars.as_slice();
    while rest.len() > 0
        invariant
            markdown_links(chars@) == out@ + markdown_links(rest@),
        decreases rest@.len(),
    {
        let ghost before = out@;
        match find_link_at_start(rest) {
            Some((text_end, url_end)) => {
                let shown = slice_subrange(rest, 1, text_end);
                let address = slice_subrange(rest, text_end + 2, url_end);
                let following = slice_subrange(rest, url_end + 1, rest.len());
                append_html_link(&mut out, address, shown);
                assert(out@ + markdown_links(following@) =~= before + markdown_links(rest@));
                rest = following;
            },
            None => {
                let following = slice_subrange(rest, 1, rest.len());
                assert(following@ == rest@.drop_first());
                out.push(rest[0]);
                assert(out@ + markdown_links(following@) =~= before + markdown_links(rest@));
                rest = following;
            },
        }
    }
    string_of(out.as_slice())
}

/// A text as inline HTML: escaped, then its markdown links, its `**` and
/// its `*` rewritten, in that order.
pub open spec fn inline_formatted(text: Seq<char>) -> Seq<char> {
    italic_from(bold_from(markdown_links(escaped(text)), false), false)
}

/// Formats a text as inline HTML.
pub fn process_inline_formatting(text: &str) -> (r: String)
    ensures
        r@ == inline_formatted(text@),
{
    let escaped_text = html_escape(text);
    let with_links = replace_markdown_links(escaped_text.as_str());
    let with_bold = replace_bold(with_links.as_str());
    replace_italic(with_bold.as_str())
}

/// Whether a list or a code block is open while a text is rendered line
/// by line.
pub struct Blocks {
    pub in_list: bool,
    pub in_code: bool,
}

/// `text` between two pieces of markup.
pub open spec fn wrapped(before: Seq<char>, text: Seq<char>, after: Seq<char>) -> Seq<char> {
    before + text + after
}

/// What the simple renderer writes for a line, and the blocks that are
/// open behind it. Trimmed, a line that opens with `# `, `## ` or `### `
/// is a heading; one that opens with `* ` or `- ` an item of a list, which
/// it opens if none is open; one that opens with three backticks opens or
/// closes a code block; an empty one closes the list, or else is a line
/// break, or an empty line inside code. Any other line is written as it is
/// inside code, and as a paragraph outside.
pub open spec fn basic_line(line: Seq<char>, blocks: Blocks) -> (Seq<char>, Blocks) {
    let t = trim(line);
    if "# "@.is_prefix_of(t) {
        (wrapped("<h1>"@, t.skip("# "@.len() as int), "</h1>\n"@), blocks)
    } else if "## "@.is_prefix_of(t) {
        (wrapped("<h2>"@, t.skip("## "@.len() as int), "</h2>\n"@), blocks)
    } else if "### "@.is_prefix_of(t) {
        (wrapped("<h3>"@, t.skip("### "@.len() as int), "</h3>\n"@), blocks)
    } else if "* "@.is_prefix_of(t) || "- "@.is_prefix_of(t) {
        let item = wrapped("<li>"@, t.skip("* "@.len() as int), "</li>\n"@);
        if blocks.in_list {
            (item, blocks)
        } else {
            ("<ul>\n"@ + item, Blocks { in_list: true, in_code: blocks.in_code })
        }
    } else if "```"@.is_prefix_of(t) {
        if blocks.in_code {
            ("</code></pre>\n"@, Blocks { in_list: blocks.in_list, in_code: false })
        } else {
            ("<pre><code>\n"@, Blocks { in_list: blocks.in_list, in_code: true })
        }
    } else if t.len() == 0 {
        if blocks.in_list {
            ("</ul>\n"@, Blocks { in_list: false, in_code: blocks.in_code })
        } else if blocks.in_code {
            ("\n"@, blocks)
        } else {
            ("<br />\n"@, blocks)
        }
    } else if blocks.in_code {
        (line + "\n"@, blocks)
    } else {
        (wrapped("<p>"@, line, "</p>\n"@), blocks)
    }
}

/// What the simple renderer writes for the lines, with the blocks that are
/// open before them; blocks left open at the end are closed, the list
/// first.
pub open spec fn basic_lines(text_lines: Seq<Seq<char>>, blocks: Blocks) -> Seq<char>
    decreases text_lines.len(),
{
    if text_lines.len() == 0 {
        (if blocks.in_list {
            "</ul>\n"@
        } else {
            Seq::empty()
        }) + (if blocks.in_code {
            "</code></pre>\n"@
        } else {
            Seq::empty()
        })
    } else {
        let written = basic_line(text_lines[0], blocks);
        written.0 + basic_lines(text_lines.drop_first(), written.1)
    }
}

fn append_wrapped(out: &mut Vec<char>, before: &str, text: &[char], after: &str)
    ensures
        final(out)@ == old(out)@ + wrapped(before@, text@, after@),
{
    append_text(out, before);
    append_chars(out, text);
    append_text(out, after);
}

fn opens_with(text: &[char], marker: &str) -> (r: bool)
    ensures
        r == marker@.is_prefix_of(text@),
{
    let m = chars_of(marker);
    starts_with(text, m.as_slice())
}

fn behind_marker<'a>(text: &'a [char], marker: &str) -> (r: &'a [char])
    requires
        marker@.is_prefix_of(text@),
    ensures
        r@ == text@.skip(marker@.len() as int),
{
    let m = chars_of(marker);
    slice_subrange(text, m.len(), text.len())
}

fn append_basic_line(out: &mut Vec<char>, line: &[char], blocks: Blocks) -> (r: Blocks)
    ensures
        final(out)@ == old(out)@ + basic_line(line@, blocks).0,
        r == basic_line(line@, blocks).1,
{
    let t = trimmed(line);
    if opens_with(t, "# ") {
        append_wrapped(out, "<h1>", behind_marker(t, "# "), "</h1>\n");
        blocks
    } else if opens_with(t, "## ") {
        append_wrapped(out, "<h2>", behind_marker(t, "## "), "</h2>\n");
        blocks
    } else if opens_with(t, "### ") {
        append_wrapped(out, "<h3>", behind_marker(t, "### "), "</h3>\n");
        blocks
    } else if opens_with(t, "* ") || opens_with(t, "- ") {
        proof {
            reveal_strlit("* ");
            reveal_strlit("- ");
        }
        let item = if opens_with(t, "* ") {
            behind_marker(t, "* ")
        } else {
            behind_marker(t, "- ")
        };
        let ghost before = out@;
        if !blocks.in_list {
            append_text(out, "<ul>\n");
        }
        append_wrapped(out, "<li>", item, "</li>\n");
        Blocks { in_list: true, in_code: blocks.in_code }
    } else if opens_with(t, "```") {
        if blocks.in_code {
            append_text(out, "</code></pre>\n");
            Blocks { in_list: blocks.in_list, in_code: false }
        } else {
            append_text(out, "<pre><code>\n");
            Blocks { in_list: blocks.in_list, in_code: true }
        }
    } else if t.len() == 0 {
        if blocks.in_list {
            append_text(out, "</ul>\n");
            Blocks { in_list: false, in_code: blocks.in_code }
        } else if blocks.in_code {
            append_text(out, "\n");
            blocks
        } else {
            append_text(out, "<br />\n");
            blocks
        }
    } else if blocks.in_code {
        let ghost before = out@;
        append_chars(out, line);
        append_text(out, "\n");
        blocks
    } else {
        append_wrapped(out, "<p>", line, "</p>\n");
        blocks
    }
}

/// Renders the small part of markdown that a page needs without a full
/// renderer: headings of three levels, flat lists, code blocks, line
/// breaks and paragraphs, line by line. Nothing is escaped.
pub fn basic_markdown_to_html(markdown: &str) -> (r: String)
    ensures
        r@ == basic_lines(lines(markdown@), Blocks { in_list: false, in_code: false }),
{
    let chars = chars_of(markdown);
    let mut out: Vec<char> = Vec::new();
    let mut blocks = Blocks { in_list: false, in_code: false };
    let mut rest: &[char] = chars.as_slice();
    while rest.len() > 0
        invariant
            basic_lines(lines(chars@), Blocks { in_list: false, in_code: false }) == out@
                + basic_lines(lines(rest@), blocks),
        decreases rest@.len(),
    {
        let ghost before = out@;
        let (line, next) = take_line(rest);
        assert((seq![line@] + lines(next@)).drop_first() == lines(next@));
        blocks = append_basic_line(&mut out, line, blocks);
        rest = next;
    }
    let ghost before = out@;
    if blocks.in_list {
        append_text(&mut out, "</ul>\n");
    }
    if blocks.in_code {
        append_text(&mut out, "</code></pre>\n");
    }
    string_of(out.as_slice())
}

} // verus!
