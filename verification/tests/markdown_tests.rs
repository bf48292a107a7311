use tylerharpool_blog::markdown::{
    basic_markdown_to_html, html_escape, markdown_to_html, process_inline_formatting,
    process_obsidian_links, process_obsidian_syntax, process_wiki_links, replace_bold,
    replace_italic, replace_markdown_links,
};

#[test]
fn wiki_links_become_markdown_links() {
    assert_eq!(
        process_wiki_links("See [[My Note]] and [[Other Page|the other]]!"),
        "See [My Note](/notes/my-note) and [the other](/notes/other-page)!"
    );
    assert_eq!(process_wiki_links("broken [[link"), "broken [[link");
    assert_eq!(process_wiki_links("no links"), "no links");
    assert_eq!(process_wiki_links("[[a]][[b]]"), "[a](/notes/a)[b](/notes/b)");
    assert_eq!(process_wiki_links(""), "");
}

#[test]
fn every_line_ends_in_a_line_feed() {
    assert_eq!(process_obsidian_syntax("a\n[[B c]]"), "a\n[B c](/notes/b-c)\n");
    assert_eq!(process_obsidian_syntax("a\r\nb\n"), "a\nb\n");
    assert_eq!(process_obsidian_syntax(""), "");
}

#[test]
fn rendering_goes_through_the_renderer() {
    assert_eq!(
        markdown_to_html("# Title\n\nSee [[My Note]] and ~~this~~."),
        "<h1>Title</h1>\n<p>See <a href=\"/notes/my-note\">My Note</a> and <del>this</del>.</p>\n"
    );
}

#[test]
fn escaping() {
    assert_eq!(
        html_escape("<a href=\"x\">T&C's</a>"),
        "&lt;a href=&quot;x&quot;&gt;T&amp;C&#39;s&lt;/a&gt;"
    );
    assert_eq!(html_escape("plain"), "plain");
}

#[test]
fn bold_and_italic() {
    assert_eq!(replace_bold("a **b** c **d"), "a <strong>b</strong> c <strong>d</strong>");
    assert_eq!(replace_bold("*"), "*");
    assert_eq!(replace_italic("a *b* c"), "a <em>b</em> c");
    assert_eq!(replace_italic("**x**"), "**x**");
    assert_eq!(replace_italic("***x*"), "**<em>x</em>");
    assert_eq!(replace_italic("*open"), "<em>open</em>");
}

#[test]
fn obsidian_links_become_anchors() {
    assert_eq!(process_obsidian_links("x [[A B]] y"), "x <a href=\"/notes/a-b\">A B</a> y");
    assert_eq!(process_obsidian_links("[[T|shown]]"), "<a href=\"/notes/t\">shown</a>");
    assert_eq!(
        process_obsidian_links("[[a]][[b]]"),
        "<a href=\"/notes/a\">a</a><a href=\"/notes/b\">b</a>"
    );
    assert_eq!(process_obsidian_links("[[[a]] b"), "<a href=\"/notes/[a\">[a</a> b");
    assert_eq!(process_obsidian_links("[[open"), "[[open");
    assert_eq!(process_obsidian_links("none"), "none");
}

#[test]
fn markdown_links_become_anchors() {
    assert_eq!(replace_markdown_links("[t](u)"), "<a href=\"u\">t</a>");
    assert_eq!(replace_markdown_links("ab[t](u)cd"), "ab<a href=\"u\">t</a>cd");
    assert_eq!(
        replace_markdown_links("[a](b)[c](d) [e]"),
        "<a href=\"b\">a</a><a href=\"d\">c</a> [e]"
    );
    assert_eq!(replace_markdown_links("[t](open"), "[t](open");
    assert_eq!(replace_markdown_links(""), "");
    assert_eq!(replace_markdown_links("[a [b]](u(v))"), "<a href=\"u(v)\">a [b]</a>");
    assert_eq!(replace_markdown_links("[t] (u)"), "[t] (u)");
    assert_eq!(replace_markdown_links("plain"), "plain");
}

#[test]
fn inline_formatting_in_order() {
    assert_eq!(
        process_inline_formatting("**b** & [t](u)"),
        "<strong>b</strong> &amp; <a href=\"u\">t</a>"
    );
    assert_eq!(process_inline_formatting("a < *b*"), "a &lt; <em>b</em>");
}

#[test]
fn basic_renderer() {
    let text = "# One\n## Two\n### Three\n* a\n- b\n\ntext\n```\n  code\n\n```\n\n- last";
    let html = "<h1>One</h1>\n<h2>Two</h2>\n<h3>Three</h3>\n<ul>\n<li>a</li>\n<li>b</li>\n</ul>\n<p>text</p>\n<pre><code>\n  code\n\n</code></pre>\n<br />\n<ul>\n<li>last</li>\n</ul>\n";
    assert_eq!(basic_markdown_to_html(text), html);
    assert_eq!(basic_markdown_to_html(""), "");
    assert_eq!(basic_markdown_to_html("```\nopen"), "<pre><code>\nopen\n</code></pre>\n");
}
