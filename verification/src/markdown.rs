//! Markdown documents: parsing, front matter, reading time, and rendering to HTML with
//! LaTeX equations turned into MathML.

use vstd::prelude::*;
use vstd::utf8::encode_utf8;

use comrak::nodes::NodeValue;
use comrak::nodes::NodeValue::{
    Code, CodeBlock, EscapedTag, FrontMatter, HtmlBlock, HtmlInline, Link, Math, ShortCode, Text,
};

use vstd::string::StrSliceExecFns;

use crate::text::{chars_of, is_white_space, utf8_length, white_space};

use latex::{latex_supported, supported_latex};

pub mod highlighter;
pub mod latex;

verus! {

/// `comrak::arena_tree::Node`, a node of a document tree; opaque here.
#[verifier::external_type_specification]
#[verifier::external_body]
#[verifier::reject_recursive_types(T)]
pub struct ExTreeNode<'a, T: 'a>(comrak::arena_tree::Node<'a, T>);

/// `std::cell::RefCell`, in which `comrak` keeps each node's data; opaque here.
#[verifier::external_type_specification]
#[verifier::external_body]
#[verifier::reject_recursive_types(T)]
pub struct ExRefCell<T: ?Sized>(std::cell::RefCell<T>);

/// `comrak::nodes::Ast`, the data of a document node; opaque here.
#[verifier::external_type_specification]
#[verifier::external_body]
pub struct ExAst(comrak::nodes::Ast);

/// `typed_arena::Arena`, the arena that `comrak` allocates document trees in; opaque here.
#[verifier::external_type_specification]
#[verifier::external_body]
#[verifier::reject_recursive_types(T)]
pub struct ExTypedArena<T>(typed_arena::Arena<T>);

/// `comrak::Options`, the options of parsing and rendering; opaque here.
#[verifier::external_type_specification]
#[verifier::external_body]
pub struct ExComrakOptions<'c>(comrak::Options<'c>);

/// `comrak::options::Render`, the render options; opaque here.
#[verifier::external_type_specification]
#[verifier::external_body]
pub struct ExComrakRender(comrak::options::Render);

/// `comrak::options::Plugins`, the rendering plugins; opaque here.
#[verifier::external_type_specification]
#[verifier::external_body]
pub struct ExComrakPlugins<'p>(comrak::options::Plugins<'p>);

/// `comrak::nodes::NodeValue`, the value of a document node; opaque here.
#[verifier::external_type_specification]
#[verifier::external_body]
pub struct ExNodeValue(comrak::nodes::NodeValue);

/// `latex2mathml::LatexError`, an error in converting LaTeX; carried through, opaque here.
#[verifier::external_type_specification]
#[verifier::external_body]
pub struct ExLatexError(latex2mathml::LatexError);

/// `std::fmt::Error`, an error that a formatter reports; carried through, opaque here.
#[verifier::external_type_specification]
#[verifier::external_body]
pub struct ExFmtError(std::fmt::Error);

/// `toml::de::Error`, an error in reading TOML front matter; carried through, opaque here.
#[verifier::external_type_specification]
#[verifier::external_body]
pub struct ExTomlError(toml::de::Error);

/// What this library reads of one node of a parsed document: the kinds of node that carry
/// text, with that text, and every other kind as `Other`.
#[derive(Debug)]
pub enum NodeData {
    FrontMatter(String),
    Math { display_math: bool, literal: String },
    Code(String),
    CodeBlock(String),
    EscapedTag(String),
    HtmlBlock { block_type: u8, literal: String },
    HtmlInline(String),
    Link { title: String },
    Text(String),
    ShortCode { emoji: String },
    Other,
}

/// The Markdown extensions that documents are parsed and rendered with.
pub struct ExtensionOptions {
    pub autolink: bool,
    pub description_lists: bool,
    pub footnotes: bool,
    pub front_matter_delimiter: Option<String>,
    pub greentext: bool,
    pub header_ids: Option<String>,
    pub math_dollars: bool,
    pub multiline_block_quotes: bool,
    pub shortcodes: bool,
    pub spoiler: bool,
    pub strikethrough: bool,
    pub subscript: bool,
    pub superscript: bool,
    pub table: bool,
    pub tagfilter: bool,
    pub tasklist: bool,
    pub underline: bool,
}

/// `ExtensionOptions` with its strings taken as character sequences.
pub struct ExtensionOptionsView {
    pub autolink: bool,
    pub description_lists: bool,
    pub footnotes: bool,
    pub front_matter_delimiter: Option<Seq<char>>,
    pub greentext: bool,
    pub header_ids: Option<Seq<char>>,
    pub math_dollars: bool,
    pub multiline_block_quotes: bool,
    pub shortcodes: bool,
    pub spoiler: bool,
    pub strikethrough: bool,
    pub subscript: bool,
    pub superscript: bool,
    pub table: bool,
    pub tagfilter: bool,
    pub tasklist: bool,
    pub underline: bool,
}

/// An optional string taken as an optional character sequence.
pub open spec fn string_view(s: Option<String>) -> Option<Seq<char>> {
    match s {
        Some(s) => Some(s@),
        None => None,
    }
}

impl View for ExtensionOptions {
    type V = ExtensionOptionsView;

    open spec fn view(&self) -> ExtensionOptionsView {
        ExtensionOptionsView {
            autolink: self.autolink,
            description_lists: self.description_lists,
            footnotes: self.footnotes,
            front_matter_delimiter: string_view(self.front_matter_delimiter),
            greentext: self.greentext,
            header_ids: string_view(self.header_ids),
            math_dollars: self.math_dollars,
            multiline_block_quotes: self.multiline_block_quotes,
            shortcodes: self.shortcodes,
            spoiler: self.spoiler,
            strikethrough: self.strikethrough,
            subscript: self.subscript,
            superscript: self.superscript,
            table: self.table,
            tagfilter: self.tagfilter,
            tasklist: self.tasklist,
            underline: self.underline,
        }
    }
}

/// How Markdown is parsed.
#[derive(Clone, Copy, PartialEq, Eq, Structural)]
pub struct ParseOptions {
    pub smart: bool,
}

/// How Markdown is rendered: whether images with a title become figures with a caption, and
/// whether raw HTML in the document is written out as it stands.
#[derive(Clone, Copy, PartialEq, Eq, Structural)]
pub struct RenderOptions {
    pub figure_with_caption: bool,
    pub raw_html: bool,
}

/// All options of parsing and rendering.
pub struct MarkdownOptions {
    pub extension: ExtensionOptions,
    pub parse: ParseOptions,
    pub render: RenderOptions,
}

/// `MarkdownOptions` with its strings taken as character sequences.
pub struct MarkdownOptionsView {
    pub extension: ExtensionOptionsView,
    pub parse: ParseOptions,
    pub render: RenderOptions,
}

impl View for MarkdownOptions {
    type V = MarkdownOptionsView;

    open spec fn view(&self) -> MarkdownOptionsView {
        MarkdownOptionsView { extension: self.extension@, parse: self.parse, render: self.render }
    }
}

/// The extensions this site uses: front matter between `+++` lines, header ids without a
/// prefix, and the others listed here switched on.
pub open spec fn site_extension_options() -> ExtensionOptionsView {
    ExtensionOptionsView {
        autolink: true,
        description_lists: true,
        footnotes: true,
        front_matter_delimiter: Some(seq!['+', '+', '+']),
        greentext: true,
        header_ids: Some(Seq::empty()),
        math_dollars: true,
        multiline_block_quotes: true,
        shortcodes: true,
        spoiler: true,
        strikethrough: true,
        subscript: true,
        superscript: true,
        table: true,
        tagfilter: true,
        tasklist: true,
        underline: true,
    }
}

/// Smart punctuation: straight quotes, dashes and ellipses become typographic ones.
pub open spec fn site_parse_options() -> ParseOptions {
    ParseOptions { smart: true }
}

/// Raw HTML is let through (MathML needs it); the `tagfilter` extension escapes the
/// dangerous elements.
pub open spec fn site_render_options() -> RenderOptions {
    RenderOptions { figure_with_caption: true, raw_html: true }
}

/// All of this site's options.
pub open spec fn site_options() -> MarkdownOptionsView {
    MarkdownOptionsView {
        extension: site_extension_options(),
        parse: site_parse_options(),
        render: site_render_options(),
    }
}

/// The extensions this site parses and renders Markdown with.
pub fn extension_options() -> (options: ExtensionOptions)
    ensures
        options@ == site_extension_options(),
        options.autolink && options.description_lists && options.footnotes && options.greentext
            && options.math_dollars && options.multiline_block_quotes && options.shortcodes
            && options.spoiler && options.strikethrough && options.subscript && options.superscript
            && options.table && options.tagfilter && options.tasklist && options.underline,
        options@.front_matter_delimiter == Some(seq!['+', '+', '+']),
        options@.header_ids == Some(Seq::<char>::empty()),
{
    proof {
        reveal_strlit("+++");
        assert("+++"@ =~= seq!['+', '+', '+']);
    }
    let delimiter = "+++".to_owned();
    let prefix = String::new();
    ExtensionOptions {
        autolink: true,
        description_lists: true,
        footnotes: true,
        front_matter_delimiter: Some(delimiter),
        greentext: true,
        header_ids: Some(prefix),
        math_dollars: true,
        multiline_block_quotes: true,
        shortcodes: true,
        spoiler: true,
        strikethrough: true,
        subscript: true,
        superscript: true,
        table: true,
        tagfilter: true,
        tasklist: true,
        underline: true,
    }
}

/// How this site parses Markdown.
pub fn parse_options() -> (options: ParseOptions)
    ensures
        options == site_parse_options(),
{
    ParseOptions { smart: true }
}

/// How this site renders Markdown.
pub fn render_options() -> (options: RenderOptions)
    ensures
        options == site_render_options(),
{
    RenderOptions { figure_with_caption: true, raw_html: true }
}

/// All of this site's options of parsing and rendering.
pub fn markdown_options() -> (options: MarkdownOptions)
    ensures
        options@ == site_options(),
{
    MarkdownOptions {
        extension: extension_options(),
        parse: parse_options(),
        render: render_options(),
    }
}

/// The `comrak::Options` whose extension and parse options are the library's, field for
/// field, with every other field at `comrak`'s default.
pub uninterp spec fn comrak_options_from(
    extension: ExtensionOptionsView,
    parse: ParseOptions,
) -> comrak::Options<'static>;

/// Builds `comrak::Options` from the library's extension and parse options, one field for one
/// field; every other field, the render options among them, keeps `comrak`'s default.
#[verifier::external_body]
#[allow(deprecated)]
fn comrak_options(extension: ExtensionOptions, parse: ParseOptions) -> (options: comrak::Options<'static>)
    ensures
        options == comrak_options_from(extension@, parse),
{
    let ExtensionOptions {
        autolink, description_lists, footnotes, front_matter_delimiter, greentext, header_ids,
        math_dollars, multiline_block_quotes, shortcodes, spoiler, strikethrough, subscript,
        superscript, table, tagfilter, tasklist, underline,
    } = extension;
    let extension = comrak::options::Extension {
        autolink, description_lists, footnotes, front_matter_delimiter, greentext,
        header_id_prefix: header_ids, math_dollars, multiline_block_quotes, shortcodes, spoiler,
        strikethrough, subscript, superscript, table, tagfilter, tasklist, underline,
        ..Default::default()
    };
    let parse = comrak::options::Parse { smart: parse.smart, ..Default::default() };
    comrak::Options { extension, parse, render: Default::default() }
}

/// What `comrak::parse_document` parses a Markdown text into with the given options, read
/// node by node in document order (the document node first, each node before its children).
pub uninterp spec fn parsed_document(markdown: Seq<char>, options: comrak::Options<'static>) -> Seq<
    NodeData,
>;

/// The nodes of a `comrak` document tree, read as `NodeData`, in the order of
/// `comrak::arena_tree::Node::descendants` (the root first, each node before its children).
pub uninterp spec fn document_nodes(root: &comrak::nodes::AstNode) -> Seq<NodeData>;

/// The nodes of a `comrak` document tree in the same order as `document_nodes`, each as its
/// depth below the root and its whole value; the depths in this order fix the tree's shape.
pub uninterp spec fn document_tree(root: &comrak::nodes::AstNode) -> Seq<(nat, comrak::nodes::NodeValue)>;

/// Calls `comrak::parse_document`, which allocates a new document tree in the arena and
/// returns its root; the tree's nodes are `parsed_document` of the text and the options. The
/// parser adds a front matter node once, before it reads the rest of the text, as the first
/// child of the document node, so the tree holds at most one.
#[verifier::external_body]
fn parse_document<'a>(
    arena: &'a comrak::Arena<'a>,
    markdown: &str,
    options: &comrak::Options<'static>,
) -> (root: &'a comrak::nodes::AstNode<'a>)
    ensures
        document_nodes(root) == parsed_document(markdown@, *options),
        document_tree(root).len() == document_nodes(root).len(),
        single_front_matter(document_nodes(root)),
{
    comrak::parse_document(arena, markdown, options)
}

/// Counts the nodes of the document's tree, by `comrak::arena_tree::Node::descendants`.
#[verifier::external_body]
fn node_count(md: &Markdown) -> (count: usize)
    ensures
        count == md.nodes().len(),
        count == md.tree().len(),
{
    md.ast.descendants().count()
}

/// Reads the node of the document's tree at a position of
/// `comrak::arena_tree::Node::descendants`, converting the `comrak::nodes::NodeValue` that it
/// holds to `NodeData`.
#[verifier::external_body]
fn node_at(md: &Markdown, index: usize) -> (node: NodeData)
    requires
        index < md.nodes().len(),
    ensures
        node == md.nodes()[index as int],
{
    match md.ast.descendants().nth(index).unwrap().data.borrow().value.clone() {
        FrontMatter(t) => NodeData::FrontMatter(t),
        Math(m) => NodeData::Math { display_math: m.display_math, literal: m.literal },
        Code(c) => NodeData::Code(c.literal),
        CodeBlock(c) => NodeData::CodeBlock(c.literal),
        EscapedTag(t) => NodeData::EscapedTag(t.to_string()),
        HtmlBlock(h) => NodeData::HtmlBlock { block_type: h.block_type, literal: h.literal },
        HtmlInline(t) => NodeData::HtmlInline(t),
        Link(l) => NodeData::Link { title: l.title },
        Text(t) => NodeData::Text(t.to_string()),
        ShortCode(c) => NodeData::ShortCode { emoji: c.emoji },
        _ => NodeData::Other,
    }
}

/// A parsed Markdown document.
///
/// The document tree lives in an arena that outlives it; this value is the only handle on its
/// root, so the tree changes only through this value's methods.
#[derive(Debug)]
pub struct Markdown<'a> {
    ast: &'a comrak::nodes::AstNode<'a>,
}

/// Errors in rendering a document to HTML.
#[derive(Debug)]
pub enum ToHtmlError {
    /// A LaTeX equation that could not be converted to MathML.
    Latex(latex2mathml::LatexError),
    /// An error that `comrak`'s HTML formatter reported.
    Fmt(std::fmt::Error),
}

/// Detaches the node at a position of `descendants` from its parent and siblings
/// (`comrak::arena_tree::Node::detach`). A front matter node has no children, so the node
/// sequence loses exactly that node.
#[verifier::external_body]
fn detach_front_matter<'a>(md: &mut Markdown<'a>, index: usize)
    requires
        index < old(md).nodes().len(),
        old(md).nodes()[index as int] is FrontMatter,
    ensures
        final(md).nodes() == old(md).nodes().remove(index as int),
        final(md).tree() == old(md).tree().remove(index as int),
{
    md.ast.descendants().nth(index).unwrap().detach();
}

/// Replaces the value of a math node (which has no children) by an HTML block
/// (`comrak::nodes::NodeValue::HtmlBlock`); the tree keeps its shape and every other value.
#[verifier::external_body]
fn replace_with_html_block<'a>(md: &mut Markdown<'a>, index: usize, block_type: u8, literal: String)
    requires
        index < old(md).nodes().len(),
        old(md).nodes()[index as int] is Math,
    ensures
        final(md).nodes() == old(md).nodes().update(
            index as int,
            NodeData::HtmlBlock { block_type, literal },
        ),
        value_replaced(old(md).tree(), final(md).tree(), index as int),
{
    let node = md.ast.descendants().nth(index).unwrap();
    node.data.borrow_mut().value = NodeValue::HtmlBlock(comrak::nodes::NodeHtmlBlock { block_type, literal });
}

/// Replaces the value of a math node (which has no children) by inline HTML
/// (`comrak::nodes::NodeValue::HtmlInline`); the tree keeps its shape and every other value.
#[verifier::external_body]
fn replace_with_html_inline<'a>(md: &mut Markdown<'a>, index: usize, literal: String)
    requires
        index < old(md).nodes().len(),
        old(md).nodes()[index as int] is Math,
    ensures
        final(md).nodes() == old(md).nodes().update(index as int, NodeData::HtmlInline(literal)),
        value_replaced(old(md).tree(), final(md).tree(), index as int),
{
    let node = md.ast.descendants().nth(index).unwrap();
    node.data.borrow_mut().value = NodeValue::HtmlInline(literal);
}

/// The HTML that `comrak::format_html` writes for the document tree under `root` with the
/// options, their render options replaced by `render`.
pub uninterp spec fn rendered_html(
    root: &comrak::nodes::AstNode,
    options: comrak::Options<'static>,
    render: comrak::options::Render,
) -> Seq<char>;

/// Calls `comrak::format_html_with_plugins` on the document with the options, their render
/// options replaced by `render`, and plugins that hold the syntax highlighter of `plugins` and
/// nothing else, writing into a string. `comrak` hands the highlighter code blocks and nothing else, and writing into
/// a `String` cannot fail: on a document without code blocks the call returns the HTML that
/// `rendered_html` names. On other documents the HTML depends on the highlighter and nothing
/// is stated of it.
#[verifier::external_body]
fn format_html(
    md: &Markdown,
    options: &comrak::Options<'static>,
    render: comrak::options::Render,
    plugins: &comrak::options::Plugins,
) -> (html: Result<String, std::fmt::Error>)
    ensures
        no_code_block(md.nodes()) ==> html is Ok,
        html matches Ok(h) ==> (no_code_block(md.nodes()) ==> h@ == rendered_html(md.ast, *options, render)),
{
    let options = comrak::Options { render, ..options.clone() };
    let highlighter = plugins.render.codefence_syntax_highlighter;
    let render = comrak::options::RenderPlugins { codefence_syntax_highlighter: highlighter, ..Default::default() };
    let plugins = comrak::options::Plugins { render };
    let mut html = String::new();
    comrak::format_html_with_plugins(md.ast, &options, &mut html, &plugins)?;
    Ok(html)
}

/// What `latex2mathml` converts a LaTeX equation into: the content of the `math` element, or
/// the error it reports; neither depends on the display style.
pub uninterp spec fn converted_latex(latex: Seq<char>) -> Result<Seq<char>, latex2mathml::LatexError>;

/// The content that a LaTeX equation converts into, or nothing where it cannot be converted.
pub open spec fn mathml_content(latex: Seq<char>) -> Option<Seq<char>> {
    match converted_latex(latex) {
        Ok(content) => Some(content),
        Err(_) => None,
    }
}

/// The `math` element that `latex2mathml::latex_to_mathml` wraps converted content in.
pub open spec fn math_element(display: Seq<char>, content: Seq<char>) -> Seq<char> {
    "<math xmlns=\"http://www.w3.org/1998/Math/MathML\" display=\""@ + display + "\">"@ + content
        + "</math>"@
}

/// The `display` of a `math` element: `block` for a display equation, `inline` otherwise.
pub open spec fn display_style(block: bool) -> Seq<char> {
    if block {
        "block"@
    } else {
        "inline"@
    }
}

/// Calls `latex2mathml::latex_to_mathml`, with `DisplayStyle::Block` for a display equation and
/// `DisplayStyle::Inline` otherwise: the converted content in a `math` element whose `display`
/// is `block` or `inline`, or an error where conversion fails. `latex2mathml` stops the program
/// (`unimplemented!`) on a `\middle` that is not followed by an operator or a parenthesis;
/// `supported_latex` leaves those texts out. Nesting deep enough to exhaust the stack of the
/// machine is not left out.
#[verifier::external_body]
fn latex_to_mathml(latex: &str, block: bool) -> (mathml: Result<String, latex2mathml::LatexError>)
    requires
        supported_latex(latex@),
    ensures
        match mathml {
            Ok(m) => converted_latex(latex@) matches Ok(c) && m@ == math_element(display_style(block), c),
            Err(e) => converted_latex(latex@) == Err::<Seq<char>, latex2mathml::LatexError>(e),
        },
{
    let style = if block { latex2mathml::DisplayStyle::Block } else { latex2mathml::DisplayStyle::Inline };
    latex2mathml::latex_to_mathml(latex, style)
}

/// The `toml::de::Error` that `serde::de::Error::custom` makes of a message: an error that
/// carries the message and no position in any input.
pub uninterp spec fn toml_custom_error(message: Seq<char>) -> toml::de::Error;

/// Calls `serde::de::Error::custom` for `toml::de::Error`, which makes an error of the message
/// alone (`toml_custom_error`).
#[verifier::external_body]
fn toml_error(message: &str) -> (error: toml::de::Error)
    ensures
        error == toml_custom_error(message@),
{
    <toml::de::Error as serde::de::Error>::custom(message)
}

/// The text that a node contributes to the reading time.
pub open spec fn node_text(node: NodeData) -> Option<Seq<char>> {
    match node {
        NodeData::Code(text) => Some(text@),
        NodeData::CodeBlock(text) => Some(text@),
        NodeData::EscapedTag(text) => Some(text@),
        NodeData::HtmlBlock { literal, .. } => Some(literal@),
        NodeData::HtmlInline(text) => Some(text@),
        NodeData::Link { title } => Some(title@),
        NodeData::Math { literal, .. } => Some(literal@),
        NodeData::Text(text) => Some(text@),
        NodeData::ShortCode { emoji } => Some(emoji@),
        NodeData::FrontMatter(_) => None,
        NodeData::Other => None,
    }
}

/// The length in bytes (UTF-8) of the text of a node.
pub open spec fn node_text_bytes(node: NodeData) -> nat {
    match node_text(node) {
        Some(text) => encode_utf8(text).len(),
        None => 0,
    }
}

/// The length in bytes (UTF-8) of all the text of a sequence of nodes.
pub open spec fn text_bytes(nodes: Seq<NodeData>) -> nat
    decreases nodes.len(),
{
    if nodes.len() == 0 {
        0
    } else {
        text_bytes(nodes.drop_last()) + node_text_bytes(nodes.last())
    }
}

/// Reading time in minutes at 987 characters a minute, give or take 118: the fast reading
/// rounds down, the slow reading rounds up.
pub open spec fn reading_minutes(chars: nat) -> (nat, nat) {
    (chars / 1105, chars / 869 + if chars % 869 == 0 { 0nat } else { 1nat })
}

/// Characters that surround front matter text and are trimmed from it: white space and `+`.
pub open spec fn trimmed_char(c: char) -> bool {
    white_space(c) || c == '+'
}

pub open spec fn trim_start(s: Seq<char>) -> Seq<char>
    decreases s.len(),
{
    if s.len() > 0 && trimmed_char(s[0]) {
        trim_start(s.drop_first())
    } else {
        s
    }
}

pub open spec fn trim_end(s: Seq<char>) -> Seq<char>
    decreases s.len(),
{
    if s.len() > 0 && trimmed_char(s.last()) {
        trim_end(s.drop_last())
    } else {
        s
    }
}

/// Front matter text with white space and `+` trimmed from both ends.
pub open spec fn trimmed_front_matter(s: Seq<char>) -> Seq<char> {
    trim_end(trim_start(s))
}

/// The position of the first front matter node.
pub open spec fn first_front_matter(nodes: Seq<NodeData>, k: int) -> bool {
    &&& 0 <= k < nodes.len()
    &&& nodes[k] is FrontMatter
    &&& forall|j: int| 0 <= j < k ==> !(#[trigger] nodes[j] is FrontMatter)
}

/// Whether a sequence of nodes holds at most one front matter node: `comrak` makes the front
/// matter, where there is one, the first child of the document node, and no other node.
pub open spec fn single_front_matter(nodes: Seq<NodeData>) -> bool {
    forall|j: int, k: int|
        #![trigger nodes[j], nodes[k]]
        0 <= j < nodes.len() && 0 <= k < nodes.len() && nodes[j] is FrontMatter
            && nodes[k] is FrontMatter ==> j == k
}

pub open spec fn has_front_matter(nodes: Seq<NodeData>) -> bool {
    exists|k: int| 0 <= k < nodes.len() && #[trigger] nodes[k] is FrontMatter
}

pub open spec fn front_matter_text(node: NodeData) -> Seq<char> {
    match node {
        NodeData::FrontMatter(text) => text@,
        _ => Seq::empty(),
    }
}

/// How a node stands after its LaTeX has been turned into MathML: a display equation becomes an
/// HTML block (of type 1) and an inline equation inline HTML, each holding the `math` element;
/// any other node stays as it was. False of an equation that cannot be converted.
pub open spec fn converted_math(before: NodeData, after: NodeData) -> bool {
    match before {
        NodeData::Math { display_math, literal } => match mathml_content(literal@) {
            Some(content) => if display_math {
                after matches NodeData::HtmlBlock { block_type, literal: html } && block_type == 1
                    && html@ == math_element("block"@, content)
            } else {
                after matches NodeData::HtmlInline(html) && html@ == math_element("inline"@, content)
            },
            None => false,
        },
        _ => after == before,
    }
}

/// Whether `latex2mathml` can be handed the node's LaTeX, where it is an equation.
pub open spec fn node_latex_supported(node: NodeData) -> bool {
    match node {
        NodeData::Math { literal, .. } => supported_latex(literal@),
        _ => true,
    }
}

/// Whether `latex2mathml` can be handed every equation of a document.
pub open spec fn equations_supported(nodes: Seq<NodeData>) -> bool {
    forall|k: int| 0 <= k < nodes.len() ==> node_latex_supported(#[trigger] nodes[k])
}

/// Whether a tree is the other with the value at `index` replaced: the same shape, the same
/// depth there, and every other node as it was.
pub open spec fn value_replaced(
    before: Seq<(nat, comrak::nodes::NodeValue)>,
    after: Seq<(nat, comrak::nodes::NodeValue)>,
    index: int,
) -> bool {
    &&& after.len() == before.len()
    &&& after[index].0 == before[index].0
    &&& forall|j: int| 0 <= j < before.len() && j != index ==> #[trigger] after[j] == before[j]
}

/// Whether a tree keeps the other's shape, and the value of every node that was no equation.
pub open spec fn shape_kept_outside_math(
    nodes: Seq<NodeData>,
    before: Seq<(nat, comrak::nodes::NodeValue)>,
    after: Seq<(nat, comrak::nodes::NodeValue)>,
) -> bool {
    &&& after.len() == before.len()
    &&& forall|j: int| 0 <= j < before.len() ==> (#[trigger] after[j]).0 == before[j].0
    &&& forall|j: int| 0 <= j < before.len() && !(nodes[j] is Math) ==> #[trigger] after[j] == before[j]
}

/// Whether a document has no equation.
pub open spec fn no_math(nodes: Seq<NodeData>) -> bool {
    forall|k: int| 0 <= k < nodes.len() ==> !(#[trigger] nodes[k] is Math)
}

/// Whether a document has no code block.
pub open spec fn no_code_block(nodes: Seq<NodeData>) -> bool {
    forall|k: int| 0 <= k < nodes.len() ==> !(#[trigger] nodes[k] is CodeBlock)
}

/// Whether every equation of a document can be converted to MathML.
pub open spec fn all_convertible(nodes: Seq<NodeData>) -> bool {
    forall|k: int| 0 <= k < nodes.len() ==> !unconvertible(#[trigger] nodes[k])
}

/// The LaTeX of an equation (nothing for any other node).
pub open spec fn math_literal(node: NodeData) -> Seq<char> {
    match node {
        NodeData::Math { literal, .. } => literal@,
        _ => Seq::empty(),
    }
}

/// Whether the conversion stopped at an equation that cannot be converted, with its error,
/// having converted the equations before it and nothing after.
pub open spec fn math_failed_with(
    before: Seq<NodeData>,
    after: Seq<NodeData>,
    error: latex2mathml::LatexError,
) -> bool {
    exists|stop: int|
        0 <= stop < before.len() && unconvertible(#[trigger] before[stop]) && math_converted_up_to(
            before,
            after,
            stop,
        ) && converted_latex(math_literal(before[stop])) == Err::<Seq<char>, latex2mathml::LatexError>(error)
}

/// Whether a node is an equation that `latex2mathml` cannot convert.
pub open spec fn unconvertible(node: NodeData) -> bool {
    node matches NodeData::Math { literal, .. } && mathml_content(literal@) is None
}

/// The nodes after all equations up to `stop` have been turned into MathML and none after.
pub open spec fn math_converted_up_to(before: Seq<NodeData>, after: Seq<NodeData>, stop: int) -> bool {
    &&& after.len() == before.len()
    &&& forall|k: int| 0 <= k < stop ==> converted_math(#[trigger] before[k], after[k])
    &&& forall|k: int| stop <= k < before.len() ==> #[trigger] after[k] == before[k]
}

/// What the math conversion leaves: every equation converted where all can be; otherwise
/// conversion stops at the first that cannot, having converted those before it.
pub open spec fn math_conversion(before: Seq<NodeData>, after: Seq<NodeData>, failed: bool) -> bool {
    if failed {
        exists|stop: int|
            0 <= stop < before.len() && unconvertible(#[trigger] before[stop])
                && math_converted_up_to(before, after, stop)
    } else {
        math_converted_up_to(before, after, before.len() as int)
    }
}

/// The text that a node contributes to the reading time.
fn extract_text(node: &NodeData) -> (text: Option<&str>)
    ensures
        match text {
            Some(t) => node_text(*node) == Some(t@),
            None => node_text(*node) is None,
        },
{
    match node {
        NodeData::Code(text) => Some(text.as_str()),
        NodeData::CodeBlock(text) => Some(text.as_str()),
        NodeData::EscapedTag(text) => Some(text.as_str()),
        NodeData::HtmlBlock { literal, .. } => Some(literal.as_str()),
        NodeData::HtmlInline(text) => Some(text.as_str()),
        NodeData::Link { title } => Some(title.as_str()),
        NodeData::Math { literal, .. } => Some(literal.as_str()),
        NodeData::Text(text) => Some(text.as_str()),
        NodeData::ShortCode { emoji } => Some(emoji.as_str()),
        NodeData::FrontMatter(_) => None,
        NodeData::Other => None,
    }
}

/// Reading time in minutes of a text of the given length in bytes, fast and slow: read at 987
/// characters a minute, give or take 118, the fast reading rounded down and the slow one up.
pub fn minutes_to_read(chars: usize) -> (minutes: (usize, usize))
    ensures
        minutes.0 == reading_minutes(chars as nat).0,
        minutes.1 == reading_minutes(chars as nat).1,
{
    let cpm: usize = 987;
    let variance: usize = 118;
    let fast = chars / (cpm + variance);
    let slow = chars / (cpm - variance) + if chars % (cpm - variance) == 0 { 0 } else { 1 };
    (fast, slow)
}

proof fn lemma_text_bytes_prefix(nodes: Seq<NodeData>, i: int)
    requires
        0 <= i <= nodes.len(),
    ensures
        text_bytes(nodes.take(i)) <= text_bytes(nodes),
    decreases nodes.len() - i,
{
    if i < nodes.len() {
        lemma_text_bytes_prefix(nodes, i + 1);
        assert(nodes.take(i + 1).drop_last() =~= nodes.take(i));
    } else {
        assert(nodes.take(i) =~= nodes);
    }
}

/// Trims white space and `+` from both ends of front matter text.
pub fn trim_front_matter(text: &str) -> (trimmed: String)
    ensures
        trimmed@ == trimmed_front_matter(text@),
{
    let chars = chars_of(text);
    let n = chars.len();
    let mut start: usize = 0;
    assert(text@.subrange(0, n as int) =~= text@);
    while start < n && (is_white_space(chars[start]) || chars[start] == '+')
        invariant
            start <= n == chars@.len() == text@.len(),
            chars@ == text@,
            trim_start(text@) == trim_start(text@.subrange(start as int, n as int)),
        decreases n - start,
    {
        proof {
            let rest = text@.subrange(start as int, n as int);
            assert(rest.drop_first() =~= text@.subrange(start + 1, n as int));
        }
        start = start + 1;
    }
    let ghost middle = text@.subrange(start as int, n as int);
    assert(trim_start(text@) == middle);
    let mut end: usize = n;
    while end > start && (is_white_space(chars[end - 1]) || chars[end - 1] == '+')
        invariant
            start <= end <= n == chars@.len() == text@.len(),
            chars@ == text@,
            middle == text@.subrange(start as int, n as int),
            trim_end(middle) == trim_end(text@.subrange(start as int, end as int)),
        decreases end - start,
    {
        proof {
            let rest = text@.subrange(start as int, end as int);
            assert(rest.drop_last() =~= text@.subrange(start as int, end - 1));
        }
        end = end - 1;
    }
    text.substring_char(start, end).to_owned()
}

impl<'a> Markdown<'a> {
    /// The nodes of the document, in document order.
    pub closed spec fn nodes(self) -> Seq<NodeData> {
        document_nodes(self.ast)
    }

    /// The document's tree: each node's depth and value, in document order.
    pub closed spec fn tree(self) -> Seq<(nat, comrak::nodes::NodeValue)> {
        document_tree(self.ast)
    }

    /// The HTML that `comrak` writes for the document with this site's extension and parse
    /// options and the given render options.
    pub closed spec fn html(self, render: comrak::options::Render) -> Seq<char> {
        rendered_html(self.ast, comrak_options_from(site_extension_options(), site_parse_options()), render)
    }

    /// Parses Markdown text with this site's options into a document allocated in the arena.
    pub fn new(md: &str, arena: &'a comrak::Arena<'a>) -> (markdown: Self)
        ensures
            markdown.nodes() == parsed_document(
                md@,
                comrak_options_from(site_extension_options(), site_parse_options()),
            ),
            markdown.tree().len() == markdown.nodes().len(),
            single_front_matter(markdown.nodes()),
    {
        let site = markdown_options();
        let options = comrak_options(site.extension, site.parse);
        let ast = parse_document(arena, md, &options);
        Markdown { ast }
    }

    /// The position and text of the document's first front matter node.
    fn find_front_matter(&self) -> (found: Option<(usize, String)>)
        ensures
            match found {
                Some((k, text)) => first_front_matter(self.nodes(), k as int) && text@
                    == front_matter_text(self.nodes()[k as int]),
                None => !has_front_matter(self.nodes()),
            },
    {
        let count = node_count(self);
        let mut i: usize = 0;
        while i < count
            invariant
                count == self.nodes().len(),
                i <= count,
                forall|j: int| 0 <= j < i ==> !(#[trigger] self.nodes()[j] is FrontMatter),
            decreases count - i,
        {
            match node_at(self, i) {
                NodeData::FrontMatter(text) => {
                    return Some((i, text));
                },
                _ => {},
            }
            i = i + 1;
        }
        None
    }

    /// The document's front matter: the text of its first front matter node with white space
    /// and `+` trimmed from both ends; where it has none, an error (`no front matter found`).
    pub fn front_matter(&self) -> (front_matter: Result<String, toml::de::Error>)
        ensures
            front_matter is Ok <==> has_front_matter(self.nodes()),
            front_matter matches Err(e) ==> e == toml_custom_error("no front matter found"@),
            front_matter matches Ok(text) ==> exists|k: int|
                first_front_matter(self.nodes(), k) && text@ == trimmed_front_matter(
                    front_matter_text(#[trigger] self.nodes()[k]),
                ),
    {
        match self.find_front_matter() {
            Some((k, text)) => {
                assert(has_front_matter(self.nodes()));
                Ok(trim_front_matter(text.as_str()))
            },
            None => Err(toml_error("no front matter found")),
        }
    }

    /// Takes the front matter out of the document: the text of its first front matter node with
    /// white space and `+` trimmed from both ends, the node itself detached. Where the document
    /// has no front matter, an error (`no front matter found`) and the document unchanged.
    pub fn extract_front_matter(&mut self) -> (front_matter: Result<String, toml::de::Error>)
        ensures
            front_matter is Ok <==> has_front_matter(old(self).nodes()),
            front_matter matches Err(e) ==> e == toml_custom_error("no front matter found"@),
            front_matter matches Ok(text) ==> exists|k: int|
                first_front_matter(old(self).nodes(), k) && text@ == trimmed_front_matter(
                    front_matter_text(#[trigger] old(self).nodes()[k]),
                ) && final(self).nodes() == old(self).nodes().remove(k) && final(self).tree()
                    == old(self).tree().remove(k),
            front_matter is Err ==> *final(self) == *old(self),
            single_front_matter(old(self).nodes()) ==> single_front_matter(final(self).nodes())
                && !has_front_matter(final(self).nodes()),
    {
        match self.find_front_matter() {
            Some((k, text)) => {
                let trimmed = trim_front_matter(text.as_str());
                let ghost before = self.nodes();
                detach_front_matter(self, k);
                assert(has_front_matter(before));
                proof {
                    lemma_front_matter_taken_once(before, k as int);
                    if single_front_matter(before) {
                        assert forall|j: int| k < j < before.len() implies !(
                        #[trigger] before[j] is FrontMatter) by {
                            if before[j] is FrontMatter {
                                assert(before[k as int] is FrontMatter);
                            }
                        }
                    }
                }
                return Ok(trimmed);
            },
            None => Err(toml_error("no front matter found")),
        }
    }

    /// Turns every LaTeX equation of the document into MathML: a display equation into an HTML
    /// block, an inline one into inline HTML. Stops at the first equation that cannot be
    /// converted and reports its error.
    fn replace_mathml(&mut self) -> (result: Result<(), latex2mathml::LatexError>)
        requires
            equations_supported(old(self).nodes()),
        ensures
            math_conversion(old(self).nodes(), final(self).nodes(), result is Err),
            result matches Err(e) ==> math_failed_with(old(self).nodes(), final(self).nodes(), e),
            shape_kept_outside_math(old(self).nodes(), old(self).tree(), final(self).tree()),
            no_math(old(self).nodes()) ==> *final(self) == *old(self),
    {
        let ghost before = self.nodes();
        let ghost before_tree = self.tree();
        let count = node_count(self);
        let mut i: usize = 0;
        while i < count
            invariant
                count == before.len() == before_tree.len(),
                before == old(self).nodes(),
                before_tree == old(self).tree(),
                equations_supported(before),
                i <= count,
                math_converted_up_to(before, self.nodes(), i as int),
                shape_kept_outside_math(before, before_tree, self.tree()),
                (forall|j: int| 0 <= j < i ==> !(#[trigger] before[j] is Math)) ==> *self == *old(self),
            decreases count - i,
        {
            let node = node_at(self, i);
            assert(node == before[i as int]);
            assert(node_latex_supported(before[i as int]));
            match node {
                NodeData::Math { display_math, literal } => {
                    if display_math {
                        match latex_to_mathml(literal.as_str(), true) {
                            Ok(mathml) => replace_with_html_block(self, i, 1, mathml),
                            Err(error) => {
                                assert(unconvertible(before[i as int]));
                                assert(math_converted_up_to(before, self.nodes(), i as int));
                                return Err(error);
                            },
                        }
                    } else {
                        match latex_to_mathml(literal.as_str(), false) {
                            Ok(mathml) => replace_with_html_inline(self, i, mathml),
                            Err(error) => {
                                assert(unconvertible(before[i as int]));
                                assert(math_converted_up_to(before, self.nodes(), i as int));
                                return Err(error);
                            },
                        }
                    }
                },
                _ => {},
            }
            i = i + 1;
        }
        Ok(())
    }

    /// Renders the document as HTML, after turning its LaTeX equations into MathML, with this
    /// site's extension and parse options, the given render options, and the syntax highlighter
    /// of the plugins for code blocks (their other adapters are not used). Fails with the first
    /// equation that cannot be converted, before anything is rendered.
    pub fn to_html(
        &mut self,
        render: comrak::options::Render,
        plugins: &comrak::options::Plugins,
    ) -> (html: Result<String, ToHtmlError>)
        requires
            equations_supported(old(self).nodes()),
        ensures
            math_conversion(old(self).nodes(), final(self).nodes(), html matches Err(ToHtmlError::Latex(_))),
            html matches Err(ToHtmlError::Latex(e)) ==> math_failed_with(
                old(self).nodes(),
                final(self).nodes(),
                e,
            ),
            shape_kept_outside_math(old(self).nodes(), old(self).tree(), final(self).tree()),
            no_math(old(self).nodes()) ==> *final(self) == *old(self),
            all_convertible(old(self).nodes()) && no_code_block(old(self).nodes()) ==> (html matches Ok(
                h,
            ) && h@ == final(self).html(render)),
    {
        match self.replace_mathml() {
            Ok(()) => {},
            Err(error) => return Err(ToHtmlError::Latex(error)),
        }
        let site = markdown_options();
        let options = comrak_options(site.extension, site.parse);
        proof {
            if no_code_block(old(self).nodes()) {
                assert forall|k: int| 0 <= k < self.nodes().len() implies !(#[trigger] self.nodes()[k] is CodeBlock) by {
                    assert(converted_math(old(self).nodes()[k], self.nodes()[k]));
                }
            }
        }
        match format_html(self, &options, render, plugins) {
            Ok(html) => Ok(html),
            Err(error) => Err(ToHtmlError::Fmt(error)),
        }
    }

    /// Whether every LaTeX equation of the document can be handed to `latex2mathml`
    /// (`supported_latex`), as rendering requires.
    pub fn latex_supported(&self) -> (supported: bool)
        ensures
            supported == equations_supported(self.nodes()),
    {
        let count = node_count(self);
        let mut i: usize = 0;
        while i < count
            invariant
                count == self.nodes().len(),
                i <= count,
                forall|j: int| 0 <= j < i ==> node_latex_supported(#[trigger] self.nodes()[j]),
            decreases count - i,
        {
            match node_at(self, i) {
                NodeData::Math { literal, .. } => {
                    if !latex_supported(literal.as_str()) {
                        return false;
                    }
                },
                _ => {},
            }
            i = i + 1;
        }
        true
    }

    /// The length in bytes (UTF-8) of the document's text, where it fits in a `usize`.
    pub fn text_length(&self) -> (length: Option<usize>)
        ensures
            match length {
                Some(n) => n == text_bytes(self.nodes()),
                None => text_bytes(self.nodes()) > usize::MAX,
            },
    {
        let count = node_count(self);
        let mut chars: usize = 0;
        let mut i: usize = 0;
        while i < count
            invariant
                count == self.nodes().len(),
                i <= count,
                chars == text_bytes(self.nodes().take(i as int)),
            decreases count - i,
        {
            let node = node_at(self, i);
            proof {
                assert(self.nodes().take(i + 1).drop_last() =~= self.nodes().take(i as int));
                assert(self.nodes().take(i + 1).last() == node);
            }
            match extract_text(&node) {
                Some(text) => {
                    let bytes = utf8_length(text);
                    assert(bytes == node_text_bytes(node));
                    match chars.checked_add(bytes) {
                        Some(sum) => {
                            chars = sum;
                        },
                        None => {
                            proof {
                                lemma_text_bytes_prefix(self.nodes(), i + 1);
                            }
                            return None;
                        },
                    }
                },
                None => {},
            }
            i = i + 1;
        }
        proof {
            assert(self.nodes().take(count as int) =~= self.nodes());
        }
        Some(chars)
    }

    /// Estimated reading time in minutes, fast and slow, from the length in bytes of the
    /// document's text (that of its text, code, HTML, link titles, equations and emoji), read
    /// at 987 characters a minute, give or take 118.
    pub fn reading_time(&self) -> (minutes: (usize, usize))
        requires
            text_bytes(self.nodes()) <= usize::MAX,
        ensures
            minutes.0 == reading_minutes(text_bytes(self.nodes())).0,
            minutes.1 == reading_minutes(text_bytes(self.nodes())).1,
    {
        let chars = match self.text_length() {
            Some(chars) => chars,
            None => 0,
        };
        minutes_to_read(chars)
    }

    /// The reading time where the length of the document's text fits in a `usize`; nothing
    /// otherwise.
    pub fn checked_reading_time(&self) -> (minutes: Option<(usize, usize)>)
        ensures
            match minutes {
                Some(m) => text_bytes(self.nodes()) <= usize::MAX && m.0 == reading_minutes(
                    text_bytes(self.nodes()),
                ).0 && m.1 == reading_minutes(text_bytes(self.nodes())).1,
                None => text_bytes(self.nodes()) > usize::MAX,
            },
    {
        match self.text_length() {
            Some(_) => Some(self.reading_time()),
            None => None,
        }
    }
}

/// The fast reading time is never longer than the slow one.
pub proof fn lemma_fast_reading_not_slower(chars: nat)
    ensures
        reading_minutes(chars).0 <= reading_minutes(chars).1,
{
    assert(chars / 1105 <= chars / 869) by (nonlinear_arith);
}

/// A front matter node has no text, so taking it out of a document leaves the length of the
/// document's text, and with it the reading time, unchanged.
pub proof fn lemma_front_matter_has_no_text(nodes: Seq<NodeData>, k: int)
    requires
        0 <= k < nodes.len(),
        nodes[k] is FrontMatter,
    ensures
        text_bytes(nodes.remove(k)) == text_bytes(nodes),
    decreases nodes.len(),
{
    if k == nodes.len() - 1 {
        assert(nodes.remove(k) =~= nodes.drop_last());
    } else {
        lemma_front_matter_has_no_text(nodes.drop_last(), k);
        assert(nodes.remove(k).drop_last() =~= nodes.drop_last().remove(k));
        assert(nodes.remove(k).last() == nodes.last());
    }
}

/// Taking the front matter out leaves every other node as it was, in order: afterwards the
/// document has front matter only where it had a second front matter node.
pub proof fn lemma_front_matter_taken_once(nodes: Seq<NodeData>, k: int)
    requires
        first_front_matter(nodes, k),
    ensures
        nodes.remove(k).len() == nodes.len() - 1,
        forall|j: int| 0 <= j < k ==> #[trigger] nodes.remove(k)[j] == nodes[j],
        forall|j: int| k < j < nodes.len() ==> nodes.remove(k)[j - 1] == #[trigger] nodes[j],
        has_front_matter(nodes.remove(k)) <==> exists|j: int|
            k < j < nodes.len() && #[trigger] nodes[j] is FrontMatter,
{
    let rest = nodes.remove(k);
    if has_front_matter(rest) {
        let j = choose|j: int| 0 <= j < rest.len() && #[trigger] rest[j] is FrontMatter;
        assert(nodes[j + 1] is FrontMatter);
    }
    if exists|j: int| k < j < nodes.len() && #[trigger] nodes[j] is FrontMatter {
        let j = choose|j: int| k < j < nodes.len() && #[trigger] nodes[j] is FrontMatter;
        assert(rest[j - 1] is FrontMatter);
    }
}

/// Once every equation has been turned into MathML, no equation is left, and the nodes that
/// were no equation are as they were.
pub proof fn lemma_no_math_left(before: Seq<NodeData>, after: Seq<NodeData>)
    requires
        math_conversion(before, after, false),
    ensures
        after.len() == before.len(),
        forall|k: int| 0 <= k < after.len() ==> !(#[trigger] after[k] is Math),
        forall|k: int| 0 <= k < after.len() && !(before[k] is Math) ==> #[trigger] after[k] == before[k],
{
    assert forall|k: int| 0 <= k < after.len() implies !(#[trigger] after[k] is Math) by {
        assert(converted_math(before[k], after[k]));
    }
    assert forall|k: int| 0 <= k < after.len() && !(before[k] is Math) implies #[trigger] after[k] == before[k] by {
        assert(converted_math(before[k], after[k]));
    }
}

/// A document without equations comes out of the conversion to MathML as it went in, and the
/// conversion cannot fail on it.
pub proof fn lemma_no_math_no_change(before: Seq<NodeData>, after: Seq<NodeData>, failed: bool)
    requires
        forall|k: int| 0 <= k < before.len() ==> !(#[trigger] before[k] is Math),
        math_conversion(before, after, failed),
    ensures
        !failed,
        after == before,
{
    if failed {
        let stop = choose|stop: int|
            0 <= stop < before.len() && unconvertible(#[trigger] before[stop])
                && math_converted_up_to(before, after, stop);
        assert(!(before[stop] is Math));
    }
    assert forall|k: int| 0 <= k < before.len() implies #[trigger] after[k] == before[k] by {
        assert(converted_math(before[k], after[k]));
    }
    assert(after =~= before);
}

/// What a rendering of a document to HTML leaves and returns (`Markdown::to_html`): its
/// equations converted as far as they can be, its shape and every other node kept, a document
/// without equations left as it was, and where every equation converts and no code block needs
/// the highlighter, the HTML of the converted document.
pub open spec fn renders(
    before: Markdown,
    after: Markdown,
    render: comrak::options::Render,
    html: Result<String, ToHtmlError>,
) -> bool {
    &&& math_conversion(before.nodes(), after.nodes(), html matches Err(ToHtmlError::Latex(_)))
    &&& html matches Err(ToHtmlError::Latex(e)) ==> math_failed_with(before.nodes(), after.nodes(), e)
    &&& shape_kept_outside_math(before.nodes(), before.tree(), after.tree())
    &&& no_math(before.nodes()) ==> after == before
    &&& all_convertible(before.nodes()) && no_code_block(before.nodes()) ==> (html matches Ok(h)
        && h@ == after.html(render))
}

/// Converting a document's equations a second time, after a conversion that succeeded, also
/// succeeds and changes nothing.
pub proof fn lemma_convert_again(
    first: Seq<NodeData>,
    once: Seq<NodeData>,
    twice: Seq<NodeData>,
    failed: bool,
)
    requires
        math_conversion(first, once, false),
        math_conversion(once, twice, failed),
    ensures
        !failed,
        twice == once,
{
    lemma_no_math_left(first, once);
    lemma_no_math_no_change(once, twice, failed);
}

/// Rendering a document a second time, after a rendering that succeeded, leaves it as it was
/// and meets no LaTeX error; where the document has no code block, whose HTML rests on the
/// highlighter, the second rendering gives the HTML of the first.
pub proof fn lemma_render_again(
    first: Markdown,
    once: Markdown,
    twice: Markdown,
    render: comrak::options::Render,
    html: String,
    again: Result<String, ToHtmlError>,
)
    requires
        renders(first, once, render, Ok(html)),
        renders(once, twice, render, again),
    ensures
        twice == once,
        !(again matches Err(ToHtmlError::Latex(_))),
        no_code_block(first.nodes()) ==> (again matches Ok(h) && h@ == html@),
{
    lemma_no_math_left(first.nodes(), once.nodes());
    lemma_no_math_no_change(once.nodes(), twice.nodes(), again matches Err(ToHtmlError::Latex(_)));
    assert forall|k: int| 0 <= k < first.nodes().len() implies !unconvertible(#[trigger] first.nodes()[k]) by {
        assert(converted_math(first.nodes()[k], once.nodes()[k]));
    }
    assert forall|k: int| 0 <= k < once.nodes().len() implies !unconvertible(#[trigger] once.nodes()[k]) by {
        assert(!(once.nodes()[k] is Math));
    }
    if no_code_block(first.nodes()) {
        assert forall|k: int| 0 <= k < once.nodes().len() implies !(#[trigger] once.nodes()[k] is CodeBlock) by {
            assert(converted_math(first.nodes()[k], once.nodes()[k]));
        }
    }
}

/// Each equation that the conversion to MathML has gone past is replaced by `latex2mathml`'s
/// output in the style its own flag asks for: a display equation (`$$..$$`) by an HTML block
/// of type 1 holding a `math` element with `display="block"`, an inline equation (`$..$`) by
/// inline HTML holding one with `display="inline"`, each around the converted content.
pub proof fn lemma_math_style_follows_flag(before: Seq<NodeData>, after: Seq<NodeData>, stop: int, k: int)
    requires
        math_converted_up_to(before, after, stop),
        0 <= k < stop,
        k < before.len(),
        before[k] is Math,
    ensures
        converted_latex(math_literal(before[k])) is Ok,
        ({
            let content = converted_latex(math_literal(before[k]))->Ok_0;
            if before[k]->display_math {
                &&& after[k] is HtmlBlock
                &&& after[k]->block_type == 1
                &&& after[k]->HtmlBlock_literal@
                    == "<math xmlns=\"http://www.w3.org/1998/Math/MathML\" display=\"block\">"@
                    + content + "</math>"@
            } else {
                &&& after[k] is HtmlInline
                &&& after[k]->HtmlInline_0@
                    == "<math xmlns=\"http://www.w3.org/1998/Math/MathML\" display=\"inline\">"@
                    + content + "</math>"@
            }
        }),
{
    assert(converted_math(before[k], after[k]));
    let content = converted_latex(math_literal(before[k]))->Ok_0;
    reveal_strlit("<math xmlns=\"http://www.w3.org/1998/Math/MathML\" display=\"");
    reveal_strlit("\">");
    reveal_strlit("block");
    reveal_strlit("inline");
    reveal_strlit("<math xmlns=\"http://www.w3.org/1998/Math/MathML\" display=\"block\">");
    reveal_strlit("<math xmlns=\"http://www.w3.org/1998/Math/MathML\" display=\"inline\">");
    assert(math_element("block"@, content) =~= "<math xmlns=\"http://www.w3.org/1998/Math/MathML\" display=\"block\">"@
        + content + "</math>"@);
    assert(math_element("inline"@, content) =~= "<math xmlns=\"http://www.w3.org/1998/Math/MathML\" display=\"inline\">"@
        + content + "</math>"@);
}

/// A node contributes its text to the reading time by kind: inline code and code blocks their
/// code, escaped tags, text and HTML their text, links their title, equations their LaTeX and
/// shortcodes their emoji; front matter and every other node contribute nothing.
pub proof fn lemma_text_by_kind(t: String, display_math: bool, block_type: u8)
    ensures
        node_text(NodeData::Code(t)) == Some(t@),
        node_text(NodeData::CodeBlock(t)) == Some(t@),
        node_text(NodeData::EscapedTag(t)) == Some(t@),
        node_text(NodeData::HtmlBlock { block_type, literal: t }) == Some(t@),
        node_text(NodeData::HtmlInline(t)) == Some(t@),
        node_text(NodeData::Link { title: t }) == Some(t@),
        node_text(NodeData::Math { display_math, literal: t }) == Some(t@),
        node_text(NodeData::Text(t)) == Some(t@),
        node_text(NodeData::ShortCode { emoji: t }) == Some(t@),
        node_text(NodeData::FrontMatter(t)) == None::<Seq<char>>,
        node_text(NodeData::Other) == None::<Seq<char>>,
        text_bytes(seq![NodeData::CodeBlock(t)]) == encode_utf8(t@).len(),
{
    let nodes = seq![NodeData::CodeBlock(t)];
    assert(nodes.drop_last() =~= Seq::<NodeData>::empty());
    assert(text_bytes(nodes.drop_last()) == 0);
    assert(nodes.last() == NodeData::CodeBlock(t));
}

/// The extensions, parsing and rendering this site uses, each switched on: autolinks,
/// description lists, footnotes, front matter between `+++` lines, greentext, header ids
/// without a prefix, `$` math, multiline block quotes, shortcodes, spoilers, strikethrough,
/// subscript, superscript, tables, the tag filter, task lists and underline; smart
/// punctuation; figures with captions and raw HTML.
pub proof fn lemma_site_options()
    ensures
        site_options().extension.autolink,
        site_options().extension.description_lists,
        site_options().extension.footnotes,
        site_options().extension.front_matter_delimiter == Some(seq!['+', '+', '+']),
        site_options().extension.greentext,
        site_options().extension.header_ids == Some(Seq::<char>::empty()),
        site_options().extension.math_dollars,
        site_options().extension.multiline_block_quotes,
        site_options().extension.shortcodes,
        site_options().extension.spoiler,
        site_options().extension.strikethrough,
        site_options().extension.subscript,
        site_options().extension.superscript,
        site_options().extension.table,
        site_options().extension.tagfilter,
        site_options().extension.tasklist,
        site_options().extension.underline,
        site_options().parse.smart,
        site_options().render.figure_with_caption,
        site_options().render.raw_html,
{
}

/// Trimming front matter takes a contiguous slice of the text: everything cut before and after
/// it is white space or `+`, and the slice neither starts nor ends with either.
pub proof fn lemma_trim_front_matter_slice(s: Seq<char>) -> (bounds: (int, int))
    ensures
        0 <= bounds.0 <= bounds.1 <= s.len(),
        trimmed_front_matter(s) == s.subrange(bounds.0, bounds.1),
        forall|i: int| 0 <= i < bounds.0 ==> white_space(#[trigger] s[i]) || s[i] == '+',
        forall|i: int| bounds.1 <= i < s.len() ==> white_space(#[trigger] s[i]) || s[i] == '+',
        bounds.0 < bounds.1 ==> !(white_space(s[bounds.0]) || s[bounds.0] == '+'),
        bounds.0 < bounds.1 ==> !(white_space(s[bounds.1 - 1]) || s[bounds.1 - 1] == '+'),
{
    let a = lemma_trim_start_at(s);
    let rest = s.subrange(a, s.len() as int);
    let b = lemma_trim_end_at(rest);
    assert(rest.subrange(0, b) =~= s.subrange(a, a + b));
    assert forall|i: int| a + b <= i < s.len() implies white_space(#[trigger] s[i]) || s[i] == '+' by {
        assert(s[i] == rest[i - a]);
    }
    if 0 < b {
        assert(s[a + b - 1] == rest[b - 1]);
        assert(s[a] == rest[0]);
    }
    (a, a + b)
}

/// Where trimming the start of a text stops: everything before is cut, and the character there,
/// if any, is kept.
proof fn lemma_trim_start_at(s: Seq<char>) -> (a: int)
    ensures
        0 <= a <= s.len(),
        trim_start(s) == s.subrange(a, s.len() as int),
        forall|i: int| 0 <= i < a ==> trimmed_char(#[trigger] s[i]),
        a < s.len() ==> !trimmed_char(s[a]),
    decreases s.len(),
{
    if s.len() > 0 && trimmed_char(s[0]) {
        let rest = s.drop_first();
        let a = lemma_trim_start_at(rest);
        assert(rest.subrange(a, rest.len() as int) =~= s.subrange(a + 1, s.len() as int));
        assert forall|i: int| 0 <= i < a + 1 implies trimmed_char(#[trigger] s[i]) by {
            if i > 0 {
                assert(s[i] == rest[i - 1]);
            }
        }
        a + 1
    } else {
        assert(s.subrange(0, s.len() as int) =~= s);
        0
    }
}

/// Where trimming the end of a text stops: everything from there on is cut, and the character
/// before, if any, is kept.
proof fn lemma_trim_end_at(s: Seq<char>) -> (b: int)
    ensures
        0 <= b <= s.len(),
        trim_end(s) == s.subrange(0, b),
        forall|i: int| b <= i < s.len() ==> trimmed_char(#[trigger] s[i]),
        0 < b ==> !trimmed_char(s[b - 1]),
    decreases s.len(),
{
    if s.len() > 0 && trimmed_char(s.last()) {
        let rest = s.drop_last();
        let b = lemma_trim_end_at(rest);
        assert(rest.subrange(0, b) =~= s.subrange(0, b));
        assert forall|i: int| b <= i < s.len() implies trimmed_char(#[trigger] s[i]) by {
            if i < s.len() - 1 {
                assert(s[i] == rest[i]);
            }
        }
        if 0 < b {
            assert(s[b - 1] == rest[b - 1]);
        }
        b
    } else {
        assert(s.subrange(0, s.len() as int) =~= s);
        s.len() as int
    }
}

/// Trimmed front matter neither starts nor ends with white space or `+`, and trimming it again
/// changes nothing.
pub proof fn lemma_trimmed_front_matter(s: Seq<char>)
    ensures
        trimmed_front_matter(s).len() > 0 ==> !trimmed_char(trimmed_front_matter(s)[0])
            && !trimmed_char(trimmed_front_matter(s).last()),
        trimmed_front_matter(trimmed_front_matter(s)) == trimmed_front_matter(s),
{
    lemma_trim_start(s);
    lemma_trim_end(trim_start(s));
    let t = trimmed_front_matter(s);
    if t.len() > 0 {
        lemma_trim_end_keeps_start(trim_start(s));
    }
    assert(trim_start(t) == t);
    assert(trim_end(t) == t);
}

proof fn lemma_trim_start(s: Seq<char>)
    ensures
        trim_start(s).len() > 0 ==> !trimmed_char(trim_start(s)[0]),
    decreases s.len(),
{
    if s.len() > 0 && trimmed_char(s[0]) {
        lemma_trim_start(s.drop_first());
    }
}

proof fn lemma_trim_end(s: Seq<char>)
    ensures
        trim_end(s).len() > 0 ==> !trimmed_char(trim_end(s).last()),
        trim_end(trim_end(s)) == trim_end(s),
    decreases s.len(),
{
    if s.len() > 0 && trimmed_char(s.last()) {
        lemma_trim_end(s.drop_last());
    }
}

/// Trimming the end of a text that does not start with a trimmed character keeps its start.
proof fn lemma_trim_end_keeps_start(s: Seq<char>)
    requires
        s.len() > 0 ==> !trimmed_char(s[0]),
    ensures
        trim_end(s).len() > 0 ==> trim_end(s)[0] == s[0],
        trim_end(s).len() <= s.len(),
    decreases s.len(),
{
    if s.len() > 0 && trimmed_char(s.last()) {
        lemma_trim_end_keeps_start(s.drop_last());
    }
}

} // verus!
