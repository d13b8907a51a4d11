//! Markdown to HTML through pulldown-cmark, with the events made safe first:
//! raw HTML is shown as text, images become a text marker, and link
//! destinations with a dangerous scheme are replaced.
//!
//! pulldown-cmark's events are carried in `MdEvent`, a model of the library's
//! own made of plain values, so that what is parsed, what is sanitized and
//! what is rendered can be stated over `EventView`.
use vstd::prelude::*;
use pulldown_cmark::{
    Alignment, BlockQuoteKind, CodeBlockKind, CowStr, Event, HeadingLevel, LinkType,
    MetadataBlockKind, Options, Parser, Tag, TagEnd,
};
use crate::render::opt_string_view;
use crate::text::{ascii_lower, chars_of, has_char, has_prefix, push_str, starts_with, string_of, to_ascii_lower, trim, trimmed};

verus! {

#[verifier::external_type_specification]
#[verifier::external_body]
pub struct ExCowStr<'a>(CowStr<'a>);

// pulldown-cmark's event types are public enums made of plain values and
// `CowStr`; they are declared with their variants visible, so that the
// conversions to and from the model below are verified code. `CowStr`, whose
// inline form has private fields, stays opaque.
#[verifier::external_type_specification]
pub struct ExEvent<'a>(Event<'a>);

#[verifier::external_type_specification]
pub struct ExTag<'a>(Tag<'a>);

#[verifier::external_type_specification]
pub struct ExTagEnd(TagEnd);

#[verifier::external_type_specification]
pub struct ExCodeBlockKind<'a>(CodeBlockKind<'a>);

#[verifier::external_type_specification]
pub struct ExHeadingLevel(HeadingLevel);

#[verifier::external_type_specification]
pub struct ExLinkType(LinkType);

#[verifier::external_type_specification]
pub struct ExAlignment(Alignment);

#[verifier::external_type_specification]
pub struct ExBlockQuoteKind(BlockQuoteKind);

#[verifier::external_type_specification]
pub struct ExMetadataBlockKind(MetadataBlockKind);

/// The kind of a link or image.
#[derive(Clone, Copy)]
pub enum MdLinkType {
    Inline,
    Reference,
    ReferenceUnknown,
    Collapsed,
    CollapsedUnknown,
    Shortcut,
    ShortcutUnknown,
    Autolink,
    Email,
    /// A wiki link; the flag says whether it has a pothole (`[[dest|text]]`).
    WikiLink(bool),
}

/// The end of an element. Heading levels are 1 to 6; block-quote kinds are
/// note, tip, important, warning, caution as 0 to 4; metadata kinds are YAML
/// style as 0 and pluses style as 1.
#[derive(Clone, Copy)]
pub enum MdTagEnd {
    Paragraph,
    Heading(u8),
    BlockQuote(Option<u8>),
    CodeBlock,
    HtmlBlock,
    /// A list; the flag says whether it is ordered.
    List(bool),
    Item,
    FootnoteDefinition,
    DefinitionList,
    DefinitionListTitle,
    DefinitionListDefinition,
    Table,
    TableHead,
    TableRow,
    TableCell,
    Emphasis,
    Strong,
    Strikethrough,
    Superscript,
    Subscript,
    Link,
    Image,
    MetadataBlock(u8),
}

/// The start of an element, with its attributes. Table alignments are none,
/// left, center, right as 0 to 3; a code block's info string is `None` for an
/// indented block.
pub enum MdTag {
    Paragraph,
    Heading { level: u8, anchor: Option<String>, classes: Vec<String>, attrs: Vec<(String, Option<String>)> },
    BlockQuote(Option<u8>),
    CodeBlock(Option<String>),
    HtmlBlock,
    List(Option<u64>),
    Item,
    FootnoteDefinition(String),
    DefinitionList,
    DefinitionListTitle,
    DefinitionListDefinition,
    Table(Vec<u8>),
    TableHead,
    TableRow,
    TableCell,
    Emphasis,
    Strong,
    Strikethrough,
    Superscript,
    Subscript,
    Link { link_type: MdLinkType, dest: String, title: String, id: String },
    Image { link_type: MdLinkType, dest: String, title: String, id: String },
    MetadataBlock(u8),
}

/// A Markdown event: one of pulldown-cmark's events, its text held as `String`.
pub enum MdEvent {
    Start(MdTag),
    End(MdTagEnd),
    Text(String),
    Code(String),
    InlineMath(String),
    DisplayMath(String),
    Html(String),
    InlineHtml(String),
    FootnoteReference(String),
    SoftBreak,
    HardBreak,
    Rule,
    TaskListMarker(bool),
}

/// `MdTag` with its text as character sequences.
pub enum TagView {
    Paragraph,
    Heading {
        level: u8,
        anchor: Option<Seq<char>>,
        classes: Seq<Seq<char>>,
        attrs: Seq<(Seq<char>, Option<Seq<char>>)>,
    },
    BlockQuote(Option<u8>),
    CodeBlock(Option<Seq<char>>),
    HtmlBlock,
    List(Option<u64>),
    Item,
    FootnoteDefinition(Seq<char>),
    DefinitionList,
    DefinitionListTitle,
    DefinitionListDefinition,
    Table(Seq<u8>),
    TableHead,
    TableRow,
    TableCell,
    Emphasis,
    Strong,
    Strikethrough,
    Superscript,
    Subscript,
    Link { link_type: MdLinkType, dest: Seq<char>, title: Seq<char>, id: Seq<char> },
    Image { link_type: MdLinkType, dest: Seq<char>, title: Seq<char>, id: Seq<char> },
    MetadataBlock(u8),
}

/// `MdEvent` with its text as character sequences.
pub enum EventView {
    Start(TagView),
    End(MdTagEnd),
    Text(Seq<char>),
    Code(Seq<char>),
    InlineMath(Seq<char>),
    DisplayMath(Seq<char>),
    Html(Seq<char>),
    InlineHtml(Seq<char>),
    FootnoteReference(Seq<char>),
    SoftBreak,
    HardBreak,
    Rule,
    TaskListMarker(bool),
}

/// The character sequences of a list of strings.
pub open spec fn strings_view(v: Seq<String>) -> Seq<Seq<char>> {
    v.map_values(|s: String| s@)
}

/// The character sequences of a heading's attributes.
pub open spec fn attrs_view(v: Seq<(String, Option<String>)>) -> Seq<(Seq<char>, Option<Seq<char>>)> {
    v.map_values(|p: (String, Option<String>)| (p.0@, opt_string_view(p.1)))
}

impl View for MdTag {
    type V = TagView;

    open spec fn view(&self) -> TagView {
        match self {
            MdTag::Paragraph => TagView::Paragraph,
            MdTag::Heading { level, anchor, classes, attrs } => TagView::Heading {
                level: *level,
                anchor: opt_string_view(*anchor),
                classes: strings_view(classes@),
                attrs: attrs_view(attrs@),
            },
            MdTag::BlockQuote(k) => TagView::BlockQuote(*k),
            MdTag::CodeBlock(info) => TagView::CodeBlock(opt_string_view(*info)),
            MdTag::HtmlBlock => TagView::HtmlBlock,
            MdTag::List(n) => TagView::List(*n),
            MdTag::Item => TagView::Item,
            MdTag::FootnoteDefinition(s) => TagView::FootnoteDefinition(s@),
            MdTag::DefinitionList => TagView::DefinitionList,
            MdTag::DefinitionListTitle => TagView::DefinitionListTitle,
            MdTag::DefinitionListDefinition => TagView::DefinitionListDefinition,
            MdTag::Table(a) => TagView::Table(a@),
            MdTag::TableHead => TagView::TableHead,
            MdTag::TableRow => TagView::TableRow,
            MdTag::TableCell => TagView::TableCell,
            MdTag::Emphasis => TagView::Emphasis,
            MdTag::Strong => TagView::Strong,
            MdTag::Strikethrough => TagView::Strikethrough,
            MdTag::Superscript => TagView::Superscript,
            MdTag::Subscript => TagView::Subscript,
            MdTag::Link { link_type, dest, title, id } => TagView::Link {
                link_type: *link_type,
                dest: dest@,
                title: title@,
                id: id@,
            },
            MdTag::Image { link_type, dest, title, id } => TagView::Image {
                link_type: *link_type,
                dest: dest@,
                title: title@,
                id: id@,
            },
            MdTag::MetadataBlock(k) => TagView::MetadataBlock(*k),
        }
    }
}

impl View for MdEvent {
    type V = EventView;

    open spec fn view(&self) -> EventView {
        match self {
            MdEvent::Start(t) => EventView::Start(t@),
            MdEvent::End(t) => EventView::End(*t),
            MdEvent::Text(s) => EventView::Text(s@),
            MdEvent::Code(s) => EventView::Code(s@),
            MdEvent::InlineMath(s) => EventView::InlineMath(s@),
            MdEvent::DisplayMath(s) => EventView::DisplayMath(s@),
            MdEvent::Html(s) => EventView::Html(s@),
            MdEvent::InlineHtml(s) => EventView::InlineHtml(s@),
            MdEvent::FootnoteReference(s) => EventView::FootnoteReference(s@),
            MdEvent::SoftBreak => EventView::SoftBreak,
            MdEvent::HardBreak => EventView::HardBreak,
            MdEvent::Rule => EventView::Rule,
            MdEvent::TaskListMarker(b) => EventView::TaskListMarker(*b),
        }
    }
}

/// The views of a list of events.
pub open spec fn events_view(v: Seq<MdEvent>) -> Seq<EventView> {
    v.map_values(|e: MdEvent| e@)
}

/// The view of an optional event.
pub open spec fn opt_event_view(o: Option<MdEvent>) -> Option<EventView> {
    match o {
        Some(e) => Some(e@),
        None => None,
    }
}

/// The text of a pulldown-cmark string (`CowStr::into_string`). Nothing is
/// stated of it: `CowStr` is opaque here.
#[verifier::external_body]
fn cow_string(c: CowStr<'_>) -> String {
    c.into_string()
}

/// A pulldown-cmark string holding `s` (`CowStr::from`). Nothing is stated of
/// it: `CowStr` is opaque here.
#[verifier::external_body]
fn cow_of(s: String) -> CowStr<'static> {
    CowStr::from(s)
}

/// The number of a block-quote kind: note, tip, important, warning, caution
/// as 0 to 4.
pub open spec fn quote_spec(kind: Option<BlockQuoteKind>) -> Option<u8> {
    match kind {
        None => None,
        Some(BlockQuoteKind::Note) => Some(0u8),
        Some(BlockQuoteKind::Tip) => Some(1u8),
        Some(BlockQuoteKind::Important) => Some(2u8),
        Some(BlockQuoteKind::Warning) => Some(3u8),
        Some(BlockQuoteKind::Caution) => Some(4u8),
    }
}

/// The number of a metadata-block kind: YAML style 0, pluses style 1.
pub open spec fn metadata_spec(kind: MetadataBlockKind) -> u8 {
    match kind {
        MetadataBlockKind::YamlStyle => 0,
        MetadataBlockKind::PlusesStyle => 1,
    }
}

/// The number of a table alignment: none, left, center, right as 0 to 3.
pub open spec fn alignment_spec(a: Alignment) -> u8 {
    match a {
        Alignment::None => 0,
        Alignment::Left => 1,
        Alignment::Center => 2,
        Alignment::Right => 3,
    }
}

/// The model of a link kind.
pub open spec fn link_type_spec(t: LinkType) -> MdLinkType {
    match t {
        LinkType::Inline => MdLinkType::Inline,
        LinkType::Reference => MdLinkType::Reference,
        LinkType::ReferenceUnknown => MdLinkType::ReferenceUnknown,
        LinkType::Collapsed => MdLinkType::Collapsed,
        LinkType::CollapsedUnknown => MdLinkType::CollapsedUnknown,
        LinkType::Shortcut => MdLinkType::Shortcut,
        LinkType::ShortcutUnknown => MdLinkType::ShortcutUnknown,
        LinkType::Autolink => MdLinkType::Autolink,
        LinkType::Email => MdLinkType::Email,
        LinkType::WikiLink { has_pothole } => MdLinkType::WikiLink(has_pothole),
    }
}

/// The model of an element's end.
pub open spec fn tag_end_spec(t: TagEnd) -> MdTagEnd {
    match t {
        TagEnd::Paragraph => MdTagEnd::Paragraph,
        TagEnd::Heading(level) => MdTagEnd::Heading(level_number_spec(level)),
        TagEnd::BlockQuote(kind) => MdTagEnd::BlockQuote(quote_spec(kind)),
        TagEnd::CodeBlock => MdTagEnd::CodeBlock,
        TagEnd::HtmlBlock => MdTagEnd::HtmlBlock,
        TagEnd::List(ordered) => MdTagEnd::List(ordered),
        TagEnd::Item => MdTagEnd::Item,
        TagEnd::FootnoteDefinition => MdTagEnd::FootnoteDefinition,
        TagEnd::DefinitionList => MdTagEnd::DefinitionList,
        TagEnd::DefinitionListTitle => MdTagEnd::DefinitionListTitle,
        TagEnd::DefinitionListDefinition => MdTagEnd::DefinitionListDefinition,
        TagEnd::Table => MdTagEnd::Table,
        TagEnd::TableHead => MdTagEnd::TableHead,
        TagEnd::TableRow => MdTagEnd::TableRow,
        TagEnd::TableCell => MdTagEnd::TableCell,
        TagEnd::Emphasis => MdTagEnd::Emphasis,
        TagEnd::Strong => MdTagEnd::Strong,
        TagEnd::Strikethrough => MdTagEnd::Strikethrough,
        TagEnd::Superscript => MdTagEnd::Superscript,
        TagEnd::Subscript => MdTagEnd::Subscript,
        TagEnd::Link => MdTagEnd::Link,
        TagEnd::Image => MdTagEnd::Image,
        TagEnd::MetadataBlock(kind) => MdTagEnd::MetadataBlock(metadata_spec(kind)),
    }
}

/// An element's end whose numbers are in range: a heading level 1 to 6, a
/// block-quote kind up to 4, a metadata kind up to 1.
pub open spec fn end_in_range(t: MdTagEnd) -> bool {
    match t {
        MdTagEnd::Heading(level) => 1 <= level <= 6,
        MdTagEnd::BlockQuote(Some(kind)) => kind <= 4,
        MdTagEnd::MetadataBlock(kind) => kind <= 1,
        _ => true,
    }
}

fn level_number(level: HeadingLevel) -> (n: u8)
    ensures
        n == level_number_spec(level),
{
    match level {
        HeadingLevel::H1 => 1,
        HeadingLevel::H2 => 2,
        HeadingLevel::H3 => 3,
        HeadingLevel::H4 => 4,
        HeadingLevel::H5 => 5,
        HeadingLevel::H6 => 6,
    }
}

fn heading_level(n: u8) -> (level: HeadingLevel)
    ensures
        1 <= n <= 6 ==> level_number_spec(level) == n,
{
    match n {
        1 => HeadingLevel::H1,
        2 => HeadingLevel::H2,
        3 => HeadingLevel::H3,
        4 => HeadingLevel::H4,
        5 => HeadingLevel::H5,
        _ => HeadingLevel::H6,
    }
}

/// The number of a heading level.
pub open spec fn level_number_spec(level: HeadingLevel) -> u8 {
    match level {
        HeadingLevel::H1 => 1,
        HeadingLevel::H2 => 2,
        HeadingLevel::H3 => 3,
        HeadingLevel::H4 => 4,
        HeadingLevel::H5 => 5,
        HeadingLevel::H6 => 6,
    }
}

fn quote_number(kind: Option<BlockQuoteKind>) -> (n: Option<u8>)
    ensures
        n == quote_spec(kind),
{
    match kind {
        None => None,
        Some(BlockQuoteKind::Note) => Some(0),
        Some(BlockQuoteKind::Tip) => Some(1),
        Some(BlockQuoteKind::Important) => Some(2),
        Some(BlockQuoteKind::Warning) => Some(3),
        Some(BlockQuoteKind::Caution) => Some(4),
    }
}

fn quote_kind(n: Option<u8>) -> (kind: Option<BlockQuoteKind>)
    ensures
        (n matches Some(k) ==> k <= 4) ==> quote_spec(kind) == n,
{
    match n {
        None => None,
        Some(0) => Some(BlockQuoteKind::Note),
        Some(1) => Some(BlockQuoteKind::Tip),
        Some(2) => Some(BlockQuoteKind::Important),
        Some(3) => Some(BlockQuoteKind::Warning),
        Some(_) => Some(BlockQuoteKind::Caution),
    }
}

fn metadata_number(kind: MetadataBlockKind) -> (n: u8)
    ensures
        n == metadata_spec(kind),
{
    match kind {
        MetadataBlockKind::YamlStyle => 0,
        MetadataBlockKind::PlusesStyle => 1,
    }
}

fn metadata_kind(n: u8) -> (kind: MetadataBlockKind)
    ensures
        n <= 1 ==> metadata_spec(kind) == n,
{
    if n == 0 {
        MetadataBlockKind::YamlStyle
    } else {
        MetadataBlockKind::PlusesStyle
    }
}

fn link_type_model(t: LinkType) -> (r: MdLinkType)
    ensures
        r == link_type_spec(t),
{
    match t {
        LinkType::Inline => MdLinkType::Inline,
        LinkType::Reference => MdLinkType::Reference,
        LinkType::ReferenceUnknown => MdLinkType::ReferenceUnknown,
        LinkType::Collapsed => MdLinkType::Collapsed,
        LinkType::CollapsedUnknown => MdLinkType::CollapsedUnknown,
        LinkType::Shortcut => MdLinkType::Shortcut,
        LinkType::ShortcutUnknown => MdLinkType::ShortcutUnknown,
        LinkType::Autolink => MdLinkType::Autolink,
        LinkType::Email => MdLinkType::Email,
        LinkType::WikiLink { has_pothole } => MdLinkType::WikiLink(has_pothole),
    }
}

fn link_type_of(t: MdLinkType) -> (r: LinkType)
    ensures
        link_type_spec(r) == t,
{
    match t {
        MdLinkType::Inline => LinkType::Inline,
        MdLinkType::Reference => LinkType::Reference,
        MdLinkType::ReferenceUnknown => LinkType::ReferenceUnknown,
        MdLinkType::Collapsed => LinkType::Collapsed,
        MdLinkType::CollapsedUnknown => LinkType::CollapsedUnknown,
        MdLinkType::Shortcut => LinkType::Shortcut,
        MdLinkType::ShortcutUnknown => LinkType::ShortcutUnknown,
        MdLinkType::Autolink => LinkType::Autolink,
        MdLinkType::Email => LinkType::Email,
        MdLinkType::WikiLink(has_pothole) => LinkType::WikiLink { has_pothole },
    }
}

fn tag_end_model(t: TagEnd) -> (r: MdTagEnd)
    ensures
        r == tag_end_spec(t),
        end_in_range(r),
{
    match t {
        TagEnd::Paragraph => MdTagEnd::Paragraph,
        TagEnd::Heading(level) => MdTagEnd::Heading(level_number(level)),
        TagEnd::BlockQuote(kind) => MdTagEnd::BlockQuote(quote_number(kind)),
        TagEnd::CodeBlock => MdTagEnd::CodeBlock,
        TagEnd::HtmlBlock => MdTagEnd::HtmlBlock,
        TagEnd::List(ordered) => MdTagEnd::List(ordered),
        TagEnd::Item => MdTagEnd::Item,
        TagEnd::FootnoteDefinition => MdTagEnd::FootnoteDefinition,
        TagEnd::DefinitionList => MdTagEnd::DefinitionList,
        TagEnd::DefinitionListTitle => MdTagEnd::DefinitionListTitle,
        TagEnd::DefinitionListDefinition => MdTagEnd::DefinitionListDefinition,
        TagEnd::Table => MdTagEnd::Table,
        TagEnd::TableHead => MdTagEnd::TableHead,
        TagEnd::TableRow => MdTagEnd::TableRow,
        TagEnd::TableCell => MdTagEnd::TableCell,
        TagEnd::Emphasis => MdTagEnd::Emphasis,
        TagEnd::Strong => MdTagEnd::Strong,
        TagEnd::Strikethrough => MdTagEnd::Strikethrough,
        TagEnd::Superscript => MdTagEnd::Superscript,
        TagEnd::Subscript => MdTagEnd::Subscript,
        TagEnd::Link => MdTagEnd::Link,
        TagEnd::Image => MdTagEnd::Image,
        TagEnd::MetadataBlock(kind) => MdTagEnd::MetadataBlock(metadata_number(kind)),
    }
}

fn tag_end_of(t: MdTagEnd) -> (r: TagEnd)
    ensures
        end_in_range(t) ==> tag_end_spec(r) == t,
{
    match t {
        MdTagEnd::Paragraph => TagEnd::Paragraph,
        MdTagEnd::Heading(level) => TagEnd::Heading(heading_level(level)),
        MdTagEnd::BlockQuote(kind) => TagEnd::BlockQuote(quote_kind(kind)),
        MdTagEnd::CodeBlock => TagEnd::CodeBlock,
        MdTagEnd::HtmlBlock => TagEnd::HtmlBlock,
        MdTagEnd::List(ordered) => TagEnd::List(ordered),
        MdTagEnd::Item => TagEnd::Item,
        MdTagEnd::FootnoteDefinition => TagEnd::FootnoteDefinition,
        MdTagEnd::DefinitionList => TagEnd::DefinitionList,
        MdTagEnd::DefinitionListTitle => TagEnd::DefinitionListTitle,
        MdTagEnd::DefinitionListDefinition => TagEnd::DefinitionListDefinition,
        MdTagEnd::Table => TagEnd::Table,
        MdTagEnd::TableHead => TagEnd::TableHead,
        MdTagEnd::TableRow => TagEnd::TableRow,
        MdTagEnd::TableCell => TagEnd::TableCell,
        MdTagEnd::Emphasis => TagEnd::Emphasis,
        MdTagEnd::Strong => TagEnd::Strong,
        MdTagEnd::Strikethrough => TagEnd::Strikethrough,
        MdTagEnd::Superscript => TagEnd::Superscript,
        MdTagEnd::Subscript => TagEnd::Subscript,
        MdTagEnd::Link => TagEnd::Link,
        MdTagEnd::Image => TagEnd::Image,
        MdTagEnd::MetadataBlock(kind) => TagEnd::MetadataBlock(metadata_kind(kind)),
    }
}

fn opt_cow_model(o: Option<CowStr<'_>>) -> (r: Option<String>)
    ensures
        r.is_some() == o.is_some(),
{
    match o {
        Some(c) => Some(cow_string(c)),
        None => None,
    }
}

fn opt_cow_of(o: Option<String>) -> (r: Option<CowStr<'static>>)
    ensures
        r.is_some() == o.is_some(),
{
    match o {
        Some(s) => Some(cow_of(s)),
        None => None,
    }
}

fn cows_model(v: Vec<CowStr<'_>>) -> (r: Vec<String>)
    ensures
        r.len() == v.len(),
{
    let mut rest = v;
    let mut out: Vec<String> = Vec::new();
    while rest.len() > 0
        invariant
            out.len() + rest.len() == v.len(),
        decreases rest.len(),
    {
        let c = rest.remove(0);
        out.push(cow_string(c));
    }
    out
}

fn cows_of(v: Vec<String>) -> (r: Vec<CowStr<'static>>)
    ensures
        r.len() == v.len(),
{
    let mut rest = v;
    let mut out: Vec<CowStr<'static>> = Vec::new();
    while rest.len() > 0
        invariant
            out.len() + rest.len() == v.len(),
        decreases rest.len(),
    {
        let s = rest.remove(0);
        out.push(cow_of(s));
    }
    out
}

fn attrs_model(v: Vec<(CowStr<'_>, Option<CowStr<'_>>)>) -> (r: Vec<(String, Option<String>)>)
    ensures
        r.len() == v.len(),
{
    let mut rest = v;
    let mut out: Vec<(String, Option<String>)> = Vec::new();
    while rest.len() > 0
        invariant
            out.len() + rest.len() == v.len(),
        decreases rest.len(),
    {
        let (k, val) = rest.remove(0);
        out.push((cow_string(k), opt_cow_model(val)));
    }
    out
}

fn attrs_of(v: Vec<(String, Option<String>)>) -> (r: Vec<(CowStr<'static>, Option<CowStr<'static>>)>)
    ensures
        r.len() == v.len(),
{
    let mut rest = v;
    let mut out: Vec<(CowStr<'static>, Option<CowStr<'static>>)> = Vec::new();
    while rest.len() > 0
        invariant
            out.len() + rest.len() == v.len(),
        decreases rest.len(),
    {
        let (k, val) = rest.remove(0);
        out.push((cow_of(k), opt_cow_of(val)));
    }
    out
}

fn alignments_model(v: &Vec<Alignment>) -> (r: Vec<u8>)
    ensures
        r@ == v@.map_values(|a: Alignment| alignment_spec(a)),
{
    let mut out: Vec<u8> = Vec::new();
    let mut i: usize = 0;
    while i < v.len()
        invariant
            i <= v.len(),
            out@ == v@.take(i as int).map_values(|a: Alignment| alignment_spec(a)),
        decreases v.len() - i,
    {
        let n: u8 = match v[i] {
            Alignment::None => 0,
            Alignment::Left => 1,
            Alignment::Center => 2,
            Alignment::Right => 3,
        };
        out.push(n);
        assert(v@.take(i + 1) =~= v@.take(i as int).push(v[i as int]));
        i = i + 1;
        assert(out@ =~= v@.take(i as int).map_values(|a: Alignment| alignment_spec(a)));
    }
    assert(v@.take(v.len() as int) =~= v@);
    out
}

fn alignments_of(v: &Vec<u8>) -> (r: Vec<Alignment>)
    ensures
        r.len() == v.len(),
        forall|k: int| 0 <= k < v.len() && v[k] <= 3 ==> alignment_spec(#[trigger] r[k]) == v[k],
{
    let mut out: Vec<Alignment> = Vec::new();
    let mut i: usize = 0;
    while i < v.len()
        invariant
            i <= v.len(),
            out.len() == i,
            forall|k: int| 0 <= k < i && v[k] <= 3 ==> alignment_spec(#[trigger] out[k]) == v[k],
        decreases v.len() - i,
    {
        let a = match v[i] {
            0 => Alignment::None,
            1 => Alignment::Left,
            2 => Alignment::Center,
            _ => Alignment::Right,
        };
        out.push(a);
        i = i + 1;
    }
    out
}

/// `m` is `t` in the model, all but its text, which is opaque here: the same
/// element, with the same level, kinds, list start, alignments and number of
/// classes and attributes.
pub open spec fn tag_matches(t: Tag, m: MdTag) -> bool {
    match t {
        Tag::Paragraph => m is Paragraph,
        Tag::Heading { level, id, classes, attrs } => m matches MdTag::Heading {
            level: l,
            anchor,
            classes: c,
            attrs: a,
        } && l == level_number_spec(level) && anchor.is_some() == id.is_some() && c.len()
            == classes.len() && a.len() == attrs.len(),
        Tag::BlockQuote(kind) => m matches MdTag::BlockQuote(k) && k == quote_spec(kind),
        Tag::CodeBlock(CodeBlockKind::Indented) => m matches MdTag::CodeBlock(None),
        Tag::CodeBlock(CodeBlockKind::Fenced(_)) => m matches MdTag::CodeBlock(Some(_)),
        Tag::List(start) => m matches MdTag::List(s) && s == start,
        Tag::FootnoteDefinition(_) => m is FootnoteDefinition,
        Tag::Table(alignments) => m matches MdTag::Table(a) && a@ == alignments@.map_values(
            |x: Alignment| alignment_spec(x),
        ),
        Tag::Link { link_type, .. } => m matches MdTag::Link { link_type: lt, .. } && lt
            == link_type_spec(link_type),
        Tag::Image { link_type, .. } => m matches MdTag::Image { link_type: lt, .. } && lt
            == link_type_spec(link_type),
        Tag::MetadataBlock(kind) => m matches MdTag::MetadataBlock(k) && k == metadata_spec(kind),
        Tag::HtmlBlock => m is HtmlBlock,
        Tag::Item => m is Item,
        Tag::DefinitionList => m is DefinitionList,
        Tag::DefinitionListTitle => m is DefinitionListTitle,
        Tag::DefinitionListDefinition => m is DefinitionListDefinition,
        Tag::TableHead => m is TableHead,
        Tag::TableRow => m is TableRow,
        Tag::TableCell => m is TableCell,
        Tag::Emphasis => m is Emphasis,
        Tag::Strong => m is Strong,
        Tag::Strikethrough => m is Strikethrough,
        Tag::Superscript => m is Superscript,
        Tag::Subscript => m is Subscript,
    }
}

/// A model element whose numbers are in range: a heading level 1 to 6, a
/// block-quote kind up to 4, alignments up to 3, a metadata kind up to 1.
pub open spec fn tag_in_range(m: MdTag) -> bool {
    match m {
        MdTag::Heading { level, .. } => 1 <= level <= 6,
        MdTag::BlockQuote(Some(kind)) => kind <= 4,
        MdTag::Table(a) => forall|k: int| 0 <= k < a.len() ==> a[k] <= 3,
        MdTag::MetadataBlock(kind) => kind <= 1,
        _ => true,
    }
}

/// `m` is `e` in the model, all but its text, which is opaque here.
pub open spec fn event_matches(e: Event, m: MdEvent) -> bool {
    match e {
        Event::Start(t) => m matches MdEvent::Start(mt) && tag_matches(t, mt),
        Event::End(t) => m matches MdEvent::End(x) && x == tag_end_spec(t),
        Event::Text(_) => m is Text,
        Event::Code(_) => m is Code,
        Event::InlineMath(_) => m is InlineMath,
        Event::DisplayMath(_) => m is DisplayMath,
        Event::Html(_) => m is Html,
        Event::InlineHtml(_) => m is InlineHtml,
        Event::FootnoteReference(_) => m is FootnoteReference,
        Event::SoftBreak => m is SoftBreak,
        Event::HardBreak => m is HardBreak,
        Event::Rule => m is Rule,
        Event::TaskListMarker(checked) => m matches MdEvent::TaskListMarker(c) && c == checked,
    }
}

/// A model event whose numbers are in range.
pub open spec fn event_in_range(m: MdEvent) -> bool {
    match m {
        MdEvent::Start(t) => tag_in_range(t),
        MdEvent::End(t) => end_in_range(t),
        _ => true,
    }
}

fn tag_model(t: Tag<'_>) -> (r: MdTag)
    ensures
        tag_matches(t, r),
        tag_in_range(r),
{
    match t {
        Tag::Paragraph => MdTag::Paragraph,
        Tag::Heading { level, id, classes, attrs } => MdTag::Heading {
            level: level_number(level),
            anchor: opt_cow_model(id),
            classes: cows_model(classes),
            attrs: attrs_model(attrs),
        },
        Tag::BlockQuote(kind) => MdTag::BlockQuote(quote_number(kind)),
        Tag::CodeBlock(CodeBlockKind::Indented) => MdTag::CodeBlock(None),
        Tag::CodeBlock(CodeBlockKind::Fenced(info)) => MdTag::CodeBlock(Some(cow_string(info))),
        Tag::HtmlBlock => MdTag::HtmlBlock,
        Tag::List(start) => MdTag::List(start),
        Tag::Item => MdTag::Item,
        Tag::FootnoteDefinition(label) => MdTag::FootnoteDefinition(cow_string(label)),
        Tag::DefinitionList => MdTag::DefinitionList,
        Tag::DefinitionListTitle => MdTag::DefinitionListTitle,
        Tag::DefinitionListDefinition => MdTag::DefinitionListDefinition,
        Tag::Table(alignments) => MdTag::Table(alignments_model(&alignments)),
        Tag::TableHead => MdTag::TableHead,
        Tag::TableRow => MdTag::TableRow,
        Tag::TableCell => MdTag::TableCell,
        Tag::Emphasis => MdTag::Emphasis,
        Tag::Strong => MdTag::Strong,
        Tag::Strikethrough => MdTag::Strikethrough,
        Tag::Superscript => MdTag::Superscript,
        Tag::Subscript => MdTag::Subscript,
        Tag::Link { link_type, dest_url, title, id } => MdTag::Link {
            link_type: link_type_model(link_type),
            dest: cow_string(dest_url),
            title: cow_string(title),
            id: cow_string(id),
        },
        Tag::Image { link_type, dest_url, title, id } => MdTag::Image {
            link_type: link_type_model(link_type),
            dest: cow_string(dest_url),
            title: cow_string(title),
            id: cow_string(id),
        },
        Tag::MetadataBlock(kind) => MdTag::MetadataBlock(metadata_number(kind)),
    }
}

fn tag_of(t: MdTag) -> (r: Tag<'static>)
    ensures
        tag_in_range(t) ==> tag_matches(r, t),
{
    match t {
        MdTag::Paragraph => Tag::Paragraph,
        MdTag::Heading { level, anchor, classes, attrs } => Tag::Heading {
            level: heading_level(level),
            id: opt_cow_of(anchor),
            classes: cows_of(classes),
            attrs: attrs_of(attrs),
        },
        MdTag::BlockQuote(kind) => Tag::BlockQuote(quote_kind(kind)),
        MdTag::CodeBlock(None) => Tag::CodeBlock(CodeBlockKind::Indented),
        MdTag::CodeBlock(Some(info)) => Tag::CodeBlock(CodeBlockKind::Fenced(cow_of(info))),
        MdTag::HtmlBlock => Tag::HtmlBlock,
        MdTag::List(start) => Tag::List(start),
        MdTag::Item => Tag::Item,
        MdTag::FootnoteDefinition(label) => Tag::FootnoteDefinition(cow_of(label)),
        MdTag::DefinitionList => Tag::DefinitionList,
        MdTag::DefinitionListTitle => Tag::DefinitionListTitle,
        MdTag::DefinitionListDefinition => Tag::DefinitionListDefinition,
        MdTag::Table(alignments) => {
            let a = alignments_of(&alignments);
            assert(tag_in_range(t) ==> a@.map_values(|x: Alignment| alignment_spec(x))
                =~= alignments@);
            Tag::Table(a)
        },
        MdTag::TableHead => Tag::TableHead,
        MdTag::TableRow => Tag::TableRow,
        MdTag::TableCell => Tag::TableCell,
        MdTag::Emphasis => Tag::Emphasis,
        MdTag::Strong => Tag::Strong,
        MdTag::Strikethrough => Tag::Strikethrough,
        MdTag::Superscript => Tag::Superscript,
        MdTag::Subscript => Tag::Subscript,
        MdTag::Link { link_type, dest, title, id } => Tag::Link {
            link_type: link_type_of(link_type),
            dest_url: cow_of(dest),
            title: cow_of(title),
            id: cow_of(id),
        },
        MdTag::Image { link_type, dest, title, id } => Tag::Image {
            link_type: link_type_of(link_type),
            dest_url: cow_of(dest),
            title: cow_of(title),
            id: cow_of(id),
        },
        MdTag::MetadataBlock(kind) => Tag::MetadataBlock(metadata_kind(kind)),
    }
}

/// One of pulldown-cmark's events in the library's model, field by field.
fn event_model(e: Event<'_>) -> (r: MdEvent)
    ensures
        event_matches(e, r),
        event_in_range(r),
{
    match e {
        Event::Start(tag) => MdEvent::Start(tag_model(tag)),
        Event::End(tag) => MdEvent::End(tag_end_model(tag)),
        Event::Text(s) => MdEvent::Text(cow_string(s)),
        Event::Code(s) => MdEvent::Code(cow_string(s)),
        Event::InlineMath(s) => MdEvent::InlineMath(cow_string(s)),
        Event::DisplayMath(s) => MdEvent::DisplayMath(cow_string(s)),
        Event::Html(s) => MdEvent::Html(cow_string(s)),
        Event::InlineHtml(s) => MdEvent::InlineHtml(cow_string(s)),
        Event::FootnoteReference(s) => MdEvent::FootnoteReference(cow_string(s)),
        Event::SoftBreak => MdEvent::SoftBreak,
        Event::HardBreak => MdEvent::HardBreak,
        Event::Rule => MdEvent::Rule,
        Event::TaskListMarker(checked) => MdEvent::TaskListMarker(checked),
    }
}

/// A model event as pulldown-cmark's event, field by field.
fn event_of(e: MdEvent) -> (r: Event<'static>)
    ensures
        event_in_range(e) ==> event_matches(r, e),
{
    match e {
        MdEvent::Start(tag) => Event::Start(tag_of(tag)),
        MdEvent::End(tag) => Event::End(tag_end_of(tag)),
        MdEvent::Text(s) => Event::Text(cow_of(s)),
        MdEvent::Code(s) => Event::Code(cow_of(s)),
        MdEvent::InlineMath(s) => Event::InlineMath(cow_of(s)),
        MdEvent::DisplayMath(s) => Event::DisplayMath(cow_of(s)),
        MdEvent::Html(s) => Event::Html(cow_of(s)),
        MdEvent::InlineHtml(s) => Event::InlineHtml(cow_of(s)),
        MdEvent::FootnoteReference(s) => Event::FootnoteReference(cow_of(s)),
        MdEvent::SoftBreak => Event::SoftBreak,
        MdEvent::HardBreak => Event::HardBreak,
        MdEvent::Rule => Event::Rule,
        MdEvent::TaskListMarker(checked) => Event::TaskListMarker(checked),
    }
}

/// The events that pulldown-cmark's `Parser::new_ext` gives for `markdown`,
/// with tables, strikethrough and task lists switched on as the flags say.
pub uninterp spec fn parsed(markdown: Seq<char>, tables: bool, strikethrough: bool, tasklists: bool) -> Seq<EventView>;

/// The HTML that `pulldown_cmark::html::push_html` writes for `events`.
pub uninterp spec fn html_of(events: Seq<EventView>) -> Seq<char>;

/// Whether `pat` occurs in `s`.
pub open spec fn occurs(s: Seq<char>, pat: Seq<char>) -> bool {
    exists|i: int| 0 <= i && i + pat.len() <= s.len() && #[trigger] s.subrange(i, i + pat.len()) == pat
}

/// Raw HTML, block or inline.
pub open spec fn is_raw_html(e: EventView) -> bool {
    e is Html || e is InlineHtml
}

/// The start of an image.
pub open spec fn is_image_start(e: EventView) -> bool {
    e matches EventView::Start(TagView::Image { .. })
}

/// No event is raw HTML.
pub open spec fn no_raw_html(events: Seq<EventView>) -> bool {
    forall|k: int| 0 <= k < events.len() ==> !is_raw_html(#[trigger] events[k])
}

/// No event starts an image.
pub open spec fn no_image(events: Seq<EventView>) -> bool {
    forall|k: int| 0 <= k < events.len() ==> !is_image_start(#[trigger] events[k])
}

/// `Parser::new_ext` on `markdown`, with the options that the three flags
/// switch on, each event taken into the model. Claimed: the events are the
/// named `parsed` of the text and the flags.
#[verifier::external_body]
fn parse_markdown(markdown: &str, tables: bool, strikethrough: bool, tasklists: bool) -> (r: Vec<MdEvent>)
    ensures
        events_view(r@) == parsed(markdown@, tables, strikethrough, tasklists),
{
    let mut options = Options::empty();
    options.set(Options::ENABLE_TABLES, tables);
    options.set(Options::ENABLE_STRIKETHROUGH, strikethrough);
    options.set(Options::ENABLE_TASKLISTS, tasklists);
    Parser::new_ext(markdown, options).map(|e| event_model(e)).collect()
}

/// `pulldown_cmark::html::push_html` into a new `String`, each event taken
/// back from the model. Claimed: the HTML is the named `html_of` of the
/// events. Claimed too, as the renderer's source shows: it escapes `<` in
/// text, code, attributes and link destinations, so a `<` comes only from its
/// own fixed tags or from raw HTML events; hence `<script` and `<link` occur
/// only if some event is raw HTML, and `<img` only if some event is raw HTML
/// or starts an image.
#[verifier::external_body]
fn push_html(events: Vec<MdEvent>) -> (r: String)
    ensures
        r@ == html_of(events_view(events@)),
        no_raw_html(events_view(events@)) ==> !occurs(r@, "<script"@) && !occurs(r@, "<link"@),
        no_raw_html(events_view(events@)) && no_image(events_view(events@)) ==> !occurs(r@, "<img"@),
{
    let mut out = String::new();
    pulldown_cmark::html::push_html(&mut out, events.into_iter().map(|e| event_of(e)));
    out
}

/// The ASCII-lowercase form of every character of `s`.
pub open spec fn ascii_lower_all(s: Seq<char>) -> Seq<char> {
    s.map_values(|c: char| ascii_lower(c))
}

/// A link destination that may stay a link: a fragment, an absolute or
/// relative path, an `http`, `https` or `mailto` URL (scheme in any ASCII
/// case), or anything without a `:` (no scheme at all).
pub open spec fn link_allowed(dest: Seq<char>) -> bool {
    let v = trim(dest);
    let lower = ascii_lower_all(v);
    ||| starts_with(v, "#"@)
    ||| starts_with(v, "/"@)
    ||| starts_with(v, "./"@)
    ||| starts_with(v, "../"@)
    ||| starts_with(lower, "https://"@)
    ||| starts_with(lower, "http://"@)
    ||| starts_with(lower, "mailto:"@)
    ||| !v.contains(':')
}

/// The destination a link keeps: itself when allowed, `#unsafe-link` otherwise.
pub open spec fn safe_link(dest: Seq<char>) -> Seq<char> {
    if link_allowed(dest) {
        dest
    } else {
        "#unsafe-link"@
    }
}

/// Whether `v` starts with the characters of `lit`.
fn starts_with_str(v: &[char], lit: &str) -> (b: bool)
    ensures
        b == starts_with(v@, lit@),
{
    let p = chars_of(lit);
    has_prefix(v, p.as_slice())
}

/// Keeps a link destination when its scheme is safe and replaces it with
/// `#unsafe-link` otherwise.
pub fn sanitize_link(destination: &str) -> (r: String)
    ensures
        r@ == safe_link(destination@),
{
    let d = chars_of(destination);
    let value = trimmed(d.as_slice());
    let mut lower: Vec<char> = Vec::new();
    let mut i: usize = 0;
    while i < value.len()
        invariant
            i <= value@.len(),
            lower@ == ascii_lower_all(value@).take(i as int),
        decreases value.len() - i,
    {
        lower.push(to_ascii_lower(value[i]));
        i = i + 1;
        assert(lower@ =~= ascii_lower_all(value@).take(i as int));
    }
    assert(ascii_lower_all(value@).take(value@.len() as int) =~= ascii_lower_all(value@));
    let allowed = starts_with_str(value, "#") || starts_with_str(value, "/") || starts_with_str(
        value,
        "./",
    ) || starts_with_str(value, "../") || starts_with_str(lower.as_slice(), "https://")
        || starts_with_str(lower.as_slice(), "http://") || starts_with_str(
        lower.as_slice(),
        "mailto:",
    ) || !has_char(value, ':');
    if allowed {
        string_of(d.as_slice())
    } else {
        let mut s = String::new();
        push_str(&mut s, "#unsafe-link");
        assert(s@ =~= "#unsafe-link"@);
        s
    }
}

/// What an event becomes: raw HTML becomes text of the same characters, a
/// link keeps its parts with its destination made safe, an image start becomes
/// the text `画像: `, an image end is dropped, anything else passes through.
pub open spec fn sanitize_view(e: EventView) -> Option<EventView> {
    match e {
        EventView::Html(raw) => Some(EventView::Text(raw)),
        EventView::InlineHtml(raw) => Some(EventView::Text(raw)),
        EventView::Start(TagView::Link { link_type, dest, title, id }) => Some(
            EventView::Start(TagView::Link { link_type, dest: safe_link(dest), title, id }),
        ),
        EventView::Start(TagView::Image { .. }) => Some(EventView::Text("画像: "@)),
        EventView::End(MdTagEnd::Image) => None,
        _ => Some(e),
    }
}

/// The events left after sanitizing each of `events` in order, those that
/// sanitize to nothing left out.
pub open spec fn sanitize_all(events: Seq<EventView>) -> Seq<EventView>
    decreases events.len(),
{
    if events.len() == 0 {
        Seq::empty()
    } else {
        let rest = sanitize_all(events.drop_last());
        match sanitize_view(events.last()) {
            Some(e) => rest.push(e),
            None => rest,
        }
    }
}

/// Makes one event safe to render.
pub fn sanitize_event(event: MdEvent) -> (r: Option<MdEvent>)
    ensures
        opt_event_view(r) == sanitize_view(event@),
{
    match event {
        MdEvent::Html(raw) => Some(MdEvent::Text(raw)),
        MdEvent::InlineHtml(raw) => Some(MdEvent::Text(raw)),
        MdEvent::Start(MdTag::Link { link_type, dest, title, id }) => {
            let safe = sanitize_link(dest.as_str());
            Some(MdEvent::Start(MdTag::Link { link_type, dest: safe, title, id }))
        },
        MdEvent::Start(MdTag::Image { .. }) => {
            let mut s = String::new();
            push_str(&mut s, "画像: ");
            assert(s@ =~= "画像: "@);
            Some(MdEvent::Text(s))
        },
        MdEvent::End(MdTagEnd::Image) => None,
        other => Some(other),
    }
}

/// Sanitizes every event, in order, dropping those that sanitize to nothing.
pub fn sanitize_events(events: Vec<MdEvent>) -> (out: Vec<MdEvent>)
    ensures
        events_view(out@) == sanitize_all(events_view(events@)),
{
    let ghost all = events@;
    let len = events.len();
    let ghost n = all.len();
    let mut out: Vec<MdEvent> = Vec::new();
    let mut rest = events;
    let mut i: usize = 0;
    assert(events_view(all.take(0)) =~= Seq::<EventView>::empty());
    assert(rest@ =~= all.subrange(0, n as int));
    while rest.len() > 0
        invariant
            i + rest@.len() == n,
            i <= n,
            n == all.len() == len,
            rest@ == all.subrange(i as int, n as int),
            events_view(out@) == sanitize_all(events_view(all.take(i as int))),
        decreases rest.len(),
    {
        let e = rest.remove(0);
        assert(e == all[i as int]);
        assert(rest@ =~= all.subrange(i + 1, n as int));
        let ghost prev = out@;
        assert(events_view(all.take(i + 1)).drop_last() =~= events_view(all.take(i as int)));
        assert(events_view(all.take(i + 1)).last() == e@);
        match sanitize_event(e) {
            Some(s) => {
                out.push(s);
                assert(events_view(out@) =~= events_view(prev).push(s@));
            },
            None => {},
        }
        i = i + 1;
    }
    assert(all.take(n as int) =~= all);
    out
}

/// An event that can run or embed nothing: no raw HTML, no image, and a link
/// only with a safe or replaced destination.
pub open spec fn event_inert(e: EventView) -> bool {
    match e {
        EventView::Html(_) => false,
        EventView::InlineHtml(_) => false,
        EventView::Start(TagView::Image { .. }) => false,
        EventView::End(MdTagEnd::Image) => false,
        EventView::Start(TagView::Link { dest, .. }) => link_allowed(dest) || dest == "#unsafe-link"@,
        _ => true,
    }
}

/// Every event of `events` is inert.
pub open spec fn inert(events: Seq<EventView>) -> bool {
    forall|k: int| 0 <= k < events.len() ==> event_inert(#[trigger] events[k])
}

proof fn lemma_safe_link_inert(dest: Seq<char>)
    ensures
        link_allowed(safe_link(dest)) || safe_link(dest) == "#unsafe-link"@,
{
}

/// After sanitizing, the events hold no raw HTML and no image, and every link
/// destination is safe or replaced.
pub proof fn lemma_sanitized_inert(events: Seq<EventView>)
    ensures
        inert(sanitize_all(events)),
    decreases events.len(),
{
    if events.len() > 0 {
        lemma_sanitized_inert(events.drop_last());
        let rest = sanitize_all(events.drop_last());
        let e = events.last();
        match sanitize_view(e) {
            Some(x) => {
                assert(event_inert(x)) by {
                    match e {
                        EventView::Start(TagView::Link { dest, .. }) => {
                            lemma_safe_link_inert(dest);
                        },
                        _ => {},
                    }
                }
                assert forall|k: int| 0 <= k < rest.push(x).len() implies event_inert(
                    #[trigger] rest.push(x)[k],
                ) by {
                    if k < rest.len() {
                        assert(rest.push(x)[k] == rest[k]);
                    }
                }
            },
            None => {},
        }
    }
}

/// The HTML of `markdown`: pulldown-cmark's events with tables, strikethrough
/// and task lists, sanitized, then rendered.
pub open spec fn markdown_html(markdown: Seq<char>) -> Seq<char> {
    html_of(sanitize_all(parsed(markdown, true, true, true)))
}

/// Renders Markdown as HTML with tables, strikethrough and task lists, raw
/// HTML shown as text, images replaced by a text marker and unsafe links
/// disarmed. The HTML holds no `<script`, `<link` or `<img`.
pub fn render_markdown(markdown: &str) -> (r: String)
    ensures
        r@ == markdown_html(markdown@),
        !occurs(r@, "<script"@),
        !occurs(r@, "<link"@),
        !occurs(r@, "<img"@),
{
    let events = parse_markdown(markdown, true, true, true);
    let safe = sanitize_events(events);
    proof {
        let v = sanitize_all(parsed(markdown@, true, true, true));
        lemma_sanitized_inert(parsed(markdown@, true, true, true));
        assert(no_raw_html(v)) by {
            assert forall|k: int| 0 <= k < v.len() implies !is_raw_html(#[trigger] v[k]) by {
                assert(event_inert(v[k]));
            }
        }
        assert(no_image(v)) by {
            assert forall|k: int| 0 <= k < v.len() implies !is_image_start(#[trigger] v[k]) by {
                assert(event_inert(v[k]));
            }
        }
    }
    push_html(safe)
}

/// Sanitizing a link start keeps its kind, title and id; it keeps the
/// destination itself when the link rule allows it (a fragment, a path, an
/// `http`, `https` or `mailto` URL, or no scheme) and replaces it with
/// `#unsafe-link` otherwise.
pub proof fn lemma_link_destination_kept_when_allowed(
    link_type: MdLinkType,
    dest: Seq<char>,
    title: Seq<char>,
    id: Seq<char>,
)
    ensures
        link_allowed(dest) ==> sanitize_view(EventView::Start(TagView::Link { link_type, dest, title, id }))
            == Some(EventView::Start(TagView::Link { link_type, dest, title, id })),
        !link_allowed(dest) ==> sanitize_view(EventView::Start(TagView::Link { link_type, dest, title, id }))
            == Some(EventView::Start(TagView::Link { link_type, dest: "#unsafe-link"@, title, id })),
{
}

/// A destination whose scheme is `javascript:`, `data:` or `vbscript:` (in any
/// ASCII case, after trimming) is never allowed, so it never stays a link.
pub proof fn lemma_dangerous_schemes_refused(dest: Seq<char>)
    ensures
        (starts_with(ascii_lower_all(trim(dest)), "javascript:"@) || starts_with(
            ascii_lower_all(trim(dest)),
            "data:"@,
        ) || starts_with(ascii_lower_all(trim(dest)), "vbscript:"@)) ==> !link_allowed(dest)
            && safe_link(dest) == "#unsafe-link"@,
{
    reveal_strlit("javascript:");
    reveal_strlit("data:");
    reveal_strlit("vbscript:");
    reveal_strlit("#");
    reveal_strlit("/");
    reveal_strlit("./");
    reveal_strlit("../");
    reveal_strlit("https://");
    reveal_strlit("http://");
    reveal_strlit("mailto:");
    let v = trim(dest);
    let lower = ascii_lower_all(v);
    if starts_with(lower, "javascript:"@) || starts_with(lower, "data:"@) || starts_with(lower, "vbscript:"@) {
        let k: int = if starts_with(lower, "javascript:"@) {
            10
        } else if starts_with(lower, "data:"@) {
            4
        } else {
            8
        };
        assert(lower.subrange(0, k + 1)[k] == ':');
        assert(lower[k] == ':');
        assert(lower[k] == ascii_lower(v[k]));
        assert(v[k] == ':');
        assert(v.contains(':'));
        assert(lower.subrange(0, 1)[0] == lower[0]);
        assert(lower[0] == ascii_lower(v[0]));
        assert(!starts_with(v, "#"@)) by {
            if starts_with(v, "#"@) {
                assert(v.subrange(0, 1)[0] == v[0]);
            }
        }
        assert(!starts_with(v, "/"@)) by {
            if starts_with(v, "/"@) {
                assert(v.subrange(0, 1)[0] == v[0]);
            }
        }
        assert(!starts_with(v, "./"@)) by {
            if starts_with(v, "./"@) {
                assert(v.subrange(0, 2)[0] == v[0]);
            }
        }
        assert(!starts_with(v, "../"@)) by {
            if starts_with(v, "../"@) {
                assert(v.subrange(0, 3)[0] == v[0]);
            }
        }
        assert(!starts_with(lower, "https://"@)) by {
            if starts_with(lower, "https://"@) {
                assert(lower.subrange(0, 8)[0] == lower[0]);
            }
        }
        assert(!starts_with(lower, "http://"@)) by {
            if starts_with(lower, "http://"@) {
                assert(lower.subrange(0, 7)[0] == lower[0]);
            }
        }
        assert(!starts_with(lower, "mailto:"@)) by {
            if starts_with(lower, "mailto:"@) {
                assert(lower.subrange(0, 7)[0] == lower[0]);
            }
        }
    }
}

/// A destination that is a fragment, an absolute or relative path, an
/// `http`, `https` or `mailto` URL (scheme in any ASCII case), or has no scheme
/// at all stays exactly as it is.
pub proof fn lemma_safe_destinations_unchanged(dest: Seq<char>)
    ensures
        (starts_with(trim(dest), "#"@) || starts_with(trim(dest), "/"@) || starts_with(
            trim(dest),
            "./"@,
        ) || starts_with(trim(dest), "../"@) || starts_with(ascii_lower_all(trim(dest)), "https://"@)
            || starts_with(ascii_lower_all(trim(dest)), "http://"@) || starts_with(
            ascii_lower_all(trim(dest)),
            "mailto:"@,
        ) || !trim(dest).contains(':')) ==> safe_link(dest) == dest,
{
}

/// Raw HTML is shown as text of the same characters, an image becomes the
/// text `画像: ` followed by its alt text (its end is dropped), and text, code
/// and the ends of other elements pass through unchanged.
pub proof fn lemma_sanitize_cases(t: Seq<char>, e: MdTagEnd, i: TagView)
    ensures
        sanitize_view(EventView::Html(t)) == Some(EventView::Text(t)),
        sanitize_view(EventView::InlineHtml(t)) == Some(EventView::Text(t)),
        i is Image ==> sanitize_view(EventView::Start(i)) == Some(EventView::Text("画像: "@)),
        sanitize_view(EventView::End(MdTagEnd::Image)) is None,
        sanitize_view(EventView::Text(t)) == Some(EventView::Text(t)),
        sanitize_view(EventView::Code(t)) == Some(EventView::Code(t)),
        !(e is Image) ==> sanitize_view(EventView::End(e)) == Some(EventView::End(e)),
        !(i is Image) && !(i is Link) ==> sanitize_view(EventView::Start(i)) == Some(
            EventView::Start(i),
        ),
{
}

} // verus!
