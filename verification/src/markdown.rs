//! The styled-run converter: a markdown block (possibly holding embedded
//! pseudo-HTML fragments for lists and tables) becomes an ordered stream of
//! style events — text runs under an emphasis state and explicit line
//! breaks — which the layout engine consumes in order.
//!
//! Blank lines and `<br />` separate paragraphs, each a hard line break.
//! Links render as their title in italics; a list item becomes a line break,
//! a bullet glyph and its inner markdown; a table row breaks the line and
//! cells are separated by a bar glyph.

use pulldown_cmark::{Event, Parser, Tag, TagEnd};
use vstd::prelude::*;
use xml::reader::{EventReader, XmlEvent};

use crate::font::{Font, FontV};
use crate::rich_text::{add_text_spec, finish_line_spec, BuilderV, ErrV, LayoutError, SceneBuilder};
use crate::strutil::{split_on, split_on_exec, strip_cr, strip_cr_exec};

verus! {

/// How deep embedded HTML fragments and their inner markdown may nest before
/// deeper content is ignored.
pub const MD_NEST_LIMIT: u32 = 8;

/// The fonts a markdown block is set in.
#[derive(Clone, Copy)]
pub struct MdConfig<'a> {
    pub text_font: &'a Font,
    pub bold_font: &'a Font,
    pub italic_font: &'a Font,
}

/// Model of an [`MdConfig`].
pub struct MdConfigV {
    pub text: FontV,
    pub bold: FontV,
    pub italic: FontV,
}

impl<'a> View for MdConfig<'a> {
    type V = MdConfigV;

    open spec fn view(&self) -> MdConfigV {
        MdConfigV {
            text: (*self.text_font)@,
            bold: (*self.bold_font)@,
            italic: (*self.italic_font)@,
        }
    }
}

impl<'a> MdConfig<'a> {
    pub open spec fn wf(&self) -> bool {
        crate::font::font_wf(self@.text) && crate::font::font_wf(self@.bold)
            && crate::font::font_wf(self@.italic)
    }
}

/// One raw markdown parser event, reduced to what the converter reads.
pub enum MdEvent {
    Break,
    Text(String),
    BoldStart,
    ItalicStart,
    Link(String),
    StyleEnd,
    Html(String),
    Skip,
}

/// Model of an [`MdEvent`].
pub enum MdEventV {
    Break,
    Text(Seq<char>),
    BoldStart,
    ItalicStart,
    Link(Seq<char>),
    StyleEnd,
    Html(Seq<char>),
    Skip,
}

impl View for MdEvent {
    type V = MdEventV;

    open spec fn view(&self) -> MdEventV {
        match self {
            MdEvent::Break => MdEventV::Break,
            MdEvent::Text(s) => MdEventV::Text(s@),
            MdEvent::BoldStart => MdEventV::BoldStart,
            MdEvent::ItalicStart => MdEventV::ItalicStart,
            MdEvent::Link(s) => MdEventV::Link(s@),
            MdEvent::StyleEnd => MdEventV::StyleEnd,
            MdEvent::Html(s) => MdEventV::Html(s@),
            MdEvent::Skip => MdEventV::Skip,
        }
    }
}

/// One raw XML reader event, reduced to what the converter reads.
pub enum XmlBit {
    Chars(String),
    Open(String),
    Other,
}

/// Model of an [`XmlBit`].
pub enum XmlBitV {
    Chars(Seq<char>),
    Open(Seq<char>),
    Other,
}

impl View for XmlBit {
    type V = XmlBitV;

    open spec fn view(&self) -> XmlBitV {
        match self {
            XmlBit::Chars(s) => XmlBitV::Chars(s@),
            XmlBit::Open(s) => XmlBitV::Open(s@),
            XmlBit::Other => XmlBitV::Other,
        }
    }
}

/// The markdown event stream of a text: what the CommonMark parser reports,
/// reduced to the variants above.  A pure function of the text.
pub uninterp spec fn md_events_of(s: Seq<char>) -> Seq<MdEventV>;

/// Relies on `pulldown_cmark::Parser::new`: the CommonMark event stream of a
/// text depends on the text alone.  Each parser event maps to one reduced
/// variant; events the converter ignores map to `Skip`.
#[verifier::external_body]
fn md_events(text: &str) -> (r: Vec<MdEvent>)
    ensures
        r@.map_values(|e: MdEvent| e@) == md_events_of(text@),
{
    Parser::new(text).map(|ev| match ev {
        Event::HardBreak => MdEvent::Break,
        Event::SoftBreak => MdEvent::Break,
        Event::Text(t) => MdEvent::Text(t.into_string()),
        Event::Start(Tag::Strong) => MdEvent::BoldStart,
        Event::Start(Tag::Emphasis) => MdEvent::ItalicStart,
        Event::Start(Tag::Link { title, .. }) => MdEvent::Link(title.into_string()),
        Event::Start(_) => MdEvent::Skip,
        Event::End(TagEnd::Strong) => MdEvent::StyleEnd,
        Event::End(TagEnd::Emphasis) => MdEvent::StyleEnd,
        Event::End(_) => MdEvent::Skip,
        Event::Html(h) => MdEvent::Html(h.into_string()),
        _ => MdEvent::Skip,
    }).collect()
}

/// The XML event stream of a fragment: what the XML reader reports, reduced
/// to the variants above, unreadable events dropped.  A pure function of the
/// fragment.
pub uninterp spec fn xml_bits_of(s: Seq<char>) -> Seq<XmlBitV>;

/// Relies on `xml::reader::EventReader`: the event stream of a byte string
/// depends on the bytes alone.  Character data and element opens are kept;
/// unreadable events are dropped and everything else maps to `Other`.
#[verifier::external_body]
fn xml_bits(text: &str) -> (r: Vec<XmlBit>)
    ensures
        r@.map_values(|b: XmlBit| b@) == xml_bits_of(text@),
{
    EventReader::new(text.as_bytes()).into_iter().filter_map(|ev| ev.ok()).map(
        |ev| match ev {
            XmlEvent::Characters(s) => XmlBit::Chars(s),
            XmlEvent::StartElement { name, .. } => XmlBit::Open(name.local_name),
            _ => XmlBit::Other,
        },
    ).collect()
}

/// The emphasis a style span switches to.
#[derive(Clone, Copy, PartialEq, Eq, Structural, Debug)]
pub enum EmphasisTag {
    Bold,
    Italic,
}

/// One converter output event: the stream the layout engine consumes.
pub enum MixedEvent {
    LineEnd,
    Text(String),
    StartStyle(EmphasisTag),
    EndStyle,
}

/// Model of a [`MixedEvent`].
pub enum MixedEventV {
    LineEnd,
    Text(Seq<char>),
    StartStyle(EmphasisTag),
    EndStyle,
}

impl View for MixedEvent {
    type V = MixedEventV;

    open spec fn view(&self) -> MixedEventV {
        match self {
            MixedEvent::LineEnd => MixedEventV::LineEnd,
            MixedEvent::Text(s) => MixedEventV::Text(s@),
            MixedEvent::StartStyle(t) => MixedEventV::StartStyle(*t),
            MixedEvent::EndStyle => MixedEventV::EndStyle,
        }
    }
}

/// The style events of one reduced markdown event stream.
pub open spec fn md_expand(evs: Seq<MdEventV>, fuel: nat) -> Seq<MixedEventV>
    decreases fuel, 1nat, evs.len(),
{
    if evs.len() == 0 {
        Seq::empty()
    } else {
        md_expand(evs.drop_last(), fuel) + md_event_expand(evs.last(), fuel)
    }
}

/// The style events of one reduced markdown event.  A link becomes its title
/// in italics; an HTML fragment is re-scanned as XML while fuel remains.
pub open spec fn md_event_expand(e: MdEventV, fuel: nat) -> Seq<MixedEventV>
    decreases fuel, 0nat, 0nat,
{
    match e {
        MdEventV::Break => seq![MixedEventV::LineEnd],
        MdEventV::Text(s) => seq![MixedEventV::Text(s)],
        MdEventV::BoldStart => seq![MixedEventV::StartStyle(EmphasisTag::Bold)],
        MdEventV::ItalicStart => seq![MixedEventV::StartStyle(EmphasisTag::Italic)],
        MdEventV::Link(title) => seq![
            MixedEventV::StartStyle(EmphasisTag::Italic),
            MixedEventV::Text(title),
            MixedEventV::EndStyle,
        ],
        MdEventV::StyleEnd => seq![MixedEventV::EndStyle],
        MdEventV::Html(h) => if fuel > 0 {
            xml_expand(xml_bits_of(h), (fuel - 1) as nat)
        } else {
            Seq::empty()
        },
        MdEventV::Skip => Seq::empty(),
    }
}

/// The style events of one reduced XML event stream.
pub open spec fn xml_expand(bits: Seq<XmlBitV>, fuel: nat) -> Seq<MixedEventV>
    decreases fuel, 1nat, bits.len(),
{
    if bits.len() == 0 {
        Seq::empty()
    } else {
        xml_expand(bits.drop_last(), fuel) + xml_bit_expand(bits.last(), fuel)
    }
}

/// The style events of one reduced XML event: character data is re-scanned
/// as markdown while fuel remains; a list item breaks the line and emits a
/// bullet; a table row breaks the line; a table cell emits a bar.
pub open spec fn xml_bit_expand(b: XmlBitV, fuel: nat) -> Seq<MixedEventV>
    decreases fuel, 0nat, 0nat,
{
    match b {
        XmlBitV::Chars(s) => if fuel > 0 {
            md_expand(md_events_of(s), (fuel - 1) as nat)
        } else {
            Seq::empty()
        },
        XmlBitV::Open(name) => if name == "li"@ {
            seq![MixedEventV::LineEnd, MixedEventV::Text("\u{2022}"@)]
        } else if name == "tr"@ {
            seq![MixedEventV::LineEnd]
        } else if name == "td"@ {
            seq![MixedEventV::Text("|"@)]
        } else {
            Seq::empty()
        },
        XmlBitV::Other => Seq::empty(),
    }
}

/// The style events of one paragraph.
pub open spec fn paragraph_events(t: Seq<char>) -> Seq<MixedEventV> {
    md_expand(md_events_of(t), MD_NEST_LIMIT as nat)
}

/// The paragraphs of a block: carriage returns stripped, then split on blank
/// lines and on `<br />`.
pub open spec fn paragraphs_of(t: Seq<char>) -> Seq<Seq<char>> {
    split_all_br(split_on(strip_cr(t), "\n\n"@))
}

/// Each piece split once more on `<br />`, in order.
pub open spec fn split_all_br(ps: Seq<Seq<char>>) -> Seq<Seq<char>>
    decreases ps.len(),
{
    if ps.len() == 0 {
        Seq::empty()
    } else {
        split_all_br(ps.drop_last()) + split_on(ps.last(), "<br />"@)
    }
}

/// The whole converter: the style events of every paragraph, a hard line
/// break between consecutive paragraphs.
pub open spec fn style_events_spec(t: Seq<char>) -> Seq<MixedEventV> {
    join_paragraphs(paragraphs_of(t))
}

pub open spec fn join_paragraphs(ps: Seq<Seq<char>>) -> Seq<MixedEventV>
    decreases ps.len(),
{
    if ps.len() == 0 {
        Seq::empty()
    } else if ps.len() == 1 {
        paragraph_events(ps[0])
    } else {
        join_paragraphs(ps.drop_last()) + seq![MixedEventV::LineEnd] + paragraph_events(ps.last())
    }
}

/// Expand one reduced markdown event stream into style events.
fn expand_md_events(evs: Vec<MdEvent>, fuel: u32) -> (r: Vec<MixedEvent>)
    ensures
        r@.map_values(|e: MixedEvent| e@) == md_expand(
            evs@.map_values(|e: MdEvent| e@),
            fuel as nat,
        ),
    decreases fuel, 1nat, evs@.len(),
{
    let ghost evsv = evs@.map_values(|e: MdEvent| e@);
    let mut out: Vec<MixedEvent> = Vec::new();
    proof {
        assert(evsv.subrange(0, 0) =~= Seq::<MdEventV>::empty());
        assert(out@.map_values(|e: MixedEvent| e@) =~= md_expand(evsv.subrange(0, 0), fuel as nat));
    }
    let n = evs.len();
    let mut i: usize = 0;
    while i < n
        invariant
            n == evs@.len(),
            evsv == evs@.map_values(|e: MdEvent| e@),
            0 <= i <= n,
            out@.map_values(|e: MixedEvent| e@) == md_expand(
                evsv.subrange(0, i as int),
                fuel as nat,
            ),
        decreases n - i,
    {
        proof {
            assert(evsv.subrange(0, i as int + 1).drop_last() =~= evsv.subrange(0, i as int));
            assert(evsv.subrange(0, i as int + 1).last() == evsv[i as int]);
        }
        match &evs[i] {
            MdEvent::Break => {
                out.push(MixedEvent::LineEnd);
            },
            MdEvent::Text(s) => {
                out.push(MixedEvent::Text(s.clone()));
            },
            MdEvent::BoldStart => {
                out.push(MixedEvent::StartStyle(EmphasisTag::Bold));
            },
            MdEvent::ItalicStart => {
                out.push(MixedEvent::StartStyle(EmphasisTag::Italic));
            },
            MdEvent::Link(title) => {
                out.push(MixedEvent::StartStyle(EmphasisTag::Italic));
                out.push(MixedEvent::Text(title.clone()));
                out.push(MixedEvent::EndStyle);
            },
            MdEvent::StyleEnd => {
                out.push(MixedEvent::EndStyle);
            },
            MdEvent::Html(h) => {
                if fuel > 0 {
                    let bits = xml_bits(h.as_str());
                    let mut inner = expand_xml_bits(bits, fuel - 1);
                    out.append(&mut inner);
                }
            },
            MdEvent::Skip => {},
        }
        proof {
            reveal_with_fuel(md_expand, 2);
            reveal_with_fuel(md_event_expand, 2);
            assert(out@.map_values(|e: MixedEvent| e@) =~= md_expand(
                evsv.subrange(0, i as int + 1),
                fuel as nat,
            ));
        }
        i = i + 1;
    }
    proof {
        assert(evsv.subrange(0, n as int) =~= evsv);
    }
    out
}

/// Expand one reduced XML event stream into style events.
fn expand_xml_bits(bits: Vec<XmlBit>, fuel: u32) -> (r: Vec<MixedEvent>)
    ensures
        r@.map_values(|e: MixedEvent| e@) == xml_expand(
            bits@.map_values(|b: XmlBit| b@),
            fuel as nat,
        ),
    decreases fuel, 0nat, 0nat,
{
    let ghost bitsv = bits@.map_values(|b: XmlBit| b@);
    let mut out: Vec<MixedEvent> = Vec::new();
    proof {
        assert(bitsv.subrange(0, 0) =~= Seq::<XmlBitV>::empty());
        assert(out@.map_values(|e: MixedEvent| e@) =~= xml_expand(
            bitsv.subrange(0, 0),
            fuel as nat,
        ));
    }
    let n = bits.len();
    let mut i: usize = 0;
    while i < n
        invariant
            n == bits@.len(),
            bitsv == bits@.map_values(|b: XmlBit| b@),
            0 <= i <= n,
            out@.map_values(|e: MixedEvent| e@) == xml_expand(
                bitsv.subrange(0, i as int),
                fuel as nat,
            ),
        decreases n - i,
    {
        proof {
            assert(bitsv.subrange(0, i as int + 1).drop_last() =~= bitsv.subrange(0, i as int));
            assert(bitsv.subrange(0, i as int + 1).last() == bitsv[i as int]);
        }
        match &bits[i] {
            XmlBit::Chars(s) => {
                if fuel > 0 {
                    let evs = md_events(s.as_str());
                    let mut inner = expand_md_events(evs, fuel - 1);
                    out.append(&mut inner);
                }
            },
            XmlBit::Open(name) => {
                if crate::strutil::str_eq(name.as_str(), "li") {
                    out.push(MixedEvent::LineEnd);
                    out.push(MixedEvent::Text("\u{2022}".to_owned()));
                } else if crate::strutil::str_eq(name.as_str(), "tr") {
                    out.push(MixedEvent::LineEnd);
                } else if crate::strutil::str_eq(name.as_str(), "td") {
                    out.push(MixedEvent::Text("|".to_owned()));
                }
            },
            XmlBit::Other => {},
        }
        proof {
            reveal_with_fuel(xml_expand, 2);
            reveal_with_fuel(xml_bit_expand, 2);
            assert(out@.map_values(|e: MixedEvent| e@) =~= xml_expand(
                bitsv.subrange(0, i as int + 1),
                fuel as nat,
            ));
        }
        i = i + 1;
    }
    proof {
        assert(bitsv.subrange(0, n as int) =~= bitsv);
    }
    out
}

/// The converter's public output: the ordered style events of a markdown
/// block, paragraph breaks included.
pub fn markdown_style_events(markdown: &str) -> (r: Vec<MixedEvent>)
    ensures
        r@.map_values(|e: MixedEvent| e@) == style_events_spec(markdown@),
{
    let stripped = strip_cr_exec(markdown);
    let pieces = split_on_exec(stripped.as_str(), "\n\n");
    let ghost piecesv = pieces@.map_values(|p: String| p@);
    // split each piece once more, flattened
    let mut segs: Vec<String> = Vec::new();
    proof {
        assert(piecesv.subrange(0, 0) =~= Seq::<Seq<char>>::empty());
        assert(segs@.map_values(|p: String| p@) =~= split_all_br(piecesv.subrange(0, 0)));
    }
    let np = pieces.len();
    let mut i: usize = 0;
    while i < np
        invariant
            np == pieces@.len(),
            piecesv == pieces@.map_values(|p: String| p@),
            0 <= i <= np,
            segs@.map_values(|p: String| p@) == split_all_br(piecesv.subrange(0, i as int)),
        decreases np - i,
    {
        proof {
            assert(piecesv.subrange(0, i as int + 1).drop_last() =~= piecesv.subrange(
                0,
                i as int,
            ));
            assert(piecesv.subrange(0, i as int + 1).last() == piecesv[i as int]);
        }
        let mut sub = split_on_exec(pieces[i].as_str(), "<br />");
        segs.append(&mut sub);
        proof {
            assert(segs@.map_values(|p: String| p@) =~= split_all_br(
                piecesv.subrange(0, i as int + 1),
            ));
        }
        i = i + 1;
    }
    proof {
        assert(piecesv.subrange(0, np as int) =~= piecesv);
    }
    let ghost segsv = segs@.map_values(|p: String| p@);
    // expand each paragraph, a line break between consecutive ones
    let mut out: Vec<MixedEvent> = Vec::new();
    let ns = segs.len();
    let mut k: usize = 0;
    proof {
        assert(segsv.subrange(0, 0) =~= Seq::<Seq<char>>::empty());
        assert(out@.map_values(|e: MixedEvent| e@) =~= join_paragraphs(segsv.subrange(0, 0)));
    }
    while k < ns
        invariant
            ns == segs@.len(),
            segsv == segs@.map_values(|p: String| p@),
            0 <= k <= ns,
            out@.map_values(|e: MixedEvent| e@) == join_paragraphs(segsv.subrange(0, k as int)),
        decreases ns - k,
    {
        proof {
            assert(segsv.subrange(0, k as int + 1).drop_last() =~= segsv.subrange(0, k as int));
            assert(segsv.subrange(0, k as int + 1).last() == segsv[k as int]);
        }
        if k > 0 {
            out.push(MixedEvent::LineEnd);
        }
        let evs = md_events(segs[k].as_str());
        let mut inner = expand_md_events(evs, MD_NEST_LIMIT);
        out.append(&mut inner);
        proof {
            assert(out@.map_values(|e: MixedEvent| e@) =~= join_paragraphs(
                segsv.subrange(0, k as int + 1),
            ));
        }
        k = k + 1;
    }
    proof {
        assert(segsv.subrange(0, ns as int) =~= segsv);
        assert(paragraphs_of(markdown@) == segsv);
    }
    out
}

/// Applying one style event to the builder: a break finishes the line, text
/// wraps into the box, a style start saves the current font on the stack and
/// switches, a style end restores the saved font (or the plain text font
/// when the stack is empty).
pub open spec fn apply_event_spec(
    b: BuilderV,
    cfg: MdConfigV,
    stack: Seq<FontV>,
    e: MixedEventV,
) -> Result<(BuilderV, Seq<FontV>), ErrV> {
    match e {
        MixedEventV::LineEnd => Ok((finish_line_spec(b), stack)),
        MixedEventV::Text(s) => match add_text_spec(b, s) {
            Ok(b2) => Ok((b2, stack)),
            Err(err) => Err(err),
        },
        MixedEventV::StartStyle(tag) => Ok(
            (
                BuilderV {
                    font: if tag == EmphasisTag::Bold {
                        cfg.bold
                    } else {
                        cfg.italic
                    },
                    ..b
                },
                stack.push(b.font),
            ),
        ),
        MixedEventV::EndStyle => Ok(
            (
                BuilderV {
                    font: if stack.len() > 0 {
                        stack.last()
                    } else {
                        cfg.text
                    },
                    ..b
                },
                if stack.len() > 0 {
                    stack.drop_last()
                } else {
                    stack
                },
            ),
        ),
    }
}

/// Applying the events from `i` on, in order; the first failure aborts.
pub open spec fn apply_events_spec(
    b: BuilderV,
    cfg: MdConfigV,
    stack: Seq<FontV>,
    evs: Seq<MixedEventV>,
    i: int,
) -> Result<BuilderV, ErrV>
    decreases evs.len() - i,
{
    if i < 0 || i >= evs.len() {
        Ok(b)
    } else {
        match apply_event_spec(b, cfg, stack, evs[i]) {
            Ok((b2, stack2)) => apply_events_spec(b2, cfg, stack2, evs, i + 1),
            Err(err) => Err(err),
        }
    }
}

/// Appending a whole markdown block: the converter's style events applied in
/// order, starting from an empty style stack.
pub open spec fn add_markdown_spec(b: BuilderV, cfg: MdConfigV, t: Seq<char>) -> Result<
    BuilderV,
    ErrV,
> {
    apply_events_spec(b, cfg, Seq::empty(), style_events_spec(t), 0)
}

impl<'a> SceneBuilder<'a> {
    /// Append a markdown block: converted to style events, then laid out in
    /// order.  Fails when a single word or chip cannot fit the box width.
    pub fn add_markdown(&mut self, config: &MdConfig<'a>, markdown: &str) -> (r: Result<
        (),
        LayoutError,
    >)
        requires
            old(self).wf(),
            config.wf(),
        ensures
            final(self).wf(),
            match r {
                Ok(_) => add_markdown_spec(old(self)@, config@, markdown@) == Ok::<BuilderV, ErrV>(
                    final(self)@,
                ),
                Err(e) => add_markdown_spec(old(self)@, config@, markdown@) == Err::<
                    BuilderV,
                    ErrV,
                >(e@),
            },
    {
        let ghost b0 = self@;
        let events = markdown_style_events(markdown);
        let ghost evsv = events@.map_values(|e: MixedEvent| e@);
        let mut stack: Vec<&'a Font> = Vec::new();
        proof {
            assert(evsv =~= style_events_spec(markdown@));
            assert(stack@.map_values(|f: &Font| (*f)@) =~= Seq::<FontV>::empty());
        }
        let n = events.len();
        let mut i: usize = 0;
        while i < n
            invariant
                self.wf(),
                config.wf(),
                n == events@.len(),
                evsv == events@.map_values(|e: MixedEvent| e@),
                evsv == style_events_spec(markdown@),
                b0 == old(self)@,
                0 <= i <= n,
                forall|k: int| 0 <= k < stack@.len() ==> (#[trigger] stack@[k]).wf(),
                apply_events_spec(
                    self@,
                    config@,
                    stack@.map_values(|f: &Font| (*f)@),
                    evsv,
                    i as int,
                ) == add_markdown_spec(b0, config@, markdown@),
            decreases n - i,
        {
            let ghost pre = self@;
            let ghost stackv = stack@.map_values(|f: &Font| (*f)@);
            match &events[i] {
                MixedEvent::LineEnd => {
                    self.finish_line();
                },
                MixedEvent::Text(s) => {
                    match self.add_text(s.as_str()) {
                        Ok(_) => {},
                        Err(e) => {
                            return Err(e);
                        },
                    }
                },
                MixedEvent::StartStyle(tag) => {
                    stack.push(self.get_font());
                    let font = match tag {
                        EmphasisTag::Bold => config.bold_font,
                        EmphasisTag::Italic => config.italic_font,
                    };
                    self.set_font(font);
                    proof {
                        assert(stack@.map_values(|f: &Font| (*f)@) =~= stackv.push(pre.font));
                    }
                },
                MixedEvent::EndStyle => {
                    let font = match stack.pop() {
                        Some(f) => f,
                        None => config.text_font,
                    };
                    self.set_font(font);
                    proof {
                        if stackv.len() > 0 {
                            assert(stack@.map_values(|f: &Font| (*f)@) =~= stackv.drop_last());
                        } else {
                            assert(stack@.map_values(|f: &Font| (*f)@) =~= stackv);
                        }
                    }
                },
            }
            i = i + 1;
        }
        Ok(())
    }
}

} // verus!
