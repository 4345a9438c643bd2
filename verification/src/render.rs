//! Markdown for the terminal: the events of a markdown text become ANSI-styled
//! text, with nested styles restored after each one ends, indented list items,
//! framed code blocks and table separators.
//!
//! Reading markdown into events is done by `pulldown_cmark`.
use vstd::prelude::*;
use pulldown_cmark::{CodeBlockKind, Event, Parser, Tag, TagEnd};

verus! {

pub const BOLD: &'static str = "\x1b[1m";
pub const DIM: &'static str = "\x1b[2m";
pub const ITALIC: &'static str = "\x1b[3m";
pub const UNDERLINE: &'static str = "\x1b[4m";
pub const CYAN: &'static str = "\x1b[36m";
pub const YELLOW: &'static str = "\x1b[33m";
pub const BLUE: &'static str = "\x1b[34m";
pub const GREEN: &'static str = "\x1b[32m";
pub const RESET: &'static str = "\x1b[0m";

/// A markdown event, as the renderer reads it. Events that the renderer
/// ignores are `Other`.
#[derive(Debug, Clone, PartialEq, Eq)]
pub enum MdEvent {
    /// The start of a heading of this level (1 to 6).
    StartHeading(u8),
    EndHeading,
    /// The start of a code block, with the language of a fenced block.
    StartCodeBlock(Option<String>),
    EndCodeBlock,
    /// Inline code.
    Code(String),
    StartStrong,
    EndStrong,
    StartEmphasis,
    EndEmphasis,
    StartStrikethrough,
    EndStrikethrough,
    StartLink,
    EndLink,
    StartList,
    EndList,
    StartItem,
    EndItem,
    EndParagraph,
    StartBlockQuote,
    EndBlockQuote,
    Rule,
    SoftBreak,
    HardBreak,
    EndTable,
    StartTableHead,
    EndTableHead,
    StartTableRow,
    StartTableCell,
    Text(String),
    FootnoteReference(String),
    /// Block or inline HTML, passed through.
    Html(String),
    Other,
}

/// The model of a markdown event.
pub enum MdEventV {
    StartHeading(u8),
    EndHeading,
    StartCodeBlock(Option<Seq<char>>),
    EndCodeBlock,
    Code(Seq<char>),
    StartStrong,
    EndStrong,
    StartEmphasis,
    EndEmphasis,
    StartStrikethrough,
    EndStrikethrough,
    StartLink,
    EndLink,
    StartList,
    EndList,
    StartItem,
    EndItem,
    EndParagraph,
    StartBlockQuote,
    EndBlockQuote,
    Rule,
    SoftBreak,
    HardBreak,
    EndTable,
    StartTableHead,
    EndTableHead,
    StartTableRow,
    StartTableCell,
    Text(Seq<char>),
    FootnoteReference(Seq<char>),
    Html(Seq<char>),
    Other,
}

impl View for MdEvent {
    type V = MdEventV;

    open spec fn view(&self) -> MdEventV {
        match self {
            MdEvent::StartHeading(l) => MdEventV::StartHeading(*l),
            MdEvent::EndHeading => MdEventV::EndHeading,
            MdEvent::StartCodeBlock(lang) => MdEventV::StartCodeBlock(
                match lang {
                    Some(l) => Some(l@),
                    None => None,
                },
            ),
            MdEvent::EndCodeBlock => MdEventV::EndCodeBlock,
            MdEvent::Code(c) => MdEventV::Code(c@),
            MdEvent::StartStrong => MdEventV::StartStrong,
            MdEvent::EndStrong => MdEventV::EndStrong,
            MdEvent::StartEmphasis => MdEventV::StartEmphasis,
            MdEvent::EndEmphasis => MdEventV::EndEmphasis,
            MdEvent::StartStrikethrough => MdEventV::StartStrikethrough,
            MdEvent::EndStrikethrough => MdEventV::EndStrikethrough,
            MdEvent::StartLink => MdEventV::StartLink,
            MdEvent::EndLink => MdEventV::EndLink,
            MdEvent::StartList => MdEventV::StartList,
            MdEvent::EndList => MdEventV::EndList,
            MdEvent::StartItem => MdEventV::StartItem,
            MdEvent::EndItem => MdEventV::EndItem,
            MdEvent::EndParagraph => MdEventV::EndParagraph,
            MdEvent::StartBlockQuote => MdEventV::StartBlockQuote,
            MdEvent::EndBlockQuote => MdEventV::EndBlockQuote,
            MdEvent::Rule => MdEventV::Rule,
            MdEvent::SoftBreak => MdEventV::SoftBreak,
            MdEvent::HardBreak => MdEventV::HardBreak,
            MdEvent::EndTable => MdEventV::EndTable,
            MdEvent::StartTableHead => MdEventV::StartTableHead,
            MdEvent::EndTableHead => MdEventV::EndTableHead,
            MdEvent::StartTableRow => MdEventV::StartTableRow,
            MdEvent::StartTableCell => MdEventV::StartTableCell,
            MdEvent::Text(t) => MdEventV::Text(t@),
            MdEvent::FootnoteReference(n) => MdEventV::FootnoteReference(n@),
            MdEvent::Html(h) => MdEventV::Html(h@),
            MdEvent::Other => MdEventV::Other,
        }
    }
}

/// The models of a list of events.
pub open spec fn event_views(evs: Seq<MdEvent>) -> Seq<MdEventV> {
    evs.map_values(|e: MdEvent| e@)
}

// ---------------------------------------------------------------------------
// The model of rendering
// ---------------------------------------------------------------------------

/// The renderer's state: the active styles, innermost last, and where in the
/// document it is.
pub struct RenderV {
    pub styles: Seq<Seq<char>>,
    pub in_code_block: bool,
    pub in_table_head: bool,
    pub first_cell_in_row: bool,
    pub list_depth: nat,
}

/// The state before the first event.
pub open spec fn initial_render() -> RenderV {
    RenderV {
        styles: Seq::empty(),
        in_code_block: false,
        in_table_head: false,
        first_cell_in_row: true,
        list_depth: 0,
    }
}

/// The texts one after another.
pub open spec fn concat_all(ss: Seq<Seq<char>>) -> Seq<char>
    decreases ss.len(),
{
    if ss.len() == 0 {
        Seq::empty()
    } else {
        concat_all(ss.drop_last()) + ss.last()
    }
}

/// `s` written `n` times.
pub open spec fn repeat(s: Seq<char>, n: nat) -> Seq<char>
    decreases n,
{
    if n == 0 {
        Seq::empty()
    } else {
        repeat(s, (n - 1) as nat) + s
    }
}

/// The styles a heading of this level opens.
pub open spec fn heading_styles(level: u8) -> Seq<Seq<char>> {
    if level == 1 {
        seq![BOLD@, CYAN@]
    } else if level == 2 {
        seq![BOLD@, YELLOW@]
    } else if level == 3 {
        seq![BOLD@, GREEN@]
    } else {
        seq![BOLD@]
    }
}

/// The state after a style is opened.
pub open spec fn pushed(st: RenderV, style: Seq<char>) -> RenderV {
    RenderV { styles: st.styles.push(style), ..st }
}

/// The state after the innermost style is closed (none is closed when none is open).
pub open spec fn popped(st: RenderV) -> RenderV {
    RenderV {
        styles: if st.styles.len() > 0 {
            st.styles.drop_last()
        } else {
            st.styles
        },
        ..st
    }
}

/// What closing the innermost style writes: a reset, then the styles that stay open.
pub open spec fn pop_text(st: RenderV) -> Seq<char> {
    RESET@ + concat_all(popped(st).styles)
}

/// What closing every open style, innermost first, writes.
pub open spec fn pop_all_text(styles: Seq<Seq<char>>) -> Seq<char>
    decreases styles.len(),
{
    if styles.len() == 0 {
        Seq::empty()
    } else {
        RESET@ + concat_all(styles.drop_last()) + pop_all_text(styles.drop_last())
    }
}

/// A horizontal line of `n` box-drawing dashes.
pub open spec fn dashes(n: nat) -> Seq<char> {
    repeat("─"@, n)
}

/// The first line of a code block's frame.
pub open spec fn code_block_top(lang: Option<Seq<char>>) -> Seq<char> {
    "\n"@ + DIM@ + "┌"@ + (match lang {
        Some(l) => if l.len() > 0 {
            " "@ + l + " "@
        } else {
            Seq::empty()
        },
        None => Seq::empty(),
    }) + "─"@ + dashes(58) + "\n"@
}

/// The state after an event, and the text the event writes.
pub open spec fn step(st: RenderV, ev: MdEventV) -> (RenderV, Seq<char>) {
    match ev {
        MdEventV::StartHeading(level) => (
            RenderV { styles: st.styles + heading_styles(level), ..st },
            "\n"@ + concat_all(heading_styles(level)),
        ),
        MdEventV::EndHeading => (RenderV { styles: Seq::empty(), ..st }, pop_all_text(st.styles) + "\n"@),
        MdEventV::StartCodeBlock(lang) => (RenderV { in_code_block: true, ..st }, code_block_top(lang)),
        MdEventV::EndCodeBlock => (
            RenderV { in_code_block: false, ..st },
            DIM@ + "└"@ + dashes(60) + RESET@ + "\n"@,
        ),
        MdEventV::Code(c) => (st, YELLOW@ + "`"@ + c + "`"@ + RESET@ + concat_all(st.styles)),
        MdEventV::StartStrong => (pushed(st, BOLD@), BOLD@),
        MdEventV::StartEmphasis => (pushed(st, ITALIC@), ITALIC@),
        MdEventV::StartStrikethrough => (pushed(st, DIM@), DIM@),
        MdEventV::EndStrong | MdEventV::EndEmphasis | MdEventV::EndStrikethrough => (popped(st), pop_text(st)),
        MdEventV::StartLink => (pushed(pushed(st, UNDERLINE@), BLUE@), UNDERLINE@ + BLUE@),
        MdEventV::EndLink => (popped(popped(st)), pop_text(st) + pop_text(popped(st))),
        MdEventV::StartList => (RenderV { list_depth: st.list_depth + 1, ..st }, Seq::empty()),
        MdEventV::EndList => {
            let d: nat = if st.list_depth > 0 {
                (st.list_depth - 1) as nat
            } else {
                0
            };
            (RenderV { list_depth: d, ..st }, if d == 0 {
                "\n"@
            } else {
                Seq::empty()
            })
        },
        MdEventV::StartItem => {
            let indent: nat = if st.list_depth > 0 {
                (st.list_depth - 1) as nat
            } else {
                0
            };
            (st, repeat("  "@, indent) + GREEN@ + "•"@ + RESET@ + " "@)
        },
        MdEventV::EndItem | MdEventV::EndParagraph | MdEventV::EndTable | MdEventV::HardBreak => (st, "\n"@),
        MdEventV::StartBlockQuote => (pushed(st, DIM@), DIM@ + "│ "@),
        MdEventV::EndBlockQuote => (popped(st), pop_text(st) + "\n"@),
        MdEventV::Rule => (st, DIM@ + dashes(60) + RESET@ + "\n"@),
        MdEventV::SoftBreak => (st, " "@),
        MdEventV::StartTableHead => (
            pushed(RenderV { in_table_head: true, first_cell_in_row: true, ..st }, BOLD@),
            BOLD@,
        ),
        MdEventV::EndTableHead => (
            RenderV { in_table_head: false, ..popped(st) },
            pop_text(st) + "\n"@ + DIM@ + dashes(60) + RESET@,
        ),
        MdEventV::StartTableRow => (RenderV { first_cell_in_row: true, ..st }, Seq::empty()),
        MdEventV::StartTableCell => if st.first_cell_in_row {
            (RenderV { first_cell_in_row: false, ..st }, " "@)
        } else {
            (st, " │ "@)
        },
        MdEventV::Text(t) => (st, t),
        MdEventV::FootnoteReference(n) => (st, DIM@ + "["@ + n + "]"@ + RESET@),
        MdEventV::Html(h) => (st, h),
        MdEventV::Other => (st, Seq::empty()),
    }
}

/// The state after a list of events, and the text they write.
pub open spec fn render_from(st: RenderV, evs: Seq<MdEventV>) -> (RenderV, Seq<char>)
    decreases evs.len(),
{
    if evs.len() == 0 {
        (st, Seq::empty())
    } else {
        let prev = render_from(st, evs.drop_last());
        let next = step(prev.0, evs.last());
        (next.0, prev.1 + next.1)
    }
}

/// The terminal text of a list of events, from the initial state.
pub open spec fn rendered(evs: Seq<MdEventV>) -> Seq<char> {
    render_from(initial_render(), evs).1
}

/// Closing a style right after opening it gives back the state before it:
/// bold, italic, strikethrough, links and block quotes. Closing writes a
/// reset, then the styles still open.
pub proof fn law_style_pairs_restore(st: RenderV)
    ensures
        step(step(st, MdEventV::StartStrong).0, MdEventV::EndStrong).0 == st,
        step(step(st, MdEventV::StartEmphasis).0, MdEventV::EndEmphasis).0 == st,
        step(step(st, MdEventV::StartStrikethrough).0, MdEventV::EndStrikethrough).0 == st,
        step(step(st, MdEventV::StartLink).0, MdEventV::EndLink).0 == st,
        step(step(st, MdEventV::StartBlockQuote).0, MdEventV::EndBlockQuote).0 == st,
        step(step(st, MdEventV::StartStrong).0, MdEventV::EndStrong).1 == RESET@ + concat_all(st.styles),
{
    assert(st.styles.push(BOLD@).drop_last() =~= st.styles);
    assert(st.styles.push(ITALIC@).drop_last() =~= st.styles);
    assert(st.styles.push(DIM@).drop_last() =~= st.styles);
    assert(st.styles.push(UNDERLINE@).push(BLUE@).drop_last().drop_last() =~= st.styles);
    assert(st.styles.push(UNDERLINE@).push(BLUE@).drop_last() =~= st.styles.push(UNDERLINE@));
}

/// Text, code and HTML are written as they are; the end of a heading closes
/// every style.
pub proof fn law_text_passes_through(st: RenderV, t: Seq<char>)
    ensures
        step(st, MdEventV::Text(t)) == (st, t),
        step(st, MdEventV::Html(t)) == (st, t),
        step(st, MdEventV::EndHeading).0.styles.len() == 0,
{
}

/// No event deepens the list nesting by more than one.
pub proof fn lemma_depth_bound(st: RenderV, evs: Seq<MdEventV>)
    ensures
        render_from(st, evs).0.list_depth <= st.list_depth + evs.len(),
    decreases evs.len(),
{
    if evs.len() > 0 {
        lemma_depth_bound(st, evs.drop_last());
    }
}

// ---------------------------------------------------------------------------
// The renderer
// ---------------------------------------------------------------------------

/// The state of rendering one markdown text.
pub struct RenderState {
    style_stack: Vec<&'static str>,
    in_code_block: bool,
    in_table_head: bool,
    first_cell_in_row: bool,
    list_depth: usize,
}

impl View for RenderState {
    type V = RenderV;

    closed spec fn view(&self) -> RenderV {
        RenderV {
            styles: self.style_stack@.map_values(|s: &'static str| s@),
            in_code_block: self.in_code_block,
            in_table_head: self.in_table_head,
            first_cell_in_row: self.first_cell_in_row,
            list_depth: self.list_depth as nat,
        }
    }
}

/// Appends `s`, `n` times.
fn push_repeat(out: &mut String, s: &str, n: usize)
    ensures
        final(out)@ == old(out)@ + repeat(s@, n as nat),
{
    let mut i: usize = 0;
    while i < n
        invariant
            i <= n,
            out@ == old(out)@ + repeat(s@, i as nat),
        decreases n - i,
    {
        out.append(s);
        i = i + 1;
        assert(repeat(s@, i as nat) == repeat(s@, (i - 1) as nat) + s@);
        assert(out@ =~= old(out)@ + repeat(s@, i as nat));
    }
}

impl RenderState {
    /// The state before the first event: no style open, outside any block.
    pub fn new() -> (s: Self)
        ensures
            s@ == initial_render(),
    {
        let s = RenderState {
            style_stack: Vec::new(),
            in_code_block: false,
            in_table_head: false,
            first_cell_in_row: true,
            list_depth: 0,
        };
        assert(s@.styles =~= Seq::<Seq<char>>::empty());
        s
    }

    /// Appends the open styles, outermost first.
    fn write_styles(&self, out: &mut String)
        ensures
            final(out)@ == old(out)@ + concat_all(self@.styles),
    {
        let ghost ss = self@.styles;
        let mut i: usize = 0;
        while i < self.style_stack.len()
            invariant
                i <= self.style_stack.len(),
                ss == self@.styles,
                ss.len() == self.style_stack@.len(),
                out@ == old(out)@ + concat_all(ss.subrange(0, i as int)),
            decreases self.style_stack.len() - i,
        {
            out.append(self.style_stack[i]);
            assert(ss.subrange(0, i + 1).drop_last() =~= ss.subrange(0, i as int));
            assert(ss[i as int] == self.style_stack@[i as int]@);
            i = i + 1;
            assert(out@ =~= old(out)@ + concat_all(ss.subrange(0, i as int)));
        }
        assert(ss.subrange(0, i as int) =~= ss);
    }

    /// Opens a style and writes it.
    fn push_style(&mut self, style: &'static str, out: &mut String)
        ensures
            final(self)@ == pushed(old(self)@, style@),
            final(out)@ == old(out)@ + style@,
    {
        self.style_stack.push(style);
        out.append(style);
        assert(self@.styles =~= old(self)@.styles.push(style@));
    }

    /// Closes the innermost style: writes a reset, then the styles that stay open.
    fn pop_style(&mut self, out: &mut String)
        ensures
            final(self)@ == popped(old(self)@),
            final(out)@ == old(out)@ + pop_text(old(self)@),
    {
        let _ = self.style_stack.pop();
        assert(self@.styles =~= popped(old(self)@).styles);
        out.append(RESET);
        self.write_styles(out);
    }

    /// Closes every open style, innermost first.
    fn pop_all(&mut self, out: &mut String)
        ensures
            final(self)@ == (RenderV { styles: Seq::empty(), ..old(self)@ }),
            final(out)@ == old(out)@ + pop_all_text(old(self)@.styles),
        decreases old(self).style_stack@.len(),
    {
        if self.style_stack.len() > 0 {
            let ghost s0 = self@;
            self.pop_style(out);
            let ghost mid = out@;
            self.pop_all(out);
            assert(out@ =~= old(out)@ + pop_all_text(s0.styles));
        } else {
            assert(self@.styles =~= Seq::<Seq<char>>::empty());
            assert(out@ =~= old(out)@ + pop_all_text(old(self)@.styles));
        }
    }

    /// Opens the styles of a heading.
    fn start_heading(&mut self, level: u8, out: &mut String)
        ensures
            final(self)@ == step(old(self)@, MdEventV::StartHeading(level)).0,
            final(out)@ == old(out)@ + step(old(self)@, MdEventV::StartHeading(level)).1,
    {
        let ghost st = self@;
        let ghost o = out@;
        out.append("\n");
        if level == 1 {
            self.push_style(BOLD, out);
            self.push_style(CYAN, out);
        } else if level == 2 {
            self.push_style(BOLD, out);
            self.push_style(YELLOW, out);
        } else if level == 3 {
            self.push_style(BOLD, out);
            self.push_style(GREEN, out);
        } else {
            self.push_style(BOLD, out);
        }
        proof {
            let hs = heading_styles(level);
            reveal_with_fuel(concat_all, 3);
            assert(self@.styles =~= st.styles + hs);
            if hs.len() == 2 {
                assert(hs.drop_last().drop_last() =~= Seq::<Seq<char>>::empty());
                assert(concat_all(hs) == hs[0] + hs[1]);
            } else {
                assert(hs.drop_last() =~= Seq::<Seq<char>>::empty());
                assert(concat_all(hs) == hs[0]);
            }
            assert(out@ =~= o + ("\n"@ + concat_all(hs)));
        }
    }

    /// Writes the top of a code block's frame.
    fn start_code_block(&mut self, lang: &Option<String>, out: &mut String)
        ensures
            final(self)@ == (RenderV { in_code_block: true, ..old(self)@ }),
            final(out)@ == old(out)@ + code_block_top(
                match lang {
                    Some(l) => Some(l@),
                    None => None,
                },
            ),
    {
        let ghost o = out@;
        self.in_code_block = true;
        out.append("\n");
        out.append(DIM);
        out.append("┌");
        match lang {
            Some(l) => {
                if !l.as_str().is_empty() {
                    out.append(" ");
                    out.append(l.as_str());
                    out.append(" ");
                }
            },
            None => {},
        }
        out.append("─");
        push_repeat(out, "─", 58);
        out.append("\n");
        assert(out@ =~= o + code_block_top(
            match lang {
                Some(l) => Some(l@),
                None => None,
            },
        ));
    }

    /// Writes the bottom of a code block's frame.
    fn end_code_block(&mut self, out: &mut String)
        ensures
            final(self)@ == (RenderV { in_code_block: false, ..old(self)@ }),
            final(out)@ == old(out)@ + (DIM@ + "└"@ + dashes(60) + RESET@ + "\n"@),
    {
        let ghost o = out@;
        self.in_code_block = false;
        out.append(DIM);
        out.append("└");
        push_repeat(out, "─", 60);
        out.append(RESET);
        out.append("\n");
        assert(out@ =~= o + (DIM@ + "└"@ + dashes(60) + RESET@ + "\n"@));
    }

    /// Writes inline code, then the open styles again.
    fn inline_code(&self, code: &String, out: &mut String)
        ensures
            final(out)@ == old(out)@ + (YELLOW@ + "`"@ + code@ + "`"@ + RESET@ + concat_all(self@.styles)),
    {
        let ghost o = out@;
        out.append(YELLOW);
        out.append("`");
        out.append(code.as_str());
        out.append("`");
        out.append(RESET);
        self.write_styles(out);
        assert(out@ =~= o + (YELLOW@ + "`"@ + code@ + "`"@ + RESET@ + concat_all(self@.styles)));
    }

    /// Writes the bullet of a list item, indented by the nesting.
    fn start_item(&self, out: &mut String)
        ensures
            final(out)@ == old(out)@ + step(self@, MdEventV::StartItem).1,
    {
        let ghost o = out@;
        let indent: usize = if self.list_depth > 0 {
            self.list_depth - 1
        } else {
            0
        };
        push_repeat(out, "  ", indent);
        out.append(GREEN);
        out.append("•");
        out.append(RESET);
        out.append(" ");
        assert(out@ =~= o + (repeat("  "@, indent as nat) + GREEN@ + "•"@ + RESET@ + " "@));
    }

    /// Closes the header row of a table and writes the separator under it.
    fn end_table_head(&mut self, out: &mut String)
        ensures
            final(self)@ == step(old(self)@, MdEventV::EndTableHead).0,
            final(out)@ == old(out)@ + step(old(self)@, MdEventV::EndTableHead).1,
    {
        let ghost st = self@;
        let ghost o = out@;
        self.pop_style(out);
        self.in_table_head = false;
        out.append("\n");
        out.append(DIM);
        push_repeat(out, "─", 60);
        out.append(RESET);
        assert(out@ =~= o + (pop_text(st) + "\n"@ + DIM@ + dashes(60) + RESET@));
    }

    /// Writes a horizontal rule.
    fn rule(&self, out: &mut String)
        ensures
            final(out)@ == old(out)@ + (DIM@ + dashes(60) + RESET@ + "\n"@),
    {
        let ghost o = out@;
        out.append(DIM);
        push_repeat(out, "─", 60);
        out.append(RESET);
        out.append("\n");
        assert(out@ =~= o + (DIM@ + dashes(60) + RESET@ + "\n"@));
    }

    /// Writes a footnote reference.
    fn footnote(&self, name: &String, out: &mut String)
        ensures
            final(out)@ == old(out)@ + (DIM@ + "["@ + name@ + "]"@ + RESET@),
    {
        let ghost o = out@;
        out.append(DIM);
        out.append("[");
        out.append(name.as_str());
        out.append("]");
        out.append(RESET);
        assert(out@ =~= o + (DIM@ + "["@ + name@ + "]"@ + RESET@));
    }

    /// Renders one event: writes its text and moves to the next state.
    #[verifier::spinoff_prover]
    #[verifier::rlimit(40)]
    pub fn render_event(&mut self, ev: &MdEvent, out: &mut String)
        requires
            old(self)@.list_depth < usize::MAX,
        ensures
            final(self)@ == step(old(self)@, ev@).0,
            final(out)@ == old(out)@ + step(old(self)@, ev@).1,
    {
        let ghost st = self@;
        let ghost o = out@;
        match ev {
            MdEvent::StartHeading(level) => self.start_heading(*level, out),
            MdEvent::EndHeading => {
                self.pop_all(out);
                out.append("\n");
                assert(out@ =~= o + (pop_all_text(st.styles) + "\n"@));
            },
            MdEvent::StartCodeBlock(lang) => self.start_code_block(lang, out),
            MdEvent::EndCodeBlock => self.end_code_block(out),
            MdEvent::Code(code) => self.inline_code(code, out),
            MdEvent::StartStrong => self.push_style(BOLD, out),
            MdEvent::EndStrong => self.pop_style(out),
            MdEvent::StartEmphasis => self.push_style(ITALIC, out),
            MdEvent::EndEmphasis => self.pop_style(out),
            MdEvent::StartStrikethrough => self.push_style(DIM, out),
            MdEvent::EndStrikethrough => self.pop_style(out),
            MdEvent::StartLink => {
                self.push_style(UNDERLINE, out);
                self.push_style(BLUE, out);
                assert(out@ =~= o + (UNDERLINE@ + BLUE@));
            },
            MdEvent::EndLink => {
                self.pop_style(out);
                self.pop_style(out);
                assert(out@ =~= o + (pop_text(st) + pop_text(popped(st))));
            },
            MdEvent::StartList => {
                self.list_depth = self.list_depth + 1;
                assert(out@ =~= o + Seq::<char>::empty());
            },
            MdEvent::EndList => {
                self.list_depth = if self.list_depth > 0 {
                    self.list_depth - 1
                } else {
                    0
                };
                if self.list_depth == 0 {
                    out.append("\n");
                } else {
                    assert(out@ =~= o + Seq::<char>::empty());
                }
            },
            MdEvent::StartItem => self.start_item(out),
            MdEvent::EndItem => out.append("\n"),
            MdEvent::EndParagraph => out.append("\n"),
            MdEvent::StartBlockQuote => {
                self.push_style(DIM, out);
                out.append("│ ");
                assert(out@ =~= o + (DIM@ + "│ "@));
            },
            MdEvent::EndBlockQuote => {
                self.pop_style(out);
                out.append("\n");
                assert(out@ =~= o + (pop_text(st) + "\n"@));
            },
            MdEvent::Rule => self.rule(out),
            MdEvent::SoftBreak => out.append(" "),
            MdEvent::HardBreak => out.append("\n"),
            MdEvent::EndTable => out.append("\n"),
            MdEvent::StartTableHead => {
                self.in_table_head = true;
                self.first_cell_in_row = true;
                self.push_style(BOLD, out);
            },
            MdEvent::EndTableHead => self.end_table_head(out),
            MdEvent::StartTableRow => {
                self.first_cell_in_row = true;
                assert(out@ =~= o + Seq::<char>::empty());
            },
            MdEvent::StartTableCell => {
                if self.first_cell_in_row {
                    self.first_cell_in_row = false;
                    out.append(" ");
                } else {
                    out.append(" │ ");
                }
            },
            MdEvent::Text(t) => out.append(t.as_str()),
            MdEvent::FootnoteReference(name) => self.footnote(name, out),
            MdEvent::Html(h) => out.append(h.as_str()),
            MdEvent::Other => {
                assert(out@ =~= o + Seq::<char>::empty());
            },
        }
    }
}

/// The terminal text of a list of events.
pub fn render_events(events: &[MdEvent]) -> (r: String)
    ensures
        r@ == rendered(event_views(events@)),
{
    let ghost evs = event_views(events@);
    let mut st = RenderState::new();
    let mut out = String::new();
    let mut i: usize = 0;
    while i < events.len()
        invariant
            i <= events.len(),
            evs == event_views(events@),
            st@ == render_from(initial_render(), evs.subrange(0, i as int)).0,
            out@ == render_from(initial_render(), evs.subrange(0, i as int)).1,
            st@.list_depth <= i,
        decreases events.len() - i,
    {
        let ghost pre = evs.subrange(0, i as int);
        let ghost cur = evs.subrange(0, i + 1);
        assert(cur.drop_last() =~= pre);
        assert(cur.last() == events@[i as int]@);
        st.render_event(&events[i], &mut out);
        proof {
            lemma_depth_bound(initial_render(), cur);
        }
        i = i + 1;
    }
    assert(evs.subrange(0, i as int) =~= evs);
    out
}

/// The events that `pulldown_cmark` reads from a markdown text, in the
/// library's form.
pub uninterp spec fn markdown_event_list(text: Seq<char>) -> Seq<MdEventV>;

/// `pulldown_cmark::Event`, carried through the conversion below.
#[verifier::external_type_specification]
#[verifier::external_body]
pub struct ExMdEvent<'a>(Event<'a>);

/// `pulldown_cmark::Tag`, carried through the conversion below.
#[verifier::external_type_specification]
#[verifier::external_body]
pub struct ExMdTag<'a>(Tag<'a>);

/// `pulldown_cmark::TagEnd`, carried through the conversion below.
#[verifier::external_type_specification]
#[verifier::external_body]
pub struct ExMdTagEnd(TagEnd);

/// Runs `pulldown_cmark::Parser::new` over the text (default options) and
/// takes each event it yields into the library's form.
///
/// Claims that the events are a function of the text alone.
#[verifier::external_body]
fn markdown_events(text: &str) -> (r: Vec<MdEvent>)
    ensures
        event_views(r@) == markdown_event_list(text@),
{
    Parser::new(text).map(md_event_of).collect()
}

/// Takes a `pulldown_cmark` event into the library's form, one variant for another.
#[verifier::external_body]
fn md_event_of(e: Event<'_>) -> MdEvent {
    match e {
        Event::Start(t) => md_start_of(t),
        Event::End(t) => md_end_of(t),
        Event::Text(s) => MdEvent::Text(s.to_string()),
        Event::Code(s) => MdEvent::Code(s.to_string()),
        Event::Html(s) | Event::InlineHtml(s) => MdEvent::Html(s.to_string()),
        Event::FootnoteReference(s) => MdEvent::FootnoteReference(s.to_string()),
        Event::SoftBreak => MdEvent::SoftBreak,
        Event::HardBreak => MdEvent::HardBreak,
        Event::Rule => MdEvent::Rule,
        _ => MdEvent::Other,
    }
}

/// Takes the start of a `pulldown_cmark` tag into the library's form, one variant for another.
#[verifier::external_body]
fn md_start_of(t: Tag<'_>) -> MdEvent {
    match t {
        Tag::Heading { level, .. } => MdEvent::StartHeading(level as u8),
        Tag::CodeBlock(k) => MdEvent::StartCodeBlock(if let CodeBlockKind::Fenced(l) = k { Some(l.to_string()) } else { None }),
        Tag::Strong => MdEvent::StartStrong,
        Tag::Emphasis => MdEvent::StartEmphasis,
        Tag::Strikethrough => MdEvent::StartStrikethrough,
        Tag::Link { .. } => MdEvent::StartLink,
        Tag::List(_) => MdEvent::StartList,
        Tag::Item => MdEvent::StartItem,
        Tag::BlockQuote(_) => MdEvent::StartBlockQuote,
        Tag::TableHead => MdEvent::StartTableHead,
        Tag::TableRow => MdEvent::StartTableRow,
        Tag::TableCell => MdEvent::StartTableCell,
        _ => MdEvent::Other,
    }
}

/// Takes the end of a `pulldown_cmark` tag into the library's form, one variant for another.
#[verifier::external_body]
fn md_end_of(t: TagEnd) -> MdEvent {
    match t {
        TagEnd::Heading(_) => MdEvent::EndHeading,
        TagEnd::CodeBlock => MdEvent::EndCodeBlock,
        TagEnd::Strong => MdEvent::EndStrong,
        TagEnd::Emphasis => MdEvent::EndEmphasis,
        TagEnd::Strikethrough => MdEvent::EndStrikethrough,
        TagEnd::Link => MdEvent::EndLink,
        TagEnd::List(_) => MdEvent::EndList,
        TagEnd::Item => MdEvent::EndItem,
        TagEnd::Paragraph => MdEvent::EndParagraph,
        TagEnd::BlockQuote(_) => MdEvent::EndBlockQuote,
        TagEnd::Table => MdEvent::EndTable,
        TagEnd::TableHead => MdEvent::EndTableHead,
        _ => MdEvent::Other,
    }
}

/// The terminal text of a markdown text: its events, as `pulldown_cmark`
/// reads them, rendered one after another.
pub fn render_markdown(text: &str) -> (r: String)
    ensures
        r@ == rendered(markdown_event_list(text@)),
{
    let events = markdown_events(text);
    render_events(events.as_slice())
}

} // verus!
