use xuanji::render::{render_events, render_markdown, MdEvent, RenderState, BOLD, CYAN, DIM, GREEN, RESET, YELLOW};

#[test]
fn render_state_starts_empty() {
    let mut st = RenderState::new();
    let mut out = String::new();
    st.render_event(&MdEvent::EndStrong, &mut out);
    assert_eq!(out, RESET);
}

#[test]
fn heading_styles_are_restored() {
    let events = vec![MdEvent::StartHeading(1), MdEvent::Text("Title".to_string()), MdEvent::EndHeading];
    let expected = format!("\n{BOLD}{CYAN}Title{RESET}{BOLD}{RESET}\n");
    assert_eq!(render_events(&events), expected);
}

#[test]
fn inline_code_reemits_open_styles() {
    let events = vec![
        MdEvent::StartStrong,
        MdEvent::Code("x".to_string()),
        MdEvent::Text("y".to_string()),
        MdEvent::EndStrong,
    ];
    assert_eq!(render_events(&events), format!("{BOLD}{YELLOW}`x`{RESET}{BOLD}y{RESET}"));
}

#[test]
fn nested_list_items_are_indented() {
    let events = vec![
        MdEvent::StartList,
        MdEvent::StartItem,
        MdEvent::Text("a".to_string()),
        MdEvent::StartList,
        MdEvent::StartItem,
        MdEvent::Text("b".to_string()),
        MdEvent::EndItem,
        MdEvent::EndList,
        MdEvent::EndItem,
        MdEvent::EndList,
    ];
    let bullet = format!("{GREEN}•{RESET} ");
    assert_eq!(render_events(&events), format!("{bullet}a  {bullet}b\n\n\n"));
}

#[test]
fn code_block_is_framed() {
    let events = vec![
        MdEvent::StartCodeBlock(Some("rust".to_string())),
        MdEvent::Text("fn main() {}\n".to_string()),
        MdEvent::EndCodeBlock,
    ];
    let top = format!("\n{DIM}┌ rust ─{}\n", "─".repeat(58));
    let bottom = format!("{DIM}└{}{RESET}\n", "─".repeat(60));
    assert_eq!(render_events(&events), format!("{top}fn main() {{}}\n{bottom}"));
}

#[test]
fn table_cells_are_separated() {
    let events = vec![
        MdEvent::StartTableHead,
        MdEvent::StartTableCell,
        MdEvent::Text("a".to_string()),
        MdEvent::StartTableCell,
        MdEvent::Text("b".to_string()),
        MdEvent::EndTableHead,
        MdEvent::StartTableRow,
        MdEvent::StartTableCell,
        MdEvent::Text("1".to_string()),
        MdEvent::EndTable,
    ];
    let sep = format!("\n{DIM}{}{RESET}", "─".repeat(60));
    assert_eq!(render_events(&events), format!("{BOLD} a │ b{RESET}{sep} 1\n"));
}

#[test]
fn markdown_text_is_rendered() {
    let out = render_markdown("# Title\n\nSome **bold** text.");
    assert!(out.starts_with(&format!("\n{BOLD}{CYAN}Title")));
    assert!(out.contains(&format!("{BOLD}bold{RESET}")));
    assert!(out.ends_with(" text.\n"));
    assert_eq!(render_markdown(""), "");
}

#[test]
fn opening_and_closing_a_style_restores_the_state() {
    let mut st = RenderState::new();
    let mut out = String::new();
    st.render_event(&MdEvent::StartEmphasis, &mut out);
    st.render_event(&MdEvent::StartLink, &mut out);
    st.render_event(&MdEvent::EndLink, &mut out);
    st.render_event(&MdEvent::EndEmphasis, &mut out);
    out.clear();
    st.render_event(&MdEvent::Code("c".to_string()), &mut out);
    assert_eq!(out, format!("{YELLOW}`c`{RESET}"));
}
