use compiler_bot::format::conform_external_str;

#[test]
fn backticks_get_a_zero_width_space() {
    assert_eq!(conform_external_str("a`b"), "a\u{200B}`b");
    assert_eq!(conform_external_str("``"), "\u{200B}`\u{200B}`");
}

#[test]
fn ansi_color_sequences_are_stripped() {
    assert_eq!(conform_external_str("\x1b[31mwarning\x1b[0m: unused"), "warning: unused");
}

#[test]
fn long_output_is_cut_to_the_cap() {
    let long = "x".repeat(1500);
    let out = conform_external_str(&long);
    assert_eq!(out.chars().count(), 1000);
    assert!(out.chars().all(|c| c == 'x'));
}

#[test]
fn plain_text_passes_through() {
    assert_eq!(conform_external_str("hello world"), "hello world");
    assert_eq!(conform_external_str(""), "");
}

#[test]
fn pagination_keeps_every_item_in_order() {
    let items: Vec<String> = ["a", "b", "c", "d", "e"].iter().map(|s| s.to_string()).collect();
    let pages = compiler_bot::format::paginate(&items, 2);
    assert_eq!(pages.len(), 3);
    assert_eq!(pages[0], vec!["a".to_string(), "b".to_string()]);
    assert_eq!(pages[1], vec!["c".to_string(), "d".to_string()]);
    assert_eq!(pages[2], vec!["e".to_string()]);
}

#[test]
fn pagination_of_an_even_split_has_no_empty_page() {
    let items: Vec<String> = ["a", "b", "c", "d"].iter().map(|s| s.to_string()).collect();
    let pages = compiler_bot::format::paginate(&items, 2);
    assert_eq!(pages.len(), 2);
}

#[test]
fn pagination_of_nothing_is_no_pages() {
    let items: Vec<String> = Vec::new();
    assert!(compiler_bot::format::paginate(&items, 15).is_empty());
}

#[test]
fn lines_pack_greedily_under_the_cap() {
    let lines: Vec<String> = ["mov eax, 1", "ret", "nop"].iter().map(|s| s.to_string()).collect();
    let pieces = compiler_bot::format::pack_lines(&lines, 16);
    assert_eq!(pieces, vec!["mov eax, 1\nret\n".to_string(), "nop\n".to_string()]);
}

#[test]
fn short_listing_packs_into_one_piece() {
    let lines: Vec<String> = ["a", "b"].iter().map(|s| s.to_string()).collect();
    let pieces = compiler_bot::format::pack_lines(&lines, 1000);
    assert_eq!(pieces, vec!["a\nb\n".to_string()]);
}

#[test]
fn no_lines_pack_into_no_pieces() {
    let lines: Vec<String> = Vec::new();
    assert!(compiler_bot::format::pack_lines(&lines, 1000).is_empty());
}
