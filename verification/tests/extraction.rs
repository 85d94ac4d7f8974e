use proxy_race::lines::{extract_magnet_links, extract_socks_proxies, has_prefix, split_lines, trim_line};

#[test]
fn magnet_extraction_keeps_prefixed_lines_in_order() {
    // Three lines, exactly two with the scheme prefix: both kept, in order.
    let content = "magnet:?xt=1\nnot-a-link\nmagnet:?xt=2";
    let links = extract_magnet_links(content);
    assert_eq!(links, vec!["magnet:?xt=1".to_string(), "magnet:?xt=2".to_string()]);
}

#[test]
fn magnet_extraction_ignores_empty_and_near_miss_lines() {
    let content = "\nmagnet\nMagnet:?xt=1\n magnet:?xt=2\nmagnet:\n";
    let links = extract_magnet_links(content);
    assert_eq!(links, vec!["magnet:".to_string()]);
}

#[test]
fn magnet_extraction_of_empty_text_is_empty() {
    let links = extract_magnet_links("");
    assert!(links.is_empty());
}

#[test]
fn proxy_extraction_skips_blank_lines() {
    let content = "1.2.3.4:1080\n\n   \n\t\n5.6.7.8:9050\n";
    let proxies = extract_socks_proxies(content);
    assert_eq!(proxies, vec!["1.2.3.4:1080".to_string(), "5.6.7.8:9050".to_string()]);
}

#[test]
fn proxy_extraction_trims_entries() {
    // Entries are trimmed, as the reader yields trimmed lines.
    let content = " 1.2.3.4:1080 \n\t5.6.7.8:9050\n";
    let proxies = extract_socks_proxies(content);
    assert_eq!(proxies, vec!["1.2.3.4:1080".to_string(), "5.6.7.8:9050".to_string()]);
}

#[test]
fn proxy_extraction_handles_crlf_files() {
    let content = "1.2.3.4:1080\r\n5.6.7.8:9050\r\n";
    let proxies = extract_socks_proxies(content);
    assert_eq!(proxies, vec!["1.2.3.4:1080".to_string(), "5.6.7.8:9050".to_string()]);
}

#[test]
fn proxy_extraction_of_empty_text_is_empty() {
    // An empty proxies file yields no candidates, so a run ends before any
    // probe or download is attempted.
    let proxies = extract_socks_proxies("");
    assert!(proxies.is_empty());
}

#[test]
fn proxy_extraction_of_whitespace_only_text_is_empty() {
    let proxies = extract_socks_proxies("  \n\t\n \n");
    assert!(proxies.is_empty());
}

#[test]
fn split_lines_keeps_empty_pieces() {
    let pieces = split_lines("a\n\nb\n");
    assert_eq!(
        pieces,
        vec!["a".to_string(), "".to_string(), "b".to_string(), "".to_string()]
    );
}

#[test]
fn split_lines_of_empty_text_is_one_empty_piece() {
    assert_eq!(split_lines(""), vec!["".to_string()]);
}

#[test]
fn prefix_check_matches_rust_starts_with() {
    assert!(has_prefix("magnet:?xt=1", "magnet:"));
    assert!(!has_prefix("magnet", "magnet:"));
    assert!(!has_prefix("xmagnet:?", "magnet:"));
    assert!(has_prefix("anything", ""));
}

#[test]
fn trim_matches_rust_trim() {
    for s in ["", " \t\r", "\u{00A0}x\u{2003}", " a b ", "  .  ", "no-pad"] {
        assert_eq!(trim_line(s), s.trim());
    }
}

#[test]
fn magnet_extraction_strips_crlf_terminators() {
    let content = "magnet:?xt=1\r\nnot-a-link\r\nmagnet:?xt=2\r\n";
    let links = extract_magnet_links(content);
    assert_eq!(links, vec!["magnet:?xt=1".to_string(), "magnet:?xt=2".to_string()]);
}

#[test]
fn split_lines_strips_carriage_return_only_before_a_break() {
    // A carriage return is stripped with its line break; a bare trailing
    // one at end of text stays.
    assert_eq!(split_lines("a\r\nb\r"), vec!["a".to_string(), "b\r".to_string()]);
}
