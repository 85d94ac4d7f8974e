use proxy_race::lines::extract_socks_proxies;
use proxy_race::persist::render_survivors;

#[test]
fn render_writes_one_survivor_per_line() {
    let survivors = vec!["1.2.3.4:1080".to_string(), "5.6.7.8:9050".to_string()];
    let text = render_survivors(&survivors);
    assert_eq!(text, "1.2.3.4:1080\n5.6.7.8:9050\n");
}

#[test]
fn render_of_no_survivors_is_empty_text() {
    let text = render_survivors(&Vec::new());
    assert_eq!(text, "");
}

#[test]
fn round_trip_reproduces_the_survivor_sequence() {
    // Persisting a survivor list and reading the file back yields the same
    // ordered sequence of addresses.
    let survivors = vec![
        "1.2.3.4:1080".to_string(),
        "5.6.7.8:9050".to_string(),
        "9.9.9.9:1".to_string(),
    ];
    let text = render_survivors(&survivors);
    assert_eq!(extract_socks_proxies(&text), survivors);
}

#[test]
fn round_trip_of_a_single_survivor() {
    let survivors = vec!["127.0.0.1:9050".to_string()];
    let text = render_survivors(&survivors);
    assert_eq!(extract_socks_proxies(&text), survivors);
}

#[test]
fn round_trip_of_no_survivors_leaves_the_file_logically_empty() {
    let text = render_survivors(&Vec::new());
    assert!(extract_socks_proxies(&text).is_empty());
}
