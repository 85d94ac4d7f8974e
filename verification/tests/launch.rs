use proxy_race::command::{download_plan, probe_plan};
use proxy_race::probe_is_live;

#[test]
fn probe_plan_routes_curl_through_the_proxy() {
    let plan = probe_plan(&"1.2.3.4:1080".to_string());
    assert_eq!(plan.program, "curl");
    assert_eq!(
        plan.args,
        vec![
            "-x".to_string(),
            "socks5h://1.2.3.4:1080".to_string(),
            "https://rutracker.org".to_string(),
            "--max-time".to_string(),
            "10".to_string(),
        ]
    );
    assert!(plan.env.is_empty());
}

#[test]
fn download_plan_passes_the_proxy_through_the_environment() {
    let plan = download_plan(
        &"magnet:?xt=1".to_string(),
        &"/tmp/downloads".to_string(),
        &"1.2.3.4:1080".to_string(),
    );
    assert_eq!(plan.program, "transmission-cli");
    assert_eq!(
        plan.args,
        vec![
            "magnet:?xt=1".to_string(),
            "-w".to_string(),
            "/tmp/downloads".to_string(),
            "--no-incomplete".to_string(),
            "--debug".to_string(),
        ]
    );
    assert_eq!(
        plan.env,
        vec![("ALL_PROXY".to_string(), "socks5://1.2.3.4:1080".to_string())]
    );
}

#[test]
fn only_a_successful_exit_counts_as_live() {
    assert!(probe_is_live(Some(true)));
    assert!(!probe_is_live(Some(false)));
    // A probe that could not even be launched is treated as not live.
    assert!(!probe_is_live(None));
}
