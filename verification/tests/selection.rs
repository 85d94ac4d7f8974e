use proxy_race::selector::{RaceState, SeqRun};

#[test]
fn race_returns_first_observed_success() {
    // Two candidates; the first's probe fails and the second's succeeds.
    let mut race = RaceState::race_start(2);
    race.on_probe_result("1.1.1.1:1080".to_string(), false);
    assert!(!race.decided());
    race.on_probe_result("2.2.2.2:1080".to_string(), true);
    assert!(race.decided());
    assert_eq!(race.into_winner(), Some("2.2.2.2:1080".to_string()));
}

#[test]
fn race_winner_does_not_change_after_first_success() {
    let mut race = RaceState::race_start(3);
    race.on_probe_result("a:1".to_string(), true);
    race.on_probe_result("b:2".to_string(), true);
    race.on_probe_result("c:3".to_string(), false);
    assert!(race.finished());
    assert_eq!(race.into_winner(), Some("a:1".to_string()));
}

#[test]
fn race_with_all_failures_reports_no_winner() {
    let mut race = RaceState::race_start(2);
    race.on_probe_result("1.1.1.1:1080".to_string(), false);
    race.on_probe_result("2.2.2.2:1080".to_string(), false);
    assert!(race.finished());
    assert!(!race.decided());
    assert_eq!(race.into_winner(), None);
}

#[test]
fn race_over_no_candidates_is_finished_at_once() {
    let race = RaceState::race_start(0);
    assert!(race.finished());
    assert_eq!(race.into_winner(), None);
}

#[test]
fn sequential_run_records_only_passing_candidates() {
    // Two candidates: the first's probe fails, the second's succeeds, and
    // the download through the second succeeds.
    let candidates = vec!["1.1.1.1:1080".to_string(), "2.2.2.2:1080".to_string()];
    let mut run = SeqRun::seq_start(candidates);
    assert!(run.probe_pending());
    assert_eq!(run.current_candidate(), "1.1.1.1:1080".to_string());
    run.on_probe(false);
    assert!(run.probe_pending());
    assert_eq!(run.current_candidate(), "2.2.2.2:1080".to_string());
    run.on_probe(true);
    assert!(!run.probe_pending());
    run.on_download(true);
    assert!(run.is_finished());
    assert_eq!(run.survivors(), &vec!["2.2.2.2:1080".to_string()]);
}

#[test]
fn sequential_run_with_failing_probe_attempts_no_download() {
    // One candidate whose probe always fails: no download step ever becomes
    // pending and the survivor list stays empty.
    let candidates = vec!["1.2.3.4:1080".to_string()];
    let mut run = SeqRun::seq_start(candidates);
    assert!(run.probe_pending());
    run.on_probe(false);
    assert!(!run.probe_pending());
    assert!(run.is_finished());
    assert!(run.survivors().is_empty());
}

#[test]
fn sequential_run_continues_after_failed_download() {
    // The first candidate passes its probe but its download fails; the walk
    // moves on, and both passing candidates stay survivors.
    let candidates = vec!["a:1".to_string(), "b:2".to_string(), "c:3".to_string()];
    let mut run = SeqRun::seq_start(candidates);
    run.on_probe(true);
    run.on_download(false);
    assert!(!run.is_finished());
    run.on_probe(false);
    run.on_probe(true);
    run.on_download(true);
    assert!(run.is_finished());
    assert_eq!(run.survivors(), &vec!["a:1".to_string(), "c:3".to_string()]);
}

#[test]
fn sequential_run_over_no_candidates_is_finished_at_once() {
    let run = SeqRun::seq_start(Vec::new());
    assert!(!run.probe_pending());
    assert!(run.is_finished());
    assert!(run.survivors().is_empty());
}

#[test]
fn sequential_survivors_preserve_candidate_order_with_duplicates() {
    let candidates = vec!["a:1".to_string(), "a:1".to_string(), "b:2".to_string()];
    let mut run = SeqRun::seq_start(candidates);
    run.on_probe(true);
    run.on_download(false);
    run.on_probe(true);
    run.on_download(false);
    run.on_probe(false);
    assert!(run.is_finished());
    assert_eq!(run.survivors(), &vec!["a:1".to_string(), "a:1".to_string()]);
}
