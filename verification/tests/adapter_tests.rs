use oracleguard::adapter::{aggregate_outcome, build_aggregate_args, AggregateConfig, AggregateError};

fn sample_config() -> AggregateConfig {
    AggregateConfig::new_mvp(String::from("/etc/oracleguard/deploy/preprod/ada-usd-preprod.yml"))
}

#[test]
fn new_mvp_enables_auto_submit() {
    let c = sample_config();
    assert!(c.auto_submit);
}

#[test]
fn new_mvp_has_no_feed_data() {
    let c = sample_config();
    assert!(c.feed_data.is_none());
}

#[test]
fn new_mvp_carries_config_path_verbatim() {
    let c = sample_config();
    assert_eq!(c.config_file, String::from("/etc/oracleguard/deploy/preprod/ada-usd-preprod.yml"));
}

#[test]
fn build_aggregate_args_is_deterministic() {
    let c = sample_config();
    let a = build_aggregate_args(&c);
    let b = build_aggregate_args(&c);
    assert_eq!(a, b);
}

#[test]
fn build_aggregate_args_emits_expected_flag_order() {
    let args = build_aggregate_args(&sample_config());
    assert_eq!(args[0], "aggregate");
    assert_eq!(args[1], "--config");
    assert_eq!(args[3], "--auto-submit");
}

#[test]
fn build_aggregate_args_emits_config_path_after_flag() {
    let args = build_aggregate_args(&sample_config());
    assert_eq!(args[2], "/etc/oracleguard/deploy/preprod/ada-usd-preprod.yml");
}

#[test]
fn build_aggregate_args_omits_auto_submit_when_false() {
    let mut c = sample_config();
    c.auto_submit = false;
    let args = build_aggregate_args(&c);
    assert!(!args.iter().any(|a| a == "--auto-submit"));
}

#[test]
fn build_aggregate_args_includes_feed_data_when_set() {
    let mut c = sample_config();
    c.feed_data = Some(String::from("/tmp/feeds.json"));
    let args = build_aggregate_args(&c);
    let flag_pos = args
        .iter()
        .position(|a| a == "--feed-data")
        .expect("--feed-data must appear when feed_data is Some");
    assert_eq!(args[flag_pos + 1], "/tmp/feeds.json");
}

#[test]
fn build_aggregate_args_omits_feed_data_when_none() {
    let c = sample_config();
    let args = build_aggregate_args(&c);
    assert!(!args.iter().any(|a| a == "--feed-data"));
}

#[test]
fn build_aggregate_args_feed_data_appears_after_auto_submit() {
    let mut c = sample_config();
    c.feed_data = Some(String::from("/tmp/feeds.json"));
    let args = build_aggregate_args(&c);
    let auto_pos = args.iter().position(|a| a == "--auto-submit").unwrap();
    let feed_pos = args.iter().position(|a| a == "--feed-data").unwrap();
    assert!(feed_pos > auto_pos, "--feed-data must appear after --auto-submit");
}

#[test]
fn build_aggregate_args_config_path_change_isolates_to_path_position() {
    let a = build_aggregate_args(&sample_config());
    let mut c2 = sample_config();
    c2.config_file = String::from("/etc/oracleguard/deploy/preprod/btc-usd-preprod.yml");
    let b = build_aggregate_args(&c2);
    assert_eq!(a.len(), b.len());
    for (i, (x, y)) in a.iter().zip(b.iter()).enumerate() {
        if i == 2 {
            assert_ne!(x, y);
        } else {
            assert_eq!(x, y, "arg {i} must not change when only config path changes");
        }
    }
}

#[test]
fn build_aggregate_args_matches_golden_fixture() {
    const GOLDEN: &str = "aggregate\n--config\n/etc/oracleguard/deploy/preprod/ada-usd-preprod.yml\n--auto-submit\n";
    let args = build_aggregate_args(&sample_config());
    let rendered = args.join("\n");
    assert_eq!(rendered.trim_end(), GOLDEN.trim_end());
}

#[test]
fn build_aggregate_args_full_shape_with_every_flag() {
    let mut c = sample_config();
    c.feed_data = Some(String::from("/tmp/feeds.json"));
    let args = build_aggregate_args(&c);
    assert_eq!(
        args,
        vec![
            "aggregate",
            "--config",
            "/etc/oracleguard/deploy/preprod/ada-usd-preprod.yml",
            "--auto-submit",
            "--feed-data",
            "/tmp/feeds.json",
        ]
    );
    c.auto_submit = false;
    c.feed_data = None;
    assert_eq!(
        build_aggregate_args(&c),
        vec!["aggregate", "--config", "/etc/oracleguard/deploy/preprod/ada-usd-preprod.yml"]
    );
}

#[test]
fn successful_aggregation_returns_stdout_verbatim() {
    let out = aggregate_outcome(true, Some(0), b"tx submitted".to_vec(), b"warn".to_vec());
    match out {
        Ok(raw) => assert_eq!(raw.bytes, b"tx submitted".to_vec()),
        Err(e) => panic!("expected success, got {e:?}"),
    }
}

#[test]
fn failed_aggregation_surfaces_code_and_both_streams() {
    let out = aggregate_outcome(false, Some(2), b"partial".to_vec(), b"insufficient funds".to_vec());
    match out {
        Err(AggregateError::NonZeroExit { exit_code, stdout, stderr }) => {
            assert_eq!(exit_code, Some(2));
            assert_eq!(stdout, b"partial".to_vec());
            assert_eq!(stderr, b"insufficient funds".to_vec());
        }
        other => panic!("expected NonZeroExit, got {other:?}"),
    }
}
