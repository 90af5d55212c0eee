use cairn_runtime::model_chain::{format_attempt_summary, AttemptError, FallbackAttempt, FallbackOutcome, ModelChain};

fn err(reason: &str, eligible: bool, rate_limited: bool) -> AttemptError {
    AttemptError {
        reason_code: reason.to_owned(),
        message: format!("{reason} happened"),
        fallback_eligible: eligible,
        rate_limited,
    }
}

#[test]
fn chain_dedupes_and_trims() {
    let chain = ModelChain::new(vec![
        "a".to_owned(),
        "b".to_owned(),
        "a".to_owned(),
        "  ".to_owned(),
        "c".to_owned(),
    ]);
    assert_eq!(chain.models(), &["a", "b", "c"]);
}

#[test]
fn single_model_chain_has_len_one() {
    let chain = ModelChain::single("solo".to_owned());
    assert_eq!(chain.len(), 1);
    assert_eq!(chain.preferred(), Some("solo"));
}

#[test]
fn empty_chain_is_empty() {
    let empty = ModelChain::new(Vec::<String>::new());
    assert!(empty.is_empty());
}

#[test]
fn format_attempt_summary_lists_each_failure() {
    let attempts = vec![
        FallbackAttempt {
            model_id: "a".to_owned(),
            reason_code: "empty_response".to_owned(),
            error_message: "empty".to_owned(),
        },
        FallbackAttempt {
            model_id: "b".to_owned(),
            reason_code: "upstream_5xx".to_owned(),
            error_message: "503".to_owned(),
        },
    ];
    let s = format_attempt_summary(&attempts);
    assert!(s.contains("empty_response"));
    assert!(s.contains("upstream_5xx"));
    assert!(s.contains("a"));
    assert!(s.contains("b"));
}

#[test]
fn format_attempt_summary_empty_is_graceful() {
    let s = format_attempt_summary(&[]);
    assert!(s.contains("no models"));
}

#[test]
fn format_attempt_summary_exact_text() {
    let attempts = vec![FallbackAttempt {
        model_id: "m1".to_owned(),
        reason_code: "rate_limited".to_owned(),
        error_message: "slow down".to_owned(),
    }];
    assert_eq!(
        format_attempt_summary(&attempts),
        "all providers failed:\n  1. [rate_limited] m1 \u{2014} slow down\n"
    );
    assert_eq!(format_attempt_summary(&[]), "no models attempted (fallback chain was empty)");
}

#[test]
fn chain_succeeds_on_first_model_step_by_step() {
    let mut chain = ModelChain::new(vec!["m1".to_owned(), "m2".to_owned()]);
    let mut run = chain.start_run();
    let model = chain.next_attempt_at(&mut run, 1_000).unwrap();
    assert_eq!(model, "m1");
    match chain.on_result_at(run, Ok::<String, AttemptError>(format!("ok-{model}")), 1_000) {
        Ok(FallbackOutcome::Success { value, model_id, fallback_position, attempts }) => {
            assert_eq!(value, "ok-m1");
            assert_eq!(model_id, "m1");
            assert_eq!(fallback_position, 0);
            assert!(attempts.is_empty());
        },
        _ => panic!("expected success"),
    }
}

#[test]
fn chain_advances_on_rate_limit_and_skips_cooling_model() {
    let mut chain = ModelChain::new(vec!["m1".to_owned(), "m2".to_owned()]).with_rate_limit_cooldown(60_000);
    let mut run = chain.start_run();
    assert_eq!(chain.next_attempt_at(&mut run, 1_000).unwrap(), "m1");
    let run = match chain.on_result_at::<String>(run, Err(err("rate_limited", true, true)), 1_000) {
        Err(run) => run,
        Ok(_) => panic!("the walk must go on"),
    };
    let mut run = run;
    assert_eq!(chain.next_attempt_at(&mut run, 1_000).unwrap(), "m2");
    match chain.on_result_at(run, Ok::<String, AttemptError>("ok-m2".to_owned()), 1_000) {
        Ok(FallbackOutcome::Success { value, fallback_position, attempts, .. }) => {
            assert_eq!(value, "ok-m2");
            assert_eq!(fallback_position, 1);
            assert_eq!(attempts.len(), 1);
            assert_eq!(attempts[0].reason_code, "rate_limited");
        },
        _ => panic!("expected success"),
    }
    // A second walk skips m1 while it cools down.
    let mut run = chain.start_run();
    assert_eq!(chain.next_attempt_at(&mut run, 2_000).unwrap(), "m2");
    match chain.on_result_at(run, Ok::<String, AttemptError>("ok".to_owned()), 2_000) {
        Ok(FallbackOutcome::Success { model_id, fallback_position, attempts, .. }) => {
            assert_eq!(model_id, "m2");
            assert_eq!(fallback_position, 1);
            assert_eq!(attempts.len(), 1);
            assert_eq!(attempts[0].reason_code, "cooldown_skip");
        },
        _ => panic!("expected success"),
    }
    // After the cooldown m1 is tried again.
    let mut run = chain.start_run();
    assert_eq!(chain.next_attempt_at(&mut run, 61_001).unwrap(), "m1");
}

#[test]
fn chain_escalates_on_non_retryable_error() {
    let mut chain = ModelChain::new(vec!["m1".to_owned(), "m2".to_owned()]);
    let mut run = chain.start_run();
    assert_eq!(chain.next_attempt_at(&mut run, 5).unwrap(), "m1");
    match chain.on_result_at::<()>(run, Err(err("auth", false, false)), 5) {
        Ok(FallbackOutcome::NonRetryable { model_id, attempts, .. }) => {
            assert_eq!(model_id, "m1");
            assert_eq!(attempts.len(), 1);
        },
        _ => panic!("expected a non-retryable outcome"),
    }
}

#[test]
fn chain_exhausts_when_all_fail_retryably() {
    let mut chain = ModelChain::new(vec!["m1".to_owned(), "m2".to_owned(), "m3".to_owned()]);
    let mut run = chain.start_run();
    loop {
        match chain.next_attempt_at(&mut run, 7) {
            Some(_) => {
                run = match chain.on_result_at::<()>(run, Err(err("upstream_5xx", true, false)), 7) {
                    Err(next) => next,
                    Ok(_) => panic!("the walk must go on"),
                };
            },
            None => break,
        }
    }
    match chain.finish::<()>(run) {
        FallbackOutcome::Exhausted { attempts } => {
            assert_eq!(attempts.len(), 3);
            for a in attempts {
                assert_eq!(a.reason_code, "upstream_5xx");
            }
        },
        _ => panic!("expected exhaustion"),
    }
}

#[test]
fn chain_succeeds_on_first_model() {
    let mut chain = ModelChain::new(vec!["m1".to_owned(), "m2".to_owned()]);
    let outcome: FallbackOutcome<String> = chain.run(|m| Ok::<_, AttemptError>(format!("ok-{m}")));
    match outcome {
        FallbackOutcome::Success { value, model_id, fallback_position, attempts } => {
            assert_eq!(value, "ok-m1");
            assert_eq!(model_id, "m1");
            assert_eq!(fallback_position, 0);
            assert!(attempts.is_empty());
        },
        _ => panic!("expected Success"),
    }
}

#[test]
fn chain_advances_on_rate_limit_then_succeeds() {
    let mut chain = ModelChain::new(vec!["m1".to_owned(), "m2".to_owned(), "m3".to_owned()]);
    let first = std::cell::Cell::new(true);
    let outcome = chain.run(|m| {
        let is_first = first.replace(false);
        if is_first { Err(err("rate_limited", true, true)) } else { Ok(format!("ok-{m}")) }
    });
    match outcome {
        FallbackOutcome::Success { value, fallback_position, attempts, .. } => {
            assert_eq!(value, "ok-m2");
            assert_eq!(fallback_position, 1);
            assert_eq!(attempts.len(), 1);
            assert_eq!(attempts[0].reason_code, "rate_limited");
        },
        _ => panic!("expected Success"),
    }
}

#[test]
fn chain_advances_on_5xx_then_succeeds() {
    let mut chain = ModelChain::new(vec!["m1".to_owned(), "m2".to_owned()]);
    let first = std::cell::Cell::new(true);
    let outcome = chain.run(|m| if first.replace(false) { Err(err("upstream_5xx", true, false)) } else { Ok(format!("ok-{m}")) });
    assert!(matches!(outcome, FallbackOutcome::Success { .. }));
}

#[test]
fn chain_advances_on_empty_response() {
    let mut chain = ModelChain::new(vec!["m1".to_owned(), "m2".to_owned()]);
    let first = std::cell::Cell::new(true);
    let outcome = chain.run(|m| if first.replace(false) { Err(err("empty_response", true, false)) } else { Ok(m) });
    match outcome {
        FallbackOutcome::Success { fallback_position, attempts, .. } => {
            assert_eq!(fallback_position, 1);
            assert_eq!(attempts[0].reason_code, "empty_response");
        },
        _ => panic!("unexpected outcome"),
    }
}

#[test]
fn chain_escalates_on_auth_without_trying_next() {
    let mut chain = ModelChain::new(vec!["m1".to_owned(), "m2".to_owned()]);
    let calls = std::cell::Cell::new(0);
    let outcome: FallbackOutcome<()> = chain.run(|_m| {
        calls.set(calls.get() + 1);
        Err(err("auth", false, false))
    });
    assert_eq!(calls.get(), 1, "must not try m2 after auth error");
    match outcome {
        FallbackOutcome::NonRetryable { model_id, .. } => assert_eq!(model_id, "m1"),
        _ => panic!("expected NonRetryable"),
    }
}

#[test]
fn chain_escalates_on_invalid_request_without_trying_next() {
    let mut chain = ModelChain::new(vec!["m1".to_owned(), "m2".to_owned()]);
    let calls = std::cell::Cell::new(0);
    let outcome: FallbackOutcome<()> = chain.run(|_m| {
        calls.set(calls.get() + 1);
        Err(err("invalid_request", false, false))
    });
    assert_eq!(calls.get(), 1);
    assert!(matches!(outcome, FallbackOutcome::NonRetryable { .. }));
}

#[test]
fn chain_run_exhausts_with_one_attempt_per_model() {
    let mut chain = ModelChain::new(vec!["m1".to_owned(), "m2".to_owned(), "m3".to_owned()]);
    let outcome: FallbackOutcome<()> = chain.run_at(|_m| Err(err("upstream_5xx", true, false)), 5);
    match outcome {
        FallbackOutcome::Exhausted { attempts } => {
            let ids: Vec<&str> = attempts.iter().map(|a| a.model_id.as_str()).collect();
            assert_eq!(ids, vec!["m1", "m2", "m3"]);
            assert!(attempts.iter().all(|a| a.reason_code == "upstream_5xx"));
        },
        _ => panic!("expected Exhausted"),
    }
}

#[test]
fn rate_limited_model_skipped_on_next_call() {
    let mut chain = ModelChain::new(vec!["m1".to_owned(), "m2".to_owned()]).with_rate_limit_cooldown(60_000);
    let first = std::cell::Cell::new(true);
    let _ = chain.run(|m| if first.replace(false) { Err(err("rate_limited", true, true)) } else { Ok(m) });

    let calls = std::cell::RefCell::new(Vec::<String>::new());
    let outcome = chain.run(|m| {
        calls.borrow_mut().push(m.clone());
        Ok::<_, AttemptError>(m)
    });
    assert_eq!(*calls.borrow(), vec!["m2".to_owned()], "m1 must be skipped");
    match outcome {
        FallbackOutcome::Success { model_id, fallback_position, attempts, .. } => {
            assert_eq!(model_id, "m2");
            assert_eq!(fallback_position, 1);
            assert_eq!(attempts.len(), 1);
            assert_eq!(attempts[0].reason_code, "cooldown_skip");
        },
        _ => panic!("expected Success"),
    }
}

#[test]
fn cooldown_entry_expires() {
    let mut chain = ModelChain::new(vec!["m1".to_owned(), "m2".to_owned()]).with_rate_limit_cooldown(20);
    let _: FallbackOutcome<()> = chain.run_at(|_m| Err(err("rate_limited", true, true)), 1_000);
    // Within the cooldown both models are skipped; after it m1 is tried again.
    let within: FallbackOutcome<String> = chain.run_at(|m| Ok(m), 1_010);
    match within {
        FallbackOutcome::Exhausted { attempts } => assert!(attempts.iter().all(|a| a.reason_code == "cooldown_skip")),
        _ => panic!("expected every model skipped"),
    }
    let after: FallbackOutcome<String> = chain.run_at(|m| Ok(m), 1_040);
    assert!(matches!(after, FallbackOutcome::Success { ref model_id, .. } if model_id == "m1"));
}

#[test]
fn cooldown_skip_message_names_the_cooldown() {
    for (ms, text) in [(1_050u64, "1.05s"), (20, "20ms"), (300_000, "300s"), (1_500, "1.5s")] {
        let mut chain = ModelChain::new(vec!["m1".to_owned(), "m2".to_owned()]).with_rate_limit_cooldown(ms);
        let _: FallbackOutcome<()> = chain.run_at(|_m| Err(err("rate_limited", true, true)), 1_000);
        let again: FallbackOutcome<()> = chain.run_at(|_m| Err(err("upstream_5xx", true, false)), 1_001);
        match again {
            FallbackOutcome::Exhausted { attempts } => {
                assert_eq!(attempts[0].reason_code, "cooldown_skip");
                assert_eq!(attempts[0].error_message, format!("skipped \u{2014} model under local rate-limit cooldown for {text}"));
            },
            _ => panic!("expected exhaustion"),
        }
    }
}

#[test]
fn cooldown_map_passes_between_chains() {
    let mut first = ModelChain::new(vec!["m1".to_owned(), "m2".to_owned()]).with_rate_limit_cooldown(60_000);
    let _: FallbackOutcome<()> = first.run_at(|m| if m == "m1" { Err(err("rate_limited", true, true)) } else { Err(err("upstream_5xx", true, false)) }, 1_000);
    let map = first.into_cooldown();
    let mut second = ModelChain::new(vec!["m1".to_owned(), "m3".to_owned()]).with_cooldown(map);
    let out: FallbackOutcome<String> = second.run_at(|m| Ok(m), 2_000);
    assert!(matches!(out, FallbackOutcome::Success { ref model_id, .. } if model_id == "m3"));
}

#[test]
fn empty_chain_run_is_exhausted_without_attempts() {
    let mut chain = ModelChain::new(vec!["  ".to_owned()]);
    let out: FallbackOutcome<String> = chain.run(|m| Ok(m));
    match out {
        FallbackOutcome::Exhausted { attempts } => assert!(attempts.is_empty()),
        _ => panic!("an empty chain tries nothing"),
    }
}
