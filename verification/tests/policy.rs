use condukt::policy::{
    answer, autonomy_confidence, calibrated_confidence, confidence_args, decide_said,
    effective_confidence, grade, mode_said, parse_policy_levels, policy_is_autonomous, Decision,
    Graded, Level, Probe,
};

/// A policy that goes by the confidence, and blocks what is risky.
fn by_confidence(risk: Level, _reversible: Level, confidence: Level) -> Decision {
    match (risk, confidence) {
        (Level::High, _) => Decision::Block,
        (_, Level::High) => Decision::Auto,
        _ => Decision::Escalate,
    }
}

fn graded(risk: Option<Level>, title: Option<&str>, probe: Probe) -> Graded {
    Graded {
        risk,
        reversible: Some(Level::Medium),
        confidence: Some(Level::High),
        title: title.map(|t| t.to_string()),
        files: Vec::new(),
        class: None,
        probe,
    }
}

#[test]
fn a_graded_decision_is_put_to_the_policy() {
    let low = Probe::Finished { exit_ok: true, level: Some(Level::Low) };
    let medium = Some(Level::Medium);
    assert_eq!(grade(&graded(medium, None, low), &by_confidence), Ok(Decision::Auto));
    assert_eq!(grade(&graded(medium, Some("t"), low), &by_confidence), Ok(Decision::Escalate));
    assert_eq!(
        grade(&graded(Some(Level::High), None, low), &by_confidence),
        Ok(Decision::Block)
    );
    assert_eq!(
        grade(&graded(None, None, low), &by_confidence),
        Err("condukt: --risk/--reversible/--confidence must each be low|medium|high")
    );
}

#[test]
fn no_new_flags_is_inert_and_falls_back() {
    for probe in [
        Probe::NotStarted,
        Probe::Finished { exit_ok: true, level: Some(Level::High) },
    ] {
        assert_eq!(calibrated_confidence(&None, &Vec::new(), &None, probe), None);
    }
    assert_eq!(confidence_args(&None, &Vec::new(), &None), None);
}

#[test]
fn flag_supplied_but_probe_unusable_falls_back() {
    let title = Some("some task".to_string());
    for probe in [
        Probe::NotStarted,
        Probe::Finished { exit_ok: false, level: Some(Level::High) },
        Probe::Finished { exit_ok: true, level: None },
    ] {
        assert_eq!(calibrated_confidence(&title, &Vec::new(), &None, probe), None);
    }
}

#[test]
fn a_usable_score_replaces_what_was_stated() {
    let title = Some("some task".to_string());
    let probe = Probe::Finished { exit_ok: true, level: Some(Level::Low) };
    let calibrated = calibrated_confidence(&title, &Vec::new(), &None, probe);
    assert_eq!(calibrated, Some(Level::Low));
    assert_eq!(effective_confidence(Level::High, calibrated), Level::Low);
    assert_eq!(effective_confidence(Level::High, None), Level::High);
}

#[test]
fn the_title_is_the_last_argument() {
    let args = confidence_args(
        &Some("do it".to_string()),
        &vec!["a".to_string(), "b".to_string()],
        &Some("serial".to_string()),
    )
    .unwrap();
    assert_eq!(args, vec!["confidence", "--files", "a,b", "--class", "serial", "do it"]);
}

#[test]
fn every_decision_exits_with_a_code_of_its_own() {
    assert_eq!(decide_said(Decision::Auto), ("auto", 0));
    assert_eq!(decide_said(Decision::Escalate), ("escalate", 2));
    assert_eq!(decide_said(Decision::Block), ("block", 3));
}

#[test]
fn every_grade_has_to_be_readable() {
    let high = Some(Level::High);
    assert_eq!(
        parse_policy_levels(high, high, Some(Level::Low)),
        Ok((Level::High, Level::High, Level::Low))
    );
    for bad in [
        parse_policy_levels(None, high, high),
        parse_policy_levels(high, None, high),
        parse_policy_levels(high, high, None),
    ] {
        assert_eq!(
            bad,
            Err("condukt: --risk/--reversible/--confidence must each be low|medium|high")
        );
    }
}

#[test]
fn an_answer_is_spelt_as_a_json_text() {
    let options = vec!["adopt".to_string(), "say \"no\"\n".to_string()];
    let a = answer(Decision::Auto, "q?", &options, 1, 7);
    assert_eq!(
        a.stdout.as_deref(),
        Some(
            "{\"answered\":true,\"policy\":\"auto\",\"chosen\":\"say \\\"no\\\"\\n\",\
             \"recommend_index\":1}"
        )
    );
    assert_eq!(a.exit_code, 0);
    let record = a.record.unwrap();
    assert_eq!(record.question, "q?");
    assert_eq!(record.created_at, 7);
    assert_eq!((record.policy.as_str(), record.chosen.as_str()), ("auto", "say \"no\"\n"));
    let none = answer(Decision::Auto, "q?", &options, 2, 7);
    assert_eq!(none.exit_code, 1);
    assert_eq!(
        none.stderr.as_deref(),
        Some("condukt: --recommend index 2 has no matching --option (got 2 option(s))")
    );
    assert!(none.record.is_none() && none.stdout.is_none());
    let ask = answer(Decision::Escalate, "q?", &options, 0, 7);
    assert_eq!(ask.stdout.as_deref(), Some("{\"answered\":false,\"policy\":\"escalate\"}"));
    assert_eq!(ask.exit_code, 2);
    let asked = ask.record.expect("an escalation is journaled");
    assert_eq!((asked.question.as_str(), asked.policy.as_str()), ("q?", "escalate"));
    assert_eq!(asked.chosen, "");
    assert_eq!((asked.options, asked.recommend_index, asked.created_at), (options.clone(), 0, 7));
    let stop = answer(Decision::Block, "q?", &options, 0, 7);
    assert_eq!(stop.stdout.as_deref(), Some("{\"answered\":false,\"policy\":\"block\"}"));
    assert_eq!(stop.exit_code, 3);
    let stopped = stop.record.expect("a refusal is journaled");
    assert_eq!((stopped.policy.as_str(), stopped.chosen.as_str()), ("block", ""));
    assert_eq!((stopped.options, stopped.recommend_index), (options, 0));
}

#[test]
fn autonomy_is_a_matter_of_confidence() {
    assert_eq!(autonomy_confidence(true), Level::High);
    assert_eq!(autonomy_confidence(false), Level::Low);
    assert!(policy_is_autonomous(true, &by_confidence));
    assert!(!policy_is_autonomous(false, &by_confidence));
    assert_eq!(mode_said("autonomous", true), ("{\"autonomous\":true}".to_string(), 0));
    assert_eq!(mode_said("autonomous", false), ("{\"autonomous\":false}".to_string(), 1));
}
