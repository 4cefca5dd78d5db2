use condukt::editgate::{
    block_reason, check_edit, edits_files, enforce_edit_gate, interpret_check_stdout, strip_ansi,
    tail, CheckRun, EditGateDecision, EditVerdict,
};

fn finished(stdout: &str, stderr: &str, exit_ok: bool) -> CheckRun {
    CheckRun::Finished { stdout: stdout.to_string(), stderr: stderr.to_string(), exit_ok }
}

fn not_started() -> CheckRun {
    CheckRun::NotStarted { error: "No such file or directory (os error 2)".to_string() }
}


#[test]
fn interpret_error_code_body_is_broken_with_diagnostics() {
    let stdout = "\
   Compiling condukt v0.1.0 (/tmp/x)
error[E0425]: cannot find value `foo` in this scope
 --> src/lib.rs:2:5
error: aborting due to previous error
";
    let (broken, diagnostics) = interpret_check_stdout(stdout);
    assert!(broken, "an error[E...] body must be classified broken");
    let diag = diagnostics.expect("broken output must carry diagnostics");
    assert!(!diag.is_empty(), "diagnostics must be non-empty");
    assert!(
        diag.contains("E0425"),
        "diagnostics must retain the error code"
    );
}

#[test]
fn interpret_bare_error_line_is_broken() {
    let stdout = "error: expected `;`, found `}`\nerror: could not compile `condukt`\n";
    let (broken, diagnostics) = interpret_check_stdout(stdout);
    assert!(broken);
    assert!(diagnostics.is_some());
}

#[test]
fn interpret_clean_output_is_not_broken() {
    let stdout = "\
   Compiling condukt v0.1.0 (/tmp/x)
Finished dev [unoptimized + debuginfo] target(s) in 1.23s
";
    let (broken, diagnostics) = interpret_check_stdout(stdout);
    assert!(!broken, "clean cargo check output must not be broken");
    assert_eq!(diagnostics, None);
}

#[test]
fn interpret_warnings_only_is_not_broken() {
    let stdout = "\
warning: unused variable: `x`
warning: `condukt` (lib) generated 1 warning
Finished dev [unoptimized + debuginfo] target(s) in 0.50s
";
    let (broken, diagnostics) = interpret_check_stdout(stdout);
    assert!(!broken, "warnings without errors must not be broken");
    assert_eq!(diagnostics, None);
}

#[test]
fn colourised_error_lines_are_still_recognised() {
    let stdout = "\
src/lib.rs:3:5: \x1b[1m\x1b[91merror[E0308]\x1b[0m: mismatched types
\x1b[1m\x1b[91merror\x1b[0m: could not compile `broken_fixture` (lib) due to 1 previous error
";
    let (broken, diagnostics) = interpret_check_stdout(stdout);
    assert!(broken, "colourised errors must still be recognised");
    let d = diagnostics.expect("diagnostics");
    assert!(
        !d.contains('\x1b'),
        "diagnostics must be stripped of colour: {d:?}"
    );
    assert!(d.contains("E0308"));
}

#[test]
fn short_format_diagnostics_are_recognised_not_just_the_summary() {
    let stdout = "src/lib.rs:3:5: error[E0308]: mismatched types\n";
    let (broken, diagnostics) = interpret_check_stdout(stdout);
    assert!(
        broken,
        "a short-format diagnostic must be recognised on its own"
    );
    assert!(diagnostics.unwrap().contains("E0308"));
}

#[test]
fn a_path_merely_mentioning_error_is_not_a_diagnostic() {
    for s in [
        "   Compiling error_handling v0.1.0\n",
        "warning: unused import: `crate::error::Kind`\n",
        "     Running tests/error_paths.rs\n",
    ] {
        let (broken, _) = interpret_check_stdout(s);
        assert!(!broken, "must not be read as a diagnostic: {s:?}");
    }
}

#[test]
fn strip_ansi_leaves_plain_text_untouched() {
    assert_eq!(strip_ansi("plain error: x"), "plain error: x");
    assert_eq!(strip_ansi("\x1b[1m\x1b[91mE\x1b[0m"), "E");
    assert_eq!(strip_ansi("a\x1b"), "a");
    assert_eq!(strip_ansi("a\x1b["), "a");
}

#[test]
fn interpret_empty_output_is_not_broken() {
    let (broken, diagnostics) = interpret_check_stdout("");
    assert!(!broken);
    assert_eq!(diagnostics, None);
}

#[test]
fn non_rust_path_falls_back_allowed() {
    let out = check_edit(Some("README.md"), true, true, &not_started());
    assert_eq!(out.fallback, true, "{out:?}");
    assert_eq!(out.broken, false, "{out:?}");
    assert_eq!(
        enforce_edit_gate(&out),
        EditGateDecision::Allow,
        "a non-Rust file is out of scope and must never be rejected: {out:?}"
    );
}

#[test]
fn no_worktree_falls_back_allowed() {
    let out = check_edit(Some("lib.rs"), false, true, &not_started());
    assert_eq!(out.fallback, true, "{out:?}");
    assert_eq!(out.broken, false, "{out:?}");
    assert_eq!(
        enforce_edit_gate(&out),
        EditGateDecision::Allow,
        "an edit outside any live worktree is out of scope and must never be rejected: {out:?}"
    );
}

#[test]
fn spawn_failure_is_undetermined_and_rejects() {
    let out = check_edit(Some("lib.rs"), true, true, &not_started());
    assert_eq!(out.required, true, "{out:?}");
    assert_eq!(
        out.fallback, false,
        "an unspawnable cargo is undetermined, not out-of-scope fallback — got {out:?}"
    );
    assert_eq!(
        out.broken, true,
        "nothing established that the crate compiles — got {out:?}"
    );
    assert_eq!(
        enforce_edit_gate(&out),
        EditGateDecision::Reject,
        "an edit whose compile gate could not run must Reject end-to-end: {out:?}"
    );
}

#[test]
fn spawn_failure_reason_names_cargo_and_demands_it_be_installed() {
    let out = check_edit(Some("lib.rs"), true, true, &not_started());
    let reason = out.reason.to_ascii_lowercase();

    assert!(reason.contains("cargo"), "reason must name `cargo` — got {reason:?}");
    assert!(
        reason.contains("could not be determined")
            || reason.contains("cannot be determined")
            || reason.contains("cannot determine")
            || reason.contains("undetermined"),
        "reason must say the compile gate could not be DETERMINED (not that it \
         merely does not apply) — got {reason:?}"
    );
    assert!(
        reason.contains("install")
            || reason.contains("available")
            || reason.contains("provide"),
        "reason must tell the operator to install/provide cargo — got {reason:?}"
    );
}

#[test]
fn a_non_zero_cargo_exit_is_never_reported_as_clean() {
    for stderr in ["", "thread 'main' panicked\n", "error: could not compile `eg_scratch`\n"] {
        let out = check_edit(Some("lib.rs"), true, true, &finished("", stderr, false));
        assert_eq!(out.fallback, false, "cargo ran, so this is not a fallback");
        assert_eq!(
            out.broken, true,
            "a crate that fails to compile must be broken: {out:?}"
        );
        assert_ne!(out.reason, "cargo check reported no errors");
    }
}

#[test]
fn a_clean_crate_still_passes() {
    let run = finished("", "    Finished dev [unoptimized] target(s) in 0.10s\n", true);
    let out = check_edit(Some("lib.rs"), true, true, &run);
    assert_eq!(out.fallback, false);
    assert_eq!(
        out.broken, false,
        "a compiling crate must not be broken: {out:?}"
    );
    assert_eq!(out.reason, "cargo check reported no errors");
    assert_eq!(out.diagnostics, None);
}

#[test]
fn ambient_colour_env_cannot_switch_the_gate_off() {
    let run = finished(
        "",
        "src/lib.rs:1:21: \x1b[1m\x1b[91merror[E0308]\x1b[0m: mismatched types\n",
        false,
    );
    let out = check_edit(Some("lib.rs"), true, true, &run);
    assert_eq!(out.broken, true);
    let diag = out.diagnostics.unwrap_or_default();
    assert!(
        !diag.contains('\x1b'),
        "diagnostics must carry no colour codes"
    );
    assert!(diag.contains("E0308"));
}

#[test]
fn broken_verdict_shape_rejects_downstream() {
    let (broken, diagnostics) = interpret_check_stdout(
        "error[E0308]: mismatched types\n --> src/lib.rs:1:1\nerror: could not compile\n",
    );
    let verdict = EditVerdict {
        required: true,
        broken,
        fallback: false,
        diagnostics,
        reason: String::new(),
    };
    assert_eq!(verdict.broken, true);
    assert_eq!(verdict.fallback, false);
    assert_eq!(enforce_edit_gate(&verdict), EditGateDecision::Reject);
}

#[test]
fn an_unread_failure_shows_the_end_of_what_was_printed() {
    let printed = "x".repeat(3000);
    let out = check_edit(Some("lib.rs"), true, true, &finished("", &printed, false));
    assert_eq!(
        out.reason,
        "cargo check exited non-zero without a diagnostic this gate could parse"
    );
    let diag = out.diagnostics.expect("the end of the output");
    assert_eq!(diag, tail(&printed, 2000));
    assert!(diag.len() < printed.len());
}

#[test]
fn a_rejected_edit_is_told_why() {
    let out = check_edit(
        Some("lib.rs"),
        true,
        true,
        &finished("error: expected `;`\n", "", false),
    );
    assert_eq!(block_reason(&out).as_deref(), Some("error: expected `;`"));
    let silent = check_edit(Some("lib.rs"), true, true, &not_started());
    assert_eq!(
        block_reason(&silent).as_deref(),
        Some("edit left the crate not compiling (see cargo check)")
    );
    let optional = check_edit(Some("lib.rs"), true, false, &not_started());
    assert_eq!(block_reason(&optional), None);
}

#[test]
fn only_editing_tools_are_watched() {
    assert!(edits_files("Edit") && edits_files("Write") && edits_files("MultiEdit"));
    assert!(!edits_files("Read") && !edits_files("edit"));
}

#[test]
fn the_end_of_a_text_keeps_whole_characters() {
    assert_eq!(tail("short", 2000), "short");
    assert!(tail(&"é".repeat(20), 5).ends_with("éé"));
}
