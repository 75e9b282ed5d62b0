//! The ridl lint rules.

use ridl_sem::diag::{DiagCode, Severity};
use ridl_sem::lint::{
    envelope_fields, lint_envelope_payload, lint_query_name, lint_shared_error, mutation_verb,
    SHARED_ERROR_INTERFACE_THRESHOLD,
};
use ridl_sem::syntax::TextRange;

fn at() -> TextRange {
    TextRange { start: 1, end: 8 }
}

fn uses(pairs: &[(&str, &str)]) -> Vec<(String, String)> {
    pairs
        .iter()
        .map(|(error, iface)| (error.to_string(), iface.to_string()))
        .collect()
}

#[test]
fn ridl_404_flags_a_mutation_named_query() {
    let diagnostic = lint_query_name("setGear", at()).expect("`setGear` is a mutation name");
    assert_eq!(diagnostic.code, DiagCode::RIDL_404);
    assert_eq!(diagnostic.severity, Severity::Warning);
    assert!(diagnostic.message.contains("setGear"));
    assert!(diagnostic.message.contains("command"));
}

#[test]
fn ridl_404_covers_the_verb_set() {
    for (name, verb) in [
        ("setGear", "set"),
        ("resetTrip", "reset"),
        ("clearFaults", "clear"),
        ("applyBrake", "apply"),
        ("writeConfig", "write"),
        ("updateMap", "update"),
    ] {
        assert_eq!(mutation_verb(name), Some(verb), "{name}");
    }
}

#[test]
fn ridl_404_is_silent_on_a_word_that_only_starts_with_a_verb() {
    for name in ["settings", "clearance", "getGear", "set", "updated", "set_gear"] {
        assert_eq!(mutation_verb(name), None, "{name}");
        assert!(lint_query_name(name, at()).is_none());
    }
    // A non-ASCII capital counts as upper-case.
    assert_eq!(mutation_verb("setÉtat"), Some("set"));
}

#[test]
fn ridl_404_reads_as_advisory_on_domain_nouns() {
    for name in ["setPoint", "resetReason", "updateAvailable", "writeProtectEnabled", "applyForce"] {
        let message = lint_query_name(name, at()).expect(name).message;
        assert!(message.contains("if it mutates state"), "{message}");
        assert!(message.contains("domain noun"), "{message}");
    }
}

#[test]
fn ridl_405_fires_at_three_interfaces_and_counts_distinct_ones() {
    assert_eq!(SHARED_ERROR_INTERFACE_THRESHOLD, 3);
    let two = uses(&[("app.Err", "Drive"), ("app.Err", "Brake"), ("app.Err", "Drive")]);
    assert!(lint_shared_error("app.Err", &two, at()).is_none());
    let three = uses(&[
        ("app.Err", "Steer"),
        ("app.Other", "Body"),
        ("app.Err", "Drive"),
        ("app.Err", "Brake"),
    ]);
    let diagnostic = lint_shared_error("app.Err", &three, at()).expect("three interfaces");
    assert_eq!(diagnostic.code, DiagCode::RIDL_405);
    assert_eq!(diagnostic.severity, Severity::Info);
    assert!(
        diagnostic.message.contains("3 interaction scopes (Brake, Drive, Steer)"),
        "{}",
        diagnostic.message
    );
    assert!(lint_shared_error("app.Other", &three, at()).is_none());
}

#[test]
fn ridl_406_covers_the_whole_field_set_in_declaration_order() {
    let fields: Vec<String> = ["speed", "seqNo", "timestamp", "frameCounter", "gear"]
        .iter()
        .map(|name| name.to_string())
        .collect();
    assert_eq!(envelope_fields(&fields), vec!["seqNo", "timestamp", "frameCounter"]);
    let diagnostics = lint_envelope_payload("event", "DoorPayload", &fields, at());
    assert_eq!(diagnostics.len(), 3);
    assert!(diagnostics.iter().all(|d| d.code == DiagCode::RIDL_406 && d.severity == Severity::Info));
    assert!(diagnostics[0].message.starts_with("event payload `DoorPayload` declares `seqNo`"));
}

#[test]
fn ridl_406_is_silent_on_a_clean_payload() {
    let fields = vec!["speed".to_string(), "timeout".to_string()];
    assert!(lint_envelope_payload("signal", "SpeedPayload", &fields, at()).is_empty());
}

use ridl_sem::lint::{lint_package, LintMember, LintScope, NamedResult, Payload, QueryReturn};

fn query(name: &str, error_arm: Option<&str>) -> LintMember {
    LintMember::Query {
        name: Some(name.to_string()),
        name_range: at(),
        ret: Some(QueryReturn {
            range: TextRange { start: 20, end: 30 },
            named_result: None,
            error_arm: error_arm.map(str::to_string),
        }),
    }
}

fn scope(file: usize, name: &str, members: Vec<LintMember>) -> LintScope {
    LintScope {
        file,
        name: name.to_string(),
        members,
    }
}

fn codes_of(diagnostics: &[ridl_sem::diag::Diagnostic]) -> Vec<&str> {
    diagnostics.iter().map(|d| d.code.as_str()).collect()
}

#[test]
fn ridl_405_is_silent_at_two_interfaces() {
    let scopes = vec![
        scope(0, "A", vec![query("getA", Some("app.Err"))]),
        scope(0, "B", vec![query("getB", Some("app.Err"))]),
    ];
    assert!(lint_package(&scopes).is_empty());
}

#[test]
fn ridl_405_fires_at_three_interfaces() {
    let scopes = vec![
        scope(0, "A", vec![query("getA", Some("app.Err"))]),
        scope(1, "B", vec![query("getB", Some("app.Err"))]),
        scope(2, "C", vec![query("getC", Some("app.Err"))]),
    ];
    let diagnostics = lint_package(&scopes);
    assert_eq!(codes_of(&diagnostics), ["RIDL-405"; 3]);
    assert_eq!(diagnostics.iter().map(|d| d.file).collect::<Vec<_>>(), [0, 1, 2]);
}

#[test]
fn ridl_405_counts_interfaces_not_queries() {
    let scopes = vec![
        scope(0, "A", vec![query("getA", Some("app.Err")), query("getA2", Some("app.Err")), query("getA3", Some("app.Err"))]),
        scope(0, "B", vec![query("getB", Some("app.Err"))]),
    ];
    assert!(lint_package(&scopes).is_empty());
}

#[test]
fn ridl_308_flags_a_named_result_union_return() {
    let named = LintMember::Query {
        name: Some("getReading".to_string()),
        name_range: at(),
        ret: Some(QueryReturn {
            range: TextRange { start: 20, end: 30 },
            named_result: Some(NamedResult {
                written: "ReadingResult".to_string(),
                range: TextRange { start: 22, end: 35 },
                ok: "Reading".to_string(),
                error: "Fault".to_string(),
            }),
            error_arm: Some("Fault".to_string()),
        }),
    };
    let diagnostics = lint_package(&[scope(4, "Sensor", vec![named])]);
    assert_eq!(codes_of(&diagnostics), ["RIDL-308"]);
    assert_eq!(diagnostics[0].file, 4);
    assert!(diagnostics[0].message.contains("write `Reading | Fault`"), "{}", diagnostics[0].message);
}

#[test]
fn ridl_406_covers_event_payloads_and_spares_other_members() {
    let payload = |name: &str| Payload {
        name: name.to_string(),
        range: TextRange { start: 5, end: 9 },
        fields: vec!["timestamp".to_string(), "value".to_string()],
    };
    let scopes = vec![scope(
        1,
        "Door",
        vec![
            LintMember::Event { payload: Some(payload("DoorPayload")) },
            LintMember::Signal { payload: Some(payload("DoorState")) },
            LintMember::Signal { payload: None },
            LintMember::Other,
            query("setLock", None),
        ],
    )];
    let diagnostics = lint_package(&scopes);
    assert_eq!(codes_of(&diagnostics), ["RIDL-406", "RIDL-406", "RIDL-404"]);
    assert!(diagnostics[0].message.starts_with("event payload `DoorPayload`"));
    assert!(diagnostics[1].message.starts_with("signal payload `DoorState`"));
    assert!(diagnostics.iter().all(|d| d.file == 1));
}

fn fault_page_result(at_start: usize) -> QueryReturn {
    QueryReturn {
        range: TextRange { start: at_start, end: at_start + 15 },
        named_result: Some(NamedResult {
            written: "FaultPageResult".to_string(),
            range: TextRange { start: at_start, end: at_start + 15 },
            ok: "FaultPage".to_string(),
            error: "DiagError".to_string(),
        }),
        error_arm: Some("DiagError".to_string()),
    }
}

fn payload(name: &str, fields: &[&str]) -> Payload {
    Payload {
        name: name.to_string(),
        range: TextRange { start: 40, end: 40 + name.len() },
        fields: fields.iter().map(|f| f.to_string()).collect(),
    }
}

#[test]
fn ridl_404_covers_the_verb_set_and_spares_commands() {
    let members = vec![
        query("setGear", None),
        query("resetTrip", None),
        query("clearFaults", None),
        query("applyBrake", None),
        query("writeConfig", None),
        query("updateMap", None),
        // `command setSpeed` is not a query: the lint reads it as another member.
        LintMember::Other,
    ];
    let diagnostics = lint_package(&[scope(0, "Drive", members)]);
    assert_eq!(codes_of(&diagnostics), vec!["RIDL-404"; 6]);
}

#[test]
fn ridl_405_counts_named_result_unions_too() {
    let named = |start: usize| LintMember::Query {
        name: Some("faults".to_string()),
        name_range: at(),
        ret: Some(fault_page_result(start)),
    };
    let scopes = vec![
        scope(0, "Cluster", vec![named(100)]),
        scope(0, "Powertrain", vec![named(200)]),
        scope(0, "Infotainment", vec![query("faults", Some("DiagError"))]),
    ];
    let diagnostics = lint_package(&scopes);
    assert_eq!(
        codes_of(&diagnostics),
        vec!["RIDL-308", "RIDL-405", "RIDL-308", "RIDL-405", "RIDL-405"]
    );
}

#[test]
fn ridl_406_scopes_to_payloads_not_stream_returns() {
    // A stream return is a query return with no failure arm: nothing to lint.
    let silent = lint_package(&[scope(0, "Diagnostics", vec![query("streamFaults", None)])]);
    assert!(silent.is_empty(), "{silent:?}");

    let flagged = lint_package(&[scope(
        0,
        "Diagnostics",
        vec![LintMember::Signal { payload: Some(payload("FaultEvent", &["code", "timestamp"])) }],
    )]);
    assert_eq!(codes_of(&flagged), vec!["RIDL-406"]);
    let message = &flagged[0].message;
    assert!(message.contains("FaultEvent"), "got: {message}");
    assert!(message.contains("timestamp"), "got: {message}");
    assert!(message.contains("occurred"), "got: {message}");
}

#[test]
fn ridl_406_states_a_legitimate_case_for_counters_too() {
    let diagnostics = lint_package(&[scope(
        0,
        "Harness",
        vec![LintMember::Event { payload: Some(payload("TestRun", &["sequence", "passed"])) }],
    )]);
    assert_eq!(codes_of(&diagnostics), vec!["RIDL-406"]);
    let message = &diagnostics[0].message;
    assert!(
        message.contains("counts the fact itself"),
        "a matched counter name needs a counter-shaped exception, got: {message}"
    );
}

#[test]
fn ridl_406_covers_event_payloads_and_the_whole_field_set() {
    let diagnostics = lint_package(&[scope(
        0,
        "Telemetry",
        vec![LintMember::Event {
            payload: Some(payload("Sample", &["seqNo", "frameCounter", "value"])),
        }],
    )]);
    assert_eq!(codes_of(&diagnostics), vec!["RIDL-406"; 2]);
}

#[test]
fn ridl_308_is_silent_on_the_inline_spelling() {
    let diagnostics = lint_package(&[scope(0, "Diagnostics", vec![query("getFaultPage", Some("DiagError"))])]);
    assert!(diagnostics.is_empty(), "{diagnostics:?}");
}

#[test]
fn ridl_308_leaves_a_result_union_used_as_data_alone() {
    // A result union used only as a struct field's type leaves no interaction
    // scope to lint.
    let diagnostics = lint_package(&[]);
    assert!(diagnostics.is_empty(), "{diagnostics:?}");
}

#[test]
fn lints_reach_inline_service_shapes() {
    // A service's inline shape is a lint scope of its own.
    let diagnostics = lint_package(&[scope(0, "veh.drive", vec![query("setGear", None)])]);
    assert_eq!(codes_of(&diagnostics), vec!["RIDL-404"]);
}
