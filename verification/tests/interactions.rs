//! Interaction bodies and the placement rules.

use ridl_sem::check::MemberKind;
use ridl_sem::interactions::{
    check_service_name, check_stream_positions, interface_body, interface_error_modifier,
    reject_timing, BodyMember, LabelledDiagnostic, Slot, StreamParent,
};
use ridl_sem::diag::Severity;
use ridl_sem::syntax::TextRange;

fn at(start: usize) -> TextRange {
    TextRange { start, end: start + 4 }
}

fn interaction(name: &str, start: usize) -> BodyMember {
    BodyMember::Interaction {
        name: Some(name.to_string()),
        range: at(start),
    }
}

fn reserved(name: &str, start: usize) -> BodyMember {
    BodyMember::Reserved {
        name: Some(name.to_string()),
        range: at(start),
    }
}

fn codes(diagnostics: &[LabelledDiagnostic]) -> Vec<&str> {
    diagnostics.iter().map(|d| d.diagnostic.code.as_str()).collect()
}

/// The (name, ordinal) of every member that lowers.
fn walk<'a>(members: &'a [BodyMember], slots: &[Slot]) -> Vec<(&'a str, u32)> {
    slots
        .iter()
        .map(|slot| match &members[slot.member] {
            BodyMember::Interaction { name, .. } | BodyMember::Reserved { name, .. } => {
                (name.as_deref().unwrap_or(""), slot.ordinal)
            }
        })
        .collect()
}

#[test]
fn ridl_401_interaction_redeclared_under_a_reserved_name() {
    let members = vec![reserved("resetCounters", 10), interaction("resetCounters", 40)];
    let (slots, diagnostics) = interface_body(&members);
    assert_eq!(codes(&diagnostics), vec!["RIDL-401"]);
    // Both lower: the tombstone takes slot 1, the interaction slot 2.
    assert_eq!(walk(&members, &slots), [("resetCounters", 1), ("resetCounters", 2)]);
}

#[test]
fn ridl_402_duplicate_interaction_name_first_wins() {
    let members = vec![interaction("a", 10), interaction("a", 30), interaction("b", 50)];
    let (slots, diagnostics) = interface_body(&members);
    assert_eq!(codes(&diagnostics), vec!["RIDL-402"]);
    // The loser is excluded and holds no ordinal slot.
    assert_eq!(walk(&members, &slots), [("a", 1), ("b", 2)]);
    assert_eq!(slots[0].member, 0);
}

#[test]
fn a_third_duplicate_still_points_at_the_declaration_that_is_kept() {
    let members = vec![interaction("speed", 10), interaction("speed", 30), interaction("speed", 50)];
    let (slots, diagnostics) = interface_body(&members);
    assert_eq!(codes(&diagnostics), vec!["RIDL-402", "RIDL-402"]);
    assert_eq!(walk(&members, &slots), [("speed", 1)]);
    // Both labels point at the first declaration.
    assert_eq!(diagnostics[0].label, at(10));
    assert_eq!(diagnostics[1].label, at(10));
    assert!(diagnostics[1].diagnostic.range.start > diagnostics[0].label.start);
}

#[test]
fn evolution_codes_point_at_the_declaration_they_are_about() {
    let retired = vec![reserved("legacyTemp", 10), interaction("legacyTemp", 30)];
    let (_, diagnostics) = interface_body(&retired);
    assert_eq!(diagnostics[0].label, at(10));
    assert_eq!(diagnostics[0].label_message, "`legacyTemp` is retired here");
    assert_eq!(diagnostics[0].diagnostic.severity, Severity::Error);

    let duplicate = vec![interaction("speed", 10), interaction("speed", 30)];
    let (_, diagnostics) = interface_body(&duplicate);
    assert_eq!(diagnostics[0].label, at(10));
    assert_eq!(
        diagnostics[0].label_message,
        "`speed` is declared here, and this is the one that is kept"
    );

    // Two tombstones for one name: the label stays on the first.
    let two = vec![reserved("legacyTemp", 10), reserved("legacyTemp", 20), interaction("legacyTemp", 30)];
    let (_, diagnostics) = interface_body(&two);
    assert_eq!(codes(&diagnostics), vec!["RIDL-401"]);
    assert_eq!(diagnostics[0].label, at(10));
}

#[test]
fn a_tombstone_later_in_the_body_still_retires_the_name() {
    let members = vec![interaction("old", 10), reserved("old", 30)];
    let (slots, diagnostics) = interface_body(&members);
    assert_eq!(codes(&diagnostics), vec!["RIDL-401"]);
    assert_eq!(diagnostics[0].label, at(30));
    assert_eq!(walk(&members, &slots), [("old", 1), ("old", 2)]);
}

#[test]
fn a_nameless_member_keeps_its_slot_but_does_not_lower() {
    let members = vec![
        interaction("s", 10),
        BodyMember::Interaction { name: None, range: at(20) },
        interaction("e", 30),
    ];
    let (slots, diagnostics) = interface_body(&members);
    assert!(diagnostics.is_empty());
    assert_eq!(walk(&members, &slots), [("s", 1), ("e", 3)]);
}

#[test]
fn ridl_106_timing_on_every_kind_that_carries_none() {
    for (kind, noun, because) in [
        (MemberKind::Command, "command", "invoked on demand"),
        (MemberKind::Query, "query", "answered on demand"),
        (MemberKind::Final, "final", "provisioned externally"),
    ] {
        let diagnostic = reject_timing(kind, at(7));
        assert_eq!(diagnostic.code.as_str(), "RIDL-106");
        let message = &diagnostic.message;
        assert!(message.starts_with(&format!("a timing annotation is not valid on `{noun}`")), "{message}");
        assert!(message.contains(because), "{noun}: {message}");
        assert!(message.contains("`signal` and `event`"), "{noun}: {message}");
    }
}

#[test]
fn ridl_201_stream_payload_on_signal_or_event() {
    let diagnostics = check_stream_positions(&[(StreamParent::Signal, at(5)), (StreamParent::Event, at(25))]);
    assert_eq!(
        diagnostics.iter().map(|d| d.code.as_str()).collect::<Vec<_>>(),
        vec!["RIDL-201", "RIDL-201"]
    );
}

#[test]
fn typl_301_stream_on_a_struct_field_in_a_ridl_file() {
    let diagnostics = check_stream_positions(&[(StreamParent::Other, at(5))]);
    assert_eq!(diagnostics.iter().map(|d| d.code.as_str()).collect::<Vec<_>>(), vec!["TYPL-301"]);
}

#[test]
fn streams_are_legal_in_interaction_positions_and_not_on_final() {
    let diagnostics = check_stream_positions(&[
        (StreamParent::Param, at(1)),
        (StreamParent::ReturnType, at(2)),
        (StreamParent::Final, at(3)),
    ]);
    assert_eq!(diagnostics.iter().map(|d| d.code.as_str()).collect::<Vec<_>>(), vec!["FORM-102"]);
    assert_eq!(diagnostics[0].message, "stream `<T>` not valid on final");
}

#[test]
fn error_modifier_on_interface_is_rejected() {
    let diagnostic = interface_error_modifier(true, at(16)).expect("an error interface");
    assert_eq!(diagnostic.code.as_str(), "TYPL-212");
    assert!(diagnostic.message.contains("interface"), "got: {}", diagnostic.message);
    assert!(interface_error_modifier(false, at(16)).is_none());
}

#[test]
fn service_name_segments_must_be_lowercase() {
    let segments = vec![("veh".to_string(), at(1)), ("X".to_string(), at(5)), ("y".to_string(), at(7))];
    let diagnostics = check_service_name(&segments);
    assert_eq!(diagnostics.len(), 1);
    assert!(diagnostics[0].message.contains("`X` is not lowercase"), "{}", diagnostics[0].message);
    assert_eq!(diagnostics[0].range, at(5));

    let good = vec![("veh".to_string(), at(1)), ("x2".to_string(), at(5)), ("y".to_string(), at(8))];
    assert!(check_service_name(&good).is_empty());
}

use ridl_sem::check::{ConstValue, InitLiteral, ScalarParts};
use ridl_sem::exact::ExactValue;
use ridl_sem::init::{Constraint, NamedDecl, ScalarTypeDecl};
use ridl_sem::interactions::{lower_signal_payload, InitOverride, PayloadTarget, SignalPayload};

fn exact(text: &str) -> ExactValue {
    ExactValue::parse(text).unwrap()
}

fn plate_constraint() -> Constraint {
    Constraint {
        min: None,
        max: None,
        step: None,
        len_min: Some(11),
        len_max: Some(17),
        pattern: None,
        pattern_const: None,
    }
}

fn plate() -> PayloadTarget {
    PayloadTarget {
        canonical: "Plate".to_string(),
        name: "Plate".to_string(),
        decl: NamedDecl::Type(ScalarTypeDecl {
            class: ridl_sem::check::BackingClass::Str,
            declared: None,
            min: None,
            max: None,
            string: Some(plate_constraint()),
        }),
        parts: ScalarParts { constraint: Some(plate_constraint()), min: None, max: None },
    }
}

fn speed() -> PayloadTarget {
    PayloadTarget {
        canonical: "Speed".to_string(),
        name: "Speed".to_string(),
        decl: NamedDecl::Type(ScalarTypeDecl {
            class: ridl_sem::check::BackingClass::Float,
            declared: None,
            min: Some(exact("0")),
            max: Some(exact("300")),
            string: None,
        }),
        parts: ScalarParts { constraint: None, min: Some(exact("0")), max: Some(exact("300")) },
    }
}

#[test]
fn ridl_109_signal_payload_without_derivable_init() {
    let payload = SignalPayload::Named { range: at(20), target: Ok(plate()) };
    let (lowered, diagnostics) = lower_signal_payload(&payload, &InitOverride::Absent);
    assert_eq!(diagnostics.iter().map(|d| d.code.as_str()).collect::<Vec<_>>(), vec!["RIDL-109"]);
    assert_eq!(diagnostics[0].severity, Severity::Error);
    assert!(!lowered.init.unwrap().derivable);

    // A conforming `= value` override satisfies it.
    let init = InitOverride::Literal(InitLiteral::Str("AAAAAAAAAAA".to_string()), at(30));
    let (lowered, diagnostics) = lower_signal_payload(&payload, &init);
    assert!(diagnostics.is_empty(), "{diagnostics:?}");
    assert_eq!(lowered.declared_init.as_deref(), Some("AAAAAAAAAAA"));
}

#[test]
fn ridl_110_signal_init_override_violating_the_payload_constraints() {
    let payload = SignalPayload::Named { range: at(20), target: Ok(speed()) };
    let bad = InitOverride::Literal(InitLiteral::Number(exact("400.0")), at(30));
    let (_, diagnostics) = lower_signal_payload(&payload, &bad);
    assert_eq!(diagnostics.iter().map(|d| d.code.as_str()).collect::<Vec<_>>(), vec!["RIDL-110"]);
    assert!(diagnostics[0].message.contains("outside the declared range"), "{}", diagnostics[0].message);

    // A constant reference resolves and validates in range.
    let good = InitOverride::Literal(InitLiteral::Const(ConstValue::Number(exact("120.0"))), at(30));
    let (lowered, diagnostics) = lower_signal_payload(&payload, &good);
    assert!(diagnostics.is_empty(), "{diagnostics:?}");
    assert_eq!(lowered.declared_init.as_deref(), Some("120"));
    assert_eq!(lowered.payload, "Speed");
}

#[test]
fn unresolved_and_malformed_payloads() {
    let (lowered, diagnostics) = lower_signal_payload(
        &SignalPayload::Named { range: at(20), target: Err("Missing".to_string()) },
        &InitOverride::Absent,
    );
    assert!(diagnostics.is_empty());
    assert_eq!(lowered.payload, "Missing");
    assert_eq!(lowered.init, None);
    let (_, diagnostics) = lower_signal_payload(&SignalPayload::Other(at(20)), &InitOverride::Absent);
    assert_eq!(diagnostics[0].code.as_str(), "FORM-102");
    assert_eq!(diagnostics[0].message, "signal payload must be a named type");
}
