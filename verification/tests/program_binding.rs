use sima_pipeline::fault::Fault;
use sima_pipeline::program_binding::{bind, last_digest, BinaryChange, Binding, JournalLine};

const FIRST: &str = "1111111111111111111111111111111111111111111111111111111111111111";
const SECOND: &str = "2222222222222222222222222222222222222222222222222222222222222222";

fn routed(digest: &str) -> Binding {
    Binding {
        format: "stub.v1".to_string(),
        binary: "/opt/acme/worker".to_string(),
        digest: digest.to_string(),
    }
}

/// Binds a session and appends what it is given, as the session does.
fn session(
    journal: &mut Vec<JournalLine>,
    digest: &str,
    accept: BinaryChange,
) -> Result<(), Fault> {
    let line = bind(journal, &routed(digest), accept)?;
    journal.push(line);
    Ok(())
}

fn bound(digest: &str) -> JournalLine {
    JournalLine::Bound(digest.to_string())
}

#[test]
fn a_first_binding_records_the_build_and_compares_against_nothing() {
    let mut journal = vec![];
    assert_eq!(last_digest(&journal), None);
    session(&mut journal, FIRST, BinaryChange::Refuse).expect("nothing to compare with");
    assert_eq!(journal, vec![bound(FIRST)]);
    assert_eq!(last_digest(&journal), Some(&FIRST.to_string()));
}

#[test]
fn an_unchanged_build_binds_again_under_a_refusal() {
    let mut journal = vec![];
    session(&mut journal, FIRST, BinaryChange::Refuse).expect("the first session");
    journal.push(JournalLine::Other);
    session(&mut journal, FIRST, BinaryChange::Refuse).expect("the same build");
    assert_eq!(journal, vec![bound(FIRST), JournalLine::Other, bound(FIRST)]);
}

#[test]
fn a_changed_build_under_a_refusal_names_both_digests_and_the_flag() {
    let mut journal = vec![];
    session(&mut journal, FIRST, BinaryChange::Refuse).expect("the first session");
    let refused = session(&mut journal, SECOND, BinaryChange::Refuse);
    match refused {
        Err(Fault::Validation(message)) => {
            for named in [
                FIRST,
                SECOND,
                "--accept-binary",
                "stub.v1",
                "/opt/acme/worker",
            ] {
                assert!(message.contains(named), "names {named}: {message}");
            }
            assert_eq!(
                message,
                format!(
                    "the program serving format \"stub.v1\" changed since this search last \
                     ran: /opt/acme/worker is now {SECOND}, the search was driven by {FIRST}; \
                     stored results and checkpoints were produced by the previous build. Pass \
                     --accept-binary to continue with the changed program."
                )
            );
        }
        other => panic!("expected a refusal, got {other:?}"),
    }
    assert_eq!(journal, vec![bound(FIRST)], "a refusal records nothing");
}

#[test]
fn an_accepted_change_binds_the_new_build_for_the_next_session() {
    let mut journal = vec![];
    session(&mut journal, FIRST, BinaryChange::Refuse).expect("the first session");
    session(&mut journal, SECOND, BinaryChange::Accept).expect("an accepted change");
    session(&mut journal, SECOND, BinaryChange::Refuse).expect("the accepted build");
    assert!(
        session(&mut journal, FIRST, BinaryChange::Refuse).is_err(),
        "the earlier build is now the change"
    );
}

#[test]
fn a_torn_line_before_the_binding_leaves_the_comparison_intact() {
    let mut journal = vec![JournalLine::Unread];
    session(&mut journal, FIRST, BinaryChange::Refuse).expect("nothing to compare with");
    journal.push(JournalLine::Unread);
    assert!(session(&mut journal, SECOND, BinaryChange::Refuse).is_err());
    session(&mut journal, FIRST, BinaryChange::Refuse).expect("the same build");
}
