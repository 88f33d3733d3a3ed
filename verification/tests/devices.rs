use union_core::collections::StrSet;
use union_core::governance::{Action, State};
use union_core::{Error, Identity};

type R = Result<(), Error>;
fn set(items: &[&str]) -> StrSet {
    let mut r = StrSet::new();
    for item in items {
        r.insert(item.to_string());
    }
    r
}

fn apply(s: &mut State, a: &str, action: Action) -> union_core::Result<()> {
    s.apply(a, s.revision, s.clock_ms + 1, action)
}
#[test]
fn linking_needs_both_devices_and_revocation_cannot_be_reversed_by_reenrollment() -> R {
    let admin = Identity::generate().peer_id().text();
    let old = Identity::generate().peer_id().text();
    let new = Identity::generate().peer_id().text();
    let mut s = State::new(set(&[&admin]))?;
    apply(
        &mut s,
        &admin,
        Action::Enroll {
            member: "m".into(),
            club: "jlu".into(),
            device: old.clone(),
        },
    )?;
    apply(
        &mut s,
        &old,
        Action::InviteMemberDevice {
            id: "link".into(),
            device: new.clone(),
            expires_ms: 600_000,
        },
    )?;
    assert!(
        apply(
            &mut s,
            &old,
            Action::AcceptMemberDevice { id: "link".into() }
        )
        .is_err()
    );
    apply(
        &mut s,
        &new,
        Action::AcceptMemberDevice { id: "link".into() },
    )?;
    assert!(s.can_read(&new));
    assert_eq!(s.members.len(), 1);
    apply(
        &mut s,
        &admin,
        Action::CreateBallot {
            id: "vote".into(),
            title: "活动日期".into(),
            options: vec!["周六".into(), "周日".into()],
            closes_ms: 1000,
        },
    )?;
    apply(
        &mut s,
        &old,
        Action::MemberVote {
            id: "vote".into(),
            option: 0,
        },
    )?;
    assert!(
        apply(
            &mut s,
            &new,
            Action::MemberVote {
                id: "vote".into(),
                option: 1
            }
        )
        .is_err()
    );
    apply(
        &mut s,
        &new,
        Action::RevokeMemberDevice {
            device: old.clone(),
        },
    )?;
    assert!(!s.can_read(&old));
    assert_eq!(s.members.get("m").unwrap().device, new);
    assert!(
        apply(
            &mut s,
            &old,
            Action::SubmitFeedback {
                id: "bad".into(),
                category: "x".into(),
                text: "x".into()
            }
        )
        .is_err()
    );
    assert!(
        apply(
            &mut s,
            &admin,
            Action::Enroll {
                member: "revived".into(),
                club: "jlu".into(),
                device: old
            }
        )
        .is_err()
    );
    assert!(
        apply(
            &mut s,
            &new,
            Action::RevokeMemberDevice {
                device: new.clone()
            }
        )
        .is_err()
    );
    Ok(())
}
