use rustic_server::acl::{AccessPolicy, AccessType, AclRule, Denied, GlobalPolicy};
use rustic_server::path::decompose;

fn switches(authentication_required: bool, append_only: bool, private_repositories: bool) -> GlobalPolicy {
    GlobalPolicy { authentication_required, append_only, private_repositories }
}

#[test]
fn levels_are_ordered() {
    assert!(AccessType::Read.covers(AccessType::Read));
    assert!(!AccessType::Read.covers(AccessType::Append));
    assert!(!AccessType::Read.covers(AccessType::Modify));
    assert!(AccessType::Append.covers(AccessType::Read));
    assert!(AccessType::Append.covers(AccessType::Append));
    assert!(!AccessType::Append.covers(AccessType::Modify));
    assert!(AccessType::Modify.covers(AccessType::Read));
    assert!(AccessType::Modify.covers(AccessType::Append));
    assert!(AccessType::Modify.covers(AccessType::Modify));
    assert!(AccessType::Read < AccessType::Append);
    assert!(AccessType::Append < AccessType::Modify);
    assert_eq!(AccessType::Read.max(AccessType::Modify), AccessType::Modify);
}

#[test]
fn default_is_read() {
    let policy = AccessPolicy::new(switches(false, false, false), Vec::new());
    let object = decompose("/repo1/data/abcd").unwrap();
    assert_eq!(policy.authorize(None, &object, AccessType::Read), Ok(()));
    assert_eq!(policy.authorize(Some("bob"), &object, AccessType::Read), Ok(()));
    assert_eq!(
        policy.authorize(Some("bob"), &object, AccessType::Append),
        Err(Denied::InsufficientAccess)
    );
    assert_eq!(policy.resolve(Some("bob"), object.repo_path()), Some(AccessType::Read));
}

#[test]
fn missing_user_is_unauthenticated() {
    let rules = vec![AclRule::new("*", "repo1", AccessType::Modify)];
    let policy = AccessPolicy::new(switches(true, false, false), rules);
    let object = decompose("/repo1/data/abcd").unwrap();
    assert_eq!(policy.authorize(None, &object, AccessType::Read), Err(Denied::Unauthenticated));
    assert_eq!(policy.authorize(Some("bob"), &object, AccessType::Modify), Ok(()));
}

#[test]
fn exact_rule_beats_rule_for_any_user() {
    let object = decompose("/repo1/keys/abcd").unwrap();
    let rules = vec![
        AclRule::new("*", "repo1", AccessType::Modify),
        AclRule::new("alice", "repo1", AccessType::Read),
    ];
    let policy = AccessPolicy::new(switches(true, false, false), rules);
    assert_eq!(policy.resolve(Some("alice"), object.repo_path()), Some(AccessType::Read));
    assert_eq!(
        policy.authorize(Some("alice"), &object, AccessType::Append),
        Err(Denied::InsufficientAccess)
    );
    assert_eq!(policy.authorize(Some("bob"), &object, AccessType::Modify), Ok(()));

    let rules = vec![
        AclRule::new("alice", "repo1", AccessType::Modify),
        AclRule::new("*", "repo1", AccessType::Read),
    ];
    let policy = AccessPolicy::new(switches(true, false, false), rules);
    assert_eq!(policy.authorize(Some("alice"), &object, AccessType::Modify), Ok(()));
    assert_eq!(
        policy.authorize(Some("bob"), &object, AccessType::Append),
        Err(Denied::InsufficientAccess)
    );
}

#[test]
fn rule_for_any_user_beats_rule_for_any_repository() {
    let object = decompose("/repo1/keys/abcd").unwrap();
    let other = decompose("/repo2/keys/abcd").unwrap();
    let rules = vec![
        AclRule::new("alice", "*", AccessType::Modify),
        AclRule::new("*", "repo1", AccessType::Read),
    ];
    let policy = AccessPolicy::new(switches(true, false, true), rules);
    assert_eq!(policy.resolve(Some("alice"), object.repo_path()), Some(AccessType::Read));
    assert_eq!(policy.resolve(Some("alice"), other.repo_path()), Some(AccessType::Modify));
    assert_eq!(policy.resolve(Some("bob"), other.repo_path()), None);
    assert_eq!(policy.resolve(None, object.repo_path()), Some(AccessType::Read));
}

#[test]
fn later_rule_replaces_earlier_one() {
    let rules = vec![
        AclRule::new("alice", "repo1", AccessType::Read),
        AclRule::new("bob", "repo1", AccessType::Append),
        AclRule::new("alice", "repo1", AccessType::Modify),
    ];
    let policy = AccessPolicy::new(switches(true, false, false), rules);
    assert_eq!(policy.rule("alice", "repo1"), Some(AccessType::Modify));
    assert_eq!(policy.rule("bob", "repo1"), Some(AccessType::Append));
    assert_eq!(policy.rule("carol", "repo1"), None);
    assert_eq!(policy.rule("alice", "repo2"), None);
}

#[test]
fn rules_name_repositories_by_their_whole_path() {
    let rules = vec![AclRule::new("alice", "backups/alice", AccessType::Modify)];
    let policy = AccessPolicy::new(switches(true, false, true), rules);
    let inside = decompose("/backups/alice/data/abcd").unwrap();
    let beside = decompose("/backups/data/abcd").unwrap();
    assert_eq!(policy.authorize(Some("alice"), &inside, AccessType::Modify), Ok(()));
    assert_eq!(
        policy.authorize(Some("alice"), &beside, AccessType::Read),
        Err(Denied::InsufficientAccess)
    );
}

#[test]
fn private_repositories_belong_to_their_owner() {
    let policy = AccessPolicy::new(switches(true, false, true), Vec::new());
    let own = decompose("/alice/data/abcd").unwrap();
    let nested = decompose("/alice/laptop/data/abcd").unwrap();
    assert_eq!(policy.authorize(Some("alice"), &own, AccessType::Modify), Ok(()));
    assert_eq!(policy.authorize(Some("alice"), &nested, AccessType::Modify), Ok(()));
    assert_eq!(
        policy.authorize(Some("bob"), &own, AccessType::Read),
        Err(Denied::InsufficientAccess)
    );
    let open = AccessPolicy::new(switches(false, false, true), Vec::new());
    assert_eq!(open.authorize(None, &own, AccessType::Read), Err(Denied::InsufficientAccess));
}

#[test]
fn append_only_caps_objects_but_not_the_root() {
    let rules = vec![AclRule::new("alice", "repo1", AccessType::Modify)];
    let policy = AccessPolicy::new(switches(true, true, false), rules);
    let object = decompose("/repo1/data/abcd").unwrap();
    let lock = decompose("/repo1/locks/abcd").unwrap();
    let config = decompose("/repo1/config").unwrap();
    let root = decompose("/repo1").unwrap();
    assert_eq!(
        policy.authorize(Some("alice"), &object, AccessType::Modify),
        Err(Denied::InsufficientAccess)
    );
    assert_eq!(policy.authorize(Some("alice"), &object, AccessType::Append), Ok(()));
    assert_eq!(policy.authorize(Some("alice"), &object, AccessType::Read), Ok(()));
    assert_eq!(
        policy.authorize(Some("alice"), &lock, AccessType::Modify),
        Err(Denied::InsufficientAccess)
    );
    assert_eq!(
        policy.authorize(Some("alice"), &config, AccessType::Modify),
        Err(Denied::InsufficientAccess)
    );
    assert_eq!(policy.authorize(Some("alice"), &root, AccessType::Modify), Ok(()));
}

#[test]
fn append_only_leaves_lower_levels_alone() {
    let rules = vec![AclRule::new("alice", "repo1", AccessType::Read)];
    let policy = AccessPolicy::new(switches(true, true, false), rules);
    let object = decompose("/repo1/data/abcd").unwrap();
    assert_eq!(policy.authorize(Some("alice"), &object, AccessType::Read), Ok(()));
    assert_eq!(
        policy.authorize(Some("alice"), &object, AccessType::Append),
        Err(Denied::InsufficientAccess)
    );
    assert_eq!(policy.policy(), switches(true, true, false));
}
