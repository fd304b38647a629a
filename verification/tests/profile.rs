use std::collections::HashSet;

use citadel_workspace_server_kernel::permissions::{Permission, UserRole};
use citadel_workspace_server_kernel::profile::{
    apply_profile_update, check_profile_update, hides_profile, member_visible_metadata, metadata_for_viewer,
    shows_profile_to_strangers, user_for_viewer, NameLimits, ProfileRejection, ProfileUpdate, Viewer,
    ACCEPTS_REQUESTS_FROM_STRANGERS_KEY, AVATAR_KEY, EMAIL_KEY, MAX_EMAIL_LEN, MAX_TITLE_LEN,
    SHOW_PROFILE_TO_STRANGERS_KEY, SHOW_PROFILE_TO_STRANGERS_WHEN_UNSET, TITLE_KEY,
};
use citadel_workspace_server_kernel::strmap::StrMap;
use citadel_workspace_server_kernel::user::{MetadataValue, User};

const LIMITS: NameLimits = NameLimits { min_name_length: 2, max_name_length: 64 };

fn with(email: Option<&str>, title: Option<&str>) -> ProfileUpdate {
    ProfileUpdate {
        name: None,
        avatar_data: None,
        email: email.map(str::to_string),
        title: title.map(str::to_string),
        show_profile_to_strangers: None,
        accepts_requests_from_strangers: None,
    }
}

fn user() -> User {
    User::new("u".into(), "U".into(), UserRole::Member)
}

fn text(user: &User, key: &str) -> Option<String> {
    match user.metadata.get(key) {
        Some(MetadataValue::String(s)) => Some(s.clone()),
        _ => None,
    }
}

fn keys(m: &StrMap<MetadataValue>) -> Vec<String> {
    let mut k: Vec<String> = (0..m.len()).map(|i| m.key_at(i).clone()).collect();
    k.sort_unstable();
    k
}

fn profile(show: Option<bool>) -> StrMap<MetadataValue> {
    let mut m = StrMap::new();
    for k in ["avatar", "email", "title", "other"] {
        m.insert(k.to_string(), MetadataValue::String("x".into()));
    }
    m.insert(ACCEPTS_REQUESTS_FROM_STRANGERS_KEY.to_string(), MetadataValue::Boolean(false));
    if let Some(show) = show {
        m.insert(SHOW_PROFILE_TO_STRANGERS_KEY.to_string(), MetadataValue::Boolean(show));
    }
    m
}

const STRANGER: Viewer = Viewer::Other { is_admin: false, is_contact: false };
const CONTACT: Viewer = Viewer::Other { is_admin: false, is_contact: true };
const ADMIN_STRANGER: Viewer = Viewer::Other { is_admin: true, is_contact: false };

#[test]
fn a_plain_email_is_accepted() {
    for email in ["a@b", "ada.lovelace+work@example.co.uk"] {
        assert!(check_profile_update(&with(Some(email), None), LIMITS).is_ok(), "{email}");
    }
}

#[test]
fn a_misshapen_email_is_refused() {
    for email in ["ada", "@example.com", "ada@", "a@b@c", "ada @example.com", "ada@exa\tmple.com"] {
        assert!(check_profile_update(&with(Some(email), None), LIMITS).is_err(), "{email:?} accepted");
    }
}

#[test]
fn email_length_is_bounded_at_254_bytes() {
    let at_limit = format!("{}@b", "a".repeat(MAX_EMAIL_LEN - 2));
    assert_eq!(at_limit.len(), MAX_EMAIL_LEN);
    assert!(check_profile_update(&with(Some(&at_limit), None), LIMITS).is_ok());
    let over = format!("a{at_limit}");
    assert!(check_profile_update(&with(Some(&over), None), LIMITS).is_err());
}

#[test]
fn title_length_is_bounded_at_64_bytes() {
    let at_limit = "t".repeat(MAX_TITLE_LEN);
    assert!(check_profile_update(&with(None, Some(&at_limit)), LIMITS).is_ok());
    let over = "t".repeat(MAX_TITLE_LEN + 1);
    assert!(check_profile_update(&with(None, Some(&over)), LIMITS).is_err());
    let multibyte = "é".repeat(33);
    assert!(check_profile_update(&with(None, Some(&multibyte)), LIMITS).is_err());
}

#[test]
fn an_empty_string_clears_and_is_accepted() {
    assert!(check_profile_update(&with(Some(""), Some("")), LIMITS).is_ok());
}

#[test]
fn each_refusal_says_which_rule_was_broken() {
    let mut u = with(None, None);
    u.name = Some("a".to_string());
    assert_eq!(
        check_profile_update(&u, LIMITS),
        Err(ProfileRejection::NameLength { min: 2, max: 64, len: 1 })
    );
    let mut u = with(None, None);
    u.avatar_data = Some("A".repeat(512 * 1024 + 1));
    assert_eq!(check_profile_update(&u, LIMITS), Err(ProfileRejection::AvatarTooLong { len: 512 * 1024 + 1 }));
    assert_eq!(check_profile_update(&with(Some("nope"), None), LIMITS), Err(ProfileRejection::EmailMisshapen));
    let over = "a".repeat(300);
    assert_eq!(check_profile_update(&with(Some(&over), None), LIMITS), Err(ProfileRejection::EmailTooLong { len: 300 }));
    assert_eq!(
        check_profile_update(&with(None, Some(&"t".repeat(65))), LIMITS),
        Err(ProfileRejection::TitleTooLong { len: 65 })
    );
}

#[test]
fn email_and_title_are_stored() {
    let mut u = user();
    apply_profile_update(&mut u, with(Some("a@b.c"), Some("Engineer")));
    assert_eq!(text(&u, EMAIL_KEY).as_deref(), Some("a@b.c"));
    assert_eq!(text(&u, TITLE_KEY).as_deref(), Some("Engineer"));
}

#[test]
fn an_absent_field_leaves_the_stored_value() {
    let mut u = user();
    apply_profile_update(&mut u, with(Some("a@b.c"), Some("Engineer")));
    apply_profile_update(&mut u, with(None, None));
    assert_eq!(text(&u, EMAIL_KEY).as_deref(), Some("a@b.c"));
    assert_eq!(text(&u, TITLE_KEY).as_deref(), Some("Engineer"));
}

#[test]
fn an_empty_avatar_clears_the_stored_one() {
    let mut u = user();
    let with_avatar = ProfileUpdate {
        name: None,
        avatar_data: Some("AAAA".into()),
        email: None,
        title: None,
        show_profile_to_strangers: None,
        accepts_requests_from_strangers: None,
    };
    apply_profile_update(&mut u, with_avatar.clone());
    assert!(u.metadata.contains_key(AVATAR_KEY));
    apply_profile_update(&mut u, ProfileUpdate { avatar_data: Some(String::new()), ..with_avatar });
    assert!(!u.metadata.contains_key(AVATAR_KEY));
}

#[test]
fn an_empty_string_clears_the_field() {
    let mut u = user();
    apply_profile_update(&mut u, with(Some("a@b.c"), Some("Engineer")));
    apply_profile_update(&mut u, with(Some(""), Some("")));
    assert!(!u.metadata.contains_key(EMAIL_KEY));
    assert!(!u.metadata.contains_key(TITLE_KEY));
}

#[test]
fn members_see_the_avatar_email_and_title_and_nothing_else() {
    let mut u = user();
    apply_profile_update(
        &mut u,
        ProfileUpdate {
            name: None,
            avatar_data: Some("AAAA".into()),
            email: Some("a@b.c".into()),
            title: Some("Engineer".into()),
            show_profile_to_strangers: None,
            accepts_requests_from_strangers: None,
        },
    );
    u.metadata.insert("other".into(), MetadataValue::String("x".into()));
    let visible = member_visible_metadata(&u.metadata);
    assert_eq!(keys(&visible), vec![AVATAR_KEY, EMAIL_KEY, TITLE_KEY]);
}

#[test]
fn a_name_and_flags_are_applied() {
    let mut u = user();
    apply_profile_update(
        &mut u,
        ProfileUpdate {
            name: Some("Ada".into()),
            avatar_data: None,
            email: None,
            title: None,
            show_profile_to_strangers: Some(false),
            accepts_requests_from_strangers: Some(true),
        },
    );
    assert_eq!(u.name, "Ada");
    assert!(matches!(u.metadata.get(SHOW_PROFILE_TO_STRANGERS_KEY), Some(MetadataValue::Boolean(false))));
    assert!(hides_profile(&u));
}

#[test]
fn a_stranger_gets_none_of_a_hidden_profile() {
    let sent = metadata_for_viewer(&profile(Some(false)), STRANGER);
    assert_eq!(keys(&sent), vec![ACCEPTS_REQUESTS_FROM_STRANGERS_KEY]);
}

#[test]
fn a_contact_gets_a_hidden_profile() {
    let sent = metadata_for_viewer(&profile(Some(false)), CONTACT);
    assert_eq!(keys(&sent), vec![ACCEPTS_REQUESTS_FROM_STRANGERS_KEY, "avatar", "email", "title"]);
}

#[test]
fn a_stranger_gets_a_shown_profile() {
    let sent = metadata_for_viewer(&profile(Some(true)), STRANGER);
    assert_eq!(keys(&sent), vec![ACCEPTS_REQUESTS_FROM_STRANGERS_KEY, "avatar", "email", "title"]);
}

#[test]
fn an_unset_choice_reads_as_the_documented_constant() {
    assert_eq!(shows_profile_to_strangers(&profile(None)), SHOW_PROFILE_TO_STRANGERS_WHEN_UNSET);
}

#[test]
fn an_admin_keeps_the_rest_of_the_record_but_not_the_hidden_profile() {
    let sent = metadata_for_viewer(&profile(Some(false)), ADMIN_STRANGER);
    assert_eq!(keys(&sent), vec![ACCEPTS_REQUESTS_FROM_STRANGERS_KEY, "other", SHOW_PROFILE_TO_STRANGERS_KEY]);
}

#[test]
fn the_owner_gets_everything() {
    let full = profile(Some(false));
    let sent = metadata_for_viewer(&full, Viewer::Owner);
    assert_eq!(keys(&sent), keys(&full));
    for k in keys(&full) {
        match (full.get(&k), sent.get(&k)) {
            (Some(MetadataValue::String(a)), Some(MetadataValue::String(b))) => assert_eq!(a, b),
            (Some(MetadataValue::Boolean(a)), Some(MetadataValue::Boolean(b))) => assert_eq!(a, b),
            _ => panic!("value changed under {k}"),
        }
    }
}

#[test]
fn another_account_is_sent_a_filtered_record_without_permissions() {
    let mut owner = User::new("alice".into(), "Alice".into(), UserRole::Member);
    owner.metadata = profile(Some(false));
    owner.add_permission("office1", Permission::ViewContent);
    let contacts: HashSet<u64> = HashSet::new();
    let seen = user_for_viewer(owner, "bob", false, &contacts, 7);
    assert_eq!(seen.id, "alice");
    assert_eq!(keys(&seen.metadata), vec![ACCEPTS_REQUESTS_FROM_STRANGERS_KEY]);
    assert!(!seen.has_permission("office1", Permission::ViewContent));
}

#[test]
fn a_contact_is_recognised_by_cid() {
    let mut owner = User::new("alice".into(), "Alice".into(), UserRole::Member);
    owner.metadata = profile(Some(false));
    let mut contacts: HashSet<u64> = HashSet::new();
    contacts.insert(7);
    let seen = user_for_viewer(owner, "bob", true, &contacts, 7);
    assert_eq!(
        keys(&seen.metadata),
        vec![ACCEPTS_REQUESTS_FROM_STRANGERS_KEY, "avatar", "email", "other", SHOW_PROFILE_TO_STRANGERS_KEY, "title"]
    );
}

#[test]
fn the_owner_reading_their_own_record_gets_it_unchanged() {
    let mut owner = User::new("alice".into(), "Alice".into(), UserRole::Member);
    owner.metadata = profile(Some(false));
    owner.add_permission("office1", Permission::ViewContent);
    let seen = user_for_viewer(owner, "alice", false, &HashSet::new(), 7);
    assert_eq!(keys(&seen.metadata).len(), 6);
    assert!(seen.has_permission("office1", Permission::ViewContent));
}
