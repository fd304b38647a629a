//! Profile updates: what may be stored, what an update changes on a user
//! record, and which profile details another account is sent.
//!
//! Lengths are in bytes of UTF-8. An empty email, title or avatar in an update
//! is a request to clear the stored one; an absent field leaves it alone.
//!
//! The avatar, email and title are profile details. Their owner decides
//! whether accounts that are not their contacts may see them; a record that
//! never made the choice shows them. Administrators see the whole of another
//! record except hidden details; other members see only the profile details
//! and whether the owner takes requests from strangers.

use vstd::prelude::*;
use std::collections::HashSet;
use crate::strmap::StrMap;
use crate::user::{MetadataValue, MetaView, User, meta_view, copy_metadata};

verus! {

broadcast use vstd::std_specs::hash::group_hash_axioms;

/// Metadata key holding the base64 avatar.
pub const AVATAR_KEY: &'static str = "avatar";
/// Metadata key holding the contact email.
pub const EMAIL_KEY: &'static str = "email";
/// Metadata key holding the job title.
pub const TITLE_KEY: &'static str = "title";
/// Metadata key holding whether non-contacts may see the profile details.
pub const SHOW_PROFILE_TO_STRANGERS_KEY: &'static str = "show_profile_to_strangers";
/// Metadata key holding whether the user takes requests from strangers.
pub const ACCEPTS_REQUESTS_FROM_STRANGERS_KEY: &'static str = "accepts_requests_from_strangers";

/// What an unset `show_profile_to_strangers` means: the details are shown.
pub const SHOW_PROFILE_TO_STRANGERS_WHEN_UNSET: bool = true;

/// The longest base64 avatar accepted, in bytes.
pub const MAX_AVATAR_BASE64_LEN: usize = 524288;
/// The longest contact email accepted, in bytes.
pub const MAX_EMAIL_LEN: usize = 254;
/// The longest job title accepted, in bytes.
pub const MAX_TITLE_LEN: usize = 64;

/// The profile details governed by `show_profile_to_strangers`.
pub open spec fn profile_detail_keys() -> Set<Seq<char>> {
    set![AVATAR_KEY@, EMAIL_KEY@, TITLE_KEY@]
}

/// The metadata a non-admin member may read on another member's record.
pub open spec fn member_visible_keys() -> Set<Seq<char>> {
    set![AVATAR_KEY@, EMAIL_KEY@, TITLE_KEY@, ACCEPTS_REQUESTS_FROM_STRANGERS_KEY@]
}

/// The metadata keys a profile update may change.
pub open spec fn profile_update_keys() -> Set<Seq<char>> {
    set![
        AVATAR_KEY@,
        EMAIL_KEY@,
        TITLE_KEY@,
        SHOW_PROFILE_TO_STRANGERS_KEY@,
        ACCEPTS_REQUESTS_FROM_STRANGERS_KEY@,
    ]
}

/// One profile update as received. `None` leaves a field unchanged.
#[derive(Debug, Clone)]
pub struct ProfileUpdate {
    pub name: Option<String>,
    /// `Some("")` removes the stored avatar.
    pub avatar_data: Option<String>,
    /// `Some("")` removes the stored email.
    pub email: Option<String>,
    /// `Some("")` removes the stored title.
    pub title: Option<String>,
    pub show_profile_to_strangers: Option<bool>,
    pub accepts_requests_from_strangers: Option<bool>,
}

/// The bounds the server puts on a display name, in bytes.
#[derive(Debug, Clone, Copy, PartialEq, Eq, Structural)]
pub struct NameLimits {
    pub min_name_length: usize,
    pub max_name_length: usize,
}

/// Why a profile update is refused.
#[derive(Debug, Clone, Copy, PartialEq, Eq, Structural)]
pub enum ProfileRejection {
    /// The display name is shorter or longer than allowed.
    NameLength { min: usize, max: usize, len: usize },
    /// The avatar is longer than `MAX_AVATAR_BASE64_LEN`.
    AvatarTooLong { len: usize },
    /// The email is longer than `MAX_EMAIL_LEN`.
    EmailTooLong { len: usize },
    /// The email is not of the shape `name@domain` without whitespace.
    EmailMisshapen,
    /// The title is longer than `MAX_TITLE_LEN`.
    TitleTooLong { len: usize },
}

/// Length in bytes of the UTF-8 encoding of `s`.
pub open spec fn byte_len(s: Seq<char>) -> nat {
    vstd::utf8::encode_utf8(s).len()
}

/// Unicode `White_Space`.
pub open spec fn is_white_space(c: char) -> bool {
    ||| '\u{9}' <= c <= '\u{d}'
    ||| c == ' '
    ||| c == '\u{85}'
    ||| c == '\u{a0}'
    ||| c == '\u{1680}'
    ||| '\u{2000}' <= c <= '\u{200a}'
    ||| c == '\u{2028}'
    ||| c == '\u{2029}'
    ||| c == '\u{202f}'
    ||| c == '\u{205f}'
    ||| c == '\u{3000}'
}

/// Whether `c` is Unicode whitespace.
pub fn char_is_white_space(c: char) -> (b: bool)
    ensures
        b == is_white_space(c),
{
    ('\u{9}' <= c && c <= '\u{d}') || c == ' ' || c == '\u{85}' || c == '\u{a0}' || c == '\u{1680}' || (
    '\u{2000}' <= c && c <= '\u{200a}') || c == '\u{2028}' || c == '\u{2029}' || c == '\u{202f}' || c
        == '\u{205f}' || c == '\u{3000}'
}

/// One `@`, with something on either side of it, and no whitespace.
pub open spec fn email_shaped(e: Seq<char>) -> bool {
    &&& exists|p: int|
        0 < p < e.len() - 1 && #[trigger] e[p] == '@' && forall|j: int|
            0 <= j < e.len() && j != p ==> e[j] != '@'
    &&& forall|j: int| 0 <= j < e.len() ==> !is_white_space(#[trigger] e[j])
}

/// The verdict on an email.
pub open spec fn email_verdict(e: Seq<char>) -> Result<(), ProfileRejection> {
    if byte_len(e) > MAX_EMAIL_LEN {
        Err(ProfileRejection::EmailTooLong { len: byte_len(e) as usize })
    } else if !email_shaped(e) {
        Err(ProfileRejection::EmailMisshapen)
    } else {
        Ok(())
    }
}

/// The verdict on a profile update: the first rule it breaks, in the order
/// name, avatar, email, title.
pub open spec fn profile_verdict(u: ProfileUpdate, limits: NameLimits) -> Result<(), ProfileRejection> {
    if u.name is Some && (byte_len(u.name->0@) < limits.min_name_length || byte_len(u.name->0@)
        > limits.max_name_length) {
        Err(
            ProfileRejection::NameLength {
                min: limits.min_name_length,
                max: limits.max_name_length,
                len: byte_len(u.name->0@) as usize,
            },
        )
    } else if u.avatar_data is Some && byte_len(u.avatar_data->0@) > MAX_AVATAR_BASE64_LEN {
        Err(ProfileRejection::AvatarTooLong { len: byte_len(u.avatar_data->0@) as usize })
    } else if u.email is Some && u.email->0@.len() > 0 && email_verdict(u.email->0@) is Err {
        email_verdict(u.email->0@)
    } else if u.title is Some && byte_len(u.title->0@) > MAX_TITLE_LEN {
        Err(ProfileRejection::TitleTooLong { len: byte_len(u.title->0@) as usize })
    } else {
        Ok(())
    }
}

/// Length in bytes of a string.
fn string_byte_len(s: &String) -> (n: usize)
    ensures
        n == byte_len(s@),
{
    s.as_str().as_bytes().len()
}

/// Check the shape and length of a non-empty email.
fn check_email(email: &String) -> (r: Result<(), ProfileRejection>)
    ensures
        r == email_verdict(email@),
{
    let len = string_byte_len(email);
    if len > MAX_EMAIL_LEN {
        return Err(ProfileRejection::EmailTooLong { len });
    }
    let mut ats: u8 = 0;
    let mut first: Option<char> = None;
    let mut last: Option<char> = None;
    let mut blank = false;
    let ghost mut i: int = 0;
    let ghost mut first_at: int = 0;
    let ghost e = email@;
    for c in it: email.as_str().chars()
        invariant
            e == email@,
            it.seq() == e,
            i == it.index(),
            0 <= i <= e.len(),
            first == (if i > 0 { Some(e[0]) } else { None::<char> }),
            last == (if i > 0 { Some(e[i - 1]) } else { None::<char> }),
            ats <= 2,
            ats == 0 ==> forall|j: int| 0 <= j < i ==> e[j] != '@',
            ats >= 1 ==> 0 <= first_at < i && e[first_at] == '@',
            ats == 1 ==> forall|j: int| 0 <= j < i && j != first_at ==> e[j] != '@',
            ats == 2 ==> exists|a: int, b: int| 0 <= a < b < i && e[a] == '@' && e[b] == '@',
            blank == exists|j: int| 0 <= j < i && is_white_space(#[trigger] e[j]),
    {
        assert(c == e[i]);
        if c == '@' {
            if ats == 0 {
                proof {
                    first_at = i;
                }
                ats = 1;
            } else {
                assert(0 <= first_at < i && e[first_at] == '@' && e[i] == '@');
                ats = 2;
            }
        }
        if char_is_white_space(c) {
            blank = true;
        }
        if first.is_none() {
            first = Some(c);
        }
        last = Some(c);
        proof {
            if !blank {
                assert forall|j: int| 0 <= j < i + 1 implies !is_white_space(#[trigger] e[j]) by {
                    if j < i {
                        assert(!(0 <= j < i && is_white_space(e[j])));
                    }
                }
            } else if !is_white_space(c) {
                let j = choose|j: int| 0 <= j < i && is_white_space(#[trigger] e[j]);
                assert(0 <= j < i + 1 && is_white_space(e[j]));
            } else {
                assert(0 <= i < i + 1 && is_white_space(e[i]));
            }
            i = i + 1;
        }
    }
    let ends_clear = match (first, last) {
        (Some(f), Some(l)) => f != '@' && l != '@',
        _ => false,
    };
    if ats == 1 && ends_clear && !blank {
        proof {
            assert(0 < first_at < e.len() - 1 && e[first_at] == '@');
            assert forall|j: int| 0 <= j < e.len() implies !is_white_space(#[trigger] e[j]) by {
                assert(!(0 <= j < i && is_white_space(e[j])));
            }
        }
        Ok(())
    } else {
        proof {
            if email_shaped(e) {
                let p = choose|p: int|
                    0 < p < e.len() - 1 && #[trigger] e[p] == '@' && forall|j: int|
                        0 <= j < e.len() && j != p ==> e[j] != '@';
                if ats == 0 {
                    assert(e[p] != '@');
                } else if ats == 2 {
                    let (a, b) = choose|a: int, b: int| 0 <= a < b < i && e[a] == '@' && e[b] == '@';
                    assert(a == p || b == p);
                } else {
                    assert(first_at == p);
                    assert(e[0] != '@');
                    assert(e[e.len() - 1] != '@');
                    if blank {
                        let j = choose|j: int| 0 <= j < i && is_white_space(#[trigger] e[j]);
                        assert(!is_white_space(e[j]));
                    }
                }
            }
        }
        Err(ProfileRejection::EmailMisshapen)
    }
}

/// Refuse a profile update the server should not store. `limits` are the
/// display-name bounds the server enforces at registration.
pub fn check_profile_update(update: &ProfileUpdate, limits: NameLimits) -> (r: Result<(), ProfileRejection>)
    ensures
        r == profile_verdict(*update, limits),
{
    match &update.name {
        Some(name) => {
            let len = string_byte_len(name);
            if len < limits.min_name_length || len > limits.max_name_length {
                return Err(
                    ProfileRejection::NameLength {
                        min: limits.min_name_length,
                        max: limits.max_name_length,
                        len,
                    },
                );
            }
        },
        None => {},
    }
    match &update.avatar_data {
        Some(avatar) => {
            let len = string_byte_len(avatar);
            if len > MAX_AVATAR_BASE64_LEN {
                return Err(ProfileRejection::AvatarTooLong { len });
            }
        },
        None => {},
    }
    match &update.email {
        Some(email) => {
            if !email.as_str().is_empty() {
                match check_email(email) {
                    Ok(()) => {},
                    Err(e) => return Err(e),
                }
            }
        },
        None => {},
    }
    match &update.title {
        Some(title) => {
            let len = string_byte_len(title);
            if len > MAX_TITLE_LEN {
                return Err(ProfileRejection::TitleTooLong { len });
            }
        },
        None => {},
    }
    Ok(())
}

/// A text field of an update applied to a metadata table: absent leaves it,
/// empty removes it, anything else is stored.
pub open spec fn set_or_clear_spec(m: Map<Seq<char>, MetaView>, key: Seq<char>, value: Option<String>) -> Map<
    Seq<char>,
    MetaView,
> {
    match value {
        None => m,
        Some(v) => if v@.len() == 0 {
            m.remove(key)
        } else {
            m.insert(key, MetaView::Text(v@))
        },
    }
}

/// A flag of an update applied to a metadata table: absent leaves it,
/// present stores it.
pub open spec fn set_flag_spec(m: Map<Seq<char>, MetaView>, key: Seq<char>, value: Option<bool>) -> Map<
    Seq<char>,
    MetaView,
> {
    match value {
        None => m,
        Some(b) => m.insert(key, MetaView::Flag(b)),
    }
}

/// The metadata table after a profile update.
pub open spec fn updated_metadata(m: Map<Seq<char>, MetaView>, u: ProfileUpdate) -> Map<Seq<char>, MetaView> {
    set_flag_spec(
        set_flag_spec(
            set_or_clear_spec(
                set_or_clear_spec(set_or_clear_spec(m, AVATAR_KEY@, u.avatar_data), EMAIL_KEY@, u.email),
                TITLE_KEY@,
                u.title,
            ),
            SHOW_PROFILE_TO_STRANGERS_KEY@,
            u.show_profile_to_strangers,
        ),
        ACCEPTS_REQUESTS_FROM_STRANGERS_KEY@,
        u.accepts_requests_from_strangers,
    )
}

fn set_flag(metadata: &mut StrMap<MetadataValue>, key: &str, value: Option<bool>)
    ensures
        meta_view(final(metadata)@) == set_flag_spec(meta_view(old(metadata)@), key@, value),
{
    match value {
        Some(v) => {
            metadata.insert(key.to_owned(), MetadataValue::Boolean(v));
            proof {
                assert(meta_view(metadata@) =~= meta_view(old(metadata)@).insert(key@, MetaView::Flag(v)));
            }
        },
        None => {},
    }
}

fn set_or_clear(metadata: &mut StrMap<MetadataValue>, key: &str, value: Option<String>)
    ensures
        meta_view(final(metadata)@) == set_or_clear_spec(meta_view(old(metadata)@), key@, value),
{
    match value {
        None => {},
        Some(v) => {
            if v.as_str().is_empty() {
                metadata.remove(key);
                proof {
                    assert(meta_view(metadata@) =~= meta_view(old(metadata)@).remove(key@));
                }
            } else {
                let ghost text = v@;
                metadata.insert(key.to_owned(), MetadataValue::String(v));
                proof {
                    assert(meta_view(metadata@) =~= meta_view(old(metadata)@).insert(key@, MetaView::Text(text)));
                }
            }
        },
    }
}

/// Apply an already checked update to `user`.
pub fn apply_profile_update(user: &mut User, update: ProfileUpdate)
    ensures
        final(user).id == old(user).id,
        final(user).role == old(user).role,
        final(user).permissions == old(user).permissions,
        final(user).name == (match update.name {
            Some(n) => n,
            None => old(user).name,
        }),
        meta_view(final(user).metadata@) == updated_metadata(meta_view(old(user).metadata@), update),
{
    let ghost u = update;
    let ProfileUpdate {
        name,
        avatar_data,
        email,
        title,
        show_profile_to_strangers,
        accepts_requests_from_strangers,
    } = update;
    match name {
        Some(n) => {
            user.name = n;
        },
        None => {},
    }
    set_or_clear(&mut user.metadata, AVATAR_KEY, avatar_data);
    set_or_clear(&mut user.metadata, EMAIL_KEY, email);
    set_or_clear(&mut user.metadata, TITLE_KEY, title);
    set_flag(&mut user.metadata, SHOW_PROFILE_TO_STRANGERS_KEY, show_profile_to_strangers);
    set_flag(&mut user.metadata, ACCEPTS_REQUESTS_FROM_STRANGERS_KEY, accepts_requests_from_strangers);
}

/// Copy the entry under `key`, if any, from `from` into `to`.
fn copy_entry(from: &StrMap<MetadataValue>, to: &mut StrMap<MetadataValue>, key: &str)
    ensures
        meta_view(final(to)@) == (if from@.contains_key(key@) {
            meta_view(old(to)@).insert(key@, from@[key@]@)
        } else {
            meta_view(old(to)@)
        }),
{
    match from.get(key) {
        Some(v) => {
            to.insert(key.to_owned(), v.clone());
            proof {
                assert(meta_view(to@) =~= meta_view(old(to)@).insert(key@, from@[key@]@));
            }
        },
        None => {},
    }
}

/// The part of `metadata` a non-admin member may see on someone else's
/// record.
pub fn member_visible_metadata(metadata: &StrMap<MetadataValue>) -> (r: StrMap<MetadataValue>)
    ensures
        meta_view(r@) == meta_view(metadata@).restrict(member_visible_keys()),
{
    let mut r: StrMap<MetadataValue> = StrMap::new();
    copy_entry(metadata, &mut r, AVATAR_KEY);
    copy_entry(metadata, &mut r, EMAIL_KEY);
    copy_entry(metadata, &mut r, TITLE_KEY);
    copy_entry(metadata, &mut r, ACCEPTS_REQUESTS_FROM_STRANGERS_KEY);
    proof {
        assert(meta_view(r@) =~= meta_view(metadata@).restrict(member_visible_keys()));
    }
    r
}

/// How the viewer stands to the record's owner.
#[derive(Debug, Clone, Copy, PartialEq, Eq, Structural)]
pub enum Viewer {
    /// Reading their own record: always sent in full.
    Owner,
    /// Another account. `is_admin` widens what non-profile metadata is sent;
    /// it does not override the owner's profile choice.
    Other { is_admin: bool, is_contact: bool },
}

/// Whether a metadata table lets non-contacts see the profile details.
pub open spec fn shows_spec(m: Map<Seq<char>, MetaView>) -> bool {
    match m.get(SHOW_PROFILE_TO_STRANGERS_KEY@) {
        Some(MetaView::Flag(show)) => show,
        _ => SHOW_PROFILE_TO_STRANGERS_WHEN_UNSET,
    }
}

/// What `viewer` is sent of a metadata table.
pub open spec fn metadata_for_viewer_spec(m: Map<Seq<char>, MetaView>, viewer: Viewer) -> Map<
    Seq<char>,
    MetaView,
> {
    match viewer {
        Viewer::Owner => m,
        Viewer::Other { is_admin, is_contact } => {
            let sent = if is_admin {
                m
            } else {
                m.restrict(member_visible_keys())
            };
            if !is_contact && !shows_spec(m) {
                sent.remove_keys(profile_detail_keys())
            } else {
                sent
            }
        },
    }
}

/// Whether the owner lets non-contacts see their profile details.
pub fn shows_profile_to_strangers(metadata: &StrMap<MetadataValue>) -> (b: bool)
    ensures
        b == shows_spec(meta_view(metadata@)),
{
    match metadata.get(SHOW_PROFILE_TO_STRANGERS_KEY) {
        Some(MetadataValue::Boolean(show)) => *show,
        _ => SHOW_PROFILE_TO_STRANGERS_WHEN_UNSET,
    }
}

/// Whether `user` hides their profile from non-contacts.
pub fn hides_profile(user: &User) -> (b: bool)
    ensures
        b == !shows_spec(meta_view(user.metadata@)),
{
    !shows_profile_to_strangers(&user.metadata)
}

/// Whether the account whose CID is `cid` is among `contacts`.
pub fn is_contact(contacts: &HashSet<u64>, cid: u64) -> (b: bool)
    ensures
        b == contacts@.contains(cid),
{
    contacts.contains(&cid)
}

/// The part of `metadata` that `viewer` is sent.
pub fn metadata_for_viewer(metadata: &StrMap<MetadataValue>, viewer: Viewer) -> (r: StrMap<MetadataValue>)
    ensures
        meta_view(r@) == metadata_for_viewer_spec(meta_view(metadata@), viewer),
{
    match viewer {
        Viewer::Owner => copy_metadata(metadata),
        Viewer::Other { is_admin, is_contact } => {
            let mut sent = if is_admin {
                copy_metadata(metadata)
            } else {
                member_visible_metadata(metadata)
            };
            if !is_contact && !shows_profile_to_strangers(metadata) {
                let ghost before = meta_view(sent@);
                sent.remove(AVATAR_KEY);
                sent.remove(EMAIL_KEY);
                sent.remove(TITLE_KEY);
                proof {
                    assert(meta_view(sent@) =~= before.remove_keys(profile_detail_keys()));
                }
            }
            sent
        },
    }
}

/// `user` as the account `viewer_id` is sent it. `user_cid` is the CID of the
/// record's owner and `contacts` the CIDs the viewer has registered with. A
/// non-admin is never sent the permissions of someone else's record.
pub fn user_for_viewer(
    user: User,
    viewer_id: &str,
    is_admin: bool,
    contacts: &HashSet<u64>,
    user_cid: u64,
) -> (r: User)
    ensures
        user.id@ == viewer_id@ ==> r == user,
        user.id@ != viewer_id@ ==> {
            &&& r.id == user.id
            &&& r.name == user.name
            &&& r.role == user.role
            &&& meta_view(r.metadata@) == metadata_for_viewer_spec(
                meta_view(user.metadata@),
                Viewer::Other { is_admin, is_contact: contacts@.contains(user_cid) },
            )
            &&& (is_admin ==> r.permissions == user.permissions)
            &&& (!is_admin ==> r.permissions@ == Map::<Seq<char>, crate::permissions::PermissionSet>::empty())
        },
{
    if crate::text::str_eq(user.id.as_str(), viewer_id) {
        return user;
    }
    let viewer = Viewer::Other { is_admin, is_contact: is_contact(contacts, user_cid) };
    let metadata = metadata_for_viewer(&user.metadata, viewer);
    let User { id, name, role, permissions, metadata: _ } = user;
    let permissions = if is_admin {
        permissions
    } else {
        StrMap::new()
    };
    User { id, name, role, permissions, metadata }
}

/// A profile update changes no metadata besides the five profile keys.
pub proof fn law_update_touches_only_profile_keys(m: Map<Seq<char>, MetaView>, u: ProfileUpdate, k: Seq<char>)
    requires
        !profile_update_keys().contains(k),
    ensures
        updated_metadata(m, u).contains_key(k) == m.contains_key(k),
        m.contains_key(k) ==> updated_metadata(m, u)[k] == m[k],
{
}

/// Applying the same profile update twice changes nothing the first did not.
pub proof fn law_update_is_idempotent(m: Map<Seq<char>, MetaView>, u: ProfileUpdate)
    ensures
        updated_metadata(updated_metadata(m, u), u) == updated_metadata(m, u),
{
    assert(updated_metadata(updated_metadata(m, u), u) =~= updated_metadata(m, u));
}

/// The owner of a record is sent all of it.
pub proof fn law_owner_is_sent_everything(m: Map<Seq<char>, MetaView>)
    ensures
        metadata_for_viewer_spec(m, Viewer::Owner) == m,
{
}

/// A hidden profile detail reaches no account that is not a contact of its
/// owner, administrators included.
pub proof fn law_hidden_details_reach_no_stranger(m: Map<Seq<char>, MetaView>, is_admin: bool, k: Seq<char>)
    requires
        !shows_spec(m),
        profile_detail_keys().contains(k),
    ensures
        !metadata_for_viewer_spec(m, Viewer::Other { is_admin, is_contact: false }).contains_key(k),
{
}

/// A member who is not an administrator is sent nothing of another record
/// beyond the member-visible keys, and nothing that is not on the record.
pub proof fn law_member_sees_only_visible_keys(m: Map<Seq<char>, MetaView>, is_contact: bool, k: Seq<char>)
    requires
        metadata_for_viewer_spec(m, Viewer::Other { is_admin: false, is_contact }).contains_key(k),
    ensures
        member_visible_keys().contains(k),
        m.contains_key(k),
        metadata_for_viewer_spec(m, Viewer::Other { is_admin: false, is_contact })[k] == m[k],
{
}

/// Whatever is sent to another account is a part of the record, unchanged.
pub proof fn law_nothing_is_invented(m: Map<Seq<char>, MetaView>, viewer: Viewer, k: Seq<char>)
    requires
        metadata_for_viewer_spec(m, viewer).contains_key(k),
    ensures
        m.contains_key(k),
        metadata_for_viewer_spec(m, viewer)[k] == m[k],
{
}

} // verus!
