//! The commands a client sends to the kernel, and how the kernel answers
//! them.
//!
//! Each command runs one operation of the kernel on behalf of the acting
//! user. A refusal is answered with an `Error` that names what failed and
//! gives the refusal's message; a listing of offices or rooms that is
//! refused ends the command with the refusal itself.

use vstd::prelude::*;
use crate::domain::{Office, Room};
use crate::entity_ops::{
    create_outcome, delete_outcome, list_outcome, opt_view, read_and_all_check, read_entity_check, read_outcome,
    update_outcome,
};
use crate::kernel::{UpdateOperation, WorkspaceServerKernel, permission_update_outcome, remove_user_outcome};
use crate::member_admin::{add_member_outcome, role_update_outcome};
use crate::members::{members_listing, routed_domain, same_user};
use crate::permissions::{Permission, UserRole};
use crate::store::KernelError;
use crate::text::concat;
use crate::user::User;

verus! {

/// A command of the workspace protocol, as the kernel receives it.
#[derive(Debug)]
pub enum WorkspaceCommand {
    CreateOffice { name: String, description: String },
    GetOffice { office_id: String },
    DeleteOffice { office_id: String },
    UpdateOffice { office_id: String, name: Option<String>, description: Option<String> },
    CreateRoom { office_id: String, name: String, description: String },
    GetRoom { room_id: String },
    DeleteRoom { room_id: String },
    UpdateRoom { room_id: String, name: Option<String>, description: Option<String> },
    AddMember { user_id: String, office_id: Option<String>, room_id: Option<String>, role: UserRole },
    GetMember { user_id: String },
    UpdateMemberRole { user_id: String, role: UserRole },
    UpdateMemberPermissions {
        user_id: String,
        domain_id: String,
        permissions: Vec<Permission>,
        operation: UpdateOperation,
    },
    RemoveMember { user_id: String, office_id: Option<String>, room_id: Option<String> },
    ListOffices,
    ListRooms { office_id: String },
    ListMembers { office_id: Option<String>, room_id: Option<String> },
}

/// The kernel's answer to a command.
#[derive(Debug)]
pub enum WorkspaceResponse {
    Success,
    Error(String),
    Office(Office),
    Room(Room),
    Member(User),
    Offices(Vec<Office>),
    Rooms(Vec<Room>),
    Members(Vec<User>),
}

pub const CREATE_OFFICE_FAILED: &'static str = "Failed to create office: ";
pub const GET_OFFICE_FAILED: &'static str = "Failed to get office: ";
pub const DELETE_OFFICE_FAILED: &'static str = "Failed to delete office: ";
pub const UPDATE_OFFICE_FAILED: &'static str = "Failed to update office: ";
pub const CREATE_ROOM_FAILED: &'static str = "Failed to create room: ";
pub const GET_ROOM_FAILED: &'static str = "Failed to get room: ";
pub const DELETE_ROOM_FAILED: &'static str = "Failed to delete room: ";
pub const UPDATE_ROOM_FAILED: &'static str = "Failed to update room: ";
pub const ADD_MEMBER_FAILED: &'static str = "Failed to add member: ";
pub const UPDATE_ROLE_FAILED: &'static str = "Failed to update member role: ";
pub const UPDATE_PERMISSIONS_FAILED: &'static str = "Failed to update member permissions: ";
pub const REMOVE_MEMBER_FAILED: &'static str = "Failed to remove member: ";
pub const LIST_MEMBERS_FAILED: &'static str = "Failed to list members: ";
/// The answer when the member asked for has no record.
pub const MEMBER_NOT_FOUND: &'static str = "Member not found";
/// The answer when a member listing names neither or both of an office and
/// a room.
pub const NAME_ONE_DOMAIN: &'static str = "Must specify either office_id or room_id";

/// `r` is the error that names the failed step `prefix` and gives the
/// message of `e`.
pub open spec fn failed_with(r: WorkspaceResponse, prefix: Seq<char>, e: KernelError) -> bool {
    r matches WorkspaceResponse::Error(m) && m@ == prefix + e.message_spec()
}

/// `r` answers `res` with the office, or with the failure.
pub open spec fn office_answered(r: WorkspaceResponse, res: Result<Office, KernelError>, prefix: Seq<char>) -> bool {
    match res {
        Ok(o) => r == WorkspaceResponse::Office(o),
        Err(e) => failed_with(r, prefix, e),
    }
}

/// `r` answers `res` with the room, or with the failure.
pub open spec fn room_answered(r: WorkspaceResponse, res: Result<Room, KernelError>, prefix: Seq<char>) -> bool {
    match res {
        Ok(m) => r == WorkspaceResponse::Room(m),
        Err(e) => failed_with(r, prefix, e),
    }
}

/// `r` answers `res` with success, or with the failure.
pub open spec fn success_answered<T>(r: WorkspaceResponse, res: Result<T, KernelError>, prefix: Seq<char>) -> bool {
    match res {
        Ok(_) => r == WorkspaceResponse::Success,
        Err(e) => failed_with(r, prefix, e),
    }
}

/// `r` answers `res` with the members, or with the failure.
pub open spec fn members_answered(r: WorkspaceResponse, res: Result<Vec<User>, KernelError>, prefix: Seq<char>) -> bool {
    match res {
        Ok(v) => r == WorkspaceResponse::Members(v),
        Err(e) => failed_with(r, prefix, e),
    }
}

/// The characters of an optional string.
pub open spec fn text_of(o: Option<String>) -> Option<Seq<char>> {
    match o {
        Some(s) => Some(s@),
        None => None,
    }
}

/// Whether `r` lists the members of `domain` for `user` as the listing
/// `res` gives them.
pub open spec fn members_listed(
    domains: Map<Seq<char>, crate::domain::Domain>,
    users: Map<Seq<char>, User>,
    user: Seq<char>,
    domain: Seq<char>,
    r: Result<WorkspaceResponse, KernelError>,
) -> bool {
    exists|res: Result<Vec<User>, KernelError>|
        #[trigger] members_listing(domains, users, user, domain, res) && (r matches Ok(a) && members_answered(
            a,
            res,
            LIST_MEMBERS_FAILED@,
        ))
}

/// What the command `c` of `user` does to the kernel's domains and users,
/// and what it answers: the outcome of the operation it runs, answered as
/// that operation's result.
pub open spec fn command_outcome(
    od: Map<Seq<char>, crate::domain::Domain>,
    ou: Map<Seq<char>, User>,
    nd: Map<Seq<char>, crate::domain::Domain>,
    nu: Map<Seq<char>, User>,
    user: Seq<char>,
    c: WorkspaceCommand,
    r: Result<WorkspaceResponse, KernelError>,
) -> bool {
    match c {
        WorkspaceCommand::CreateOffice { name, description } => exists|res: Result<Office, KernelError>|
            #[trigger] create_outcome::<Office>(od, ou, nd, nu, user, None, name@, description@, None, res) && (r matches Ok(
                a,
            ) && office_answered(a, res, CREATE_OFFICE_FAILED@)),
        WorkspaceCommand::GetOffice { office_id } => nd == od && nu == ou && exists|res: Result<Office, KernelError>|
            #[trigger] read_outcome::<Office>(
                od,
                read_entity_check::<Office>(od, ou, user, office_id@),
                office_id@,
                res,
            ) && (r matches Ok(a) && office_answered(a, res, GET_OFFICE_FAILED@)),
        WorkspaceCommand::DeleteOffice { office_id } => exists|res: Result<Office, KernelError>|
            #[trigger] delete_outcome::<Office>(
                od,
                ou,
                nd,
                nu,
                read_and_all_check::<Office>(od, ou, user, office_id@),
                office_id@,
                res,
            ) && (r matches Ok(a) && success_answered(a, res, DELETE_OFFICE_FAILED@)),
        WorkspaceCommand::UpdateOffice { office_id, name, description } => exists|
            res: Result<Office, KernelError>,
            n: Option<&str>,
            d: Option<&str>,
        |
            #[trigger] update_outcome::<Office>(
                od,
                ou,
                nd,
                nu,
                read_and_all_check::<Office>(od, ou, user, office_id@),
                office_id@,
                n,
                d,
                None,
                res,
            ) && opt_view(n) == text_of(name) && opt_view(d) == text_of(description) && (r matches Ok(a)
                && office_answered(a, res, UPDATE_OFFICE_FAILED@)),
        WorkspaceCommand::CreateRoom { office_id, name, description } => exists|res: Result<Room, KernelError>|
            #[trigger] create_outcome::<Room>(od, ou, nd, nu, user, Some(office_id@), name@, description@, None, res)
                && (r matches Ok(a) && room_answered(a, res, CREATE_ROOM_FAILED@)),
        WorkspaceCommand::GetRoom { room_id } => nd == od && nu == ou && exists|res: Result<Room, KernelError>|
            #[trigger] read_outcome::<Room>(od, read_entity_check::<Room>(od, ou, user, room_id@), room_id@, res)
                && (r matches Ok(a) && room_answered(a, res, GET_ROOM_FAILED@)),
        WorkspaceCommand::DeleteRoom { room_id } => exists|res: Result<Room, KernelError>|
            #[trigger] delete_outcome::<Room>(
                od,
                ou,
                nd,
                nu,
                read_and_all_check::<Room>(od, ou, user, room_id@),
                room_id@,
                res,
            ) && (r matches Ok(a) && success_answered(a, res, DELETE_ROOM_FAILED@)),
        WorkspaceCommand::UpdateRoom { room_id, name, description } => exists|
            res: Result<Room, KernelError>,
            n: Option<&str>,
            d: Option<&str>,
        |
            #[trigger] update_outcome::<Room>(
                od,
                ou,
                nd,
                nu,
                read_and_all_check::<Room>(od, ou, user, room_id@),
                room_id@,
                n,
                d,
                None,
                res,
            ) && opt_view(n) == text_of(name) && opt_view(d) == text_of(description) && (r matches Ok(a)
                && room_answered(a, res, UPDATE_ROOM_FAILED@)),
        WorkspaceCommand::AddMember { user_id, office_id, room_id, role } => exists|res: Result<(), KernelError>|
            #[trigger] add_member_outcome(
                od,
                ou,
                nd,
                nu,
                user,
                user_id@,
                text_of(office_id),
                text_of(room_id),
                role,
                res,
            ) && (r matches Ok(a) && success_answered(a, res, ADD_MEMBER_FAILED@)),
        WorkspaceCommand::GetMember { user_id } => {
            &&& nd == od
            &&& nu == ou
            &&& ou.contains_key(user_id@) ==> (r matches Ok(WorkspaceResponse::Member(m)) && same_user(
                m,
                ou[user_id@],
            ))
            &&& !ou.contains_key(user_id@) ==> (r matches Ok(WorkspaceResponse::Error(msg)) && msg@
                == MEMBER_NOT_FOUND@)
        },
        WorkspaceCommand::UpdateMemberRole { user_id, role } => exists|res: Result<(), KernelError>|
            #[trigger] role_update_outcome(od, ou, nd, nu, user, user_id@, role, res) && (r matches Ok(a) && match res {
                Ok(_) => a matches WorkspaceResponse::Member(m) && same_user(m, nu[user_id@]),
                Err(e) => failed_with(a, UPDATE_ROLE_FAILED@, e),
            }),
        WorkspaceCommand::UpdateMemberPermissions { user_id, domain_id, permissions, operation } => exists|
            res: Result<(), KernelError>,
        |
            #[trigger] permission_update_outcome(
                od,
                ou,
                nd,
                nu,
                user,
                user_id@,
                domain_id@,
                permissions@,
                operation,
                res,
            ) && (r matches Ok(a) && success_answered(a, res, UPDATE_PERMISSIONS_FAILED@)),
        WorkspaceCommand::RemoveMember { user_id, office_id, room_id } => exists|res: Result<(), KernelError>|
            #[trigger] remove_user_outcome(
                od,
                ou,
                nd,
                nu,
                user,
                user_id@,
                routed_domain(text_of(office_id), text_of(room_id)),
                res,
            ) && (r matches Ok(a) && success_answered(a, res, REMOVE_MEMBER_FAILED@)),
        WorkspaceCommand::ListOffices => nd == od && nu == ou && exists|res: Result<Vec<Office>, KernelError>|
            #[trigger] list_outcome::<Office>(od, ou, user, None, res) && match res {
                Ok(v) => r matches Ok(a) && a == WorkspaceResponse::Offices(v),
                Err(e) => r == Err::<WorkspaceResponse, KernelError>(e),
            },
        WorkspaceCommand::ListRooms { office_id } => nd == od && nu == ou && exists|
            res: Result<Vec<Room>, KernelError>,
        |
            #[trigger] list_outcome::<Room>(od, ou, user, Some(office_id@), res) && match res {
                Ok(v) => r matches Ok(a) && a == WorkspaceResponse::Rooms(v),
                Err(e) => r == Err::<WorkspaceResponse, KernelError>(e),
            },
        WorkspaceCommand::ListMembers { office_id, room_id } => nd == od && nu == ou && match (office_id, room_id) {
            (Some(o), None) => members_listed(od, ou, user, o@, r),
            (None, Some(m)) => members_listed(od, ou, user, m@, r),
            _ => r matches Ok(WorkspaceResponse::Error(msg)) && msg@ == NAME_ONE_DOMAIN@,
        },
    }
}

/// A command that is refused, whether the refusal ends it or is answered as
/// an error, leaves the kernel's domains and users as they were.
pub proof fn law_refused_command_changes_nothing(
    od: Map<Seq<char>, crate::domain::Domain>,
    ou: Map<Seq<char>, User>,
    nd: Map<Seq<char>, crate::domain::Domain>,
    nu: Map<Seq<char>, User>,
    user: Seq<char>,
    c: WorkspaceCommand,
    r: Result<WorkspaceResponse, KernelError>,
)
    requires
        command_outcome(od, ou, nd, nu, user, c, r),
        r is Err || r matches Ok(WorkspaceResponse::Error(_)),
    ensures
        nd == od,
        nu == ou,
{
}

/// The error naming the failed step `prefix` and giving the message of `e`.
fn failure(prefix: &str, e: KernelError) -> (r: WorkspaceResponse)
    ensures
        failed_with(r, prefix@, e),
{
    WorkspaceResponse::Error(concat(prefix, e.message()))
}

/// The answer to an operation that gives an office.
fn answer_office(res: Result<Office, KernelError>, prefix: &str) -> (r: WorkspaceResponse)
    ensures
        office_answered(r, res, prefix@),
{
    match res {
        Ok(o) => WorkspaceResponse::Office(o),
        Err(e) => failure(prefix, e),
    }
}

/// The answer to an operation that gives a room.
fn answer_room(res: Result<Room, KernelError>, prefix: &str) -> (r: WorkspaceResponse)
    ensures
        room_answered(r, res, prefix@),
{
    match res {
        Ok(m) => WorkspaceResponse::Room(m),
        Err(e) => failure(prefix, e),
    }
}

/// The answer to an operation whose success says nothing more.
fn answer_success<T>(res: Result<T, KernelError>, prefix: &str) -> (r: WorkspaceResponse)
    ensures
        success_answered(r, res, prefix@),
{
    match res {
        Ok(_) => WorkspaceResponse::Success,
        Err(e) => failure(prefix, e),
    }
}

/// The answer to a listing of members.
fn answer_members(res: Result<Vec<User>, KernelError>) -> (r: WorkspaceResponse)
    ensures
        members_answered(r, res, LIST_MEMBERS_FAILED@),
{
    match res {
        Ok(v) => WorkspaceResponse::Members(v),
        Err(e) => failure(LIST_MEMBERS_FAILED, e),
    }
}

/// The text of an optional string, borrowed.
fn borrowed(o: &Option<String>) -> (r: Option<&str>)
    ensures
        opt_view(r) == text_of(*o),
{
    match o {
        Some(s) => Some(s.as_str()),
        None => None,
    }
}

impl WorkspaceServerKernel {
    /// Run the command `command` on behalf of `user_id` and answer it.
    pub fn process_command(&mut self, user_id: &str, command: WorkspaceCommand) -> (r: Result<
        WorkspaceResponse,
        KernelError,
    >)
        ensures
            command_outcome(
                old(self).domains(),
                old(self).users(),
                final(self).domains(),
                final(self).users(),
                user_id@,
                command,
                r,
            ),
    {
        match command {
            WorkspaceCommand::CreateOffice { name, description } => {
                let res = self.create_office(user_id, name.as_str(), description.as_str(), None);
                Ok(answer_office(res, CREATE_OFFICE_FAILED))
            },
            WorkspaceCommand::GetOffice { office_id } => {
                let res = self.get_office(user_id, office_id.as_str());
                Ok(answer_office(res, GET_OFFICE_FAILED))
            },
            WorkspaceCommand::DeleteOffice { office_id } => {
                let res = self.delete_office(user_id, office_id.as_str());
                Ok(answer_success(res, DELETE_OFFICE_FAILED))
            },
            WorkspaceCommand::UpdateOffice { office_id, name, description } => {
                let n = borrowed(&name);
                let d = borrowed(&description);
                let res = self.update_office(user_id, office_id.as_str(), n, d, None);
                Ok(answer_office(res, UPDATE_OFFICE_FAILED))
            },
            WorkspaceCommand::CreateRoom { office_id, name, description } => {
                let res = self.create_room(user_id, office_id.as_str(), name.as_str(), description.as_str(), None);
                Ok(answer_room(res, CREATE_ROOM_FAILED))
            },
            WorkspaceCommand::GetRoom { room_id } => {
                let res = self.get_room(user_id, room_id.as_str());
                Ok(answer_room(res, GET_ROOM_FAILED))
            },
            WorkspaceCommand::DeleteRoom { room_id } => {
                let res = self.delete_room(user_id, room_id.as_str());
                Ok(answer_success(res, DELETE_ROOM_FAILED))
            },
            WorkspaceCommand::UpdateRoom { room_id, name, description } => {
                let n = borrowed(&name);
                let d = borrowed(&description);
                let res = self.update_room(user_id, room_id.as_str(), n, d, None);
                Ok(answer_room(res, UPDATE_ROOM_FAILED))
            },
            WorkspaceCommand::AddMember { user_id: member_id, office_id, room_id, role } => {
                let res = self.add_member(user_id, member_id.as_str(), borrowed(&office_id), borrowed(&room_id), role);
                Ok(answer_success(res, ADD_MEMBER_FAILED))
            },
            WorkspaceCommand::GetMember { user_id: member_id } => {
                match self.get_member(member_id.as_str()) {
                    Some(member) => Ok(WorkspaceResponse::Member(member)),
                    None => Ok(WorkspaceResponse::Error(MEMBER_NOT_FOUND.to_owned())),
                }
            },
            WorkspaceCommand::UpdateMemberRole { user_id: member_id, role } => {
                let res = self.update_member_role(user_id, member_id.as_str(), role);
                match res {
                    Ok(()) => match self.get_member(member_id.as_str()) {
                        Some(member) => Ok(WorkspaceResponse::Member(member)),
                        None => Ok(WorkspaceResponse::Error(MEMBER_NOT_FOUND.to_owned())),
                    },
                    Err(e) => Ok(failure(UPDATE_ROLE_FAILED, e)),
                }
            },
            WorkspaceCommand::UpdateMemberPermissions { user_id: member_id, domain_id, permissions, operation } => {
                let res = self.update_permissions_for_member(
                    user_id,
                    member_id.as_str(),
                    domain_id.as_str(),
                    permissions.as_slice(),
                    operation,
                );
                Ok(answer_success(res, UPDATE_PERMISSIONS_FAILED))
            },
            WorkspaceCommand::RemoveMember { user_id: member_id, office_id, room_id } => {
                let res = self.remove_member_command_internal(
                    user_id,
                    member_id.as_str(),
                    borrowed(&office_id),
                    borrowed(&room_id),
                );
                Ok(answer_success(res, REMOVE_MEMBER_FAILED))
            },
            WorkspaceCommand::ListOffices => {
                let offices = match self.list_offices(user_id) {
                    Ok(v) => v,
                    Err(e) => {
                        return Err(e);
                    },
                };
                Ok(WorkspaceResponse::Offices(offices))
            },
            WorkspaceCommand::ListRooms { office_id } => {
                let rooms = match self.list_rooms(user_id, office_id.as_str()) {
                    Ok(v) => v,
                    Err(e) => {
                        return Err(e);
                    },
                };
                Ok(WorkspaceResponse::Rooms(rooms))
            },
            WorkspaceCommand::ListMembers { office_id, room_id } => {
                match (office_id, room_id) {
                    (Some(office), None) => Ok(answer_members(self.list_members_in_domain(user_id, office.as_str()))),
                    (None, Some(room)) => Ok(answer_members(self.list_members_in_domain(user_id, room.as_str()))),
                    _ => Ok(WorkspaceResponse::Error(NAME_ONE_DOMAIN.to_owned())),
                }
            },
        }
    }
}

} // verus!
