//! The protocol layer: what each request is allowed to do, which storage
//! operation it stands for, and which status answers it.
//!
//! Every request goes the same way: authenticate, decompose the path,
//! find the operation for method and reference, authorize it at the level
//! the operation needs, run it on the store, answer with the status of
//! the outcome. The first step that fails answers the request.
//!
//! | method   | reference           | operation          | level  |
//! |----------|---------------------|--------------------|--------|
//! | POST     | repository root     | create the layout  | Modify |
//! | DELETE   | repository root     | remove repository  | Modify |
//! | GET/HEAD | collection          | list               | Read   |
//! | GET      | object or `config`  | fetch              | Read   |
//! | HEAD     | object or `config`  | size               | Read   |
//! | POST     | object              | exclusive create   | Append |
//! | POST     | `config`            | store, overwriting | Modify |
//! | DELETE   | object              | delete             | Modify |

use crate::acl::{AccessPolicy, AccessPolicyView, AccessType, Denied};
use crate::auth::{presented, Authenticator, AuthenticatorView, Login};
use crate::memory::MemoryStorage;
use crate::path::{decompose, decomposed, ArchivePath, ArchivePathKind, ArchivePathView, ObjectType};
use crate::storage::{StorageError, StorageView};
use crate::text::texts;
use vstd::prelude::*;
use vstd::string::*;

verus! {

/// The request methods of the protocol.
#[derive(Clone, Copy, Debug, PartialEq, Eq, Structural)]
pub enum Method {
    Get,
    Head,
    Post,
    Delete,
}

/// The storage operation that a request stands for.
#[derive(Clone, Copy, Debug, PartialEq, Eq, Structural)]
pub enum Action {
    /// Make the directories of a repository.
    CreateRepository,
    /// A request to a repository root that asks for nothing to be made.
    Acknowledge,
    /// Remove a repository with all it holds.
    RemoveRepository,
    /// List the ids in a collection.
    List,
    /// Tell the size of an object.
    Stat,
    /// Hand out an object, or a range of it.
    Fetch,
    /// Store a new object, which must not exist.
    Create,
    /// Store the `config`, replacing the one there.
    SaveConfig,
    /// Delete an object.
    Delete,
}

/// The status that answers a request.
#[derive(Clone, Copy, Debug, PartialEq, Eq, Structural)]
pub enum Status {
    Success,
    PartialContent,
    BadRequest,
    Unauthorized,
    Forbidden,
    NotFound,
    Conflict,
    RangeNotSatisfiable,
    InternalServerError,
}

impl Status {
    /// The HTTP status code.
    pub open spec fn code_of(self) -> u16 {
        match self {
            Status::Success => 200,
            Status::PartialContent => 206,
            Status::BadRequest => 400,
            Status::Unauthorized => 401,
            Status::Forbidden => 403,
            Status::NotFound => 404,
            Status::Conflict => 409,
            Status::RangeNotSatisfiable => 416,
            Status::InternalServerError => 500,
        }
    }

    /// The HTTP status code.
    pub fn code(self) -> (r: u16)
        ensures
            r == self.code_of(),
    {
        match self {
            Status::Success => 200,
            Status::PartialContent => 206,
            Status::BadRequest => 400,
            Status::Unauthorized => 401,
            Status::Forbidden => 403,
            Status::NotFound => 404,
            Status::Conflict => 409,
            Status::RangeNotSatisfiable => 416,
            Status::InternalServerError => 500,
        }
    }
}

/// The operation for a method on a reference, if the protocol has one.
/// `create` is the flag of that name in the query of a POST to a
/// repository root.
pub open spec fn route(method: Method, p: ArchivePathView, create: bool) -> Option<Action> {
    match (method, p.kind) {
        (Method::Post, ArchivePathKind::Repo) => if create {
            Some(Action::CreateRepository)
        } else {
            Some(Action::Acknowledge)
        },
        (Method::Delete, ArchivePathKind::Repo) => Some(Action::RemoveRepository),
        (Method::Get, ArchivePathKind::Type) => if p.tpe == ObjectType::Config {
            Some(Action::Fetch)
        } else {
            Some(Action::List)
        },
        (Method::Head, ArchivePathKind::Type) => if p.tpe == ObjectType::Config {
            Some(Action::Stat)
        } else {
            Some(Action::List)
        },
        (Method::Post, ArchivePathKind::Type) => if p.tpe == ObjectType::Config {
            Some(Action::SaveConfig)
        } else {
            None
        },
        (Method::Get, ArchivePathKind::File) => Some(Action::Fetch),
        (Method::Head, ArchivePathKind::File) => Some(Action::Stat),
        (Method::Post, ArchivePathKind::File) => Some(Action::Create),
        (Method::Delete, ArchivePathKind::File) => Some(Action::Delete),
        _ => None,
    }
}

/// The access level that an operation needs.
pub open spec fn required_access(action: Action) -> AccessType {
    match action {
        Action::List | Action::Stat | Action::Fetch => AccessType::Read,
        Action::Create => AccessType::Append,
        Action::CreateRepository
        | Action::Acknowledge
        | Action::RemoveRepository
        | Action::SaveConfig
        | Action::Delete => AccessType::Modify,
    }
}

/// The status for the outcome of an operation: `failure` is what the store
/// reported, `ranged` whether the request asked for a byte range.
pub open spec fn status_of(action: Action, ranged: bool, failure: Option<StorageError>) -> Status {
    match failure {
        None => if action == Action::Fetch && ranged {
            Status::PartialContent
        } else {
            Status::Success
        },
        Some(StorageError::NotFound) => Status::NotFound,
        Some(StorageError::AlreadyExists) => Status::Conflict,
        Some(StorageError::InvalidRange) => Status::RangeNotSatisfiable,
        Some(StorageError::InvalidPath) => Status::BadRequest,
        Some(_) => Status::InternalServerError,
    }
}

/// What the gateway decides on a request, before the store is touched:
/// the reference and the operation to run, or the status that refuses the
/// request. Credentials that fail give `Unauthorized`; then a path that
/// does not decompose, or a method that the reference has no operation
/// for, gives `BadRequest`; then a refusal of the access policy gives
/// `Unauthorized` where it wants a user and `Forbidden` otherwise.
pub open spec fn planned(
    auth: AuthenticatorView,
    access: AccessPolicyView,
    method: Method,
    raw: Seq<char>,
    create: bool,
    credentials: Option<(Seq<char>, Seq<char>)>,
) -> Result<(ArchivePathView, Action), Status> {
    match auth.verified(credentials) {
        Err(_) => Err(Status::Unauthorized),
        Ok(user) => match decomposed(raw) {
            None => Err(Status::BadRequest),
            Some(p) => match route(method, p, create) {
                None => Err(Status::BadRequest),
                Some(action) => match access.decision(user, p, required_access(action)) {
                    Err(Denied::Unauthenticated) => Err(Status::Unauthorized),
                    Err(Denied::InsufficientAccess) => Err(Status::Forbidden),
                    Ok(_) => Ok((p, action)),
                },
            },
        },
    }
}

/// The authenticator and the access policy that requests pass through.
#[derive(Debug)]
pub struct Gateway {
    pub authenticator: Authenticator,
    pub access: AccessPolicy,
}

/// What is to be run on the store for a request that was let through.
#[derive(Debug)]
pub struct Plan {
    pub path: ArchivePath,
    pub action: Action,
}

impl Gateway {
    /// The gateway with this authenticator and this access policy.
    pub fn new(authenticator: Authenticator, access: AccessPolicy) -> (r: Gateway)
        ensures
            r.authenticator == authenticator,
            r.access == access,
    {
        Gateway { authenticator, access }
    }

    /// What is decided on a request, as a plain value.
    pub open spec fn planned(
        &self,
        method: Method,
        raw: Seq<char>,
        create: bool,
        credentials: Option<(Seq<char>, Seq<char>)>,
    ) -> Result<(ArchivePathView, Action), Status> {
        planned(self.authenticator@, self.access@, method, raw, create, credentials)
    }

    /// Decides on a request: what to run on the store, or the status that
    /// refuses it.
    pub fn plan(&self, method: Method, path: &str, create: bool, credentials: Option<&Login>)
        -> (r: Result<Plan, Status>)
        ensures
            match r {
                Ok(plan) => self.planned(method, path@, create, presented(credentials)) == Ok::<
                    (ArchivePathView, Action),
                    Status,
                >((plan.path@, plan.action)),
                Err(status) => self.planned(method, path@, create, presented(credentials)) == Err::<
                    (ArchivePathView, Action),
                    Status,
                >(status),
            },
    {
        let user = match self.authenticator.verify(credentials) {
            Ok(user) => user,
            Err(_) => {
                return Err(Status::Unauthorized);
            },
        };
        let reference = match decompose(path) {
            Ok(reference) => reference,
            Err(_) => {
                return Err(Status::BadRequest);
            },
        };
        let action = match operation_for(method, &reference, create) {
            Some(action) => action,
            None => {
                return Err(Status::BadRequest);
            },
        };
        let name: Option<&str> = match &user {
            Some(u) => Some(u.as_str()),
            None => None,
        };
        match self.access.authorize(name, &reference, access_for(action)) {
            Ok(_) => Ok(Plan { path: reference, action }),
            Err(Denied::Unauthenticated) => Err(Status::Unauthorized),
            Err(Denied::InsufficientAccess) => Err(Status::Forbidden),
        }
    }
}

/// The operation for a method on a reference, if the protocol has one.
pub fn operation_for(method: Method, path: &ArchivePath, create: bool) -> (r: Option<Action>)
    ensures
        r == route(method, path@, create),
{
    let config = match path.tpe() {
        ObjectType::Config => true,
        _ => false,
    };
    match path.kind() {
        ArchivePathKind::Repo => match method {
            Method::Post => if create {
                Some(Action::CreateRepository)
            } else {
                Some(Action::Acknowledge)
            },
            Method::Delete => Some(Action::RemoveRepository),
            _ => None,
        },
        ArchivePathKind::Type => match method {
            Method::Get => if config {
                Some(Action::Fetch)
            } else {
                Some(Action::List)
            },
            Method::Head => if config {
                Some(Action::Stat)
            } else {
                Some(Action::List)
            },
            Method::Post => if config {
                Some(Action::SaveConfig)
            } else {
                None
            },
            Method::Delete => None,
        },
        ArchivePathKind::File => match method {
            Method::Get => Some(Action::Fetch),
            Method::Head => Some(Action::Stat),
            Method::Post => Some(Action::Create),
            Method::Delete => Some(Action::Delete),
        },
    }
}

/// The access level that an operation needs.
pub fn access_for(action: Action) -> (r: AccessType)
    ensures
        r == required_access(action),
{
    match action {
        Action::List => AccessType::Read,
        Action::Stat => AccessType::Read,
        Action::Fetch => AccessType::Read,
        Action::Create => AccessType::Append,
        _ => AccessType::Modify,
    }
}

/// The status for the outcome of an operation.
pub fn outcome_status(action: Action, ranged: bool, failure: Option<StorageError>) -> (r: Status)
    ensures
        r == status_of(action, ranged, failure),
{
    match failure {
        None => match action {
            Action::Fetch => if ranged {
                Status::PartialContent
            } else {
                Status::Success
            },
            _ => Status::Success,
        },
        Some(StorageError::NotFound) => Status::NotFound,
        Some(StorageError::AlreadyExists) => Status::Conflict,
        Some(StorageError::InvalidRange) => Status::RangeNotSatisfiable,
        Some(StorageError::InvalidPath) => Status::BadRequest,
        Some(_) => Status::InternalServerError,
    }
}

/// A request, as far as the protocol layer reads it.
#[derive(Debug)]
pub struct Request {
    pub method: Method,
    pub path: String,
    /// The flag `create` of the query.
    pub create: bool,
    pub credentials: Option<Login>,
    /// The byte range asked for: from the first offset up to, not
    /// including, the second.
    pub range: Option<(u64, u64)>,
    pub body: Vec<u8>,
}

/// What a store hands back for an operation, and what a response carries
/// besides its status.
#[derive(Debug, PartialEq, Eq)]
pub enum Body {
    Empty,
    /// The content of an object, or a range of it.
    Bytes(Vec<u8>),
    /// The ids in a collection.
    Names(Vec<String>),
    /// The size of an object, for the header of a response without body.
    Size(u64),
}

/// The answer to a request.
#[derive(Debug, PartialEq, Eq)]
pub struct Response {
    pub status: Status,
    pub body: Body,
}

/// What a request presents, as plain values.
pub open spec fn offered(credentials: Option<Login>) -> Option<(Seq<char>, Seq<char>)> {
    match credentials {
        Some(c) => Some((c.user@, c.password@)),
        None => None,
    }
}

/// The error of a result, if it is one.
pub open spec fn failure_of<T>(r: Result<T, StorageError>) -> Option<StorageError> {
    match r {
        Ok(_) => None,
        Err(e) => Some(e),
    }
}

/// What running an operation reports and leaves: the failure, if any, and
/// the state of the store afterwards.
pub open spec fn run(
    s: StorageView,
    p: ArchivePathView,
    action: Action,
    range: Option<(u64, u64)>,
    body: Seq<u8>,
) -> (Option<StorageError>, StorageView) {
    match action {
        Action::CreateRepository => (None, s.with_layout(p.repo_path)),
        Action::Acknowledge => (None, s),
        Action::RemoveRepository => (
            failure_of(s.remove_repository(p.repo_path).0),
            s.remove_repository(p.repo_path).1,
        ),
        Action::List => (None, s),
        Action::Stat => (
            if s.objects.contains_key(p) {
                None
            } else {
                Some(StorageError::NotFound)
            },
            s,
        ),
        Action::Fetch => (failure_of(s.read(p, range)), s),
        Action::Create => (failure_of(s.write_new(p, body).0), s.write_new(p, body).1),
        Action::SaveConfig => (
            failure_of(s.write_overwrite(p, body).0),
            s.write_overwrite(p, body).1,
        ),
        Action::Delete => (failure_of(s.delete(p).0), s.delete(p).1),
    }
}

/// Whether `body` is what the response to an operation carries, the store
/// being in state `s` before it: the bytes read for a fetch, the size for
/// a request for it, the ids of the collection, each once, for a listing
/// by GET, and nothing in every other case and after every failure.
pub open spec fn body_fits(
    body: Body,
    s: StorageView,
    p: ArchivePathView,
    action: Action,
    method: Method,
    range: Option<(u64, u64)>,
) -> bool {
    match action {
        Action::Fetch => match s.read(p, range) {
            Ok(bytes) => body matches Body::Bytes(b) && b@ == bytes,
            Err(_) => body is Empty,
        },
        Action::Stat => if s.objects.contains_key(p) {
            body matches Body::Size(n) && n == s.objects[p].len()
        } else {
            body is Empty
        },
        Action::List => if method == Method::Get {
            body matches Body::Names(names) && texts(names@).no_duplicates() && forall|
                id: Seq<char>,
            |
                texts(names@).contains(id) <==> s.has_name(p.repo_path, p.tpe, id)
        } else {
            body is Empty
        },
        _ => body is Empty,
    }
}

/// Creating the same object twice answers the second request with
/// `Conflict`, whatever either wants to store, and leaves what the first
/// one stored.
pub proof fn law_second_create_conflicts(
    s: StorageView,
    p: ArchivePathView,
    first: Seq<u8>,
    second: Seq<u8>,
)
    requires
        p.is_object(),
        !s.objects.contains_key(p),
    ensures
        status_of(Action::Create, false, run(s, p, Action::Create, None, first).0)
            == Status::Success,
        status_of(
            Action::Create,
            false,
            run(run(s, p, Action::Create, None, first).1, p, Action::Create, None, second).0,
        ) == Status::Conflict,
        run(run(s, p, Action::Create, None, first).1, p, Action::Create, None, second).1.objects[p]
            == first,
{
}

/// A repository that was just created can be removed, and nothing is
/// left of it then.
pub proof fn law_created_repository_can_be_removed(s: StorageView, p: ArchivePathView)
    ensures
        run(
            run(s, p, Action::CreateRepository, None, Seq::empty()).1,
            p,
            Action::RemoveRepository,
            None,
            Seq::empty(),
        ).0 is None,
        !run(
            run(s, p, Action::CreateRepository, None, Seq::empty()).1,
            p,
            Action::RemoveRepository,
            None,
            Seq::empty(),
        ).1.has_root(p.repo_path),
{
    let made = run(s, p, Action::CreateRepository, None, Seq::empty()).1;
    let d = (p.repo_path, ObjectType::Data);
    assert(made.dirs.contains(d));
    assert(p.repo_path.take(p.repo_path.len() as int) =~= p.repo_path);
    assert(crate::text::is_prefix_of(p.repo_path, d.0));
    assert(made.has_root(p.repo_path));
}

/// Whether `result` is what a store in state `s` hands back for an
/// operation: the bytes read for a fetch, the size for a request for it,
/// the ids of the collection, each once, for a listing, nothing for every
/// other operation, and the failure where the operation fails.
pub open spec fn result_fits(
    result: Result<Body, StorageError>,
    s: StorageView,
    p: ArchivePathView,
    action: Action,
    range: Option<(u64, u64)>,
    body: Seq<u8>,
) -> bool {
    &&& failure_of(result) == run(s, p, action, range, body).0
    &&& result matches Ok(handed) ==> match action {
        Action::Fetch => handed matches Body::Bytes(b) && Ok::<Seq<u8>, StorageError>(b@)
            == s.read(p, range),
        Action::Stat => handed matches Body::Size(n) && n == s.objects[p].len(),
        Action::List => handed matches Body::Names(names) && texts(names@).no_duplicates()
            && forall|id: Seq<char>|
            texts(names@).contains(id) <==> s.has_name(p.repo_path, p.tpe, id),
        _ => handed is Empty,
    }
}

/// What the response to a request carries, given what the store handed
/// back: nothing after a failure; for HEAD nothing but a size; else what
/// the store handed back.
pub open spec fn body_of(method: Method, result: Result<Body, StorageError>) -> Body {
    match result {
        Ok(handed) => if method == Method::Head && !(handed is Size) {
            Body::Empty
        } else {
            handed
        },
        Err(_) => Body::Empty,
    }
}

/// Answers a request whose operation has been run: `result` is what the
/// store handed back, `ranged` whether the request asked for a byte range.
pub fn respond(action: Action, method: Method, ranged: bool, result: Result<Body, StorageError>)
    -> (r: Response)
    ensures
        r.status == status_of(action, ranged, failure_of(result)),
        r.body == body_of(method, result),
{
    match result {
        Ok(handed) => {
            let status = outcome_status(action, ranged, None);
            let head = match method {
                Method::Head => true,
                _ => false,
            };
            let body = match handed {
                Body::Size(n) => Body::Size(n),
                other => if head {
                    Body::Empty
                } else {
                    other
                },
            };
            Response { status, body }
        },
        Err(e) => Response { status: outcome_status(action, ranged, Some(e)), body: Body::Empty },
    }
}

/// Runs the planned operation on a store in memory.
pub fn perform(
    storage: &mut MemoryStorage,
    plan: &Plan,
    range: Option<(u64, u64)>,
    body: Vec<u8>,
) -> (r: Result<Body, StorageError>)
    ensures
        final(storage)@ == run(old(storage)@, plan.path@, plan.action, range, body@).1,
        result_fits(r, old(storage)@, plan.path@, plan.action, range, body@),
{
    match plan.action {
        Action::CreateRepository => match storage.create_repository_layout(&plan.path) {
            Ok(_) => Ok(Body::Empty),
            Err(e) => Err(e),
        },
        Action::Acknowledge => Ok(Body::Empty),
        Action::RemoveRepository => match storage.remove_repository(&plan.path) {
            Ok(_) => Ok(Body::Empty),
            Err(e) => Err(e),
        },
        Action::List => Ok(Body::Names(storage.list(&plan.path))),
        Action::Stat => match storage.size(&plan.path) {
            Some(n) => Ok(Body::Size(n)),
            None => Err(StorageError::NotFound),
        },
        Action::Fetch => match storage.read(&plan.path, range) {
            Ok(bytes) => Ok(Body::Bytes(bytes)),
            Err(e) => Err(e),
        },
        Action::Create => match storage.write_new(&plan.path, body) {
            Ok(_) => Ok(Body::Empty),
            Err(e) => Err(e),
        },
        Action::SaveConfig => match storage.write_overwrite(&plan.path, body) {
            Ok(_) => Ok(Body::Empty),
            Err(e) => Err(e),
        },
        Action::Delete => match storage.delete(&plan.path) {
            Ok(_) => Ok(Body::Empty),
            Err(e) => Err(e),
        },
    }
}

/// Answers a request on a store in memory: a request that the gateway
/// refuses gets the refusing status and leaves the store as it is; any
/// other gets its operation run.
pub fn serve(gateway: &Gateway, storage: &mut MemoryStorage, request: Request) -> (r: Response)
    ensures
        match gateway.planned(
            request.method,
            request.path@,
            request.create,
            offered(request.credentials),
        ) {
            Err(status) => r.status == status && r.body is Empty && final(storage)@ == old(
                storage,
            )@,
            Ok((p, action)) => {
                &&& final(storage)@ == run(old(storage)@, p, action, request.range, request.body@).1
                &&& r.status == status_of(
                    action,
                    request.range is Some,
                    run(old(storage)@, p, action, request.range, request.body@).0,
                )
                &&& body_fits(r.body, old(storage)@, p, action, request.method, request.range)
            },
        },
{
    let credentials: Option<&Login> = match &request.credentials {
        Some(c) => Some(c),
        None => None,
    };
    assert(presented(credentials) == offered(request.credentials));
    match gateway.plan(request.method, request.path.as_str(), request.create, credentials) {
        Ok(plan) => {
            let result = perform(storage, &plan, request.range, request.body);
            respond(plan.action, request.method, request.range.is_some(), result)
        },
        Err(status) => Response { status, body: Body::Empty },
    }
}

/// Answers a POST to a repository root: with `create` it makes the
/// directories of the repository, without it nothing. Whoever asks needs
/// `Modify` on the repository either way. A path that is not a repository
/// root is a bad request here.
pub fn create_repository(
    gateway: &Gateway,
    storage: &mut MemoryStorage,
    credentials: Option<&Login>,
    path: &str,
    create: bool,
) -> (r: Status)
    ensures
        match gateway.planned(Method::Post, path@, create, presented(credentials)) {
            Err(status) => r == status && final(storage)@ == old(storage)@,
            Ok((p, action)) => if action == Action::CreateRepository {
                r == Status::Success && final(storage)@ == old(storage)@.with_layout(p.repo_path)
            } else if action == Action::Acknowledge {
                r == Status::Success && final(storage)@ == old(storage)@
            } else {
                r == Status::BadRequest && final(storage)@ == old(storage)@
            },
        },
{
    match gateway.plan(Method::Post, path, create, credentials) {
        Ok(plan) => match plan.action {
            Action::CreateRepository => match storage.create_repository_layout(&plan.path) {
                Ok(_) => Status::Success,
                Err(e) => outcome_status(plan.action, false, Some(e)),
            },
            Action::Acknowledge => Status::Success,
            _ => Status::BadRequest,
        },
        Err(status) => status,
    }
}

/// Answers a DELETE of a repository root: it removes the repository with
/// all it holds. Whoever asks needs `Modify` on the repository. A path
/// that is not a repository root is a bad request here; a repository that
/// does not exist is a failure of the store.
pub fn delete_repository(
    gateway: &Gateway,
    storage: &mut MemoryStorage,
    credentials: Option<&Login>,
    path: &str,
) -> (r: Status)
    ensures
        match gateway.planned(Method::Delete, path@, false, presented(credentials)) {
            Err(status) => r == status && final(storage)@ == old(storage)@,
            Ok((p, action)) => if action == Action::RemoveRepository {
                &&& r == status_of(
                    action,
                    false,
                    failure_of(old(storage)@.remove_repository(p.repo_path).0),
                )
                &&& final(storage)@ == old(storage)@.remove_repository(p.repo_path).1
            } else {
                r == Status::BadRequest && final(storage)@ == old(storage)@
            },
        },
{
    match gateway.plan(Method::Delete, path, false, credentials) {
        Ok(plan) => match plan.action {
            Action::RemoveRepository => {
                let failure = storage.remove_repository(&plan.path).err();
                outcome_status(plan.action, false, failure)
            },
            _ => Status::BadRequest,
        },
        Err(status) => status,
    }
}

} // verus!
