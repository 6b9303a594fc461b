//! Routing and per-request dispatch.
//!
//! One request is served as a small session: the frame payload is parsed
//! and validated, and each step hands the surrounding loop an [`Action`] to
//! perform — a backend call, a file move, or the reply to write.  Every
//! failure along the way turns into exactly one error reply on the same
//! connection; nothing here ever ends the connection itself.  The loop
//! around it performs one action at a time, so a connection's requests are
//! strictly sequential and responses keep request order.

use vstd::prelude::*;
use crate::protocol::{
    ReqErrorKind, Request, RequestV, Response, ResponseV, deep_bytes, opt_bytes, parse_request,
    req_spec, encode_response, response_bytes,
};

verus! {

broadcast use vstd::std_specs::vec::group_vec_axioms, vstd::seq::group_seq_axioms;

// ---------------------------------------------------------------------------
// Configuration.
// ---------------------------------------------------------------------------
/// The service configuration the bridge works against, at the
/// specification level.
pub struct ConfigV {
    pub download_directory: Seq<u8>,
    pub download_subdirectory: Seq<u8>,
    pub save_file_directory: Seq<u8>,
    pub allowed_origins: Seq<Seq<u8>>,
    pub allowed_extensions: Seq<Seq<u8>>,
}

/// The service configuration the bridge works against: where downloads
/// arrive, where registered files live, and which extension origins may
/// talk to the bridge.
pub struct Config {
    pub download_directory: Vec<u8>,
    pub download_subdirectory: Vec<u8>,
    pub save_file_directory: Vec<u8>,
    pub allowed_origins: Vec<Vec<u8>>,
    pub allowed_extensions: Vec<Vec<u8>>,
}

impl Config {
    /// The specification-level configuration this value stands for.
    pub open spec fn v(self) -> ConfigV {
        ConfigV {
            download_directory: self.download_directory@,
            download_subdirectory: self.download_subdirectory@,
            save_file_directory: self.save_file_directory@,
            allowed_origins: deep_bytes(self.allowed_origins@),
            allowed_extensions: deep_bytes(self.allowed_extensions@),
        }
    }
}

/// Whether `origin` is one of the allowed origins.
pub open spec fn origin_allowed_spec(cfg: ConfigV, origin: Seq<u8>) -> bool {
    exists|i: int| 0 <= i < cfg.allowed_origins.len() && cfg.allowed_origins[i] == origin
}

/// Checks whether `origin` is one of the configured allowed origins; a
/// request from any other origin is refused before the loop starts.
pub fn origin_allowed(cfg: &Config, origin: &Vec<u8>) -> (r: bool)
    ensures
        r == origin_allowed_spec(cfg.v(), origin@),
{
    let mut i: usize = 0;
    while i < cfg.allowed_origins.len()
        invariant
            i <= cfg.allowed_origins@.len(),
            forall|k: int|
                0 <= k < i ==> deep_bytes(cfg.allowed_origins@)[k] != origin@,
        decreases cfg.allowed_origins@.len() - i,
    {
        if crate::protocol::eq_bytes(&cfg.allowed_origins[i], origin) {
            proof {
                let ghost co = cfg.v().allowed_origins;
                assert(co[i as int] == origin@);
                assert(origin_allowed_spec(cfg.v(), origin@));
            }
            return true;
        }
        i = i + 1;
    }
    false
}

// ---------------------------------------------------------------------------
// Save-path validation.
// ---------------------------------------------------------------------------
/// Two consecutive dots occur somewhere in the component.
pub open spec fn has_dotdot(c: Seq<u8>) -> bool {
    exists|i: int| 0 <= i && i + 2 <= c.len() && #[trigger] c[i] == 0x2e && c[i + 1] == 0x2e
}

/// A save-path component may not contain a slash, a backslash, or `..`.
pub open spec fn component_ok(c: Seq<u8>) -> bool {
    &&& forall|i: int| 0 <= i < c.len() ==> c[i] != 0x2f && c[i] != 0x5c
    &&& !has_dotdot(c)
}

/// A save path must have at least one component and every component must
/// be acceptable.
pub open spec fn save_path_ok(sp: Seq<Seq<u8>>) -> bool {
    &&& sp.len() > 0
    &&& forall|i: int| 0 <= i < sp.len() ==> component_ok(#[trigger] sp[i])
}

/// Checks one component.
fn check_component(c: &Vec<u8>) -> (r: bool)
    ensures
        r == component_ok(c@),
{
    let mut i: usize = 0;
    while i < c.len()
        invariant
            i <= c@.len(),
            forall|k: int| 0 <= k < i ==> c@[k] != 0x2f && c@[k] != 0x5c,
            forall|k: int| 0 <= k && k + 2 <= c@.len() && k < i ==> !(#[trigger] c@[k] == 0x2e
                && c@[k + 1] == 0x2e),
        decreases c@.len() - i,
    {
        if c[i] == 0x2f || c[i] == 0x5c {
            return false;
        }
        if i + 1 < c.len() && c[i] == 0x2e && c[i + 1] == 0x2e {
            proof {
                assert(has_dotdot(c@));
            }
            return false;
        }
        i = i + 1;
    }
    proof {
        assert(!has_dotdot(c@)) by {
            if has_dotdot(c@) {
                let w = choose|k: int|
                    0 <= k && k + 2 <= c@.len() && #[trigger] c@[k] == 0x2e && c@[k + 1] == 0x2e;
                assert(w < i);
            }
        }
    }
    true
}

/// Checks a whole save path.
pub fn check_save_path(sp: &Vec<Vec<u8>>) -> (r: bool)
    ensures
        r == save_path_ok(deep_bytes(sp@)),
{
    if sp.len() == 0 {
        return false;
    }
    let mut i: usize = 0;
    while i < sp.len()
        invariant
            i <= sp@.len(),
            forall|k: int| 0 <= k < i ==> component_ok(#[trigger] deep_bytes(sp@)[k]),
        decreases sp@.len() - i,
    {
        if !check_component(&sp[i]) {
            proof {
                assert(!component_ok(deep_bytes(sp@)[i as int]));
            }
            return false;
        }
        i = i + 1;
    }
    true
}

// ---------------------------------------------------------------------------
// Path joining.
// ---------------------------------------------------------------------------
/// Components joined with one separator byte between them.
pub open spec fn join_with(parts: Seq<Seq<u8>>, sep: u8) -> Seq<u8>
    decreases parts.len(),
{
    if parts.len() == 0 {
        Seq::empty()
    } else if parts.len() == 1 {
        parts[0]
    } else {
        parts[0] + seq![sep] + join_with(parts.drop_first(), sep)
    }
}

/// Save-path components joined with `/`.
pub open spec fn join_sep(parts: Seq<Seq<u8>>) -> Seq<u8> {
    join_with(parts, 0x2f)
}

/// Appending a component extends the joined path by a separator and the
/// component.
pub proof fn lemma_join_with_snoc(parts: Seq<Seq<u8>>, p: Seq<u8>, sep: u8)
    ensures
        join_with(parts.push(p), sep) == if parts.len() == 0 {
            p
        } else {
            join_with(parts, sep) + seq![sep] + p
        },
    decreases parts.len(),
{
    if parts.len() == 0 {
        assert(parts.push(p)[0] == p);
    } else {
        let q = parts.push(p);
        assert(q[0] == parts[0]);
        assert(q.drop_first() =~= parts.drop_first().push(p));
        lemma_join_with_snoc(parts.drop_first(), p, sep);
        if parts.len() == 1 {
            assert(join_with(parts, sep) == parts[0]);
        } else {
            assert(join_with(parts, sep) + seq![sep] + p =~= parts[0] + seq![sep] + (join_with(
                parts.drop_first(),
                sep,
            ) + seq![sep] + p));
        }
    }
}

/// Joins the first `n` components with one separator byte.
pub fn join_upto(sp: &Vec<Vec<u8>>, n: usize, sep: u8) -> (r: Vec<u8>)
    requires
        n <= sp@.len(),
    ensures
        r@ == join_with(deep_bytes(sp@).take(n as int), sep),
{
    let mut r: Vec<u8> = Vec::new();
    let mut i: usize = 0;
    while i < n
        invariant
            i <= n <= sp@.len(),
            r@ == join_with(deep_bytes(sp@).take(i as int), sep),
        decreases n - i,
    {
        if i > 0 {
            r.push(sep);
        }
        let mut k: usize = 0;
        let ghost mid = r@;
        while k < sp[i].len()
            invariant
                i < sp@.len(),
                k <= sp@[i as int]@.len(),
                r@ == mid + sp@[i as int]@.take(k as int),
            decreases sp@[i as int]@.len() - k,
        {
            r.push(sp[i][k]);
            proof {
                assert(r@ =~= mid + sp@[i as int]@.take(k + 1));
            }
            k = k + 1;
        }
        proof {
            assert(sp@[i as int]@.take(sp@[i as int]@.len() as int) =~= sp@[i as int]@);
            lemma_join_with_snoc(deep_bytes(sp@).take(i as int), deep_bytes(sp@)[i as int], sep);
            assert(deep_bytes(sp@).take(i as int).push(deep_bytes(sp@)[i as int]) =~= deep_bytes(
                sp@,
            ).take(i + 1));
            assert(r@ =~= join_with(deep_bytes(sp@).take(i + 1), sep));
        }
        i = i + 1;
    }
    r
}

/// A base directory and a relative path, joined with a single `/` unless
/// the base is empty or already ends with one.
pub open spec fn path_join(base: Seq<u8>, rel: Seq<u8>) -> Seq<u8> {
    if base.len() == 0 {
        rel
    } else if base[base.len() - 1] == 0x2f {
        base + rel
    } else {
        base + seq![0x2fu8] + rel
    }
}

/// Joins a base directory and a relative path.
pub fn path_join_exec(base: &Vec<u8>, rel: &Vec<u8>) -> (r: Vec<u8>)
    ensures
        r@ == path_join(base@, rel@),
{
    let mut r = crate::protocol::clone_bytes(base);
    if base.len() > 0 && base[base.len() - 1] != 0x2f {
        r.push(0x2f);
    }
    let ghost mid = r@;
    let mut k: usize = 0;
    while k < rel.len()
        invariant
            k <= rel@.len(),
            r@ == mid + rel@.take(k as int),
        decreases rel@.len() - k,
    {
        r.push(rel[k]);
        proof {
            assert(r@ =~= mid + rel@.take(k + 1));
        }
        k = k + 1;
    }
    proof {
        assert(rel@.take(rel@.len() as int) =~= rel@);
        assert(r@ =~= path_join(base@, rel@));
    }
    r
}

// ---------------------------------------------------------------------------
// Error messages.
// ---------------------------------------------------------------------------
/// The message of the reply to a frame that is not a protocol message.
pub open spec fn msg_malformed() -> Seq<u8> {
    seq![0x6du8, 0x61, 0x6c, 0x66, 0x6f, 0x72, 0x6d, 0x65, 0x64, 0x20, 0x6d, 0x65, 0x73, 0x73, 0x61, 0x67, 0x65]
}

/// The message of the reply to a message whose type names no operation.
pub open spec fn msg_unknown_type() -> Seq<u8> {
    seq![0x75u8, 0x6e, 0x6b, 0x6e, 0x6f, 0x77, 0x6e, 0x20, 0x6d, 0x65, 0x73, 0x73, 0x61, 0x67, 0x65, 0x20, 0x74, 0x79, 0x70, 0x65]
}

/// The message of the reply to a request whose save path is illegal.
pub open spec fn msg_bad_save_path() -> Seq<u8> {
    seq![0x73u8, 0x61, 0x76, 0x65, 0x50, 0x61, 0x74, 0x68, 0x20, 0x6d, 0x75, 0x73, 0x74, 0x20, 0x6e, 0x6f, 0x74, 0x20, 0x63, 0x6f, 0x6e, 0x74, 0x61, 0x69, 0x6e, 0x20, 0x73, 0x6c, 0x61, 0x73, 0x68, 0x65, 0x73, 0x20, 0x6f, 0x72, 0x20, 0x64, 0x6f, 0x74, 0x73, 0x2e]
}

/// The message a rejection kind is reported with.
pub open spec fn rejection_msg(kind: ReqErrorKind) -> Seq<u8> {
    match kind {
        ReqErrorKind::Malformed => msg_malformed(),
        ReqErrorKind::UnknownType => msg_unknown_type(),
    }
}

fn msg_malformed_vec() -> (r: Vec<u8>)
    ensures
        r@ == msg_malformed(),
{
    let r: Vec<u8> = vec![0x6d, 0x61, 0x6c, 0x66, 0x6f, 0x72, 0x6d, 0x65, 0x64, 0x20, 0x6d, 0x65, 0x73, 0x73, 0x61, 0x67, 0x65];
    proof {
        assert(r@ =~= msg_malformed());
    }
    r
}

fn msg_unknown_type_vec() -> (r: Vec<u8>)
    ensures
        r@ == msg_unknown_type(),
{
    let r: Vec<u8> = vec![0x75, 0x6e, 0x6b, 0x6e, 0x6f, 0x77, 0x6e, 0x20, 0x6d, 0x65, 0x73, 0x73, 0x61, 0x67, 0x65, 0x20, 0x74, 0x79, 0x70, 0x65];
    proof {
        assert(r@ =~= msg_unknown_type());
    }
    r
}

fn msg_bad_save_path_vec() -> (r: Vec<u8>)
    ensures
        r@ == msg_bad_save_path(),
{
    let r: Vec<u8> = vec![0x73, 0x61, 0x76, 0x65, 0x50, 0x61, 0x74, 0x68, 0x20, 0x6d, 0x75, 0x73, 0x74, 0x20, 0x6e, 0x6f, 0x74, 0x20, 0x63, 0x6f, 0x6e, 0x74, 0x61, 0x69, 0x6e, 0x20, 0x73, 0x6c, 0x61, 0x73, 0x68, 0x65, 0x73, 0x20, 0x6f, 0x72, 0x20, 0x64, 0x6f, 0x74, 0x73, 0x2e];
    proof {
        assert(r@ =~= msg_bad_save_path());
    }
    r
}

/// The bytes of an error reply.
pub open spec fn err_reply(id: Option<Seq<u8>>, msg: Seq<u8>) -> Seq<u8> {
    response_bytes(id, ResponseV::Failure { message: msg })
}


// ---------------------------------------------------------------------------
// The per-request session.
// ---------------------------------------------------------------------------
/// What the loop around the dispatcher must do next, at the specification
/// level.
pub enum ActionV {
    /// Write this payload as one response frame, then read the next frame.
    Reply { payload: Seq<u8> },
    /// Ask the backend for the configuration.
    GetConfig,
    /// Ask the backend which of these keys are known.
    GetFileStates { keys: Seq<Seq<u8>> },
    /// Create `dest_dir` (and its parents) and move `source` to `dest`.
    MoveFile { source: Seq<u8>, dest_dir: Seq<u8>, dest: Seq<u8> },
    /// Register the moved file with the backend.
    RegisterFile { path: Seq<u8>, key: Seq<u8> },
}

/// What the loop around the dispatcher must do next.
pub enum Action {
    /// Write this payload as one response frame, then read the next frame.
    Reply { payload: Vec<u8> },
    /// Ask the backend for the configuration.
    GetConfig,
    /// Ask the backend which of these keys are known.
    GetFileStates { keys: Vec<Vec<u8>> },
    /// Create `dest_dir` (and its parents) and move `source` to `dest`.
    MoveFile { source: Vec<u8>, dest_dir: Vec<u8>, dest: Vec<u8> },
    /// Register the moved file with the backend.
    RegisterFile { path: Vec<u8>, key: Vec<u8> },
}

impl Action {
    /// The specification-level action this value stands for.
    pub open spec fn v(self) -> ActionV {
        match self {
            Action::Reply { payload } => ActionV::Reply { payload: payload@ },
            Action::GetConfig => ActionV::GetConfig,
            Action::GetFileStates { keys } => ActionV::GetFileStates { keys: deep_bytes(keys@) },
            Action::MoveFile { source, dest_dir, dest } => ActionV::MoveFile {
                source: source@,
                dest_dir: dest_dir@,
                dest: dest@,
            },
            Action::RegisterFile { path, key } => ActionV::RegisterFile {
                path: path@,
                key: key@,
            },
        }
    }
}

/// Where a request stands between two actions, at the specification level.
pub enum PendingV {
    /// The request is answered; the loop reads the next frame.
    Done,
    /// The configuration was requested from the backend.
    AwaitingConfig { id: Option<Seq<u8>> },
    /// The file states were requested from the backend.
    AwaitingStates { id: Option<Seq<u8>> },
    /// The file move was handed out; `path` and `key` wait for
    /// registration.
    AwaitingMove { id: Option<Seq<u8>>, path: Seq<u8>, key: Seq<u8> },
    /// The registration call was handed out.
    AwaitingRegister { id: Option<Seq<u8>> },
}

/// Where a request stands between two actions.
pub enum Pending {
    /// The request is answered; the loop reads the next frame.
    Done,
    /// The configuration was requested from the backend.
    AwaitingConfig { id: Option<Vec<u8>> },
    /// The file states were requested from the backend.
    AwaitingStates { id: Option<Vec<u8>> },
    /// The file move was handed out; `path` and `key` wait for
    /// registration.
    AwaitingMove { id: Option<Vec<u8>>, path: Vec<u8>, key: Vec<u8> },
    /// The registration call was handed out.
    AwaitingRegister { id: Option<Vec<u8>> },
}

impl Pending {
    /// The specification-level state this value stands for.
    pub open spec fn v(self) -> PendingV {
        match self {
            Pending::Done => PendingV::Done,
            Pending::AwaitingConfig { id } => PendingV::AwaitingConfig { id: opt_bytes(id) },
            Pending::AwaitingStates { id } => PendingV::AwaitingStates { id: opt_bytes(id) },
            Pending::AwaitingMove { id, path, key } => PendingV::AwaitingMove {
                id: opt_bytes(id),
                path: path@,
                key: key@,
            },
            Pending::AwaitingRegister { id } => PendingV::AwaitingRegister { id: opt_bytes(id) },
        }
    }
}

/// The correlation id a pending request carries.
pub open spec fn pending_id(p: PendingV) -> Option<Seq<u8>> {
    match p {
        PendingV::Done => None,
        PendingV::AwaitingConfig { id } => id,
        PendingV::AwaitingStates { id } => id,
        PendingV::AwaitingMove { id, .. } => id,
        PendingV::AwaitingRegister { id } => id,
    }
}

/// How one incoming frame starts a session: a rejection is answered at
/// once; `config` and `fetch_file_states` go to the backend; a
/// `register_file` request is validated first, and only a valid one
/// produces a filesystem action.
pub open spec fn on_frame_spec(cfg: ConfigV, payload: Seq<u8>) -> (PendingV, ActionV) {
    match req_spec(payload) {
        Err(f) => (
            PendingV::Done,
            ActionV::Reply { payload: err_reply(f.id, rejection_msg(f.kind)) },
        ),
        Ok(env) => match env.req {
            RequestV::Config => (PendingV::AwaitingConfig { id: env.id }, ActionV::GetConfig),
            RequestV::FetchFileStates { query } => (
                PendingV::AwaitingStates { id: env.id },
                ActionV::GetFileStates { keys: query },
            ),
            RequestV::RegisterFile { download_path, save_path, key } => if !save_path_ok(
                save_path,
            ) {
                (PendingV::Done, ActionV::Reply { payload: err_reply(env.id, msg_bad_save_path()) })
            } else {
                let joined = join_sep(save_path);
                (
                    PendingV::AwaitingMove { id: env.id, path: joined, key },
                    ActionV::MoveFile {
                        source: path_join(cfg.download_directory, download_path),
                        dest_dir: path_join(
                            cfg.save_file_directory,
                            join_sep(save_path.take(save_path.len() - 1)),
                        ),
                        dest: path_join(cfg.save_file_directory, joined),
                    },
                )
            },
        },
    }
}

/// Serves requests against one configuration.  The dispatcher itself never
/// changes: a failed request leaves it as able to serve the next frame as
/// before.
pub struct Dispatcher {
    pub config: Config,
}

impl Dispatcher {
    /// A dispatcher for this configuration.
    pub fn new(config: Config) -> (r: Dispatcher)
        ensures
            r.config == config,
    {
        Dispatcher { config }
    }

    /// Starts a session for one frame payload, exactly as
    /// [`on_frame_spec`] describes.  A frame that is rejected — malformed,
    /// of unknown type, or with an illegal save path — is answered with
    /// exactly one error reply and no other action, so the connection
    /// stays usable and no filesystem or backend work happens for it.
    pub fn on_frame(&self, payload: &Vec<u8>) -> (r: (Pending, Action))
        ensures
            (r.0.v(), r.1.v()) == on_frame_spec(self.config.v(), payload@),
    {
        let env = match parse_request(payload) {
            Err(e) => {
                let msg = match e.kind {
                    ReqErrorKind::Malformed => msg_malformed_vec(),
                    ReqErrorKind::UnknownType => msg_unknown_type_vec(),
                };
                let payload = encode_response(&e.id, &Response::Failure { message: msg });
                return (Pending::Done, Action::Reply { payload });
            },
            Ok(env) => env,
        };
        match env.req {
            Request::Config => (Pending::AwaitingConfig { id: env.id }, Action::GetConfig),
            Request::FetchFileStates { query } => (
                Pending::AwaitingStates { id: env.id },
                Action::GetFileStates { keys: query },
            ),
            Request::RegisterFile { download_path, save_path, key } => {
                if !check_save_path(&save_path) {
                    let payload = encode_response(
                        &env.id,
                        &Response::Failure { message: msg_bad_save_path_vec() },
                    );
                    return (Pending::Done, Action::Reply { payload });
                }
                let joined = join_upto(&save_path, save_path.len(), 0x2f);
                proof {
                    assert(deep_bytes(save_path@).take(save_path@.len() as int) =~= deep_bytes(
                        save_path@,
                    ));
                }
                let parent = join_upto(&save_path, save_path.len() - 1, 0x2f);
                let source = path_join_exec(&self.config.download_directory, &download_path);
                let dest_dir = path_join_exec(&self.config.save_file_directory, &parent);
                let dest = path_join_exec(&self.config.save_file_directory, &joined);
                (
                    Pending::AwaitingMove { id: env.id, path: joined, key },
                    Action::MoveFile { source, dest_dir, dest },
                )
            },
        }
    }

    /// Answers a `config` request from the backend's configuration,
    /// projecting the download subdirectory.
    pub fn on_config(&self, p: Pending, download_subdirectory: &Vec<u8>) -> (r: (Pending, Action))
        requires
            p is AwaitingConfig,
        ensures
            r.0 is Done,
            r.1.v() == (ActionV::Reply {
                payload: response_bytes(
                    pending_id(p.v()),
                    ResponseV::Config { download_subdirectory: download_subdirectory@ },
                ),
            }),
    {
        let id = match p {
            Pending::AwaitingConfig { id } => id,
            _ => {
                return (Pending::Done, Action::GetConfig);  // unreachable under the requires
            },
        };
        let payload = encode_response(
            &id,
            &Response::Config {
                download_subdirectory: crate::protocol::clone_bytes(download_subdirectory),
            },
        );
        (Pending::Done, Action::Reply { payload })
    }

    /// Answers a `fetch_file_states` request from the backend's
    /// index-aligned answer.
    pub fn on_file_states(&self, p: Pending, result: Vec<bool>) -> (r: (Pending, Action))
        requires
            p is AwaitingStates,
        ensures
            r.0 is Done,
            r.1.v() == (ActionV::Reply {
                payload: response_bytes(
                    pending_id(p.v()),
                    ResponseV::FetchFileStates { result: result@ },
                ),
            }),
    {
        let id = match p {
            Pending::AwaitingStates { id } => id,
            _ => {
                return (Pending::Done, Action::GetConfig);  // unreachable under the requires
            },
        };
        let payload = encode_response(&id, &Response::FetchFileStates { result });
        (Pending::Done, Action::Reply { payload })
    }

    /// After a successful move, hands out the registration call.  The
    /// move-then-register sequence is deliberately not transactional: a
    /// registration failure after a successful move leaves the file moved,
    /// a known limitation of the protocol.
    pub fn on_moved(&self, p: Pending) -> (r: (Pending, Action))
        requires
            p is AwaitingMove,
        ensures
            r.0.v() == (PendingV::AwaitingRegister { id: pending_id(p.v()) }),
            p.v() matches PendingV::AwaitingMove { id, path, key } ==> r.1.v() == (
            ActionV::RegisterFile { path, key }),
    {
        let (id, path, key) = match p {
            Pending::AwaitingMove { id, path, key } => (id, path, key),
            _ => {
                return (Pending::Done, Action::GetConfig);  // unreachable under the requires
            },
        };
        (Pending::AwaitingRegister { id }, Action::RegisterFile { path, key })
    }

    /// Answers a `register_file` request from the backend's record id.
    pub fn on_registered(&self, p: Pending, file_id: i64) -> (r: (Pending, Action))
        requires
            p is AwaitingRegister,
        ensures
            r.0 is Done,
            r.1.v() == (ActionV::Reply {
                payload: response_bytes(
                    pending_id(p.v()),
                    ResponseV::RegisterFile { id: file_id },
                ),
            }),
    {
        let id = match p {
            Pending::AwaitingRegister { id } => id,
            _ => {
                return (Pending::Done, Action::GetConfig);  // unreachable under the requires
            },
        };
        let payload = encode_response(&id, &Response::RegisterFile { id: file_id });
        (Pending::Done, Action::Reply { payload })
    }

    /// Answers the request with an error reply when any handed-out step —
    /// a backend call or the file move — failed.  The failure is
    /// per-request: the session ends with one reply and the connection
    /// loop goes on.
    pub fn on_step_failed(&self, p: Pending, message: Vec<u8>) -> (r: (Pending, Action))
        requires
            !(p is Done),
        ensures
            r.0 is Done,
            r.1.v() == (ActionV::Reply { payload: err_reply(pending_id(p.v()), message@) }),
    {
        let id = match p {
            Pending::AwaitingConfig { id } => id,
            Pending::AwaitingStates { id } => id,
            Pending::AwaitingMove { id, .. } => id,
            Pending::AwaitingRegister { id } => id,
            Pending::Done => None,
        };
        let payload = encode_response(&id, &Response::Failure { message });
        (Pending::Done, Action::Reply { payload })
    }
}

} // verus!
