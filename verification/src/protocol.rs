//! The request/response protocol the bridge speaks.
//!
//! A request is a JSON object `{"type": ..., "data": ..., "id"?: ...}`; the
//! response mirrors the shape, with `"id"` echoed when the request carried
//! one.  This module maps parsed JSON values to typed requests and typed
//! responses back to JSON bytes, both pinned by specification functions.

use vstd::prelude::*;
use crate::json::{
    Json, JsonV, json_parse, parse_json, ser, to_json_bytes,
};
use crate::utf8::{check_utf8, is_utf8};

verus! {

broadcast use vstd::std_specs::vec::group_vec_axioms, vstd::seq::group_seq_axioms;

// ---------------------------------------------------------------------------
// Field keys and type tags, as byte sequences.
// ---------------------------------------------------------------------------
/// The key `"type"`.
pub open spec fn k_type() -> Seq<u8> {
    seq![0x74u8, 0x79, 0x70, 0x65]
}

/// The key `"data"`.
pub open spec fn k_data() -> Seq<u8> {
    seq![0x64u8, 0x61, 0x74, 0x61]
}

/// The key `"id"`.
pub open spec fn k_id() -> Seq<u8> {
    seq![0x69u8, 0x64]
}

/// The key `"query"`.
pub open spec fn k_query() -> Seq<u8> {
    seq![0x71u8, 0x75, 0x65, 0x72, 0x79]
}

/// The key `"downloadPath"`.
pub open spec fn k_download_path() -> Seq<u8> {
    seq![0x64u8, 0x6f, 0x77, 0x6e, 0x6c, 0x6f, 0x61, 0x64, 0x50, 0x61, 0x74, 0x68]
}

/// The key `"savePath"`.
pub open spec fn k_save_path() -> Seq<u8> {
    seq![0x73u8, 0x61, 0x76, 0x65, 0x50, 0x61, 0x74, 0x68]
}

/// The key `"key"`.
pub open spec fn k_key() -> Seq<u8> {
    seq![0x6bu8, 0x65, 0x79]
}

/// The key `"downloadSubdirectory"`.
pub open spec fn k_download_subdirectory() -> Seq<u8> {
    seq![
        0x64u8,
        0x6f,
        0x77,
        0x6e,
        0x6c,
        0x6f,
        0x61,
        0x64,
        0x53,
        0x75,
        0x62,
        0x64,
        0x69,
        0x72,
        0x65,
        0x63,
        0x74,
        0x6f,
        0x72,
        0x79,
    ]
}

/// The key `"result"`.
pub open spec fn k_result() -> Seq<u8> {
    seq![0x72u8, 0x65, 0x73, 0x75, 0x6c, 0x74]
}

/// The tag `"config"`.
pub open spec fn tag_config() -> Seq<u8> {
    seq![0x63u8, 0x6f, 0x6e, 0x66, 0x69, 0x67]
}

/// The tag `"fetch_file_states"`.
pub open spec fn tag_fetch_file_states() -> Seq<u8> {
    seq![
        0x66u8,
        0x65,
        0x74,
        0x63,
        0x68,
        0x5f,
        0x66,
        0x69,
        0x6c,
        0x65,
        0x5f,
        0x73,
        0x74,
        0x61,
        0x74,
        0x65,
        0x73,
    ]
}

/// The tag `"register_file"`.
pub open spec fn tag_register_file() -> Seq<u8> {
    seq![0x72u8, 0x65, 0x67, 0x69, 0x73, 0x74, 0x65, 0x72, 0x5f, 0x66, 0x69, 0x6c, 0x65]
}

/// The tag `"err"`.
pub open spec fn tag_err() -> Seq<u8> {
    seq![0x65u8, 0x72, 0x72]
}

// ---------------------------------------------------------------------------
// Typed requests.
// ---------------------------------------------------------------------------
/// A request, at the specification level.
pub enum RequestV {
    Config,
    FetchFileStates { query: Seq<Seq<u8>> },
    RegisterFile { download_path: Seq<u8>, save_path: Seq<Seq<u8>>, key: Seq<u8> },
}

/// A request plus its optional correlation id.
pub struct EnvelopeV {
    pub id: Option<Seq<u8>>,
    pub req: RequestV,
}

/// Why a frame was rejected before routing.
#[derive(Clone, Copy, Debug, PartialEq, Eq, Structural)]
pub enum ReqErrorKind {
    /// The frame is not a well-formed message of the protocol.
    Malformed,
    /// The message is well-formed but its `type` names no operation.
    UnknownType,
}

/// A rejection, with the correlation id when one could still be read.
pub struct ReqFailV {
    pub kind: ReqErrorKind,
    pub id: Option<Seq<u8>>,
}

/// A request as executable code holds it.
#[derive(Debug)]
pub enum Request {
    Config,
    FetchFileStates { query: Vec<Vec<u8>> },
    RegisterFile { download_path: Vec<u8>, save_path: Vec<Vec<u8>>, key: Vec<u8> },
}

/// A request plus its optional correlation id, executable form.
#[derive(Debug)]
pub struct Envelope {
    pub id: Option<Vec<u8>>,
    pub req: Request,
}

/// A rejection, executable form.
#[derive(Debug)]
pub struct RequestError {
    pub kind: ReqErrorKind,
    pub id: Option<Vec<u8>>,
}

/// The byte sequences of a list of byte buffers.
pub open spec fn deep_bytes(v: Seq<Vec<u8>>) -> Seq<Seq<u8>> {
    Seq::new(v.len(), |i: int| v[i]@)
}

/// The byte sequence of an optional byte buffer.
pub open spec fn opt_bytes(o: Option<Vec<u8>>) -> Option<Seq<u8>> {
    match o {
        Some(b) => Some(b@),
        None => None,
    }
}

impl Request {
    /// The specification-level request this value stands for.
    pub open spec fn v(self) -> RequestV {
        match self {
            Request::Config => RequestV::Config,
            Request::FetchFileStates { query } => RequestV::FetchFileStates {
                query: deep_bytes(query@),
            },
            Request::RegisterFile { download_path, save_path, key } => RequestV::RegisterFile {
                download_path: download_path@,
                save_path: deep_bytes(save_path@),
                key: key@,
            },
        }
    }
}

impl Envelope {
    /// The specification-level envelope this value stands for.
    pub open spec fn v(self) -> EnvelopeV {
        EnvelopeV { id: opt_bytes(self.id), req: self.req.v() }
    }
}

// ---------------------------------------------------------------------------
// From JSON to a request.
// ---------------------------------------------------------------------------
/// The value of the first member named `key`, if any.
pub open spec fn field_of(fs: Seq<(Seq<u8>, JsonV)>, key: Seq<u8>) -> Option<JsonV>
    decreases fs.len(),
{
    if fs.len() == 0 {
        None
    } else if fs[0].0 == key {
        Some(fs[0].1)
    } else {
        field_of(fs.drop_first(), key)
    }
}

/// The content of a JSON string, empty for any other value.
pub open spec fn str_content(j: JsonV) -> Seq<u8> {
    match j {
        JsonV::Str(b) => b,
        _ => Seq::empty(),
    }
}

/// A JSON string holding well-formed UTF-8.
pub open spec fn is_utf8_str(j: JsonV) -> bool {
    j is Str && is_utf8(str_content(j))
}

/// Every element is a well-formed UTF-8 JSON string.
pub open spec fn is_str_list(es: Seq<JsonV>) -> bool {
    forall|i: int| 0 <= i < es.len() ==> is_utf8_str(#[trigger] es[i])
}

/// The contents of a list of JSON strings.
pub open spec fn str_list(es: Seq<JsonV>) -> Seq<Seq<u8>> {
    Seq::new(es.len(), |i: int| str_content(es[i]))
}

/// The correlation id of a request object: absent or `null` means none, a
/// UTF-8 string is taken as given, anything else rejects the request.
pub open spec fn id_of(fs: Seq<(Seq<u8>, JsonV)>) -> Result<Option<Seq<u8>>, ()> {
    match field_of(fs, k_id()) {
        None => Ok(None),
        Some(JsonV::Null) => Ok(None),
        Some(JsonV::Str(b)) => if is_utf8(b) {
            Ok(Some(b))
        } else {
            Err(())
        },
        Some(_) => Err(()),
    }
}

/// How a parsed JSON document reads as a request.  The object's `type`
/// selects the operation, `data` carries its arguments, `id` is the
/// optional correlation id; unknown extra members are ignored.
pub open spec fn req_of_json(j: JsonV) -> Result<EnvelopeV, ReqFailV> {
    match j {
        JsonV::Obj(fs) => match id_of(fs) {
            Err(_) => Err(ReqFailV { kind: ReqErrorKind::Malformed, id: None }),
            Ok(id) => match field_of(fs, k_type()) {
                Some(JsonV::Str(t)) => if t == tag_config() {
                    Ok(EnvelopeV { id, req: RequestV::Config })
                } else if t == tag_fetch_file_states() {
                    match field_of(fs, k_data()) {
                        Some(JsonV::Obj(dfs)) => match field_of(dfs, k_query()) {
                            Some(JsonV::Arr(es)) => if is_str_list(es) {
                                Ok(
                                    EnvelopeV {
                                        id,
                                        req: RequestV::FetchFileStates { query: str_list(es) },
                                    },
                                )
                            } else {
                                Err(ReqFailV { kind: ReqErrorKind::Malformed, id })
                            },
                            _ => Err(ReqFailV { kind: ReqErrorKind::Malformed, id }),
                        },
                        _ => Err(ReqFailV { kind: ReqErrorKind::Malformed, id }),
                    }
                } else if t == tag_register_file() {
                    match field_of(fs, k_data()) {
                        Some(JsonV::Obj(dfs)) => match (
                            field_of(dfs, k_download_path()),
                            field_of(dfs, k_save_path()),
                            field_of(dfs, k_key()),
                        ) {
                            (Some(dp), Some(JsonV::Arr(es)), Some(ky)) => if is_utf8_str(dp)
                                && is_str_list(es) && is_utf8_str(ky) {
                                Ok(
                                    EnvelopeV {
                                        id,
                                        req: RequestV::RegisterFile {
                                            download_path: str_content(dp),
                                            save_path: str_list(es),
                                            key: str_content(ky),
                                        },
                                    },
                                )
                            } else {
                                Err(ReqFailV { kind: ReqErrorKind::Malformed, id })
                            },
                            _ => Err(ReqFailV { kind: ReqErrorKind::Malformed, id }),
                        },
                        _ => Err(ReqFailV { kind: ReqErrorKind::Malformed, id }),
                    }
                } else {
                    Err(ReqFailV { kind: ReqErrorKind::UnknownType, id })
                },
                _ => Err(ReqFailV { kind: ReqErrorKind::Malformed, id }),
            },
        },
        _ => Err(ReqFailV { kind: ReqErrorKind::Malformed, id: None }),
    }
}

/// How a whole frame payload reads as a request: parsed as JSON, then as a
/// message.
pub open spec fn req_spec(b: Seq<u8>) -> Result<EnvelopeV, ReqFailV> {
    match json_parse(b) {
        None => Err(ReqFailV { kind: ReqErrorKind::Malformed, id: None }),
        Some(j) => req_of_json(j),
    }
}

// ---------------------------------------------------------------------------
// Executable helpers.
// ---------------------------------------------------------------------------
/// Byte buffer equality.
pub fn eq_bytes(a: &Vec<u8>, b: &Vec<u8>) -> (r: bool)
    ensures
        r == (a@ == b@),
{
    if a.len() != b.len() {
        return false;
    }
    let mut i: usize = 0;
    while i < a.len()
        invariant
            a@.len() == b@.len(),
            i <= a@.len(),
            forall|k: int| 0 <= k < i ==> a@[k] == b@[k],
        decreases a@.len() - i,
    {
        if a[i] != b[i] {
            return false;
        }
        i = i + 1;
    }
    proof {
        assert(a@ =~= b@);
    }
    true
}

/// A copy of a byte buffer.
pub fn clone_bytes(v: &Vec<u8>) -> (r: Vec<u8>)
    ensures
        r@ == v@,
{
    let mut r: Vec<u8> = Vec::new();
    let mut i: usize = 0;
    while i < v.len()
        invariant
            i <= v@.len(),
            r@ == v@.take(i as int),
        decreases v@.len() - i,
    {
        r.push(v[i]);
        proof {
            assert(r@ =~= v@.take(i + 1));
        }
        i = i + 1;
    }
    proof {
        assert(v@.take(v@.len() as int) =~= v@);
    }
    r
}

/// The value of the first member named `key`, if any.
fn find_field<'a>(fs: &'a Vec<(Vec<u8>, Json)>, key: &Vec<u8>) -> (r: Option<&'a Json>)
    ensures
        match r {
            Some(j) => field_of(crate::json::fields_v(fs@), key@) == Some(j.v()),
            None => field_of(crate::json::fields_v(fs@), key@) is None,
        },
{
    let ghost fv = crate::json::fields_v(fs@);
    proof {
        crate::json::lemma_fields_v(fs@);
        assert(fv.skip(0) =~= fv);
    }
    let mut i: usize = 0;
    while i < fs.len()
        invariant
            i <= fs@.len(),
            fv == crate::json::fields_v(fs@),
            fv.len() == fs@.len(),
            forall|k: int|
                0 <= k < fs@.len() ==> fv[k] == (#[trigger] fs@[k].0@, fs@[k].1.v()),
            field_of(fv, key@) == field_of(fv.skip(i as int), key@),
        decreases fs@.len() - i,
    {
        proof {
            assert(fv.skip(i as int)[0] == fv[i as int]);
            assert(fv.skip(i as int).drop_first() =~= fv.skip(i + 1));
        }
        if eq_bytes(&fs[i].0, key) {
            return Some(&fs[i].1);
        }
        i = i + 1;
    }
    proof {
        assert(fv.skip(fv.len() as int) =~= Seq::<(Seq<u8>, JsonV)>::empty());
    }
    None
}


/// The key `"type"`, as a buffer.
fn k_type_vec() -> (r: Vec<u8>)
    ensures
        r@ == k_type(),
{
    let r: Vec<u8> = vec![0x74, 0x79, 0x70, 0x65];
    proof {
        assert(r@ =~= k_type());
    }
    r
}


/// The key `"data"`, as a buffer.
fn k_data_vec() -> (r: Vec<u8>)
    ensures
        r@ == k_data(),
{
    let r: Vec<u8> = vec![0x64, 0x61, 0x74, 0x61];
    proof {
        assert(r@ =~= k_data());
    }
    r
}

/// The key `"id"`, as a buffer.
fn k_id_vec() -> (r: Vec<u8>)
    ensures
        r@ == k_id(),
{
    let r: Vec<u8> = vec![0x69, 0x64];
    proof {
        assert(r@ =~= k_id());
    }
    r
}

/// The key `"query"`, as a buffer.
fn k_query_vec() -> (r: Vec<u8>)
    ensures
        r@ == k_query(),
{
    let r: Vec<u8> = vec![0x71, 0x75, 0x65, 0x72, 0x79];
    proof {
        assert(r@ =~= k_query());
    }
    r
}

/// The key `"downloadPath"`, as a buffer.
fn k_download_path_vec() -> (r: Vec<u8>)
    ensures
        r@ == k_download_path(),
{
    let r: Vec<u8> = vec![0x64, 0x6f, 0x77, 0x6e, 0x6c, 0x6f, 0x61, 0x64, 0x50, 0x61, 0x74, 0x68];
    proof {
        assert(r@ =~= k_download_path());
    }
    r
}

/// The key `"savePath"`, as a buffer.
fn k_save_path_vec() -> (r: Vec<u8>)
    ensures
        r@ == k_save_path(),
{
    let r: Vec<u8> = vec![0x73, 0x61, 0x76, 0x65, 0x50, 0x61, 0x74, 0x68];
    proof {
        assert(r@ =~= k_save_path());
    }
    r
}

/// The key `"key"`, as a buffer.
fn k_key_vec() -> (r: Vec<u8>)
    ensures
        r@ == k_key(),
{
    let r: Vec<u8> = vec![0x6b, 0x65, 0x79];
    proof {
        assert(r@ =~= k_key());
    }
    r
}

/// The key `"downloadSubdirectory"`, as a buffer.
fn k_download_subdirectory_vec() -> (r: Vec<u8>)
    ensures
        r@ == k_download_subdirectory(),
{
    let r: Vec<u8> = vec![
        0x64, 0x6f, 0x77, 0x6e, 0x6c, 0x6f, 0x61, 0x64, 0x53, 0x75, 0x62, 0x64, 0x69, 0x72, 0x65,
        0x63, 0x74, 0x6f, 0x72, 0x79,
    ];
    proof {
        assert(r@ =~= k_download_subdirectory());
    }
    r
}

/// The key `"result"`, as a buffer.
fn k_result_vec() -> (r: Vec<u8>)
    ensures
        r@ == k_result(),
{
    let r: Vec<u8> = vec![0x72, 0x65, 0x73, 0x75, 0x6c, 0x74];
    proof {
        assert(r@ =~= k_result());
    }
    r
}

/// The tag `"config"`, as a buffer.
fn tag_config_vec() -> (r: Vec<u8>)
    ensures
        r@ == tag_config(),
{
    let r: Vec<u8> = vec![0x63, 0x6f, 0x6e, 0x66, 0x69, 0x67];
    proof {
        assert(r@ =~= tag_config());
    }
    r
}

/// The tag `"fetch_file_states"`, as a buffer.
fn tag_fetch_file_states_vec() -> (r: Vec<u8>)
    ensures
        r@ == tag_fetch_file_states(),
{
    let r: Vec<u8> = vec![
        0x66, 0x65, 0x74, 0x63, 0x68, 0x5f, 0x66, 0x69, 0x6c, 0x65, 0x5f, 0x73, 0x74, 0x61, 0x74,
        0x65, 0x73,
    ];
    proof {
        assert(r@ =~= tag_fetch_file_states());
    }
    r
}

/// The tag `"register_file"`, as a buffer.
fn tag_register_file_vec() -> (r: Vec<u8>)
    ensures
        r@ == tag_register_file(),
{
    let r: Vec<u8> = vec![
        0x72, 0x65, 0x67, 0x69, 0x73, 0x74, 0x65, 0x72, 0x5f, 0x66, 0x69, 0x6c, 0x65,
    ];
    proof {
        assert(r@ =~= tag_register_file());
    }
    r
}

/// The tag `"err"`, as a buffer.
fn tag_err_vec() -> (r: Vec<u8>)
    ensures
        r@ == tag_err(),
{
    let r: Vec<u8> = vec![0x65, 0x72, 0x72];
    proof {
        assert(r@ =~= tag_err());
    }
    r
}

/// Extracts the contents of a list of UTF-8 JSON strings, or reports that
/// some element is not one.
fn extract_str_list(es: &Vec<Json>) -> (r: Option<Vec<Vec<u8>>>)
    ensures
        match r {
            Some(v) => is_str_list(crate::json::seq_v(es@)) && deep_bytes(v@) == str_list(
                crate::json::seq_v(es@),
            ),
            None => !is_str_list(crate::json::seq_v(es@)),
        },
{
    let ghost ev = crate::json::seq_v(es@);
    proof {
        crate::json::lemma_seq_v(es@);
    }
    let mut out: Vec<Vec<u8>> = Vec::new();
    let mut i: usize = 0;
    while i < es.len()
        invariant
            i <= es@.len(),
            ev == crate::json::seq_v(es@),
            ev.len() == es@.len(),
            forall|k: int| 0 <= k < es@.len() ==> ev[k] == #[trigger] es@[k].v(),
            out@.len() == i,
            forall|k: int| 0 <= k < i ==> is_utf8_str(ev[k]),
            forall|k: int| 0 <= k < i ==> (#[trigger] out@[k])@ == str_content(ev[k]),
        decreases es@.len() - i,
    {
        match &es[i] {
            Json::Str(b) => {
                proof {
                    assert(es@[i as int] == Json::Str(*b));
                    crate::json::lemma_v_shape(es@[i as int]);
                    assert(ev[i as int] == JsonV::Str(b@));
                }
                if !check_utf8(b) {
                    proof {
                        assert(!is_utf8_str(ev[i as int]));
                    }
                    return None;
                }
                out.push(clone_bytes(b));
            },
            _ => {
                proof {
                    crate::json::lemma_v_shape(es@[i as int]);
                    assert(!(ev[i as int] is Str));
                }
                return None;
            },
        }
        i = i + 1;
    }
    proof {
        assert(deep_bytes(out@) =~= str_list(ev));
    }
    Some(out)
}

/// Reads a whole frame payload as a request, exactly as [`req_spec`]
/// describes: the JSON document is parsed and its object mapped to the
/// operation its `type` names.
pub fn parse_request(payload: &Vec<u8>) -> (r: Result<Envelope, RequestError>)
    ensures
        match (r, req_spec(payload@)) {
            (Ok(env), Ok(ev)) => env.v() == ev,
            (Err(e), Err(ef)) => e.kind == ef.kind && opt_bytes(e.id) == ef.id,
            _ => false,
        },
{
    let parsed = parse_json(payload);
    let j = match parsed {
        None => {
            return Err(RequestError { kind: ReqErrorKind::Malformed, id: None });
        },
        Some(j) => j,
    };
    let fs = match &j {
        Json::Obj(fs) => fs,
        _ => {
            return Err(RequestError { kind: ReqErrorKind::Malformed, id: None });
        },
    };
    proof {
        assert(j == Json::Obj(*fs));
    }
    let ghost fv = crate::json::fields_v(fs@);
    let id_key = k_id_vec();
    let id: Option<Vec<u8>> = match find_field(fs, &id_key) {
        None => None,
        Some(jid) => match jid {
            Json::Null => None,
            Json::Str(b) => {
                if !check_utf8(b) {
                    return Err(RequestError { kind: ReqErrorKind::Malformed, id: None });
                }
                Some(clone_bytes(b))
            },
            _ => {
                return Err(RequestError { kind: ReqErrorKind::Malformed, id: None });
            },
        },
    };
    proof {
        assert(id_of(fv) == Ok::<Option<Seq<u8>>, ()>(opt_bytes(id)));
    }
    let type_key = k_type_vec();
    let tv: &Vec<u8> = match find_field(fs, &type_key) {
        Some(jt) => match jt {
            Json::Str(t) => t,
            _ => {
                return Err(RequestError { kind: ReqErrorKind::Malformed, id });
            },
        },
        None => {
            return Err(RequestError { kind: ReqErrorKind::Malformed, id });
        },
    };
    let cfg_tag = tag_config_vec();
    if eq_bytes(tv, &cfg_tag) {
        return Ok(Envelope { id, req: Request::Config });
    }
    let data_key = k_data_vec();
    let fetch_tag = tag_fetch_file_states_vec();
    if eq_bytes(tv, &fetch_tag) {
        let dfs = match find_field(fs, &data_key) {
            Some(jd) => match jd {
                Json::Obj(dfs) => dfs,
                _ => {
                    return Err(RequestError { kind: ReqErrorKind::Malformed, id });
                },
            },
            None => {
                return Err(RequestError { kind: ReqErrorKind::Malformed, id });
            },
        };
        let query_key = k_query_vec();
        let es = match find_field(dfs, &query_key) {
            Some(jq) => match jq {
                Json::Arr(es) => es,
                _ => {
                    return Err(RequestError { kind: ReqErrorKind::Malformed, id });
                },
            },
            None => {
                return Err(RequestError { kind: ReqErrorKind::Malformed, id });
            },
        };
        let query = match extract_str_list(es) {
            Some(q) => q,
            None => {
                return Err(RequestError { kind: ReqErrorKind::Malformed, id });
            },
        };
        return Ok(Envelope { id, req: Request::FetchFileStates { query } });
    }
    let register_tag = tag_register_file_vec();
    if eq_bytes(tv, &register_tag) {
        let dfs = match find_field(fs, &data_key) {
            Some(jd) => match jd {
                Json::Obj(dfs) => dfs,
                _ => {
                    return Err(RequestError { kind: ReqErrorKind::Malformed, id });
                },
            },
            None => {
                return Err(RequestError { kind: ReqErrorKind::Malformed, id });
            },
        };
        let dp_key = k_download_path_vec();
        let sp_key = k_save_path_vec();
        let key_key = k_key_vec();
        let dp = match find_field(dfs, &dp_key) {
            Some(jd) => match jd {
                Json::Str(b) => b,
                _ => {
                    return Err(RequestError { kind: ReqErrorKind::Malformed, id });
                },
            },
            None => {
                return Err(RequestError { kind: ReqErrorKind::Malformed, id });
            },
        };
        let es = match find_field(dfs, &sp_key) {
            Some(js) => match js {
                Json::Arr(es) => es,
                _ => {
                    return Err(RequestError { kind: ReqErrorKind::Malformed, id });
                },
            },
            None => {
                return Err(RequestError { kind: ReqErrorKind::Malformed, id });
            },
        };
        let ky = match find_field(dfs, &key_key) {
            Some(jk) => match jk {
                Json::Str(b) => b,
                _ => {
                    return Err(RequestError { kind: ReqErrorKind::Malformed, id });
                },
            },
            None => {
                return Err(RequestError { kind: ReqErrorKind::Malformed, id });
            },
        };
        if !check_utf8(dp) {
            return Err(RequestError { kind: ReqErrorKind::Malformed, id });
        }
        let save_path = match extract_str_list(es) {
            Some(sp) => sp,
            None => {
                return Err(RequestError { kind: ReqErrorKind::Malformed, id });
            },
        };
        if !check_utf8(ky) {
            return Err(RequestError { kind: ReqErrorKind::Malformed, id });
        }
        return Ok(
            Envelope {
                id,
                req: Request::RegisterFile {
                    download_path: clone_bytes(dp),
                    save_path,
                    key: clone_bytes(ky),
                },
            },
        );
    }
    Err(RequestError { kind: ReqErrorKind::UnknownType, id })
}


// ---------------------------------------------------------------------------
// From a response to JSON bytes.
// ---------------------------------------------------------------------------
/// A response, at the specification level.
pub enum ResponseV {
    Config { download_subdirectory: Seq<u8> },
    FetchFileStates { result: Seq<bool> },
    RegisterFile { id: i64 },
    Failure { message: Seq<u8> },
}

/// A response as executable code builds it.
pub enum Response {
    Config { download_subdirectory: Vec<u8> },
    FetchFileStates { result: Vec<bool> },
    RegisterFile { id: i64 },
    Failure { message: Vec<u8> },
}

impl Response {
    /// The specification-level response this value stands for.
    pub open spec fn v(self) -> ResponseV {
        match self {
            Response::Config { download_subdirectory } => ResponseV::Config {
                download_subdirectory: download_subdirectory@,
            },
            Response::FetchFileStates { result } => ResponseV::FetchFileStates { result: result@ },
            Response::RegisterFile { id } => ResponseV::RegisterFile { id },
            Response::Failure { message } => ResponseV::Failure { message: message@ },
        }
    }
}

/// A list of booleans as JSON values.
pub open spec fn bools_json(bs: Seq<bool>) -> Seq<JsonV> {
    Seq::new(bs.len(), |i: int| JsonV::Bool(bs[i]))
}

/// The type tag a response carries.
pub open spec fn tag_of(r: ResponseV) -> Seq<u8> {
    match r {
        ResponseV::Config { .. } => tag_config(),
        ResponseV::FetchFileStates { .. } => tag_fetch_file_states(),
        ResponseV::RegisterFile { .. } => tag_register_file(),
        ResponseV::Failure { .. } => tag_err(),
    }
}

/// The `data` member a response carries.
pub open spec fn data_json_of(r: ResponseV) -> JsonV {
    match r {
        ResponseV::Config { download_subdirectory } => JsonV::Obj(
            seq![(k_download_subdirectory(), JsonV::Str(download_subdirectory))],
        ),
        ResponseV::FetchFileStates { result } => JsonV::Obj(
            seq![(k_result(), JsonV::Arr(bools_json(result)))],
        ),
        ResponseV::RegisterFile { id: rid } => JsonV::Obj(seq![(k_id(), JsonV::Int(rid))]),
        ResponseV::Failure { message } => JsonV::Str(message),
    }
}

/// The JSON document of a response: `type` names the operation, `data`
/// carries its payload, and `id` echoes the request's correlation id when
/// one was supplied.
pub open spec fn response_json(id: Option<Seq<u8>>, r: ResponseV) -> JsonV {
    let base: Seq<(Seq<u8>, JsonV)> = seq![
        (k_type(), JsonV::Str(tag_of(r))),
        (k_data(), data_json_of(r)),
    ];
    match id {
        None => JsonV::Obj(base),
        Some(idb) => JsonV::Obj(base.push((k_id(), JsonV::Str(idb)))),
    }
}

/// The serialized bytes of a response document.
pub open spec fn response_bytes(id: Option<Seq<u8>>, r: ResponseV) -> Seq<u8> {
    ser(response_json(id, r))
}

/// A list of booleans as executable JSON values.
fn bools_json_vec(bs: &Vec<bool>) -> (r: Vec<Json>)
    ensures
        crate::json::seq_v(r@) == bools_json(bs@),
{
    let mut r: Vec<Json> = Vec::new();
    let mut i: usize = 0;
    while i < bs.len()
        invariant
            i <= bs@.len(),
            r@.len() == i,
            forall|k: int| 0 <= k < i ==> r@[k] == Json::Bool(bs@[k]),
        decreases bs@.len() - i,
    {
        r.push(Json::Bool(bs[i]));
        i = i + 1;
    }
    proof {
        crate::json::lemma_seq_v(r@);
        assert forall|k: int| 0 <= k < r@.len() implies crate::json::seq_v(r@)[k] == bools_json(
            bs@,
        )[k] by {
            crate::json::lemma_v_shape(r@[k]);
        }
        assert(crate::json::seq_v(r@) =~= bools_json(bs@));
    }
    r
}

/// Encodes a response as JSON bytes, exactly as [`response_bytes`]
/// describes.
pub fn encode_response(id: &Option<Vec<u8>>, r: &Response) -> (out: Vec<u8>)
    ensures
        out@ == response_bytes(opt_bytes(*id), r.v()),
{
    let data: Json = match r {
        Response::Config { download_subdirectory } => {
            let inner: Vec<(Vec<u8>, Json)> = vec![
                (k_download_subdirectory_vec(), Json::Str(clone_bytes(download_subdirectory))),
            ];
            let d = Json::Obj(inner);
            proof {
                crate::json::lemma_fields_v(d->Obj_0@);
                assert(crate::json::fields_v(d->Obj_0@) =~= seq![
                    (k_download_subdirectory(), JsonV::Str(download_subdirectory@)),
                ]);
                assert(d.v() == data_json_of(r.v()));
            }
            d
        },
        Response::FetchFileStates { result } => {
            let inner: Vec<(Vec<u8>, Json)> = vec![
                (k_result_vec(), Json::Arr(bools_json_vec(result))),
            ];
            let d = Json::Obj(inner);
            proof {
                crate::json::lemma_fields_v(d->Obj_0@);
                assert(d->Obj_0@[0].1.v() == JsonV::Arr(bools_json(result@)));
                assert(crate::json::fields_v(d->Obj_0@) =~= seq![
                    (k_result(), JsonV::Arr(bools_json(result@))),
                ]);
                assert(d.v() == data_json_of(r.v()));
            }
            d
        },
        Response::RegisterFile { id: rid } => {
            let inner: Vec<(Vec<u8>, Json)> = vec![(k_id_vec(), Json::Int(*rid))];
            let d = Json::Obj(inner);
            proof {
                crate::json::lemma_fields_v(d->Obj_0@);
                assert(crate::json::fields_v(d->Obj_0@) =~= seq![(k_id(), JsonV::Int(*rid))]);
                assert(d.v() == data_json_of(r.v()));
            }
            d
        },
        Response::Failure { message } => {
            let d = Json::Str(clone_bytes(message));
            proof {
                assert(d.v() == data_json_of(r.v()));
            }
            d
        },
    };
    let tag: Vec<u8> = match r {
        Response::Config { .. } => tag_config_vec(),
        Response::FetchFileStates { .. } => tag_fetch_file_states_vec(),
        Response::RegisterFile { .. } => tag_register_file_vec(),
        Response::Failure { .. } => tag_err_vec(),
    };
    proof {
        assert(tag@ == tag_of(r.v()));
    }
    let ghost dv = data.v();
    let mut fields: Vec<(Vec<u8>, Json)> = Vec::new();
    fields.push((k_type_vec(), Json::Str(tag)));
    proof {
        assert(fields@.len() == 1);
        assert(fields@[0].0@ == k_type());
        crate::json::lemma_v_shape(fields@[0].1);
        assert(fields@[0].1.v() == JsonV::Str(tag_of(r.v())));
    }
    fields.push((k_data_vec(), data));
    proof {
        assert(fields@.len() == 2);
        assert(fields@[1].0@ == k_data());
        assert(fields@[1].1.v() == dv);
    }
    match id {
        None => {},
        Some(idb) => {
            fields.push((k_id_vec(), Json::Str(clone_bytes(idb))));
            proof {
                assert(fields@.len() == 3);
                assert(fields@[2].0@ == k_id());
                crate::json::lemma_v_shape(fields@[2].1);
                assert(fields@[2].1.v() == JsonV::Str(idb@));
            }
        },
    }
    let doc = Json::Obj(fields);
    proof {
        crate::json::lemma_fields_v(doc->Obj_0@);
        let base: Seq<(Seq<u8>, JsonV)> = seq![
            (k_type(), JsonV::Str(tag_of(r.v()))),
            (k_data(), dv),
        ];
        match opt_bytes(*id) {
            None => {
                assert(crate::json::fields_v(doc->Obj_0@) =~= base);
            },
            Some(idb) => {
                assert(crate::json::fields_v(doc->Obj_0@) =~= base.push(
                    (k_id(), JsonV::Str(idb)),
                ));
            },
        }
        assert(doc.v() == response_json(opt_bytes(*id), r.v()));
    }
    to_json_bytes(&doc)
}
} // verus!
