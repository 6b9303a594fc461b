//! The backend service's own decision logic.
//!
//! The service keeps its records and configuration behind an external
//! database; what stands here is the part that decides — which queried
//! keys are known, how a stored configuration row is read and written, and
//! how a database failure is reported over RPC.  The calls that reach the
//! database live outside the library and hand these functions plain
//! values.

use vstd::prelude::*;
use crate::dispatch::{Config, ConfigV, join_with, join_upto};
use crate::protocol::deep_bytes;

verus! {

broadcast use vstd::std_specs::vec::group_vec_axioms, vstd::seq::group_seq_axioms;

/// Whether `key` occurs among the known keys.
pub open spec fn key_known(known: Seq<Seq<u8>>, key: Seq<u8>) -> bool {
    exists|j: int| 0 <= j < known.len() && known[j] == key
}

/// The index-aligned answer to a `fetch_file_states` query: for every
/// position, whether that key is known.  Duplicate keys resolve
/// independently per occurrence; unknown keys resolve to `false`.
pub fn file_states(known: &Vec<Vec<u8>>, query: &Vec<Vec<u8>>) -> (r: Vec<bool>)
    ensures
        r@.len() == query@.len(),
        forall|i: int|
            0 <= i < query@.len() ==> r@[i] == key_known(
                deep_bytes(known@),
                #[trigger] deep_bytes(query@)[i],
            ),
{
    let mut r: Vec<bool> = Vec::new();
    let mut i: usize = 0;
    while i < query.len()
        invariant
            i <= query@.len(),
            r@.len() == i,
            forall|k: int|
                0 <= k < i ==> r@[k] == key_known(
                    deep_bytes(known@),
                    #[trigger] deep_bytes(query@)[k],
                ),
        decreases query@.len() - i,
    {
        let mut found = false;
        let mut j: usize = 0;
        while j < known.len()
            invariant
                i < query@.len(),
                j <= known@.len(),
                found == exists|m: int|
                    0 <= m < j && #[trigger] deep_bytes(known@)[m] == deep_bytes(query@)[
                        i as int
                    ],
            decreases known@.len() - j,
        {
            if crate::protocol::eq_bytes(&known[j], &query[i]) {
                proof {
                    assert(deep_bytes(known@)[j as int] == deep_bytes(query@)[i as int]);
                }
                found = true;
            }
            j = j + 1;
        }
        r.push(found);
        i = i + 1;
    }
    r
}

/// The first position at or after `i` holding a newline, or the end.
pub open spec fn nl_end(s: Seq<u8>, i: int) -> int
    decreases s.len() - i,
{
    if 0 <= i < s.len() && s[i] != 0x0a {
        nl_end(s, i + 1)
    } else {
        i
    }
}

/// Bounds of [`nl_end`].
pub proof fn lemma_nl_end(s: Seq<u8>, i: int)
    ensures
        i <= nl_end(s, i),
        i <= s.len() ==> nl_end(s, i) <= s.len(),
    decreases s.len() - i,
{
    if 0 <= i < s.len() && s[i] != 0x0a {
        lemma_nl_end(s, i + 1);
    }
}

/// The newline-separated pieces of `s` from `i` on, empty pieces dropped —
/// how a stored list column reads back as a list.
pub open spec fn lines_from(s: Seq<u8>, i: int) -> Seq<Seq<u8>>
    decreases s.len() - i,
{
    if !(0 <= i < s.len()) {
        Seq::empty()
    } else {
        let j = {
            proof {
                lemma_nl_end(s, i);
            }
            nl_end(s, i)
        };
        let piece = s.subrange(i, j);
        let rest = if j >= s.len() {
            Seq::empty()
        } else {
            lines_from(s, j + 1)
        };
        if piece.len() == 0 {
            rest
        } else {
            seq![piece] + rest
        }
    }
}

/// The non-empty newline-separated pieces of `s`.
pub open spec fn lines(s: Seq<u8>) -> Seq<Seq<u8>> {
    lines_from(s, 0)
}

/// Splits a stored column into its non-empty lines.
pub fn split_lines(s: &Vec<u8>) -> (r: Vec<Vec<u8>>)
    ensures
        deep_bytes(r@) == lines(s@),
{
    let mut r: Vec<Vec<u8>> = Vec::new();
    let mut i: usize = 0;
    while i < s.len()
        invariant
            i <= s@.len(),
            lines(s@) == deep_bytes(r@) + lines_from(s@, i as int),
        decreases s@.len() - i,
    {
        let mut j: usize = i;
        while j < s.len() && s[j] != 0x0a
            invariant
                i <= j,
                j <= s@.len() || j == i,
                nl_end(s@, i as int) == nl_end(s@, j as int),
            decreases s@.len() - j,
        {
            j = j + 1;
        }
        let mut piece: Vec<u8> = Vec::new();
        let mut k: usize = i;
        while k < j
            invariant
                i <= k <= j <= s@.len(),
                piece@ == s@.subrange(i as int, k as int),
            decreases j - k,
        {
            piece.push(s[k]);
            proof {
                assert(piece@ =~= s@.subrange(i as int, k + 1));
            }
            k = k + 1;
        }
        proof {
            assert(j <= s@.len());
            assert(j as int == nl_end(s@, i as int));
            assert(piece@ == s@.subrange(i as int, j as int));
        }
        if piece.len() > 0 {
            let ghost before = r@;
            r.push(piece);
            proof {
                assert(deep_bytes(r@) =~= deep_bytes(before).push(s@.subrange(
                    i as int,
                    j as int,
                )));
                assert(deep_bytes(before).push(s@.subrange(i as int, j as int)) + (if j
                    >= s@.len() {
                    Seq::<Seq<u8>>::empty()
                } else {
                    lines_from(s@, j + 1)
                }) =~= deep_bytes(before) + lines_from(s@, i as int));
            }
        } else {
            proof {
                assert(lines_from(s@, i as int) == (if j >= s@.len() {
                    Seq::<Seq<u8>>::empty()
                } else {
                    lines_from(s@, j + 1)
                }));
            }
        }
        if j < s.len() {
            i = j + 1;
        } else {
            i = s.len();
        }
        proof {
            assert(lines(s@) =~= deep_bytes(r@) + lines_from(s@, i as int));
        }
    }
    proof {
        assert(lines_from(s@, i as int) == Seq::<Seq<u8>>::empty());
        assert(deep_bytes(r@) =~= deep_bytes(r@) + lines_from(s@, i as int));
        assert(deep_bytes(r@) =~= lines(s@));
    }
    r
}

/// Joins list entries into a stored column, newline-separated.
pub fn join_lines(parts: &Vec<Vec<u8>>) -> (r: Vec<u8>)
    ensures
        r@ == join_with(deep_bytes(parts@), 0x0a),
{
    let r = join_upto(parts, parts.len(), 0x0a);
    proof {
        assert(deep_bytes(parts@).take(parts@.len() as int) =~= deep_bytes(parts@));
    }
    r
}

/// Reads a stored configuration row into the configuration the services
/// hand out: directories as given, the two allow-lists split into their
/// non-empty lines.
pub fn config_from_record(
    download_directory: Vec<u8>,
    download_subdirectory: Vec<u8>,
    save_file_directory: Vec<u8>,
    allowed_extensions: &Vec<u8>,
    allowed_origins: &Vec<u8>,
) -> (c: Config)
    ensures
        c.v() == (ConfigV {
            download_directory: download_directory@,
            download_subdirectory: download_subdirectory@,
            save_file_directory: save_file_directory@,
            allowed_origins: lines(allowed_origins@),
            allowed_extensions: lines(allowed_extensions@),
        }),
{
    Config {
        download_directory,
        download_subdirectory,
        save_file_directory,
        allowed_origins: split_lines(allowed_origins),
        allowed_extensions: split_lines(allowed_extensions),
    }
}

/// Writes a configuration's two allow-lists back into their stored
/// column form: extensions first, then origins, each newline-joined.
pub fn config_to_record(c: &Config) -> (r: (Vec<u8>, Vec<u8>))
    ensures
        r.0@ == join_with(deep_bytes(c.allowed_extensions@), 0x0a),
        r.1@ == join_with(deep_bytes(c.allowed_origins@), 0x0a),
{
    (join_lines(&c.allowed_extensions), join_lines(&c.allowed_origins))
}

/// The subdirectory a fresh configuration downloads into.
pub open spec fn default_subdirectory() -> Seq<u8> {
    seq![0x65u8, 0x64, 0x6d, 0x61, 0x6e]
}

/// The configuration used when the database holds none yet: the user's
/// download directory and the current directory where they are known,
/// empty paths otherwise, the default subdirectory, and empty
/// allow-lists.
pub fn default_config(download_dir: Option<Vec<u8>>, current_dir: Option<Vec<u8>>) -> (c: Config)
    ensures
        c.v().download_directory == (match download_dir {
            Some(d) => d@,
            None => Seq::<u8>::empty(),
        }),
        c.v().download_subdirectory == default_subdirectory(),
        c.v().save_file_directory == (match current_dir {
            Some(d) => d@,
            None => Seq::<u8>::empty(),
        }),
        c.v().allowed_origins.len() == 0,
        c.v().allowed_extensions.len() == 0,
{
    let sub: Vec<u8> = vec![0x65, 0x64, 0x6d, 0x61, 0x6e];
    proof {
        assert(sub@ =~= default_subdirectory());
    }
    let dd = match download_dir {
        Some(d) => d,
        None => Vec::new(),
    };
    let sfd = match current_dir {
        Some(d) => d,
        None => Vec::new(),
    };
    let c = Config {
        download_directory: dd,
        download_subdirectory: sub,
        save_file_directory: sfd,
        allowed_origins: Vec::new(),
        allowed_extensions: Vec::new(),
    };
    c
}

/// Decides what `ensure_db` does once the database was read: a stored
/// configuration is used as it stands; otherwise the fallback is used and
/// must be written back.  The second component says whether that write is
/// owed.
pub fn ensure_db(read: Option<Config>, fallback: Config) -> (r: (Config, bool))
    ensures
        match read {
            Some(c) => r.0 == c && !r.1,
            None => r.0 == fallback && r.1,
        },
{
    match read {
        Some(c) => (c, false),
        None => (fallback, true),
    }
}

/// The kinds of database failure the service tells apart.
#[derive(Clone, Copy, Debug, PartialEq, Eq, Structural)]
pub enum DbErrorKind {
    PoolTimeout,
    UniqueKeyViolation,
    RecordNotFound,
    ForeignKeyViolation,
    Other,
}

/// The RPC status codes those failures map to.
#[derive(Clone, Copy, Debug, PartialEq, Eq, Structural)]
pub enum StatusKind {
    Unavailable,
    AlreadyExists,
    NotFound,
    FailedPrecondition,
    Internal,
}

/// The status message for each known failure kind.
pub open spec fn db_status_msg(kind: DbErrorKind, detail: Seq<u8>) -> Seq<u8> {
    match kind {
        DbErrorKind::PoolTimeout => seq![0x44u8, 0x61, 0x74, 0x61, 0x62, 0x61, 0x73, 0x65, 0x20, 0x74, 0x69, 0x6d, 0x65, 0x6f, 0x75, 0x74],
        DbErrorKind::UniqueKeyViolation => seq![0x55u8, 0x6e, 0x69, 0x71, 0x75, 0x65, 0x20, 0x6b, 0x65, 0x79, 0x20, 0x76, 0x69, 0x6f, 0x6c, 0x61, 0x74, 0x69, 0x6f, 0x6e],
        DbErrorKind::RecordNotFound => seq![0x52u8, 0x65, 0x63, 0x6f, 0x72, 0x64, 0x20, 0x6e, 0x6f, 0x74, 0x20, 0x66, 0x6f, 0x75, 0x6e, 0x64],
        DbErrorKind::ForeignKeyViolation => seq![0x46u8, 0x6f, 0x72, 0x65, 0x69, 0x67, 0x6e, 0x20, 0x6b, 0x65, 0x79, 0x20, 0x76, 0x69, 0x6f, 0x6c, 0x61, 0x74, 0x69, 0x6f, 0x6e],
        DbErrorKind::Other => seq![0x44u8, 0x61, 0x74, 0x61, 0x62, 0x61, 0x73, 0x65, 0x20, 0x65, 0x72, 0x72, 0x6f, 0x72, 0x3a, 0x20] + detail,
    }
}

/// The status code for each known failure kind.
pub open spec fn db_status_kind(kind: DbErrorKind) -> StatusKind {
    match kind {
        DbErrorKind::PoolTimeout => StatusKind::Unavailable,
        DbErrorKind::UniqueKeyViolation => StatusKind::AlreadyExists,
        DbErrorKind::RecordNotFound => StatusKind::NotFound,
        DbErrorKind::ForeignKeyViolation => StatusKind::FailedPrecondition,
        DbErrorKind::Other => StatusKind::Internal,
    }
}

/// Maps a classified database failure to the RPC status the peer sees:
/// the four recognized engine errors get their fixed code and message,
/// anything else is an internal error carrying the failure's own text.
pub fn error_prisma_to_tonic(kind: DbErrorKind, detail: &Vec<u8>) -> (r: (StatusKind, Vec<u8>))
    ensures
        r.0 == db_status_kind(kind),
        r.1@ == db_status_msg(kind, detail@),
{
    match kind {
        DbErrorKind::PoolTimeout => {
            let m: Vec<u8> = vec![0x44, 0x61, 0x74, 0x61, 0x62, 0x61, 0x73, 0x65, 0x20, 0x74, 0x69, 0x6d, 0x65, 0x6f, 0x75, 0x74];
            proof {
                assert(m@ =~= db_status_msg(kind, detail@));
            }
            (StatusKind::Unavailable, m)
        },
        DbErrorKind::UniqueKeyViolation => {
            let m: Vec<u8> = vec![0x55, 0x6e, 0x69, 0x71, 0x75, 0x65, 0x20, 0x6b, 0x65, 0x79, 0x20, 0x76, 0x69, 0x6f, 0x6c, 0x61, 0x74, 0x69, 0x6f, 0x6e];
            proof {
                assert(m@ =~= db_status_msg(kind, detail@));
            }
            (StatusKind::AlreadyExists, m)
        },
        DbErrorKind::RecordNotFound => {
            let m: Vec<u8> = vec![0x52, 0x65, 0x63, 0x6f, 0x72, 0x64, 0x20, 0x6e, 0x6f, 0x74, 0x20, 0x66, 0x6f, 0x75, 0x6e, 0x64];
            proof {
                assert(m@ =~= db_status_msg(kind, detail@));
            }
            (StatusKind::NotFound, m)
        },
        DbErrorKind::ForeignKeyViolation => {
            let m: Vec<u8> = vec![0x46, 0x6f, 0x72, 0x65, 0x69, 0x67, 0x6e, 0x20, 0x6b, 0x65, 0x79, 0x20, 0x76, 0x69, 0x6f, 0x6c, 0x61, 0x74, 0x69, 0x6f, 0x6e];
            proof {
                assert(m@ =~= db_status_msg(kind, detail@));
            }
            (StatusKind::FailedPrecondition, m)
        },
        DbErrorKind::Other => {
            let mut m: Vec<u8> = vec![0x44, 0x61, 0x74, 0x61, 0x62, 0x61, 0x73, 0x65, 0x20, 0x65, 0x72, 0x72, 0x6f, 0x72, 0x3a, 0x20];
            let ghost head = m@;
            let mut k: usize = 0;
            while k < detail.len()
                invariant
                    k <= detail@.len(),
                    m@ == head + detail@.take(k as int),
                decreases detail@.len() - k,
            {
                m.push(detail[k]);
                proof {
                    assert(m@ =~= head + detail@.take(k + 1));
                }
                k = k + 1;
            }
            proof {
                assert(detail@.take(detail@.len() as int) =~= detail@);
                assert(head =~= seq![0x44u8, 0x61, 0x74, 0x61, 0x62, 0x61, 0x73, 0x65, 0x20, 0x65, 0x72, 0x72, 0x6f, 0x72, 0x3a, 0x20]);
                assert(m@ =~= db_status_msg(kind, detail@));
            }
            (StatusKind::Internal, m)
        },
    }
}

} // verus!
