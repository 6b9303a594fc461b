//! Well-known per-user paths.
//!
//! The local-channel address and the native-messaging manifest locations
//! are fixed names under the user's project directories, so unrelated
//! processes cannot collide with them.  Where the directories come from
//! the environment, the lookups are trusted wrappers around the
//! `directories` crate; the joins onto them are verified.

use vstd::prelude::*;
use crate::dispatch::path_join;
use crate::manifest::BrowserKind;

verus! {

broadcast use vstd::std_specs::vec::group_vec_axioms, vstd::seq::group_seq_axioms;

#[verifier::external_type_specification]
#[verifier::external_body]
pub struct ExProjectDirs(directories::ProjectDirs);

/// Relies on directories::ProjectDirs::from: the per-user directories for
/// this qualifier, organization and application, where a home directory
/// is known.  The result depends on the environment, so nothing more is
/// promised of it.
#[verifier::external_body]
fn project_dirs_from(qualifier: &str, organization: &str, application: &str) -> (r: Option<
    directories::ProjectDirs,
>) {
    directories::ProjectDirs::from(qualifier, organization, application)
}

/// Relies on directories::ProjectDirs::runtime_dir: the per-user runtime
/// directory, where the platform defines one.  Converted to bytes where
/// the path is valid Unicode; environment-dependent, so nothing more is
/// promised.
#[verifier::external_body]
fn runtime_dir_bytes(d: &directories::ProjectDirs) -> (r: Option<Vec<u8>>) {
    d.runtime_dir().and_then(|p| p.to_str()).map(|s| s.as_bytes().to_vec())
}

/// Relies on directories::ProjectDirs::cache_dir, converted like
/// `runtime_dir_bytes`; environment-dependent, so nothing more is
/// promised.
#[verifier::external_body]
fn cache_dir_bytes(d: &directories::ProjectDirs) -> (r: Option<Vec<u8>>) {
    d.cache_dir().to_str().map(|s| s.as_bytes().to_vec())
}

/// Relies on directories::ProjectDirs::config_local_dir, converted like
/// `runtime_dir_bytes`; environment-dependent, so nothing more is
/// promised.
#[verifier::external_body]
fn config_local_dir_bytes(d: &directories::ProjectDirs) -> (r: Option<Vec<u8>>) {
    d.config_local_dir().to_str().map(|s| s.as_bytes().to_vec())
}

/// The application's unique name, `io.github.femshima.edman`: the fixed,
/// namespaced identity under which the manifest and the native-messaging
/// host are registered.
pub open spec fn unique_name() -> Seq<u8> {
    seq![0x69u8, 0x6f, 0x2e, 0x67, 0x69, 0x74, 0x68, 0x75, 0x62, 0x2e, 0x66, 0x65, 0x6d, 0x73, 0x68, 0x69, 0x6d, 0x61, 0x2e, 0x65, 0x64, 0x6d, 0x61, 0x6e]
}

/// The application's unique name, as a buffer.
pub fn edman_unique_name() -> (r: Vec<u8>)
    ensures
        r@ == unique_name(),
{
    let r: Vec<u8> = vec![0x69, 0x6f, 0x2e, 0x67, 0x69, 0x74, 0x68, 0x75, 0x62, 0x2e, 0x66, 0x65, 0x6d, 0x73, 0x68, 0x69, 0x6d, 0x61, 0x2e, 0x65, 0x64, 0x6d, 0x61, 0x6e];
    proof {
        assert(r@ =~= unique_name());
    }
    r
}

/// The socket's file name.
pub open spec fn sock_file_name() -> Seq<u8> {
    seq![0x65u8, 0x64, 0x6d, 0x61, 0x6e, 0x2e, 0x73, 0x6f, 0x63, 0x6b]
}

/// The socket path under a given base directory.
pub fn sock_path_in(base: &Vec<u8>) -> (r: Vec<u8>)
    ensures
        r@ == path_join(base@, sock_file_name()),
{
    let name: Vec<u8> = vec![0x65, 0x64, 0x6d, 0x61, 0x6e, 0x2e, 0x73, 0x6f, 0x63, 0x6b];
    proof {
        assert(name@ =~= sock_file_name());
    }
    crate::dispatch::path_join_exec(base, &name)
}

/// Resolves the local channel's socket path: the fixed socket file name
/// under the per-user runtime directory, or under the cache directory on
/// platforms without one.  `None` when the environment offers neither.
pub fn sock_path() -> (r: Option<Vec<u8>>)
    ensures
        r matches Some(p) ==> {
            &&& p@.len() >= sock_file_name().len()
            &&& p@.subrange(p@.len() - sock_file_name().len(), p@.len() as int)
                == sock_file_name()
        },
{
    let dirs = match project_dirs_from("io.github", "femshima", "edman") {
        Some(d) => d,
        None => {
            return None;
        },
    };
    let base = match runtime_dir_bytes(&dirs) {
        Some(b) => b,
        None => match cache_dir_bytes(&dirs) {
            Some(b) => b,
            None => {
                return None;
            },
        },
    };
    let p = sock_path_in(&base);
    proof {
        lemma_path_join_suffix(base@, sock_file_name());
    }
    Some(p)
}

/// The name of the Firefox manifest file.
pub open spec fn manifest_file_firefox() -> Seq<u8> {
    seq![0x6du8, 0x61, 0x6e, 0x69, 0x66, 0x65, 0x73, 0x74, 0x5f, 0x66, 0x69, 0x72, 0x65, 0x66, 0x6f, 0x78, 0x2e, 0x6a, 0x73, 0x6f, 0x6e]
}

/// The name of the Chromium manifest file.
pub open spec fn manifest_file_chromium() -> Seq<u8> {
    seq![0x6du8, 0x61, 0x6e, 0x69, 0x66, 0x65, 0x73, 0x74, 0x5f, 0x63, 0x68, 0x72, 0x6f, 0x6d, 0x69, 0x75, 0x6d, 0x2e, 0x6a, 0x73, 0x6f, 0x6e]
}

/// The Firefox manifest path under a given base directory.
pub fn manifest_path_firefox_in(base: &Vec<u8>) -> (r: Vec<u8>)
    ensures
        r@ == path_join(base@, manifest_file_firefox()),
{
    let name: Vec<u8> = vec![0x6d, 0x61, 0x6e, 0x69, 0x66, 0x65, 0x73, 0x74, 0x5f, 0x66, 0x69, 0x72, 0x65, 0x66, 0x6f, 0x78, 0x2e, 0x6a, 0x73, 0x6f, 0x6e];
    proof {
        assert(name@ =~= manifest_file_firefox());
    }
    crate::dispatch::path_join_exec(base, &name)
}

/// The Chromium manifest path under a given base directory.
pub fn manifest_path_chromium_in(base: &Vec<u8>) -> (r: Vec<u8>)
    ensures
        r@ == path_join(base@, manifest_file_chromium()),
{
    let name: Vec<u8> = vec![0x6d, 0x61, 0x6e, 0x69, 0x66, 0x65, 0x73, 0x74, 0x5f, 0x63, 0x68, 0x72, 0x6f, 0x6d, 0x69, 0x75, 0x6d, 0x2e, 0x6a, 0x73, 0x6f, 0x6e];
    proof {
        assert(name@ =~= manifest_file_chromium());
    }
    crate::dispatch::path_join_exec(base, &name)
}

/// Resolves where the Firefox native-messaging manifest is written: the
/// fixed file name under the per-user local configuration directory.
pub fn manifest_path_firefox() -> (r: Option<Vec<u8>>)
    ensures
        r matches Some(p) ==> {
            &&& p@.len() >= manifest_file_firefox().len()
            &&& p@.subrange(p@.len() - manifest_file_firefox().len(), p@.len() as int)
                == manifest_file_firefox()
        },
{
    let dirs = match project_dirs_from("io.github", "femshima", "edman") {
        Some(d) => d,
        None => {
            return None;
        },
    };
    let base = match config_local_dir_bytes(&dirs) {
        Some(b) => b,
        None => {
            return None;
        },
    };
    let p = manifest_path_firefox_in(&base);
    proof {
        lemma_path_join_suffix(base@, manifest_file_firefox());
    }
    Some(p)
}

/// Resolves where the Chromium native-messaging manifest is written: the
/// fixed file name under the per-user local configuration directory.
pub fn manifest_path_chromium() -> (r: Option<Vec<u8>>)
    ensures
        r matches Some(p) ==> {
            &&& p@.len() >= manifest_file_chromium().len()
            &&& p@.subrange(p@.len() - manifest_file_chromium().len(), p@.len() as int)
                == manifest_file_chromium()
        },
{
    let dirs = match project_dirs_from("io.github", "femshima", "edman") {
        Some(d) => d,
        None => {
            return None;
        },
    };
    let base = match config_local_dir_bytes(&dirs) {
        Some(b) => b,
        None => {
            return None;
        },
    };
    let p = manifest_path_chromium_in(&base);
    proof {
        lemma_path_join_suffix(base@, manifest_file_chromium());
    }
    Some(p)
}

/// A joined path ends with the name that was joined on.
proof fn lemma_path_join_suffix(base: Seq<u8>, name: Seq<u8>)
    ensures
        path_join(base, name).len() >= name.len(),
        path_join(base, name).subrange(
            path_join(base, name).len() - name.len(),
            path_join(base, name).len() as int,
        ) == name,
{
    let p = path_join(base, name);
    assert(p.subrange(p.len() - name.len(), p.len() as int) =~= name);
}

/// The directory, relative to the user's home, where a browser expects
/// native-messaging host manifests to be linked.
pub open spec fn link_dir(option: BrowserKind) -> Seq<u8> {
    match option {
        BrowserKind::Chrome => seq![0x2eu8, 0x63, 0x6f, 0x6e, 0x66, 0x69, 0x67, 0x2f, 0x63, 0x68, 0x72, 0x6f, 0x6d, 0x65, 0x2f, 0x4e, 0x61, 0x74, 0x69, 0x76, 0x65, 0x4d, 0x65, 0x73, 0x73, 0x61, 0x67, 0x69, 0x6e, 0x67, 0x48, 0x6f, 0x73, 0x74, 0x73],
        BrowserKind::Chromium => seq![0x2eu8, 0x63, 0x6f, 0x6e, 0x66, 0x69, 0x67, 0x2f, 0x63, 0x68, 0x72, 0x6f, 0x6d, 0x69, 0x75, 0x6d, 0x2f, 0x4e, 0x61, 0x74, 0x69, 0x76, 0x65, 0x4d, 0x65, 0x73, 0x73, 0x61, 0x67, 0x69, 0x6e, 0x67, 0x48, 0x6f, 0x73, 0x74, 0x73],
        BrowserKind::Vivaldi => seq![0x2eu8, 0x63, 0x6f, 0x6e, 0x66, 0x69, 0x67, 0x2f, 0x76, 0x69, 0x76, 0x61, 0x6c, 0x64, 0x69, 0x2f, 0x4e, 0x61, 0x74, 0x69, 0x76, 0x65, 0x4d, 0x65, 0x73, 0x73, 0x61, 0x67, 0x69, 0x6e, 0x67, 0x48, 0x6f, 0x73, 0x74, 0x73],
        BrowserKind::Firefox => seq![0x2eu8, 0x6d, 0x6f, 0x7a, 0x69, 0x6c, 0x6c, 0x61, 0x2f, 0x6e, 0x61, 0x74, 0x69, 0x76, 0x65, 0x2d, 0x6d, 0x65, 0x73, 0x73, 0x61, 0x67, 0x69, 0x6e, 0x67, 0x2d, 0x68, 0x6f, 0x73, 0x74, 0x73],
    }
}

/// The manifest link's file name: the unique name plus `.json`.
pub open spec fn link_file_name() -> Seq<u8> {
    seq![0x69u8, 0x6f, 0x2e, 0x67, 0x69, 0x74, 0x68, 0x75, 0x62, 0x2e, 0x66, 0x65, 0x6d, 0x73, 0x68, 0x69, 0x6d, 0x61, 0x2e, 0x65, 0x64, 0x6d, 0x61, 0x6e, 0x2e, 0x6a, 0x73, 0x6f, 0x6e]
}

/// Where the manifest is linked for a browser, under a given home
/// directory: the browser's manifest directory, then the unique name with
/// a `.json` extension.
pub fn get_link_path(option: &BrowserKind, home: &Vec<u8>) -> (r: Vec<u8>)
    ensures
        r@ == path_join(path_join(home@, link_dir(*option)), link_file_name()),
{
    let dir: Vec<u8> = match option {
        BrowserKind::Chrome => vec![0x2e, 0x63, 0x6f, 0x6e, 0x66, 0x69, 0x67, 0x2f, 0x63, 0x68, 0x72, 0x6f, 0x6d, 0x65, 0x2f, 0x4e, 0x61, 0x74, 0x69, 0x76, 0x65, 0x4d, 0x65, 0x73, 0x73, 0x61, 0x67, 0x69, 0x6e, 0x67, 0x48, 0x6f, 0x73, 0x74, 0x73],
        BrowserKind::Chromium => vec![0x2e, 0x63, 0x6f, 0x6e, 0x66, 0x69, 0x67, 0x2f, 0x63, 0x68, 0x72, 0x6f, 0x6d, 0x69, 0x75, 0x6d, 0x2f, 0x4e, 0x61, 0x74, 0x69, 0x76, 0x65, 0x4d, 0x65, 0x73, 0x73, 0x61, 0x67, 0x69, 0x6e, 0x67, 0x48, 0x6f, 0x73, 0x74, 0x73],
        BrowserKind::Vivaldi => vec![0x2e, 0x63, 0x6f, 0x6e, 0x66, 0x69, 0x67, 0x2f, 0x76, 0x69, 0x76, 0x61, 0x6c, 0x64, 0x69, 0x2f, 0x4e, 0x61, 0x74, 0x69, 0x76, 0x65, 0x4d, 0x65, 0x73, 0x73, 0x61, 0x67, 0x69, 0x6e, 0x67, 0x48, 0x6f, 0x73, 0x74, 0x73],
        BrowserKind::Firefox => vec![0x2e, 0x6d, 0x6f, 0x7a, 0x69, 0x6c, 0x6c, 0x61, 0x2f, 0x6e, 0x61, 0x74, 0x69, 0x76, 0x65, 0x2d, 0x6d, 0x65, 0x73, 0x73, 0x61, 0x67, 0x69, 0x6e, 0x67, 0x2d, 0x68, 0x6f, 0x73, 0x74, 0x73],
    };
    proof {
        assert(dir@ =~= link_dir(*option));
    }
    let name: Vec<u8> = vec![0x69, 0x6f, 0x2e, 0x67, 0x69, 0x74, 0x68, 0x75, 0x62, 0x2e, 0x66, 0x65, 0x6d, 0x73, 0x68, 0x69, 0x6d, 0x61, 0x2e, 0x65, 0x64, 0x6d, 0x61, 0x6e, 0x2e, 0x6a, 0x73, 0x6f, 0x6e];
    proof {
        assert(name@ =~= link_file_name());
    }
    let base = crate::dispatch::path_join_exec(home, &dir);
    crate::dispatch::path_join_exec(&base, &name)
}

} // verus!
