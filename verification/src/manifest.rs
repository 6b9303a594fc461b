//! The native-messaging host manifest.
//!
//! A browser finds the bridge through a small JSON manifest that names
//! the host, its executable, and which extensions may talk to it.
//! Chromium-strain browsers list allowed origins; Firefox lists allowed
//! extensions.

use vstd::prelude::*;
use crate::dispatch::Config;
use crate::protocol::deep_bytes;

verus! {

broadcast use vstd::std_specs::vec::group_vec_axioms, vstd::seq::group_seq_axioms;

/// The browsers an installation can target.
#[derive(Clone, Copy, PartialEq, Eq, Structural)]
pub enum BrowserKind {
    Chrome,
    Chromium,
    Vivaldi,
    Firefox,
}

/// The two manifest dialects: every browser speaks one of them.
#[derive(Clone, Copy, PartialEq, Eq, Structural)]
pub enum BrowserStrain {
    Chromium,
    Firefox,
}

/// The dialect a browser speaks: Firefox its own, everything else
/// Chromium's.
pub open spec fn strain_of(value: BrowserKind) -> BrowserStrain {
    match value {
        BrowserKind::Firefox => BrowserStrain::Firefox,
        _ => BrowserStrain::Chromium,
    }
}

impl BrowserStrain {
    /// The dialect a browser speaks: Firefox its own, everything else
    /// Chromium's.
    pub fn of(value: &BrowserKind) -> (r: BrowserStrain)
        ensures
            r == strain_of(*value),
    {
        match value {
            BrowserKind::Firefox => BrowserStrain::Firefox,
            _ => BrowserStrain::Chromium,
        }
    }
}

/// The manifest's description line.
pub open spec fn manifest_description() -> Seq<u8> {
    seq![0x4du8, 0x61, 0x6e, 0x61, 0x67, 0x65, 0x73, 0x20, 0x66, 0x69, 0x6c, 0x65, 0x73]
}

/// The manifest's messaging type, always `stdio`.
pub open spec fn messaging_type_stdio() -> Seq<u8> {
    seq![0x73u8, 0x74, 0x64, 0x69, 0x6f]
}

/// A native-messaging host manifest: the host's identity, the executable
/// the browser starts, and the extensions allowed to use it.
pub struct AppManifest {
    pub name: Vec<u8>,
    pub description: Vec<u8>,
    pub path: Vec<u8>,
    pub messaging_type: Vec<u8>,
    pub allowed_origins: Option<Vec<Vec<u8>>>,
    pub allowed_extensions: Option<Vec<Vec<u8>>>,
}

impl Default for AppManifest {
    /// An empty manifest: identity and messaging type set, no executable
    /// path, no allowances.
    fn default() -> (r: AppManifest)
        ensures
            r.name@ == crate::paths::unique_name(),
            r.description@ == manifest_description(),
            r.messaging_type@ == messaging_type_stdio(),
            r.path@.len() == 0,
            r.allowed_origins is None,
            r.allowed_extensions is None,
    {
        let description: Vec<u8> = vec![
            0x4d, 0x61, 0x6e, 0x61, 0x67, 0x65, 0x73, 0x20, 0x66, 0x69, 0x6c, 0x65, 0x73,
        ];
        let messaging_type: Vec<u8> = vec![0x73, 0x74, 0x64, 0x69, 0x6f];
        proof {
            assert(description@ =~= manifest_description());
            assert(messaging_type@ =~= messaging_type_stdio());
        }
        AppManifest {
            name: crate::paths::edman_unique_name(),
            description,
            path: Vec::new(),
            messaging_type,
            allowed_origins: None,
            allowed_extensions: None,
        }
    }
}

impl AppManifest {
    /// The manifest for one browser: the defaults, the executable's path,
    /// and — per dialect — either the configuration's allowed origins or
    /// its allowed extensions.
    pub fn new(option: &BrowserKind, config: &Config, exe_path: Vec<u8>) -> (r: AppManifest)
        ensures
            r.name@ == crate::paths::unique_name(),
            r.description@ == manifest_description(),
            r.messaging_type@ == messaging_type_stdio(),
            r.path@ == exe_path@,
            match strain_of(*option) {
                BrowserStrain::Chromium => {
                    &&& r.allowed_origins matches Some(o) && deep_bytes(o@) == deep_bytes(
                        config.allowed_origins@,
                    )
                    &&& r.allowed_extensions is None
                },
                BrowserStrain::Firefox => {
                    &&& r.allowed_extensions matches Some(e) && deep_bytes(e@) == deep_bytes(
                        config.allowed_extensions@,
                    )
                    &&& r.allowed_origins is None
                },
            },
    {
        let mut m = AppManifest::default();
        m.path = exe_path;
        match BrowserStrain::of(option) {
            BrowserStrain::Chromium => {
                m.allowed_origins = Some(clone_bytes_list(&config.allowed_origins));
            },
            BrowserStrain::Firefox => {
                m.allowed_extensions = Some(clone_bytes_list(&config.allowed_extensions));
            },
        }
        m
    }
}

/// A copy of a list of byte buffers.
pub fn clone_bytes_list(v: &Vec<Vec<u8>>) -> (r: Vec<Vec<u8>>)
    ensures
        deep_bytes(r@) == deep_bytes(v@),
{
    let mut r: Vec<Vec<u8>> = Vec::new();
    let mut i: usize = 0;
    while i < v.len()
        invariant
            i <= v@.len(),
            r@.len() == i,
            forall|k: int| 0 <= k < i ==> (#[trigger] r@[k])@ == v@[k]@,
        decreases v@.len() - i,
    {
        r.push(crate::protocol::clone_bytes(&v[i]));
        i = i + 1;
    }
    proof {
        assert(deep_bytes(r@) =~= deep_bytes(v@));
    }
    r
}

} // verus!
