//! Edits to the configuration drafted in the settings page.
//!
//! The page holds the configuration being edited plus two text inputs,
//! one per allow-list.  Each message applies one edit to the draft.

use vstd::prelude::*;
use crate::dispatch::Config;
use crate::protocol::{clone_bytes, deep_bytes};

verus! {

broadcast use vstd::std_specs::vec::group_vec_axioms, vstd::seq::group_seq_axioms;

/// One edit to the drafted configuration.
pub enum ConfigUpdateMessage {
    DownloadDirectoryChange(Vec<u8>),
    DownloadSubDirectoryChange(Vec<u8>),
    SaveFileDirectoryChange(Vec<u8>),
    ChromiumOriginAdd,
    FirefoxExtensionAdd,
    ChromiumOriginRemove(usize),
    FirefoxExtensionRemove(usize),
}

/// Applies one edit to the drafted configuration.  The directory edits
/// replace their field; the add edits append the matching text input; the
/// remove edits drop the entry at the given position from the origins
/// list, and do nothing when the position is out of range.
pub fn apply_config_update(
    config: &mut Config,
    origin_input: &Vec<u8>,
    extension_input: &Vec<u8>,
    message: ConfigUpdateMessage,
)
    ensures
        match message {
            ConfigUpdateMessage::DownloadDirectoryChange(s) => {
                &&& final (config).download_directory@ == s@
                &&& final (config).download_subdirectory == old(config).download_subdirectory
                &&& final (config).save_file_directory == old(config).save_file_directory
                &&& final (config).allowed_origins == old(config).allowed_origins
                &&& final (config).allowed_extensions == old(config).allowed_extensions
            },
            ConfigUpdateMessage::DownloadSubDirectoryChange(s) => {
                &&& final (config).download_subdirectory@ == s@
                &&& final (config).download_directory == old(config).download_directory
                &&& final (config).save_file_directory == old(config).save_file_directory
                &&& final (config).allowed_origins == old(config).allowed_origins
                &&& final (config).allowed_extensions == old(config).allowed_extensions
            },
            ConfigUpdateMessage::SaveFileDirectoryChange(s) => {
                &&& final (config).save_file_directory@ == s@
                &&& final (config).download_directory == old(config).download_directory
                &&& final (config).download_subdirectory == old(config).download_subdirectory
                &&& final (config).allowed_origins == old(config).allowed_origins
                &&& final (config).allowed_extensions == old(config).allowed_extensions
            },
            ConfigUpdateMessage::ChromiumOriginAdd => {
                &&& deep_bytes(final (config).allowed_origins@) == deep_bytes(
                    old(config).allowed_origins@,
                ).push(origin_input@)
                &&& final (config).allowed_extensions == old(config).allowed_extensions
                &&& final (config).download_directory == old(config).download_directory
                &&& final (config).download_subdirectory == old(config).download_subdirectory
                &&& final (config).save_file_directory == old(config).save_file_directory
            },
            ConfigUpdateMessage::FirefoxExtensionAdd => {
                &&& deep_bytes(final (config).allowed_extensions@) == deep_bytes(
                    old(config).allowed_extensions@,
                ).push(extension_input@)
                &&& final (config).allowed_origins == old(config).allowed_origins
                &&& final (config).download_directory == old(config).download_directory
                &&& final (config).download_subdirectory == old(config).download_subdirectory
                &&& final (config).save_file_directory == old(config).save_file_directory
            },
            ConfigUpdateMessage::ChromiumOriginRemove(i) => {
                &&& final (config).allowed_origins@ == (if i < old(
                    config,
                ).allowed_origins@.len() {
                    old(config).allowed_origins@.remove(i as int)
                } else {
                    old(config).allowed_origins@
                })
                &&& final (config).allowed_extensions == old(config).allowed_extensions
                &&& final (config).download_directory == old(config).download_directory
                &&& final (config).download_subdirectory == old(config).download_subdirectory
                &&& final (config).save_file_directory == old(config).save_file_directory
            },
            ConfigUpdateMessage::FirefoxExtensionRemove(i) => {
                &&& final (config).allowed_origins@ == (if i < old(
                    config,
                ).allowed_origins@.len() {
                    old(config).allowed_origins@.remove(i as int)
                } else {
                    old(config).allowed_origins@
                })
                &&& final (config).allowed_extensions == old(config).allowed_extensions
                &&& final (config).download_directory == old(config).download_directory
                &&& final (config).download_subdirectory == old(config).download_subdirectory
                &&& final (config).save_file_directory == old(config).save_file_directory
            },
        },
{
    match message {
        ConfigUpdateMessage::DownloadDirectoryChange(s) => {
            config.download_directory = s;
        },
        ConfigUpdateMessage::DownloadSubDirectoryChange(s) => {
            config.download_subdirectory = s;
        },
        ConfigUpdateMessage::SaveFileDirectoryChange(s) => {
            config.save_file_directory = s;
        },
        ConfigUpdateMessage::ChromiumOriginAdd => {
            let ghost before = config.allowed_origins@;
            config.allowed_origins.push(clone_bytes(origin_input));
            proof {
                assert(deep_bytes(config.allowed_origins@) =~= deep_bytes(before).push(
                    origin_input@,
                ));
            }
        },
        ConfigUpdateMessage::FirefoxExtensionAdd => {
            let ghost before = config.allowed_extensions@;
            config.allowed_extensions.push(clone_bytes(extension_input));
            proof {
                assert(deep_bytes(config.allowed_extensions@) =~= deep_bytes(before).push(
                    extension_input@,
                ));
            }
        },
        ConfigUpdateMessage::ChromiumOriginRemove(i) => {
            if i < config.allowed_origins.len() {
                config.allowed_origins.remove(i);
            }
        },
        ConfigUpdateMessage::FirefoxExtensionRemove(i) => {
            if i < config.allowed_origins.len() {
                config.allowed_origins.remove(i);
            }
        },
    }
}

} // verus!
