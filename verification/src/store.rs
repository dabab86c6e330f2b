//! The store's pure decision logic. Each operation is a stateless transaction
//! against one file; the filesystem itself stays outside this crate, so the
//! file is modelled as an optional text, and the operations say what is read
//! from it, written to it, or left of it.

use vstd::prelude::*;
use vstd::string::StringExecFns;
use vstd::string::StrSliceExecFns;

use crate::codec::{decode_config, encode_config, spec_config_text, spec_decode};
use crate::config::{AppConfig, ConfigV, default_config_v};
use crate::error::ConfigError;

verus! {

/// The name of the settings file inside the configuration directory.
pub open spec fn settings_file_name() -> Seq<char> {
    seq!['s', 'e', 't', 't', 'i', 'n', 'g', 's', '.', 'j', 's', 'o', 'n']
}

/// The path the store operates on: the configuration directory joined with
/// the settings file name, without doubling a trailing separator.
pub open spec fn spec_settings_path(dir: Seq<char>) -> Seq<char> {
    if dir.len() > 0 && dir.last() == '/' {
        dir + settings_file_name()
    } else {
        dir + seq!['/'] + settings_file_name()
    }
}

/// What loading yields from a file state: the defaults where no file exists,
/// the decoded record where one does, nothing where its text is malformed.
pub open spec fn load_view(file: Option<Seq<char>>) -> Option<ConfigV> {
    match file {
        None => Some(default_config_v()),
        Some(s) => spec_decode(s),
    }
}

/// The file state after saving a record: the encoded document.
pub open spec fn save_view(c: ConfigV) -> Option<Seq<char>> {
    Some(spec_config_text(c))
}

/// The file state after deleting: no file, whatever was there before.
pub open spec fn delete_view(file: Option<Seq<char>>) -> Option<Seq<char>> {
    None
}

/// The settings store, bound to the host-resolved configuration directory.
/// The directory is a collaborator's answer, handed in at construction, so
/// the store itself is a pure function of it.
pub struct ConfigStore {
    pub config_dir: String,
}

impl ConfigStore {
    /// A store over the given configuration directory.
    pub fn new(config_dir: String) -> (r: ConfigStore)
        ensures
            r.config_dir@ == config_dir@,
    {
        ConfigStore { config_dir }
    }

    /// The absolute path of the settings file: the directory, a separator
    /// where one is missing, and the file name. Touches nothing.
    pub fn settings_path(&self) -> (r: String)
        ensures
            r@ == spec_settings_path(self.config_dir@),
    {
        proof {
            reveal_strlit("settings.json");
            assert("settings.json"@ =~= settings_file_name());
            reveal_strlit("/");
        }
        let mut p = self.config_dir.clone();
        let n = p.as_str().unicode_len();
        if n == 0 || p.as_str().get_char(n - 1) != '/' {
            p.append("/");
            proof {
                assert(self.config_dir@ + "/"@ =~= self.config_dir@ + seq!['/']);
            }
        }
        p.append("settings.json");
        proof {
            if self.config_dir@.len() > 0 && self.config_dir@.last() == '/' {
            } else {
                assert((self.config_dir@ + seq!['/']) + settings_file_name() =~= self.config_dir@
                    + seq!['/'] + settings_file_name());
            }
        }
        p
    }

    /// Decides what loading yields, given what the filesystem answered:
    /// no file gives the all-defaults record, never an error; a file's text
    /// is decoded, and a malformed text is a decode error, never silently the
    /// defaults.
    pub fn load_from(&self, content: Option<&str>) -> (r: Result<AppConfig, ConfigError>)
        ensures
            match content {
                None => r matches Ok(c) && c@ == default_config_v(),
                Some(s) => match spec_decode(s@) {
                    Some(cv) => r matches Ok(c) && c@ == cv,
                    None => r matches Err(e) && e is DecodeError,
                },
            },
            r matches Ok(c) ==> load_view(
                match content {
                    None => None,
                    Some(s) => Some(s@),
                },
            ) == Some(c@),
    {
        match content {
            None => Ok(AppConfig::default_config()),
            Some(s) => match decode_config(s) {
                Some(c) => Ok(c),
                None => Err(ConfigError::DecodeError("not a valid settings document".to_owned())),
            },
        }
    }

    /// Decides the delete step from what the filesystem answered: an
    /// existing file must be removed; an absent one leaves nothing to do, and
    /// that is success, not an error.
    pub fn delete_plan(&self, file_exists: bool) -> (remove: bool)
        ensures
            remove == file_exists,
    {
        file_exists
    }

    /// The exact text saving writes: the record as the settings document,
    /// replacing any prior content whole. Encoding cannot fail for this
    /// schema.
    pub fn save_text(&self, c: &AppConfig) -> (r: String)
        ensures
            r@ == spec_config_text(c@),
            save_view(c@) == Some(r@),
    {
        encode_config(c)
    }
}

/// The round-trip law at the store level: saving a record and loading the
/// resulting file yields the record back, for every record the machine can
/// hold.
pub proof fn lemma_save_then_load(c: ConfigV)
    requires
        crate::codec::fits_i32(c.zoom),
        crate::codec::fits_i32(c.sidebar_width),
    ensures
        load_view(save_view(c)) == Some(c),
{
    crate::roundtrip::lemma_decode_of_encode(c);
}

/// The round-trip law for every record the executable type can hold, with no
/// side condition: its integer fields always fit the machine integers.
pub proof fn lemma_save_then_load_record(c: AppConfig)
    ensures
        load_view(save_view(c@)) == Some(c@),
{
    lemma_save_then_load(c@);
}

/// Loading with no file present yields the all-defaults record — an absent
/// file is never an error.
pub proof fn lemma_load_missing_gives_defaults()
    ensures
        load_view(None) == Some(default_config_v()),
{
}

/// Deleting is idempotent: deleting an absent file leaves the same absent
/// state, so a second delete changes nothing and has nothing to fail on.
pub proof fn lemma_delete_idempotent(file: Option<Seq<char>>)
    ensures
        delete_view(delete_view(file)) == delete_view(file),
        delete_view(file) is None,
{
}

/// The settings path is a pure function of the configuration directory:
/// repeated calls in the same environment give the same path.
pub proof fn lemma_path_stable(a: ConfigStore, b: ConfigStore)
    requires
        a.config_dir@ == b.config_dir@,
    ensures
        spec_settings_path(a.config_dir@) == spec_settings_path(b.config_dir@),
{
}

/// The settings path begins with the configuration directory and ends with
/// the settings file name; it is absolute whenever the directory is.
pub proof fn lemma_path_shape(dir: Seq<char>)
    ensures
        spec_settings_path(dir).len() >= settings_file_name().len(),
        spec_settings_path(dir).subrange(
            spec_settings_path(dir).len() - settings_file_name().len(),
            spec_settings_path(dir).len() as int,
        ) == settings_file_name(),
        spec_settings_path(dir).subrange(0, dir.len() as int) == dir,
{
    let p = spec_settings_path(dir);
    let m = settings_file_name().len();
    assert(p.subrange(p.len() - m, p.len() as int) =~= settings_file_name());
    assert(p.subrange(0, dir.len() as int) =~= dir);
}

/// A malformed file fails the load with an error: it never passes for the
/// defaults.
pub proof fn lemma_malformed_load_is_error(s: Seq<char>)
    requires
        spec_decode(s) is None,
    ensures
        load_view(Some(s)) is None,
{
}

} // verus!
