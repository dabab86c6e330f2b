//! The settings record: one flat configuration entity with a defined default
//! for every field, so that a partially specified document can always be
//! completed.

use vstd::prelude::*;

verus! {

/// Mathematical view of a settings record: sequences for the free-form
/// strings, unbounded integers for the numeric fields.
#[verifier::ext_equal]
pub ghost struct ConfigV {
    pub theme: Seq<char>,
    pub color: Seq<char>,
    pub zoom: int,
    pub show_app_rail: bool,
    pub sidebar_open: bool,
    pub sidebar_width: int,
}

/// The record with every field at its type's default value: empty strings,
/// zero, false.
pub open spec fn default_config_v() -> ConfigV {
    ConfigV {
        theme: Seq::empty(),
        color: Seq::empty(),
        zoom: 0,
        show_app_rail: false,
        sidebar_open: false,
        sidebar_width: 0,
    }
}

/// The application's settings record. The string fields are free-form (the
/// theme is expected to be "light"/"dark"/"system" but is not validated), the
/// integers are not range-checked beyond their machine type.
#[derive(Debug, Clone)]
pub struct AppConfig {
    pub theme: String,
    pub color: String,
    pub zoom: i32,
    pub show_app_rail: bool,
    pub sidebar_open: bool,
    pub sidebar_width: i32,
}

impl View for AppConfig {
    type V = ConfigV;

    open spec fn view(&self) -> ConfigV {
        ConfigV {
            theme: self.theme@,
            color: self.color@,
            zoom: self.zoom as int,
            show_app_rail: self.show_app_rail,
            sidebar_open: self.sidebar_open,
            sidebar_width: self.sidebar_width as int,
        }
    }
}

impl AppConfig {
    /// The all-defaults record, used when no settings file exists yet.
    pub fn default_config() -> (r: AppConfig)
        ensures
            r@ == default_config_v(),
    {
        AppConfig {
            theme: String::new(),
            color: String::new(),
            zoom: 0,
            show_app_rail: false,
            sidebar_open: false,
            sidebar_width: 0,
        }
    }
}

impl Default for AppConfig {
    fn default() -> (r: AppConfig)
        ensures
            r@ == default_config_v(),
    {
        AppConfig::default_config()
    }
}

impl PartialEq for AppConfig {
    fn eq(&self, other: &AppConfig) -> (r: bool) {
        let strings_equal = self.theme.eq(&other.theme) && self.color.eq(&other.color);
        strings_equal && self.zoom == other.zoom && self.show_app_rail == other.show_app_rail
            && self.sidebar_open == other.sidebar_open
            && self.sidebar_width == other.sidebar_width
    }
}

impl vstd::std_specs::cmp::PartialEqSpecImpl for AppConfig {
    open spec fn obeys_eq_spec() -> bool {
        true
    }

    open spec fn eq_spec(&self, other: &AppConfig) -> bool {
        self@ == other@
    }
}

impl Eq for AppConfig {

}

} // verus!
