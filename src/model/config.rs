use vstd::prelude::*;

verus! {

/// The settings of a run, as a settings file gives them.
#[derive(Debug, PartialEq, Eq)]
pub struct Config {
    pub use_l10n_output: bool,
    pub separate_output: bool,
    pub orig_locale: String,
    pub default_script_type: String,
    pub outputs: Vec<String>,
    pub l10n_outputs: Vec<String>,
}

impl Config {
    /// The defaults: catalog output on, one output per input, `en_US`, the script
    /// dialect, GDScript data and a PO catalog.
    pub fn new() -> (r: Config)
        ensures
            r.use_l10n_output,
            r.separate_output,
            r.orig_locale@ == "en_US"@,
            r.default_script_type@ == "kukuri"@,
            r.outputs@.len() == 1 && r.outputs@[0]@ == "gd"@,
            r.l10n_outputs@.len() == 1 && r.l10n_outputs@[0]@ == "po"@,
    {
        let mut outputs = Vec::new();
        outputs.push(String::from_str("gd"));
        let mut l10n_outputs = Vec::new();
        l10n_outputs.push(String::from_str("po"));
        Config {
            use_l10n_output: true,
            separate_output: true,
            orig_locale: String::from_str("en_US"),
            default_script_type: String::from_str("kukuri"),
            outputs,
            l10n_outputs,
        }
    }
}

impl Default for Config {
    fn default() -> (r: Config)
        ensures
            r.use_l10n_output,
            r.separate_output,
            r.orig_locale@ == "en_US"@,
            r.default_script_type@ == "kukuri"@,
            r.outputs@.len() == 1 && r.outputs@[0]@ == "gd"@,
            r.l10n_outputs@.len() == 1 && r.l10n_outputs@[0]@ == "po"@,
    {
        Config::new()
    }
}

} // verus!
