use vstd::prelude::*;

verus! {

/// The settings of a run, with the directories it writes to.
#[derive(Debug, PartialEq, Eq)]
pub struct Config {
    pub use_l10n_output: bool,
    pub separate_output: bool,
    pub orig_locale: String,
    pub default_script_type: String,
    pub outputs: Vec<String>,
    pub l10n_outputs: Vec<String>,
    /// Where data files go; `.` is the working directory.
    pub output_dir: String,
    /// Where catalogs go; `.` is the working directory.
    pub l10n_output_dir: String,
}

impl Config {
    /// The defaults: catalog output on, one output per input, `en_US`, the script
    /// dialect, GDScript data and a PO catalog, all written to the working directory.
    pub fn new() -> (r: Config)
        ensures
            r.use_l10n_output,
            r.separate_output,
            r.orig_locale@ == "en_US"@,
            r.default_script_type@ == "kukuri"@,
            r.outputs@.len() == 1 && r.outputs@[0]@ == "gd"@,
            r.l10n_outputs@.len() == 1 && r.l10n_outputs@[0]@ == "po"@,
            r.output_dir@ == "."@,
            r.l10n_output_dir@ == "."@,
    {
        let mut outputs = Vec::new();
        outputs.push(String::from_str("gd"));
        let mut l10n_outputs = Vec::new();
        l10n_outputs.push(String::from_str("po"));
        Config {
            use_l10n_output: true,
            separate_output: true,
            orig_locale: String::from_str("en_US"),
            default_script_type: String::from_str("kukuri"),
            outputs,
            l10n_outputs,
            output_dir: String::from_str("."),
            l10n_output_dir: String::from_str("."),
        }
    }
}

impl Default for Config {
    fn default() -> (r: Config)
        ensures
            r.use_l10n_output,
            r.separate_output,
            r.orig_locale@ == "en_US"@,
            r.output_dir@ == "."@,
            r.l10n_output_dir@ == "."@,
    {
        Config::new()
    }
}

impl Clone for Config {
    fn clone(&self) -> (r: Config)
        ensures
            r.use_l10n_output == self.use_l10n_output,
            r.separate_output == self.separate_output,
            r.orig_locale@ == self.orig_locale@,
            r.default_script_type@ == self.default_script_type@,
            r.output_dir@ == self.output_dir@,
            r.l10n_output_dir@ == self.l10n_output_dir@,
    {
        Config {
            use_l10n_output: self.use_l10n_output,
            separate_output: self.separate_output,
            orig_locale: self.orig_locale.clone(),
            default_script_type: self.default_script_type.clone(),
            outputs: self.outputs.clone(),
            l10n_outputs: self.l10n_outputs.clone(),
            output_dir: self.output_dir.clone(),
            l10n_output_dir: self.l10n_output_dir.clone(),
        }
    }
}

} // verus!
