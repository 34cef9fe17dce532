//! The dialogue tree, talkers, settings, and the driver that ties reading and writing together.
pub mod config;
pub mod dialog;
pub mod kukuri_data;
pub mod talker;

use crate::config::Config;
use crate::export::po::{po_head, po_scenes, po_talkers, Po};
use crate::export::{
    export_extension, export_type_of, strip_dialogs, strip_source_text, ExportType, L10nExportType,
};
use crate::model::talker::Talker;
use crate::import::kukuri_script::{
    failed_at, find_char, find_char_exec, parse_spec, KukuriScript, ScriptError,
};
use crate::import::{extension_spec, str_eq, typename_spec, ImportType};
use crate::model::dialog::{dialogs_m, scenes_m, Dialog, DialogM, Scene, SceneM};
use crate::text::{chars_of, lines_of, string_of};
use vstd::prelude::*;

verus! {

/// Why an input gave no scenes.
#[derive(Debug, PartialEq, Eq)]
pub enum ImportError {
    /// A recognised dialect that is not read.
    Unsupported(ImportType),
    /// A script whose nesting could not be followed.
    Script(ScriptError),
}

/// A data file that a run writes: its file name, its format, the scenes by title, and
/// whether source texts were left out of it (then choice labels are not written either).
#[derive(Debug, PartialEq, Eq)]
pub struct DataFile {
    pub name: String,
    pub kind: ExportType,
    pub scenes: Vec<(String, Vec<Dialog>)>,
    pub strip: bool,
}

/// A catalog file that a run writes: its file name and its text.
#[derive(Debug, PartialEq, Eq)]
pub struct CatalogFile {
    pub name: String,
    pub text: String,
}

/// A run: its settings and its input paths.
#[derive(Debug, PartialEq, Eq)]
pub struct Kukuri {
    pub conf: Config,
    pub inputs: Vec<String>,
}

/// Consecutive repeats dropped.
pub open spec fn dedup<T>(s: Seq<T>) -> Seq<T>
    decreases s.len(),
{
    if s.len() == 0 {
        s
    } else if s.len() >= 2 && s[s.len() - 2] == s.last() {
        dedup(s.drop_last())
    } else {
        dedup(s.drop_last()).push(s.last())
    }
}

pub open spec fn export_types_of(names: Seq<String>) -> Seq<ExportType> {
    Seq::new(names.len(), |i: int| export_type_of(names[i]@))
}

/// Scene titles to dialogue lists; a later scene with the same title replaces an earlier one.
pub open spec fn title_map(ss: Seq<Scene>) -> Map<Seq<char>, Seq<DialogM>>
    decreases ss.len(),
{
    if ss.len() == 0 {
        Map::empty()
    } else {
        title_map(ss.drop_last()).insert(ss.last().title@, dialogs_m(ss.last().dialogs@))
    }
}

/// `ps` lists the entries of `m`, each key once.
pub open spec fn lists_map(ps: Seq<(String, Vec<Dialog>)>, m: Map<Seq<char>, Seq<DialogM>>) -> bool {
    &&& forall|i: int, j: int| 0 <= i < j < ps.len() ==> (#[trigger] ps[i]).0@ != (#[trigger] ps[j]).0@
    &&& forall|j: int|
        0 <= j < ps.len() ==> m.contains_key((#[trigger] ps[j]).0@) && m[ps[j].0@] == dialogs_m(ps[j].1@)
    &&& forall|k: Seq<char>| #[trigger] m.contains_key(k) ==> exists|j: int| 0 <= j < ps.len() && ps[j].0@ == k
}

/// The title map with the source texts left out of every dialogue list.
pub open spec fn stripped_map(m: Map<Seq<char>, Seq<DialogM>>) -> Map<Seq<char>, Seq<DialogM>> {
    m.map_values(|ds: Seq<DialogM>| strip_dialogs(ds))
}

/// What the data files of `scenes` hold: their title map, stripped when `strip` holds.
pub open spec fn data_map(scenes: Seq<Scene>, strip: bool) -> Map<Seq<char>, Seq<DialogM>> {
    if strip {
        stripped_map(title_map(scenes))
    } else {
        title_map(scenes)
    }
}

/// The language part of a locale such as `ja_JP`: what comes before the first `_`.
pub open spec fn language_of(locale: Seq<char>) -> Seq<char> {
    locale.take(find_char(locale, '_', 0))
}

impl Kukuri {
    /// A run with the default settings and no inputs.
    pub fn new() -> (r: Kukuri)
        ensures
            r.conf.use_l10n_output,
            r.conf.separate_output,
            r.conf.output_dir@ == "."@,
            r.conf.l10n_output_dir@ == "."@,
            r.inputs@.len() == 0,
    {
        Kukuri { conf: Config::new(), inputs: Vec::new() }
    }

    pub fn from_config(conf: Config) -> (r: Kukuri)
        ensures
            r.conf == conf,
            r.inputs@.len() == 0,
    {
        Kukuri { conf, inputs: Vec::new() }
    }

    pub fn set_output_dir(&mut self, new_dir: &str)
        ensures
            final(self).conf.output_dir@ == new_dir@,
            final(self).conf.l10n_output_dir == old(self).conf.l10n_output_dir,
            final(self).conf.outputs == old(self).conf.outputs,
            final(self).inputs == old(self).inputs,
    {
        self.conf.output_dir = new_dir.to_owned();
    }

    pub fn set_l10n_output_dir(&mut self, new_dir: &str)
        ensures
            final(self).conf.l10n_output_dir@ == new_dir@,
            final(self).conf.output_dir == old(self).conf.output_dir,
            final(self).conf.outputs == old(self).conf.outputs,
            final(self).inputs == old(self).inputs,
    {
        self.conf.l10n_output_dir = new_dir.to_owned();
    }

    pub fn append_input(&mut self, path: &str)
        ensures
            final(self).conf == old(self).conf,
            final(self).inputs@.len() == old(self).inputs@.len() + 1,
            final(self).inputs@.drop_last() == old(self).inputs@,
            final(self).inputs@.last()@ == path@,
    {
        self.inputs.push(path.to_owned());
        proof {
            assert(self.inputs@.drop_last() =~= old(self).inputs@);
        }
    }

    /// Reads `content` in the dialect its extension names (the configured dialect for an
    /// unknown extension). Talker lists hold no scenes; other dialects are not read.
    pub fn parse(&self, content: &str, ext: &str) -> (r: Result<Vec<Scene>, ImportError>)
        ensures
            ({
                let t = extension_spec(ext@, typename_spec(self.conf.default_script_type@));
                match t {
                    ImportType::KukuriScript => match r {
                        Ok(v) => parse_spec(content@) == Ok::<Seq<SceneM>, nat>(scenes_m(v@)),
                        Err(ImportError::Script(e)) => parse_spec(content@) == Err::<Seq<SceneM>, nat>(
                            e.line as nat,
                        ) && failed_at(lines_of(content@), e.line as int, e.path@),
                        Err(ImportError::Unsupported(_)) => false,
                    },
                    ImportType::KukuriTalkers => r matches Ok(v) && v@.len() == 0,
                    _ => r == Err::<Vec<Scene>, ImportError>(ImportError::Unsupported(t)),
                }
            }),
    {
        let t = ImportType::from_extension(ext, self.conf.default_script_type.as_str());
        match t {
            ImportType::KukuriScript => match KukuriScript::parse(content) {
                Ok(v) => Ok(v),
                Err(e) => Err(ImportError::Script(e)),
            },
            ImportType::KukuriTalkers => Ok(Vec::new()),
            _ => Err(ImportError::Unsupported(t)),
        }
    }

    /// The data formats to write: the configured names in order, repeats in a row dropped.
    pub fn export_types(&self) -> (r: Vec<ExportType>)
        ensures
            r@ == dedup(export_types_of(self.conf.outputs@)),
    {
        let names = &self.conf.outputs;
        let ghost all = export_types_of(names@);
        let mut r: Vec<ExportType> = Vec::new();
        let mut i: usize = 0;
        while i < names.len()
            invariant
                i <= names@.len(),
                all == export_types_of(names@),
                r@ == dedup(all.take(i as int)),
                i > 0 ==> r@.len() > 0 && r@.last() == all[i - 1],
            decreases names@.len() - i,
        {
            let t = ExportType::parse(names[i].as_str());
            proof {
                assert(all.take(i + 1).drop_last() =~= all.take(i as int));
                assert(all.take(i + 1).last() == t);
                if i > 0 {
                    assert(all.take(i + 1)[i - 1] == all[i - 1]);
                }
            }
            if i == 0 || r[r.len() - 1] != t {
                r.push(t);
            }
            i = i + 1;
        }
        proof {
            assert(all.take(i as int) =~= all);
        }
        r
    }

    /// The catalog formats to write: one PO catalog when any is configured.
    pub fn l10n_export_types(&self) -> (r: Vec<L10nExportType>)
        ensures
            r@.len() == if self.conf.l10n_outputs@.len() > 0 { 1int } else { 0int },
            forall|i: int| 0 <= i < r@.len() ==> r@[i] == L10nExportType::Po,
    {
        let mut r: Vec<L10nExportType> = Vec::new();
        if self.conf.l10n_outputs.len() > 0 {
            r.push(L10nExportType::parse(self.conf.l10n_outputs[0].as_str()));
        }
        r
    }

    /// Scene titles with their dialogue lists, each title once; a later scene with the same
    /// title replaces an earlier one, in the earlier one's place.
    #[verifier::spinoff_prover]
    pub fn scenes_to_hashmap(scenes: &Vec<Scene>) -> (r: Vec<(String, Vec<Dialog>)>)
        ensures
            lists_map(r@, title_map(scenes@)),
    {
        let mut r: Vec<(String, Vec<Dialog>)> = Vec::new();
        let mut i: usize = 0;
        proof {
            assert(scenes@.take(0) =~= Seq::<Scene>::empty());
        }
        while i < scenes.len()
            invariant
                i <= scenes@.len(),
                lists_map(r@, title_map(scenes@.take(i as int))),
            decreases scenes@.len() - i,
        {
            let sc = &scenes[i];
            let ghost m = title_map(scenes@.take(i as int));
            let ghost t = sc.title@;
            let ghost v = dialogs_m(sc.dialogs@);
            proof {
                assert(scenes@.take(i + 1).drop_last() =~= scenes@.take(i as int));
                assert(scenes@.take(i + 1).last() == scenes@[i as int]);
                assert(title_map(scenes@.take(i + 1)) == m.insert(t, v));
            }
            let mut j: usize = 0;
            let mut found = false;
            while j < r.len()
                invariant_except_break
                    !found,
                invariant
                    j <= r@.len(),
                    t == sc.title@,
                    forall|k: int| 0 <= k < j ==> (#[trigger] r@[k]).0@ != t,
                ensures
                    found ==> j < r@.len() && r@[j as int].0@ == t,
                    !found ==> forall|k: int| 0 <= k < r@.len() ==> (#[trigger] r@[k]).0@ != t,
                decreases r@.len() - j,
            {
                if str_eq(r[j].0.as_str(), sc.title.as_str()) {
                    found = true;
                    break;
                }
                j = j + 1;
            }
            let entry = (sc.title.clone(), crate::model::dialog::clone_dialogs(&sc.dialogs));
            let ghost old_r = r@;
            if found {
                r.set(j, entry);
                proof {
                    let m2 = m.insert(t, v);
                    assert forall|a: int, b: int| 0 <= a < b < r@.len() implies (#[trigger] r@[a]).0@
                        != (#[trigger] r@[b]).0@ by {
                        assert(r@[a].0@ == old_r[a].0@ && r@[b].0@ == old_r[b].0@);
                    }
                    assert forall|x: int| 0 <= x < r@.len() implies m2.contains_key((#[trigger] r@[x]).0@)
                        && m2[r@[x].0@] == dialogs_m(r@[x].1@) by {
                        if x != j {
                            assert(r@[x] == old_r[x]);
                            assert(old_r[x].0@ != old_r[j as int].0@);
                        }
                    }
                    assert forall|k: Seq<char>| #[trigger] m2.contains_key(k) implies exists|x: int|
                        0 <= x < r@.len() && r@[x].0@ == k by {
                        if k == t {
                            assert(r@[j as int].0@ == k);
                        } else {
                            assert(m.contains_key(k));
                            let x = choose|x: int| 0 <= x < old_r.len() && old_r[x].0@ == k;
                            assert(r@[x].0@ == k);
                        }
                    }
                }
            } else {
                r.push(entry);
                proof {
                    let m2 = m.insert(t, v);
                    assert forall|x: int| 0 <= x < r@.len() implies m2.contains_key((#[trigger] r@[x]).0@)
                        && m2[r@[x].0@] == dialogs_m(r@[x].1@) by {
                        if x < old_r.len() {
                            assert(r@[x] == old_r[x]);
                        }
                    }
                    assert forall|k: Seq<char>| #[trigger] m2.contains_key(k) implies exists|x: int|
                        0 <= x < r@.len() && r@[x].0@ == k by {
                        if k == t {
                            assert(r@[old_r.len() as int].0@ == k);
                        } else {
                            assert(m.contains_key(k));
                            let x = choose|x: int| 0 <= x < old_r.len() && old_r[x].0@ == k;
                            assert(r@[x].0@ == k);
                        }
                    }
                    assert forall|a: int, b: int| 0 <= a < b < r@.len() implies (#[trigger] r@[a]).0@
                        != (#[trigger] r@[b]).0@ by {
                        if b < old_r.len() {
                            assert(r@[a] == old_r[a] && r@[b] == old_r[b]);
                        } else {
                            assert(r@[a] == old_r[a]);
                            assert(old_r[a].0@ != t);
                        }
                    }
                }
            }
            i = i + 1;
        }
        proof {
            assert(scenes@.take(i as int) =~= scenes@);
        }
        r
    }

    /// The data files for a group of scenes (one input, or all of them) written under
    /// `file_stem`: none for no scenes, else one per configured format, named
    /// `<stem>.<extension>`. Source texts are left out when a catalog is written too.
    pub fn data_files(&self, scenes: &Vec<Scene>, file_stem: &str) -> (r: Vec<DataFile>)
        ensures
            scenes@.len() == 0 ==> r@.len() == 0,
            scenes@.len() > 0 ==> r@.len() == dedup(export_types_of(self.conf.outputs@)).len(),
            forall|k: int|
                0 <= k < r@.len() ==> {
                    let t = dedup(export_types_of(self.conf.outputs@))[k];
                    &&& (#[trigger] r@[k]).kind == t
                    &&& r@[k].name@ == file_stem@ + "."@ + export_extension(t)
                    &&& r@[k].strip == self.conf.use_l10n_output
                    &&& lists_map(r@[k].scenes@, data_map(scenes@, self.conf.use_l10n_output))
                },
    {
        let mut r: Vec<DataFile> = Vec::new();
        if scenes.len() == 0 {
            return r;
        }
        let types = self.export_types();
        let mut k: usize = 0;
        while k < types.len()
            invariant
                k <= types@.len(),
                types@ == dedup(export_types_of(self.conf.outputs@)),
                r@.len() == k,
                forall|j: int|
                    0 <= j < k ==> {
                        let t = types@[j];
                        &&& (#[trigger] r@[j]).kind == t
                        &&& r@[j].name@ == file_stem@ + "."@ + export_extension(t)
                        &&& r@[j].strip == self.conf.use_l10n_output
                        &&& lists_map(r@[j].scenes@, data_map(scenes@, self.conf.use_l10n_output))
                    },
            decreases types@.len() - k,
        {
            let t = types[k];
            let mut name = file_stem.to_owned();
            name.append(".");
            name.append(t.extension());
            let strip = self.conf.use_l10n_output;
            r.push(DataFile { name, kind: t, scenes: Self::data_pairs(scenes, strip), strip });
            k = k + 1;
        }
        r
    }

    /// The title map of `scenes`, with source texts left out when `strip` holds.
    fn data_pairs(scenes: &Vec<Scene>, strip: bool) -> (r: Vec<(String, Vec<Dialog>)>)
        ensures
            lists_map(r@, data_map(scenes@, strip)),
    {
        let pairs = Self::scenes_to_hashmap(scenes);
        if !strip {
            return pairs;
        }
        let ghost m = title_map(scenes@);
        let mut r: Vec<(String, Vec<Dialog>)> = Vec::new();
        let mut i: usize = 0;
        while i < pairs.len()
            invariant
                i <= pairs@.len(),
                m == title_map(scenes@),
                lists_map(pairs@, m),
                r@.len() == i,
                forall|j: int| 0 <= j < i ==> (#[trigger] r@[j]).0@ == pairs@[j].0@ && dialogs_m(r@[j].1@)
                    == strip_dialogs(dialogs_m(pairs@[j].1@)),
            decreases pairs@.len() - i,
        {
            let t = pairs[i].0.clone();
            let ds = strip_source_text(&pairs[i].1);
            r.push((t, ds));
            i = i + 1;
        }
        proof {
            let sm = stripped_map(m);
            assert forall|a: int, b: int| 0 <= a < b < r@.len() implies (#[trigger] r@[a]).0@
                != (#[trigger] r@[b]).0@ by {
                assert(pairs@[a].0@ != pairs@[b].0@);
            }
            assert forall|j: int| 0 <= j < r@.len() implies sm.contains_key((#[trigger] r@[j]).0@)
                && sm[r@[j].0@] == dialogs_m(r@[j].1@) by {
                assert(m.contains_key(pairs@[j].0@));
            }
            assert forall|k: Seq<char>| #[trigger] sm.contains_key(k) implies exists|x: int|
                0 <= x < r@.len() && r@[x].0@ == k by {
                assert(m.contains_key(k));
                let x = choose|x: int| 0 <= x < pairs@.len() && pairs@[x].0@ == k;
                assert(r@[x].0@ == k);
            }
        }
        r
    }

    /// The catalog files for the scenes and talkers of a run: none when there are no
    /// scenes or catalogs are off, else one PO catalog named `<language>.po`.
    pub fn catalog_files(&self, scenes: &Vec<Scene>, talkers: &Vec<Talker>) -> (r: Vec<CatalogFile>)
        ensures
            (scenes@.len() == 0 || !self.conf.use_l10n_output) ==> r@.len() == 0,
            (scenes@.len() > 0 && self.conf.use_l10n_output) ==> r@.len() == if self.conf.l10n_outputs@.len() > 0 {
                1int
            } else {
                0int
            },
            forall|k: int|
                0 <= k < r@.len() ==> (#[trigger] r@[k]).name@ == language_of(self.conf.orig_locale@) + "."@ + "po"@
                    && r@[k].text@ == po_head(language_of(self.conf.orig_locale@)) + po_talkers(talkers@)
                    + po_scenes(scenes@),
    {
        let mut r: Vec<CatalogFile> = Vec::new();
        if scenes.len() == 0 || !self.conf.use_l10n_output {
            return r;
        }
        let types = self.l10n_export_types();
        let locale = self.locale();
        let mut k: usize = 0;
        while k < types.len()
            invariant
                k <= types@.len(),
                types@.len() <= 1,
                types@.len() == if self.conf.l10n_outputs@.len() > 0 { 1int } else { 0int },
                locale@ == language_of(self.conf.orig_locale@),
                r@.len() == k,
                forall|j: int|
                    0 <= j < k ==> (#[trigger] r@[j]).name@ == language_of(self.conf.orig_locale@) + "."@ + "po"@
                        && r@[j].text@ == po_head(language_of(self.conf.orig_locale@)) + po_talkers(talkers@)
                        + po_scenes(scenes@),
            decreases types@.len() - k,
        {
            let mut name = locale.clone();
            name.append(".");
            name.append(types[k].extension());
            let text = Po::export_string(scenes, talkers, locale.as_str());
            r.push(CatalogFile { name, text });
            k = k + 1;
        }
        r
    }

    /// The stem of the data files of input `i`: the input file's own stem, or `output<i>`
    /// when it has none.
    pub fn file_stem(stem: Option<&str>, i: usize) -> (r: String)
        ensures
            stem is Some ==> r@ == stem->Some_0@,
            stem is None ==> r@ == "output"@ + crate::text::decimal(i as nat),
    {
        match stem {
            Some(s) => s.to_owned(),
            None => {
                let mut r = String::from_str("output");
                crate::text::push_decimal(&mut r, i);
                r
            },
        }
    }

    /// The language the catalog is written for: the configured locale up to its first `_`.
    pub fn locale(&self) -> (r: String)
        ensures
            r@ == language_of(self.conf.orig_locale@),
    {
        let cs = chars_of(self.conf.orig_locale.as_str());
        let k = find_char_exec(&cs, '_');
        proof {
            assert(cs@.subrange(0, k as int) =~= cs@.take(k as int));
        }
        string_of(&cs, 0, k)
    }
}

} // verus!
