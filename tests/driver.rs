use kukuri::config::Config;
use kukuri::export::ExportType;
use kukuri::import::kukuri_talkers::KukuriTalkers;
use kukuri::import::ImportType;
use kukuri::model::dialog::{Dialog, DialogBody, DialogKind, Scene};
use kukuri::model::kukuri_data::KukuriData;
use kukuri::model::talker::Talker;
use kukuri::model::{ImportError, Kukuri};

#[test]
fn mod_test_parse() {
    let kkr_src = r#"
+++
title = "TestDialog"
+++
A: This text is TestDialog0.
B: Are tests passssssssed?
"#;
    let mut sc = Scene::new();
    sc.title = String::from("TestDialog");
    sc.dialogs = vec![
        Dialog::from_dialog_data(
            DialogKind::Dialog,
            "TestDialog_1_A",
            vec![DialogBody::gen_text("This text is TestDialog0.")],
        ),
        Dialog::from_dialog_data(
            DialogKind::Dialog,
            "TestDialog_2_B",
            vec![DialogBody::gen_text("Are tests passssssssed?")],
        ),
    ];
    let kkr = Kukuri::new();

    let expected = vec![sc];
    assert_eq!(Ok(expected), kkr.parse(kkr_src, "kkr"));
}

#[test]
fn kukuri_talkers_test_parse() {
    let talker_src = r#"
A : Alpha
 B: Bravo
 C  :  Charlie
"#;
    let expected = KukuriData::from_talkers(vec![
        Talker::from_strs("A", "Alpha"),
        Talker::from_strs("B", "Bravo"),
        Talker::from_strs("C", "Charlie"),
    ]);

    assert_eq!(expected, KukuriTalkers::parse(talker_src));
}

#[test]
fn talker_lines_without_colon_are_skipped() {
    assert_eq!(
        KukuriData::from_talkers(vec![Talker::from_strs("D", "Delta")]),
        KukuriTalkers::parse("nothing here\nD: Delta # note\n")
    );
    assert_eq!(None, KukuriTalkers::line_parse("no colon"));
}

#[test]
fn unsupported_dialects_give_an_error() {
    let kkr = Kukuri::new();
    assert_eq!(Err(ImportError::Unsupported(ImportType::Yarn)), kkr.parse("x", "yarn"));
    assert_eq!(Err(ImportError::Unsupported(ImportType::Ink)), kkr.parse("x", "ink"));
    assert_eq!(Ok(Vec::new()), kkr.parse("A: Alpha", "kkrt"));
}

#[test]
fn import_type_names() {
    assert_eq!(ImportType::KukuriTalkers, ImportType::from_typename("kukuri_talkers"));
    assert_eq!(ImportType::KukuriScript, ImportType::from_typename("whatever"));
    assert_eq!(ImportType::Yarn, ImportType::from_extension("txt", "yarn"));
    assert_eq!(ImportType::KukuriScript, ImportType::from_extension("kkr", "ink"));
}

#[test]
fn settings_defaults_and_setters() {
    let mut kkr = Kukuri::from_config(Config::new());
    assert_eq!(".", kkr.conf.output_dir);
    kkr.set_output_dir("/tmp/out");
    kkr.set_l10n_output_dir("/tmp/l10n");
    kkr.append_input("a.kkr");
    assert_eq!("/tmp/out", kkr.conf.output_dir);
    assert_eq!("/tmp/l10n", kkr.conf.l10n_output_dir);
    assert_eq!(vec![String::from("a.kkr")], kkr.inputs);
}

#[test]
fn export_types_drop_repeats_in_a_row() {
    let mut conf = Config::new();
    conf.outputs = vec![
        String::from("gd"),
        String::from("gd"),
        String::from("json"),
        String::from("gd"),
    ];
    let kkr = Kukuri::from_config(conf);
    assert_eq!(
        vec![ExportType::GDScript, ExportType::Json, ExportType::GDScript],
        kkr.export_types()
    );
}

#[test]
fn locale_language_part() {
    let mut conf = Config::new();
    conf.orig_locale = String::from("ja_JP");
    assert_eq!("ja", Kukuri::from_config(conf).locale());
    assert_eq!("en", Kukuri::new().locale());
}

#[test]
fn second_settings_defaults() {
    let c = kukuri::model::config::Config::new();
    assert!(c.use_l10n_output);
    assert_eq!("en_US", c.orig_locale);
    assert_eq!(vec![String::from("po")], c.l10n_outputs);
}

#[test]
fn scene_map_keeps_last_scene_per_title() {
    let mut a = Scene::new();
    a.title = String::from("A");
    a.dialogs.push(Dialog::from_dialog_data(DialogKind::Dialog, "A_1_x", vec![DialogBody::gen_text("first")]));
    let mut b = Scene::new();
    b.title = String::from("B");
    let mut a2 = Scene::new();
    a2.title = String::from("A");
    a2.dialogs.push(Dialog::from_dialog_data(DialogKind::Dialog, "A_1_y", vec![DialogBody::gen_text("second")]));
    let map = Kukuri::scenes_to_hashmap(&vec![a, b, a2.clone()]);
    assert_eq!(2, map.len());
    assert_eq!("A", map[0].0);
    assert_eq!(a2.dialogs, map[0].1);
    assert_eq!("B", map[1].0);
    assert!(map[1].1.is_empty());
}

#[test]
fn data_files_one_per_format() {
    let mut conf = Config::new();
    conf.outputs = vec![String::from("gd"), String::from("json")];
    let kkr = Kukuri::from_config(conf);
    let mut sc = Scene::new();
    sc.title = String::from("T");
    sc.dialogs.push(Dialog::from_dialog_data(DialogKind::Dialog, "T_1_A", vec![DialogBody::gen_text("x")]));
    let files = kkr.data_files(&vec![sc], "story");
    assert_eq!(2, files.len());
    assert_eq!("story.gd", files[0].name);
    assert_eq!("story.json", files[1].name);
    assert_eq!(ExportType::Json, files[1].kind);
    assert!(files[0].strip);
    assert_eq!("T", files[0].scenes[0].0);
    assert!(files[0].scenes[0].1[0].args.is_empty());
    assert!(kkr.data_files(&Vec::new(), "story").is_empty());
}

#[test]
fn catalog_files_use_language() {
    let mut conf = Config::new();
    conf.orig_locale = String::from("fr_FR");
    let kkr = Kukuri::from_config(conf);
    let mut sc = Scene::new();
    sc.dialogs.push(Dialog::from_dialog_data(DialogKind::Dialog, "S_1_A", vec![DialogBody::gen_text("x")]));
    let files = kkr.catalog_files(&vec![sc], &Vec::new());
    assert_eq!(1, files.len());
    assert_eq!("fr.po", files[0].name);
    assert!(files[0].text.contains("Language: fr\\n"));
    assert!(files[0].text.ends_with("msgid \"S_1_A\"\nmsgstr \"x\"\n\n\n"));
    let mut off = Config::new();
    off.use_l10n_output = false;
    assert!(Kukuri::from_config(off).catalog_files(&Vec::new(), &Vec::new()).is_empty());
}

#[test]
fn file_stem_falls_back_to_numbered_output() {
    assert_eq!("story", Kukuri::file_stem(Some("story"), 3));
    assert_eq!("output12", Kukuri::file_stem(None, 12));
}
