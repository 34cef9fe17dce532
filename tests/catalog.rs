use kukuri::export::po::Po;
use kukuri::export::{strip_source_text, ExportType, L10nExportType};
use kukuri::model::dialog::{ChoiceData, Dialog, DialogBody, DialogKind, Scene};
use kukuri::model::talker::Talker;

#[test]
fn test_gen_init_string() {
    let expected = "\
msgid \"\"
msgstr \"\"
\"Last-Translator: Automatically generated\\n\"
\"Language-Team: none\\n\"
\"Language: ja\\n\"
\"MIME-Version: 1.0\\n\"
\"Content-Type: text/plain; charset=UTF-8\\n\"
\"Plural-Forms: nplurals=1; plural=0;\\n\"


";
    assert_eq!(expected, Po::gen_init_string("ja"));
}

#[test]
fn test_convert_dialog() {
    let d0 = Dialog::from_dialog_data(
        DialogKind::Dialog,
        "TestDialog0",
        vec![DialogBody::gen_text("てててすと")],
    );
    let expected0 = "\
msgid \"TestDialog0\"
msgstr \"てててすと\"


";
    assert_eq!(expected0, Po::convert_dialog(&d0));

    let mut cd0 = ChoiceData::from_texts("TestChoice0", "てすと選択肢0");
    cd0.dialogs.push(Dialog::from_dialog_data(
        DialogKind::Dialog,
        "TestInnerDialog0",
        vec![DialogBody::gen_text("てすとだいあろぐ")],
    ));

    let cd1 = ChoiceData::from_texts("TestChoice1", "てすと選択肢1");

    let d1 = Dialog::from_dialog_data(
        DialogKind::Choices,
        "",
        vec![DialogBody::Choice(cd0), DialogBody::Choice(cd1)],
    );

    let expected1 = "\
msgid \"TestChoice0\"
msgstr \"てすと選択肢0\"


msgid \"TestInnerDialog0\"
msgstr \"てすとだいあろぐ\"


msgid \"TestChoice1\"
msgstr \"てすと選択肢1\"


";

    assert_eq!(expected1, Po::convert_dialog(&d1));
}

#[test]
fn test_convert_talker() {
    let expected = "\
msgid \"A\"
msgstr \"Alpha\"


";
    let talker = Talker::from_strs("A", "Alpha");
    assert_eq!(expected, Po::convert_talker(&talker));
}

#[test]
fn quotes_are_escaped() {
    assert_eq!("say \\\"hi\\\"", Po::quote_escape("say \"hi\""));
    assert_eq!("msgid \"a\\\"b\"\n", Po::gen_msgid("a\"b"));
}

#[test]
fn commands_give_no_entry() {
    let d = Dialog::from_dialog_data(DialogKind::Command, "jump", vec![DialogBody::gen_text("X")]);
    assert_eq!("", Po::convert_dialog(&d));
}

#[test]
fn export_string_puts_talkers_first() {
    let mut sc = Scene::new();
    sc.dialogs.push(Dialog::from_dialog_data(
        DialogKind::Dialog,
        "S_1_A",
        vec![DialogBody::gen_text("Hi")],
    ));
    let out = Po::export_string(&vec![sc], &vec![Talker::from_strs("A", "Alpha")], "en");
    let expected = format!(
        "{}{}{}",
        Po::gen_init_string("en"),
        "msgid \"A\"\nmsgstr \"Alpha\"\n\n\n",
        "msgid \"S_1_A\"\nmsgstr \"Hi\"\n\n\n"
    );
    assert_eq!(expected, out);
}

#[test]
fn export_type_names() {
    assert_eq!(ExportType::Json, ExportType::parse("json"));
    assert_eq!(ExportType::GDScript, ExportType::parse("gd"));
    assert_eq!(ExportType::GDScript, ExportType::parse("other"));
    assert_eq!("json", ExportType::Json.extension());
    assert_eq!("gd", ExportType::GDScript.extension());
    assert_eq!(L10nExportType::Po, L10nExportType::parse("fluent"));
    assert_eq!("po", L10nExportType::Po.extension());
}

#[test]
fn stripping_drops_texts_and_labels() {
    let mut cd = ChoiceData::from_texts("S_1_C1L1", "Go");
    cd.dialogs.push(Dialog::from_dialog_data(
        DialogKind::Dialog,
        "S_1_C1L1_1_A",
        vec![DialogBody::gen_text("Hello")],
    ));
    let ds = vec![
        Dialog::from_dialog_data(DialogKind::Dialog, "S_1_B", vec![DialogBody::gen_text("Hi")]),
        Dialog::from_dialog_data(DialogKind::Command, "set", vec![DialogBody::gen_text("X")]),
        Dialog::from_dialog_data(DialogKind::Choices, "S_2", vec![DialogBody::Choice(cd)]),
    ];
    let stripped = strip_source_text(&ds);
    assert!(stripped[0].args.is_empty());
    assert_eq!("S_1_B", stripped[0].id);
    assert_eq!(vec![DialogBody::gen_text("X")], stripped[1].args);
    let mut expected_choice = ChoiceData::from_texts("S_1_C1L1", "");
    expected_choice.dialogs.push(Dialog::from_dialog_data(DialogKind::Dialog, "S_1_C1L1_1_A", Vec::new()));
    assert_eq!(vec![DialogBody::Choice(expected_choice)], stripped[2].args);
}
