use kukuri::import::kukuri::{KukuriScript, SceneProcessData};
use kukuri::model::dialog::{DialogBody, DialogKind};

#[test]
fn test_get_dialog_data() {
    let mut s_meta = SceneProcessData::new();
    s_meta.dialog_count_up();
    s_meta.set_scene_title("DialogTest");

    let tests = [
        ("A: test dialog", (String::from("DialogTest_1_A"), vec![DialogBody::Text(String::from("test dialog"))])),
        ("non-talker dialog", (String::from("DialogTest_1_unknown"), vec![DialogBody::Text(String::from("non-talker dialog"))])),
    ];

    for &(src, ref expected) in &tests {
        let a = &KukuriScript::dialog_process(src, &s_meta);
        assert_eq!(expected.0, a.0);
        assert_eq!(expected.1, a.1);
    }
}

#[test]
fn test_get_dialog_kind() {
    let tests = [
        ("$ jump ttt", DialogKind::Command),
        ("A: test dialog", DialogKind::Dialog),
        ("non-talker dialog", DialogKind::Dialog),
        ("  # commented line", DialogKind::Dialog),
        ("* choice1", DialogKind::Choices),
        ("+ choice2", DialogKind::Choices),
        ("- choice3", DialogKind::Choices),
    ];

    for &(src, ref expected) in &tests {
        assert_eq!(expected, &KukuriScript::get_dialog_kind(src))
    }
}

#[test]
fn test_get_command_data() {
    let new_db_v = |x: Vec<&str>| {
        let mut v: Vec<DialogBody> = Vec::new();
        for arg in x {
            v.push(DialogBody::Text(String::from(arg)));
        }
        v
    };

    let srcs = [
        "$ jump TestDialog",
        "$ test ttt ttt ttt ttt ttt ttt ttt ttt",
        "$ set VAR 1",
    ];

    let expected = [
        ("jump", vec!["TestDialog"]),
        ("test", vec!["ttt", "ttt", "ttt", "ttt", "ttt", "ttt", "ttt", "ttt"]),
        ("set", vec!["VAR", "1"]),
    ];

    let mut tests = Vec::new();
    for i in 0..srcs.len() {
        let expected0 = String::from(expected[i].0);
        let expected1 = new_db_v(expected[i].1.clone());
        tests.push((srcs[i], (expected0, expected1)));
    }

    for (src, (e0, e1)) in tests {
        let (a0, a1) = KukuriScript::get_command_data(src);
        assert_eq!(e0, a0);
        assert_eq!(e1, a1);
    }
}

#[test]
fn kukuri_test_trim_comment() {
    let tests = [
        ("# head of line comment", ""),
        ("end of line comment# comment", "end of line comment"),
        ("middle of # line comment", "middle of "),
        ("A: comment nothing", "A: comment nothing"),
        ("comment nothing", "comment nothing"),
        ("# $ cmd comment test", ""),
        ("$ cmd comment # test", "$ cmd comment "),
    ];

    for &(src, ref expected) in &tests {
        assert_eq!(expected, &KukuriScript::trim_comment(src));
    }
}

#[test]
fn kukuri_test_is_scene_end_symbol() {
    let tests = [
        ("===", true),
        ("==not scene end==", false),
        ("========", true),
        ("   === untrimmed line", true),
        ("not===scene end", false),
    ];

    for &(src, ref expected) in &tests {
        assert_eq!(expected, &KukuriScript::is_scene_end_symbol(src));
    }
}

#[test]
fn kukuri_test_is_header_symbol() {
    let tests = [
        ("+++", true),
        ("++++++", true),
        ("++not header symbol++", false),
        ("   +++ untrimmed line", true),
        ("not+++header symbol", false),
    ];

    for &(src, ref expected) in &tests {
        assert_eq!(expected, &KukuriScript::is_header_symbol(src));
    }
}

#[test]
fn test_count_indent() {
    let tests = [
        ("", 0),
        ("A: space 0", 0),
        ("  A: space 2", 2),
        ("    A: space 4", 4),
        ("\tA: tab1", 1),
        ("\t\tA: tab2", 2),
    ];

    for &(src, expected) in &tests {
        assert_eq!(expected, KukuriScript::count_indent(src));
    }
}

#[test]
fn legacy_parse_reads_flat_scenes() {
    let src = "+++\ntitle = 'Old'\n+++\nA: hi\n$ jump X\n* pick\n===\nB: bye\n";
    let scenes = KukuriScript::parse(src);
    assert_eq!(2, scenes.len());
    assert_eq!("Old", scenes[0].title);
    assert_eq!(3, scenes[0].dialogs.len());
    assert_eq!("Old_1_A", scenes[0].dialogs[0].id);
    assert_eq!("jump", scenes[0].dialogs[1].id);
    assert_eq!("choices", scenes[0].dialogs[2].id);
    assert_eq!("", scenes[1].title);
    assert_eq!("_1_B", scenes[1].dialogs[0].id);
}

#[test]
fn legacy_header_split() {
    assert_eq!(
        (String::from("title"), String::from("\"X\"")),
        KukuriScript::header_split(" title = \"X\" ")
    );
}
