use kukuri::import::kukuri_script::{KukuriScript, MetaData, SceneProcessData, ScriptError};
use kukuri::model::dialog::{ChoiceData, Dialog, DialogBody, DialogKind, Scene};

#[test]
fn test_parse_dialog_kind() {
    let tests = [
        ("$ jump ttt", DialogKind::Command),
        ("A: test dialog", DialogKind::Dialog),
        ("non-talker dialog", DialogKind::Dialog),
        ("  # commented line", DialogKind::Dialog),
        ("* choice1", DialogKind::Choices),
        ("+ choice2", DialogKind::Choices),
        ("- choice3", DialogKind::Choices),
    ];

    for &(src, expected) in &tests {
        assert_eq!(expected, KukuriScript::parse_dialog_kind(src))
    }
}

#[test]
fn kukuri_script_test_trim_comment() {
    let tests = [
        ("# head of line comment", ""),
        ("end of line comment# comment", "end of line comment"),
        ("middle of # line comment", "middle of "),
        ("A: comment nothing", "A: comment nothing"),
        ("comment nothing", "comment nothing"),
        ("# $ cmd comment test", ""),
        ("$ cmd comment # test", "$ cmd comment "),
    ];

    for &(src, ref expected) in &tests {
        assert_eq!(expected, &KukuriScript::trim_comment(src));
    }
}

#[test]
fn kukuri_script_test_is_header_symbol() {
    let tests = [
        ("+++", true),
        ("++++++", true),
        ("++not header symbol++", false),
        ("   +++ untrimmed line", true),
        ("not+++header symbol", false),
    ];

    for &(src, expected) in &tests {
        assert_eq!(expected, KukuriScript::is_header_symbol(src))
    }
}

#[test]
fn kukuri_script_test_is_scene_end_symbol() {
    let tests = [
        ("===", true),
        ("==not scene end==", false),
        ("========", true),
        ("   === untrimmed line", true),
        ("not===scene end", false),
    ];

    for &(src, ref expected) in &tests {
        assert_eq!(expected, &KukuriScript::is_scene_end_symbol(src));
    }
}

#[test]
fn test_dialog_count_up() {
    let mut sp_data = SceneProcessData::new();

    let tests = [Vec::new(), vec![0], vec![1], vec![2], vec![3], vec![4]];

    for expected in &tests {
        assert_eq!(*expected, sp_data.dialog_idxs);
        sp_data.dialog_count_up();
    }

    sp_data.nest_lv_count_up();
    let tests2 = [vec![5], vec![5, 0], vec![5, 1], vec![5, 2]];
    for expected in &tests2 {
        assert_eq!(*expected, sp_data.dialog_idxs);
        sp_data.dialog_count_up();
    }

    sp_data.nest_lv_count_down(0);
    sp_data.truncate_idxs(0);
    let tests3 = [vec![5], vec![6], vec![7], vec![8]];
    for expected in &tests3 {
        assert_eq!(*expected, sp_data.dialog_idxs);
        sp_data.dialog_count_up();
    }
}

#[test]
fn test_count_indent_chars() {
    let tests = [
        ("", 0),
        ("A: space 0", 0),
        ("  A: space 2", 2),
        ("    A: space 4", 4),
        ("\tA: tab1", 1),
        ("\t\tA: tab2", 2),
    ];

    for &(src, expected) in &tests {
        assert_eq!(expected, SceneProcessData::count_indent_chars(src));
    }
}

#[test]
fn test_latest_index_cnt() {
    let mut sp_data = SceneProcessData::new();
    assert_eq!(0, sp_data.latest_indent_cnt());

    sp_data.indent_cnts.push(4);
    assert_eq!(4, sp_data.latest_indent_cnt());

    sp_data.indent_cnts.push(8);
    assert_eq!(8, sp_data.latest_indent_cnt());

    sp_data.indent_cnts.remove(0);
    assert_eq!(8, sp_data.latest_indent_cnt());

    sp_data.indent_cnts.clear();
    assert_eq!(0, sp_data.latest_indent_cnt());
}

#[test]
fn test_parse_indent_lv() {
    let mut sp_data = SceneProcessData::new();
    [
        ("foobar", 0),
        ("  foobar", 1),
        ("    foobar", 2),
        ("  foobar", 1),
        ("foobar", 0),
    ]
    .iter()
    .for_each(|&(src, expected)| {
        assert_eq!(expected, sp_data.parse_indent_lv(src));
    });
}

#[test]
fn test_gen_dialog_label() {
    let mut sp_data = SceneProcessData::new();
    sp_data.dialog_idxs.push(5);
    sp_data.choice_idxs.push((2, 3));
    assert_eq!("UnknownScene_6_C3L4", sp_data.gen_dialog_label());

    sp_data.dialog_idxs.push(2);
    sp_data.choice_idxs.push((8, 5));
    assert_eq!("UnknownScene_6_C3L4_3_C9L6", sp_data.gen_dialog_label());

    sp_data.dialog_idxs.clear();
    sp_data.dialog_idxs.push(2);
    assert_eq!("UnknownScene_3_C3L4", sp_data.gen_dialog_label());

    sp_data.choice_idxs.clear();
    assert_eq!("UnknownScene_3", sp_data.gen_dialog_label());
}

#[test]
fn test_choice_idx_count_up() {
    let mut sp_data = SceneProcessData::new();
    sp_data.choice_idx_count_up();
    assert_eq!(Vec::<(usize, usize)>::new(), sp_data.choice_idxs);

    sp_data.nest_lv_count_up();
    sp_data.choice_idx_count_up();
    assert_eq!(vec![(0, 0)], sp_data.choice_idxs);
    sp_data.choice_idx_count_up();
    assert_eq!(vec![(0, 1)], sp_data.choice_idxs);

    sp_data.nest_lv_count_up();
    sp_data.choice_idx_count_up();
    assert_eq!(vec![(0, 1), (0, 0)], sp_data.choice_idxs);
    sp_data.choice_idx_count_up();
    assert_eq!(vec![(0, 1), (0, 1)], sp_data.choice_idxs);

    sp_data.nest_lv_count_down(1);
    sp_data.choice_idx_count_up();
    assert_eq!(vec![(1, 0)], sp_data.choice_idxs);
}

#[test]
fn test_inner_scene_idxs() {
    let mut sp_data = SceneProcessData::new();
    assert_eq!(Vec::<usize>::new(), sp_data.inner_scene_idxs());

    sp_data.nest_lv = 1;
    sp_data.dialog_idxs.push(5);
    sp_data.choice_idxs.push((2, 3));
    assert_eq!(vec![5, 2, 3], sp_data.inner_scene_idxs());

    sp_data.nest_lv = 2;
    sp_data.dialog_idxs.push(8);
    sp_data.choice_idxs.push((5, 2));
    assert_eq!(vec![5, 2, 3, 8, 5, 2], sp_data.inner_scene_idxs());

    sp_data.nest_lv = 0;
    assert_eq!(Vec::<usize>::new(), sp_data.inner_scene_idxs());
}

fn spoken(id: &str, text: &str) -> Dialog {
    Dialog::from_dialog_data(DialogKind::Dialog, id, vec![DialogBody::gen_text(text)])
}

#[test]
fn flat_dialogue_scenario() {
    let src = "+++\ntitle = \"Intro\"\n+++\nA: Hello.\nB: Hi there.\n";
    let scenes = KukuriScript::parse(src).unwrap();
    assert_eq!(1, scenes.len());
    assert_eq!("Intro", scenes[0].title);
    assert_eq!(
        vec![spoken("Intro_1_A", "Hello."), spoken("Intro_2_B", "Hi there.")],
        scenes[0].dialogs
    );
}

#[test]
fn nested_choice_scenario() {
    let src = "+++\ntitle = \"Fork\"\n+++\n* Go left\n  A: You went left.\n* Go right\n  A: You went right.\n";
    let scenes = KukuriScript::parse(src).unwrap();
    assert_eq!(1, scenes.len());
    let ds = &scenes[0].dialogs;
    assert_eq!(1, ds.len());
    assert_eq!(DialogKind::Choices, ds[0].kind);
    assert_eq!("Fork_1", ds[0].id);
    let mut left = ChoiceData::from_texts("Fork_1_C1L1", "Go left");
    left.dialogs.push(spoken("Fork_1_C1L1_1_A", "You went left."));
    let mut right = ChoiceData::from_texts("Fork_1_C1L2", "Go right");
    right.dialogs.push(spoken("Fork_1_C1L2_1_A", "You went right."));
    assert_eq!(vec![DialogBody::Choice(left), DialogBody::Choice(right)], ds[0].args);
}

#[test]
fn comment_escape_scenario() {
    assert_eq!(
        "A: literal \\# not a comment ",
        KukuriScript::trim_comment("A: literal \\# not a comment # but this is")
    );
}

#[test]
fn flat_script_gives_one_dialog_per_line() {
    let src = "A: one\nB: two\n  three\nC: four\n";
    let scenes = KukuriScript::parse(src).unwrap();
    assert_eq!(1, scenes.len());
    let ids: Vec<&str> = scenes[0].dialogs.iter().map(|d| d.id.as_str()).collect();
    assert_eq!(
        vec!["UnknownScene_1_A", "UnknownScene_2_B", "UnknownScene_3_unknown", "UnknownScene_4_C"],
        ids
    );
}

#[test]
fn reading_twice_gives_the_same_tree() {
    let src = "+++\ntitle = \"Fork\"\n+++\n* a\n  A: x\n  - b\n    B: y\n* c\n$ jump Fork\n===\nA: next\n";
    assert_eq!(KukuriScript::parse(src), KukuriScript::parse(src));
}

#[test]
fn scene_end_right_after_header_gives_empty_scene() {
    let src = "+++\ntitle = \"Empty\"\n+++\n===\n";
    let scenes = KukuriScript::parse(src).unwrap();
    assert_eq!(1, scenes.len());
    assert_eq!("Empty", scenes[0].title);
    assert!(scenes[0].dialogs.is_empty());
}

#[test]
fn scene_end_starts_a_new_scene() {
    let src = "+++\ntitle = \"One\"\n+++\nA: a\n===\nB: b\n";
    let scenes = KukuriScript::parse(src).unwrap();
    assert_eq!(2, scenes.len());
    assert_eq!(vec![spoken("One_1_A", "a")], scenes[0].dialogs);
    assert_eq!("UnknownScene", scenes[1].title);
    assert_eq!(vec![spoken("UnknownScene_1_B", "b")], scenes[1].dialogs);
}

#[test]
fn commands_keep_their_words() {
    let scenes = KukuriScript::parse("$ set VAR 1\n").unwrap();
    assert_eq!(
        vec![Dialog::from_dialog_data(
            DialogKind::Command,
            "set",
            vec![DialogBody::gen_text("VAR"), DialogBody::gen_text("1")]
        )],
        scenes[0].dialogs
    );
}

#[test]
fn command_before_choice_is_an_addressing_error() {
    let src = "$ cmd\n* a\n  A: hi\n";
    match KukuriScript::parse(src) {
        Err(ScriptError { line, .. }) => assert_eq!(3, line),
        Ok(v) => panic!("expected an error, got {:?}", v),
    }
}

#[test]
fn malformed_header_keeps_default_title() {
    let src = "+++\ntitle = = broken\n+++\nA: x\n";
    let scenes = KukuriScript::parse(src).unwrap();
    assert_eq!("UnknownScene_1_A", scenes[0].dialogs[0].id);
    assert_eq!("UnknownScene", scenes[0].title);
}

#[test]
fn header_title_is_read() {
    let mut m = MetaData::new();
    m.parse("title = \"Intro\"\n");
    assert_eq!("Intro", m.title);
    m.parse("other = 1\n");
    assert_eq!("UnknownScene", m.title);
}

#[test]
fn deeper_indent_opens_next_level() {
    let mut sp = SceneProcessData::new();
    assert_eq!(1, sp.indent_level(2));
    assert_eq!(2, sp.indent_level(5));
    assert_eq!(1, sp.indent_level(3));
    assert_eq!(3, sp.indent_level(9));
}

#[test]
fn empty_script_gives_no_scene() {
    assert_eq!(Ok(Vec::<Scene>::new()), KukuriScript::parse(""));
    assert_eq!(Ok(Vec::<Scene>::new()), KukuriScript::parse("# only a comment\n\n"));
}

#[test]
fn continuing_choice_takes_next_label_of_its_group() {
    let src = "* a\n  * b\n* c\n";
    let scenes = KukuriScript::parse(src).unwrap();
    let ds = &scenes[0].dialogs;
    assert_eq!(1, ds.len());
    assert_eq!("UnknownScene_1", ds[0].id);
    let ids: Vec<String> = ds[0]
        .args
        .iter()
        .map(|b| match b {
            DialogBody::Choice(cd) => cd.id.clone(),
            DialogBody::Text(t) => t.clone(),
        })
        .collect();
    assert_eq!(vec!["UnknownScene_1_C1L1", "UnknownScene_1_C1L2"], ids);
    match &ds[0].args[0] {
        DialogBody::Choice(cd) => {
            assert_eq!(1, cd.dialogs.len());
            assert_eq!("UnknownScene_1_C1L1_1", cd.dialogs[0].id);
        }
        _ => panic!("expected a choice"),
    }
}

#[test]
fn second_group_after_dialogue_starts_at_first_label() {
    let src = "* a\n  A: x\nB: y\n* b\n";
    let scenes = KukuriScript::parse(src).unwrap();
    let ds = &scenes[0].dialogs;
    assert_eq!(3, ds.len());
    assert_eq!("UnknownScene_3", ds[2].id);
    assert_eq!(1, ds[0].args.len());
    assert_eq!(vec![DialogBody::Choice(ChoiceData::from_texts("UnknownScene_3_C2L1", "b"))], ds[2].args);
}

#[test]
fn line_ending_in_colon_is_all_text() {
    let scenes = KukuriScript::parse("A:\n").unwrap();
    assert_eq!(vec![spoken("UnknownScene_1_unknown", "A:")], scenes[0].dialogs);
}

#[test]
fn repeated_header_key_falls_back_to_default_title() {
    let src = "+++\ntitle = \"X\"\ntitle = \"Y\"\n+++\nA: x\n";
    let scenes = KukuriScript::parse(src).unwrap();
    assert_eq!("UnknownScene", scenes[0].title);
    assert_eq!("UnknownScene_1_A", scenes[0].dialogs[0].id);
}

#[test]
fn addressing_error_reports_attempted_path() {
    let err = KukuriScript::parse("$ cmd\n* a\n  A: hi\n").unwrap_err();
    assert_eq!(3, err.line);
    assert_eq!(vec![0, 0, 0], err.path);
}

#[test]
fn blank_and_comment_lines_do_not_count() {
    let src = "+++\ntitle = \"T\"\n+++\n\nA: one\n# note\n\nB: two\n";
    let scenes = KukuriScript::parse(src).unwrap();
    assert_eq!(1, scenes.len());
    assert_eq!(vec![spoken("T_1_A", "one"), spoken("T_2_B", "two")], scenes[0].dialogs);
}
