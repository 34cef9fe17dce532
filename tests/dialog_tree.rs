use kukuri::model::dialog::{ChoiceData, Dialog, DialogBody, DialogKind, Scene};

fn gen_test_scene() -> Scene {
    let s = String::new();
    let inner_dialogs = vec![
        Dialog::new(),
        Dialog::from_dialog_data(DialogKind::Dialog, "innerdialog_0", Vec::new()),
    ];

    let inner_choices = Dialog {
        kind: DialogKind::Choices,
        id: s.clone(),
        args: vec![
            DialogBody::Choice(ChoiceData::new()),
            DialogBody::Choice(ChoiceData {
                dialogs: inner_dialogs.clone(),
                ..Default::default()
            }),
        ],
    };

    let choices = Dialog {
        kind: DialogKind::Choices,
        id: s.clone(),
        args: vec![DialogBody::Choice(ChoiceData {
            dialogs: vec![Dialog::new(), Dialog::new(), Dialog::new(), inner_choices],
            ..Default::default()
        })],
    };

    Scene {
        title: String::from(""),
        dialogs: vec![Dialog::new(), Dialog::new(), choices],
    }
}

#[test]
fn test_inner_dialogs_as_mut() {
    let mut inner_dialogs = vec![
        Dialog::new(),
        Dialog::from_dialog_data(DialogKind::Dialog, "innerdialog_0", Vec::new()),
    ];

    let mut scene = gen_test_scene();

    assert_eq!(
        &mut inner_dialogs,
        scene.inner_dialogs_as_mut(&mut vec![2, 0, 0, 3, 0, 1])
    )
}

#[test]
fn test_truncate_scene_idxs() {
    [
        (vec![5, 0, 0], Vec::new()),
        (vec![1, 0, 0, 3, 0, 2], vec![1, 0, 0]),
        (vec![3, 1, 3, 5, 2, 1, 8, 3, 2], vec![3, 1, 3, 5, 2, 1]),
    ]
    .iter_mut()
    .for_each(|(src, expected)| assert_eq!(expected, Scene::truncate_scene_idxs(src)))
}

#[test]
fn test_inner_parent_dialogs_as_mut() {
    let mut scene = gen_test_scene();
    let mut scene2 = scene.clone();
    assert_eq!(
        &mut scene.dialogs.clone(),
        scene.inner_parent_dialogs_as_mut(&mut vec![2, 0, 0])
    );

    match scene.dialogs[2].args[0] {
        DialogBody::Choice(ref mut cd) => assert_eq!(
            &mut cd.dialogs,
            scene2.inner_parent_dialogs_as_mut(&mut vec![2, 0, 0, 3, 0, 1])
        ),
        _ => panic!("Unable to find ChoiceData"),
    };
}

#[test]
fn test_inner_choices_as_mut() {
    let s = String::new();

    let inner_dialogs = vec![
        Dialog::new(),
        Dialog::from_dialog_data(DialogKind::Dialog, "innerdialog_0", Vec::new()),
    ];

    let mut inner_choices = Dialog {
        kind: DialogKind::Choices,
        id: s.clone(),
        args: vec![
            DialogBody::Choice(ChoiceData::new()),
            DialogBody::Choice(ChoiceData {
                dialogs: inner_dialogs.clone(),
                ..Default::default()
            }),
        ],
    };

    let mut choices = Dialog {
        kind: DialogKind::Choices,
        id: s.clone(),
        args: vec![DialogBody::Choice(ChoiceData {
            dialogs: vec![
                Dialog::new(),
                Dialog::new(),
                Dialog::new(),
                inner_choices.clone(),
            ],
            ..Default::default()
        })],
    };

    let mut scene = gen_test_scene();

    assert_eq!(&mut choices, scene.inner_choices_as_mut(&mut vec![2, 0, 0]));
    assert_eq!(
        &mut inner_choices,
        scene.inner_choices_as_mut(&mut vec![2, 0, 0, 3, 0, 1])
    )
}

#[test]
fn scene_new_has_default_title() {
    let sc = Scene::new();
    assert_eq!("UnknownScene", sc.title);
    assert!(sc.dialogs.is_empty());
}

#[test]
fn scene_reset_clears_dialogs() {
    let mut sc = gen_test_scene();
    sc.reset();
    assert_eq!(Scene::new(), sc);
}

#[test]
fn clone_keeps_the_tree() {
    let sc = gen_test_scene();
    assert_eq!(sc, sc.clone());
}
