//! Writers of the finished scenes: data files and the localization catalog.
pub mod po;

use crate::import::str_eq;
use crate::model::dialog::{
    bodies_m, body_m, dialog_m, dialogs_m, lemma_bodies_m, lemma_dialog_m_unfold, lemma_dialogs_m,
    BodyM, ChoiceData, ChoiceM, Dialog, DialogBody, DialogKind, DialogM,
};
use vstd::prelude::*;

verus! {

/// The data formats that scenes are written in.
#[derive(Copy, Clone, Debug, PartialEq, Eq, Structural)]
pub enum ExportType {
    GDScript,
    Json,
}

/// The catalog formats that texts are written in.
#[derive(Copy, Clone, Debug, PartialEq, Eq, Structural)]
pub enum L10nExportType {
    Po,
}

pub open spec fn export_type_of(s: Seq<char>) -> ExportType {
    if s == "json"@ {
        ExportType::Json
    } else {
        ExportType::GDScript
    }
}

pub open spec fn export_extension(t: ExportType) -> Seq<char> {
    match t {
        ExportType::GDScript => "gd"@,
        ExportType::Json => "json"@,
    }
}

impl ExportType {
    /// `json` names JSON; any other name gives the default, GDScript.
    pub fn parse(s: &str) -> (r: ExportType)
        ensures
            r == export_type_of(s@),
    {
        if str_eq(s, "gd") {
            proof {
                reveal_strlit("gd");
                reveal_strlit("json");
                assert("gd"@.len() != "json"@.len());
            }
            ExportType::GDScript
        } else if str_eq(s, "json") {
            ExportType::Json
        } else {
            ExportType::GDScript
        }
    }

    pub fn extension(&self) -> (r: &str)
        ensures
            r@ == export_extension(*self),
    {
        match self {
            ExportType::GDScript => "gd",
            ExportType::Json => "json",
        }
    }
}

impl L10nExportType {
    /// Every name gives PO, the one catalog format.
    pub fn parse(s: &str) -> (r: L10nExportType)
        ensures
            r == L10nExportType::Po,
    {
        L10nExportType::Po
    }

    pub fn extension(&self) -> (r: &str)
        ensures
            r@ == "po"@,
    {
        "po"
    }
}

/// A dialogue without its source-language text: a spoken line loses its text argument,
/// every choice its label; ids, kinds, command arguments and nesting stay.
pub open spec fn strip_dialog(d: DialogM) -> DialogM
    decreases d,
{
    let sb = strip_bodies(d.args);
    DialogM {
        kind: d.kind,
        id: d.id,
        args: if d.kind == DialogKind::Dialog && sb.len() > 0 {
            sb.skip(1)
        } else {
            sb
        },
    }
}

pub open spec fn strip_bodies(bs: Seq<BodyM>) -> Seq<BodyM>
    decreases bs,
{
    if bs.len() == 0 {
        Seq::empty()
    } else {
        strip_bodies(bs.drop_last()).push(strip_body(bs.last()))
    }
}

pub open spec fn strip_body(b: BodyM) -> BodyM
    decreases b,
{
    match b {
        BodyM::Text(t) => BodyM::Text(t),
        BodyM::Choice(cm) => BodyM::Choice(
            ChoiceM { id: cm.id, label: Seq::empty(), dialogs: strip_dialogs(cm.dialogs) },
        ),
    }
}

pub open spec fn strip_dialogs(ds: Seq<DialogM>) -> Seq<DialogM>
    decreases ds,
{
    if ds.len() == 0 {
        Seq::empty()
    } else {
        strip_dialogs(ds.drop_last()).push(strip_dialog(ds.last()))
    }
}

pub proof fn lemma_strip_bodies(bs: Seq<BodyM>)
    ensures
        strip_bodies(bs).len() == bs.len(),
        forall|i: int| 0 <= i < bs.len() ==> #[trigger] strip_bodies(bs)[i] == strip_body(bs[i]),
    decreases bs.len(),
{
    if bs.len() > 0 {
        lemma_strip_bodies(bs.drop_last());
        assert forall|i: int| 0 <= i < bs.len() implies #[trigger] strip_bodies(bs)[i] == strip_body(bs[i]) by {
            if i < bs.len() - 1 {
                assert(bs.drop_last()[i] == bs[i]);
            }
        }
    }
}

pub proof fn lemma_strip_dialogs(ds: Seq<DialogM>)
    ensures
        strip_dialogs(ds).len() == ds.len(),
        forall|i: int| 0 <= i < ds.len() ==> #[trigger] strip_dialogs(ds)[i] == strip_dialog(ds[i]),
    decreases ds.len(),
{
    if ds.len() > 0 {
        lemma_strip_dialogs(ds.drop_last());
        assert forall|i: int| 0 <= i < ds.len() implies #[trigger] strip_dialogs(ds)[i] == strip_dialog(ds[i]) by {
            if i < ds.len() - 1 {
                assert(ds.drop_last()[i] == ds[i]);
            }
        }
    }
}

/// The dialogue list without its source-language text (see `strip_dialog`), for data
/// files that go out beside a catalog.
pub fn strip_source_text(ds: &Vec<Dialog>) -> (r: Vec<Dialog>)
    ensures
        dialogs_m(r@) == strip_dialogs(dialogs_m(ds@)),
    decreases ds@,
{
    proof {
        lemma_dialogs_m(ds@);
        lemma_strip_dialogs(dialogs_m(ds@));
    }
    let mut r: Vec<Dialog> = Vec::new();
    let mut i: usize = 0;
    while i < ds.len()
        invariant
            i <= ds@.len(),
            r@.len() == i,
            dialogs_m(ds@).len() == ds@.len(),
            forall|k: int| 0 <= k < ds@.len() ==> #[trigger] dialogs_m(ds@)[k] == dialog_m(ds@[k]),
            forall|k: int| 0 <= k < i ==> #[trigger] dialog_m(r@[k]) == strip_dialog(dialog_m(ds@[k])),
        decreases ds@.len() - i,
    {
        r.push(strip_one(&ds[i]));
        i = i + 1;
    }
    proof {
        lemma_dialogs_m(r@);
        assert(dialogs_m(r@) =~= strip_dialogs(dialogs_m(ds@)));
    }
    r
}

fn strip_one(d: &Dialog) -> (r: Dialog)
    ensures
        dialog_m(r) == strip_dialog(dialog_m(*d)),
    decreases *d,
{
    proof {
        lemma_dialog_m_unfold();
        lemma_bodies_m(d.args@);
        lemma_strip_bodies(bodies_m(d.args@));
    }
    let start: usize = if d.kind == DialogKind::Dialog && d.args.len() > 0 { 1 } else { 0 };
    let mut args: Vec<DialogBody> = Vec::new();
    let mut i: usize = start;
    while i < d.args.len()
        invariant
            start <= i <= d.args@.len(),
            start <= 1,
            start == 1 ==> d.args@.len() > 0,
            args@.len() == i - start,
            bodies_m(d.args@).len() == d.args@.len(),
            forall|k: int| 0 <= k < d.args@.len() ==> #[trigger] bodies_m(d.args@)[k] == body_m(d.args@[k]),
            forall|k: int| 0 <= k < args@.len() ==> #[trigger] body_m(args@[k]) == strip_body(body_m(d.args@[k + start])),
        decreases d.args@.len() - i,
    {
        let b = match &d.args[i] {
            DialogBody::Text(t) => DialogBody::Text(t.clone()),
            DialogBody::Choice(cd) => {
                let inner = strip_source_text(&cd.dialogs);
                DialogBody::Choice(ChoiceData { id: cd.id.clone(), label: String::new(), dialogs: inner })
            },
        };
        args.push(b);
        i = i + 1;
    }
    let r = Dialog { kind: d.kind, id: d.id.clone(), args };
    proof {
        lemma_bodies_m(r.args@);
        let sb = strip_bodies(bodies_m(d.args@));
        let want = if d.kind == DialogKind::Dialog && sb.len() > 0 { sb.skip(1) } else { sb };
        assert forall|k: int| 0 <= k < want.len() implies #[trigger] want[k] == bodies_m(r.args@)[k] by {
            assert(want[k] == sb[k + start]);
        }
        assert(bodies_m(r.args@) =~= want);
    }
    r
}

} // verus!
