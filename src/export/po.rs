//! The gettext PO catalog: one `msgid`/`msgstr` stanza per text, in tree order.
use crate::model::dialog::{
    bodies_m, body_m, choice_m, dialog_m, dialogs_m, lemma_bodies_m, lemma_dialog_m_unfold,
    lemma_dialogs_m, BodyM, ChoiceData, ChoiceM, Dialog, DialogBody, DialogKind, DialogM, Scene,
};
use crate::model::talker::Talker;
use crate::text::chars_of;
use vstd::prelude::*;

verus! {

pub const PO_HEAD: &'static str = "msgid \"\"\nmsgstr \"\"\n\"Last-Translator: Automatically generated\\n\"\n\"Language-Team: none\\n\"\n\"Language: ";

pub const PO_TAIL: &'static str = "\\n\"\n\"MIME-Version: 1.0\\n\"\n\"Content-Type: text/plain; charset=UTF-8\\n\"\n\"Plural-Forms: nplurals=1; plural=0;\\n\"\n\n\n";

/// `s` with each double quote escaped by a backslash.
pub open spec fn escape(s: Seq<char>) -> Seq<char>
    decreases s.len(),
{
    if s.len() == 0 {
        s
    } else {
        escape(s.drop_last()) + if s.last() == '"' {
            seq!['\\', '"']
        } else {
            seq![s.last()]
        }
    }
}

pub open spec fn msgid(s: Seq<char>) -> Seq<char> {
    "msgid \""@ + escape(s) + "\"\n"@
}

pub open spec fn msgstr(s: Seq<char>) -> Seq<char> {
    "msgstr \""@ + escape(s) + "\"\n\n\n"@
}

/// One catalog entry.
pub open spec fn stanza(id: Seq<char>, text: Seq<char>) -> Seq<char> {
    msgid(id) + msgstr(text)
}

/// The catalog header for `locale`.
pub open spec fn po_head(locale: Seq<char>) -> Seq<char> {
    PO_HEAD@ + locale + PO_TAIL@
}

/// The entries of a dialogue: a spoken line gives its id and text; a choice group gives,
/// per choice, its id and label and then the entries of its dialogue; a command gives none.
pub open spec fn po_dialog(d: DialogM) -> Seq<char>
    decreases d,
{
    if d.kind == DialogKind::Command {
        Seq::empty()
    } else if d.kind == DialogKind::Dialog {
        if d.args.len() > 0 && d.args[0] is Text {
            stanza(d.id, d.args[0]->Text_0)
        } else {
            Seq::empty()
        }
    } else {
        po_bodies(d.args)
    }
}

pub open spec fn po_bodies(bs: Seq<BodyM>) -> Seq<char>
    decreases bs,
{
    if bs.len() == 0 {
        Seq::empty()
    } else {
        po_bodies(bs.drop_last()) + po_body(bs.last())
    }
}

pub open spec fn po_body(b: BodyM) -> Seq<char>
    decreases b,
{
    match b {
        BodyM::Choice(cm) => po_choice(cm),
        BodyM::Text(_) => Seq::empty(),
    }
}

pub open spec fn po_choice(cm: ChoiceM) -> Seq<char>
    decreases cm,
{
    stanza(cm.id, cm.label) + po_dialogs(cm.dialogs)
}

pub open spec fn po_dialogs(ds: Seq<DialogM>) -> Seq<char>
    decreases ds,
{
    if ds.len() == 0 {
        Seq::empty()
    } else {
        po_dialogs(ds.drop_last()) + po_dialog(ds.last())
    }
}

pub open spec fn po_talkers(ts: Seq<Talker>) -> Seq<char>
    decreases ts.len(),
{
    if ts.len() == 0 {
        Seq::empty()
    } else {
        po_talkers(ts.drop_last()) + stanza(ts.last().0@, ts.last().1@)
    }
}

pub open spec fn po_scenes(ss: Seq<Scene>) -> Seq<char>
    decreases ss.len(),
{
    if ss.len() == 0 {
        Seq::empty()
    } else {
        po_scenes(ss.drop_last()) + po_dialogs(dialogs_m(ss.last().dialogs@))
    }
}

/// The PO catalog writer.
pub struct Po;

impl Po {
    /// The catalog for `locale`: talkers first, then the scenes in order.
    pub fn export_string(scenes: &Vec<Scene>, talkers: &Vec<Talker>, locale: &str) -> (r: String)
        ensures
            r@ == po_head(locale@) + po_talkers(talkers@) + po_scenes(scenes@),
    {
        let mut out = Self::gen_init_string(locale);
        let mut i: usize = 0;
        while i < talkers.len()
            invariant
                i <= talkers@.len(),
                out@ == po_head(locale@) + po_talkers(talkers@.take(i as int)),
            decreases talkers@.len() - i,
        {
            let s = Self::convert_talker(&talkers[i]);
            out.append(s.as_str());
            proof {
                assert(talkers@.take(i + 1).drop_last() =~= talkers@.take(i as int));
            }
            i = i + 1;
        }
        proof {
            assert(talkers@.take(i as int) =~= talkers@);
        }
        let ghost head = out@;
        let mut j: usize = 0;
        while j < scenes.len()
            invariant
                j <= scenes@.len(),
                out@ == head + po_scenes(scenes@.take(j as int)),
            decreases scenes@.len() - j,
        {
            let s = Self::convert_scene(&scenes[j]);
            out.append(s.as_str());
            proof {
                assert(scenes@.take(j + 1).drop_last() =~= scenes@.take(j as int));
                assert(out@ =~= head + po_scenes(scenes@.take(j + 1)));
            }
            j = j + 1;
        }
        proof {
            assert(scenes@.take(j as int) =~= scenes@);
        }
        out
    }

    pub fn convert_scene(scene: &Scene) -> (r: String)
        ensures
            r@ == po_dialogs(dialogs_m(scene.dialogs@)),
    {
        Self::convert_dialogs(&scene.dialogs)
    }

    fn convert_dialogs(ds: &Vec<Dialog>) -> (r: String)
        ensures
            r@ == po_dialogs(dialogs_m(ds@)),
        decreases ds@,
    {
        proof {
            lemma_dialogs_m(ds@);
        }
        let mut out = String::new();
        let mut i: usize = 0;
        while i < ds.len()
            invariant
                i <= ds@.len(),
                dialogs_m(ds@).len() == ds@.len(),
                forall|k: int| 0 <= k < ds@.len() ==> #[trigger] dialogs_m(ds@)[k] == dialog_m(ds@[k]),
                out@ == po_dialogs(dialogs_m(ds@).take(i as int)),
            decreases ds@.len() - i,
        {
            let s = Self::convert_dialog(&ds[i]);
            out.append(s.as_str());
            proof {
                assert(dialogs_m(ds@).take(i + 1).drop_last() =~= dialogs_m(ds@).take(i as int));
            }
            i = i + 1;
        }
        proof {
            assert(dialogs_m(ds@).take(i as int) =~= dialogs_m(ds@));
        }
        out
    }

    /// The entries of one dialogue (see `po_dialog`).
    pub fn convert_dialog(dialog: &Dialog) -> (r: String)
        ensures
            r@ == po_dialog(dialog_m(*dialog)),
        decreases *dialog,
    {
        proof {
            lemma_dialog_m_unfold();
            lemma_bodies_m(dialog.args@);
        }
        match dialog.kind {
            DialogKind::Command => String::new(),
            DialogKind::Dialog => {
                if dialog.args.len() > 0 {
                    match &dialog.args[0] {
                        DialogBody::Text(text) => {
                            let mut out = Self::gen_msgid(dialog.id.as_str());
                            let s = Self::gen_msgstr(text.as_str());
                            out.append(s.as_str());
                            out
                        },
                        DialogBody::Choice(_) => String::new(),
                    }
                } else {
                    String::new()
                }
            },
            DialogKind::Choices => {
                let args = &dialog.args;
                let mut out = String::new();
                let mut i: usize = 0;
                while i < args.len()
                    invariant
                        i <= args@.len(),
                        args == dialog.args,
                        bodies_m(args@).len() == args@.len(),
                        forall|k: int| 0 <= k < args@.len() ==> #[trigger] bodies_m(args@)[k] == body_m(args@[k]),
                        out@ == po_bodies(bodies_m(args@).take(i as int)),
                    decreases args@.len() - i,
                {
                    let ghost before = out@;
                    match &args[i] {
                        DialogBody::Choice(cd) => {
                            let s = Self::convert_choice(cd);
                            out.append(s.as_str());
                        },
                        DialogBody::Text(_) => {},
                    }
                    proof {
                        let bm = bodies_m(args@);
                        assert(bm.take(i + 1).drop_last() =~= bm.take(i as int));
                        assert(bm.take(i + 1).last() == body_m(args@[i as int]));
                        assert(out@ =~= before + po_body(body_m(args@[i as int])));
                    }
                    i = i + 1;
                }
                proof {
                    assert(bodies_m(args@).take(i as int) =~= bodies_m(args@));
                }
                out
            },
        }
    }

    /// The entry of one choice, then the entries of its dialogue.
    pub fn convert_choice(cd: &ChoiceData) -> (r: String)
        ensures
            r@ == po_choice(choice_m(*cd)),
        decreases *cd,
    {
        proof {
            lemma_dialog_m_unfold();
        }
        let mut out = Self::gen_msgid(cd.id.as_str());
        let s = Self::gen_msgstr(cd.label.as_str());
        out.append(s.as_str());
        let rest = Self::convert_dialogs(&cd.dialogs);
        out.append(rest.as_str());
        out
    }

    pub fn convert_talker(talker: &Talker) -> (r: String)
        ensures
            r@ == stanza(talker.0@, talker.1@),
    {
        let mut out = Self::gen_msgid(talker.id());
        let s = Self::gen_msgstr(talker.name());
        out.append(s.as_str());
        out
    }

    /// The catalog header for `locale`, followed by an empty line.
    pub fn gen_init_string(locale: &str) -> (r: String)
        ensures
            r@ == po_head(locale@),
    {
        let mut s = String::from_str(PO_HEAD);
        s.append(locale);
        s.append(PO_TAIL);
        s
    }

    pub fn gen_msgid(s: &str) -> (r: String)
        ensures
            r@ == msgid(s@),
    {
        let mut out = String::from_str("msgid \"");
        let e = Self::quote_escape(s);
        out.append(e.as_str());
        out.append("\"\n");
        out
    }

    pub fn gen_msgstr(s: &str) -> (r: String)
        ensures
            r@ == msgstr(s@),
    {
        let mut out = String::from_str("msgstr \"");
        let e = Self::quote_escape(s);
        out.append(e.as_str());
        out.append("\"\n\n\n");
        out
    }

    /// `s` with each double quote escaped by a backslash.
    pub fn quote_escape(s: &str) -> (r: String)
        ensures
            r@ == escape(s@),
    {
        let cs = chars_of(s);
        let mut out = String::new();
        let mut i: usize = 0;
        while i < cs.len()
            invariant
                i <= cs@.len(),
                cs@ == s@,
                out@ == escape(cs@.take(i as int)),
            decreases cs@.len() - i,
        {
            if cs[i] == '"' {
                crate::text::push_char(&mut out, '\\');
                crate::text::push_char(&mut out, '"');
            } else {
                crate::text::push_char(&mut out, cs[i]);
            }
            proof {
                assert(cs@.take(i + 1).drop_last() =~= cs@.take(i as int));
                assert(out@ =~= escape(cs@.take(i + 1)));
            }
            i = i + 1;
        }
        proof {
            assert(cs@.take(i as int) =~= cs@);
        }
        out
    }
}

} // verus!
