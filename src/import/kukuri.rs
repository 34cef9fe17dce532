//! The first reader of the script dialect: a flat list of dialogue per scene, with no
//! nesting of choices.
use crate::import::kukuri_script::{
    command_node, comment_cut, comment_cut_exec, find_char, find_char_exec, is_end_line,
    is_header_line, kind_of, kind_of_exec, lemma_find_char, opens_with_three_exec, strip_comment,
    talker_and_text, trim_range, unknown_talker,
};
use crate::model::dialog::{
    bodies_m, dialog_m, dialogs_m, lemma_bodies_m, lemma_dialogs_m_push, scenes_m, BodyM, Dialog,
    DialogBody, DialogKind, DialogM, Scene, SceneM,
};
use crate::text::{
    chars_of, decimal, lines_of, push_char, push_chars, push_decimal, split_lines,
    string_of, trim, words,
};
use vstd::prelude::*;

verus! {

broadcast use vstd::string::group_string_axioms;

/// The reader's counters: the scene title, and the dialogue index per level (the first
/// reader only ever uses level 0).
#[derive(Debug, PartialEq, Eq)]
pub struct SceneProcessData {
    pub scene_title: String,
    pub nest_lv: usize,
    pub idxs: Vec<usize>,
    pub choice_idx: u32,
    pub nest_choices: Vec<(u32, u32)>,
}

/// The identifier of a position: the title, then `_<index>` per level up to `nest`, with
/// `_C<group>L<label>` where a choice pair is recorded for the level.
pub open spec fn legacy_label(title: Seq<char>, idxs: Seq<usize>, c: Seq<(u32, u32)>, n: int) -> Seq<char>
    decreases n,
{
    if n <= 0 {
        title
    } else {
        legacy_label(title, idxs, c, n - 1) + seq!['_'] + decimal(idxs[n - 1] as nat) + if n - 1 < c.len() {
            seq!['_', 'C'] + decimal(c[n - 1].0 as nat) + seq!['L'] + decimal(c[n - 1].1 as nat)
        } else {
            Seq::empty()
        }
    }
}

impl SceneProcessData {
    pub fn new() -> (r: SceneProcessData)
        ensures
            r.scene_title@.len() == 0,
            r.nest_lv == 0,
            r.idxs@ == seq![0usize],
            r.nest_choices@.len() == 0,
    {
        let mut idxs = Vec::new();
        idxs.push(0);
        SceneProcessData { scene_title: String::new(), nest_lv: 0, idxs, choice_idx: 0, nest_choices: Vec::new() }
    }

    pub fn dialog_count_up(&mut self)
        requires
            old(self).nest_lv < old(self).idxs@.len(),
            old(self).idxs@[old(self).nest_lv as int] < usize::MAX,
        ensures
            final(self).idxs@ == old(self).idxs@.update(
                old(self).nest_lv as int,
                (old(self).idxs@[old(self).nest_lv as int] + 1) as usize,
            ),
            final(self).scene_title == old(self).scene_title,
            final(self).nest_lv == old(self).nest_lv,
            final(self).nest_choices == old(self).nest_choices,
    {
        let lv = self.nest_lv;
        let v = self.idxs[lv];
        self.idxs.set(lv, v + 1);
    }

    pub fn dialog_label(&self) -> (r: String)
        requires
            self.nest_lv < self.idxs@.len(),
        ensures
            r@ == legacy_label(self.scene_title@, self.idxs@, self.nest_choices@, self.nest_lv + 1),
    {
        let mut s = self.scene_title.clone();
        let n = self.idxs.len();
        let mut i: usize = 0;
        while i <= self.nest_lv
            invariant
                n == self.idxs@.len(),
                self.nest_lv < self.idxs@.len(),
                i <= self.nest_lv + 1,
                s@ == legacy_label(self.scene_title@, self.idxs@, self.nest_choices@, i as int),
            decreases self.nest_lv + 1 - i,
        {
            let ghost before = s@;
            push_char(&mut s, '_');
            push_decimal(&mut s, self.idxs[i]);
            if i < self.nest_choices.len() {
                let (cn, ln) = self.nest_choices[i];
                push_char(&mut s, '_');
                push_char(&mut s, 'C');
                push_decimal(&mut s, cn as usize);
                push_char(&mut s, 'L');
                push_decimal(&mut s, ln as usize);
            }
            proof {
                assert(s@ =~= legacy_label(self.scene_title@, self.idxs@, self.nest_choices@, i + 1));
            }
            i = i + 1;
        }
        s
    }

    pub fn set_scene_title(&mut self, new_title: &str)
        ensures
            final(self).scene_title@ == new_title@,
            final(self).idxs == old(self).idxs,
            final(self).nest_lv == old(self).nest_lv,
            final(self).nest_choices == old(self).nest_choices,
    {
        self.scene_title = new_title.to_owned();
    }

    pub fn clear(&mut self)
        ensures
            final(self).scene_title@.len() == 0,
            final(self).nest_lv == 0,
            final(self).idxs@ == seq![0usize],
            final(self).nest_choices@.len() == 0,
    {
        *self = Self::new();
    }
}

// ---------------------------------------------------------------------------
// The first reader as a state machine over lines
// ---------------------------------------------------------------------------

pub struct LState {
    pub title: Seq<char>,
    pub count: nat,
    pub is_header: bool,
    pub dialogs: Seq<DialogM>,
    pub scenes: Seq<SceneM>,
}

pub open spec fn legacy_fresh() -> LState {
    LState { title: Seq::empty(), count: 0, is_header: false, dialogs: Seq::empty(), scenes: Seq::empty() }
}

/// Key and value of a header line `key = value`, both trimmed.
pub open spec fn header_pair(line: Seq<char>) -> (Seq<char>, Seq<char>) {
    let k = find_char(line, '=', 0);
    (trim(line.take(k)), if k < line.len() {
        trim(line.skip(k + 1))
    } else {
        Seq::empty()
    })
}

/// The title that a header line sets: a `title` whose value opens with a quote gives the
/// value without its first and last character.
pub open spec fn legacy_title(line: Seq<char>) -> Option<Seq<char>> {
    let (key, body) = header_pair(line);
    if key == seq!['t', 'i', 't', 'l', 'e'] && body.len() > 0 && (body[0] == '\'' || body[0] == '"') {
        Some(
            if body.len() >= 2 {
                body.subrange(1, body.len() - 1)
            } else {
                Seq::empty()
            },
        )
    } else {
        None
    }
}

pub open spec fn legacy_node(line: Seq<char>, title: Seq<char>, count: nat) -> DialogM {
    let kind = kind_of(line);
    if kind == DialogKind::Dialog {
        let (talker, text) = talker_and_text(line);
        DialogM {
            kind: DialogKind::Dialog,
            id: title + seq!['_'] + decimal(count + 1) + seq!['_'] + talker,
            args: seq![BodyM::Text(text)],
        }
    } else if kind == DialogKind::Command {
        command_node(line)
    } else {
        DialogM {
            kind: DialogKind::Choices,
            id: seq!['c', 'h', 'o', 'i', 'c', 'e', 's'],
            args: seq![BodyM::Text(seq!['t', 'e', 's', 't'])],
        }
    }
}

pub open spec fn legacy_step(st: LState, raw: Seq<char>) -> LState {
    let line = strip_comment(trim(raw));
    if line.len() == 0 {
        st
    } else if st.is_header {
        if is_header_line(line) {
            LState { is_header: false, ..st }
        } else {
            match legacy_title(line) {
                Some(t) => LState { title: t, ..st },
                None => st,
            }
        }
    } else if is_header_line(line) {
        LState { is_header: true, ..st }
    } else if is_end_line(line) {
        LState {
            title: Seq::empty(),
            count: 0,
            is_header: st.is_header,
            dialogs: Seq::empty(),
            scenes: st.scenes.push(SceneM { title: st.title, dialogs: st.dialogs }),
        }
    } else {
        let count = if kind_of(line) == DialogKind::Dialog {
            st.count + 1
        } else {
            st.count
        };
        LState { count, dialogs: st.dialogs.push(legacy_node(line, st.title, st.count)), ..st }
    }
}

pub open spec fn legacy_run(lines: Seq<Seq<char>>) -> LState
    decreases lines.len(),
{
    if lines.len() == 0 {
        legacy_fresh()
    } else {
        legacy_step(legacy_run(lines.drop_last()), lines.last())
    }
}

/// What the first reader gives for `content`.
pub open spec fn legacy_parse(content: Seq<char>) -> Seq<SceneM> {
    let st = legacy_run(lines_of(content));
    if st.dialogs.len() > 0 {
        st.scenes.push(SceneM { title: st.title, dialogs: st.dialogs })
    } else {
        st.scenes
    }
}

/// The first reader of the script dialect.
pub struct KukuriScript;

impl KukuriScript {
    #[verifier::spinoff_prover]
    pub fn parse(content: &str) -> (r: Vec<Scene>)
        ensures
            scenes_m(r@) == legacy_parse(content@),
    {
        let cs = chars_of(content);
        let lines = split_lines(&cs);
        let ghost ls = lines_of(content@);
        let mut scenes: Vec<Scene> = Vec::new();
        let mut is_header = false;
        let mut scene_dialogs: Vec<Dialog> = Vec::new();
        let mut s_meta = SceneProcessData::new();
        proof {
            assert(ls.take(0) =~= Seq::<Seq<char>>::empty());
            assert(dialogs_m(scene_dialogs@) =~= Seq::<DialogM>::empty());
            assert(scenes_m(scenes@) =~= Seq::<SceneM>::empty());
            assert(s_meta.scene_title@ =~= Seq::<char>::empty());
            assert(s_meta.idxs@[0] == 0);
            assert(legacy_run(ls.take(0)) == legacy_fresh());
        }
        let mut i: usize = 0;
        while i < lines.len()
            invariant
                i <= lines@.len(),
                ls == lines_of(content@),
                lines@.len() == ls.len(),
                forall|j: int| 0 <= j < lines@.len() ==> #[trigger] lines@[j]@ == ls[j],
                legacy_run(ls.take(i as int)) == (LState {
                    title: s_meta.scene_title@,
                    count: s_meta.idxs@[0] as nat,
                    is_header,
                    dialogs: dialogs_m(scene_dialogs@),
                    scenes: scenes_m(scenes@),
                }),
                s_meta.nest_lv == 0,
                s_meta.idxs@.len() == 1,
                s_meta.idxs@[0] <= i,
                s_meta.nest_choices@.len() == 0,
            decreases lines@.len() - i,
        {
            proof {
                assert(ls.take(i + 1).drop_last() =~= ls.take(i as int));
                assert(ls.take(i + 1).last() == lines@[i as int]@);
                lemma_dialogs_m_push();
                crate::model::dialog::lemma_dialog_m_unfold();
            }
            let ghost st = legacy_run(ls.take(i as int));
            let raw = &lines[i];
            let (a, b) = trim_range(raw, 0, raw.len());
            let mut t: Vec<char> = Vec::new();
            let mut k = a;
            while k < b
                invariant
                    a <= k <= b <= raw@.len(),
                    t@ == raw@.subrange(a as int, k as int),
                decreases b - k,
            {
                t.push(raw[k]);
                k = k + 1;
                proof {
                    assert(t@ =~= raw@.subrange(a as int, k as int));
                }
            }
            proof {
                assert(raw@.subrange(0, raw@.len() as int) =~= raw@);
            }
            let cut = comment_cut_exec(&t);
            let mut line: Vec<char> = Vec::new();
            let mut k2: usize = 0;
            while k2 < cut
                invariant
                    cut == comment_cut(t@, 0),
                    cut <= t@.len(),
                    k2 <= cut,
                    line@ == t@.take(k2 as int),
                decreases cut - k2,
            {
                line.push(t[k2]);
                k2 = k2 + 1;
                proof {
                    assert(line@ =~= t@.take(k2 as int));
                }
            }
            proof {
                assert(line@ == strip_comment(trim(raw@)));
            }
            if line.len() == 0 {
            } else if is_header {
                if opens_with_three_exec(&line, '+') {
                    is_header = false;
                } else {
                    match Self::header_title(&line) {
                        Some(title) => {
                            s_meta.scene_title = title;
                        },
                        None => {},
                    }
                }
            } else if opens_with_three_exec(&line, '+') {
                is_header = true;
            } else if opens_with_three_exec(&line, '=') {
                let mut done: Vec<Dialog> = Vec::new();
                core::mem::swap(&mut done, &mut scene_dialogs);
                let title = s_meta.scene_title.clone();
                scenes.push(Scene { title, dialogs: done });
                s_meta.clear();
                proof {
                    assert(dialogs_m(scene_dialogs@) =~= Seq::<DialogM>::empty());
                    assert(s_meta.idxs@[0] == 0);
                    assert(s_meta.scene_title@ =~= Seq::<char>::empty());
                    assert(legacy_step(st, raw@) == (LState {
                        title: s_meta.scene_title@,
                        count: s_meta.idxs@[0] as nat,
                        is_header,
                        dialogs: dialogs_m(scene_dialogs@),
                        scenes: scenes_m(scenes@),
                    }));
                }
            } else {
                let kind = kind_of_exec(&line);
                let d = match kind {
                    DialogKind::Dialog => {
                        s_meta.dialog_count_up();
                        let (id, args) = Self::dialog_data(&line, &s_meta);
                        proof {
                            assert(legacy_label(s_meta.scene_title@, s_meta.idxs@, s_meta.nest_choices@, 0)
                                == s_meta.scene_title@);
                        }
                        Dialog { kind, id, args }
                    },
                    DialogKind::Command => {
                        let (id, args) = Self::command_data(&line);
                        Dialog { kind, id, args }
                    },
                    DialogKind::Choices => {
                        let mut args = Vec::new();
                        proof {
                            reveal_strlit("test");
                            reveal_strlit("choices");
                            assert("test"@ =~= seq!['t', 'e', 's', 't']);
                            assert("choices"@ =~= seq!['c', 'h', 'o', 'i', 'c', 'e', 's']);
                        }
                        args.push(DialogBody::Text(String::from_str("test")));
                        proof {
                            lemma_bodies_m(args@);
                            assert(bodies_m(args@) =~= seq![BodyM::Text(seq!['t', 'e', 's', 't'])]);
                        }
                        Dialog { kind, id: String::from_str("choices"), args }
                    },
                };
                proof {
                    assert(dialog_m(d) == legacy_node(line@, st.title, st.count));
                }
                scene_dialogs.push(d);
            }
            proof {
                assert(legacy_run(ls.take(i + 1)) == legacy_step(st, raw@));
            }
            i = i + 1;
        }
        proof {
            assert(ls.take(i as int) =~= ls);
            lemma_dialogs_m_push();
        }
        if scene_dialogs.len() > 0 {
            let title = s_meta.scene_title.clone();
            scenes.push(Scene { title, dialogs: scene_dialogs });
        }
        scenes
    }

    fn header_title(line: &Vec<char>) -> (r: Option<String>)
        ensures
            r is Some == legacy_title(line@) is Some,
            r is Some ==> r->Some_0@ == legacy_title(line@)->Some_0,
    {
        let k = find_char_exec(line, '=');
        proof {
            lemma_find_char(line@, '=', 0);
            assert(line@.subrange(0, k as int) =~= line@.take(k as int));
        }
        let (a0, b0) = trim_range(line, 0, k);
        let (a1, b1) = if k < line.len() {
            proof {
                assert(line@.subrange(k + 1, line@.len() as int) =~= line@.skip(k + 1));
            }
            trim_range(line, k + 1, line.len())
        } else {
            (0, 0)
        };
        let key_is_title = b0 - a0 == 5 && line[a0] == 't' && line[a0 + 1] == 'i' && line[a0 + 2] == 't'
            && line[a0 + 3] == 'l' && line[a0 + 4] == 'e';
        proof {
            let key = line@.subrange(a0 as int, b0 as int);
            let title = seq!['t', 'i', 't', 'l', 'e'];
            if key_is_title {
                assert(key =~= title);
            } else if key == title {
                assert(key.len() == 5);
                assert(key[0] == line@[a0 as int] && key[1] == line@[a0 + 1] && key[2] == line@[a0 + 2]
                    && key[3] == line@[a0 + 3] && key[4] == line@[a0 + 4]);
                assert(title[0] == 't' && title[1] == 'i' && title[2] == 't' && title[3] == 'l' && title[4] == 'e');
            }
            let body = line@.subrange(a1 as int, b1 as int);
            if b1 > a1 {
                assert(body[0] == line@[a1 as int]);
                if b1 - a1 >= 2 {
                    assert(body.subrange(1, body.len() - 1) =~= line@.subrange(a1 + 1, b1 - 1));
                }
            }
        }
        if key_is_title && b1 > a1 && (line[a1] == '\'' || line[a1] == '"') {
            if b1 - a1 >= 2 {
                Some(string_of(line, a1 + 1, b1 - 1))
            } else {
                Some(String::new())
            }
        } else {
            None
        }
    }

    fn dialog_data(line: &Vec<char>, s_meta: &SceneProcessData) -> (r: (String, Vec<DialogBody>))
        requires
            s_meta.nest_lv < s_meta.idxs@.len(),
        ensures
            r.0@ == legacy_label(s_meta.scene_title@, s_meta.idxs@, s_meta.nest_choices@, s_meta.nest_lv + 1)
                + seq!['_'] + talker_and_text(line@).0,
            bodies_m(r.1@) == seq![BodyM::Text(talker_and_text(line@).1)],
    {
        let k = find_char_exec(line, ':');
        proof {
            lemma_find_char(line@, ':', 0);
            assert(line@.subrange(0, k as int) =~= line@.take(k as int));
            if k < line@.len() {
                assert(line@.subrange(k + 1, line@.len() as int) =~= line@.skip(k + 1));
            }
        }
        let (a0, b0) = trim_range(line, 0, k);
        let (a1, b1) = if k < line.len() {
            trim_range(line, k + 1, line.len())
        } else {
            (0, 0)
        };
        let mut id = s_meta.dialog_label();
        push_char(&mut id, '_');
        let text;
        if b1 > a1 {
            push_chars(&mut id, line, a0, b0);
            text = string_of(line, a1, b1);
        } else {
            proof {
                reveal_strlit("unknown");
                assert("unknown"@ =~= unknown_talker());
            }
            id.append("unknown");
            let (a2, b2) = trim_range(line, 0, line.len());
            proof {
                assert(line@.subrange(0, line@.len() as int) =~= line@);
            }
            text = string_of(line, a2, b2);
        }
        let mut args: Vec<DialogBody> = Vec::new();
        args.push(DialogBody::Text(text));
        proof {
            lemma_bodies_m(args@);
            assert(bodies_m(args@) =~= seq![BodyM::Text(text@)]);
            assert(id@ =~= legacy_label(s_meta.scene_title@, s_meta.idxs@, s_meta.nest_choices@, s_meta.nest_lv + 1)
                + seq!['_'] + talker_and_text(line@).0);
        }
        (id, args)
    }

    /// Id and text of a spoken line: the id is the position label, `_`, and the talker.
    pub fn dialog_process(line: &str, s_meta: &SceneProcessData) -> (r: (String, Vec<DialogBody>))
        requires
            s_meta.nest_lv < s_meta.idxs@.len(),
        ensures
            r.0@ == legacy_label(s_meta.scene_title@, s_meta.idxs@, s_meta.nest_choices@, s_meta.nest_lv + 1)
                + seq!['_'] + talker_and_text(line@).0,
            bodies_m(r.1@) == seq![BodyM::Text(talker_and_text(line@).1)],
    {
        let cs = chars_of(line);
        Self::dialog_data(&cs, s_meta)
    }

    /// Name and arguments of a command line: the words after its first `$`.
    pub fn get_command_data(line: &str) -> (r: (String, Vec<DialogBody>))
        ensures
            r.0@ == command_node(line@).id,
            bodies_m(r.1@) == command_node(line@).args,
    {
        let cs = chars_of(line);
        Self::command_data(&cs)
    }

    /// The kind of a line by its first non-whitespace character.
    pub fn get_dialog_kind(line: &str) -> (r: DialogKind)
        ensures
            r == kind_of(line@),
    {
        let cs = chars_of(line);
        kind_of_exec(&cs)
    }

    /// Cuts the comment off a line: a `#` starts one unless a backslash stands right before it.
    pub fn trim_comment(line: &str) -> (r: &str)
        ensures
            r@ == strip_comment(line@),
    {
        let cs = chars_of(line);
        let cut = comment_cut_exec(&cs);
        line.substring_char(0, cut)
    }

    pub fn is_header_symbol(line: &str) -> (r: bool)
        ensures
            r == is_header_line(line@),
    {
        let cs = chars_of(line);
        opens_with_three_exec(&cs, '+')
    }

    pub fn is_scene_end_symbol(line: &str) -> (r: bool)
        ensures
            r == is_end_line(line@),
    {
        let cs = chars_of(line);
        opens_with_three_exec(&cs, '=')
    }

    /// Key and value of a header line `key = value`, both trimmed.
    pub fn header_split(line: &str) -> (r: (String, String))
        ensures
            (r.0@, r.1@) == header_pair(line@),
    {
        let cs = chars_of(line);
        let k = find_char_exec(&cs, '=');
        proof {
            lemma_find_char(cs@, '=', 0);
            assert(cs@.subrange(0, k as int) =~= cs@.take(k as int));
        }
        let (a0, b0) = trim_range(&cs, 0, k);
        if k < cs.len() {
            proof {
                assert(cs@.subrange(k + 1, cs@.len() as int) =~= cs@.skip(k + 1));
            }
            let (a1, b1) = trim_range(&cs, k + 1, cs.len());
            (string_of(&cs, a0, b0), string_of(&cs, a1, b1))
        } else {
            (string_of(&cs, a0, b0), String::new())
        }
    }

    /// The number of spaces and tabs that `line` starts with (0 for a line of nothing else).
    pub fn count_indent(line: &str) -> (r: usize)
        ensures
            r == crate::import::kukuri_script::indent_width(line@),
    {
        let cs = chars_of(line);
        crate::import::kukuri_script::indent_width_exec(&cs)
    }

    fn command_data(line: &Vec<char>) -> (r: (String, Vec<DialogBody>))
        ensures
            r.0@ == command_node(line@).id,
            bodies_m(r.1@) == command_node(line@).args,
    {
        let d = crate::import::kukuri_script::command_process(line);
        (d.id, d.args)
    }
}

} // verus!
