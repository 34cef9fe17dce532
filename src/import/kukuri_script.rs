//! The indentation-driven reader of the dialogue-script dialect.
use crate::model::dialog::{
    bodies_m, body_m, choices_target, dialog_m, dialogs_at, dialogs_m, find_nth_choices,
    lemma_bodies_m, lemma_dialog_m_unfold, lemma_dialogs_m_push, parent_idxs, parent_path,
    path_replace, path_target, scene_m, scenes_m, unknown_scene, BodyM, ChoiceData, ChoiceM,
    Dialog, DialogBody, DialogKind, DialogM, Scene, SceneM,
};
use crate::text::{
    chars_of, decimal, is_ws, lead_ws, lemma_lead_ws, lines_of, push_char, push_chars,
    push_decimal, skip_ws, skip_ws_back, split_lines, split_words, string_of, trail_ws, trim,
    trim_end, trim_start, words,
};
use vstd::prelude::*;

verus! {

broadcast use vstd::string::group_string_axioms;

// ---------------------------------------------------------------------------
// Single lines
// ---------------------------------------------------------------------------

/// A `#` at `k` opens a comment unless a backslash stands right before it.
pub open spec fn is_comment_at(s: Seq<char>, k: int) -> bool {
    s[k] == '#' && (k == 0 || s[k - 1] != '\\')
}

/// Where the comment of `s` starts, looking from `j` on (the length when there is none).
pub open spec fn comment_cut(s: Seq<char>, j: int) -> int
    decreases s.len() - j,
{
    if j < 0 || j >= s.len() {
        s.len() as int
    } else if is_comment_at(s, j) {
        j
    } else {
        comment_cut(s, j + 1)
    }
}

/// A line with its comment cut off.
pub open spec fn strip_comment(s: Seq<char>) -> Seq<char> {
    s.take(comment_cut(s, 0))
}

/// Whether the first three characters of `s`, once leading whitespace is dropped, are `c`.
pub open spec fn opens_with_three(s: Seq<char>, c: char) -> bool {
    let t = trim_start(s);
    t.len() >= 3 && t[0] == c && t[1] == c && t[2] == c
}

pub open spec fn is_header_line(s: Seq<char>) -> bool {
    opens_with_three(s, '+')
}

pub open spec fn is_end_line(s: Seq<char>) -> bool {
    opens_with_three(s, '=')
}

/// The kind of a line, by its first non-whitespace character.
pub open spec fn kind_of(s: Seq<char>) -> DialogKind {
    let t = trim_start(s);
    if t.len() == 0 {
        DialogKind::Dialog
    } else if t[0] == '$' {
        DialogKind::Command
    } else if t[0] == '*' || t[0] == '+' || t[0] == '-' {
        DialogKind::Choices
    } else {
        DialogKind::Dialog
    }
}

/// How many spaces and tabs `s` starts with.
pub open spec fn blank_run(s: Seq<char>) -> nat
    decreases s.len(),
{
    if s.len() > 0 && (s[0] == ' ' || s[0] == '\t') {
        1 + blank_run(s.skip(1))
    } else {
        0
    }
}

/// The indentation width of a line: its leading spaces and tabs, or 0 for a line of
/// nothing else.
pub open spec fn indent_width(s: Seq<char>) -> nat {
    if blank_run(s) == s.len() {
        0
    } else {
        blank_run(s)
    }
}

pub proof fn lemma_blank_run_is(s: Seq<char>, n: int)
    requires
        0 <= n <= s.len(),
        forall|k: int| 0 <= k < n ==> (#[trigger] s[k] == ' ' || s[k] == '\t'),
        n < s.len() ==> !(s[n] == ' ' || s[n] == '\t'),
    ensures
        blank_run(s) == n,
    decreases n,
{
    if n > 0 {
        assert forall|k: int| 0 <= k < n - 1 implies (#[trigger] s.skip(1)[k] == ' ' || s.skip(
            1,
        )[k] == '\t') by {
            assert(s.skip(1)[k] == s[k + 1]);
        }
        if n < s.len() {
            assert(s.skip(1)[n - 1] == s[n]);
        }
        lemma_blank_run_is(s.skip(1), n - 1);
    }
}

/// Position of the first `c` in `s`, or its length.
pub open spec fn find_char(s: Seq<char>, c: char, j: int) -> int
    decreases s.len() - j,
{
    if j < 0 || j >= s.len() {
        s.len() as int
    } else if s[j] == c {
        j
    } else {
        find_char(s, c, j + 1)
    }
}

pub proof fn lemma_find_char(s: Seq<char>, c: char, j: int)
    requires
        0 <= j <= s.len(),
    ensures
        j <= find_char(s, c, j) <= s.len(),
        find_char(s, c, j) < s.len() ==> s[find_char(s, c, j)] == c,
    decreases s.len() - j,
{
    if j < s.len() && s[j] != c {
        lemma_find_char(s, c, j + 1);
    }
}

pub(crate) fn find_char_exec(s: &Vec<char>, c: char) -> (r: usize)
    ensures
        r == find_char(s@, c, 0),
        r <= s@.len(),
{
    let mut i: usize = 0;
    while i < s.len() && s[i] != c
        invariant
            i <= s@.len(),
            find_char(s@, c, 0) == find_char(s@, c, i as int),
        decreases s@.len() - i,
    {
        i = i + 1;
    }
    i
}

pub open spec fn unknown_talker() -> Seq<char> {
    seq!['u', 'n', 'k', 'n', 'o', 'w', 'n']
}

/// Talker and text of a spoken line: split at the first `:` when text follows it,
/// else the whole (trimmed) line is text and the talker is `unknown`.
pub open spec fn talker_and_text(s: Seq<char>) -> (Seq<char>, Seq<char>) {
    let k = find_char(s, ':', 0);
    let s0 = trim(s.take(k));
    let s1 = if k < s.len() {
        trim(s.skip(k + 1))
    } else {
        Seq::empty()
    };
    if s1.len() > 0 {
        (s0, s1)
    } else {
        (unknown_talker(), trim(s))
    }
}

/// Name and arguments of a command line: the words after its first `$`.
pub open spec fn command_words(s: Seq<char>) -> Seq<Seq<char>> {
    let k = find_char(s, '$', 0);
    if k < s.len() {
        words(s.skip(k + 1))
    } else {
        Seq::empty()
    }
}

/// The label of a choice line: what follows its marker, trimmed.
pub open spec fn choice_label(s: Seq<char>) -> Seq<char> {
    trim(trim_start(s).skip(1))
}

pub(crate) fn trim_range(s: &Vec<char>, from: usize, to: usize) -> (r: (usize, usize))
    requires
        from <= to <= s@.len(),
    ensures
        from <= r.0 <= r.1 <= to,
        s@.subrange(r.0 as int, r.1 as int) == trim(s@.subrange(from as int, to as int)),
{
    let a = skip_ws(s, from, to);
    let b = skip_ws_back(s, a, to);
    proof {
        let t = s@.subrange(from as int, to as int);
        lemma_lead_ws(t);
        assert(trim_start(t) =~= s@.subrange(a as int, to as int));
        assert(trim_end(s@.subrange(a as int, to as int)) =~= s@.subrange(a as int, b as int));
    }
    (a, b)
}

pub(crate) fn comment_cut_exec(s: &Vec<char>) -> (r: usize)
    ensures
        r == comment_cut(s@, 0),
        r <= s@.len(),
{
    let mut i: usize = 0;
    while i < s.len() && !(s[i] == '#' && (i == 0 || s[i - 1] != '\\'))
        invariant
            i <= s@.len(),
            comment_cut(s@, 0) == comment_cut(s@, i as int),
        decreases s@.len() - i,
    {
        i = i + 1;
    }
    i
}

pub(crate) fn opens_with_three_exec(s: &Vec<char>, c: char) -> (r: bool)
    ensures
        r == opens_with_three(s@, c),
{
    let a = skip_ws(s, 0, s.len());
    proof {
        assert(s@.subrange(0, s@.len() as int) =~= s@);
        assert(trim_start(s@) =~= s@.subrange(a as int, s@.len() as int));
    }
    s.len() - a >= 3 && s[a] == c && s[a + 1] == c && s[a + 2] == c
}

pub(crate) fn kind_of_exec(s: &Vec<char>) -> (r: DialogKind)
    ensures
        r == kind_of(s@),
{
    let a = skip_ws(s, 0, s.len());
    proof {
        assert(s@.subrange(0, s@.len() as int) =~= s@);
        assert(trim_start(s@) =~= s@.subrange(a as int, s@.len() as int));
    }
    if a == s.len() {
        DialogKind::Dialog
    } else if s[a] == '$' {
        DialogKind::Command
    } else if s[a] == '*' || s[a] == '+' || s[a] == '-' {
        DialogKind::Choices
    } else {
        DialogKind::Dialog
    }
}

pub(crate) fn indent_width_exec(s: &Vec<char>) -> (r: usize)
    ensures
        r == indent_width(s@),
{
    let mut i: usize = 0;
    while i < s.len() && (s[i] == ' ' || s[i] == '\t')
        invariant
            i <= s@.len(),
            forall|k: int| 0 <= k < i ==> (#[trigger] s@[k] == ' ' || s@[k] == '\t'),
        decreases s@.len() - i,
    {
        i = i + 1;
    }
    proof {
        lemma_blank_run_is(s@, i as int);
    }
    if i == s.len() {
        0
    } else {
        i
    }
}

// ---------------------------------------------------------------------------
// Header metadata
// ---------------------------------------------------------------------------

/// The string stored under `key` at the top level of the TOML document `s`, when the
/// document parses and the value there is a string.
pub uninterp spec fn toml_string(s: Seq<char>, key: Seq<char>) -> Option<Seq<char>>;

/// Relies on `toml::from_str` (into toml's own `Value`, which rejects a key written
/// twice) and `Map::get`: hands back the string value stored under `key`.
#[verifier::external_body]
fn toml_string_at(s: &str, key: &str) -> (r: Option<String>)
    ensures
        r is Some == toml_string(s@, key@) is Some,
        r is Some ==> r->Some_0@ == toml_string(s@, key@)->Some_0,
{
    match toml::from_str::<toml::Value>(s) {
        Ok(toml::Value::Table(t)) => match t.get(key) {
            Some(toml::Value::String(v)) => Some(v.clone()),
            _ => None,
        },
        _ => None,
    }
}

/// The title that a header block gives: its `title` string, or `UnknownScene` when the
/// block does not parse or holds no such string.
pub open spec fn meta_title(s: Seq<char>) -> Seq<char> {
    match toml_string(s, "title"@) {
        Some(t) => t,
        None => unknown_scene(),
    }
}

/// What the header block of a scene says about it.
#[derive(Debug, PartialEq, Eq)]
pub struct MetaData {
    pub title: String,
}

impl MetaData {
    pub fn new() -> (r: MetaData)
        ensures
            r.title@ == unknown_scene(),
    {
        proof {
            reveal_strlit("UnknownScene");
        }
        MetaData { title: String::from_str("UnknownScene") }
    }

    /// Reads the header text `toml_str`; falls back to the defaults where it does not parse.
    pub fn parse(&mut self, toml_str: &str)
        ensures
            final(self).title@ == meta_title(toml_str@),
    {
        match toml_string_at(toml_str, "title") {
            Some(t) => {
                self.title = t;
            },
            None => {
                *self = MetaData::new();
            },
        }
    }
}

// ---------------------------------------------------------------------------
// Working memory of the reader
// ---------------------------------------------------------------------------

/// The reader's counters for the scene in progress.
#[derive(Debug, PartialEq, Eq)]
pub struct SceneProcessData {
    pub line_cnt: usize,
    /// Indentation widths seen so far, each a deeper nesting boundary.
    pub indent_cnts: Vec<usize>,
    /// Per level, the index of the last dialogue opened there.
    pub dialog_idxs: Vec<usize>,
    /// How many choice groups are open.
    pub nest_lv: usize,
    pub is_header: bool,
    /// Per open choice group, its group index and the index of its current label.
    pub choice_idxs: Vec<(usize, usize)>,
    pub header_str: String,
    pub meta_data: MetaData,
}

/// The model of the counters.
pub struct SpM {
    pub indent_cnts: Seq<usize>,
    pub dialog_idxs: Seq<usize>,
    pub nest_lv: usize,
    pub is_header: bool,
    pub choice_idxs: Seq<(usize, usize)>,
    pub header: Seq<char>,
    pub title: Seq<char>,
}

pub open spec fn fresh_sp() -> SpM {
    SpM {
        indent_cnts: Seq::empty(),
        dialog_idxs: Seq::empty(),
        nest_lv: 0,
        is_header: false,
        choice_idxs: Seq::empty(),
        header: Seq::empty(),
        title: unknown_scene(),
    }
}

/// Every dialogue index is below `n`.
pub open spec fn dialogs_below(d: Seq<usize>, n: int) -> bool {
    forall|k: int| 0 <= k < d.len() ==> #[trigger] d[k] < n
}

/// Every group and label index is below `n`.
pub open spec fn choices_below(c: Seq<(usize, usize)>, n: int) -> bool {
    forall|k: int| 0 <= k < c.len() ==> #[trigger] c[k].0 < n && c[k].1 < n
}

/// Counts a dialogue at the current nesting: the index at that level goes up, or a new
/// level starts at 0.
pub open spec fn dialog_up(d: Seq<usize>, lv: usize) -> Seq<usize> {
    if lv < d.len() {
        d.update(lv as int, (d[lv as int] + 1) as usize)
    } else {
        d.push(0)
    }
}

/// Counts a choice line at nesting `lv`: a group deeper than `lv` was closed, so the next
/// group starts; or the next label of the current group; or a first group.
pub open spec fn choice_up(c: Seq<(usize, usize)>, lv: usize) -> Seq<(usize, usize)> {
    if lv == 0 {
        c
    } else if c.len() > lv {
        let t = c.take(lv as int);
        t.update(lv - 1, (((t[lv - 1].0 + 1) as usize), 0usize))
    } else if lv - 1 < c.len() {
        c.update(lv - 1, (c[lv - 1].0, (c[lv - 1].1 + 1) as usize))
    } else {
        c.push((0usize, 0usize))
    }
}

pub open spec fn keep(n: int, len: int) -> int {
    if n < len {
        n
    } else {
        len
    }
}

/// The index path of the current nesting: one triple (dialogue, group, label) per open
/// group, as far as both counters reach.
pub open spec fn scene_path(d: Seq<usize>, c: Seq<(usize, usize)>, n: int) -> Seq<usize>
    decreases n,
{
    if n <= 0 || n > d.len() || n > c.len() {
        Seq::empty()
    } else {
        scene_path(d, c, n - 1) + seq![d[n - 1], c[n - 1].0, c[n - 1].1]
    }
}

pub open spec fn path_len(d: Seq<usize>, c: Seq<(usize, usize)>, lv: usize) -> int {
    keep(keep(lv as int, d.len() as int), c.len() as int)
}

pub open spec fn scene_idxs(d: Seq<usize>, c: Seq<(usize, usize)>, lv: usize) -> Seq<usize> {
    scene_path(d, c, path_len(d, c, lv))
}

/// The rightmost boundary that `w` reaches, or -1.
pub open spec fn rpos(cnts: Seq<usize>, w: usize) -> int
    decreases cnts.len(),
{
    if cnts.len() == 0 {
        -1
    } else if w >= cnts.last() {
        cnts.len() - 1
    } else {
        rpos(cnts.drop_last(), w)
    }
}

pub open spec fn last_width(cnts: Seq<usize>) -> usize {
    if cnts.len() == 0 {
        0
    } else {
        cnts.last()
    }
}

/// The boundaries after a line of width `w`, and that line's indent level.
pub open spec fn indent_step(cnts: Seq<usize>, w: usize) -> (Seq<usize>, int) {
    if w > last_width(cnts) {
        (cnts.push(w), cnts.len() + 1int)
    } else {
        (cnts, rpos(cnts, w) + 1)
    }
}

/// The identifier of the current position: the title, then per level `_<dialogue>`, and
/// `_C<group>L<label>` where a choice group is open at that level (all counted from 1).
pub open spec fn label_of(title: Seq<char>, d: Seq<usize>, c: Seq<(usize, usize)>) -> Seq<char>
    decreases d.len(),
{
    if d.len() == 0 {
        title
    } else {
        label_of(title, d.drop_last(), c) + level_suffix(d.last(), d.len() - 1, c)
    }
}

pub open spec fn level_suffix(di: usize, k: int, c: Seq<(usize, usize)>) -> Seq<char> {
    seq!['_'] + decimal((di + 1) as nat) + if k < c.len() {
        seq!['_', 'C'] + decimal((c[k].0 + 1) as nat) + seq!['L'] + decimal((c[k].1 + 1) as nat)
    } else {
        Seq::empty()
    }
}

/// Identical counters give an identical identifier.
pub proof fn label_is_deterministic(
    t1: Seq<char>,
    d1: Seq<usize>,
    c1: Seq<(usize, usize)>,
    t2: Seq<char>,
    d2: Seq<usize>,
    c2: Seq<(usize, usize)>,
)
    requires
        t1 == t2,
        d1 == d2,
        c1 == c2,
    ensures
        label_of(t1, d1, c1) == label_of(t2, d2, c2),
{
}

impl SceneProcessData {
    pub open spec fn model(&self) -> SpM {
        SpM {
            indent_cnts: self.indent_cnts@,
            dialog_idxs: self.dialog_idxs@,
            nest_lv: self.nest_lv,
            is_header: self.is_header,
            choice_idxs: self.choice_idxs@,
            header: self.header_str@,
            title: self.meta_data.title@,
        }
    }

    pub fn new() -> (r: SceneProcessData)
        ensures
            r.model() == fresh_sp(),
            r.line_cnt == 0,
    {
        let r = SceneProcessData {
            line_cnt: 0,
            indent_cnts: Vec::new(),
            dialog_idxs: Vec::new(),
            nest_lv: 0,
            is_header: false,
            choice_idxs: Vec::new(),
            header_str: String::new(),
            meta_data: MetaData::new(),
        };
        proof {
            assert(r.model().indent_cnts =~= Seq::<usize>::empty());
            assert(r.model().dialog_idxs =~= Seq::<usize>::empty());
            assert(r.model().choice_idxs =~= Seq::<(usize, usize)>::empty());
        }
        r
    }

    pub fn reset(&mut self)
        ensures
            final(self).model() == fresh_sp(),
            final(self).line_cnt == 0,
    {
        *self = Self::new();
    }

    pub fn dialog_count_up(&mut self)
        requires
            old(self).nest_lv < old(self).dialog_idxs@.len() ==> old(self).dialog_idxs@[old(
                self,
            ).nest_lv as int] < usize::MAX,
        ensures
            final(self).model() == (SpM {
                dialog_idxs: dialog_up(old(self).dialog_idxs@, old(self).nest_lv),
                ..old(self).model()
            }),
            final(self).line_cnt == old(self).line_cnt,
    {
        let lv = self.nest_lv;
        if lv < self.dialog_idxs.len() {
            let v = self.dialog_idxs[lv];
            self.dialog_idxs.set(lv, v + 1);
        } else {
            self.dialog_idxs.push(0);
        }
    }

    pub fn choice_idx_count_up(&mut self)
        requires
            choices_below(old(self).choice_idxs@, usize::MAX as int),
        ensures
            final(self).model() == (SpM {
                choice_idxs: choice_up(old(self).choice_idxs@, old(self).nest_lv),
                ..old(self).model()
            }),
            final(self).line_cnt == old(self).line_cnt,
    {
        let lv = self.nest_lv;
        let past = self.choice_idxs.len();
        if lv == 0 {
            return;
        }
        let i = lv - 1;
        self.choice_idxs.truncate(lv);
        proof {
            if past <= lv {
                assert(self.choice_idxs@ =~= old(self).choice_idxs@);
            }
        }
        if past > lv {
            let (ci, _) = self.choice_idxs[i];
            self.choice_idxs.set(i, (ci + 1, 0));
        } else if i < self.choice_idxs.len() {
            let (ci, li) = self.choice_idxs[i];
            self.choice_idxs.set(i, (ci, li + 1));
        } else {
            self.choice_idxs.push((0, 0));
        }
    }

    /// Opens a new choice group at the current depth: the group after the last one seen
    /// at that depth (deeper counters dropped), or the first one, at its first label.
    pub fn open_choice_group(&mut self)
        requires
            choices_below(old(self).choice_idxs@, usize::MAX as int),
        ensures
            final(self).model() == (SpM {
                choice_idxs: open_group(old(self).choice_idxs@, old(self).nest_lv),
                ..old(self).model()
            }),
            final(self).line_cnt == old(self).line_cnt,
    {
        let lv = self.nest_lv;
        if lv >= 1 && lv - 1 < self.choice_idxs.len() {
            let i = lv - 1;
            proof {
                assert(self.choice_idxs@[i as int].0 < usize::MAX);
            }
            self.choice_idxs.truncate(lv);
            let (ci, _) = self.choice_idxs[i];
            self.choice_idxs.set(i, (ci + 1, 0));
        } else {
            self.choice_idxs.push((0, 0));
        }
    }

    /// Forgets the dialogue counters and the indentation boundaries deeper than `indent_lv`.
    pub fn truncate_idxs(&mut self, indent_lv: usize)
        ensures
            final(self).model() == (SpM {
                dialog_idxs: old(self).dialog_idxs@.take(
                    keep(indent_lv + 1, old(self).dialog_idxs@.len() as int),
                ),
                indent_cnts: old(self).indent_cnts@.take(
                    keep(indent_lv + 1, old(self).indent_cnts@.len() as int),
                ),
                ..old(self).model()
            }),
            final(self).line_cnt == old(self).line_cnt,
    {
        let l = if indent_lv < usize::MAX {
            indent_lv + 1
        } else {
            indent_lv
        };
        self.dialog_idxs.truncate(l);
        self.indent_cnts.truncate(l);
        proof {
            assert(self.dialog_idxs@ =~= old(self).dialog_idxs@.take(
                keep(indent_lv + 1, old(self).dialog_idxs@.len() as int),
            ));
            assert(self.indent_cnts@ =~= old(self).indent_cnts@.take(
                keep(indent_lv + 1, old(self).indent_cnts@.len() as int),
            ));
        }
    }

    pub fn nest_lv_count_up(&mut self)
        requires
            old(self).nest_lv < usize::MAX,
        ensures
            final(self).model() == (SpM { nest_lv: (old(self).nest_lv + 1) as usize, ..old(self).model() }),
            final(self).line_cnt == old(self).line_cnt,
    {
        self.nest_lv = self.nest_lv + 1;
    }

    pub fn nest_lv_count_down(&mut self, indent_lv: usize)
        ensures
            final(self).model() == (SpM { nest_lv: indent_lv, ..old(self).model() }),
            final(self).line_cnt == old(self).line_cnt,
    {
        self.nest_lv = indent_lv;
    }

    /// The index path of the current nesting: `[di, ci, li, di, ci, li, ...]`, one triple
    /// per open choice group.
    pub fn inner_scene_idxs(&self) -> (r: Vec<usize>)
        ensures
            r@ == scene_idxs(self.dialog_idxs@, self.choice_idxs@, self.nest_lv),
    {
        let mut n = self.nest_lv;
        if self.dialog_idxs.len() < n {
            n = self.dialog_idxs.len();
        }
        if self.choice_idxs.len() < n {
            n = self.choice_idxs.len();
        }
        let mut r: Vec<usize> = Vec::new();
        let mut k: usize = 0;
        while k < n
            invariant
                n == path_len(self.dialog_idxs@, self.choice_idxs@, self.nest_lv),
                k <= n,
                r@ == scene_path(self.dialog_idxs@, self.choice_idxs@, k as int),
            decreases n - k,
        {
            let (ci, li) = self.choice_idxs[k];
            r.push(self.dialog_idxs[k]);
            r.push(ci);
            r.push(li);
            k = k + 1;
            proof {
                assert(r@ =~= scene_path(self.dialog_idxs@, self.choice_idxs@, k as int));
            }
        }
        r
    }

    /// The deepest indentation boundary, or 0 when there is none.
    pub fn latest_indent_cnt(&self) -> (r: usize)
        ensures
            r == last_width(self.indent_cnts@),
    {
        let n = self.indent_cnts.len();
        if n == 0 {
            0
        } else {
            self.indent_cnts[n - 1]
        }
    }

    /// The indent level of a line of width `w`: a width beyond the deepest boundary opens
    /// a new one, one level deeper than any before; another width goes to the level of
    /// the rightmost boundary it reaches (0 when it reaches none).
    pub fn indent_level(&mut self, w: usize) -> (r: usize)
        ensures
            final(self).model() == (SpM { indent_cnts: indent_step(old(self).indent_cnts@, w).0, ..old(self).model() }),
            r as int == indent_step(old(self).indent_cnts@, w).1,
            w > last_width(old(self).indent_cnts@) ==> r == old(self).indent_cnts@.len() + 1,
            r <= final(self).indent_cnts@.len(),
            final(self).line_cnt == old(self).line_cnt,
    {
        let latest = self.latest_indent_cnt();
        if w > latest {
            self.indent_cnts.push(w);
            return self.indent_cnts.len();
        }
        let ghost cnts = self.indent_cnts@;
        let mut k = self.indent_cnts.len();
        proof {
            assert(cnts.take(k as int) =~= cnts);
        }
        while k > 0 && w < self.indent_cnts[k - 1]
            invariant
                k <= cnts.len(),
                cnts == self.indent_cnts@,
                rpos(cnts, w) == rpos(cnts.take(k as int), w),
            decreases k,
        {
            proof {
                assert(cnts.take(k as int).drop_last() =~= cnts.take(k - 1));
            }
            k = k - 1;
        }
        proof {
            if k > 0 {
                assert(cnts.take(k as int).last() == cnts[k - 1]);
            } else {
                assert(cnts.take(0) =~= Seq::<usize>::empty());
            }
        }
        k
    }

    /// The indent level of `line`, as `indent_level` gives it for the line's width.
    pub fn parse_indent_lv(&mut self, line: &str) -> (r: usize)
        ensures
            final(self).model() == (SpM {
                indent_cnts: indent_step(old(self).indent_cnts@, indent_width(line@) as usize).0,
                ..old(self).model()
            }),
            r as int == indent_step(old(self).indent_cnts@, indent_width(line@) as usize).1,
            indent_width(line@) > last_width(old(self).indent_cnts@) ==> r == old(self).indent_cnts@.len() + 1,
            final(self).line_cnt == old(self).line_cnt,
    {
        let w = Self::count_indent_chars(line);
        self.indent_level(w)
    }

    /// The number of spaces and tabs that `line` starts with (0 for a line of nothing else).
    pub fn count_indent_chars(line: &str) -> (r: usize)
        ensures
            r == indent_width(line@),
    {
        let cs = chars_of(line);
        indent_width_exec(&cs)
    }

    /// The identifier of the current position (see `label_of`).
    pub fn gen_dialog_label(&self) -> (r: String)
        requires
            dialogs_below(self.dialog_idxs@, usize::MAX as int),
            choices_below(self.choice_idxs@, usize::MAX as int),
        ensures
            r@ == label_of(self.meta_data.title@, self.dialog_idxs@, self.choice_idxs@),
    {
        let r = self.label_upto(self.choice_idxs.len());
        proof {
            assert(self.choice_idxs@.take(self.choice_idxs@.len() as int) =~= self.choice_idxs@);
        }
        r
    }

    /// The identifier of the current position, with choice suffixes on the first `cl`
    /// levels only.
    fn label_upto(&self, cl: usize) -> (r: String)
        requires
            dialogs_below(self.dialog_idxs@, usize::MAX as int),
            choices_below(self.choice_idxs@, usize::MAX as int),
            cl <= self.choice_idxs@.len(),
        ensures
            r@ == label_of(self.meta_data.title@, self.dialog_idxs@, self.choice_idxs@.take(cl as int)),
    {
        let d = &self.dialog_idxs;
        let c = &self.choice_idxs;
        let ghost ct = c@.take(cl as int);
        let mut s = self.meta_data.title.clone();
        let mut i: usize = 0;
        while i < d.len()
            invariant
                i <= d@.len(),
                forall|k: int| 0 <= k < d@.len() ==> #[trigger] d@[k] < usize::MAX,
                forall|k: int| 0 <= k < c@.len() ==> #[trigger] c@[k].0 < usize::MAX && c@[k].1 < usize::MAX,
                cl <= c@.len(),
                ct == c@.take(cl as int),
                s@ == label_of(self.meta_data.title@, d@.take(i as int), ct),
            decreases d@.len() - i,
        {
            let ghost before = s@;
            push_char(&mut s, '_');
            push_decimal(&mut s, d[i] + 1);
            if i < cl {
                let (ci, li) = c[i];
                push_char(&mut s, '_');
                push_char(&mut s, 'C');
                push_decimal(&mut s, ci + 1);
                push_char(&mut s, 'L');
                push_decimal(&mut s, li + 1);
            }
            proof {
                assert(d@.take(i + 1).drop_last() =~= d@.take(i as int));
                if i < cl {
                    assert(ct[i as int] == c@[i as int]);
                }
                assert(s@ =~= before + level_suffix(d@[i as int], i as int, ct));
            }
            i = i + 1;
        }
        proof {
            assert(d@.take(d@.len() as int) =~= d@);
        }
        s
    }

    pub fn line_count_up(&mut self)
        ensures
            final(self).model() == old(self).model(),
            final(self).line_cnt == if old(self).line_cnt < usize::MAX {
                old(self).line_cnt + 1
            } else {
                old(self).line_cnt as int
            },
    {
        if self.line_cnt < usize::MAX {
            self.line_cnt = self.line_cnt + 1;
        }
    }
}

// ---------------------------------------------------------------------------
// Nodes built from one line
// ---------------------------------------------------------------------------

pub open spec fn texts_m(ws: Seq<Seq<char>>) -> Seq<BodyM> {
    Seq::new(ws.len(), |i: int| BodyM::Text(ws[i]))
}

/// A spoken line: its id is the position label, `_`, and the talker.
pub open spec fn dialog_node(line: Seq<char>, label: Seq<char>) -> DialogM {
    let (talker, text) = talker_and_text(line);
    DialogM {
        kind: DialogKind::Dialog,
        id: label + seq!['_'] + talker,
        args: seq![BodyM::Text(text)],
    }
}

/// A command line: its first word is the name, the others are the arguments.
pub open spec fn command_node(line: Seq<char>) -> DialogM {
    let ws = command_words(line);
    DialogM {
        kind: DialogKind::Command,
        id: if ws.len() > 0 {
            ws[0]
        } else {
            Seq::empty()
        },
        args: if ws.len() > 0 {
            texts_m(ws.skip(1))
        } else {
            Seq::empty()
        },
    }
}

/// A new choice group, with the given id.
pub open spec fn group_node(id: Seq<char>) -> DialogM {
    DialogM { kind: DialogKind::Choices, id, args: Seq::empty() }
}

/// How many levels of a label carry a choice suffix when the last level's is left out.
pub open spec fn group_levels(d: Seq<usize>, c: Seq<(usize, usize)>) -> int {
    if d.len() == 0 {
        0
    } else {
        keep(d.len() - 1, c.len() as int)
    }
}

/// The id of a choice group: the position label without its trailing `_C<group>L<label>`.
pub open spec fn group_label(sp: SpM) -> Seq<char> {
    label_of(sp.title, sp.dialog_idxs, sp.choice_idxs.take(group_levels(sp.dialog_idxs, sp.choice_idxs)))
}

/// One choice of a group: its id is the position label.
pub open spec fn choice_node(line: Seq<char>, label: Seq<char>) -> BodyM {
    BodyM::Choice(ChoiceM { id: label, label: choice_label(line), dialogs: Seq::empty() })
}

fn dialog_process(line: &Vec<char>, label: &String) -> (r: Dialog)
    ensures
        dialog_m(r) == dialog_node(line@, label@),
{
    let k = find_char_exec(line, ':');
    proof {
        lemma_find_char(line@, ':', 0);
        assert(line@.subrange(0, k as int) =~= line@.take(k as int));
        if k < line@.len() {
            assert(line@.subrange(k + 1, line@.len() as int) =~= line@.skip(k + 1));
        }
    }
    let (a0, b0) = trim_range(line, 0, k);
    let (a1, b1) = if k < line.len() {
        trim_range(line, k + 1, line.len())
    } else {
        (0, 0)
    };
    let mut id = label.clone();
    push_char(&mut id, '_');
    let text;
    if b1 > a1 {
        push_chars(&mut id, line, a0, b0);
        text = string_of(line, a1, b1);
    } else {
        proof {
            reveal_strlit("unknown");
            assert("unknown"@ =~= unknown_talker());
        }
        id.append("unknown");
        let (a2, b2) = trim_range(line, 0, line.len());
        proof {
            assert(line@.subrange(0, line@.len() as int) =~= line@);
        }
        text = string_of(line, a2, b2);
    }
    let mut args: Vec<DialogBody> = Vec::new();
    args.push(DialogBody::Text(text));
    let r = Dialog { kind: DialogKind::Dialog, id, args };
    proof {
        lemma_bodies_m(r.args@);
        assert(bodies_m(r.args@) =~= seq![BodyM::Text(text@)]);
        assert(r.id@ =~= label@ + seq!['_'] + talker_and_text(line@).0);
    }
    r
}

pub(crate) fn command_process(line: &Vec<char>) -> (r: Dialog)
    ensures
        dialog_m(r) == command_node(line@),
{
    let k = find_char_exec(line, '$');
    proof {
        lemma_find_char(line@, '$', 0);
    }
    let ws: Vec<String> = if k < line.len() {
        proof {
            assert(line@.subrange(k + 1, line@.len() as int) =~= line@.skip(k + 1));
        }
        split_words(line, k + 1, line.len())
    } else {
        Vec::new()
    };
    let ghost wsm = command_words(line@);
    let id = if ws.len() > 0 {
        ws[0].clone()
    } else {
        String::new()
    };
    let mut args: Vec<DialogBody> = Vec::new();
    let mut i: usize = 1;
    while i < ws.len()
        invariant
            1 <= i <= ws@.len() || (ws@.len() == 0 && i == 1),
            ws@.len() == wsm.len(),
            forall|j: int| 0 <= j < ws@.len() ==> #[trigger] ws@[j]@ == wsm[j],
            args@.len() == i - 1,
            forall|j: int| 0 <= j < args@.len() ==> #[trigger] body_m(args@[j]) == BodyM::Text(wsm[j + 1]),
        decreases ws@.len() - i,
    {
        args.push(DialogBody::Text(ws[i].clone()));
        i = i + 1;
    }
    let r = Dialog { kind: DialogKind::Command, id, args };
    proof {
        lemma_bodies_m(args@);
        if wsm.len() > 0 {
            let want = texts_m(wsm.skip(1));
            assert forall|j: int| 0 <= j < want.len() implies #[trigger] want[j] == bodies_m(args@)[j] by {
                assert(wsm.skip(1)[j] == wsm[j + 1]);
            }
            assert(bodies_m(args@) =~= want);
        } else {
            assert(bodies_m(args@) =~= Seq::<BodyM>::empty());
        }
        if ws@.len() == 0 {
            assert(id@ =~= Seq::<char>::empty());
        }
    }
    r
}

fn choices_parent_process(id: String) -> (r: Dialog)
    ensures
        dialog_m(r) == group_node(id@),
{
    let r = Dialog { kind: DialogKind::Choices, id, args: Vec::new() };
    proof {
        assert(bodies_m(r.args@) =~= Seq::<BodyM>::empty());
    }
    r
}

fn choices_child_process(line: &Vec<char>, label: &String) -> (r: DialogBody)
    requires
        trim_start(line@).len() >= 1,
    ensures
        body_m(r) == choice_node(line@, label@),
{
    let a = skip_ws(line, 0, line.len());
    proof {
        assert(line@.subrange(0, line@.len() as int) =~= line@);
        assert(trim_start(line@) =~= line@.subrange(a as int, line@.len() as int));
        assert(trim_start(line@).skip(1) =~= line@.subrange(a + 1, line@.len() as int));
    }
    let (x, y) = trim_range(line, a + 1, line.len());
    let r = DialogBody::Choice(ChoiceData { id: label.clone(), label: string_of(line, x, y), dialogs: Vec::new() });
    proof {
        assert(dialogs_m(Seq::<Dialog>::empty()) =~= Seq::<DialogM>::empty());
    }
    r
}

// ---------------------------------------------------------------------------
// The reader as a state machine over lines
// ---------------------------------------------------------------------------

/// The reader's state between two lines: its counters, the scene in progress, and the
/// scenes finished so far.
pub struct PState {
    pub sp: SpM,
    pub sc: SceneM,
    pub scenes: Seq<SceneM>,
}

pub open spec fn fresh_scene() -> SceneM {
    SceneM { title: unknown_scene(), dialogs: Seq::empty() }
}

pub open spec fn fresh_state() -> PState {
    PState { sp: fresh_sp(), sc: fresh_scene(), scenes: Seq::empty() }
}

/// A scene-end marker: the scene in progress is finished and everything starts afresh.
pub open spec fn end_scene(st: PState) -> PState {
    PState { sp: fresh_sp(), sc: fresh_scene(), scenes: st.scenes.push(st.sc) }
}

/// A line inside a header block: the closing fence reads the block's title, any other
/// line is collected.
pub open spec fn header_step(st: PState, line: Seq<char>) -> PState {
    if is_header_line(line) {
        let t = meta_title(st.sp.header);
        PState {
            sp: SpM { is_header: false, title: t, ..st.sp },
            sc: if t.len() > 0 {
                SceneM { title: t, dialogs: st.sc.dialogs }
            } else {
                st.sc
            },
            scenes: st.scenes,
        }
    } else {
        PState { sp: SpM { header: st.sp.header + line + seq!['\n'], ..st.sp }, ..st }
    }
}

/// A dialogue or command line above the open choice groups closes the deeper ones.
pub open spec fn lower(sp: SpM, lv: int) -> SpM {
    if lv < sp.nest_lv {
        SpM {
            nest_lv: lv as usize,
            dialog_idxs: sp.dialog_idxs.take(keep(lv + 1, sp.dialog_idxs.len() as int)),
            indent_cnts: sp.indent_cnts.take(keep(lv + 1, sp.indent_cnts.len() as int)),
            ..sp
        }
    } else {
        sp
    }
}

pub open spec fn sp_path(sp: SpM) -> Seq<usize> {
    scene_idxs(sp.dialog_idxs, sp.choice_idxs, sp.nest_lv)
}

pub open spec fn sp_label(sp: SpM) -> Seq<char> {
    label_of(sp.title, sp.dialog_idxs, sp.choice_idxs)
}

/// `d` appended to the dialogue list at the end of path `p`, if the path resolves.
pub open spec fn append_at(ds: Seq<DialogM>, p: Seq<usize>, d: DialogM) -> Option<Seq<DialogM>> {
    match path_target(ds, p) {
        Some(t) => Some(path_replace(ds, p, t.push(d))),
        None => None,
    }
}

/// `b` appended to the choice group addressed by `p`, if there is one.
pub open spec fn add_choice(ds: Seq<DialogM>, p: Seq<usize>, b: BodyM) -> Option<Seq<DialogM>> {
    match choices_target(ds, p) {
        Some((parent, j)) => Some(
            path_replace(
                ds,
                parent_path(p),
                parent.update(
                    j,
                    DialogM { kind: parent[j].kind, id: parent[j].id, args: parent[j].args.push(b) },
                ),
            ),
        ),
        None => None,
    }
}

/// The counters after a spoken line at indent level `lv`: it closes the groups deeper
/// than its level, then counts at the nesting left open.
pub open spec fn dialog_counters(sp1: SpM, lv: int) -> SpM {
    let sp2 = lower(sp1, lv);
    SpM { dialog_idxs: dialog_up(sp2.dialog_idxs, sp2.nest_lv), ..sp2 }
}

/// The counters after a line of any kind outside a header, whether or not the tree then
/// has a place for it: what the index path of the line is computed from.
pub open spec fn node_counters(st: PState, line: Seq<char>) -> SpM {
    let (cnts, lv) = indent_step(st.sp.indent_cnts, indent_width(line) as usize);
    let sp1 = SpM { indent_cnts: cnts, ..st.sp };
    let kind = kind_of(line);
    if kind == DialogKind::Dialog {
        dialog_counters(sp1, lv)
    } else if kind == DialogKind::Command {
        lower(sp1, lv)
    } else {
        choice_counters(sp1, lv)
    }
}

/// Whether a line, read with the header flag `is_header`, ends the scene in progress.
pub open spec fn ends_scene(is_header: bool, raw: Seq<char>) -> bool {
    let l = strip_comment(raw);
    trim(l).len() > 0 && !is_header && !is_header_line(l) && is_end_line(l)
}

/// A spoken line at indent level `lv`: counted at its nesting, then appended there.
#[verifier::opaque]
pub open spec fn dialog_step(sp1: SpM, ds: Seq<DialogM>, lv: int, line: Seq<char>) -> Option<(SpM, Seq<DialogM>)> {
    let sp3 = dialog_counters(sp1, lv);
    match append_at(ds, sp_path(sp3), dialog_node(line, sp_label(sp3))) {
        Some(ds2) => Some((sp3, ds2)),
        None => None,
    }
}

/// A command line at indent level `lv`: appended at its nesting, not counted.
#[verifier::opaque]
pub open spec fn command_step(sp1: SpM, ds: Seq<DialogM>, lv: int, line: Seq<char>) -> Option<(SpM, Seq<DialogM>)> {
    let sp2 = lower(sp1, lv);
    match append_at(ds, sp_path(sp2), command_node(line)) {
        Some(ds2) => Some((sp2, ds2)),
        None => None,
    }
}

/// A choice line at indent level `lv`: at or below the open groups it opens a new group
/// (a new `Choices` dialogue); above them it continues the group of its level. Either
/// way the choice joins that group.
/// The counters after a choice line at indent level `lv`. A line at or below the open
/// groups opens a group one level deeper; a line above them returns to the group of its
/// own level (closing the deeper ones) and takes that group's next label.
pub open spec fn choice_counters(sp1: SpM, lv: int) -> SpM {
    if lv >= sp1.nest_lv {
        let sp2 = SpM {
            dialog_idxs: dialog_up(sp1.dialog_idxs, sp1.nest_lv),
            nest_lv: (sp1.nest_lv + 1) as usize,
            ..sp1
        };
        SpM { choice_idxs: open_group(sp2.choice_idxs, sp2.nest_lv), ..sp2 }
    } else {
        let sp2 = SpM {
            dialog_idxs: sp1.dialog_idxs.take(keep(lv + 1, sp1.dialog_idxs.len() as int)),
            indent_cnts: sp1.indent_cnts.take(keep(lv + 1, sp1.indent_cnts.len() as int)),
            nest_lv: (lv + 1) as usize,
            choice_idxs: sp1.choice_idxs.take(keep(lv + 1, sp1.choice_idxs.len() as int)),
            ..sp1
        };
        SpM { choice_idxs: choice_up(sp2.choice_idxs, sp2.nest_lv), ..sp2 }
    }
}

/// The group counters once a new group opens at depth `lv` (from 1): the group after
/// the last one seen at that depth, or the first one, with its first label.
pub open spec fn open_group(c: Seq<(usize, usize)>, lv: usize) -> Seq<(usize, usize)> {
    if lv >= 1 && lv - 1 < c.len() {
        c.take(lv as int).update(lv - 1, (((c[lv - 1].0 + 1) as usize), 0usize))
    } else {
        c.push((0usize, 0usize))
    }
}

/// The dialogue list once a choice line has opened its group, if it opens one.
pub open spec fn with_group(sp1: SpM, ds: Seq<DialogM>, lv: int) -> Option<Seq<DialogM>> {
    let sp3 = choice_counters(sp1, lv);
    if lv >= sp1.nest_lv {
        append_at(ds, parent_path(sp_path(sp3)), group_node(group_label(sp3)))
    } else {
        Some(ds)
    }
}

/// A choice line at indent level `lv`: at or below the open groups it opens a new group
/// (a new `Choices` dialogue); above them it continues the group of its level. Either
/// way the choice joins that group.
#[verifier::opaque]
pub open spec fn choice_step(sp1: SpM, ds: Seq<DialogM>, lv: int, line: Seq<char>) -> Option<(SpM, Seq<DialogM>)> {
    let sp3 = choice_counters(sp1, lv);
    match with_group(sp1, ds, lv) {
        Some(d1) => match add_choice(d1, sp_path(sp3), choice_node(line, sp_label(sp3))) {
            Some(ds2) => Some((sp3, ds2)),
            None => None,
        },
        None => None,
    }
}

/// A dialogue, command or choice line (outside any header).
pub open spec fn node_step(st: PState, line: Seq<char>) -> Option<PState> {
    let (cnts, lv) = indent_step(st.sp.indent_cnts, indent_width(line) as usize);
    let sp1 = SpM { indent_cnts: cnts, ..st.sp };
    let kind = kind_of(line);
    let res = if kind == DialogKind::Dialog {
        dialog_step(sp1, st.sc.dialogs, lv, line)
    } else if kind == DialogKind::Command {
        command_step(sp1, st.sc.dialogs, lv, line)
    } else {
        choice_step(sp1, st.sc.dialogs, lv, line)
    };
    match res {
        Some((sp, ds)) => Some(PState { sp, sc: SceneM { title: st.sc.title, dialogs: ds }, scenes: st.scenes }),
        None => None,
    }
}

/// One line of input; `None` where the tree has no place for what the line adds.
#[verifier::opaque]
pub open spec fn line_step(st: PState, raw: Seq<char>) -> Option<PState> {
    let line = strip_comment(raw);
    if trim(line).len() == 0 {
        Some(st)
    } else if st.sp.is_header {
        Some(header_step(st, line))
    } else if is_header_line(line) {
        Some(PState { sp: SpM { is_header: true, ..st.sp }, ..st })
    } else if is_end_line(line) {
        Some(end_scene(st))
    } else {
        node_step(st, line)
    }
}

/// The state after `lines`, or the (1-based) number of the line that failed.
pub open spec fn run_lines(lines: Seq<Seq<char>>) -> Result<PState, nat>
    decreases lines.len(),
{
    if lines.len() == 0 {
        Ok(fresh_state())
    } else {
        match run_lines(lines.drop_last()) {
            Ok(st) => match line_step(st, lines.last()) {
                Some(st2) => Ok(st2),
                None => Err(lines.len()),
            },
            Err(e) => Err(e),
        }
    }
}

/// The scenes once input ends: a scene in progress counts if it holds any dialogue.
pub open spec fn finish(st: PState) -> Seq<SceneM> {
    if st.sc.dialogs.len() > 0 {
        st.scenes.push(st.sc)
    } else {
        st.scenes
    }
}

/// What reading `content` gives: its scenes, or the number of the line whose nesting
/// the tree could not follow.
pub open spec fn parse_spec(content: Seq<char>) -> Result<Seq<SceneM>, nat> {
    match run_lines(lines_of(content)) {
        Ok(st) => Ok(finish(st)),
        Err(e) => Err(e),
    }
}

// ---------------------------------------------------------------------------
// The reader
// ---------------------------------------------------------------------------

/// Where a script's nesting could not be followed: the line, and the index path tried.
#[derive(Debug, PartialEq, Eq)]
pub struct ScriptError {
    pub line: usize,
    pub path: Vec<usize>,
}

/// Counters stay below the number `n` of lines read.
pub open spec fn bounded(sp: SpM, n: int) -> bool {
    &&& sp.nest_lv <= n
    &&& sp.indent_cnts.len() <= n
    &&& dialogs_below(sp.dialog_idxs, n)
    &&& choices_below(sp.choice_idxs, n)
}

pub proof fn lemma_choice_up_bounded(c: Seq<(usize, usize)>, lv: usize, n: int)
    requires
        choices_below(c, n),
        0 <= n < usize::MAX,
    ensures
        choices_below(choice_up(c, lv), n + 1),
{
    let r = choice_up(c, lv);
    if lv == 0 {
        assert(r == c);
    } else if c.len() > lv {
        let t = c.take(lv as int);
        let x = c[lv - 1];
        assert(x.0 < n);
        assert(r == t.update(lv - 1, (((x.0 + 1) as usize), 0usize)));
        assert forall|k: int| 0 <= k < r.len() implies #[trigger] r[k].0 < n + 1 && r[k].1 < n + 1 by {
            if k != lv - 1 {
                assert(r[k] == c[k]);
            }
        }
    } else if lv - 1 < c.len() {
        let x = c[lv - 1];
        assert(x.1 < n);
        assert(r == c.update(lv - 1, (x.0, (x.1 + 1) as usize)));
        assert forall|k: int| 0 <= k < r.len() implies #[trigger] r[k].0 < n + 1 && r[k].1 < n + 1 by {
            if k != lv - 1 {
                assert(r[k] == c[k]);
            }
        }
    } else {
        assert(r == c.push((0usize, 0usize)));
        assert forall|k: int| 0 <= k < r.len() implies #[trigger] r[k].0 < n + 1 && r[k].1 < n + 1 by {
            if k < c.len() {
                assert(r[k] == c[k]);
            }
        }
    }
}

pub proof fn lemma_open_group_bounded(c: Seq<(usize, usize)>, lv: usize, n: int)
    requires
        choices_below(c, n),
        0 <= n < usize::MAX,
    ensures
        choices_below(open_group(c, lv), n + 1),
{
    let r = open_group(c, lv);
    if lv >= 1 && lv - 1 < c.len() {
        let x = c[lv - 1];
        assert(x.0 < n);
        assert forall|k: int| 0 <= k < r.len() implies #[trigger] r[k].0 < n + 1 && r[k].1 < n + 1 by {
            if k != lv - 1 {
                assert(r[k] == c[k]);
                assert(c[k].0 < n && c[k].1 < n);
            }
        }
    } else {
        assert forall|k: int| 0 <= k < r.len() implies #[trigger] r[k].0 < n + 1 && r[k].1 < n + 1 by {
            if k < c.len() {
                assert(r[k] == c[k]);
                assert(c[k].0 < n && c[k].1 < n);
            }
        }
    }
}

pub proof fn lemma_choices_below_mono(c: Seq<(usize, usize)>, n: int, m: int)
    requires
        choices_below(c, n),
        n <= m,
    ensures
        choices_below(c, m),
{
}

pub proof fn lemma_dialogs_below_mono(d: Seq<usize>, n: int, m: int)
    requires
        dialogs_below(d, n),
        n <= m,
    ensures
        dialogs_below(d, m),
{
}

pub proof fn lemma_dialog_up_bounded(d: Seq<usize>, lv: usize, n: int)
    requires
        dialogs_below(d, n),
        0 <= n < usize::MAX,
    ensures
        dialogs_below(dialog_up(d, lv), n + 1),
{
    let r = dialog_up(d, lv);
    assert forall|k: int| 0 <= k < r.len() implies #[trigger] r[k] < n + 1 by {
        if lv < d.len() {
            if k != lv {
                assert(r[k] == d[k]);
            }
        } else if k < d.len() {
            assert(r[k] == d[k]);
        }
    }
}

pub proof fn lemma_take_choices_below(c: Seq<(usize, usize)>, t: Seq<(usize, usize)>, n: int, j: int)
    requires
        choices_below(c, n),
        0 <= j <= c.len(),
        t == c.take(j),
    ensures
        choices_below(t, n),
{
    assert forall|k: int| 0 <= k < t.len() implies #[trigger] t[k].0 < n && t[k].1 < n by {
        assert(t[k] == c[k]);
        assert(0 <= k < c.len());
        assert(c[k].0 < n && c[k].1 < n);
    }
}

pub proof fn lemma_take_below(d: Seq<usize>, c: Seq<usize>, n: int, j: int)
    requires
        dialogs_below(d, n),
        0 <= j <= d.len(),
        c == d.take(j),
    ensures
        dialogs_below(c, n),
{
    assert forall|k: int| 0 <= k < c.len() implies #[trigger] c[k] < n by {
        assert(c[k] == d[k]);
    }
}

/// Bounds that hold once a line's indentation has been read.
pub open spec fn pre_bounded(sp: SpM, n: int, lv: int) -> bool {
    &&& 0 <= n < usize::MAX
    &&& sp.nest_lv <= n
    &&& sp.indent_cnts.len() <= n + 1
    &&& lv <= n + 1
    &&& dialogs_below(sp.dialog_idxs, n)
    &&& choices_below(sp.choice_idxs, n)
}

pub open spec fn state_of(sp: SceneProcessData, sc: Scene, scenes: Seq<Scene>) -> PState {
    PState { sp: sp.model(), sc: scene_m(sc), scenes: scenes_m(scenes) }
}

#[verifier::spinoff_prover]
fn append_exec(sc: &mut Scene, p: &Vec<usize>, d: Dialog) -> (ok: bool)
    ensures
        ok == append_at(dialogs_m(old(sc).dialogs@), p@, dialog_m(d)) is Some,
        ok ==> dialogs_m(final(sc).dialogs@) == append_at(dialogs_m(old(sc).dialogs@), p@, dialog_m(d))->Some_0,
        final(sc).title == old(sc).title,
{
    proof {
        assert(p@.skip(0) =~= p@);
    }
    if dialogs_at(&sc.dialogs, p, 0).is_none() {
        return false;
    }
    proof {
        lemma_dialogs_m_push();
    }
    let t = sc.inner_dialogs_as_mut(p);
    t.push(d);
    true
}

#[verifier::spinoff_prover]
fn add_choice_exec(sc: &mut Scene, p: &Vec<usize>, b: DialogBody) -> (ok: bool)
    ensures
        ok == add_choice(dialogs_m(old(sc).dialogs@), p@, body_m(b)) is Some,
        ok ==> dialogs_m(final(sc).dialogs@) == add_choice(dialogs_m(old(sc).dialogs@), p@, body_m(b))->Some_0,
        final(sc).title == old(sc).title,
{
    if p.len() < 2 {
        return false;
    }
    let pp = parent_idxs(p);
    proof {
        assert(pp@.skip(0) =~= pp@);
    }
    match dialogs_at(&sc.dialogs, &pp, 0) {
        None => {
            return false;
        },
        Some(parent) => {
            if find_nth_choices(parent, p[p.len() - 2]).is_none() {
                return false;
            }
        },
    }
    proof {
        lemma_dialogs_m_push();
        lemma_dialog_m_unfold();
    }
    let target = sc.inner_choices_as_mut(p);
    target.args.push(b);
    true
}

/// The reader of the dialogue-script dialect.
pub struct KukuriScript;

/// A choice line above the open groups returns to the group of its own level: the
/// groups deeper than it are closed, and it takes that group's next label.
pub proof fn continuing_choice_takes_next_label(sp1: SpM, lv: int)
    requires
        0 <= lv < sp1.nest_lv,
        lv < sp1.choice_idxs.len(),
        sp1.choice_idxs[lv].1 < usize::MAX,
    ensures
        choice_counters(sp1, lv).nest_lv == lv + 1,
        choice_counters(sp1, lv).choice_idxs == sp1.choice_idxs.take(lv).push(
            (sp1.choice_idxs[lv].0, (sp1.choice_idxs[lv].1 + 1) as usize),
        ),
{
    let c = sp1.choice_idxs.take(lv + 1);
    assert(keep(lv + 1, sp1.choice_idxs.len() as int) == lv + 1);
    assert(choice_up(c, (lv + 1) as usize) =~= sp1.choice_idxs.take(lv).push(
        (sp1.choice_idxs[lv].0, (sp1.choice_idxs[lv].1 + 1) as usize),
    ));
}

/// A choice line at or below the open groups opens a group one level deeper, and its
/// choice takes that group's first label.
pub proof fn opening_choice_takes_first_label(sp1: SpM, lv: int)
    requires
        lv >= sp1.nest_lv,
        sp1.nest_lv < usize::MAX,
    ensures
        choice_counters(sp1, lv).nest_lv == sp1.nest_lv + 1,
        choice_counters(sp1, lv).choice_idxs.len() > 0,
        choice_counters(sp1, lv).choice_idxs.last().1 == 0,
        choice_counters(sp1, lv).choice_idxs.len() <= sp1.nest_lv + 1,
{
}

/// Line `line` (counted from 1) of `ls` is where reading stopped, and `path` is the index
/// path computed for it: the path that the counters give once that line is counted.
pub open spec fn failed_at(ls: Seq<Seq<char>>, line: int, path: Seq<usize>) -> bool {
    &&& 1 <= line <= ls.len()
    &&& run_lines(ls.take(line - 1)) is Ok
    &&& path == sp_path(node_counters(run_lines(ls.take(line - 1))->Ok_0, strip_comment(ls[line - 1])))
}

/// Reading the same script twice gives the same scenes: same ids, same order.
pub proof fn parse_is_deterministic(content: Seq<char>, first: Seq<Scene>, second: Seq<Scene>)
    requires
        parse_spec(content) == Ok::<Seq<SceneM>, nat>(scenes_m(first)),
        parse_spec(content) == Ok::<Seq<SceneM>, nat>(scenes_m(second)),
    ensures
        scenes_m(first) == scenes_m(second),
{
}

/// A line that is a spoken line and nothing else: not blank once its comment is cut, not
/// a header fence or scene end, and of kind `Dialog`.
pub open spec fn is_plain_spoken(raw: Seq<char>) -> bool {
    let l = strip_comment(raw);
    trim(l).len() > 0 && !is_header_line(l) && !is_end_line(l) && kind_of(l) == DialogKind::Dialog
}

/// A line that is blank once its comment is cut.
pub open spec fn is_blank(raw: Seq<char>) -> bool {
    trim(strip_comment(raw)).len() == 0
}

/// The spoken lines among `ls`, in order.
pub open spec fn spoken_lines(ls: Seq<Seq<char>>) -> Seq<Seq<char>>
    decreases ls.len(),
{
    if ls.len() == 0 {
        Seq::empty()
    } else if is_plain_spoken(ls.last()) {
        spoken_lines(ls.drop_last()).push(ls.last())
    } else {
        spoken_lines(ls.drop_last())
    }
}

/// The `k`-th (from 0) spoken line of a scene with label title `t` and no choices.
pub open spec fn flat_node(t: Seq<char>, raw: Seq<char>, k: int) -> DialogM {
    dialog_node(strip_comment(raw), label_of(t, seq![k as usize], Seq::empty()))
}

/// A state where a scene with label title `t` has just begun: no dialogue, no open group,
/// no header block, nothing counted yet, no scene finished.
pub open spec fn flat_start(st: PState, t: Seq<char>) -> bool {
    &&& st.sp.nest_lv == 0
    &&& !st.sp.is_header
    &&& st.sp.choice_idxs.len() == 0
    &&& st.sp.dialog_idxs.len() == 0
    &&& st.sp.title == t
    &&& st.scenes.len() == 0
    &&& st.sc.dialogs.len() == 0
}

/// The header text that a header block's body collects: each non-blank line, comment
/// cut, followed by a line feed.
pub open spec fn header_text(body: Seq<Seq<char>>) -> Seq<char>
    decreases body.len(),
{
    if body.len() == 0 {
        Seq::empty()
    } else if is_blank(body.last()) {
        header_text(body.drop_last())
    } else {
        header_text(body.drop_last()) + strip_comment(body.last()) + seq!['\n']
    }
}

proof fn lemma_rpos_bound(cnts: Seq<usize>, w: usize)
    ensures
        -1 <= rpos(cnts, w) < cnts.len(),
    decreases cnts.len(),
{
    if cnts.len() > 0 {
        lemma_rpos_bound(cnts.drop_last(), w);
    }
}

proof fn lemma_trail_ws_lt(t: Seq<char>)
    requires
        t.len() > 0,
        !is_ws(t[0]),
    ensures
        trail_ws(t) < t.len(),
    decreases t.len(),
{
    if t.len() > 1 && is_ws(t.last()) {
        assert(t.drop_last()[0] == t[0]);
        lemma_trail_ws_lt(t.drop_last());
    }
}

/// A line with something besides whitespace stays non-empty once trimmed.
proof fn lemma_trim_nonempty(l: Seq<char>)
    requires
        trim_start(l).len() > 0,
    ensures
        trim(l).len() > 0,
{
    lemma_lead_ws(l);
    let t = trim_start(l);
    assert(t[0] == l[lead_ws(l) as int]);
    lemma_trail_ws_lt(t);
}

#[verifier::spinoff_prover]
proof fn lemma_flat_from(st0: PState, t: Seq<char>, ls: Seq<Seq<char>>, i: int)
    requires
        flat_start(st0, t),
        0 <= i <= ls.len() < usize::MAX,
        forall|k: int| 0 <= k < ls.len() ==> is_plain_spoken(#[trigger] ls[k]) || is_blank(ls[k]),
    ensures
        run_from(st0, ls.take(i)) matches Ok(st) && {
            let sl = spoken_lines(ls.take(i));
            &&& sl.len() <= i
            &&& st.sp.nest_lv == 0
            &&& !st.sp.is_header
            &&& st.sp.choice_idxs.len() == 0
            &&& st.sp.title == t
            &&& st.sp.dialog_idxs == if sl.len() == 0 {
                Seq::<usize>::empty()
            } else {
                seq![(sl.len() - 1) as usize]
            }
            &&& st.scenes == st0.scenes
            &&& st.sc.title == st0.sc.title
            &&& st.sc.dialogs.len() == sl.len()
            &&& forall|k: int| 0 <= k < sl.len() ==> #[trigger] st.sc.dialogs[k] == flat_node(t, sl[k], k)
        },
    decreases i,
{
    reveal(line_step);
    reveal(dialog_step);
    if i == 0 {
        assert(ls.take(0) =~= Seq::<Seq<char>>::empty());
    } else {
        lemma_flat_from(st0, t, ls, i - 1);
        assert(ls.take(i).drop_last() =~= ls.take(i - 1));
        assert(ls.take(i).last() == ls[i - 1]);
        let st = run_from(st0, ls.take(i - 1))->Ok_0;
        let raw = ls[i - 1];
        let sl0 = spoken_lines(ls.take(i - 1));
        if is_plain_spoken(raw) {
            let line = strip_comment(raw);
            let (cnts, lv) = indent_step(st.sp.indent_cnts, indent_width(line) as usize);
            let sp1 = SpM { indent_cnts: cnts, ..st.sp };
            let sp3 = SpM { dialog_idxs: dialog_up(sp1.dialog_idxs, sp1.nest_lv), ..sp1 };
            lemma_rpos_bound(st.sp.indent_cnts, indent_width(line) as usize);
            assert(lv >= 0);
            assert(lower(sp1, lv) == sp1);
            assert(dialog_counters(sp1, lv) == sp3);
            assert(sp3.choice_idxs =~= Seq::<(usize, usize)>::empty());
            if sl0.len() == 0 {
                assert(sp3.dialog_idxs =~= seq![0usize]);
            } else {
                assert(sp3.dialog_idxs =~= seq![sl0.len() as usize]);
            }
            assert(sp_path(sp3) =~= Seq::<usize>::empty());
            assert(sp_label(sp3) == label_of(t, seq![sl0.len() as usize], Seq::empty()));
            let ds2 = st.sc.dialogs.push(flat_node(t, raw, sl0.len() as int));
            assert(append_at(st.sc.dialogs, sp_path(sp3), dialog_node(line, sp_label(sp3))) == Some(ds2));
            let st2 = run_from(st0, ls.take(i))->Ok_0;
            assert(st2.sc.dialogs == ds2);
            let sl = spoken_lines(ls.take(i));
            assert(sl == sl0.push(raw));
            assert forall|k: int| 0 <= k < sl.len() implies #[trigger] st2.sc.dialogs[k] == flat_node(t, sl[k], k) by {
                if k < sl0.len() {
                    assert(ds2[k] == st.sc.dialogs[k]);
                    assert(sl[k] == sl0[k]);
                }
            }
        } else {
            assert(is_blank(raw));
            assert(spoken_lines(ls.take(i)) == sl0);
            assert(line_step(st, raw) == Some(st));
        }
    }
}

/// A script of spoken lines and blank or comment-only lines, N >= 1 of them spoken,
/// gives one scene holding N dialogues in order: the `k`-th with id
/// `UnknownScene_<k+1>_<talker>` and that line's text as its one argument.
pub proof fn flat_script_gives_one_dialog_per_line(content: Seq<char>)
    requires
        lines_of(content).len() < usize::MAX,
        spoken_lines(lines_of(content)).len() > 0,
        forall|k: int|
            0 <= k < lines_of(content).len() ==> is_plain_spoken(#[trigger] lines_of(content)[k])
                || is_blank(lines_of(content)[k]),
    ensures
        parse_spec(content) matches Ok(scs) && scs.len() == 1 && scs[0].title == unknown_scene()
            && scs[0].dialogs.len() == spoken_lines(lines_of(content)).len() && forall|k: int|
            0 <= k < scs[0].dialogs.len() ==> #[trigger] scs[0].dialogs[k] == flat_node(
                unknown_scene(),
                spoken_lines(lines_of(content))[k],
                k,
            ),
{
    let ls = lines_of(content);
    lemma_run_from_fresh(ls);
    lemma_flat_from(fresh_state(), unknown_scene(), ls, ls.len() as int);
    assert(ls.take(ls.len() as int) =~= ls);
}

/// The same with a header block first: the scene takes the header's title (when it is
/// not empty), and ids start with the title the header gives (`UnknownScene` when it
/// gives none).
pub proof fn headed_script_gives_one_dialog_per_line(
    content: Seq<char>,
    open: Seq<char>,
    body: Seq<Seq<char>>,
    close: Seq<char>,
    rest: Seq<Seq<char>>,
)
    requires
        lines_of(content) == seq![open] + body + seq![close] + rest,
        lines_of(content).len() < usize::MAX,
        is_header_line(strip_comment(open)),
        forall|k: int| 0 <= k < body.len() ==> header_body_line(#[trigger] body[k]),
        is_header_line(strip_comment(close)),
        spoken_lines(rest).len() > 0,
        forall|k: int| 0 <= k < rest.len() ==> is_plain_spoken(#[trigger] rest[k]) || is_blank(rest[k]),
    ensures
        ({
            let t = meta_title(header_text(body));
            parse_spec(content) matches Ok(scs) && scs.len() == 1 && scs[0].title == (if t.len() > 0 {
                t
            } else {
                unknown_scene()
            }) && scs[0].dialogs.len() == spoken_lines(rest).len() && forall|k: int|
                0 <= k < scs[0].dialogs.len() ==> #[trigger] scs[0].dialogs[k] == flat_node(
                    t,
                    spoken_lines(rest)[k],
                    k,
                )
        }),
{
    reveal(line_step);
    let ls = lines_of(content);
    lemma_run_from_fresh(ls);
    let st0 = fresh_state();
    lemma_trim_nonempty(strip_comment(open));
    lemma_trim_nonempty(strip_comment(close));
    assert(seq![open].drop_last() =~= Seq::<Seq<char>>::empty());
    assert(seq![open].last() == open);
    assert(run_from(st0, Seq::<Seq<char>>::empty()) == Ok::<PState, nat>(st0));
    let st1 = run_from(st0, seq![open])->Ok_0;
    assert(st1 == PState { sp: SpM { is_header: true, ..st0.sp }, ..st0 });
    lemma_header_text_run(st1, body, body.len() as int);
    assert(body.take(body.len() as int) =~= body);
    lemma_run_from_append(st0, seq![open], body);
    let st2 = run_from(st0, seq![open] + body)->Ok_0;
    assert(seq![close].drop_last() =~= Seq::<Seq<char>>::empty());
    assert(seq![close].last() == close);
    assert(run_from(st2, Seq::<Seq<char>>::empty()) == Ok::<PState, nat>(st2));
    let st3 = header_step(st2, strip_comment(close));
    assert(line_step(st2, close) == Some(st3));
    assert(run_from(st2, seq![close]) == Ok::<PState, nat>(st3));
    lemma_run_from_append(st0, seq![open] + body, seq![close]);
    let t = meta_title(header_text(body));
    assert(flat_start(st3, t));
    lemma_flat_from(st3, t, rest, rest.len() as int);
    assert(rest.take(rest.len() as int) =~= rest);
    lemma_run_from_append(st0, seq![open] + body + seq![close], rest);
}

/// While a header block is open, its lines leave the dialogue list as it is.
pub open spec fn header_body_line(raw: Seq<char>) -> bool {
    !is_header_line(strip_comment(raw))
}

proof fn lemma_header_text_run(st: PState, body: Seq<Seq<char>>, i: int)
    requires
        st.sp.is_header,
        0 <= i <= body.len(),
        forall|k: int| 0 <= k < body.len() ==> header_body_line(#[trigger] body[k]),
    ensures
        run_from(st, body.take(i)) == Ok::<PState, nat>(
            PState { sp: SpM { header: st.sp.header + header_text(body.take(i)), ..st.sp }, ..st },
        ),
    decreases i,
{
    reveal(line_step);
    if i == 0 {
        assert(body.take(0) =~= Seq::<Seq<char>>::empty());
        assert(st.sp.header + header_text(body.take(0)) =~= st.sp.header);
    } else {
        lemma_header_text_run(st, body, i - 1);
        assert(body.take(i).drop_last() =~= body.take(i - 1));
        assert(body.take(i).last() == body[i - 1]);
        let raw = body[i - 1];
        if !is_blank(raw) {
            assert(st.sp.header + header_text(body.take(i)) =~= st.sp.header + header_text(body.take(i - 1))
                + strip_comment(raw) + seq!['\n']);
        }
    }
}

proof fn lemma_header_run(st: PState, body: Seq<Seq<char>>, i: int)
    requires
        st.sp.is_header,
        0 <= i <= body.len(),
        forall|k: int| 0 <= k < body.len() ==> header_body_line(#[trigger] body[k]),
    ensures
        run_from(st, body.take(i)) matches Ok(st2) && st2.sp.is_header && st2.sc.dialogs == st.sc.dialogs
            && st2.scenes == st.scenes,
    decreases i,
{
    reveal(line_step);
    if i == 0 {
        assert(body.take(0) =~= Seq::<Seq<char>>::empty());
    } else {
        lemma_header_run(st, body, i - 1);
        assert(body.take(i).drop_last() =~= body.take(i - 1));
        assert(body.take(i).last() == body[i - 1]);
    }
}

/// The state after `lines`, starting from `st`.
pub open spec fn run_from(st: PState, lines: Seq<Seq<char>>) -> Result<PState, nat>
    decreases lines.len(),
{
    if lines.len() == 0 {
        Ok(st)
    } else {
        match run_from(st, lines.drop_last()) {
            Ok(s1) => match line_step(s1, lines.last()) {
                Some(s2) => Ok(s2),
                None => Err(lines.len()),
            },
            Err(e) => Err(e),
        }
    }
}

proof fn lemma_run_from_fresh(ls: Seq<Seq<char>>)
    ensures
        run_lines(ls) == run_from(fresh_state(), ls),
    decreases ls.len(),
{
    if ls.len() > 0 {
        lemma_run_from_fresh(ls.drop_last());
    }
}

proof fn lemma_run_from_append(st: PState, a: Seq<Seq<char>>, b: Seq<Seq<char>>)
    requires
        run_from(st, a) is Ok,
    ensures
        run_from(run_from(st, a)->Ok_0, b) is Ok ==> run_from(st, a + b) == run_from(
            run_from(st, a)->Ok_0,
            b,
        ),
    decreases b.len(),
{
    if b.len() == 0 {
        assert(a + b =~= a);
        assert(run_from(st, a) == Ok::<PState, nat>(run_from(st, a)->Ok_0));
    } else {
        lemma_run_from_append(st, a, b.drop_last());
        assert((a + b).drop_last() =~= a + b.drop_last());
        assert((a + b).last() == b.last());
    }
}

/// A scene-end marker right after a header block, with no dialogue between, gives a scene
/// with an empty dialogue list.
#[verifier::spinoff_prover]
pub proof fn scene_end_after_header_gives_empty_scene(
    content: Seq<char>,
    open: Seq<char>,
    body: Seq<Seq<char>>,
    close: Seq<char>,
    end: Seq<char>,
)
    requires
        lines_of(content) == seq![open] + body + seq![close, end],
        is_header_line(strip_comment(open)),
        forall|k: int| 0 <= k < body.len() ==> header_body_line(#[trigger] body[k]),
        is_header_line(strip_comment(close)),
        is_end_line(strip_comment(end)),
    ensures
        parse_spec(content) matches Ok(scs) && scs.len() == 1 && scs[0].dialogs.len() == 0,
{
    reveal(line_step);
    let ls = lines_of(content);
    lemma_run_from_fresh(ls);
    let st0 = fresh_state();
    lemma_trim_nonempty(strip_comment(open));
    lemma_trim_nonempty(strip_comment(close));
    lemma_trim_nonempty(strip_comment(end));
    assert(seq![open].drop_last() =~= Seq::<Seq<char>>::empty());
    assert(seq![open].last() == open);
    assert(run_from(st0, Seq::<Seq<char>>::empty()) == Ok::<PState, nat>(st0));
    let st1 = run_from(st0, seq![open])->Ok_0;
    assert(st1.sp.is_header && st1.sc.dialogs.len() == 0 && st1.scenes.len() == 0);
    lemma_header_run(st1, body, body.len() as int);
    assert(body.take(body.len() as int) =~= body);
    lemma_run_from_append(st0, seq![open], body);
    let st2 = run_from(st0, seq![open] + body)->Ok_0;
    assert(!is_header_line(strip_comment(end)));
    lemma_run_from_append(st0, seq![open] + body, seq![close, end]);
    assert(seq![close, end].drop_last() =~= seq![close]);
    assert(seq![close].drop_last() =~= Seq::<Seq<char>>::empty());
    assert(seq![close].last() == close);
    assert(seq![close, end].last() == end);
    assert(run_from(st2, Seq::<Seq<char>>::empty()) == Ok::<PState, nat>(st2));
    assert(st2.sp.is_header && st2.sc.dialogs.len() == 0 && st2.scenes.len() == 0);
    let st3 = header_step(st2, strip_comment(close));
    assert(line_step(st2, close) == Some(st3));
    assert(run_from(st2, seq![close]) == Ok::<PState, nat>(st3));
    assert(!st3.sp.is_header && st3.sc.dialogs.len() == 0 && st3.scenes.len() == 0);
    let st4 = end_scene(st3);
    assert(line_step(st3, end) == Some(st4));
    assert(run_from(st2, seq![close, end]) == Ok::<PState, nat>(st4));
    assert(run_lines(ls) == Ok::<PState, nat>(st4));
    assert(finish(st4) == st3.scenes.push(st3.sc));
    assert(seq![open] + body + seq![close, end] == (seq![open] + body) + seq![close, end]);
}

/// Once a line has failed, reading more lines reports the same line.
pub proof fn lemma_run_err(ls: Seq<Seq<char>>, k: int)
    requires
        0 <= k <= ls.len(),
        run_lines(ls.take(k)) is Err,
    ensures
        run_lines(ls) == run_lines(ls.take(k)),
    decreases ls.len() - k,
{
    if k < ls.len() {
        assert(ls.take(k + 1).drop_last() =~= ls.take(k));
        lemma_run_err(ls, k + 1);
    } else {
        assert(ls.take(k) =~= ls);
    }
}

impl KukuriScript {
    /// Reads a script into its scenes. A line whose nesting the tree cannot follow (an
    /// index path that does not resolve) ends the reading with that line's number.
    #[verifier::spinoff_prover]
    pub fn parse(content: &str) -> (r: Result<Vec<Scene>, ScriptError>)
        ensures
            match r {
                Ok(v) => parse_spec(content@) == Ok::<Seq<SceneM>, nat>(scenes_m(v@)),
                Err(e) => parse_spec(content@) == Err::<Seq<SceneM>, nat>(e.line as nat) && failed_at(
                    lines_of(content@),
                    e.line as int,
                    e.path@,
                ),
            },
    {
        let cs = chars_of(content);
        let lines = split_lines(&cs);
        let ghost ls = lines_of(content@);
        let mut sp = SceneProcessData::new();
        let mut sc = Scene::new();
        let mut scenes: Vec<Scene> = Vec::new();
        proof {
            assert(ls.take(0) =~= Seq::<Seq<char>>::empty());
            assert(dialogs_m(sc.dialogs@) =~= Seq::<DialogM>::empty());
            assert(scenes_m(scenes@) =~= Seq::<SceneM>::empty());
        }
        let mut i: usize = 0;
        while i < lines.len()
            invariant
                i <= lines@.len(),
                ls == lines_of(content@),
                lines@.len() == ls.len(),
                forall|j: int| 0 <= j < lines@.len() ==> #[trigger] lines@[j]@ == ls[j],
                run_lines(ls.take(i as int)) == Ok::<PState, nat>(state_of(sp, sc, scenes@)),
                bounded(sp.model(), i as int),
            decreases lines@.len() - i,
        {
            sp.line_count_up();
            let ok = Self::process_line(&lines[i], &mut sp, &mut sc, &mut scenes, Ghost(i as int));
            proof {
                assert(ls.take(i + 1).drop_last() =~= ls.take(i as int));
                assert(ls.take(i + 1).last() == ls[i as int]);
            }
            if !ok {
                proof {
                    assert(run_lines(ls.take(i + 1)) == Err::<PState, nat>((i + 1) as nat));
                    lemma_run_err(ls, i + 1);
                    assert(ls.take(i + 1 - 1) =~= ls.take(i as int));
                }
                return Err(ScriptError { line: i + 1, path: sp.inner_scene_idxs() });
            }
            i = i + 1;
        }
        proof {
            assert(ls.take(i as int) =~= ls);
            lemma_dialogs_m_push();
        }
        if sc.dialogs.len() > 0 {
            scenes.push(sc);
        }
        Ok(scenes)
    }

    /// Cuts the comment off a line: a `#` starts one unless a backslash stands right before it.
    pub fn trim_comment(line: &str) -> (r: &str)
        ensures
            r@ == strip_comment(line@),
    {
        let cs = chars_of(line);
        let cut = comment_cut_exec(&cs);
        line.substring_char(0, cut)
    }

    /// Whether the line opens or closes a header block (`+++` after any indentation).
    pub fn is_header_symbol(line: &str) -> (r: bool)
        ensures
            r == is_header_line(line@),
    {
        let cs = chars_of(line);
        opens_with_three_exec(&cs, '+')
    }

    /// Whether the line ends a scene (`===` after any indentation).
    pub fn is_scene_end_symbol(line: &str) -> (r: bool)
        ensures
            r == is_end_line(line@),
    {
        let cs = chars_of(line);
        opens_with_three_exec(&cs, '=')
    }

    /// The kind of a line by its first non-whitespace character: `$` a command,
    /// `*`, `+` or `-` a choice, anything else a spoken line.
    pub fn parse_dialog_kind(line: &str) -> (r: DialogKind)
        ensures
            r == kind_of(line@),
    {
        let cs = chars_of(line);
        kind_of_exec(&cs)
    }

    /// Reads one raw line into the state; `false` where the tree has no place for it.
    #[verifier::spinoff_prover]
    fn process_line(
        raw: &Vec<char>,
        sp: &mut SceneProcessData,
        sc: &mut Scene,
        scenes: &mut Vec<Scene>,
        Ghost(n): Ghost<int>,
    ) -> (ok: bool)
        requires
            bounded(old(sp).model(), n),
            0 <= n < usize::MAX,
        ensures
            ok == line_step(state_of(*old(sp), *old(sc), old(scenes)@), raw@) is Some,
            ok ==> state_of(*final(sp), *final(sc), final(scenes)@) == line_step(
                state_of(*old(sp), *old(sc), old(scenes)@),
                raw@,
            )->Some_0,
            ok ==> bounded(final(sp).model(), n + 1),
            final(sp).line_cnt == if ends_scene(old(sp).is_header, raw@) {
                0
            } else {
                old(sp).line_cnt
            },
            !ok ==> final(sp).model() == node_counters(
                state_of(*old(sp), *old(sc), old(scenes)@),
                strip_comment(raw@),
            ),
    {
        reveal(line_step);
        let cut = comment_cut_exec(raw);
        let mut line: Vec<char> = Vec::new();
        let mut k: usize = 0;
        while k < cut
            invariant
                cut == comment_cut(raw@, 0),
                cut <= raw@.len(),
                k <= cut,
                line@ == raw@.take(k as int),
            decreases cut - k,
        {
            line.push(raw[k]);
            k = k + 1;
            proof {
                assert(line@ =~= raw@.take(k as int));
            }
        }
        let ghost st = state_of(*sp, *sc, scenes@);
        let (a, b) = trim_range(&line, 0, line.len());
        proof {
            assert(line@.subrange(0, line@.len() as int) =~= line@);
            assert(line@ == strip_comment(raw@));
        }
        if a == b {
            return true;
        }
        if sp.is_header {
            if opens_with_three_exec(&line, '+') {
                sp.meta_data.parse(sp.header_str.as_str());
                sp.is_header = false;
                if !sp.meta_data.title.as_str().is_empty() {
                    sc.title = sp.meta_data.title.clone();
                }
            } else {
                push_chars(&mut sp.header_str, &line, 0, line.len());
                push_char(&mut sp.header_str, '\n');
                proof {
                    assert(sp.header_str@ =~= st.sp.header + line@ + seq!['\n']);
                }
            }
            return true;
        }
        if opens_with_three_exec(&line, '+') {
            sp.is_header = true;
            return true;
        }
        if opens_with_three_exec(&line, '=') {
            Self::scene_end_process(sp, scenes, sc);
            return true;
        }
        let kind = kind_of_exec(&line);
        let w = indent_width_exec(&line);
        let lv = sp.indent_level(w);
        match kind {
            DialogKind::Dialog => Self::dialog_line(&line, lv, sp, sc, Ghost(n)),
            DialogKind::Command => Self::command_line(&line, lv, sp, sc, Ghost(n)),
            DialogKind::Choices => Self::choice_line(&line, lv, sp, sc, Ghost(n)),
        }
    }

    /// Finishes the scene in progress and starts afresh.
    fn scene_end_process(sp: &mut SceneProcessData, scenes: &mut Vec<Scene>, sc: &mut Scene)
        ensures
            state_of(*final(sp), *final(sc), final(scenes)@) == end_scene(
                state_of(*old(sp), *old(sc), old(scenes)@),
            ),
            final(sp).line_cnt == 0,
    {
        let mut done = Scene::new();
        core::mem::swap(sc, &mut done);
        scenes.push(done);
        sp.reset();
        proof {
            lemma_dialogs_m_push();
            assert(dialogs_m(sc.dialogs@) =~= Seq::<DialogM>::empty());
        }
    }

    #[verifier::spinoff_prover]
    fn dialog_line(line: &Vec<char>, lv: usize, sp: &mut SceneProcessData, sc: &mut Scene, Ghost(n): Ghost<int>) -> (ok: bool)
        requires
            pre_bounded(old(sp).model(), n, lv as int),
        ensures
            ok == dialog_step(old(sp).model(), dialogs_m(old(sc).dialogs@), lv as int, line@) is Some,
            ok ==> dialog_step(old(sp).model(), dialogs_m(old(sc).dialogs@), lv as int, line@)->Some_0
                == (final(sp).model(), dialogs_m(final(sc).dialogs@)),
            ok ==> bounded(final(sp).model(), n + 1),
            final(sc).title == old(sc).title,
            final(sp).model() == dialog_counters(old(sp).model(), lv as int),
            final(sp).line_cnt == old(sp).line_cnt,
    {
        reveal(dialog_step);
        let ghost c_start = sp.choice_idxs@;
        let ghost d_start = sp.dialog_idxs@;
        proof {
            assert(choices_below(c_start, n));
            assert(dialogs_below(d_start, n));
            lemma_choices_below_mono(c_start, n, usize::MAX as int);
        }
        if lv < sp.nest_lv {
            sp.nest_lv_count_down(lv);
            sp.truncate_idxs(lv);
            proof {
                lemma_take_below(d_start, sp.dialog_idxs@, n, keep(lv + 1, d_start.len() as int));
            }
        }
        let ghost d1 = sp.dialog_idxs@;
        proof {
            assert(dialogs_below(d1, n));
            assert(sp.choice_idxs@ == c_start);
            lemma_dialog_up_bounded(d1, sp.nest_lv, n);
        }
        sp.dialog_count_up();
        proof {
            lemma_dialogs_below_mono(sp.dialog_idxs@, n + 1, usize::MAX as int);
            lemma_choices_below_mono(sp.choice_idxs@, n, n + 1);
        }
        let p = sp.inner_scene_idxs();
        let label = sp.gen_dialog_label();
        let d = dialog_process(line, &label);
        append_exec(sc, &p, d)
    }

    #[verifier::spinoff_prover]
    fn command_line(line: &Vec<char>, lv: usize, sp: &mut SceneProcessData, sc: &mut Scene, Ghost(n): Ghost<int>) -> (ok: bool)
        requires
            pre_bounded(old(sp).model(), n, lv as int),
        ensures
            ok == command_step(old(sp).model(), dialogs_m(old(sc).dialogs@), lv as int, line@) is Some,
            ok ==> command_step(old(sp).model(), dialogs_m(old(sc).dialogs@), lv as int, line@)->Some_0
                == (final(sp).model(), dialogs_m(final(sc).dialogs@)),
            ok ==> bounded(final(sp).model(), n + 1),
            final(sc).title == old(sc).title,
            final(sp).model() == lower(old(sp).model(), lv as int),
            final(sp).line_cnt == old(sp).line_cnt,
    {
        reveal(command_step);
        if lv < sp.nest_lv {
            sp.nest_lv_count_down(lv);
            sp.truncate_idxs(lv);
        }
        let p = sp.inner_scene_idxs();
        let d = command_process(line);
        append_exec(sc, &p, d)
    }

    #[verifier::spinoff_prover]
    fn choice_line(line: &Vec<char>, lv: usize, sp: &mut SceneProcessData, sc: &mut Scene, Ghost(n): Ghost<int>) -> (ok: bool)
        requires
            pre_bounded(old(sp).model(), n, lv as int),
            kind_of(line@) == DialogKind::Choices,
        ensures
            ok == choice_step(old(sp).model(), dialogs_m(old(sc).dialogs@), lv as int, line@) is Some,
            ok ==> choice_step(old(sp).model(), dialogs_m(old(sc).dialogs@), lv as int, line@)->Some_0
                == (final(sp).model(), dialogs_m(final(sc).dialogs@)),
            ok ==> bounded(final(sp).model(), n + 1),
            final(sc).title == old(sc).title,
            final(sp).model() == choice_counters(old(sp).model(), lv as int),
            final(sp).line_cnt == old(sp).line_cnt,
    {
        reveal(choice_step);
        let ghost c_start = sp.choice_idxs@;
        let ghost d_start = sp.dialog_idxs@;
        proof {
            assert(choices_below(c_start, n));
            assert(dialogs_below(d_start, n));
            lemma_dialog_up_bounded(d_start, sp.nest_lv, n);
            lemma_choices_below_mono(c_start, n, usize::MAX as int);
        }
        let opens = lv >= sp.nest_lv;
        if opens {
            sp.dialog_count_up();
            sp.nest_lv_count_up();
        } else {
            sp.truncate_idxs(lv);
            sp.nest_lv_count_down(lv + 1);
            sp.choice_idxs.truncate(lv + 1);
            proof {
                assert(sp.choice_idxs@ =~= c_start.take(keep(lv + 1, c_start.len() as int)));
                lemma_take_choices_below(c_start, sp.choice_idxs@, n, keep(lv + 1, c_start.len() as int));
            }
        }
        let ghost c0 = sp.choice_idxs@;
        let ghost lv0 = sp.nest_lv;
        proof {
            assert(choices_below(c0, n));
            if !opens {
                lemma_take_below(d_start, sp.dialog_idxs@, n, keep(lv + 1, d_start.len() as int));
            }
            lemma_dialogs_below_mono(sp.dialog_idxs@, n + 1, usize::MAX as int);
        }
        if opens {
            sp.open_choice_group();
        } else {
            sp.choice_idx_count_up();
        }
        proof {
            if opens {
                lemma_open_group_bounded(c0, lv0, n);
            } else {
                lemma_choice_up_bounded(c0, lv0, n);
            }
            lemma_choices_below_mono(sp.choice_idxs@, n + 1, usize::MAX as int);
            assert(sp.model() == choice_counters(old(sp).model(), lv as int));
        }
        let ghost ds0 = dialogs_m(sc.dialogs@);
        let p = sp.inner_scene_idxs();
        let label = sp.gen_dialog_label();
        if opens {
            let pp = parent_idxs(&p);
            let dl = sp.dialog_idxs.len();
            let mut gl: usize = 0;
            if dl > 0 {
                gl = dl - 1;
                if sp.choice_idxs.len() < gl {
                    gl = sp.choice_idxs.len();
                }
            }
            proof {
                assert(gl as int == group_levels(sp.dialog_idxs@, sp.choice_idxs@));
            }
            let gid = sp.label_upto(gl);
            proof {
                assert(gid@ == group_label(sp.model()));
            }
            let g = choices_parent_process(gid);
            if !append_exec(sc, &pp, g) {
                return false;
            }
        }
        proof {
            assert(with_group(old(sp).model(), ds0, lv as int) == Some(dialogs_m(sc.dialogs@)));
        }
        let cb = choices_child_process(line, &label);
        add_choice_exec(sc, &p, cb)
    }
}

} // verus!
