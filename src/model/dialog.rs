use vstd::prelude::*;

verus! {

/// What a dialogue node is: a spoken line, a command, or a group of choices.
#[derive(Copy, Clone, Debug, PartialEq, Eq, Structural)]
pub enum DialogKind {
    Dialog,
    Command,
    Choices,
}

/// One argument of a dialogue node: a piece of text, or one selectable branch.
#[derive(Debug, PartialEq, Eq)]
pub enum DialogBody {
    Text(String),
    Choice(ChoiceData),
}

/// A line-level node of the dialogue tree.
#[derive(Debug, PartialEq, Eq)]
pub struct Dialog {
    pub kind: DialogKind,
    /// Spoken line: `Title_idx.._talker`; command: its name; choices: the position label
    /// without its last `_C<group>L<label>`.
    pub id: String,
    pub args: Vec<DialogBody>,
}

/// One branch of a choice group, owning its own nested dialogue.
#[derive(Debug, PartialEq, Eq)]
pub struct ChoiceData {
    pub id: String,
    pub label: String,
    pub dialogs: Vec<Dialog>,
}

/// A titled unit of dialogue.
#[derive(Debug, PartialEq, Eq)]
pub struct Scene {
    pub title: String,
    pub dialogs: Vec<Dialog>,
}

// ---------------------------------------------------------------------------
// Mathematical model of the tree
// ---------------------------------------------------------------------------

pub enum BodyM {
    Text(Seq<char>),
    Choice(ChoiceM),
}

pub struct ChoiceM {
    pub id: Seq<char>,
    pub label: Seq<char>,
    pub dialogs: Seq<DialogM>,
}

pub struct DialogM {
    pub kind: DialogKind,
    pub id: Seq<char>,
    pub args: Seq<BodyM>,
}

pub struct SceneM {
    pub title: Seq<char>,
    pub dialogs: Seq<DialogM>,
}

/// The title a scene has until a header gives it another.
pub open spec fn unknown_scene() -> Seq<char> {
    seq!['U', 'n', 'k', 'n', 'o', 'w', 'n', 'S', 'c', 'e', 'n', 'e']
}

pub open spec fn dialog_m(d: Dialog) -> DialogM
    decreases d,
{
    DialogM { kind: d.kind, id: d.id@, args: bodies_m(d.args@) }
}

pub open spec fn body_m(b: DialogBody) -> BodyM
    decreases b,
{
    match b {
        DialogBody::Text(s) => BodyM::Text(s@),
        DialogBody::Choice(cd) => BodyM::Choice(choice_m(cd)),
    }
}

pub open spec fn choice_m(cd: ChoiceData) -> ChoiceM
    decreases cd,
{
    ChoiceM { id: cd.id@, label: cd.label@, dialogs: dialogs_m(cd.dialogs@) }
}

pub open spec fn bodies_m(bs: Seq<DialogBody>) -> Seq<BodyM>
    decreases bs,
{
    if bs.len() == 0 {
        Seq::empty()
    } else {
        bodies_m(bs.drop_last()).push(body_m(bs.last()))
    }
}

pub open spec fn dialogs_m(ds: Seq<Dialog>) -> Seq<DialogM>
    decreases ds,
{
    if ds.len() == 0 {
        Seq::empty()
    } else {
        dialogs_m(ds.drop_last()).push(dialog_m(ds.last()))
    }
}

pub open spec fn scene_m(sc: Scene) -> SceneM {
    SceneM { title: sc.title@, dialogs: dialogs_m(sc.dialogs@) }
}

pub open spec fn scenes_m(ss: Seq<Scene>) -> Seq<SceneM>
    decreases ss.len(),
{
    if ss.len() == 0 {
        Seq::empty()
    } else {
        scenes_m(ss.drop_last()).push(scene_m(ss.last()))
    }
}

pub proof fn lemma_bodies_m(bs: Seq<DialogBody>)
    ensures
        bodies_m(bs).len() == bs.len(),
        forall|i: int| 0 <= i < bs.len() ==> #[trigger] bodies_m(bs)[i] == body_m(bs[i]),
    decreases bs.len(),
{
    if bs.len() > 0 {
        lemma_bodies_m(bs.drop_last());
        assert forall|i: int| 0 <= i < bs.len() implies #[trigger] bodies_m(bs)[i] == body_m(
            bs[i],
        ) by {
            if i < bs.len() - 1 {
                assert(bs.drop_last()[i] == bs[i]);
            }
        }
    }
}

pub proof fn lemma_dialogs_m(ds: Seq<Dialog>)
    ensures
        dialogs_m(ds).len() == ds.len(),
        forall|i: int| 0 <= i < ds.len() ==> #[trigger] dialogs_m(ds)[i] == dialog_m(ds[i]),
    decreases ds.len(),
{
    if ds.len() > 0 {
        lemma_dialogs_m(ds.drop_last());
        assert forall|i: int| 0 <= i < ds.len() implies #[trigger] dialogs_m(ds)[i] == dialog_m(
            ds[i],
        ) by {
            if i < ds.len() - 1 {
                assert(ds.drop_last()[i] == ds[i]);
            }
        }
    }
}

pub proof fn lemma_scenes_m(ss: Seq<Scene>)
    ensures
        scenes_m(ss).len() == ss.len(),
        forall|i: int| 0 <= i < ss.len() ==> #[trigger] scenes_m(ss)[i] == scene_m(ss[i]),
    decreases ss.len(),
{
    if ss.len() > 0 {
        lemma_scenes_m(ss.drop_last());
        assert forall|i: int| 0 <= i < ss.len() implies #[trigger] scenes_m(ss)[i] == scene_m(
            ss[i],
        ) by {
            if i < ss.len() - 1 {
                assert(ss.drop_last()[i] == ss[i]);
            }
        }
    }
}

/// The model of a sequence is fixed by the models of its elements.
pub proof fn lemma_dialogs_m_ext(a: Seq<Dialog>, b: Seq<Dialog>)
    requires
        a.len() == b.len(),
        forall|i: int| 0 <= i < a.len() ==> dialog_m(#[trigger] a[i]) == dialog_m(b[i]),
    ensures
        dialogs_m(a) == dialogs_m(b),
{
    lemma_dialogs_m(a);
    lemma_dialogs_m(b);
    assert(dialogs_m(a) =~= dialogs_m(b));
}

pub proof fn lemma_bodies_m_ext(a: Seq<DialogBody>, b: Seq<DialogBody>)
    requires
        a.len() == b.len(),
        forall|i: int| 0 <= i < a.len() ==> body_m(#[trigger] a[i]) == body_m(b[i]),
    ensures
        bodies_m(a) == bodies_m(b),
{
    lemma_bodies_m(a);
    lemma_bodies_m(b);
    assert(bodies_m(a) =~= bodies_m(b));
}


/// The dialogue list that the index path `p` leads to from `ds`, if any.
/// Each step of the path is a triple (dialogue index, group index, label index): the
/// dialogue at the first index must hold a choice at the label index, whose own dialogue
/// list is where the next step starts.
pub open spec fn path_target(ds: Seq<DialogM>, p: Seq<usize>) -> Option<Seq<DialogM>>
    decreases p.len(),
{
    if p.len() == 0 {
        Some(ds)
    } else if p.len() >= 3 && p[0] < ds.len() && p[2] < ds[p[0] as int].args.len()
        && ds[p[0] as int].args[p[2] as int] is Choice {
        path_target(ds[p[0] as int].args[p[2] as int]->Choice_0.dialogs, p.skip(3))
    } else {
        None
    }
}

/// `ds` with the dialogue list at the end of path `p` replaced by `t`.
pub open spec fn path_replace(ds: Seq<DialogM>, p: Seq<usize>, t: Seq<DialogM>) -> Seq<DialogM>
    decreases p.len(),
{
    if p.len() < 3 {
        t
    } else {
        let d = ds[p[0] as int];
        let inner = d.args[p[2] as int]->Choice_0.dialogs;
        ds.update(p[0] as int, with_choice_dialogs(d, p[2] as int, path_replace(inner, p.skip(3), t)))
    }
}

/// A choice with its dialogue list replaced by `ds` (any other body unchanged).
pub open spec fn body_with_dialogs(b: BodyM, ds: Seq<DialogM>) -> BodyM {
    match b {
        BodyM::Choice(cm) => BodyM::Choice(ChoiceM { id: cm.id, label: cm.label, dialogs: ds }),
        _ => b,
    }
}

/// `d` with the dialogue list of its argument `li` replaced by `ds`.
pub open spec fn with_choice_dialogs(d: DialogM, li: int, ds: Seq<DialogM>) -> DialogM {
    DialogM { kind: d.kind, id: d.id, args: d.args.update(li, body_with_dialogs(d.args[li], ds)) }
}

pub proof fn lemma_dialog_m_unfold()
    ensures
        forall|d: Dialog| #[trigger]
            dialog_m(d) == (DialogM { kind: d.kind, id: d.id@, args: bodies_m(d.args@) }),
        forall|b: DialogBody| #[trigger]
            body_m(b) == (match b {
                DialogBody::Text(s) => BodyM::Text(s@),
                DialogBody::Choice(cd) => BodyM::Choice(choice_m(cd)),
            }),
        forall|cd: ChoiceData| #[trigger]
            choice_m(cd) == (ChoiceM { id: cd.id@, label: cd.label@, dialogs: dialogs_m(cd.dialogs@) }),
{
}

/// A path of whole triples, with its last triple dropped (empty when there is none).
pub open spec fn parent_path(p: Seq<usize>) -> Seq<usize> {
    if p.len() >= 3 {
        p.subrange(0, p.len() - 3)
    } else {
        Seq::empty()
    }
}

pub proof fn lemma_dialogs_m_update(s: Seq<Dialog>, i: int)
    requires
        0 <= i < s.len(),
    ensures
        forall|x: Dialog| #[trigger]
            dialogs_m(s.update(i, x)) == dialogs_m(s).update(i, dialog_m(x)),
{
    assert forall|x: Dialog| #[trigger]
        dialogs_m(s.update(i, x)) == dialogs_m(s).update(i, dialog_m(x)) by {
        lemma_dialogs_m(s);
        lemma_dialogs_m(s.update(i, x));
        assert(dialogs_m(s.update(i, x)) =~= dialogs_m(s).update(i, dialog_m(x)));
    }
}

pub proof fn lemma_bodies_m_update(s: Seq<DialogBody>, i: int)
    requires
        0 <= i < s.len(),
    ensures
        forall|x: DialogBody| #[trigger]
            bodies_m(s.update(i, x)) == bodies_m(s).update(i, body_m(x)),
{
    assert forall|x: DialogBody| #[trigger]
        bodies_m(s.update(i, x)) == bodies_m(s).update(i, body_m(x)) by {
        lemma_bodies_m(s);
        lemma_bodies_m(s.update(i, x));
        assert(bodies_m(s.update(i, x)) =~= bodies_m(s).update(i, body_m(x)));
    }
}

/// The position of the `n`-th (from 0) dialogue of kind `Choices` in `ds`, looking
/// from position `j` on.
pub open spec fn nth_choices_from(ds: Seq<DialogM>, n: int, j: int) -> Option<int>
    decreases ds.len() - j,
{
    if j < 0 || j >= ds.len() {
        None
    } else if ds[j].kind == DialogKind::Choices {
        if n == 0 {
            Some(j)
        } else {
            nth_choices_from(ds, n - 1, j + 1)
        }
    } else {
        nth_choices_from(ds, n, j + 1)
    }
}

pub open spec fn nth_choices(ds: Seq<DialogM>, n: int) -> Option<int> {
    nth_choices_from(ds, n, 0)
}

pub proof fn lemma_nth_choices_from_bounds(ds: Seq<DialogM>, n: int, j: int)
    ensures
        nth_choices_from(ds, n, j) is Some ==> j <= nth_choices_from(ds, n, j)->Some_0 < ds.len(),
        nth_choices_from(ds, n, j) is Some ==> ds[nth_choices_from(ds, n, j)->Some_0].kind
            == DialogKind::Choices,
    decreases ds.len() - j,
{
    if 0 <= j < ds.len() {
        lemma_nth_choices_from_bounds(ds, n - 1, j + 1);
        lemma_nth_choices_from_bounds(ds, n, j + 1);
    }
}

/// The group index of a choice-group path: the middle entry of its last triple.
pub open spec fn group_index(p: Seq<usize>) -> int {
    p[p.len() - 2] as int
}

/// Where the choice group addressed by `p` stands: the dialogue list that holds it,
/// and its position there.
pub open spec fn choices_target(ds: Seq<DialogM>, p: Seq<usize>) -> Option<(Seq<DialogM>, int)> {
    if p.len() < 2 {
        None
    } else {
        match path_target(ds, parent_path(p)) {
            Some(parent) => match nth_choices(parent, group_index(p)) {
                Some(j) => Some((parent, j)),
                None => None,
            },
            None => None,
        }
    }
}

/// A copy of `p` with its last triple dropped.
pub fn parent_idxs(p: &Vec<usize>) -> (r: Vec<usize>)
    ensures
        r@ == parent_path(p@),
{
    let mut idxs = Vec::new();
    let mut i: usize = 0;
    let l: usize = if p.len() >= 3 { p.len() - 3 } else { 0 };
    while i < l
        invariant
            i <= l,
            l == parent_path(p@).len(),
            idxs@ == p@.subrange(0, i as int),
        decreases l - i,
    {
        idxs.push(p[i]);
        i = i + 1;
    }
    proof {
        assert(idxs@ =~= parent_path(p@));
    }
    idxs
}

pub proof fn lemma_dialogs_m_push()
    ensures
        forall|s: Seq<Dialog>, x: Dialog| #[trigger]
            dialogs_m(s.push(x)) == dialogs_m(s).push(dialog_m(x)),
        forall|s: Seq<DialogBody>, x: DialogBody| #[trigger]
            bodies_m(s.push(x)) == bodies_m(s).push(body_m(x)),
        forall|s: Seq<Scene>, x: Scene| #[trigger]
            scenes_m(s.push(x)) == scenes_m(s).push(scene_m(x)),
{
    assert forall|s: Seq<Dialog>, x: Dialog| #[trigger]
        dialogs_m(s.push(x)) == dialogs_m(s).push(dialog_m(x)) by {
        assert(s.push(x).drop_last() =~= s);
    }
    assert forall|s: Seq<DialogBody>, x: DialogBody| #[trigger]
        bodies_m(s.push(x)) == bodies_m(s).push(body_m(x)) by {
        assert(s.push(x).drop_last() =~= s);
    }
    assert forall|s: Seq<Scene>, x: Scene| #[trigger]
        scenes_m(s.push(x)) == scenes_m(s).push(scene_m(x)) by {
        assert(s.push(x).drop_last() =~= s);
    }
}

impl Scene {
    /// A scene titled `UnknownScene`, with no dialogue.
    pub fn new() -> (r: Scene)
        ensures
            r.title@ == unknown_scene(),
            r.dialogs@.len() == 0,
    {
        proof {
            reveal_strlit("UnknownScene");
        }
        Scene { title: String::from_str("UnknownScene"), dialogs: Vec::new() }
    }

    /// Makes the scene fresh again, as `new` gives it.
    pub fn reset(&mut self)
        ensures
            final(self).title@ == unknown_scene(),
            final(self).dialogs@.len() == 0,
    {
        *self = Self::new();
    }

    /// The dialogue list at the end of the index path `inner_scene_idxs`.
    pub fn inner_dialogs_as_mut(&mut self, inner_scene_idxs: &Vec<usize>) -> (r: &mut Vec<Dialog>)
        requires
            path_target(dialogs_m(old(self).dialogs@), inner_scene_idxs@) is Some,
        ensures
            dialogs_m(r@) == path_target(dialogs_m(old(self).dialogs@), inner_scene_idxs@)->Some_0,
            final(self).title == old(self).title,
            dialogs_m(final(self).dialogs@) == path_replace(
                dialogs_m(old(self).dialogs@),
                inner_scene_idxs@,
                dialogs_m(final(r)@),
            ),
    {
        proof {
            assert(inner_scene_idxs@.skip(0) =~= inner_scene_idxs@);
        }
        Self::retrieve_inner_dialogs_as_mut(&mut self.dialogs, inner_scene_idxs, 0)
    }

    /// The dialogue list that holds the choice group addressed by `inner_scene_idxs`:
    /// the path with its last triple dropped.
    pub fn inner_parent_dialogs_as_mut(&mut self, inner_scene_idxs: &Vec<usize>) -> (r: &mut Vec<Dialog>)
        requires
            path_target(dialogs_m(old(self).dialogs@), parent_path(inner_scene_idxs@)) is Some,
        ensures
            dialogs_m(r@) == path_target(
                dialogs_m(old(self).dialogs@),
                parent_path(inner_scene_idxs@),
            )->Some_0,
            final(self).title == old(self).title,
            dialogs_m(final(self).dialogs@) == path_replace(
                dialogs_m(old(self).dialogs@),
                parent_path(inner_scene_idxs@),
                dialogs_m(final(r)@),
            ),
    {
        let idxs = parent_idxs(inner_scene_idxs);
        self.inner_dialogs_as_mut(&idxs)
    }

    /// The choice-group dialogue addressed by `inner_scene_idxs`: among the dialogues of
    /// the parent list, the one of kind `Choices` whose rank is the path's group index.
    #[verifier::spinoff_prover]
    pub fn inner_choices_as_mut(&mut self, inner_scene_idxs: &Vec<usize>) -> (r: &mut Dialog)
        requires
            choices_target(dialogs_m(old(self).dialogs@), inner_scene_idxs@) is Some,
        ensures
            ({
                let (parent, j) = choices_target(dialogs_m(old(self).dialogs@), inner_scene_idxs@)->Some_0;
                &&& dialog_m(*r) == parent[j]
                &&& dialogs_m(final(self).dialogs@) == path_replace(
                    dialogs_m(old(self).dialogs@),
                    parent_path(inner_scene_idxs@),
                    parent.update(j, dialog_m(*final(r))),
                )
            }),
            final(self).title == old(self).title,
    {
        let ci = inner_scene_idxs[inner_scene_idxs.len() - 2];
        let dialogs = self.inner_parent_dialogs_as_mut(inner_scene_idxs);
        let ghost parent = dialogs_m(dialogs@);
        proof {
            lemma_dialogs_m(dialogs@);
        }
        let n = dialogs.len();
        let mut j: usize = 0;
        let mut c: usize = 0;
        loop
            invariant
                n == dialogs@.len(),
                parent == dialogs_m(dialogs@),
                parent.len() == dialogs@.len(),
                forall|k: int| 0 <= k < dialogs@.len() ==> #[trigger] parent[k] == dialog_m(dialogs@[k]),
                c <= ci,
                nth_choices(parent, ci as int) == nth_choices_from(parent, ci - c, j as int),
                nth_choices(parent, ci as int) is Some,
            ensures
                j < dialogs@.len(),
                nth_choices(parent, ci as int) == Some(j as int),
            decreases dialogs@.len() - j,
        {
            proof {
                lemma_nth_choices_from_bounds(parent, ci - c, j as int);
            }
            if dialogs[j].kind == DialogKind::Choices {
                if c == ci {
                    break;
                }
                c = c + 1;
            }
            j = j + 1;
        }
        proof {
            lemma_dialogs_m_update(dialogs@, j as int);
        }
        &mut dialogs[j]
    }

    /// Drops the last triple of a path (or all of it, when it is shorter than a triple).
    pub fn truncate_scene_idxs(scene_idxs: &mut Vec<usize>) -> (r: &mut Vec<usize>)
        ensures
            r@ == parent_path(old(scene_idxs)@),
            *final(scene_idxs) == *final(r),
    {
        let l = if scene_idxs.len() >= 3 { scene_idxs.len() - 3 } else { 0 };
        scene_idxs.truncate(l);
        scene_idxs
    }
}

impl Scene {
    /// Follows `idxs` from position `start` on, down from `dialogs`, and lends out the
    /// dialogue list found there.
    #[verifier::spinoff_prover]
    fn retrieve_inner_dialogs_as_mut<'a>(
        dialogs: &'a mut Vec<Dialog>,
        idxs: &Vec<usize>,
        start: usize,
    ) -> (r: &'a mut Vec<Dialog>)
        requires
            start <= idxs.len(),
            path_target(dialogs_m(old(dialogs)@), idxs@.skip(start as int)) is Some,
        ensures
            dialogs_m(r@) == path_target(dialogs_m(old(dialogs)@), idxs@.skip(start as int))->Some_0,
            dialogs_m(final(dialogs)@) == path_replace(
                dialogs_m(old(dialogs)@),
                idxs@.skip(start as int),
                dialogs_m(final(r)@),
            ),
        decreases idxs.len() - start,
    {
        if start == idxs.len() {
            return dialogs;
        }
        let ghost p = idxs@.skip(start as int);
        proof {
            lemma_dialogs_m(dialogs@);
            assert(p.len() >= 3);
            assert(p[0] == idxs@[start as int]);
            assert(p[2] == idxs@[start + 2]);
            lemma_bodies_m(dialogs@[idxs@[start as int] as int].args@);
            lemma_dialogs_m_update(dialogs@, idxs@[start as int] as int);
            lemma_bodies_m_update(dialogs@[idxs@[start as int] as int].args@, idxs@[start + 2] as int);
            assert(p.skip(3) =~= idxs@.skip(start + 3));
        }
        let di = idxs[start];
        let li = idxs[start + 2];
        let d = &mut dialogs[di];
        let inner = Self::choice_dialogs_mut(d, li);
        Self::retrieve_inner_dialogs_as_mut(inner, idxs, start + 3)
    }

    /// Lends out the dialogue list of the choice at argument `li` of `d`.
    #[verifier::spinoff_prover]
    fn choice_dialogs_mut(d: &mut Dialog, li: usize) -> (r: &mut Vec<Dialog>)
        requires
            li < old(d).args.len(),
            old(d).args@[li as int] is Choice,
        ensures
            r@ == old(d).args@[li as int]->Choice_0.dialogs@,
            dialog_m(*final(d)) == with_choice_dialogs(
                dialog_m(*old(d)),
                li as int,
                dialogs_m(final(r)@),
            ),
    {
        proof {
            lemma_bodies_m(d.args@);
            lemma_bodies_m_update(d.args@, li as int);
            lemma_dialog_m_unfold();
        }
        let b = &mut d.args[li];
        Self::body_dialogs_mut(b)
    }

    fn body_dialogs_mut(b: &mut DialogBody) -> (r: &mut Vec<Dialog>)
        requires
            *old(b) is Choice,
        ensures
            r@ == old(b)->Choice_0.dialogs@,
            body_m(*final(b)) == body_with_dialogs(body_m(*old(b)), dialogs_m(final(r)@)),
    {
        match b {
            DialogBody::Choice(cd) => &mut cd.dialogs,
            DialogBody::Text(_) => vstd::pervasive::unreached(),
        }
    }
}

/// The dialogue list that `idxs[start..]` leads to from `ds`, if the path resolves.
pub fn dialogs_at<'a>(ds: &'a Vec<Dialog>, idxs: &Vec<usize>, start: usize) -> (r: Option<&'a Vec<Dialog>>)
    requires
        start <= idxs@.len(),
    ensures
        r is Some == path_target(dialogs_m(ds@), idxs@.skip(start as int)) is Some,
        r is Some ==> dialogs_m(r->Some_0@) == path_target(dialogs_m(ds@), idxs@.skip(start as int))->Some_0,
    decreases idxs@.len() - start,
{
    let ghost p = idxs@.skip(start as int);
    if start == idxs.len() {
        proof {
            assert(p.len() == 0);
        }
        return Some(ds);
    }
    proof {
        lemma_dialogs_m(ds@);
    }
    if idxs.len() - start < 3 {
        return None;
    }
    proof {
        assert(p[0] == idxs@[start as int]);
        assert(p[2] == idxs@[start + 2]);
        assert(p.skip(3) =~= idxs@.skip(start + 3));
    }
    let di = idxs[start];
    let li = idxs[start + 2];
    if di >= ds.len() {
        return None;
    }
    let d = &ds[di];
    proof {
        lemma_bodies_m(d.args@);
    }
    if li >= d.args.len() {
        return None;
    }
    match &d.args[li] {
        DialogBody::Choice(cd) => dialogs_at(&cd.dialogs, idxs, start + 3),
        DialogBody::Text(_) => None,
    }
}

/// The position of the `n`-th (from 0) dialogue of kind `Choices` in `ds`, if any.
pub fn find_nth_choices(ds: &Vec<Dialog>, n: usize) -> (r: Option<usize>)
    ensures
        r is Some == nth_choices(dialogs_m(ds@), n as int) is Some,
        r is Some ==> r->Some_0 as int == nth_choices(dialogs_m(ds@), n as int)->Some_0,
{
    let ghost m = dialogs_m(ds@);
    proof {
        lemma_dialogs_m(ds@);
    }
    let mut j: usize = 0;
    let mut c: usize = 0;
    while j < ds.len()
        invariant
            m == dialogs_m(ds@),
            m.len() == ds@.len(),
            forall|k: int| 0 <= k < ds@.len() ==> #[trigger] m[k] == dialog_m(ds@[k]),
            c <= n,
            j <= ds@.len(),
            nth_choices(m, n as int) == nth_choices_from(m, n - c, j as int),
        decreases ds@.len() - j,
    {
        if ds[j].kind == DialogKind::Choices {
            if c == n {
                return Some(j);
            }
            c = c + 1;
        }
        j = j + 1;
    }
    None
}

impl DialogBody {
    /// A text argument holding `s`.
    pub fn gen_text(s: &str) -> (r: DialogBody)
        ensures
            body_m(r) == BodyM::Text(s@),
    {
        DialogBody::Text(s.to_owned())
    }
}

impl Dialog {
    /// An empty spoken line: no id, no arguments.
    pub fn new() -> (r: Dialog)
        ensures
            r.kind == DialogKind::Dialog,
            r.id@.len() == 0,
            r.args@.len() == 0,
    {
        Dialog { kind: DialogKind::Dialog, id: String::new(), args: Vec::new() }
    }

    pub fn from_dialog_data(kind: DialogKind, id: &str, args: Vec<DialogBody>) -> (r: Dialog)
        ensures
            r.kind == kind,
            r.id@ == id@,
            r.args == args,
    {
        Dialog { kind, id: id.to_owned(), args }
    }
}

impl ChoiceData {
    /// A choice with empty id and label, and no dialogue.
    pub fn new() -> (r: ChoiceData)
        ensures
            r.id@.len() == 0,
            r.label@.len() == 0,
            r.dialogs@.len() == 0,
    {
        ChoiceData { id: String::new(), label: String::new(), dialogs: Vec::new() }
    }

    pub fn from_texts(id: &str, label: &str) -> (r: ChoiceData)
        ensures
            r.id@ == id@,
            r.label@ == label@,
            r.dialogs@.len() == 0,
    {
        ChoiceData { id: id.to_owned(), label: label.to_owned(), dialogs: Vec::new() }
    }
}

impl Default for ChoiceData {
    fn default() -> (r: ChoiceData)
        ensures
            r.id@.len() == 0,
            r.label@.len() == 0,
            r.dialogs@.len() == 0,
    {
        ChoiceData::new()
    }
}

fn clone_dialog(d: &Dialog) -> (r: Dialog)
    ensures
        dialog_m(r) == dialog_m(*d),
    decreases *d,
{
    let args = clone_bodies(&d.args);
    Dialog { kind: d.kind, id: d.id.clone(), args }
}

fn clone_body(b: &DialogBody) -> (r: DialogBody)
    ensures
        body_m(r) == body_m(*b),
    decreases *b,
{
    match b {
        DialogBody::Text(s) => DialogBody::Text(s.clone()),
        DialogBody::Choice(cd) => {
            let dialogs = clone_dialogs(&cd.dialogs);
            DialogBody::Choice(ChoiceData { id: cd.id.clone(), label: cd.label.clone(), dialogs })
        },
    }
}

fn clone_bodies(bs: &Vec<DialogBody>) -> (r: Vec<DialogBody>)
    ensures
        bodies_m(r@) == bodies_m(bs@),
    decreases bs@,
{
    let mut r: Vec<DialogBody> = Vec::new();
    let mut i: usize = 0;
    while i < bs.len()
        invariant
            i <= bs@.len(),
            r@.len() == i,
            forall|k: int| 0 <= k < i ==> body_m(#[trigger] r@[k]) == body_m(bs@[k]),
        decreases bs@.len() - i,
    {
        r.push(clone_body(&bs[i]));
        i = i + 1;
    }
    proof {
        lemma_bodies_m_ext(r@, bs@);
    }
    r
}

pub(crate) fn clone_dialogs(ds: &Vec<Dialog>) -> (r: Vec<Dialog>)
    ensures
        dialogs_m(r@) == dialogs_m(ds@),
    decreases ds@,
{
    let mut r: Vec<Dialog> = Vec::new();
    let mut i: usize = 0;
    while i < ds.len()
        invariant
            i <= ds@.len(),
            r@.len() == i,
            forall|k: int| 0 <= k < i ==> dialog_m(#[trigger] r@[k]) == dialog_m(ds@[k]),
        decreases ds@.len() - i,
    {
        r.push(clone_dialog(&ds[i]));
        i = i + 1;
    }
    proof {
        lemma_dialogs_m_ext(r@, ds@);
    }
    r
}

impl Clone for Dialog {
    fn clone(&self) -> (r: Dialog)
        ensures
            dialog_m(r) == dialog_m(*self),
    {
        clone_dialog(self)
    }
}

impl Clone for DialogBody {
    fn clone(&self) -> (r: DialogBody)
        ensures
            body_m(r) == body_m(*self),
    {
        clone_body(self)
    }
}

impl Clone for ChoiceData {
    fn clone(&self) -> (r: ChoiceData)
        ensures
            choice_m(r) == choice_m(*self),
    {
        let dialogs = clone_dialogs(&self.dialogs);
        ChoiceData { id: self.id.clone(), label: self.label.clone(), dialogs }
    }
}

impl Clone for Scene {
    fn clone(&self) -> (r: Scene)
        ensures
            scene_m(r) == scene_m(*self),
    {
        let dialogs = clone_dialogs(&self.dialogs);
        Scene { title: self.title.clone(), dialogs }
    }
}

} // verus!
