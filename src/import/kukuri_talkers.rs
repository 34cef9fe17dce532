//! The reader of talker lists: one `id: name` pair per line.
use crate::import::kukuri_script::{
    comment_cut, comment_cut_exec, find_char, find_char_exec, lemma_find_char, strip_comment,
    trim_range,
};
use crate::model::kukuri_data::KukuriData;
use crate::model::talker::Talker;
use crate::text::{chars_of, lines_of, split_lines, string_of, trim};
use vstd::prelude::*;

verus! {

/// The talker of a line `id: name`, both sides trimmed; none without a `:`.
pub open spec fn talker_of(line: Seq<char>) -> Option<(Seq<char>, Seq<char>)> {
    let k = find_char(line, ':', 0);
    if k < line.len() {
        Some((trim(line.take(k)), trim(line.skip(k + 1))))
    } else {
        None
    }
}

/// The talkers of a list, in order; blank and comment-only lines are skipped.
pub open spec fn talkers_from(lines: Seq<Seq<char>>) -> Seq<(Seq<char>, Seq<char>)>
    decreases lines.len(),
{
    if lines.len() == 0 {
        Seq::empty()
    } else {
        let rest = talkers_from(lines.drop_last());
        let l = strip_comment(lines.last());
        if trim(l).len() == 0 {
            rest
        } else {
            match talker_of(l) {
                Some(t) => rest.push(t),
                None => rest,
            }
        }
    }
}

pub open spec fn talker_pairs(ts: Seq<Talker>) -> Seq<(Seq<char>, Seq<char>)> {
    Seq::new(ts.len(), |i: int| (ts[i].0@, ts[i].1@))
}

/// The reader of talker lists.
pub struct KukuriTalkers;

impl KukuriTalkers {
    pub fn parse(content: &str) -> (r: KukuriData)
        ensures
            r matches KukuriData::Talkers(v) && talker_pairs(v@) == talkers_from(lines_of(content@)),
    {
        let cs = chars_of(content);
        let lines = split_lines(&cs);
        let ghost ls = lines_of(content@);
        let mut talkers: Vec<Talker> = Vec::new();
        let mut i: usize = 0;
        while i < lines.len()
            invariant
                i <= lines@.len(),
                ls == lines_of(content@),
                lines@.len() == ls.len(),
                forall|j: int| 0 <= j < lines@.len() ==> #[trigger] lines@[j]@ == ls[j],
                talker_pairs(talkers@) == talkers_from(ls.take(i as int)),
            decreases lines@.len() - i,
        {
            let raw = &lines[i];
            let cut = comment_cut_exec(raw);
            let mut line: Vec<char> = Vec::new();
            let mut k: usize = 0;
            while k < cut
                invariant
                    cut == comment_cut(raw@, 0),
                    cut <= raw@.len(),
                    k <= cut,
                    line@ == raw@.take(k as int),
                decreases cut - k,
            {
                line.push(raw[k]);
                k = k + 1;
                proof {
                    assert(line@ =~= raw@.take(k as int));
                }
            }
            proof {
                assert(ls.take(i + 1).drop_last() =~= ls.take(i as int));
                assert(ls.take(i + 1).last() == raw@);
                assert(line@ == strip_comment(raw@));
            }
            let (a, b) = trim_range(&line, 0, line.len());
            proof {
                assert(line@.subrange(0, line@.len() as int) =~= line@);
            }
            if a < b {
                let ghost before = talkers@;
                match Self::line_talker(&line) {
                    Some(t) => {
                        talkers.push(t);
                        proof {
                            assert(talker_pairs(talkers@) =~= talker_pairs(before).push(
                                talker_of(line@)->Some_0,
                            ));
                        }
                    },
                    None => {},
                }
            }
            i = i + 1;
        }
        proof {
            assert(ls.take(i as int) =~= ls);
        }
        KukuriData::from_talkers(talkers)
    }

    fn line_talker(line: &Vec<char>) -> (r: Option<Talker>)
        ensures
            r is Some == talker_of(line@) is Some,
            r is Some ==> (r->Some_0.0@, r->Some_0.1@) == talker_of(line@)->Some_0,
    {
        let k = find_char_exec(line, ':');
        proof {
            lemma_find_char(line@, ':', 0);
        }
        if k == line.len() {
            return None;
        }
        let (a0, b0) = trim_range(line, 0, k);
        let (a1, b1) = trim_range(line, k + 1, line.len());
        proof {
            assert(line@.subrange(0, k as int) =~= line@.take(k as int));
            assert(line@.subrange(k + 1, line@.len() as int) =~= line@.skip(k + 1));
        }
        Some(Talker(string_of(line, a0, b0), string_of(line, a1, b1)))
    }

    /// The talker of a line `id: name`, both sides trimmed; none without a `:`.
    pub fn line_parse(line: &str) -> (r: Option<Talker>)
        ensures
            r is Some == talker_of(line@) is Some,
            r is Some ==> (r->Some_0.0@, r->Some_0.1@) == talker_of(line@)->Some_0,
    {
        let cs = chars_of(line);
        Self::line_talker(&cs)
    }

    /// Cuts the comment off a line: a `#` starts one unless a backslash stands right before it.
    pub fn trim_comment(line: &str) -> (r: &str)
        ensures
            r@ == strip_comment(line@),
    {
        let cs = chars_of(line);
        let cut = comment_cut_exec(&cs);
        line.substring_char(0, cut)
    }
}

} // verus!
