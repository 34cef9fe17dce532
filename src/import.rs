//! Readers of dialogue-script formats.
pub mod kukuri_script;
pub mod kukuri_talkers;
pub mod kukuri;

use vstd::prelude::*;

verus! {

/// The script dialects that the reader recognises.
#[derive(Copy, Clone, Debug, PartialEq, Eq, Structural)]
pub enum ImportType {
    KukuriScript,
    KukuriTalkers,
    Yarn,
    Ink,
}

/// The dialect named by a configured type name; unknown names fall back to the script dialect.
pub open spec fn typename_spec(s: Seq<char>) -> ImportType {
    if s == "kukuri_talkers"@ {
        ImportType::KukuriTalkers
    } else if s == "yarn"@ {
        ImportType::Yarn
    } else if s == "ink"@ {
        ImportType::Ink
    } else {
        ImportType::KukuriScript
    }
}

/// The dialect named by a file extension, or `fallback` for an unknown extension.
pub open spec fn extension_spec(ext: Seq<char>, fallback: ImportType) -> ImportType {
    if ext == "kkr"@ {
        ImportType::KukuriScript
    } else if ext == "kkrt"@ {
        ImportType::KukuriTalkers
    } else if ext == "yarn"@ {
        ImportType::Yarn
    } else if ext == "ink"@ {
        ImportType::Ink
    } else {
        fallback
    }
}

/// Whether two strings hold the same characters.
pub fn str_eq(a: &str, b: &str) -> (r: bool)
    ensures
        r == (a@ == b@),
{
    let n = a.unicode_len();
    if n != b.unicode_len() {
        return false;
    }
    let mut i: usize = 0;
    while i < n
        invariant
            n == a@.len() == b@.len(),
            i <= n,
            forall|k: int| 0 <= k < i ==> a@[k] == b@[k],
        decreases n - i,
    {
        if a.get_char(i) != b.get_char(i) {
            return false;
        }
        i = i + 1;
    }
    proof {
        assert(a@ =~= b@);
    }
    true
}

impl ImportType {
    pub fn from_typename(typename: &str) -> (r: ImportType)
        ensures
            r == typename_spec(typename@),
    {
        proof {
            reveal_strlit("kukuri");
            reveal_strlit("kukuri_talkers");
            reveal_strlit("yarn");
            reveal_strlit("ink");
            assert("kukuri"@ != "kukuri_talkers"@ && "kukuri"@ != "yarn"@ && "kukuri"@ != "ink"@) by {
                assert("kukuri"@.len() == 6);
                assert("yarn"@[0] != "kukuri"@[0]);
                assert("ink"@[0] != "kukuri"@[0]);
            }
        }
        if str_eq(typename, "kukuri") {
            ImportType::KukuriScript
        } else if str_eq(typename, "kukuri_talkers") {
            ImportType::KukuriTalkers
        } else if str_eq(typename, "yarn") {
            ImportType::Yarn
        } else if str_eq(typename, "ink") {
            ImportType::Ink
        } else {
            ImportType::KukuriScript
        }
    }

    pub fn from_extension(ext: &str, fallback_str: &str) -> (r: ImportType)
        ensures
            r == extension_spec(ext@, typename_spec(fallback_str@)),
    {
        let fallback = ImportType::from_typename(fallback_str);
        proof {
            reveal_strlit("kkr");
            reveal_strlit("kkrt");
            reveal_strlit("yarn");
            reveal_strlit("ink");
        }
        if str_eq(ext, "kkr") {
            ImportType::KukuriScript
        } else if str_eq(ext, "kkrt") {
            ImportType::KukuriTalkers
        } else if str_eq(ext, "yarn") {
            ImportType::Yarn
        } else if str_eq(ext, "ink") {
            ImportType::Ink
        } else {
            fallback
        }
    }
}

} // verus!
