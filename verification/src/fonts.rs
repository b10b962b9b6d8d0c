//! Which installed font faces are removed from the process's font database
//! before the first text layout: the bitmap "GB18030" faces, whose glyph
//! advances come out infinite and break every line that falls back to them.
use vstd::prelude::*;
use crate::text::{chars_of, contains_chars, contains_seq};

verus! {

/// The family name of the embedded code and terminal font.
pub const CODE_FONT_FAMILY: &'static str = "JetBrains Mono";

/// The mark in a family name that identifies a poisoning bitmap face.
pub open spec fn poison_mark() -> Seq<char> {
    seq!['G', 'B', '1', '8', '0', '3', '0']
}

/// A face whose family names include one containing the mark.
pub open spec fn poisoned(families: Seq<String>) -> bool {
    exists|i: int| 0 <= i < families.len() && contains_seq((#[trigger] families[i])@, poison_mark())
}

/// Whether a face with these family names is to be removed.
pub fn is_poisoned_face(families: &[String]) -> (r: bool)
    ensures
        r == poisoned(families@),
{
    let mark: Vec<char> = vec!['G', 'B', '1', '8', '0', '3', '0'];
    assert(mark@ =~= poison_mark());
    let mut i: usize = 0;
    while i < families.len()
        invariant
            i <= families@.len(),
            mark@ == poison_mark(),
            forall|k: int| 0 <= k < i ==> !contains_seq((#[trigger] families@[k])@, poison_mark()),
        decreases families.len() - i,
    {
        let name = chars_of(families[i].as_str());
        if contains_chars(&name, &mark) {
            return true;
        }
        i = i + 1;
    }
    false
}

/// The ids of the faces to remove, in the order the faces are listed.
pub open spec fn poisoned_ids(faces: Seq<(u64, Vec<String>)>) -> Seq<u64>
    decreases faces.len(),
{
    if faces.len() == 0 {
        Seq::empty()
    } else {
        let rest = poisoned_ids(faces.drop_last());
        if poisoned(faces.last().1@) { rest.push(faces.last().0) } else { rest }
    }
}

/// The faces to remove from the font database: the ids of the listed
/// faces (id and family names) that poison fallback.
pub fn poisoned_faces(faces: &[(u64, Vec<String>)]) -> (r: Vec<u64>)
    ensures
        r@ == poisoned_ids(faces@),
{
    let mut r: Vec<u64> = Vec::new();
    let mut i: usize = 0;
    while i < faces.len()
        invariant
            i <= faces@.len(),
            r@ == poisoned_ids(faces@.subrange(0, i as int)),
        decreases faces.len() - i,
    {
        assert(faces@.subrange(0, i + 1).drop_last() =~= faces@.subrange(0, i as int));
        if is_poisoned_face(faces[i].1.as_slice()) {
            r.push(faces[i].0);
        }
        i = i + 1;
    }
    assert(faces@.subrange(0, faces@.len() as int) =~= faces@);
    r
}

} // verus!
