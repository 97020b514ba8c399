//! The storage volumes that the host offers.

use crate::path::{is_drive_letter, valid_root};
use vstd::prelude::*;

verus! {

/// The text of a lettered drive's root with a capital letter, such as `C:\`.
pub open spec fn is_drive_root(text: Seq<char>) -> bool {
    text.len() == 3 && 'A' <= text[0] && text[0] <= 'Z' && text[1] == ':' && text[2] == '\\'
}

/// `disk_name::get_letters`: the roots of the lettered drives that exist at
/// the time of the call. Which ones exist is the host's matter. Whatever
/// comes back, each element is a capital letter followed by a colon and a
/// backslash, and the letters ascend, so none comes twice.
pub assume_specification[ disk_name::get_letters ]() -> (letters: Vec<String>)
    ensures
        forall|i: int| 0 <= i < letters@.len() ==> is_drive_root(#[trigger] letters@[i]@),
        forall|i: int, j: int|
            0 <= i < j < letters@.len() ==> (#[trigger] letters@[i]@)[0] < (
            #[trigger] letters@[j]@)[0],
;

/// The volumes of this host, in the host's order. The sequence may be empty.
/// Each volume names a root, so a jump to it is never turned away, and no
/// volume is listed twice.
pub fn list_volumes() -> (volumes: Vec<String>)
    ensures
        forall|i: int| 0 <= i < volumes@.len() ==> valid_root(#[trigger] volumes@[i]@),
        forall|i: int, j: int|
            0 <= i < j < volumes@.len() ==> #[trigger] volumes@[i]@ != #[trigger] volumes@[j]@,
        volumes@.len() <= 26,
{
    let volumes = disk_name::get_letters();
    proof {
        assert forall|i: int| 0 <= i < volumes@.len() implies valid_root(
            #[trigger] volumes@[i]@,
        ) by {
            assert(is_drive_root(volumes@[i]@));
            assert(is_drive_letter(volumes@[i]@[0]));
        }
        lemma_ascending_letters(Seq::new(volumes@.len(), |i: int| volumes@[i]@[0]));
    }
    volumes
}

/// Capital letters in ascending order are at most twenty-six.
proof fn lemma_ascending_letters(letters: Seq<char>)
    requires
        forall|i: int| 0 <= i < letters.len() ==> 'A' <= #[trigger] letters[i] <= 'Z',
        forall|i: int, j: int| 0 <= i < j < letters.len() ==> letters[i] < letters[j],
    ensures
        letters.len() <= 26,
{
    assert forall|i: int| 0 <= i < letters.len() implies (#[trigger] letters[i]) as int >= 'A' as int
        + i by {
        lemma_ascending_from(letters, i);
    }
    if letters.len() > 26 {
        assert(letters[26] as int >= 'A' as int + 26);
    }
}

/// The letter at place `i` of an ascending sequence lies at least `i` above
/// the least letter.
proof fn lemma_ascending_from(letters: Seq<char>, i: int)
    requires
        0 <= i < letters.len(),
        forall|k: int| 0 <= k < letters.len() ==> 'A' <= #[trigger] letters[k] <= 'Z',
        forall|k: int, j: int| 0 <= k < j < letters.len() ==> letters[k] < letters[j],
    ensures
        letters[i] as int >= 'A' as int + i,
    decreases i,
{
    if i > 0 {
        lemma_ascending_from(letters, i - 1);
        assert(letters[i - 1] < letters[i]);
    }
}

} // verus!
