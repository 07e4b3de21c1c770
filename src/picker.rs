//! The selection and scroll window of a list of files, and which files hold
//! cards.

use vstd::prelude::*;

verus! {

/// Number of entries visible at once.
pub const VISIBLE_ENTRIES: usize = 8;

/// Name ending of a file that holds cards.
pub open spec fn card_file_suffix() -> Seq<u8> {
    seq![46u8, 99u8, 115u8, 118u8, 46u8, 116u8, 110u8, 115u8]
}

/// Whether a file name ends with `.csv.tns`.
pub open spec fn is_card_file_name(name: Seq<u8>) -> bool {
    name.len() >= card_file_suffix().len()
        && name.subrange(name.len() - card_file_suffix().len(), name.len() as int) == card_file_suffix()
}

pub fn is_card_file(name: &[u8]) -> (r: bool)
    ensures
        r == is_card_file_name(name@),
{
    let suffix: Vec<u8> = vec![46u8, 99u8, 115u8, 118u8, 46u8, 116u8, 110u8, 115u8];
    if name.len() < suffix.len() {
        return false;
    }
    let start = name.len() - suffix.len();
    let mut i: usize = 0;
    while i < suffix.len()
        invariant
            start + suffix@.len() == name@.len(),
            name@.len() <= usize::MAX,
            suffix@ == card_file_suffix(),
            i <= suffix@.len(),
            forall|k: int| 0 <= k < i ==> name@[start + k] == #[trigger] suffix@[k],
        decreases suffix@.len() - i,
    {
        if name[start + i] != suffix[i] {
            proof {
                assert(name@.subrange(start as int, name@.len() as int)[i as int] != suffix@[i as int]);
            }
            return false;
        }
        i = i + 1;
    }
    proof {
        assert(name@.subrange(start as int, name@.len() as int) =~= suffix@);
    }
    true
}

/// The selection is in range and inside the visible window.
pub open spec fn cursor_wf(len: nat, index: nat, top: nat) -> bool {
    &&& len == 0 ==> index == 0 && top == 0
    &&& len > 0 ==> index < len
    &&& top <= index < top + VISIBLE_ENTRIES
}

/// Selection and window after moving down: the next entry, scrolling by one
/// when it leaves the window; from the last entry back to the first.
pub open spec fn moved_down(len: nat, index: nat, top: nat) -> (nat, nat) {
    if index + 1 < len {
        if index + 1 >= top + VISIBLE_ENTRIES {
            ((index + 1) as nat, (top + 1) as nat)
        } else {
            ((index + 1) as nat, top)
        }
    } else {
        (0, 0)
    }
}

/// Selection and window after moving up: the previous entry, scrolling by
/// one when it leaves the window; from the first entry to the last, with
/// the window ending there.
pub open spec fn moved_up(len: nat, index: nat, top: nat) -> (nat, nat) {
    if index > 0 {
        if index - 1 < top {
            ((index - 1) as nat, (top - 1) as nat)
        } else {
            ((index - 1) as nat, top)
        }
    } else {
        let last = (len - 1) as nat;
        (last, if last >= VISIBLE_ENTRIES - 1 { (last - (VISIBLE_ENTRIES - 1)) as nat } else { 0 })
    }
}

/// Selection within a list of `len` entries and the first visible entry.
pub struct FileCursor {
    len: usize,
    index: usize,
    top: usize,
}

impl FileCursor {
    pub closed spec fn spec_len(&self) -> nat {
        self.len as nat
    }

    pub closed spec fn spec_index(&self) -> nat {
        self.index as nat
    }

    pub closed spec fn spec_top(&self) -> nat {
        self.top as nat
    }

    pub open spec fn wf(&self) -> bool {
        cursor_wf(self.spec_len(), self.spec_index(), self.spec_top())
    }

    /// The first entry selected and visible.
    pub fn new(len: usize) -> (r: FileCursor)
        ensures
            r.spec_len() == len,
            r.spec_index() == 0,
            r.spec_top() == 0,
            r.wf(),
    {
        FileCursor { len, index: 0, top: 0 }
    }

    pub fn len(&self) -> (r: usize)
        ensures
            r == self.spec_len(),
    {
        self.len
    }

    pub fn index(&self) -> (r: usize)
        ensures
            r == self.spec_index(),
    {
        self.index
    }

    pub fn top(&self) -> (r: usize)
        ensures
            r == self.spec_top(),
    {
        self.top
    }

    pub fn move_down(&mut self)
        requires
            old(self).wf(),
            old(self).spec_len() > 0,
        ensures
            final(self).spec_len() == old(self).spec_len(),
            (final(self).spec_index(), final(self).spec_top()) == moved_down(
                old(self).spec_len(),
                old(self).spec_index(),
                old(self).spec_top(),
            ),
            final(self).wf(),
    {
        if self.index + 1 < self.len {
            self.index = self.index + 1;
            if self.index - self.top >= VISIBLE_ENTRIES {
                self.top = self.top + 1;
            }
        } else {
            self.index = 0;
            self.top = 0;
        }
    }

    pub fn move_up(&mut self)
        requires
            old(self).wf(),
            old(self).spec_len() > 0,
        ensures
            final(self).spec_len() == old(self).spec_len(),
            (final(self).spec_index(), final(self).spec_top()) == moved_up(
                old(self).spec_len(),
                old(self).spec_index(),
                old(self).spec_top(),
            ),
            final(self).wf(),
    {
        if self.index > 0 {
            self.index = self.index - 1;
            if self.index < self.top {
                self.top = self.top - 1;
            }
        } else {
            self.index = self.len - 1;
            self.top = if self.index >= VISIBLE_ENTRIES - 1 {
                self.index - (VISIBLE_ENTRIES - 1)
            } else {
                0
            };
        }
    }
}

} // verus!
