//! Which of the desktop's items a hosted view shows: not the namespace junctions
//! (This PC, Home, Network, Control Panel, Recycle Bin).

use vstd::prelude::*;
use vstd::string::*;
use crate::text::{chars_of, contains_str, occurs, occurs_at, raised, to_ascii_upper};
use crate::util::{decoded, version_text, without_nuls};

verus! {

// Class ids of the junctions, as their parsing names hold them.
pub const THIS_PC: &'static str = "{20D04FE0-3AEA-1069-A2D8-08002B30309D}";

pub const HOME: &'static str = "{59031A47-3F72-44A7-89C5-5595FE6B30EE}";

pub const NETWORK: &'static str = "{F02C1A0D-BE21-4350-88B0-7367FC96EF3C}";

pub const RECYCLE_BIN: &'static str = "{645FF040-5081-101B-9F08-00AA002F954E}";

pub const CONTROL_PANEL: &'static str = "{5399E694-6CE5-4D6C-8FCE-1D8870FDCBA0}";

/// A parsing name that holds a junction's class id, whatever the case.
pub open spec fn junction_name(name: Seq<char>) -> bool {
    let n = raised(name);
    ||| occurs(n, THIS_PC@)
    ||| occurs(n, HOME@)
    ||| occurs(n, NETWORK@)
    ||| occurs(n, RECYCLE_BIN@)
    ||| occurs(n, CONTROL_PANEL@)
}

/// The item is hidden, going by its parsing name as the system wrote it into a
/// buffer. An item whose name could not be read is shown.
pub fn is_junction(name: &Option<Vec<u16>>) -> (r: bool)
    ensures
        r == match *name {
            Some(units) => junction_name(without_nuls(decoded(units@))),
            None => false,
        },
{
    match name {
        Some(units) => {
            let text = version_text(units.as_slice());
            let n = to_ascii_upper(&chars_of(text.as_str()));
            contains_str(&n, &chars_of(THIS_PC)) || contains_str(&n, &chars_of(HOME))
                || contains_str(&n, &chars_of(NETWORK)) || contains_str(&n, &chars_of(RECYCLE_BIN))
                || contains_str(&n, &chars_of(CONTROL_PANEL))
        },
        None => false,
    }
}

/// A request for some items, of which some are written.
#[derive(Clone, Copy, PartialEq, Eq, Structural, Debug)]
pub struct Batch {
    pub wanted: u32,
    pub written: u32,
}

impl Batch {
    pub open spec fn wf(&self) -> bool {
        self.written <= self.wanted
    }

    pub fn new(wanted: u32) -> (r: Batch)
        ensures
            r.wf(),
            r.wanted == wanted,
            r.written == 0,
    {
        Batch { wanted, written: 0 }
    }

    /// Another item is to be fetched.
    pub fn open(&self) -> (r: bool)
        requires
            self.wf(),
        ensures
            r == (self.written < self.wanted),
    {
        self.written < self.wanted
    }

    /// Take a fetched item: the place it is written to, or `None` for a junction,
    /// which is freed.
    pub fn take(&mut self, junction: bool) -> (r: Option<u32>)
        requires
            old(self).wf(),
            old(self).written < old(self).wanted,
        ensures
            final(self).wf(),
            final(self).wanted == old(self).wanted,
            junction ==> r is None && final(self).written == old(self).written,
            !junction ==> r == Some(old(self).written) && final(self).written
                == old(self).written + 1,
    {
        if junction {
            None
        } else {
            let at: u32 = self.written;
            self.written = self.written + 1;
            Some(at)
        }
    }

    /// The answer to the request: 0 if it was filled, else 1.
    pub fn answer(&self) -> (r: i32)
        requires
            self.wf(),
        ensures
            r == if self.written == self.wanted {
                0i32
            } else {
                1i32
            },
    {
        if self.written == self.wanted {
            0
        } else {
            1
        }
    }
}

/// A name with one of the five class ids in it is hidden, wherever it stands and
/// whatever the case of its letters.
pub proof fn junctions_are_hidden(before: Seq<char>, id: Seq<char>, after: Seq<char>)
    requires
        raised(id) == "{20D04FE0-3AEA-1069-A2D8-08002B30309D}"@ || raised(id)
            == "{59031A47-3F72-44A7-89C5-5595FE6B30EE}"@ || raised(id)
            == "{F02C1A0D-BE21-4350-88B0-7367FC96EF3C}"@ || raised(id)
            == "{645FF040-5081-101B-9F08-00AA002F954E}"@ || raised(id)
            == "{5399E694-6CE5-4D6C-8FCE-1D8870FDCBA0}"@,
    ensures
        junction_name(before + id + after),
{
    let s = raised(before + id + after);
    let at = before.len() as int;
    assert(s.subrange(at, at + id.len()) =~= raised(id));
    assert(raised(id).len() == id.len());
    assert(occurs_at(s, raised(id), at));
}

/// A name without a brace has none of the class ids in it, and is shown.
pub proof fn ordinary_names_are_shown(name: Seq<char>)
    requires
        !name.contains('{'),
    ensures
        !junction_name(name),
{
    reveal_strlit("{20D04FE0-3AEA-1069-A2D8-08002B30309D}");
    reveal_strlit("{59031A47-3F72-44A7-89C5-5595FE6B30EE}");
    reveal_strlit("{F02C1A0D-BE21-4350-88B0-7367FC96EF3C}");
    reveal_strlit("{645FF040-5081-101B-9F08-00AA002F954E}");
    reveal_strlit("{5399E694-6CE5-4D6C-8FCE-1D8870FDCBA0}");
    lemma_no_brace(name, THIS_PC@);
    lemma_no_brace(name, HOME@);
    lemma_no_brace(name, NETWORK@);
    lemma_no_brace(name, RECYCLE_BIN@);
    lemma_no_brace(name, CONTROL_PANEL@);
}

proof fn lemma_no_brace(name: Seq<char>, id: Seq<char>)
    requires
        !name.contains('{'),
        id.len() > 0,
        id[0] == '{',
    ensures
        !occurs(raised(name), id),
{
    let s = raised(name);
    assert forall|i: int| !occurs_at(s, id, i) by {
        if occurs_at(s, id, i) {
            assert(s.subrange(i, i + id.len())[0] == s[i]);
            assert(s[i] == '{');
            assert(name.contains(name[i]));
            assert(crate::text::ascii_upper(name[i]) != '{' || name[i] == '{');
        }
    }
}

} // verus!
