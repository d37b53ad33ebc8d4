//! Indentation bookkeeping for the code generator: a current namespace and
//! an indentation level, one tab per level plus one.

use vstd::prelude::*;

verus! {

use vstd::string::StringExecFns;
use crate::namespace::NameSpace;

pub struct GenFormatter {
    pub ns: NameSpace,
    pub level: usize,
}

/// The given number of tab characters.
pub open spec fn spec_tabs(n: int) -> Seq<char>
    decreases n,
{
    if n <= 0 {
        Seq::empty()
    } else {
        spec_tabs(n - 1) + "\t"@
    }
}

/// What one indentation step appends: a newline is one line feed, an indent
/// is one tab more than the current level.
pub open spec fn spec_indent(level: int) -> Seq<char> {
    spec_tabs(level + 1)
}

impl GenFormatter {
    pub fn increment_level(&mut self)
        ensures
            final(self).ns == old(self).ns,
            final(self).level as int == if old(self).level < usize::MAX {
                old(self).level + 1
            } else {
                old(self).level as int
            },
    {
        if self.level < usize::MAX {
            self.level = self.level + 1;
        }
    }

    pub fn decrement_level(&mut self)
        ensures
            final(self).ns == old(self).ns,
            final(self).level as int == if old(self).level > 0 {
                old(self).level - 1
            } else {
                0
            },
    {
        if self.level > 0 {
            self.level = self.level - 1;
        }
    }

    #[verifier::loop_isolation(false)]
    pub fn indent(&self, buf: &mut String)
        ensures
            final(buf)@ == old(buf)@ + spec_indent(self.level as int),
    {
        let n: usize = self.level;
        buf.append("\t");
        proof {
            assert(spec_tabs(0) =~= Seq::<char>::empty());
            assert(buf@ =~= old(buf)@ + spec_tabs(1));
        }
        let mut i: usize = 0;
        while i < n
            invariant
                0 <= i <= n,
                buf@ == old(buf)@ + spec_tabs(1 + i as int),
            decreases n - i,
        {
            buf.append("\t");
            proof {
                assert(buf@ =~= old(buf)@ + spec_tabs(1 + (i + 1) as int));
            }
            i = i + 1;
        }
    }

    pub fn newline(&self, buf: &mut String)
        ensures
            final(buf)@ == old(buf)@ + "\n"@,
    {
        buf.append("\n");
    }
}

impl Clone for GenFormatter {
    fn clone(&self) -> (r: Self)
        ensures
            r.ns.segs() == self.ns.segs(),
            r.level == self.level,
    {
        GenFormatter { ns: self.ns.clone(), level: self.level }
    }
}

impl Default for GenFormatter {
    fn default() -> (r: Self)
        ensures
            r.ns.segs() =~= Seq::<Seq<char>>::empty(),
            r.level == 0,
    {
        GenFormatter { ns: NameSpace::root(), level: 0 }
    }
}

} // verus!
