//! A path-shaped key naming a position in the command tree. Joining a blank
//! segment is a no-op, and the derived function names are injective in the
//! path as long as segments are slugified first.

use vstd::prelude::*;

verus! {

use vstd::string::StrSliceExecFns;
use vstd::string::StringExecFns;
use crate::strutil::char_alphanumeric;
use crate::strutil::clone_strings;
use crate::strutil::is_blank;
use crate::strutil::push_char;
use crate::strutil::seq_views;
use crate::strutil::spec_blank;
use crate::strutil::spec_slug;

pub struct NameSpace {
    pub scope: Vec<String>,
}

pub struct NameSpaceView {
    pub scope: Vec<String>,
}

/// The segments joined by the separator: empty for no segments, and no
/// leading or trailing separator.
pub open spec fn spec_join_segments(segs: Seq<Seq<char>>, sep: Seq<char>) -> Seq<char>
    decreases segs.len(),
{
    if segs.len() == 0 {
        Seq::empty()
    } else if segs.len() == 1 {
        segs[0]
    } else {
        segs[0] + sep + spec_join_segments(segs.drop_first(), sep)
    }
}

/// The function-name prefix contributed by a path: the segments joined by
/// `_`, followed by one more `_`, or nothing at all for the root.
pub open spec fn spec_func_prefix(segs: Seq<Seq<char>>) -> Seq<char> {
    let joined = spec_join_segments(segs, "_"@);
    if joined.len() > 0 {
        joined + "_"@
    } else {
        Seq::empty()
    }
}

pub open spec fn spec_flag_func_name(segs: Seq<Seq<char>>, name: Seq<char>) -> Seq<char> {
    "_flag_"@ + spec_func_prefix(segs) + name
}

pub open spec fn spec_global_flag_func_name(segs: Seq<Seq<char>>) -> Seq<char> {
    "_global_flags_"@ + spec_join_segments(segs, "_"@)
}

pub open spec fn spec_cmd_func_name(segs: Seq<Seq<char>>, name: Seq<char>) -> Seq<char> {
    "_cmd_"@ + spec_func_prefix(segs) + name
}

pub open spec fn spec_arg_complete_func_name(name: Seq<char>) -> Seq<char> {
    "_complete_arg_"@ + spec_slug(name)
}

fn join_from(v: &Vec<String>, i: usize, sep: &str) -> (r: String)
    requires
        i <= v@.len(),
    ensures
        r@ == spec_join_segments(seq_views(v@).skip(i as int), sep@),
    decreases v@.len() - i,
{
    let n: usize = v.len();
    if i == n {
        let r = String::new();
        proof {
            assert(seq_views(v@).skip(i as int) =~= Seq::<Seq<char>>::empty());
        }
        r
    } else if i + 1 == n {
        let r = v[i].clone();
        proof {
            assert(seq_views(v@).skip(i as int).len() == 1);
            assert(seq_views(v@).skip(i as int)[0] == v@[i as int]@);
        }
        r
    } else {
        let mut out = v[i].clone();
        out.append(sep);
        let rest = join_from(v, i + 1, sep);
        out.append(rest.as_str());
        proof {
            let tail = seq_views(v@).skip(i as int);
            assert(tail[0] == v@[i as int]@);
            assert(tail.drop_first() =~= seq_views(v@).skip(i as int + 1));
        }
        out
    }
}

/// Joins the strings with the separator, mirroring [`spec_join_segments`].
pub fn join_all(v: &Vec<String>, sep: &str) -> (r: String)
    ensures
        r@ == spec_join_segments(seq_views(v@), sep@),
{
    let r = join_from(v, 0, sep);
    proof {
        assert(seq_views(v@).skip(0) =~= seq_views(v@));
    }
    r
}

impl NameSpace {
    /// The separator used by [`NameSpace::display`].
    pub const SEPARATOR: &'static str = "::";

    /// The separator used in generated function names.
    pub const FUNC_SEPARATOR: &'static str = "_";

    /// The path segments, as sequences of characters.
    pub open spec fn segs(&self) -> Seq<Seq<char>> {
        seq_views(self.scope@)
    }

    pub fn root() -> (r: Self)
        ensures
            r.segs() =~= Seq::<Seq<char>>::empty(),
    {
        NameSpace { scope: Vec::new() }
    }

    pub fn is_root(&self) -> (r: bool)
        ensures
            r == (self.segs().len() == 0),
    {
        self.scope.len() == 0
    }

    pub fn view(&self) -> (r: NameSpaceView)
        ensures
            r.segs() == self.segs(),
    {
        NameSpaceView { scope: clone_strings(&self.scope) }
    }

    /// Appends a segment, unless it is blank: a blank segment leaves the
    /// path unchanged.
    pub fn join(self, other: &str) -> (r: Self)
        ensures
            !spec_blank(other@) ==> r.segs() == self.segs().push(other@),
            spec_blank(other@) ==> r.segs() == self.segs(),
    {
        let mut this = self;
        if !is_blank(other) {
            this.scope.push(String::from_str(other));
            proof {
                assert(this.segs() =~= old_segs(&this, other));
            }
        }
        this
    }

    pub fn parent(&self) -> (r: NameSpaceView)
        ensures
            self.segs().len() > 0 ==> r.segs() == self.segs().drop_last(),
            self.segs().len() == 0 ==> r.segs() == self.segs(),
    {
        let mut sc = clone_strings(&self.scope);
        if sc.len() > 0 {
            let n: usize = sc.len();
            sc.truncate(n - 1);
        }
        proof {
            if self.segs().len() > 0 {
                assert(seq_views(sc@) =~= self.segs().drop_last());
            } else {
                assert(seq_views(sc@) =~= self.segs());
            }
        }
        NameSpaceView { scope: sc }
    }

    pub fn display(&self) -> (r: String)
        ensures
            r@ == spec_join_segments(self.segs(), "::"@),
    {
        let r = join_from(&self.scope, 0, "::");
        proof {
            assert(self.segs().skip(0) =~= self.segs());
        }
        r
    }
}

/// Helper naming the pushed-segment shape for the `join` proof.
spec fn old_segs(this: &NameSpace, other: &str) -> Seq<Seq<char>> {
    seq_views(this.scope@.drop_last()).push(other@)
}

impl Clone for NameSpace {
    fn clone(&self) -> (r: Self)
        ensures
            r.segs() == self.segs(),
            r.scope@ =~= self.scope@,
    {
        NameSpace { scope: clone_strings(&self.scope) }
    }
}

impl Default for NameSpace {
    fn default() -> (r: Self)
        ensures
            r.segs() =~= Seq::<Seq<char>>::empty(),
    {
        NameSpace::root()
    }
}

impl From<NameSpaceView> for NameSpace {
    /// Turns a view back into an owned namespace with the same segments.
    fn from(value: NameSpaceView) -> (r: Self) {
        NameSpace { scope: value.scope }
    }
}

impl vstd::std_specs::convert::FromSpecImpl<NameSpaceView> for NameSpace {
    open spec fn obeys_from_spec() -> bool {
        true
    }

    open spec fn from_spec(v: NameSpaceView) -> Self {
        NameSpace { scope: v.scope }
    }
}

impl NameSpaceView {
    /// The path segments, as sequences of characters.
    pub open spec fn segs(&self) -> Seq<Seq<char>> {
        seq_views(self.scope@)
    }

    pub fn is_root(&self) -> (r: bool)
        ensures
            r == (self.segs().len() == 0),
    {
        self.scope.len() == 0
    }

    pub fn parent(&self) -> (r: NameSpaceView)
        ensures
            self.segs().len() > 0 ==> r.segs() == self.segs().drop_last(),
            self.segs().len() == 0 ==> r.segs() == self.segs(),
    {
        let mut sc = clone_strings(&self.scope);
        if sc.len() > 0 {
            let n: usize = sc.len();
            sc.truncate(n - 1);
        }
        proof {
            if self.segs().len() > 0 {
                assert(seq_views(sc@) =~= self.segs().drop_last());
            } else {
                assert(seq_views(sc@) =~= self.segs());
            }
        }
        NameSpaceView { scope: sc }
    }

    pub fn display(&self) -> (r: String)
        ensures
            r@ == spec_join_segments(self.segs(), "::"@),
    {
        let r = join_from(&self.scope, 0, "::");
        proof {
            assert(self.segs().skip(0) =~= self.segs());
        }
        r
    }

    pub fn as_func_str(&self) -> (r: String)
        ensures
            r@ == spec_join_segments(self.segs(), "_"@),
    {
        let r = join_from(&self.scope, 0, "_");
        proof {
            assert(self.segs().skip(0) =~= self.segs());
        }
        r
    }

    /// Appends `other` and one separator to `this`, unless `other` is empty.
    fn join_func_str(this: &mut String, other: &str)
        ensures
            other@.len() > 0 ==> final(this)@ == old(this)@ + other@ + "_"@,
            other@.len() == 0 ==> final(this)@ == old(this)@,
    {
        if !other.is_empty() {
            this.append(other);
            this.append("_");
        }
    }

    pub fn flag_func_name(&self, name: &str) -> (r: String)
        ensures
            r@ == spec_flag_func_name(self.segs(), name@),
    {
        let mut func_name = String::from_str("_flag_");
        let fs = self.as_func_str();
        Self::join_func_str(&mut func_name, fs.as_str());
        func_name.append(name);
        func_name
    }

    pub fn global_flag_func_name(&self) -> (r: String)
        ensures
            r@ == spec_global_flag_func_name(self.segs()),
    {
        let mut func_name = String::from_str("_global_flags_");
        let fs = self.as_func_str();
        func_name.append(fs.as_str());
        func_name
    }

    pub fn cmd_func_name(&self, name: &str) -> (r: String)
        ensures
            r@ == spec_cmd_func_name(self.segs(), name@),
    {
        let mut func_name = String::from_str("_cmd_");
        let fs = self.as_func_str();
        Self::join_func_str(&mut func_name, fs.as_str());
        func_name.append(name);
        func_name
    }
}

impl Clone for NameSpaceView {
    fn clone(&self) -> (r: Self)
        ensures
            r.segs() == self.segs(),
            r.scope@ =~= self.scope@,
    {
        NameSpaceView { scope: clone_strings(&self.scope) }
    }
}

/// Slugification for generated identifiers: characters other than
/// alphanumerics and `_` are dropped.
pub fn slugify(input: &str) -> (r: String)
    ensures
        r@ == spec_slug(input@),
{
    let n: usize = input.unicode_len();
    let mut out = String::new();
    let mut i: usize = 0;
    while i < n
        invariant
            n == input@.len(),
            0 <= i <= n,
            out@ == spec_slug(input@.take(i as int)),
        decreases n - i,
    {
        let c: char = input.get_char(i);
        if c.is_alphanumeric() || c == '_' {
            push_char(&mut out, c);
        }
        proof {
            assert(input@.take(i + 1).drop_last() =~= input@.take(i as int));
            assert(input@.take(i + 1).last() == input@[i as int]);
            assert(out@ =~= spec_slug(input@.take(i + 1)));
        }
        i = i + 1;
    }
    proof {
        assert(input@.take(n as int) =~= input@);
    }
    out
}

/// The name of the generated completion-bridge function for a binding.
pub fn arg_complete_func_name(complete_name: &str) -> (r: String)
    ensures
        r@ == spec_arg_complete_func_name(complete_name@),
{
    let mut func_name = String::from_str("_complete_arg_");
    let s = slugify(complete_name);
    func_name.append(s.as_str());
    func_name
}

} // verus!
