//! Resolution passes over a freshly parsed document: assembling the model
//! from the top-level declaration nodes, propagating global flags one hop
//! into each child command, and merging an included base document under an
//! overriding one.

use vstd::prelude::*;

verus! {

broadcast use vstd::std_specs::vec::group_vec_axioms;

use vstd::string::StrSliceExecFns;
use vstd::string::StringExecFns;
use crate::namespace::NameSpace;
use crate::node::Node;
use crate::node::NodeV;
use crate::parse::spec_parse_name;
use crate::parse::spec_parse_bin;
use crate::parse::spec_parse_include;
use crate::parse::spec_parse_usage;
use crate::parse::parse_name;
use crate::parse::parse_bin;
use crate::parse::parse_include;
use crate::parse::parse_usage;
use crate::strutil::lower_of;
use crate::strutil::spec_blank;
use crate::strutil::str_eq;
use crate::usage::Cmd;
use crate::usage::CmdV;
use crate::usage::Complete;
use crate::usage::CompleteMap;
use crate::usage::CompleteV;
use crate::usage::CompleteKindV;
use crate::usage::Arg;
use crate::usage::ArgV;
use crate::usage::Flag;
use crate::usage::FlagV;
use crate::usage::GlobalFlag;
use crate::usage::GlobalFlagV;
use crate::usage::Info;
use crate::usage::InfoV;
use crate::usage::UError;
use crate::usage::UErrorV;
use crate::usage::Usage;
use crate::usage::UsageSpec;
use crate::usage::UsageSpecV;
use crate::usage::UsageV;
use crate::usage::args_v;
use crate::usage::cmds_v;
use crate::usage::flag_eq_key;
use crate::usage::flags_v;
use crate::usage::clone_flags;
use crate::usage::info_v_default;
use crate::usage::lemma_cmds_v_push;
use crate::usage::spec_insert;

// ------------------------------------------------------------------------
// Global-flag propagation
// ------------------------------------------------------------------------

/// A path extended by a segment, skipping blank segments as
/// [`NameSpace::join`] does.
pub open spec fn spec_join_seg(nm: Seq<Seq<char>>, s: Seq<char>) -> Seq<Seq<char>> {
    if spec_blank(s) {
        nm
    } else {
        nm.push(s)
    }
}

/// Imposing one flag on one command: when the flag is declared global at
/// its own scope and no flag with the same equality key is present, a copy
/// tagged `Imposed` with the imposing scope's namespace is appended; in
/// every other case — an inherited copy, a non-global flag, or an equal
/// flag already present — the command is left completely unchanged.
pub open spec fn spec_add_gflag(f: FlagV, c: CmdV, nm: Seq<Seq<char>>) -> CmdV {
    if f.global is Itself && !(exists|i: int|
        0 <= i < c.flags.len() && flag_eq_key(#[trigger] c.flags[i], f)) {
        CmdV { flags: c.flags.push(FlagV { global: GlobalFlagV::Imposed(nm), ..f }), ..c }
    } else {
        c
    }
}

pub open spec fn spec_impose_flag_on_cmds(f: FlagV, cs: Seq<CmdV>, nm: Seq<Seq<char>>) -> Seq<
    CmdV,
> {
    Seq::new(cs.len(), |i: int| spec_add_gflag(f, cs[i], nm))
}

/// Imposing the flags from position `k` on, in order, on every command.
pub open spec fn spec_impose_flags(
    flags: Seq<FlagV>,
    k: int,
    cs: Seq<CmdV>,
    nm: Seq<Seq<char>>,
) -> Seq<CmdV>
    decreases flags.len() - k,
{
    if k < 0 || k >= flags.len() {
        cs
    } else {
        let cs1 = if flags[k].global is Itself {
            spec_impose_flag_on_cmds(flags[k], cs, nm)
        } else {
            cs
        };
        spec_impose_flags(flags, k + 1, cs1, nm)
    }
}

/// The height of one command's tree; imposing flags never touches children,
/// so it is the termination measure of propagation.
pub open spec fn cmd_height(c: CmdV) -> nat
    decreases c,
{
    1 + cmds_height_of(c.cmds)
}

/// The greatest height among a list of commands, zero for no commands.
pub open spec fn cmds_height_of(cs: Seq<CmdV>) -> nat
    decreases cs,
{
    if cs.len() == 0 {
        0
    } else if cmd_height(cs[0]) >= cmds_height_of(cs.drop_first()) {
        cmd_height(cs[0])
    } else {
        cmds_height_of(cs.drop_first())
    }
}

pub proof fn lemma_cmds_height_elem(cs: Seq<CmdV>, i: int)
    requires
        0 <= i < cs.len(),
    ensures
        cmd_height(cs[i]) <= cmds_height_of(cs),
    decreases cs.len(),
{
    if i > 0 {
        lemma_cmds_height_elem(cs.drop_first(), i - 1);
        assert(cs.drop_first()[i - 1] == cs[i]);
    }
}

/// Lists whose elements have pairwise equal heights have equal heights.
proof fn lemma_cmds_height_pointwise(a: Seq<CmdV>, b: Seq<CmdV>)
    requires
        a.len() == b.len(),
        forall|i: int| 0 <= i < a.len() ==> cmd_height(#[trigger] a[i]) == cmd_height(b[i]),
    ensures
        cmds_height_of(a) == cmds_height_of(b),
    decreases a.len(),
{
    if a.len() > 0 {
        assert forall|i: int| 0 <= i < a.drop_first().len() implies cmd_height(
            #[trigger] a.drop_first()[i],
        ) == cmd_height(b.drop_first()[i]) by {
            assert(a.drop_first()[i] == a[i + 1]);
            assert(b.drop_first()[i] == b[i + 1]);
        }
        lemma_cmds_height_pointwise(a.drop_first(), b.drop_first());
        assert(cmd_height(a[0]) == cmd_height(b[0]));
    }
}

/// Imposing flags keeps every command's height: only flag lists grow.
pub proof fn lemma_impose_keeps_height(
    flags: Seq<FlagV>,
    k: int,
    cs: Seq<CmdV>,
    nm: Seq<Seq<char>>,
)
    ensures
        spec_impose_flags(flags, k, cs, nm).len() == cs.len(),
        forall|i: int|
            0 <= i < cs.len() ==> cmd_height(#[trigger] spec_impose_flags(flags, k, cs, nm)[i])
                == cmd_height(cs[i]),
        cmds_height_of(spec_impose_flags(flags, k, cs, nm)) == cmds_height_of(cs),
    decreases flags.len() - k,
{
    if k < 0 || k >= flags.len() {
        lemma_cmds_height_pointwise(spec_impose_flags(flags, k, cs, nm), cs);
    } else {
        let cs1 = if flags[k].global is Itself {
            spec_impose_flag_on_cmds(flags[k], cs, nm)
        } else {
            cs
        };
        assert forall|i: int| 0 <= i < cs.len() implies cmd_height(#[trigger] cs1[i])
            == cmd_height(cs[i]) by {
            assert(cs1[i].cmds == cs[i].cmds);
        }
        lemma_impose_keeps_height(flags, k + 1, cs1, nm);
        lemma_cmds_height_pointwise(cs1, cs);
    }
}

/// One propagation step on a command, carrying `inh`, the flags of every
/// enclosing scope: the `Itself` flags among `inh` and the command's own
/// flags are imposed on its direct children, tagged with this command's
/// namespace, and the children then propagate under the extended carry —
/// so a flag declared global at any scope reaches every descendant,
/// re-tagged at each hop to the immediate parent, always by injecting the
/// declaring flag itself, never an inherited copy.
pub open spec fn spec_propagate_cmd(c: CmdV, nm: Seq<Seq<char>>, inh: Seq<FlagV>) -> CmdV
    decreases cmd_height(c), 0int, 0int,
    via spec_propagate_cmd_dec
{
    let chnm = spec_join_seg(nm, c.name);
    let all = inh + c.flags;
    CmdV {
        cmds: spec_propagate_cmds(spec_impose_flags(all, 0, c.cmds, chnm), chnm, all),
        ..c
    }
}

#[via_fn]
proof fn spec_propagate_cmd_dec(c: CmdV, nm: Seq<Seq<char>>, inh: Seq<FlagV>) {
    let chnm = spec_join_seg(nm, c.name);
    lemma_impose_keeps_height(inh + c.flags, 0, c.cmds, chnm);
}

pub open spec fn spec_propagate_cmds(cs: Seq<CmdV>, nm: Seq<Seq<char>>, inh: Seq<FlagV>) -> Seq<
    CmdV,
>
    decreases cmds_height_of(cs), 1int, cs.len(),
    via spec_propagate_cmds_dec
{
    if cs.len() == 0 {
        Seq::empty()
    } else {
        seq![spec_propagate_cmd(cs[0], nm, inh)] + spec_propagate_cmds(cs.drop_first(), nm, inh)
    }
}

#[via_fn]
proof fn spec_propagate_cmds_dec(cs: Seq<CmdV>, nm: Seq<Seq<char>>, inh: Seq<FlagV>) {
    if cs.len() > 0 {
        lemma_cmds_height_elem(cs, 0);
        assert forall|i: int| 0 <= i < cs.drop_first().len() implies cmd_height(
            #[trigger] cs.drop_first()[i],
        ) <= cmds_height_of(cs) by {
            assert(cs.drop_first()[i] == cs[i + 1]);
            lemma_cmds_height_elem(cs, i + 1);
        }
        lemma_cmds_height_drop(cs);
    }
}

proof fn lemma_cmds_height_drop(cs: Seq<CmdV>)
    requires
        cs.len() > 0,
    ensures
        cmds_height_of(cs.drop_first()) <= cmds_height_of(cs),
{
}

pub proof fn lemma_propagate_cmds_len(cs: Seq<CmdV>, nm: Seq<Seq<char>>, inh: Seq<FlagV>)
    ensures
        spec_propagate_cmds(cs, nm, inh).len() == cs.len(),
    decreases cs.len(),
{
    if cs.len() > 0 {
        lemma_propagate_cmds_len(cs.drop_first(), nm, inh);
    }
}

pub broadcast proof fn lemma_propagate_cmds_index(
    cs: Seq<CmdV>,
    nm: Seq<Seq<char>>,
    inh: Seq<FlagV>,
    i: int,
)
    requires
        0 <= i < cs.len(),
    ensures
        spec_propagate_cmds(cs, nm, inh).len() == cs.len(),
        #[trigger] spec_propagate_cmds(cs, nm, inh)[i] == spec_propagate_cmd(cs[i], nm, inh),
    decreases cs.len(),
{
    lemma_propagate_cmds_len(cs, nm, inh);
    if i > 0 {
        lemma_propagate_cmds_index(cs.drop_first(), nm, inh, i - 1);
    }
}

/// Whether a flag with the same equality key as `f` is in the list.
#[verifier::loop_isolation(false)]
fn flag_in(flags: &Vec<Flag>, f: &Flag) -> (r: bool)
    ensures
        r == (exists|i: int|
            0 <= i < flags_v(flags@).len() && flag_eq_key(#[trigger] flags_v(flags@)[i], f.v())),
{
    let n: usize = flags.len();
    let mut i: usize = 0;
    while i < n
        invariant
            n == flags@.len(),
            0 <= i <= n,
            forall|j: int| 0 <= j < i ==> !flag_eq_key(#[trigger] flags_v(flags@)[j], f.v()),
        decreases n - i,
    {
        if flags[i].eq(f) {
            proof {
                assert(flags_v(flags@)[i as int] == flags@[i as int].v());
            }
            return true;
        }
        proof {
            assert(flags_v(flags@)[i as int] == flags@[i as int].v());
        }
        i = i + 1;
    }
    false
}

impl UsageSpec {
    /// Imposes one flag on one command, mirroring [`spec_add_gflag`].
    pub fn add_global_flag_to_cmd(flag: &Flag, cmd: &mut Cmd, nm: NameSpace)
        ensures
            final(cmd).v() == spec_add_gflag(flag.v(), old(cmd).v(), nm.segs()),
    {
        if flag.is_global_itself() {
            let f2 = flag.clone();
            if !flag_in(&cmd.flags, &f2) {
                let mut f3 = f2;
                f3.global = GlobalFlag::Imposed(nm);
                let ghost before = flags_v(cmd.flags@);
                let ghost f3v = f3.v();
                cmd.flags.push(f3);
                proof {
                    assert(flags_v(cmd.flags@) =~= before.push(f3v));
                    assert(f3v == (FlagV {
                        global: GlobalFlagV::Imposed(nm.segs()),
                        ..flag.v()
                    }));
                }
            }
        }
    }

    /// Depth-first propagation of the global flags declared within the
    /// given forest, mirroring [`spec_propagate_cmds`] with nothing carried
    /// in from enclosing scopes.
    #[verifier::loop_isolation(false)]
    pub fn add_global_flags_to_all_subcmds(cmds: &mut Vec<Cmd>, nm: NameSpace)
        ensures
            cmds_v(final(cmds)@) == spec_propagate_cmds(
                cmds_v(old(cmds)@),
                nm.segs(),
                Seq::empty(),
            ),
    {
        let inh: Vec<Flag> = Vec::new();
        proof {
            assert(flags_v(inh@) =~= Seq::<FlagV>::empty());
        }
        let n: usize = cmds.len();
        let ghost orig = cmds@;
        let mut i: usize = 0;
        while i < n
            invariant
                n == orig.len(),
                cmds@.len() == n,
                0 <= i <= n,
                forall|j: int|
                    i <= j < n ==> #[trigger] cmds@[j] == orig[j],
                forall|j: int|
                    0 <= j < i ==> #[trigger] cmds@[j].v() == spec_propagate_cmd(
                        orig[j].v(),
                        nm.segs(),
                        Seq::empty(),
                    ),
            decreases n - i,
        {
            proof {
                crate::usage::lemma_cmds_v_index(orig, i as int);
                lemma_cmds_height_elem(cmds_v(orig), i as int);
            }
            let c = cmds.remove(i);
            let c2 = propagate_cmd(c, &nm, &inh);
            cmds.insert(i, c2);
            i = i + 1;
        }
        proof {
            lemma_propagate_pointwise(cmds@, orig, nm.segs(), Seq::empty());
        }
    }
}

proof fn lemma_propagate_pointwise(
    now: Seq<Cmd>,
    orig: Seq<Cmd>,
    nm: Seq<Seq<char>>,
    inh: Seq<FlagV>,
)
    requires
        now.len() == orig.len(),
        forall|j: int|
            0 <= j < orig.len() ==> #[trigger] now[j].v() == spec_propagate_cmd(
                orig[j].v(),
                nm,
                inh,
            ),
    ensures
        cmds_v(now) == spec_propagate_cmds(cmds_v(orig), nm, inh),
    decreases orig.len(),
{
    crate::usage::lemma_cmds_v_len(now);
    crate::usage::lemma_cmds_v_len(orig);
    lemma_propagate_cmds_len(cmds_v(orig), nm, inh);
    assert forall|j: int| 0 <= j < orig.len() implies #[trigger] cmds_v(now)[j]
        == spec_propagate_cmds(cmds_v(orig), nm, inh)[j] by {
        crate::usage::lemma_cmds_v_index(now, j);
        crate::usage::lemma_cmds_v_index(orig, j);
        lemma_propagate_cmds_index(cmds_v(orig), nm, inh, j);
    }
    assert(cmds_v(now) =~= spec_propagate_cmds(cmds_v(orig), nm, inh));
}

/// Propagation on one command, carrying the enclosing scopes' flags:
/// impose the declared global flags among the carry and this command's own
/// flags on its direct children, then propagate the children under the
/// extended carry.
#[verifier::loop_isolation(false)]
fn propagate_cmd(c: Cmd, nm: &NameSpace, inh: &Vec<Flag>) -> (r: Cmd)
    ensures
        r.v() == spec_propagate_cmd(c.v(), nm.segs(), flags_v(inh@)),
    decreases cmd_height(c.v()), 0int, 0int,
{
    let ghost c0 = c;
    let chnm = nm.clone().join(c.name.as_str());
    proof {
        assert(chnm.segs() == spec_join_seg(nm.segs(), c0.v().name));
    }
    let Cmd { name, help, hide, args, flags, aliases, cmds } = c;
    let mut allf = clone_flags(inh);
    let mut own = clone_flags(&flags);
    allf.append(&mut own);
    proof {
        assert(flags_v(allf@) =~= flags_v(inh@) + flags_v(flags@));
    }
    let ghost allv = flags_v(allf@);
    let mut cur = cmds;
    let ghost base = cmds_v(cur@);
    proof {
        assert(base == c0.v().cmds);
    }
    let nf: usize = allf.len();
    let mut k: usize = 0;
    while k < nf
        invariant
            nf == allf@.len(),
            0 <= k <= nf,
            flags_v(allf@) == allv,
            spec_impose_flags(allv, k as int, cmds_v(cur@), chnm.segs())
                == spec_impose_flags(allv, 0, base, chnm.segs()),
        decreases nf - k,
    {
        proof {
            assert(allv[k as int] == allf@[k as int].v());
        }
        if allf[k].is_global_itself() {
            let fclone = allf[k].clone();
            impose_flag_on_all(&fclone, &mut cur, &chnm);
            proof {
                assert(fclone.v() == allv[k as int]);
            }
        }
        k = k + 1;
    }
    proof {
        lemma_impose_keeps_height(allv, 0, base, chnm.segs());
        assert(cmds_height_of(cmds_v(cur@)) == cmds_height_of(c0.v().cmds));
        assert(cmd_height(c0.v()) == 1 + cmds_height_of(c0.v().cmds));
    }
    let cur2 = propagate_cmds_owned(cur, &chnm, &allf);
    let r = Cmd { name, help, hide, args, flags, aliases, cmds: cur2 };
    proof {
        assert(allv == flags_v(inh@) + c0.v().flags);
        assert(r.v() == (CmdV {
            cmds: spec_propagate_cmds(spec_impose_flags(allv, 0, c0.v().cmds, chnm.segs()), chnm.segs(), allv),
            ..c0.v()
        }));
    }
    r
}

/// Imposes one flag on every command of the vector, mirroring
/// [`spec_impose_flag_on_cmds`].
#[verifier::loop_isolation(false)]
fn impose_flag_on_all(f: &Flag, cmds: &mut Vec<Cmd>, nm: &NameSpace)
    ensures
        cmds_v(final(cmds)@) == spec_impose_flag_on_cmds(f.v(), cmds_v(old(cmds)@), nm.segs()),
{
    let n: usize = cmds.len();
    let ghost orig = cmds@;
    let mut i: usize = 0;
    while i < n
        invariant
            n == orig.len(),
            cmds@.len() == n,
            0 <= i <= n,
            forall|j: int| i <= j < n ==> #[trigger] cmds@[j] == orig[j],
            forall|j: int|
                0 <= j < i ==> #[trigger] cmds@[j].v() == spec_add_gflag(
                    f.v(),
                    orig[j].v(),
                    nm.segs(),
                ),
        decreases n - i,
    {
        let mut c = cmds.remove(i);
        UsageSpec::add_global_flag_to_cmd(f, &mut c, nm.clone());
        cmds.insert(i, c);
        i = i + 1;
    }
    proof {
        crate::usage::lemma_cmds_v_len(cmds@);
        crate::usage::lemma_cmds_v_len(orig);
        assert forall|j: int| 0 <= j < orig.len() implies #[trigger] cmds_v(cmds@)[j]
            == spec_impose_flag_on_cmds(f.v(), cmds_v(orig), nm.segs())[j] by {
            crate::usage::lemma_cmds_v_index(cmds@, j);
            crate::usage::lemma_cmds_v_index(orig, j);
        }
        assert(cmds_v(cmds@) =~= spec_impose_flag_on_cmds(f.v(), cmds_v(orig), nm.segs()));
    }
}

/// Propagation over an owned vector under one carried flag set, mirroring
/// [`spec_propagate_cmds`].
#[verifier::loop_isolation(false)]
fn propagate_cmds_owned(cmds: Vec<Cmd>, nm: &NameSpace, inh: &Vec<Flag>) -> (r: Vec<Cmd>)
    ensures
        cmds_v(r@) == spec_propagate_cmds(cmds_v(cmds@), nm.segs(), flags_v(inh@)),
    decreases cmds_height_of(cmds_v(cmds@)), 1int, 0int,
{
    let ghost orig = cmds@;
    let mut rest = cmds;
    let mut out: Vec<Cmd> = Vec::new();
    let n: usize = rest.len();
    let mut i: usize = 0;
    while i < n
        invariant
            n == orig.len(),
            rest@ =~= orig.skip(i as int),
            out@.len() == i,
            0 <= i <= n,
            forall|j: int|
                0 <= j < i ==> #[trigger] out@[j].v() == spec_propagate_cmd(
                    orig[j].v(),
                    nm.segs(),
                    flags_v(inh@),
                ),
        decreases n - i,
    {
        proof {
            assert(rest@[0] == orig[i as int]);
            crate::usage::lemma_cmds_v_index(orig, i as int);
            lemma_cmds_height_elem(cmds_v(orig), i as int);
        }
        let c = rest.remove(0);
        let c2 = propagate_cmd(c, nm, inh);
        out.push(c2);
        proof {
            assert(rest@ =~= orig.skip(i + 1));
        }
        i = i + 1;
    }
    proof {
        lemma_propagate_pointwise(out@, orig, nm.segs(), flags_v(inh@));
    }
    out
}

// ------------------------------------------------------------------------
// Merge
// ------------------------------------------------------------------------

/// The first index whose flag shares the equality key with `o`, or the
/// length when none does.
pub open spec fn spec_find_flag(cur: Seq<FlagV>, o: FlagV) -> int
    decreases cur.len(),
{
    if cur.len() == 0 {
        0
    } else if flag_eq_key(cur[0], o) {
        0
    } else {
        1 + spec_find_flag(cur.drop_first(), o)
    }
}

pub proof fn lemma_find_flag(cur: Seq<FlagV>, o: FlagV)
    ensures
        0 <= spec_find_flag(cur, o) <= cur.len(),
        forall|j: int| 0 <= j < spec_find_flag(cur, o) ==> !flag_eq_key(#[trigger] cur[j], o),
        spec_find_flag(cur, o) < cur.len() ==> flag_eq_key(cur[spec_find_flag(cur, o)], o),
    decreases cur.len(),
{
    if cur.len() == 0 || flag_eq_key(cur[0], o) {
    } else {
        lemma_find_flag(cur.drop_first(), o);
        assert forall|j: int| 0 <= j < spec_find_flag(cur, o) implies !flag_eq_key(
            #[trigger] cur[j],
            o,
        ) by {
            if j > 0 {
                assert(cur.drop_first()[j - 1] == cur[j]);
            }
        }
        if spec_find_flag(cur, o) < cur.len() {
            assert(cur.drop_first()[spec_find_flag(cur, o) - 1] == cur[spec_find_flag(cur, o)]);
        }
    }
}

/// Overriding by one flag: when a flag with the same key is present, it is
/// removed and the overriding one appended at the end; otherwise the
/// overriding flag is dropped.
pub open spec fn spec_override_flag(cur: Seq<FlagV>, o: FlagV) -> Seq<FlagV> {
    let i = spec_find_flag(cur, o);
    if i < cur.len() {
        cur.remove(i).push(o)
    } else {
        cur
    }
}

pub open spec fn spec_merge_flags(cur: Seq<FlagV>, os: Seq<FlagV>, k: int) -> Seq<FlagV>
    decreases os.len() - k,
{
    if k < 0 || k >= os.len() {
        cur
    } else {
        spec_merge_flags(spec_override_flag(cur, os[k]), os, k + 1)
    }
}

/// Same override rule for arguments, keyed by name alone.
pub open spec fn spec_find_arg(cur: Seq<ArgV>, o: ArgV) -> int
    decreases cur.len(),
{
    if cur.len() == 0 {
        0
    } else if cur[0].name == o.name {
        0
    } else {
        1 + spec_find_arg(cur.drop_first(), o)
    }
}

pub proof fn lemma_find_arg(cur: Seq<ArgV>, o: ArgV)
    ensures
        0 <= spec_find_arg(cur, o) <= cur.len(),
        forall|j: int| 0 <= j < spec_find_arg(cur, o) ==> (#[trigger] cur[j]).name != o.name,
        spec_find_arg(cur, o) < cur.len() ==> cur[spec_find_arg(cur, o)].name == o.name,
    decreases cur.len(),
{
    if cur.len() == 0 || cur[0].name == o.name {
    } else {
        lemma_find_arg(cur.drop_first(), o);
        assert forall|j: int| 0 <= j < spec_find_arg(cur, o) implies (#[trigger] cur[j]).name
            != o.name by {
            if j > 0 {
                assert(cur.drop_first()[j - 1] == cur[j]);
            }
        }
        if spec_find_arg(cur, o) < cur.len() {
            assert(cur.drop_first()[spec_find_arg(cur, o) - 1] == cur[spec_find_arg(cur, o)]);
        }
    }
}

pub open spec fn spec_override_arg(cur: Seq<ArgV>, o: ArgV) -> Seq<ArgV> {
    let i = spec_find_arg(cur, o);
    if i < cur.len() {
        cur.remove(i).push(o)
    } else {
        cur
    }
}

pub open spec fn spec_merge_args(cur: Seq<ArgV>, os: Seq<ArgV>, k: int) -> Seq<ArgV>
    decreases os.len() - k,
{
    if k < 0 || k >= os.len() {
        cur
    } else {
        spec_merge_args(spec_override_arg(cur, os[k]), os, k + 1)
    }
}

/// Same override rule for commands, keyed by name alone.
pub open spec fn spec_find_cmd(cur: Seq<CmdV>, o: CmdV) -> int
    decreases cur.len(),
{
    if cur.len() == 0 {
        0
    } else if cur[0].name == o.name {
        0
    } else {
        1 + spec_find_cmd(cur.drop_first(), o)
    }
}

pub proof fn lemma_find_cmd(cur: Seq<CmdV>, o: CmdV)
    ensures
        0 <= spec_find_cmd(cur, o) <= cur.len(),
        forall|j: int| 0 <= j < spec_find_cmd(cur, o) ==> (#[trigger] cur[j]).name != o.name,
        spec_find_cmd(cur, o) < cur.len() ==> cur[spec_find_cmd(cur, o)].name == o.name,
    decreases cur.len(),
{
    if cur.len() == 0 || cur[0].name == o.name {
    } else {
        lemma_find_cmd(cur.drop_first(), o);
        assert forall|j: int| 0 <= j < spec_find_cmd(cur, o) implies (#[trigger] cur[j]).name
            != o.name by {
            if j > 0 {
                assert(cur.drop_first()[j - 1] == cur[j]);
            }
        }
        if spec_find_cmd(cur, o) < cur.len() {
            assert(cur.drop_first()[spec_find_cmd(cur, o) - 1] == cur[spec_find_cmd(cur, o)]);
        }
    }
}

pub open spec fn spec_override_cmd(cur: Seq<CmdV>, o: CmdV) -> Seq<CmdV> {
    let i = spec_find_cmd(cur, o);
    if i < cur.len() {
        cur.remove(i).push(o)
    } else {
        cur
    }
}

pub open spec fn spec_merge_cmds(cur: Seq<CmdV>, os: Seq<CmdV>, k: int) -> Seq<CmdV>
    decreases os.len() - k,
{
    if k < 0 || k >= os.len() {
        cur
    } else {
        spec_merge_cmds(spec_override_cmd(cur, os[k]), os, k + 1)
    }
}

pub open spec fn spec_merge_completes(
    cur: Seq<(Seq<char>, CompleteV)>,
    os: Seq<(Seq<char>, CompleteV)>,
    k: int,
) -> Seq<(Seq<char>, CompleteV)>
    decreases os.len() - k,
{
    if k < 0 || k >= os.len() {
        cur
    } else {
        spec_merge_completes(spec_insert(cur, os[k].0, os[k].1), os, k + 1)
    }
}

/// The merged document: `other` is the override layer. Info values are
/// replaced only when the overriding value is non-empty; flags, args and
/// commands whose key matches an existing entry replace it and move to the
/// end; overriding entries without a match are dropped; completion bindings
/// are inserted key by key, replacing on conflict.
pub open spec fn spec_merge(a: UsageSpecV, b: UsageSpecV) -> UsageSpecV {
    UsageSpecV {
        info: InfoV {
            name: if b.info.name.len() > 0 {
                b.info.name
            } else {
                a.info.name
            },
            bin: if b.info.bin.len() > 0 {
                b.info.bin
            } else {
                a.info.bin
            },
        },
        flags: spec_merge_flags(a.flags, b.flags, 0),
        args: spec_merge_args(a.args, b.args, 0),
        cmds: spec_merge_cmds(a.cmds, b.cmds, 0),
        completes: spec_merge_completes(a.completes, b.completes, 0),
    }
}

/// The position of the first flag equal to `o`, if any.
#[verifier::loop_isolation(false)]
fn find_flag_pos(cur: &Vec<Flag>, o: &Flag) -> (r: Option<usize>)
    ensures
        match r {
            Some(i) => i as int == spec_find_flag(flags_v(cur@), o.v()) && i < cur@.len(),
            None => spec_find_flag(flags_v(cur@), o.v()) == cur@.len(),
        },
{
    let n: usize = cur.len();
    let mut i: usize = 0;
    while i < n
        invariant
            0 <= i <= n,
            forall|j: int| 0 <= j < i ==> !flag_eq_key(#[trigger] flags_v(cur@)[j], o.v()),
        decreases n - i,
    {
        proof {
            assert(flags_v(cur@)[i as int] == cur@[i as int].v());
        }
        if cur[i].eq(o) {
            proof {
                lemma_find_flag(flags_v(cur@), o.v());
                if spec_find_flag(flags_v(cur@), o.v()) < i as int {
                    assert(false);
                }
                if spec_find_flag(flags_v(cur@), o.v()) > i as int {
                    assert(false);
                }
            }
            return Some(i);
        }
        i = i + 1;
    }
    proof {
        lemma_find_flag(flags_v(cur@), o.v());
        if spec_find_flag(flags_v(cur@), o.v()) < n {
            assert(false);
        }
    }
    None
}

/// The position of the first argument named like `o`, if any.
#[verifier::loop_isolation(false)]
fn find_arg_pos(cur: &Vec<Arg>, o: &Arg) -> (r: Option<usize>)
    ensures
        match r {
            Some(i) => i as int == spec_find_arg(args_v(cur@), o.v()) && i < cur@.len(),
            None => spec_find_arg(args_v(cur@), o.v()) == cur@.len(),
        },
{
    let n: usize = cur.len();
    let mut i: usize = 0;
    while i < n
        invariant
            0 <= i <= n,
            forall|j: int| 0 <= j < i ==> (#[trigger] args_v(cur@)[j]).name != o.v().name,
        decreases n - i,
    {
        proof {
            assert(args_v(cur@)[i as int] == cur@[i as int].v());
        }
        if cur[i].eq(o) {
            proof {
                lemma_find_arg(args_v(cur@), o.v());
                if spec_find_arg(args_v(cur@), o.v()) < i as int {
                    assert(false);
                }
                if spec_find_arg(args_v(cur@), o.v()) > i as int {
                    assert(false);
                }
            }
            return Some(i);
        }
        i = i + 1;
    }
    proof {
        lemma_find_arg(args_v(cur@), o.v());
        if spec_find_arg(args_v(cur@), o.v()) < n {
            assert(false);
        }
    }
    None
}

/// The position of the first command named like `o`, if any.
#[verifier::loop_isolation(false)]
fn find_cmd_pos(cur: &Vec<Cmd>, o: &Cmd) -> (r: Option<usize>)
    ensures
        match r {
            Some(i) => i as int == spec_find_cmd(cmds_v(cur@), o.v()) && i < cur@.len(),
            None => spec_find_cmd(cmds_v(cur@), o.v()) == cur@.len(),
        },
{
    let n: usize = cur.len();
    proof {
        crate::usage::lemma_cmds_v_len(cur@);
    }
    let mut i: usize = 0;
    while i < n
        invariant
            0 <= i <= n,
            forall|j: int| 0 <= j < i ==> (#[trigger] cmds_v(cur@)[j]).name != o.v().name,
        decreases n - i,
    {
        proof {
            crate::usage::lemma_cmds_v_index(cur@, i as int);
        }
        if cur[i].eq(o) {
            proof {
                lemma_find_cmd(cmds_v(cur@), o.v());
                if spec_find_cmd(cmds_v(cur@), o.v()) < i as int {
                    assert(false);
                }
                if spec_find_cmd(cmds_v(cur@), o.v()) > i as int {
                    assert(false);
                }
            }
            return Some(i);
        }
        i = i + 1;
    }
    proof {
        lemma_find_cmd(cmds_v(cur@), o.v());
        if spec_find_cmd(cmds_v(cur@), o.v()) < n {
            assert(false);
        }
    }
    None
}

/// Applies the flag override layer, mirroring [`spec_merge_flags`].
#[verifier::loop_isolation(false)]
fn merge_flags_into(cur: &mut Vec<Flag>, os: &Vec<Flag>)
    ensures
        flags_v(final(cur)@) == spec_merge_flags(flags_v(old(cur)@), flags_v(os@), 0),
{
    let ghost osv = flags_v(os@);
    let n: usize = os.len();
    let mut k: usize = 0;
    while k < n
        invariant
            0 <= k <= n,
            spec_merge_flags(flags_v(cur@), osv, k as int) == spec_merge_flags(
                flags_v(old(cur)@),
                osv,
                0,
            ),
        decreases n - k,
    {
        proof {
            assert(osv[k as int] == os@[k as int].v());
        }
        let of = os[k].clone();
        let ghost curv = flags_v(cur@);
        match find_flag_pos(cur, &of) {
            Some(pos) => {
                cur.remove(pos);
                let ghost ofv = of.v();
                cur.push(of);
                proof {
                    assert(flags_v(cur@) =~= curv.remove(pos as int).push(ofv));
                }
            }
            None => {}
        }
        k = k + 1;
    }
}

/// Applies the argument override layer, mirroring [`spec_merge_args`].
#[verifier::loop_isolation(false)]
fn merge_args_into(cur: &mut Vec<Arg>, os: &Vec<Arg>)
    ensures
        args_v(final(cur)@) == spec_merge_args(args_v(old(cur)@), args_v(os@), 0),
{
    let ghost osv = args_v(os@);
    let n: usize = os.len();
    let mut k: usize = 0;
    while k < n
        invariant
            0 <= k <= n,
            spec_merge_args(args_v(cur@), osv, k as int) == spec_merge_args(
                args_v(old(cur)@),
                osv,
                0,
            ),
        decreases n - k,
    {
        proof {
            assert(osv[k as int] == os@[k as int].v());
        }
        let of = os[k].clone();
        let ghost curv = args_v(cur@);
        match find_arg_pos(cur, &of) {
            Some(pos) => {
                cur.remove(pos);
                let ghost ofv = of.v();
                cur.push(of);
                proof {
                    assert(args_v(cur@) =~= curv.remove(pos as int).push(ofv));
                }
            }
            None => {}
        }
        k = k + 1;
    }
}

/// Applies the command override layer, mirroring [`spec_merge_cmds`].
#[verifier::loop_isolation(false)]
fn merge_cmds_into(cur: &mut Vec<Cmd>, os: &Vec<Cmd>)
    ensures
        cmds_v(final(cur)@) == spec_merge_cmds(cmds_v(old(cur)@), cmds_v(os@), 0),
{
    let ghost osv = cmds_v(os@);
    proof {
        crate::usage::lemma_cmds_v_len(os@);
    }
    let n: usize = os.len();
    let mut k: usize = 0;
    while k < n
        invariant
            0 <= k <= n,
            spec_merge_cmds(cmds_v(cur@), osv, k as int) == spec_merge_cmds(
                cmds_v(old(cur)@),
                osv,
                0,
            ),
        decreases n - k,
    {
        proof {
            crate::usage::lemma_cmds_v_index(os@, k as int);
        }
        let ghost kold = k as int;
        let of = os[k].clone();
        let ghost curv = cmds_v(cur@);
        let ghost cur_exec = cur@;
        match find_cmd_pos(cur, &of) {
            Some(pos) => {
                cur.remove(pos);
                let ghost ofv = of.v();
                cur.push(of);
                proof {
                    crate::usage::lemma_cmds_v_len(cur_exec);
                    crate::usage::lemma_cmds_v_len(cur@);
                    assert forall|j: int| 0 <= j < cur@.len() implies #[trigger] cmds_v(cur@)[j]
                        == curv.remove(pos as int).push(ofv)[j] by {
                        crate::usage::lemma_cmds_v_index(cur@, j);
                        if j < cur@.len() - 1 {
                            if j < pos {
                                crate::usage::lemma_cmds_v_index(cur_exec, j);
                            } else {
                                crate::usage::lemma_cmds_v_index(cur_exec, j + 1);
                            }
                        }
                    }
                    assert(cmds_v(cur@) =~= curv.remove(pos as int).push(ofv));
                    assert(cmds_v(cur@) == spec_override_cmd(curv, osv[kold]));
                }
            }
            None => {
                proof {
                    crate::usage::lemma_cmds_v_len(cur@);
                    assert(cmds_v(cur@) == spec_override_cmd(curv, osv[kold]));
                }
            }
        }
        proof {
            assert(spec_merge_cmds(curv, osv, kold) == spec_merge_cmds(
                spec_override_cmd(curv, osv[kold]),
                osv,
                kold + 1,
            ));
        }
        k = k + 1;
    }
}

/// Applies the completion override layer, mirroring
/// [`spec_merge_completes`].
#[verifier::loop_isolation(false)]
fn merge_completes_into(cur: &mut CompleteMap, os: &CompleteMap)
    ensures
        final(cur).v() == spec_merge_completes(old(cur).v(), os.v(), 0),
{
    let ghost osv = os.v();
    let n: usize = os.entries.len();
    let mut k: usize = 0;
    while k < n
        invariant
            0 <= k <= n,
            spec_merge_completes(cur.v(), osv, k as int) == spec_merge_completes(
                old(cur).v(),
                osv,
                0,
            ),
        decreases n - k,
    {
        let e = &os.entries[k];
        proof {
            assert(osv[k as int] == (e.key@, e.value.v()));
        }
        cur.insert(e.key.clone(), e.value.clone());
        k = k + 1;
    }
}

impl UsageSpec {
    /// Merges `other` into `self` as the override layer; see [`spec_merge`].
    pub fn merge(self, other: Self) -> (r: Self)
        ensures
            r.v() == spec_merge(self.v(), other.v()),
    {
        let mut this = self;
        let UsageSpec { info, flags, args, cmds, completes } = other;
        if info.name.as_str().unicode_len() > 0 {
            this.info.name = info.name;
        }
        if info.bin.as_str().unicode_len() > 0 {
            this.info.bin = info.bin;
        }
        merge_flags_into(&mut this.flags, &flags);
        merge_args_into(&mut this.args, &args);
        merge_cmds_into(&mut this.cmds, &cmds);
        merge_completes_into(&mut this.completes, &completes);
        this
    }

    /// Inserts the built-in `file` and `dir` completion bindings.
    pub fn add_default_completes(completes: &mut CompleteMap)
        ensures
            final(completes).v() == spec_insert(
                spec_insert(
                    old(completes).v(),
                    "file"@,
                    (CompleteV { name: "file"@, kind: CompleteKindV::File, descs: false }),
                ),
                "dir"@,
                (CompleteV { name: "file"@, kind: CompleteKindV::Dir, descs: false }),
            ),
    {
        completes.insert(String::from_str("file"), Complete::file_complete());
        completes.insert(String::from_str("dir"), Complete::dir_complete());
    }
}

// ------------------------------------------------------------------------
// Top-level document assembly
// ------------------------------------------------------------------------

/// The state accumulated while walking the top-level declaration nodes.
pub struct ParseStateV {
    pub info: InfoV,
    pub flags: Seq<FlagV>,
    pub args: Seq<ArgV>,
    pub cmds: Seq<CmdV>,
    pub completes: Seq<(Seq<char>, CompleteV)>,
    pub inc: Option<Seq<char>>,
}

pub open spec fn parse_state_init() -> ParseStateV {
    ParseStateV {
        info: info_v_default(),
        flags: Seq::empty(),
        args: Seq::empty(),
        cmds: Seq::empty(),
        completes: Seq::empty(),
        inc: None,
    }
}

/// One top-level node: `name`, `bin` and `inc` update the identity and
/// the pending inc path; then the node's declaration, if any, is added,
/// skipping hidden flags, args and commands; a completion is keyed by its
/// lower-cased name, last writer winning.
pub open spec fn spec_parse_step(st: ParseStateV, n: NodeV) -> Result<ParseStateV, UErrorV> {
    let st1r = if n.name == "name"@ {
        match spec_parse_name(n) {
            Ok(s) => Ok(ParseStateV { info: InfoV { name: s, ..st.info }, ..st }),
            Err(e) => Err(e),
        }
    } else if n.name == "bin"@ {
        match spec_parse_bin(n) {
            Ok(s) => Ok(ParseStateV { info: InfoV { bin: s, ..st.info }, ..st }),
            Err(e) => Err(e),
        }
    } else if n.name == "include"@ {
        match spec_parse_include(n) {
            Ok(s) => Ok(ParseStateV { inc: Some(s), ..st }),
            Err(e) => Err(e),
        }
    } else {
        Ok(st)
    };
    match st1r {
        Err(e) => Err(e),
        Ok(st1) => match spec_parse_usage(n) {
            Err(e) => Err(e),
            Ok(None) => Ok(st1),
            Ok(Some(u)) => Ok(
                match u {
                    UsageV::Flag(f) => if !f.hide {
                        ParseStateV { flags: st1.flags.push(f), ..st1 }
                    } else {
                        st1
                    },
                    UsageV::Arg(a) => if !a.hide {
                        ParseStateV { args: st1.args.push(a), ..st1 }
                    } else {
                        st1
                    },
                    UsageV::Cmd(c) => if !c.hide {
                        ParseStateV { cmds: st1.cmds.push(c), ..st1 }
                    } else {
                        st1
                    },
                    UsageV::Complete(c) => ParseStateV {
                        completes: spec_insert(st1.completes, lower_of(c.name), c),
                        ..st1
                    },
                },
            ),
        },
    }
}

pub open spec fn spec_parse_nodes(ns: Seq<NodeV>, i: int, st: ParseStateV) -> Result<
    ParseStateV,
    UErrorV,
>
    decreases ns.len() - i,
{
    if i < 0 || i >= ns.len() {
        Ok(st)
    } else {
        match spec_parse_step(st, ns[i]) {
            Ok(st1) => spec_parse_nodes(ns, i + 1, st1),
            Err(e) => Err(e),
        }
    }
}

/// The parsed document after global-flag propagation, together with the
/// inc path of the last `inc` declaration, if any. The caller loads
/// and parses that document and merges this one over it as the override
/// layer.
pub open spec fn spec_parse_doc(ns: Seq<NodeV>) -> Result<
    (UsageSpecV, Option<Seq<char>>),
    UErrorV,
> {
    match spec_parse_nodes(ns, 0, parse_state_init()) {
        Err(e) => Err(e),
        Ok(st) => Ok(
            (
                UsageSpecV {
                    info: st.info,
                    flags: st.flags,
                    args: st.args,
                    cmds: spec_propagate_cmds(
                        spec_impose_flags(st.flags, 0, st.cmds, Seq::empty()),
                        Seq::empty(),
                        st.flags,
                    ),
                    completes: st.completes,
                },
                st.inc,
            ),
        ),
    }
}

/// How an executable parse result matches the model-level one.
pub open spec fn parse_result_matches(
    r: Result<(UsageSpec, Option<String>), UError>,
    ns: Seq<NodeV>,
) -> bool {
    match r {
        Ok(p) => spec_parse_doc(ns) == Ok::<(UsageSpecV, Option<Seq<char>>), UErrorV>(
            (
                p.0.v(),
                match p.1 {
                    Some(s) => Some(s@),
                    None => None,
                },
            ),
        ),
        Err(e) => spec_parse_doc(ns) == Err::<(UsageSpecV, Option<Seq<char>>), UErrorV>(e.v()),
    }
}

/// The model state carried by the executable accumulator variables.
pub open spec fn st_of(
    info: Info,
    flags: Seq<Flag>,
    args: Seq<Arg>,
    cmds: Seq<Cmd>,
    completes: CompleteMap,
    inc: Option<String>,
) -> ParseStateV {
    ParseStateV {
        info: info.v(),
        flags: flags_v(flags),
        args: args_v(args),
        cmds: cmds_v(cmds),
        completes: completes.v(),
        inc: match inc {
            Some(s) => Some(s@),
            None => None,
        },
    }
}

impl UsageSpec {
    /// Parses the top-level declaration nodes of one document into a
    /// resolved model, mirroring [`spec_parse_doc`]; the returned path, if
    /// any, is the inc the caller still has to load and merge under
    /// this document.
    #[verifier::loop_isolation(false)]
    pub fn parse(nodes: &Vec<Node>) -> (r: Result<(UsageSpec, Option<String>), UError>)
        ensures
            parse_result_matches(r, crate::node::nodes_v_of(nodes@)),
    {
        let ghost nsv = crate::node::nodes_v_of(nodes@);
        let ghost fold_all = spec_parse_nodes(nsv, 0, parse_state_init());
        let mut info = Info::default();
        let mut flags: Vec<Flag> = Vec::new();
        let mut args: Vec<Arg> = Vec::new();
        let mut cmds: Vec<Cmd> = Vec::new();
        let mut completes = CompleteMap::new();
        let mut inc: Option<String> = None;
        proof {
            crate::node::lemma_nodes_v_of_len(nodes@);
            assert(flags_v(flags@) =~= Seq::<FlagV>::empty());
            assert(args_v(args@) =~= Seq::<ArgV>::empty());
            assert(cmds_v(cmds@) =~= Seq::<CmdV>::empty());
            assert(st_of(info, flags@, args@, cmds@, completes, inc) == parse_state_init());
        }
        let n: usize = nodes.len();
        let mut i: usize = 0;
        while i < n
            invariant
                0 <= i <= n,
                spec_parse_nodes(nsv, i as int, st_of(info, flags@, args@, cmds@, completes, inc)) == fold_all,
            decreases n - i,
        {
            proof {
                crate::node::lemma_nodes_v_of_index(nodes@, i as int);
            }
            let ghost st0 = st_of(info, flags@, args@, cmds@, completes, inc);
            let node = &nodes[i];
            if str_eq(node.name.as_str(), "name") {
                match parse_name(node) {
                    Ok(s) => {
                        info.name = s;
                    }
                    Err(e) => {
                        return Err(e);
                    }
                }
            } else if str_eq(node.name.as_str(), "bin") {
                match parse_bin(node) {
                    Ok(s) => {
                        info.bin = s;
                    }
                    Err(e) => {
                        return Err(e);
                    }
                }
            } else if str_eq(node.name.as_str(), "include") {
                match parse_include(node) {
                    Ok(s) => {
                        inc = Some(s);
                    }
                    Err(e) => {
                        return Err(e);
                    }
                }
            }
            let ghost st1 = st_of(info, flags@, args@, cmds@, completes, inc);
            match parse_usage(node) {
                Err(e) => {
                    return Err(e);
                }
                Ok(None) => {}
                Ok(Some(u)) => {
                    match u {
                        Usage::Flag(f) => {
                            if !f.hide {
                                let ghost before = flags_v(flags@);
                                let ghost fv = f.v();
                                flags.push(f);
                                proof {
                                    assert(flags_v(flags@) =~= before.push(fv));
                                }
                            }
                        }
                        Usage::Arg(a) => {
                            if !a.hide {
                                let ghost before = args_v(args@);
                                let ghost av = a.v();
                                args.push(a);
                                proof {
                                    assert(args_v(args@) =~= before.push(av));
                                }
                            }
                        }
                        Usage::Cmd(c) => {
                            if !c.hide {
                                let ghost before = cmds@;
                                let ghost cg = c;
                                cmds.push(c);
                                proof {
                                    lemma_cmds_v_push(before, cg);
                                }
                            }
                        }
                        Usage::Complete(c) => {
                            let key = c.name.as_str().to_lowercase();
                            completes.insert(key, c);
                        }
                    }
                }
            }
            i = i + 1;
        }
        let ghost stdone = match fold_all {
            Ok(st) => st,
            Err(_) => parse_state_init(),
        };
        proof {
            assert(st_of(info, flags@, args@, cmds@, completes, inc) == stdone);
        }
        let ghost base = cmds_v(cmds@);
        let nf: usize = flags.len();
        let mut k: usize = 0;
        while k < nf
            invariant
                0 <= k <= nf,
                nf == flags@.len(),
                spec_impose_flags(flags_v(flags@), k as int, cmds_v(cmds@), Seq::empty()) == spec_impose_flags(flags_v(flags@), 0, base, Seq::empty()),
            decreases nf - k,
        {
            proof {
                assert(flags_v(flags@)[k as int] == flags@[k as int].v());
            }
            if flags[k].is_global_itself() {
                let fclone = flags[k].clone();
                let rt = NameSpace::root();
                proof {
                    assert(rt.segs() =~= Seq::<Seq<char>>::empty());
                }
                impose_flag_on_all(&fclone, &mut cmds, &rt);
            }
            k = k + 1;
        }
        let root = NameSpace::root();
        proof {
            assert(root.segs() =~= Seq::<Seq<char>>::empty());
        }
        let ghost mid = cmds@;
        let n2: usize = cmds.len();
        let mut i2: usize = 0;
        while i2 < n2
            invariant
                n2 == mid.len(),
                cmds@.len() == n2,
                0 <= i2 <= n2,
                forall|j: int| i2 <= j < n2 ==> #[trigger] cmds@[j] == mid[j],
                forall|j: int|
                    0 <= j < i2 ==> #[trigger] cmds@[j].v() == spec_propagate_cmd(
                        mid[j].v(),
                        Seq::empty(),
                        flags_v(flags@),
                    ),
            decreases n2 - i2,
        {
            let c = cmds.remove(i2);
            let c2 = propagate_cmd(c, &root, &flags);
            cmds.insert(i2, c2);
            i2 = i2 + 1;
        }
        proof {
            lemma_propagate_pointwise(cmds@, mid, Seq::empty(), flags_v(flags@));
        }
        let spec = UsageSpec { info, flags, args, cmds, completes };
        Ok((spec, inc))
    }
}

} // verus!
