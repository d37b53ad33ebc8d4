//! The library's cross-cutting guarantees, stated and proved over the same
//! spec functions the executable contracts are pinned to: canonical flag
//! naming, bracket-derived argument fields, default variadic bounds,
//! override-biased merging, idempotent global-flag propagation, and
//! deterministic generation over a duplicate-free memo table.

use vstd::prelude::*;

verus! {

use crate::generator::FmSeq;
use crate::generator::spec_generate;
use crate::node::EntryV;
use crate::node::NodeV;
use crate::node::ValueV;
use crate::parse::spec_arg_children;
use crate::parse::spec_arg_defaults;
use crate::parse::spec_arg_props;
use crate::parse::spec_arg_first;
use crate::parse::spec_arg_prop;
use crate::parse::spec_flag_first;
use crate::parse::spec_flag_props;
use crate::parse::spec_flag_children;
use crate::parse::spec_parse_flag;
use crate::usage::flag_v_default;
use crate::generator::spec_add_arg;
use crate::generator::spec_add_arg_start;
use crate::generator::spec_add_arg_close;
use crate::generator::spec_bridge_function;
use crate::namespace::spec_arg_complete_func_name;
use crate::generator::fm_insert;
use crate::generator::fm_lookup;
use crate::parse::spec_parse_arg;
use crate::resolve::spec_find_flag;
use crate::resolve::spec_merge_flags;
use crate::resolve::spec_override_flag;
use crate::strutil::byte_len;
use crate::strutil::lemma_best_range;
use crate::strutil::lemma_find_bounds;
use crate::strutil::spec_best;
use crate::strutil::spec_find;
use crate::strutil::spec_flag_slug;
use crate::strutil::spec_longest_idx;
use crate::strutil::spec_split_ws;
use crate::strutil::spec_trim_dashes;
use crate::usage::ArgV;
use crate::usage::FlagV;
use crate::usage::UErrorV;
use crate::usage::UsageSpecV;
use crate::usage::arg_v_default;
use crate::usage::flag_eq_key;
use crate::usage::CmdV;
use crate::usage::GlobalFlagV;
use crate::usage::contains_view;
use crate::resolve::spec_add_gflag;
use crate::resolve::spec_impose_flag_on_cmds;
use crate::resolve::spec_impose_flags;
use crate::resolve::spec_propagate_cmd;
use crate::resolve::spec_propagate_cmds;

/// The best candidate over a prefix is a first occurrence of the maximal
/// length seen so far.
proof fn lemma_best_props(ws: Seq<Seq<char>>, i: int)
    requires
        1 <= i <= ws.len(),
    ensures
        0 <= spec_best(ws, i).0 < i,
        byte_len(ws[spec_best(ws, i).0]) == spec_best(ws, i).1,
        forall|j: int| 0 <= j < i ==> byte_len(#[trigger] ws[j]) <= spec_best(ws, i).1,
        forall|j: int| 0 <= j < spec_best(ws, i).0 ==> byte_len(#[trigger] ws[j]) < spec_best(
            ws,
            i,
        ).1,
    decreases i,
{
    lemma_best_range(ws, i);
    if i == 1 {
        assert(spec_best(ws, 0).1 == 0);
    } else {
        lemma_best_props(ws, i - 1);
    }
}

/// For all flags parsed from a spelling list with at least one word, the
/// spelling list is non-empty and the canonical name is the slugified,
/// dash-trimmed form of the longest spelling (by encoded byte length), ties
/// broken by first occurrence. A node whose first positional value holds no
/// word (for example only whitespace) is the one exception: its spelling
/// list stays empty.
pub proof fn lemma_flag_canonical_name(f: FlagV, s: Seq<char>)
    requires
        spec_split_ws(s).len() > 0,
    ensures
        spec_flag_first(f, s).names.len() > 0,
        spec_flag_first(f, s).names == spec_split_ws(s),
        ({
            let words = spec_split_ws(s);
            let li = spec_longest_idx(words);
            &&& 0 <= li < words.len()
            &&& spec_flag_first(f, s).name == spec_flag_slug(spec_trim_dashes(words[li]))
            &&& forall|j: int|
                0 <= j < words.len() ==> byte_len(#[trigger] words[j]) <= byte_len(words[li])
            &&& forall|j: int| 0 <= j < li ==> byte_len(#[trigger] words[j]) < byte_len(words[li])
        }),
{
    let words = spec_split_ws(s);
    lemma_best_props(words, words.len() as int);
}

/// The index of the first occurrence of a character, when one exists at a
/// known position with none before it.
proof fn lemma_find_exact(s: Seq<char>, c: char, m: int)
    requires
        0 <= m <= s.len(),
        forall|k: int| 0 <= k < m ==> s[k] != c,
        m == s.len() || s[m] == c,
    ensures
        spec_find(s, c) == m,
{
    lemma_find_bounds(s, c);
    if spec_find(s, c) < m {
        assert(s[spec_find(s, c)] == c);
        assert(false);
    }
    if spec_find(s, c) > m {
        if m < s.len() {
            assert(s[m] != c);
            assert(false);
        }
    }
}

/// For all args, a first positional value of the form `<x>` makes the
/// argument required with name `x`, and `[x]` optional with name `x`; the
/// raw text is kept verbatim as the representation.
pub proof fn lemma_arg_bracket_form(a: ArgV, x: Seq<char>)
    requires
        !x.contains('>'),
        !x.contains(']'),
    ensures
        ({
            let s = seq!['<'] + x + seq!['>'];
            let r = spec_arg_first(a, s);
            r.required && r.name == x && r.repr == s
        }),
        ({
            let s = seq!['['] + x + seq![']'];
            let r = spec_arg_first(a, s);
            !r.required && r.name == x && r.repr == s
        }),
{
    let s1 = seq!['<'] + x + seq!['>'];
    assert forall|k: int| 0 <= k < s1.len() - 1 implies s1[k] != '>' by {
        if k > 0 {
            assert(s1[k] == x[k - 1]);
            assert(!x.contains('>'));
            if s1[k] == '>' {
                assert(x.contains(x[k - 1]));
            }
        }
    }
    assert(s1[s1.len() - 1] == '>');
    lemma_find_exact(s1, '>', s1.len() - 1);
    assert(spec_arg_first(a, s1).name =~= x);

    let s2 = seq!['['] + x + seq![']'];
    assert forall|k: int| 0 <= k < s2.len() - 1 implies s2[k] != ']' by {
        if k > 0 {
            assert(s2[k] == x[k - 1]);
            if s2[k] == ']' {
                assert(x.contains(x[k - 1]));
            }
        }
    }
    assert(s2[s2.len() - 1] == ']');
    lemma_find_exact(s2, ']', s2.len() - 1);
    assert(s2[0] != '<');
    assert(spec_arg_first(a, s2).name =~= x);
}

/// Walking properties never sets a bound unless the property is `var_max`
/// or `var_min`.
proof fn lemma_arg_props_keep_bounds(es: Seq<EntryV>, i: int, acc: ArgV)
    requires
        forall|k: int|
            0 <= k < es.len() ==> (#[trigger] es[k]).name != Some("var_max"@) && es[k].name
                != Some("var_min"@),
        acc.min is None,
        acc.max is None,
    ensures
        spec_arg_props(es, i, acc).min is None,
        spec_arg_props(es, i, acc).max is None,
    decreases es.len() - i,
{
    if i < 0 || i >= es.len() {
    } else {
        let acc1 = spec_arg_prop(acc, es[i]);
        assert(acc1.min is None && acc1.max is None);
        lemma_arg_props_keep_bounds(es, i + 1, acc1);
    }
}

/// The choices children never touch the bounds.
proof fn lemma_arg_children_keep_bounds(cs: Seq<NodeV>, j: int, acc: ArgV)
    requires
        acc.min == Some(0int),
        acc.max == Some(-1int),
    ensures
        match spec_arg_children(cs, j, acc) {
            Ok(a) => a.min == Some(0int) && a.max == Some(-1int),
            Err(_) => true,
        },
    decreases cs.len() - j,
{
    if j < 0 || j >= cs.len() {
    } else {
        let c = cs[j];
        if c.name == "choices"@ {
            match crate::parse::spec_choices_entries(c.entries, 0, Seq::empty(), c.name) {
                Ok(ch) => {
                    lemma_arg_children_keep_bounds(cs, j + 1, ArgV { choices: ch, ..acc });
                }
                Err(_) => {}
            }
        } else {
            lemma_arg_children_keep_bounds(cs, j + 1, acc);
        }
    }
}

/// For all args without explicit `var_max`/`var_min` properties, the parsed
/// bounds default to `max = -1` (unbounded) and `min = 0`.
pub proof fn lemma_arg_default_bounds(n: NodeV)
    requires
        forall|k: int|
            0 <= k < n.entries.len() ==> (#[trigger] n.entries[k]).name != Some("var_max"@)
                && n.entries[k].name != Some("var_min"@),
    ensures
        match spec_parse_arg(n) {
            Ok(a) => a.min == Some(0int) && a.max == Some(-1int),
            Err(_) => true,
        },
{
    if n.name != "arg"@ {
    } else {
        match crate::node::spec_first_arg(n.entries) {
            Some(ValueV::Str(str0)) => {
                let a0 = spec_arg_first(arg_v_default(), str0);
                lemma_arg_props_keep_bounds(n.entries, 0, a0);
                let ad = spec_arg_defaults(spec_arg_props(n.entries, 0, a0));
                assert(ad.min == Some(0int) && ad.max == Some(-1int));
                lemma_arg_children_keep_bounds(n.children, 0, ad);
            }
            _ => {}
        }
    }
}

/// Merge is override-biased: an overriding flag whose equality key matches
/// an existing base flag removes that base flag and appends the overriding
/// one behind every untouched base flag.
pub proof fn lemma_merge_override_biased(base: Seq<FlagV>, o: FlagV)
    requires
        spec_find_flag(base, o) < base.len(),
    ensures
        spec_merge_flags(base, seq![o], 0) == base.remove(spec_find_flag(base, o)).push(o),
        spec_merge_flags(base, seq![o], 0).len() == base.len(),
        spec_merge_flags(base, seq![o], 0).last() == o,
{
    let out = spec_override_flag(base, o);
    assert(spec_merge_flags(out, seq![o], 1) == out);
    crate::resolve::lemma_find_flag(base, o);
}

/// Code generation is deterministic and idempotent: two generation passes
/// over equal resolved models, bridge configurations, matcher lists and
/// memo tables produce byte-identical output and equal memo tables.
pub proof fn lemma_generate_deterministic(
    sp1: UsageSpecV,
    sp2: UsageSpecV,
    comp1: Option<(Seq<char>, Seq<char>)>,
    comp2: Option<(Seq<char>, Seq<char>)>,
    ams1: Seq<Seq<char>>,
    ams2: Seq<Seq<char>>,
    fm1: FmSeq,
    fm2: FmSeq,
)
    requires
        sp1 == sp2,
        comp1 == comp2,
        ams1 == ams2,
        fm1 == fm2,
    ensures
        spec_generate(sp1, comp1, ams1, fm1) == spec_generate(sp2, comp2, ams2, fm2),
{
}

/// The named-property fold never changes the canonical name and only
/// appends spellings (a non-empty negation), so earlier spellings survive
/// in place.
proof fn lemma_flag_props_keep(es: Seq<EntryV>, i: int, acc: FlagV)
    ensures
        spec_flag_props(es, i, acc).name == acc.name,
        spec_flag_props(es, i, acc).names.len() >= acc.names.len(),
        forall|j: int|
            0 <= j < acc.names.len() ==> #[trigger] spec_flag_props(es, i, acc).names[j]
                == acc.names[j],
    decreases es.len() - i,
{
    if i < 0 || i >= es.len() {
    } else {
        let acc1 = crate::parse::spec_flag_prop(acc, es[i]);
        assert(acc1.name == acc.name);
        assert(acc1.names.len() >= acc.names.len());
        assert(forall|j: int| 0 <= j < acc.names.len() ==> #[trigger] acc1.names[j] == acc.names[j]);
        lemma_flag_props_keep(es, i + 1, acc1);
    }
}

/// Without a `choices` child, the children walk never changes the canonical
/// name or the spellings.
proof fn lemma_flag_children_keep(cs: Seq<NodeV>, j: int, acc: FlagV)
    requires
        forall|k: int| 0 <= k < cs.len() ==> (#[trigger] cs[k]).name != "choices"@,
    ensures
        match spec_flag_children(cs, j, acc) {
            Ok(f) => f.name == acc.name && f.names == acc.names,
            Err(_) => true,
        },
    decreases cs.len() - j,
{
    if j < 0 || j >= cs.len() {
    } else {
        let c = cs[j];
        if c.name == "arg"@ {
            match spec_parse_arg(c) {
                Ok(a) => {
                    lemma_flag_children_keep(cs, j + 1, FlagV { arg: Some(a), ..acc });
                }
                Err(_) => {}
            }
        } else if c.name == "alias"@ {
            match crate::parse::spec_parse_alias(c) {
                Ok(al) => {
                    lemma_flag_children_keep(cs, j + 1, FlagV { aliases: al, ..acc });
                }
                Err(_) => {}
            }
        } else {
            lemma_flag_children_keep(cs, j + 1, acc);
        }
    }
}

/// For all flags parsed from a `flag` node whose mandatory first positional
/// value holds at least one spelling and that has no `choices` child, the
/// spelling list is non-empty — the declared spellings in order, with any
/// negations appended behind them — and the canonical name is the
/// slugified, dash-trimmed form of the longest spelling by byte length,
/// ties broken by first occurrence. A whitespace-only spelling string, or a
/// single-spelling flag whose `choices` child pops that spelling, are the
/// inputs this cannot promise.
pub proof fn lemma_parse_flag_canonical(n: NodeV, s: Seq<char>)
    requires
        n.name == "flag"@,
        crate::node::spec_first_arg(n.entries) == Some(ValueV::Str(s)),
        spec_split_ws(s).len() > 0,
        forall|k: int| 0 <= k < n.children.len() ==> (#[trigger] n.children[k]).name != "choices"@,
    ensures
        match spec_parse_flag(n) {
            Ok(f) => ({
                let words = spec_split_ws(s);
                let li = spec_longest_idx(words);
                &&& f.names.len() >= words.len()
                &&& f.names.len() > 0
                &&& forall|j: int| 0 <= j < words.len() ==> #[trigger] f.names[j] == words[j]
                &&& f.name == spec_flag_slug(spec_trim_dashes(words[li]))
            }),
            Err(_) => true,
        },
{
    lemma_flag_canonical_name(flag_v_default(), s);
    let f0 = spec_flag_first(flag_v_default(), s);
    lemma_flag_props_keep(n.entries, 0, f0);
    let f1 = crate::parse::spec_flag_props(n.entries, 0, f0);
    lemma_flag_children_keep(n.children, 0, f1);
}

/// An argument bound to a `Run` completion: with no bridge configured the
/// rendering is exactly the enclosed hint group, with no completion
/// function and nothing added to the memo table; with a bridge configured,
/// the bridge function — whose body interleaves the colon-prefix extraction
/// exactly when descriptions are on, see [`spec_bridge_function`] — is
/// bound in the table under the binding's derived name, and a non-empty
/// body is referenced by the rendering.
pub proof fn lemma_run_binding_rendering(
    fm: FmSeq,
    completes: Seq<(Seq<char>, crate::usage::CompleteV)>,
    comp: Option<(Seq<char>, Seq<char>)>,
    a: ArgV,
    c: crate::usage::CompleteV,
)
    requires
        a.choices.len() == 0,
        crate::usage::spec_lookup(completes, crate::strutil::lower_of(a.name)) == Some(c),
        c.kind is Run,
    ensures
        comp is None ==> spec_add_arg(fm, completes, comp, a, true) == (
            fm,
            spec_add_arg_start() + spec_add_arg_close(Some(a)),
        ),
        comp is Some ==> ({
            let fname = spec_arg_complete_func_name(c.name);
            let body = spec_bridge_function(comp->0, c);
            let r = spec_add_arg(fm, completes, comp, a, true);
            &&& r.0 == fm_insert(fm, fname, body)
            &&& fm_lookup(r.0, fname) == Some(body)
            &&& body.len() > 0 ==> r.1 == spec_add_arg_start() + fname + ", "@
                + spec_add_arg_close(Some(a))
        }),
{
    match comp {
        Some(cc) => {
            let fname = spec_arg_complete_func_name(c.name);
            let body = spec_bridge_function(cc, c);
            crate::generator::lemma_fm_insert_lookup(fm, fname, body);
        }
        None => {}
    }
}

// ------------------------------------------------------------------------
// Idempotence of global-flag propagation
// ------------------------------------------------------------------------

/// A flag list holds some flag with the given equality key.
pub open spec fn has_eq_flag(flags: Seq<FlagV>, f: FlagV) -> bool {
    exists|i: int| 0 <= i < flags.len() && flag_eq_key(#[trigger] flags[i], f)
}

/// A command settled under a carried flag set: every flag declared global
/// in the carry or in the command's own list is already present, by
/// equality key, in each direct child, and every child is settled under
/// the extended carry.
pub open spec fn settled(c: CmdV, inh: Seq<FlagV>) -> bool
    decreases c,
{
    &&& (forall|k: int| 0 <= k < c.cmds.len() ==> settled(#[trigger] c.cmds[k], inh + c.flags))
    &&& (forall|fi: int, k: int|
        0 <= fi < (inh + c.flags).len() && 0 <= k < c.cmds.len() && ((inh + c.flags)[fi]).global
            is Itself ==> has_eq_flag((#[trigger] c.cmds[k]).flags, #[trigger] (inh + c.flags)[fi]))
}

/// The imposed copy of a flag keeps its equality key.
proof fn lemma_imposed_copy_eq(f: FlagV, nm: Seq<Seq<char>>)
    ensures
        flag_eq_key(FlagV { global: GlobalFlagV::Imposed(nm), ..f }, f),
{
    let g = FlagV { global: GlobalFlagV::Imposed(nm), ..f };
    assert forall|i: int| 0 <= i < g.names.len() implies contains_view(
        f.names,
        #[trigger] g.names[i],
    ) by {
        assert(f.names[i] == g.names[i]);
    }
    assert forall|i: int| 0 <= i < f.names.len() implies contains_view(
        g.names,
        #[trigger] f.names[i],
    ) by {
        assert(g.names[i] == f.names[i]);
    }
}

/// What imposing one flag does to one command: nothing unless the flag is
/// declared global and no equal flag is present; then exactly one imposed
/// copy is appended, and either way earlier flags, containments and the
/// other fields survive.
proof fn lemma_add_gflag_props(f: FlagV, c: CmdV, nm: Seq<Seq<char>>)
    ensures
        ({
            let r = spec_add_gflag(f, c, nm);
            &&& r.name == c.name
            &&& r.cmds == c.cmds
            &&& (f.global is Itself ==> has_eq_flag(r.flags, f))
            &&& forall|g: FlagV| has_eq_flag(c.flags, g) ==> #[trigger] has_eq_flag(r.flags, g)
            &&& (f.global is Itself && has_eq_flag(c.flags, f) ==> r == c)
            &&& (!(f.global is Itself) ==> r == c)
        }),
{
    let r = spec_add_gflag(f, c, nm);
    if f.global is Itself && !(exists|i: int|
        0 <= i < c.flags.len() && flag_eq_key(#[trigger] c.flags[i], f)) {
        let copy = FlagV { global: GlobalFlagV::Imposed(nm), ..f };
        lemma_imposed_copy_eq(f, nm);
        assert(r.flags == c.flags.push(copy));
        assert(r.flags[c.flags.len() as int] == copy);
        assert(has_eq_flag(r.flags, f));
        assert forall|g: FlagV| has_eq_flag(c.flags, g) implies #[trigger] has_eq_flag(
            r.flags,
            g,
        ) by {
            let i = choose|i: int| 0 <= i < c.flags.len() && flag_eq_key(#[trigger] c.flags[i], g);
            assert(r.flags[i] == c.flags[i]);
        }
    } else {
        if f.global is Itself {
            assert(has_eq_flag(c.flags, f));
            assert(has_eq_flag(r.flags, f));
        }
    }
}

/// Imposing a list of flags keeps lengths, names, children and existing
/// containments, and makes every declared global flag of the list present
/// in every command.
proof fn lemma_impose_flags_props(flags: Seq<FlagV>, k: int, cs: Seq<CmdV>, nm: Seq<Seq<char>>)
    requires
        0 <= k,
    ensures
        ({
            let r = spec_impose_flags(flags, k, cs, nm);
            &&& r.len() == cs.len()
            &&& forall|j: int|
                0 <= j < cs.len() ==> (#[trigger] r[j]).name == cs[j].name && r[j].cmds
                    == cs[j].cmds
            &&& forall|j: int, g: FlagV|
                0 <= j < cs.len() && #[trigger] has_eq_flag(cs[j].flags, g) ==> has_eq_flag(
                    r[j].flags,
                    g,
                )
            &&& forall|fi: int, j: int|
                k <= fi < flags.len() && 0 <= j < cs.len() && (#[trigger] flags[fi]).global
                    is Itself ==> has_eq_flag((#[trigger] r[j]).flags, flags[fi])
        }),
    decreases flags.len() - k,
{
    if k >= flags.len() {
    } else {
        let cs1 = if flags[k].global is Itself {
            spec_impose_flag_on_cmds(flags[k], cs, nm)
        } else {
            cs
        };
        assert forall|j: int| 0 <= j < cs.len() implies (#[trigger] cs1[j]).name == cs[j].name
            && cs1[j].cmds == cs[j].cmds && (flags[k].global is Itself ==> has_eq_flag(
            cs1[j].flags,
            flags[k],
        )) && (forall|g: FlagV|
            has_eq_flag(cs[j].flags, g) ==> #[trigger] has_eq_flag(cs1[j].flags, g)) by {
            if flags[k].global is Itself {
                lemma_add_gflag_props(flags[k], cs[j], nm);
            }
        }
        lemma_impose_flags_props(flags, k + 1, cs1, nm);
        let r = spec_impose_flags(flags, k, cs, nm);
        assert(r == spec_impose_flags(flags, k + 1, cs1, nm));
        assert(r.len() == cs.len());
        assert forall|j: int| 0 <= j < cs.len() implies (#[trigger] r[j]).name == cs[j].name
            && r[j].cmds == cs[j].cmds by {
            assert(cs1[j].name == cs[j].name && cs1[j].cmds == cs[j].cmds);
        }
        assert forall|j: int, g: FlagV|
            0 <= j < cs.len() && #[trigger] has_eq_flag(cs[j].flags, g) implies has_eq_flag(
            r[j].flags,
            g,
        ) by {
            assert(has_eq_flag(cs1[j].flags, g));
        }
        assert forall|fi: int, j: int|
            k <= fi < flags.len() && 0 <= j < cs.len() && (#[trigger] flags[fi]).global
                is Itself implies has_eq_flag((#[trigger] r[j]).flags, flags[fi]) by {
            if fi == k {
                assert(has_eq_flag(cs1[j].flags, flags[k]));
            }
        }
    }
}

/// Imposing flags that are already present everywhere changes nothing.
proof fn lemma_impose_flags_identity(flags: Seq<FlagV>, k: int, cs: Seq<CmdV>, nm: Seq<Seq<char>>)
    requires
        forall|fi: int, j: int|
            k <= fi < flags.len() && 0 <= j < cs.len() && (#[trigger] flags[fi]).global is Itself
                ==> has_eq_flag((#[trigger] cs[j]).flags, flags[fi]),
    ensures
        spec_impose_flags(flags, k, cs, nm) == cs,
    decreases flags.len() - k,
{
    if k < 0 || k >= flags.len() {
    } else {
        if flags[k].global is Itself {
            let cs1 = spec_impose_flag_on_cmds(flags[k], cs, nm);
            assert forall|j: int| 0 <= j < cs.len() implies cs1[j] == cs[j] by {
                lemma_add_gflag_props(flags[k], cs[j], nm);
            }
            assert(cs1 =~= cs);
        }
        lemma_impose_flags_identity(flags, k + 1, cs, nm);
    }
}

/// Propagation under a carry leaves a command settled under that carry and
/// keeps its flags and name.
proof fn lemma_propagate_settled(c: CmdV, nm: Seq<Seq<char>>, inh: Seq<FlagV>)
    ensures
        settled(spec_propagate_cmd(c, nm, inh), inh),
        spec_propagate_cmd(c, nm, inh).flags == c.flags,
        spec_propagate_cmd(c, nm, inh).name == c.name,
    decreases crate::resolve::cmd_height(c), 0int,
{
    let chnm = crate::resolve::spec_join_seg(nm, c.name);
    let all = inh + c.flags;
    let cs1 = spec_impose_flags(all, 0, c.cmds, chnm);
    lemma_impose_flags_props(all, 0, c.cmds, chnm);
    crate::resolve::lemma_impose_keeps_height(all, 0, c.cmds, chnm);
    lemma_propagate_cmds_settled(cs1, chnm, all);
    let r = spec_propagate_cmd(c, nm, inh);
    crate::resolve::lemma_propagate_cmds_len(cs1, chnm, all);
    assert forall|k: int| 0 <= k < r.cmds.len() implies settled(#[trigger] r.cmds[k], inh + r.flags)
        && r.cmds[k].flags == cs1[k].flags by {
        crate::resolve::lemma_propagate_cmds_index(cs1, chnm, all, k);
    }
    assert forall|fi: int, k: int|
        0 <= fi < (inh + r.flags).len() && 0 <= k < r.cmds.len() && ((inh + r.flags)[fi]).global
            is Itself implies has_eq_flag(
        (#[trigger] r.cmds[k]).flags,
        #[trigger] (inh + r.flags)[fi],
    ) by {
        assert((inh + r.flags)[fi] == all[fi]);
        assert(has_eq_flag(cs1[k].flags, all[fi]));
    }
}

/// Propagation under a carry leaves every command of a list settled under
/// it, keeping flags pointwise.
proof fn lemma_propagate_cmds_settled(cs: Seq<CmdV>, nm: Seq<Seq<char>>, inh: Seq<FlagV>)
    ensures
        spec_propagate_cmds(cs, nm, inh).len() == cs.len(),
        forall|j: int|
            0 <= j < cs.len() ==> settled(#[trigger] spec_propagate_cmds(cs, nm, inh)[j], inh)
                && spec_propagate_cmds(cs, nm, inh)[j].flags == cs[j].flags,
    decreases crate::resolve::cmds_height_of(cs), 1int,
{
    crate::resolve::lemma_propagate_cmds_len(cs, nm, inh);
    assert forall|j: int| 0 <= j < cs.len() implies settled(
        #[trigger] spec_propagate_cmds(cs, nm, inh)[j],
        inh,
    ) && spec_propagate_cmds(cs, nm, inh)[j].flags == cs[j].flags by {
        crate::resolve::lemma_propagate_cmds_index(cs, nm, inh, j);
        crate::resolve::lemma_cmds_height_elem(cs, j);
        lemma_propagate_settled(cs[j], nm, inh);
    }
}

/// Propagation is the identity on a command settled under the same carry,
/// whatever the namespace.
proof fn lemma_settled_fixpoint(c: CmdV, nm: Seq<Seq<char>>, inh: Seq<FlagV>)
    requires
        settled(c, inh),
    ensures
        spec_propagate_cmd(c, nm, inh) == c,
    decreases crate::resolve::cmd_height(c), 0int,
{
    let chnm = crate::resolve::spec_join_seg(nm, c.name);
    let all = inh + c.flags;
    lemma_impose_flags_identity(all, 0, c.cmds, chnm);
    crate::resolve::lemma_impose_keeps_height(all, 0, c.cmds, chnm);
    lemma_settled_cmds_fixpoint(c.cmds, chnm, all);
}

proof fn lemma_settled_cmds_fixpoint(cs: Seq<CmdV>, nm: Seq<Seq<char>>, inh: Seq<FlagV>)
    requires
        forall|j: int| 0 <= j < cs.len() ==> settled(#[trigger] cs[j], inh),
    ensures
        spec_propagate_cmds(cs, nm, inh) == cs,
    decreases crate::resolve::cmds_height_of(cs), 1int,
{
    crate::resolve::lemma_propagate_cmds_len(cs, nm, inh);
    assert forall|j: int| 0 <= j < cs.len() implies #[trigger] spec_propagate_cmds(cs, nm, inh)[j]
        == cs[j] by {
        crate::resolve::lemma_propagate_cmds_index(cs, nm, inh, j);
        crate::resolve::lemma_cmds_height_elem(cs, j);
        lemma_settled_fixpoint(cs[j], nm, inh);
    }
    assert(spec_propagate_cmds(cs, nm, inh) =~= cs);
}

/// The whole resolution pass of one document: the root's own global flags
/// are imposed on the root commands, and the tree then propagates to full
/// depth with the root flags carried in.
pub open spec fn spec_resolve_globals(flags: Seq<FlagV>, cmds: Seq<CmdV>) -> Seq<CmdV> {
    spec_propagate_cmds(
        spec_impose_flags(flags, 0, cmds, Seq::empty()),
        Seq::empty(),
        flags,
    )
}

/// Global-flag propagation is idempotent: resolving an already resolved
/// command tree against the same root flags produces no further change.
pub proof fn lemma_propagation_idempotent(flags: Seq<FlagV>, cmds: Seq<CmdV>)
    ensures
        spec_resolve_globals(flags, spec_resolve_globals(flags, cmds)) == spec_resolve_globals(
            flags,
            cmds,
        ),
{
    let cs1 = spec_impose_flags(flags, 0, cmds, Seq::empty());
    let r1 = spec_resolve_globals(flags, cmds);
    lemma_impose_flags_props(flags, 0, cmds, Seq::empty());
    lemma_propagate_cmds_settled(cs1, Seq::empty(), flags);
    assert forall|fi: int, j: int|
        0 <= fi < flags.len() && 0 <= j < r1.len() && (#[trigger] flags[fi]).global
            is Itself implies has_eq_flag((#[trigger] r1[j]).flags, flags[fi]) by {
        assert(r1[j].flags == cs1[j].flags);
        assert(has_eq_flag(cs1[j].flags, flags[fi]));
    }
    lemma_impose_flags_identity(flags, 0, r1, Seq::empty());
    assert forall|j: int| 0 <= j < r1.len() implies settled(#[trigger] r1[j], flags) by {}
    lemma_settled_cmds_fixpoint(r1, Seq::empty(), flags);
}

// ------------------------------------------------------------------------
// No generated function is declared twice
// ------------------------------------------------------------------------

proof fn lemma_add_arg_wf(
    fm: FmSeq,
    completes: Seq<(Seq<char>, crate::usage::CompleteV)>,
    comp: Option<(Seq<char>, Seq<char>)>,
    a: ArgV,
    enclose: bool,
)
    requires
        crate::generator::fm_wf(fm),
    ensures
        crate::generator::fm_wf(crate::generator::spec_add_arg(fm, completes, comp, a, enclose).0),
{
    if a.choices.len() > 0 {
    } else {
        match crate::usage::spec_lookup(completes, crate::strutil::lower_of(a.name)) {
            Some(c) => match c.kind {
                crate::usage::CompleteKindV::Run(_) => {
                    if comp is Some {
                        crate::generator::lemma_fm_insert_lookup(
                            fm,
                            crate::namespace::spec_arg_complete_func_name(c.name),
                            crate::generator::spec_bridge_function(comp->0, c),
                        );
                    }
                }
                _ => {}
            },
            None => {}
        }
    }
}

proof fn lemma_gen_flag_funcs_loop_wf(
    fm: FmSeq,
    completes: Seq<(Seq<char>, crate::usage::CompleteV)>,
    comp: Option<(Seq<char>, Seq<char>)>,
    flags: Seq<FlagV>,
    ns: Seq<Seq<char>>,
    i: int,
    globals: Seq<FlagV>,
)
    requires
        crate::generator::fm_wf(fm),
    ensures
        crate::generator::fm_wf(
            crate::generator::spec_gen_flag_funcs_loop(fm, completes, comp, flags, ns, i, globals).0,
        ),
    decreases flags.len() - i,
{
    if i < 0 || i >= flags.len() {
    } else {
        let f = flags[i];
        if f.global is Imposed {
            lemma_gen_flag_funcs_loop_wf(fm, completes, comp, flags, ns, i + 1, globals);
        } else {
            let globals1 = if f.global is Itself {
                globals.push(f)
            } else {
                globals
            };
            let fname = crate::namespace::spec_flag_func_name(ns, f.name);
            let fmfn = match f.arg {
                Some(a) => {
                    let r = crate::generator::spec_add_arg(fm, completes, comp, a, true);
                    lemma_add_arg_wf(fm, completes, comp, a, true);
                    if r.1.len() > 0 {
                        (r.0, crate::generator::spec_fn_wrap(fname, r.1))
                    } else {
                        (r.0, Seq::<char>::empty())
                    }
                },
                None => (fm, Seq::<char>::empty()),
            };
            crate::generator::lemma_fm_insert_lookup(fmfn.0, fname, fmfn.1);
            lemma_gen_flag_funcs_loop_wf(
                crate::generator::fm_insert(fmfn.0, fname, fmfn.1),
                completes,
                comp,
                flags,
                ns,
                i + 1,
                globals1,
            );
        }
    }
}

proof fn lemma_add_flags_wf(
    fm: FmSeq,
    completes: Seq<(Seq<char>, crate::usage::CompleteV)>,
    comp: Option<(Seq<char>, Seq<char>)>,
    flags: Seq<FlagV>,
    ns: Seq<Seq<char>>,
    level: int,
)
    requires
        crate::generator::fm_wf(fm),
    ensures
        crate::generator::fm_wf(
            crate::generator::spec_gen_flag_functions(fm, completes, comp, flags, ns, level),
        ),
        crate::generator::fm_wf(
            crate::generator::spec_add_flags(fm, completes, comp, flags, ns, level).0,
        ),
{
    lemma_gen_flag_funcs_loop_wf(fm, completes, comp, flags, ns, 0, Seq::empty());
    let p = crate::generator::spec_gen_flag_funcs_loop(fm, completes, comp, flags, ns, 0, Seq::empty());
    let gname = crate::namespace::spec_global_flag_func_name(ns);
    if p.1.len() > 0 {
        let body = crate::generator::spec_gflags_body_loop(p.0, p.1, 0, Seq::empty(), ns, level);
        crate::generator::lemma_fm_insert_lookup(p.0, gname, crate::generator::spec_gfn_wrap(gname, body));
    } else if crate::generator::spec_any_imposed(flags) {
        crate::generator::lemma_fm_insert_lookup(p.0, gname, Seq::empty());
    }
}

proof fn lemma_rest_args_wf(
    fm: FmSeq,
    completes: Seq<(Seq<char>, crate::usage::CompleteV)>,
    comp: Option<(Seq<char>, Seq<char>)>,
    args: Seq<ArgV>,
    k: int,
    acc: Seq<char>,
    level: int,
)
    requires
        crate::generator::fm_wf(fm),
    ensures
        crate::generator::fm_wf(
            crate::generator::spec_rest_args_loop(fm, completes, comp, args, k, acc, level).0,
        ),
    decreases args.len() - k,
{
    if k < 1 || k >= args.len() {
    } else {
        let r = crate::generator::spec_add_arg(fm, completes, comp, args[k], true);
        lemma_add_arg_wf(fm, completes, comp, args[k], true);
        lemma_rest_args_wf(
            r.0,
            completes,
            comp,
            args,
            k + 1,
            acc + "\n"@ + crate::formatter::spec_indent(level) + r.1,
            level,
        );
    }
}

proof fn lemma_gen_cmd_functions_wf(
    fm: FmSeq,
    completes: Seq<(Seq<char>, crate::usage::CompleteV)>,
    comp: Option<(Seq<char>, Seq<char>)>,
    cmds: Seq<CmdV>,
    i: int,
    ns: Seq<Seq<char>>,
    level: int,
)
    requires
        crate::generator::fm_wf(fm),
    ensures
        crate::generator::fm_wf(
            crate::generator::spec_gen_cmd_functions(fm, completes, comp, cmds, i, ns, level),
        ),
    decreases cmds, cmds.len() - i, 1int,
{
    if i < 0 || i >= cmds.len() {
    } else {
        let c = cmds[i];
        let cname = crate::strutil::spec_slug(c.name);
        let chns = crate::resolve::spec_join_seg(ns, cname);
        let fname = crate::namespace::spec_cmd_func_name(ns, cname);
        let fmfn = if crate::generator::spec_cmd_has_content(c) {
            let rf = crate::generator::spec_add_flags(fm, completes, comp, c.flags, chns, level);
            lemma_add_flags_wf(fm, completes, comp, c.flags, chns, level);
            let t1 = if rf.1.len() > 0 {
                "\n"@ + crate::formatter::spec_indent(level) + rf.1
            } else {
                Seq::<char>::empty()
            };
            let ra = crate::generator::spec_add_args_and_cmds(
                rf.0,
                completes,
                comp,
                c.cmds,
                c.args,
                chns,
                level,
            );
            lemma_add_args_and_cmds_wf(rf.0, completes, comp, c.cmds, c.args, chns, level);
            let t2 = t1 + (if ra.1.len() > 0 {
                "\n"@ + crate::formatter::spec_indent(level) + ra.1
            } else {
                Seq::<char>::empty()
            });
            (ra.0, crate::generator::spec_fn_wrap(fname, t2))
        } else {
            (fm, Seq::<char>::empty())
        };
        crate::generator::lemma_fm_insert_lookup(fmfn.0, fname, fmfn.1);
        lemma_gen_cmd_functions_wf(
            crate::generator::fm_insert(fmfn.0, fname, fmfn.1),
            completes,
            comp,
            cmds,
            i + 1,
            ns,
            level,
        );
    }
}

proof fn lemma_add_args_and_cmds_wf(
    fm: FmSeq,
    completes: Seq<(Seq<char>, crate::usage::CompleteV)>,
    comp: Option<(Seq<char>, Seq<char>)>,
    cmds: Seq<CmdV>,
    args: Seq<ArgV>,
    ns: Seq<Seq<char>>,
    level: int,
)
    requires
        crate::generator::fm_wf(fm),
    ensures
        crate::generator::fm_wf(
            crate::generator::spec_add_args_and_cmds(fm, completes, comp, cmds, args, ns, level).0,
        ),
    decreases cmds, cmds.len() + 1, 2int,
{
    lemma_gen_cmd_functions_wf(fm, completes, comp, cmds, 0, ns, level);
    lemma_rest_args_loop_start(fm, completes, comp, cmds, args, ns, level);
}

/// Helper unpacking the body of `spec_add_args_and_cmds` for the table part
/// alone: the text loops never change the table, so well-formedness flows
/// through the first argument and the trailing arguments.
proof fn lemma_rest_args_loop_start(
    fm: FmSeq,
    completes: Seq<(Seq<char>, crate::usage::CompleteV)>,
    comp: Option<(Seq<char>, Seq<char>)>,
    cmds: Seq<CmdV>,
    args: Seq<ArgV>,
    ns: Seq<Seq<char>>,
    level: int,
)
    requires
        crate::generator::fm_wf(
            crate::generator::spec_gen_cmd_functions(fm, completes, comp, cmds, 0, ns, level),
        ),
    ensures
        crate::generator::fm_wf(
            crate::generator::spec_add_args_and_cmds(fm, completes, comp, cmds, args, ns, level).0,
        ),
{
    let fm1 = crate::generator::spec_gen_cmd_functions(fm, completes, comp, cmds, 0, ns, level);
    let fmA = if args.len() > 0 {
        lemma_add_arg_wf(fm1, completes, comp, args[0], false);
        crate::generator::spec_add_arg(fm1, completes, comp, args[0], false).0
    } else {
        fm1
    };
    lemma_rest_args_wf_any(fmA, completes, comp, args, level);
}

proof fn lemma_rest_args_wf_any(
    fm: FmSeq,
    completes: Seq<(Seq<char>, crate::usage::CompleteV)>,
    comp: Option<(Seq<char>, Seq<char>)>,
    args: Seq<ArgV>,
    level: int,
)
    requires
        crate::generator::fm_wf(fm),
    ensures
        forall|acc: Seq<char>|
            crate::generator::fm_wf(
                #[trigger] crate::generator::spec_rest_args_loop(
                    fm,
                    completes,
                    comp,
                    args,
                    1,
                    acc,
                    level,
                ).0,
            ),
{
    assert forall|acc: Seq<char>|
        crate::generator::fm_wf(
            #[trigger] crate::generator::spec_rest_args_loop(
                fm,
                completes,
                comp,
                args,
                1,
                acc,
                level,
            ).0,
        ) by {
        lemma_rest_args_wf(fm, completes, comp, args, 1, acc, level);
    }
}

/// Every name in the memo table stays unique through a whole generation
/// pass: together with the output shape of [`spec_generate`], whose script
/// is the preamble, then each cached function exactly once in insertion
/// order, then the root body, no generated function is ever declared twice,
/// and every declaration precedes the body that references it.
pub proof fn lemma_generate_no_duplicate_functions(
    sp: UsageSpecV,
    comp: Option<(Seq<char>, Seq<char>)>,
    ams: Seq<Seq<char>>,
    fm0: FmSeq,
)
    requires
        crate::generator::fm_wf(fm0),
    ensures
        crate::generator::fm_wf(spec_generate(sp, comp, ams, fm0).0),
{
    lemma_add_flags_wf(fm0, sp.completes, comp, sp.flags, Seq::empty(), 0);
    let rf = crate::generator::spec_add_flags(fm0, sp.completes, comp, sp.flags, Seq::empty(), 0);
    lemma_add_args_and_cmds_wf(rf.0, sp.completes, comp, sp.cmds, sp.args, Seq::empty(), 0);
}

} // verus!
