//! The specification parser: turns declaration nodes into the document
//! model, one routine per declaration kind, each pinned to a mathematical
//! mirror of its behaviour. A declaration without its mandatory first
//! positional value, or a choices entry without a string value, fails the
//! whole parse.

use vstd::prelude::*;

verus! {

broadcast use vstd::std_specs::vec::group_vec_axioms;

use crate::node::Node;
use crate::node::NodeV;
use crate::node::EntryV;
use crate::node::ValueV;
use crate::node::spec_first_arg;
use crate::node::spec_prop;
use crate::node::spec_str_or_empty;
use crate::node::spec_bool_or_false;
use crate::node::Entry;
use crate::usage::Alias;
use crate::usage::Arg;
use crate::usage::ArgV;
use crate::usage::arg_v_default;
use crate::usage::Flag;
use crate::usage::FlagV;
use crate::usage::flag_v_default;
use crate::usage::GlobalFlag;
use crate::usage::GlobalFlagV;
use crate::usage::Cmd;
use crate::usage::CmdV;
use crate::usage::cmd_v_default;
use crate::usage::Complete;
use crate::usage::CompleteV;
use crate::usage::CompleteKind;
use crate::usage::CompleteKindV;
use crate::usage::complete_v_default;
use crate::usage::Usage;
use crate::usage::UsageV;
use crate::usage::flags_v;
use crate::usage::args_v;
use crate::usage::cmds_v;
use crate::usage::lemma_cmds_v_push;
use crate::usage::AliasV;
use crate::usage::UError;
use crate::usage::UErrorV;
use crate::usage::aliases_v;
use crate::strutil::seq_views;
use crate::strutil::str_eq;
use crate::strutil::spec_find;
use crate::strutil::spec_split_ws;
use crate::strutil::spec_longest_idx;
use crate::strutil::spec_trim_dashes;
use crate::strutil::spec_flag_slug;
use crate::strutil::split_ws;
use crate::strutil::longest_idx;
use crate::strutil::trim_dashes;
use crate::strutil::flag_slug;
use crate::strutil::lemma_longest_idx_range;
use crate::strutil::find_char;
use crate::strutil::lemma_find_bounds;
use vstd::string::StrSliceExecFns;
use vstd::string::StringExecFns;

/// The result of parsing a node that carries one string: `name`, `bin` or
/// `include`. The node must have that kind and a first positional value;
/// a non-string first value reads as the empty string.
pub open spec fn spec_parse_string_node(n: NodeV, kind: Seq<char>) -> Result<Seq<char>, UErrorV> {
    if n.name != kind {
        Err(UErrorV::InvalidNodeName(n.name))
    } else {
        match spec_first_arg(n.entries) {
            Some(v) => Ok(spec_str_or_empty(v)),
            None => Err(UErrorV::InvalidNodeFirstArg(n.name)),
        }
    }
}

pub open spec fn spec_parse_name(n: NodeV) -> Result<Seq<char>, UErrorV> {
    spec_parse_string_node(n, "name"@)
}

pub open spec fn spec_parse_bin(n: NodeV) -> Result<Seq<char>, UErrorV> {
    spec_parse_string_node(n, "bin"@)
}

pub open spec fn spec_parse_include(n: NodeV) -> Result<Seq<char>, UErrorV> {
    spec_parse_string_node(n, "include"@)
}

fn parse_string_node(node: &Node, kind: &str) -> (r: Result<String, UError>)
    ensures
        match r {
            Ok(s) => spec_parse_string_node(node.v(), kind@) == Ok::<Seq<char>, UErrorV>(s@),
            Err(e) => spec_parse_string_node(node.v(), kind@) == Err::<Seq<char>, UErrorV>(e.v()),
        },
{
    if !str_eq(node.name.as_str(), kind) {
        return Err(UError::InvalidNodeName(node.name.clone()));
    }
    match node.first_arg() {
        Some(v) => Ok(v.str_or_empty()),
        None => Err(UError::InvalidNodeFirstArg(node.name.clone())),
    }
}

pub fn parse_name(node: &Node) -> (r: Result<String, UError>)
    ensures
        match r {
            Ok(s) => spec_parse_name(node.v()) == Ok::<Seq<char>, UErrorV>(s@),
            Err(e) => spec_parse_name(node.v()) == Err::<Seq<char>, UErrorV>(e.v()),
        },
{
    parse_string_node(node, "name")
}

pub fn parse_bin(node: &Node) -> (r: Result<String, UError>)
    ensures
        match r {
            Ok(s) => spec_parse_bin(node.v()) == Ok::<Seq<char>, UErrorV>(s@),
            Err(e) => spec_parse_bin(node.v()) == Err::<Seq<char>, UErrorV>(e.v()),
        },
{
    parse_string_node(node, "bin")
}

pub fn parse_include(node: &Node) -> (r: Result<String, UError>)
    ensures
        match r {
            Ok(s) => spec_parse_include(node.v()) == Ok::<Seq<char>, UErrorV>(s@),
            Err(e) => spec_parse_include(node.v()) == Err::<Seq<char>, UErrorV>(e.v()),
        },
{
    parse_string_node(node, "include")
}

/// The aliases carried by the entries from position `i` on: positional
/// entries must be strings and are collected, named properties are skipped.
pub open spec fn spec_alias_entries(
    es: Seq<EntryV>,
    i: int,
    acc: Seq<AliasV>,
    hide: bool,
    nname: Seq<char>,
) -> Result<Seq<AliasV>, UErrorV>
    decreases es.len() - i,
{
    if i < 0 || i >= es.len() {
        Ok(acc)
    } else {
        let e = es[i];
        if e.name is Some {
            spec_alias_entries(es, i + 1, acc, hide, nname)
        } else {
            match e.value {
                ValueV::Str(s) => spec_alias_entries(
                    es,
                    i + 1,
                    acc.push(AliasV { name: s, hide }),
                    hide,
                    nname,
                ),
                _ => Err(UErrorV::InvalidNodeFirstArg(nname)),
            }
        }
    }
}

/// The aliases of an `alias` node: one per positional string entry, all
/// sharing the node-level `hide` property.
pub open spec fn spec_parse_alias(n: NodeV) -> Result<Seq<AliasV>, UErrorV> {
    if n.name != "alias"@ {
        Err(UErrorV::InvalidNodeName(n.name))
    } else {
        let hide = match spec_prop(n.entries, "hide"@) {
            Some(v) => spec_bool_or_false(v),
            None => false,
        };
        spec_alias_entries(n.entries, 0, Seq::empty(), hide, n.name)
    }
}

#[verifier::loop_isolation(false)]
pub fn parse_alias(node: &Node) -> (r: Result<Vec<Alias>, UError>)
    ensures
        match r {
            Ok(v) => spec_parse_alias(node.v()) == Ok::<Seq<AliasV>, UErrorV>(aliases_v(v@)),
            Err(e) => spec_parse_alias(node.v()) == Err::<Seq<AliasV>, UErrorV>(e.v()),
        },
{
    if !str_eq(node.name.as_str(), "alias") {
        return Err(UError::InvalidNodeName(node.name.clone()));
    }
    let hide: bool = match node.prop("hide") {
        Some(v) => v.bool_or_false(),
        None => false,
    };
    let ghost esv = node.v().entries;
    let ghost nn = node.v().name;
    let mut acc: Vec<Alias> = Vec::new();
    let n: usize = node.entries.len();
    let mut i: usize = 0;
    proof {
        assert(aliases_v(acc@) =~= Seq::<AliasV>::empty());
    }
    while i < n
        invariant
            n == node.entries@.len(),
            esv == node.v().entries,
            nn == node.v().name,
            esv.len() == n,
            0 <= i <= n,
            spec_alias_entries(esv, i as int, aliases_v(acc@), hide, nn) == spec_alias_entries(
                esv,
                0,
                Seq::empty(),
                hide,
                nn,
            ),
        decreases n - i,
    {
        proof {
            assert(esv[i as int] == node.entries@[i as int].v());
        }
        let e = &node.entries[i];
        match &e.name {
            Some(_) => {}
            None => {
                match e.value.as_string() {
                    Some(s) => {
                        let ghost before = aliases_v(acc@);
                        acc.push(Alias { name: s.clone(), hide });
                        proof {
                            assert(aliases_v(acc@) =~= before.push(
                                AliasV { name: s@, hide },
                            ));
                        }
                    }
                    None => {
                        proof {
                            assert(spec_alias_entries(esv, i as int, aliases_v(acc@), hide, nn)
                                == Err::<Seq<AliasV>, UErrorV>(UErrorV::InvalidNodeFirstArg(nn)));
                        }
                        return Err(UError::InvalidNodeFirstArg(node.name.clone()));
                    }
                }
            }
        }
        i = i + 1;
    }
    Ok(acc)
}

/// The choice strings carried by the entries from position `i` on: every
/// entry, positional or named, must carry a string value.
pub open spec fn spec_choices_entries(
    es: Seq<EntryV>,
    i: int,
    acc: Seq<Seq<char>>,
    nname: Seq<char>,
) -> Result<Seq<Seq<char>>, UErrorV>
    decreases es.len() - i,
{
    if i < 0 || i >= es.len() {
        Ok(acc)
    } else {
        match es[i].value {
            ValueV::Str(s) => spec_choices_entries(es, i + 1, acc.push(s), nname),
            _ => Err(UErrorV::InvalidNodeFirstArg(nname)),
        }
    }
}

pub open spec fn spec_parse_choices(n: NodeV) -> Result<Seq<Seq<char>>, UErrorV> {
    if n.name != "choices"@ {
        Err(UErrorV::InvalidNodeName(n.name))
    } else {
        spec_choices_entries(n.entries, 0, Seq::empty(), n.name)
    }
}

pub fn parse_choices(node: &Node) -> (r: Result<Vec<String>, UError>)
    ensures
        match r {
            Ok(v) => spec_parse_choices(node.v()) == Ok::<Seq<Seq<char>>, UErrorV>(seq_views(v@)),
            Err(e) => spec_parse_choices(node.v()) == Err::<Seq<Seq<char>>, UErrorV>(e.v()),
        },
{
    if !str_eq(node.name.as_str(), "choices") {
        return Err(UError::InvalidNodeName(node.name.clone()));
    }
    choices_entries(node)
}

/// Collects the choice strings of a node whose entries must all be strings.
#[verifier::loop_isolation(false)]
fn choices_entries(node: &Node) -> (r: Result<Vec<String>, UError>)
    ensures
        match r {
            Ok(v) => spec_choices_entries(node.v().entries, 0, Seq::empty(), node.v().name)
                == Ok::<Seq<Seq<char>>, UErrorV>(seq_views(v@)),
            Err(e) => spec_choices_entries(node.v().entries, 0, Seq::empty(), node.v().name)
                == Err::<Seq<Seq<char>>, UErrorV>(e.v()),
        },
{
    let ghost esv = node.v().entries;
    let ghost nn = node.v().name;
    let mut acc: Vec<String> = Vec::new();
    let n: usize = node.entries.len();
    let mut i: usize = 0;
    proof {
        assert(seq_views(acc@) =~= Seq::<Seq<char>>::empty());
    }
    while i < n
        invariant
            n == node.entries@.len(),
            esv == node.v().entries,
            nn == node.v().name,
            esv.len() == n,
            0 <= i <= n,
            spec_choices_entries(esv, i as int, seq_views(acc@), nn) == spec_choices_entries(
                esv,
                0,
                Seq::empty(),
                nn,
            ),
        decreases n - i,
    {
        proof {
            assert(esv[i as int] == node.entries@[i as int].v());
        }
        let e = &node.entries[i];
        match e.value.as_string() {
            Some(s) => {
                let ghost before = seq_views(acc@);
                acc.push(s.clone());
                proof {
                    assert(seq_views(acc@) =~= before.push(s@));
                }
            }
            None => {
                return Err(UError::InvalidNodeFirstArg(node.name.clone()));
            }
        }
        i = i + 1;
    }
    Ok(acc)
}


/// Whether a node carries its mandatory first positional value: the first
/// positional entry must exist and hold a string.
pub open spec fn spec_has_first_string(es: Seq<EntryV>) -> bool {
    match spec_first_arg(es) {
        Some(v) => v is Str,
        None => false,
    }
}

/// Extracts the mandatory first positional string value of a declaration
/// node; a node without one is a terminal parse failure.
fn first_positional_string(node: &Node) -> (r: Result<&String, UError>)
    ensures
        match r {
            Ok(s) => spec_first_arg(node.v().entries) == Some(ValueV::Str(s@)),
            Err(e) => e.v() == UErrorV::InvalidNodeFirstArg(node.v().name)
                && !spec_has_first_string(node.v().entries),
        },
{
    match node.first_arg() {
        Some(v) => match v.as_string() {
            Some(s) => Ok(s),
            None => Err(UError::InvalidNodeFirstArg(node.name.clone())),
        },
        None => Err(UError::InvalidNodeFirstArg(node.name.clone())),
    }
}

// ------------------------------------------------------------------------
// arg
// ------------------------------------------------------------------------

/// The effect of the first positional value on an argument: `<x>` makes it
/// required and names it `x`, `[x]` optional and names it `x`; anything else
/// leaves the name empty. The raw text is kept verbatim as `repr`.
pub open spec fn spec_arg_first(a: ArgV, s: Seq<char>) -> ArgV {
    let a1 = if s.len() > 0 && s[0] == '<' {
        ArgV { required: true, name: s.subrange(1, spec_find(s, '>')), ..a }
    } else if s.len() > 0 && s[0] == '[' {
        ArgV { required: false, name: s.subrange(1, spec_find(s, ']')), ..a }
    } else {
        a
    };
    ArgV { repr: s, ..a1 }
}

/// The effect of one named property on an argument.
pub open spec fn spec_arg_prop(a: ArgV, e: EntryV) -> ArgV {
    match e.name {
        Some(p) => if p == "hide"@ {
            ArgV { hide: spec_bool_or_false(e.value), ..a }
        } else if p == "default"@ {
            ArgV {
                default: match e.value {
                    ValueV::Str(s) => Some(s),
                    _ => None,
                },
                ..a
            }
        } else if p == "var"@ {
            ArgV { var: spec_bool_or_false(e.value), ..a }
        } else if p == "var_max"@ {
            ArgV {
                max: match e.value {
                    ValueV::Int(i) => Some(i),
                    _ => None,
                },
                ..a
            }
        } else if p == "var_min"@ {
            ArgV {
                min: match e.value {
                    ValueV::Int(i) => Some(i),
                    _ => None,
                },
                ..a
            }
        } else {
            a
        },
        None => a,
    }
}

pub open spec fn spec_arg_props(es: Seq<EntryV>, i: int, acc: ArgV) -> ArgV
    decreases es.len() - i,
{
    if i < 0 || i >= es.len() {
        acc
    } else {
        spec_arg_props(es, i + 1, spec_arg_prop(acc, es[i]))
    }
}

/// Unset bounds default to `max = -1` (unbounded) and `min = 0`.
pub open spec fn spec_arg_defaults(a: ArgV) -> ArgV {
    ArgV {
        max: if a.max is None {
            Some(-1int)
        } else {
            a.max
        },
        min: if a.min is None {
            Some(0int)
        } else {
            a.min
        },
        ..a
    }
}

pub open spec fn spec_arg_children(cs: Seq<NodeV>, j: int, acc: ArgV) -> Result<ArgV, UErrorV>
    decreases cs.len() - j,
{
    if j < 0 || j >= cs.len() {
        Ok(acc)
    } else {
        let c = cs[j];
        if c.name == "choices"@ {
            match spec_choices_entries(c.entries, 0, Seq::empty(), c.name) {
                Ok(ch) => spec_arg_children(cs, j + 1, ArgV { choices: ch, ..acc }),
                Err(e) => Err(e),
            }
        } else {
            spec_arg_children(cs, j + 1, acc)
        }
    }
}

/// An `arg` node: the mandatory first positional string value gives the
/// bracket form, the named properties are applied in entry order, unset
/// bounds are defaulted, then the choices children are read.
pub open spec fn spec_parse_arg(n: NodeV) -> Result<ArgV, UErrorV> {
    if n.name != "arg"@ {
        Err(UErrorV::InvalidNodeName(n.name))
    } else {
        match spec_first_arg(n.entries) {
            Some(ValueV::Str(s)) => spec_arg_children(
                n.children,
                0,
                spec_arg_defaults(spec_arg_props(n.entries, 0, spec_arg_first(arg_v_default(), s))),
            ),
            _ => Err(UErrorV::InvalidNodeFirstArg(n.name)),
        }
    }
}

/// Applies one named property to an argument, mirroring [`spec_arg_prop`].
fn arg_apply_prop(a: &mut Arg, e: &Entry)
    ensures
        final(a).v() == spec_arg_prop(old(a).v(), e.v()),
{
    match &e.name {
        None => {}
        Some(p) => {
            if str_eq(p.as_str(), "hide") {
                a.hide = e.value.bool_or_false();
            } else if str_eq(p.as_str(), "default") {
                a.default = match e.value.as_string() {
                    Some(s) => Some(s.clone()),
                    None => None,
                };
            } else if str_eq(p.as_str(), "var") {
                a.var = e.value.bool_or_false();
            } else if str_eq(p.as_str(), "var_max") {
                a.max = e.value.as_integer();
            } else if str_eq(p.as_str(), "var_min") {
                a.min = e.value.as_integer();
            }
        }
    }
}

/// Applies the first positional value, mirroring [`spec_arg_first`].
fn arg_apply_first(a: &mut Arg, s: &String)
    ensures
        (final(a).v() == spec_arg_first(old(a).v(), s@)),
{
    let n: usize = s.as_str().unicode_len();
    if n > 0 {
        let c0: char = s.as_str().get_char(0);
        if c0 == '<' {
            a.required = true;
            let end: usize = find_char(s.as_str(), '>');
            proof {
                lemma_find_bounds(s@, '>');
            }
            a.name = String::from_str(s.as_str().substring_char(1, end));
            proof {
                assert(a.name@ =~= s@.subrange(1, spec_find(s@, '>')));
            }
        } else if c0 == '[' {
            a.required = false;
            let end: usize = find_char(s.as_str(), ']');
            proof {
                lemma_find_bounds(s@, ']');
            }
            a.name = String::from_str(s.as_str().substring_char(1, end));
            proof {
                assert(a.name@ =~= s@.subrange(1, spec_find(s@, ']')));
            }
        }
    }
    a.repr = s.clone();
}

#[verifier::loop_isolation(false)]
pub fn parse_arg(node: &Node) -> (r: Result<Arg, UError>)
    ensures
        match r {
            Ok(a) => spec_parse_arg(node.v()) == Ok::<ArgV, UErrorV>(a.v()),
            Err(e) => spec_parse_arg(node.v()) == Err::<ArgV, UErrorV>(e.v()),
        },
{
    if !str_eq(node.name.as_str(), "arg") {
        return Err(UError::InvalidNodeName(node.name.clone()));
    }
    let ghost esv = node.v().entries;
    let mut arg = Arg::default();
    match first_positional_string(node) {
        Ok(s) => {
            arg_apply_first(&mut arg, s);
        }
        Err(e) => {
            return Err(e);
        }
    }
    let ghost fold_all = spec_arg_props(esv, 0, arg.v());
    let n: usize = node.entries.len();
    let mut i: usize = 0;
    while i < n
        invariant
            0 <= i <= n,
            spec_arg_props(esv, i as int, arg.v()) == fold_all,
        decreases n - i,
    {
        proof {
            assert(esv[i as int] == node.entries@[i as int].v());
        }
        arg_apply_prop(&mut arg, &node.entries[i]);
        i = i + 1;
    }
    if arg.max.is_none() {
        arg.max = Some(-1);
    }
    if arg.min.is_none() {
        arg.min = Some(0);
    }
    let ghost adef = spec_arg_defaults(fold_all);
    proof {
        assert(arg.v() == adef);
    }
    let ghost csv = node.v().children;
    let ghost cfold_all = spec_arg_children(node.v().children, 0, adef);
    let m: usize = node.children.len();
    let mut j: usize = 0;
    proof {
        crate::node::lemma_nodes_v_of_len(node.children@);
    }
    while j < m
        invariant
            0 <= j <= m,
            spec_arg_children(csv, j as int, arg.v()) == cfold_all,
        decreases m - j,
    {
        proof {
            crate::node::lemma_nodes_v_of_index(node.children@, j as int);
        }
        let c = &node.children[j];
        if str_eq(c.name.as_str(), "choices") {
            match choices_entries(c) {
                Ok(ch) => {
                    arg.choices = ch;
                }
                Err(e) => {
                    return Err(e);
                }
            }
        }
        j = j + 1;
    }
    Ok(arg)
}

// ------------------------------------------------------------------------
// flag
// ------------------------------------------------------------------------

/// The effect of the first positional value on a flag: the whitespace-
/// separated words become the spellings, and the longest word by encoded
/// byte length (ties broken by first occurrence), stripped of leading and
/// trailing dashes and slugified, becomes the canonical name. Without any
/// word the flag keeps its empty name.
pub open spec fn spec_flag_first(f: FlagV, s: Seq<char>) -> FlagV {
    let words = spec_split_ws(s);
    FlagV {
        name: if words.len() > 0 {
            spec_flag_slug(spec_trim_dashes(words[spec_longest_idx(words)]))
        } else {
            f.name
        },
        names: words,
        ..f
    }
}

/// The effect of one named property on a flag.
pub open spec fn spec_flag_prop(f: FlagV, e: EntryV) -> FlagV {
    match e.name {
        Some(p) => if p == "help"@ {
            FlagV { help: spec_str_or_empty(e.value), ..f }
        } else if p == "hide"@ {
            FlagV { hide: spec_bool_or_false(e.value), ..f }
        } else if p == "global"@ {
            FlagV {
                global: if spec_bool_or_false(e.value) {
                    GlobalFlagV::Itself
                } else {
                    GlobalFlagV::NotGlobal
                },
                ..f
            }
        } else if p == "negate"@ {
            let g = spec_str_or_empty(e.value);
            if g.len() > 0 {
                FlagV { names: f.names.push(g), ..f }
            } else {
                f
            }
        } else {
            f
        },
        None => f,
    }
}

pub open spec fn spec_flag_props(es: Seq<EntryV>, i: int, acc: FlagV) -> FlagV
    decreases es.len() - i,
{
    if i < 0 || i >= es.len() {
        acc
    } else {
        spec_flag_props(es, i + 1, spec_flag_prop(acc, es[i]))
    }
}

/// The argument synthesized by a `choices` child of a flag, from the popped
/// last spelling and the parsed choice list.
pub open spec fn spec_choices_arg(nm: Seq<char>, ch: Seq<Seq<char>>) -> ArgV {
    ArgV { name: nm, choices: ch, required: nm.len() > 0 && nm[0] == '<', ..arg_v_default() }
}

pub open spec fn spec_flag_children(cs: Seq<NodeV>, j: int, acc: FlagV) -> Result<FlagV, UErrorV>
    decreases cs.len() - j,
{
    if j < 0 || j >= cs.len() {
        Ok(acc)
    } else {
        let c = cs[j];
        if c.name == "arg"@ {
            match spec_parse_arg(c) {
                Ok(a) => spec_flag_children(cs, j + 1, FlagV { arg: Some(a), ..acc }),
                Err(e) => Err(e),
            }
        } else if c.name == "alias"@ {
            match spec_parse_alias(c) {
                Ok(al) => spec_flag_children(cs, j + 1, FlagV { aliases: al, ..acc }),
                Err(e) => Err(e),
            }
        } else if c.name == "choices"@ {
            if acc.names.len() > 0 {
                let nm = acc.names.last();
                match spec_choices_entries(c.entries, 0, Seq::empty(), c.name) {
                    Ok(ch) => spec_flag_children(
                        cs,
                        j + 1,
                        FlagV {
                            names: acc.names.drop_last(),
                            arg: Some(spec_choices_arg(nm, ch)),
                            ..acc
                        },
                    ),
                    Err(e) => Err(e),
                }
            } else {
                spec_flag_children(cs, j + 1, acc)
            }
        } else {
            spec_flag_children(cs, j + 1, acc)
        }
    }
}

/// A `flag` node: the mandatory first positional string value gives the
/// spellings and canonical name, the named properties are applied in entry
/// order, then the children are read.
pub open spec fn spec_parse_flag(n: NodeV) -> Result<FlagV, UErrorV> {
    if n.name != "flag"@ {
        Err(UErrorV::InvalidNodeName(n.name))
    } else {
        match spec_first_arg(n.entries) {
            Some(ValueV::Str(s)) => spec_flag_children(
                n.children,
                0,
                spec_flag_props(n.entries, 0, spec_flag_first(flag_v_default(), s)),
            ),
            _ => Err(UErrorV::InvalidNodeFirstArg(n.name)),
        }
    }
}

/// Applies one named property to a flag, mirroring [`spec_flag_prop`].
fn flag_apply_prop(f: &mut Flag, e: &Entry)
    ensures
        final(f).v() == spec_flag_prop(old(f).v(), e.v()),
{
    match &e.name {
        None => {}
        Some(p) => {
            if str_eq(p.as_str(), "help") {
                f.help = e.value.str_or_empty();
            } else if str_eq(p.as_str(), "hide") {
                f.hide = e.value.bool_or_false();
            } else if str_eq(p.as_str(), "global") {
                if e.value.bool_or_false() {
                    f.global = GlobalFlag::Itself;
                } else {
                    f.global = GlobalFlag::NotGlobal;
                }
            } else if str_eq(p.as_str(), "negate") {
                let g = e.value.str_or_empty();
                if g.as_str().unicode_len() > 0 {
                    let ghost before = seq_views(f.names@);
                    f.names.push(g);
                    proof {
                        assert(seq_views(f.names@) =~= before.push(g@));
                    }
                }
            }
        }
    }
}

/// Applies the first positional value, mirroring [`spec_flag_first`].
fn flag_apply_first(f: &mut Flag, s: &String)
    ensures
        final(f).v() == spec_flag_first(old(f).v(), s@),
{
    let words = split_ws(s.as_str());
    if words.len() > 0 {
        proof {
            lemma_longest_idx_range(spec_split_ws(s@));
        }
        let li: usize = longest_idx(&words);
        proof {
            assert(seq_views(words@)[li as int] == words@[li as int]@);
        }
        let trimmed = trim_dashes(words[li].as_str());
        f.name = flag_slug(trimmed.as_str());
    }
    f.names = words;
}

#[verifier::loop_isolation(false)]
pub fn parse_flag(node: &Node) -> (r: Result<Flag, UError>)
    ensures
        match r {
            Ok(f) => spec_parse_flag(node.v()) == Ok::<FlagV, UErrorV>(f.v()),
            Err(e) => spec_parse_flag(node.v()) == Err::<FlagV, UErrorV>(e.v()),
        },
{
    if !str_eq(node.name.as_str(), "flag") {
        return Err(UError::InvalidNodeName(node.name.clone()));
    }
    let ghost esv = node.v().entries;
    let mut flag = Flag::default();
    match first_positional_string(node) {
        Ok(s) => {
            flag_apply_first(&mut flag, s);
        }
        Err(e) => {
            return Err(e);
        }
    }
    let ghost fold_all = spec_flag_props(esv, 0, flag.v());
    let n: usize = node.entries.len();
    let mut i: usize = 0;
    while i < n
        invariant
            0 <= i <= n,
            spec_flag_props(esv, i as int, flag.v()) == fold_all,
        decreases n - i,
    {
        proof {
            assert(esv[i as int] == node.entries@[i as int].v());
        }
        flag_apply_prop(&mut flag, &node.entries[i]);
        i = i + 1;
    }
    let ghost fdone = fold_all;
    proof {
        assert(flag.v() == fdone);
    }
    let ghost csv = node.v().children;
    let ghost cfold_all = spec_flag_children(node.v().children, 0, fdone);
    let m: usize = node.children.len();
    let mut j: usize = 0;
    proof {
        crate::node::lemma_nodes_v_of_len(node.children@);
    }
    while j < m
        invariant
            0 <= j <= m,
            spec_flag_children(csv, j as int, flag.v()) == cfold_all,
        decreases m - j,
    {
        proof {
            crate::node::lemma_nodes_v_of_index(node.children@, j as int);
        }
        let c = &node.children[j];
        if str_eq(c.name.as_str(), "arg") {
            match parse_arg(c) {
                Ok(a) => {
                    flag.arg = Some(a);
                }
                Err(e) => {
                    return Err(e);
                }
            }
        } else if str_eq(c.name.as_str(), "alias") {
            match parse_alias(c) {
                Ok(al) => {
                    flag.aliases = al;
                }
                Err(e) => {
                    return Err(e);
                }
            }
        } else if str_eq(c.name.as_str(), "choices") {
            let ghost before_names = seq_views(flag.names@);
            let popped = flag.names.pop();
            match popped {
                Some(nm) => {
                    proof {
                        assert(seq_views(flag.names@) =~= before_names.drop_last());
                        assert(nm@ == before_names.last());
                    }
                    match choices_entries(c) {
                        Ok(ch) => {
                            let mut carg = Arg::default();
                            carg.choices = ch;
                            let nmlen: usize = nm.as_str().unicode_len();
                            if nmlen > 0 {
                                let c0: char = nm.as_str().get_char(0);
                                if c0 == '<' {
                                    carg.required = true;
                                }
                            }
                            carg.name = nm;
                            proof {
                                let chv = seq_views(carg.choices@);
                                assert(carg.v() == spec_choices_arg(carg.name@, chv));
                            }
                            flag.arg = Some(carg);
                        }
                        Err(e) => {
                            return Err(e);
                        }
                    }
                }
                None => {}
            }
        }
        j = j + 1;
    }
    Ok(flag)
}

// ------------------------------------------------------------------------
// cmd, complete, usage
// ------------------------------------------------------------------------

/// The effect of one named property on a command.
pub open spec fn spec_cmd_prop(c: CmdV, e: EntryV) -> CmdV {
    match e.name {
        Some(p) => if p == "help"@ {
            CmdV { help: spec_str_or_empty(e.value), ..c }
        } else if p == "hide"@ {
            CmdV { hide: spec_bool_or_false(e.value), ..c }
        } else {
            c
        },
        None => c,
    }
}

pub open spec fn spec_cmd_props(es: Seq<EntryV>, i: int, acc: CmdV) -> CmdV
    decreases es.len() - i,
{
    if i < 0 || i >= es.len() {
        acc
    } else {
        spec_cmd_props(es, i + 1, spec_cmd_prop(acc, es[i]))
    }
}

/// A `cmd` node: the mandatory first positional string value is the literal
/// command name, the named properties are applied in entry order, then the
/// children accumulate, recursively for nested commands.
pub open spec fn spec_parse_cmd(n: NodeV) -> Result<CmdV, UErrorV>
    decreases n,
{
    if n.name != "cmd"@ {
        Err(UErrorV::InvalidNodeName(n.name))
    } else {
        match spec_first_arg(n.entries) {
            Some(ValueV::Str(s)) => spec_cmd_children(
                n.children,
                0,
                spec_cmd_props(n.entries, 0, CmdV { name: s, ..cmd_v_default() }),
            ),
            _ => Err(UErrorV::InvalidNodeFirstArg(n.name)),
        }
    }
}

pub open spec fn spec_cmd_children(cs: Seq<NodeV>, j: int, acc: CmdV) -> Result<CmdV, UErrorV>
    decreases cs, cs.len() - j,
{
    if j < 0 || j >= cs.len() {
        Ok(acc)
    } else {
        let c = cs[j];
        if c.name == "alias"@ {
            match spec_parse_alias(c) {
                Ok(al) => spec_cmd_children(cs, j + 1, CmdV { aliases: acc.aliases + al, ..acc }),
                Err(e) => Err(e),
            }
        } else if c.name == "flag"@ {
            match spec_parse_flag(c) {
                Ok(f) => spec_cmd_children(cs, j + 1, CmdV { flags: acc.flags.push(f), ..acc }),
                Err(e) => Err(e),
            }
        } else if c.name == "arg"@ {
            match spec_parse_arg(c) {
                Ok(a) => spec_cmd_children(cs, j + 1, CmdV { args: acc.args.push(a), ..acc }),
                Err(e) => Err(e),
            }
        } else if c.name == "cmd"@ {
            match spec_parse_cmd(c) {
                Ok(ch) => spec_cmd_children(cs, j + 1, CmdV { cmds: acc.cmds.push(ch), ..acc }),
                Err(e) => Err(e),
            }
        } else {
            spec_cmd_children(cs, j + 1, acc)
        }
    }
}

/// Applies one named property to a command, mirroring [`spec_cmd_prop`].
fn cmd_apply_prop(c: &mut Cmd, e: &Entry)
    ensures
        final(c).v() == spec_cmd_prop(old(c).v(), e.v()),
{
    match &e.name {
        None => {}
        Some(p) => {
            if str_eq(p.as_str(), "help") {
                c.help = e.value.str_or_empty();
            } else if str_eq(p.as_str(), "hide") {
                c.hide = e.value.bool_or_false();
            }
        }
    }
}

#[verifier::loop_isolation(false)]
pub fn parse_cmd(node: &Node) -> (r: Result<Cmd, UError>)
    ensures
        match r {
            Ok(c) => spec_parse_cmd(node.v()) == Ok::<CmdV, UErrorV>(c.v()),
            Err(e) => spec_parse_cmd(node.v()) == Err::<CmdV, UErrorV>(e.v()),
        },
    decreases *node,
{
    if !str_eq(node.name.as_str(), "cmd") {
        return Err(UError::InvalidNodeName(node.name.clone()));
    }
    let ghost esv = node.v().entries;
    let mut cmd = Cmd::default();
    match first_positional_string(node) {
        Ok(s) => {
            cmd.name = s.clone();
        }
        Err(e) => {
            return Err(e);
        }
    }
    let ghost fold_all = spec_cmd_props(esv, 0, cmd.v());
    let n: usize = node.entries.len();
    let mut i: usize = 0;
    while i < n
        invariant
            0 <= i <= n,
            spec_cmd_props(esv, i as int, cmd.v()) == fold_all,
        decreases n - i,
    {
        proof {
            assert(esv[i as int] == node.entries@[i as int].v());
        }
        cmd_apply_prop(&mut cmd, &node.entries[i]);
        i = i + 1;
    }
    let ghost cdone = fold_all;
    proof {
        assert(cmd.v() == cdone);
    }
    let ghost csv = node.v().children;
    let ghost cfold_all = spec_cmd_children(node.v().children, 0, cdone);
    let m: usize = node.children.len();
    let mut j: usize = 0;
    proof {
        crate::node::lemma_nodes_v_of_len(node.children@);
    }
    while j < m
        invariant
            0 <= j <= m,
            spec_cmd_children(csv, j as int, cmd.v()) == cfold_all,
        decreases m - j,
    {
        proof {
            crate::node::lemma_nodes_v_of_index(node.children@, j as int);
        }
        let c = &node.children[j];
        if str_eq(c.name.as_str(), "alias") {
            match parse_alias(c) {
                Ok(mut al) => {
                    let ghost before = aliases_v(cmd.aliases@);
                    let ghost alv = aliases_v(al@);
                    cmd.aliases.append(&mut al);
                    proof {
                        assert(aliases_v(cmd.aliases@) =~= before + alv);
                    }
                }
                Err(e) => {
                    return Err(e);
                }
            }
        } else if str_eq(c.name.as_str(), "flag") {
            match parse_flag(c) {
                Ok(f) => {
                    let ghost before = flags_v(cmd.flags@);
                    let ghost fv = f.v();
                    cmd.flags.push(f);
                    proof {
                        assert(flags_v(cmd.flags@) =~= before.push(fv));
                    }
                }
                Err(e) => {
                    return Err(e);
                }
            }
        } else if str_eq(c.name.as_str(), "arg") {
            match parse_arg(c) {
                Ok(a) => {
                    let ghost before = args_v(cmd.args@);
                    let ghost av = a.v();
                    cmd.args.push(a);
                    proof {
                        assert(args_v(cmd.args@) =~= before.push(av));
                    }
                }
                Err(e) => {
                    return Err(e);
                }
            }
        } else if str_eq(c.name.as_str(), "cmd") {
            proof {
                assert(decreases_to!(*node => node.children));
                assert(decreases_to!(node.children => node.children@));
                assert(decreases_to!(node.children@ => node.children@[j as int]));
            }
            match parse_cmd(&node.children[j]) {
                Ok(ch) => {
                    let ghost oldcmds = cmd.cmds@;
                    let ghost chg = ch;
                    cmd.cmds.push(ch);
                    proof {
                        lemma_cmds_v_push(oldcmds, chg);
                    }
                }
                Err(e) => {
                    return Err(e);
                }
            }
        }
        j = j + 1;
    }
    Ok(cmd)
}

/// The effect of one named property on a completion binding.
pub open spec fn spec_complete_prop(c: CompleteV, e: EntryV) -> CompleteV {
    match e.name {
        Some(p) => if p == "descriptions"@ {
            CompleteV { descs: spec_bool_or_false(e.value), ..c }
        } else if p == "run"@ {
            CompleteV { kind: CompleteKindV::Run(spec_str_or_empty(e.value)), ..c }
        } else if p == "type"@ {
            if spec_str_or_empty(e.value) == "file"@ {
                CompleteV { kind: CompleteKindV::File, ..c }
            } else {
                c
            }
        } else {
            c
        },
        None => c,
    }
}

pub open spec fn spec_complete_props(es: Seq<EntryV>, i: int, acc: CompleteV) -> CompleteV
    decreases es.len() - i,
{
    if i < 0 || i >= es.len() {
        acc
    } else {
        spec_complete_props(es, i + 1, spec_complete_prop(acc, es[i]))
    }
}

/// A `complete` node: the mandatory first positional string value is the
/// binding name, the named properties are applied in entry order.
pub open spec fn spec_parse_complete(n: NodeV) -> Result<CompleteV, UErrorV> {
    if n.name != "complete"@ {
        Err(UErrorV::InvalidNodeName(n.name))
    } else {
        match spec_first_arg(n.entries) {
            Some(ValueV::Str(s)) => Ok(
                spec_complete_props(n.entries, 0, CompleteV { name: s, ..complete_v_default() }),
            ),
            _ => Err(UErrorV::InvalidNodeFirstArg(n.name)),
        }
    }
}

/// Applies one named property, mirroring [`spec_complete_prop`].
fn complete_apply_prop(c: &mut Complete, e: &Entry)
    ensures
        final(c).v() == spec_complete_prop(old(c).v(), e.v()),
{
    match &e.name {
        None => {}
        Some(p) => {
            if str_eq(p.as_str(), "descriptions") {
                c.descs = e.value.bool_or_false();
            } else if str_eq(p.as_str(), "run") {
                c.kind = CompleteKind::Run(e.value.str_or_empty());
            } else if str_eq(p.as_str(), "type") {
                let t = e.value.str_or_empty();
                if str_eq(t.as_str(), "file") {
                    c.kind = CompleteKind::File;
                }
            }
        }
    }
}

#[verifier::loop_isolation(false)]
pub fn parse_complete(node: &Node) -> (r: Result<Complete, UError>)
    ensures
        match r {
            Ok(c) => spec_parse_complete(node.v()) == Ok::<CompleteV, UErrorV>(c.v()),
            Err(e) => spec_parse_complete(node.v()) == Err::<CompleteV, UErrorV>(e.v()),
        },
{
    if !str_eq(node.name.as_str(), "complete") {
        return Err(UError::InvalidNodeName(node.name.clone()));
    }
    let ghost esv = node.v().entries;
    let mut complete = Complete::default();
    match first_positional_string(node) {
        Ok(s) => {
            complete.name = s.clone();
        }
        Err(e) => {
            return Err(e);
        }
    }
    let ghost fold_all = spec_complete_props(esv, 0, complete.v());
    let n: usize = node.entries.len();
    let mut i: usize = 0;
    while i < n
        invariant
            0 <= i <= n,
            spec_complete_props(esv, i as int, complete.v()) == fold_all,
        decreases n - i,
    {
        proof {
            assert(esv[i as int] == node.entries@[i as int].v());
        }
        complete_apply_prop(&mut complete, &node.entries[i]);
        i = i + 1;
    }
    Ok(complete)
}

/// The parsed declaration carried by a node: flags, arguments, commands and
/// completion bindings; a completion without a recognized kind is dropped;
/// any other node kind is ignored.
pub open spec fn spec_parse_usage(n: NodeV) -> Result<Option<UsageV>, UErrorV> {
    if n.name == "flag"@ {
        match spec_parse_flag(n) {
            Ok(f) => Ok(Some(UsageV::Flag(f))),
            Err(e) => Err(e),
        }
    } else if n.name == "arg"@ {
        match spec_parse_arg(n) {
            Ok(a) => Ok(Some(UsageV::Arg(a))),
            Err(e) => Err(e),
        }
    } else if n.name == "cmd"@ {
        match spec_parse_cmd(n) {
            Ok(c) => Ok(Some(UsageV::Cmd(c))),
            Err(e) => Err(e),
        }
    } else if n.name == "complete"@ {
        match spec_parse_complete(n) {
            Ok(c) => if !(c.kind is Unspecified) {
                Ok(Some(UsageV::Complete(c)))
            } else {
                Ok(None)
            },
            Err(e) => Err(e),
        }
    } else {
        Ok(None)
    }
}

pub fn parse_usage(node: &Node) -> (r: Result<Option<Usage>, UError>)
    ensures
        match r {
            Ok(Some(u)) => spec_parse_usage(node.v()) == Ok::<Option<UsageV>, UErrorV>(
                Some(u.v()),
            ),
            Ok(None) => spec_parse_usage(node.v()) == Ok::<Option<UsageV>, UErrorV>(None),
            Err(e) => spec_parse_usage(node.v()) == Err::<Option<UsageV>, UErrorV>(e.v()),
        },
{
    if str_eq(node.name.as_str(), "flag") {
        match parse_flag(node) {
            Ok(f) => Ok(Some(Usage::Flag(f))),
            Err(e) => Err(e),
        }
    } else if str_eq(node.name.as_str(), "arg") {
        match parse_arg(node) {
            Ok(a) => Ok(Some(Usage::Arg(a))),
            Err(e) => Err(e),
        }
    } else if str_eq(node.name.as_str(), "cmd") {
        match parse_cmd(node) {
            Ok(c) => Ok(Some(Usage::Cmd(c))),
            Err(e) => Err(e),
        }
    } else if str_eq(node.name.as_str(), "complete") {
        match parse_complete(node) {
            Ok(c) => {
                if !c.kind.is_none() {
                    Ok(Some(Usage::Complete(c)))
                } else {
                    Ok(None)
                }
            }
            Err(e) => Err(e),
        }
    } else {
        Ok(None)
    }
}

} // verus!
