//! The document model: a usage specification's info, flags, arguments,
//! command tree and completion bindings, together with the mathematical
//! models the contracts speak over. Flags compare by canonical name plus the
//! set of spellings; arguments, commands and completions by name alone.

use vstd::prelude::*;

verus! {

broadcast use vstd::std_specs::vec::group_vec_axioms;

use vstd::pervasive::VecAdditionalExecFns;
use vstd::string::StringExecFns;
use crate::namespace::NameSpace;
use crate::strutil::clone_strings;
use crate::strutil::str_eq;

/// Display and binary identity of a specification.
pub struct Info {
    pub name: String,
    pub bin: String,
}

/// Whether a flag is global: not at all, declared global at its own scope, or
/// a synthetic copy imposed by the scope named by the namespace.
pub enum GlobalFlag {
    NotGlobal,
    Itself,
    Imposed(NameSpace),
}

/// An alternative spelling of a flag or command.
pub struct Alias {
    pub name: String,
    pub hide: bool,
}

pub struct Flag {
    pub name: String,
    pub names: Vec<String>,
    pub help: String,
    pub hide: bool,
    pub global: GlobalFlag,
    pub aliases: Vec<Alias>,
    pub arg: Option<Arg>,
}

pub struct Arg {
    pub name: String,
    pub repr: String,
    pub required: bool,
    pub choices: Vec<String>,
    pub hide: bool,
    pub var: bool,
    pub min: Option<i128>,
    pub max: Option<i128>,
    pub default: Option<String>,
}

/// A node of the command tree; children are exclusively owned.
pub struct Cmd {
    pub name: String,
    pub help: String,
    pub hide: bool,
    pub args: Vec<Arg>,
    pub flags: Vec<Flag>,
    pub aliases: Vec<Alias>,
    pub cmds: Vec<Cmd>,
}

pub enum CompleteKind {
    Unspecified,
    File,
    Dir,
    Run(String),
}

/// A completion binding for an argument name.
pub struct Complete {
    pub name: String,
    pub kind: CompleteKind,
    pub descs: bool,
}

/// One parsed declaration.
pub enum Usage {
    Flag(Flag),
    Arg(Arg),
    Cmd(Cmd),
    Complete(Complete),
}

/// The completion bindings, keyed by lower-cased argument name; insertion
/// replaces on an existing key, and keys stay unique.
pub struct CompleteMap {
    pub entries: Vec<CompleteEntry>,
}

pub struct CompleteEntry {
    pub key: String,
    pub value: Complete,
}

/// The root unit of a parsed specification.
pub struct UsageSpec {
    pub info: Info,
    pub flags: Vec<Flag>,
    pub args: Vec<Arg>,
    pub cmds: Vec<Cmd>,
    pub completes: CompleteMap,
}

/// A parse failure: either a declaration node of an unexpected kind, or a
/// node lacking a usable first positional value. The payload names the node.
#[derive(Debug)]
pub enum UError {
    InvalidNodeName(String),
    InvalidNodeFirstArg(String),
}

// ------------------------------------------------------------------------
// Mathematical models
// ------------------------------------------------------------------------

pub struct InfoV {
    pub name: Seq<char>,
    pub bin: Seq<char>,
}

pub enum GlobalFlagV {
    NotGlobal,
    Itself,
    Imposed(Seq<Seq<char>>),
}

pub struct AliasV {
    pub name: Seq<char>,
    pub hide: bool,
}

pub struct FlagV {
    pub name: Seq<char>,
    pub names: Seq<Seq<char>>,
    pub help: Seq<char>,
    pub hide: bool,
    pub global: GlobalFlagV,
    pub aliases: Seq<AliasV>,
    pub arg: Option<ArgV>,
}

pub struct ArgV {
    pub name: Seq<char>,
    pub repr: Seq<char>,
    pub required: bool,
    pub choices: Seq<Seq<char>>,
    pub hide: bool,
    pub var: bool,
    pub min: Option<int>,
    pub max: Option<int>,
    pub default: Option<Seq<char>>,
}

pub struct CmdV {
    pub name: Seq<char>,
    pub help: Seq<char>,
    pub hide: bool,
    pub args: Seq<ArgV>,
    pub flags: Seq<FlagV>,
    pub aliases: Seq<AliasV>,
    pub cmds: Seq<CmdV>,
}

pub enum CompleteKindV {
    Unspecified,
    File,
    Dir,
    Run(Seq<char>),
}

pub struct CompleteV {
    pub name: Seq<char>,
    pub kind: CompleteKindV,
    pub descs: bool,
}

pub struct UsageSpecV {
    pub info: InfoV,
    pub flags: Seq<FlagV>,
    pub args: Seq<ArgV>,
    pub cmds: Seq<CmdV>,
    pub completes: Seq<(Seq<char>, CompleteV)>,
}

impl Info {
    pub open spec fn v(&self) -> InfoV {
        InfoV { name: self.name@, bin: self.bin@ }
    }
}

impl GlobalFlag {
    pub open spec fn v(&self) -> GlobalFlagV {
        match self {
            GlobalFlag::NotGlobal => GlobalFlagV::NotGlobal,
            GlobalFlag::Itself => GlobalFlagV::Itself,
            GlobalFlag::Imposed(ns) => GlobalFlagV::Imposed(ns.segs()),
        }
    }
}

impl Alias {
    pub open spec fn v(&self) -> AliasV {
        AliasV { name: self.name@, hide: self.hide }
    }
}

pub open spec fn aliases_v(s: Seq<Alias>) -> Seq<AliasV> {
    Seq::new(s.len(), |i: int| s[i].v())
}

impl Arg {
    pub open spec fn v(&self) -> ArgV {
        ArgV {
            name: self.name@,
            repr: self.repr@,
            required: self.required,
            choices: crate::strutil::seq_views(self.choices@),
            hide: self.hide,
            var: self.var,
            min: match self.min {
                Some(i) => Some(i as int),
                None => None,
            },
            max: match self.max {
                Some(i) => Some(i as int),
                None => None,
            },
            default: match &self.default {
                Some(d) => Some(d@),
                None => None,
            },
        }
    }
}

pub open spec fn args_v(s: Seq<Arg>) -> Seq<ArgV> {
    Seq::new(s.len(), |i: int| s[i].v())
}

impl Flag {
    pub open spec fn v(&self) -> FlagV {
        FlagV {
            name: self.name@,
            names: crate::strutil::seq_views(self.names@),
            help: self.help@,
            hide: self.hide,
            global: self.global.v(),
            aliases: aliases_v(self.aliases@),
            arg: match &self.arg {
                Some(a) => Some(a.v()),
                None => None,
            },
        }
    }
}

pub open spec fn flags_v(s: Seq<Flag>) -> Seq<FlagV> {
    Seq::new(s.len(), |i: int| s[i].v())
}

impl Cmd {
    pub open spec fn v(&self) -> CmdV
        decreases *self,
    {
        CmdV {
            name: self.name@,
            help: self.help@,
            hide: self.hide,
            args: args_v(self.args@),
            flags: flags_v(self.flags@),
            aliases: aliases_v(self.aliases@),
            cmds: cmds_v(self.cmds@),
        }
    }
}

pub open spec fn cmds_v(s: Seq<Cmd>) -> Seq<CmdV>
    decreases s,
{
    if s.len() == 0 {
        Seq::empty()
    } else {
        seq![s[0].v()] + cmds_v(s.drop_first())
    }
}

pub proof fn lemma_cmds_v_len(s: Seq<Cmd>)
    ensures
        cmds_v(s).len() == s.len(),
    decreases s.len(),
{
    if s.len() > 0 {
        lemma_cmds_v_len(s.drop_first());
    }
}

pub broadcast proof fn lemma_cmds_v_index(s: Seq<Cmd>, i: int)
    requires
        0 <= i < s.len(),
    ensures
        cmds_v(s).len() == s.len(),
        #[trigger] cmds_v(s)[i] == s[i].v(),
    decreases s.len(),
{
    lemma_cmds_v_len(s);
    if i > 0 {
        lemma_cmds_v_index(s.drop_first(), i - 1);
    }
}

impl CompleteKind {
    pub open spec fn v(&self) -> CompleteKindV {
        match self {
            CompleteKind::Unspecified => CompleteKindV::Unspecified,
            CompleteKind::File => CompleteKindV::File,
            CompleteKind::Dir => CompleteKindV::Dir,
            CompleteKind::Run(s) => CompleteKindV::Run(s@),
        }
    }
}

impl Complete {
    pub open spec fn v(&self) -> CompleteV {
        CompleteV { name: self.name@, kind: self.kind.v(), descs: self.descs }
    }
}

impl CompleteMap {
    pub open spec fn v(&self) -> Seq<(Seq<char>, CompleteV)> {
        Seq::new(self.entries@.len(), |i: int| (self.entries@[i].key@, self.entries@[i].value.v()))
    }
}

impl UsageSpec {
    pub open spec fn v(&self) -> UsageSpecV {
        UsageSpecV {
            info: self.info.v(),
            flags: flags_v(self.flags@),
            args: args_v(self.args@),
            cmds: cmds_v(self.cmds@),
            completes: self.completes.v(),
        }
    }
}

// ------------------------------------------------------------------------
// Equality keys
// ------------------------------------------------------------------------

/// Whether the sequence holds the given string.
pub open spec fn contains_view(vs: Seq<Seq<char>>, x: Seq<char>) -> bool {
    exists|i: int| 0 <= i < vs.len() && vs[i] == x
}

/// Two spelling lists carry the same set of names.
pub open spec fn same_name_set(a: Seq<Seq<char>>, b: Seq<Seq<char>>) -> bool {
    &&& forall|i: int| 0 <= i < a.len() ==> contains_view(b, #[trigger] a[i])
    &&& forall|i: int| 0 <= i < b.len() ==> contains_view(a, #[trigger] b[i])
}

/// The merge/dedup key of a flag: canonical name, same number of spellings,
/// and the same set of spellings regardless of order.
pub open spec fn flag_eq_key(a: FlagV, b: FlagV) -> bool {
    a.name == b.name && a.names.len() == b.names.len() && same_name_set(a.names, b.names)
}

/// Whether every string of `a` occurs somewhere in `b`.
fn contains_all(a: &Vec<String>, b: &Vec<String>) -> (r: bool)
    ensures
        r == (forall|i: int|
            0 <= i < a@.len() ==> contains_view(
                crate::strutil::seq_views(b@),
                #[trigger] crate::strutil::seq_views(a@)[i],
            )),
{
    let n: usize = a.len();
    let mut i: usize = 0;
    while i < n
        invariant
            n == a@.len(),
            0 <= i <= n,
            forall|j: int|
                0 <= j < i ==> contains_view(
                    crate::strutil::seq_views(b@),
                    #[trigger] crate::strutil::seq_views(a@)[j],
                ),
        decreases n - i,
    {
        if !contains_one(b, &a[i]) {
            proof {
                assert(crate::strutil::seq_views(a@)[i as int] == a@[i as int]@);
            }
            return false;
        }
        i = i + 1;
    }
    true
}

/// Whether `x` occurs in `b`.
fn contains_one(b: &Vec<String>, x: &String) -> (r: bool)
    ensures
        r == contains_view(crate::strutil::seq_views(b@), x@),
{
    let n: usize = b.len();
    let mut i: usize = 0;
    while i < n
        invariant
            n == b@.len(),
            0 <= i <= n,
            forall|j: int| 0 <= j < i ==> crate::strutil::seq_views(b@)[j] != x@,
        decreases n - i,
    {
        if str_eq(b[i].as_str(), x.as_str()) {
            proof {
                assert(crate::strutil::seq_views(b@)[i as int] == x@);
            }
            return true;
        }
        i = i + 1;
    }
    false
}

impl PartialEq for Flag {
    fn eq(&self, other: &Self) -> bool {
        str_eq(self.name.as_str(), other.name.as_str()) && self.names.len() == other.names.len()
            && contains_all(&self.names, &other.names) && contains_all(&other.names, &self.names)
    }
}

impl vstd::std_specs::cmp::PartialEqSpecImpl for Flag {
    open spec fn obeys_eq_spec() -> bool {
        true
    }

    open spec fn eq_spec(&self, other: &Self) -> bool {
        flag_eq_key(self.v(), other.v())
    }
}

impl Eq for Flag {}

impl PartialEq for Arg {
    fn eq(&self, other: &Self) -> bool {
        str_eq(self.name.as_str(), other.name.as_str())
    }
}

impl vstd::std_specs::cmp::PartialEqSpecImpl for Arg {
    open spec fn obeys_eq_spec() -> bool {
        true
    }

    open spec fn eq_spec(&self, other: &Self) -> bool {
        self.name@ == other.name@
    }
}

impl Eq for Arg {}

impl PartialEq for Cmd {
    fn eq(&self, other: &Self) -> bool {
        str_eq(self.name.as_str(), other.name.as_str())
    }
}

impl vstd::std_specs::cmp::PartialEqSpecImpl for Cmd {
    open spec fn obeys_eq_spec() -> bool {
        true
    }

    open spec fn eq_spec(&self, other: &Self) -> bool {
        self.name@ == other.name@
    }
}

impl Eq for Cmd {}

impl PartialEq for Complete {
    fn eq(&self, other: &Self) -> bool {
        str_eq(self.name.as_str(), other.name.as_str())
    }
}

impl vstd::std_specs::cmp::PartialEqSpecImpl for Complete {
    open spec fn obeys_eq_spec() -> bool {
        true
    }

    open spec fn eq_spec(&self, other: &Self) -> bool {
        self.name@ == other.name@
    }
}

impl Eq for Complete {}

// ------------------------------------------------------------------------
// Clones that keep the model
// ------------------------------------------------------------------------

impl Clone for Info {
    fn clone(&self) -> (r: Self)
        ensures
            r.v() == self.v(),
    {
        Info { name: self.name.clone(), bin: self.bin.clone() }
    }
}

impl Clone for GlobalFlag {
    fn clone(&self) -> (r: Self)
        ensures
            r.v() == self.v(),
    {
        match self {
            GlobalFlag::NotGlobal => GlobalFlag::NotGlobal,
            GlobalFlag::Itself => GlobalFlag::Itself,
            GlobalFlag::Imposed(ns) => GlobalFlag::Imposed(ns.clone()),
        }
    }
}

impl Clone for Alias {
    fn clone(&self) -> (r: Self)
        ensures
            r.v() == self.v(),
    {
        Alias { name: self.name.clone(), hide: self.hide }
    }
}

fn clone_aliases(v: &Vec<Alias>) -> (r: Vec<Alias>)
    ensures
        aliases_v(r@) == aliases_v(v@),
{
    let r = v.clone();
    proof {
        assert forall|i: int| 0 <= i < v@.len() implies r@[i].v() == v@[i].v() by {
            assert(vstd::pervasive::cloned::<Alias>(v@[i], r@[i]));
        }
        assert(aliases_v(r@) =~= aliases_v(v@));
    }
    r
}

impl Clone for Arg {
    fn clone(&self) -> (r: Self)
        ensures
            r.v() == self.v(),
    {
        Arg {
            name: self.name.clone(),
            repr: self.repr.clone(),
            required: self.required,
            choices: clone_strings(&self.choices),
            hide: self.hide,
            var: self.var,
            min: self.min,
            max: self.max,
            default: match &self.default {
                Some(d) => Some(d.clone()),
                None => None,
            },
        }
    }
}

impl Clone for Flag {
    fn clone(&self) -> (r: Self)
        ensures
            r.v() == self.v(),
    {
        Flag {
            name: self.name.clone(),
            names: clone_strings(&self.names),
            help: self.help.clone(),
            hide: self.hide,
            global: self.global.clone(),
            aliases: clone_aliases(&self.aliases),
            arg: match &self.arg {
                Some(a) => Some(a.clone()),
                None => None,
            },
        }
    }
}

pub fn clone_flags(v: &Vec<Flag>) -> (r: Vec<Flag>)
    ensures
        flags_v(r@) == flags_v(v@),
{
    let r = v.clone();
    proof {
        assert forall|i: int| 0 <= i < v@.len() implies r@[i].v() == v@[i].v() by {
            assert(vstd::pervasive::cloned::<Flag>(v@[i], r@[i]));
        }
        assert(flags_v(r@) =~= flags_v(v@));
    }
    r
}

pub fn clone_args(v: &Vec<Arg>) -> (r: Vec<Arg>)
    ensures
        args_v(r@) == args_v(v@),
{
    let r = v.clone();
    proof {
        assert forall|i: int| 0 <= i < v@.len() implies r@[i].v() == v@[i].v() by {
            assert(vstd::pervasive::cloned::<Arg>(v@[i], r@[i]));
        }
        assert(args_v(r@) =~= args_v(v@));
    }
    r
}

impl Clone for Cmd {
    fn clone(&self) -> (r: Self)
        ensures
            r.v() == self.v(),
        decreases *self,
    {
        proof {
            assert(decreases_to!(*self => self.cmds));
            assert(decreases_to!(self.cmds => self.cmds@));
        }
        Cmd {
            name: self.name.clone(),
            help: self.help.clone(),
            hide: self.hide,
            args: clone_args(&self.args),
            flags: clone_flags(&self.flags),
            aliases: clone_aliases(&self.aliases),
            cmds: clone_cmds(&self.cmds),
        }
    }
}

pub fn clone_cmds(v: &Vec<Cmd>) -> (r: Vec<Cmd>)
    ensures
        cmds_v(r@) == cmds_v(v@),
    decreases v@,
{
    let n: usize = v.len();
    let mut r: Vec<Cmd> = Vec::new();
    let mut i: usize = 0;
    while i < n
        invariant
            n == v@.len(),
            0 <= i <= n,
            r@.len() == i,
            forall|j: int| 0 <= j < i ==> #[trigger] r@[j].v() == v@[j].v(),
        decreases n - i,
    {
        proof {
            assert(decreases_to!(v@ => v@[i as int]));
        }
        let c = v[i].clone();
        r.push(c);
        i = i + 1;
    }
    proof {
        lemma_cmds_v_pointwise(r@, v@);
    }
    r
}

proof fn lemma_cmds_v_pointwise(a: Seq<Cmd>, b: Seq<Cmd>)
    requires
        a.len() == b.len(),
        forall|i: int| 0 <= i < a.len() ==> #[trigger] a[i].v() == b[i].v(),
    ensures
        cmds_v(a) == cmds_v(b),
    decreases a.len(),
{
    if a.len() == 0 {
        assert(cmds_v(a) =~= cmds_v(b));
    } else {
        assert forall|i: int| 0 <= i < a.drop_first().len() implies #[trigger] a.drop_first()[i].v()
            == b.drop_first()[i].v() by {
            assert(a.drop_first()[i] == a[i + 1]);
            assert(b.drop_first()[i] == b[i + 1]);
        }
        lemma_cmds_v_pointwise(a.drop_first(), b.drop_first());
        assert(a[0].v() == b[0].v());
    }
}

impl Clone for CompleteKind {
    fn clone(&self) -> (r: Self)
        ensures
            r.v() == self.v(),
    {
        match self {
            CompleteKind::Unspecified => CompleteKind::Unspecified,
            CompleteKind::File => CompleteKind::File,
            CompleteKind::Dir => CompleteKind::Dir,
            CompleteKind::Run(s) => CompleteKind::Run(s.clone()),
        }
    }
}

impl Clone for Complete {
    fn clone(&self) -> (r: Self)
        ensures
            r.v() == self.v(),
    {
        Complete { name: self.name.clone(), kind: self.kind.clone(), descs: self.descs }
    }
}

impl Clone for CompleteEntry {
    fn clone(&self) -> (r: Self)
        ensures
            r.key@ == self.key@,
            r.value.v() == self.value.v(),
    {
        CompleteEntry { key: self.key.clone(), value: self.value.clone() }
    }
}

impl Clone for CompleteMap {
    fn clone(&self) -> (r: Self)
        ensures
            r.v() == self.v(),
    {
        let entries = self.entries.clone();
        proof {
            assert forall|i: int| 0 <= i < self.entries@.len() implies entries@[i].key@
                == self.entries@[i].key@ && entries@[i].value.v() == self.entries@[i].value.v() by {
                assert(vstd::pervasive::cloned::<CompleteEntry>(self.entries@[i], entries@[i]));
            }
        }
        let r = CompleteMap { entries };
        proof {
            assert(r.v() =~= self.v());
        }
        r
    }
}

impl Clone for UsageSpec {
    fn clone(&self) -> (r: Self)
        ensures
            r.v() == self.v(),
    {
        UsageSpec {
            info: self.info.clone(),
            flags: clone_flags(&self.flags),
            args: clone_args(&self.args),
            cmds: clone_cmds(&self.cmds),
            completes: self.completes.clone(),
        }
    }
}

// ------------------------------------------------------------------------
// The completes map
// ------------------------------------------------------------------------

/// The value bound to the first occurrence of the key.
pub open spec fn spec_lookup(es: Seq<(Seq<char>, CompleteV)>, k: Seq<char>) -> Option<CompleteV>
    decreases es.len(),
{
    if es.len() == 0 {
        None
    } else if es[0].0 == k {
        Some(es[0].1)
    } else {
        spec_lookup(es.drop_first(), k)
    }
}

/// Binding a key: the first occurrence is replaced in place, a fresh key is
/// appended at the end.
pub open spec fn spec_insert(
    es: Seq<(Seq<char>, CompleteV)>,
    k: Seq<char>,
    v: CompleteV,
) -> Seq<(Seq<char>, CompleteV)>
    decreases es.len(),
{
    if es.len() == 0 {
        seq![(k, v)]
    } else if es[0].0 == k {
        seq![(k, v)] + es.drop_first()
    } else {
        seq![es[0]] + spec_insert(es.drop_first(), k, v)
    }
}

/// Keys occur at most once.
pub open spec fn completes_wf(es: Seq<(Seq<char>, CompleteV)>) -> bool {
    forall|i: int, j: int| 0 <= i < j < es.len() ==> es[i].0 != es[j].0
}

pub proof fn lemma_insert_lookup(es: Seq<(Seq<char>, CompleteV)>, k: Seq<char>, v: CompleteV)
    ensures
        spec_lookup(spec_insert(es, k, v), k) == Some(v),
        forall|k2: Seq<char>|
            k2 != k ==> #[trigger] spec_lookup(spec_insert(es, k, v), k2) == spec_lookup(es, k2),
        completes_wf(es) ==> completes_wf(spec_insert(es, k, v)),
    decreases es.len(),
{
    if es.len() == 0 {
        let out = spec_insert(es, k, v);
        assert forall|k2: Seq<char>| k2 != k implies #[trigger] spec_lookup(out, k2)
            == spec_lookup(es, k2) by {
            assert(out.drop_first() =~= es);
        }
    } else if es[0].0 == k {
        let out = seq![(k, v)] + es.drop_first();
        assert(out.drop_first() =~= es.drop_first());
        assert forall|k2: Seq<char>| k2 != k implies #[trigger] spec_lookup(out, k2)
            == spec_lookup(es, k2) by {
            assert(spec_lookup(out, k2) == spec_lookup(es.drop_first(), k2));
            assert(spec_lookup(es, k2) == spec_lookup(es.drop_first(), k2));
        }
    } else {
        lemma_insert_lookup(es.drop_first(), k, v);
        let out = seq![es[0]] + spec_insert(es.drop_first(), k, v);
        assert(out.drop_first() =~= spec_insert(es.drop_first(), k, v));
        assert forall|k2: Seq<char>| k2 != k implies #[trigger] spec_lookup(out, k2)
            == spec_lookup(es, k2) by {
            if es[0].0 == k2 {
            } else {
                assert(spec_lookup(out, k2) == spec_lookup(spec_insert(es.drop_first(), k, v), k2));
                assert(spec_lookup(es, k2) == spec_lookup(es.drop_first(), k2));
            }
        }
        if completes_wf(es) {
            assert forall|i: int, j: int| 0 <= i < j < es.drop_first().len() implies es.drop_first()[i].0
                != es.drop_first()[j].0 by {
                assert(es.drop_first()[i] == es[i + 1]);
                assert(es.drop_first()[j] == es[j + 1]);
            }
            // the fresh head key differs from every key behind it
            lemma_insert_keys(es.drop_first(), k, v);
            assert forall|i: int, j: int| 0 <= i < j < out.len() implies out[i].0 != out[j].0 by {
                if i == 0 {
                    let tail = spec_insert(es.drop_first(), k, v);
                    assert(out[j] == tail[j - 1]);
                } else {
                    let tail = spec_insert(es.drop_first(), k, v);
                    assert(out[i] == tail[i - 1]);
                    assert(out[j] == tail[j - 1]);
                }
            }
        }
    }
}

/// Every key after an insert is an old key or the inserted one.
pub proof fn lemma_insert_keys(es: Seq<(Seq<char>, CompleteV)>, k: Seq<char>, v: CompleteV)
    ensures
        forall|j: int|
            0 <= j < spec_insert(es, k, v).len() ==> (#[trigger] spec_insert(es, k, v)[j].0 == k
                || exists|i: int| 0 <= i < es.len() && es[i].0 == spec_insert(es, k, v)[j].0),
    decreases es.len(),
{
    if es.len() == 0 {
    } else if es[0].0 == k {
        let out = seq![(k, v)] + es.drop_first();
        assert forall|j: int| 0 <= j < out.len() implies (out[j].0 == k || exists|i: int|
            0 <= i < es.len() && es[i].0 == out[j].0) by {
            if j > 0 {
                assert(es[j] == out[j]);
            }
        }
    } else {
        lemma_insert_keys(es.drop_first(), k, v);
        let out = seq![es[0]] + spec_insert(es.drop_first(), k, v);
        assert forall|j: int| 0 <= j < out.len() implies (out[j].0 == k || exists|i: int|
            0 <= i < es.len() && es[i].0 == out[j].0) by {
            if j == 0 {
                assert(es[0].0 == out[0].0);
            } else {
                let tail = spec_insert(es.drop_first(), k, v);
                assert(out[j] == tail[j - 1]);
                if tail[j - 1].0 != k {
                    let i = choose|i: int|
                        0 <= i < es.drop_first().len() && es.drop_first()[i].0 == tail[j - 1].0;
                    assert(es[i + 1].0 == tail[j - 1].0);
                }
            }
        }
    }
}

impl CompleteMap {
    pub fn new() -> (r: Self)
        ensures
            r.v() =~= Seq::<(Seq<char>, CompleteV)>::empty(),
    {
        CompleteMap { entries: Vec::new() }
    }

    /// Binds `key`, replacing any earlier binding of the same key.
    pub fn insert(&mut self, key: String, value: Complete)
        ensures
            final(self).v() == spec_insert(old(self).v(), key@, value.v()),
    {
        let n: usize = self.entries.len();
        let mut i: usize = 0;
        while i < n
            invariant
                n == self.entries@.len(),
                0 <= i <= n,
                *self == *old(self),
                forall|j: int| 0 <= j < i ==> old(self).v()[j].0 != key@,
            decreases n - i,
        {
            if str_eq(self.entries[i].key.as_str(), key.as_str()) {
                proof {
                    assert(old(self).v()[i as int].0 == key@);
                }
                self.entries.set(i, CompleteEntry { key, value });
                proof {
                    lemma_insert_prefix(old(self).v(), key@, value.v(), i as int);
                    assert(self.v() =~= old(self).v().update(
                        i as int,
                        (key@, value.v()),
                    ));
                }
                return ;
            }
            i = i + 1;
        }
        self.entries.push(CompleteEntry { key, value });
        proof {
            lemma_insert_fresh(old(self).v(), key@, value.v());
            assert(self.v() =~= old(self).v().push((key@, value.v())));
        }
    }

    /// The binding of `key`, if any.
    pub fn get(&self, key: &str) -> (r: Option<&Complete>)
        ensures
            match r {
                Some(c) => spec_lookup(self.v(), key@) == Some(c.v()),
                None => spec_lookup(self.v(), key@) is None,
            },
    {
        let n: usize = self.entries.len();
        let mut i: usize = 0;
        while i < n
            invariant
                n == self.entries@.len(),
                0 <= i <= n,
                forall|j: int| 0 <= j < i ==> self.v()[j].0 != key@,
        decreases n - i,
        {
            if str_eq(self.entries[i].key.as_str(), key) {
                proof {
                    lemma_lookup_at(self.v(), key@, i as int);
                }
                return Some(&self.entries[i].value);
            }
            i = i + 1;
        }
        proof {
            lemma_lookup_none(self.v(), key@);
        }
        None
    }
}

/// When the first `i` keys differ from `k` and position `i` carries `k`,
/// inserting replaces exactly position `i`.
proof fn lemma_insert_prefix(es: Seq<(Seq<char>, CompleteV)>, k: Seq<char>, v: CompleteV, i: int)
    requires
        0 <= i < es.len(),
        forall|j: int| 0 <= j < i ==> es[j].0 != k,
        es[i].0 == k,
    ensures
        spec_insert(es, k, v) == es.update(i, (k, v)),
    decreases i,
{
    if i == 0 {
        assert(spec_insert(es, k, v) =~= es.update(0, (k, v)));
    } else {
        assert forall|j: int| 0 <= j < i - 1 implies es.drop_first()[j].0 != k by {
            assert(es.drop_first()[j] == es[j + 1]);
        }
        assert(es.drop_first()[i - 1] == es[i]);
        lemma_insert_prefix(es.drop_first(), k, v, i - 1);
        assert(spec_insert(es, k, v) =~= es.update(i, (k, v)));
    }
}

/// When no key equals `k`, inserting appends.
proof fn lemma_insert_fresh(es: Seq<(Seq<char>, CompleteV)>, k: Seq<char>, v: CompleteV)
    requires
        forall|j: int| 0 <= j < es.len() ==> es[j].0 != k,
    ensures
        spec_insert(es, k, v) == es.push((k, v)),
    decreases es.len(),
{
    if es.len() == 0 {
        assert(spec_insert(es, k, v) =~= es.push((k, v)));
    } else {
        assert forall|j: int| 0 <= j < es.drop_first().len() implies es.drop_first()[j].0 != k by {
            assert(es.drop_first()[j] == es[j + 1]);
        }
        lemma_insert_fresh(es.drop_first(), k, v);
        assert(spec_insert(es, k, v) =~= es.push((k, v)));
    }
}

/// When the first `i` keys differ from `k` and position `i` carries `k`, the
/// lookup answers with position `i`.
proof fn lemma_lookup_at(es: Seq<(Seq<char>, CompleteV)>, k: Seq<char>, i: int)
    requires
        0 <= i < es.len(),
        forall|j: int| 0 <= j < i ==> es[j].0 != k,
        es[i].0 == k,
    ensures
        spec_lookup(es, k) == Some(es[i].1),
    decreases i,
{
    if i == 0 {
    } else {
        assert forall|j: int| 0 <= j < i - 1 implies es.drop_first()[j].0 != k by {
            assert(es.drop_first()[j] == es[j + 1]);
        }
        assert(es.drop_first()[i - 1] == es[i]);
        lemma_lookup_at(es.drop_first(), k, i - 1);
    }
}

/// When no key equals `k`, the lookup fails.
proof fn lemma_lookup_none(es: Seq<(Seq<char>, CompleteV)>, k: Seq<char>)
    requires
        forall|j: int| 0 <= j < es.len() ==> es[j].0 != k,
    ensures
        spec_lookup(es, k) is None,
    decreases es.len(),
{
    if es.len() > 0 {
        assert forall|j: int| 0 <= j < es.drop_first().len() implies es.drop_first()[j].0 != k by {
            assert(es.drop_first()[j] == es[j + 1]);
        }
        lemma_lookup_none(es.drop_first(), k);
    }
}

// ------------------------------------------------------------------------
// Small methods of the model
// ------------------------------------------------------------------------

impl Complete {
    /// The built-in completion bound to the name `file`.
    pub fn file_complete() -> (r: Self)
        ensures
            r.v() == (CompleteV { name: "file"@, kind: CompleteKindV::File, descs: false }),
    {
        Complete { name: String::from_str("file"), kind: CompleteKind::File, descs: false }
    }

    /// The built-in directory completion; it keeps the display name `file`.
    pub fn dir_complete() -> (r: Self)
        ensures
            r.v() == (CompleteV { name: "file"@, kind: CompleteKindV::Dir, descs: false }),
    {
        Complete { name: String::from_str("file"), kind: CompleteKind::Dir, descs: false }
    }
}

impl CompleteKind {
    pub fn is_none(&self) -> (r: bool)
        ensures
            r == (self.v() is Unspecified),
    {
        match self {
            CompleteKind::Unspecified => true,
            _ => false,
        }
    }

    pub fn is_file(&self) -> (r: bool)
        ensures
            r == (self.v() is File),
    {
        match self {
            CompleteKind::File => true,
            _ => false,
        }
    }

    pub fn run(&self) -> (r: Option<&String>)
        ensures
            match r {
                Some(s) => self.v() == CompleteKindV::Run(s@),
                None => !(self.v() is Run),
            },
    {
        match self {
            CompleteKind::Run(run) => Some(run),
            _ => None,
        }
    }
}

impl Default for CompleteKind {
    fn default() -> (r: Self)
        ensures
            r.v() == CompleteKindV::Unspecified,
    {
        CompleteKind::Unspecified
    }
}

impl Flag {
    pub fn is_global(&self) -> (r: bool)
        ensures
            r == !(self.v().global is NotGlobal),
    {
        match self.global {
            GlobalFlag::NotGlobal => false,
            _ => true,
        }
    }

    pub fn is_global_itself(&self) -> (r: bool)
        ensures
            r == (self.v().global is Itself),
    {
        match self.global {
            GlobalFlag::Itself => true,
            _ => false,
        }
    }

    pub fn is_global_imposed(&self) -> (r: bool)
        ensures
            r == (self.v().global is Imposed),
    {
        match self.global {
            GlobalFlag::Imposed(_) => true,
            _ => false,
        }
    }
}

impl UError {
    /// A readable description naming the failing declaration.
    pub fn message(&self) -> (r: String)
        ensures
            match self {
                UError::InvalidNodeName(n) => r@ == "unexpected node name: "@ + n@,
                UError::InvalidNodeFirstArg(n) => r@ == "missing first positional value in node: "@
                    + n@,
            },
    {
        match self {
            UError::InvalidNodeName(n) => {
                let mut m = String::from_str("unexpected node name: ");
                m.append(n.as_str());
                m
            }
            UError::InvalidNodeFirstArg(n) => {
                let mut m = String::from_str("missing first positional value in node: ");
                m.append(n.as_str());
                m
            }
        }
    }
}

// ------------------------------------------------------------------------
// Defaults and remaining models
// ------------------------------------------------------------------------

pub enum UErrorV {
    InvalidNodeName(Seq<char>),
    InvalidNodeFirstArg(Seq<char>),
}

impl UError {
    pub open spec fn v(&self) -> UErrorV {
        match self {
            UError::InvalidNodeName(n) => UErrorV::InvalidNodeName(n@),
            UError::InvalidNodeFirstArg(n) => UErrorV::InvalidNodeFirstArg(n@),
        }
    }
}

pub enum UsageV {
    Flag(FlagV),
    Arg(ArgV),
    Cmd(CmdV),
    Complete(CompleteV),
}

impl Usage {
    pub open spec fn v(&self) -> UsageV {
        match self {
            Usage::Flag(f) => UsageV::Flag(f.v()),
            Usage::Arg(a) => UsageV::Arg(a.v()),
            Usage::Cmd(c) => UsageV::Cmd(c.v()),
            Usage::Complete(c) => UsageV::Complete(c.v()),
        }
    }
}

pub open spec fn info_v_default() -> InfoV {
    InfoV { name: Seq::empty(), bin: Seq::empty() }
}

pub open spec fn flag_v_default() -> FlagV {
    FlagV {
        name: Seq::empty(),
        names: Seq::empty(),
        help: Seq::empty(),
        hide: false,
        global: GlobalFlagV::NotGlobal,
        aliases: Seq::empty(),
        arg: None,
    }
}

pub open spec fn arg_v_default() -> ArgV {
    ArgV {
        name: Seq::empty(),
        repr: Seq::empty(),
        required: false,
        choices: Seq::empty(),
        hide: false,
        var: false,
        min: None,
        max: None,
        default: None,
    }
}

pub open spec fn cmd_v_default() -> CmdV {
    CmdV {
        name: Seq::empty(),
        help: Seq::empty(),
        hide: false,
        args: Seq::empty(),
        flags: Seq::empty(),
        aliases: Seq::empty(),
        cmds: Seq::empty(),
    }
}

pub open spec fn complete_v_default() -> CompleteV {
    CompleteV { name: Seq::empty(), kind: CompleteKindV::Unspecified, descs: false }
}

impl Default for Info {
    fn default() -> (r: Self)
        ensures
            r.v() == info_v_default(),
    {
        Info { name: String::new(), bin: String::new() }
    }
}

impl Default for Flag {
    fn default() -> (r: Self)
        ensures
            r.v() == flag_v_default(),
    {
        let r = Flag {
            name: String::new(),
            names: Vec::new(),
            help: String::new(),
            hide: false,
            global: GlobalFlag::NotGlobal,
            aliases: Vec::new(),
            arg: None,
        };
        proof {
            assert(r.v().names =~= Seq::<Seq<char>>::empty());
            assert(r.v().aliases =~= Seq::<AliasV>::empty());
        }
        r
    }
}

impl Default for Arg {
    fn default() -> (r: Self)
        ensures
            r.v() == arg_v_default(),
    {
        let r = Arg {
            name: String::new(),
            repr: String::new(),
            required: false,
            choices: Vec::new(),
            hide: false,
            var: false,
            min: None,
            max: None,
            default: None,
        };
        proof {
            assert(r.v().choices =~= Seq::<Seq<char>>::empty());
        }
        r
    }
}

impl Default for Cmd {
    fn default() -> (r: Self)
        ensures
            r.v() == cmd_v_default(),
    {
        let r = Cmd {
            name: String::new(),
            help: String::new(),
            hide: false,
            args: Vec::new(),
            flags: Vec::new(),
            aliases: Vec::new(),
            cmds: Vec::new(),
        };
        proof {
            assert(r.v().args =~= Seq::<ArgV>::empty());
            assert(r.v().flags =~= Seq::<FlagV>::empty());
            assert(r.v().aliases =~= Seq::<AliasV>::empty());
            assert(r.v().cmds =~= Seq::<CmdV>::empty());
        }
        r
    }
}

impl Default for Complete {
    fn default() -> (r: Self)
        ensures
            r.v() == complete_v_default(),
    {
        Complete { name: String::new(), kind: CompleteKind::Unspecified, descs: false }
    }
}

pub proof fn lemma_cmds_v_push(s: Seq<Cmd>, x: Cmd)
    ensures
        cmds_v(s.push(x)) == cmds_v(s).push(x.v()),
    decreases s.len(),
{
    if s.len() == 0 {
        assert(s.push(x).drop_first() =~= Seq::<Cmd>::empty());
        assert(s.push(x)[0] == x);
        assert(cmds_v(s.push(x).drop_first()) =~= Seq::<CmdV>::empty());
        assert(cmds_v(s) =~= Seq::<CmdV>::empty());
        assert(cmds_v(s.push(x)) =~= cmds_v(s).push(x.v()));
    } else {
        assert(s.push(x).drop_first() =~= s.drop_first().push(x));
        lemma_cmds_v_push(s.drop_first(), x);
        assert(cmds_v(s.push(x)) =~= cmds_v(s).push(x.v()));
    }
}

} // verus!