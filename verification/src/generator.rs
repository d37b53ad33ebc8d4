//! The code generator: a memoizing, recursive pass over the resolved model
//! that emits the completion script's auxiliary functions and root matcher
//! body. Every auxiliary function is cached under its fully-qualified name,
//! inserted once and declared ahead of the body that references it.

use vstd::prelude::*;

verus! {

broadcast use vstd::std_specs::vec::group_vec_axioms;

use vstd::string::StrSliceExecFns;
use vstd::string::StringExecFns;
use crate::formatter::GenFormatter;
use crate::formatter::spec_indent;
use crate::namespace::arg_complete_func_name;
use crate::namespace::spec_arg_complete_func_name;
use crate::strutil::str_eq;
use crate::usage::CompleteV;
use crate::usage::Complete;
use crate::usage::CompleteKind;
use crate::usage::Arg;
use crate::usage::ArgV;
use crate::strutil::int_to_string;
use crate::strutil::spec_int_str;
use crate::mbase64::base64_of;
use crate::usage::Flag;
use crate::usage::FlagV;
use crate::usage::CompleteMap;
use crate::usage::CompleteKindV;
use crate::usage::spec_lookup;
use crate::usage::flags_v;
use crate::strutil::lower_of;
use crate::strutil::seq_views;
use crate::strutil::clone_strings;
use crate::namespace::spec_join_segments;
use crate::namespace::spec_flag_func_name;
use crate::namespace::spec_global_flag_func_name;
use crate::namespace::spec_cmd_func_name;
use crate::strutil::spec_ends_with;
use crate::strutil::spec_trim_end;
use crate::strutil::StringExt;
use crate::strutil::spec_slug;
use crate::usage::Cmd;
use crate::usage::CmdV;
use crate::usage::cmds_v;
use crate::usage::args_v;
use crate::usage::UsageSpecV;
use crate::usage::UsageSpec;

/// The model of the memo table: generated-name/body pairs in insertion
/// order.
pub type FmSeq = Seq<(Seq<char>, Seq<char>)>;

/// The memo table of generated functions, keyed by fully-qualified name;
/// insertion replaces on an existing key, so each name is declared once.
pub struct FuncMap {
    pub entries: Vec<FuncEntry>,
}

pub struct FuncEntry {
    pub name: String,
    pub body: String,
}

impl FuncMap {
    pub open spec fn v(&self) -> FmSeq {
        Seq::new(self.entries@.len(), |i: int| (self.entries@[i].name@, self.entries@[i].body@))
    }
}

/// The body bound to the first occurrence of the name.
pub open spec fn fm_lookup(es: FmSeq, k: Seq<char>) -> Option<Seq<char>>
    decreases es.len(),
{
    if es.len() == 0 {
        None
    } else if es[0].0 == k {
        Some(es[0].1)
    } else {
        fm_lookup(es.drop_first(), k)
    }
}

/// Binding a name: the first occurrence is replaced in place, a fresh name
/// is appended at the end.
pub open spec fn fm_insert(es: FmSeq, k: Seq<char>, v: Seq<char>) -> FmSeq
    decreases es.len(),
{
    if es.len() == 0 {
        seq![(k, v)]
    } else if es[0].0 == k {
        seq![(k, v)] + es.drop_first()
    } else {
        seq![es[0]] + fm_insert(es.drop_first(), k, v)
    }
}

/// Names occur at most once.
pub open spec fn fm_wf(es: FmSeq) -> bool {
    forall|i: int, j: int| 0 <= i < j < es.len() ==> es[i].0 != es[j].0
}

pub proof fn lemma_fm_insert_lookup(es: FmSeq, k: Seq<char>, v: Seq<char>)
    ensures
        fm_lookup(fm_insert(es, k, v), k) == Some(v),
        forall|k2: Seq<char>|
            k2 != k ==> #[trigger] fm_lookup(fm_insert(es, k, v), k2) == fm_lookup(es, k2),
        fm_wf(es) ==> fm_wf(fm_insert(es, k, v)),
        fm_insert(es, k, v).len() <= es.len() + 1,
    decreases es.len(),
{
    if es.len() == 0 {
        let out = fm_insert(es, k, v);
        assert forall|k2: Seq<char>| k2 != k implies #[trigger] fm_lookup(out, k2) == fm_lookup(
            es,
            k2,
        ) by {
            assert(out.drop_first() =~= es);
        }
    } else if es[0].0 == k {
        let out = seq![(k, v)] + es.drop_first();
        assert(out.drop_first() =~= es.drop_first());
        assert forall|k2: Seq<char>| k2 != k implies #[trigger] fm_lookup(out, k2) == fm_lookup(
            es,
            k2,
        ) by {
            assert(fm_lookup(out, k2) == fm_lookup(es.drop_first(), k2));
            assert(fm_lookup(es, k2) == fm_lookup(es.drop_first(), k2));
        }
        if fm_wf(es) {
            assert forall|i: int, j: int| 0 <= i < j < out.len() implies out[i].0 != out[j].0 by {
                if i == 0 {
                    assert(out[j] == es[j]);
                } else {
                    assert(out[i] == es[i]);
                    assert(out[j] == es[j]);
                }
            }
        }
    } else {
        lemma_fm_insert_lookup(es.drop_first(), k, v);
        let out = seq![es[0]] + fm_insert(es.drop_first(), k, v);
        assert(out.drop_first() =~= fm_insert(es.drop_first(), k, v));
        assert forall|k2: Seq<char>| k2 != k implies #[trigger] fm_lookup(out, k2) == fm_lookup(
            es,
            k2,
        ) by {
            if es[0].0 == k2 {
            } else {
                assert(fm_lookup(out, k2) == fm_lookup(fm_insert(es.drop_first(), k, v), k2));
                assert(fm_lookup(es, k2) == fm_lookup(es.drop_first(), k2));
            }
        }
        if fm_wf(es) {
            assert forall|i: int, j: int| 0 <= i < j < es.drop_first().len() implies es.drop_first()[i].0
                != es.drop_first()[j].0 by {
                assert(es.drop_first()[i] == es[i + 1]);
                assert(es.drop_first()[j] == es[j + 1]);
            }
            lemma_fm_insert_keys(es.drop_first(), k, v);
            assert forall|i: int, j: int| 0 <= i < j < out.len() implies out[i].0 != out[j].0 by {
                let tail = fm_insert(es.drop_first(), k, v);
                if i == 0 {
                    assert(out[j] == tail[j - 1]);
                } else {
                    assert(out[i] == tail[i - 1]);
                    assert(out[j] == tail[j - 1]);
                }
            }
        }
    }
}

/// Every name after an insert is an old name or the inserted one.
pub proof fn lemma_fm_insert_keys(es: FmSeq, k: Seq<char>, v: Seq<char>)
    ensures
        forall|j: int|
            0 <= j < fm_insert(es, k, v).len() ==> (#[trigger] fm_insert(es, k, v)[j].0 == k
                || exists|i: int| 0 <= i < es.len() && es[i].0 == fm_insert(es, k, v)[j].0),
    decreases es.len(),
{
    if es.len() == 0 {
    } else if es[0].0 == k {
        let out = seq![(k, v)] + es.drop_first();
        assert forall|j: int| 0 <= j < out.len() implies (out[j].0 == k || exists|i: int|
            0 <= i < es.len() && es[i].0 == out[j].0) by {
            if j > 0 {
                assert(es[j] == out[j]);
            }
        }
    } else {
        lemma_fm_insert_keys(es.drop_first(), k, v);
        let out = seq![es[0]] + fm_insert(es.drop_first(), k, v);
        assert forall|j: int| 0 <= j < out.len() implies (out[j].0 == k || exists|i: int|
            0 <= i < es.len() && es[i].0 == out[j].0) by {
            if j == 0 {
                assert(es[0].0 == out[0].0);
            } else {
                let tail = fm_insert(es.drop_first(), k, v);
                assert(out[j] == tail[j - 1]);
                if tail[j - 1].0 != k {
                    let i = choose|i: int|
                        0 <= i < es.drop_first().len() && es.drop_first()[i].0 == tail[j - 1].0;
                    assert(es[i + 1].0 == tail[j - 1].0);
                }
            }
        }
    }
}

impl FuncMap {
    pub fn new() -> (r: Self)
        ensures
            r.v() =~= Seq::<(Seq<char>, Seq<char>)>::empty(),
    {
        FuncMap { entries: Vec::new() }
    }

    /// Binds a generated name, replacing any earlier binding.
    #[verifier::loop_isolation(false)]
    pub fn insert(&mut self, name: String, body: String)
        ensures
            final(self).v() == fm_insert(old(self).v(), name@, body@),
    {
        let n: usize = self.entries.len();
        let mut i: usize = 0;
        while i < n
            invariant
                n == self.entries@.len(),
                0 <= i <= n,
                *self == *old(self),
                forall|j: int| 0 <= j < i ==> old(self).v()[j].0 != name@,
            decreases n - i,
        {
            if str_eq(self.entries[i].name.as_str(), name.as_str()) {
                proof {
                    assert(old(self).v()[i as int].0 == name@);
                }
                vstd::pervasive::VecAdditionalExecFns::set(
                    &mut self.entries,
                    i,
                    FuncEntry { name, body },
                );
                proof {
                    lemma_fm_insert_prefix(old(self).v(), name@, body@, i as int);
                    assert(self.v() =~= old(self).v().update(i as int, (name@, body@)));
                }
                return ;
            }
            i = i + 1;
        }
        self.entries.push(FuncEntry { name, body });
        proof {
            lemma_fm_insert_fresh(old(self).v(), name@, body@);
            assert(self.v() =~= old(self).v().push((name@, body@)));
        }
    }

    /// The body bound to a name, if any.
    #[verifier::loop_isolation(false)]
    pub fn get(&self, name: &str) -> (r: Option<&String>)
        ensures
            match r {
                Some(b) => fm_lookup(self.v(), name@) == Some(b@),
                None => fm_lookup(self.v(), name@) is None,
            },
    {
        let n: usize = self.entries.len();
        let mut i: usize = 0;
        while i < n
            invariant
                n == self.entries@.len(),
                0 <= i <= n,
                forall|j: int| 0 <= j < i ==> self.v()[j].0 != name@,
            decreases n - i,
        {
            if str_eq(self.entries[i].name.as_str(), name) {
                proof {
                    lemma_fm_lookup_at(self.v(), name@, i as int);
                }
                return Some(&self.entries[i].body);
            }
            i = i + 1;
        }
        proof {
            lemma_fm_lookup_none(self.v(), name@);
        }
        None
    }
}

proof fn lemma_fm_insert_prefix(es: FmSeq, k: Seq<char>, v: Seq<char>, i: int)
    requires
        0 <= i < es.len(),
        forall|j: int| 0 <= j < i ==> es[j].0 != k,
        es[i].0 == k,
    ensures
        fm_insert(es, k, v) == es.update(i, (k, v)),
    decreases i,
{
    if i == 0 {
        assert(fm_insert(es, k, v) =~= es.update(0, (k, v)));
    } else {
        assert forall|j: int| 0 <= j < i - 1 implies es.drop_first()[j].0 != k by {
            assert(es.drop_first()[j] == es[j + 1]);
        }
        assert(es.drop_first()[i - 1] == es[i]);
        lemma_fm_insert_prefix(es.drop_first(), k, v, i - 1);
        assert(fm_insert(es, k, v) =~= es.update(i, (k, v)));
    }
}

proof fn lemma_fm_insert_fresh(es: FmSeq, k: Seq<char>, v: Seq<char>)
    requires
        forall|j: int| 0 <= j < es.len() ==> es[j].0 != k,
    ensures
        fm_insert(es, k, v) == es.push((k, v)),
    decreases es.len(),
{
    if es.len() == 0 {
        assert(fm_insert(es, k, v) =~= es.push((k, v)));
    } else {
        assert forall|j: int| 0 <= j < es.drop_first().len() implies es.drop_first()[j].0 != k by {
            assert(es.drop_first()[j] == es[j + 1]);
        }
        lemma_fm_insert_fresh(es.drop_first(), k, v);
        assert(fm_insert(es, k, v) =~= es.push((k, v)));
    }
}

proof fn lemma_fm_lookup_at(es: FmSeq, k: Seq<char>, i: int)
    requires
        0 <= i < es.len(),
        forall|j: int| 0 <= j < i ==> es[j].0 != k,
        es[i].0 == k,
    ensures
        fm_lookup(es, k) == Some(es[i].1),
    decreases i,
{
    if i == 0 {
    } else {
        assert forall|j: int| 0 <= j < i - 1 implies es.drop_first()[j].0 != k by {
            assert(es.drop_first()[j] == es[j + 1]);
        }
        assert(es.drop_first()[i - 1] == es[i]);
        lemma_fm_lookup_at(es.drop_first(), k, i - 1);
    }
}

proof fn lemma_fm_lookup_none(es: FmSeq, k: Seq<char>)
    requires
        forall|j: int| 0 <= j < es.len() ==> es[j].0 != k,
    ensures
        fm_lookup(es, k) is None,
    decreases es.len(),
{
    if es.len() > 0 {
        assert forall|j: int| 0 <= j < es.drop_first().len() implies es.drop_first()[j].0 != k by {
            assert(es.drop_first()[j] == es[j + 1]);
        }
        lemma_fm_lookup_none(es.drop_first(), k);
    }
}

/// The completion bridge's collaborators: the compiling binary itself and
/// the shell it runs dynamic completions under, both as plain path text.
pub struct Completor {
    pub exe_path: String,
    pub shell: String,
}

impl Completor {
    pub open spec fn v(&self) -> (Seq<char>, Seq<char>) {
        (self.exe_path@, self.shell@)
    }
}

impl Clone for Completor {
    fn clone(&self) -> (r: Self)
        ensures
            r.v() == self.v(),
    {
        Completor { exe_path: self.exe_path.clone(), shell: self.shell.clone() }
    }
}

impl Default for Completor {
    fn default() -> (r: Self)
        ensures
            r.v() == (Seq::<char>::empty(), Seq::<char>::empty()),
    {
        Completor { exe_path: String::new(), shell: String::new() }
    }
}

/// The generator's state: the resolved model, the memo table, the optional
/// bridge configuration, and the external matcher names to register.
pub struct Generator {
    pub spec: UsageSpec,
    pub cached_functions: FuncMap,
    pub completor: Option<Completor>,
    pub arg_matchers: Vec<String>,
}

/// The working view the generation pass runs on; it owns the same state as
/// [`Generator`].
pub struct GeneratorView {
    pub spec: UsageSpec,
    pub cached_functions: FuncMap,
    pub completor: Option<Completor>,
    pub arg_matchers: Vec<String>,
}

/// The model of the optional bridge configuration.
pub open spec fn completor_v(c: Option<Completor>) -> Option<(Seq<char>, Seq<char>)> {
    match c {
        Some(cc) => Some(cc.v()),
        None => None,
    }
}

// ------------------------------------------------------------------------
// Argument rendering
// ------------------------------------------------------------------------

/// The opening of an argument group.
pub open spec fn spec_add_arg_start() -> Seq<char> {
    ":_addexarg({"@
}

pub fn add_arg_start() -> (r: String)
    ensures
        r@ == spec_add_arg_start(),
{
    String::from_str(":_addexarg({")
}

/// The inclusive lower bound of a variadic argument, zero when unset.
pub open spec fn spec_min_of(a: ArgV) -> int {
    match a.min {
        Some(i) => i,
        None => 0,
    }
}

/// The rendering of the upper bound: `*` for unbounded (negative or unset).
pub open spec fn spec_max_str(a: ArgV) -> Seq<char> {
    match a.max {
        Some(i) => if i < 0 {
            "*"@
        } else {
            spec_int_str(i)
        },
        None => "*"@,
    }
}

/// The raw upper bound, `-1` when unset.
pub open spec fn spec_max_of(a: ArgV) -> int {
    match a.max {
        Some(i) => i,
        None => -1,
    }
}

/// The hint text of an argument: its original textual form, the variadic
/// bounds when it is variadic, and its default when one is declared.
pub open spec fn spec_add_arg_hint(a: ArgV) -> Seq<char> {
    "hint = [===[Argument expected: "@ + a.repr + (if a.var {
        " [multiple args ("@ + spec_int_str(spec_min_of(a)) + ".."@ + spec_max_str(a) + ")]"@
    } else {
        Seq::empty()
    }) + (match a.default {
        Some(d) => if d.len() > 0 {
            " [default: "@ + d + "]"@
        } else {
            Seq::empty()
        },
        None => Seq::empty(),
    }) + "]===]"@
}

pub fn add_arg_hint(arg: &Arg) -> (r: String)
    ensures
        r@ == spec_add_arg_hint(arg.v()),
{
    let mut completions = String::from_str("hint = [===[Argument expected: ");
    completions.append(arg.repr.as_str());
    if arg.var {
        let var_min: i128 = match arg.min {
            Some(m) => m,
            None => 0,
        };
        completions.append(" [multiple args (");
        let ms = int_to_string(var_min);
        completions.append(ms.as_str());
        completions.append("..");
        match arg.max {
            Some(mx) => {
                if mx < 0 {
                    completions.append("*");
                } else {
                    let xs = int_to_string(mx);
                    completions.append(xs.as_str());
                }
            }
            None => {
                completions.append("*");
            }
        }
        completions.append(")]");
    }
    match &arg.default {
        Some(d) => {
            if d.as_str().unicode_len() > 0 {
                completions.append(" [default: ");
                completions.append(d.as_str());
                completions.append("]");
            }
        }
        None => {}
    }
    completions.append("]===]");
    proof {
        assert(completions@ =~= spec_add_arg_hint(arg.v()));
    }
    completions
}

/// The advance-control callback of a variadic argument, carrying its exact
/// bounds; empty for a non-variadic argument.
pub open spec fn spec_add_arg_loop_until(a: ArgV) -> Seq<char> {
    if a.var {
        ", onadvance = function(_,_,wi,ls,ud) ud.var_min="@ + spec_int_str(spec_min_of(a))
            + "; ud.var_max="@ + spec_int_str(spec_max_of(a)) + "; return loop_until(wi,ls,ud) end"@
    } else {
        Seq::empty()
    }
}

pub fn add_arg_loop_until(arg: &Arg) -> (r: String)
    ensures
        r@ == spec_add_arg_loop_until(arg.v()),
{
    let mut completions = String::new();
    if arg.var {
        let var_min: i128 = match arg.min {
            Some(m) => m,
            None => 0,
        };
        let var_max: i128 = match arg.max {
            Some(m) => m,
            None => -1,
        };
        completions.append(", onadvance = function(_,_,wi,ls,ud) ud.var_min=");
        let ms = int_to_string(var_min);
        completions.append(ms.as_str());
        completions.append("; ud.var_max=");
        let xs = int_to_string(var_max);
        completions.append(xs.as_str());
        completions.append("; return loop_until(wi,ls,ud) end");
        proof {
            assert(completions@ =~= spec_add_arg_loop_until(arg.v()));
        }
    }
    completions
}

/// The close of an argument group, preceded by the hint and advance
/// callback when an argument is given.
pub open spec fn spec_add_arg_close(a: Option<ArgV>) -> Seq<char> {
    (match a {
        Some(x) => spec_add_arg_hint(x) + spec_add_arg_loop_until(x),
        None => Seq::empty(),
    }) + "})"@
}

pub fn add_arg_close(arg: Option<&Arg>) -> (r: String)
    ensures
        match arg {
            Some(a) => r@ == spec_add_arg_close(Some(a.v())),
            None => r@ == spec_add_arg_close(None),
        },
{
    let mut completions = String::new();
    match arg {
        Some(a) => {
            let h = add_arg_hint(a);
            completions.append(h.as_str());
            let l = add_arg_loop_until(a);
            completions.append(l.as_str());
        }
        None => {}
    }
    completions.append("})");
    proof {
        match arg {
            Some(a) => {
                assert(completions@ =~= spec_add_arg_close(Some(a.v())));
            }
            None => {
                assert(completions@ =~= spec_add_arg_close(None));
            }
        }
    }
    completions
}

// ------------------------------------------------------------------------
// The completion bridge
// ------------------------------------------------------------------------

/// The colon-prefix extraction line emitted when descriptions are on.
pub open spec fn spec_filter_descs(descs: bool) -> Seq<char> {
    if descs {
        "line = line:match(\"^([^:]+):\") -- for filtering out descriptions\n        "@
    } else {
        Seq::empty()
    }
}

/// The text of the bridge function for one `Run` completion: it re-invokes
/// the compiling binary with the current word index, the whole line, the
/// chosen shell and the base64-encoded script, and collects one candidate
/// per line of its standard output.
pub open spec fn spec_bridge_function(comp: (Seq<char>, Seq<char>), c: CompleteV) -> Seq<char> {
    "function "@ + spec_arg_complete_func_name(c.name)
        + "(word, word_index, line_state, match_builder, user_data)\n--[[\n"@ + c.kind->Run_0
        + "\n--]]\n    local b64_encoded_script = [["@ + base64_of(c.kind->Run_0)
        + "]]\n    local exec = [["@ + comp.0 + "]]\n    local shell = [["@ + comp.1
        + "]]\n    local args = [[ complete --current ]] .. word_index - 1 .. [[ --line \"]] .. line_state:getline() .. [[\" --shell \"]] .. shell .. [[\" -- \"]] .. b64_encoded_script .. [[\"]]\n    local pipe = io.popen(exec .. args)\n    assert(pipe, \"[ERROR]: failed to run complete command\")\n    local complete_args = {}\n    for line in pipe:lines() do\n        "@
        + spec_filter_descs(c.descs)
        + "table.insert(complete_args, line)\n    end\n    pipe:close()\n    return complete_args\nend\n"@
}

/// The memo table after generating the bridge function for one completion.
pub open spec fn spec_gen_arg_complete(fm: FmSeq, comp: (Seq<char>, Seq<char>), c: CompleteV) -> FmSeq {
    fm_insert(fm, spec_arg_complete_func_name(c.name), spec_bridge_function(comp, c))
}

/// Emits the bridge function for one `Run` completion into the memo table.
fn generate_arg_complete_function(fm: &mut FuncMap, completor: &Completor, complete: &Complete)
    requires
        complete.v().kind is Run,
    ensures
        final(fm).v() == spec_gen_arg_complete(old(fm).v(), completor.v(), complete.v()),
{
    let func_name = arg_complete_func_name(complete.name.as_str());
    let complete_run: &String = match complete.kind.run() {
        Some(run) => run,
        None => {
            proof {
                assert(false);
            }
            &complete.name
        }
    };
    let encoded_script = crate::mbase64::encode(complete_run.as_str());
    let mut function = String::from_str("function ");
    function.append(func_name.as_str());
    function.append("(word, word_index, line_state, match_builder, user_data)\n--[[\n");
    function.append(complete_run.as_str());
    function.append("\n--]]\n    local b64_encoded_script = [[");
    function.append(encoded_script.as_str());
    function.append("]]\n    local exec = [[");
    function.append(completor.exe_path.as_str());
    function.append("]]\n    local shell = [[");
    function.append(completor.shell.as_str());
    function.append(
        "]]\n    local args = [[ complete --current ]] .. word_index - 1 .. [[ --line \"]] .. line_state:getline() .. [[\" --shell \"]] .. shell .. [[\" -- \"]] .. b64_encoded_script .. [[\"]]\n    local pipe = io.popen(exec .. args)\n    assert(pipe, \"[ERROR]: failed to run complete command\")\n    local complete_args = {}\n    for line in pipe:lines() do\n        ",
    );
    if complete.descs {
        function.append("line = line:match(\"^([^:]+):\") -- for filtering out descriptions\n        ");
    }
    function.append(
        "table.insert(complete_args, line)\n    end\n    pipe:close()\n    return complete_args\nend\n",
    );
    proof {
        assert(function@ =~= spec_bridge_function(completor.v(), complete.v()));
    }
    fm.insert(func_name, function);
}

// ------------------------------------------------------------------------
// One argument's completion text
// ------------------------------------------------------------------------

/// What one argument renders to, and how the memo table grows: an explicit
/// choice list renders as a literal alternation; an argument bound to a
/// file or directory completion as the engine's built-in matcher; one bound
/// to a `Run` completion renders, when a bridge is configured, as a call to
/// the generated bridge function, which is emitted into the table, and
/// otherwise silently falls back to the unbound rendering: no completion
/// function, only the enclosing group with its hint text.
pub open spec fn spec_add_arg(
    fm: FmSeq,
    completes: Seq<(Seq<char>, CompleteV)>,
    comp: Option<(Seq<char>, Seq<char>)>,
    a: ArgV,
    enclose: bool,
) -> (FmSeq, Seq<char>) {
    if a.choices.len() > 0 {
        let t = (if enclose {
            spec_add_arg_start()
        } else {
            Seq::empty()
        }) + "\""@ + spec_join_segments(a.choices, "\", \""@) + "\""@ + (if enclose {
            ", "@ + spec_add_arg_close(Some(a))
        } else {
            Seq::empty()
        });
        (fm, t)
    } else {
        match spec_lookup(completes, lower_of(a.name)) {
            Some(c) => match c.kind {
                CompleteKindV::File => (
                    fm,
                    (if enclose {
                        spec_add_arg_start()
                    } else {
                        Seq::empty()
                    }) + "clink.filematches"@ + (if enclose {
                        ", "@ + spec_add_arg_close(Some(a))
                    } else {
                        Seq::empty()
                    }),
                ),
                CompleteKindV::Dir => (
                    fm,
                    (if enclose {
                        spec_add_arg_start()
                    } else {
                        Seq::empty()
                    }) + "clink.dirmatches"@ + (if enclose {
                        ", "@ + spec_add_arg_close(Some(a))
                    } else {
                        Seq::empty()
                    }),
                ),
                CompleteKindV::Run(_) => if comp is Some {
                    let fm1 = spec_gen_arg_complete(fm, comp->0, c);
                    let fname = spec_arg_complete_func_name(c.name);
                    match fm_lookup(fm1, fname) {
                        Some(b) => if b.len() > 0 {
                            (
                                fm1,
                                (if enclose {
                                    spec_add_arg_start()
                                } else {
                                    Seq::empty()
                                }) + fname + (if enclose {
                                    ", "@ + spec_add_arg_close(Some(a))
                                } else {
                                    Seq::empty()
                                }),
                            )
                        } else {
                            (fm1, Seq::empty())
                        },
                        None => (fm1, Seq::empty()),
                    }
                } else {
                    (
                        fm,
                        if enclose {
                            spec_add_arg_start() + spec_add_arg_close(Some(a))
                        } else {
                            Seq::empty()
                        },
                    )
                },
                CompleteKindV::Unspecified => (fm, Seq::empty()),
            },
            None => (
                fm,
                if enclose {
                    spec_add_arg_start() + spec_add_arg_close(Some(a))
                } else {
                    Seq::empty()
                },
            ),
        }
    }
}

/// Renders one argument, mirroring [`spec_add_arg`].
fn add_arg(
    fm: &mut FuncMap,
    completes: &CompleteMap,
    completor: &Option<Completor>,
    arg: &Arg,
    enclose: bool,
) -> (r: String)
    ensures
        (final(fm).v(), r@) == spec_add_arg(
            old(fm).v(),
            completes.v(),
            completor_v(*completor),
            arg.v(),
            enclose,
        ),
{
    let mut completions = String::new();
    if arg.choices.len() > 0 {
        if enclose {
            let s = add_arg_start();
            completions.append(s.as_str());
        }
        completions.append("\"");
        let joined = crate::namespace::join_all(&arg.choices, "\", \"");
        completions.append(joined.as_str());
        completions.append("\"");
        if enclose {
            completions.append(", ");
            let c = add_arg_close(Some(arg));
            completions.append(c.as_str());
        }
        proof {
            assert(completions@ =~= spec_add_arg(
                old(fm).v(),
                completes.v(),
                completor_v(*completor),
                arg.v(),
                enclose,
            ).1);
        }
        completions
    } else {
        let lower = arg.name.as_str().to_lowercase();
        match completes.get(lower.as_str()) {
            Some(complete) => {
                match &complete.kind {
                    CompleteKind::File | CompleteKind::Dir => {
                        if enclose {
                            let s = add_arg_start();
                            completions.append(s.as_str());
                        }
                        if complete.kind.is_file() {
                            completions.append("clink.filematches");
                        } else {
                            completions.append("clink.dirmatches");
                        }
                        if enclose {
                            completions.append(", ");
                            let c = add_arg_close(Some(arg));
                            completions.append(c.as_str());
                        }
                        proof {
                            assert(completions@ =~= spec_add_arg(
                                old(fm).v(),
                                completes.v(),
                                completor_v(*completor),
                                arg.v(),
                                enclose,
                            ).1);
                        }
                        completions
                    }
                    CompleteKind::Run(_) => {
                        match completor {
                            Some(comp) => {
                                generate_arg_complete_function(fm, comp, complete);
                                let func_name = arg_complete_func_name(complete.name.as_str());
                                match fm.get(func_name.as_str()) {
                                    Some(function) => {
                                        if function.as_str().unicode_len() > 0 {
                                            if enclose {
                                                let s = add_arg_start();
                                                completions.append(s.as_str());
                                            }
                                            completions.append(func_name.as_str());
                                            if enclose {
                                                completions.append(", ");
                                                let c = add_arg_close(Some(arg));
                                                completions.append(c.as_str());
                                            }
                                            proof {
                                                assert(completions@ =~= spec_add_arg(
                                                    old(fm).v(),
                                                    completes.v(),
                                                    completor_v(*completor),
                                                    arg.v(),
                                                    enclose,
                                                ).1);
                                            }
                                        }
                                        completions
                                    }
                                    None => completions,
                                }
                            }
                            None => {
                                if enclose {
                                    let st = add_arg_start();
                                    completions.append(st.as_str());
                                    let cl = add_arg_close(Some(arg));
                                    completions.append(cl.as_str());
                                }
                                completions
                            }
                        }
                    }
                    CompleteKind::Unspecified => completions,
                }
            }
            None => {
                if enclose {
                    let s = add_arg_start();
                    completions.append(s.as_str());
                    let c = add_arg_close(Some(arg));
                    completions.append(c.as_str());
                }
                completions
            }
        }
    }
}

// ------------------------------------------------------------------------
// One flag's inline body
// ------------------------------------------------------------------------

/// The spellings of a flag followed by its alias spellings.
pub open spec fn spec_all_names(f: FlagV) -> Seq<Seq<char>> {
    f.names + Seq::new(f.aliases.len(), |i: int| f.aliases[i].name)
}

/// One rendered spelling: the literal spelling, an inline call to the
/// flag's own argument-completion function when one was generated and is
/// non-empty, the argument hint, and the help text.
pub open spec fn spec_flag_entry(fm: FmSeq, f: FlagV, fname: Seq<char>, name: Seq<char>) -> Seq<
    char,
> {
    "{ \""@ + name + "\""@ + (match fm_lookup(fm, fname) {
        Some(b) => if b.len() > 0 {
            " .. "@ + fname + "() "@
        } else {
            Seq::empty()
        },
        None => Seq::empty(),
    }) + (match f.arg {
        Some(a) => ", \" "@ + a.repr + "\""@,
        None => Seq::empty(),
    }) + (if f.help.len() > 0 {
        ", [===["@ + f.help + "]===]"@
    } else {
        Seq::empty()
    }) + " }"@
}

pub open spec fn spec_flag_body_loop(
    fm: FmSeq,
    f: FlagV,
    fname: Seq<char>,
    level: int,
    names: Seq<Seq<char>>,
    i: int,
    acc: Seq<char>,
) -> Seq<char>
    decreases names.len() - i,
{
    if i < 0 || i >= names.len() {
        acc
    } else {
        let acc1 = acc + (if i != 0 {
            ","@ + "\n"@ + spec_indent(level) + "--[[alias]] "@
        } else {
            Seq::empty()
        }) + spec_flag_entry(fm, f, fname, names[i]);
        spec_flag_body_loop(fm, f, fname, level, names, i + 1, acc1)
    }
}

/// The inline body of one flag: its primary spelling, then each alias with
/// an alias marker, each with the entry text above.
pub open spec fn spec_add_flag_body(fm: FmSeq, f: FlagV, ns: Seq<Seq<char>>, level: int) -> Seq<
    char,
> {
    spec_flag_body_loop(
        fm,
        f,
        spec_flag_func_name(ns, f.name),
        level,
        spec_all_names(f),
        0,
        Seq::empty(),
    )
}

/// Renders one entry, mirroring [`spec_flag_entry`].
fn flag_entry_text(fm: &FuncMap, flag: &Flag, fname: &String, name: &String) -> (r: String)
    ensures
        r@ == spec_flag_entry(fm.v(), flag.v(), fname@, name@),
{
    let mut completions = String::from_str("{ \"");
    completions.append(name.as_str());
    completions.append("\"");
    match fm.get(fname.as_str()) {
        Some(function) => {
            if function.as_str().unicode_len() > 0 {
                completions.append(" .. ");
                completions.append(fname.as_str());
                completions.append("() ");
            }
        }
        None => {}
    }
    match &flag.arg {
        Some(a) => {
            completions.append(", \" ");
            completions.append(a.repr.as_str());
            completions.append("\"");
        }
        None => {}
    }
    if flag.help.as_str().unicode_len() > 0 {
        completions.append(", [===[");
        completions.append(flag.help.as_str());
        completions.append("]===]");
    }
    completions.append(" }");
    proof {
        assert(completions@ =~= spec_flag_entry(fm.v(), flag.v(), fname@, name@));
    }
    completions
}

/// Renders a flag's inline body, mirroring [`spec_add_flag_body`].
#[verifier::loop_isolation(false)]
fn add_flag_body(fm: &FuncMap, flag: &Flag, fmt: &GenFormatter) -> (r: String)
    ensures
        r@ == spec_add_flag_body(fm.v(), flag.v(), fmt.ns.segs(), fmt.level as int),
{
    let ns_view = fmt.ns.view();
    let func_name = ns_view.flag_func_name(flag.name.as_str());
    let mut flag_names = clone_strings(&flag.names);
    let na: usize = flag.aliases.len();
    let mut ai: usize = 0;
    while ai < na
        invariant
            0 <= ai <= na,
            seq_views(flag_names@) =~= flag.v().names + Seq::new(
                ai as nat,
                |i: int| flag.v().aliases[i].name,
            ),
        decreases na - ai,
    {
        let ghost before = seq_views(flag_names@);
        flag_names.push(flag.aliases[ai].name.clone());
        proof {
            assert(seq_views(flag_names@) =~= before.push(flag.v().aliases[ai as int].name));
            assert(seq_views(flag_names@) =~= flag.v().names + Seq::new(
                (ai + 1) as nat,
                |i: int| flag.v().aliases[i].name,
            ));
        }
        ai = ai + 1;
    }
    proof {
        assert(seq_views(flag_names@) =~= spec_all_names(flag.v()));
    }
    let ghost namesv = spec_all_names(flag.v());
    let ghost fold_all = spec_flag_body_loop(
        fm.v(),
        flag.v(),
        func_name@,
        fmt.level as int,
        namesv,
        0,
        Seq::empty(),
    );
    let mut completions = String::new();
    let n: usize = flag_names.len();
    let mut i: usize = 0;
    while i < n
        invariant
            0 <= i <= n,
            spec_flag_body_loop(
                fm.v(),
                flag.v(),
                func_name@,
                fmt.level as int,
                namesv,
                i as int,
                completions@,
            ) == fold_all,
        decreases n - i,
    {
        proof {
            assert(namesv[i as int] == flag_names@[i as int]@);
        }
        let ghost acc0 = completions@;
        if i != 0 {
            completions.append(",");
            fmt.newline(&mut completions);
            fmt.indent(&mut completions);
            completions.append("--[[alias]] ");
        }
        let entry = flag_entry_text(fm, flag, &func_name, &flag_names[i]);
        completions.append(entry.as_str());
        proof {
            let sep = if i != 0 {
                ","@ + "\n"@ + spec_indent(fmt.level as int) + "--[[alias]] "@
            } else {
                Seq::<char>::empty()
            };
            assert(completions@ =~= acc0 + sep + entry@);
            assert(completions@ =~= acc0 + (if i != 0 {
                ","@ + "\n"@ + spec_indent(fmt.level as int) + "--[[alias]] "@
            } else {
                Seq::<char>::empty()
            }) + spec_flag_entry(fm.v(), flag.v(), func_name@, namesv[i as int]));
        }
        i = i + 1;
    }
    completions
}

// ------------------------------------------------------------------------
// Per-flag functions and the flag group
// ------------------------------------------------------------------------

/// A generated function wrapping an anonymous argmatcher body.
pub open spec fn spec_fn_wrap(fname: Seq<char>, body_text: Seq<char>) -> Seq<char> {
    let t = "function "@ + fname + "()\n    return clink.argmatcher()"@ + body_text;
    t + (if t.len() > 0 && t.last() == '\n' {
        Seq::<char>::empty()
    } else {
        "\n"@
    }) + "end\n"@
}

/// A generated global-flag bundle function returning a table of entries;
/// empty when the bundle body is empty.
pub open spec fn spec_gfn_wrap(gname: Seq<char>, body: Seq<char>) -> Seq<char> {
    if body.len() > 0 {
        let t = "function "@ + gname + "()\n    return {\n        "@ + body + "\n    }"@;
        t + (if t.len() > 0 && t.last() == '\n' {
            Seq::<char>::empty()
        } else {
            "\n"@
        }) + "end\n"@
    } else {
        Seq::<char>::empty()
    }
}

/// First pass over a scope's flags: every flag that is not an imposed copy
/// gets a per-flag function (possibly an empty placeholder) cached under
/// its qualified name, and the scope's own global flags are collected.
pub open spec fn spec_gen_flag_funcs_loop(
    fm: FmSeq,
    completes: Seq<(Seq<char>, CompleteV)>,
    comp: Option<(Seq<char>, Seq<char>)>,
    flags: Seq<FlagV>,
    ns: Seq<Seq<char>>,
    i: int,
    globals: Seq<FlagV>,
) -> (FmSeq, Seq<FlagV>)
    decreases flags.len() - i,
{
    if i < 0 || i >= flags.len() {
        (fm, globals)
    } else {
        let f = flags[i];
        if f.global is Imposed {
            spec_gen_flag_funcs_loop(fm, completes, comp, flags, ns, i + 1, globals)
        } else {
            let globals1 = if f.global is Itself {
                globals.push(f)
            } else {
                globals
            };
            let fname = spec_flag_func_name(ns, f.name);
            let fmfn = match f.arg {
                Some(a) => {
                    let r = spec_add_arg(fm, completes, comp, a, true);
                    if r.1.len() > 0 {
                        (r.0, spec_fn_wrap(fname, r.1))
                    } else {
                        (r.0, Seq::<char>::empty())
                    }
                },
                None => (fm, Seq::<char>::empty()),
            };
            spec_gen_flag_funcs_loop(
                fm_insert(fmfn.0, fname, fmfn.1),
                completes,
                comp,
                flags,
                ns,
                i + 1,
                globals1,
            )
        }
    }
}

/// The bundle body: each global flag's inline body, separated and indented
/// one level deeper twice.
pub open spec fn spec_gflags_body_loop(
    fm: FmSeq,
    globals: Seq<FlagV>,
    i: int,
    acc: Seq<char>,
    ns: Seq<Seq<char>>,
    level: int,
) -> Seq<char>
    decreases globals.len() - i,
{
    if i < 0 || i >= globals.len() {
        acc
    } else {
        let acc1 = acc + (if i != 0 {
            ","@ + "\n"@ + spec_indent(level) + spec_indent(level)
        } else {
            Seq::<char>::empty()
        }) + spec_add_flag_body(fm, globals[i], ns, level);
        spec_gflags_body_loop(fm, globals, i + 1, acc1, ns, level)
    }
}

/// Whether any flag of the list is an inherited (imposed) copy.
pub open spec fn spec_any_imposed(flags: Seq<FlagV>) -> bool {
    exists|i: int| 0 <= i < flags.len() && (#[trigger] flags[i]).global is Imposed
}

/// Both passes: per-flag functions, then the scope's bundle function — its
/// own global flags' bodies when it declares any, and the empty placeholder
/// when it only inherits global flags, which renders as a no-op at every
/// reference site.
pub open spec fn spec_gen_flag_functions(
    fm: FmSeq,
    completes: Seq<(Seq<char>, CompleteV)>,
    comp: Option<(Seq<char>, Seq<char>)>,
    flags: Seq<FlagV>,
    ns: Seq<Seq<char>>,
    level: int,
) -> FmSeq {
    let p = spec_gen_flag_funcs_loop(fm, completes, comp, flags, ns, 0, Seq::empty());
    let gname = spec_global_flag_func_name(ns);
    if p.1.len() > 0 {
        let body = spec_gflags_body_loop(p.0, p.1, 0, Seq::empty(), ns, level);
        fm_insert(p.0, gname, spec_gfn_wrap(gname, body))
    } else if spec_any_imposed(flags) {
        fm_insert(p.0, gname, Seq::empty())
    } else {
        p.0
    }
}

/// Whether the rendered text ends with a line feed.
fn text_ends_newline(s: &String) -> (r: bool)
    ensures
        r == (s@.len() > 0 && s@.last() == '\n'),
{
    let n: usize = s.as_str().unicode_len();
    if n == 0 {
        return false;
    }
    let c: char = s.as_str().get_char(n - 1);
    c == '\n'
}

/// Emits the per-flag functions and the scope's global-flag bundle,
/// mirroring [`spec_gen_flag_functions`].
#[verifier::loop_isolation(false)]
fn generate_flag_functions(
    fm: &mut FuncMap,
    completes: &CompleteMap,
    completor: &Option<Completor>,
    flags: &Vec<Flag>,
    fmt: &GenFormatter,
)
    ensures
        final(fm).v() == spec_gen_flag_functions(
            old(fm).v(),
            completes.v(),
            completor_v(*completor),
            flags_v(flags@),
            fmt.ns.segs(),
            fmt.level as int,
        ),
{
    let ghost compv = completor_v(*completor);
    let ghost flagsv = flags_v(flags@);
    let ghost nssegs = fmt.ns.segs();
    let ghost whole = spec_gen_flag_funcs_loop(
        old(fm).v(),
        completes.v(),
        compv,
        flagsv,
        nssegs,
        0,
        Seq::empty(),
    );
    let mut globals: Vec<Flag> = Vec::new();
    let mut found_imposed = false;
    let n: usize = flags.len();
    let mut i: usize = 0;
    proof {
        assert(flags_v(globals@) =~= Seq::<FlagV>::empty());
    }
    while i < n
        invariant
            0 <= i <= n,
            found_imposed == exists|j: int|
                0 <= j < i && (#[trigger] flagsv[j]).global is Imposed,
            spec_gen_flag_funcs_loop(fm.v(), completes.v(), compv, flagsv, nssegs, i as int, flags_v(globals@)) == whole,
        decreases n - i,
    {
        proof {
            assert(flagsv[i as int] == flags@[i as int].v());
        }
        let f = &flags[i];
        if f.is_global_imposed() {
            found_imposed = true;
        } else {
            if f.is_global_itself() {
                let ghost before = flags_v(globals@);
                let fc = f.clone();
                let ghost fcv = fc.v();
                globals.push(fc);
                proof {
                    assert(flags_v(globals@) =~= before.push(fcv));
                }
            }
            let ns_view = fmt.ns.view();
            let func_name = ns_view.flag_func_name(f.name.as_str());
            let mut function = String::new();
            match &f.arg {
                Some(arg) => {
                    let arg_completion = add_arg(fm, completes, completor, arg, true);
                    if arg_completion.as_str().unicode_len() > 0 {
                        function.append("function ");
                        function.append(func_name.as_str());
                        function.append("()\n    return clink.argmatcher()");
                        function.append(arg_completion.as_str());
                        if !text_ends_newline(&function) {
                            function.append("\n");
                        }
                        function.append("end\n");
                        proof {
                            assert(function@ =~= spec_fn_wrap(func_name@, arg_completion@));
                        }
                    }
                }
                None => {}
            }
            fm.insert(func_name, function);
        }
        i = i + 1;
    }
    let ghost p = whole;
    proof {
        assert(p == (fm.v(), flags_v(globals@)));
        assert(found_imposed == spec_any_imposed(flagsv));
    }
    if globals.len() > 0 {
        let ghost fm1 = fm.v();
        let ghost bodyfold = spec_gflags_body_loop(
            fm1,
            flags_v(globals@),
            0,
            Seq::empty(),
            nssegs,
            fmt.level as int,
        );
        let mut body = String::new();
        let ng: usize = globals.len();
        let mut k: usize = 0;
        while k < ng
            invariant
                0 <= k <= ng,
                fm.v() == fm1,
                spec_gflags_body_loop(fm1, flags_v(globals@), k as int, body@, nssegs, fmt.level as int) == bodyfold,
            decreases ng - k,
        {
            proof {
                assert(flags_v(globals@)[k as int] == globals@[k as int].v());
            }
            let ghost acc0 = body@;
            if k != 0 {
                body.append(",");
                fmt.newline(&mut body);
                fmt.indent(&mut body);
                fmt.indent(&mut body);
            }
            let fb = add_flag_body(fm, &globals[k], fmt);
            body.append(fb.as_str());
            proof {
                assert(body@ =~= acc0 + (if k != 0 {
                    ","@ + "\n"@ + spec_indent(fmt.level as int) + spec_indent(fmt.level as int)
                } else {
                    Seq::<char>::empty()
                }) + spec_add_flag_body(fm1, flags_v(globals@)[k as int], nssegs, fmt.level as int));
            }
            k = k + 1;
        }
        let ns_view = fmt.ns.view();
        let func_name = ns_view.global_flag_func_name();
        let mut function = String::new();
        if body.as_str().unicode_len() > 0 {
            function.append("function ");
            function.append(func_name.as_str());
            function.append("()\n    return {\n        ");
            function.append(body.as_str());
            function.append("\n    }");
            if !text_ends_newline(&function) {
                function.append("\n");
            }
            function.append("end\n");
        }
        proof {
            assert(function@ =~= spec_gfn_wrap(func_name@, bodyfold));
        }
        fm.insert(func_name, function);
    } else if found_imposed {
        let ns_view = fmt.ns.view();
        let func_name = ns_view.global_flag_func_name();
        fm.insert(func_name, String::new());
    }
}

// ------------------------------------------------------------------------
// The flag group of one scope
// ------------------------------------------------------------------------

/// The flag-list walk: non-global flags render their inline bodies with a
/// trailing separator; any global flag only records its presence.
pub open spec fn spec_flags_text_loop(
    fm: FmSeq,
    flags: Seq<FlagV>,
    i: int,
    acc: Seq<char>,
    fg: bool,
    fng: bool,
    ns: Seq<Seq<char>>,
    lvl: int,
) -> (Seq<char>, bool, bool)
    decreases flags.len() - i,
{
    if i < 0 || i >= flags.len() {
        (acc, fg, fng)
    } else {
        let f = flags[i];
        if !(f.global is NotGlobal) {
            spec_flags_text_loop(fm, flags, i + 1, acc, true, fng, ns, lvl)
        } else {
            let b = spec_add_flag_body(fm, f, ns, lvl);
            let acc1 = if b.len() > 0 {
                acc + b + ","@ + "\n"@ + spec_indent(lvl)
            } else {
                acc
            };
            spec_flags_text_loop(fm, flags, i + 1, acc1, fg, true, ns, lvl)
        }
    }
}

/// The parent path: one segment less, or the root itself.
pub open spec fn spec_parent_segs(ns: Seq<Seq<char>>) -> Seq<Seq<char>> {
    if ns.len() > 0 {
        ns.drop_last()
    } else {
        ns
    }
}

/// The whole flag group of one scope: the per-flag functions are emitted
/// first; then the group lists the non-global flags, and when any global
/// flag is present, a nil-guarded call to the parent scope's bundle
/// followed, when this scope's own bundle name differs, by a nil-guarded
/// call to its own bundle — an absent or empty bundle is a no-op at its
/// reference site; trailing separators are trimmed before the group is
/// closed.
pub open spec fn spec_add_flags(
    fm: FmSeq,
    completes: Seq<(Seq<char>, CompleteV)>,
    comp: Option<(Seq<char>, Seq<char>)>,
    flags: Seq<FlagV>,
    ns: Seq<Seq<char>>,
    level: int,
) -> (FmSeq, Seq<char>) {
    let fm1 = spec_gen_flag_functions(fm, completes, comp, flags, ns, level);
    if flags.len() == 0 {
        (fm1, Seq::<char>::empty())
    } else {
        let lvl1 = level + 1;
        let delim = ","@ + "\n"@ + spec_indent(lvl1);
        let start = ":_addexflags({"@ + "\n"@ + spec_indent(lvl1);
        let w = spec_flags_text_loop(fm1, flags, 0, start, false, false, ns, lvl1);
        let t2 = if w.1 {
            let parent_g = spec_global_flag_func_name(spec_parent_segs(ns));
            let t2a = if w.2 && !spec_ends_with(w.0, delim) {
                w.0 + delim
            } else {
                w.0
            };
            let t2b = t2a + parent_g + " and "@ + parent_g + "()"@;
            let cur_g = spec_global_flag_func_name(ns);
            if cur_g != parent_g {
                t2b + delim + cur_g + " and "@ + cur_g + "()"@
            } else {
                t2b
            }
        } else {
            spec_trim_end(w.0, delim)
        };
        (fm1, t2 + "\n"@ + spec_indent(level) + "})"@)
    }
}

/// Renders the flag group of one scope, mirroring [`spec_add_flags`]; the
/// formatter's level is restored on return.
#[verifier::loop_isolation(false)]
fn add_flags(
    fm: &mut FuncMap,
    completes: &CompleteMap,
    completor: &Option<Completor>,
    flags: &Vec<Flag>,
    fmt: &mut GenFormatter,
) -> (r: String)
    requires
        old(fmt).level < usize::MAX,
    ensures
        final(fmt).ns.segs() == old(fmt).ns.segs(),
        final(fmt).level == old(fmt).level,
        (final(fm).v(), r@) == spec_add_flags(
            old(fm).v(),
            completes.v(),
            completor_v(*completor),
            flags_v(flags@),
            old(fmt).ns.segs(),
            old(fmt).level as int,
        ),
{
    let ghost compv = completor_v(*completor);
    let ghost flagsv = flags_v(flags@);
    let ghost nssegs = fmt.ns.segs();
    let ghost level0 = fmt.level as int;
    generate_flag_functions(fm, completes, completor, flags, fmt);
    let ghost fm1 = fm.v();
    let mut completions = String::new();
    let n: usize = flags.len();
    if n == 0 {
        return completions;
    }
    completions.append(":_addexflags({");
    fmt.increment_level();
    fmt.newline(&mut completions);
    fmt.indent(&mut completions);
    let ghost lvl1 = fmt.level as int;
    let ghost start_acc = completions@;
    proof {
        assert(start_acc =~= ":_addexflags({"@ + "\n"@ + spec_indent(lvl1));
    }
    let ghost wfold = spec_flags_text_loop(fm1, flagsv, 0, start_acc, false, false, nssegs, lvl1);
    let mut found_global_flag = false;
    let mut found_non_global_flag = false;
    let mut i: usize = 0;
    while i < n
        invariant
            0 <= i <= n,
            fm.v() == fm1,
            fmt.level as int == lvl1,
            fmt.ns.segs() == nssegs,
            spec_flags_text_loop(fm1, flagsv, i as int, completions@, found_global_flag, found_non_global_flag, nssegs, lvl1) == wfold,
        decreases n - i,
    {
        proof {
            assert(flagsv[i as int] == flags@[i as int].v());
        }
        let f = &flags[i];
        if !f.is_global() {
            let ghost acc0 = completions@;
            let body = add_flag_body(fm, f, fmt);
            if body.as_str().unicode_len() > 0 {
                completions.append(body.as_str());
                completions.append(",");
                fmt.newline(&mut completions);
                fmt.indent(&mut completions);
                proof {
                    assert(completions@ =~= acc0 + spec_add_flag_body(fm1, flagsv[i as int], nssegs, lvl1) + ","@ + "\n"@ + spec_indent(lvl1));
                }
            }
            found_non_global_flag = true;
        } else {
            found_global_flag = true;
        }
        i = i + 1;
    }
    let mut delim_s = String::from_str(",");
    fmt.newline(&mut delim_s);
    fmt.indent(&mut delim_s);
    let ghost delim = ","@ + "\n"@ + spec_indent(lvl1);
    proof {
        assert(delim_s@ =~= delim);
    }
    let ns_view = fmt.ns.view();
    if found_global_flag {
        let parent_view = ns_view.parent();
        proof {
            assert(parent_view.segs() == spec_parent_segs(nssegs));
        }
        let parent_gfunc_name = parent_view.global_flag_func_name();
        if found_non_global_flag && !crate::strutil::ends_with_str(
            completions.as_str(),
            delim_s.as_str(),
        ) {
            completions.append(delim_s.as_str());
        }
        completions.append(parent_gfunc_name.as_str());
        completions.append(" and ");
        completions.append(parent_gfunc_name.as_str());
        completions.append("()");
        let current_gfunc_name = ns_view.global_flag_func_name();
        if !str_eq(current_gfunc_name.as_str(), parent_gfunc_name.as_str()) {
            completions.append(delim_s.as_str());
            completions.append(current_gfunc_name.as_str());
            completions.append(" and ");
            completions.append(current_gfunc_name.as_str());
            completions.append("()");
        }
    } else {
        proof {
            reveal_strlit(",");
        }
        completions.trim_end_matches_mut(delim_s.as_str());
    }
    proof {
        let w = wfold;
        let t2 = if w.1 {
            let parent_g = spec_global_flag_func_name(spec_parent_segs(nssegs));
            let t2a = if w.2 && !spec_ends_with(w.0, delim) {
                w.0 + delim
            } else {
                w.0
            };
            let t2b = t2a + parent_g + " and "@ + parent_g + "()"@;
            let cur_g = spec_global_flag_func_name(nssegs);
            if cur_g != parent_g {
                t2b + delim + cur_g + " and "@ + cur_g + "()"@
            } else {
                t2b
            }
        } else {
            spec_trim_end(w.0, delim)
        };
        assert(completions@ =~= t2);
    }
    fmt.decrement_level();
    fmt.newline(&mut completions);
    fmt.indent(&mut completions);
    completions.append("})");
    proof {
        assert(completions@ =~= spec_add_flags(old(fm).v(), completes.v(), compv, flagsv, nssegs, level0).1);
    }
    completions
}

// ------------------------------------------------------------------------
// Command functions and the argument/subcommand group
// ------------------------------------------------------------------------

/// The names a command is listed under: its own name, then its aliases.
pub open spec fn spec_cmd_all_names(c: CmdV) -> Seq<Seq<char>> {
    seq![c.name] + Seq::new(c.aliases.len(), |i: int| c.aliases[i].name)
}

/// Whether a command has anything of its own worth a generated function.
pub open spec fn spec_cmd_has_content(c: CmdV) -> bool {
    c.flags.len() > 0 || c.cmds.len() > 0 || c.args.len() > 0
}

/// One rendered command spelling: the literal name, an inline call to the
/// command's generated function when it has content and a non-empty cached
/// body, then its help text.
pub open spec fn spec_cmd_entry(fm: FmSeq, c: CmdV, fname: Seq<char>, name: Seq<char>) -> Seq<
    char,
> {
    "{ \""@ + name + "\""@ + (if spec_cmd_has_content(c) {
        match fm_lookup(fm, fname) {
            Some(b) => if b.len() > 0 {
                " .. "@ + fname + "()"@
            } else {
                Seq::empty()
            },
            None => Seq::empty(),
        }
    } else {
        Seq::empty()
    }) + (if c.help.len() > 0 {
        ", [===["@ + c.help + "]===]"@
    } else {
        Seq::empty()
    }) + " }"@
}

pub open spec fn spec_cmd_names_loop(
    fm: FmSeq,
    c: CmdV,
    fname: Seq<char>,
    names: Seq<Seq<char>>,
    j: int,
    acc: Seq<char>,
    lvl1: int,
) -> Seq<char>
    decreases names.len() - j,
{
    if j < 0 || j >= names.len() {
        acc
    } else {
        let acc1 = acc + (if j != 0 {
            ","@ + "\n"@ + spec_indent(lvl1) + "--[[alias]] "@
        } else {
            Seq::empty()
        }) + spec_cmd_entry(fm, c, fname, names[j]);
        spec_cmd_names_loop(fm, c, fname, names, j + 1, acc1, lvl1)
    }
}

/// The subcommand walk of the argument/subcommand group: each command opens
/// the group when it is the first entry, or follows a separator, and lists
/// its spellings.
pub open spec fn spec_cmds_text_loop(
    fm: FmSeq,
    cmds: Seq<CmdV>,
    i: int,
    started: bool,
    acc: Seq<char>,
    ns: Seq<Seq<char>>,
    lvl1: int,
) -> (bool, Seq<char>)
    decreases cmds.len() - i,
{
    if i < 0 || i >= cmds.len() {
        (started, acc)
    } else {
        let c = cmds[i];
        let cname = spec_slug(c.name);
        let fname = spec_cmd_func_name(ns, cname);
        let acc1 = if !started {
            acc + spec_add_arg_start() + "\n"@ + spec_indent(lvl1)
        } else {
            acc + ","@ + "\n"@ + spec_indent(lvl1)
        };
        let acc2 = spec_cmd_names_loop(fm, c, fname, spec_cmd_all_names(c), 0, acc1, lvl1);
        spec_cmds_text_loop(fm, cmds, i + 1, true, acc2, ns, lvl1)
    }
}

/// The trailing arguments after the first, each rendered as its own
/// enclosed group on a fresh indented line.
pub open spec fn spec_rest_args_loop(
    fm: FmSeq,
    completes: Seq<(Seq<char>, CompleteV)>,
    comp: Option<(Seq<char>, Seq<char>)>,
    args: Seq<ArgV>,
    k: int,
    acc: Seq<char>,
    level: int,
) -> (FmSeq, Seq<char>)
    decreases args.len() - k,
{
    if k < 1 || k >= args.len() {
        (fm, acc)
    } else {
        let r = spec_add_arg(fm, completes, comp, args[k], true);
        spec_rest_args_loop(
            r.0,
            completes,
            comp,
            args,
            k + 1,
            acc + "\n"@ + spec_indent(level) + r.1,
            level,
        )
    }
}

/// The generated function of one command, produced while walking a command
/// list: its flag group and its argument/subcommand group, each on an
/// indented line, wrapped as an argmatcher function; a command without
/// content caches an empty placeholder.
pub open spec fn spec_gen_cmd_functions(
    fm: FmSeq,
    completes: Seq<(Seq<char>, CompleteV)>,
    comp: Option<(Seq<char>, Seq<char>)>,
    cmds: Seq<CmdV>,
    i: int,
    ns: Seq<Seq<char>>,
    level: int,
) -> FmSeq
    decreases cmds, cmds.len() - i, 1int,
{
    if i < 0 || i >= cmds.len() {
        fm
    } else {
        let c = cmds[i];
        let cname = spec_slug(c.name);
        let chns = crate::resolve::spec_join_seg(ns, cname);
        let fname = spec_cmd_func_name(ns, cname);
        let fmfn = if spec_cmd_has_content(c) {
            let rf = spec_add_flags(fm, completes, comp, c.flags, chns, level);
            let t1 = if rf.1.len() > 0 {
                "\n"@ + spec_indent(level) + rf.1
            } else {
                Seq::<char>::empty()
            };
            let ra = spec_add_args_and_cmds(rf.0, completes, comp, c.cmds, c.args, chns, level);
            let t2 = t1 + (if ra.1.len() > 0 {
                "\n"@ + spec_indent(level) + ra.1
            } else {
                Seq::<char>::empty()
            });
            (ra.0, spec_fn_wrap(fname, t2))
        } else {
            (fm, Seq::<char>::empty())
        };
        spec_gen_cmd_functions(
            fm_insert(fmfn.0, fname, fmfn.1),
            completes,
            comp,
            cmds,
            i + 1,
            ns,
            level,
        )
    }
}

/// The argument/subcommand group of one scope: the subcommand functions are
/// generated first; the group then lists the first argument's completion,
/// every subcommand, the first argument's hint and advance callback, and
/// the remaining arguments as separate groups. A leading argument bound to
/// a `Run` completion with no bridge configured opens a hint-only group
/// when nothing else would open one.
pub open spec fn spec_add_args_and_cmds(
    fm: FmSeq,
    completes: Seq<(Seq<char>, CompleteV)>,
    comp: Option<(Seq<char>, Seq<char>)>,
    cmds: Seq<CmdV>,
    args: Seq<ArgV>,
    ns: Seq<Seq<char>>,
    level: int,
) -> (FmSeq, Seq<char>)
    decreases cmds, cmds.len() + 1, 2int,
{
    let fm1 = spec_gen_cmd_functions(fm, completes, comp, cmds, 0, ns, level);
    let lvl1 = level + 1;
    let first = if args.len() > 0 {
        let r0 = spec_add_arg(fm1, completes, comp, args[0], false);
        if r0.1.len() > 0 {
            (r0.0, true, spec_add_arg_start() + "\n"@ + spec_indent(lvl1) + r0.1)
        } else {
            (r0.0, false, Seq::<char>::empty())
        }
    } else {
        (fm1, false, Seq::<char>::empty())
    };
    let w = spec_cmds_text_loop(first.0, cmds, 0, first.1, first.2, ns, lvl1);
    let closed = if w.0 {
        (if args.len() > 0 {
            w.1 + ","@ + "\n"@ + spec_indent(lvl1) + spec_add_arg_hint(args[0])
                + spec_add_arg_loop_until(args[0])
        } else {
            w.1
        }) + "\n"@ + spec_indent(level) + "})"@
    } else if args.len() > 0 && spec_run_unbridged(completes, comp, args[0]) {
        w.1 + spec_add_arg_start() + spec_add_arg_close(Some(args[0]))
    } else {
        w.1
    };
    spec_rest_args_loop(first.0, completes, comp, args, 1, closed, level)
}

/// Whether an argument is bound to a `Run` completion with no bridge
/// configured: such an argument renders hint-only, so when it would
/// otherwise leave the group unopened, a hint-only group stands in.
pub open spec fn spec_run_unbridged(
    completes: Seq<(Seq<char>, CompleteV)>,
    comp: Option<(Seq<char>, Seq<char>)>,
    a: ArgV,
) -> bool {
    &&& a.choices.len() == 0
    &&& comp is None
    &&& match spec_lookup(completes, lower_of(a.name)) {
        Some(c) => c.kind is Run,
        None => false,
    }
}

/// Renders one command's spelling list, mirroring [`spec_cmd_names_loop`].
#[verifier::loop_isolation(false)]
#[verifier::rlimit(50)]
fn cmd_names_text(fm: &FuncMap, cmd: &Cmd, fname: &String, fmt: &GenFormatter) -> (r: String)
    ensures
        r@ == spec_cmd_names_loop(
            fm.v(),
            cmd.v(),
            fname@,
            spec_cmd_all_names(cmd.v()),
            0,
            Seq::empty(),
            fmt.level as int,
        ),
{
    let mut cmd_names: Vec<String> = Vec::new();
    cmd_names.push(cmd.name.clone());
    proof {
        assert(seq_views(cmd_names@) =~= seq![cmd.v().name] + Seq::new(
            0nat,
            |i: int| cmd.v().aliases[i].name,
        ));
    }
    let na: usize = cmd.aliases.len();
    let mut ai: usize = 0;
    while ai < na
        invariant
            0 <= ai <= na,
            seq_views(cmd_names@) =~= seq![cmd.v().name] + Seq::new(
                ai as nat,
                |i: int| cmd.v().aliases[i].name,
            ),
        decreases na - ai,
    {
        let ghost before = seq_views(cmd_names@);
        cmd_names.push(cmd.aliases[ai].name.clone());
        proof {
            assert(seq_views(cmd_names@) =~= before.push(cmd.v().aliases[ai as int].name));
            assert(seq_views(cmd_names@) =~= seq![cmd.v().name] + Seq::new(
                (ai + 1) as nat,
                |i: int| cmd.v().aliases[i].name,
            ));
        }
        ai = ai + 1;
    }
    proof {
        assert(seq_views(cmd_names@) =~= spec_cmd_all_names(cmd.v()));
    }
    let ghost namesv = spec_cmd_all_names(cmd.v());
    let ghost fold_all = spec_cmd_names_loop(
        fm.v(),
        cmd.v(),
        fname@,
        namesv,
        0,
        Seq::empty(),
        fmt.level as int,
    );
    let has_content = cmd.flags.len() > 0 || cmd.cmds.len() > 0 || cmd.args.len() > 0;
    proof {
        crate::usage::lemma_cmds_v_len(cmd.cmds@);
        assert(has_content == spec_cmd_has_content(cmd.v()));
    }
    let mut completions = String::new();
    let n: usize = cmd_names.len();
    let mut j: usize = 0;
    while j < n
        invariant
            0 <= j <= n,
            spec_cmd_names_loop(fm.v(), cmd.v(), fname@, namesv, j as int, completions@, fmt.level as int) == fold_all,
        decreases n - j,
    {
        proof {
            assert(namesv[j as int] == cmd_names@[j as int]@);
        }
        let ghost acc0 = completions@;
        if j != 0 {
            completions.append(",");
            fmt.newline(&mut completions);
            fmt.indent(&mut completions);
            completions.append("--[[alias]] ");
        }
        let ghost acc1 = completions@;
        completions.append("{ \"");
        completions.append(cmd_names[j].as_str());
        completions.append("\"");
        if has_content {
            match fm.get(fname.as_str()) {
                Some(function) => {
                    if function.as_str().unicode_len() > 0 {
                        completions.append(" .. ");
                        completions.append(fname.as_str());
                        completions.append("()");
                    }
                }
                None => {}
            }
        }
        if cmd.help.as_str().unicode_len() > 0 {
            completions.append(", [===[");
            completions.append(cmd.help.as_str());
            completions.append("]===]");
        }
        completions.append(" }");
        proof {
            assert(completions@ =~= acc1 + spec_cmd_entry(fm.v(), cmd.v(), fname@, namesv[j as int]));
            assert(completions@ =~= acc0 + (if j != 0 {
                ","@ + "\n"@ + spec_indent(fmt.level as int) + "--[[alias]] "@
            } else {
                Seq::<char>::empty()
            }) + spec_cmd_entry(fm.v(), cmd.v(), fname@, namesv[j as int]));
        }
        j = j + 1;
    }
    completions
}

/// Emits the function of every command of the list, mirroring
/// [`spec_gen_cmd_functions`].
#[verifier::loop_isolation(false)]
#[verifier::rlimit(100)]
#[verifier::spinoff_prover]
fn generate_cmd_functions(
    fm: &mut FuncMap,
    completes: &CompleteMap,
    completor: &Option<Completor>,
    cmds: &Vec<Cmd>,
    fmt: &GenFormatter,
)
    requires
        fmt.level < usize::MAX,
    ensures
        final(fm).v() == spec_gen_cmd_functions(
            old(fm).v(),
            completes.v(),
            completor_v(*completor),
            cmds_v(cmds@),
            0,
            fmt.ns.segs(),
            fmt.level as int,
        ),
    decreases cmds@, 0int,
{
    let ghost compv = completor_v(*completor);
    let ghost cmdsv = cmds_v(cmds@);
    let ghost nssegs = fmt.ns.segs();
    let ghost lvl = fmt.level as int;
    let ghost whole = spec_gen_cmd_functions(old(fm).v(), completes.v(), compv, cmdsv, 0, nssegs, lvl);
    proof {
        crate::usage::lemma_cmds_v_len(cmds@);
    }
    let n: usize = cmds.len();
    let mut i: usize = 0;
    while i < n
        invariant
            0 <= i <= n,
            spec_gen_cmd_functions(fm.v(), completes.v(), compv, cmdsv, i as int, nssegs, lvl) == whole,
        decreases n - i,
    {
        proof {
            crate::usage::lemma_cmds_v_index(cmds@, i as int);
        }
        let ghost fm_iter0 = fm.v();
        let c = &cmds[i];
        let cname = crate::namespace::slugify(c.name.as_str());
        let joined = fmt.ns.clone().join(cname.as_str());
        let mut chfmt = GenFormatter { ns: joined, level: fmt.level };
        proof {
            assert(chfmt.ns.segs() == crate::resolve::spec_join_seg(nssegs, spec_slug(c.v().name)));
        }
        let ns_view = fmt.ns.view();
        let func_name = ns_view.cmd_func_name(cname.as_str());
        let mut function = String::new();
        let has_content = c.flags.len() > 0 || c.cmds.len() > 0 || c.args.len() > 0;
        proof {
            crate::usage::lemma_cmds_v_len(c.cmds@);
            assert(has_content == spec_cmd_has_content(c.v()));
        }
        if has_content {
            let mut cmd_completion = String::new();
            let completion = add_flags(fm, completes, completor, &c.flags, &mut chfmt);
            let ghost rf = (fm.v(), completion@);
            if completion.as_str().unicode_len() > 0 {
                fmt.newline(&mut cmd_completion);
                fmt.indent(&mut cmd_completion);
                cmd_completion.append(completion.as_str());
            }
            let ghost t1 = cmd_completion@;
            proof {
                assert(t1 =~= if rf.1.len() > 0 {
                    "\n"@ + spec_indent(lvl) + rf.1
                } else {
                    Seq::<char>::empty()
                });
                assert(decreases_to!(cmds@ => cmds@[i as int]));
                assert(decreases_to!(cmds@[i as int] => cmds@[i as int].cmds));
                assert(decreases_to!(cmds@[i as int].cmds => cmds@[i as int].cmds@));
            }
            let completion2 = add_args_and_cmds(fm, completes, completor, &c.cmds, &c.args, &mut chfmt);
            let ghost ra = (fm.v(), completion2@);
            if completion2.as_str().unicode_len() > 0 {
                fmt.newline(&mut cmd_completion);
                fmt.indent(&mut cmd_completion);
                cmd_completion.append(completion2.as_str());
            }
            proof {
                assert(cmd_completion@ =~= t1 + (if ra.1.len() > 0 {
                    "\n"@ + spec_indent(lvl) + ra.1
                } else {
                    Seq::<char>::empty()
                }));
            }
            function.append("function ");
            function.append(func_name.as_str());
            function.append("()\n    return clink.argmatcher()");
            function.append(cmd_completion.as_str());
            if !text_ends_newline(&function) {
                fmt.newline(&mut function);
            }
            function.append("end\n");
            proof {
                assert(function@ =~= spec_fn_wrap(func_name@, cmd_completion@));
            }
        }
        fm.insert(func_name, function);
        proof {
            assert(spec_gen_cmd_functions(fm_iter0, completes.v(), compv, cmdsv, i as int, nssegs, lvl)
                == spec_gen_cmd_functions(fm.v(), completes.v(), compv, cmdsv, i as int + 1, nssegs, lvl));
        }
        i = i + 1;
    }
}

/// Renders the argument/subcommand group of one scope, mirroring
/// [`spec_add_args_and_cmds`]; the formatter's level is restored on return.
#[verifier::loop_isolation(false)]
fn add_args_and_cmds(
    fm: &mut FuncMap,
    completes: &CompleteMap,
    completor: &Option<Completor>,
    cmds: &Vec<Cmd>,
    args: &Vec<Arg>,
    fmt: &mut GenFormatter,
) -> (r: String)
    requires
        old(fmt).level < usize::MAX,
    ensures
        final(fmt).ns.segs() == old(fmt).ns.segs(),
        final(fmt).level == old(fmt).level,
        (final(fm).v(), r@) == spec_add_args_and_cmds(
            old(fm).v(),
            completes.v(),
            completor_v(*completor),
            cmds_v(cmds@),
            args_v(args@),
            old(fmt).ns.segs(),
            old(fmt).level as int,
        ),
    decreases cmds@, 1int,
{
    let ghost compv = completor_v(*completor);
    let ghost cmdsv = cmds_v(cmds@);
    let ghost argsv = args_v(args@);
    let ghost nssegs = fmt.ns.segs();
    let ghost level0 = fmt.level as int;
    let ghost lvl1 = level0 + 1;
    generate_cmd_functions(fm, completes, completor, cmds, fmt);
    let ghost fm1v = fm.v();
    proof {
        crate::usage::lemma_cmds_v_len(cmds@);
    }
    let mut completions = String::new();
    let mut started = false;
    if args.len() > 0 {
        let arg_completion = add_arg(fm, completes, completor, &args[0], false);
        if arg_completion.as_str().unicode_len() > 0 {
            fmt.increment_level();
            let s = add_arg_start();
            completions.append(s.as_str());
            fmt.newline(&mut completions);
            fmt.indent(&mut completions);
            completions.append(arg_completion.as_str());
            started = true;
            proof {
                assert(completions@ =~= spec_add_arg_start() + "\n"@ + spec_indent(lvl1)
                    + arg_completion@);
            }
        }
    }
    let ghost first = (fm.v(), started, completions@);
    let ghost wfold = spec_cmds_text_loop(first.0, cmdsv, 0, first.1, first.2, nssegs, lvl1);
    let n: usize = cmds.len();
    let mut i: usize = 0;
    while i < n
        invariant
            0 <= i <= n,
            fm.v() == first.0,
            fmt.ns.segs() == nssegs,
            fmt.level as int == if started {
                lvl1
            } else {
                level0
            },
            n > 0 && i > 0 ==> started,
            spec_cmds_text_loop(first.0, cmdsv, i as int, started, completions@, nssegs, lvl1) == wfold,
        decreases n - i,
    {
        proof {
            crate::usage::lemma_cmds_v_index(cmds@, i as int);
        }
        let c = &cmds[i];
        let cname = crate::namespace::slugify(c.name.as_str());
        let ns_view = fmt.ns.view();
        let func_name = ns_view.cmd_func_name(cname.as_str());
        let ghost acc0 = completions@;
        if !started {
            fmt.increment_level();
            let s = add_arg_start();
            completions.append(s.as_str());
            fmt.newline(&mut completions);
            fmt.indent(&mut completions);
            started = true;
            proof {
                assert(completions@ =~= acc0 + spec_add_arg_start() + "\n"@ + spec_indent(lvl1));
            }
        } else {
            completions.append(",");
            fmt.newline(&mut completions);
            fmt.indent(&mut completions);
            proof {
                assert(completions@ =~= acc0 + ","@ + "\n"@ + spec_indent(lvl1));
            }
        }
        let inner = cmd_names_text(fm, c, &func_name, fmt);
        let ghost acc1 = completions@;
        completions.append(inner.as_str());
        proof {
            lemma_cmd_names_from(
                fm.v(),
                cmds_v(cmds@)[i as int],
                func_name@,
                spec_cmd_all_names(cmds_v(cmds@)[i as int]),
                acc1,
                lvl1,
            );
        }
        i = i + 1;
    }
    if started {
        if args.len() > 0 {
            let ghost acc0 = completions@;
            completions.append(",");
            fmt.newline(&mut completions);
            fmt.indent(&mut completions);
            let h = add_arg_hint(&args[0]);
            completions.append(h.as_str());
            let l = add_arg_loop_until(&args[0]);
            completions.append(l.as_str());
            proof {
                assert(completions@ =~= acc0 + ","@ + "\n"@ + spec_indent(lvl1)
                    + spec_add_arg_hint(argsv[0]) + spec_add_arg_loop_until(argsv[0]));
            }
        }
        fmt.decrement_level();
        let ghost acc0 = completions@;
        fmt.newline(&mut completions);
        fmt.indent(&mut completions);
        let cl = add_arg_close(None);
        completions.append(cl.as_str());
        proof {
            assert(completions@ =~= acc0 + "\n"@ + spec_indent(level0) + "})"@);
        }
    }
    if !started && args.len() > 0 {
        let a0 = &args[0];
        let mut unbridged = false;
        if a0.choices.len() == 0 {
            match completor {
                Some(_) => {}
                None => {
                    let lower = a0.name.as_str().to_lowercase();
                    match completes.get(lower.as_str()) {
                        Some(c) => {
                            match &c.kind {
                                CompleteKind::Run(_) => {
                                    unbridged = true;
                                }
                                _ => {}
                            }
                        }
                        None => {}
                    }
                }
            }
        }
        proof {
            assert(unbridged == spec_run_unbridged(completes.v(), compv, argsv[0]));
        }
        if unbridged {
            let ghost acc0 = completions@;
            let st = add_arg_start();
            completions.append(st.as_str());
            let cl = add_arg_close(Some(a0));
            completions.append(cl.as_str());
            proof {
                assert(completions@ =~= acc0 + spec_add_arg_start() + spec_add_arg_close(
                    Some(argsv[0]),
                ));
            }
        }
    }
    let ghost closedv = completions@;
    let ghost rfold = spec_rest_args_loop(first.0, completes.v(), compv, argsv, 1, closedv, level0);
    let na: usize = args.len();
    let mut k: usize = 1;
    while k < na
        invariant
            1 <= k <= na || (na == 0 && k == 1),
            fmt.ns.segs() == nssegs,
            fmt.level as int == level0,
            spec_rest_args_loop(fm.v(), completes.v(), compv, argsv, k as int, completions@, level0) == rfold,
        decreases na - k,
    {
        proof {
            assert(argsv[k as int] == args@[k as int].v());
        }
        let ghost acc0 = completions@;
        fmt.newline(&mut completions);
        fmt.indent(&mut completions);
        let t = add_arg(fm, completes, completor, &args[k], true);
        completions.append(t.as_str());
        proof {
            assert(completions@ =~= acc0 + "\n"@ + spec_indent(level0) + t@);
        }
        k = k + 1;
    }
    completions
}

/// The spelling-list text appended onto an accumulator equals the loop run
/// from that accumulator.
proof fn lemma_cmd_names_from(
    fm: FmSeq,
    c: CmdV,
    fname: Seq<char>,
    names: Seq<Seq<char>>,
    acc: Seq<char>,
    lvl1: int,
)
    ensures
        acc + spec_cmd_names_loop(fm, c, fname, names, 0, Seq::empty(), lvl1)
            == spec_cmd_names_loop(fm, c, fname, names, 0, acc, lvl1),
{
    lemma_cmd_names_shift(fm, c, fname, names, 0, Seq::empty(), acc, lvl1);
}

proof fn lemma_cmd_names_shift(
    fm: FmSeq,
    c: CmdV,
    fname: Seq<char>,
    names: Seq<Seq<char>>,
    j: int,
    acc: Seq<char>,
    pre: Seq<char>,
    lvl1: int,
)
    ensures
        pre + spec_cmd_names_loop(fm, c, fname, names, j, acc, lvl1) == spec_cmd_names_loop(
            fm,
            c,
            fname,
            names,
            j,
            pre + acc,
            lvl1,
        ),
    decreases names.len() - j,
{
    if j < 0 || j >= names.len() {
    } else {
        let sep = if j != 0 {
            ","@ + "\n"@ + spec_indent(lvl1) + "--[[alias]] "@
        } else {
            Seq::<char>::empty()
        };
        let entry = spec_cmd_entry(fm, c, fname, names[j]);
        let acc1 = acc + sep + entry;
        let pacc1 = (pre + acc) + sep + entry;
        assert(pre + acc1 =~= pacc1);
        lemma_cmd_names_shift(fm, c, fname, names, j + 1, acc1, pre, lvl1);
    }
}

// ------------------------------------------------------------------------
// The whole script
// ------------------------------------------------------------------------

/// The fixed preamble shared by every generated script: the variadic
/// position-tracking helper.
pub open spec fn spec_preamble() -> Seq<char> {
    "require(\"arghelper\")\n\nfunction loop_until(word_index, line_state, user_data)\n\tif not user_data.first_index then\n\t\tuser_data.first_index = word_index\n\tend\n\tlocal diff = user_data.var_max - user_data.var_min\n\tlocal prev_word = line_state:getword(word_index - 1)\n\t-- var_max is -1 to loop forever and using '--' should break the loop\n\t-- to point to next arg position. \n\t-- diff is used to loop limitedly till max but also break with '--' if greater than min\n\tif (user_data.var_max < 0 and prev_word == \"--\")\n\t\tor ((diff > 0 and word_index >= user_data.first_index + diff)\n\t\t\tor (prev_word == \"--\" and word_index >= user_data.first_index + user_data.var_min))\n\tthen\n\t\treturn 1\n\tend\n\treturn 0\nend\n\n"@
}

/// One registration statement per requested external matcher name.
pub open spec fn spec_registers_loop(ams: Seq<Seq<char>>, i: int, acc: Seq<char>) -> Seq<char>
    decreases ams.len() - i,
{
    if i < 0 || i >= ams.len() {
        acc
    } else {
        let acc1 = acc + (if i != 0 {
            "\n"@
        } else {
            Seq::empty()
        }) + "clink.arg.register_parser(\""@ + ams[i] + "\", matcher)"@;
        spec_registers_loop(ams, i + 1, acc1)
    }
}

/// The cached function bodies concatenated in insertion order.
pub open spec fn spec_concat_bodies(fm: FmSeq, i: int, acc: Seq<char>) -> Seq<char>
    decreases fm.len() - i,
{
    if i < 0 || i >= fm.len() {
        acc
    } else {
        spec_concat_bodies(fm, i + 1, acc + fm[i].1)
    }
}

/// The whole generated script: the preamble, then every cached auxiliary
/// function in insertion order, then the root matcher body: the root's flag
/// group and argument/subcommand group, a closing no-implicit-files marker,
/// and one registration statement per requested external matcher name.
pub open spec fn spec_generate(
    sp: UsageSpecV,
    comp: Option<(Seq<char>, Seq<char>)>,
    ams: Seq<Seq<char>>,
    fm0: FmSeq,
) -> (FmSeq, Seq<char>) {
    let body0 = if ams.len() == 0 {
        "\nclink.argmatcher(\""@ + sp.info.bin + "\")"@
    } else {
        "\nlocal matcher = clink.argmatcher()"@
    };
    let body1 = body0 + "\n"@ + spec_indent(0);
    let rf = spec_add_flags(fm0, sp.completes, comp, sp.flags, Seq::empty(), 0);
    let body2 = if rf.1.len() > 0 {
        body1 + rf.1 + "\n"@ + spec_indent(0)
    } else {
        body1
    };
    let ra = spec_add_args_and_cmds(rf.0, sp.completes, comp, sp.cmds, sp.args, Seq::empty(), 0);
    let body3 = if ra.1.len() > 0 {
        body2 + ra.1 + "\n"@ + spec_indent(0)
    } else {
        body2
    };
    let body4 = body3 + ":nofiles()"@;
    let body5 = if ams.len() > 0 {
        body4 + spec_registers_loop(ams, 0, "\n"@)
    } else {
        body4
    };
    (ra.0, spec_preamble() + spec_concat_bodies(ra.0, 0, Seq::empty()) + body5)
}

impl GeneratorView {
    /// Compiles the resolved model to the output script, mirroring
    /// [`spec_generate`]; afterwards the memo table holds every declared
    /// auxiliary function.
    #[verifier::loop_isolation(false)]
    pub fn generate(&mut self) -> (r: String)
        ensures
            (final(self).cached_functions.v(), r@) == spec_generate(
                old(self).spec.v(),
                completor_v(old(self).completor),
                seq_views(old(self).arg_matchers@),
                old(self).cached_functions.v(),
            ),
            final(self).spec.v() == old(self).spec.v(),
    {
        let mut fmt = GenFormatter::default();
        let ghost spv = self.spec.v();
        let ghost compv = completor_v(self.completor);
        let ghost amsv = seq_views(self.arg_matchers@);
        let mut script_start = String::from_str(
            "require(\"arghelper\")\n\nfunction loop_until(word_index, line_state, user_data)\n\tif not user_data.first_index then\n\t\tuser_data.first_index = word_index\n\tend\n\tlocal diff = user_data.var_max - user_data.var_min\n\tlocal prev_word = line_state:getword(word_index - 1)\n\t-- var_max is -1 to loop forever and using '--' should break the loop\n\t-- to point to next arg position. \n\t-- diff is used to loop limitedly till max but also break with '--' if greater than min\n\tif (user_data.var_max < 0 and prev_word == \"--\")\n\t\tor ((diff > 0 and word_index >= user_data.first_index + diff)\n\t\t\tor (prev_word == \"--\" and word_index >= user_data.first_index + user_data.var_min))\n\tthen\n\t\treturn 1\n\tend\n\treturn 0\nend\n\n",
        );
        let mut script_body = String::new();
        if self.arg_matchers.len() == 0 {
            script_body.append("\nclink.argmatcher(\"");
            script_body.append(self.spec.info.bin.as_str());
            script_body.append("\")");
        } else {
            script_body.append("\nlocal matcher = clink.argmatcher()");
        }
        fmt.newline(&mut script_body);
        fmt.indent(&mut script_body);
        let ghost body1 = script_body@;
        let body = add_flags(
            &mut self.cached_functions,
            &self.spec.completes,
            &self.completor,
            &self.spec.flags,
            &mut fmt,
        );
        let ghost rf = (self.cached_functions.v(), body@);
        if body.as_str().unicode_len() > 0 {
            script_body.append(body.as_str());
            fmt.newline(&mut script_body);
            fmt.indent(&mut script_body);
        }
        let ghost body2 = script_body@;
        proof {
            assert(body2 =~= if rf.1.len() > 0 {
                body1 + rf.1 + "\n"@ + spec_indent(0)
            } else {
                body1
            });
        }
        let body_ac = add_args_and_cmds(
            &mut self.cached_functions,
            &self.spec.completes,
            &self.completor,
            &self.spec.cmds,
            &self.spec.args,
            &mut fmt,
        );
        let ghost ra = (self.cached_functions.v(), body_ac@);
        if body_ac.as_str().unicode_len() > 0 {
            script_body.append(body_ac.as_str());
            fmt.newline(&mut script_body);
            fmt.indent(&mut script_body);
        }
        let ghost body3 = script_body@;
        proof {
            assert(body3 =~= if ra.1.len() > 0 {
                body2 + ra.1 + "\n"@ + spec_indent(0)
            } else {
                body2
            });
        }
        script_body.append(":nofiles()");
        if self.arg_matchers.len() > 0 {
            let mut reg = String::new();
            fmt.newline(&mut reg);
            let ghost regfold = spec_registers_loop(amsv, 0, "\n"@);
            let nm: usize = self.arg_matchers.len();
            let mut i: usize = 0;
            while i < nm
                invariant
                    0 <= i <= nm,
                    spec_registers_loop(amsv, i as int, reg@) == regfold,
                decreases nm - i,
            {
                proof {
                    assert(amsv[i as int] == self.arg_matchers@[i as int]@);
                }
                let ghost acc0 = reg@;
                if i != 0 {
                    fmt.newline(&mut reg);
                }
                reg.append("clink.arg.register_parser(\"");
                reg.append(self.arg_matchers[i].as_str());
                reg.append("\", matcher)");
                proof {
                    assert(reg@ =~= acc0 + (if i != 0 {
                        "\n"@
                    } else {
                        Seq::<char>::empty()
                    }) + "clink.arg.register_parser(\""@ + amsv[i as int] + "\", matcher)"@);
                }
                i = i + 1;
            }
            script_body.append(reg.as_str());
        }
        let ghost fmfinal = self.cached_functions.v();
        let ghost prefold = spec_concat_bodies(fmfinal, 0, Seq::empty());
        let ghost start0 = script_start@;
        let nf: usize = self.cached_functions.entries.len();
        let mut k: usize = 0;
        proof {
            lemma_concat_bodies_shift(fmfinal, 0, Seq::empty(), start0);
        }
        while k < nf
            invariant
                0 <= k <= nf,
                self.cached_functions.v() == fmfinal,
                nf == self.cached_functions.entries@.len(),
                spec_concat_bodies(fmfinal, k as int, script_start@) == spec_concat_bodies(
                    fmfinal,
                    0,
                    start0,
                ),
            decreases nf - k,
        {
            proof {
                assert(fmfinal[k as int].1 == self.cached_functions.entries@[k as int].body@);
            }
            let b = self.cached_functions.entries[k].body.clone();
            script_start.append(b.as_str());
            k = k + 1;
        }
        proof {
            lemma_concat_bodies_shift(fmfinal, 0, Seq::empty(), start0);
            assert(script_start@ == start0 + prefold);
        }
        script_start.append(script_body.as_str());
        proof {
            assert(script_start@ =~= spec_generate(spv, compv, amsv, old(self).cached_functions.v()).1);
        }
        script_start
    }
}

/// Concatenating from a prefixed accumulator prefixes the result.
proof fn lemma_concat_bodies_shift(fm: FmSeq, i: int, acc: Seq<char>, pre: Seq<char>)
    ensures
        pre + spec_concat_bodies(fm, i, acc) == spec_concat_bodies(fm, i, pre + acc),
    decreases fm.len() - i,
{
    if i < 0 || i >= fm.len() {
    } else {
        assert(pre + (acc + fm[i].1) =~= (pre + acc) + fm[i].1);
        lemma_concat_bodies_shift(fm, i + 1, acc + fm[i].1, pre);
    }
}

impl Generator {
    /// A fresh generator around a resolved model.
    pub fn new(spec: UsageSpec) -> (r: Self)
        ensures
            r.spec.v() == spec.v(),
            r.cached_functions.v() =~= Seq::<(Seq<char>, Seq<char>)>::empty(),
            r.completor is None,
            r.arg_matchers@.len() == 0,
    {
        Generator {
            spec,
            cached_functions: FuncMap::new(),
            completor: None,
            arg_matchers: Vec::new(),
        }
    }

    /// The working view for one generation pass.
    pub fn into_view(self) -> (r: GeneratorView)
        ensures
            r.spec.v() == self.spec.v(),
            r.cached_functions.v() == self.cached_functions.v(),
            completor_v(r.completor) == completor_v(self.completor),
            seq_views(r.arg_matchers@) == seq_views(self.arg_matchers@),
    {
        let Generator { spec, cached_functions, completor, arg_matchers } = self;
        GeneratorView { spec, cached_functions, completor, arg_matchers }
    }
}

} // verus!
