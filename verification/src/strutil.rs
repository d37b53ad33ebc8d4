//! Small string helpers shared by the parser, the namespace scheme and the
//! code generator: character-class tests, whitespace splitting, dash
//! trimming, slugification and suffix trimming.

use vstd::prelude::*;

verus! {

use vstd::string::StrSliceExecFns;
use vstd::string::StringExecFns;

/// What `char::is_alphanumeric` returns: a fixed Unicode property of the
/// character alone.
pub uninterp spec fn char_alphanumeric(c: char) -> bool;

/// What `char::is_whitespace` returns: a fixed Unicode property of the
/// character alone.
pub uninterp spec fn char_whitespace(c: char) -> bool;

/// Relies on char::is_alphanumeric: whether the character is in the Unicode
/// Alphabetic or Number categories, a property of the character alone.
pub assume_specification[ char::is_alphanumeric ](c: char) -> (r: bool)
    ensures
        r == char_alphanumeric(c),
;

/// Relies on char::is_whitespace: whether the character has the Unicode
/// White_Space property, a property of the character alone.
pub assume_specification[ char::is_whitespace ](c: char) -> (r: bool)
    ensures
        r == char_whitespace(c),
;

/// What `str::to_lowercase` returns: the Unicode lowercase form, a function
/// of the characters alone.
pub uninterp spec fn lower_of(s: Seq<char>) -> Seq<char>;

/// Relies on str::to_lowercase: the lowercase equivalent of the string,
/// a function of the characters alone.
pub assume_specification[ str::to_lowercase ](s: &str) -> (r: String)
    ensures
        r@ == lower_of(s@),
;

/// Relies on String::push: appends the given character to the end of the
/// string.
#[verifier::external_body]
pub fn push_char(s: &mut String, c: char)
    ensures
        final(s)@ == old(s)@.push(c),
{
    s.push(c);
}

/// The views of a sequence of strings.
pub open spec fn seq_views(v: Seq<String>) -> Seq<Seq<char>> {
    Seq::new(v.len(), |i: int| v[i]@)
}

pub fn str_eq(a: &str, b: &str) -> (r: bool)
    ensures
        r == (a@ == b@),
{
    let la: usize = a.unicode_len();
    let lb: usize = b.unicode_len();
    if la != lb {
        return false;
    }
    let mut i: usize = 0;
    while i < la
        invariant
            la == a@.len(),
            la == b@.len(),
            0 <= i <= la,
            forall|j: int| 0 <= j < i ==> a@[j] == b@[j],
        decreases la - i,
    {
        let ca: char = a.get_char(i);
        let cb: char = b.get_char(i);
        if ca != cb {
            return false;
        }
        i = i + 1;
    }
    proof {
        assert(a@ =~= b@);
    }
    true
}

/// Clones a vector of strings, keeping the views.
pub fn clone_strings(v: &Vec<String>) -> (r: Vec<String>)
    ensures
        r@ =~= v@,
{
    let r = v.clone();
    proof {
        assert forall|i: int| 0 <= i < v@.len() implies r@[i] == v@[i] by {
            assert(vstd::pervasive::cloned::<String>(v@[i], r@[i]));
        }
    }
    r
}

/// A string is blank when every character is whitespace; the empty string is
/// blank.
pub open spec fn spec_blank(s: Seq<char>) -> bool {
    forall|i: int| 0 <= i < s.len() ==> char_whitespace(s[i])
}

pub fn is_blank(s: &str) -> (r: bool)
    ensures
        r == spec_blank(s@),
{
    let n: usize = s.unicode_len();
    let mut i: usize = 0;
    while i < n
        invariant
            n == s@.len(),
            0 <= i <= n,
            forall|j: int| 0 <= j < i ==> char_whitespace(s@[j]),
        decreases n - i,
    {
        let c: char = s.get_char(i);
        if !c.is_whitespace() {
            return false;
        }
        i = i + 1;
    }
    true
}

/// Length of the maximal non-whitespace prefix.
pub open spec fn word_len(s: Seq<char>) -> int
    decreases s.len(),
{
    if s.len() == 0 || char_whitespace(s[0]) {
        0
    } else {
        1 + word_len(s.drop_first())
    }
}

pub proof fn lemma_word_len_bounds(s: Seq<char>)
    ensures
        0 <= word_len(s) <= s.len(),
        forall|k: int| 0 <= k < word_len(s) ==> !char_whitespace(s[k]),
        word_len(s) < s.len() ==> char_whitespace(s[word_len(s)]),
    decreases s.len(),
{
    if s.len() == 0 || char_whitespace(s[0]) {
    } else {
        lemma_word_len_bounds(s.drop_first());
        assert forall|k: int| 0 <= k < word_len(s) implies !char_whitespace(s[k]) by {
            if k > 0 {
                assert(s.drop_first()[k - 1] == s[k]);
            }
        }
        if word_len(s) < s.len() {
            assert(s.drop_first()[word_len(s) - 1] == s[word_len(s)]);
        }
    }
}

/// The whitespace-separated words of a string, in order, each word a maximal
/// run of non-whitespace characters.
pub open spec fn spec_split_ws(s: Seq<char>) -> Seq<Seq<char>>
    decreases s.len(),
    via spec_split_ws_decreases
{
    if s.len() == 0 {
        Seq::empty()
    } else if char_whitespace(s[0]) {
        spec_split_ws(s.drop_first())
    } else {
        seq![s.take(word_len(s))] + spec_split_ws(s.skip(word_len(s)))
    }
}

#[via_fn]
proof fn spec_split_ws_decreases(s: Seq<char>) {
    lemma_word_len_bounds(s);
}

/// If the characters from position 0 up to m are non-whitespace and position
/// m (if any) is whitespace, then m is exactly the word length.
proof fn lemma_word_len_exact(s: Seq<char>, m: int)
    requires
        0 <= m <= s.len(),
        forall|k: int| 0 <= k < m ==> !char_whitespace(s[k]),
        m == s.len() || char_whitespace(s[m]),
    ensures
        word_len(s) == m,
    decreases s.len(),
{
    if s.len() == 0 {
    } else if m == 0 {
    } else {
        assert(!char_whitespace(s[0]));
        assert forall|k: int| 0 <= k < m - 1 implies !char_whitespace(s.drop_first()[k]) by {
            assert(s.drop_first()[k] == s[k + 1]);
        }
        if m - 1 < s.drop_first().len() {
            assert(s.drop_first()[m - 1] == s[m]);
        }
        lemma_word_len_exact(s.drop_first(), m - 1);
    }
}

fn char_ws_at(s: &str, i: usize) -> (r: bool)
    requires
        i < s@.len(),
    ensures
        r == char_whitespace(s@[i as int]),
{
    let c: char = s.get_char(i);
    c.is_whitespace()
}

fn split_ws_from(s: &str, from: usize) -> (r: Vec<String>)
    requires
        from <= s@.len(),
    ensures
        seq_views(r@) == spec_split_ws(s@.skip(from as int)),
    decreases s@.len() - from,
{
    let n: usize = s.unicode_len();
    if from == n {
        let r: Vec<String> = Vec::new();
        proof {
            assert(s@.skip(from as int).len() == 0);
            assert(seq_views(r@) =~= spec_split_ws(s@.skip(from as int)));
        }
        r
    } else {
        let c: char = s.get_char(from);
        if c.is_whitespace() {
            let r = split_ws_from(s, from + 1);
            proof {
                assert(s@.skip(from as int).drop_first() =~= s@.skip(from as int + 1));
            }
            r
        } else {
            let mut j: usize = from + 1;
            while j < n && !char_ws_at(s, j)
                invariant
                    n == s@.len(),
                    from < j <= n,
                    forall|k: int| from <= k < j ==> !char_whitespace(s@[k]),
                decreases n - j,
            {
                j = j + 1;
            }
            proof {
                let tail = s@.skip(from as int);
                assert forall|k: int| 0 <= k < j - from implies !char_whitespace(tail[k]) by {
                    assert(tail[k] == s@[from + k]);
                }
                if j < n {
                    assert(tail[j - from] == s@[j as int]);
                }
                lemma_word_len_exact(tail, j - from);
            }
            let w: String = String::from_str(s.substring_char(from, j));
            let mut r = split_ws_from(s, j);
            r.insert(0, w);
            proof {
                let tail = s@.skip(from as int);
                let m = j - from;
                assert(tail.take(m) =~= s@.subrange(from as int, j as int));
                assert(tail.skip(m) =~= s@.skip(j as int));
                assert(seq_views(r@) =~= seq![tail.take(m)] + spec_split_ws(tail.skip(m)));
            }
            r
        }
    }
}

pub fn split_ws(s: &str) -> (r: Vec<String>)
    ensures
        seq_views(r@) == spec_split_ws(s@),
{
    let r = split_ws_from(s, 0);
    proof {
        assert(s@.skip(0) =~= s@);
    }
    r
}

/// The UTF-8 byte length of a word, as [`str::len`] measures it: spellings
/// are compared by encoded length.
pub open spec fn byte_len(w: Seq<char>) -> nat {
    vstd::utf8::encode_utf8(w).len() as usize as nat
}

/// The pair (index, byte length) of the best candidate after scanning the
/// first `i` words: the first word strictly longer than every earlier one.
pub open spec fn spec_best(ws: Seq<Seq<char>>, i: int) -> (int, nat)
    decreases i,
{
    if i <= 0 {
        (0, 0nat)
    } else {
        let prev = spec_best(ws, i - 1);
        if byte_len(ws[i - 1]) > prev.1 {
            (i - 1, byte_len(ws[i - 1]))
        } else {
            prev
        }
    }
}

/// The index of the longest word by byte length, ties broken by first
/// occurrence.
pub open spec fn spec_longest_idx(ws: Seq<Seq<char>>) -> int {
    spec_best(ws, ws.len() as int).0
}

pub fn longest_idx(ws: &Vec<String>) -> (r: usize)
    ensures
        r as int == spec_longest_idx(seq_views(ws@)),
        ws@.len() > 0 ==> r < ws@.len(),
{
    let n: usize = ws.len();
    let mut best: usize = 0;
    let mut best_len: usize = 0;
    let mut i: usize = 0;
    while i < n
        invariant
            n == ws@.len(),
            0 <= i <= n,
            (best as int, best_len as nat) == spec_best(seq_views(ws@), i as int),
            i > 0 ==> best < i,
            i == 0 ==> best == 0,
        decreases n - i,
    {
        let l: usize = ws[i].as_str().len();
        proof {
            assert(seq_views(ws@)[i as int] == ws@[i as int]@);
            assert(l as nat == byte_len(ws@[i as int]@));
        }
        if l > best_len {
            best = i;
            best_len = l;
        }
        i = i + 1;
    }
    best
}

/// How many leading characters equal `c`.
pub open spec fn lead_count(s: Seq<char>, c: char) -> int
    decreases s.len(),
{
    if s.len() == 0 || s[0] != c {
        0
    } else {
        1 + lead_count(s.drop_first(), c)
    }
}

/// How many trailing characters equal `c`.
pub open spec fn trail_count(s: Seq<char>, c: char) -> int
    decreases s.len(),
{
    if s.len() == 0 || s.last() != c {
        0
    } else {
        1 + trail_count(s.drop_last(), c)
    }
}

pub proof fn lemma_lead_count(s: Seq<char>, c: char)
    ensures
        0 <= lead_count(s, c) <= s.len(),
        forall|k: int| 0 <= k < lead_count(s, c) ==> s[k] == c,
        lead_count(s, c) < s.len() ==> s[lead_count(s, c)] != c,
    decreases s.len(),
{
    if s.len() == 0 || s[0] != c {
    } else {
        lemma_lead_count(s.drop_first(), c);
        assert forall|k: int| 0 <= k < lead_count(s, c) implies s[k] == c by {
            if k > 0 {
                assert(s.drop_first()[k - 1] == s[k]);
            }
        }
        if lead_count(s, c) < s.len() {
            assert(s.drop_first()[lead_count(s, c) - 1] == s[lead_count(s, c)]);
        }
    }
}

pub proof fn lemma_trail_count(s: Seq<char>, c: char)
    ensures
        0 <= trail_count(s, c) <= s.len(),
        forall|k: int| s.len() - trail_count(s, c) <= k < s.len() ==> s[k] == c,
        trail_count(s, c) < s.len() ==> s[s.len() - trail_count(s, c) - 1] != c,
    decreases s.len(),
{
    if s.len() == 0 || s.last() != c {
    } else {
        lemma_trail_count(s.drop_last(), c);
        let t = trail_count(s, c);
        assert forall|k: int| s.len() - t <= k < s.len() implies s[k] == c by {
            if k < s.len() - 1 {
                assert(s.drop_last()[k] == s[k]);
            }
        }
        if t < s.len() {
            assert(s.drop_last()[s.len() - t - 1] == s[s.len() - t - 1]);
        }
    }
}

/// The string with every leading and trailing `-` removed; empty when it is
/// all dashes.
pub open spec fn spec_trim_dashes(s: Seq<char>) -> Seq<char> {
    if lead_count(s, '-') == s.len() {
        Seq::empty()
    } else {
        s.subrange(lead_count(s, '-'), s.len() - trail_count(s, '-'))
    }
}

fn char_count_eq(s: &str, i: usize, c: char) -> (r: bool)
    requires
        i < s@.len(),
    ensures
        r == (s@[i as int] == c),
{
    let ci: char = s.get_char(i);
    ci == c
}

pub fn trim_dashes(s: &str) -> (r: String)
    ensures
        r@ == spec_trim_dashes(s@),
{
    let n: usize = s.unicode_len();
    let mut p: usize = 0;
    while p < n && char_count_eq(s, p, '-')
        invariant
            n == s@.len(),
            0 <= p <= n,
            forall|k: int| 0 <= k < p ==> s@[k] == '-',
        decreases n - p,
    {
        p = p + 1;
    }
    proof {
        lemma_lead_count(s@, '-');
        if p < n {
            assert(s@[p as int] != '-');
        }
        // p is exactly the lead count
        if (p as int) < lead_count(s@, '-') {
            assert(s@[p as int] == '-');
            assert(false);
        }
        if (p as int) > lead_count(s@, '-') {
            assert(s@[lead_count(s@, '-')] == '-');
            assert(false);
        }
    }
    if p == n {
        let r = String::new();
        proof {
            assert(r@ =~= spec_trim_dashes(s@));
        }
        return r;
    }
    let mut q: usize = 0;
    while q < n - p && char_count_eq(s, n - 1 - q, '-')
        invariant
            n == s@.len(),
            p < n,
            0 <= q <= n - p,
            forall|k: int| n - q <= k < n ==> s@[k] == '-',
        decreases n - p - q,
    {
        q = q + 1;
    }
    proof {
        lemma_trail_count(s@, '-');
        let t = trail_count(s@, '-');
        if (q as int) < t {
            assert(s@[n - 1 - q] == '-');
            assert(false);
        }
        if (q as int) > t {
            if q < n - p {
                assert(s@[n - t - 1] == '-');
                assert(false);
            } else {
                // q == n - p and t < q: position n - t - 1 >= p is '-',
                // but position p is not '-'
                assert(n - t - 1 >= p);
                if n - t - 1 > p {
                    assert(s@[n - t - 1] == '-');
                } else {
                    assert(s@[p as int] == '-');
                }
                assert(false);
            }
        }
    }
    let r = String::from_str(s.substring_char(p, n - q));
    proof {
        assert(r@ =~= spec_trim_dashes(s@));
    }
    r
}

/// Slugification for generated identifiers: characters other than
/// alphanumerics and `_` are dropped.
pub open spec fn spec_slug(s: Seq<char>) -> Seq<char>
    decreases s.len(),
{
    if s.len() == 0 {
        Seq::empty()
    } else {
        spec_slug(s.drop_last()) + if char_alphanumeric(s.last()) || s.last() == '_' {
            seq![s.last()]
        } else {
            Seq::empty()
        }
    }
}

/// Canonical-name slugification for flags: characters other than
/// alphanumerics and `_` are replaced by `_`.
pub open spec fn spec_flag_slug(s: Seq<char>) -> Seq<char>
    decreases s.len(),
{
    if s.len() == 0 {
        Seq::empty()
    } else {
        spec_flag_slug(s.drop_last()) + seq![
            if char_alphanumeric(s.last()) || s.last() == '_' {
                s.last()
            } else {
                '_'
            }
        ]
    }
}

pub fn flag_slug(s: &str) -> (r: String)
    ensures
        r@ == spec_flag_slug(s@),
{
    let n: usize = s.unicode_len();
    let mut out = String::new();
    let mut i: usize = 0;
    while i < n
        invariant
            n == s@.len(),
            0 <= i <= n,
            out@ == spec_flag_slug(s@.take(i as int)),
        decreases n - i,
    {
        let c: char = s.get_char(i);
        if c.is_alphanumeric() || c == '_' {
            push_char(&mut out, c);
        } else {
            push_char(&mut out, '_');
        }
        proof {
            assert(s@.take(i + 1).drop_last() =~= s@.take(i as int));
            assert(s@.take(i + 1).last() == s@[i as int]);
            assert(out@ =~= spec_flag_slug(s@.take(i + 1)));
        }
        i = i + 1;
    }
    proof {
        assert(s@.take(n as int) =~= s@);
    }
    out
}

/// The string with every copy of the (non-empty) pattern repeatedly removed
/// from its end.
pub open spec fn spec_trim_end(s: Seq<char>, pat: Seq<char>) -> Seq<char>
    decreases s.len(),
{
    if pat.len() == 0 {
        s
    } else if s.len() >= pat.len() && s.skip(s.len() - pat.len()) == pat {
        spec_trim_end(s.take(s.len() - pat.len()), pat)
    } else {
        s
    }
}

fn suffix_matches(s: &str, k: usize, pat: &str) -> (r: bool)
    requires
        k <= s@.len(),
        pat@.len() <= k,
    ensures
        r == (s@.take(k as int).skip(k - pat@.len()) == pat@),
{
    let plen: usize = pat.unicode_len();
    let mut i: usize = 0;
    while i < plen
        invariant
            plen == pat@.len(),
            k <= s@.len(),
            plen <= k,
            0 <= i <= plen,
            forall|j: int| 0 <= j < i ==> s@[k - plen + j] == pat@[j],
        decreases plen - i,
    {
        let cs: char = s.get_char(k - plen + i);
        let cp: char = pat.get_char(i);
        if cs != cp {
            proof {
                let suf = s@.take(k as int).skip(k - plen);
                assert(suf[i as int] == s@[k - plen + i]);
            }
            return false;
        }
        i = i + 1;
    }
    proof {
        assert(s@.take(k as int).skip(k - plen) =~= pat@);
    }
    true
}

/// Mutating suffix trimmer: see [`spec_trim_end`].
pub trait StringExt: View<V = Seq<char>> {
    fn trim_end_matches_mut(&mut self, pat: &str)
        requires
            pat@.len() > 0,
        ensures
            final(self)@ == spec_trim_end(old(self)@, pat@),
    ;
}

impl StringExt for String {
    fn trim_end_matches_mut(&mut self, pat: &str) {
        let n: usize = self.as_str().unicode_len();
        let plen: usize = pat.unicode_len();
        let mut k: usize = n;
        proof {
            assert(self@.take(n as int) =~= self@);
        }
        while k >= plen && suffix_matches(self.as_str(), k, pat)
            invariant
                n == self@.len(),
                plen == pat@.len(),
                plen > 0,
                0 <= k <= n,
                spec_trim_end(self@.take(k as int), pat@) == spec_trim_end(self@, pat@),
            decreases k,
        {
            proof {
                let cur = self@.take(k as int);
                assert(cur.take(k - plen) =~= self@.take(k - plen));
            }
            k = k - plen;
        }
        proof {
            // no further match: take(k) is its own trim
            let cur = self@.take(k as int);
            if k >= plen {
                assert(!(cur.skip(k - plen as int) == pat@));
            }
        }
        let trimmed = String::from_str(self.as_str().substring_char(0, k));
        proof {
            assert(self@.take(k as int) =~= self@.subrange(0, k as int));
        }
        *self = trimmed;
    }
}

/// The index of the first occurrence of `c`, or the length when absent.
pub open spec fn spec_find(s: Seq<char>, c: char) -> int
    decreases s.len(),
{
    if s.len() == 0 {
        0
    } else if s[0] == c {
        0
    } else {
        1 + spec_find(s.drop_first(), c)
    }
}

pub proof fn lemma_find_bounds(s: Seq<char>, c: char)
    ensures
        0 <= spec_find(s, c) <= s.len(),
        forall|k: int| 0 <= k < spec_find(s, c) ==> s[k] != c,
        spec_find(s, c) < s.len() ==> s[spec_find(s, c)] == c,
    decreases s.len(),
{
    if s.len() == 0 || s[0] == c {
    } else {
        lemma_find_bounds(s.drop_first(), c);
        assert forall|k: int| 0 <= k < spec_find(s, c) implies s[k] != c by {
            if k > 0 {
                assert(s.drop_first()[k - 1] == s[k]);
            }
        }
        if spec_find(s, c) < s.len() {
            assert(s.drop_first()[spec_find(s, c) - 1] == s[spec_find(s, c)]);
        }
    }
}

#[verifier::loop_isolation(false)]
pub fn find_char(s: &str, c: char) -> (r: usize)
    ensures
        r as int == spec_find(s@, c),
{
    let n: usize = s.unicode_len();
    let mut i: usize = 0;
    while i < n
        invariant
            0 <= i <= n,
            forall|k: int| 0 <= k < i ==> s@[k] != c,
        decreases n - i,
    {
        let ci: char = s.get_char(i);
        if ci == c {
            proof {
                lemma_find_bounds(s@, c);
                if (i as int) < spec_find(s@, c) {
                    assert(false);
                }
                if (i as int) > spec_find(s@, c) {
                    assert(s@[spec_find(s@, c)] == c);
                    assert(false);
                }
            }
            return i;
        }
        i = i + 1;
    }
    proof {
        lemma_find_bounds(s@, c);
        if spec_find(s@, c) < n {
            assert(s@[spec_find(s@, c)] == c);
            assert(false);
        }
    }
    n
}

pub proof fn lemma_best_range(ws: Seq<Seq<char>>, i: int)
    requires
        i >= 1,
    ensures
        0 <= spec_best(ws, i).0 < i,
    decreases i,
{
    if i == 1 {
        assert(spec_best(ws, 0).0 == 0);
    } else {
        lemma_best_range(ws, i - 1);
    }
}

/// The longest-word index is a valid index when any word exists.
pub proof fn lemma_longest_idx_range(ws: Seq<Seq<char>>)
    requires
        ws.len() > 0,
    ensures
        0 <= spec_longest_idx(ws) < ws.len(),
{
    lemma_best_range(ws, ws.len() as int);
}

/// The decimal digit character for one digit value.
pub open spec fn spec_digit(d: int) -> char {
    if d == 0 {
        '0'
    } else if d == 1 {
        '1'
    } else if d == 2 {
        '2'
    } else if d == 3 {
        '3'
    } else if d == 4 {
        '4'
    } else if d == 5 {
        '5'
    } else if d == 6 {
        '6'
    } else if d == 7 {
        '7'
    } else if d == 8 {
        '8'
    } else {
        '9'
    }
}

/// The decimal digits of a non-negative number, most significant first.
pub open spec fn spec_digits(n: int) -> Seq<char>
    decreases n,
{
    if n < 10 {
        seq![spec_digit(n)]
    } else {
        spec_digits(n / 10).push(spec_digit(n % 10))
    }
}

/// The decimal rendering of an integer, with a leading `-` when negative.
pub open spec fn spec_int_str(i: int) -> Seq<char> {
    if i >= 0 {
        spec_digits(i)
    } else {
        seq!['-'] + spec_digits(-i)
    }
}

fn digits_u128(n: u128) -> (r: String)
    ensures
        r@ == spec_digits(n as int),
    decreases n,
{
    let d: u128 = n % 10;
    let c: char = if d == 0 {
        '0'
    } else if d == 1 {
        '1'
    } else if d == 2 {
        '2'
    } else if d == 3 {
        '3'
    } else if d == 4 {
        '4'
    } else if d == 5 {
        '5'
    } else if d == 6 {
        '6'
    } else if d == 7 {
        '7'
    } else if d == 8 {
        '8'
    } else {
        '9'
    };
    if n < 10 {
        let mut s = String::new();
        push_char(&mut s, c);
        proof {
            assert(s@ =~= seq![spec_digit(n as int)]);
        }
        s
    } else {
        let mut s = digits_u128(n / 10);
        push_char(&mut s, c);
        s
    }
}

/// Renders an integer in decimal, mirroring [`spec_int_str`].
pub fn int_to_string(i: i128) -> (r: String)
    ensures
        r@ == spec_int_str(i as int),
{
    if i >= 0 {
        digits_u128(i as u128)
    } else {
        let mag: u128 = ((-(i + 1)) as u128) + 1;
        proof {
            assert(mag as int == -(i as int));
        }
        let mut s = String::new();
        push_char(&mut s, '-');
        let d = digits_u128(mag);
        s.append(d.as_str());
        proof {
            assert(s@ =~= seq!['-'] + spec_digits(mag as int));
        }
        s
    }
}

/// Whether `s` ends with `pat`.
pub open spec fn spec_ends_with(s: Seq<char>, pat: Seq<char>) -> bool {
    s.len() >= pat.len() && s.skip(s.len() - pat.len()) == pat
}

pub fn ends_with_str(s: &str, pat: &str) -> (r: bool)
    ensures
        r == spec_ends_with(s@, pat@),
{
    let n: usize = s.unicode_len();
    let p: usize = pat.unicode_len();
    if p > n {
        return false;
    }
    let r = suffix_matches(s, n, pat);
    proof {
        assert(s@.take(n as int) =~= s@);
    }
    r
}

} // verus!
