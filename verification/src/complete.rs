//! Completing branch names with the Tab key: the first Tab completes to
//! the longest common prefix of the matching names, later Tabs cycle
//! through the matches in alphabetical order.

use vstd::prelude::*;
use crate::text::{begins_with, chars_of, copy_chars, starts_with, string_of};

verus! {

broadcast use vstd::string::group_string_axioms;

// ---------------------------------------------------------------------------
// Alphabetical order
// ---------------------------------------------------------------------------

/// `a` comes no later than `b` in the order of `str`: character by
/// character, a proper prefix first.
pub open spec fn lex_le(a: Seq<char>, b: Seq<char>) -> bool
    decreases a.len(),
{
    if a.len() == 0 {
        true
    } else if b.len() == 0 {
        false
    } else if a[0] < b[0] {
        true
    } else if a[0] > b[0] {
        false
    } else {
        lex_le(a.drop_first(), b.drop_first())
    }
}

/// `x` put into the sorted `s` before the first element it does not follow.
pub open spec fn insert_sorted(x: Seq<char>, s: Seq<Seq<char>>) -> Seq<Seq<char>>
    decreases s.len(),
{
    if s.len() == 0 {
        seq![x]
    } else if lex_le(x, s[0]) {
        seq![x] + s
    } else {
        seq![s[0]] + insert_sorted(x, s.drop_first())
    }
}

/// `s` in alphabetical order.
pub open spec fn sorted_names(s: Seq<Seq<char>>) -> Seq<Seq<char>>
    decreases s.len(),
{
    if s.len() == 0 {
        Seq::empty()
    } else {
        insert_sorted(s.last(), sorted_names(s.drop_last()))
    }
}

/// Whether `a` comes no later than `b`.
pub fn lex_le_exec(a: &Vec<char>, b: &Vec<char>) -> (r: bool)
    ensures
        r == lex_le(a@, b@),
{
    let mut i: usize = 0;
    proof {
        assert(a@.skip(0) =~= a@);
        assert(b@.skip(0) =~= b@);
    }
    while i < a.len() && i < b.len() && a[i] == b[i]
        invariant
            i <= a.len(),
            i <= b.len(),
            lex_le(a@, b@) == lex_le(a@.skip(i as int), b@.skip(i as int)),
        decreases a.len() - i,
    {
        proof {
            assert(a@.skip(i as int).drop_first() =~= a@.skip(i + 1));
            assert(b@.skip(i as int).drop_first() =~= b@.skip(i + 1));
        }
        i += 1;
    }
    if i == a.len() {
        true
    } else if i == b.len() {
        false
    } else {
        a[i] < b[i]
    }
}

proof fn lemma_insert_at(x: Seq<char>, s: Seq<Seq<char>>, p: int)
    requires
        0 <= p <= s.len(),
        forall|k: int| 0 <= k < p ==> !lex_le(x, #[trigger] s[k]),
        p == s.len() || lex_le(x, s[p]),
    ensures
        insert_sorted(x, s) == s.take(p).push(x) + s.skip(p),
    decreases p,
{
    if p == 0 {
        if s.len() == 0 {
            assert(insert_sorted(x, s) =~= s.take(p).push(x) + s.skip(p));
        } else {
            assert(insert_sorted(x, s) =~= s.take(p).push(x) + s.skip(p));
        }
    } else {
        let t = s.drop_first();
        assert forall|k: int| 0 <= k < p - 1 implies !lex_le(x, #[trigger] t[k]) by {
            assert(t[k] == s[k + 1]);
        }
        assert(!lex_le(x, s[0]));
        if p < s.len() {
            assert(t[p - 1] == s[p]);
        }
        lemma_insert_at(x, t, p - 1);
        assert(insert_sorted(x, s) =~= s.take(p).push(x) + s.skip(p));
    }
}

/// Names in alphabetical order.
pub fn sort_names(names: &Vec<Vec<char>>) -> (r: Vec<Vec<char>>)
    ensures
        r.deep_view() == sorted_names(names.deep_view()),
{
    let mut r: Vec<Vec<char>> = Vec::new();
    let mut i: usize = 0;
    while i < names.len()
        invariant
            i <= names.len(),
            r.deep_view() == sorted_names(names.deep_view().take(i as int)),
        decreases names.len() - i,
    {
        let x = copy_chars(&names[i]);
        proof {
            lemma_deep_index(*names, i as int);
            assert(names.deep_view().take(i + 1).drop_last() =~= names.deep_view().take(i as int));
            assert(names.deep_view().take(i + 1).last() == x@);
        }
        let mut p: usize = 0;
        while p < r.len() && !lex_le_exec(&x, &r[p])
            invariant
                p <= r.len(),
                forall|k: int| 0 <= k < p ==> !lex_le(x@, #[trigger] r.deep_view()[k]),
            decreases r.len() - p,
        {
            proof {
                lemma_deep_index(r, p as int);
            }
            p += 1;
        }
        proof {
            if p < r.len() {
                lemma_deep_index(r, p as int);
            }
            lemma_insert_at(x@, r.deep_view(), p as int);
        }
        let ghost before = r.deep_view();
        r.insert(p, x);
        proof {
            assert(r.deep_view() =~= before.take(p as int).push(x@) + before.skip(p as int)) by {
                assert forall|k: int| 0 <= k < r.deep_view().len() implies r.deep_view()[k] == (
                before.take(p as int).push(x@) + before.skip(p as int))[k] by {
                    lemma_deep_index(r, k);
                }
            }
        }
        i += 1;
    }
    proof {
        assert(names.deep_view().take(names.len() as int) =~= names.deep_view());
    }
    r
}

pub proof fn lemma_deep_index(v: Vec<Vec<char>>, k: int)
    requires
        0 <= k < v@.len(),
    ensures
        v.deep_view()[k] == v@[k]@,
{
    assert(v@[k].deep_view() =~= v@[k]@);
}

// ---------------------------------------------------------------------------
// Common prefixes
// ---------------------------------------------------------------------------

/// How many leading characters `a` and `b` share.
pub open spec fn common_len(a: Seq<char>, b: Seq<char>) -> nat
    decreases a.len(),
{
    if a.len() == 0 || b.len() == 0 || a[0] != b[0] {
        0
    } else {
        1 + common_len(a.drop_first(), b.drop_first())
    }
}

/// How many leading characters the first of `s` shares with all of the
/// first `n` of them.
pub open spec fn shared_len(s: Seq<Seq<char>>, n: int) -> nat
    decreases n,
{
    if n <= 1 {
        s[0].len()
    } else {
        let m = shared_len(s, n - 1);
        let c = common_len(s[0], s[n - 1]);
        if c < m {
            c
        } else {
            m
        }
    }
}

/// The longest prefix that all of `s` share; empty when `s` is.
pub open spec fn common_prefix(s: Seq<Seq<char>>) -> Seq<char> {
    if s.len() == 0 {
        Seq::empty()
    } else {
        s[0].take(shared_len(s, s.len() as int) as int)
    }
}

fn common_len_exec(a: &Vec<char>, b: &Vec<char>) -> (r: usize)
    ensures
        r == common_len(a@, b@),
{
    let mut i: usize = 0;
    proof {
        assert(a@.skip(0) =~= a@);
        assert(b@.skip(0) =~= b@);
    }
    while i < a.len() && i < b.len() && a[i] == b[i]
        invariant
            i <= a.len(),
            i <= b.len(),
            common_len(a@, b@) == i + common_len(a@.skip(i as int), b@.skip(i as int)),
        decreases a.len() - i,
    {
        proof {
            assert(a@.skip(i as int).drop_first() =~= a@.skip(i + 1));
            assert(b@.skip(i as int).drop_first() =~= b@.skip(i + 1));
        }
        i += 1;
    }
    i
}

/// The longest prefix that all the names share.
pub fn common_prefix_of(strings: &Vec<Vec<char>>) -> (r: Vec<char>)
    ensures
        r@ == common_prefix(strings.deep_view()),
{
    if strings.len() == 0 {
        return Vec::new();
    }
    let first = &strings[0];
    proof {
        lemma_deep_index(*strings, 0);
    }
    let mut prefix_len: usize = first.len();
    let mut i: usize = 1;
    while i < strings.len()
        invariant
            1 <= i <= strings.len(),
            strings.deep_view()[0] == first@,
            prefix_len == shared_len(strings.deep_view(), i as int),
            prefix_len <= first@.len(),
        decreases strings.len() - i,
    {
        proof {
            lemma_deep_index(*strings, i as int);
        }
        let c = common_len_exec(first, &strings[i]);
        proof {
            lemma_common_len_bound(first@, strings.deep_view()[i as int]);
        }
        if c < prefix_len {
            prefix_len = c;
        }
        i += 1;
    }
    let mut r: Vec<char> = Vec::new();
    let mut k: usize = 0;
    while k < prefix_len
        invariant
            k <= prefix_len <= first@.len(),
            r@ == first@.take(k as int),
        decreases prefix_len - k,
    {
        r.push(first[k]);
        proof {
            assert(first@.take(k + 1) =~= first@.take(k as int).push(first@[k as int]));
        }
        k += 1;
    }
    r
}

proof fn lemma_common_len_bound(a: Seq<char>, b: Seq<char>)
    ensures
        common_len(a, b) <= a.len(),
        common_len(a, b) <= b.len(),
        a.take(common_len(a, b) as int) == b.take(common_len(a, b) as int),
    decreases a.len(),
{
    if !(a.len() == 0 || b.len() == 0 || a[0] != b[0]) {
        lemma_common_len_bound(a.drop_first(), b.drop_first());
        let c = common_len(a, b) as int;
        assert(a.take(c) =~= seq![a[0]] + a.drop_first().take(c - 1));
        assert(b.take(c) =~= seq![b[0]] + b.drop_first().take(c - 1));
    } else {
        assert(a.take(0) =~= b.take(0));
    }
}

// ---------------------------------------------------------------------------
// Completion
// ---------------------------------------------------------------------------

/// The names that begin with `prefix`, in the order given.
pub open spec fn names_with_prefix(names: Seq<Seq<char>>, prefix: Seq<char>) -> Seq<Seq<char>>
    decreases names.len(),
{
    if names.len() == 0 {
        Seq::empty()
    } else {
        let r = names_with_prefix(names.drop_last(), prefix);
        if begins_with(names.last(), prefix) {
            r.push(names.last())
        } else {
            r
        }
    }
}

/// The names that begin with `prefix`, in alphabetical order.
pub open spec fn candidates(names: Seq<Seq<char>>, prefix: Seq<char>) -> Seq<Seq<char>> {
    sorted_names(names_with_prefix(names, prefix))
}

pub open spec fn names_view(names: Seq<String>) -> Seq<Seq<char>> {
    names.map_values(|s: String| s@)
}

pub open spec fn opt_chars(o: Option<String>) -> Option<Seq<char>> {
    match o {
        Some(s) => Some(s@),
        None => None,
    }
}

/// What Tab does: given the typed text, the branch names, the text the
/// cycling started from (if it started) and the cycle position, the new
/// text, the new start and the new position.
pub open spec fn completed(
    typed: Seq<char>,
    names: Seq<Seq<char>>,
    base: Option<Seq<char>>,
    index: int,
) -> (Seq<char>, Option<Seq<char>>, int) {
    let prefix = match base {
        Some(b) => b,
        None => typed,
    };
    let m = candidates(names, prefix);
    if m.len() == 0 {
        (typed, None, 0)
    } else if base is None {
        let cp = common_prefix(m);
        if cp.len() > typed.len() {
            (cp, None, 0)
        } else if m.len() == 1 {
            (m[0], None, 0)
        } else {
            (m[0], Some(typed), 1)
        }
    } else {
        (m[index % (m.len() as int)], base, index + 1)
    }
}

/// The names that begin with `prefix`, in alphabetical order.
fn matching_names(names: &[String], prefix: &Vec<char>) -> (r: Vec<Vec<char>>)
    ensures
        r.deep_view() == candidates(names_view(names@), prefix@),
{
    let mut m: Vec<Vec<char>> = Vec::new();
    let mut i: usize = 0;
    while i < names.len()
        invariant
            i <= names.len(),
            m.deep_view() == names_with_prefix(names_view(names@).take(i as int), prefix@),
        decreases names.len() - i,
    {
        let c = chars_of(names[i].as_str());
        proof {
            assert(names_view(names@).take(i + 1).drop_last() =~= names_view(names@).take(
                i as int,
            ));
            assert(names_view(names@).take(i + 1).last() == c@);
        }
        if starts_with(&c, prefix) {
            let ghost before = m.deep_view();
            proof {
                assert(c.deep_view() =~= c@);
            }
            m.push(c);
            proof {
                assert(m.deep_view() =~= before.push(c@));
            }
        }
        i += 1;
    }
    proof {
        assert(names_view(names@).take(names@.len() as int) =~= names_view(names@));
    }
    sort_names(&m)
}

/// Tab completion for branch names (GitHub CLI style).
/// Returns: (completed_name, new_base, new_index)
pub fn tab_complete_branch(typed: &str, branches: &[String], base: &Option<String>, index: usize) -> (r: (
    String,
    Option<String>,
    usize,
))
    requires
        index < usize::MAX,
    ensures
        (r.0@, opt_chars(r.1), r.2 as int) == completed(
            typed@,
            names_view(branches@),
            opt_chars(*base),
            index as int,
        ),
{
    let typed_chars = chars_of(typed);
    let prefix = match base {
        Some(b) => chars_of(b.as_str()),
        None => copy_chars(&typed_chars),
    };
    let m = matching_names(branches, &prefix);
    if m.len() == 0 {
        return (string_of(&typed_chars), None, 0);
    }
    proof {
        lemma_deep_index(m, 0);
    }
    match base {
        None => {
            let cp = common_prefix_of(&m);
            if cp.len() > typed_chars.len() {
                return (string_of(&cp), None, 0);
            }
            if m.len() == 1 {
                return (string_of(&m[0]), None, 0);
            }
            (string_of(&m[0]), Some(string_of(&typed_chars)), 1)
        },
        Some(b) => {
            let cycle_index = index % m.len();
            proof {
                lemma_deep_index(m, cycle_index as int);
            }
            (string_of(&m[cycle_index]), Some(string_of(&chars_of(b.as_str()))), index + 1)
        },
    }
}

/// What Tab would add to the typed text, shown in grey after the cursor.
pub open spec fn tab_preview(typed: Seq<char>, names: Seq<Seq<char>>) -> Option<Seq<char>> {
    let m = candidates(names, typed);
    if m.len() == 0 {
        None
    } else {
        let common = common_prefix(m);
        if common.len() > typed.len() {
            Some(common.skip(typed.len() as int))
        } else if m[0].len() > typed.len() {
            Some(m[0].skip(typed.len() as int))
        } else {
            None
        }
    }
}

fn chars_from(v: &Vec<char>, from: usize) -> (r: Vec<char>)
    requires
        from <= v.len(),
    ensures
        r@ == v@.skip(from as int),
{
    let mut r: Vec<char> = Vec::new();
    let mut k: usize = from;
    while k < v.len()
        invariant
            from <= k <= v.len(),
            r@ == v@.subrange(from as int, k as int),
        decreases v.len() - k,
    {
        r.push(v[k]);
        proof {
            assert(v@.subrange(from as int, k + 1) =~= v@.subrange(from as int, k as int).push(
                v@[k as int],
            ));
        }
        k += 1;
    }
    r
}

/// Get preview text for tab completion (what would be added on next Tab)
pub fn get_tab_preview(typed: &str, branches: &[String]) -> (r: Option<String>)
    ensures
        opt_chars(r) == tab_preview(typed@, names_view(branches@)),
{
    let typed_chars = chars_of(typed);
    let m = matching_names(branches, &typed_chars);
    if m.len() == 0 {
        return None;
    }
    proof {
        lemma_deep_index(m, 0);
    }
    let common = common_prefix_of(&m);
    if common.len() > typed_chars.len() {
        Some(string_of(&chars_from(&common, typed_chars.len())))
    } else if m[0].len() > typed_chars.len() {
        Some(string_of(&chars_from(&m[0], typed_chars.len())))
    } else {
        None
    }
}


// ---------------------------------------------------------------------------
// Laws
// ---------------------------------------------------------------------------

proof fn lemma_insert_sorted_members(x: Seq<char>, s: Seq<Seq<char>>)
    ensures
        forall|y: Seq<char>| insert_sorted(x, s).contains(y) ==> y == x || s.contains(y),
    decreases s.len(),
{
    let r = insert_sorted(x, s);
    if s.len() == 0 {
        assert forall|y: Seq<char>| r.contains(y) implies y == x || s.contains(y) by {
            let k = choose|k: int| 0 <= k < r.len() && r[k] == y;
            assert(r == seq![x]);
        }
    } else if !lex_le(x, s[0]) {
        lemma_insert_sorted_members(x, s.drop_first());
        let r2 = insert_sorted(x, s.drop_first());
        assert(r == seq![s[0]] + r2);
        assert forall|y: Seq<char>| r.contains(y) implies y == x || s.contains(y) by {
            let k = choose|k: int| 0 <= k < r.len() && r[k] == y;
            if k > 0 {
                assert(r[k] == r2[k - 1]);
                assert(r2.contains(y));
                if y != x {
                    assert(s.drop_first().contains(y));
                    let j = choose|j: int| 0 <= j < s.drop_first().len() && s.drop_first()[j] == y;
                    assert(s.drop_first()[j] == s[j + 1]);
                    assert(s.contains(y));
                }
            } else {
                assert(r[0] == s[0]);
                assert(s.contains(y));
            }
        }
    } else {
        assert(r == seq![x] + s);
        assert forall|y: Seq<char>| r.contains(y) implies y == x || s.contains(y) by {
            let k = choose|k: int| 0 <= k < r.len() && r[k] == y;
            if k > 0 {
                assert(r[k] == s[k - 1]);
                assert(s.contains(y));
            }
        }
    }
}

proof fn lemma_sorted_members(s: Seq<Seq<char>>)
    ensures
        forall|y: Seq<char>| sorted_names(s).contains(y) ==> s.contains(y),
    decreases s.len(),
{
    if s.len() > 0 {
        lemma_sorted_members(s.drop_last());
        lemma_insert_sorted_members(s.last(), sorted_names(s.drop_last()));
        assert forall|y: Seq<char>| sorted_names(s).contains(y) implies s.contains(y) by {
            if y == s.last() {
                assert(s[s.len() - 1] == y);
            } else {
                assert(sorted_names(s.drop_last()).contains(y));
                assert(s.drop_last().contains(y));
                let j = choose|j: int| 0 <= j < s.drop_last().len() && s.drop_last()[j] == y;
                assert(s[j] == y);
            }
        }
    }
}

proof fn lemma_with_prefix_members(names: Seq<Seq<char>>, prefix: Seq<char>)
    ensures
        forall|y: Seq<char>| names_with_prefix(names, prefix).contains(y) ==> begins_with(y, prefix),
    decreases names.len(),
{
    if names.len() > 0 {
        lemma_with_prefix_members(names.drop_last(), prefix);
        let r = names_with_prefix(names.drop_last(), prefix);
        assert forall|y: Seq<char>| names_with_prefix(names, prefix).contains(y) implies begins_with(y, prefix) by {
            if begins_with(names.last(), prefix) {
                let k = choose|k: int| 0 <= k < r.push(names.last()).len() && r.push(names.last())[k] == y;
                if k < r.len() {
                    assert(r[k] == y);
                    assert(r.contains(y));
                }
            }
        }
    }
}

proof fn lemma_shared_len_bound(s: Seq<Seq<char>>, n: int)
    requires
        s.len() > 0,
    ensures
        shared_len(s, n) <= s[0].len(),
    decreases n,
{
    if n > 1 {
        lemma_shared_len_bound(s, n - 1);
    }
}

/// Tab completes to text that begins with what was typed (or, while it
/// cycles, with the text the cycling started from): the matching names'
/// common prefix, or one of them. With no match the text stays as it is.
pub proof fn law_tab_extends_typed(
    typed: Seq<char>,
    names: Seq<Seq<char>>,
    base: Option<Seq<char>>,
    index: int,
)
    ensures
        ({
            let prefix = match base {
                Some(b) => b,
                None => typed,
            };
            let r = completed(typed, names, base, index);
            &&& candidates(names, prefix).len() == 0 ==> r.0 == typed
            &&& candidates(names, prefix).len() > 0 ==> begins_with(r.0, prefix)
            &&& base is None ==> begins_with(r.0, typed)
        }),
{
    let prefix = match base {
        Some(b) => b,
        None => typed,
    };
    let m = candidates(names, prefix);
    lemma_sorted_members(names_with_prefix(names, prefix));
    lemma_with_prefix_members(names, prefix);
    assert forall|k: int| 0 <= k < m.len() implies begins_with(#[trigger] m[k], prefix) by {
        assert(m.contains(m[k]));
        assert(names_with_prefix(names, prefix).contains(m[k]));
    }
    if m.len() > 0 {
        let r = completed(typed, names, base, index);
        if base is None {
            let cp = common_prefix(m);
            lemma_shared_len_bound(m, m.len() as int);
            if cp.len() > typed.len() {
                assert(begins_with(m[0], typed));
                assert(cp.subrange(0, typed.len() as int) =~= m[0].subrange(0, typed.len() as int));
            }
        } else {
            let k = index % (m.len() as int);
            assert(begins_with(m[k], prefix));
        }
    } else {
        assert(begins_with(typed, typed)) by {
            assert(typed.subrange(0, typed.len() as int) =~= typed);
        }
    }
}

/// The preview shows exactly what the next Tab adds: what was typed,
/// followed by the preview (nothing when there is none), is the text Tab
/// completes to. A preview is never empty.
pub proof fn law_tab_preview_is_next_completion(typed: Seq<char>, names: Seq<Seq<char>>)
    ensures
        typed + (match tab_preview(typed, names) {
            Some(p) => p,
            None => Seq::empty(),
        }) == completed(typed, names, None, 0).0,
        tab_preview(typed, names) matches Some(p) ==> p.len() > 0,
{
    let m = candidates(names, typed);
    lemma_sorted_members(names_with_prefix(names, typed));
    lemma_with_prefix_members(names, typed);
    if m.len() > 0 {
        assert(m.contains(m[0]));
        assert(names_with_prefix(names, typed).contains(m[0]));
        assert(begins_with(m[0], typed));
        let cp = common_prefix(m);
        lemma_shared_len_bound(m, m.len() as int);
        if cp.len() > typed.len() {
            assert(cp.subrange(0, typed.len() as int) =~= m[0].subrange(0, typed.len() as int));
            assert(typed + cp.skip(typed.len() as int) =~= cp);
        } else if m[0].len() > typed.len() {
            assert(typed + m[0].skip(typed.len() as int) =~= m[0]);
        } else {
            assert(m[0] =~= typed);
            assert(typed + Seq::<char>::empty() =~= typed);
        }
    } else {
        assert(typed + Seq::<char>::empty() =~= typed);
    }
}

/// Each name of `s` comes no later than the one after it.
pub open spec fn in_order(s: Seq<Seq<char>>) -> bool {
    forall|j: int| 0 <= j < s.len() - 1 ==> lex_le(#[trigger] s[j], s[j + 1])
}

proof fn lemma_lex_le_total(a: Seq<char>, b: Seq<char>)
    ensures
        lex_le(a, b) || lex_le(b, a),
    decreases a.len(),
{
    if a.len() > 0 && b.len() > 0 && a[0] == b[0] {
        lemma_lex_le_total(a.drop_first(), b.drop_first());
    }
}

proof fn lemma_insert_sorted_in_order(x: Seq<char>, s: Seq<Seq<char>>)
    requires
        in_order(s),
    ensures
        in_order(insert_sorted(x, s)),
        insert_sorted(x, s).len() == s.len() + 1,
        insert_sorted(x, s)[0] == x || (s.len() > 0 && insert_sorted(x, s)[0] == s[0]),
    decreases s.len(),
{
    let r = insert_sorted(x, s);
    if s.len() == 0 {
    } else if lex_le(x, s[0]) {
        assert forall|j: int| 0 <= j < r.len() - 1 implies lex_le(#[trigger] r[j], r[j + 1]) by {
            if j > 0 {
                assert(r[j] == s[j - 1] && r[j + 1] == s[(j - 1) + 1]);
            }
        }
    } else {
        let t = s.drop_first();
        assert(in_order(t)) by {
            assert forall|j: int| 0 <= j < t.len() - 1 implies lex_le(#[trigger] t[j], t[j + 1]) by {
                assert(t[j] == s[j + 1] && t[j + 1] == s[(j + 1) + 1]);
            }
        }
        lemma_insert_sorted_in_order(x, t);
        let q = insert_sorted(x, t);
        lemma_lex_le_total(x, s[0]);
        assert(lex_le(s[0], q[0])) by {
            if q[0] != x {
                assert(q[0] == t[0] && t[0] == s[1]);
                assert(lex_le(s[0], s[0int + 1]));
            }
        }
        assert forall|j: int| 0 <= j < r.len() - 1 implies lex_le(#[trigger] r[j], r[j + 1]) by {
            if j == 0 {
                assert(r[0] == s[0] && r[1] == q[0]);
            } else {
                assert(r[j] == q[j - 1] && r[j + 1] == q[(j - 1) + 1]);
            }
        }
    }
}

proof fn lemma_sorted_names_in_order(s: Seq<Seq<char>>)
    ensures
        in_order(sorted_names(s)),
        sorted_names(s).len() == s.len(),
    decreases s.len(),
{
    if s.len() > 0 {
        lemma_sorted_names_in_order(s.drop_last());
        lemma_insert_sorted_in_order(s.last(), sorted_names(s.drop_last()));
    }
}

/// Tab cycles through the names that begin with the text the cycling
/// started from, in alphabetical order: the `index`-th Tab of the cycle
/// gives the `index`-th of them (starting over after the last), keeps the
/// start text and counts on; each name it gives comes no later than the
/// next one. With no such name Tab keeps the text and stops cycling.
pub proof fn law_tab_cycles_in_order(typed: Seq<char>, names: Seq<Seq<char>>, base: Seq<char>, index: int)
    requires
        index >= 0,
    ensures
        in_order(candidates(names, base)),
        candidates(names, base).len() > 0 ==> completed(typed, names, Some(base), index) == (
            candidates(names, base)[index % (candidates(names, base).len() as int)],
            Some(base),
            index + 1,
        ),
        candidates(names, base).len() == 0 ==> completed(typed, names, Some(base), index) == (
            typed,
            None::<Seq<char>>,
            0int,
        ),
{
    lemma_sorted_names_in_order(names_with_prefix(names, base));
}

proof fn lemma_insert_sorted_keeps(x: Seq<char>, s: Seq<Seq<char>>)
    ensures
        insert_sorted(x, s).contains(x),
        forall|y: Seq<char>| s.contains(y) ==> insert_sorted(x, s).contains(y),
    decreases s.len(),
{
    let r = insert_sorted(x, s);
    if s.len() == 0 {
        assert(r[0] == x);
    } else if lex_le(x, s[0]) {
        assert(r[0] == x);
        assert forall|y: Seq<char>| s.contains(y) implies r.contains(y) by {
            let k = choose|k: int| 0 <= k < s.len() && s[k] == y;
            assert(r[k + 1] == y);
        }
    } else {
        let t = s.drop_first();
        lemma_insert_sorted_keeps(x, t);
        let q = insert_sorted(x, t);
        assert(r == seq![s[0]] + q);
        let kx = choose|k: int| 0 <= k < q.len() && q[k] == x;
        assert(r[kx + 1] == x);
        assert forall|y: Seq<char>| s.contains(y) implies r.contains(y) by {
            let k = choose|k: int| 0 <= k < s.len() && s[k] == y;
            if k == 0 {
                assert(r[0] == y);
            } else {
                assert(t[k - 1] == y);
                assert(t.contains(y));
                let j = choose|j: int| 0 <= j < q.len() && q[j] == y;
                assert(r[j + 1] == y);
            }
        }
    }
}

proof fn lemma_sorted_names_keeps(s: Seq<Seq<char>>)
    ensures
        forall|y: Seq<char>| s.contains(y) ==> sorted_names(s).contains(y),
    decreases s.len(),
{
    if s.len() > 0 {
        lemma_sorted_names_keeps(s.drop_last());
        lemma_insert_sorted_keeps(s.last(), sorted_names(s.drop_last()));
        assert forall|y: Seq<char>| s.contains(y) implies sorted_names(s).contains(y) by {
            if y != s.last() {
                let k = choose|k: int| 0 <= k < s.len() && s[k] == y;
                assert(k != s.len() - 1);
                assert(s.drop_last()[k] == y);
                assert(s.drop_last().contains(y));
            }
        }
    }
}

proof fn lemma_with_prefix_keeps(names: Seq<Seq<char>>, prefix: Seq<char>)
    ensures
        forall|y: Seq<char>|
            names.contains(y) && begins_with(y, prefix) ==> names_with_prefix(names, prefix).contains(y),
        forall|y: Seq<char>| names_with_prefix(names, prefix).contains(y) ==> names.contains(y),
    decreases names.len(),
{
    if names.len() > 0 {
        let d = names.drop_last();
        lemma_with_prefix_keeps(d, prefix);
        let r = names_with_prefix(d, prefix);
        let w = names_with_prefix(names, prefix);
        assert forall|y: Seq<char>| names.contains(y) && begins_with(y, prefix) implies w.contains(y) by {
            if y == names.last() {
                assert(w[w.len() - 1] == y);
            } else {
                let k = choose|k: int| 0 <= k < names.len() && names[k] == y;
                assert(d[k] == y);
                assert(d.contains(y));
                let j = choose|j: int| 0 <= j < r.len() && r[j] == y;
                assert(w[j] == y);
            }
        }
        assert forall|y: Seq<char>| w.contains(y) implies names.contains(y) by {
            let j = choose|j: int| 0 <= j < w.len() && w[j] == y;
            if begins_with(names.last(), prefix) {
                assert(w == r.push(names.last()));
            } else {
                assert(w == r);
            }
            if j < r.len() {
                assert(r[j] == y);
                assert(r.contains(y));
                assert(d.contains(y));
                let k = choose|k: int| 0 <= k < d.len() && d[k] == y;
                assert(names[k] == d[k]);
            } else {
                assert(names[names.len() - 1] == y);
            }
        }
    }
}

/// The names Tab chooses from are exactly the given names that begin with
/// the text: each of them is among the candidates, and each candidate is
/// one of them.
pub proof fn law_candidates_are_the_matching_names(names: Seq<Seq<char>>, prefix: Seq<char>)
    ensures
        forall|y: Seq<char>|
            names.contains(y) && begins_with(y, prefix) ==> #[trigger] candidates(names, prefix).contains(y),
        forall|y: Seq<char>|
            #[trigger] candidates(names, prefix).contains(y) ==> names.contains(y) && begins_with(y, prefix),
{
    lemma_with_prefix_keeps(names, prefix);
    lemma_sorted_names_keeps(names_with_prefix(names, prefix));
    lemma_sorted_members(names_with_prefix(names, prefix));
    lemma_with_prefix_members(names, prefix);
}

} // verus!
