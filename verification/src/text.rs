//! Text primitives over sequences of characters: searching, case, lines,
//! joining, trimming and decimal parsing.

use vstd::prelude::*;

verus! {

broadcast use vstd::string::group_string_axioms;

// ---------------------------------------------------------------------------
// Specifications
// ---------------------------------------------------------------------------

/// `p` occurs in `t` starting at position `i`.
pub open spec fn occurs_at(t: Seq<char>, p: Seq<char>, i: int) -> bool {
    0 <= i && i + p.len() <= t.len() && t.subrange(i, i + p.len()) == p
}

/// `p` occurs somewhere in `t` (the empty pattern occurs in every text).
pub open spec fn occurs_in(t: Seq<char>, p: Seq<char>) -> bool {
    exists|i: int| occurs_at(t, p, i)
}

/// `p` is a prefix of `t`.
pub open spec fn begins_with(t: Seq<char>, p: Seq<char>) -> bool {
    p.len() <= t.len() && t.subrange(0, p.len() as int) == p
}

/// What Unicode calls an uppercase character (`char::is_uppercase`).
pub uninterp spec fn char_is_upper(c: char) -> bool;

/// What Unicode calls a lowercase character (`char::is_lowercase`).
pub uninterp spec fn char_is_lower(c: char) -> bool;

/// What Unicode calls a white-space character (`char::is_whitespace`).
pub uninterp spec fn char_is_space(c: char) -> bool;

/// The Unicode lowercase mapping of a whole string (`str::to_lowercase`).
pub uninterp spec fn lowercase(s: Seq<char>) -> Seq<char>;

/// A query is case sensitive when it holds both an uppercase and a
/// lowercase character.
pub open spec fn mixed_case(s: Seq<char>) -> bool {
    (exists|i: int| 0 <= i < s.len() && char_is_upper(#[trigger] s[i]))
        && (exists|j: int| 0 <= j < s.len() && char_is_lower(#[trigger] s[j]))
}

/// A line as `str::lines` yields it: one trailing carriage return removed.
pub open spec fn strip_cr(l: Seq<char>) -> Seq<char> {
    if l.len() > 0 && l.last() == '\r' {
        l.drop_last()
    } else {
        l
    }
}

/// Reading `s` from the left: the lines already ended by a newline, and the
/// characters of the line still open.
pub open spec fn lines_scan(s: Seq<char>) -> (Seq<Seq<char>>, Seq<char>)
    decreases s.len(),
{
    if s.len() == 0 {
        (Seq::empty(), Seq::empty())
    } else {
        let (done, open) = lines_scan(s.drop_last());
        if s.last() == '\n' {
            (done.push(strip_cr(open)), Seq::empty())
        } else {
            (done, open.push(s.last()))
        }
    }
}

/// The lines of `s` as `str::lines` splits it: at each newline, with an
/// optional final newline and a carriage return before a newline dropped.
pub open spec fn lines_of(s: Seq<char>) -> Seq<Seq<char>> {
    let (done, open) = lines_scan(s);
    if open.len() > 0 {
        done.push(open)
    } else {
        done
    }
}

/// The pieces of `parts` with `sep` between each two of them.
pub open spec fn joined(parts: Seq<Seq<char>>, sep: Seq<char>) -> Seq<char>
    decreases parts.len(),
{
    if parts.len() == 0 {
        Seq::empty()
    } else if parts.len() == 1 {
        parts[0]
    } else {
        joined(parts.drop_last(), sep) + sep + parts.last()
    }
}

/// The decimal value of a string of ASCII digits.
pub open spec fn digits_value(s: Seq<char>) -> nat
    decreases s.len(),
{
    if s.len() == 0 {
        0
    } else {
        digits_value(s.drop_last()) * 10 + ((s.last() as nat) - ('0' as nat)) as nat
    }
}

pub open spec fn all_digits(s: Seq<char>) -> bool {
    forall|i: int| 0 <= i < s.len() ==> '0' <= #[trigger] s[i] <= '9'
}

/// The digits that `usize::from_str` reads: an optional leading `+` dropped.
pub open spec fn unsigned_digits(s: Seq<char>) -> Seq<char> {
    if s.len() > 0 && s[0] == '+' {
        s.drop_first()
    } else {
        s
    }
}

/// What `usize::from_str` gives for `s`: a value when what follows the
/// optional `+` is a non-empty run of ASCII digits whose value fits.
pub open spec fn parsed_usize(s: Seq<char>) -> Option<usize> {
    let d = unsigned_digits(s);
    if d.len() > 0 && all_digits(d) && digits_value(d) <= usize::MAX {
        Some(digits_value(d) as usize)
    } else {
        None
    }
}

// ---------------------------------------------------------------------------
// Standard library calls
// ---------------------------------------------------------------------------

/// `String::push`: appends one character.
#[verifier::external_body]
pub(crate) fn push_char(s: &mut String, c: char)
    ensures
        final(s)@ == old(s)@.push(c),
{
    s.push(c)
}

/// `String::pop`: removes and returns the last character, if any.
#[verifier::external_body]
pub(crate) fn pop_char(s: &mut String) -> (r: Option<char>)
    ensures
        old(s)@.len() == 0 ==> r is None && final(s)@ == old(s)@,
        old(s)@.len() > 0 ==> r == Some(old(s)@.last()) && final(s)@ == old(s)@.drop_last(),
{
    s.pop()
}

/// `char::is_uppercase`: named; of the ASCII letters the capitals are
/// uppercase and the small letters are not.
#[verifier::external_body]
fn is_upper(c: char) -> (r: bool)
    ensures
        r == char_is_upper(c),
        'A' <= c <= 'Z' ==> r,
        'a' <= c <= 'z' ==> !r,
{
    c.is_uppercase()
}

/// `char::is_lowercase`: named; of the ASCII letters the small letters
/// are lowercase and the capitals are not.
#[verifier::external_body]
fn is_lower(c: char) -> (r: bool)
    ensures
        r == char_is_lower(c),
        'a' <= c <= 'z' ==> r,
        'A' <= c <= 'Z' ==> !r,
{
    c.is_lowercase()
}

/// `char::is_whitespace`.
#[verifier::external_body]
fn is_space(c: char) -> (r: bool)
    ensures
        r == char_is_space(c),
{
    c.is_whitespace()
}

/// `str::to_lowercase`: the result is named, it is a function of the
/// string alone.
#[verifier::external_body]
pub(crate) fn to_lowercase(s: &str) -> (r: String)
    ensures
        r@ == lowercase(s@),
{
    s.to_lowercase()
}

// ---------------------------------------------------------------------------
// Conversions
// ---------------------------------------------------------------------------

/// The characters of a string slice, one per element.
pub fn chars_of(s: &str) -> (r: Vec<char>)
    ensures
        r@ == s@,
{
    let mut r: Vec<char> = Vec::new();
    for c in it: s.chars()
        invariant
            r@ == it.seq().take(it.index()),
            it.seq() == s@,
    {
        r.push(c);
    }
    r
}

/// A string made of the given characters.
pub fn string_of(v: &Vec<char>) -> (r: String)
    ensures
        r@ == v@,
{
    let mut r = String::new();
    let mut i: usize = 0;
    while i < v.len()
        invariant
            i <= v.len(),
            r@ == v@.take(i as int),
        decreases v.len() - i,
    {
        push_char(&mut r, v[i]);
        proof {
            assert(v@.take(i + 1) == v@.take(i as int).push(v@[i as int]));
        }
        i += 1;
    }
    proof {
        assert(v@.take(v@.len() as int) == v@);
    }
    r
}

/// A copy of a string with the same characters.
pub fn copy_string(s: &String) -> (r: String)
    ensures
        r@ == s@,
{
    s.clone()
}

// ---------------------------------------------------------------------------
// Searching
// ---------------------------------------------------------------------------

/// Whether `p` occurs in `t` at position `i`.
pub fn matches_at(t: &Vec<char>, p: &Vec<char>, i: usize) -> (r: bool)
    requires
        i + p.len() <= t.len(),
    ensures
        r == occurs_at(t@, p@, i as int),
{
    let mut j: usize = 0;
    while j < p.len()
        invariant
            i + p.len() <= t.len(),
            j <= p.len(),
            forall|k: int| 0 <= k < j ==> t@[i + k] == p@[k],
        decreases p.len() - j,
    {
        if t[i + j] != p[j] {
            proof {
                assert(t@.subrange(i as int, i + p.len())[j as int] != p@[j as int]);
            }
            return false;
        }
        j += 1;
    }
    proof {
        assert(t@.subrange(i as int, i + p.len()) =~= p@);
    }
    true
}

/// Whether `p` occurs anywhere in `t`.
pub fn contains(t: &Vec<char>, p: &Vec<char>) -> (r: bool)
    ensures
        r == occurs_in(t@, p@),
{
    if p.len() > t.len() {
        proof {
            assert forall|i: int| !occurs_at(t@, p@, i) by {}
        }
        return false;
    }
    let n = t.len() - p.len();
    let mut i: usize = 0;
    loop
        invariant
            n == t.len() - p.len(),
            i <= n,
            forall|k: int| 0 <= k < i ==> !occurs_at(t@, p@, k),
        ensures
            i == n,
            forall|k: int| 0 <= k <= i ==> !occurs_at(t@, p@, k),
        decreases n - i,
    {
        if matches_at(t, p, i) {
            return true;
        }
        if i == n {
            break;
        }
        i += 1;
    }
    proof {
        assert forall|k: int| !occurs_at(t@, p@, k) by {
            if 0 <= k <= i {
            }
        }
    }
    false
}

/// Whether `t` begins with `p`.
pub fn starts_with(t: &Vec<char>, p: &Vec<char>) -> (r: bool)
    ensures
        r == begins_with(t@, p@),
{
    if p.len() > t.len() {
        return false;
    }
    let r = matches_at(t, p, 0);
    proof {
        assert(occurs_at(t@, p@, 0) == begins_with(t@, p@));
    }
    r
}

/// Whether a string holds both an uppercase and a lowercase character; a
/// search is case sensitive exactly then.
pub fn has_mixed_case(s: &str) -> (r: bool)
    ensures
        r == mixed_case(s@),
{
    let cs = chars_of(s);
    let mut has_upper = false;
    let mut has_lower = false;
    let mut i: usize = 0;
    while i < cs.len()
        invariant
            i <= cs.len(),
            cs@ == s@,
            has_upper == (exists|k: int| 0 <= k < i && char_is_upper(#[trigger] cs@[k])),
            has_lower == (exists|k: int| 0 <= k < i && char_is_lower(#[trigger] cs@[k])),
        decreases cs.len() - i,
    {
        if is_upper(cs[i]) {
            has_upper = true;
        }
        if is_lower(cs[i]) {
            has_lower = true;
        }
        i += 1;
    }
    has_upper && has_lower
}


/// Text with white space removed from its start.
pub open spec fn trim_start(s: Seq<char>) -> Seq<char>
    decreases s.len(),
{
    if s.len() > 0 && char_is_space(s[0]) {
        trim_start(s.drop_first())
    } else {
        s
    }
}

/// Text with white space removed from its end.
pub open spec fn trim_end(s: Seq<char>) -> Seq<char>
    decreases s.len(),
{
    if s.len() > 0 && char_is_space(s.last()) {
        trim_end(s.drop_last())
    } else {
        s
    }
}

/// Text with white space removed from both ends, as `str::trim` does.
pub open spec fn trimmed(s: Seq<char>) -> Seq<char> {
    trim_end(trim_start(s))
}

// ---------------------------------------------------------------------------
// Lines and joining
// ---------------------------------------------------------------------------

/// The lines of a text, split as `str::lines` splits it.
pub fn split_lines(s: &Vec<char>) -> (r: Vec<Vec<char>>)
    ensures
        r.deep_view() == lines_of(s@),
{
    let mut done: Vec<Vec<char>> = Vec::new();
    let mut open: Vec<char> = Vec::new();
    let mut i: usize = 0;
    while i < s.len()
        invariant
            i <= s.len(),
            (done.deep_view(), open@) == lines_scan(s@.take(i as int)),
        decreases s.len() - i,
    {
        proof {
            assert(s@.take(i + 1).drop_last() == s@.take(i as int));
        }
        let ghost old_done = done.deep_view();
        let ghost old_open = open@;
        if s[i] == '\n' {
            if open.len() > 0 && open[open.len() - 1] == '\r' {
                open.pop();
            }
            proof {
                assert(open@ == strip_cr(old_open));
                assert(open.deep_view() =~= open@);
            }
            let line = open;
            done.push(line);
            open = Vec::new();
            proof {
                assert(done.deep_view() =~= old_done.push(strip_cr(old_open)));
                assert(open@ =~= Seq::<char>::empty());
            }
        } else {
            open.push(s[i]);
            proof {
                assert(open@ == old_open.push(s@[i as int]));
            }
        }
        i += 1;
    }
    proof {
        assert(s@.take(s@.len() as int) == s@);
    }
    if open.len() > 0 {
        let ghost old_done = done.deep_view();
        proof {
            assert(open.deep_view() =~= open@);
        }
        done.push(open);
        proof {
            assert(done.deep_view() =~= old_done.push(lines_scan(s@).1));
        }
    }
    done
}

/// The pieces joined with `sep` between each two of them.
pub fn join(parts: &Vec<Vec<char>>, sep: &Vec<char>) -> (r: Vec<char>)
    ensures
        r@ == joined(parts.deep_view(), sep@),
{
    if parts.len() == 0 {
        return Vec::new();
    }
    let mut r: Vec<char> = parts[0].clone();
    let mut i: usize = 1;
    proof {
        assert(parts.deep_view().take(1).drop_last().len() == 0);
    }
    while i < parts.len()
        invariant
            1 <= i <= parts.len(),
            r@ == joined(parts.deep_view().take(i as int), sep@),
        decreases parts.len() - i,
    {
        let mut k: usize = 0;
        let ghost before = r@;
        while k < sep.len()
            invariant
                k <= sep.len(),
                r@ == before + sep@.take(k as int),
            decreases sep.len() - k,
        {
            r.push(sep[k]);
            proof {
                assert(sep@.take(k + 1) == sep@.take(k as int).push(sep@[k as int]));
            }
            k += 1;
        }
        let ghost mid = r@;
        let mut m: usize = 0;
        while m < parts[i].len()
            invariant
                i < parts.len(),
                m <= parts[i as int].len(),
                r@ == mid + parts[i as int]@.take(m as int),
            decreases parts[i as int].len() - m,
        {
            r.push(parts[i][m]);
            proof {
                assert(parts[i as int]@.take(m + 1) == parts[i as int]@.take(m as int).push(
                    parts[i as int]@[m as int],
                ));
            }
            m += 1;
        }
        proof {
            let dv = parts.deep_view();
            assert(sep@.take(sep@.len() as int) == sep@);
            assert(parts[i as int]@.take(parts[i as int]@.len() as int) == parts[i as int]@);
            assert(dv.take(i + 1).drop_last() == dv.take(i as int));
            assert(dv.take(i + 1).last() == dv[i as int]);
        }
        i += 1;
    }
    proof {
        assert(parts.deep_view().take(parts.len() as int) == parts.deep_view());
    }
    r
}

/// A text with the white space at both of its ends removed.
pub fn trim(s: &Vec<char>) -> (r: Vec<char>)
    ensures
        r@ == trimmed(s@),
{
    let mut start: usize = 0;
    proof {
        assert(s@.skip(0) == s@);
    }
    while start < s.len() && is_space(s[start])
        invariant
            start <= s.len(),
            trim_start(s@) == trim_start(s@.skip(start as int)),
        decreases s.len() - start,
    {
        proof {
            assert(s@.skip(start as int).drop_first() == s@.skip(start + 1));
        }
        start += 1;
    }
    proof {
        assert(trim_start(s@.skip(start as int)) == s@.skip(start as int));
    }
    let mut end: usize = s.len();
    while end > start && is_space(s[end - 1])
        invariant
            start <= end <= s.len(),
            trimmed(s@) == trim_end(s@.subrange(start as int, end as int)),
        decreases end - start,
    {
        proof {
            assert(s@.subrange(start as int, end as int).drop_last() == s@.subrange(
                start as int,
                end - 1,
            ));
        }
        end -= 1;
    }
    proof {
        assert(s@.skip(start as int) == s@.subrange(start as int, s@.len() as int));
    }
    let mut r: Vec<char> = Vec::new();
    let mut k: usize = start;
    while k < end
        invariant
            start <= k <= end <= s.len(),
            r@ == s@.subrange(start as int, k as int),
            trimmed(s@) == s@.subrange(start as int, end as int),
        decreases end - k,
    {
        r.push(s[k]);
        proof {
            assert(s@.subrange(start as int, k + 1) == s@.subrange(start as int, k as int).push(
                s@[k as int],
            ));
        }
        k += 1;
    }
    r
}

// ---------------------------------------------------------------------------
// Decimal numbers
// ---------------------------------------------------------------------------

proof fn lemma_digits_value_prefix(s: Seq<char>, k: int)
    requires
        0 <= k <= s.len(),
        all_digits(s),
    ensures
        digits_value(s.take(k)) <= digits_value(s),
    decreases s.len() - k,
{
    if k < s.len() {
        lemma_digits_value_prefix(s, k + 1);
        assert(s.take(k + 1).drop_last() == s.take(k));
        assert(s.take(k + 1).last() == s[k]);
    } else {
        assert(s.take(k) == s);
    }
}

/// A string read as an unsigned decimal number, as `usize::from_str` reads
/// it: `None` when it is not one or when it does not fit.
pub fn parse_usize(s: &Vec<char>) -> (r: Option<usize>)
    ensures
        r == parsed_usize(s@),
{
    let start: usize = if s.len() > 0 && s[0] == '+' { 1 } else { 0 };
    let ghost d = unsigned_digits(s@);
    proof {
        assert(d == s@.skip(start as int));
    }
    if start == s.len() {
        proof {
            assert(d.len() == 0);
        }
        return None;
    }
    let mut k: usize = start;
    while k < s.len()
        invariant
            start <= k <= s.len(),
            d == s@.skip(start as int),
            d == unsigned_digits(s@),
            forall|j: int| start <= j < k ==> '0' <= #[trigger] s@[j] <= '9',
        decreases s.len() - k,
    {
        if s[k] < '0' || s[k] > '9' {
            proof {
                assert(d[k - start] == s@[k as int]);
                assert(!('0' <= d[k - start] <= '9'));
                assert(!all_digits(d));
                assert(parsed_usize(s@) is None);
            }
            return None;
        }
        k += 1;
    }
    proof {
        assert forall|j: int| 0 <= j < d.len() implies '0' <= #[trigger] d[j] <= '9' by {
            assert(d[j] == s@[start + j]);
        }
    }
    let mut value: usize = 0;
    let mut k: usize = start;
    while k < s.len()
        invariant
            start <= k <= s.len(),
            d == s@.skip(start as int),
            d == unsigned_digits(s@),
            all_digits(d),
            value as nat == digits_value(d.take(k - start)),
        decreases s.len() - k,
    {
        proof {
            assert(d[k - start] == s@[k as int]);
        }
        let digit: usize = ((s[k] as u32) - ('0' as u32)) as usize;
        proof {
            assert(d.take(k + 1 - start).drop_last() == d.take(k - start));
            assert(d.take(k + 1 - start).last() == s@[k as int]);
            assert(digit == (s@[k as int] as nat) - ('0' as nat));
        }
        if value > (usize::MAX - digit) / 10 {
            proof {
                assert(value * 10 + digit > usize::MAX) by (nonlinear_arith)
                    requires
                        value > (usize::MAX - digit) / 10,
                        digit <= 9,
                ;
                lemma_digits_value_prefix(d, k + 1 - start);
                assert(digits_value(d.take(k + 1 - start)) == value * 10 + digit);
                assert(parsed_usize(s@) is None);
            }
            return None;
        }
        proof {
            assert(value * 10 + digit <= usize::MAX) by (nonlinear_arith)
                requires
                    value <= (usize::MAX - digit) / 10,
                    digit <= 9,
            ;
        }
        value = value * 10 + digit;
        k += 1;
    }
    proof {
        assert(d.take(k - start) == d);
    }
    Some(value)
}

/// Whether two character sequences are equal.
pub fn same_chars(a: &Vec<char>, b: &Vec<char>) -> (r: bool)
    ensures
        r == (a@ == b@),
{
    if a.len() != b.len() {
        return false;
    }
    let mut i: usize = 0;
    while i < a.len()
        invariant
            i <= a.len(),
            a.len() == b.len(),
            forall|k: int| 0 <= k < i ==> a@[k] == b@[k],
        decreases a.len() - i,
    {
        if a[i] != b[i] {
            return false;
        }
        i += 1;
    }
    proof {
        assert(a@ =~= b@);
    }
    true
}

/// A copy of a character vector.
pub fn copy_chars(a: &Vec<char>) -> (r: Vec<char>)
    ensures
        r@ == a@,
{
    let mut r: Vec<char> = Vec::new();
    let mut i: usize = 0;
    while i < a.len()
        invariant
            i <= a.len(),
            r@ == a@.take(i as int),
        decreases a.len() - i,
    {
        r.push(a[i]);
        proof {
            assert(a@.take(i + 1) =~= a@.take(i as int).push(a@[i as int]));
        }
        i += 1;
    }
    proof {
        assert(a@.take(a@.len() as int) =~= a@);
    }
    r
}

/// Appends the characters of `b` to `a`.
pub fn extend_chars(a: &mut Vec<char>, b: &Vec<char>)
    ensures
        final(a)@ == old(a)@ + b@,
{
    let ghost orig = a@;
    let mut i: usize = 0;
    while i < b.len()
        invariant
            i <= b.len(),
            a@ == orig + b@.take(i as int),
        decreases b.len() - i,
    {
        a.push(b[i]);
        proof {
            assert(b@.take(i + 1) =~= b@.take(i as int).push(b@[i as int]));
            assert(orig + b@.take(i + 1) =~= (orig + b@.take(i as int)).push(b@[i as int]));
        }
        i += 1;
    }
    proof {
        assert(b@.take(b@.len() as int) =~= b@);
    }
}

/// The ASCII digit for a value below ten.
pub open spec fn digit_char(d: nat) -> char {
    (('0' as nat) + d) as char
}

/// A number written in decimal, as `Display` writes it.
pub open spec fn decimal(n: nat) -> Seq<char>
    decreases n,
{
    if n < 10 {
        seq![digit_char(n)]
    } else {
        decimal(n / 10).push(digit_char(n % 10))
    }
}

/// A number written in decimal.
pub fn decimal_chars(n: u64) -> (r: Vec<char>)
    ensures
        r@ == decimal(n as nat),
    decreases n,
{
    let d: char = ((48u8 + (n % 10) as u8) as char);
    if n < 10 {
        let mut v: Vec<char> = Vec::new();
        v.push(d);
        proof {
            assert(v@ =~= seq![digit_char(n as nat)]);
        }
        v
    } else {
        let mut v = decimal_chars(n / 10);
        v.push(d);
        v
    }
}

/// A string made of a string slice's characters followed by others.
pub fn str_then(a: &str, b: &Vec<char>) -> (r: String)
    ensures
        r@ == a@ + b@,
{
    let mut v = chars_of(a);
    extend_chars(&mut v, b);
    string_of(&v)
}

/// A string made of some characters followed by a string slice's.
pub fn then_str(a: &Vec<char>, b: &str) -> (r: String)
    ensures
        r@ == a@ + b@,
{
    let mut v = copy_chars(a);
    let w = chars_of(b);
    extend_chars(&mut v, &w);
    string_of(&v)
}

/// The index of the first `c` in `s`, if any.
pub open spec fn first_index(s: Seq<char>, c: char) -> Option<int>
    decreases s.len(),
{
    if s.len() == 0 {
        None
    } else {
        match first_index(s.drop_last(), c) {
            Some(i) => Some(i),
            None => if s.last() == c {
                Some(s.len() - 1)
            } else {
                None
            },
        }
    }
}

proof fn lemma_first_index_stable(s: Seq<char>, c: char, m: int)
    requires
        0 <= m <= s.len(),
        first_index(s.take(m), c) is Some,
    ensures
        first_index(s, c) == first_index(s.take(m), c),
    decreases s.len() - m,
{
    if m < s.len() {
        assert(s.take(m + 1).drop_last() =~= s.take(m));
        lemma_first_index_stable(s, c, m + 1);
    } else {
        assert(s.take(m) =~= s);
    }
}

/// The index of the first `c` in `s`.
pub fn find_char(s: &Vec<char>, c: char) -> (r: Option<usize>)
    ensures
        match r {
            Some(i) => first_index(s@, c) == Some(i as int) && i < s@.len(),
            None => first_index(s@, c) is None,
        },
{
    let mut i: usize = 0;
    while i < s.len()
        invariant
            i <= s.len(),
            first_index(s@.take(i as int), c) is None,
        decreases s.len() - i,
    {
        proof {
            assert(s@.take(i + 1).drop_last() =~= s@.take(i as int));
        }
        if s[i] == c {
            proof {
                lemma_first_index_stable(s@, c, i + 1);
            }
            return Some(i);
        }
        i += 1;
    }
    proof {
        assert(s@.take(s@.len() as int) =~= s@);
    }
    None
}

/// `s` without `suffix` at its end, when it ends with it.
pub open spec fn without_suffix(s: Seq<char>, suffix: Seq<char>) -> Seq<char> {
    if suffix.len() <= s.len() && s.skip(s.len() - suffix.len()) == suffix {
        s.take(s.len() - suffix.len())
    } else {
        s
    }
}

/// The characters of `v` from `from` to `to`.
pub fn slice_chars(v: &Vec<char>, from: usize, to: usize) -> (r: Vec<char>)
    requires
        from <= to <= v.len(),
    ensures
        r@ == v@.subrange(from as int, to as int),
{
    let mut r: Vec<char> = Vec::new();
    let mut k: usize = from;
    while k < to
        invariant
            from <= k <= to <= v.len(),
            r@ == v@.subrange(from as int, k as int),
        decreases to - k,
    {
        r.push(v[k]);
        proof {
            assert(v@.subrange(from as int, k + 1) =~= v@.subrange(from as int, k as int).push(
                v@[k as int],
            ));
        }
        k += 1;
    }
    r
}

/// `s` without `suffix` at its end, when it ends with it.
pub fn strip_suffix(s: &Vec<char>, suffix: &Vec<char>) -> (r: Vec<char>)
    ensures
        r@ == without_suffix(s@, suffix@),
{
    if suffix.len() <= s.len() {
        let tail = slice_chars(s, s.len() - suffix.len(), s.len());
        proof {
            assert(tail@ =~= s@.skip(s@.len() - suffix@.len()));
        }
        if same_chars(&tail, suffix) {
            return slice_chars(s, 0, s.len() - suffix.len());
        }
    }
    copy_chars(s)
}

/// The Unicode lowercase of some characters.
pub fn lower_chars(v: &Vec<char>) -> (r: Vec<char>)
    ensures
        r@ == lowercase(v@),
{
    let s = string_of(v);
    let l = to_lowercase(s.as_str());
    chars_of(l.as_str())
}


/// A string made of a string slice's characters, some characters, and a
/// second slice's characters.
pub fn surround(a: &str, b: &Vec<char>, c: &str) -> (r: String)
    ensures
        r@ == a@ + b@ + c@,
{
    let mut v = chars_of(a);
    extend_chars(&mut v, b);
    let w = chars_of(c);
    extend_chars(&mut v, &w);
    string_of(&v)
}


/// Whether a string has no characters.
pub fn is_empty(s: &str) -> (r: bool)
    ensures
        r == (s@.len() == 0),
{
    chars_of(s).len() == 0
}

} // verus!
