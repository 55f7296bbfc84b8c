//! Character-level string operations, stated over the `Seq<char>` view of a
//! string: trimming, ASCII case-insensitive comparison and field lookup.

use vstd::prelude::*;

verus! {

/// Unicode `White_Space` property, which `char::is_whitespace` (and so
/// `str::trim`) uses.
pub open spec fn is_unicode_whitespace(c: char) -> bool {
    let u = c as u32;
    ||| 0x09 <= u <= 0x0D
    ||| u == 0x20
    ||| u == 0x85
    ||| u == 0xA0
    ||| u == 0x1680
    ||| 0x2000 <= u <= 0x200A
    ||| u == 0x2028
    ||| u == 0x2029
    ||| u == 0x202F
    ||| u == 0x205F
    ||| u == 0x3000
}

/// A class of characters that a trim removes from both ends of a string.
#[derive(Clone, Copy)]
pub enum Trimmed {
    /// Unicode white space (as `str::trim`).
    Whitespace,
    /// One given character (as `str::trim_matches` with a `char` pattern).
    Char(char),
}

pub open spec fn trims(t: Trimmed, c: char) -> bool {
    match t {
        Trimmed::Whitespace => is_unicode_whitespace(c),
        Trimmed::Char(d) => c == d,
    }
}

/// `s` without its leading characters of class `t`.
pub open spec fn trim_start_seq(t: Trimmed, s: Seq<char>) -> Seq<char>
    decreases s.len(),
{
    if s.len() > 0 && trims(t, s[0]) {
        trim_start_seq(t, s.drop_first())
    } else {
        s
    }
}

/// `s` without its trailing characters of class `t`.
pub open spec fn trim_end_seq(t: Trimmed, s: Seq<char>) -> Seq<char>
    decreases s.len(),
{
    if s.len() > 0 && trims(t, s.last()) {
        trim_end_seq(t, s.drop_last())
    } else {
        s
    }
}

/// `s` without its leading and trailing characters of class `t`.
pub open spec fn trim_seq(t: Trimmed, s: Seq<char>) -> Seq<char> {
    trim_end_seq(t, trim_start_seq(t, s))
}

/// `str::trim`, over the character view.
pub open spec fn trim_ws(s: Seq<char>) -> Seq<char> {
    trim_seq(Trimmed::Whitespace, s)
}

/// Where the leading trim stops: everything before `i` is of class `t`, and
/// `s[i]`, if any, is not.
proof fn lemma_trim_start_index(t: Trimmed, s: Seq<char>) -> (i: int)
    ensures
        0 <= i <= s.len(),
        trim_start_seq(t, s) == s.subrange(i, s.len() as int),
        forall|k: int| 0 <= k < i ==> trims(t, #[trigger] s[k]),
        i < s.len() ==> !trims(t, s[i]),
    decreases s.len(),
{
    if s.len() > 0 && trims(t, s[0]) {
        let i0 = lemma_trim_start_index(t, s.drop_first());
        assert(s.drop_first().subrange(i0, s.drop_first().len() as int) =~= s.subrange(
            i0 + 1,
            s.len() as int,
        ));
        assert forall|k: int| 0 <= k < i0 + 1 implies trims(t, #[trigger] s[k]) by {
            if k > 0 {
                assert(s[k] == s.drop_first()[k - 1]);
            }
        }
        if i0 + 1 < s.len() {
            assert(s[i0 + 1] == s.drop_first()[i0]);
        }
        i0 + 1
    } else {
        assert(s.subrange(0, s.len() as int) =~= s);
        0
    }
}

/// Where the trailing trim stops: everything from `j` on is of class `t`,
/// and `s[j - 1]`, if any, is not.
proof fn lemma_trim_end_index(t: Trimmed, s: Seq<char>) -> (j: int)
    ensures
        0 <= j <= s.len(),
        trim_end_seq(t, s) == s.subrange(0, j),
        forall|k: int| j <= k < s.len() ==> trims(t, #[trigger] s[k]),
        j > 0 ==> !trims(t, s[j - 1]),
    decreases s.len(),
{
    if s.len() > 0 && trims(t, s.last()) {
        let j0 = lemma_trim_end_index(t, s.drop_last());
        assert(s.drop_last().subrange(0, j0) =~= s.subrange(0, j0));
        assert forall|k: int| j0 <= k < s.len() implies trims(t, #[trigger] s[k]) by {
            if k < s.len() - 1 {
                assert(s[k] == s.drop_last()[k]);
            }
        }
        if j0 > 0 {
            assert(s[j0 - 1] == s.drop_last()[j0 - 1]);
        }
        j0
    } else {
        assert(s.subrange(0, s.len() as int) =~= s);
        s.len() as int
    }
}

/// Trimming removes exactly the longest runs of class-`t` characters at the
/// two ends: the result is a slice `s[i..j]` with only class-`t` characters
/// outside it, and neither end of a non-empty result is of class `t`.
pub proof fn lemma_trim_seq_removes_end_runs(t: Trimmed, s: Seq<char>)
    ensures
        exists|i: int, j: int|
            {
                &&& 0 <= i <= j <= s.len()
                &&& trim_seq(t, s) == s.subrange(i, j)
                &&& forall|k: int| 0 <= k < i ==> trims(t, #[trigger] s[k])
                &&& forall|k: int| j <= k < s.len() ==> trims(t, #[trigger] s[k])
                &&& i < j ==> !trims(t, s[i]) && !trims(t, s[j - 1])
            },
{
    let i = lemma_trim_start_index(t, s);
    let u = s.subrange(i, s.len() as int);
    let j0 = lemma_trim_end_index(t, u);
    let j = i + j0;
    assert(u.subrange(0, j0) =~= s.subrange(i, j));
    assert forall|k: int| j <= k < s.len() implies trims(t, #[trigger] s[k]) by {
        assert(s[k] == u[k - i]);
    }
    if i < j {
        assert(s[j - 1] == u[j0 - 1]);
    }
}

/// A string whose ends are not of class `t` is left as it is.
pub proof fn lemma_trim_seq_noop(t: Trimmed, s: Seq<char>)
    requires
        s.len() > 0 ==> !trims(t, s[0]) && !trims(t, s.last()),
    ensures
        trim_seq(t, s) == s,
{
}

/// Trimming twice trims no more than trimming once.
pub proof fn lemma_trim_seq_idempotent(t: Trimmed, s: Seq<char>)
    ensures
        trim_seq(t, trim_seq(t, s)) == trim_seq(t, s),
{
    lemma_trim_seq_removes_end_runs(t, s);
    let r = trim_seq(t, s);
    let (i, j) = choose|i: int, j: int|
        {
            &&& 0 <= i <= j <= s.len()
            &&& trim_seq(t, s) == s.subrange(i, j)
            &&& forall|k: int| 0 <= k < i ==> trims(t, #[trigger] s[k])
            &&& forall|k: int| j <= k < s.len() ==> trims(t, #[trigger] s[k])
            &&& i < j ==> !trims(t, s[i]) && !trims(t, s[j - 1])
        };
    if r.len() > 0 {
        assert(r[0] == s[i]);
        assert(r.last() == s[j - 1]);
    }
    lemma_trim_seq_noop(t, r);
}

/// Trimming an empty string gives the empty string.
pub proof fn lemma_trim_seq_empty(t: Trimmed, s: Seq<char>)
    requires
        s.len() == 0,
    ensures
        trim_seq(t, s).len() == 0,
{
}

fn is_trimmed(t: Trimmed, c: char) -> (b: bool)
    ensures
        b == trims(t, c),
{
    match t {
        Trimmed::Whitespace => {
            let u = c as u32;
            (0x09 <= u && u <= 0x0D) || u == 0x20 || u == 0x85 || u == 0xA0 || u == 0x1680 || (
            0x2000 <= u && u <= 0x200A) || u == 0x2028 || u == 0x2029 || u == 0x202F || u == 0x205F
                || u == 0x3000
        },
        Trimmed::Char(d) => c == d,
    }
}

/// Removes the leading and trailing characters of class `t`.
pub fn trim_chars<'a>(s: &'a str, t: Trimmed) -> (r: &'a str)
    ensures
        r@ == trim_seq(t, s@),
{
    let n = s.unicode_len();
    let mut i: usize = 0;
    proof {
        assert(s@.subrange(0, n as int) =~= s@);
    }
    while i < n && is_trimmed(t, s.get_char(i))
        invariant
            n == s@.len(),
            i <= n,
            trim_start_seq(t, s@) == trim_start_seq(t, s@.subrange(i as int, n as int)),
        decreases n - i,
    {
        proof {
            assert(s@.subrange(i as int, n as int).drop_first() =~= s@.subrange(
                i + 1,
                n as int,
            ));
        }
        i = i + 1;
    }
    let mut j: usize = n;
    while j > i && is_trimmed(t, s.get_char(j - 1))
        invariant
            n == s@.len(),
            i <= j <= n,
            trim_start_seq(t, s@) == s@.subrange(i as int, n as int),
            trim_seq(t, s@) == trim_end_seq(t, s@.subrange(i as int, j as int)),
        decreases j,
    {
        proof {
            assert(s@.subrange(i as int, j as int).drop_last() =~= s@.subrange(
                i as int,
                j - 1,
            ));
        }
        j = j - 1;
    }
    s.substring_char(i, j)
}

/// `str::trim`: removes leading and trailing Unicode white space.
pub fn trim(s: &str) -> (r: &str)
    ensures
        r@ == trim_ws(s@),
{
    trim_chars(s, Trimmed::Whitespace)
}

/// `str::trim_end_matches` with a `char` pattern: removes the trailing
/// characters of class `t`.
pub fn trim_end_chars<'a>(s: &'a str, t: Trimmed) -> (r: &'a str)
    ensures
        r@ == trim_end_seq(t, s@),
{
    let n = s.unicode_len();
    let mut j: usize = n;
    proof {
        assert(s@.subrange(0, n as int) =~= s@);
    }
    while j > 0 && is_trimmed(t, s.get_char(j - 1))
        invariant
            n == s@.len(),
            j <= n,
            trim_end_seq(t, s@) == trim_end_seq(t, s@.subrange(0, j as int)),
        decreases j,
    {
        proof {
            assert(s@.subrange(0, j as int).drop_last() =~= s@.subrange(0, j - 1));
        }
        j = j - 1;
    }
    s.substring_char(0, j)
}

/// ASCII upper-case letter.
pub open spec fn is_ascii_upper(c: char) -> bool {
    65 <= (c as u32) <= 90
}

/// `c.to_ascii_lowercase() == d`.
pub open spec fn lowers_to(c: char, d: char) -> bool {
    if is_ascii_upper(c) {
        (c as u32) + 32 == (d as u32)
    } else {
        c == d
    }
}

/// Code of `c.to_ascii_lowercase()`.
pub open spec fn ascii_lower(c: char) -> u32 {
    if is_ascii_upper(c) {
        ((c as u32) + 32) as u32
    } else {
        c as u32
    }
}

/// `lowers_to` compares ASCII-lower-cased codes.
pub proof fn lemma_lowers_to_code(c: char, d: char)
    ensures
        lowers_to(c, d) <==> ascii_lower(c) == (d as u32),
{
    vstd::utf8::char_u32_cast(c, c as u32);
    vstd::utf8::char_u32_cast(d, d as u32);
}

/// The ASCII-lower-cased `s` starts with `p`.
pub open spec fn starts_with_lower(s: Seq<char>, p: Seq<char>) -> bool {
    &&& p.len() <= s.len()
    &&& forall|i: int| 0 <= i < p.len() ==> lowers_to(#[trigger] s[i], p[i])
}

/// The ASCII-lower-cased `s` ends with `p`.
pub open spec fn ends_with_lower(s: Seq<char>, p: Seq<char>) -> bool {
    &&& p.len() <= s.len()
    &&& forall|i: int| 0 <= i < p.len() ==> lowers_to(#[trigger] s[s.len() - p.len() + i], p[i])
}

/// The ASCII-lower-cased `s` equals `p`.
pub open spec fn eq_lower(s: Seq<char>, p: Seq<char>) -> bool {
    s.len() == p.len() && starts_with_lower(s, p)
}

fn char_lowers_to(c: char, d: char) -> (b: bool)
    ensures
        b == lowers_to(c, d),
{
    let u = c as u32;
    if 65 <= u && u <= 90 {
        u + 32 == d as u32
    } else {
        c == d
    }
}

/// Compares `s[offset..offset + p.len()]`, lower-cased, with `p`.
fn matches_lower_at(s: &str, offset: usize, p: &str) -> (b: bool)
    requires
        offset + p@.len() <= s@.len(),
    ensures
        b == (forall|i: int| 0 <= i < p@.len() ==> lowers_to(#[trigger] s@[offset + i], p@[i])),
{
    let m = p.unicode_len();
    let n = s.unicode_len();
    let mut i: usize = 0;
    while i < m
        invariant
            m == p@.len(),
            n == s@.len(),
            offset + m <= s@.len(),
            i <= m,
            forall|k: int| 0 <= k < i ==> lowers_to(#[trigger] s@[offset + k], p@[k]),
        decreases m - i,
    {
        if !char_lowers_to(s.get_char(offset + i), p.get_char(i)) {
            return false;
        }
        i = i + 1;
    }
    true
}

/// `s.to_ascii_lowercase().starts_with(p)`.
pub fn starts_with_ignore_ascii_case(s: &str, p: &str) -> (b: bool)
    ensures
        b == starts_with_lower(s@, p@),
{
    let n = s.unicode_len();
    let m = p.unicode_len();
    if m > n {
        return false;
    }
    let r = matches_lower_at(s, 0, p);
    proof {
        if r != starts_with_lower(s@, p@) {
            if r {
                assert forall|i: int| 0 <= i < p@.len() implies lowers_to(#[trigger] s@[i], p@[i]) by {
                    assert(s@[0 + i] == s@[i]);
                }
            } else {
                let i = choose|i: int| 0 <= i < p@.len() && !lowers_to(#[trigger] s@[0 + i], p@[i]);
                assert(s@[0 + i] == s@[i]);
            }
        }
    }
    r
}

/// `s.to_ascii_lowercase().ends_with(p)`.
pub fn ends_with_ignore_ascii_case(s: &str, p: &str) -> (b: bool)
    ensures
        b == ends_with_lower(s@, p@),
{
    let n = s.unicode_len();
    let m = p.unicode_len();
    if m > n {
        return false;
    }
    matches_lower_at(s, n - m, p)
}

/// `s.to_ascii_lowercase() == p`.
pub fn eq_ignore_ascii_case(s: &str, p: &str) -> (b: bool)
    ensures
        b == eq_lower(s@, p@),
{
    if s.unicode_len() != p.unicode_len() {
        return false;
    }
    starts_with_ignore_ascii_case(s, p)
}

/// `a == b` on string slices.
pub fn str_eq(a: &str, b: &str) -> (r: bool)
    ensures
        r == (a@ == b@),
{
    let n = a.unicode_len();
    if n != b.unicode_len() {
        return false;
    }
    let mut i: usize = 0;
    while i < n
        invariant
            n == a@.len(),
            n == b@.len(),
            i <= n,
            forall|k: int| 0 <= k < i ==> a@[k] == b@[k],
        decreases n - i,
    {
        if a.get_char(i) != b.get_char(i) {
            return false;
        }
        i = i + 1;
    }
    proof {
        assert(a@ =~= b@);
    }
    true
}

/// `c` occurs in `s`.
pub fn contains_char(s: &str, c: char) -> (r: bool)
    ensures
        r == s@.contains(c),
{
    let n = s.unicode_len();
    let mut i: usize = 0;
    while i < n
        invariant
            n == s@.len(),
            i <= n,
            forall|k: int| 0 <= k < i ==> s@[k] != c,
        decreases n - i,
    {
        if s.get_char(i) == c {
            proof {
                assert(s@[i as int] == c);
            }
            return true;
        }
        i = i + 1;
    }
    false
}

/// `s[i..j]` is one of the fields of `s` separated by `sep`: it starts at the
/// start of `s` or just after a separator, ends at the end of `s` or just
/// before one, and holds no separator.
pub open spec fn is_field_at(s: Seq<char>, sep: char, i: int, j: int) -> bool {
    &&& 0 <= i <= j <= s.len()
    &&& (i == 0 || s[i - 1] == sep)
    &&& (j == s.len() || s[j] == sep)
    &&& !s.subrange(i, j).contains(sep)
}

/// `v` is one of the pieces of `s.split(sep)`.
pub open spec fn is_field(s: Seq<char>, sep: char, v: Seq<char>) -> bool {
    exists|i: int, j: int| is_field_at(s, sep, i, j) && #[trigger] s.subrange(i, j) == v
}

/// `s.split(sep).any(|f| f == v)`.
pub fn is_split_field(s: &str, sep: char, v: &str) -> (r: bool)
    ensures
        r == is_field(s@, sep, v@),
{
    if contains_char(v, sep) {
        proof {
            if is_field(s@, sep, v@) {
                let (i, j) = choose|i: int, j: int|
                    is_field_at(s@, sep, i, j) && #[trigger] s@.subrange(i, j) == v@;
            }
        }
        return false;
    }
    let n = s.unicode_len();
    let mut start: usize = 0;
    let mut k: usize = 0;
    while k < n
        invariant
            n == s@.len(),
            !v@.contains(sep),
            start <= k <= n,
            start == 0 || s@[start - 1] == sep,
            !s@.subrange(start as int, k as int).contains(sep),
            forall|i: int, j: int|
                j < k && is_field_at(s@, sep, i, j) ==> #[trigger] s@.subrange(i, j) != v@,
        decreases n - k,
    {
        if s.get_char(k) == sep {
            let piece = s.substring_char(start, k);
            if str_eq(piece, v) {
                proof {
                    assert(is_field_at(s@, sep, start as int, k as int));
                }
                return true;
            }
            proof {
                lemma_only_field_ending_at(s@, sep, v@, start as int, k as int);
            }
            start = k + 1;
            proof {
                assert(s@.subrange(start as int, start as int) =~= Seq::<char>::empty());
            }
        } else {
            proof {
                let old_piece = s@.subrange(start as int, k as int);
                let new_piece = s@.subrange(start as int, k + 1);
                assert(new_piece =~= old_piece.push(s@[k as int]));
                if new_piece.contains(sep) {
                    let x = choose|x: int| 0 <= x < new_piece.len() && new_piece[x] == sep;
                    if x < old_piece.len() {
                        assert(old_piece[x] == sep);
                    }
                }
            }
        }
        k = k + 1;
    }
    let piece = s.substring_char(start, n);
    let found = str_eq(piece, v);
    proof {
        if found {
            assert(is_field_at(s@, sep, start as int, n as int));
        } else {
            lemma_only_field_ending_at(s@, sep, v@, start as int, n as int);
            if is_field(s@, sep, v@) {
                let (i, j) = choose|i: int, j: int|
                    is_field_at(s@, sep, i, j) && #[trigger] s@.subrange(i, j) == v@;
                assert(j <= n);
            }
        }
    }
    found
}

/// The only field of `s` that ends at `k` and can equal a separator-free `v`
/// is the one that starts just after the last separator before `k`.
proof fn lemma_only_field_ending_at(s: Seq<char>, sep: char, v: Seq<char>, start: int, k: int)
    requires
        0 <= start <= k <= s.len(),
        start == 0 || s[start - 1] == sep,
        !s.subrange(start, k).contains(sep),
        !v.contains(sep),
        s.subrange(start, k) != v,
    ensures
        forall|i: int| is_field_at(s, sep, i, k) ==> #[trigger] s.subrange(i, k) != v,
{
    assert forall|i: int| is_field_at(s, sep, i, k) implies #[trigger] s.subrange(i, k) != v by {
        if s.subrange(i, k) == v {
            if i < start {
                assert(s.subrange(i, k)[start - 1 - i] == sep);
            } else if i > start {
                assert(s.subrange(start, k)[i - 1 - start] == sep);
            }
        }
    }
}

} // verus!
