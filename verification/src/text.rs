//! Character and string groundwork: whitespace trimming, equality and
//! prefix/substring tests over `&str`, line splitting, and decimal rendering
//! of integers.  Everything here is stated over `Seq<char>` views.
use vstd::prelude::*;

verus! {

/// The characters with the Unicode `White_Space` property, the set that
/// `str::trim` removes at either end of a string.
pub open spec fn is_space_char(c: char) -> bool {
    c == ' ' || c == '\t' || c == '\n' || c == '\r' || c == '\u{000B}' || c == '\u{000C}'
        || c == '\u{0085}' || c == '\u{00A0}' || c == '\u{1680}' || c == '\u{2000}'
        || c == '\u{2001}' || c == '\u{2002}' || c == '\u{2003}' || c == '\u{2004}'
        || c == '\u{2005}' || c == '\u{2006}' || c == '\u{2007}' || c == '\u{2008}'
        || c == '\u{2009}' || c == '\u{200A}' || c == '\u{2028}' || c == '\u{2029}'
        || c == '\u{202F}' || c == '\u{205F}' || c == '\u{3000}'
}

fn char_is_space(c: char) -> (r: bool)
    ensures
        r == is_space_char(c),
{
    c == ' ' || c == '\t' || c == '\n' || c == '\r' || c == '\u{000B}' || c == '\u{000C}'
        || c == '\u{0085}' || c == '\u{00A0}' || c == '\u{1680}' || c == '\u{2000}'
        || c == '\u{2001}' || c == '\u{2002}' || c == '\u{2003}' || c == '\u{2004}'
        || c == '\u{2005}' || c == '\u{2006}' || c == '\u{2007}' || c == '\u{2008}'
        || c == '\u{2009}' || c == '\u{200A}' || c == '\u{2028}' || c == '\u{2029}'
        || c == '\u{202F}' || c == '\u{205F}' || c == '\u{3000}'
}

/// What remains of `s` after dropping leading whitespace.
pub open spec fn trim_front(s: Seq<char>) -> Seq<char>
    decreases s.len(),
{
    if s.len() > 0 && is_space_char(s[0]) {
        trim_front(s.drop_first())
    } else {
        s
    }
}

/// What remains of `s` after dropping trailing whitespace.
pub open spec fn trim_back(s: Seq<char>) -> Seq<char>
    decreases s.len(),
{
    if s.len() > 0 && is_space_char(s.last()) {
        trim_back(s.drop_last())
    } else {
        s
    }
}

/// What `str::trim` leaves of `s`.
pub open spec fn trim_spec(s: Seq<char>) -> Seq<char> {
    trim_back(trim_front(s))
}

pub(crate) proof fn lemma_trim_front_skip(s: Seq<char>, i: int)
    requires
        0 <= i <= s.len(),
        forall|k: int| 0 <= k < i ==> is_space_char(s[k]),
        i < s.len() ==> !is_space_char(s[i]),
    ensures
        trim_front(s) == s.skip(i),
    decreases i,
{
    if i == 0 {
        assert(s.skip(0) =~= s);
    } else {
        lemma_trim_front_skip(s.drop_first(), i - 1);
        assert(s.drop_first().skip(i - 1) =~= s.skip(i));
    }
}

pub(crate) proof fn lemma_trim_back_take(s: Seq<char>, j: int)
    requires
        0 <= j <= s.len(),
        forall|k: int| j <= k < s.len() ==> is_space_char(s[k]),
        j > 0 ==> !is_space_char(s[j - 1]),
    ensures
        trim_back(s) == s.take(j),
    decreases s.len() - j,
{
    if j == s.len() {
        if s.len() > 0 && is_space_char(s.last()) {
            lemma_trim_back_take(s.drop_last(), j - 1);
            assert(s.drop_last().take(j - 1) =~= s.take(j - 1));
            assert(false);
        } else {
            assert(s.take(j) =~= s);
        }
    } else {
        assert(is_space_char(s.last()));
        lemma_trim_back_take(s.drop_last(), j);
        assert(s.drop_last().take(j) =~= s.take(j));
    }
}

/// `str::trim` written out over character indices.
pub fn trimmed(s: &str) -> (r: String)
    ensures
        r@ == trim_spec(s@),
{
    let n = s.unicode_len();
    let mut i: usize = 0;
    while i < n && char_is_space(s.get_char(i))
        invariant
            n == s@.len(),
            0 <= i <= n,
            forall|k: int| 0 <= k < i ==> is_space_char(s@[k]),
        decreases n - i,
    {
        i += 1;
    }
    proof {
        lemma_trim_front_skip(s@, i as int);
    }
    if i == n {
        proof {
            assert(s@.skip(i as int) =~= Seq::<char>::empty());
            assert(trim_back(Seq::<char>::empty()) =~= Seq::<char>::empty());
        }
        return String::new();
    }
    let mut j: usize = n;
    while j > i && char_is_space(s.get_char(j - 1))
        invariant
            n == s@.len(),
            0 <= i <= j <= n,
            forall|k: int| j <= k < n ==> is_space_char(s@[k]),
        decreases j,
    {
        j -= 1;
    }
    proof {
        let f = s@.skip(i as int);
        assert(f.len() == n - i);
        assert(forall|k: int| (j - i) <= k < f.len() ==> is_space_char(#[trigger] f[k]));
        assert(!is_space_char(s@[i as int]));
        if j > i {
            assert(!is_space_char(f[j - i - 1]));
        } else {
            assert(!is_space_char(f[0]));
            assert(is_space_char(f[j - i]) ==> false);
        }
        lemma_trim_back_take(f, j - i);
        assert(f.take(j - i) =~= s@.subrange(i as int, j as int));
    }
    let piece = s.substring_char(i, j);
    String::from_str(piece)
}

/// Character-for-character equality of two string slices.
pub fn str_eq(a: &str, b: &str) -> (r: bool)
    ensures
        r == (a@ == b@),
{
    let na = a.unicode_len();
    let nb = b.unicode_len();
    if na != nb {
        return false;
    }
    let mut i: usize = 0;
    while i < na
        invariant
            na == a@.len(),
            na == b@.len(),
            0 <= i <= na,
            forall|k: int| 0 <= k < i ==> a@[k] == b@[k],
        decreases na - i,
    {
        if a.get_char(i) != b.get_char(i) {
            return false;
        }
        i += 1;
    }
    proof {
        assert(a@ =~= b@);
    }
    true
}

/// `p` stands at the front of `s`.
pub open spec fn starts_with_spec(s: Seq<char>, p: Seq<char>) -> bool {
    p.len() <= s.len() && s.subrange(0, p.len() as int) == p
}

/// `str::starts_with` written out over character indices.
pub fn str_starts_with(s: &str, p: &str) -> (r: bool)
    ensures
        r == starts_with_spec(s@, p@),
{
    let n = s.unicode_len();
    let k = p.unicode_len();
    if k > n {
        return false;
    }
    let mut i: usize = 0;
    while i < k
        invariant
            n == s@.len(),
            k == p@.len(),
            k <= n,
            0 <= i <= k,
            forall|t: int| 0 <= t < i ==> s@[t] == p@[t],
        decreases k - i,
    {
        if s.get_char(i) != p.get_char(i) {
            proof {
                assert(s@.subrange(0, k as int)[i as int] != p@[i as int]);
            }
            return false;
        }
        i += 1;
    }
    proof {
        assert(s@.subrange(0, k as int) =~= p@);
    }
    true
}

/// `m` occurs in `s` at position `i`.
pub open spec fn matches_at(s: Seq<char>, m: Seq<char>, i: int) -> bool {
    0 <= i && i + m.len() <= s.len() && s.subrange(i, i + m.len() as int) == m
}

/// `m` occurs somewhere in `s`.
pub open spec fn contains_seq(s: Seq<char>, m: Seq<char>) -> bool {
    exists|i: int| matches_at(s, m, i)
}

/// `str::contains` written out as a direct search.
pub fn str_contains(s: &str, m: &str) -> (r: bool)
    ensures
        r == contains_seq(s@, m@),
{
    let n = s.unicode_len();
    let k = m.unicode_len();
    if k > n {
        return false;
    }
    if k == 0 {
        proof {
            assert(s@.subrange(0, 0) =~= m@);
            assert(matches_at(s@, m@, 0));
        }
        return true;
    }
    let mut i: usize = 0;
    while i <= n - k
        invariant
            n == s@.len(),
            k == m@.len(),
            1 <= k <= n,
            0 <= i <= n - k + 1,
            forall|j: int| 0 <= j < i ==> !matches_at(s@, m@, j),
        decreases n - i,
    {
        let mut j: usize = 0;
        let mut ok = true;
        while j < k
            invariant
                n == s@.len(),
                k == m@.len(),
                k <= n,
                i + k <= n,
                0 <= j <= k,
                ok ==> forall|t: int| 0 <= t < j ==> s@[i + t] == m@[t],
                !ok ==> !matches_at(s@, m@, i as int),
            decreases k - j,
        {
            if ok && s.get_char(i + j) != m.get_char(j) {
                proof {
                    assert(s@.subrange(i as int, i + k as int)[j as int] != m@[j as int]);
                }
                ok = false;
            }
            j += 1;
        }
        if ok {
            proof {
                assert(s@.subrange(i as int, i + k as int) =~= m@);
                assert(matches_at(s@, m@, i as int));
            }
            return true;
        }
        i += 1;
    }
    proof {
        assert forall|j: int| !matches_at(s@, m@, j) by {
            if j >= i {
                assert(j + k > n);
            }
        }
    }
    false
}

/// A character occurs in the concatenation exactly when it occurs in a part.
pub proof fn lemma_char_in_concat(a: Seq<char>, b: Seq<char>, c: char)
    ensures
        (a + b).contains(c) == (a.contains(c) || b.contains(c)),
{
    if a.contains(c) {
        let i = choose|i: int| 0 <= i < a.len() && a[i] == c;
        assert((a + b)[i] == c);
    }
    if b.contains(c) {
        let i = choose|i: int| 0 <= i < b.len() && b[i] == c;
        assert((a + b)[a.len() + i] == c);
    }
    if (a + b).contains(c) {
        let i = choose|i: int| 0 <= i < (a + b).len() && (a + b)[i] == c;
        if i < a.len() {
            assert(a[i] == c);
        } else {
            assert(b[i - a.len()] == c);
        }
    }
}

/// Index of the first line break in `s`; the length of `s` when there is none.
pub open spec fn nl_index(s: Seq<char>) -> nat
    decreases s.len(),
{
    if s.len() == 0 {
        0
    } else if s[0] == '\n' {
        0
    } else {
        1 + nl_index(s.drop_first())
    }
}

/// `nl_index` is pinned down by what stands before and at the break.
pub proof fn lemma_nl_index_is(s: Seq<char>, i: int)
    requires
        0 <= i <= s.len(),
        forall|k: int| 0 <= k < i ==> s[k] != '\n',
        i < s.len() ==> s[i] == '\n',
    ensures
        nl_index(s) == i,
    decreases i,
{
    if s.len() == 0 {
    } else if i == 0 {
    } else {
        lemma_nl_index_is(s.drop_first(), i - 1);
    }
}

pub proof fn lemma_nl_index_bounds(s: Seq<char>)
    ensures
        nl_index(s) <= s.len(),
        forall|k: int| 0 <= k < nl_index(s) ==> s[k] != '\n',
        nl_index(s) < s.len() ==> s[nl_index(s) as int] == '\n',
    decreases s.len(),
{
    if s.len() == 0 {
    } else if s[0] == '\n' {
    } else {
        lemma_nl_index_bounds(s.drop_first());
        assert forall|k: int| 0 <= k < nl_index(s) implies s[k] != '\n' by {
            if k > 0 {
                assert(s.drop_first()[k - 1] == s[k]);
            }
        }
        if nl_index(s) < s.len() {
            assert(s.drop_first()[nl_index(s) as int - 1] == s[nl_index(s) as int]);
        }
    }
}

/// A line terminated by `\n` loses one trailing carriage return, as
/// `str::lines` strips it.
pub open spec fn strip_cr(l: Seq<char>) -> Seq<char> {
    if l.len() > 0 && l.last() == '\r' {
        l.drop_last()
    } else {
        l
    }
}

/// What `str::lines` yields on `s`.
pub open spec fn lines_of(s: Seq<char>) -> Seq<Seq<char>>
    decreases s.len(),
{
    if s.len() == 0 {
        Seq::empty()
    } else {
        let i = nl_index(s);
        if i >= s.len() {
            seq![s]
        } else {
            seq![strip_cr(s.take(i as int))] + lines_of(s.skip(i as int + 1))
        }
    }
}

/// Peeling one `\n`-terminated line off the front of a text.
pub proof fn lemma_lines_prepend(a: Seq<char>, rest: Seq<char>)
    requires
        !a.contains('\n'),
    ensures
        lines_of(a + seq!['\n'] + rest) == seq![strip_cr(a)] + lines_of(rest),
{
    let s = a + seq!['\n'] + rest;
    assert forall|k: int| 0 <= k < a.len() implies s[k] != '\n' by {
        assert(s[k] == a[k]);
        assert(a[k] != '\n') by {
            if a[k] == '\n' {
                assert(a.contains('\n'));
            }
        }
    }
    assert(s[a.len() as int] == '\n');
    lemma_nl_index_is(s, a.len() as int);
    assert(s.take(a.len() as int) =~= a);
    assert(s.skip(a.len() as int + 1) =~= rest);
}

/// `str::lines` written out: split at `\n`, dropping one `\r` before it.
pub fn split_lines(s: &str) -> (r: Vec<String>)
    ensures
        r.deep_view() == lines_of(s@),
{
    let n = s.unicode_len();
    let mut r: Vec<String> = Vec::new();
    let mut start: usize = 0;
    proof {
        assert(s@.skip(0) =~= s@);
        assert(r.deep_view() =~= Seq::<Seq<char>>::empty());
        assert(r.deep_view() + lines_of(s@.skip(0)) =~= lines_of(s@));
    }
    while start < n
        invariant
            n == s@.len(),
            0 <= start <= n,
            r.deep_view() + lines_of(s@.skip(start as int)) == lines_of(s@),
        decreases n - start,
    {
        let ghost tail = s@.skip(start as int);
        let mut j: usize = start;
        while j < n && s.get_char(j) != '\n'
            invariant
                n == s@.len(),
                start <= j <= n,
                forall|k: int| start <= k < j ==> s@[k] != '\n',
            decreases n - j,
        {
            j += 1;
        }
        proof {
            assert forall|k: int| 0 <= k < j - start implies tail[k] != '\n' by {
                assert(tail[k] == s@[start + k]);
            }
            if j < n {
                assert(tail[j - start] == '\n');
            }
            lemma_nl_index_is(tail, j - start);
        }
        if j == n {
            let piece = s.substring_char(start, n);
            proof {
                assert(tail =~= s@.subrange(start as int, n as int));
                assert(lines_of(tail) == seq![piece@]);
            }
            let ghost old_dv = r.deep_view();
            r.push(String::from_str(piece));
            proof {
                assert(r.deep_view() =~= old_dv.push(piece@));
                assert(r.deep_view() + lines_of(s@.skip(n as int)) =~= lines_of(s@)) by {
                    assert(s@.skip(n as int) =~= Seq::<char>::empty());
                    assert(old_dv.push(piece@) + Seq::<Seq<char>>::empty() =~= old_dv + seq![piece@]);
                    assert(old_dv + lines_of(tail) =~= old_dv.push(piece@));
                }
            }
            start = n;
        } else {
            let line_end = if j > start && s.get_char(j - 1) == '\r' {
                j - 1
            } else {
                j
            };
            let piece = s.substring_char(start, line_end);
            proof {
                let full = tail.take(j - start);
                assert(full =~= s@.subrange(start as int, j as int));
                assert(strip_cr(full) =~= s@.subrange(start as int, line_end as int)) by {
                    if j > start && s@[j - 1] == '\r' {
                        assert(full.len() > 0 && full.last() == '\r');
                        assert(full.drop_last() =~= s@.subrange(start as int, j - 1));
                    } else {
                        if full.len() > 0 && full.last() == '\r' {
                            assert(s@[j - 1] == '\r');
                        }
                    }
                }
                assert(lines_of(tail) == seq![piece@] + lines_of(tail.skip(j - start + 1)));
                assert(tail.skip(j - start + 1) =~= s@.skip(j + 1));
            }
            let ghost old_dv = r.deep_view();
            r.push(String::from_str(piece));
            proof {
                assert(r.deep_view() =~= old_dv.push(piece@));
                assert(r.deep_view() + lines_of(s@.skip(j + 1)) =~= lines_of(s@)) by {
                    assert(old_dv.push(piece@) + lines_of(s@.skip(j + 1)) =~= old_dv + (seq![
                        piece@,
                    ] + lines_of(s@.skip(j + 1))));
                }
            }
            start = j + 1;
        }
    }
    proof {
        assert(s@.skip(start as int) =~= Seq::<char>::empty());
        assert(r.deep_view() + Seq::<Seq<char>>::empty() =~= r.deep_view());
    }
    r
}

/// Relies on `String::push`: appends one character at the end.
#[verifier::external_body]
pub(crate) fn push_char(s: &mut String, c: char)
    ensures
        final(s)@ == old(s)@.push(c),
{
    s.push(c);
}

/// The decimal digit character for `d`.
pub open spec fn dec_digit(d: nat) -> char {
    if d == 0 {
        '0'
    } else if d == 1 {
        '1'
    } else if d == 2 {
        '2'
    } else if d == 3 {
        '3'
    } else if d == 4 {
        '4'
    } else if d == 5 {
        '5'
    } else if d == 6 {
        '6'
    } else if d == 7 {
        '7'
    } else if d == 8 {
        '8'
    } else {
        '9'
    }
}

/// The usual decimal rendering of `n`, most significant digit first.
pub open spec fn dec_spec(n: nat) -> Seq<char>
    decreases n,
{
    if n < 10 {
        seq![dec_digit(n)]
    } else {
        dec_spec(n / 10).push(dec_digit(n % 10))
    }
}

fn dec_digit_exec(d: u64) -> (c: char)
    requires
        d < 10,
    ensures
        c == dec_digit(d as nat),
{
    if d == 0 {
        '0'
    } else if d == 1 {
        '1'
    } else if d == 2 {
        '2'
    } else if d == 3 {
        '3'
    } else if d == 4 {
        '4'
    } else if d == 5 {
        '5'
    } else if d == 6 {
        '6'
    } else if d == 7 {
        '7'
    } else if d == 8 {
        '8'
    } else {
        '9'
    }
}

/// Renders `n` in decimal.
pub fn u64_to_dec(n: u64) -> (r: String)
    ensures
        r@ == dec_spec(n as nat),
    decreases n,
{
    if n < 10 {
        let mut s = String::new();
        push_char(&mut s, dec_digit_exec(n));
        proof {
            assert(s@ =~= dec_spec(n as nat));
        }
        s
    } else {
        proof {
            assert(n / 10 < n) by (nonlinear_arith)
                requires
                    n >= 10,
            ;
        }
        let mut s = u64_to_dec(n / 10);
        push_char(&mut s, dec_digit_exec(n % 10));
        s
    }
}

/// Renders `n` in decimal.
pub fn u128_to_dec(n: u128) -> (r: String)
    ensures
        r@ == dec_spec(n as nat),
    decreases n,
{
    if n < 10 {
        let mut s = String::new();
        push_char(&mut s, dec_digit_exec((n % 10) as u64));
        proof {
            assert(s@ =~= dec_spec(n as nat));
        }
        s
    } else {
        proof {
            assert(n / 10 < n) by (nonlinear_arith)
                requires
                    n >= 10,
            ;
        }
        let mut s = u128_to_dec(n / 10);
        push_char(&mut s, dec_digit_exec((n % 10) as u64));
        s
    }
}

} // verus!
