//! String helpers shared by the tokenizers, the parser and the code
//! generator, with their mathematical counterparts.

use vstd::prelude::*;
use vstd::string::{StrSliceExecFns, StringExecFns};
use crate::chars::{is_ws_char, char_is_ws, push_char, chars_string};

verus! {

/// First position `j >= i` at which `c` occurs in `s`, or `s.len()`.
pub open spec fn first_at_from(s: Seq<char>, i: int, c: char) -> int
    decreases s.len() - i,
{
    if i < 0 || i >= s.len() {
        s.len() as int
    } else if s[i] == c {
        i
    } else {
        first_at_from(s, i + 1, c)
    }
}

pub proof fn lemma_first_at_from_bounds(s: Seq<char>, i: int, c: char)
    requires
        0 <= i <= s.len(),
    ensures
        i <= first_at_from(s, i, c) <= s.len(),
    decreases s.len() - i,
{
    if i < s.len() && s[i] != c {
        lemma_first_at_from_bounds(s, i + 1, c);
    }
}

/// When the scan stops short of the end, it stops on the sought character.
pub proof fn lemma_first_at_found(s: Seq<char>, i: int, c: char)
    requires
        0 <= i <= s.len(),
    ensures
        first_at_from(s, i, c) < s.len() ==> s[first_at_from(s, i, c)] == c,
    decreases s.len() - i,
{
    if i < s.len() && s[i] != c {
        lemma_first_at_found(s, i + 1, c);
    }
}

/// First position `j >= i` holding a whitespace character, or `s.len()`.
pub open spec fn first_ws_from(s: Seq<char>, i: int) -> int
    decreases s.len() - i,
{
    if i < 0 || i >= s.len() {
        s.len() as int
    } else if is_ws_char(s[i]) {
        i
    } else {
        first_ws_from(s, i + 1)
    }
}

pub proof fn lemma_first_ws_from_bounds(s: Seq<char>, i: int)
    requires
        0 <= i <= s.len(),
    ensures
        i <= first_ws_from(s, i) <= s.len(),
    decreases s.len() - i,
{
    if i < s.len() && !is_ws_char(s[i]) {
        lemma_first_ws_from_bounds(s, i + 1);
    }
}

/// First position `j >= i` holding a character that is not whitespace, or
/// `s.len()`.
pub open spec fn first_non_ws_from(s: Seq<char>, i: int) -> int
    decreases s.len() - i,
{
    if i < 0 || i >= s.len() {
        s.len() as int
    } else if !is_ws_char(s[i]) {
        i
    } else {
        first_non_ws_from(s, i + 1)
    }
}

pub proof fn lemma_first_non_ws_from_bounds(s: Seq<char>, i: int)
    requires
        0 <= i <= s.len(),
    ensures
        i <= first_non_ws_from(s, i) <= s.len(),
    decreases s.len() - i,
{
    if i < s.len() && is_ws_char(s[i]) {
        lemma_first_non_ws_from_bounds(s, i + 1);
    }
}

/// One past the last non-whitespace character of `s` at or before `j`, or 0.
pub open spec fn trim_hi_from(s: Seq<char>, j: int) -> int
    decreases j,
{
    if j <= 0 || j > s.len() {
        0
    } else if is_ws_char(s[j - 1]) {
        trim_hi_from(s, j - 1)
    } else {
        j
    }
}

pub proof fn lemma_trim_hi_from_bounds(s: Seq<char>, j: int)
    requires
        0 <= j <= s.len(),
    ensures
        0 <= trim_hi_from(s, j) <= j,
    decreases j,
{
    if j > 0 && is_ws_char(s[j - 1]) {
        lemma_trim_hi_from_bounds(s, j - 1);
    }
}

/// `s` with leading and trailing whitespace removed.
pub open spec fn trim_seq(s: Seq<char>) -> Seq<char> {
    let lo = first_non_ws_from(s, 0);
    let hi = trim_hi_from(s, s.len() as int);
    if lo >= hi {
        Seq::empty()
    } else {
        s.subrange(lo, hi)
    }
}

/// The whitespace-separated words of `s`, in order, scanning from `i`.
pub open spec fn words_from(s: Seq<char>, i: int) -> Seq<Seq<char>>
    decreases s.len() - i, 1int,
{
    if i < 0 || i >= s.len() {
        Seq::empty()
    } else if is_ws_char(s[i]) {
        words_from(s, i + 1)
    } else {
        words_word(s, i)
    }
}

/// Helper for `words_from`: take the word starting at the non-whitespace
/// position `i`, then continue.
pub open spec fn words_word(s: Seq<char>, i: int) -> Seq<Seq<char>>
    decreases s.len() - i, 0int,
{
    if 0 <= i < s.len() && !is_ws_char(s[i]) {
        let k: int = first_ws_from(s, i + 1);
        let k: int = if k < i + 1 {
            i + 1
        } else if k > s.len() {
            s.len() as int
        } else {
            k
        };
        seq![s.subrange(i, k)] + words_from(s, k)
    } else {
        Seq::empty()
    }
}

/// The whitespace-separated words of `s`.
pub open spec fn words(s: Seq<char>) -> Seq<Seq<char>> {
    words_from(s, 0)
}

/// The views of a sequence of strings.
pub open spec fn strs_view(v: Seq<String>) -> Seq<Seq<char>> {
    v.map_values(|s: String| s@)
}

/// Splits `v` into its whitespace-separated words.
pub fn split_words(v: &Vec<char>) -> (r: Vec<String>)
    ensures
        strs_view(r@) == words(v@),
{
    let n: usize = v.len();
    let mut r: Vec<String> = Vec::new();
    let mut i: usize = 0;
    proof {
        assert(strs_view(r@) + words_from(v@, 0) =~= words(v@));
    }
    while i < n
        invariant
            n == v@.len(),
            0 <= i <= n,
            strs_view(r@) + words_from(v@, i as int) == words(v@),
        decreases n - i,
    {
        if char_is_ws(v[i]) {
            i = i + 1;
        } else {
            let ghost i0: int = i as int;
            let ghost sv0 = strs_view(r@);
            let mut j: usize = i + 1;
            while j < n && !char_is_ws(v[j])
                invariant
                    n == v@.len(),
                    i0 + 1 <= j <= n,
                    first_ws_from(v@, i0 + 1) == first_ws_from(v@, j as int),
                decreases n - j,
            {
                j = j + 1;
            }
            proof {
                lemma_first_ws_from_bounds(v@, i0 + 1);
                assert(first_ws_from(v@, j as int) == j as int);
                assert(first_ws_from(v@, i0 + 1) == j as int);
            }
            let w = chars_string(v, i, j);
            r.push(w);
            proof {
                assert(strs_view(r@) =~= sv0.push(w@));
                assert(!is_ws_char(v@[i0]));
                assert(words_from(v@, i0) == words_word(v@, i0));
                assert(words_word(v@, i0) == seq![v@.subrange(i0, j as int)] + words_from(
                    v@,
                    j as int,
                ));
                assert(strs_view(r@) + words_from(v@, j as int) =~= sv0 + words_from(v@, i0));
            }
            i = j;
        }
    }
    proof {
        assert(strs_view(r@) =~= words(v@));
    }
    r
}

/// Whether two string slices hold the same characters.
pub fn str_eq(a: &str, b: &str) -> (r: bool)
    ensures
        r == (a@ == b@),
{
    let na: usize = a.unicode_len();
    let nb: usize = b.unicode_len();
    if na != nb {
        return false;
    }
    let mut i: usize = 0;
    while i < na
        invariant
            na == a@.len(),
            nb == b@.len(),
            na == nb,
            0 <= i <= na,
            forall|k: int| 0 <= k < i ==> a@[k] == b@[k],
        decreases na - i,
    {
        if a.get_char(i) != b.get_char(i) {
            return false;
        }
        i = i + 1;
    }
    proof {
        assert(a@ =~= b@);
    }
    true
}

/// The decimal digit character for `0 <= d <= 9`.
pub open spec fn digit_char(d: int) -> char {
    ((d + 48) as u8) as char
}

/// The decimal representation of a natural number.
pub open spec fn dec_rep(n: nat) -> Seq<char>
    decreases n,
{
    if n < 10 {
        seq![digit_char(n as int)]
    } else {
        dec_rep(n / 10).push(digit_char((n % 10) as int))
    }
}

/// The decimal representation of an integer, with a leading minus sign when
/// negative.
pub open spec fn int_text(i: int) -> Seq<char> {
    if i < 0 {
        seq!['-'] + dec_rep((-i) as nat)
    } else {
        dec_rep(i as nat)
    }
}

pub fn render_u64(n: u64) -> (r: String)
    ensures
        r@ == dec_rep(n as nat),
    decreases n,
{
    if n < 10 {
        let mut s = String::new();
        let c = (48 + (n as u8)) as char;
        push_char(&mut s, c);
        s
    } else {
        let mut s = render_u64(n / 10);
        let c = (48 + ((n % 10) as u8)) as char;
        push_char(&mut s, c);
        s
    }
}

pub fn render_i64(i: i64) -> (r: String)
    ensures
        r@ == int_text(i as int),
{
    if i >= 0 {
        render_u64(i as u64)
    } else {
        let m: u64 = ((-(i + 1)) as u64) + 1;
        let mut s = String::new();
        push_char(&mut s, '-');
        let d = render_u64(m);
        let r = s.concat(d.as_str());
        proof {
            assert(r@ =~= int_text(i as int));
        }
        r
    }
}

/// Copies `v[from..to]` with surrounding whitespace removed.
pub fn trim_range(v: &Vec<char>, from: usize, to: usize) -> (r: String)
    requires
        from <= to <= v@.len(),
    ensures
        r@ == trim_seq(v@.subrange(from as int, to as int)),
{
    let ghost s = v@.subrange(from as int, to as int);
    let mut lo: usize = from;
    while lo < to && char_is_ws(v[lo])
        invariant
            from <= lo <= to <= v@.len(),
            s == v@.subrange(from as int, to as int),
            first_non_ws_from(s, 0) == first_non_ws_from(s, lo - from),
        decreases to - lo,
    {
        proof {
            assert(s[lo - from] == v@[lo as int]);
        }
        lo = lo + 1;
    }
    proof {
        if lo < to {
            assert(s[lo - from] == v@[lo as int]);
        }
        assert(first_non_ws_from(s, 0) == lo - from);
    }
    let mut hi: usize = to;
    while hi > lo && char_is_ws(v[hi - 1])
        invariant
            lo <= hi <= to <= v@.len(),
            from <= lo,
            s == v@.subrange(from as int, to as int),
            trim_hi_from(s, to - from) == trim_hi_from(s, hi - from),
        decreases hi,
    {
        proof {
            assert(s[hi - from - 1] == v@[hi - 1]);
        }
        hi = hi - 1;
    }
    proof {
        lemma_first_non_ws_from_bounds(s, 0);
        lemma_trim_hi_from_bounds(s, s.len() as int);
        if hi > lo {
            assert(s[hi - from - 1] == v@[hi - 1]);
            assert(trim_hi_from(s, hi - from) == hi - from);
        } else {
            lemma_trim_hi_from_bounds(s, hi - from);
        }
    }
    let r = chars_string(v, lo, hi);
    proof {
        if hi > lo {
            assert(s.subrange(lo - from, hi - from) =~= v@.subrange(lo as int, hi as int));
        } else {
            assert(v@.subrange(lo as int, hi as int) =~= Seq::<char>::empty());
        }
    }
    r
}

/// `l` with one trailing carriage return removed, as the line splitter does.
pub open spec fn strip_cr(l: Seq<char>) -> Seq<char> {
    if l.len() > 0 && l.last() == '\r' {
        l.drop_last()
    } else {
        l
    }
}

/// Joins the lines of `s` from position `i` on: each line is trimmed, and the
/// trimmed lines are joined with single spaces.
pub open spec fn tj(s: Seq<char>, i: int) -> Seq<char>
    decreases s.len() - i,
{
    if i < 0 || i > s.len() {
        Seq::empty()
    } else {
        let k0: int = first_at_from(s, i, '\n');
        let k: int = if k0 < i {
            i
        } else if k0 > s.len() {
            s.len() as int
        } else {
            k0
        };
        let line = trim_seq(strip_cr(s.subrange(i, k)));
        if k + 1 >= s.len() {
            line
        } else {
            line + seq![' '] + tj(s, k + 1)
        }
    }
}

/// Text content normalization: each line trimmed, lines joined with single
/// spaces, and a final line ending ignored.
pub open spec fn trim_join(s: Seq<char>) -> Seq<char> {
    tj(s, 0)
}

/// Normalizes a content run, mirroring [`trim_join`].
pub fn trim_join_text(v: &Vec<char>) -> (r: String)
    ensures
        r@ == trim_join(v@),
{
    let ghost s = v@;
    let n: usize = v.len();
    let mut out = String::new();
    let mut i: usize = 0;
    proof {
        assert(Seq::<char>::empty() + tj(s, 0) =~= tj(s, 0));
    }
    loop
        invariant
            n == s.len(),
            v@ == s,
            0 <= i <= n,
            trim_join(s) == out@ + tj(s, i as int),
        decreases n - i,
    {
        let ghost out0 = out@;
        // find the end of this line
        let mut k: usize = i;
        while k < n && v[k] != '\n'
            invariant
                n == s.len(),
                v@ == s,
                i <= k <= n,
                first_at_from(s, i as int, '\n') == first_at_from(s, k as int, '\n'),
            decreases n - k,
        {
            k = k + 1;
        }
        proof {
            assert(first_at_from(s, i as int, '\n') == k as int);
        }
        // drop one trailing carriage return
        let mut hi: usize = k;
        if hi > i && v[hi - 1] == '\r' {
            hi = hi - 1;
        }
        proof {
            assert(strip_cr(s.subrange(i as int, k as int)) =~= s.subrange(i as int, hi as int));
        }
        let line = trim_range(v, i, hi);
        out.append(line.as_str());
        if n - k <= 1 {
            proof {
                assert(out@ =~= out0 + tj(s, i as int));
            }
            return out;
        }
        push_char(&mut out, ' ');
        proof {
            assert(out@ + tj(s, k as int + 1) =~= out0 + tj(s, i as int));
        }
        i = k + 1;
    }
}


/// Whether `s` ends with `suf`.
pub open spec fn ends_with(s: Seq<char>, suf: Seq<char>) -> bool {
    s.len() >= suf.len() && s.subrange(s.len() - suf.len(), s.len() as int) == suf
}

/// Tests a suffix, mirroring [`ends_with`].
pub fn str_ends_with(s: &str, suf: &str) -> (r: bool)
    ensures
        r == ends_with(s@, suf@),
{
    let ns: usize = s.unicode_len();
    let nf: usize = suf.unicode_len();
    if ns < nf {
        return false;
    }
    let base: usize = ns - nf;
    let mut i: usize = 0;
    while i < nf
        invariant
            ns == s@.len(),
            nf == suf@.len(),
            nf <= ns,
            base == ns - nf,
            0 <= i <= nf,
            forall|k: int| 0 <= k < i ==> s@[base + k] == suf@[k],
        decreases nf - i,
    {
        if s.get_char(base + i) != suf.get_char(i) {
            proof {
                assert(s@.subrange(base as int, ns as int)[i as int] == s@[base + i]);
            }
            return false;
        }
        i = i + 1;
    }
    proof {
        assert(s@.subrange(base as int, ns as int) =~= suf@);
    }
    true
}


/// Scanning for whitespace commutes with dropping a prefix.
proof fn lemma_first_ws_shift(s: Seq<char>, d: int, i: int)
    requires
        0 <= d,
        0 <= i,
        d + i <= s.len(),
    ensures
        first_ws_from(s, d + i) == d + first_ws_from(s.skip(d), i),
    decreases s.len() - (d + i),
{
    let t = s.skip(d);
    if d + i < s.len() {
        assert(t[i] == s[d + i]);
        if !is_ws_char(s[d + i]) {
            lemma_first_ws_shift(s, d, i + 1);
        }
    }
}

/// The words from a position on are the words of the suffix there.
proof fn lemma_words_shift(s: Seq<char>, d: int)
    requires
        0 <= d <= s.len(),
    ensures
        words_from(s, d) == words(s.skip(d)),
    decreases s.len() - d,
{
    let t = s.skip(d);
    if d < s.len() {
        assert(t[0] == s[d]);
        if is_ws_char(s[d]) {
            lemma_words_shift(s, d + 1);
            assert(s.skip(d + 1) =~= t.skip(1));
            lemma_words_shift(t, 1);
            assert(words_from(s, d) == words_from(s, d + 1));
            assert(words(t) == words_from(t, 1));
        } else {
            let k: int = first_ws_from(s, d + 1);
            lemma_first_ws_from_bounds(s, d + 1);
            lemma_first_ws_shift(s, d, 1);
            assert(first_ws_from(t, 1) == k - d);
            lemma_first_ws_from_bounds(t, 1);
            assert(t.subrange(0, k - d) =~= s.subrange(d, k));
            lemma_words_shift(s, k);
            lemma_words_shift(t, k - d);
            assert(t.skip(k - d) =~= s.skip(k));
            assert(words_from(s, d) == words_word(s, d));
            assert(words(t) == words_word(t, 0));
            assert(words_word(s, d) == seq![s.subrange(d, k)] + words_from(s, k));
            assert(words_word(t, 0) == seq![t.subrange(0, k - d)] + words_from(t, k - d));
        }
    }
}

/// Whitespace alone contributes no words.
proof fn lemma_words_all_ws(s: Seq<char>, i: int)
    requires
        0 <= i <= s.len(),
        forall|x: int| i <= x < s.len() ==> is_ws_char(s[x]),
    ensures
        words_from(s, i) == Seq::<Seq<char>>::empty(),
    decreases s.len() - i,
{
    if i < s.len() {
        lemma_words_all_ws(s, i + 1);
    }
}

/// Skipping over whitespace does not change the words.
proof fn lemma_words_skip_ws(s: Seq<char>, i: int, j: int)
    requires
        0 <= i <= j <= s.len(),
        forall|x: int| i <= x < j ==> is_ws_char(s[x]),
    ensures
        words_from(s, i) == words_from(s, j),
    decreases j - i,
{
    if i < j {
        lemma_words_skip_ws(s, i + 1, j);
    }
}

/// Two texts agreeing up to a whitespace boundary scan for whitespace alike.
proof fn lemma_first_ws_prefix(c: Seq<char>, a: Seq<char>, i: int)
    requires
        0 <= i <= a.len(),
        a.len() < c.len(),
        forall|x: int| 0 <= x < a.len() ==> c[x] == a[x],
        is_ws_char(c[a.len() as int]),
    ensures
        first_ws_from(c, i) == first_ws_from(a, i),
    decreases a.len() - i,
{
    if i < a.len() {
        assert(c[i] == a[i]);
        if !is_ws_char(a[i]) {
            lemma_first_ws_prefix(c, a, i + 1);
        }
    }
}

/// A whitespace separator splits the words cleanly.
proof fn lemma_words_sep(a: Seq<char>, b: Seq<char>, w: char)
    requires
        is_ws_char(w),
    ensures
        words(a + seq![w] + b) == words(a) + words(b),
    decreases a.len(),
{
    let c = a + seq![w] + b;
    if a.len() == 0 {
        assert(c[0] == w);
        lemma_words_shift(c, 1);
        assert(c.skip(1) =~= b);
        assert(words(c) == words_from(c, 1));
        assert(words(a) + words(b) =~= words(b));
    } else {
        assert(c[0] == a[0]);
        if is_ws_char(a[0]) {
            lemma_words_shift(c, 1);
            assert(c.skip(1) =~= a.skip(1) + seq![w] + b);
            lemma_words_sep(a.skip(1), b, w);
            lemma_words_shift(a, 1);
            assert(words(c) == words_from(c, 1));
            assert(words(a) == words_from(a, 1));
        } else {
            assert(forall|x: int| 0 <= x < a.len() ==> c[x] == a[x]);
            assert(c[a.len() as int] == w);
            lemma_first_ws_prefix(c, a, 1);
            let k: int = first_ws_from(a, 1);
            lemma_first_ws_from_bounds(a, 1);
            assert(c.subrange(0, k) =~= a.subrange(0, k));
            lemma_words_shift(c, k);
            assert(c.skip(k) =~= a.skip(k) + seq![w] + b);
            lemma_words_sep(a.skip(k), b, w);
            lemma_words_shift(a, k);
            assert(words(c) == words_word(c, 0));
            assert(words(a) == words_word(a, 0));
            assert(words_word(c, 0) == seq![c.subrange(0, k)] + words_from(c, k));
            assert(words_word(a, 0) == seq![a.subrange(0, k)] + words_from(a, k));
            assert(words_from(c, k) == words(a.skip(k)) + words(b));
            assert(seq![a.subrange(0, k)] + (words(a.skip(k)) + words(b)) =~= (seq![
                a.subrange(0, k),
            ] + words(a.skip(k))) + words(b));
        }
    }
}

/// Trailing whitespace beyond `h` contributes no words.
proof fn lemma_words_drop_tail(s: Seq<char>, h: int, i: int)
    requires
        0 <= i <= h <= s.len(),
        forall|x: int| h <= x < s.len() ==> is_ws_char(s[x]),
    ensures
        words_from(s, i) == words_from(s.subrange(0, h), i),
    decreases h - i,
{
    let sub = s.subrange(0, h);
    if h == s.len() {
        assert(sub =~= s);
    } else if i == h {
        lemma_words_all_ws(s, h);
    } else {
        assert(sub[i] == s[i]);
        if is_ws_char(s[i]) {
            lemma_words_drop_tail(s, h, i + 1);
            assert(words_from(s, i) == words_from(s, i + 1));
            assert(words_from(sub, i) == words_from(sub, i + 1));
        } else {
            assert(forall|x: int| 0 <= x < sub.len() ==> s[x] == sub[x]);
            lemma_first_ws_prefix(s, sub, i + 1);
            let k: int = first_ws_from(sub, i + 1);
            lemma_first_ws_from_bounds(sub, i + 1);
            lemma_first_ws_from_bounds(s, i + 1);
            assert(s.subrange(i, k) =~= sub.subrange(i, k));
            assert(words_from(s, i) == words_word(s, i));
            assert(words_from(sub, i) == words_word(sub, i));
            assert(words_word(s, i) == seq![s.subrange(i, k)] + words_from(s, k));
            assert(words_word(sub, i) == seq![sub.subrange(i, k)] + words_from(sub, k));
            if k == h {
                lemma_words_all_ws(s, h);
                assert(words_from(sub, k) == Seq::<Seq<char>>::empty());
            } else {
                lemma_words_drop_tail(s, h, k);
            }
        }
    }
}

/// The characters a trim discards at the front are whitespace.
proof fn lemma_first_non_ws_all_ws(s: Seq<char>, i: int)
    requires
        0 <= i <= s.len(),
    ensures
        forall|x: int| i <= x < first_non_ws_from(s, i) ==> is_ws_char(s[x]),
    decreases s.len() - i,
{
    if i < s.len() && is_ws_char(s[i]) {
        lemma_first_non_ws_all_ws(s, i + 1);
    }
}

/// The characters a trim discards at the back are whitespace.
proof fn lemma_trim_hi_all_ws(s: Seq<char>, j: int)
    requires
        0 <= j <= s.len(),
    ensures
        forall|x: int| trim_hi_from(s, j) <= x < j ==> is_ws_char(s[x]),
    decreases j,
{
    if j > 0 && is_ws_char(s[j - 1]) {
        lemma_trim_hi_all_ws(s, j - 1);
    }
}

/// Trimming changes no words.
proof fn lemma_words_trim(l: Seq<char>)
    ensures
        words(trim_seq(l)) == words(l),
{
    let lo = first_non_ws_from(l, 0);
    let hi = trim_hi_from(l, l.len() as int);
    lemma_first_non_ws_from_bounds(l, 0);
    lemma_trim_hi_from_bounds(l, l.len() as int);
    lemma_first_non_ws_all_ws(l, 0);
    lemma_trim_hi_all_ws(l, l.len() as int);
    if lo >= hi {
        assert(forall|x: int| 0 <= x < l.len() ==> is_ws_char(l[x]));
        lemma_words_all_ws(l, 0);
        assert(words(trim_seq(l)) =~= Seq::<Seq<char>>::empty());
    } else {
        lemma_words_skip_ws(l, 0, lo);
        lemma_words_drop_tail(l, hi, lo);
        let sub = l.subrange(0, hi);
        lemma_words_shift(sub, lo);
        assert(sub.skip(lo) =~= l.subrange(lo, hi));
    }
}

/// Dropping one trailing carriage return changes no words.
proof fn lemma_words_strip_cr(l: Seq<char>)
    ensures
        words(strip_cr(l)) == words(l),
{
    if l.len() > 0 && l.last() == '\r' {
        lemma_words_drop_tail(l, l.len() - 1, 0);
        assert(strip_cr(l) =~= l.subrange(0, l.len() - 1));
    }
}

/// Joining from position `i` on preserves the remaining words.
proof fn lemma_tj_words(s: Seq<char>, i: int)
    requires
        0 <= i <= s.len(),
    ensures
        words(tj(s, i)) == words_from(s, i),
    decreases s.len() - i,
{
    let k: int = first_at_from(s, i, '\n');
    lemma_first_at_from_bounds(s, i, '\n');
    lemma_first_at_found(s, i, '\n');
    let raw = s.subrange(i, k);
    let line = trim_seq(strip_cr(raw));
    lemma_words_trim(strip_cr(raw));
    lemma_words_strip_cr(raw);
    if k + 1 >= s.len() {
        if k == s.len() {
            assert(raw =~= s.skip(i));
            lemma_words_shift(s, i);
        } else {
            assert(s[k] == '\n');
            lemma_words_drop_tail(s, k, i);
            let sub = s.subrange(0, k);
            lemma_words_shift(sub, i);
            assert(sub.skip(i) =~= raw);
        }
    } else {
        assert(s[k] == '\n');
        assert(tj(s, i) == line + seq![' '] + tj(s, k + 1));
        lemma_words_sep(line, tj(s, k + 1), ' ');
        lemma_tj_words(s, k + 1);
        lemma_words_shift(s, i);
        assert(s.skip(i) =~= raw + seq!['\n'] + s.skip(k + 1));
        lemma_words_sep(raw, s.skip(k + 1), '\n');
        lemma_words_shift(s, k + 1);
        assert(words(tj(s, i)) == words(line) + words(tj(s, k + 1)));
        assert(words_from(s, i) == words(raw) + words(s.skip(k + 1)));
    }
}

/// Text-content normalization preserves the word sequence: trimming each
/// line and joining the lines with single spaces changes only whitespace,
/// never the words or their order.
pub proof fn lemma_trim_join_preserves_words(s: Seq<char>)
    ensures
        words(trim_join(s)) == words(s),
{
    lemma_tj_words(s, 0);
}

} // verus!



