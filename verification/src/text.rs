//! Verified text helpers shared by the ledger, the profile store and the
//! version-control output parser: trimming, line splitting, whitespace
//! tokenizing and joining.

use vstd::prelude::*;

verus! {

/// ASCII whitespace, the characters that trimming and tokenizing strip.
pub open spec fn is_space(c: char) -> bool {
    c == ' ' || c == '\t' || c == '\n' || c == '\r' || c == '\u{0b}' || c == '\u{0c}'
}

fn space_char(c: char) -> (r: bool)
    ensures
        r == is_space(c),
{
    c == ' ' || c == '\t' || c == '\n' || c == '\r' || c == '\u{0b}' || c == '\u{0c}'
}

/// `s` without its leading whitespace.
pub open spec fn trim_front(s: Seq<char>) -> Seq<char>
    decreases s.len(),
{
    if s.len() > 0 && is_space(s[0]) {
        trim_front(s.drop_first())
    } else {
        s
    }
}

/// `s` without its trailing whitespace.
pub open spec fn trim_back(s: Seq<char>) -> Seq<char>
    decreases s.len(),
{
    if s.len() > 0 && is_space(s.last()) {
        trim_back(s.drop_last())
    } else {
        s
    }
}

/// `s` without leading and trailing whitespace.
pub open spec fn spec_trim(s: Seq<char>) -> Seq<char> {
    trim_back(trim_front(s))
}

proof fn lemma_trim_front_skip(s: Seq<char>, i: int)
    requires
        0 <= i <= s.len(),
        forall|k: int| 0 <= k < i ==> is_space(s[k]),
        i == s.len() || !is_space(s[i]),
    ensures
        trim_front(s) == s.skip(i),
    decreases i,
{
    if i == 0 {
        assert(s.skip(0) =~= s);
    } else {
        assert(s.drop_first() =~= s.skip(1));
        lemma_trim_front_skip(s.skip(1), i - 1);
        assert(s.skip(1).skip(i - 1) =~= s.skip(i));
    }
}

proof fn lemma_trim_back_take(s: Seq<char>, j: int)
    requires
        0 <= j <= s.len(),
        forall|k: int| j <= k < s.len() ==> is_space(s[k]),
        j == 0 || !is_space(s[j - 1]),
    ensures
        trim_back(s) == s.take(j),
    decreases s.len(),
{
    if j == s.len() {
        assert(s.take(j) =~= s);
    } else {
        assert(is_space(s.last()));
        assert(s.drop_last() =~= s.take(s.len() - 1));
        lemma_trim_back_take(s.take(s.len() - 1), j);
        assert(s.take(s.len() - 1).take(j) =~= s.take(j));
    }
}

/// Trim leading and trailing whitespace from a string.
pub fn trim(s: &str) -> (r: &str)
    ensures
        r@ == spec_trim(s@),
{
    let n = s.unicode_len();
    let mut i: usize = 0;
    while i < n && space_char(s.get_char(i))
        invariant
            0 <= i <= n,
            n == s@.len(),
            forall|k: int| 0 <= k < i ==> is_space(s@[k]),
        decreases n - i,
    {
        i = i + 1;
    }
    proof {
        lemma_trim_front_skip(s@, i as int);
    }
    if i == n {
        let r = s.substring_char(n, n);
        proof {
            assert(s@.skip(n as int) =~= s@.subrange(n as int, n as int));
            assert(trim_back(trim_front(s@)) =~= s@.subrange(n as int, n as int));
        }
        return r;
    }
    let mut j: usize = n;
    while j > i && space_char(s.get_char(j - 1))
        invariant
            i <= j <= n,
            n == s@.len(),
            i < n,
            !is_space(s@[i as int]),
            forall|k: int| j <= k < n ==> is_space(s@[k]),
        decreases j,
    {
        j = j - 1;
    }
    let r = s.substring_char(i, j);
    proof {
        let t = s@.skip(i as int);
        assert(forall|k: int| j - i <= k < t.len() ==> is_space(#[trigger] t[k]));
        assert(!is_space(t[(j - i - 1) as int]));
        lemma_trim_back_take(t, j - i);
        assert(t.take(j - i) =~= s@.subrange(i as int, j as int));
    }
    r
}

/// Whether two strings hold the same characters.
pub fn str_eq(a: &str, b: &str) -> (r: bool)
    ensures
        r == (a@ == b@),
{
    a.to_owned().eq(&b.to_owned())
}

/// Index of the first occurrence of `sep` in `s`, or `s.len()` if absent.
pub open spec fn sep_idx(s: Seq<char>, sep: char) -> int
    decreases s.len(),
{
    if s.len() == 0 {
        0
    } else if s[0] == sep {
        0
    } else {
        1 + sep_idx(s.drop_first(), sep)
    }
}

pub proof fn lemma_sep_idx_bounds(s: Seq<char>, sep: char)
    ensures
        0 <= sep_idx(s, sep) <= s.len(),
        forall|k: int| 0 <= k < sep_idx(s, sep) ==> s[k] != sep,
        sep_idx(s, sep) < s.len() ==> s[sep_idx(s, sep)] == sep,
    decreases s.len(),
{
    if s.len() > 0 && s[0] != sep {
        lemma_sep_idx_bounds(s.drop_first(), sep);
        assert(forall|k: int| 1 <= k < sep_idx(s, sep) ==> s[k] == s.drop_first()[k - 1]);
    }
}

pub proof fn lemma_sep_idx_is(s: Seq<char>, sep: char, i: int)
    requires
        0 <= i <= s.len(),
        forall|k: int| 0 <= k < i ==> s[k] != sep,
        i == s.len() || s[i] == sep,
    ensures
        sep_idx(s, sep) == i,
    decreases i,
{
    if i > 0 {
        lemma_sep_idx_is(s.drop_first(), sep, i - 1);
    }
}


/// Length of the maximal leading run of non-whitespace characters.
pub open spec fn token_len(s: Seq<char>) -> int
    decreases s.len(),
{
    if s.len() == 0 || is_space(s[0]) {
        0
    } else {
        1 + token_len(s.drop_first())
    }
}

pub proof fn lemma_token_len_bounds(s: Seq<char>)
    ensures
        0 <= token_len(s) <= s.len(),
        forall|k: int| 0 <= k < token_len(s) ==> !is_space(s[k]),
        token_len(s) < s.len() ==> is_space(s[token_len(s)]),
    decreases s.len(),
{
    if s.len() > 0 && !is_space(s[0]) {
        lemma_token_len_bounds(s.drop_first());
        assert(forall|k: int| 1 <= k < token_len(s) ==> s[k] == s.drop_first()[k - 1]);
    }
}

pub proof fn lemma_token_len_is(s: Seq<char>, j: int)
    requires
        0 <= j <= s.len(),
        forall|k: int| 0 <= k < j ==> !is_space(s[k]),
        j == s.len() || is_space(s[j]),
    ensures
        token_len(s) == j,
    decreases j,
{
    if j > 0 {
        lemma_token_len_is(s.drop_first(), j - 1);
    }
}

/// The whitespace-separated tokens of `s`, in order.
pub open spec fn spec_tokens(s: Seq<char>) -> Seq<Seq<char>>
    decreases s.len(),
    via spec_tokens_decreases
{
    if s.len() == 0 {
        Seq::empty()
    } else if is_space(s[0]) {
        spec_tokens(s.drop_first())
    } else {
        seq![s.take(token_len(s))] + spec_tokens(s.skip(token_len(s)))
    }
}

#[via_fn]
proof fn spec_tokens_decreases(s: Seq<char>) {
    lemma_token_len_bounds(s);
}

pub proof fn lemma_tokens_skip_spaces(s: Seq<char>, i: int)
    requires
        0 <= i <= s.len(),
        forall|k: int| 0 <= k < i ==> is_space(s[k]),
    ensures
        spec_tokens(s) == spec_tokens(s.skip(i)),
    decreases i,
{
    if i == 0 {
        assert(s.skip(0) =~= s);
    } else {
        assert(s.drop_first() =~= s.skip(1));
        lemma_tokens_skip_spaces(s.skip(1), i - 1);
        assert(s.skip(1).skip(i - 1) =~= s.skip(i));
    }
}

/// The first two whitespace-separated tokens of `s`, when it has at least
/// two.
pub fn first_two_tokens(s: &str) -> (r: Option<(String, String)>)
    ensures
        r is Some <==> spec_tokens(s@).len() >= 2,
        r matches Some((a, b)) ==> a@ == spec_tokens(s@)[0] && b@ == spec_tokens(s@)[1],
{
    let n = s.unicode_len();
    let mut i0: usize = 0;
    while i0 < n && space_char(s.get_char(i0))
        invariant
            0 <= i0 <= n,
            n == s@.len(),
            forall|k: int| 0 <= k < i0 ==> is_space(s@[k]),
        decreases n - i0,
    {
        i0 = i0 + 1;
    }
    proof {
        lemma_tokens_skip_spaces(s@, i0 as int);
    }
    if i0 == n {
        proof {
            assert(s@.skip(n as int) =~= Seq::<char>::empty());
        }
        return None;
    }
    let mut i1: usize = i0;
    while i1 < n && !space_char(s.get_char(i1))
        invariant
            i0 <= i1 <= n,
            n == s@.len(),
            forall|k: int| i0 <= k < i1 ==> !is_space(s@[k]),
        decreases n - i1,
    {
        i1 = i1 + 1;
    }
    let ghost tail0 = s@.skip(i0 as int);
    proof {
        assert(forall|k: int| 0 <= k < i1 - i0 ==> tail0[k] == s@[k + i0]);
        lemma_token_len_is(tail0, i1 - i0);
        assert(!is_space(tail0[0]));
        assert(tail0.take(i1 - i0) =~= s@.subrange(i0 as int, i1 as int));
        assert(tail0.skip(i1 - i0) =~= s@.skip(i1 as int));
    }
    let tok1 = s.substring_char(i0, i1);
    let mut i2: usize = i1;
    while i2 < n && space_char(s.get_char(i2))
        invariant
            i1 <= i2 <= n,
            n == s@.len(),
            forall|k: int| i1 <= k < i2 ==> is_space(s@[k]),
        decreases n - i2,
    {
        i2 = i2 + 1;
    }
    let ghost tail1 = s@.skip(i1 as int);
    proof {
        assert(forall|k: int| 0 <= k < i2 - i1 ==> tail1[k] == s@[k + i1]);
        lemma_tokens_skip_spaces(tail1, i2 - i1);
        assert(tail1.skip(i2 - i1) =~= s@.skip(i2 as int));
    }
    if i2 == n {
        proof {
            assert(s@.skip(n as int) =~= Seq::<char>::empty());
            assert(spec_tokens(s@) =~= seq![s@.subrange(i0 as int, i1 as int)]);
        }
        return None;
    }
    let mut i3: usize = i2;
    while i3 < n && !space_char(s.get_char(i3))
        invariant
            i2 <= i3 <= n,
            n == s@.len(),
            forall|k: int| i2 <= k < i3 ==> !is_space(s@[k]),
        decreases n - i3,
    {
        i3 = i3 + 1;
    }
    let ghost tail2 = s@.skip(i2 as int);
    proof {
        assert(forall|k: int| 0 <= k < i3 - i2 ==> tail2[k] == s@[k + i2]);
        lemma_token_len_is(tail2, i3 - i2);
        assert(!is_space(tail2[0]));
        assert(tail2.take(i3 - i2) =~= s@.subrange(i2 as int, i3 as int));
        assert(spec_tokens(s@) =~= seq![s@.subrange(i0 as int, i1 as int)] + (seq![
            s@.subrange(i2 as int, i3 as int),
        ] + spec_tokens(tail2.skip(i3 - i2))));
        assert(spec_tokens(s@)[0] == s@.subrange(i0 as int, i1 as int));
        assert(spec_tokens(s@)[1] == s@.subrange(i2 as int, i3 as int));
    }
    let tok2 = s.substring_char(i2, i3);
    Some((tok1.to_owned(), tok2.to_owned()))
}

/// `parts` joined by `sep`.
pub open spec fn spec_join(parts: Seq<Seq<char>>, sep: Seq<char>) -> Seq<char>
    decreases parts.len(),
{
    if parts.len() == 0 {
        Seq::empty()
    } else if parts.len() == 1 {
        parts[0]
    } else {
        spec_join(parts.drop_last(), sep) + sep + parts.last()
    }
}

/// Join strings with a separator.
pub fn join_strings(parts: &Vec<String>, sep: &str) -> (r: String)
    ensures
        r@ == spec_join(parts.deep_view(), sep@),
{
    let mut out = String::new();
    let n = parts.len();
    let mut i: usize = 0;
    proof {
        assert(out@ =~= spec_join(parts.deep_view().take(0), sep@));
    }
    while i < n
        invariant
            0 <= i <= n,
            n == parts@.len(),
            out@ == spec_join(parts.deep_view().take(i as int), sep@),
        decreases n - i,
    {
        if i > 0 {
            out.append(sep);
        }
        out.append(parts[i].as_str());
        proof {
            let dv = parts.deep_view();
            assert(dv.take(i + 1).drop_last() =~= dv.take(i as int));
            assert(dv.take(i + 1).last() == dv[i as int]);
            if i == 0 {
                assert(out@ =~= spec_join(dv.take(1), sep@));
            } else {
                assert(out@ =~= spec_join(dv.take(i + 1), sep@));
            }
        }
        i = i + 1;
    }
    proof {
        assert(parts.deep_view().take(n as int) =~= parts.deep_view());
    }
    out
}

/// A line with a trailing carriage return stripped.
pub open spec fn spec_strip_cr(l: Seq<char>) -> Seq<char> {
    if l.len() > 0 && l.last() == '\r' {
        l.drop_last()
    } else {
        l
    }
}

/// The lines of `s`: split at each newline, a trailing carriage return
/// stripped from each line, and no final empty line for text that ends with
/// a newline.
pub open spec fn spec_lines(s: Seq<char>) -> Seq<Seq<char>>
    decreases s.len(),
    via spec_lines_decreases
{
    if s.len() == 0 {
        Seq::empty()
    } else {
        let i = sep_idx(s, '\n');
        if i == s.len() {
            seq![spec_strip_cr(s)]
        } else {
            seq![spec_strip_cr(s.take(i))] + spec_lines(s.skip(i + 1))
        }
    }
}

#[via_fn]
proof fn spec_lines_decreases(s: Seq<char>) {
    lemma_sep_idx_bounds(s, '\n');
}

/// Split text into its lines.
pub fn lines_of(s: &str) -> (r: Vec<String>)
    ensures
        r.deep_view() == spec_lines(s@),
{
    let mut out: Vec<String> = Vec::new();
    let mut rest: &str = s;
    proof {
        assert(out.deep_view() + spec_lines(rest@) =~= spec_lines(s@));
    }
    loop
        invariant_except_break
            out.deep_view() + spec_lines(rest@) =~= spec_lines(s@),
        ensures
            out.deep_view() =~= spec_lines(s@),
        decreases rest@.len(),
    {
        let ghost lines_before = out.deep_view();
        let n = rest.unicode_len();
        if n == 0 {
            break;
        }
        let mut i: usize = 0;
        while i < n && rest.get_char(i) != '\n'
            invariant
                0 <= i <= n,
                n == rest@.len(),
                forall|k: int| 0 <= k < i ==> rest@[k] != '\n',
            decreases n - i,
        {
            i = i + 1;
        }
        proof {
            lemma_sep_idx_is(rest@, '\n', i as int);
        }
        let line_end = if i > 0 && rest.get_char(i - 1) == '\r' {
            i - 1
        } else {
            i
        };
        let piece = rest.substring_char(0, line_end);
        proof {
            if i == n {
                assert(piece@ =~= spec_strip_cr(rest@));
            } else {
                assert(piece@ =~= spec_strip_cr(rest@.take(i as int)));
            }
        }
        out.push(piece.to_owned());
        proof {
            assert(out.deep_view() =~= lines_before.push(piece@));
        }
        if i == n {
            proof {
                assert(out.deep_view() =~= spec_lines(s@));
            }
            break;
        }
        let next = rest.substring_char(i + 1, n);
        proof {
            assert(next@ =~= rest@.skip(i + 1));
            assert(out.deep_view() + spec_lines(next@) =~= spec_lines(s@));
        }
        rest = next;
    }
    out
}

} // verus!
