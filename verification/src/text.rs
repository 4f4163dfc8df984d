//! Character-level text operations that the template engine is built on:
//! substring search, global replacement, whitespace tokenizing and trimming.
//! Every executable function mirrors a spec function over `Seq<char>`.

use vstd::prelude::*;

verus! {

use vstd::string::StrSliceExecFns;
use vstd::string::StringExecFns;

/// Unicode whitespace, the separator class used when a tag is tokenized and
/// when text is trimmed: the characters carrying the White_Space property.
pub open spec fn spec_is_space(c: char) -> bool {
    ||| c == ' '
    ||| c == '\t'
    ||| c == '\n'
    ||| c == '\u{000B}'
    ||| c == '\u{000C}'
    ||| c == '\r'
    ||| c == '\u{0085}'
    ||| c == '\u{00A0}'
    ||| c == '\u{1680}'
    ||| ('\u{2000}' <= c && c <= '\u{200A}')
    ||| c == '\u{2028}'
    ||| c == '\u{2029}'
    ||| c == '\u{202F}'
    ||| c == '\u{205F}'
    ||| c == '\u{3000}'
}

/// Exec mirror of `spec_is_space`.
pub fn is_space(c: char) -> (r: bool)
    ensures
        r == spec_is_space(c),
{
    c == ' ' || c == '\t' || c == '\n' || c == '\u{000B}' || c == '\u{000C}' || c == '\r' || c
        == '\u{0085}' || c == '\u{00A0}' || c == '\u{1680}' || ('\u{2000}' <= c && c
        <= '\u{200A}') || c == '\u{2028}' || c == '\u{2029}' || c == '\u{202F}' || c
        == '\u{205F}' || c == '\u{3000}'
}

/// The pattern `pat` occurs in `s` starting at position `i`.
pub open spec fn match_at(s: Seq<char>, pat: Seq<char>, i: int) -> bool {
    0 <= i && i + pat.len() <= s.len() && s.subrange(i, i + pat.len()) == pat
}

/// Position of the first occurrence of `pat` in `s` at or after `from`.
pub open spec fn spec_find(s: Seq<char>, pat: Seq<char>, from: int) -> Option<int>
    decreases s.len() - from,
{
    if from < 0 {
        spec_find(s, pat, 0)
    } else if from + pat.len() > s.len() {
        None
    } else if pat.len() == 0 {
        Some(from)
    } else if match_at(s, pat, from) {
        Some(from)
    } else {
        spec_find(s, pat, from + 1)
    }
}

/// What a `Some` answer of `spec_find` means: a first match at or after `from`.
pub proof fn lemma_find_bounds(s: Seq<char>, pat: Seq<char>, from: int)
    requires
        0 <= from,
    ensures
        spec_find(s, pat, from) matches Some(i) ==> from <= i && match_at(s, pat, i)
            && forall|j: int| from <= j < i ==> !match_at(s, pat, j),
        spec_find(s, pat, from) is None ==> forall|j: int| from <= j ==> !match_at(s, pat, j),
    decreases s.len() - from,
{
    if from + pat.len() > s.len() {
    } else if pat.len() == 0 {
        assert(s.subrange(from, from) =~= pat);
    } else if match_at(s, pat, from) {
    } else {
        lemma_find_bounds(s, pat, from + 1);
    }
}

/// Exec test of `match_at`.
pub fn is_match_at(s: &str, pat: &str, i: usize) -> (r: bool)
    ensures
        r == match_at(s@, pat@, i as int),
{
    let sn = s.unicode_len();
    let pn = pat.unicode_len();
    if i > sn || pn > sn - i {
        assert(!match_at(s@, pat@, i as int));
        return false;
    }
    let mut j: usize = 0;
    while j < pn
        invariant
            i + pn <= sn,
            sn == s@.len(),
            pn == pat@.len(),
            j <= pn,
            forall|k: int| 0 <= k < j ==> s@[i + k] == pat@[k],
        decreases pn - j,
    {
        if s.get_char(i + j) != pat.get_char(j) {
            assert(s@[i + j] != pat@[j as int]);
            assert(!match_at(s@, pat@, i as int)) by {
                if s@.subrange(i as int, i + pat@.len()) == pat@ {
                    assert(s@.subrange(i as int, i + pat@.len())[j as int] == pat@[j as int]);
                }
            }
            return false;
        }
        j += 1;
    }
    assert(s@.subrange(i as int, i + pat@.len()) =~= pat@);
    true
}

/// Exec mirror of `spec_find`.
pub fn find_from(s: &str, pat: &str, from: usize) -> (r: Option<usize>)
    ensures
        match r {
            Some(i) => spec_find(s@, pat@, from as int) == Some(i as int),
            None => spec_find(s@, pat@, from as int) is None,
        },
{
    let sn = s.unicode_len();
    let pn = pat.unicode_len();
    if pn == 0 {
        if from > sn {
            return None;
        }
        return Some(from);
    }
    if from > sn {
        return None;
    }
    let mut i: usize = from;
    loop
        invariant
            sn == s@.len(),
            pn == pat@.len(),
            pn >= 1,
            from <= i <= sn,
            spec_find(s@, pat@, from as int) == spec_find(s@, pat@, i as int),
        decreases sn - i,
    {
        if pn > sn - i {
            assert(spec_find(s@, pat@, i as int) is None);
            return None;
        }
        if is_match_at(s, pat, i) {
            assert(spec_find(s@, pat@, i as int) == Some(i as int));
            return Some(i);
        }
        assert(spec_find(s@, pat@, i as int) == spec_find(s@, pat@, i + 1));
        i += 1;
    }
}

/// `s` with every occurrence of `pat` replaced by `val`, scanning left to
/// right over non-overlapping occurrences, as `str::replace` does. An empty
/// pattern leaves the text unchanged.
pub open spec fn spec_replace(s: Seq<char>, pat: Seq<char>, val: Seq<char>) -> Seq<char>
    decreases s.len(),
{
    if pat.len() == 0 {
        s
    } else {
        match spec_find(s, pat, 0) {
            None => s,
            Some(i) => {
                proof {
                    lemma_find_bounds(s, pat, 0);
                }
                s.subrange(0, i) + val + spec_replace(
                    s.subrange(i + pat.len(), s.len() as int),
                    pat,
                    val,
                )
            },
        }
    }
}

/// Exec mirror of `spec_replace`.
pub fn replace_all(s: &str, pat: &str, val: &str) -> (r: String)
    ensures
        r@ == spec_replace(s@, pat@, val@),
    decreases s@.len(),
{
    let sn = s.unicode_len();
    let pn = pat.unicode_len();
    if pn == 0 {
        return String::from_str(s);
    }
    match find_from(s, pat, 0) {
        None => String::from_str(s),
        Some(i) => {
            proof {
                lemma_find_bounds(s@, pat@, 0);
            }
            let mut out = String::from_str(s.substring_char(0, i));
            out.append(val);
            let rest = replace_all(s.substring_char(i + pn, sn), pat, val);
            out.append(rest.as_str());
            out
        },
    }
}

/// Length of the leading run of non-space characters.
pub open spec fn spec_word_len(s: Seq<char>) -> nat
    decreases s.len(),
{
    if s.len() == 0 || spec_is_space(s[0]) {
        0
    } else {
        1 + spec_word_len(s.drop_first())
    }
}

pub proof fn lemma_word_len(s: Seq<char>)
    ensures
        spec_word_len(s) <= s.len(),
        forall|k: int| 0 <= k < spec_word_len(s) ==> !spec_is_space(s[k]),
        spec_word_len(s) < s.len() ==> spec_is_space(s[spec_word_len(s) as int]),
    decreases s.len(),
{
    if s.len() == 0 || spec_is_space(s[0]) {
    } else {
        lemma_word_len(s.drop_first());
        assert forall|k: int| 0 <= k < spec_word_len(s) implies !spec_is_space(s[k]) by {
            if k > 0 {
                assert(s.drop_first()[k - 1] == s[k]);
            }
        }
        if spec_word_len(s) < s.len() {
            assert(s.drop_first()[spec_word_len(s.drop_first()) as int]
                == s[spec_word_len(s) as int]);
        }
    }
}

/// The whitespace-separated tokens of `s`, in order, each non-empty.
pub open spec fn spec_tokens(s: Seq<char>) -> Seq<Seq<char>>
    decreases s.len(),
{
    if s.len() == 0 {
        Seq::empty()
    } else if spec_is_space(s[0]) {
        spec_tokens(s.drop_first())
    } else {
        proof {
            lemma_word_len(s);
        }
        let w = spec_word_len(s) as int;
        seq![s.subrange(0, w)] + spec_tokens(s.subrange(w, s.len() as int))
    }
}

/// Exec mirror of `spec_word_len`.
fn word_len(s: &str) -> (r: usize)
    ensures
        r == spec_word_len(s@),
{
    let n = s.unicode_len();
    let mut i: usize = 0;
    assert(s@.subrange(0, n as int) =~= s@);
    loop
        invariant
            n == s@.len(),
            i <= n,
            spec_word_len(s@) == i + spec_word_len(s@.subrange(i as int, n as int)),
        decreases n - i,
    {
        let ghost tail = s@.subrange(i as int, n as int);
        if i == n {
            return i;
        }
        let c = s.get_char(i);
        assert(tail[0] == s@[i as int]);
        if is_space(c) {
            assert(spec_word_len(tail) == 0);
            return i;
        }
        assert(spec_word_len(tail) == 1 + spec_word_len(tail.drop_first()));
        assert(tail.drop_first() =~= s@.subrange(i + 1, n as int));
        i += 1;
    }
}

/// Exec mirror of `spec_tokens`.
pub fn tokens(s: &str) -> (r: Vec<String>)
    ensures
        r.deep_view() == spec_tokens(s@),
{
    let mut acc: Vec<String> = Vec::new();
    assert(acc.deep_view() =~= Seq::<Seq<char>>::empty());
    tokens_into(s, &mut acc);
    assert(Seq::<Seq<char>>::empty() + spec_tokens(s@) =~= spec_tokens(s@));
    acc
}

/// Appends the tokens of `s` to `acc`.
fn tokens_into(s: &str, acc: &mut Vec<String>)
    ensures
        final(acc).deep_view() == old(acc).deep_view() + spec_tokens(s@),
    decreases s@.len(),
{
    let n = s.unicode_len();
    if n == 0 {
        assert(old(acc).deep_view() + spec_tokens(s@) =~= old(acc).deep_view());
        return ;
    }
    let c = s.get_char(0);
    if is_space(c) {
        let rest = s.substring_char(1, n);
        assert(rest@ =~= s@.drop_first());
        tokens_into(rest, acc);
        return ;
    }
    let w = word_len(s);
    proof {
        lemma_word_len(s@);
    }
    let word = String::from_str(s.substring_char(0, w));
    let ghost gw = word@;
    acc.push(word);
    assert(acc.deep_view() =~= old(acc).deep_view().push(gw));
    let rest = s.substring_char(w, n);
    tokens_into(rest, acc);
    assert(acc.deep_view() =~= old(acc).deep_view() + spec_tokens(s@));
}

/// `s` without leading whitespace.
pub open spec fn spec_trim_start(s: Seq<char>) -> Seq<char>
    decreases s.len(),
{
    if s.len() > 0 && spec_is_space(s[0]) {
        spec_trim_start(s.drop_first())
    } else {
        s
    }
}

/// `s` without trailing whitespace.
pub open spec fn spec_trim_end(s: Seq<char>) -> Seq<char>
    decreases s.len(),
{
    if s.len() > 0 && spec_is_space(s[s.len() - 1]) {
        spec_trim_end(s.drop_last())
    } else {
        s
    }
}

/// `s` without leading or trailing whitespace.
pub open spec fn spec_trim(s: Seq<char>) -> Seq<char> {
    spec_trim_end(spec_trim_start(s))
}

fn trim_start_exec(s: &str) -> (r: String)
    ensures
        r@ == spec_trim_start(s@),
    decreases s@.len(),
{
    let n = s.unicode_len();
    if n > 0 {
        let c = s.get_char(0);
        if is_space(c) {
            let rest = s.substring_char(1, n);
            assert(rest@ =~= s@.drop_first());
            return trim_start_exec(rest);
        }
    }
    String::from_str(s)
}

fn trim_end_exec(s: &str) -> (r: String)
    ensures
        r@ == spec_trim_end(s@),
    decreases s@.len(),
{
    let n = s.unicode_len();
    if n > 0 {
        let c = s.get_char(n - 1);
        if is_space(c) {
            let rest = s.substring_char(0, n - 1);
            assert(rest@ =~= s@.drop_last());
            return trim_end_exec(rest);
        }
    }
    String::from_str(s)
}

/// Exec mirror of `spec_trim`.
pub fn trim(s: &str) -> (r: String)
    ensures
        r@ == spec_trim(s@),
{
    let t = trim_start_exec(s);
    trim_end_exec(t.as_str())
}


/// `s` without trailing `c` characters.
pub open spec fn spec_trim_end_char(s: Seq<char>, c: char) -> Seq<char>
    decreases s.len(),
{
    if s.len() > 0 && s[s.len() - 1] == c {
        spec_trim_end_char(s.drop_last(), c)
    } else {
        s
    }
}

/// `s` without leading `c` characters.
pub open spec fn spec_trim_start_char(s: Seq<char>, c: char) -> Seq<char>
    decreases s.len(),
{
    if s.len() > 0 && s[0] == c {
        spec_trim_start_char(s.drop_first(), c)
    } else {
        s
    }
}

/// Exec mirror of `spec_trim_end_char`.
pub fn trim_end_char(s: &str, c: char) -> (r: String)
    ensures
        r@ == spec_trim_end_char(s@, c),
    decreases s@.len(),
{
    let n = s.unicode_len();
    if n > 0 && s.get_char(n - 1) == c {
        let rest = s.substring_char(0, n - 1);
        assert(rest@ =~= s@.drop_last());
        return trim_end_char(rest, c);
    }
    String::from_str(s)
}

/// Exec mirror of `spec_trim_start_char`.
pub fn trim_start_char(s: &str, c: char) -> (r: String)
    ensures
        r@ == spec_trim_start_char(s@, c),
    decreases s@.len(),
{
    let n = s.unicode_len();
    if n > 0 && s.get_char(0) == c {
        let rest = s.substring_char(1, n);
        assert(rest@ =~= s@.drop_first());
        return trim_start_char(rest, c);
    }
    String::from_str(s)
}


/// The decimal digit character of `d` (for `d` up to nine).
pub open spec fn spec_digit(d: nat) -> char {
    if d == 0 {
        '0'
    } else if d == 1 {
        '1'
    } else if d == 2 {
        '2'
    } else if d == 3 {
        '3'
    } else if d == 4 {
        '4'
    } else if d == 5 {
        '5'
    } else if d == 6 {
        '6'
    } else if d == 7 {
        '7'
    } else if d == 8 {
        '8'
    } else {
        '9'
    }
}

/// The decimal spelling of a number.
pub open spec fn spec_dec(n: nat) -> Seq<char>
    decreases n,
{
    if n < 10 {
        seq![spec_digit(n)]
    } else {
        spec_dec(n / 10) + seq![spec_digit(n % 10)]
    }
}

/// One decimal digit as text.
pub fn digit_str(d: u32) -> (r: &'static str)
    requires
        d < 10,
    ensures
        r@ == seq![spec_digit(d as nat)],
{
    proof {
        reveal_strlit("0");
        reveal_strlit("1");
        reveal_strlit("2");
        reveal_strlit("3");
        reveal_strlit("4");
        reveal_strlit("5");
        reveal_strlit("6");
        reveal_strlit("7");
        reveal_strlit("8");
        reveal_strlit("9");
    }
    let r = match d {
        0 => "0",
        1 => "1",
        2 => "2",
        3 => "3",
        4 => "4",
        5 => "5",
        6 => "6",
        7 => "7",
        8 => "8",
        _ => "9",
    };
    assert(r@ =~= seq![spec_digit(d as nat)]);
    r
}

/// Exec mirror of `spec_dec`.
pub fn u32_to_string(n: u32) -> (r: String)
    ensures
        r@ == spec_dec(n as nat),
    decreases n,
{
    if n < 10 {
        String::from_str(digit_str(n))
    } else {
        let mut r = u32_to_string(n / 10);
        r.append(digit_str(n % 10));
        r
    }
}


/// Strict lexicographic order on texts, by character code points.
pub open spec fn spec_str_lt(a: Seq<char>, b: Seq<char>) -> bool
    decreases a.len(),
{
    if b.len() == 0 {
        false
    } else if a.len() == 0 {
        true
    } else if a[0] < b[0] {
        true
    } else if b[0] < a[0] {
        false
    } else {
        spec_str_lt(a.drop_first(), b.drop_first())
    }
}

/// Exec mirror of `spec_str_lt`.
pub fn str_lt(a: &str, b: &str) -> (r: bool)
    ensures
        r == spec_str_lt(a@, b@),
    decreases a@.len(),
{
    let an = a.unicode_len();
    let bn = b.unicode_len();
    if bn == 0 {
        return false;
    }
    if an == 0 {
        return true;
    }
    let ca = a.get_char(0);
    let cb = b.get_char(0);
    if ca < cb {
        return true;
    }
    if cb < ca {
        return false;
    }
    let ra = a.substring_char(1, an);
    let rb = b.substring_char(1, bn);
    assert(ra@ =~= a@.drop_first());
    assert(rb@ =~= b@.drop_first());
    str_lt(ra, rb)
}

} // verus!



