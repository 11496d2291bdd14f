//! Structure normalization of source text: comments stripped, whitespace
//! collapsed, string and number literals replaced by placeholders. Two
//! bodies with the same normalized text have the same structure hash.
use vstd::prelude::*;
use crate::text::{
    occurs_at, split, join, split_on, join_chars, occurs_at_exec, slice_chars, extend_chars,
    lemma_split_from_nonempty,
};

verus! {

/// `c` is white space in Unicode's sense (`char::is_whitespace`).
pub open spec fn is_ws(c: char) -> bool {
    c == '\t' || c == '\n' || c == '\u{0B}' || c == '\u{0C}' || c == '\r' || c == ' '
        || c == '\u{85}' || c == '\u{A0}' || c == '\u{1680}'
        || ('\u{2000}' <= c && c <= '\u{200A}') || c == '\u{2028}' || c == '\u{2029}'
        || c == '\u{202F}' || c == '\u{205F}' || c == '\u{3000}'
}

/// `c` is one of the ASCII digits `0`..`9`.
pub open spec fn is_digit(c: char) -> bool {
    '0' <= c && c <= '9'
}

/// A line without the `'\r'` that may end it.
pub open spec fn strip_cr(line: Seq<char>) -> Seq<char> {
    if line.len() > 0 && line.last() == '\r' {
        line.drop_last()
    } else {
        line
    }
}

/// The lines of `s` as `str::lines` yields them: split on `'\n'`, a final
/// empty line after a trailing newline not counted, a trailing `'\r'`
/// dropped from each line.
pub open spec fn lines(s: Seq<char>) -> Seq<Seq<char>> {
    let parts = split(s, seq!['\n']);
    let kept = if s.len() == 0 {
        Seq::empty()
    } else if parts.last().len() == 0 {
        parts.drop_last()
    } else {
        parts
    };
    kept.map_values(|l: Seq<char>| strip_cr(l))
}

/// A line up to (not including) its first `//`.
pub open spec fn cut_line_comment(line: Seq<char>) -> Seq<char> {
    split(line, seq!['/', '/'])[0]
}

/// Every line of `s` cut at its line comment, the lines joined by spaces.
pub open spec fn strip_line_comments(s: Seq<char>) -> Seq<char> {
    join(lines(s).map_values(|l: Seq<char>| cut_line_comment(l)), seq![' '])
}

/// The index of the first occurrence of `pat` in `s` at or after `from`.
pub open spec fn find_from(s: Seq<char>, pat: Seq<char>, from: int) -> Option<int>
    decreases s.len() - from,
{
    if from < 0 || from >= s.len() || from + pat.len() > s.len() {
        None
    } else if occurs_at(s, from, pat) {
        Some(from)
    } else {
        find_from(s, pat, from + 1)
    }
}

/// `s` with its block comments removed, one at a time from the left: the
/// first `/*` and the first `*/` found from it (the two may share the `*`)
/// are cut out together with what lies between; an unclosed `/*` stays.
pub open spec fn strip_block_comments(s: Seq<char>) -> Seq<char>
    decreases s.len(),
{
    match find_from(s, seq!['/', '*'], 0) {
        None => s,
        Some(a) => match find_from(s, seq!['*', '/'], a) {
            None => s,
            Some(b) => {
                if 0 <= a <= b && b + 2 <= s.len() {
                    strip_block_comments(s.subrange(0, a) + s.subrange(b + 2, s.len() as int))
                } else {
                    s
                }
            },
        },
    }
}

/// The maximal runs of non-white-space chars of `s[i..]`, `cur` being the
/// run in progress.
pub open spec fn words_from(s: Seq<char>, i: int, cur: Seq<char>) -> Seq<Seq<char>>
    decreases s.len() - i,
{
    if i < 0 || i >= s.len() {
        if cur.len() > 0 {
            seq![cur]
        } else {
            Seq::empty()
        }
    } else if is_ws(s[i]) {
        (if cur.len() > 0 {
            seq![cur]
        } else {
            Seq::empty()
        }) + words_from(s, i + 1, Seq::empty())
    } else {
        words_from(s, i + 1, cur.push(s[i]))
    }
}

/// The words of `s` joined by single spaces (`split_whitespace` then join).
pub open spec fn collapse_whitespace(s: Seq<char>) -> Seq<char> {
    join(words_from(s, 0, Seq::empty()), seq![' '])
}

/// The index right after the string literal whose body starts at `j`: after
/// its closing quote, a backslash escaping the char after it.
pub open spec fn skip_string(s: Seq<char>, j: int) -> int
    decreases s.len() - j,
{
    if j < 0 || j >= s.len() {
        s.len() as int
    } else if s[j] == '"' {
        j + 1
    } else if s[j] == '\\' {
        if j + 2 >= s.len() {
            s.len() as int
        } else {
            skip_string(s, j + 2)
        }
    } else {
        skip_string(s, j + 1)
    }
}

/// The placeholder that stands for a string literal.
pub open spec fn str_placeholder() -> Seq<char> {
    seq!['"', '$', 'S', 'T', 'R', '"']
}

/// The placeholder that stands for a number literal.
pub open spec fn num_placeholder() -> Seq<char> {
    seq!['$', 'N', 'U', 'M']
}

/// `s[i..]` with each double-quoted string literal replaced by `"$STR"`.
pub open spec fn replace_strings_from(s: Seq<char>, i: int) -> Seq<char>
    decreases s.len() - i,
{
    if i < 0 || i >= s.len() {
        Seq::empty()
    } else if s[i] == '"' {
        let k = skip_string(s, i + 1);
        if i < k <= s.len() {
            str_placeholder() + replace_strings_from(s, k)
        } else {
            str_placeholder()
        }
    } else {
        seq![s[i]] + replace_strings_from(s, i + 1)
    }
}

/// The index of the first char at or after `j` that is neither a digit nor
/// a `.`.
pub open spec fn skip_number(s: Seq<char>, j: int) -> int
    decreases s.len() - j,
{
    if j < 0 || j >= s.len() {
        s.len() as int
    } else if is_digit(s[j]) || s[j] == '.' {
        skip_number(s, j + 1)
    } else {
        j
    }
}

/// `s[i..]` with each run that starts at a digit and goes on over digits
/// and dots replaced by `$NUM`.
pub open spec fn replace_numbers_from(s: Seq<char>, i: int) -> Seq<char>
    decreases s.len() - i,
{
    if i < 0 || i >= s.len() {
        Seq::empty()
    } else if is_digit(s[i]) {
        let k = skip_number(s, i + 1);
        if i < k <= s.len() {
            num_placeholder() + replace_numbers_from(s, k)
        } else {
            num_placeholder()
        }
    } else {
        seq![s[i]] + replace_numbers_from(s, i + 1)
    }
}

/// The structure-normalized form of a code body.
pub open spec fn normalized(code: Seq<char>) -> Seq<char> {
    replace_numbers_from(
        replace_strings_from(
            collapse_whitespace(strip_block_comments(strip_line_comments(code))),
            0,
        ),
        0,
    )
}

proof fn lemma_skip_string_bounds(s: Seq<char>, j: int)
    requires
        0 <= j,
    ensures
        j <= skip_string(s, j) <= s.len() || (j > s.len() && skip_string(s, j) == s.len()),
        j < s.len() ==> j < skip_string(s, j) <= s.len(),
    decreases s.len() - j,
{
    if j >= s.len() {
    } else if s[j] == '"' {
    } else if s[j] == '\\' {
        if j + 2 < s.len() {
            lemma_skip_string_bounds(s, j + 2);
        }
    } else {
        lemma_skip_string_bounds(s, j + 1);
    }
}

proof fn lemma_skip_number_bounds(s: Seq<char>, j: int)
    requires
        0 <= j <= s.len(),
    ensures
        j <= skip_number(s, j) <= s.len(),
    decreases s.len() - j,
{
    if j < s.len() && (is_digit(s[j]) || s[j] == '.') {
        lemma_skip_number_bounds(s, j + 1);
    }
}

proof fn lemma_no_digit_from(s: Seq<char>, i: int)
    requires
        0 <= i,
    ensures
        forall|k: int|
            0 <= k < replace_numbers_from(s, i).len() ==> !is_digit(
                #[trigger] replace_numbers_from(s, i)[k],
            ),
    decreases s.len() - i,
{
    if i < s.len() {
        if is_digit(s[i]) {
            let k = skip_number(s, i + 1);
            lemma_skip_number_bounds(s, i + 1);
            if i < k <= s.len() {
                lemma_no_digit_from(s, k);
                let r = replace_numbers_from(s, k);
                assert forall|m: int| 0 <= m < (num_placeholder() + r).len() implies !is_digit(
                    #[trigger] (num_placeholder() + r)[m],
                ) by {
                    if m >= 4 {
                        assert((num_placeholder() + r)[m] == r[m - 4]);
                    }
                }
            }
        } else {
            lemma_no_digit_from(s, i + 1);
            let r = replace_numbers_from(s, i + 1);
            assert forall|m: int| 0 <= m < (seq![s[i]] + r).len() implies !is_digit(
                #[trigger] (seq![s[i]] + r)[m],
            ) by {
                if m >= 1 {
                    assert((seq![s[i]] + r)[m] == r[m - 1]);
                }
            }
        }
    }
}

/// Normalized code holds no ASCII digit: every number literal became
/// `$NUM`.
pub proof fn lemma_normalized_has_no_digit(code: Seq<char>)
    ensures
        forall|k: int| 0 <= k < normalized(code).len() ==> !is_digit(#[trigger] normalized(code)[k]),
{
    let t = replace_strings_from(
        collapse_whitespace(strip_block_comments(strip_line_comments(code))),
        0,
    );
    lemma_no_digit_from(t, 0);
}

/// Whether `c` is white space in Unicode's sense.
pub fn is_whitespace_char(c: char) -> (r: bool)
    ensures
        r == is_ws(c),
{
    c == '\t' || c == '\n' || c == '\u{0B}' || c == '\u{0C}' || c == '\r' || c == ' '
        || c == '\u{85}' || c == '\u{A0}' || c == '\u{1680}'
        || ('\u{2000}' <= c && c <= '\u{200A}') || c == '\u{2028}' || c == '\u{2029}'
        || c == '\u{202F}' || c == '\u{205F}' || c == '\u{3000}'
}

/// `s` with each string literal replaced by `"$STR"`: an opening `"` starts
/// a literal, which runs to the next `"` not escaped by a backslash, or to
/// the end of `s`.
pub fn replace_string_literals(s: &Vec<char>) -> (r: Vec<char>)
    ensures
        r@ == replace_strings_from(s@, 0),
{
    let mut r: Vec<char> = Vec::new();
    let mut i: usize = 0;
    while i < s.len()
        invariant
            i <= s.len(),
            r@ + replace_strings_from(s@, i as int) == replace_strings_from(s@, 0),
        decreases s.len() - i,
    {
        if s[i] == '"' {
            let ghost old_r = r@;
            r.push('"');
            r.push('$');
            r.push('S');
            r.push('T');
            r.push('R');
            r.push('"');
            assert(r@ =~= old_r + str_placeholder());
            let mut j: usize = i + 1;
            let mut done = false;
            while !done && j < s.len()
                invariant
                    i < j <= s.len(),
                    done ==> j == skip_string(s@, i + 1),
                    !done ==> skip_string(s@, j as int) == skip_string(s@, i + 1),
                decreases s.len() - j,
            {
                let nc = s[j];
                if nc == '"' {
                    j = j + 1;
                    done = true;
                } else if nc == '\\' {
                    if s.len() - j <= 2 {
                        j = s.len();
                    } else {
                        j = j + 2;
                    }
                } else {
                    j = j + 1;
                }
            }
            proof {
                lemma_skip_string_bounds(s@, i + 1);
                assert(j == skip_string(s@, i + 1));
                assert(old_r + replace_strings_from(s@, i as int) == replace_strings_from(s@, 0));
                assert(replace_strings_from(s@, i as int) == str_placeholder()
                    + replace_strings_from(s@, j as int));
                assert((old_r + str_placeholder()) + replace_strings_from(s@, j as int)
                    =~= old_r + (str_placeholder() + replace_strings_from(s@, j as int)));
            }
            i = j;
        } else {
            let ghost old_r = r@;
            r.push(s[i]);
            assert((old_r.push(s@[i as int])) + replace_strings_from(s@, i + 1)
                =~= old_r + (seq![s@[i as int]] + replace_strings_from(s@, i + 1)));
            i = i + 1;
        }
    }
    assert(r@ =~= r@ + replace_strings_from(s@, i as int));
    r
}

/// `s` with each number literal replaced by `$NUM`: a digit starts one,
/// which goes on over digits and dots.
pub fn replace_number_literals(s: &Vec<char>) -> (r: Vec<char>)
    ensures
        r@ == replace_numbers_from(s@, 0),
{
    let mut r: Vec<char> = Vec::new();
    let mut i: usize = 0;
    while i < s.len()
        invariant
            i <= s.len(),
            r@ + replace_numbers_from(s@, i as int) == replace_numbers_from(s@, 0),
        decreases s.len() - i,
    {
        let c = s[i];
        if '0' <= c && c <= '9' {
            let ghost old_r = r@;
            r.push('$');
            r.push('N');
            r.push('U');
            r.push('M');
            assert(r@ =~= old_r + num_placeholder());
            let mut j: usize = i + 1;
            while j < s.len() && (('0' <= s[j] && s[j] <= '9') || s[j] == '.')
                invariant
                    i < j <= s.len(),
                    skip_number(s@, j as int) == skip_number(s@, i + 1),
                decreases s.len() - j,
            {
                j = j + 1;
            }
            proof {
                assert(j == skip_number(s@, i + 1));
                assert(replace_numbers_from(s@, i as int) == num_placeholder()
                    + replace_numbers_from(s@, j as int));
                assert((old_r + num_placeholder()) + replace_numbers_from(s@, j as int)
                    =~= old_r + (num_placeholder() + replace_numbers_from(s@, j as int)));
            }
            i = j;
        } else {
            let ghost old_r = r@;
            r.push(c);
            assert((old_r.push(s@[i as int])) + replace_numbers_from(s@, i + 1)
                =~= old_r + (seq![s@[i as int]] + replace_numbers_from(s@, i + 1)));
            i = i + 1;
        }
    }
    assert(r@ =~= r@ + replace_numbers_from(s@, i as int));
    r
}

/// The words of `s` (maximal runs of non-white-space chars) joined by single
/// spaces.
pub fn collapse_whitespace_chars(s: &Vec<char>) -> (r: Vec<char>)
    ensures
        r@ == collapse_whitespace(s@),
{
    let mut words: Vec<Vec<char>> = Vec::new();
    let mut cur: Vec<char> = Vec::new();
    let mut i: usize = 0;
    while i < s.len()
        invariant
            i <= s.len(),
            words@.map_values(|v: Vec<char>| v@) + words_from(s@, i as int, cur@)
                == words_from(s@, 0, Seq::empty()),
        decreases s.len() - i,
    {
        let c = s[i];
        let ghost before = words@.map_values(|v: Vec<char>| v@);
        if is_whitespace_char(c) {
            if cur.len() > 0 {
                let ghost cv = cur@;
                let done = cur;
                words.push(done);
                cur = Vec::new();
                assert(words@.map_values(|v: Vec<char>| v@) =~= before + seq![cv]);
                assert(before + (seq![cv] + words_from(s@, i + 1, Seq::empty()))
                    =~= (before + seq![cv]) + words_from(s@, i + 1, Seq::empty()));
            } else {
                assert(words_from(s@, i as int, cur@) =~= Seq::<Seq<char>>::empty() + words_from(
                    s@,
                    i + 1,
                    Seq::empty(),
                ));
                assert(cur@ =~= Seq::<char>::empty());
            }
        } else {
            cur.push(c);
        }
        i = i + 1;
    }
    if cur.len() > 0 {
        let ghost before = words@.map_values(|v: Vec<char>| v@);
        let ghost cv = cur@;
        words.push(cur);
        assert(words@.map_values(|v: Vec<char>| v@) =~= before + seq![cv]);
    } else {
        assert(words@.map_values(|v: Vec<char>| v@) =~= words@.map_values(|v: Vec<char>| v@)
            + words_from(s@, i as int, cur@));
    }
    let sep: Vec<char> = vec![' '];
    assert(sep@ =~= seq![' ']);
    join_chars(&words, &sep)
}

/// The first index at or after `from` where `pat` occurs in `s`.
pub fn find_chars(s: &Vec<char>, pat: &Vec<char>, from: usize) -> (r: Option<usize>)
    ensures
        r matches Some(k) ==> find_from(s@, pat@, from as int) == Some(k as int),
        r matches Some(k) ==> occurs_at(s@, k as int, pat@),
        r is None ==> find_from(s@, pat@, from as int) is None,
{
    let mut i: usize = from;
    while i < s.len() && pat.len() <= s.len() - i
        invariant
            from <= i,
            find_from(s@, pat@, i as int) == find_from(s@, pat@, from as int),
        decreases s.len() - i,
    {
        if occurs_at_exec(s, i, pat) {
            return Some(i);
        }
        i = i + 1;
    }
    None
}

/// `s` with its block comments removed, one at a time from the left.
pub fn strip_block_comments_chars(s: &Vec<char>) -> (r: Vec<char>)
    ensures
        r@ == strip_block_comments(s@),
{
    let open: Vec<char> = vec!['/', '*'];
    let close: Vec<char> = vec!['*', '/'];
    assert(open@ =~= seq!['/', '*']);
    assert(close@ =~= seq!['*', '/']);
    let mut cur: Vec<char> = s.clone();
    assert(cur@ =~= s@);
    loop
        invariant
            open@ == seq!['/', '*'],
            close@ == seq!['*', '/'],
            strip_block_comments(cur@) == strip_block_comments(s@),
        decreases cur.len(),
    {
        let a = match find_chars(&cur, &open, 0) {
            None => {
                return cur;
            },
            Some(a) => a,
        };
        let b = match find_chars(&cur, &close, a) {
            None => {
                return cur;
            },
            Some(b) => b,
        };
        if !(a <= b && b <= cur.len() && cur.len() - b >= 2) {
            return cur;
        }
        let mut next = slice_chars(&cur, 0, a);
        let tail = slice_chars(&cur, b + 2, cur.len());
        extend_chars(&mut next, &tail);
        cur = next;
    }
}

/// Every line of `s` cut at its first `//`, the lines joined by spaces.
pub fn strip_line_comments_chars(s: &Vec<char>) -> (r: Vec<char>)
    ensures
        r@ == strip_line_comments(s@),
{
    let nl: Vec<char> = vec!['\n'];
    assert(nl@ =~= seq!['\n']);
    let slashes: Vec<char> = vec!['/', '/'];
    assert(slashes@ =~= seq!['/', '/']);
    let mut parts = split_on(s, &nl);
    proof {
        lemma_split_from_nonempty(s@, nl@, 0, 0);
    }
    let ghost all = split(s@, seq!['\n']);
    let ghost kept = if s@.len() == 0 {
        Seq::<Seq<char>>::empty()
    } else if all.last().len() == 0 {
        all.drop_last()
    } else {
        all
    };
    let n = if s.len() == 0 {
        0
    } else if parts[parts.len() - 1].len() == 0 {
        parts.len() - 1
    } else {
        parts.len()
    };
    assert(n == kept.len());
    let mut cut: Vec<Vec<char>> = Vec::new();
    let mut i: usize = 0;
    while i < n
        invariant
            i <= n <= parts.len(),
            n == kept.len(),
            slashes@ == seq!['/', '/'],
            forall|k: int| 0 <= k < n ==> #[trigger] parts@[k]@ == kept[k],
            cut@.len() == i,
            forall|k: int|
                0 <= k < i ==> #[trigger] cut@[k]@ == cut_line_comment(strip_cr(kept[k])),
        decreases n - i,
    {
        let line = &parts[i];
        let stripped = if line.len() > 0 && line[line.len() - 1] == '\r' {
            slice_chars(line, 0, line.len() - 1)
        } else {
            slice_chars(line, 0, line.len())
        };
        assert(stripped@ == strip_cr(kept[i as int])) by {
            assert(line@.subrange(0, line@.len() as int) =~= line@);
        }
        let mut pieces = split_on(&stripped, &slashes);
        proof {
            lemma_split_from_nonempty(stripped@, slashes@, 0, 0);
        }
        let first = pieces.swap_remove(0);
        cut.push(first);
        i = i + 1;
    }
    let sep: Vec<char> = vec![' '];
    assert(sep@ =~= seq![' ']);
    assert(cut@.map_values(|v: Vec<char>| v@) =~= lines(s@).map_values(
        |l: Seq<char>| cut_line_comment(l),
    ));
    join_chars(&cut, &sep)
}

/// The structure-normalized form of `code`: line and block comments
/// removed, white space collapsed to single spaces, string literals
/// replaced by `"$STR"` and number literals by `$NUM`.
pub fn normalize_chars(code: &Vec<char>) -> (r: Vec<char>)
    ensures
        r@ == normalized(code@),
{
    let a = strip_line_comments_chars(code);
    let b = strip_block_comments_chars(&a);
    let c = collapse_whitespace_chars(&b);
    let d = replace_string_literals(&c);
    replace_number_literals(&d)
}

} // verus!
