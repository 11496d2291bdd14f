//! The message the editor hook shows for the similar code it found.
use vstd::prelude::*;
use crate::code_unit::{decimal_of, decimal_string};
use crate::hook::file_name_of;
use crate::text::{
    join, last_segment, to_chars, from_chars, extend_chars, join_chars, last_segment_chars, slice_chars,
};

verus! {

/// One finding, with its similarity as a whole percentage.
#[derive(Debug, Clone)]
pub struct MatchSummary {
    pub current_name: String,
    pub current_file: String,
    pub current_line: u32,
    pub similar_name: String,
    pub similar_file: String,
    pub similar_line: u32,
    pub percent: i32,
    pub is_cross_project: bool,
}

/// The decimal text of a signed number.
pub open spec fn signed_decimal(n: int) -> Seq<char> {
    if n < 0 {
        "-"@ + decimal_of((-n) as nat)
    } else {
        decimal_of(n as nat)
    }
}

/// The file part shown for a path: its last component, or the whole path
/// when that is empty.
pub open spec fn shown_file(p: Seq<char>) -> Seq<char> {
    if file_name_of(p).len() == 0 {
        p
    } else {
        file_name_of(p)
    }
}

/// The four lines of one finding.
pub open spec fn finding_lines(m: MatchSummary) -> Seq<Seq<char>> {
    seq![
        "  ("@ + signed_decimal(m.percent as int) + "%)"@ + (if m.is_cross_project {
            " [跨项目]"@
        } else {
            ""@
        }),
        "  ├─ 当前: "@ + shown_file(m.current_file@) + ":"@ + decimal_of(m.current_line as nat) + " "@
            + last_segment(m.current_name@) + "()"@,
        "  └─ 相似: "@ + shown_file(m.similar_file@) + ":"@ + decimal_of(m.similar_line as nat) + " "@
            + last_segment(m.similar_name@) + "()"@,
        ""@,
    ]
}

/// The lines of the first `k` findings.
pub open spec fn findings_lines(ms: Seq<MatchSummary>, k: int) -> Seq<Seq<char>>
    decreases k,
{
    if k <= 0 || k > ms.len() {
        Seq::empty()
    } else {
        findings_lines(ms, k - 1) + finding_lines(ms[k - 1])
    }
}

/// The closing advice.
pub open spec fn advice_lines() -> Seq<Seq<char>> {
    seq![
        "📋 处理方式:"@,
        "  1. 复用: import 或调用已有实现，避免重复"@,
        "  2. 忽略: 运行 akin ignore \"<当前>\" \"<相似>\" 标记为合理重复"@,
        "  3. 继续: 如果逻辑不同只是结构相似，直接继续编写"@,
    ]
}

/// The whole message: empty without findings, else a heading, the lines
/// of each finding, and the advice, joined by newlines.
pub open spec fn report_text(ms: Seq<MatchSummary>) -> Seq<char> {
    if ms.len() == 0 {
        Seq::empty()
    } else {
        join(
            seq!["⚠️ 检测到相似代码:"@] + findings_lines(ms, ms.len() as int) + advice_lines(),
            "\n"@,
        )
    }
}

fn signed_decimal_chars(n: i32) -> (r: Vec<char>)
    ensures
        r@ == signed_decimal(n as int),
{
    if n < 0 {
        let mut v = to_chars("-");
        let a: u64 = (-(n as i64)) as u64;
        extend_chars(&mut v, &to_chars(decimal_string(a).as_str()));
        v
    } else {
        to_chars(decimal_string(n as u64).as_str())
    }
}

fn shown_file_chars(p: &str) -> (r: Vec<char>)
    ensures
        r@ == shown_file(p@),
{
    let pv = to_chars(p);
    let t = crate::hook::trim_trailing_slashes_exec(&pv);
    let f = match crate::hook::last_index_exec(&t, '/', t.len()) {
        Some(k) => crate::text::slice_chars(&t, k + 1, t.len()),
        None => t,
    };
    if f.len() == 0 {
        pv
    } else {
        f
    }
}

fn push_line(lines: &mut Vec<Vec<char>>, l: Vec<char>)
    ensures
        final(lines)@.map_values(|v: Vec<char>| v@) == old(lines)@.map_values(|v: Vec<char>| v@).push(
            l@,
        ),
{
    lines.push(l);
    assert(lines@.map_values(|v: Vec<char>| v@) =~= old(lines)@.map_values(|v: Vec<char>| v@).push(
        l@,
    ));
}

/// The message for `results` (see `report_text`).
pub fn format_result(results: &Vec<MatchSummary>) -> (r: String)
    ensures
        r@ == report_text(results@),
{
    if results.len() == 0 {
        return String::new();
    }
    let mut lines: Vec<Vec<char>> = Vec::new();
    push_line(&mut lines, to_chars("⚠️ 检测到相似代码:"));
    let ghost head = lines@.map_values(|v: Vec<char>| v@);
    let mut i: usize = 0;
    while i < results.len()
        invariant
            i <= results.len(),
            head == seq!["⚠️ 检测到相似代码:"@],
            lines@.map_values(|v: Vec<char>| v@) == head + findings_lines(results@, i as int),
        decreases results.len() - i,
    {
        let m = &results[i];
        let mut l1 = to_chars("  (");
        extend_chars(&mut l1, &signed_decimal_chars(m.percent));
        extend_chars(&mut l1, &to_chars("%)"));
        if m.is_cross_project {
            extend_chars(&mut l1, &to_chars(" [跨项目]"));
        } else {
            extend_chars(&mut l1, &to_chars(""));
        }
        let mut l2 = to_chars("  ├─ 当前: ");
        extend_chars(&mut l2, &shown_file_chars(m.current_file.as_str()));
        extend_chars(&mut l2, &to_chars(":"));
        extend_chars(&mut l2, &to_chars(decimal_string(m.current_line as u64).as_str()));
        extend_chars(&mut l2, &to_chars(" "));
        extend_chars(&mut l2, &last_segment_chars(&to_chars(m.current_name.as_str())));
        extend_chars(&mut l2, &to_chars("()"));
        let mut l3 = to_chars("  └─ 相似: ");
        extend_chars(&mut l3, &shown_file_chars(m.similar_file.as_str()));
        extend_chars(&mut l3, &to_chars(":"));
        extend_chars(&mut l3, &to_chars(decimal_string(m.similar_line as u64).as_str()));
        extend_chars(&mut l3, &to_chars(" "));
        extend_chars(&mut l3, &last_segment_chars(&to_chars(m.similar_name.as_str())));
        extend_chars(&mut l3, &to_chars("()"));
        let ghost before = lines@.map_values(|v: Vec<char>| v@);
        push_line(&mut lines, l1);
        push_line(&mut lines, l2);
        push_line(&mut lines, l3);
        push_line(&mut lines, to_chars(""));
        proof {
            let f = finding_lines(results@[i as int]);
            assert(lines@.map_values(|v: Vec<char>| v@) =~= before + f);
            assert(findings_lines(results@, i + 1) == findings_lines(results@, i as int) + f);
        }
        i = i + 1;
    }
    let ghost body = lines@.map_values(|v: Vec<char>| v@);
    push_line(&mut lines, to_chars("📋 处理方式:"));
    push_line(&mut lines, to_chars("  1. 复用: import 或调用已有实现，避免重复"));
    push_line(&mut lines, to_chars("  2. 忽略: 运行 akin ignore \"<当前>\" \"<相似>\" 标记为合理重复"));
    push_line(&mut lines, to_chars("  3. 继续: 如果逻辑不同只是结构相似，直接继续编写"));
    assert(lines@.map_values(|v: Vec<char>| v@) =~= body + advice_lines());
    let out = join_chars(&lines, &to_chars("\n"));
    from_chars(&out)
}

/// `s` with every leading repetition of the non-empty `p` removed.
pub open spec fn strip_repeated(s: Seq<char>, p: Seq<char>) -> Seq<char>
    decreases s.len(),
{
    if p.len() > 0 && crate::text::starts_with(s, p) {
        strip_repeated(s.subrange(p.len() as int, s.len() as int), p)
    } else {
        s
    }
}

/// How a qualified name is shown: `<function part> (<file name>)`, the
/// file name being the last `/` component of what precedes the first `::`
/// with leading `swift:` and then `rust:` prefixes removed; the name itself
/// when it holds no `::`.
pub open spec fn display_name(name: Seq<char>) -> Seq<char> {
    match crate::normalize::find_from(name, "::"@, 0) {
        Some(k) => {
            let file_part = name.subrange(0, k);
            let func_part = name.subrange(k + 2, name.len() as int);
            let last = match crate::hook::last_index_of(file_part, '/', file_part.len() as int) {
                Some(j) => file_part.subrange(j + 1, file_part.len() as int),
                None => file_part,
            };
            func_part + " ("@ + strip_repeated(strip_repeated(last, "swift:"@), "rust:"@) + ")"@
        },
        None => name,
    }
}

fn strip_repeated_chars(s: &Vec<char>, p: &Vec<char>) -> (r: Vec<char>)
    requires
        p@.len() > 0,
    ensures
        r@ == strip_repeated(s@, p@),
{
    let mut i: usize = 0;
    assert(s@.subrange(0, s@.len() as int) =~= s@);
    loop
        invariant
            i <= s.len(),
            p@.len() > 0,
            strip_repeated(s@.subrange(i as int, s@.len() as int), p@) == strip_repeated(s@, p@),
        decreases s.len() - i,
    {
        let rest = slice_chars(s, i, s.len());
        if crate::text::starts_with_chars(&rest, p) {
            assert(rest@.subrange(p@.len() as int, rest@.len() as int) =~= s@.subrange(
                i + p@.len(),
                s@.len() as int,
            ));
            i = i + p.len();
        } else {
            return rest;
        }
    }
}

/// How a qualified name is shown (see `display_name`).
pub fn format_name(name: &str) -> (r: String)
    ensures
        r@ == display_name(name@),
{
    let v = to_chars(name);
    let sep: Vec<char> = vec![':', ':'];
    proof {
        reveal_strlit("::");
        assert(sep@ =~= "::"@);
    }
    match crate::normalize::find_chars(&v, &sep, 0) {
        Some(k) => {
            let file_part = slice_chars(&v, 0, k);
            let func_part = slice_chars(&v, k + 2, v.len());
            let last = match crate::hook::last_index_exec(&file_part, '/', file_part.len()) {
                Some(j) => slice_chars(&file_part, j + 1, file_part.len()),
                None => file_part,
            };
            let swift = to_chars("swift:");
            let rust = to_chars("rust:");
            proof {
                reveal_strlit("swift:");
                reveal_strlit("rust:");
            }
            let a = strip_repeated_chars(&last, &swift);
            let b = strip_repeated_chars(&a, &rust);
            let mut out = func_part;
            extend_chars(&mut out, &to_chars(" ("));
            extend_chars(&mut out, &b);
            extend_chars(&mut out, &to_chars(")"));
            from_chars(&out)
        },
        None => from_chars(&v),
    }
}

} // verus!
