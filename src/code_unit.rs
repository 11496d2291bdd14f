//! Code units (functions, methods, constructors) and their hashes, and the
//! call-graph records that the language-server layer produces.
use vstd::prelude::*;
use vstd::utf8::encode_utf8;
use sha2::Digest;
use crate::text::{to_chars, from_chars, push_char};
use crate::normalize::{normalized, normalize_chars};

verus! {

/// The SHA-256 digest of a byte sequence.
pub uninterp spec fn sha256_of(data: Seq<u8>) -> Seq<u8>;

/// Relies on `sha2::Sha256::digest`: the SHA-256 digest of `data`, which
/// is 32 bytes long.
#[verifier::external_body]
fn sha256_digest(data: &[u8]) -> (r: Vec<u8>)
    ensures
        r@ == sha256_of(data@),
        r@.len() == 32,
{
    sha2::Sha256::digest(data).to_vec()
}

/// The lower-case hexadecimal digit for `n < 16`.
pub open spec fn hex_digit(n: u8) -> char {
    if n < 10 {
        (n + 48) as char
    } else {
        (n + 87) as char
    }
}

/// Two lower-case hexadecimal digits per byte, high nibble first.
pub open spec fn hex_of(b: Seq<u8>) -> Seq<char>
    decreases b.len(),
{
    if b.len() == 0 {
        Seq::empty()
    } else {
        hex_of(b.drop_last()) + seq![hex_digit(b.last() / 16), hex_digit(b.last() % 16)]
    }
}

/// The full 64-digit hexadecimal SHA-256 of the UTF-8 bytes of `s`.
pub open spec fn full_hash(s: Seq<char>) -> Seq<char> {
    hex_of(sha256_of(encode_utf8(s)))
}

/// The 16-digit short hash of `s`: the first eight bytes of its SHA-256.
pub open spec fn short_hash(s: Seq<char>) -> Seq<char> {
    hex_of(sha256_of(encode_utf8(s)).take(8))
}

/// The decimal digits of `n`, without leading zeros.
pub open spec fn decimal_of(n: nat) -> Seq<char>
    decreases n,
{
    if n < 10 {
        seq![(n + 48) as char]
    } else {
        decimal_of(n / 10) + seq![((n % 10) + 48) as char]
    }
}

fn hex_digit_char(n: u8) -> (c: char)
    requires
        n < 16,
    ensures
        c == hex_digit(n),
{
    if n < 10 {
        (n + 48) as char
    } else {
        (n + 87) as char
    }
}

/// The hexadecimal text of the first `n` bytes of `b`.
fn hex_prefix(b: &Vec<u8>, n: usize) -> (r: String)
    requires
        n <= b.len(),
    ensures
        r@ == hex_of(b@.take(n as int)),
{
    let mut r = String::new();
    let mut i: usize = 0;
    while i < n
        invariant
            i <= n <= b.len(),
            r@ == hex_of(b@.take(i as int)),
        decreases n - i,
    {
        let x = b[i];
        push_char(&mut r, hex_digit_char(x / 16));
        push_char(&mut r, hex_digit_char(x % 16));
        proof {
            let t = b@.take(i + 1);
            assert(t.drop_last() =~= b@.take(i as int));
            assert(t.last() == x);
            assert(r@ =~= hex_of(t));
        }
        i = i + 1;
    }
    r
}

/// The decimal text of `n`.
pub fn decimal_string(n: u64) -> (r: String)
    ensures
        r@ == decimal_of(n as nat),
    decreases n,
{
    if n < 10 {
        let mut r = String::new();
        push_char(&mut r, ((n as u8) + 48) as char);
        assert(r@ =~= decimal_of(n as nat));
        r
    } else {
        let mut r = decimal_string(n / 10);
        push_char(&mut r, (((n % 10) as u8) + 48) as char);
        assert(r@ =~= decimal_of(n as nat));
        r
    }
}

/// The full hexadecimal SHA-256 (64 digits) of the UTF-8 bytes of `content`.
pub fn compute_hash(content: &str) -> (r: String)
    ensures
        r@ == full_hash(content@),
{
    let d = sha256_digest(content.as_bytes());
    let r = hex_prefix(&d, 32);
    assert(d@.take(32) =~= d@);
    r
}

/// The structure hash of `content`: the full hexadecimal SHA-256 of its
/// structure-normalized form.
pub fn compute_structure_hash(content: &str) -> (r: String)
    ensures
        r@ == full_hash(normalized(content@)),
{
    let n = normalize_code_str(content);
    compute_hash(n.as_str())
}

fn normalize_code_str(code: &str) -> (r: String)
    ensures
        r@ == normalized(code@),
{
    let chars = to_chars(code);
    let n = normalize_chars(&chars);
    from_chars(&n)
}

/// A function, method or constructor extracted from a source file.
#[derive(Debug, Clone)]
pub struct CodeUnit {
    /// Stable identifier: `<lang>:<file_path>::<enclosing_type>::<name>`.
    pub qualified_name: String,
    pub file_path: String,
    /// `function`, `method` or `constructor`.
    pub kind: String,
    pub range_start: u32,
    pub range_end: u32,
    /// The body, with the enclosing type's fields or properties prepended.
    pub body: String,
    /// Line of the function's name.
    pub selection_line: u32,
    /// Column of the function's name.
    pub selection_column: u32,
}

impl CodeUnit {
    /// The content hash: 16 hexadecimal digits, the first eight bytes of the
    /// SHA-256 of the body.
    pub fn content_hash(&self) -> (r: String)
        ensures
            r@ == short_hash(self.body@),
    {
        let d = sha256_digest(self.body.as_str().as_bytes());
        hex_prefix(&d, 8)
    }

    /// The structure hash: 16 hexadecimal digits, the first eight bytes of
    /// the SHA-256 of the structure-normalized body.
    pub fn structure_hash(&self) -> (r: String)
        ensures
            r@ == short_hash(normalized(self.body@)),
    {
        let n = normalize_code_str(self.body.as_str());
        let d = sha256_digest(n.as_str().as_bytes());
        hex_prefix(&d, 8)
    }

    /// The structure-normalized form of `code`: comments removed, white
    /// space collapsed, string literals replaced by `"$STR"` and number
    /// literals by `$NUM`.
    pub fn normalize_code(code: &str) -> (r: String)
        ensures
            r@ == normalized(code@),
    {
        normalize_code_str(code)
    }
}

/// A function as a (file, line) location.
#[derive(Debug, Clone, PartialEq, Eq, Hash)]
pub struct FunctionRef {
    pub file_path: String,
    pub line: u32,
}

impl FunctionRef {
    pub fn new(file_path: String, line: u32) -> (r: FunctionRef)
        ensures
            r.file_path == file_path,
            r.line == line,
    {
        FunctionRef { file_path, line }
    }

    /// Two references name the same location.
    pub open spec fn same(&self, o: &FunctionRef) -> bool {
        self.file_path@ == o.file_path@ && self.line == o.line
    }

    /// Whether `self` and `o` name the same location.
    pub fn same_location(&self, o: &FunctionRef) -> (r: bool)
        ensures
            r == self.same(o),
    {
        self.line == o.line && self.file_path == o.file_path
    }
}

/// A node of the call graph.
#[derive(Debug, Clone)]
pub struct FunctionNode {
    /// Short display name.
    pub name: String,
    pub file_path: String,
    pub line: u32,
    pub callers: Vec<FunctionRef>,
    pub callees: Vec<FunctionRef>,
}

/// Incoming and outgoing calls of one function.
#[derive(Debug, Clone)]
pub struct CallHierarchy {
    pub incoming: Vec<CallHierarchyItem>,
    pub outgoing: Vec<CallHierarchyItem>,
}

/// One end of a call.
#[derive(Debug, Clone)]
pub struct CallHierarchyItem {
    pub name: String,
    pub file_path: String,
    pub line: u32,
    pub column: u32,
}

impl CallHierarchyItem {
    /// `file_path:line:name`.
    pub open spec fn stable_id_spec(&self) -> Seq<char> {
        self.file_path@ + seq![':'] + decimal_of(self.line as nat) + seq![':'] + self.name@
    }

    /// A unique identifier, `file_path:line:name`.
    pub fn stable_id(&self) -> (r: String)
        ensures
            r@ == self.stable_id_spec(),
    {
        let mut v = to_chars(self.file_path.as_str());
        v.push(':');
        let line = decimal_string(self.line as u64);
        let lv = to_chars(line.as_str());
        crate::text::extend_chars(&mut v, &lv);
        v.push(':');
        let nv = to_chars(self.name.as_str());
        crate::text::extend_chars(&mut v, &nv);
        from_chars(&v)
    }

    /// The location this item names.
    pub fn as_ref(&self) -> (r: FunctionRef)
        ensures
            r.file_path@ == self.file_path@,
            r.line == self.line,
    {
        FunctionRef { file_path: self.file_path.clone(), line: self.line }
    }
}

/// A unit spans at least `min_lines` lines (`range_end - range_start`).
pub open spec fn long_enough(u: CodeUnit, min_lines: u32) -> bool {
    u.range_end >= u.range_start && u.range_end - u.range_start >= min_lines
}

/// The units of `units` that span at least `min_lines` lines, in order.
pub open spec fn units_long_enough(units: Seq<CodeUnit>, min_lines: u32) -> Seq<CodeUnit>
    decreases units.len(),
{
    if units.len() == 0 {
        Seq::empty()
    } else if long_enough(units[0], min_lines) {
        seq![units[0]] + units_long_enough(units.drop_first(), min_lines)
    } else {
        units_long_enough(units.drop_first(), min_lines)
    }
}

/// Keeps the units that span at least `min_lines` lines.
pub fn filter_by_lines(units: Vec<CodeUnit>, min_lines: u32) -> (r: Vec<CodeUnit>)
    ensures
        r@ == units_long_enough(units@, min_lines),
{
    let ghost all = units@;
    let mut rest = units;
    let mut r: Vec<CodeUnit> = Vec::new();
    assert(all.subrange(all.len() as int, all.len() as int) =~= Seq::<CodeUnit>::empty());
    while rest.len() > 0
        invariant
            rest.len() <= all.len(),
            rest@ == all.take(rest.len() as int),
            r@ == units_long_enough(all.subrange(rest.len() as int, all.len() as int), min_lines),
        decreases rest.len(),
    {
        let k = rest.len();
        let u = rest.pop().unwrap();
        proof {
            assert(u == all[k - 1]);
            assert(all.subrange(k - 1, all.len() as int).drop_first() =~= all.subrange(
                k as int,
                all.len() as int,
            ));
            assert(rest@ =~= all.take(k - 1));
        }
        if u.range_end >= u.range_start && u.range_end - u.range_start >= min_lines {
            let ghost before = r@;
            r.insert(0, u);
            assert(r@ =~= seq![u] + before);
        }
    }
    assert(all.subrange(0, all.len() as int) =~= all);
    r
}

} // verus!
