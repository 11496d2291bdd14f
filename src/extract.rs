//! Code-unit extraction rules shared by the language-server and the
//! syntax-tree extractors: which files and directories are scanned, how a
//! unit is named, and how its body is framed with the enclosing type's
//! fields or properties.
use vstd::prelude::*;
use crate::code_unit::CodeUnit;
use crate::hook::{extension_of, file_name_of};
use crate::text::{
    join, split, ends_with, to_chars, from_chars, str_eq, extend_chars, join_chars, split_on,
    lemma_split_from_nonempty, ends_with_chars, contains_seq, contains_chars,
};

verus! {

/// A language with a language-server extractor.
#[derive(Debug, Clone, Copy, PartialEq, Eq, Structural)]
pub enum SourceLanguage {
    Rust,
    Swift,
    TypeScript,
}

/// The language named by a tag: `rust`, `swift`, `typescript` or `ts`.
pub open spec fn language_of_tag(tag: Seq<char>) -> Option<SourceLanguage> {
    if tag == "rust"@ {
        Some(SourceLanguage::Rust)
    } else if tag == "swift"@ {
        Some(SourceLanguage::Swift)
    } else if tag == "typescript"@ || tag == "ts"@ {
        Some(SourceLanguage::TypeScript)
    } else {
        None
    }
}

/// The language named by `tag`, or `None` for an unsupported one.
pub fn language_from_tag(tag: &str) -> (r: Option<SourceLanguage>)
    ensures
        r == language_of_tag(tag@),
{
    if str_eq(tag, "rust") {
        Some(SourceLanguage::Rust)
    } else if str_eq(tag, "swift") {
        Some(SourceLanguage::Swift)
    } else if str_eq(tag, "typescript") || str_eq(tag, "ts") {
        Some(SourceLanguage::TypeScript)
    } else {
        None
    }
}

/// The prefix of a language's qualified names.
pub open spec fn name_prefix(lang: SourceLanguage) -> Seq<char> {
    match lang {
        SourceLanguage::Rust => "rust"@,
        SourceLanguage::Swift => "swift"@,
        SourceLanguage::TypeScript => "ts"@,
    }
}

/// The build and dependency directories that are never scanned.
pub open spec fn skipped_dirs() -> Seq<Seq<char>> {
    seq![
        "target"@, ".build"@, "Build"@, "DerivedData"@, "Pods"@, "node_modules"@, "dist"@,
        "build"@, ".next"@, ".nuxt"@, "coverage"@, ".git"@, ".turbo"@, ".cache"@,
    ]
}

/// Whether a directory of this name is skipped.
pub fn is_skipped_dir(name: &str) -> (r: bool)
    ensures
        r == skipped_dirs().contains(name@),
{
    let dirs: Vec<&str> = vec![
        "target", ".build", "Build", "DerivedData", "Pods", "node_modules", "dist", "build",
        ".next", ".nuxt", "coverage", ".git", ".turbo", ".cache",
    ];
    assert(dirs@.map_values(|d: &str| d@) =~= skipped_dirs());
    let mut i: usize = 0;
    while i < dirs.len()
        invariant
            i <= dirs.len(),
            dirs@.map_values(|d: &str| d@) == skipped_dirs(),
            forall|k: int| 0 <= k < i ==> skipped_dirs()[k] != name@,
        decreases dirs.len() - i,
    {
        assert(dirs@.map_values(|d: &str| d@)[i as int] == dirs@[i as int]@);
        if str_eq(dirs[i], name) {
            return true;
        }
        i = i + 1;
    }
    false
}

/// The file extensions each language scans (without the dot).
pub open spec fn source_extensions(lang: SourceLanguage) -> Seq<Seq<char>> {
    match lang {
        SourceLanguage::Rust => seq!["rs"@],
        SourceLanguage::Swift => seq!["swift"@],
        SourceLanguage::TypeScript => seq!["ts"@, "tsx"@, "js"@, "jsx"@, "mjs"@, "cjs"@],
    }
}

/// A TypeScript file name that marks a declaration file (`*.d.ts`) or a
/// configuration file (`*.config.*`).
pub open spec fn is_declaration_or_config(name: Seq<char>) -> bool {
    ends_with(name, ".d.ts"@) || contains_seq(name, ".config."@)
}

/// A file is scanned when its extension is one of its language's and, for
/// TypeScript, it is no declaration or configuration file.
pub open spec fn is_source(lang: SourceLanguage, path: Seq<char>) -> bool {
    match extension_of(path) {
        Some(e) => source_extensions(lang).contains(e) && (lang == SourceLanguage::TypeScript
            ==> !is_declaration_or_config(file_name_of(path))),
        None => false,
    }
}

fn any_equal(items: &Vec<&str>, s: &str) -> (r: bool)
    ensures
        r == exists|k: int| 0 <= k < items@.len() && (#[trigger] items@[k])@ == s@,
{
    let mut i: usize = 0;
    while i < items.len()
        invariant
            i <= items.len(),
            forall|k: int| 0 <= k < i ==> items@[k]@ != s@,
        decreases items.len() - i,
    {
        if str_eq(items[i], s) {
            return true;
        }
        i = i + 1;
    }
    false
}

/// Whether the file at `path` is scanned for `lang`.
pub fn is_source_file(lang: SourceLanguage, path: &str) -> (r: bool)
    ensures
        r == is_source(lang, path@),
{
    let ext = match crate::hook::path_extension(path) {
        Some(e) => e,
        None => {
            return false;
        },
    };
    let exts: Vec<&str> = match lang {
        SourceLanguage::Rust => vec!["rs"],
        SourceLanguage::Swift => vec!["swift"],
        SourceLanguage::TypeScript => vec!["ts", "tsx", "js", "jsx", "mjs", "cjs"],
    };
    assert(exts@.map_values(|d: &str| d@) =~= source_extensions(lang));
    let found = any_equal(&exts, ext.as_str());
    proof {
        let m = exts@.map_values(|d: &str| d@);
        if found {
            let k = choose|k: int| 0 <= k < exts@.len() && (#[trigger] exts@[k])@ == ext@;
            assert(m[k] == ext@);
        }
        if m.contains(ext@) {
            let k = choose|k: int| 0 <= k < m.len() && m[k] == ext@;
            assert(exts@[k]@ == m[k]);
        }
    }
    if !found {
        return false;
    }
    if lang != SourceLanguage::TypeScript {
        return true;
    }
    let name = file_name_chars(path);
    let dts = to_chars(".d.ts");
    let config = to_chars(".config.");
    !(ends_with_chars(&name, &dts) || contains_chars(&name, &config))
}

fn file_name_chars(path: &str) -> (r: Vec<char>)
    ensures
        r@ == file_name_of(path@),
{
    let p = to_chars(path);
    let t = crate::hook::trim_trailing_slashes_exec(&p);
    match crate::hook::last_index_exec(&t, '/', t.len()) {
        Some(k) => crate::text::slice_chars(&t, k + 1, t.len()),
        None => t,
    }
}

/// The qualified name of a function: `<prefix>:<file>::<parent>::<name>`,
/// or `<prefix>:<file>::<name>` at top level.
pub open spec fn qualified_name_of(
    prefix: Seq<char>,
    file_path: Seq<char>,
    parent: Option<Seq<char>>,
    name: Seq<char>,
) -> Seq<char> {
    match parent {
        Some(p) => prefix + ":"@ + file_path + "::"@ + p + "::"@ + name,
        None => prefix + ":"@ + file_path + "::"@ + name,
    }
}

/// The qualified name of a function (see `qualified_name_of`).
pub fn qualified_name(prefix: &str, file_path: &str, parent: Option<&str>, name: &str) -> (r:
    String)
    ensures
        r@ == qualified_name_of(
            prefix@,
            file_path@,
            match parent {
                Some(p) => Some(p@),
                None => None,
            },
            name@,
        ),
{
    let mut v = to_chars(prefix);
    extend_chars(&mut v, &to_chars(":"));
    extend_chars(&mut v, &to_chars(file_path));
    extend_chars(&mut v, &to_chars("::"));
    match parent {
        Some(p) => {
            extend_chars(&mut v, &to_chars(p));
            extend_chars(&mut v, &to_chars("::"));
        },
        None => {},
    }
    extend_chars(&mut v, &to_chars(name));
    from_chars(&v)
}

/// Which preface frames a method's body.
#[derive(Debug, Clone, Copy, PartialEq, Eq, Structural)]
pub enum ContextKind {
    /// `// Struct fields:` (Rust).
    StructFields,
    /// `// Class properties:` (Swift).
    ClassProperties,
}

/// The preface line of a context kind.
pub open spec fn context_header(k: ContextKind) -> Seq<char> {
    match k {
        ContextKind::StructFields => "// Struct fields:"@,
        ContextKind::ClassProperties => "// Class properties:"@,
    }
}

/// The body framed with its enclosing type's declarations: the preface
/// line, one declaration per line, an empty line, then the body; the body
/// alone when there are no declarations.
pub open spec fn with_context_text(k: ContextKind, fields: Seq<Seq<char>>, body: Seq<char>) -> Seq<
    char,
> {
    if fields.len() == 0 {
        body
    } else {
        context_header(k) + "\n"@ + join(fields, "\n"@) + "\n\n"@ + body
    }
}

/// The body framed with its enclosing type's declarations (see
/// `with_context_text`).
pub fn with_context(k: ContextKind, fields: &Vec<String>, body: &str) -> (r: String)
    ensures
        r@ == with_context_text(k, fields@.map_values(|f: String| f@), body@),
{
    if fields.len() == 0 {
        assert(fields@.map_values(|f: String| f@).len() == 0);
        return from_chars(&to_chars(body));
    }
    let header = match k {
        ContextKind::StructFields => "// Struct fields:",
        ContextKind::ClassProperties => "// Class properties:",
    };
    let mut parts: Vec<Vec<char>> = Vec::new();
    let mut i: usize = 0;
    while i < fields.len()
        invariant
            i <= fields.len(),
            parts@.map_values(|v: Vec<char>| v@) =~= fields@.map_values(|f: String| f@).take(
                i as int,
            ),
        decreases fields.len() - i,
    {
        let ghost before = parts@.map_values(|v: Vec<char>| v@);
        let c = to_chars(fields[i].as_str());
        parts.push(c);
        assert(parts@.map_values(|v: Vec<char>| v@) =~= before.push(c@));
        i = i + 1;
    }
    assert(fields@.map_values(|f: String| f@).take(fields@.len() as int) =~= fields@.map_values(
        |f: String| f@,
    ));
    let mut v = to_chars(header);
    extend_chars(&mut v, &to_chars("\n"));
    extend_chars(&mut v, &join_chars(&parts, &to_chars("\n")));
    extend_chars(&mut v, &to_chars("\n\n"));
    extend_chars(&mut v, &to_chars(body));
    from_chars(&v)
}

/// The text of lines `start..end` of `lines`, joined by newlines.
pub open spec fn lines_text(lines: Seq<String>, start: int, end: int) -> Seq<char> {
    join(lines.subrange(start, end).map_values(|l: String| l@), "\n"@)
}

fn join_lines(lines: &Vec<String>, start: usize, end: usize) -> (r: Vec<char>)
    requires
        start <= end <= lines.len(),
    ensures
        r@ == lines_text(lines@, start as int, end as int),
{
    let mut parts: Vec<Vec<char>> = Vec::new();
    let mut i: usize = start;
    while i < end
        invariant
            start <= i <= end <= lines.len(),
            parts@.map_values(|v: Vec<char>| v@) =~= lines@.subrange(start as int, i as int).map_values(
                |l: String| l@,
            ),
        decreases end - i,
    {
        let ghost before = parts@.map_values(|v: Vec<char>| v@);
        let c = to_chars(lines[i].as_str());
        parts.push(c);
        assert(parts@.map_values(|v: Vec<char>| v@) =~= before.push(c@));
        i = i + 1;
    }
    join_chars(&parts, &to_chars("\n"))
}

/// The unit the syntax-tree extractor makes of a function spanning rows
/// `start_row..end_row` (0-based, end exclusive) of `lines`: `None` when it
/// spans fewer than `min_lines` rows. Lines are reported 1-based; a method
/// (one with an enclosing type) has its type's declarations prepended.
pub open spec fn tree_unit_ok(
    lang_prefix: Seq<char>,
    file_path: Seq<char>,
    parent: Option<Seq<char>>,
    name: Seq<char>,
    lines: Seq<String>,
    start_row: int,
    end_row: int,
    min_lines: int,
    context: ContextKind,
    fields: Seq<Seq<char>>,
    r: Option<CodeUnit>,
) -> bool {
    if end_row - start_row < min_lines {
        r is None
    } else {
        r matches Some(u) && {
            &&& u.qualified_name@ == qualified_name_of(lang_prefix, file_path, parent, name)
            &&& u.file_path@ == file_path
            &&& u.kind@ == (if parent is Some {
                "method"@
            } else {
                "function"@
            })
            &&& u.range_start == start_row + 1
            &&& u.range_end == end_row
            &&& u.selection_line == start_row + 1
            &&& u.selection_column == 0
            &&& u.body@ == (if parent is Some {
                with_context_text(context, fields, lines_text(lines, start_row, end_row))
            } else {
                lines_text(lines, start_row, end_row)
            })
        }
    }
}

/// The unit of a function found by the syntax-tree extractor (see
/// `tree_unit_ok`); `fields` are the declarations of the enclosing type.
pub fn tree_unit(
    lang_prefix: &str,
    file_path: &str,
    parent: Option<&str>,
    name: &str,
    lines: &Vec<String>,
    start_row: u32,
    end_row: u32,
    min_lines: u32,
    context: ContextKind,
    fields: &Vec<String>,
) -> (r: Option<CodeUnit>)
    requires
        start_row < end_row <= lines.len(),
    ensures
        tree_unit_ok(
            lang_prefix@,
            file_path@,
            match parent {
                Some(p) => Some(p@),
                None => None,
            },
            name@,
            lines@,
            start_row as int,
            end_row as int,
            min_lines as int,
            context,
            fields@.map_values(|f: String| f@),
            r,
        ),
{
    if end_row - start_row < min_lines {
        return None;
    }
    let text = from_chars(&join_lines(lines, start_row as usize, end_row as usize));
    let body = match parent {
        Some(_) => with_context(context, fields, text.as_str()),
        None => text,
    };
    let kind = match parent {
        Some(_) => from_chars(&to_chars("method")),
        None => from_chars(&to_chars("function")),
    };
    Some(
        CodeUnit {
            qualified_name: qualified_name(lang_prefix, file_path, parent, name),
            file_path: from_chars(&to_chars(file_path)),
            kind,
            range_start: start_row + 1,
            range_end: end_row,
            body,
            selection_line: start_row + 1,
            selection_column: 0,
        },
    )
}

/// The kinds of document symbols the language-server extractor tells
/// apart.
#[derive(Debug, Clone, Copy, PartialEq, Eq, Structural)]
pub enum SymbolKindTag {
    Function,
    Method,
    Constructor,
    Class,
    Struct,
    Enum,
    Module,
    Interface,
    Object,
    Other,
}

/// Whether a symbol of this kind is a unit.
pub open spec fn is_unit_kind(k: SymbolKindTag) -> bool {
    k == SymbolKindTag::Function || k == SymbolKindTag::Method || k == SymbolKindTag::Constructor
}

/// Whether a symbol of this kind names the enclosing type of its children.
pub open spec fn is_container(lang: SourceLanguage, k: SymbolKindTag) -> bool {
    match lang {
        SourceLanguage::Rust => k == SymbolKindTag::Class || k == SymbolKindTag::Struct || k
            == SymbolKindTag::Enum || k == SymbolKindTag::Module,
        SourceLanguage::Swift => k == SymbolKindTag::Class || k == SymbolKindTag::Struct || k
            == SymbolKindTag::Enum,
        SourceLanguage::TypeScript => k == SymbolKindTag::Class || k == SymbolKindTag::Interface
            || k == SymbolKindTag::Object,
    }
}

/// Whether the children of a symbol of kind `k` take it as their enclosing
/// type.
pub fn encloses_children(lang: SourceLanguage, k: SymbolKindTag) -> (r: bool)
    ensures
        r == is_container(lang, k),
{
    match lang {
        SourceLanguage::Rust => k == SymbolKindTag::Class || k == SymbolKindTag::Struct || k
            == SymbolKindTag::Enum || k == SymbolKindTag::Module,
        SourceLanguage::Swift => k == SymbolKindTag::Class || k == SymbolKindTag::Struct || k
            == SymbolKindTag::Enum,
        SourceLanguage::TypeScript => k == SymbolKindTag::Class || k == SymbolKindTag::Interface
            || k == SymbolKindTag::Object,
    }
}

/// The unit kind a language reports for a symbol kind.
pub open spec fn unit_kind_name(lang: SourceLanguage, k: SymbolKindTag) -> Seq<char> {
    if k == SymbolKindTag::Method {
        "method"@
    } else if k == SymbolKindTag::Constructor {
        match lang {
            SourceLanguage::Swift => "init"@,
            SourceLanguage::TypeScript => "constructor"@,
            SourceLanguage::Rust => "function"@,
        }
    } else {
        "function"@
    }
}

/// Whether `lang` reports symbols of kind `k` as units (Rust reports no
/// constructors).
pub open spec fn reports_kind(lang: SourceLanguage, k: SymbolKindTag) -> bool {
    is_unit_kind(k) && !(lang == SourceLanguage::Rust && k == SymbolKindTag::Constructor)
}

/// The name a symbol is reported under: for Swift, the part before its
/// parameter list.
pub open spec fn clean_name(lang: SourceLanguage, name: Seq<char>) -> Seq<char> {
    match lang {
        SourceLanguage::Swift => split(name, "("@)[0],
        _ => name,
    }
}

/// Lines `start..=end` of `lines` joined by newlines, or empty when that
/// range does not lie within `lines`.
pub open spec fn symbol_body(lines: Seq<String>, start: int, end: int) -> Seq<char> {
    if start <= end + 1 && end < lines.len() {
        lines_text(lines, start, end + 1)
    } else {
        Seq::empty()
    }
}

/// The unit the language-server extractor makes of a document symbol, if
/// its kind is reported.
pub open spec fn symbol_unit_ok(
    lang: SourceLanguage,
    file_path: Seq<char>,
    parent: Option<Seq<char>>,
    name: Seq<char>,
    kind: SymbolKindTag,
    start_line: u32,
    end_line: u32,
    selection_line: u32,
    selection_column: u32,
    lines: Seq<String>,
    r: Option<CodeUnit>,
) -> bool {
    if !reports_kind(lang, kind) {
        r is None
    } else {
        r matches Some(u) && {
            &&& u.qualified_name@ == qualified_name_of(
                name_prefix(lang),
                file_path,
                parent,
                clean_name(lang, name),
            )
            &&& u.file_path@ == file_path
            &&& u.kind@ == unit_kind_name(lang, kind)
            &&& u.range_start == start_line
            &&& u.range_end == end_line
            &&& u.body@ == symbol_body(lines, start_line as int, end_line as int)
            &&& u.selection_line == selection_line
            &&& u.selection_column == selection_column
        }
    }
}

/// The unit of a document symbol (see `symbol_unit_ok`).
pub fn symbol_unit(
    lang: SourceLanguage,
    file_path: &str,
    parent: Option<&str>,
    name: &str,
    kind: SymbolKindTag,
    start_line: u32,
    end_line: u32,
    selection_line: u32,
    selection_column: u32,
    lines: &Vec<String>,
) -> (r: Option<CodeUnit>)
    ensures
        symbol_unit_ok(
            lang,
            file_path@,
            match parent {
                Some(p) => Some(p@),
                None => None,
            },
            name@,
            kind,
            start_line,
            end_line,
            selection_line,
            selection_column,
            lines@,
            r,
        ),
{
    let reported = (kind == SymbolKindTag::Function || kind == SymbolKindTag::Method || kind
        == SymbolKindTag::Constructor) && !(lang == SourceLanguage::Rust && kind
        == SymbolKindTag::Constructor);
    if !reported {
        return None;
    }
    let clean = match lang {
        SourceLanguage::Swift => {
            let nv = to_chars(name);
            let paren: Vec<char> = vec!['('];
            proof {
                reveal_strlit("(");
                assert(paren@ =~= "("@);
            }
            let mut parts = split_on(&nv, &paren);
            proof {
                lemma_split_from_nonempty(nv@, paren@, 0, 0);
            }
            let first = parts.swap_remove(0);
            from_chars(&first)
        },
        _ => from_chars(&to_chars(name)),
    };
    let prefix = match lang {
        SourceLanguage::Rust => "rust",
        SourceLanguage::Swift => "swift",
        SourceLanguage::TypeScript => "ts",
    };
    let kind_name = if kind == SymbolKindTag::Method {
        "method"
    } else if kind == SymbolKindTag::Constructor {
        match lang {
            SourceLanguage::Swift => "init",
            SourceLanguage::TypeScript => "constructor",
            SourceLanguage::Rust => "function",
        }
    } else {
        "function"
    };
    let body = if start_line as u64 <= end_line as u64 + 1 && (end_line as usize) < lines.len() {
        from_chars(&join_lines(lines, start_line as usize, end_line as usize + 1))
    } else {
        String::new()
    };
    Some(
        CodeUnit {
            qualified_name: qualified_name(prefix, file_path, parent, clean.as_str()),
            file_path: from_chars(&to_chars(file_path)),
            kind: from_chars(&to_chars(kind_name)),
            range_start: start_line,
            range_end: end_line,
            body,
            selection_line,
            selection_column,
        },
    )
}

} // verus!
