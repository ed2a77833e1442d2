//! Declarations and imports found by patterns: Dart files line by line, and the import
//! statements of TypeScript, JavaScript, Python, PHP and Go files.
use vstd::prelude::*;
use vstd::utf8::encode_utf8;

use crate::model::{CallReference, CodeNode, ImportReference, NodeKind, ProgrammingLanguage, ProjectFile};
use crate::patterns::{CaptureView, RegexCapture, capture_view, regex_captures, spec_regex_captures};
use crate::text::{
    append_chars, chars_of, contains, decimal, ends_with, seq_contains, seq_ends_with, spec_decimal, spec_lines,
    spec_to_lowercase, spec_trim, split_lines, string_of, to_lowercase, trim,
};

verus! {

/// What the analysis of one file finds: declarations, imports and calls.
#[derive(Clone, Debug)]
pub struct FileAnalysis {
    pub nodes: Vec<CodeNode>,
    pub imports: Vec<ImportReference>,
    pub calls: Vec<CallReference>,
}

// ---------------------------------------------------------------------------
// Lines
// ---------------------------------------------------------------------------

/// The number of newline bytes.
pub open spec fn count_newlines(b: Seq<u8>) -> int
    decreases b.len(),
{
    if b.len() == 0 {
        0
    } else {
        count_newlines(b.drop_last()) + if b.last() == 10u8 { 1int } else { 0int }
    }
}

/// The one-based line of the byte `offset` of a text (at most `usize::MAX`).
pub open spec fn line_of(text: Seq<char>, offset: int) -> int {
    let n = count_newlines(encode_utf8(text).subrange(0, offset));
    if n < usize::MAX { n + 1 } else { usize::MAX as int }
}

fn line_at(text: &str, offset: usize) -> (res: usize)
    requires
        offset <= encode_utf8(text@).len(),
    ensures
        res == line_of(text@, offset as int),
        res >= 1,
{
    let bytes = text.as_bytes();
    let mut count: usize = 0;
    let mut i: usize = 0;
    while i < offset
        invariant
            i <= offset <= bytes@.len(),
            bytes@ == encode_utf8(text@),
            count == count_newlines(bytes@.subrange(0, i as int)),
            count <= i,
        decreases offset - i,
    {
        assert(bytes@.subrange(0, i + 1).drop_last() =~= bytes@.subrange(0, i as int));
        if bytes[i] == 10u8 {
            count = count + 1;
        }
        i = i + 1;
    }
    if count < usize::MAX { count + 1 } else { count }
}

// ---------------------------------------------------------------------------
// Imports of TypeScript, JavaScript, Python, PHP and Go
// ---------------------------------------------------------------------------

/// The import patterns of a language.
pub open spec fn import_patterns(lang: ProgrammingLanguage) -> Seq<Seq<char>> {
    match lang {
        ProgrammingLanguage::TypeScript | ProgrammingLanguage::JavaScript => seq![
            "(?m)^\\s*import\\s+.*?\\s+from\\s+['\\\"]([^'\\\"]+)['\\\"]"@,
            "(?m)^\\s*import\\s*['\\\"]([^'\\\"]+)['\\\"]"@,
        ],
        ProgrammingLanguage::Python => seq!["(?m)^\\s*from\\s+([\\w.]+)\\s+import\\s+([\\w*]+)"@, "(?m)^\\s*import\\s+([\\w.]+)"@],
        ProgrammingLanguage::Php => seq!["(?m)^\\s*use\\s+([^;]+);"@],
        ProgrammingLanguage::Go => seq!["(?m)^\\s*import\\s+(?:\\w+\\s+)?\\\"([^\\\"]+)\\\""@],
        _ => Seq::empty(),
    }
}

fn import_patterns_of(lang: ProgrammingLanguage) -> (res: Vec<&'static str>)
    ensures
        res@.map_values(|p: &str| p@) == import_patterns(lang),
{
    let v: Vec<&'static str> = match lang {
        ProgrammingLanguage::TypeScript | ProgrammingLanguage::JavaScript => vec![
            "(?m)^\\s*import\\s+.*?\\s+from\\s+['\\\"]([^'\\\"]+)['\\\"]",
            "(?m)^\\s*import\\s*['\\\"]([^'\\\"]+)['\\\"]",
        ],
        ProgrammingLanguage::Python => vec!["(?m)^\\s*from\\s+([\\w.]+)\\s+import\\s+([\\w*]+)", "(?m)^\\s*import\\s+([\\w.]+)"],
        ProgrammingLanguage::Php => vec!["(?m)^\\s*use\\s+([^;]+);"],
        ProgrammingLanguage::Go => vec!["(?m)^\\s*import\\s+(?:\\w+\\s+)?\\\"([^\\\"]+)\\\""],
        _ => vec![],
    };
    assert(v@.map_values(|p: &str| p@) =~= import_patterns(lang));
    v
}

/// The path separators of an import: `/`, `.` and `\`.
pub open spec fn import_separators() -> Seq<char> {
    seq!['/', '.', '\\']
}

/// What follows the last of `seps` in `s` (all of `s` when none occurs).
pub open spec fn after_last(s: Seq<char>, seps: Seq<char>) -> Seq<char>
    decreases s.len(),
{
    if s.len() == 0 {
        s
    } else if seps.contains(s.last()) {
        Seq::empty()
    } else {
        after_last(s.drop_last(), seps).push(s.last())
    }
}

/// A sequence of two separators holds exactly those two characters.
pub proof fn lemma_pair_contains(a: char, b: char, x: char)
    ensures
        seq![a, b].contains(x) <==> (x == a || x == b),
{
    let s = seq![a, b];
    if x == a {
        assert(s[0] == a);
    }
    if x == b {
        assert(s[1] == b);
    }
    if s.contains(x) {
        let j = choose|j: int| 0 <= j < s.len() && s[j] == x;
        assert(j == 0 || j == 1);
    }
}

/// A sequence of one separator holds exactly that character.
pub proof fn lemma_single_contains(a: char, x: char)
    ensures
        seq![a].contains(x) <==> x == a,
{
    let s = seq![a];
    if x == a {
        assert(s[0] == a);
    }
    if s.contains(x) {
        let j = choose|j: int| 0 <= j < s.len() && s[j] == x;
        assert(j == 0);
    }
}

/// An import as plain values: line, full path, imported name, matched text, whether it
/// imports everything.
pub type ImportView = (int, Seq<char>, Seq<char>, Seq<char>, bool);

/// The import a match describes, if its first group took part: the group trimmed is the
/// path, the second group (when present) or the path's last segment the imported name; a
/// path ending in `*` imports everything.
pub open spec fn import_from(source: Seq<char>, c: CaptureView) -> Option<ImportView> {
    if c.3.len() < 1 || c.3[0] is None || c.4.len() < 1 || c.4[0] is None {
        None
    } else {
        let full = spec_trim(c.3[0]->0);
        let name = if c.3.len() >= 2 && c.3[1] is Some { c.3[1]->0 } else { after_last(full, import_separators()) };
        Some((line_of(source, c.4[0]->0), full, name, c.2, full.len() > 0 && full.last() == '*'))
    }
}

/// The imports the matches describe, in order.
pub open spec fn imports_of(source: Seq<char>, cs: Seq<CaptureView>) -> Seq<ImportView>
    decreases cs.len(),
{
    if cs.len() == 0 {
        Seq::empty()
    } else {
        let rest = imports_of(source, cs.drop_last());
        match import_from(source, cs.last()) {
            Some(i) => rest.push(i),
            None => rest,
        }
    }
}

/// The imports found by each pattern in turn; a pattern that does not compile finds none.
pub open spec fn imports_for(source: Seq<char>, patterns: Seq<Seq<char>>) -> Seq<ImportView>
    decreases patterns.len(),
{
    if patterns.len() == 0 {
        Seq::empty()
    } else {
        imports_for(source, patterns.drop_last()) + match spec_regex_captures(patterns.last(), source) {
            Some(cs) => imports_of(source, cs),
            None => Seq::empty(),
        }
    }
}

/// `i` is the import `v` of the file at `path`.
pub open spec fn import_is(i: ImportReference, path: Seq<char>, v: ImportView) -> bool {
    &&& i.source_path@ == path
    &&& i.line == v.0
    &&& i.full_path@ == v.1
    &&& i.imported_name@ == v.2
    &&& i.alias is None
    &&& i.raw@ == v.3
    &&& i.is_wildcard == v.4
}

/// The matches' offsets lie within the text, and each group has a start when it has a text.
pub open spec fn captures_within(text: Seq<char>, caps: Seq<RegexCapture>) -> bool {
    forall|k: int| 0 <= k < caps.len() ==> (#[trigger] caps[k]).start <= caps[k].end
        && caps[k].end <= encode_utf8(text).len()
        && caps[k].groups@.len() == caps[k].group_starts@.len()
        && forall|g: int| 0 <= g < caps[k].groups@.len() ==> (caps[k].groups@[g] is Some <==> caps[k].group_starts@[g] is Some)
            && (caps[k].group_starts@[g] matches Some(s) ==> s <= encode_utf8(text).len())
}

fn is_among(c: char, seps: &Vec<char>) -> (res: bool)
    ensures
        res == seps@.contains(c),
{
    let mut i: usize = 0;
    while i < seps.len()
        invariant
            i <= seps@.len(),
            forall|j: int| 0 <= j < i ==> seps@[j] != c,
        decreases seps.len() - i,
    {
        if seps[i] == c {
            assert(seps@[i as int] == c);
            return true;
        }
        i = i + 1;
    }
    false
}

fn last_segment(s: &Vec<char>, seps: &Vec<char>) -> (res: Vec<char>)
    ensures
        res@ == after_last(s@, seps@),
{
    let mut start: usize = s.len();
    assert(s@.subrange(0, s@.len() as int) =~= s@);
    assert(after_last(s@, seps@) + s@.subrange(s@.len() as int, s@.len() as int) =~= after_last(s@, seps@));
    while start > 0 && !is_among(s[start - 1], seps)
        invariant
            start <= s@.len(),
            after_last(s@, seps@) == after_last(s@.subrange(0, start as int), seps@) + s@.subrange(start as int, s@.len() as int),
        decreases start,
    {
        let ghost pre = s@.subrange(0, start as int);
        assert(pre.drop_last() =~= s@.subrange(0, start - 1));
        assert(pre.last() == s@[start - 1]);
        assert(after_last(s@.subrange(0, start - 1), seps@).push(s@[start - 1]) + s@.subrange(start as int, s@.len() as int)
            =~= after_last(s@.subrange(0, start - 1), seps@) + s@.subrange(start - 1, s@.len() as int));
        start = start - 1;
    }
    proof {
        if start > 0 {
            let pre = s@.subrange(0, start as int);
            assert(pre.last() == s@[start - 1]);
            assert(after_last(pre, seps@) =~= Seq::<char>::empty());
        } else {
            assert(s@.subrange(0, 0) =~= Seq::<char>::empty());
        }
        assert(Seq::<char>::empty() + s@.subrange(start as int, s@.len() as int) =~= s@.subrange(start as int, s@.len() as int));
    }
    crate::text::slice_chars(s, start, s.len())
}

/// The imports that matches of an import pattern describe in the file at `path`, in order.
pub fn imports_from_captures(path: &str, source: &str, caps: &Vec<RegexCapture>) -> (res: Vec<ImportReference>)
    requires
        captures_within(source@, caps@),
    ensures
        res@.len() == imports_of(source@, caps@.map_values(|c: RegexCapture| capture_view(c))).len(),
        forall|k: int| 0 <= k < res@.len() ==> import_is(#[trigger] res@[k], path@, imports_of(source@, caps@.map_values(|c: RegexCapture| capture_view(c)))[k]),
{
    let ghost cvs = caps@.map_values(|c: RegexCapture| capture_view(c));
    let mut out: Vec<ImportReference> = Vec::new();
    let mut k: usize = 0;
    while k < caps.len()
        invariant
            k <= caps@.len(),
            cvs == caps@.map_values(|c: RegexCapture| capture_view(c)),
            captures_within(source@, caps@),
            out@.len() == imports_of(source@, cvs.subrange(0, k as int)).len(),
            forall|j: int| 0 <= j < out@.len() ==> import_is(#[trigger] out@[j], path@, imports_of(source@, cvs.subrange(0, k as int))[j]),
        decreases caps.len() - k,
    {
        let c = &caps[k];
        let ghost cv = cvs[k as int];
        assert(cvs.subrange(0, k + 1).drop_last() =~= cvs.subrange(0, k as int));
        assert(cvs.subrange(0, k + 1).last() == cv);
        assert(cv == capture_view(*c));
        let ghost before = imports_of(source@, cvs.subrange(0, k as int));
        if c.groups.len() >= 1 && c.group_starts.len() >= 1 {
            match (&c.groups[0], c.group_starts[0]) {
                (Some(g), Some(at)) => {
                    let full = trim(&chars_of(g.as_str()));
                    let name: String = if c.groups.len() >= 2 {
                        match &c.groups[1] {
                            Some(n) => n.clone(),
                            None => string_of(&last_segment(&full, &vec!['/', '.', '\\'])),
                        }
                    } else {
                        string_of(&last_segment(&full, &vec!['/', '.', '\\']))
                    };
                    let line = line_at(source, at);
                    let wildcard = full.len() > 0 && full[full.len() - 1] == '*';
                    let ghost out_before = out@;
                    out.push(ImportReference {
                        source_path: String::from_str(path),
                        line,
                        full_path: string_of(&full),
                        imported_name: name,
                        alias: None,
                        is_wildcard: wildcard,
                        raw: c.whole.clone(),
                    });
                    proof {
                        assert(import_from(source@, cv) is Some);
                        assert(imports_of(source@, cvs.subrange(0, k + 1)) == before.push(import_from(source@, cv)->0));
                        assert forall|j: int| 0 <= j < out@.len() implies import_is(#[trigger] out@[j], path@, imports_of(source@, cvs.subrange(0, k + 1))[j]) by {
                            if j < before.len() {
                                assert(out@[j] == out_before[j]);
                            }
                        }
                    }
                },
                _ => {
                    assert(import_from(source@, cv) is None);
                },
            }
        } else {
            assert(import_from(source@, cv) is None);
        }
        k = k + 1;
    }
    assert(cvs.subrange(0, caps@.len() as int) =~= cvs);
    out
}


/// The imports of a TypeScript, JavaScript, Python, PHP or Go file: those each import
/// pattern of its language finds, pattern after pattern.
pub fn collect_imports(source: &str, file: &ProjectFile) -> (res: Vec<ImportReference>)
    ensures
        res@.len() == imports_for(source@, import_patterns(file.language)).len(),
        forall|k: int| 0 <= k < res@.len() ==> import_is(#[trigger] res@[k], file.path@, imports_for(source@, import_patterns(file.language))[k]),
{
    let patterns = import_patterns_of(file.language);
    let ghost ps = import_patterns(file.language);
    let mut out: Vec<ImportReference> = Vec::new();
    let mut p: usize = 0;
    while p < patterns.len()
        invariant
            p <= patterns@.len(),
            patterns@.map_values(|q: &str| q@) == ps,
            ps == import_patterns(file.language),
            out@.len() == imports_for(source@, ps.subrange(0, p as int)).len(),
            forall|k: int| 0 <= k < out@.len() ==> import_is(#[trigger] out@[k], file.path@, imports_for(source@, ps.subrange(0, p as int))[k]),
        decreases patterns.len() - p,
    {
        let ghost before = imports_for(source@, ps.subrange(0, p as int));
        assert(ps.subrange(0, p + 1).drop_last() =~= ps.subrange(0, p as int));
        assert(ps.subrange(0, p + 1).last() == patterns@[p as int]@);
        match regex_captures(patterns[p], source) {
            Some(caps) => {
                let found = imports_from_captures(file.path.as_str(), source, &caps);
                let ghost found_views = imports_of(source@, caps@.map_values(|c: RegexCapture| capture_view(c)));
                let ghost out_before = out@;
                let mut j: usize = 0;
                while j < found.len()
                    invariant
                        j <= found@.len(),
                        found@.len() == found_views.len(),
                        forall|i: int| 0 <= i < found@.len() ==> import_is(#[trigger] found@[i], file.path@, found_views[i]),
                        out@.len() == out_before.len() + j,
                        out@.subrange(0, out_before.len() as int) == out_before,
                        forall|i: int| 0 <= i < j ==> out@[out_before.len() + i] == #[trigger] found@[i],
                    decreases found.len() - j,
                {
                    out.push(clone_import(&found[j]));
                    j = j + 1;
                }
                proof {
                    assert(imports_for(source@, ps.subrange(0, p + 1)) == before + found_views);
                    assert forall|k: int| 0 <= k < out@.len() implies import_is(#[trigger] out@[k], file.path@, (before + found_views)[k]) by {
                        if k < out_before.len() {
                            assert(out@[k] == out_before[k]);
                        } else {
                            assert(out@[k] == found@[k - out_before.len()]);
                        }
                    }
                }
            },
            None => {
                assert(imports_for(source@, ps.subrange(0, p + 1)) =~= before);
            },
        }
        p = p + 1;
    }
    assert(ps.subrange(0, ps.len() as int) =~= ps);
    out
}

fn clone_import(i: &ImportReference) -> (res: ImportReference)
    ensures
        res == *i,
{
    ImportReference {
        source_path: i.source_path.clone(),
        line: i.line,
        full_path: i.full_path.clone(),
        imported_name: i.imported_name.clone(),
        alias: crate::model::copy_opt_string(&i.alias),
        is_wildcard: i.is_wildcard,
        raw: i.raw.clone(),
    }
}


// ---------------------------------------------------------------------------
// Dart
// ---------------------------------------------------------------------------

/// The pattern of Dart declarations: classes, mixins and enums, and functions with a body.
pub open spec fn dart_declaration_pattern() -> Seq<char> {
    "(?m)^\\s*(?:abstract\\s+)?(class|mixin|enum)\\s+(\\w+)|^\\s*(?:[\\w<>?]+\\s+)+(\\w+)\\s*\\([^;]*\\)\\s*(?:async\\s*)?\\{"@
}

/// The pattern of Dart imports.
pub open spec fn dart_import_pattern() -> Seq<char> {
    "(?m)^\\s*import\\s+['\\\"]([^'\\\"]+)['\\\"]"@
}

/// The kind, name and line a Dart declaration match describes: an enum, or a class for a
/// class or mixin, when the type name took part; otherwise a function (named `unknown`
/// when no name took part); a component when the match or its line mentions `Widget`.
pub open spec fn dart_declared(source: Seq<char>, c: CaptureView) -> (NodeKind, Seq<char>, int) {
    let line = line_of(source, c.0);
    let named = c.3.len() >= 2 && c.3[1] is Some;
    let name = if named {
        c.3[1]->0
    } else if c.3.len() >= 3 && c.3[2] is Some {
        c.3[2]->0
    } else {
        "unknown"@
    };
    let kind = if named {
        if c.3[0] == Some("enum"@) { NodeKind::Enum } else { NodeKind::Class }
    } else {
        NodeKind::Function
    };
    let lines = spec_lines(source);
    let widget = seq_contains(c.2, "Widget"@) || (line - 1 < lines.len() && seq_contains(lines[line - 1], "Widget"@));
    (if widget { NodeKind::Component } else { kind }, name, line)
}

/// `n` is the node of the declaration `c` in `file`: its id joins the lowercase kind, the
/// path, the line and the name with `:`; it spans its line.
pub open spec fn dart_node_is(n: CodeNode, file: ProjectFile, source: Seq<char>, c: CaptureView) -> bool {
    let d = dart_declared(source, c);
    &&& n.id@ == spec_to_lowercase(d.0.spec_name()) + ":"@ + file.path@ + ":"@ + spec_decimal(d.2 as nat) + ":"@ + d.1
    &&& n.kind == d.0
    &&& n.name@ == d.1
    &&& n.path matches Some(p) && p@ == file.path@
    &&& n.language == Some(file.language)
    &&& n.start_line == Some(d.2 as usize)
    &&& n.end_line == Some(d.2 as usize)
    &&& n.owner is None
    &&& n.source_scope == file.source_scope
}

/// `s` without every trailing `.dart`.
pub open spec fn strip_dart(s: Seq<char>) -> Seq<char>
    decreases s.len(),
{
    if s.len() >= 5 && seq_ends_with(s, ".dart"@) {
        strip_dart(s.subrange(0, s.len() - 5))
    } else {
        s
    }
}

/// The Dart import a match describes: the quoted path, named by its last segment without
/// `.dart`.
pub open spec fn dart_import_from(source: Seq<char>, c: CaptureView) -> Option<ImportView> {
    if c.3.len() < 1 || c.3[0] is None || c.4.len() < 1 || c.4[0] is None {
        None
    } else {
        let full = c.3[0]->0;
        Some((line_of(source, c.4[0]->0), full, strip_dart(after_last(full, seq!['/'])), c.2, false))
    }
}

/// The Dart imports the matches describe, in order.
pub open spec fn dart_imports_of(source: Seq<char>, cs: Seq<CaptureView>) -> Seq<ImportView>
    decreases cs.len(),
{
    if cs.len() == 0 {
        Seq::empty()
    } else {
        let rest = dart_imports_of(source, cs.drop_last());
        match dart_import_from(source, cs.last()) {
            Some(i) => rest.push(i),
            None => rest,
        }
    }
}

fn has_text(g: &Option<String>, text: &str) -> (res: bool)
    ensures
        res == (match g {
            Some(s) => s@ == text@,
            None => false,
        }),
{
    match g {
        Some(s) => crate::model::str_equal(s.as_str(), text),
        None => false,
    }
}

fn kind_name_lower(kind: NodeKind) -> (res: Vec<char>)
    ensures
        res@ == spec_to_lowercase(kind.spec_name()),
{
    chars_of(to_lowercase(kind.as_str()).as_str())
}

/// The nodes that matches of the Dart declaration pattern describe in `file`, in order.
pub fn dart_nodes_from_captures(source: &str, file: &ProjectFile, caps: &Vec<RegexCapture>) -> (res: Vec<CodeNode>)
    requires
        captures_within(source@, caps@),
    ensures
        res@.len() == caps@.len(),
        forall|k: int| 0 <= k < res@.len() ==> dart_node_is(#[trigger] res@[k], *file, source@, capture_view(caps@[k])),
{
    let lines = split_lines(&chars_of(source));
    let mut out: Vec<CodeNode> = Vec::new();
    let mut k: usize = 0;
    while k < caps.len()
        invariant
            k <= caps@.len(),
            captures_within(source@, caps@),
            lines@.len() == spec_lines(source@).len(),
            forall|i: int| 0 <= i < lines@.len() ==> (#[trigger] lines@[i])@ == spec_lines(source@)[i],
            out@.len() == k,
            forall|i: int| 0 <= i < k ==> dart_node_is(#[trigger] out@[i], *file, source@, capture_view(caps@[i])),
        decreases caps.len() - k,
    {
        let c = &caps[k];
        let ghost cv = capture_view(*c);
        let line = line_at(source, c.start);
        let named = c.groups.len() >= 2 && c.groups[1].is_some();
        let name: String = if named {
            match &c.groups[1] {
                Some(n) => n.clone(),
                None => String::new(),
            }
        } else if c.groups.len() >= 3 {
            match &c.groups[2] {
                Some(n) => n.clone(),
                None => String::from_str("unknown"),
            }
        } else {
            String::from_str("unknown")
        };
        let base_kind = if named {
            if has_text(&c.groups[0], "enum") { NodeKind::Enum } else { NodeKind::Class }
        } else {
            NodeKind::Function
        };
        let widget_line = line >= 1 && line - 1 < lines.len() && contains(&lines[line - 1], &chars_of("Widget"));
        let widget = contains(&chars_of(c.whole.as_str()), &chars_of("Widget")) || widget_line;
        let kind = if widget { NodeKind::Component } else { base_kind };
        proof {
            assert(cv.3.len() == c.groups@.len());
            if named {
                assert(cv.3[1] == Some(c.groups@[1]->0@));
                assert(cv.3[0] == match c.groups@[0] { Some(s) => Some(s@), None => None::<Seq<char>> });
            } else if c.groups@.len() >= 3 {
                assert(cv.3[2] == match c.groups@[2] { Some(s) => Some(s@), None => None::<Seq<char>> });
            }
            assert(line >= 1);
            assert(dart_declared(source@, cv) == (kind, name@, line as int));
        }
        let mut id = kind_name_lower(kind);
        append_chars(&mut id, &chars_of(":"));
        append_chars(&mut id, &chars_of(file.path.as_str()));
        append_chars(&mut id, &chars_of(":"));
        append_chars(&mut id, &decimal(line));
        append_chars(&mut id, &chars_of(":"));
        append_chars(&mut id, &chars_of(name.as_str()));
        out.push(CodeNode {
            id: string_of(&id),
            kind,
            name,
            path: Some(file.path.clone()),
            language: Some(file.language),
            start_line: Some(line),
            end_line: Some(line),
            owner: None,
            source_scope: file.source_scope,
        });
        k = k + 1;
    }
    out
}

fn strip_dart_suffix(s: &Vec<char>) -> (res: Vec<char>)
    ensures
        res@ == strip_dart(s@),
{
    let suffix = chars_of(".dart");
    proof {
        reveal_strlit(".dart");
    }
    let mut end: usize = s.len();
    let mut cur = crate::text::slice_chars(s, 0, end);
    assert(s@.subrange(0, s@.len() as int) =~= s@);
    while end >= 5 && ends_with(&cur, &suffix)
        invariant
            end <= s@.len(),
            cur@ == s@.subrange(0, end as int),
            suffix@ == ".dart"@,
            strip_dart(cur@) == strip_dart(s@),
        decreases end,
    {
        assert(strip_dart(cur@) == strip_dart(cur@.subrange(0, cur@.len() - 5)));
        assert(cur@.subrange(0, cur@.len() - 5) =~= s@.subrange(0, end - 5));
        end = end - 5;
        cur = crate::text::slice_chars(s, 0, end);
    }
    cur
}

/// The imports that matches of the Dart import pattern describe in the file at `path`.
pub fn dart_imports_from_captures(path: &str, source: &str, caps: &Vec<RegexCapture>) -> (res: Vec<ImportReference>)
    requires
        captures_within(source@, caps@),
    ensures
        res@.len() == dart_imports_of(source@, caps@.map_values(|c: RegexCapture| capture_view(c))).len(),
        forall|k: int| 0 <= k < res@.len() ==> import_is(#[trigger] res@[k], path@, dart_imports_of(source@, caps@.map_values(|c: RegexCapture| capture_view(c)))[k]),
{
    let ghost cvs = caps@.map_values(|c: RegexCapture| capture_view(c));
    let mut out: Vec<ImportReference> = Vec::new();
    let mut k: usize = 0;
    while k < caps.len()
        invariant
            k <= caps@.len(),
            cvs == caps@.map_values(|c: RegexCapture| capture_view(c)),
            captures_within(source@, caps@),
            out@.len() == dart_imports_of(source@, cvs.subrange(0, k as int)).len(),
            forall|j: int| 0 <= j < out@.len() ==> import_is(#[trigger] out@[j], path@, dart_imports_of(source@, cvs.subrange(0, k as int))[j]),
        decreases caps.len() - k,
    {
        let c = &caps[k];
        let ghost cv = cvs[k as int];
        assert(cvs.subrange(0, k + 1).drop_last() =~= cvs.subrange(0, k as int));
        assert(cvs.subrange(0, k + 1).last() == cv);
        assert(cv == capture_view(*c));
        let ghost before = dart_imports_of(source@, cvs.subrange(0, k as int));
        if c.groups.len() >= 1 && c.group_starts.len() >= 1 {
            match (&c.groups[0], c.group_starts[0]) {
                (Some(g), Some(at)) => {
                    let full = chars_of(g.as_str());
                    let slash = vec!['/'];
                    assert(slash@ =~= seq!['/']);
                    let name = strip_dart_suffix(&last_segment(&full, &slash));
                    let line = line_at(source, at);
                    let ghost out_before = out@;
                    out.push(ImportReference {
                        source_path: String::from_str(path),
                        line,
                        full_path: g.clone(),
                        imported_name: string_of(&name),
                        alias: None,
                        is_wildcard: false,
                        raw: c.whole.clone(),
                    });
                    proof {
                        assert(dart_import_from(source@, cv) is Some);
                        assert(dart_imports_of(source@, cvs.subrange(0, k + 1)) == before.push(dart_import_from(source@, cv)->0));
                        assert forall|j: int| 0 <= j < out@.len() implies import_is(#[trigger] out@[j], path@, dart_imports_of(source@, cvs.subrange(0, k + 1))[j]) by {
                            if j < before.len() {
                                assert(out@[j] == out_before[j]);
                            }
                        }
                    }
                },
                _ => {
                    assert(dart_import_from(source@, cv) is None);
                },
            }
        } else {
            assert(dart_import_from(source@, cv) is None);
        }
        k = k + 1;
    }
    assert(cvs.subrange(0, caps@.len() as int) =~= cvs);
    out
}

/// Analyses a Dart file line by line: a node per declaration the declaration pattern
/// finds, and the imports the import pattern finds; no calls. Fails when a pattern does not
/// compile.
pub fn analyze_dart(source: &str, file: &ProjectFile) -> (res: Result<FileAnalysis, String>)
    ensures
        res is Ok <==> spec_regex_captures(dart_declaration_pattern(), source@) is Some
            && spec_regex_captures(dart_import_pattern(), source@) is Some,
        res matches Ok(a) ==> a.calls@.len() == 0
            && a.nodes@.len() == spec_regex_captures(dart_declaration_pattern(), source@)->0.len()
            && (forall|k: int| 0 <= k < a.nodes@.len() ==> dart_node_is(#[trigger] a.nodes@[k], *file, source@,
                spec_regex_captures(dart_declaration_pattern(), source@)->0[k]))
            && a.imports@.len() == dart_imports_of(source@, spec_regex_captures(dart_import_pattern(), source@)->0).len()
            && forall|k: int| 0 <= k < a.imports@.len() ==> import_is(#[trigger] a.imports@[k], file.path@,
                dart_imports_of(source@, spec_regex_captures(dart_import_pattern(), source@)->0)[k]),
{
    let declarations = match regex_captures(
        "(?m)^\\s*(?:abstract\\s+)?(class|mixin|enum)\\s+(\\w+)|^\\s*(?:[\\w<>?]+\\s+)+(\\w+)\\s*\\([^;]*\\)\\s*(?:async\\s*)?\\{",
        source,
    ) {
        Some(c) => c,
        None => {
            return Err(String::from_str("invalid Dart declaration pattern"));
        },
    };
    let nodes = dart_nodes_from_captures(source, file, &declarations);
    proof {
        assert forall|k: int| 0 <= k < nodes@.len() implies
            capture_view(declarations@[k]) == spec_regex_captures(dart_declaration_pattern(), source@)->0[k] by {}
    }
    let found = match regex_captures("(?m)^\\s*import\\s+['\\\"]([^'\\\"]+)['\\\"]", source) {
        Some(c) => c,
        None => {
            return Err(String::from_str("invalid Dart import pattern"));
        },
    };
    let imports = dart_imports_from_captures(file.path.as_str(), source, &found);
    Ok(FileAnalysis { nodes, imports, calls: Vec::new() })
}

} // verus!
