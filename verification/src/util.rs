//! Small text utilities of the analyzers and the interface: Rust paths, model payloads,
//! request variables and relative paths.
use vstd::prelude::*;

use crate::dto::AiDocumentationError;
use crate::json::{JsonDoc, get, get_text, text_of};
use crate::openapi::array_member;
use crate::model::{ImportReference, ProgrammingLanguage, ProjectFile, str_equal};
use crate::text::{
    append_chars, chars_of, find_char, first_occurrence_from, find_str, occurs_at, seq_ends_with, seq_starts_with,
    slice_chars, spec_join, spec_trim, string_of, trim, join_chars,
};

verus! {

// ---------------------------------------------------------------------------
// Rust paths
// ---------------------------------------------------------------------------

/// `prefix::suffix`, either side left out when empty.
pub open spec fn spec_join_rust_path(prefix: Seq<char>, suffix: Seq<char>) -> Seq<char> {
    if prefix.len() == 0 {
        suffix
    } else if suffix.len() == 0 {
        prefix
    } else {
        prefix + "::"@ + suffix
    }
}

/// Joins two parts of a Rust path.
pub fn join_rust_path(prefix: &str, suffix: &str) -> (res: String)
    ensures
        res@ == spec_join_rust_path(prefix@, suffix@),
{
    if prefix.unicode_len() == 0 {
        return String::from_str(suffix);
    }
    if suffix.unicode_len() == 0 {
        return String::from_str(prefix);
    }
    let mut s = String::from_str(prefix);
    s.append("::");
    s.append(suffix);
    s
}

/// The part after the last `::`, scanning occurrences left to right from `i`.
pub open spec fn after_last_separator(s: Seq<char>, i: int) -> Seq<char>
    decreases s.len() + 1 - i,
{
    match first_occurrence_from(s, "::"@, i) {
        Some(k) => if k + 2 <= s.len() && k >= i { after_last_separator(s, k + 2) } else { s.subrange(i, s.len() as int) },
        None => if 0 <= i <= s.len() { s.subrange(i, s.len() as int) } else { s },
    }
}

proof fn lemma_first_occurrence_bounds(hay: Seq<char>, needle: Seq<char>, i: int)
    ensures
        first_occurrence_from(hay, needle, i) matches Some(k) ==> i <= k && k + needle.len() <= hay.len()
            && occurs_at(hay, needle, k),
    decreases hay.len() + 1 - i,
{
    if i < 0 || i + needle.len() > hay.len() {
    } else if occurs_at(hay, needle, i) {
    } else {
        lemma_first_occurrence_bounds(hay, needle, i + 1);
    }
}

/// The last segment of a Rust path: `crate::auth::login` gives `login`.
pub fn last_path_segment(path: &str) -> (res: String)
    ensures
        res@ == after_last_separator(path@, 0),
{
    let c = chars_of(path);
    let sep = chars_of("::");
    proof {
        reveal_strlit("::");
    }
    let n = c.len();
    let mut start: usize = 0;
    loop
        invariant
            start <= n == c@.len(),
            c@ == path@,
            sep@ == "::"@,
            sep@.len() == 2,
            after_last_separator(path@, 0) == after_last_separator(path@, start as int),
        decreases n - start,
    {
        let rest = slice_chars(&c, start, n);
        match find_str(&rest, &sep) {
            Some(k) => {
                proof {
                    lemma_first_occurrence_shift(c@, sep@, start as int, k as int);
                }
                start = start + k + 2;
            },
            None => {
                proof {
                    lemma_first_occurrence_none_shift(c@, sep@, start as int);
                }
                return string_of(&rest);
            },
        }
    }
}

proof fn lemma_first_occurrence_shift(s: Seq<char>, needle: Seq<char>, start: int, k: int)
    requires
        0 <= start <= s.len(),
        first_occurrence_from(s.subrange(start, s.len() as int), needle, 0) == Some(k),
    ensures
        first_occurrence_from(s, needle, start) == Some(start + k),
{
    lemma_shift_aux(s, needle, start, 0);
}

proof fn lemma_shift_aux(s: Seq<char>, needle: Seq<char>, start: int, j: int)
    requires
        0 <= start <= s.len(),
        0 <= j,
    ensures
        first_occurrence_from(s.subrange(start, s.len() as int), needle, j) == match first_occurrence_from(s, needle, start + j) {
            Some(x) => Some(x - start),
            None => None::<int>,
        },
    decreases s.len() + 1 - (start + j),
{
    let t = s.subrange(start, s.len() as int);
    if j + needle.len() > t.len() {
    } else {
        assert(occurs_at(t, needle, j) == occurs_at(s, needle, start + j)) by {
            if occurs_at(t, needle, j) {
                assert(s.subrange(start + j, start + j + needle.len()) =~= t.subrange(j, j + needle.len()));
            }
            if occurs_at(s, needle, start + j) {
                assert(s.subrange(start + j, start + j + needle.len()) =~= t.subrange(j, j + needle.len()));
            }
        }
        if !occurs_at(t, needle, j) {
            lemma_shift_aux(s, needle, start, j + 1);
        }
    }
}

proof fn lemma_first_occurrence_none_shift(s: Seq<char>, needle: Seq<char>, start: int)
    requires
        0 <= start <= s.len(),
        first_occurrence_from(s.subrange(start, s.len() as int), needle, 0) is None,
    ensures
        first_occurrence_from(s, needle, start) is None,
{
    lemma_shift_aux(s, needle, start, 0);
}

/// Records a `use` of a Rust file: the imported name is the last segment, or `*` for a glob.
pub fn push_import(
    imports: &mut Vec<ImportReference>,
    source_path: &str,
    line: usize,
    full_path: String,
    alias: Option<String>,
    is_wildcard: bool,
    raw_use: &str,
)
    ensures
        final(imports)@.len() == old(imports)@.len() + 1,
        final(imports)@.subrange(0, old(imports)@.len() as int) == old(imports)@,
        final(imports)@.last().source_path@ == source_path@,
        final(imports)@.last().line == line,
        final(imports)@.last().full_path == full_path,
        final(imports)@.last().alias == alias,
        final(imports)@.last().is_wildcard == is_wildcard,
        final(imports)@.last().raw@ == raw_use@,
        final(imports)@.last().imported_name@ == if is_wildcard { "*"@ } else { after_last_separator(full_path@, 0) },
{
    let imported_name = if is_wildcard { String::from_str("*") } else { last_path_segment(full_path.as_str()) };
    let ghost before = imports@;
    imports.push(ImportReference {
        source_path: String::from_str(source_path),
        line,
        full_path,
        imported_name,
        alias,
        is_wildcard,
        raw: String::from_str(raw_use),
    });
    proof {
        assert(imports@.subrange(0, before.len() as int) =~= before);
    }
}

// ---------------------------------------------------------------------------
// Model payloads
// ---------------------------------------------------------------------------

/// ASCII lowercase of a character; other characters stay.
pub open spec fn ascii_lower(c: char) -> char {
    if 'A' <= c && c <= 'Z' { (((c as u32) + 32) as u8) as char } else { c }
}

/// Equality up to ASCII case, as `str::eq_ignore_ascii_case` tests it.
pub open spec fn eq_ignore_ascii_case(a: Seq<char>, b: Seq<char>) -> bool {
    a.len() == b.len() && forall|k: int| 0 <= k < a.len() ==> ascii_lower(#[trigger] a[k]) == ascii_lower(b[k])
}

/// The JSON a model sent: the trimmed text, or the body of one Markdown fence (untagged or
/// tagged `json`).
pub open spec fn spec_json_payload(raw: Seq<char>) -> Result<Seq<char>, Seq<char>> {
    let t = spec_trim(raw);
    if seq_starts_with(t, "```"@) {
        let fenced = t.subrange(3, t.len() as int);
        match crate::text::index_of(fenced, '\n') {
            None => Err("malformed markdown fence"@),
            Some(nl) => {
                let language = spec_trim(fenced.subrange(0, nl));
                let body = fenced.subrange(nl + 1, fenced.len() as int);
                if language.len() > 0 && !eq_ignore_ascii_case(language, "json"@) {
                    Err("unsupported markdown fence language"@)
                } else if seq_ends_with(body, "```"@) {
                    Ok(spec_trim(body.subrange(0, body.len() - 3)))
                } else {
                    Err("unclosed markdown fence"@)
                }
            },
        }
    } else {
        Ok(t)
    }
}

fn lower_ascii(c: char) -> (res: char)
    ensures
        res == ascii_lower(c),
{
    if 'A' <= c && c <= 'Z' { (((c as u32) + 32) as u8) as char } else { c }
}

fn same_ignoring_ascii_case(a: &Vec<char>, b: &Vec<char>) -> (res: bool)
    ensures
        res == eq_ignore_ascii_case(a@, b@),
{
    if a.len() != b.len() {
        return false;
    }
    let mut k: usize = 0;
    while k < a.len()
        invariant
            k <= a@.len(),
            a@.len() == b@.len(),
            forall|j: int| 0 <= j < k ==> ascii_lower(#[trigger] a@[j]) == ascii_lower(b@[j]),
        decreases a.len() - k,
    {
        if lower_ascii(a[k]) != lower_ascii(b[k]) {
            return false;
        }
        k = k + 1;
    }
    true
}

/// The JSON text of a model's answer, with an optional Markdown fence removed.
pub fn json_payload(raw: &str) -> (res: Result<String, AiDocumentationError>)
    ensures
        match res {
            Ok(p) => spec_json_payload(raw@) == Ok::<Seq<char>, Seq<char>>(p@),
            Err(AiDocumentationError::InvalidStructuredOutput(m)) => spec_json_payload(raw@) == Err::<Seq<char>, Seq<char>>(m@),
            Err(_) => false,
        },
{
    let t = trim(&chars_of(raw));
    let fence = chars_of("```");
    proof {
        reveal_strlit("```");
    }
    if !crate::text::starts_with(&t, &fence) {
        return Ok(string_of(&t));
    }
    let tn = t.len();
    let fenced = slice_chars(&t, 3, tn);
    let fln = fenced.len();
    match find_char(&fenced, '\n') {
        None => Err(AiDocumentationError::InvalidStructuredOutput(String::from_str("malformed markdown fence"))),
        Some(nl) => {
            proof {
                crate::text::lemma_index_of_from_bounds(fenced@, '\n', 0);
                assert(crate::text::index_of_from(fenced@, '\n', 0) == Some(nl as int));
            }
            let language = trim(&slice_chars(&fenced, 0, nl));
            let body = slice_chars(&fenced, nl + 1, fln);
            if language.len() > 0 && !same_ignoring_ascii_case(&language, &chars_of("json")) {
                return Err(AiDocumentationError::InvalidStructuredOutput(String::from_str("unsupported markdown fence language")));
            }
            if crate::text::ends_with(&body, &fence) {
                let bn = body.len();
                Ok(string_of(&trim(&slice_chars(&body, 0, bn - 3))))
            } else {
                Err(AiDocumentationError::InvalidStructuredOutput(String::from_str("unclosed markdown fence")))
            }
        },
    }
}

// ---------------------------------------------------------------------------
// Request variables
// ---------------------------------------------------------------------------

/// `s[i..]` with every occurrence of `pattern` replaced by `by`, left to right, as
/// `str::replace` does.
pub open spec fn replace_from(s: Seq<char>, pattern: Seq<char>, by: Seq<char>, i: int) -> Seq<char>
    decreases s.len() - i,
{
    if i < 0 || i >= s.len() || pattern.len() == 0 {
        if 0 <= i <= s.len() { s.subrange(i, s.len() as int) } else { Seq::empty() }
    } else if occurs_at(s, pattern, i) {
        by + replace_from(s, pattern, by, i + pattern.len())
    } else {
        seq![s[i]] + replace_from(s, pattern, by, i + 1)
    }
}

/// The placeholder of a variable: `{{name}}`.
pub open spec fn placeholder(name: Seq<char>) -> Seq<char> {
    "{{"@ + name + "}}"@
}

/// `value` with the placeholders of the first `n` variables replaced, in order.
pub open spec fn substituted(value: Seq<char>, variables: Seq<(String, String)>, n: int) -> Seq<char>
    decreases n,
{
    if n <= 0 {
        value
    } else {
        let prev = substituted(value, variables, n - 1);
        replace_from(prev, placeholder(variables[n - 1].0@), variables[n - 1].1@, 0)
    }
}

fn replace_all(s: &Vec<char>, pattern: &Vec<char>, by: &Vec<char>) -> (res: Vec<char>)
    requires
        pattern@.len() > 0,
    ensures
        res@ == replace_from(s@, pattern@, by@, 0),
{
    let n = s.len();
    let mut out: Vec<char> = Vec::new();
    let mut i: usize = 0;
    while i < n
        invariant
            i <= n == s@.len(),
            pattern@.len() > 0,
            out@ + replace_from(s@, pattern@, by@, i as int) == replace_from(s@, pattern@, by@, 0),
        decreases n - i,
    {
        if crate::text::matches_at(s, pattern, i) {
            let ghost before = out@;
            append_chars(&mut out, by);
            proof {
                assert(out@ + replace_from(s@, pattern@, by@, i + pattern@.len()) =~= before + (by@ + replace_from(
                    s@,
                    pattern@,
                    by@,
                    i + pattern@.len(),
                )));
            }
            i = i + pattern.len();
        } else {
            let ghost before = out@;
            out.push(s[i]);
            proof {
                assert(out@ + replace_from(s@, pattern@, by@, i + 1) =~= before + (seq![s@[i as int]] + replace_from(
                    s@,
                    pattern@,
                    by@,
                    i + 1,
                )));
            }
            i = i + 1;
        }
    }
    proof {
        assert(s@.subrange(i as int, s@.len() as int) =~= Seq::<char>::empty());
        assert(out@ =~= out@ + Seq::<char>::empty());
    }
    out
}

/// `value` with each `{{name}}` replaced by the variable's value, variables taken in order.
pub fn substitute_api_variables(value: &str, variables: &Vec<(String, String)>) -> (res: String)
    ensures
        res@ == substituted(value@, variables@, variables@.len() as int),
{
    let mut current = chars_of(value);
    let mut k: usize = 0;
    while k < variables.len()
        invariant
            k <= variables@.len(),
            current@ == substituted(value@, variables@, k as int),
        decreases variables.len() - k,
    {
        let mut pattern = chars_of("{{");
        append_chars(&mut pattern, &chars_of(variables[k].0.as_str()));
        append_chars(&mut pattern, &chars_of("}}"));
        proof {
            reveal_strlit("{{");
            reveal_strlit("}}");
            assert(pattern@ == placeholder(variables@[k as int].0@));
        }
        current = replace_all(&current, &pattern, &chars_of(variables[k].1.as_str()));
        k = k + 1;
    }
    string_of(&current)
}

/// Adds to `target`, in order, the values it does not hold yet.
pub fn extend_unique(target: &mut Vec<String>, values: &Vec<String>)
    ensures
        final(target)@.subrange(0, old(target)@.len() as int) == old(target)@,
        forall|x: Seq<char>| #[trigger] crate::text::views(final(target)@).contains(x) <==> (crate::text::views(old(target)@).contains(x)
            || crate::text::views(values@).contains(x)),
{
    let ghost start = target@;
    let mut k: usize = 0;
    while k < values.len()
        invariant
            k <= values@.len(),
            target@.len() >= start.len(),
            target@.subrange(0, start.len() as int) == start,
            forall|x: Seq<char>| #[trigger] crate::text::views(target@).contains(x) <==> (crate::text::views(start).contains(x)
                || crate::text::views(values@.subrange(0, k as int)).contains(x)),
        decreases values.len() - k,
    {
        let v = values[k].as_str();
        let mut present = false;
        let mut j: usize = 0;
        while j < target.len() && !present
            invariant
                j <= target@.len(),
                present ==> crate::text::views(target@).contains(v@),
                !present ==> forall|i: int| 0 <= i < j ==> target@[i]@ != v@,
            decreases target.len() - j,
        {
            if str_equal(target[j].as_str(), v) {
                present = true;
                assert(crate::text::views(target@)[j as int] == v@);
            }
            j = j + 1;
        }
        let ghost before = target@;
        let ghost prefix = values@.subrange(0, k as int);
        let ghost next = values@.subrange(0, k + 1);
        proof {
            assert(crate::text::views(next) =~= crate::text::views(prefix).push(v@));
        }
        if !present {
            target.push(values[k].clone());
            proof {
                assert(crate::text::views(target@) =~= crate::text::views(before).push(v@));
                assert(target@.subrange(0, start.len() as int) =~= before.subrange(0, start.len() as int));
            }
        }
        proof {
            let vt = crate::text::views(target@);
            let vb = crate::text::views(before);
            let vs = crate::text::views(start);
            let vp = crate::text::views(prefix);
            let vn = crate::text::views(next);
            assert forall|x: Seq<char>| #[trigger] vt.contains(x) implies vs.contains(x) || vn.contains(x) by {
                let i = choose|i: int| 0 <= i < vt.len() && vt[i] == x;
                if i < vb.len() {
                    assert(vb[i] == x);
                    assert(vb.contains(x));
                    if vp.contains(x) {
                        let j = choose|j: int| 0 <= j < vp.len() && vp[j] == x;
                        assert(vn[j] == x);
                    }
                } else {
                    assert(x == v@);
                    assert(vn[k as int] == x);
                }
            }
            assert forall|x: Seq<char>| vs.contains(x) || vn.contains(x) implies #[trigger] vt.contains(x) by {
                let in_before = vb.contains(x);
                if vs.contains(x) {
                    assert(vb.contains(x));
                } else {
                    let j = choose|j: int| 0 <= j < vn.len() && vn[j] == x;
                    if j < k {
                        assert(vp[j] == x);
                        assert(vp.contains(x));
                        assert(vb.contains(x));
                    } else {
                        assert(x == v@);
                    }
                }
                if vb.contains(x) {
                    let i = choose|i: int| 0 <= i < vb.len() && vb[i] == x;
                    assert(vt[i] == x);
                } else if x == v@ && !present {
                    assert(vt[before.len() as int] == x);
                }
            }
        }
        k = k + 1;
    }
    proof {
        assert(values@.subrange(0, values@.len() as int) =~= values@);
    }
}

// ---------------------------------------------------------------------------
// Relative paths and analyzers
// ---------------------------------------------------------------------------

/// The components closed and the piece in progress after reading `s`, from the closed
/// components `head`.
pub open spec fn components_state(head: Seq<Seq<char>>, s: Seq<char>) -> (Seq<Seq<char>>, Seq<char>)
    decreases s.len(),
{
    if s.len() == 0 {
        (head, Seq::empty())
    } else {
        let st = components_state(head, s.drop_last());
        if s.last() == '/' {
            (crate::dependencies::close_part(st.0, st.1), Seq::empty())
        } else {
            (st.0, st.1.push(s.last()))
        }
    }
}

/// The components of a path: `/` first for an absolute path, then the non-empty pieces,
/// `.` kept only in first place.
pub open spec fn spec_components(path: Seq<char>) -> Seq<Seq<char>> {
    let head: Seq<Seq<char>> = if path.len() > 0 && path[0] == '/' { seq!["/"@] } else { Seq::empty() };
    let st = components_state(head, path);
    crate::dependencies::close_part(st.0, st.1)
}

/// The components of a path: `/` first for an absolute path, then the non-empty pieces,
/// `.` kept only in first place.
fn components(path: &str) -> (res: Vec<String>)
    ensures
        crate::text::views(res@) == spec_components(path@),
{
    let c = chars_of(path);
    let mut parts: Vec<String> = Vec::new();
    if c.len() > 0 && c[0] == '/' {
        parts.push(String::from_str("/"));
    }
    let ghost head = crate::text::views(parts@);
    assert(head =~= if path@.len() > 0 && path@[0] == '/' { seq!["/"@] } else { Seq::<Seq<char>>::empty() });
    let mut current: Vec<char> = Vec::new();
    let mut i: usize = 0;
    assert(c@.subrange(0, 0) =~= Seq::<char>::empty());
    while i < c.len()
        invariant
            i <= c@.len(),
            c@ == path@,
            crate::text::views(parts@) == components_state(head, c@.subrange(0, i as int)).0,
            current@ == components_state(head, c@.subrange(0, i as int)).1,
        decreases c.len() - i,
    {
        let ghost pre = c@.subrange(0, i + 1);
        assert(pre.drop_last() =~= c@.subrange(0, i as int));
        assert(pre.last() == c@[i as int]);
        if c[i] == '/' {
            let dot = current.len() == 1 && current[0] == '.';
            if current.len() > 0 && !(dot && parts.len() > 0) {
                let piece = string_of(&current);
                parts.push(piece);
                assert(crate::text::views(parts@) =~= crate::text::views(parts@.drop_last()).push(current@));
            }
            current = Vec::new();
            assert(current@ =~= Seq::<char>::empty());
        } else {
            current.push(c[i]);
        }
        i = i + 1;
    }
    assert(c@.subrange(0, c@.len() as int) =~= c@);
    let dot = current.len() == 1 && current[0] == '.';
    if current.len() > 0 && !(dot && parts.len() > 0) {
        let piece = string_of(&current);
        parts.push(piece);
        assert(crate::text::views(parts@) =~= crate::text::views(parts@.drop_last()).push(current@));
    }
    parts
}

/// The components joined with `/`, none added right after a leading `/`.
pub open spec fn relative_join(s: Seq<Seq<char>>) -> Seq<char>
    decreases s.len(),
{
    if s.len() == 0 {
        Seq::empty()
    } else {
        let o = relative_join(s.drop_last());
        (if s.len() > 1 && o != "/"@ { o + "/"@ } else { o }) + s.last()
    }
}

/// A source path relative to the project root when its components begin with the root's;
/// the full path otherwise.
pub open spec fn spec_relative_path(root: Seq<char>, path: Seq<char>) -> Seq<char> {
    let r = spec_components(root);
    let p = spec_components(path);
    if r.len() <= p.len() && p.subrange(0, r.len() as int) == r {
        relative_join(p.subrange(r.len() as int, p.len() as int))
    } else {
        path
    }
}

/// A source path relative to the project root when it lies inside it; the full path
/// otherwise.
pub fn make_relative_path(project_root: &str, source_path: &str) -> (res: String)
    ensures
        res@ == spec_relative_path(project_root@, source_path@),
{
    let root = components(project_root);
    let path = components(source_path);
    let ghost r = crate::text::views(root@);
    let ghost p = crate::text::views(path@);
    if root.len() > path.len() {
        return String::from_str(source_path);
    }
    let mut k: usize = 0;
    while k < root.len()
        invariant
            k <= root@.len() <= path@.len(),
            r == spec_components(project_root@),
            p == spec_components(source_path@),
            r == crate::text::views(root@),
            p == crate::text::views(path@),
            forall|q: int| 0 <= q < k ==> r[q] == p[q],
        decreases root.len() - k,
    {
        if !str_equal(root[k].as_str(), path[k].as_str()) {
            assert(p.subrange(0, r.len() as int)[k as int] != r[k as int]);
            return String::from_str(source_path);
        }
        k = k + 1;
    }
    assert(p.subrange(0, r.len() as int) =~= r);
    let ghost rest = p.subrange(r.len() as int, p.len() as int);
    let mut out = String::new();
    let mut j = root.len();
    assert(rest.subrange(0, 0) =~= Seq::<Seq<char>>::empty());
    while j < path.len()
        invariant
            root@.len() <= j <= path@.len(),
            r == spec_components(project_root@),
            p == spec_components(source_path@),
            r == crate::text::views(root@),
            p == crate::text::views(path@),
            rest == p.subrange(r.len() as int, p.len() as int),
            out@ == relative_join(rest.subrange(0, j - root@.len())),
        decreases path.len() - j,
    {
        let ghost pre = rest.subrange(0, j - root@.len() + 1);
        assert(pre.drop_last() =~= rest.subrange(0, j - root@.len()));
        assert(pre.last() == path@[j as int]@);
        if j > root.len() && !str_equal(out.as_str(), "/") {
            out.append("/");
        }
        out.append(path[j].as_str());
        j = j + 1;
    }
    assert(rest.subrange(0, rest.len() as int) =~= rest);
    out
}

/// The analyzer a file goes through.
#[derive(Clone, Copy, Debug, PartialEq, Eq, Structural)]
pub enum FileAnalyzer {
    /// The Rust analyzer.
    Rust,
    /// The tree-sitter analyzer shared by the other supported languages.
    TreeSitter,
}

/// Selects a deterministic analyzer for a file by its language; files in other languages
/// are not analysed.
pub fn analyze_file(file: &ProjectFile) -> (res: Option<FileAnalyzer>)
    ensures
        res == match file.language {
            ProgrammingLanguage::Rust => Some(FileAnalyzer::Rust),
            ProgrammingLanguage::Other => None,
            _ => Some(FileAnalyzer::TreeSitter),
        },
{
    match file.language {
        ProgrammingLanguage::Rust => Some(FileAnalyzer::Rust),
        ProgrammingLanguage::TypeScript | ProgrammingLanguage::JavaScript | ProgrammingLanguage::Php
        | ProgrammingLanguage::Dart | ProgrammingLanguage::Python | ProgrammingLanguage::Go => Some(
            FileAnalyzer::TreeSitter,
        ),
        _ => None,
    }
}


// ---------------------------------------------------------------------------
// Replies of the Responses API
// ---------------------------------------------------------------------------

/// The texts of content parts of type `output_text` that carry a string `text`, in order.
pub open spec fn content_texts(cs: Seq<JsonDoc>) -> Seq<Seq<char>>
    decreases cs.len(),
{
    if cs.len() == 0 {
        Seq::empty()
    } else {
        let r = content_texts(cs.drop_last());
        let c = cs.last();
        if get_text(c, "type"@) == Some("output_text"@) {
            match get_text(c, "text"@) {
                Some(t) => r.push(t),
                None => r,
            }
        } else {
            r
        }
    }
}

/// The output texts of the elements of a reply's `output`, element after element.
pub open spec fn output_texts(items: Seq<JsonDoc>) -> Seq<Seq<char>>
    decreases items.len(),
{
    if items.len() == 0 {
        Seq::empty()
    } else {
        output_texts(items.drop_last()) + content_texts(array_member(items.last(), "content"@))
    }
}

fn member_array<'a>(d: &'a JsonDoc, key: &str) -> (res: Option<&'a Vec<JsonDoc>>)
    ensures
        match res {
            Some(v) => array_member(*d, key@) == v@,
            None => array_member(*d, key@) == Seq::<JsonDoc>::empty(),
        },
{
    match get(d, key) {
        Some(v) => crate::json::items_of(v),
        None => None,
    }
}

fn text_member<'a>(d: &'a JsonDoc, key: &str) -> (res: Option<&'a String>)
    ensures
        match res {
            Some(s) => get_text(*d, key@) == Some(s@),
            None => get_text(*d, key@) is None,
        },
{
    match get(d, key) {
        Some(v) => text_of(v),
        None => None,
    }
}

/// The text of a Responses API reply: the `output_text` parts of the contents of its
/// `output`, joined with newlines.
pub fn response_text(value: &JsonDoc) -> (res: String)
    ensures
        res@ == spec_join(output_texts(array_member(*value, "output"@)), "\n"@),
{
    let mut pieces: Vec<Vec<char>> = Vec::new();
    let empty: Vec<JsonDoc> = Vec::new();
    let items = match member_array(value, "output") {
        Some(v) => v,
        None => &empty,
    };
    let ghost outs = array_member(*value, "output"@);
    assert(items@ == outs);
    let mut k: usize = 0;
    while k < items.len()
        invariant
            k <= items@.len(),
            pieces@.map_values(|p: Vec<char>| p@) == output_texts(items@.subrange(0, k as int)),
        decreases items.len() - k,
    {
        assert(items@.subrange(0, k + 1).drop_last() =~= items@.subrange(0, k as int));
        assert(items@.subrange(0, k + 1).last() == items@[k as int]);
        let ghost before = pieces@.map_values(|p: Vec<char>| p@);
        let empty_parts: Vec<JsonDoc> = Vec::new();
        let parts = match member_array(&items[k], "content") {
            Some(v) => v,
            None => &empty_parts,
        };
        let mut j: usize = 0;
        while j < parts.len()
            invariant
                j <= parts@.len(),
                parts@ == array_member(items@[k as int], "content"@),
                pieces@.map_values(|p: Vec<char>| p@) == before + content_texts(parts@.subrange(0, j as int)),
            decreases parts.len() - j,
        {
            assert(parts@.subrange(0, j + 1).drop_last() =~= parts@.subrange(0, j as int));
            assert(parts@.subrange(0, j + 1).last() == parts@[j as int]);
            let is_output = match text_member(&parts[j], "type") {
                Some(t) => str_equal(t.as_str(), "output_text"),
                None => false,
            };
            if is_output {
                match text_member(&parts[j], "text") {
                    Some(t) => {
                        let ghost prev = pieces@.map_values(|p: Vec<char>| p@);
                        pieces.push(chars_of(t.as_str()));
                        assert(pieces@.map_values(|p: Vec<char>| p@) =~= prev.push(t@));
                        assert(get_text(parts@[j as int], "type"@) == Some("output_text"@));
                        assert(content_texts(parts@.subrange(0, j + 1)) == content_texts(parts@.subrange(0, j as int)).push(t@));
                        assert(pieces@.map_values(|p: Vec<char>| p@) =~= before + content_texts(parts@.subrange(0, j + 1)));
                    },
                    None => {},
                }
            }
            j = j + 1;
        }
        assert(parts@.subrange(0, parts@.len() as int) =~= parts@);
        assert(pieces@.map_values(|p: Vec<char>| p@) =~= output_texts(items@.subrange(0, k + 1)));
        k = k + 1;
    }
    assert(items@.subrange(0, items@.len() as int) =~= items@);
    let n = pieces.len();
    let joined = join_chars(&pieces, n, &chars_of("\n"));
    assert(pieces@.subrange(0, n as int) =~= pieces@);
    string_of(&joined)
}

} // verus!
