//! Inventory of declared and locked dependencies, read from the project's manifests.
use vstd::prelude::*;

use crate::formats::{
    json_array_items, json_as_bool, json_as_str, json_member, json_object_entries, json_parse, toml_array_items,
    toml_as_str, toml_member, toml_parse, toml_table_entries,
};
use crate::hashing::{sha256_digest, spec_hex, spec_sha256, to_hex};
use crate::json::{JsonDoc, doc_get, get, parse_document, spec_json_document};
use crate::model::{str_equal, ProjectGraph};
use crate::text::{
    chars_of, find_char, index_of, insert_sorted_unique, seq_contains, seq_starts_with, slice_chars, spec_trim,
    lemma_seq_less_irreflexive, lemma_seq_less_total, lemma_seq_less_trans, seq_less, split_lines, string_of,
    strictly_sorted, to_lowercase, trim, views,
};

verus! {

/// A dependency declared by a manifest or recorded by a lockfile.
#[derive(Clone, Debug)]
pub struct Dependency {
    pub id: String,
    pub name: String,
    pub version: String,
    pub ecosystem: String,
    pub manifest: String,
    pub scope: String,
    pub direct: bool,
    pub first_party: bool,
    pub files: Vec<String>,
    pub provenance: String,
    pub security: String,
}

/// The dependencies of a project and what could not be read.
#[derive(Clone, Debug)]
pub struct DependencyInventory {
    pub items: Vec<Dependency>,
    pub warnings: Vec<String>,
}

/// The hexadecimal SHA-256 of a text.
pub open spec fn spec_text_hash(s: Seq<char>) -> Seq<char> {
    spec_hex(spec_sha256(vstd::utf8::encode_utf8(s)))
}

fn text_hash(s: &str) -> (res: String)
    ensures
        res@ == spec_text_hash(s@),
{
    let digest = sha256_digest(s.as_bytes());
    string_of(&to_hex(digest.as_slice()))
}

/// The identity of a dependency: manifest, name, version and scope.
pub open spec fn dependency_id(manifest: Seq<char>, name: Seq<char>, version: Seq<char>, scope: Seq<char>) -> Seq<char> {
    spec_text_hash(manifest + ":"@ + name + ":"@ + version + ":"@ + scope)
}

fn join4(a: &str, b: &str, c: &str, d: &str) -> (res: String)
    ensures
        res@ == a@ + ":"@ + b@ + ":"@ + c@ + ":"@ + d@,
{
    let mut s = String::from_str(a);
    s.append(":");
    s.append(b);
    s.append(":");
    s.append(c);
    s.append(":");
    s.append(d);
    s
}

/// A dependency entry; its provenance says whether a manifest or a lockfile declared it.
pub fn entry(
    name: &str,
    version: &str,
    ecosystem: &str,
    manifest: &str,
    scope: &str,
    direct: bool,
    first_party: bool,
) -> (res: Dependency)
    ensures
        res.id@ == dependency_id(manifest@, name@, version@, scope@),
        res.name@ == name@,
        res.version@ == version@,
        res.ecosystem@ == ecosystem@,
        res.manifest@ == manifest@,
        res.scope@ == scope@,
        res.direct == direct,
        res.first_party == first_party,
        res.files@.len() == 0,
        res.provenance@ == if direct { "manifest"@ } else { "lockfile"@ },
        res.security@ == "Non évaluée : aucune base de vulnérabilités consultée"@,
{
    let key = join4(manifest, name, version, scope);
    Dependency {
        id: text_hash(key.as_str()),
        name: String::from_str(name),
        version: String::from_str(version),
        ecosystem: String::from_str(ecosystem),
        manifest: String::from_str(manifest),
        scope: String::from_str(scope),
        direct,
        first_party,
        files: Vec::new(),
        provenance: String::from_str(if direct { "manifest" } else { "lockfile" }),
        security: String::from_str("Non évaluée : aucune base de vulnérabilités consultée"),
    }
}

// ---------------------------------------------------------------------------
// Python requirements
// ---------------------------------------------------------------------------

/// Characters that end the name of a Python requirement.
pub open spec fn ends_requirement_name(c: char) -> bool {
    c == '<' || c == '>' || c == '=' || c == '!' || c == '~' || c == '[' || c == ' ' || c == '@'
}

/// Position of the first character that ends the name, or the length.
pub open spec fn name_end(s: Seq<char>, i: int) -> int
    decreases s.len() - i,
{
    if i < 0 || i >= s.len() {
        s.len() as int
    } else if ends_requirement_name(s[i]) {
        i
    } else {
        name_end(s, i + 1)
    }
}

/// The text of a requirement before any `;` marker, trimmed.
pub open spec fn requirement_text(text: Seq<char>) -> Seq<char> {
    match index_of(text, ';') {
        Some(i) => spec_trim(text.subrange(0, i)),
        None => spec_trim(text),
    }
}

/// The (name, version) a requirement declares; none when its name is empty.
pub open spec fn spec_python_requirement(text: Seq<char>) -> Option<(Seq<char>, Seq<char>)> {
    let r = requirement_text(text);
    let split = name_end(r, 0);
    if 0 <= split <= r.len() && split > 0 {
        let version = spec_trim(r.subrange(split, r.len() as int));
        Some((r.subrange(0, split), if version.len() == 0 { "unspecified"@ } else { version }))
    } else {
        None
    }
}

proof fn lemma_name_end_bounds(s: Seq<char>, i: int)
    requires
        0 <= i <= s.len(),
    ensures
        i <= name_end(s, i) <= s.len(),
    decreases s.len() - i,
{
    if i < s.len() && !ends_requirement_name(s[i]) {
        lemma_name_end_bounds(s, i + 1);
    }
}

/// Adds the dependency a Python requirement declares, if it names one.
pub fn python_requirement(text: &str, path: &str, scope: &str, items: &mut Vec<Dependency>)
    ensures
        match spec_python_requirement(text@) {
            Some((name, version)) => final(items)@.len() == old(items)@.len() + 1
                && final(items)@.subrange(0, old(items)@.len() as int) == old(items)@
                && final(items)@.last().name@ == name && final(items)@.last().version@ == version
                && final(items)@.last().ecosystem@ == "python"@ && final(items)@.last().manifest@ == path@
                && final(items)@.last().scope@ == scope@ && final(items)@.last().direct
                && !final(items)@.last().first_party,
            None => final(items)@ == old(items)@,
        },
{
    let t = chars_of(text);
    let before = match find_char(&t, ';') {
        Some(i) => {
            proof {
                crate::text::lemma_index_of_from_bounds(t@, ';', 0);
                assert(crate::text::index_of_from(t@, ';', 0) == Some(i as int));
            }
            slice_chars(&t, 0, i)
        },
        None => slice_chars(&t, 0, t.len()),
    };
    proof {
        assert(t@.subrange(0, t@.len() as int) =~= t@);
    }
    let r = trim(&before);
    let n = r.len();
    let mut split: usize = 0;
    proof {
        lemma_name_end_bounds(r@, 0);
    }
    while split < n && !(r[split] == '<' || r[split] == '>' || r[split] == '=' || r[split] == '!' || r[split] == '~'
        || r[split] == '[' || r[split] == ' ' || r[split] == '@')
        invariant
            split <= n == r@.len(),
            name_end(r@, 0) == name_end(r@, split as int),
        decreases n - split,
    {
        split = split + 1;
    }
    if split == 0 {
        return;
    }
    let name = string_of(&slice_chars(&r, 0, split));
    let version = trim(&slice_chars(&r, split, n));
    let version_text = if version.len() == 0 { String::from_str("unspecified") } else { string_of(&version) };
    let d = entry(name.as_str(), version_text.as_str(), "python", path, scope, true, false);
    let ghost before_items = items@;
    items.push(d);
    proof {
        assert(items@.subrange(0, before_items.len() as int) =~= before_items);
    }
}

// ---------------------------------------------------------------------------
// Where manifests are looked for
// ---------------------------------------------------------------------------

/// The manifest and lockfile names looked for in each directory, in order.
pub open spec fn manifest_names() -> Seq<Seq<char>> {
    seq![
        "package.json"@, "package-lock.json"@, "composer.json"@, "composer.lock"@, "Cargo.toml"@, "Cargo.lock"@,
        "pubspec.yaml"@, "go.mod"@, "requirements.txt"@, "pyproject.toml"@,
    ]
}

fn manifest_name_list() -> (res: Vec<&'static str>)
    ensures
        res@.map_values(|s: &str| s@) == manifest_names(),
{
    let v: Vec<&'static str> = vec![
        "package.json", "package-lock.json", "composer.json", "composer.lock", "Cargo.toml", "Cargo.lock", "pubspec.yaml",
        "go.mod", "requirements.txt", "pyproject.toml",
    ];
    proof {
        assert(v@.map_values(|s: &str| s@) =~= manifest_names());
    }
    v
}

/// Component-wise order of directories (each a sequence of components), as paths compare.
pub open spec fn dirs_less(a: Seq<Seq<char>>, b: Seq<Seq<char>>) -> bool
    decreases a.len(),
{
    if a.len() == 0 || b.len() == 0 {
        a.len() < b.len()
    } else if seq_less(a[0], b[0]) {
        true
    } else if a[0] != b[0] {
        false
    } else {
        dirs_less(a.drop_first(), b.drop_first())
    }
}

/// Component-wise order of directories, as paths compare.
fn dir_less(a: &Vec<String>, b: &Vec<String>) -> (res: bool)
    ensures
        res == dirs_less(views(a@), views(b@)),
{
    let mut k: usize = 0;
    assert(views(a@).subrange(0, a@.len() as int) =~= views(a@));
    assert(views(b@).subrange(0, b@.len() as int) =~= views(b@));
    while k < a.len() && k < b.len()
        invariant
            k <= a@.len(),
            k <= b@.len(),
            dirs_less(views(a@), views(b@)) == dirs_less(
                views(a@).subrange(k as int, a@.len() as int),
                views(b@).subrange(k as int, b@.len() as int),
            ),
        decreases a.len() - k,
    {
        let ghost ra = views(a@).subrange(k as int, a@.len() as int);
        let ghost rb = views(b@).subrange(k as int, b@.len() as int);
        assert(ra[0] == a@[k as int]@);
        assert(rb[0] == b@[k as int]@);
        assert(ra.drop_first() =~= views(a@).subrange(k + 1, a@.len() as int));
        assert(rb.drop_first() =~= views(b@).subrange(k + 1, b@.len() as int));
        if crate::text::str_less(a[k].as_str(), b[k].as_str()) {
            return true;
        }
        if !str_equal(a[k].as_str(), b[k].as_str()) {
            return false;
        }
        k = k + 1;
    }
    a.len() < b.len()
}

/// Whether two directories have the same components.
fn same_dir(a: &Vec<String>, b: &Vec<String>) -> (res: bool)
    ensures
        res == (views(a@) == views(b@)),
{
    if a.len() != b.len() {
        assert(views(a@).len() != views(b@).len());
        return false;
    }
    let mut k: usize = 0;
    while k < a.len()
        invariant
            k <= a@.len(),
            a@.len() == b@.len(),
            forall|j: int| 0 <= j < k ==> a@[j]@ == b@[j]@,
        decreases a.len() - k,
    {
        if !str_equal(a[k].as_str(), b[k].as_str()) {
            assert(views(a@)[k as int] != views(b@)[k as int]);
            return false;
        }
        k = k + 1;
    }
    assert(views(a@) =~= views(b@));
    true
}

fn copy_strings(v: &Vec<String>, n: usize) -> (res: Vec<String>)
    requires
        n <= v@.len(),
    ensures
        res@ == v@.subrange(0, n as int),
{
    let mut out: Vec<String> = Vec::new();
    let mut k: usize = 0;
    while k < n
        invariant
            k <= n <= v@.len(),
            out@ == v@.subrange(0, k as int),
        decreases n - k,
    {
        out.push(v[k].clone());
        assert(out@ =~= v@.subrange(0, k + 1));
        k = k + 1;
    }
    out
}

/// The first position from `p` on whose directory does not come before `d`.
pub open spec fn dir_insert_position(dirs: Seq<Vec<String>>, d: Seq<Seq<char>>, p: int) -> int
    decreases dirs.len() - p,
{
    if p < 0 || p >= dirs.len() || !dirs_less(views(dirs[p]@), d) {
        p
    } else {
        dir_insert_position(dirs, d, p + 1)
    }
}

proof fn lemma_dir_insert_position_from(dirs: Seq<Vec<String>>, d: Seq<Seq<char>>, p: int)
    requires
        0 <= p,
    ensures
        dir_insert_position(dirs, d, p) >= p,
        p <= dirs.len() ==> dir_insert_position(dirs, d, p) <= dirs.len(),
    decreases dirs.len() - p,
{
    if p < dirs.len() && dirs_less(views(dirs[p]@), d) {
        lemma_dir_insert_position_from(dirs, d, p + 1);
    }
}

/// Inserts a directory at its place in path order, unless it is there already.
fn insert_dir(dirs: &mut Vec<Vec<String>>, dir: Vec<String>)
    ensures
        ({
            let p = dir_insert_position(old(dirs)@, views(dir@), 0);
            if 0 <= p < old(dirs)@.len() && views(old(dirs)@[p]@) == views(dir@) {
                final(dirs)@ == old(dirs)@
            } else {
                final(dirs)@ == old(dirs)@.insert(p, dir)
            }
        }),
{
    let mut p: usize = 0;
    while p < dirs.len() && dir_less(&dirs[p], &dir)
        invariant
            p <= dirs@.len(),
            dirs@ == old(dirs)@,
            dir_insert_position(old(dirs)@, views(dir@), 0) == dir_insert_position(old(dirs)@, views(dir@), p as int),
        decreases dirs.len() - p,
    {
        p = p + 1;
    }
    if p < dirs.len() && same_dir(&dirs[p], &dir) {
        return;
    }
    dirs.insert(p, dir);
}

/// The components read so far and the piece in progress, once a piece is closed: kept when
/// it is non-empty and is not a `.` after the first component.
pub open spec fn close_part(parts: Seq<Seq<char>>, current: Seq<char>) -> Seq<Seq<char>> {
    if current.len() > 0 && !(current.len() == 1 && current[0] == '.' && parts.len() > 0) {
        parts.push(current)
    } else {
        parts
    }
}

/// The components closed and the piece in progress after reading `s`.
pub open spec fn parts_state(s: Seq<char>) -> (Seq<Seq<char>>, Seq<char>)
    decreases s.len(),
{
    if s.len() == 0 {
        (Seq::empty(), Seq::empty())
    } else {
        let st = parts_state(s.drop_last());
        if s.last() == '/' {
            (close_part(st.0, st.1), Seq::empty())
        } else {
            (st.0, st.1.push(s.last()))
        }
    }
}

/// The components of a relative path: non-empty pieces between `/`, a `.` kept only first.
pub open spec fn spec_path_parts(path: Seq<char>) -> Seq<Seq<char>> {
    close_part(parts_state(path).0, parts_state(path).1)
}

/// The components of a relative path: non-empty pieces between `/`.
fn path_parts(path: &str) -> (res: Vec<String>)
    ensures
        views(res@) == spec_path_parts(path@),
{
    let c = chars_of(path);
    let mut parts: Vec<String> = Vec::new();
    let mut current: Vec<char> = Vec::new();
    let mut i: usize = 0;
    assert(c@.subrange(0, 0) =~= Seq::<char>::empty());
    assert(views(parts@) =~= Seq::<Seq<char>>::empty());
    while i < c.len()
        invariant
            i <= c@.len(),
            c@ == path@,
            views(parts@) == parts_state(c@.subrange(0, i as int)).0,
            current@ == parts_state(c@.subrange(0, i as int)).1,
        decreases c.len() - i,
    {
        let ghost pre = c@.subrange(0, i + 1);
        assert(pre.drop_last() =~= c@.subrange(0, i as int));
        assert(pre.last() == c@[i as int]);
        if c[i] == '/' {
            if current.len() > 0 && !(current.len() == 1 && current[0] == '.' && parts.len() > 0) {
                let piece = string_of(&current);
                parts.push(piece);
                assert(views(parts@) =~= views(parts@.drop_last()).push(current@));
            }
            current = Vec::new();
            assert(current@ =~= Seq::<char>::empty());
        } else {
            current.push(c[i]);
        }
        i = i + 1;
    }
    assert(c@.subrange(0, c@.len() as int) =~= c@);
    if current.len() > 0 && !(current.len() == 1 && current[0] == '.' && parts.len() > 0) {
        let piece = string_of(&current);
        parts.push(piece);
        assert(views(parts@) =~= views(parts@.drop_last()).push(current@));
    }
    parts
}

/// Joins the components with `/`, after a leading `/` when asked.
fn join_parts(parts: &Vec<String>, leading: bool) -> (res: String)
    ensures
        res@ == (if leading { "/"@ } else { Seq::<char>::empty() }) + crate::text::spec_join(views(parts@), "/"@),
{
    let mut out = String::new();
    if leading {
        out.append("/");
    }
    let ghost head = out@;
    assert(head == (if leading { "/"@ } else { Seq::<char>::empty() }));
    let mut k: usize = 0;
    while k < parts.len()
        invariant
            k <= parts@.len(),
            out@ == head + crate::text::spec_join(views(parts@).subrange(0, k as int), "/"@),
        decreases parts.len() - k,
    {
        let ghost before = views(parts@).subrange(0, k as int);
        let ghost after = views(parts@).subrange(0, k + 1);
        if k > 0 {
            out.append("/");
        }
        out.append(parts[k].as_str());
        proof {
            assert(after.drop_last() =~= before);
            assert(after.last() == parts@[k as int]@);
            if k == 0 {
                assert(after.len() == 1);
                assert(crate::text::spec_join(after, "/"@) == after[0]);
                assert(crate::text::spec_join(before, "/"@) =~= Seq::<char>::empty());
            }
            assert(out@ =~= head + crate::text::spec_join(after, "/"@));
        }
        k = k + 1;
    }
    assert(views(parts@).subrange(0, parts@.len() as int) =~= views(parts@));
    out
}

/// The paths, relative to the root, where manifests and lockfiles are looked for: each
/// name of `manifest_names` in the root and in every directory that holds first-party
/// code, directories in path order.
pub fn manifest_candidates(graph: &ProjectGraph) -> (res: Vec<String>)
    ensures
        res@.len() % 10 == 0,
        res@.len() >= 10,
        forall|k: int| 0 <= k < 10 ==> (#[trigger] res@[k])@ == manifest_names()[k],
        forall|k: int| 0 <= k < res@.len() ==> crate::text::seq_ends_with((#[trigger] res@[k])@, manifest_names()[k % 10]),
{
    let mut dirs: Vec<Vec<String>> = Vec::new();
    let mut absolute_root = false;
    dirs.push(Vec::new());
    assert(dirs@[0]@.len() == 0);
    let mut i: usize = 0;
    while i < graph.nodes.len()
        invariant
            i <= graph.nodes@.len(),
            dirs@.len() > 0,
            dirs@[0]@.len() == 0,
        decreases graph.nodes.len() - i,
    {
        let node = &graph.nodes[i];
        if node.source_scope.library_eligible() {
            match &node.path {
                Some(path) => {
                    let parts = path_parts(path.as_str());
                    let leading = crate::text::starts_with(&chars_of(path.as_str()), &chars_of("/"));
                    if leading && parts.len() > 0 {
                        absolute_root = true;
                    }
                    let mut k = parts.len();
                    while k > 1
                        invariant
                            k <= parts@.len(),
                            dirs@.len() > 0,
                            dirs@[0]@.len() == 0,
                        decreases k,
                    {
                        k = k - 1;
                        let mut dir = copy_strings(&parts, k);
                        if leading {
                            let mut rooted: Vec<String> = Vec::new();
                            rooted.push(String::from_str("/"));
                            rooted.append(&mut dir);
                            let ghost before = dirs@;
                            proof {
                                assert(views(rooted@).len() > 0);
                                assert(dirs_less(views(dirs@[0]@), views(rooted@)));
                                lemma_dir_insert_position_from(before, views(rooted@), 1);
                                assert(dir_insert_position(before, views(rooted@), 0) == dir_insert_position(before, views(rooted@), 1));
                            }
                            insert_dir(&mut dirs, rooted);
                            assert(dirs@[0] == before[0]);
                        } else {
                            let ghost before = dirs@;
                            proof {
                                assert(views(dir@).len() > 0);
                                assert(dirs_less(views(dirs@[0]@), views(dir@)));
                                lemma_dir_insert_position_from(before, views(dir@), 1);
                                assert(dir_insert_position(before, views(dir@), 0) == dir_insert_position(before, views(dir@), 1));
                            }
                            insert_dir(&mut dirs, dir);
                            assert(dirs@[0] == before[0]);
                        }
                    }
                },
                None => {},
            }
        }
        i = i + 1;
    }
    if absolute_root {
        let mut rooted: Vec<String> = Vec::new();
        rooted.push(String::from_str("/"));
        let ghost before = dirs@;
        proof {
            assert(views(rooted@).len() > 0);
            assert(dirs_less(views(dirs@[0]@), views(rooted@)));
            lemma_dir_insert_position_from(before, views(rooted@), 1);
            assert(dir_insert_position(before, views(rooted@), 0) == dir_insert_position(before, views(rooted@), 1));
        }
        insert_dir(&mut dirs, rooted);
        assert(dirs@[0] == before[0]);
    }
    let names = manifest_name_list();
    proof {
        assert(manifest_names().len() == 10);
        assert(names@.map_values(|s: &str| s@).len() == names@.len());
    }
    let mut out: Vec<String> = Vec::new();
    let mut d: usize = 0;
    while d < dirs.len()
        invariant
            d <= dirs@.len(),
            out@.len() == 10 * d,
            names@.len() == 10,
            names@.map_values(|s: &str| s@) == manifest_names(),
            dirs@.len() > 0,
            dirs@[0]@.len() == 0,
            d > 0 ==> forall|k: int| 0 <= k < 10 ==> (#[trigger] out@[k])@ == manifest_names()[k],
            forall|k: int| 0 <= k < out@.len() ==> crate::text::seq_ends_with((#[trigger] out@[k])@, manifest_names()[k % 10]),
        decreases dirs.len() - d,
    {
        let dir = &dirs[d];
        let leading = dir.len() > 0 && str_equal(dir[0].as_str(), "/");
        let prefix = if leading {
            let rest = copy_tail(dir);
            join_parts(&rest, true)
        } else {
            join_parts(dir, false)
        };
        proof {
            if d == 0 {
                assert(!leading);
                assert(views(dir@) =~= Seq::<Seq<char>>::empty());
                assert(prefix@ =~= Seq::<char>::empty());
            }
        }
        let mut f: usize = 0;
        while f < names.len()
            invariant
                f <= names@.len(),
                names@.len() == 10,
                names@.map_values(|s: &str| s@) == manifest_names(),
                out@.len() == 10 * d + f,
                d == 0 ==> prefix@.len() == 0,
                d == 0 ==> forall|k: int| 0 <= k < f ==> (#[trigger] out@[k])@ == manifest_names()[k],
                d > 0 ==> forall|k: int| 0 <= k < 10 ==> (#[trigger] out@[k])@ == manifest_names()[k],
                forall|k: int| 0 <= k < out@.len() ==> crate::text::seq_ends_with((#[trigger] out@[k])@, manifest_names()[k % 10]),
            decreases names.len() - f,
        {
            let ghost ob = out@;
            let mut path = prefix.clone();
            if prefix.unicode_len() > 0 && !(leading && dir.len() == 1) {
                path.append("/");
            }
            let ghost head = path@;
            path.append(names[f]);
            assert(names@[f as int]@ == manifest_names()[f as int]);
            proof {
                assert((10 * d + f) % 10 == f as int) by (nonlinear_arith)
                    requires
                        f < 10,
                ;
                assert(path@.subrange(path@.len() - names@[f as int]@.len(), path@.len() as int) =~= names@[f as int]@);
                if d == 0 {
                    assert(path@ =~= names@[f as int]@);
                }
            }
            out.push(path);
            proof {
                assert forall|k: int| 0 <= k < out@.len() implies crate::text::seq_ends_with((#[trigger] out@[k])@, manifest_names()[k % 10]) by {
                    if k < ob.len() {
                        assert(out@[k] == ob[k]);
                    }
                }
                if d > 0 {
                    assert forall|k: int| 0 <= k < 10 implies (#[trigger] out@[k])@ == manifest_names()[k] by {
                        assert(out@[k] == ob[k]);
                    }
                } else {
                    assert forall|k: int| 0 <= k < f + 1 implies (#[trigger] out@[k])@ == manifest_names()[k] by {
                        if k < f {
                            assert(out@[k] == ob[k]);
                        }
                    }
                }
            }
            f = f + 1;
        }
        d = d + 1;
    }
    out
}

fn copy_tail(v: &Vec<String>) -> (res: Vec<String>)
    requires
        v@.len() > 0,
    ensures
        res@ == v@.drop_first(),
{
    let mut out: Vec<String> = Vec::new();
    let mut k: usize = 1;
    while k < v.len()
        invariant
            1 <= k <= v@.len(),
            out@ == v@.subrange(1, k as int),
        decreases v.len() - k,
    {
        out.push(v[k].clone());
        assert(out@ =~= v@.subrange(1, k + 1));
        k = k + 1;
    }
    assert(v@.subrange(1, v@.len() as int) =~= v@.drop_first());
    out
}

// ---------------------------------------------------------------------------
// Reading the manifests
// ---------------------------------------------------------------------------

/// What reading one candidate manifest gave.
#[derive(Clone, Debug)]
pub enum ManifestRead {
    /// No such file.
    Missing,
    /// The path leads outside the project (through a link).
    OutsideProject,
    /// The file exists but could not be read; the error as displayed.
    Failed(String),
    /// The file's text.
    Text(String),
}

fn cat(a: &str, b: &str) -> (res: String)
    ensures
        res@ == a@ + b@,
{
    crate::text::concat_str(a, b)
}

fn cat3(a: &str, b: &str, c: &str) -> (res: String)
    ensures
        res@ == a@ + b@ + c@,
{
    let ab = crate::text::concat_str(a, b);
    crate::text::concat_str(ab.as_str(), c)
}

fn starts_with_str(s: &str, prefix: &str) -> (res: bool)
    ensures
        res == seq_starts_with(s@, prefix@),
{
    crate::text::starts_with(&chars_of(s), &chars_of(prefix))
}

fn is_text(s: &str, t: &str) -> (res: bool)
    ensures
        res == (s@ == t@),
{
    str_equal(s, t)
}

/// `new` is `old` followed by dependencies of the ecosystem, read from the manifest, direct
/// or locked as said.
pub open spec fn items_added(old: Seq<Dependency>, new: Seq<Dependency>, ecosystem: Seq<char>, manifest: Seq<char>, direct: bool) -> bool {
    &&& new.len() >= old.len()
    &&& new.subrange(0, old.len() as int) == old
    &&& forall|k: int| old.len() <= k < new.len() ==> (#[trigger] new[k]).ecosystem@ == ecosystem && new[k].manifest@ == manifest
        && new[k].direct == direct
}

/// `new` is `old` followed by at most one warning about the manifest.
pub open spec fn warned_at_most_once(old: Seq<String>, new: Seq<String>, manifest: Seq<char>) -> bool {
    ||| new == old
    ||| (new.len() == old.len() + 1 && new.drop_last() == old && seq_starts_with(new.last()@, manifest))
}

proof fn lemma_items_added_push(old: Seq<Dependency>, mid: Seq<Dependency>, d: Dependency, eco: Seq<char>, manifest: Seq<char>, direct: bool)
    requires
        items_added(old, mid, eco, manifest, direct),
        d.ecosystem@ == eco && d.manifest@ == manifest && d.direct == direct,
    ensures
        items_added(old, mid.push(d), eco, manifest, direct),
{
    assert(mid.push(d).subrange(0, old.len() as int) =~= mid.subrange(0, old.len() as int));
    assert forall|k: int| old.len() <= k < mid.push(d).len() implies (#[trigger] mid.push(d)[k]).ecosystem@ == eco
        && mid.push(d)[k].manifest@ == manifest && mid.push(d)[k].direct == direct by {
        if k < mid.len() {
            assert(mid.push(d)[k] == mid[k]);
        }
    }
}

proof fn lemma_items_added_trans(a: Seq<Dependency>, b: Seq<Dependency>, c: Seq<Dependency>, eco: Seq<char>, manifest: Seq<char>, direct: bool)
    requires
        items_added(a, b, eco, manifest, direct),
        items_added(b, c, eco, manifest, direct),
    ensures
        items_added(a, c, eco, manifest, direct),
{
    assert(c.subrange(0, a.len() as int) =~= c.subrange(0, b.len() as int).subrange(0, a.len() as int));
    assert forall|k: int| a.len() <= k < c.len() implies (#[trigger] c[k]).ecosystem@ == eco && c[k].manifest@ == manifest
        && c[k].direct == direct by {
        if k < b.len() {
            assert(c[k] == c.subrange(0, b.len() as int)[k]);
            assert(b[k] == c[k]);
        }
    }
}

proof fn lemma_items_added_refl(a: Seq<Dependency>, eco: Seq<char>, manifest: Seq<char>, direct: bool)
    ensures
        items_added(a, a, eco, manifest, direct),
{
    assert(a.subrange(0, a.len() as int) =~= a);
}

/// The sections of a manifest that declare dependencies: those of `package.json` or of
/// `composer.json`.
pub open spec fn declaration_scopes(is_package_json: bool) -> Seq<Seq<char>> {
    if is_package_json {
        seq!["dependencies"@, "devDependencies"@, "peerDependencies"@, "optionalDependencies"@]
    } else {
        seq!["require"@, "require-dev"@]
    }
}

/// The (name, version, scope) of the first `n` members of a section whose value is a string.
pub open spec fn member_entries(ms: Seq<(String, JsonDoc)>, scope: Seq<char>, n: int) -> Seq<(Seq<char>, Seq<char>, Seq<char>)>
    decreases n,
{
    if n <= 0 {
        seq![]
    } else {
        member_entries(ms, scope, n - 1) + match ms[n - 1].1 {
            JsonDoc::Text(v) => seq![(ms[n - 1].0@, v@, scope)],
            _ => seq![],
        }
    }
}

/// The string entries of the section `scope` of a document, when it is an object.
pub open spec fn section_entries(d: JsonDoc, scope: Seq<char>) -> Seq<(Seq<char>, Seq<char>, Seq<char>)> {
    match doc_get(d, scope) {
        Some(JsonDoc::Object(ms)) => member_entries(ms@, scope, ms@.len() as int),
        _ => seq![],
    }
}

/// The string entries of the first `n` sections, section after section.
pub open spec fn declared_entries(d: JsonDoc, scopes: Seq<Seq<char>>, n: int) -> Seq<(Seq<char>, Seq<char>, Seq<char>)>
    decreases n,
{
    if n <= 0 {
        seq![]
    } else {
        declared_entries(d, scopes, n - 1) + section_entries(d, scopes[n - 1])
    }
}

/// A dependency as (name, version, scope).
pub open spec fn entry_view(d: Dependency) -> (Seq<char>, Seq<char>, Seq<char>) {
    (d.name@, d.version@, d.scope@)
}

/// A string entry of a section is among the entries of the first `n` sections that hold it.
proof fn lemma_entry_declared(d: JsonDoc, scopes: Seq<Seq<char>>, n: int, i: int, ms: Vec<(String, JsonDoc)>, j: int, v: String)
    requires
        0 <= i < n <= scopes.len(),
        doc_get(d, scopes[i]) == Some(JsonDoc::Object(ms)),
        0 <= j < ms@.len(),
        ms@[j].1 == JsonDoc::Text(v),
    ensures
        declared_entries(d, scopes, n).contains((ms@[j].0@, v@, scopes[i])),
    decreases n,
{
    if i < n - 1 {
        lemma_entry_declared(d, scopes, n - 1, i, ms, j, v);
        let w = declared_entries(d, scopes, n - 1);
        let k = choose|k: int| 0 <= k < w.len() && w[k] == (ms@[j].0@, v@, scopes[i]);
        assert(declared_entries(d, scopes, n)[k] == w[k]);
    } else {
        lemma_member_listed(ms@, scopes[i], ms@.len() as int, j, v);
        let w = declared_entries(d, scopes, n - 1);
        let sec = section_entries(d, scopes[i]);
        let k = choose|k: int| 0 <= k < sec.len() && sec[k] == (ms@[j].0@, v@, scopes[i]);
        assert(declared_entries(d, scopes, n)[w.len() + k] == sec[k]);
    }
}

proof fn lemma_member_listed(ms: Seq<(String, JsonDoc)>, scope: Seq<char>, n: int, j: int, v: String)
    requires
        0 <= j < n <= ms.len(),
        ms[j].1 == JsonDoc::Text(v),
    ensures
        member_entries(ms, scope, n).contains((ms[j].0@, v@, scope)),
    decreases n,
{
    let w = member_entries(ms, scope, n - 1);
    if j < n - 1 {
        lemma_member_listed(ms, scope, n - 1, j, v);
        let k = choose|k: int| 0 <= k < w.len() && w[k] == (ms[j].0@, v@, scope);
        assert(member_entries(ms, scope, n)[k] == w[k]);
    } else {
        assert(member_entries(ms, scope, n)[w.len() as int] == (ms[j].0@, v@, scope));
    }
}

/// `dependencies`-like sections of `package.json` or `composer.json`.
fn read_declarations(is_package_json: bool, path: &str, text: &str, items: &mut Vec<Dependency>, warnings: &mut Vec<String>)
    ensures
        items_added(old(items)@, final(items)@, if is_package_json { "npm"@ } else { "composer"@ }, path@, true),
        warned_at_most_once(old(warnings)@, final(warnings)@, path@),
        final(warnings)@ != old(warnings)@ ==> final(items)@ == old(items)@,
        final(warnings)@ == old(warnings)@ ==> (spec_json_document(text@) matches Some(d) ==> final(items)@.subrange(
            old(items)@.len() as int,
            final(items)@.len() as int,
        ).map_values(|x: Dependency| entry_view(x)) == declared_entries(d, declaration_scopes(is_package_json), declaration_scopes(is_package_json).len() as int)),
        final(warnings)@ == old(warnings)@ ==> (spec_json_document(text@) matches Some(d) ==> {
            let sections = if is_package_json {
                seq!["dependencies"@, "devDependencies"@, "peerDependencies"@, "optionalDependencies"@]
            } else {
                seq!["require"@, "require-dev"@]
            };
            forall|i: int, ms: Vec<(String, JsonDoc)>, j: int|
                0 <= i < sections.len() && #[trigger] doc_get(d, sections[i]) == Some(JsonDoc::Object(ms)) && 0 <= j < ms@.len()
                    && (#[trigger] ms@[j]).1 is Text
                    ==> exists|k: int| old(items)@.len() <= k < final(items)@.len() && #[trigger] entry_view(final(items)@[k])
                    == (ms@[j].0@, (ms@[j].1->Text_0)@, sections[i])
        }),
{
    proof {
        lemma_items_added_refl(items@, if is_package_json { "npm"@ } else { "composer"@ }, path@, true);
    }
    match json_parse(text) {
        Ok(_) => {},
        Err(e) => {
            let w = cat3(path, " : JSON invalide (", cat(e.as_str(), ")").as_str());
            assert(w@.subrange(0, path@.len() as int) =~= path@);
            warnings.push(w);
            assert(warnings@.drop_last() =~= old(warnings)@);
            return;
        },
    }
    let doc = match parse_document(text) {
        Some(d) => d,
        None => {
            return;
        },
    };
    let scopes: Vec<&str> = if is_package_json {
        vec!["dependencies", "devDependencies", "peerDependencies", "optionalDependencies"]
    } else {
        vec!["require", "require-dev"]
    };
    assert(scopes@.map_values(|x: &str| x@) =~= declaration_scopes(is_package_json));
    let ecosystem = if is_package_json { "npm" } else { "composer" };
    assert(ecosystem@ == if is_package_json { "npm"@ } else { "composer"@ });
    let ghost start = items@.len();
    let ghost all_scopes = declaration_scopes(is_package_json);
    assert(items@.subrange(start as int, items@.len() as int).map_values(|x: Dependency| entry_view(x)) =~= declared_entries(doc, all_scopes, 0));
    let mut k: usize = 0;
    while k < scopes.len()
        invariant
            k <= scopes@.len(),
            scopes@.map_values(|x: &str| x@) == all_scopes,
            all_scopes == declaration_scopes(is_package_json),
            start == old(items)@.len(),
            ecosystem@ == if is_package_json { "npm"@ } else { "composer"@ },
            warnings@ == old(warnings)@,
            items_added(old(items)@, items@, ecosystem@, path@, true),
            items@.subrange(start as int, items@.len() as int).map_values(|x: Dependency| entry_view(x)) == declared_entries(doc, all_scopes, k as int),
        decreases scopes.len() - k,
    {
        let scope = scopes[k];
        assert(scope@ == all_scopes[k as int]);
        let ghost before = items@.subrange(start as int, items@.len() as int).map_values(|x: Dependency| entry_view(x));
        match get(&doc, scope) {
            Some(JsonDoc::Object(deps)) => {
                let ghost mid = items@.len();
                let mut j: usize = 0;
                assert(items@.subrange(mid as int, items@.len() as int).map_values(|x: Dependency| entry_view(x)) =~= member_entries(deps@, scope@, 0));
                while j < deps.len()
                    invariant
                        j <= deps@.len(),
                        start <= mid <= items@.len(),
                        start == old(items)@.len(),
                        items_added(old(items)@, items@, ecosystem@, path@, true),
                        items@.subrange(start as int, mid as int).map_values(|x: Dependency| entry_view(x)) == before,
                        items@.subrange(mid as int, items@.len() as int).map_values(|x: Dependency| entry_view(x)) == member_entries(deps@, scope@, j as int),
                    decreases deps.len() - j,
                {
                    let ghost ib = items@;
                    match &deps[j].1 {
                        JsonDoc::Text(v) => {
                            let name = &deps[j].0;
                            let local = starts_with_str(v.as_str(), "workspace:") || starts_with_str(v.as_str(), "file:")
                                || starts_with_str(v.as_str(), "link:");
                            let d = entry(name.as_str(), v.as_str(), ecosystem, path, scope, true, local);
                            proof {
                                lemma_items_added_push(old(items)@, items@, d, ecosystem@, path@, true);
                            }
                            items.push(d);
                            assert(items@.subrange(start as int, mid as int) =~= ib.subrange(start as int, mid as int));
                            assert(items@.subrange(mid as int, items@.len() as int) =~= ib.subrange(mid as int, ib.len() as int).push(d));
                        },
                        _ => {},
                    }
                    assert(items@.subrange(mid as int, items@.len() as int).map_values(|x: Dependency| entry_view(x)) =~= member_entries(deps@, scope@, j + 1));
                    j = j + 1;
                }
                assert(items@.subrange(start as int, items@.len() as int) =~= items@.subrange(start as int, mid as int) + items@.subrange(mid as int, items@.len() as int));
                assert(items@.subrange(start as int, items@.len() as int).map_values(|x: Dependency| entry_view(x)) =~= declared_entries(doc, all_scopes, k + 1));
            },
            _ => {
                assert(section_entries(doc, all_scopes[k as int]) =~= Seq::<(Seq<char>, Seq<char>, Seq<char>)>::empty());
                assert(declared_entries(doc, all_scopes, k + 1) =~= declared_entries(doc, all_scopes, k as int));
            },
        }
        k = k + 1;
    }
    proof {
        let added = items@.subrange(start as int, items@.len() as int);
        assert forall|i: int, ms: Vec<(String, JsonDoc)>, j: int|
            0 <= i < all_scopes.len() && #[trigger] doc_get(doc, all_scopes[i]) == Some(JsonDoc::Object(ms)) && 0 <= j < ms@.len()
                && (#[trigger] ms@[j]).1 is Text
            implies exists|q: int| start <= q < items@.len() && #[trigger] entry_view(items@[q]) == (ms@[j].0@, (ms@[j].1->Text_0)@, all_scopes[i]) by {
            let v = ms@[j].1->Text_0;
            lemma_entry_declared(doc, all_scopes, all_scopes.len() as int, i, ms, j, v);
            let w = declared_entries(doc, all_scopes, all_scopes.len() as int);
            let q = choose|q: int| 0 <= q < w.len() && w[q] == (ms@[j].0@, v@, all_scopes[i]);
            assert(entry_view(items@[start + q]) == added.map_values(|x: Dependency| entry_view(x))[q]);
        }
    }
}

/// Where the text after the last occurrence of `m` starting before `n` begins (0 when none).
pub open spec fn after_last_occurrence(s: Seq<char>, m: Seq<char>, n: int) -> int
    decreases n,
{
    if n <= 0 {
        0
    } else if crate::text::occurs_at(s, m, n - 1) {
        n - 1 + m.len()
    } else {
        after_last_occurrence(s, m, n - 1)
    }
}

/// The part of a location after its last `node_modules/`.
fn after_last_node_modules(location: &str) -> (res: String)
    ensures
        res@ == location@.subrange(
            after_last_occurrence(location@, "node_modules/"@, location@.len() as int),
            location@.len() as int,
        ),
{
    let c = chars_of(location);
    let marker = chars_of("node_modules/");
    let mut start: usize = 0;
    let mut i: usize = 0;
    while i < c.len()
        invariant
            i <= c@.len(),
            start <= c@.len(),
            c@ == location@,
            marker@ == "node_modules/"@,
            start as int == after_last_occurrence(c@, marker@, i as int),
        decreases c.len() - i,
    {
        if crate::text::matches_at(&c, &marker, i) {
            start = i + marker.len();
        }
        i = i + 1;
    }
    string_of(&slice_chars(&c, start, c.len()))
}

fn read_package_lock(path: &str, text: &str, items: &mut Vec<Dependency>, warnings: &mut Vec<String>)
    ensures
        items_added(old(items)@, final(items)@, "npm"@, path@, false),
        warned_at_most_once(old(warnings)@, final(warnings)@, path@),
        final(warnings)@ != old(warnings)@ ==> final(items)@ == old(items)@,
{
    proof {
        lemma_items_added_refl(items@, "npm"@, path@, false);
    }
    let value = match json_parse(text) {
        Ok(v) => v,
        Err(e) => {
            let w = cat3(path, " : ", e.as_str());
            assert(w@.subrange(0, path@.len() as int) =~= path@);
            warnings.push(w);
            assert(warnings@.drop_last() =~= old(warnings)@);
            return;
        },
    };
    let packages = match json_member(&value, "packages") {
        Some(p) => json_object_entries(&p),
        None => None,
    };
    match packages {
        Some(packages) => {
            let mut j: usize = 0;
            while j < packages.len()
                invariant
                    j <= packages@.len(),
                    warnings@ == old(warnings)@,
                    items_added(old(items)@, items@, "npm"@, path@, false),
                decreases packages.len() - j,
            {
                let (location, package) = &packages[j];
                if location.unicode_len() > 0 {
                    let name = match json_member(package, "name") {
                        Some(n) => match json_as_str(&n) {
                            Some(s) => s,
                            None => after_last_node_modules(location.as_str()),
                        },
                        None => after_last_node_modules(location.as_str()),
                    };
                    let version = match json_member(package, "version") {
                        Some(v) => json_as_str(&v),
                        None => None,
                    };
                    match version {
                        Some(v) => {
                            let linked = match json_member(package, "link") {
                                Some(l) => json_as_bool(&l) == Some(true),
                                None => false,
                            };
                            let d = entry(name.as_str(), v.as_str(), "npm", path, "locked", false, linked);
                            proof {
                                lemma_items_added_push(old(items)@, items@, d, "npm"@, path@, false);
                            }
                            items.push(d);
                        },
                        None => {},
                    }
                }
                j = j + 1;
            }
        },
        None => {
            let w = cat(path, " : ancien format de lockfile non interprété");
            assert(w@.subrange(0, path@.len() as int) =~= path@);
            warnings.push(w);
            assert(warnings@.drop_last() =~= old(warnings)@);
        },
    }
}

fn read_composer_lock(path: &str, text: &str, items: &mut Vec<Dependency>, warnings: &mut Vec<String>)
    ensures
        items_added(old(items)@, final(items)@, "composer"@, path@, false),
        warned_at_most_once(old(warnings)@, final(warnings)@, path@),
        final(warnings)@ != old(warnings)@ ==> final(items)@ == old(items)@,
{
    proof {
        lemma_items_added_refl(items@, "composer"@, path@, false);
    }
    let value = match json_parse(text) {
        Ok(v) => v,
        Err(e) => {
            let w = cat3(path, " : ", e.as_str());
            assert(w@.subrange(0, path@.len() as int) =~= path@);
            warnings.push(w);
            assert(warnings@.drop_last() =~= old(warnings)@);
            return;
        },
    };
    let scopes: Vec<&str> = vec!["packages", "packages-dev"];
    let mut k: usize = 0;
    while k < scopes.len()
        invariant
            k <= scopes@.len(),
            warnings@ == old(warnings)@,
            items_added(old(items)@, items@, "composer"@, path@, false),
        decreases scopes.len() - k,
    {
        let scope = scopes[k];
        let packages = match json_member(&value, scope) {
            Some(p) => json_array_items(&p),
            None => None,
        };
        match packages {
            Some(packages) => {
                let mut j: usize = 0;
                while j < packages.len()
                    invariant
                        j <= packages@.len(),
                        items_added(old(items)@, items@, "composer"@, path@, false),
                    decreases packages.len() - j,
                {
                    let p = &packages[j];
                    let name = match json_member(p, "name") {
                        Some(n) => json_as_str(&n),
                        None => None,
                    };
                    let version = match json_member(p, "version") {
                        Some(v) => json_as_str(&v),
                        None => None,
                    };
                    match (name, version) {
                        (Some(n), Some(v)) => {
                            let d = entry(n.as_str(), v.as_str(), "composer", path, scope, false, false);
                            proof {
                                lemma_items_added_push(old(items)@, items@, d, "composer"@, path@, false);
                            }
                            items.push(d);
                        },
                        _ => {},
                    }
                    j = j + 1;
                }
            },
            None => {},
        }
        k = k + 1;
    }
}

fn toml_str_member(value: &toml::Value, key: &str) -> (res: Option<String>) {
    match toml_member(value, key) {
        Some(v) => toml_as_str(&v),
        None => None,
    }
}

fn read_cargo_lock(value: &toml::Value, path: &str, items: &mut Vec<Dependency>)
    ensures
        items_added(old(items)@, final(items)@, "cargo"@, path@, false),
{
    proof {
        lemma_items_added_refl(items@, "cargo"@, path@, false);
    }
    let packages = match toml_member(value, "package") {
        Some(p) => toml_array_items(&p),
        None => None,
    };
    match packages {
        Some(packages) => {
            let mut j: usize = 0;
            while j < packages.len()
                invariant
                    j <= packages@.len(),
                    items_added(old(items)@, items@, "cargo"@, path@, false),
                decreases packages.len() - j,
            {
                let p = &packages[j];
                match (toml_str_member(p, "name"), toml_str_member(p, "version")) {
                    (Some(n), Some(v)) => {
                        let local = toml_member(p, "source").is_none();
                        let d = entry(n.as_str(), v.as_str(), "cargo", path, "locked", false, local);
                        proof {
                            lemma_items_added_push(old(items)@, items@, d, "cargo"@, path@, false);
                        }
                        items.push(d);
                    },
                    _ => {},
                }
                j = j + 1;
            }
        },
        None => {},
    }
}

/// Dependency tables of a `Cargo.toml`, nested under `target` and `workspace`. `depth`
/// bounds the nesting followed; a document parsed from a text is never nested deeper than
/// the text is long.
fn cargo_tables(value: &toml::Value, path: &str, prefix: &str, items: &mut Vec<Dependency>, depth: usize)
    ensures
        items_added(old(items)@, final(items)@, "cargo"@, path@, true),
        depth == 0 ==> final(items)@ == old(items)@,
    decreases depth,
{
    proof {
        lemma_items_added_refl(items@, "cargo"@, path@, true);
    }
    if depth == 0 {
        return;
    }
    let table = match toml_table_entries(value) {
        Some(t) => t,
        None => {
            return;
        },
    };
    let mut k: usize = 0;
    while k < table.len()
        invariant
            k <= table@.len(),
            depth > 0,
            items_added(old(items)@, items@, "cargo"@, path@, true),
        decreases table.len() - k,
    {
        let (key, item) = &table[k];
        let scope = cat(prefix, key.as_str());
        if is_text(key.as_str(), "dependencies") || is_text(key.as_str(), "dev-dependencies")
            || is_text(key.as_str(), "build-dependencies") {
            match toml_table_entries(item) {
                Some(deps) => {
                    let mut j: usize = 0;
                    while j < deps.len()
                        invariant
                            j <= deps@.len(),
                            items_added(old(items)@, items@, "cargo"@, path@, true),
                        decreases deps.len() - j,
                    {
                        let (name, spec) = &deps[j];
                        let version = match toml_as_str(spec) {
                            Some(v) => v,
                            None => match toml_str_member(spec, "version") {
                                Some(v) => v,
                                None => if toml_member(spec, "workspace").is_some() {
                                    String::from_str("workspace")
                                } else {
                                    String::from_str("local/git")
                                },
                            },
                        };
                        let local = toml_member(spec, "path").is_some();
                        let d = entry(name.as_str(), version.as_str(), "cargo", path, scope.as_str(), true, local);
                        proof {
                            lemma_items_added_push(old(items)@, items@, d, "cargo"@, path@, true);
                        }
                        items.push(d);
                        j = j + 1;
                    }
                },
                None => {},
            }
        } else if is_text(key.as_str(), "target") || is_text(key.as_str(), "workspace") || starts_with_str(prefix, "target.") {
            let nested = cat(scope.as_str(), ".");
            let ghost mid = items@;
            cargo_tables(item, path, nested.as_str(), items, depth - 1);
            proof {
                lemma_items_added_trans(old(items)@, mid, items@, "cargo"@, path@, true);
            }
        }
        k = k + 1;
    }
}

fn read_pyproject(value: &toml::Value, path: &str, items: &mut Vec<Dependency>)
    ensures
        items_added(old(items)@, final(items)@, "python"@, path@, true),
{
    proof {
        lemma_items_added_refl(items@, "python"@, path@, true);
    }
    let project = toml_member(value, "project");
    let deps = match &project {
        Some(p) => match toml_member(p, "dependencies") {
            Some(d) => toml_array_items(&d),
            None => None,
        },
        None => None,
    };
    match deps {
        Some(deps) => {
            let mut j: usize = 0;
            while j < deps.len()
                invariant
                    j <= deps@.len(),
                    items_added(old(items)@, items@, "python"@, path@, true),
                decreases deps.len() - j,
            {
                match toml_as_str(&deps[j]) {
                    Some(d) => {
                        let ghost mid = items@;
                        python_requirement(d.as_str(), path, "project", items);
                        proof {
                            if items@ != mid {
                                assert(items@ == items@.subrange(0, mid.len() as int).push(items@.last()));
                                lemma_items_added_push(old(items)@, mid, items@.last(), "python"@, path@, true);
                            }
                        }
                    },
                    None => {},
                }
                j = j + 1;
            }
        },
        None => {},
    }
    let groups = match &project {
        Some(p) => match toml_member(p, "optional-dependencies") {
            Some(g) => toml_table_entries(&g),
            None => None,
        },
        None => None,
    };
    match groups {
        Some(groups) => {
            let mut g: usize = 0;
            while g < groups.len()
                invariant
                    g <= groups@.len(),
                    items_added(old(items)@, items@, "python"@, path@, true),
                decreases groups.len() - g,
            {
                let (group, list) = &groups[g];
                match toml_array_items(list) {
                    Some(list) => {
                        let mut j: usize = 0;
                        while j < list.len()
                            invariant
                                j <= list@.len(),
                                items_added(old(items)@, items@, "python"@, path@, true),
                            decreases list.len() - j,
                        {
                            match toml_as_str(&list[j]) {
                                Some(d) => {
                                    let ghost mid = items@;
                                    python_requirement(d.as_str(), path, group.as_str(), items);
                                    proof {
                                        if items@ != mid {
                                            assert(items@ == items@.subrange(0, mid.len() as int).push(items@.last()));
                                            lemma_items_added_push(old(items)@, mid, items@.last(), "python"@, path@, true);
                                        }
                                    }
                                },
                                None => {},
                            }
                            j = j + 1;
                        }
                    },
                    None => {},
                }
                g = g + 1;
            }
        },
        None => {},
    }
    let poetry = match toml_member(value, "tool") {
        Some(t) => match toml_member(&t, "poetry") {
            Some(p) => match toml_member(&p, "dependencies") {
                Some(d) => toml_table_entries(&d),
                None => None,
            },
            None => None,
        },
        None => None,
    };
    match poetry {
        Some(deps) => {
            let mut j: usize = 0;
            while j < deps.len()
                invariant
                    j <= deps@.len(),
                    items_added(old(items)@, items@, "python"@, path@, true),
                decreases deps.len() - j,
            {
                let (name, spec) = &deps[j];
                let version = match toml_as_str(spec) {
                    Some(v) => v,
                    None => match toml_str_member(spec, "version") {
                        Some(v) => v,
                        None => String::from_str("unspecified"),
                    },
                };
                let local = toml_member(spec, "path").is_some();
                let d = entry(name.as_str(), version.as_str(), "python", path, "poetry", true, local);
                proof {
                    lemma_items_added_push(old(items)@, items@, d, "python"@, path@, true);
                }
                items.push(d);
                j = j + 1;
            }
        },
        None => {},
    }
}

/// The fields closed and the field in progress after reading `s`.
pub open spec fn fields_state(s: Seq<char>) -> (Seq<Seq<char>>, Seq<char>)
    decreases s.len(),
{
    if s.len() == 0 {
        (Seq::empty(), Seq::empty())
    } else {
        let st = fields_state(s.drop_last());
        if crate::text::is_ws(s.last()) {
            if st.1.len() > 0 { (st.0.push(st.1), Seq::empty()) } else { st }
        } else {
            (st.0, st.1.push(s.last()))
        }
    }
}

/// The whitespace-separated fields of a line, as `str::split_whitespace` gives them.
pub open spec fn spec_fields(s: Seq<char>) -> Seq<Seq<char>> {
    let st = fields_state(s);
    if st.1.len() > 0 { st.0.push(st.1) } else { st.0 }
}

/// The whitespace-separated fields of a line.
fn fields_of(line: &Vec<char>) -> (res: Vec<Vec<char>>)
    ensures
        res@.map_values(|f: Vec<char>| f@) == spec_fields(line@),
{
    let mut out: Vec<Vec<char>> = Vec::new();
    let mut current: Vec<char> = Vec::new();
    let mut i: usize = 0;
    assert(line@.subrange(0, 0) =~= Seq::<char>::empty());
    assert(out@.map_values(|f: Vec<char>| f@) =~= Seq::<Seq<char>>::empty());
    while i < line.len()
        invariant
            i <= line@.len(),
            out@.map_values(|f: Vec<char>| f@) == fields_state(line@.subrange(0, i as int)).0,
            current@ == fields_state(line@.subrange(0, i as int)).1,
        decreases line.len() - i,
    {
        let ghost pre = line@.subrange(0, i + 1);
        assert(pre.drop_last() =~= line@.subrange(0, i as int));
        assert(pre.last() == line@[i as int]);
        if crate::text::is_whitespace(line[i]) {
            if current.len() > 0 {
                let ghost cv = current@;
                let ghost before = out@.map_values(|f: Vec<char>| f@);
                out.push(current);
                current = Vec::new();
                assert(out@.map_values(|f: Vec<char>| f@) =~= before.push(cv));
                assert(current@ =~= Seq::<char>::empty());
            }
        } else {
            current.push(line[i]);
        }
        i = i + 1;
    }
    assert(line@.subrange(0, line@.len() as int) =~= line@);
    if current.len() > 0 {
        let ghost cv = current@;
        let ghost before = out@.map_values(|f: Vec<char>| f@);
        out.push(current);
        assert(out@.map_values(|f: Vec<char>| f@) =~= before.push(cv));
    }
    out
}

/// The text before the first `c`, or all of it.
pub open spec fn spec_before_char(s: Seq<char>, c: char) -> Seq<char> {
    match index_of(s, c) {
        Some(i) => s.subrange(0, i),
        None => s,
    }
}

/// The text before the first `c`, or all of it.
fn before_char(s: &Vec<char>, c: char) -> (res: Vec<char>)
    ensures
        res@ == spec_before_char(s@, c),
{
    assert(s@.subrange(0, s@.len() as int) =~= s@);
    match find_char(s, c) {
        Some(i) => {
            proof {
                crate::text::lemma_index_of_from_bounds(s@, c, 0);
                assert(crate::text::index_of_from(s@, c, 0) == Some(i as int));
            }
            slice_chars(s, 0, i)
        },
        None => slice_chars(s, 0, s.len()),
    }
}

/// The dependency is a direct Python requirement of the manifest, in the scope.
pub open spec fn python_item(d: Dependency, name: Seq<char>, version: Seq<char>, manifest: Seq<char>, scope: Seq<char>) -> bool {
    &&& d.name@ == name
    &&& d.version@ == version
    &&& d.ecosystem@ == "python"@
    &&& d.manifest@ == manifest
    &&& d.scope@ == scope
    &&& d.direct
    &&& !d.first_party
}

/// What reading the lines of a `requirements.txt` gave: the requirements (name, version)
/// and the warnings, one for each option line.
pub open spec fn requirements_state(path: Seq<char>, lines: Seq<Seq<char>>) -> (Seq<(Seq<char>, Seq<char>)>, Seq<Seq<char>>)
    decreases lines.len(),
{
    if lines.len() == 0 {
        (Seq::empty(), Seq::empty())
    } else {
        let st = requirements_state(path, lines.drop_last());
        let line = spec_trim(spec_before_char(lines.last(), '#'));
        if line.len() == 0 {
            st
        } else if line[0] == '-' {
            let f = spec_fields(line);
            (st.0, st.1.push(path + " : directive non suivie : "@ + if f.len() > 0 { f[0] } else { Seq::empty() }))
        } else {
            match spec_python_requirement(line) {
                Some(r) => (st.0.push(r), st.1),
                None => st,
            }
        }
    }
}

/// What reading a `requirements.txt` adds: its requirements, and its warnings.
pub open spec fn requirements_read(
    path: Seq<char>,
    text: Seq<char>,
    old_items: Seq<Dependency>,
    new_items: Seq<Dependency>,
    old_warnings: Seq<String>,
    new_warnings: Seq<String>,
) -> bool {
            let st = requirements_state(path, crate::text::spec_lines(text));
            &&& new_items.len() == old_items.len() + st.0.len()
            &&& new_items.subrange(0, old_items.len() as int) == old_items
            &&& forall|j: int| 0 <= j < st.0.len() ==> python_item(
                #[trigger] new_items[old_items.len() + j],
                st.0[j].0,
                st.0[j].1,
                path,
                "requirements"@,
            )
            &&& new_warnings.map_values(|w: String| w@) == old_warnings.map_values(|w: String| w@) + st.1
}

/// Reads the requirements of a `requirements.txt`, comments dropped; option lines give a
/// warning.
fn read_requirements(path: &str, text: &str, items: &mut Vec<Dependency>, warnings: &mut Vec<String>)
    ensures
        requirements_read(path@, text@, old(items)@, final(items)@, old(warnings)@, final(warnings)@),
{
    let lines = split_lines(&chars_of(text));
    let ghost lv = crate::text::spec_lines(text@);
    let ghost i0 = items@;
    let ghost w0 = warnings@.map_values(|w: String| w@);
    let mut k: usize = 0;
    assert(lv.subrange(0, 0) =~= Seq::<Seq<char>>::empty());
    assert(items@.subrange(0, i0.len() as int) =~= i0);
    assert(w0 + Seq::<Seq<char>>::empty() =~= w0);
    while k < lines.len()
        invariant
            k <= lines@.len(),
            lines@.len() == lv.len(),
            lv == crate::text::spec_lines(text@),
            forall|j: int| 0 <= j < lines@.len() ==> (#[trigger] lines@[j])@ == lv[j],
            i0 == old(items)@,
            w0 == old(warnings)@.map_values(|w: String| w@),
            items@.len() == i0.len() + requirements_state(path@, lv.subrange(0, k as int)).0.len(),
            items@.subrange(0, i0.len() as int) == i0,
            forall|j: int| 0 <= j < requirements_state(path@, lv.subrange(0, k as int)).0.len() ==> python_item(
                #[trigger] items@[i0.len() + j],
                requirements_state(path@, lv.subrange(0, k as int)).0[j].0,
                requirements_state(path@, lv.subrange(0, k as int)).0[j].1,
                path@,
                "requirements"@,
            ),
            warnings@.map_values(|w: String| w@) == w0 + requirements_state(path@, lv.subrange(0, k as int)).1,
        decreases lines.len() - k,
    {
        let ghost pre = lv.subrange(0, k + 1);
        assert(pre.drop_last() =~= lv.subrange(0, k as int));
        assert(pre.last() == lines@[k as int]@);
        let ghost st = requirements_state(path@, lv.subrange(0, k as int));
        let ghost items_before = items@;
        let ghost warnings_before = warnings@.map_values(|w: String| w@);
        let line = trim(&before_char(&lines[k], '#'));
        if line.len() > 0 {
            if line[0] == '-' {
                let fields = fields_of(&line);
                let first = if fields.len() > 0 { string_of(&fields[0]) } else { String::new() };
                proof {
                    if fields@.len() > 0 {
                        assert(fields@[0]@ == spec_fields(line@)[0]);
                    }
                }
                warnings.push(cat3(path, " : directive non suivie : ", first.as_str()));
                assert(warnings@.map_values(|w: String| w@) =~= warnings_before.push(warnings@.last()@));
            } else {
                python_requirement(string_of(&line).as_str(), path, "requirements", items);
                proof {
                    let n = requirements_state(path@, pre).0;
                    assert forall|j: int| 0 <= j < n.len() implies python_item(
                        #[trigger] items@[i0.len() + j],
                        n[j].0,
                        n[j].1,
                        path@,
                        "requirements"@,
                    ) by {
                        if j < st.0.len() {
                            assert(items@[i0.len() + j] == items@.subrange(0, items_before.len() as int)[i0.len() + j]);
                        }
                    }
                    assert(items@.subrange(0, i0.len() as int) =~= items@.subrange(0, items_before.len() as int).subrange(0, i0.len() as int));
                }
            }
        }
        k = k + 1;
    }
    assert(lv.subrange(0, lv.len() as int) =~= lv);
}

/// The dependency is the one `entry` builds from these values.
pub open spec fn declared(
    d: Dependency,
    name: Seq<char>,
    version: Seq<char>,
    ecosystem: Seq<char>,
    manifest: Seq<char>,
    scope: Seq<char>,
    direct: bool,
    first_party: bool,
) -> bool {
    &&& d.id@ == dependency_id(manifest, name, version, scope)
    &&& d.name@ == name
    &&& d.version@ == version
    &&& d.ecosystem@ == ecosystem
    &&& d.manifest@ == manifest
    &&& d.scope@ == scope
    &&& d.direct == direct
    &&& d.first_party == first_party
    &&& d.files@.len() == 0
}

/// A `go.mod` requirement: module, version, whether it is direct.
pub type GoRequire = (Seq<char>, Seq<char>, bool);

/// What reading the lines of a `go.mod` gave: whether a `require (` block is open, the
/// requirements, and how many `replace` directives were seen.
pub open spec fn go_state(lines: Seq<Seq<char>>) -> (bool, Seq<GoRequire>, nat)
    decreases lines.len(),
{
    if lines.len() == 0 {
        (false, Seq::empty(), 0)
    } else {
        let st = go_state(lines.drop_last());
        let line = spec_trim(lines.last());
        if line == "require ("@ {
            (true, st.1, st.2)
        } else if line == ")"@ {
            (false, st.1, st.2)
        } else {
            let decl = if st.0 { Some(line) } else { crate::text::strip_prefix(line, "require "@) };
            let reqs = match decl {
                Some(d) => {
                    let f = spec_fields(d);
                    if f.len() >= 2 { st.1.push((f[0], f[1], !seq_contains(d, "// indirect"@))) } else { st.1 }
                },
                None => st.1,
            };
            (st.0, reqs, if seq_starts_with(line, "replace "@) { st.2 + 1nat } else { st.2 })
        }
    }
}

/// The warning a `replace` directive of a `go.mod` gives.
pub open spec fn go_replace_warning(path: Seq<char>) -> Seq<char> {
    path + " : vérifier les directives replace pour les résolutions locales"@
}

/// What reading a `go.mod` adds: its requirements, then one warning per `replace`.
pub open spec fn go_mod_read(
    path: Seq<char>,
    text: Seq<char>,
    old_items: Seq<Dependency>,
    new_items: Seq<Dependency>,
    old_warnings: Seq<String>,
    new_warnings: Seq<String>,
) -> bool {
            let st = go_state(crate::text::spec_lines(text));
            &&& new_items.len() == old_items.len() + st.1.len()
            &&& new_items.subrange(0, old_items.len() as int) == old_items
            &&& forall|j: int| 0 <= j < st.1.len() ==> declared(
                #[trigger] new_items[old_items.len() + j],
                st.1[j].0,
                st.1[j].1,
                "go"@,
                path,
                "require"@,
                st.1[j].2,
                false,
            )
            &&& new_warnings.len() == old_warnings.len() + st.2
            &&& new_warnings.subrange(0, old_warnings.len() as int) == old_warnings
            &&& forall|j: int| old_warnings.len() <= j < new_warnings.len() ==> (#[trigger] new_warnings[j])@
                == go_replace_warning(path)
}

/// Reads the requirements of a `go.mod`: those of `require` lines and `require (` blocks,
/// direct unless marked `// indirect`; each `replace` directive gives a warning.
fn read_go_mod(path: &str, text: &str, items: &mut Vec<Dependency>, warnings: &mut Vec<String>)
    ensures
        go_mod_read(path@, text@, old(items)@, final(items)@, old(warnings)@, final(warnings)@),
{
    let lines = split_lines(&chars_of(text));
    let ghost lv = crate::text::spec_lines(text@);
    let ghost i0 = items@;
    let ghost w0 = warnings@;
    let mut block = false;
    let mut k: usize = 0;
    assert(lv.subrange(0, 0) =~= Seq::<Seq<char>>::empty());
    assert(items@.subrange(0, i0.len() as int) =~= i0);
    assert(warnings@.subrange(0, w0.len() as int) =~= w0);
    while k < lines.len()
        invariant
            k <= lines@.len(),
            lines@.len() == lv.len(),
            lv == crate::text::spec_lines(text@),
            forall|j: int| 0 <= j < lines@.len() ==> (#[trigger] lines@[j])@ == lv[j],
            i0 == old(items)@,
            w0 == old(warnings)@,
            block == go_state(lv.subrange(0, k as int)).0,
            items@.len() == i0.len() + go_state(lv.subrange(0, k as int)).1.len(),
            items@.subrange(0, i0.len() as int) == i0,
            forall|j: int| 0 <= j < go_state(lv.subrange(0, k as int)).1.len() ==> declared(
                #[trigger] items@[i0.len() + j],
                go_state(lv.subrange(0, k as int)).1[j].0,
                go_state(lv.subrange(0, k as int)).1[j].1,
                "go"@,
                path@,
                "require"@,
                go_state(lv.subrange(0, k as int)).1[j].2,
                false,
            ),
            warnings@.len() == w0.len() + go_state(lv.subrange(0, k as int)).2,
            warnings@.subrange(0, w0.len() as int) == w0,
            forall|j: int| w0.len() <= j < warnings@.len() ==> (#[trigger] warnings@[j])@ == go_replace_warning(path@),
        decreases lines.len() - k,
    {
        let ghost pre = lv.subrange(0, k + 1);
        assert(pre.drop_last() =~= lv.subrange(0, k as int));
        assert(pre.last() == lines@[k as int]@);
        let ghost st = go_state(lv.subrange(0, k as int));
        let ghost items_before = items@;
        let ghost warnings_before = warnings@;
        let line = trim(&lines[k]);
        let text_line = string_of(&line);
        if is_text(text_line.as_str(), "require (") {
            block = true;
        } else if is_text(text_line.as_str(), ")") {
            block = false;
        } else {
            let declaration: Option<Vec<char>> = if block {
                Some(slice_chars(&line, 0, line.len()))
            } else {
                crate::text::strip_prefix_exec(&line, "require ")
            };
            proof {
                if block {
                    assert(line@.subrange(0, line@.len() as int) =~= line@);
                }
            }
            match declaration {
                Some(d) => {
                    let fields = fields_of(&d);
                    if fields.len() >= 2 {
                        assert(fields@[0]@ == spec_fields(d@)[0]);
                        assert(fields@[1]@ == spec_fields(d@)[1]);
                        let direct = !crate::text::contains(&d, &chars_of("// indirect"));
                        items.push(entry(
                            string_of(&fields[0]).as_str(),
                            string_of(&fields[1]).as_str(),
                            "go",
                            path,
                            "require",
                            direct,
                            false,
                        ));
                        proof {
                            let n = go_state(pre).1;
                            assert(n == st.1.push((spec_fields(d@)[0], spec_fields(d@)[1], direct)));
                            assert forall|j: int| 0 <= j < n.len() implies declared(
                                #[trigger] items@[i0.len() + j],
                                n[j].0,
                                n[j].1,
                                "go"@,
                                path@,
                                "require"@,
                                n[j].2,
                                false,
                            ) by {
                                if j < st.1.len() {
                                    assert(items@[i0.len() + j] == items_before[i0.len() + j]);
                                }
                            }
                            assert(items@.subrange(0, i0.len() as int) =~= items_before.subrange(0, i0.len() as int));
                        }
                    }
                },
                None => {},
            }
            if starts_with_str(text_line.as_str(), "replace ") {
                warnings.push(cat(path, " : vérifier les directives replace pour les résolutions locales"));
                proof {
                    assert(warnings@.subrange(0, w0.len() as int) =~= warnings_before.subrange(0, w0.len() as int));
                }
            }
        }
        k = k + 1;
    }
    assert(lv.subrange(0, lv.len() as int) =~= lv);
}

/// A quote, which a version loses at either end.
pub open spec fn is_quote(c: char) -> bool {
    c == '\'' || c == '"'
}

/// `s` without the quotes it starts with.
pub open spec fn strip_leading_quotes(s: Seq<char>) -> Seq<char>
    decreases s.len(),
{
    if s.len() > 0 && is_quote(s[0]) { strip_leading_quotes(s.drop_first()) } else { s }
}

/// `s` without the quotes it ends with.
pub open spec fn strip_trailing_quotes(s: Seq<char>) -> Seq<char>
    decreases s.len(),
{
    if s.len() > 0 && is_quote(s.last()) { strip_trailing_quotes(s.drop_last()) } else { s }
}

/// `s` without quotes at either end.
fn strip_quotes(s: &Vec<char>) -> (res: Vec<char>)
    ensures
        res@ == strip_trailing_quotes(strip_leading_quotes(s@)),
{
    let n = s.len();
    let mut a: usize = 0;
    assert(s@.subrange(0, n as int) =~= s@);
    while a < s.len() && (s[a] == '\'' || s[a] == '"')
        invariant
            a <= s@.len(),
            n == s@.len(),
            strip_leading_quotes(s@) == strip_leading_quotes(s@.subrange(a as int, n as int)),
        decreases s.len() - a,
    {
        assert(s@.subrange(a as int, n as int).drop_first() =~= s@.subrange(a + 1, n as int));
        a = a + 1;
    }
    let ghost lead = s@.subrange(a as int, n as int);
    assert(lead.subrange(0, (n - a) as int) =~= lead);
    let mut b: usize = s.len();
    while b > a && (s[b - 1] == '\'' || s[b - 1] == '"')
        invariant
            a <= b <= s@.len(),
            n == s@.len(),
            lead == s@.subrange(a as int, n as int),
            strip_trailing_quotes(lead) == strip_trailing_quotes(s@.subrange(a as int, b as int)),
        decreases b,
    {
        assert(s@.subrange(a as int, b as int).drop_last() =~= s@.subrange(a as int, b - 1));
        b = b - 1;
    }
    slice_chars(s, a, b)
}

/// A `pubspec.yaml` declaration: name, version text, scope.
pub type PubDecl = (Seq<char>, Seq<char>, Seq<char>);

/// The declaration a two-space-indented line of a dependency section makes, if any: the
/// name before `:` (not a comment), the version after it without comment or quotes, or a
/// note for a structured declaration.
pub open spec fn pub_declaration(line: Seq<char>, scope: Seq<char>) -> Option<PubDecl> {
    let t = spec_trim(line);
    match index_of(t, ':') {
        Some(c) => {
            let name = spec_trim(t.subrange(0, c));
            if name.len() > 0 && name[0] != '#' {
                let rest = t.subrange(c + 1, t.len() as int);
                let version = strip_trailing_quotes(strip_leading_quotes(spec_trim(spec_before_char(rest, '#'))));
                Some((name, if version.len() == 0 { "structured declaration (inspect manifest)"@ } else { version }, scope))
            } else {
                None
            }
        },
        None => None,
    }
}

/// What reading the lines of a `pubspec.yaml` gave: the current dependency section (empty
/// outside one) and the declarations.
pub open spec fn pubspec_state(lines: Seq<Seq<char>>) -> (Seq<char>, Seq<PubDecl>)
    decreases lines.len(),
{
    if lines.len() == 0 {
        (Seq::empty(), Seq::empty())
    } else {
        let st = pubspec_state(lines.drop_last());
        let line = lines.last();
        if !(line.len() > 0 && line[0] == ' ') {
            let t = spec_trim(line);
            (if t == "dependencies:"@ { "dependencies"@ } else if t == "dev_dependencies:"@ { "dev_dependencies"@ } else { Seq::empty() }, st.1)
        } else {
            let two = line.len() >= 2 && line[1] == ' ';
            let three = line.len() >= 3 && line[2] == ' ';
            if st.0.len() > 0 && two && !three {
                match pub_declaration(line, st.0) {
                    Some(d) => (st.0, st.1.push(d)),
                    None => st,
                }
            } else {
                st
            }
        }
    }
}

/// The warning every `pubspec.yaml` gives.
pub open spec fn pubspec_warning(path: Seq<char>) -> Seq<char> {
    path + " : les déclarations YAML complexes (path/git/sdk/anchors) nécessitent une inspection du manifeste"@
}

/// What reading a `pubspec.yaml` adds: its declarations, then its warning.
pub open spec fn pubspec_read(
    path: Seq<char>,
    text: Seq<char>,
    old_items: Seq<Dependency>,
    new_items: Seq<Dependency>,
    old_warnings: Seq<String>,
    new_warnings: Seq<String>,
) -> bool {
            let ds = pubspec_state(crate::text::spec_lines(text)).1;
            &&& new_items.len() == old_items.len() + ds.len()
            &&& new_items.subrange(0, old_items.len() as int) == old_items
            &&& forall|j: int| 0 <= j < ds.len() ==> declared(
                #[trigger] new_items[old_items.len() + j],
                ds[j].0,
                ds[j].1,
                "pub"@,
                path,
                ds[j].2,
                true,
                false,
            )
            &&& new_warnings.map_values(|w: String| w@) == old_warnings.map_values(|w: String| w@).push(pubspec_warning(path))
}

/// Reads the declarations of the `dependencies` and `dev_dependencies` sections of a
/// `pubspec.yaml`, then warns that complex declarations need a look at the manifest.
fn read_pubspec(path: &str, text: &str, items: &mut Vec<Dependency>, warnings: &mut Vec<String>)
    ensures
        pubspec_read(path@, text@, old(items)@, final(items)@, old(warnings)@, final(warnings)@),
{
    let lines = split_lines(&chars_of(text));
    let ghost lv = crate::text::spec_lines(text@);
    let ghost i0 = items@;
    let mut scope: &str = "";
    proof {
        reveal_strlit("");
    }
    let mut k: usize = 0;
    assert(lv.subrange(0, 0) =~= Seq::<Seq<char>>::empty());
    assert(items@.subrange(0, i0.len() as int) =~= i0);
    while k < lines.len()
        invariant
            k <= lines@.len(),
            lines@.len() == lv.len(),
            lv == crate::text::spec_lines(text@),
            forall|j: int| 0 <= j < lines@.len() ==> (#[trigger] lines@[j])@ == lv[j],
            i0 == old(items)@,
            warnings@ == old(warnings)@,
            scope@ == pubspec_state(lv.subrange(0, k as int)).0,
            items@.len() == i0.len() + pubspec_state(lv.subrange(0, k as int)).1.len(),
            items@.subrange(0, i0.len() as int) == i0,
            forall|j: int| 0 <= j < pubspec_state(lv.subrange(0, k as int)).1.len() ==> declared(
                #[trigger] items@[i0.len() + j],
                pubspec_state(lv.subrange(0, k as int)).1[j].0,
                pubspec_state(lv.subrange(0, k as int)).1[j].1,
                "pub"@,
                path@,
                pubspec_state(lv.subrange(0, k as int)).1[j].2,
                true,
                false,
            ),
        decreases lines.len() - k,
    {
        let ghost pre = lv.subrange(0, k + 1);
        assert(pre.drop_last() =~= lv.subrange(0, k as int));
        assert(pre.last() == lines@[k as int]@);
        let ghost st = pubspec_state(lv.subrange(0, k as int));
        let ghost items_before = items@;
        let line = &lines[k];
        if !(line.len() > 0 && line[0] == ' ') {
            let t = string_of(&trim(line));
            scope = if is_text(t.as_str(), "dependencies:") {
                "dependencies"
            } else if is_text(t.as_str(), "dev_dependencies:") {
                "dev_dependencies"
            } else {
                proof {
                    reveal_strlit("");
                }
                ""
            };
        } else {
            let two = line.len() >= 2 && line[1] == ' ';
            let three = line.len() >= 3 && line[2] == ' ';
            if scope.unicode_len() > 0 && two && !three {
                let t = trim(line);
                let tn = t.len();
                match find_char(&t, ':') {
                    Some(c) => {
                        proof {
                            crate::text::lemma_index_of_from_bounds(t@, ':', 0);
                            assert(crate::text::index_of_from(t@, ':', 0) == Some(c as int));
                        }
                        let name = trim(&slice_chars(&t, 0, c));
                        if name.len() > 0 && name[0] != '#' {
                            let rest = slice_chars(&t, c + 1, tn);
                            let version = strip_quotes(&trim(&before_char(&rest, '#')));
                            let version_text = if version.len() == 0 {
                                String::from_str("structured declaration (inspect manifest)")
                            } else {
                                string_of(&version)
                            };
                            items.push(entry(string_of(&name).as_str(), version_text.as_str(), "pub", path, scope, true, false));
                            proof {
                                let n = pubspec_state(pre).1;
                                assert(n == st.1.push(pub_declaration(line@, st.0)->0));
                                assert forall|j: int| 0 <= j < n.len() implies declared(
                                    #[trigger] items@[i0.len() + j],
                                    n[j].0,
                                    n[j].1,
                                    "pub"@,
                                    path@,
                                    n[j].2,
                                    true,
                                    false,
                                ) by {
                                    if j < st.1.len() {
                                        assert(items@[i0.len() + j] == items_before[i0.len() + j]);
                                    }
                                }
                                assert(items@.subrange(0, i0.len() as int) =~= items_before.subrange(0, i0.len() as int));
                            }
                        }
                    },
                    None => {},
                }
            }
        }
        k = k + 1;
    }
    assert(lv.subrange(0, lv.len() as int) =~= lv);
    warnings.push(cat(
        path,
        " : les déclarations YAML complexes (path/git/sdk/anchors) nécessitent une inspection du manifeste",
    ));
    assert(warnings@.map_values(|w: String| w@) =~= old(warnings)@.map_values(|w: String| w@).push(pubspec_warning(path@)));
}

/// The part of a path after its last `/`, or all of it.
fn last_segment(path: &str) -> (res: String)
    ensures
        res@ == crate::line_analysis::after_last(path@, seq!['/']),
{
    let c = chars_of(path);
    let ghost seps = seq!['/'];
    let mut start: usize = 0;
    let mut i: usize = 0;
    assert(c@.subrange(0, 0) =~= Seq::<char>::empty());
    while i < c.len()
        invariant
            i <= c@.len(),
            start <= i,
            c@ == path@,
            seps == seq!['/'],
            c@.subrange(start as int, i as int) == crate::line_analysis::after_last(c@.subrange(0, i as int), seps),
        decreases c.len() - i,
    {
        let ghost pre = c@.subrange(0, i + 1);
        assert(pre.drop_last() =~= c@.subrange(0, i as int));
        assert(pre.last() == c@[i as int]);
        proof {
            crate::line_analysis::lemma_single_contains('/', c@[i as int]);
        }
        if c[i] == '/' {
            start = i + 1;
            assert(c@.subrange(start as int, i + 1) =~= Seq::<char>::empty());
        } else {
            assert(c@.subrange(start as int, i + 1) =~= c@.subrange(start as int, i as int).push(c@[i as int]));
        }
        i = i + 1;
    }
    assert(c@.subrange(0, c@.len() as int) =~= c@);
    string_of(&slice_chars(&c, start, c.len()))
}

/// Position of the last `c` in `s`, if any.
pub open spec fn last_index_of(s: Seq<char>, c: char) -> Option<int>
    decreases s.len(),
{
    if s.len() == 0 {
        None
    } else if s.last() == c {
        Some(s.len() - 1)
    } else {
        last_index_of(s.drop_last(), c)
    }
}

/// The directory of a manifest path: before its last `/` (`/` itself for the root, empty
/// when there is none).
pub open spec fn spec_manifest_dir(path: Seq<char>) -> Seq<char> {
    match last_index_of(path, '/') {
        None => Seq::empty(),
        Some(l) => if l == 0 { "/"@ } else { path.subrange(0, l) },
    }
}

/// The directory of a manifest path: before its last `/` (`/` itself for the root).
fn manifest_dir(path: &str) -> (res: String)
    ensures
        res@ == spec_manifest_dir(path@),
{
    let c = chars_of(path);
    let mut last: Option<usize> = None;
    let mut i: usize = 0;
    assert(c@.subrange(0, 0) =~= Seq::<char>::empty());
    while i < c.len()
        invariant
            i <= c@.len(),
            c@ == path@,
            last matches Some(l) ==> l < c@.len(),
            match last {
                Some(l) => last_index_of(c@.subrange(0, i as int), '/') == Some(l as int),
                None => last_index_of(c@.subrange(0, i as int), '/') is None,
            },
        decreases c.len() - i,
    {
        let ghost pre = c@.subrange(0, i + 1);
        assert(pre.drop_last() =~= c@.subrange(0, i as int));
        assert(pre.last() == c@[i as int]);
        if c[i] == '/' {
            last = Some(i);
        }
        i = i + 1;
    }
    assert(c@.subrange(0, c@.len() as int) =~= c@);
    match last {
        None => String::new(),
        Some(0) => String::from_str("/"),
        Some(l) => string_of(&slice_chars(&c, 0, l)),
    }
}

/// Some direct dependency of the same ecosystem and manifest directory has the name.
pub open spec fn declared_direct(items: Seq<Dependency>, d: Dependency) -> bool {
    exists|i: int| 0 <= i < items.len() && (#[trigger] items[i]).direct && items[i].ecosystem@ == d.ecosystem@
        && spec_manifest_dir(items[i].manifest@) == spec_manifest_dir(d.manifest@) && items[i].name@ == d.name@
}

/// A dependency recorded by a lockfile, whose directness is recomputed.
pub open spec fn lock_scope(scope: Seq<char>) -> bool {
    scope == "locked"@ || seq_starts_with(scope, "packages"@)
}

/// The lowercase names under which imports may mention a dependency: its name, with `-`
/// as `_`, and its last `/` segment.
pub open spec fn import_names(name: Seq<char>) -> Seq<Seq<char>> {
    seq![
        crate::text::spec_to_lowercase(name),
        crate::text::spec_to_lowercase(crate::text::spec_replace_char(name, '-', '_')),
        crate::text::spec_to_lowercase(crate::line_analysis::after_last(name, seq!['/'])),
    ]
}

/// The import's path, in lowercase, holds one of the names.
pub open spec fn import_mentions(full_path: Seq<char>, names: Seq<Seq<char>>) -> bool {
    exists|n: int| 0 <= n < names.len() && seq_contains(crate::text::spec_to_lowercase(full_path), #[trigger] names[n])
}

/// Some import whose path mentions the dependency comes from the file.
pub open spec fn file_imports(g: ProjectGraph, name: Seq<char>, file: Seq<char>) -> bool {
    exists|m: int| 0 <= m < g.imports@.len() && (#[trigger] g.imports@[m]).source_path@ == file
        && import_mentions(g.imports@[m].full_path@, import_names(name))
}

/// `new` is `old` linked: directness of lockfile entries recomputed, files whose imports
/// mention it listed in order, and the provenance noting the matches when there are some.
pub open spec fn linked(g: ProjectGraph, items: Seq<Dependency>, old: Dependency, new: Dependency) -> bool {
    &&& new.id == old.id
    &&& new.name == old.name
    &&& new.version == old.version
    &&& new.ecosystem == old.ecosystem
    &&& new.manifest == old.manifest
    &&& new.scope == old.scope
    &&& new.first_party == old.first_party
    &&& new.security == old.security
    &&& new.direct == if lock_scope(old.scope@) { declared_direct(items, old) } else { old.direct }
    &&& strictly_sorted(views(new.files@))
    &&& forall|x: Seq<char>| #[trigger] views(new.files@).contains(x) <==> file_imports(g, old.name@, x)
    &&& new.provenance@ == if new.files@.len() > 0 {
        old.provenance@ + " + lexical import matches (heuristic)"@
    } else {
        old.provenance@
    }
}

/// The key names the dependency's ecosystem, manifest directory and name.
pub open spec fn key_of(key: (String, String, String), d: Dependency) -> bool {
    key.0@ == d.ecosystem@ && key.1@ == spec_manifest_dir(d.manifest@) && key.2@ == d.name@
}

/// The key is that of one of the first `n` dependencies, a direct one.
pub open spec fn key_declared(all: Seq<Dependency>, key: (String, String, String), n: int) -> bool {
    exists|j: int| 0 <= j < n && all[j].direct && key_of(key, #[trigger] all[j])
}

/// One of the keys is the dependency's.
pub open spec fn key_listed(keys: Seq<(String, String, String)>, d: Dependency) -> bool {
    exists|q: int| 0 <= q < keys.len() && key_of(#[trigger] keys[q], d)
}

/// One of the first `m` imports, whose path mentions the names, comes from the file.
pub open spec fn imported_before(g: ProjectGraph, names: Seq<Seq<char>>, file: Seq<char>, m: int) -> bool {
    exists|m2: int| 0 <= m2 < m && (#[trigger] g.imports@[m2]).source_path@ == file && import_mentions(g.imports@[m2].full_path@, names)
}

/// Lockfile entries are direct when a manifest of the same ecosystem and directory
/// declares the same name; each dependency is linked to the files whose imports mention
/// its name.
fn link_dependencies(graph: &ProjectGraph, items: &mut Vec<Dependency>)
    ensures
        final(items)@.len() == old(items)@.len(),
        forall|k: int| 0 <= k < final(items)@.len() ==> linked(*graph, old(items)@, old(items)@[k], #[trigger] final(items)@[k]),
{
    let ghost all = items@;
    let mut keys: Vec<(String, String, String)> = Vec::new();
    let mut i: usize = 0;
    while i < items.len()
        invariant
            i <= items@.len(),
            items@ == all,
            forall|q: int| 0 <= q < keys@.len() ==> key_declared(all, #[trigger] keys@[q], i as int),
            forall|j: int| 0 <= j < i && all[j].direct ==> key_listed(keys@, #[trigger] all[j]),
        decreases items.len() - i,
    {
        let ghost kb = keys@;
        if items[i].direct {
            keys.push((items[i].ecosystem.clone(), manifest_dir(items[i].manifest.as_str()), items[i].name.clone()));
            proof {
                assert(key_of(keys@[kb.len() as int], all[i as int]));
                assert forall|q: int| 0 <= q < keys@.len() implies key_declared(all, #[trigger] keys@[q], i + 1) by {
                    if q < kb.len() {
                        assert(keys@[q] == kb[q]);
                        let j = choose|j: int| 0 <= j < i && all[j].direct && key_of(kb[q], #[trigger] all[j]);
                    }
                }
                assert forall|j: int| 0 <= j < i + 1 && all[j].direct implies key_listed(keys@, #[trigger] all[j]) by {
                    if j < i {
                        let q = choose|q: int| 0 <= q < kb.len() && key_of(#[trigger] kb[q], all[j]);
                        assert(keys@[q] == kb[q]);
                    }
                }
            }
        } else {
            proof {
                assert forall|q: int| 0 <= q < keys@.len() implies key_declared(all, #[trigger] keys@[q], i + 1) by {
                    let j = choose|j: int| 0 <= j < i && all[j].direct && key_of(keys@[q], #[trigger] all[j]);
                }
            }
        }
        i = i + 1;
    }
    let mut out: Vec<Dependency> = Vec::new();
    let mut i: usize = 0;
    while i < items.len()
        invariant
            i <= items@.len(),
            items@ == all,
            all == old(items)@,
            out@.len() == i,
            forall|q: int| 0 <= q < keys@.len() ==> key_declared(all, #[trigger] keys@[q], all.len() as int),
            forall|j: int| 0 <= j < all.len() && all[j].direct ==> key_listed(keys@, #[trigger] all[j]),
            forall|k: int| 0 <= k < i ==> linked(*graph, all, all[k], #[trigger] out@[k]),
        decreases items.len() - i,
    {
        let mut dep = items[i].duplicate();
        let ghost orig = all[i as int];
        let lock = is_text(dep.scope.as_str(), "locked") || starts_with_str(dep.scope.as_str(), "packages");
        if lock {
            let dir = manifest_dir(dep.manifest.as_str());
            let mut found = false;
            let mut k: usize = 0;
            while k < keys.len() && !found
                invariant
                    k <= keys@.len(),
                    found ==> declared_direct(all, orig),
                    !found ==> forall|q: int| 0 <= q < k ==> !key_of(#[trigger] keys@[q], orig),
                    forall|q: int| 0 <= q < keys@.len() ==> key_declared(all, #[trigger] keys@[q], all.len() as int),
                    dep.same_as(orig),
                    dir@ == spec_manifest_dir(orig.manifest@),
                decreases keys.len() - k,
            {
                if str_equal(keys[k].0.as_str(), dep.ecosystem.as_str()) && str_equal(keys[k].1.as_str(), dir.as_str())
                    && str_equal(keys[k].2.as_str(), dep.name.as_str()) {
                    proof {
                        assert(key_declared(all, keys@[k as int], all.len() as int));
                        let j = choose|j: int| 0 <= j < all.len() && all[j].direct && key_of(keys@[k as int], #[trigger] all[j]);
                        assert(declared_direct(all, orig));
                    }
                    found = true;
                }
                k = k + 1;
            }
            proof {
                if !found && declared_direct(all, orig) {
                    let j = choose|j: int| 0 <= j < all.len() && (#[trigger] all[j]).direct && all[j].ecosystem@ == orig.ecosystem@
                        && spec_manifest_dir(all[j].manifest@) == spec_manifest_dir(orig.manifest@) && all[j].name@ == orig.name@;
                    assert(key_listed(keys@, all[j]));
                    let q = choose|q: int| 0 <= q < keys@.len() && key_of(#[trigger] keys@[q], all[j]);
                    assert(!key_of(keys@[q], orig));
                }
            }
            dep.direct = found;
        }
        let ghost iname = import_names(orig.name@);
        let names: Vec<String> = vec![
            to_lowercase(dep.name.as_str()),
            to_lowercase(string_of(&crate::text::replace_char(&chars_of(dep.name.as_str()), '-', '_')).as_str()),
            to_lowercase(last_segment(dep.name.as_str()).as_str()),
        ];
        assert(views(names@) =~= iname);
        let mut files: Vec<String> = Vec::new();
        proof {
            assert(views(files@) =~= Seq::<Seq<char>>::empty());
        }
        let mut m: usize = 0;
        while m < graph.imports.len()
            invariant
                m <= graph.imports@.len(),
                strictly_sorted(views(files@)),
                iname == import_names(orig.name@),
                views(names@) == iname,
                forall|x: Seq<char>| #[trigger] views(files@).contains(x) <==> imported_before(*graph, iname, x, m as int),
            decreases graph.imports.len() - m,
        {
            let serialized = chars_of(to_lowercase(graph.imports[m].full_path.as_str()).as_str());
            let mut hit = false;
            let mut n: usize = 0;
            while n < names.len() && !hit
                invariant
                    n <= names@.len(),
                    views(names@) == iname,
                    serialized@ == crate::text::spec_to_lowercase(graph.imports@[m as int].full_path@),
                    hit ==> import_mentions(graph.imports@[m as int].full_path@, iname),
                    !hit ==> forall|n2: int| 0 <= n2 < n ==> !seq_contains(serialized@, #[trigger] iname[n2]),
                decreases names.len() - n,
            {
                assert(views(names@)[n as int] == names@[n as int]@);
                if crate::text::contains(&serialized, &chars_of(names[n].as_str())) {
                    hit = true;
                }
                n = n + 1;
            }
            let ghost fb = views(files@);
            if hit {
                insert_sorted_unique(&mut files, graph.imports[m].source_path.clone());
            }
            proof {
                if !hit {
                    assert(n == names@.len());
                    assert(!import_mentions(graph.imports@[m as int].full_path@, iname));
                }
                assert forall|x: Seq<char>| #[trigger] views(files@).contains(x) <==> imported_before(*graph, iname, x, m + 1) by {
                    if imported_before(*graph, iname, x, m + 1) {
                        let m2 = choose|m2: int| 0 <= m2 < m + 1 && (#[trigger] graph.imports@[m2]).source_path@ == x
                            && import_mentions(graph.imports@[m2].full_path@, iname);
                        if m2 < m {
                            assert(imported_before(*graph, iname, x, m as int));
                        }
                    }
                    if views(files@).contains(x) && !fb.contains(x) {
                        assert(graph.imports@[m as int].source_path@ == x);
                    }
                    if fb.contains(x) {
                        let m2 = choose|m2: int| 0 <= m2 < m && (#[trigger] graph.imports@[m2]).source_path@ == x
                            && import_mentions(graph.imports@[m2].full_path@, iname);
                    }
                }
            }
            m = m + 1;
        }
        if files.len() > 0 {
            dep.provenance.append(" + lexical import matches (heuristic)");
        }
        dep.files = files;
        proof {
            assert forall|x: Seq<char>| #[trigger] views(dep.files@).contains(x) <==> file_imports(*graph, orig.name@, x) by {
                if file_imports(*graph, orig.name@, x) {
                    let m2 = choose|m2: int| 0 <= m2 < graph.imports@.len() && (#[trigger] graph.imports@[m2]).source_path@ == x
                        && import_mentions(graph.imports@[m2].full_path@, import_names(orig.name@));
                    assert(imported_before(*graph, iname, x, graph.imports@.len() as int));
                }
                if imported_before(*graph, iname, x, graph.imports@.len() as int) {
                    let m2 = choose|m2: int| 0 <= m2 < graph.imports@.len() && (#[trigger] graph.imports@[m2]).source_path@ == x
                        && import_mentions(graph.imports@[m2].full_path@, iname);
                }
            }
        }
        out.push(dep);
        proof {
            assert forall|k: int| 0 <= k < i + 1 implies linked(*graph, all, all[k], #[trigger] out@[k]) by {
                if k < i {
                    assert(out@[k] == out@.drop_last()[k]);
                }
            }
        }
        i = i + 1;
    }
    *items = out;
}

impl Dependency {
    /// The two dependencies hold the same values.
    pub open spec fn same_as(self, other: Dependency) -> bool {
        &&& self.id == other.id
        &&& self.name == other.name
        &&& self.version == other.version
        &&& self.ecosystem == other.ecosystem
        &&& self.manifest == other.manifest
        &&& self.scope == other.scope
        &&& self.direct == other.direct
        &&& self.first_party == other.first_party
        &&& self.files@ == other.files@
        &&& self.provenance == other.provenance
        &&& self.security == other.security
    }

    /// A field-by-field copy.
    pub fn duplicate(&self) -> (res: Dependency)
        ensures
            res.same_as(*self),
    {
        Dependency {
            id: self.id.clone(),
            name: self.name.clone(),
            version: self.version.clone(),
            ecosystem: self.ecosystem.clone(),
            manifest: self.manifest.clone(),
            scope: self.scope.clone(),
            direct: self.direct,
            first_party: self.first_party,
            files: crate::text::copy_strings(&self.files),
            provenance: self.provenance.clone(),
            security: self.security.clone(),
        }
    }
}

/// The ids of the dependencies are pairwise distinct.
pub open spec fn ids_distinct(v: Seq<Dependency>) -> bool {
    forall|a: int, b: int| 0 <= a < b < v.len() ==> (#[trigger] v[a]).id@ != (#[trigger] v[b]).id@
}

/// `a` sorts before `b`: by ecosystem, then name, then manifest.
pub open spec fn dep_less(a: Dependency, b: Dependency) -> bool {
    ||| seq_less(a.ecosystem@, b.ecosystem@)
    ||| a.ecosystem@ == b.ecosystem@ && seq_less(a.name@, b.name@)
    ||| a.ecosystem@ == b.ecosystem@ && a.name@ == b.name@ && seq_less(a.manifest@, b.manifest@)
}

/// Sorted by ecosystem, name and manifest.
pub open spec fn deps_ordered(v: Seq<Dependency>) -> bool {
    forall|a: int, b: int| 0 <= a < b < v.len() ==> !dep_less(#[trigger] v[b], #[trigger] v[a])
}

proof fn lemma_dep_less_irreflexive(a: Dependency)
    ensures
        !dep_less(a, a),
{
    lemma_seq_less_irreflexive(a.ecosystem@);
    lemma_seq_less_irreflexive(a.name@);
    lemma_seq_less_irreflexive(a.manifest@);
}

proof fn lemma_dep_less_trans(a: Dependency, b: Dependency, c: Dependency)
    requires
        dep_less(a, b),
        dep_less(b, c),
    ensures
        dep_less(a, c),
{
    if seq_less(a.ecosystem@, b.ecosystem@) && seq_less(b.ecosystem@, c.ecosystem@) {
        lemma_seq_less_trans(a.ecosystem@, b.ecosystem@, c.ecosystem@);
    }
    if a.ecosystem@ == b.ecosystem@ && b.ecosystem@ == c.ecosystem@ {
        if seq_less(a.name@, b.name@) && seq_less(b.name@, c.name@) {
            lemma_seq_less_trans(a.name@, b.name@, c.name@);
        }
        if a.name@ == b.name@ && b.name@ == c.name@ && seq_less(a.manifest@, b.manifest@) && seq_less(b.manifest@, c.manifest@) {
            lemma_seq_less_trans(a.manifest@, b.manifest@, c.manifest@);
        }
    }
}

/// No dependency after `j` and before `n` has the id of dependency `j`.
pub open spec fn last_with_id(items: Seq<Dependency>, j: int, n: int) -> bool {
    forall|j2: int| j < j2 < n ==> (#[trigger] items[j2]).id@ != items[j].id@
}

/// `d` holds the values of dependency `j`, the last one before `n` with its id.
pub open spec fn copy_of_last(items: Seq<Dependency>, d: Dependency, n: int, j: int) -> bool {
    0 <= j < n && d.same_as(items[j]) && last_with_id(items, j, n)
}

/// `d` holds the values of the last dependency before `n` with some id.
pub open spec fn kept_last(items: Seq<Dependency>, d: Dependency, n: int) -> bool {
    exists|j: int| #[trigger] copy_of_last(items, d, n, j)
}

/// Some dependency has the id.
pub open spec fn id_listed(v: Seq<Dependency>, id: Seq<char>) -> bool {
    exists|k: int| 0 <= k < v.len() && (#[trigger] v[k]).id@ == id
}

/// Keeps the last dependency of each id, in id order.
fn unique_by_id(items: &Vec<Dependency>) -> (res: Vec<Dependency>)
    ensures
        forall|a: int, b: int| 0 <= a < b < res@.len() ==> seq_less((#[trigger] res@[a]).id@, (#[trigger] res@[b]).id@),
        ids_distinct(res@),
        forall|k: int| 0 <= k < res@.len() ==> kept_last(items@, #[trigger] res@[k], items@.len() as int),
        forall|j: int| 0 <= j < items@.len() ==> id_listed(res@, (#[trigger] items@[j]).id@),
{
    let mut out: Vec<Dependency> = Vec::new();
    let mut i: usize = 0;
    while i < items.len()
        invariant
            i <= items@.len(),
            forall|a: int, b: int| 0 <= a < b < out@.len() ==> seq_less((#[trigger] out@[a]).id@, (#[trigger] out@[b]).id@),
            forall|k: int| 0 <= k < out@.len() ==> kept_last(items@, #[trigger] out@[k], i as int),
            forall|j: int| 0 <= j < i ==> id_listed(out@, (#[trigger] items@[j]).id@),
        decreases items.len() - i,
    {
        let dep = items[i].duplicate();
        let mut p: usize = 0;
        while p < out.len() && crate::text::str_less(out[p].id.as_str(), dep.id.as_str())
            invariant
                p <= out@.len(),
                forall|q: int| 0 <= q < p ==> seq_less((#[trigger] out@[q]).id@, dep.id@),
            decreases out.len() - p,
        {
            p = p + 1;
        }
        let ghost before = out@;
        proof {
            assert(copy_of_last(items@, dep, i + 1, i as int));
        }
        if p < out.len() && str_equal(out[p].id.as_str(), dep.id.as_str()) {
            out.set(p, dep);
            assert forall|a: int, b: int| 0 <= a < b < out@.len() implies seq_less((#[trigger] out@[a]).id@, (#[trigger] out@[b]).id@) by {
                assert(out@[a].id@ == before[a].id@ && out@[b].id@ == before[b].id@);
            }
            proof {
                assert forall|k: int| 0 <= k < out@.len() implies kept_last(items@, #[trigger] out@[k], i + 1) by {
                    if k == p {
                        assert(copy_of_last(items@, out@[k], i + 1, i as int));
                    } else {
                        let j = choose|j: int| #[trigger] copy_of_last(items@, before[k], i as int, j);
                        assert(out@[k] == before[k]);
                        if before[k].id@ == dep.id@ {
                            if k < p {
                                lemma_seq_less_irreflexive(dep.id@);
                            } else {
                                lemma_seq_less_irreflexive(dep.id@);
                            }
                        }
                        assert(items@[i as int].id@ != items@[j].id@);
                        assert(copy_of_last(items@, out@[k], i + 1, j));
                    }
                }
                assert forall|j: int| 0 <= j < i + 1 implies id_listed(out@, (#[trigger] items@[j]).id@) by {
                    if j == i {
                        assert(out@[p as int].id@ == items@[j].id@);
                    } else {
                        let k = choose|k: int| 0 <= k < before.len() && (#[trigger] before[k]).id@ == items@[j].id@;
                        assert(out@[k].id@ == before[k].id@);
                    }
                }
            }
        } else {
            proof {
                if p < before.len() {
                    lemma_seq_less_total(before[p as int].id@, dep.id@);
                }
            }
            out.insert(p, dep);
            proof {
                assert forall|a: int, b: int| 0 <= a < b < out@.len() implies seq_less((#[trigger] out@[a]).id@, (#[trigger] out@[b]).id@) by {
                    if b < p {
                        assert(out@[a] == before[a] && out@[b] == before[b]);
                    } else if b == p {
                        assert(out@[a] == before[a]);
                    } else if a < p {
                        assert(out@[a] == before[a] && out@[b] == before[b - 1]);
                    } else if a == p {
                        assert(out@[b] == before[b - 1]);
                        if b - 1 > p {
                            lemma_seq_less_trans(out@[a].id@, before[p as int].id@, before[b - 1].id@);
                        }
                    } else {
                        assert(out@[a] == before[a - 1] && out@[b] == before[b - 1]);
                    }
                }
                assert forall|k: int| 0 <= k < out@.len() implies kept_last(items@, #[trigger] out@[k], i + 1) by {
                    if k == p {
                        assert(copy_of_last(items@, out@[k], i + 1, i as int));
                    } else {
                        let kk = if k < p { k } else { k - 1 };
                        assert(out@[k] == before[kk]);
                        let j = choose|j: int| #[trigger] copy_of_last(items@, before[kk], i as int, j);
                        if before[kk].id@ == dep.id@ {
                            if kk < p {
                                lemma_seq_less_irreflexive(dep.id@);
                            }
                        }
                        assert(items@[i as int].id@ != items@[j].id@);
                        assert(copy_of_last(items@, out@[k], i + 1, j));
                    }
                }
                assert forall|j: int| 0 <= j < i + 1 implies id_listed(out@, (#[trigger] items@[j]).id@) by {
                    if j == i {
                        assert(out@[p as int].id@ == items@[j].id@);
                    } else {
                        let k = choose|k: int| 0 <= k < before.len() && (#[trigger] before[k]).id@ == items@[j].id@;
                        if k < p {
                            assert(out@[k] == before[k]);
                        } else {
                            assert(out@[k + 1] == before[k]);
                        }
                    }
                }
            }
        }
        i = i + 1;
    }
    proof {
        assert forall|a: int, b: int| 0 <= a < b < out@.len() implies (#[trigger] out@[a]).id@ != (#[trigger] out@[b]).id@ by {
            if out@[a].id@ == out@[b].id@ {
                lemma_seq_less_irreflexive(out@[a].id@);
            }
        }
    }
    out
}

/// Order of dependencies: by ecosystem, then name, then manifest.
fn dependency_less(a: &Dependency, b: &Dependency) -> (res: bool)
    ensures
        res == dep_less(*a, *b),
{
    if crate::text::str_less(a.ecosystem.as_str(), b.ecosystem.as_str()) {
        return true;
    }
    if !str_equal(a.ecosystem.as_str(), b.ecosystem.as_str()) {
        return false;
    }
    if crate::text::str_less(a.name.as_str(), b.name.as_str()) {
        return true;
    }
    if !str_equal(a.name.as_str(), b.name.as_str()) {
        return false;
    }
    crate::text::str_less(a.manifest.as_str(), b.manifest.as_str())
}

/// Stable sort by ecosystem, name and manifest; distinct ids stay distinct.
fn sort_dependencies(items: &Vec<Dependency>) -> (res: Vec<Dependency>)
    requires
        ids_distinct(items@),
    ensures
        res@.len() == items@.len(),
        deps_ordered(res@),
        ids_distinct(res@),
        forall|k: int| 0 <= k < res@.len() ==> copy_among(items@, items@.len() as int, #[trigger] res@[k]),
{
    let mut out: Vec<Dependency> = Vec::new();
    let mut i: usize = 0;
    while i < items.len()
        invariant
            i <= items@.len(),
            ids_distinct(items@),
            out@.len() == i,
            deps_ordered(out@),
            ids_distinct(out@),
            forall|k: int| 0 <= k < out@.len() ==> copy_among(items@, i as int, #[trigger] out@[k]),
        decreases items.len() - i,
    {
        let dep = items[i].duplicate();
        let mut p: usize = 0;
        while p < out.len() && !dependency_less(&dep, &out[p])
            invariant
                p <= out@.len(),
                forall|q: int| 0 <= q < p ==> !dep_less(dep, #[trigger] out@[q]),
            decreases out.len() - p,
        {
            p = p + 1;
        }
        let ghost before = out@;
        out.insert(p, dep);
        proof {
            assert forall|a: int, b: int| 0 <= a < b < out@.len() implies !dep_less(#[trigger] out@[b], #[trigger] out@[a]) by {
                if a < p && b < p {
                    assert(out@[a] == before[a] && out@[b] == before[b]);
                } else if a < p && b == p {
                    assert(out@[a] == before[a]);
                } else if a < p {
                    assert(out@[a] == before[a] && out@[b] == before[b - 1]);
                } else if a == p {
                    assert(out@[b] == before[b - 1]);
                    if dep_less(before[b - 1], dep) {
                        lemma_dep_less_trans(before[b - 1], dep, before[p as int]);
                        if b - 1 == p {
                            lemma_dep_less_irreflexive(before[p as int]);
                        }
                    }
                } else {
                    assert(out@[a] == before[a - 1] && out@[b] == before[b - 1]);
                }
            }
            assert forall|k: int| 0 <= k < out@.len() implies copy_among(items@, i + 1, #[trigger] out@[k]) by {
                if k < p {
                    assert(out@[k] == before[k]);
                    assert(copy_among(items@, i as int, before[k]));
                    let j = choose|j: int| 0 <= j < i && before[k].same_as(items@[j]);
                    assert(out@[k].same_as(items@[j]));
                } else if k == p {
                    assert(out@[k].same_as(items@[i as int]));
                } else {
                    assert(out@[k] == before[k - 1]);
                    assert(copy_among(items@, i as int, before[k - 1]));
                    let j = choose|j: int| 0 <= j < i && before[k - 1].same_as(items@[j]);
                    assert(out@[k].same_as(items@[j]));
                }
            }
            assert forall|a: int, b: int| 0 <= a < b < out@.len() implies (#[trigger] out@[a]).id@ != (#[trigger] out@[b]).id@ by {
                if a == p || b == p {
                    let other = if a == p { b } else { a };
                    let o = if other < p { before[other] } else { before[other - 1] };
                    assert(out@[other] == o);
                    assert(copy_among(items@, i as int, o));
                    let j = choose|j: int| 0 <= j < i && o.same_as(items@[j]);
                    assert(items@[j].id@ != items@[i as int].id@);
                } else {
                    let oa = if a < p { a } else { a - 1 };
                    let ob = if b < p { b } else { b - 1 };
                    assert(out@[a] == before[oa] && out@[b] == before[ob]);
                }
            }
        }
        i = i + 1;
    }
    out
}

/// The manifest names, as the literals that spell them, are pairwise distinct.
proof fn lemma_manifest_names_distinct()
    ensures
        manifest_names() == seq![
            "package.json"@, "package-lock.json"@, "composer.json"@, "composer.lock"@, "Cargo.toml"@,
            "Cargo.lock"@, "pubspec.yaml"@, "go.mod"@, "requirements.txt"@, "pyproject.toml"@,
        ],
        forall|i: int, j: int| 0 <= i < j < 10 ==> #[trigger] manifest_names()[i] != #[trigger] manifest_names()[j],
{
        reveal_strlit("package.json");
        reveal_strlit("package-lock.json");
        reveal_strlit("composer.json");
        reveal_strlit("composer.lock");
        reveal_strlit("Cargo.toml");
        reveal_strlit("Cargo.lock");
        reveal_strlit("pubspec.yaml");
        reveal_strlit("go.mod");
        reveal_strlit("requirements.txt");
        reveal_strlit("pyproject.toml");
        assert("package.json"@.len() != "composer.json"@.len());
        assert("package.json"@.len() != "package-lock.json"@.len());
        assert("package.json"@.len() != "composer.lock"@.len());
        assert("package.json"@.len() != "Cargo.toml"@.len());
        assert("package.json"@.len() != "pyproject.toml"@.len());
        assert("package.json"@.len() != "Cargo.lock"@.len());
        assert("package.json"@.len() != "requirements.txt"@.len());
        assert("package.json"@.len() != "go.mod"@.len());
        assert("package.json"@[1] != "pubspec.yaml"@[1]);
        assert("composer.json"@.len() != "package-lock.json"@.len());
        assert("composer.json"@[9] != "composer.lock"@[9]);
        assert("composer.json"@.len() != "Cargo.toml"@.len());
        assert("composer.json"@.len() != "pyproject.toml"@.len());
        assert("composer.json"@.len() != "Cargo.lock"@.len());
        assert("composer.json"@.len() != "requirements.txt"@.len());
        assert("composer.json"@.len() != "go.mod"@.len());
        assert("composer.json"@.len() != "pubspec.yaml"@.len());
        assert("package-lock.json"@.len() != "composer.lock"@.len());
        assert("package-lock.json"@.len() != "Cargo.toml"@.len());
        assert("package-lock.json"@.len() != "pyproject.toml"@.len());
        assert("package-lock.json"@.len() != "Cargo.lock"@.len());
        assert("package-lock.json"@.len() != "requirements.txt"@.len());
        assert("package-lock.json"@.len() != "go.mod"@.len());
        assert("package-lock.json"@.len() != "pubspec.yaml"@.len());
        assert("composer.lock"@.len() != "Cargo.toml"@.len());
        assert("composer.lock"@.len() != "pyproject.toml"@.len());
        assert("composer.lock"@.len() != "Cargo.lock"@.len());
        assert("composer.lock"@.len() != "requirements.txt"@.len());
        assert("composer.lock"@.len() != "go.mod"@.len());
        assert("composer.lock"@.len() != "pubspec.yaml"@.len());
        assert("Cargo.toml"@.len() != "pyproject.toml"@.len());
        assert("Cargo.toml"@[6] != "Cargo.lock"@[6]);
        assert("Cargo.toml"@.len() != "requirements.txt"@.len());
        assert("Cargo.toml"@.len() != "go.mod"@.len());
        assert("Cargo.toml"@.len() != "pubspec.yaml"@.len());
        assert("pyproject.toml"@.len() != "Cargo.lock"@.len());
        assert("pyproject.toml"@.len() != "requirements.txt"@.len());
        assert("pyproject.toml"@.len() != "go.mod"@.len());
        assert("pyproject.toml"@.len() != "pubspec.yaml"@.len());
        assert("Cargo.lock"@.len() != "requirements.txt"@.len());
        assert("Cargo.lock"@.len() != "go.mod"@.len());
        assert("Cargo.lock"@.len() != "pubspec.yaml"@.len());
        assert("requirements.txt"@.len() != "go.mod"@.len());
        assert("requirements.txt"@.len() != "pubspec.yaml"@.len());
        assert("go.mod"@.len() != "pubspec.yaml"@.len());
    let names = manifest_names();
    assert(names =~= seq![
        "package.json"@, "package-lock.json"@, "composer.json"@, "composer.lock"@, "Cargo.toml"@,
        "Cargo.lock"@, "pubspec.yaml"@, "go.mod"@, "requirements.txt"@, "pyproject.toml"@,
    ]);
}

/// Dispatches one manifest's text to its reader, by the manifest's file name; any other
/// file adds nothing.
fn read_manifest(file: &str, path: &str, text: &str, items: &mut Vec<Dependency>, warnings: &mut Vec<String>)
    ensures
        !manifest_names().contains(file@) ==> final(items)@ == old(items)@ && final(warnings)@ == old(warnings)@,
        file@ == "package.json"@ ==> items_added(old(items)@, final(items)@, "npm"@, path@, true)
            && warned_at_most_once(old(warnings)@, final(warnings)@, path@),
        file@ == "package.json"@ && final(warnings)@ == old(warnings)@ ==> (spec_json_document(text@) matches Some(d)
            ==> final(items)@.subrange(old(items)@.len() as int, final(items)@.len() as int).map_values(
            |x: Dependency| entry_view(x),
        ) == declared_entries(d, declaration_scopes(true), 4)),
        file@ == "composer.json"@ && final(warnings)@ == old(warnings)@ ==> (spec_json_document(text@) matches Some(d)
            ==> final(items)@.subrange(old(items)@.len() as int, final(items)@.len() as int).map_values(
            |x: Dependency| entry_view(x),
        ) == declared_entries(d, declaration_scopes(false), 2)),
        file@ == "composer.json"@ ==> items_added(old(items)@, final(items)@, "composer"@, path@, true)
            && warned_at_most_once(old(warnings)@, final(warnings)@, path@),
        file@ == "package-lock.json"@ ==> items_added(old(items)@, final(items)@, "npm"@, path@, false)
            && warned_at_most_once(old(warnings)@, final(warnings)@, path@),
        file@ == "composer.lock"@ ==> items_added(old(items)@, final(items)@, "composer"@, path@, false)
            && warned_at_most_once(old(warnings)@, final(warnings)@, path@),
        file@ == "Cargo.lock"@ ==> items_added(old(items)@, final(items)@, "cargo"@, path@, false)
            && warned_at_most_once(old(warnings)@, final(warnings)@, path@),
        file@ == "Cargo.toml"@ ==> items_added(old(items)@, final(items)@, "cargo"@, path@, true)
            && warned_at_most_once(old(warnings)@, final(warnings)@, path@),
        file@ == "pyproject.toml"@ ==> items_added(old(items)@, final(items)@, "python"@, path@, true)
            && warned_at_most_once(old(warnings)@, final(warnings)@, path@),
        file@ == "requirements.txt"@ ==> requirements_read(path@, text@, old(items)@, final(items)@, old(warnings)@, final(warnings)@),
        file@ == "go.mod"@ ==> go_mod_read(path@, text@, old(items)@, final(items)@, old(warnings)@, final(warnings)@),
        file@ == "pubspec.yaml"@ ==> pubspec_read(path@, text@, old(items)@, final(items)@, old(warnings)@, final(warnings)@),
{
    proof {
        lemma_manifest_names_distinct();
        lemma_items_added_refl(items@, "cargo"@, path@, false);
        lemma_items_added_refl(items@, "cargo"@, path@, true);
        lemma_items_added_refl(items@, "python"@, path@, true);
        let names = manifest_names();
        assert(names[0] == "package.json"@ && names[1] == "package-lock.json"@ && names[2] == "composer.json"@);
        assert(names[3] == "composer.lock"@ && names[4] == "Cargo.toml"@ && names[5] == "Cargo.lock"@);
        assert(names[6] == "pubspec.yaml"@ && names[7] == "go.mod"@ && names[8] == "requirements.txt"@);
        assert(names[9] == "pyproject.toml"@);
    }
    if is_text(file, "package.json") || is_text(file, "composer.json") {
        read_declarations(is_text(file, "package.json"), path, text, items, warnings);
    } else if is_text(file, "package-lock.json") {
        read_package_lock(path, text, items, warnings);
    } else if is_text(file, "composer.lock") {
        read_composer_lock(path, text, items, warnings);
    } else if is_text(file, "Cargo.toml") || is_text(file, "pyproject.toml") || is_text(file, "Cargo.lock") {
        match toml_parse(text) {
            Ok(value) => {
                if is_text(file, "Cargo.lock") {
                    read_cargo_lock(&value, path, items);
                } else if is_text(file, "Cargo.toml") {
                    let depth = text.unicode_len();
                    let fuel = if depth < usize::MAX { depth + 1 } else { depth };
                    cargo_tables(&value, path, "", items, fuel);
                } else {
                    read_pyproject(&value, path, items);
                }
            },
            Err(e) => {
                let w = cat3(path, " : TOML invalide (", cat(e.as_str(), ")").as_str());
                assert(w@.subrange(0, path@.len() as int) =~= path@);
                warnings.push(w);
                assert(warnings@.drop_last() =~= old(warnings)@);
            },
        }
    } else if is_text(file, "requirements.txt") {
        read_requirements(path, text, items, warnings);
    } else if is_text(file, "go.mod") {
        read_go_mod(path, text, items, warnings);
    } else if is_text(file, "pubspec.yaml") {
        read_pubspec(path, text, items, warnings);
    }
}

/// `d` holds the values of one of the first `n` dependencies.
pub open spec fn copy_among(items: Seq<Dependency>, n: int, d: Dependency) -> bool {
    exists|j: int| 0 <= j < n && d.same_as(items[j])
}

/// The dependency's files come in strictly increasing order, and one found in files carries
/// the heuristic import note at the end of its provenance.
pub open spec fn import_linked(d: Dependency) -> bool {
    &&& strictly_sorted(views(d.files@))
    &&& d.files@.len() > 0 ==> exists|p: Seq<char>| d.provenance@ == p + " + lexical import matches (heuristic)"@
}

/// The dependency inventory of a project. `root_readable` says whether the project's root
/// could be opened; `reads` holds, in the order of `manifest_candidates(graph)`, what
/// reading each candidate gave (missing candidates at the end read as missing).
pub fn inventory(graph: &ProjectGraph, root_readable: bool, reads: &Vec<ManifestRead>) -> (res: DependencyInventory)
    ensures
        !root_readable ==> res.items@.len() == 0 && res.warnings@.len() == 1
            && res.warnings@[0]@ == "Racine du projet inaccessible"@,
        ids_distinct(res.items@),
        deps_ordered(res.items@),
        forall|k: int| 0 <= k < res.items@.len() ==> import_linked(#[trigger] res.items@[k]),
{
    if !root_readable {
        let mut warnings: Vec<String> = Vec::new();
        warnings.push(String::from_str("Racine du projet inaccessible"));
        return DependencyInventory { items: Vec::new(), warnings };
    }
    let candidates = manifest_candidates(graph);
    let names = manifest_name_list();
    proof {
        assert(manifest_names().len() == 10);
        assert(names@.map_values(|s: &str| s@).len() == names@.len());
    }
    let mut items: Vec<Dependency> = Vec::new();
    let mut warnings: Vec<String> = Vec::new();
    let mut c: usize = 0;
    while c < candidates.len() && c < reads.len()
        invariant
            c <= candidates@.len(),
            names@.len() == 10,
        decreases candidates.len() - c,
    {
        let path = candidates[c].as_str();
        let file = names[c % 10];
        match &reads[c] {
            ManifestRead::Missing => {},
            ManifestRead::OutsideProject => {
                warnings.push(cat(path, " : lien hors projet ignoré"));
            },
            ManifestRead::Failed(e) => {
                warnings.push(cat3(path, " : ", e.as_str()));
            },
            ManifestRead::Text(text) => {
                if text.as_str().as_bytes().len() > 5_000_000 {
                    warnings.push(cat(path, " dépasse 5 Mo"));
                } else {
                    read_manifest(file, path, text.as_str(), &mut items, &mut warnings);
                }
            },
        }
        c = c + 1;
    }
    let ghost read_items = items@;
    link_dependencies(graph, &mut items);
    proof {
        assert forall|k: int| 0 <= k < items@.len() implies import_linked(#[trigger] items@[k]) by {
            assert(linked(*graph, read_items, read_items[k], items@[k]));
            if items@[k].files@.len() > 0 {
                assert(items@[k].provenance@ == read_items[k].provenance@ + " + lexical import matches (heuristic)"@);
            }
        }
    }
    let unique = unique_by_id(&items);
    proof {
        assert forall|k: int| 0 <= k < unique@.len() implies import_linked(#[trigger] unique@[k]) by {
            assert(kept_last(items@, unique@[k], items@.len() as int));
            let j = choose|j: int| #[trigger] copy_of_last(items@, unique@[k], items@.len() as int, j);
            assert(import_linked(items@[j]));
            assert(views(unique@[k].files@) == views(items@[j].files@));
        }
    }
    let sorted = sort_dependencies(&unique);
    proof {
        assert forall|k: int| 0 <= k < sorted@.len() implies import_linked(#[trigger] sorted@[k]) by {
            assert(copy_among(unique@, unique@.len() as int, sorted@[k]));
            let j = choose|j: int| 0 <= j < unique@.len() && sorted@[k].same_as(unique@[j]);
            assert(import_linked(unique@[j]));
            assert(views(sorted@[k].files@) == views(unique@[j].files@));
        }
    }
    DependencyInventory { items: sorted, warnings }
}

} // verus!
