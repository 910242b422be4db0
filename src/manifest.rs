//! The dependency manifest of the runtime project: an insertion-ordered map
//! from library name to version text, read from the user's optional
//! declaration file, completed with inferred names, and rendered into the
//! project's build manifest.

use vstd::prelude::*;
use crate::inference::{
    collect_local_modules, declared_in_files, detect_crate_dependencies, detected_in,
    lemma_local_modules_excluded,
};
use crate::text::{
    char_vec, ends_with, find_from, first_from, has_prefix, lines_of, push_all, same_chars,
    slice_of, split_lines, starts_with, string_of, string_views, trim, trimmed, views,
};

verus! {

/// Name and version text of each entry, in order.
pub type Entries = Seq<(Seq<char>, Seq<char>)>;

/// Index of the entry named `k` in `m`, or -1.
pub open spec fn find_key(m: Entries, k: Seq<char>) -> int
    decreases m.len(),
{
    if m.len() == 0 {
        -1
    } else if m.last().0 == k {
        m.len() - 1
    } else {
        find_key(m.drop_last(), k)
    }
}

/// The version text recorded for `k` in `m`.
pub open spec fn lookup(m: Entries, k: Seq<char>) -> Option<Seq<char>> {
    let i = find_key(m, k);
    if 0 <= i < m.len() {
        Some(m[i].1)
    } else {
        None
    }
}

/// No two entries share a name.
pub open spec fn keys_unique(m: Entries) -> bool {
    forall|i: int, j: int| 0 <= i < j < m.len() ==> m[i].0 != m[j].0
}

/// Number of entries of `m` named `k`.
pub open spec fn count_key(m: Entries, k: Seq<char>) -> nat
    decreases m.len(),
{
    if m.len() == 0 {
        0
    } else {
        count_key(m.drop_last(), k) + if m.last().0 == k {
            1nat
        } else {
            0nat
        }
    }
}

/// `m` with `k` set to `v`: in place when `k` is there, else appended.
pub open spec fn put(m: Entries, k: Seq<char>, v: Seq<char>) -> Entries {
    let i = find_key(m, k);
    if 0 <= i < m.len() {
        m.update(i, (k, v))
    } else {
        m.push((k, v))
    }
}

/// `m` with `(k, v)` appended when `k` is not there yet; unchanged otherwise.
pub open spec fn put_absent(m: Entries, k: Seq<char>, v: Seq<char>) -> Entries {
    if find_key(m, k) >= 0 {
        m
    } else {
        m.push((k, v))
    }
}

/// The version text given to an inferred library: any version.
pub open spec fn any_version() -> Seq<char> {
    "\"*\""@
}

/// `m` completed with the names `ns`, each at any version unless present.
pub open spec fn with_inferred(m: Entries, ns: Seq<Seq<char>>) -> Entries
    decreases ns.len(),
{
    if ns.len() == 0 {
        m
    } else {
        put_absent(with_inferred(m, ns.drop_last()), ns.last(), any_version())
    }
}

/// One line of a declaration file read in state `st` (entries so far, and
/// whether the line is inside the `[dependencies]` section).
pub open spec fn parse_step(st: (Entries, bool), line: Seq<char>) -> (Entries, bool) {
    let t = trim(line);
    if t == "[dependencies]"@ {
        (st.0, true)
    } else if starts_with(t, "["@) && ends_with(t, "]"@) {
        (st.0, false)
    } else if st.1 && t.len() > 0 && !starts_with(t, "#"@) && first_from(t, "="@, 0) >= 0 {
        let eq = first_from(t, "="@, 0);
        (put(st.0, trim(t.subrange(0, eq)), trim(t.subrange(eq + 1, t.len() as int))), st.1)
    } else {
        st
    }
}

pub open spec fn parse_lines(ls: Seq<Seq<char>>) -> (Entries, bool)
    decreases ls.len(),
{
    if ls.len() == 0 {
        (seq![], false)
    } else {
        parse_step(parse_lines(ls.drop_last()), ls.last())
    }
}

/// The entries that a declaration file `text` states in its
/// `[dependencies]` section, `name = version` per line; a later line for a
/// name replaces the earlier version.
pub open spec fn declared_entries(text: Seq<char>) -> Entries {
    parse_lines(lines_of(text)).0
}

/// `m` completed with the names inferred from each source of `srcs`.
pub open spec fn scanned(m: Entries, srcs: Seq<Seq<char>>, locals: Seq<Seq<char>>) -> Entries
    decreases srcs.len(),
{
    if srcs.len() == 0 {
        m
    } else {
        with_inferred(scanned(m, srcs.drop_last(), locals), detected_in(srcs.last(), locals))
    }
}

/// The manifest for a declaration file (if any) and the user's sources:
/// the declared entries, then each inferred name that they do not name.
pub open spec fn user_dependencies(declared: Option<Seq<char>>, srcs: Seq<Seq<char>>) -> Entries {
    let base = match declared {
        Some(t) => declared_entries(t),
        None => seq![],
    };
    scanned(base, srcs, declared_in_files(srcs))
}

/// The lines `name = version` of every entry, in order.
pub open spec fn rendered(m: Entries) -> Seq<char>
    decreases m.len(),
{
    if m.len() == 0 {
        seq![]
    } else {
        rendered(m.drop_last()) + m.last().0 + " = "@ + m.last().1 + "\n"@
    }
}

/// The build manifest `template` with the entries of `m` inserted at the
/// start of the line after its `[dependencies]` header; `template` itself
/// when `m` is empty or there is no such header line.
pub open spec fn manifest_text(template: Seq<char>, m: Entries) -> Seq<char> {
    let h = first_from(template, "[dependencies]"@, 0);
    let nl = first_from(template, "\n"@, h + 14);
    if m.len() == 0 || h < 0 || nl < 0 {
        template
    } else {
        template.subrange(0, nl + 1) + rendered(m) + template.subrange(nl + 1, template.len() as int)
    }
}

proof fn lemma_find_key(m: Entries, k: Seq<char>)
    ensures
        -1 <= find_key(m, k) < m.len(),
        find_key(m, k) >= 0 ==> m[find_key(m, k)].0 == k,
        find_key(m, k) < 0 ==> forall|j: int| 0 <= j < m.len() ==> m[j].0 != k,
    decreases m.len(),
{
    if m.len() > 0 {
        lemma_find_key(m.drop_last(), k);
        assert forall|j: int| 0 <= j < m.len() - 1 implies m[j] == m.drop_last()[j] by {}
    }
}

proof fn lemma_count_key(m: Entries, k: Seq<char>)
    requires
        keys_unique(m),
    ensures
        count_key(m, k) == if find_key(m, k) >= 0 {
            1nat
        } else {
            0nat
        },
    decreases m.len(),
{
    if m.len() > 0 {
        lemma_count_key(m.drop_last(), k);
        lemma_find_key(m.drop_last(), k);
        if m.last().0 == k && find_key(m.drop_last(), k) >= 0 {
            let j = find_key(m.drop_last(), k);
            assert(m[j].0 == m[m.len() - 1].0);
        }
    }
}

proof fn lemma_put_unique(m: Entries, k: Seq<char>, v: Seq<char>)
    requires
        keys_unique(m),
    ensures
        keys_unique(put(m, k, v)),
        keys_unique(put_absent(m, k, v)),
{
    lemma_find_key(m, k);
}

/// An insertion-ordered map from library name to version text.
pub struct DependencyManifest {
    entries: Vec<(String, String)>,
}

impl View for DependencyManifest {
    type V = Entries;

    closed spec fn view(&self) -> Entries {
        self.entries@.map_values(|e: (String, String)| (e.0@, e.1@))
    }
}

impl DependencyManifest {
    /// The manifest is well formed: no name appears twice.
    pub open spec fn wf(&self) -> bool {
        keys_unique(self@)
    }

    /// An empty manifest.
    pub fn new() -> (r: Self)
        ensures
            r@ == Seq::<(Seq<char>, Seq<char>)>::empty(),
            r.wf(),
    {
        let r = DependencyManifest { entries: Vec::new() };
        assert(r@ =~= Seq::<(Seq<char>, Seq<char>)>::empty());
        r
    }

    /// Number of entries.
    pub fn len(&self) -> (r: usize)
        ensures
            r == self@.len(),
    {
        self.entries.len()
    }

    /// Whether there is no entry.
    pub fn is_empty(&self) -> (r: bool)
        ensures
            r == (self@.len() == 0),
    {
        self.entries.len() == 0
    }

    /// Name of entry `i`.
    pub fn name_at(&self, i: usize) -> (r: &String)
        requires
            i < self@.len(),
        ensures
            r@ == self@[i as int].0,
    {
        &self.entries[i].0
    }

    /// Version text of entry `i`.
    pub fn version_at(&self, i: usize) -> (r: &String)
        requires
            i < self@.len(),
        ensures
            r@ == self@[i as int].1,
    {
        &self.entries[i].1
    }

    /// Position of the entry named `name`.
    fn position(&self, name: &String) -> (r: Option<usize>)
        ensures
            r matches Some(i) ==> i == find_key(self@, name@),
            r is None ==> find_key(self@, name@) == -1,
    {
        let mut i: usize = self.entries.len();
        proof {
            assert(self@.subrange(0, i as int) =~= self@);
        }
        while i > 0
            invariant
                i <= self@.len(),
                find_key(self@, name@) == find_key(self@.subrange(0, i as int), name@),
            decreases i,
        {
            assert(self@[i - 1].0 == self.entries@[i - 1].0@);
            if self.entries[i - 1].0 == *name {
                return Some(i - 1);
            }
            assert(self@.subrange(0, i as int).drop_last() =~= self@.subrange(0, i - 1));
            i = i - 1;
        }
        None
    }

    /// The version text recorded for `name`.
    pub fn get(&self, name: &String) -> (r: Option<&String>)
        ensures
            r matches Some(v) ==> lookup(self@, name@) == Some(v@),
            r is None ==> lookup(self@, name@) is None,
    {
        proof {
            lemma_find_key(self@, name@);
        }
        match self.position(name) {
            Some(i) => Some(&self.entries[i].1),
            None => None,
        }
    }

    /// Sets `name` to `version`: in place when `name` is there, else as a
    /// new last entry.
    pub fn insert(&mut self, name: String, version: String)
        requires
            old(self).wf(),
        ensures
            final(self)@ == put(old(self)@, name@, version@),
            final(self).wf(),
    {
        proof {
            lemma_find_key(self@, name@);
            lemma_put_unique(self@, name@, version@);
        }
        match self.position(&name) {
            Some(i) => {
                self.entries.set(i, (name, version));
                assert(self@ =~= put(old(self)@, name@, version@));
            },
            None => {
                self.entries.push((name, version));
                assert(self@ =~= put(old(self)@, name@, version@));
            },
        }
    }

    /// Adds `name` at `version` unless the manifest names it already.
    pub fn insert_if_absent(&mut self, name: String, version: String)
        requires
            old(self).wf(),
        ensures
            final(self)@ == put_absent(old(self)@, name@, version@),
            final(self).wf(),
    {
        proof {
            lemma_find_key(self@, name@);
            lemma_put_unique(self@, name@, version@);
        }
        match self.position(&name) {
            Some(_) => {},
            None => {
                self.entries.push((name, version));
                assert(self@ =~= put_absent(old(self)@, name@, version@));
            },
        }
    }

    /// Adds each of `names` at any version (`"*"`) unless already named.
    pub fn add_inferred(&mut self, names: &Vec<String>)
        requires
            old(self).wf(),
        ensures
            final(self)@ == with_inferred(old(self)@, string_views(names@)),
            final(self).wf(),
    {
        let mut i: usize = 0;
        while i < names.len()
            invariant
                i <= names@.len(),
                self.wf(),
                self@ == with_inferred(old(self)@, string_views(names@).take(i as int)),
            decreases names@.len() - i,
        {
            assert(string_views(names@).take(i + 1).drop_last() =~= string_views(names@).take(
                i as int,
            ));
            let any = string_of(char_vec("\"*\"").as_slice());
            self.insert_if_absent(names[i].clone(), any);
            i = i + 1;
        }
        assert(string_views(names@).take(names@.len() as int) =~= string_views(names@));
    }
}

/// Reads one trimmed line `t` of a declaration file into `m`.
fn parse_line(m: &mut DependencyManifest, in_section: bool, line: &Vec<char>) -> (r: bool)
    requires
        old(m).wf(),
    ensures
        (final(m)@, r) == parse_step((old(m)@, in_section), line@),
        final(m).wf(),
{
    let t = trimmed(line);
    if same_chars(&t, &char_vec("[dependencies]")) {
        return true;
    }
    if has_prefix(&t, &char_vec("[")) && has_suffix(&t, &char_vec("]")) {
        return false;
    }
    if in_section && t.len() > 0 && !has_prefix(&t, &char_vec("#")) {
        match find_from(&t, &char_vec("="), 0) {
            Some(eq) => {
                proof {
                    reveal_strlit("=");
                }
                let name = trimmed(&slice_of(&t, 0, eq));
                let version = trimmed(&slice_of(&t, eq + 1, t.len()));
                m.insert(string_of(name.as_slice()), string_of(version.as_slice()));
            },
            None => {},
        }
    }
    in_section
}

/// Whether `s` ends with `p`.
fn has_suffix(s: &Vec<char>, p: &Vec<char>) -> (r: bool)
    ensures
        r == ends_with(s@, p@),
{
    if p.len() > s.len() {
        return false;
    }
    let tail = slice_of(s, s.len() - p.len(), s.len());
    same_chars(&tail, p)
}

/// The entries of a declaration file's `[dependencies]` section.
pub fn parse_dependency_declarations(text: &str) -> (r: DependencyManifest)
    ensures
        r@ == declared_entries(text@),
        r.wf(),
{
    let ls = split_lines(&char_vec(text));
    let mut m = DependencyManifest::new();
    let mut in_section = false;
    let mut i: usize = 0;
    while i < ls.len()
        invariant
            i <= ls@.len(),
            views(ls@) == lines_of(text@),
            m.wf(),
            (m@, in_section) == parse_lines(views(ls@).take(i as int)),
        decreases ls@.len() - i,
    {
        assert(views(ls@).take(i + 1).drop_last() =~= views(ls@).take(i as int));
        assert(views(ls@).take(i + 1).last() == ls@[i as int]@);
        in_section = parse_line(&mut m, in_section, &ls[i]);
        i = i + 1;
    }
    assert(views(ls@).take(ls@.len() as int) =~= views(ls@));
    m
}

/// Completes `manifest` with the libraries that each of `sources` refers
/// to, leaving out the modules `local_modules`; a name already there keeps
/// its version.
pub fn scan_rust_dependencies(
    sources: &Vec<String>,
    manifest: &mut DependencyManifest,
    local_modules: &Vec<String>,
)
    requires
        old(manifest).wf(),
    ensures
        final(manifest)@ == scanned(
            old(manifest)@,
            string_views(sources@),
            string_views(local_modules@),
        ),
        final(manifest).wf(),
{
    let mut i: usize = 0;
    while i < sources.len()
        invariant
            i <= sources@.len(),
            manifest.wf(),
            manifest@ == scanned(
                old(manifest)@,
                string_views(sources@).take(i as int),
                string_views(local_modules@),
            ),
        decreases sources@.len() - i,
    {
        assert(string_views(sources@).take(i + 1).drop_last() =~= string_views(sources@).take(
            i as int,
        ));
        assert(string_views(sources@).take(i + 1).last() == sources@[i as int]@);
        let found = detect_crate_dependencies(sources[i].as_str(), local_modules);
        manifest.add_inferred(&found);
        i = i + 1;
    }
    assert(string_views(sources@).take(sources@.len() as int) =~= string_views(sources@));
}

/// The runtime project's dependencies: those of the declaration file, if
/// there is one, then each library that the user's sources refer to and
/// the file does not name, at any version. Modules that the sources declare
/// themselves are not libraries.
pub fn parse_user_dependencies(declared: Option<&str>, sources: &Vec<String>) -> (r:
    DependencyManifest)
    ensures
        r@ == user_dependencies(
            match declared {
                Some(t) => Some(t@),
                None => None,
            },
            string_views(sources@),
        ),
        r.wf(),
{
    let mut m = match declared {
        Some(t) => parse_dependency_declarations(t),
        None => DependencyManifest::new(),
    };
    let locals = collect_local_modules(sources);
    scan_rust_dependencies(sources, &mut m, &locals);
    m
}

/// `rendered(m)`.
fn render_entries(m: &DependencyManifest) -> (r: Vec<char>)
    ensures
        r@ == rendered(m@),
{
    let mut r: Vec<char> = Vec::new();
    let mut i: usize = 0;
    while i < m.len()
        invariant
            i <= m@.len(),
            r@ == rendered(m@.take(i as int)),
        decreases m@.len() - i,
    {
        assert(m@.take(i + 1).drop_last() =~= m@.take(i as int));
        push_all(&mut r, &char_vec(m.name_at(i).as_str()));
        push_all(&mut r, &char_vec(" = "));
        push_all(&mut r, &char_vec(m.version_at(i).as_str()));
        push_all(&mut r, &char_vec("\n"));
        i = i + 1;
    }
    assert(m@.take(m@.len() as int) =~= m@);
    r
}

/// The build manifest `template` with one `name = version` line per entry
/// of `dependencies`, inserted right after the `[dependencies]` header line;
/// `template` unchanged when there is no entry or no such line.
pub fn generate_cargo_toml_with_dependencies(template: &str, dependencies: &DependencyManifest)
    -> (r: String)
    ensures
        r@ == manifest_text(template@, dependencies@),
{
    let t = char_vec(template);
    if dependencies.is_empty() {
        return string_of(t.as_slice());
    }
    match find_from(&t, &char_vec("[dependencies]"), 0) {
        Some(h) => {
            proof {
                reveal_strlit("[dependencies]");
            }
            if h > t.len() || t.len() - h < 14 {
                return string_of(t.as_slice());
            }
            match find_from(&t, &char_vec("\n"), h + 14) {
                Some(nl) => {
                    proof {
                        reveal_strlit("\n");
                    }
                    let mut out = slice_of(&t, 0, nl + 1);
                    push_all(&mut out, &render_entries(dependencies));
                    push_all(&mut out, &slice_of(&t, nl + 1, t.len()));
                    string_of(out.as_slice())
                },
                None => string_of(t.as_slice()),
            }
        },
        None => string_of(t.as_slice()),
    }
}

/// A declared version always wins: completing a well-formed manifest with
/// inferred names keeps exactly one entry for each name it had, with that
/// entry's version, and keeps names unique.
pub proof fn lemma_declared_version_wins(m: Entries, ns: Seq<Seq<char>>, k: Seq<char>)
    requires
        keys_unique(m),
        lookup(m, k) is Some,
    ensures
        keys_unique(with_inferred(m, ns)),
        lookup(with_inferred(m, ns), k) == lookup(m, k),
        count_key(with_inferred(m, ns), k) == 1,
    decreases ns.len(),
{
    lemma_find_key(m, k);
    if ns.len() > 0 {
        lemma_declared_version_wins(m, ns.drop_last(), k);
        let prev = with_inferred(m, ns.drop_last());
        lemma_put_unique(prev, ns.last(), any_version());
        lemma_find_key(prev, k);
        lemma_find_key(prev, ns.last());
        let next = with_inferred(m, ns);
        lemma_find_key(next, k);
        if find_key(prev, ns.last()) < 0 {
            assert(ns.last() != k);
            assert(next == prev.push((ns.last(), any_version())));
            assert(find_key(next, k) == find_key(prev, k)) by {
                assert(next.drop_last() =~= prev);
            }
        }
        lemma_count_key(next, k);
    } else {
        lemma_count_key(m, k);
    }
}

proof fn lemma_inferred_skips(m: Entries, ns: Seq<Seq<char>>, n: Seq<char>)
    requires
        find_key(m, n) < 0,
        !ns.contains(n),
    ensures
        find_key(with_inferred(m, ns), n) < 0,
    decreases ns.len(),
{
    if ns.len() > 0 {
        assert(!ns.drop_last().contains(n)) by {
            if ns.drop_last().contains(n) {
                let k = choose|k: int| 0 <= k < ns.drop_last().len() && ns.drop_last()[k] == n;
                assert(ns[k] == n);
            }
        }
        lemma_inferred_skips(m, ns.drop_last(), n);
        let prev = with_inferred(m, ns.drop_last());
        assert(ns.last() != n) by {
            assert(ns[ns.len() - 1] == ns.last());
        }
        if find_key(prev, ns.last()) < 0 {
            assert(prev.push((ns.last(), any_version())).drop_last() =~= prev);
        }
    }
}

proof fn lemma_scanned_skips(m: Entries, srcs: Seq<Seq<char>>, locals: Seq<Seq<char>>, n: Seq<char>)
    requires
        find_key(m, n) < 0,
        locals.contains(n),
    ensures
        find_key(scanned(m, srcs, locals), n) < 0,
    decreases srcs.len(),
{
    if srcs.len() > 0 {
        lemma_scanned_skips(m, srcs.drop_last(), locals, n);
        lemma_local_modules_excluded(srcs.last(), locals, n);
        lemma_inferred_skips(
            scanned(m, srcs.drop_last(), locals),
            detected_in(srcs.last(), locals),
            n,
        );
    }
}

/// A module that the user's sources declare is never a dependency of the
/// runtime project, unless the declaration file names it itself.
pub proof fn lemma_local_module_not_a_dependency(
    declared: Option<Seq<char>>,
    srcs: Seq<Seq<char>>,
    n: Seq<char>,
)
    requires
        declared_in_files(srcs).contains(n),
        declared matches Some(t) ==> lookup(declared_entries(t), n) is None,
    ensures
        lookup(user_dependencies(declared, srcs), n) is None,
{
    let base = match declared {
        Some(t) => declared_entries(t),
        None => seq![],
    };
    lemma_find_key(base, n);
    lemma_scanned_skips(base, srcs, declared_in_files(srcs), n);
    lemma_find_key(user_dependencies(declared, srcs), n);
}

} // verus!
