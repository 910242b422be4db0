//! Synthesis of the runtime project's sources from the user's code: which
//! user files are accepted (the exact entry-point signature), the module
//! index of a copied module tree, and the entry point with the user's
//! function spliced over the template's pass-through.

use vstd::prelude::*;
use vstd::seq_lib::{to_multiset_contains, to_multiset_insert, to_multiset_len, to_multiset_remove};
use crate::paths::{extension, file_name, file_stem, path_extension, path_file_name, path_stem};
use crate::text::{
    char_vec, contains, contains_seq, find_from, first_from, push_all, slice_of, string_of,
    string_views, views,
};

verus! {

/// File name of the host-language processing source.
pub const RUST_FILE: &'static str = "rust_process_audio.rs";

/// File name of the C-ABI processing source.
pub const CPP_FILE: &'static str = "cpp_process_audio.cpp";

/// The exact signature that a host-language processing source must hold.
pub const RUST_SIGNATURE: &'static str = "pub fn rust_process(input: &Vec<Vec<f64>>, output: &mut Vec<Vec<f64>>)";

/// The exact signature that a C-ABI processing source must hold.
pub const CPP_SIGNATURE: &'static str = "extern \"C\" void cpp_process(const double* input, size_t num_channels, size_t num_samples, double* output)";

/// Start of the template's pass-through processing function.
pub const START_MARKER: &'static str = "// Rust processing function - will be loaded from user's code\nfn rust_process";

/// The processing function that delegates to a copied module tree.
pub const DELEGATION: &'static str = "// Rust processing function - loaded from user's code module\nmod user_code;\n\nfn rust_process(input: &Vec<Vec<f64>>, output: &mut Vec<Vec<f64>>) {\n    user_code::rust_process(input, output);\n}";

/// Last lines of a module index: the re-export of the processing function.
pub const INDEX_TAIL: &'static str = "\n\npub use rust_process_audio::rust_process;\n";

/// Which processing sources a run takes from a code folder.
#[derive(Clone, Copy, Debug, PartialEq, Eq, Structural)]
pub enum Selection {
    Rust,
    Cpp,
    Both,
}

/// The selection for the command-line flags: one flag alone selects its
/// language, no flag selects both, and both flags select nothing to copy.
pub fn selection_for(rust: bool, cpp: bool) -> (r: Option<Selection>)
    ensures
        r == (if rust && !cpp {
            Some(Selection::Rust)
        } else if cpp && !rust {
            Some(Selection::Cpp)
        } else if !rust && !cpp {
            Some(Selection::Both)
        } else {
            None
        }),
{
    if rust && !cpp {
        Some(Selection::Rust)
    } else if cpp && !rust {
        Some(Selection::Cpp)
    } else if !rust && !cpp {
        Some(Selection::Both)
    } else {
        None
    }
}

/// Whether a file named `name` is one that `sel` takes.
pub open spec fn selects(sel: Selection, name: Seq<char>) -> bool {
    match sel {
        Selection::Rust => name == RUST_FILE@,
        Selection::Cpp => name == CPP_FILE@,
        Selection::Both => name == RUST_FILE@ || name == CPP_FILE@,
    }
}

/// Whether a source named `name` with text `contents` holds the entry
/// point its language expects.
pub open spec fn valid_source(name: Seq<char>, contents: Seq<char>) -> bool {
    if name == CPP_FILE@ {
        contains(contents, CPP_SIGNATURE@)
    } else if name == RUST_FILE@ {
        contains(contents, RUST_SIGNATURE@)
    } else {
        false
    }
}

/// Whether the text of a host-language source holds the exact signature.
pub fn check_rust_function_signature(contents: &str) -> (r: bool)
    ensures
        r == contains(contents@, RUST_SIGNATURE@),
{
    contains_seq(&char_vec(contents), &char_vec(RUST_SIGNATURE))
}

/// Whether the text of a C-ABI source holds the exact signature.
pub fn check_cpp_function_signature(contents: &str) -> (r: bool)
    ensures
        r == contains(contents@, CPP_SIGNATURE@),
{
    contains_seq(&char_vec(contents), &char_vec(CPP_SIGNATURE))
}

fn is_named(name: &Vec<char>, expected: &str) -> (r: bool)
    ensures
        r == (name@ == expected@),
{
    crate::text::same_chars(name, &char_vec(expected))
}

/// Whether the file at `file_path`, whose text is `contents`, is a
/// processing source with the exact entry-point signature of its language.
/// Any other file name is not valid.
pub fn validate_file(file_path: &str, contents: &str) -> (r: bool)
    ensures
        r == (path_file_name(file_path@) matches Some(n) && valid_source(n, contents@)),
{
    match file_name(file_path) {
        Some(n) => {
            let nc = char_vec(n.as_str());
            if is_named(&nc, CPP_FILE) {
                check_cpp_function_signature(contents)
            } else if is_named(&nc, RUST_FILE) {
                check_rust_function_signature(contents)
            } else {
                false
            }
        },
        None => false,
    }
}

/// Whether the file at `file_path` is one of the two processing sources.
pub fn is_processing_source(file_path: &str) -> (r: bool)
    ensures
        r == (path_file_name(file_path@) matches Some(n) && (n == RUST_FILE@ || n == CPP_FILE@)),
{
    match file_name(file_path) {
        Some(n) => {
            let nc = char_vec(n.as_str());
            is_named(&nc, RUST_FILE) || is_named(&nc, CPP_FILE)
        },
        None => false,
    }
}

/// Whether the file at `file_path` is a processing source that `sel` takes.
pub fn wants_file(sel: Selection, file_path: &str) -> (r: bool)
    ensures
        r == (path_file_name(file_path@) matches Some(n) && selects(sel, n)),
{
    match file_name(file_path) {
        Some(n) => {
            let nc = char_vec(n.as_str());
            match sel {
                Selection::Rust => is_named(&nc, RUST_FILE),
                Selection::Cpp => is_named(&nc, CPP_FILE),
                Selection::Both => is_named(&nc, RUST_FILE) || is_named(&nc, CPP_FILE),
            }
        },
        None => false,
    }
}

/// Whether the path `p` names a processing program with extension `ext`:
/// its extension is `ext` and its text holds `process_audio`.
pub fn is_program_file(p: &str, ext: &str) -> (r: bool)
    ensures
        r == (path_extension(p@) == Some(ext@) && contains(p@, "process_audio"@)),
{
    match extension(p) {
        Some(e) => {
            let ec = char_vec(e.as_str());
            if is_named(&ec, ext) {
                contains_seq(&char_vec(p), &char_vec("process_audio"))
            } else {
                false
            }
        },
        None => false,
    }
}

/// Whether the path `p` names a WAV file: its extension is `wav`.
pub fn is_wav_file(p: &str) -> (r: bool)
    ensures
        r == (path_extension(p@) == Some("wav"@)),
{
    match extension(p) {
        Some(e) => is_named(&char_vec(e.as_str()), "wav"),
        None => false,
    }
}

/// `a` comes before `b` or equals it, character by character.
pub open spec fn lex_le(a: Seq<char>, b: Seq<char>) -> bool
    decreases a.len(),
{
    if a.len() == 0 {
        true
    } else if b.len() == 0 {
        false
    } else if a[0] != b[0] {
        a[0] < b[0]
    } else {
        lex_le(a.drop_first(), b.drop_first())
    }
}

/// Each text of `s` comes before or equals the texts after it.
pub open spec fn sorted(s: Seq<Seq<char>>) -> bool {
    forall|i: int, j: int| 0 <= i < j < s.len() ==> lex_le(s[i], s[j])
}

proof fn lemma_lex_total(a: Seq<char>, b: Seq<char>)
    ensures
        lex_le(a, b) || lex_le(b, a),
    decreases a.len(),
{
    if a.len() > 0 && b.len() > 0 && a[0] == b[0] {
        lemma_lex_total(a.drop_first(), b.drop_first());
    }
}

proof fn lemma_lex_trans(a: Seq<char>, b: Seq<char>, c: Seq<char>)
    requires
        lex_le(a, b),
        lex_le(b, c),
    ensures
        lex_le(a, c),
    decreases a.len(),
{
    if a.len() > 0 && b.len() > 0 && c.len() > 0 && a[0] == b[0] && b[0] == c[0] {
        lemma_lex_trans(a.drop_first(), b.drop_first(), c.drop_first());
    }
}

proof fn lemma_lex_refl(a: Seq<char>)
    ensures
        lex_le(a, a),
    decreases a.len(),
{
    if a.len() > 0 {
        lemma_lex_refl(a.drop_first());
    }
}

proof fn lemma_lex_antisym(a: Seq<char>, b: Seq<char>)
    requires
        lex_le(a, b),
        lex_le(b, a),
    ensures
        a == b,
    decreases a.len(),
{
    if a.len() > 0 && b.len() > 0 {
        lemma_lex_antisym(a.drop_first(), b.drop_first());
        assert(a =~= seq![a[0]] + a.drop_first());
        assert(b =~= seq![b[0]] + b.drop_first());
    }
}

/// Two sorted sequences with the same elements are the same sequence.
proof fn lemma_sorted_unique(x: Seq<Seq<char>>, y: Seq<Seq<char>>)
    requires
        sorted(x),
        sorted(y),
        x.to_multiset() == y.to_multiset(),
    ensures
        x == y,
    decreases x.len(),
{
    to_multiset_len(x);
    to_multiset_len(y);
    if x.len() > 0 {
        to_multiset_contains(x, x[0]);
        to_multiset_contains(y, x[0]);
        to_multiset_contains(y, y[0]);
        to_multiset_contains(x, y[0]);
        assert(x.contains(x[0]));
        assert(y.contains(y[0]));
        let k = choose|k: int| 0 <= k < y.len() && y[k] == x[0];
        let j = choose|j: int| 0 <= j < x.len() && x[j] == y[0];
        lemma_lex_refl(x[0]);
        lemma_lex_refl(y[0]);
        if k > 0 {
            assert(lex_le(y[0], y[k]));
        }
        if j > 0 {
            assert(lex_le(x[0], x[j]));
        }
        lemma_lex_antisym(x[0], y[0]);
        to_multiset_remove(x, 0);
        to_multiset_remove(y, 0);
        assert(x.remove(0) =~= x.drop_first());
        assert(y.remove(0) =~= y.drop_first());
        lemma_sorted_unique(x.drop_first(), y.drop_first());
        assert(x =~= seq![x[0]] + x.drop_first());
        assert(y =~= seq![y[0]] + y.drop_first());
    } else {
        assert(x =~= y);
    }
}

/// `s` in ascending order: the sorted sequence with the same elements.
pub open spec fn sorted_texts(s: Seq<Seq<char>>) -> Seq<Seq<char>> {
    choose|ls: Seq<Seq<char>>| sorted(ls) && ls.to_multiset() == s.to_multiset()
}

proof fn lemma_sorted_texts(s: Seq<Seq<char>>, ls: Seq<Seq<char>>)
    requires
        sorted(ls),
        ls.to_multiset() == s.to_multiset(),
    ensures
        sorted_texts(s) == ls,
{
    let c = sorted_texts(s);
    assert(sorted(c) && c.to_multiset() == s.to_multiset());
    lemma_sorted_unique(c, ls);
}

/// Whether `a` comes before `b` or equals it.
fn lex_leq(a: &Vec<char>, b: &Vec<char>) -> (r: bool)
    ensures
        r == lex_le(a@, b@),
{
    let mut i: usize = 0;
    assert(a@ =~= a@.subrange(0, a@.len() as int));
    assert(b@ =~= b@.subrange(0, b@.len() as int));
    while i < a.len() && i < b.len() && a[i] == b[i]
        invariant
            i <= a@.len(),
            i <= b@.len(),
            lex_le(a@, b@) == lex_le(
                a@.subrange(i as int, a@.len() as int),
                b@.subrange(i as int, b@.len() as int),
            ),
        decreases a@.len() - i,
    {
        assert(a@.subrange(i as int, a@.len() as int).drop_first() =~= a@.subrange(
            i + 1,
            a@.len() as int,
        ));
        assert(b@.subrange(i as int, b@.len() as int).drop_first() =~= b@.subrange(
            i + 1,
            b@.len() as int,
        ));
        i = i + 1;
    }
    if i == a.len() {
        true
    } else if i == b.len() {
        false
    } else {
        a[i] < b[i]
    }
}

/// The texts of `v` in ascending order.
pub fn sort_texts(v: &Vec<Vec<char>>) -> (r: Vec<Vec<char>>)
    ensures
        sorted(views(r@)),
        views(r@).to_multiset() == views(v@).to_multiset(),
{
    let mut r: Vec<Vec<char>> = Vec::new();
    let mut i: usize = 0;
    assert(views(r@) =~= views(v@).take(0));
    while i < v.len()
        invariant
            i <= v@.len(),
            sorted(views(r@)),
            views(r@).to_multiset() == views(v@).take(i as int).to_multiset(),
        decreases v@.len() - i,
    {
        let x = slice_of(&v[i], 0, v[i].len());
        assert(x@ =~= v@[i as int]@);
        let mut p: usize = 0;
        while p < r.len() && lex_leq(&r[p], &x)
            invariant
                p <= r@.len(),
                forall|j: int| 0 <= j < p ==> lex_le(r@[j]@, x@),
            decreases r@.len() - p,
        {
            p = p + 1;
        }
        let ghost before = views(r@);
        proof {
            if p < before.len() {
                lemma_lex_total(before[p as int], x@);
            }
            assert forall|j: int| p <= j < before.len() implies lex_le(x@, before[j]) by {
                if j > p {
                    lemma_lex_trans(x@, before[p as int], before[j]);
                }
            }
        }
        r.insert(p, x);
        proof {
            assert(views(r@) =~= before.insert(p as int, x@));
            to_multiset_insert(before, p as int, x@);
            assert(views(v@).take(i + 1) =~= views(v@).take(i as int).push(x@));
            vstd::seq_lib::to_multiset_build(views(v@).take(i as int), x@);
            assert(views(v@).take(i as int).insert(i as int, x@) =~= views(v@).take(i as int).push(x@));
            let s = views(r@);
            assert forall|a: int, b: int| 0 <= a < b < s.len() implies lex_le(s[a], s[b]) by {
                if a < p && b == p {
                } else if a < p && b > p {
                    lemma_lex_trans(before[a], x@, before[b - 1]);
                } else if a == p {
                } else if a > p {
                    assert(lex_le(before[a - 1], before[b - 1]));
                }
            }
        }
        i = i + 1;
    }
    assert(views(v@).take(v@.len() as int) =~= views(v@));
    r
}

/// The declaration line of module `stem`.
pub open spec fn module_line(stem: Seq<char>) -> Seq<char> {
    "pub mod "@ + stem + ";"@
}

/// The module a file declares in an index: its stem, for a file with
/// extension `rs` other than `mod.rs`.
pub open spec fn module_of(p: Seq<char>) -> Option<Seq<char>> {
    match path_stem(p) {
        Some(s) => if path_extension(p) == Some("rs"@) && s != "mod"@ {
            Some(s)
        } else {
            None
        },
        None => None,
    }
}

/// Declaration lines for the module files among `files`, in their order.
pub open spec fn module_lines(files: Seq<Seq<char>>) -> Seq<Seq<char>>
    decreases files.len(),
{
    if files.len() == 0 {
        seq![]
    } else {
        let prev = module_lines(files.drop_last());
        match module_of(files.last()) {
            Some(s) => prev.push(module_line(s)),
            None => prev,
        }
    }
}

/// The texts of `ls` joined with newlines.
pub open spec fn joined(ls: Seq<Seq<char>>) -> Seq<char>
    decreases ls.len(),
{
    if ls.len() == 0 {
        seq![]
    } else if ls.len() == 1 {
        ls[0]
    } else {
        joined(ls.drop_last()) + "\n"@ + ls.last()
    }
}

/// The module index for the declaration lines `ls` in the order given.
pub open spec fn index_text(ls: Seq<Seq<char>>) -> Seq<char> {
    joined(ls) + INDEX_TAIL@
}

/// The declaration line of the module file at `p`, if it is one.
fn module_line_of(p: &str) -> (r: Option<Vec<char>>)
    ensures
        r matches Some(l) ==> (module_of(p@) matches Some(s) && l@ == module_line(s)),
        r is None ==> module_of(p@) is None,
{
    match file_stem(p) {
        Some(s) => {
            let is_rs = match extension(p) {
                Some(e) => is_named(&char_vec(e.as_str()), "rs"),
                None => false,
            };
            let sc = char_vec(s.as_str());
            if is_rs && !is_named(&sc, "mod") {
                let mut l = char_vec("pub mod ");
                push_all(&mut l, &sc);
                push_all(&mut l, &char_vec(";"));
                assert(module_of(p@) == Some(s@));
                Some(l)
            } else {
                None
            }
        },
        None => None,
    }
}

/// The module index of a copied module tree holding files `files`: one
/// `pub mod` line per module file, in ascending order, then the re-export
/// of the processing function.
pub fn module_index(files: &Vec<String>) -> (r: String)
    ensures
        r@ == index_text(sorted_texts(module_lines(string_views(files@)))),
{
    let mut lines: Vec<Vec<char>> = Vec::new();
    let mut i: usize = 0;
    while i < files.len()
        invariant
            i <= files@.len(),
            views(lines@) == module_lines(string_views(files@).take(i as int)),
        decreases files@.len() - i,
    {
        assert(string_views(files@).take(i + 1).drop_last() =~= string_views(files@).take(
            i as int,
        ));
        assert(string_views(files@).take(i + 1).last() == files@[i as int]@);
        match module_line_of(files[i].as_str()) {
            Some(l) => {
                let ghost before = views(lines@);
                lines.push(l);
                assert(views(lines@) =~= before.push(l@));
            },
            None => {},
        }
        i = i + 1;
    }
    assert(string_views(files@).take(files@.len() as int) =~= string_views(files@));
    let ordered = sort_texts(&lines);
    proof {
        lemma_sorted_texts(views(lines@), views(ordered@));
    }
    let mut out: Vec<char> = Vec::new();
    let mut k: usize = 0;
    while k < ordered.len()
        invariant
            k <= ordered@.len(),
            out@ == joined(views(ordered@).take(k as int)),
        decreases ordered@.len() - k,
    {
        assert(views(ordered@).take(k + 1).drop_last() =~= views(ordered@).take(k as int));
        if k > 0 {
            push_all(&mut out, &char_vec("\n"));
        } else {
            assert(out@ =~= Seq::<char>::empty());
        }
        push_all(&mut out, &ordered[k]);
        k = k + 1;
        assert(out@ =~= joined(views(ordered@).take(k as int)));
    }
    assert(views(ordered@).take(ordered@.len() as int) =~= views(ordered@));
    push_all(&mut out, &char_vec(INDEX_TAIL));
    string_of(out.as_slice())
}

/// `template` with the span from the start marker to the closing brace
/// that the template's foreign-function section follows replaced by
/// `repl`; nothing when a marker is missing.
pub open spec fn spliced(template: Seq<char>, repl: Seq<char>) -> Option<Seq<char>> {
    let s = first_from(template, START_MARKER@, 0);
    let e = first_from(template, "\n}\n\n// C++ FFI"@, s);
    if s >= 0 && e >= 0 {
        Some(template.subrange(0, s) + repl + template.subrange(e + 2, template.len() as int))
    } else {
        None
    }
}

/// The entry point for `template` and an optional user source: the source
/// (or, for a module tree, the delegation to it) spliced over the
/// template's pass-through function when the source holds the exact
/// signature; the template itself otherwise, or when its markers are
/// missing.
pub open spec fn entry_point(template: Seq<char>, user: Option<Seq<char>>, modular: bool) -> Seq<
    char,
> {
    match user {
        Some(u) => if contains(u, RUST_SIGNATURE@) {
            match spliced(
                template,
                if modular {
                    DELEGATION@
                } else {
                    u
                },
            ) {
                Some(t) => t,
                None => template,
            }
        } else {
            template
        },
        None => template,
    }
}

/// `spliced(template, repl)`.
pub fn splice_user_function(template: &str, repl: &str) -> (r: Option<String>)
    ensures
        opt_string_view(r) == spliced(template@, repl@),
{
    let t = char_vec(template);
    let start = find_from(&t, &char_vec(START_MARKER), 0);
    match start {
        Some(s) => match find_from(&t, &char_vec("\n}\n\n// C++ FFI"), s) {
            Some(e) => {
                proof {
                    reveal_strlit("\n}\n\n// C++ FFI");
                    assert("\n}\n\n// C++ FFI"@.len() == 14);
                }
                let n = t.len();
                assert(e + 2 <= n);
                let mut out = slice_of(&t, 0, s);
                push_all(&mut out, &char_vec(repl));
                push_all(&mut out, &slice_of(&t, e + 2, t.len()));
                Some(string_of(out.as_slice()))
            },
            None => None,
        },
        None => None,
    }
}

/// The view of an optional string.
pub open spec fn opt_string_view(o: Option<String>) -> Option<Seq<char>> {
    match o {
        Some(s) => Some(s@),
        None => None,
    }
}

/// The runtime entry point built from `template` and the user's
/// host-language source, if any; `modular` when the source comes with a
/// module tree that is copied beside the entry point.
pub fn synthesize_entry_point(template: &str, user_source: Option<&str>, modular: bool) -> (r:
    String)
    ensures
        r@ == entry_point(
            template@,
            match user_source {
                Some(u) => Some(u@),
                None => None,
            },
            modular,
        ),
{
    match user_source {
        Some(u) => {
            if check_rust_function_signature(u) {
                let repl = if modular {
                    DELEGATION
                } else {
                    u
                };
                match splice_user_function(template, repl) {
                    Some(t) => t,
                    None => string_of(char_vec(template).as_slice()),
                }
            } else {
                string_of(char_vec(template).as_slice())
            }
        },
        None => string_of(char_vec(template).as_slice()),
    }
}

/// A user source without the exact entry-point signature is never spliced
/// in: the entry point is the template's, unchanged.
pub proof fn lemma_unsigned_source_ignored(template: Seq<char>, u: Seq<char>, modular: bool)
    requires
        !contains(u, RUST_SIGNATURE@),
    ensures
        entry_point(template, Some(u), modular) == template,
{
}

} // verus!
