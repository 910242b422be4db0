//! Dependency inference: which outside libraries a user's source text names
//! in its `use` lines, and which module names the source tree declares
//! itself (those are not libraries).

use vstd::prelude::*;
use crate::text::{
    before_first, char_vec, contains_name, first_word, has_prefix, leading_word, lines_of,
    prefix_before, same_chars, slice_of, split_lines, starts_with, string_of, string_views,
    strip_trailing, trim, trim_end_char, trimmed, views,
};

verus! {

/// Names of the standard runtime, never a dependency.
pub open spec fn is_runtime_name(n: Seq<char>) -> bool {
    n == "std"@ || n == "core"@ || n == "alloc"@
}

/// The first path segment named by a `use` line, when the line is one that
/// can name an outside library: it starts with `use ` but not with
/// `use crate::`, `use self::` or `use super::`. The segment is what comes
/// before the first `::`, trimmed, without trailing `;`.
pub open spec fn use_segment(line: Seq<char>) -> Option<Seq<char>> {
    let t = trim(line);
    if starts_with(t, "use "@) && !starts_with(t, "use crate::"@) && !starts_with(
        t,
        "use self::"@,
    ) && !starts_with(t, "use super::"@) {
        let rest = t.subrange(4, t.len() as int);
        Some(trim_end_char(trim(before_first(rest, "::"@)), ';'))
    } else {
        None
    }
}

/// A name that a line adds as a dependency candidate: a non-empty first
/// segment that is not a runtime name.
pub open spec fn use_candidate(line: Seq<char>) -> Option<Seq<char>> {
    match use_segment(line) {
        Some(n) => if n.len() > 0 && !is_runtime_name(n) {
            Some(n)
        } else {
            None
        },
        None => None,
    }
}

/// Names inferred from lines `ls`, each once, in order of first appearance,
/// leaving out the local modules `locals`.
pub open spec fn inferred(ls: Seq<Seq<char>>, locals: Seq<Seq<char>>) -> Seq<Seq<char>>
    decreases ls.len(),
{
    if ls.len() == 0 {
        seq![]
    } else {
        let prev = inferred(ls.drop_last(), locals);
        match use_candidate(ls.last()) {
            Some(n) => if locals.contains(n) || prev.contains(n) {
                prev
            } else {
                prev.push(n)
            },
            None => prev,
        }
    }
}

/// The dependency names inferred from source text `code`.
pub open spec fn detected_in(code: Seq<char>, locals: Seq<Seq<char>>) -> Seq<Seq<char>> {
    inferred(lines_of(code), locals)
}

/// The module declared by a line `mod x;` or `pub mod x;` (trimmed): the
/// first word after the keyword, once trailing `;` are gone.
pub open spec fn declared_module(line: Seq<char>) -> Option<Seq<char>> {
    let t = trim(line);
    if starts_with(t, "mod "@) || starts_with(t, "pub mod "@) {
        let kw_len: int = if starts_with(t, "pub mod "@) {
            8
        } else {
            4
        };
        let name = first_word(trim(trim_end_char(t.subrange(kw_len, t.len() as int), ';')));
        if name.len() > 0 {
            Some(name)
        } else {
            None
        }
    } else {
        None
    }
}

/// Module names declared by lines `ls`, appended to `acc` when new.
pub open spec fn declared_from(ls: Seq<Seq<char>>, acc: Seq<Seq<char>>) -> Seq<Seq<char>>
    decreases ls.len(),
{
    if ls.len() == 0 {
        acc
    } else {
        let prev = declared_from(ls.drop_last(), acc);
        match declared_module(ls.last()) {
            Some(n) => if prev.contains(n) {
                prev
            } else {
                prev.push(n)
            },
            None => prev,
        }
    }
}

/// Module names declared across source files `files`, in order, each once.
pub open spec fn declared_in_files(files: Seq<Seq<char>>) -> Seq<Seq<char>>
    decreases files.len(),
{
    if files.len() == 0 {
        seq![]
    } else {
        declared_from(lines_of(files.last()), declared_in_files(files.drop_last()))
    }
}

/// `use_candidate(line)`.
fn use_candidate_of(line: &Vec<char>) -> (r: Option<Vec<char>>)
    ensures
        r matches Some(n) ==> use_candidate(line@) == Some(n@),
        r is None ==> use_candidate(line@) is None,
{
    let t = trimmed(line);
    let kw = char_vec("use ");
    if !has_prefix(&t, &kw) || has_prefix(&t, &char_vec("use crate::")) || has_prefix(
        &t,
        &char_vec("use self::"),
    ) || has_prefix(&t, &char_vec("use super::")) {
        return None;
    }
    proof {
        reveal_strlit("use ");
    }
    let rest = slice_of(&t, 4, t.len());
    let first = prefix_before(&rest, &char_vec("::"));
    let name = strip_trailing(&trimmed(&first), ';');
    if name.len() == 0 || same_chars(&name, &char_vec("std")) || same_chars(
        &name,
        &char_vec("core"),
    ) || same_chars(&name, &char_vec("alloc")) {
        return None;
    }
    Some(name)
}

/// The outside library names that source text `code` refers to in its `use`
/// lines, each once and in order of first appearance, leaving out runtime
/// names, `crate`/`self`/`super` paths and the modules in `local_modules`.
pub fn detect_crate_dependencies(code: &str, local_modules: &Vec<String>) -> (r: Vec<String>)
    ensures
        string_views(r@) == detected_in(code@, string_views(local_modules@)),
{
    let ls = split_lines(&char_vec(code));
    let ghost locals = string_views(local_modules@);
    let mut r: Vec<String> = Vec::new();
    let mut i: usize = 0;
    while i < ls.len()
        invariant
            i <= ls@.len(),
            views(ls@) == lines_of(code@),
            locals == string_views(local_modules@),
            string_views(r@) == inferred(views(ls@).take(i as int), locals),
        decreases ls@.len() - i,
    {
        let ghost prefix = views(ls@).take(i as int);
        assert(views(ls@).take(i + 1).drop_last() =~= prefix);
        assert(views(ls@).take(i + 1).last() == ls@[i as int]@);
        match use_candidate_of(&ls[i]) {
            Some(n) => {
                if !contains_name(local_modules, &n) && !contains_name(&r, &n) {
                    let ghost old_r = r@;
                    r.push(string_of(n.as_slice()));
                    assert(string_views(r@) =~= string_views(old_r).push(n@));
                }
            },
            None => {},
        }
        i = i + 1;
    }
    assert(views(ls@).take(ls@.len() as int) =~= views(ls@));
    r
}

/// `declared_module(line)`.
fn declared_module_of(line: &Vec<char>) -> (r: Option<Vec<char>>)
    ensures
        r matches Some(n) ==> declared_module(line@) == Some(n@),
        r is None ==> declared_module(line@) is None,
{
    let t = trimmed(line);
    let plain = has_prefix(&t, &char_vec("mod "));
    let public = has_prefix(&t, &char_vec("pub mod "));
    if !plain && !public {
        return None;
    }
    proof {
        reveal_strlit("mod ");
        reveal_strlit("pub mod ");
    }
    let kw_len: usize = if public {
        8
    } else {
        4
    };
    let rest = slice_of(&t, kw_len, t.len());
    let name = leading_word(&trimmed(&strip_trailing(&rest, ';')));
    if name.len() == 0 {
        return None;
    }
    Some(name)
}

/// Appends to `acc` the modules that source text `code` declares and `acc`
/// does not hold yet.
fn add_declared_modules(code: &str, acc: &mut Vec<String>)
    ensures
        string_views(final(acc)@) == declared_from(lines_of(code@), string_views(old(acc)@)),
{
    let ls = split_lines(&char_vec(code));
    let ghost start = string_views(acc@);
    let mut i: usize = 0;
    while i < ls.len()
        invariant
            i <= ls@.len(),
            views(ls@) == lines_of(code@),
            string_views(acc@) == declared_from(views(ls@).take(i as int), start),
        decreases ls@.len() - i,
    {
        let ghost prefix = views(ls@).take(i as int);
        assert(views(ls@).take(i + 1).drop_last() =~= prefix);
        assert(views(ls@).take(i + 1).last() == ls@[i as int]@);
        match declared_module_of(&ls[i]) {
            Some(n) => {
                if !contains_name(acc, &n) {
                    let ghost old_acc = acc@;
                    acc.push(string_of(n.as_slice()));
                    assert(string_views(acc@) =~= string_views(old_acc).push(n@));
                }
            },
            None => {},
        }
        i = i + 1;
    }
    assert(views(ls@).take(ls@.len() as int) =~= views(ls@));
}

/// The module names that the source files `sources` declare with `mod x;`
/// or `pub mod x;`, each once, in order of first appearance.
pub fn collect_local_modules(sources: &Vec<String>) -> (r: Vec<String>)
    ensures
        string_views(r@) == declared_in_files(string_views(sources@)),
{
    let mut r: Vec<String> = Vec::new();
    let mut i: usize = 0;
    while i < sources.len()
        invariant
            i <= sources@.len(),
            string_views(r@) == declared_in_files(string_views(sources@).take(i as int)),
        decreases sources@.len() - i,
    {
        assert(string_views(sources@).take(i + 1).drop_last() =~= string_views(sources@).take(
            i as int,
        ));
        assert(string_views(sources@).take(i + 1).last() == sources@[i as int]@);
        add_declared_modules(sources[i].as_str(), &mut r);
        i = i + 1;
    }
    assert(string_views(sources@).take(sources@.len() as int) =~= string_views(sources@));
    r
}

/// Local modules are never dependencies: a name among `locals` (for
/// instance one that the source tree declares with `mod`) is not inferred
/// from any text, whatever its `use` lines say.
pub proof fn lemma_local_modules_excluded(code: Seq<char>, locals: Seq<Seq<char>>, n: Seq<char>)
    requires
        locals.contains(n),
    ensures
        !detected_in(code, locals).contains(n),
{
    lemma_inferred_excludes(lines_of(code), locals, n);
}

proof fn lemma_inferred_excludes(ls: Seq<Seq<char>>, locals: Seq<Seq<char>>, n: Seq<char>)
    requires
        locals.contains(n),
    ensures
        !inferred(ls, locals).contains(n),
    decreases ls.len(),
{
    if ls.len() > 0 {
        lemma_inferred_excludes(ls.drop_last(), locals, n);
        let prev = inferred(ls.drop_last(), locals);
        match use_candidate(ls.last()) {
            Some(m) => {
                if !locals.contains(m) && !prev.contains(m) {
                    assert(m != n);
                    assert forall|k: int| 0 <= k < prev.len() + 1 implies prev.push(m)[k] != n by {
                        if k < prev.len() {
                            assert(prev[k] == prev.push(m)[k]);
                        }
                    }
                }
            },
            None => {},
        }
    }
}

} // verus!
