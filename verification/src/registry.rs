use vstd::prelude::*;

use crate::management::{ManageError, MigrationId};
use crate::text::{
    char_is_digit, chars_lt, chars_of, ends_with, has_at, has_suffix, is_digit, lemma_seq_lt_irreflexive,
    lemma_seq_lt_total, lemma_seq_lt_transitive, owned, push_char, push_str, seq_eq, seq_lt, str_eq,
    string_of,
};

verus! {

/// A file of the migration registry: `m`, a digit, ..., `.rs`.
pub open spec fn registry_source(name: Seq<char>) -> bool {
    name.len() >= 2 && name[0] == 'm' && is_digit(name[1]) && ends_with(name, ".rs"@)
}

/// The source file of migration `m`: `m{name}.rs`.
pub open spec fn source_file(m: MigrationId) -> Seq<char> {
    "m"@ + m.name@ + ".rs"@
}

/// The files the compiled migrations of `app` come from.
pub open spec fn expected_sources(ms: Seq<MigrationId>, app: Seq<char>) -> Set<Seq<char>> {
    Set::new(|f: Seq<char>| exists|i: int| 0 <= i < ms.len() && (#[trigger] ms[i]).app@ == app && f == source_file(ms[i]))
}

/// The registry files among `files`.
pub open spec fn present_sources(files: Seq<String>) -> Set<Seq<char>> {
    Set::new(|f: Seq<char>| exists|i: int| 0 <= i < files.len() && (#[trigger] files[i])@ == f && registry_source(f))
}

fn source_file_exec(m: &MigrationId) -> (r: String)
    ensures r@ == source_file(*m),
{
    let mut r = owned("m");
    push_str(&mut r, m.name.as_str());
    push_str(&mut r, ".rs");
    r
}

fn is_registry_source(name: &String) -> (r: bool)
    ensures r == registry_source(name@),
{
    let c = chars_of(name.as_str());
    let suffix = chars_of(".rs");
    c.len() >= 2 && c[0] == 'm' && char_is_digit(c[1]) && has_suffix(&c, &suffix)
}

fn file_listed(files: &Vec<String>, f: &String) -> (r: bool)
    ensures r == exists|i: int| 0 <= i < files@.len() && (#[trigger] files@[i])@ == f@,
{
    let mut i: usize = 0;
    while i < files.len()
        invariant
            i <= files@.len(),
            forall|j: int| 0 <= j < i ==> (#[trigger] files@[j])@ != f@,
        decreases files.len() - i,
    {
        if str_eq(files[i].as_str(), f.as_str()) {
            proof { assert(files@[i as int]@ == f@); }
            return true;
        }
        i += 1;
    }
    false
}

/// Checks that the registry files in a migration directory (`files`, the
/// names of its regular files; none when it does not exist) are exactly
/// the sources of the compiled migrations of `app`. `dir` is the directory
/// as the message shows it.
pub fn ensure_compiled_registry_matches(dir: &str, migrations: &Vec<MigrationId>, app: &str, files: &Vec<String>) -> (r: Result<(), ManageError>)
    ensures
        expected_sources(migrations@, app@) == present_sources(files@) ==> r is Ok,
        expected_sources(migrations@, app@) != present_sources(files@) ==> (r matches Err(ManageError::RegistryDiffers { app: a, dir: d })
            && a@ == app@ && d@ == dir@),
{
    let ghost expected = expected_sources(migrations@, app@);
    let ghost present = present_sources(files@);
    let mut i: usize = 0;
    while i < migrations.len()
        invariant
            i <= migrations@.len(),
            expected == expected_sources(migrations@, app@),
            present == present_sources(files@),
            forall|j: int| 0 <= j < i && (#[trigger] migrations@[j]).app@ == app@ ==> present.contains(source_file(migrations@[j])),
        decreases migrations.len() - i,
    {
        let m = &migrations[i];
        if str_eq(m.app.as_str(), app) {
            let f = source_file_exec(m);
            let ok = is_registry_source(&f) && file_listed(files, &f);
            if !ok {
                proof {
                    assert(expected.contains(source_file(migrations@[i as int])));
                    if present.contains(f@) {
                        let k = choose|k: int| 0 <= k < files@.len() && (#[trigger] files@[k])@ == f@ && registry_source(f@);
                        assert(files@[k]@ == f@);
                    }
                    assert(!present.contains(f@));
                }
                return Err(ManageError::RegistryDiffers { app: owned(app), dir: owned(dir) });
            }
            proof {
                let k = choose|k: int| 0 <= k < files@.len() && (#[trigger] files@[k])@ == f@;
                assert(files@[k]@ == f@ && registry_source(f@));
                assert(present.contains(f@));
            }
        }
        i += 1;
    }
    let mut k: usize = 0;
    while k < files.len()
        invariant
            k <= files@.len(),
            expected == expected_sources(migrations@, app@),
            present == present_sources(files@),
            forall|j: int| 0 <= j < migrations@.len() && (#[trigger] migrations@[j]).app@ == app@ ==> present.contains(source_file(migrations@[j])),
            forall|j: int| 0 <= j < k && registry_source((#[trigger] files@[j])@) ==> expected.contains(files@[j]@),
        decreases files.len() - k,
    {
        if is_registry_source(&files[k]) {
            let mut found = false;
            let mut i: usize = 0;
            while i < migrations.len() && !found
                invariant
                    i <= migrations@.len(),
                    k < files@.len(),
                    expected == expected_sources(migrations@, app@),
                    found ==> expected.contains(files@[k as int]@),
                    !found ==> forall|j: int| 0 <= j < i && (#[trigger] migrations@[j]).app@ == app@ ==> source_file(migrations@[j]) != files@[k as int]@,
                decreases migrations.len() - i,
            {
                let m = &migrations[i];
                if str_eq(m.app.as_str(), app) {
                    let f = source_file_exec(m);
                    if str_eq(f.as_str(), files[k].as_str()) {
                        proof { assert(expected.contains(source_file(migrations@[i as int]))); }
                        found = true;
                    }
                }
                i += 1;
            }
            if !found {
                proof {
                    assert(present.contains(files@[k as int]@));
                    if expected.contains(files@[k as int]@) {
                        let j = choose|j: int| 0 <= j < migrations@.len() && (#[trigger] migrations@[j]).app@ == app@
                            && files@[k as int]@ == source_file(migrations@[j]);
                        assert(source_file(migrations@[j]) != files@[k as int]@);
                    }
                }
                return Err(ManageError::RegistryDiffers { app: owned(app), dir: owned(dir) });
            }
        }
        k += 1;
    }
    proof {
        assert forall|f: Seq<char>| expected.contains(f) <==> present.contains(f) by {
            if expected.contains(f) {
                let j = choose|j: int| 0 <= j < migrations@.len() && (#[trigger] migrations@[j]).app@ == app@ && f == source_file(migrations@[j]);
                assert(present.contains(source_file(migrations@[j])));
            }
            if present.contains(f) {
                let j = choose|j: int| 0 <= j < files@.len() && (#[trigger] files@[j])@ == f && registry_source(f);
                assert(registry_source(files@[j]@));
            }
        }
        assert(expected =~= present);
    }
    Ok(())
}

} // verus!

verus! {

/// The line that opens the managed part of a migration registry.
pub open spec fn registry_begin() -> Seq<char> {
    "// che-orm: migrations begin"@
}

/// The line that closes the managed part of a migration registry.
pub open spec fn registry_end() -> Seq<char> {
    "// che-orm: migrations end"@
}

/// The registry written when there is none yet.
pub open spec fn empty_registry() -> Seq<char> {
    registry_begin() + "\n"@ + registry_end() + "\n"@
}

/// The first position at or after `from` where `p` occurs in `s`, or -1.
pub open spec fn find_seq(s: Seq<char>, p: Seq<char>, from: int) -> int
    decreases s.len() + 1 - from,
{
    if from < 0 || from + p.len() > s.len() {
        -1
    } else if s.subrange(from, from + p.len()) == p {
        from
    } else {
        find_seq(s, p, from + 1)
    }
}

/// A whitespace character (Unicode `White_Space`, as `char::is_whitespace`).
pub open spec fn is_ws(c: char) -> bool {
    ||| c == ' '
    ||| ('\t' <= c && c <= '\r')
    ||| c == '\u{85}'
    ||| c == '\u{a0}'
    ||| c == '\u{1680}'
    ||| ('\u{2000}' <= c && c <= '\u{200a}')
    ||| c == '\u{2028}'
    ||| c == '\u{2029}'
    ||| c == '\u{202f}'
    ||| c == '\u{205f}'
    ||| c == '\u{3000}'
}

/// `s` without leading whitespace.
pub open spec fn trim_start_ws(s: Seq<char>) -> Seq<char>
    decreases s.len(),
{
    if s.len() > 0 && is_ws(s[0]) { trim_start_ws(s.skip(1)) } else { s }
}

/// `s` without trailing whitespace.
pub open spec fn trim_end_ws(s: Seq<char>) -> Seq<char>
    decreases s.len(),
{
    if s.len() > 0 && is_ws(s.last()) { trim_end_ws(s.drop_last()) } else { s }
}

/// `s` without leading and trailing whitespace (`str::trim`).
pub open spec fn trim_ws(s: Seq<char>) -> Seq<char> {
    trim_end_ws(trim_start_ws(s))
}

/// The pieces of `s` between line feeds, the last one included.
pub open spec fn split_lines(s: Seq<char>) -> Seq<Seq<char>>
    decreases s.len(),
{
    if s.len() == 0 {
        seq![Seq::<char>::empty()]
    } else {
        let p = split_lines(s.drop_last());
        if s.last() == '\n' {
            p.push(Seq::<char>::empty())
        } else {
            p.update(p.len() - 1, p.last().push(s.last()))
        }
    }
}

/// The module a registry line declares: `pub mod NAME;` once trimmed.
pub open spec fn module_of_line(line: Seq<char>) -> Option<Seq<char>> {
    let t = trim_ws(line);
    if t.len() >= 9 && t.take(8) == "pub mod "@ && t.last() == ';' {
        Some(t.subrange(8, t.len() - 1))
    } else {
        None
    }
}

/// The modules declared by some of `lines`.
pub open spec fn modules_in(lines: Seq<Seq<char>>) -> Set<Seq<char>> {
    Set::new(|m: Seq<char>| exists|k: int| 0 <= k < lines.len() && module_of_line(#[trigger] lines[k]) == Some(m))
}

/// The elements of `s`.
pub open spec fn set_of(s: Seq<Seq<char>>) -> Set<Seq<char>> {
    Set::new(|x: Seq<char>| exists|i: int| 0 <= i < s.len() && #[trigger] s[i] == x)
}

/// `s` is in strictly increasing order.
pub open spec fn strictly_sorted(s: Seq<Seq<char>>) -> bool {
    forall|i: int, j: int| 0 <= i < j < s.len() ==> seq_lt(#[trigger] s[i], #[trigger] s[j])
}

/// `parts` joined by `sep`.
pub open spec fn join(parts: Seq<Seq<char>>, sep: Seq<char>) -> Seq<char>
    decreases parts.len(),
{
    if parts.len() == 0 {
        Seq::empty()
    } else if parts.len() == 1 {
        parts[0]
    } else {
        join(parts.drop_last(), sep) + sep + parts.last()
    }
}

/// The declarations of `mods`: `pub mod NAME;`.
pub open spec fn mod_lines(mods: Seq<Seq<char>>) -> Seq<Seq<char>> {
    Seq::new(mods.len(), |i: int| "pub mod "@ + mods[i] + ";"@)
}

/// The calls collecting the migrations of `mods`: `NAME::migration()`.
pub open spec fn mod_calls(mods: Seq<Seq<char>>) -> Seq<Seq<char>> {
    Seq::new(mods.len(), |i: int| mods[i] + "::migration()"@)
}

/// The managed part of a registry for `mods`, between `prefix` (which ends
/// with the begin marker) and `rest` (what follows the end marker).
pub open spec fn render_registry(prefix: Seq<char>, mods: Seq<Seq<char>>, rest: Seq<char>) -> Seq<char> {
    prefix + "\n"@ + join(mod_lines(mods), "\n"@) + "\npub fn all() -> Vec<che_orm::Migration> { vec!["@
        + join(mod_calls(mods), ", "@) + "] }\n"@ + registry_end() + rest
}

/// The outcome of registering `module` in registry text `current`.
pub open spec fn registry_update(current: Seq<char>, module: Seq<char>, r: Result<Seq<char>, ManageError>) -> bool {
    let start = find_seq(current, registry_begin(), 0);
    let end = find_seq(current, registry_end(), 0);
    if start < 0 {
        r == Err::<Seq<char>, ManageError>(ManageError::RegistryMissingBegin)
    } else if end < 0 {
        r == Err::<Seq<char>, ManageError>(ManageError::RegistryMissingEnd)
    } else if end < start {
        r == Err::<Seq<char>, ManageError>(ManageError::RegistryMarkerOrder)
    } else {
        let prefix_end = start + registry_begin().len();
        let known = modules_in(split_lines(current.subrange(prefix_end, end)));
        if known.contains(module) {
            r matches Err(ManageError::ModuleRegistered(m)) && m@ == module
        } else {
            r matches Ok(out) && exists|mods: Seq<Seq<char>>| strictly_sorted(mods)
                && set_of(mods) == known.insert(module)
                && out == render_registry(current.take(prefix_end), mods, current.skip(end + registry_end().len()))
        }
    }
}

} // verus!

verus! {

pub proof fn lemma_find_seq(s: Seq<char>, p: Seq<char>, from: int)
    requires 0 <= from,
    ensures
        find_seq(s, p, from) == -1 || (from <= find_seq(s, p, from) && find_seq(s, p, from) + p.len() <= s.len()
            && s.subrange(find_seq(s, p, from), find_seq(s, p, from) + p.len()) == p),
    decreases s.len() + 1 - from,
{
    if from + p.len() <= s.len() && s.subrange(from, from + p.len()) != p {
        lemma_find_seq(s, p, from + 1);
    }
}

pub(crate) fn find_seq_exec(s: &Vec<char>, p: &Vec<char>) -> (r: Option<usize>)
    ensures
        match r {
            Some(i) => i == find_seq(s@, p@, 0),
            None => find_seq(s@, p@, 0) == -1,
        },
{
    if p.len() > s.len() {
        proof { assert(find_seq(s@, p@, 0) == -1); }
        return None;
    }
    let last: usize = s.len() - p.len();
    let mut i: usize = 0;
    loop
        invariant
            i <= last,
            last == s@.len() - p@.len(),
            find_seq(s@, p@, 0) == find_seq(s@, p@, i as int),
        decreases last - i,
    {
        proof { assert(s@.subrange(i as int, s@.len() as int).take(p@.len() as int) == s@.subrange(i as int, i + p@.len())); }
        if has_at(s, i, p) {
            return Some(i);
        }
        if i == last {
            proof { assert(find_seq(s@, p@, i + 1) == -1); }
            return None;
        }
        i += 1;
    }
}

/// The end marker cannot start inside the begin marker.
proof fn lemma_markers_apart(c: Seq<char>, start: int, end: int)
    requires
        0 <= start, 0 <= end,
        start + registry_begin().len() <= c.len(),
        c.subrange(start, start + registry_begin().len()) == registry_begin(),
        end + registry_end().len() <= c.len(),
        c.subrange(end, end + registry_end().len()) == registry_end(),
        start <= end,
    ensures
        start + registry_begin().len() <= end,
{
    reveal_strlit("// che-orm: migrations begin");
    reveal_strlit("// che-orm: migrations end");
    let b = registry_begin();
    let e = registry_end();
    if end < start + b.len() {
        let d = end - start;
        assert(c[end] == e[0]);
        assert(c[end] == b[d]);
        assert(c[end + 1] == e[1]);
        if d == 0 {
            assert(c[end + 23] == e[23]);
            assert(c[end + 23] == b[23]);
        } else if d == 1 {
            assert(c[end + 1] == b[2]);
        } else {
            assert(b[d] != '/');
        }
    }
}

pub(crate) fn char_is_ws(c: char) -> (r: bool)
    ensures r == is_ws(c),
{
    c == ' ' || ('\t' <= c && c <= '\r') || c == '\u{85}' || c == '\u{a0}' || c == '\u{1680}'
        || ('\u{2000}' <= c && c <= '\u{200a}') || c == '\u{2028}' || c == '\u{2029}'
        || c == '\u{202f}' || c == '\u{205f}' || c == '\u{3000}'
}

pub(crate) fn trim_exec(s: &Vec<char>) -> (r: Vec<char>)
    ensures r@ == trim_ws(s@),
{
    let mut a: usize = 0;
    proof { assert(s@.skip(0) == s@); }
    while a < s.len() && char_is_ws(s[a])
        invariant
            a <= s@.len(),
            trim_start_ws(s@) == trim_start_ws(s@.skip(a as int)),
        decreases s.len() - a,
    {
        proof { assert(s@.skip(a as int).skip(1) == s@.skip(a + 1)); }
        a += 1;
    }
    let mut b: usize = s.len();
    proof { assert(s@.skip(a as int) == s@.subrange(a as int, b as int)); }
    while b > a && char_is_ws(s[b - 1])
        invariant
            a <= b <= s@.len(),
            trim_ws(s@) == trim_end_ws(s@.subrange(a as int, b as int)),
        decreases b - a,
    {
        proof { assert(s@.subrange(a as int, b as int).drop_last() == s@.subrange(a as int, b - 1)); }
        b -= 1;
    }
    let mut r: Vec<char> = Vec::new();
    let mut i: usize = a;
    while i < b
        invariant
            a <= i <= b <= s@.len(),
            r@ == s@.subrange(a as int, i as int),
        decreases b - i,
    {
        r.push(s[i]);
        proof { assert(s@.subrange(a as int, i + 1) == s@.subrange(a as int, i as int).push(s@[i as int])); }
        i += 1;
    }
    r
}

fn module_of_line_exec(line: &Vec<char>) -> (r: Option<Vec<char>>)
    ensures
        match r {
            Some(m) => module_of_line(line@) == Some(m@),
            None => module_of_line(line@) is None,
        },
{
    let t = trim_exec(line);
    let p = chars_of("pub mod ");
    if t.len() >= 9 && has_at(&t, 0, &p) && t[t.len() - 1] == ';' {
        proof {
            reveal_strlit("pub mod ");
            assert(t@.subrange(0, t@.len() as int) == t@);
        }
        let mut m: Vec<char> = Vec::new();
        let mut i: usize = 8;
        while i < t.len() - 1
            invariant
                8 <= i <= t@.len() - 1,
                t@.len() >= 9,
                m@ == t@.subrange(8, i as int),
            decreases t.len() - 1 - i,
        {
            m.push(t[i]);
            proof { assert(t@.subrange(8, i + 1) == t@.subrange(8, i as int).push(t@[i as int])); }
            i += 1;
        }
        Some(m)
    } else {
        proof {
            reveal_strlit("pub mod ");
            assert(t@.subrange(0, t@.len() as int) == t@);
        }
        None
    }
}

/// The views of `v`.
pub open spec fn views(v: Seq<Vec<char>>) -> Seq<Seq<char>> {
    Seq::new(v.len(), |i: int| v[i]@)
}

/// Inserts `x` into the strictly sorted `v` unless it holds it already;
/// tells whether it was inserted.
pub(crate) fn insert_unique(v: &mut Vec<Vec<char>>, x: Vec<char>) -> (inserted: bool)
    requires
        strictly_sorted(views(old(v)@)),
    ensures
        strictly_sorted(views(final(v)@)),
        set_of(views(final(v)@)) == set_of(views(old(v)@)).insert(x@),
        inserted == !set_of(views(old(v)@)).contains(x@),
{
    let ghost old_s = views(v@);
    let mut p: usize = 0;
    while p < v.len() && chars_lt(&v[p], &x)
        invariant
            p <= v@.len(),
            views(v@) == old_s,
            strictly_sorted(old_s),
            forall|i: int| 0 <= i < p ==> seq_lt(#[trigger] old_s[i], x@),
        decreases v.len() - p,
    {
        p += 1;
    }
    if p < v.len() && seq_eq(&v[p], &x) {
        proof {
            assert(old_s[p as int] == x@);
            assert(set_of(old_s).contains(x@));
            assert(set_of(old_s).insert(x@) =~= set_of(old_s));
        }
        return false;
    }
    proof {
        if p < old_s.len() {
            lemma_seq_lt_total(old_s[p as int], x@);
            assert(seq_lt(x@, old_s[p as int]));
        }
        if set_of(old_s).contains(x@) {
            let k = choose|k: int| 0 <= k < old_s.len() && #[trigger] old_s[k] == x@;
            if k < p {
                lemma_seq_lt_irreflexive(x@);
            } else if k > p {
                assert(seq_lt(old_s[p as int], old_s[k]));
                lemma_seq_lt_total(x@, old_s[p as int]);
            }
        }
    }
    v.insert(p, x);
    proof {
        let s = views(v@);
        assert(s =~= old_s.insert(p as int, x@));
        assert forall|i: int, j: int| 0 <= i < j < s.len() implies seq_lt(#[trigger] s[i], #[trigger] s[j]) by {
            if j < p {
                assert(seq_lt(old_s[i], old_s[j]));
            } else if j == p {
            } else if i == p {
                if j - 1 > p {
                    assert(seq_lt(old_s[p as int], old_s[j - 1]));
                    lemma_seq_lt_transitive(x@, old_s[p as int], old_s[j - 1]);
                }
            } else if i < p {
                assert(seq_lt(old_s[i], x@));
                if j - 1 == p {
                    lemma_seq_lt_transitive(old_s[i], x@, old_s[p as int]);
                } else {
                    assert(seq_lt(old_s[i], old_s[j - 1]));
                }
            } else {
                assert(seq_lt(old_s[i - 1], old_s[j - 1]));
            }
        }
        assert forall|y: Seq<char>| set_of(s).contains(y) <==> set_of(old_s).insert(x@).contains(y) by {
            if set_of(s).contains(y) {
                let k = choose|k: int| 0 <= k < s.len() && #[trigger] s[k] == y;
                if k < p { assert(old_s[k] == y); } else if k > p { assert(old_s[k - 1] == y); }
            }
            if set_of(old_s).contains(y) {
                let k = choose|k: int| 0 <= k < old_s.len() && #[trigger] old_s[k] == y;
                if k < p { assert(s[k] == y); } else { assert(s[k + 1] == y); }
            }
            if y == x@ {
                assert(s[p as int] == y);
            }
        }
        assert(set_of(s) =~= set_of(old_s).insert(x@));
    }
    true
}


} // verus!

verus! {

proof fn lemma_split_nonempty(s: Seq<char>)
    ensures split_lines(s).len() >= 1,
    decreases s.len(),
{
    if s.len() > 0 {
        lemma_split_nonempty(s.drop_last());
    }
}

proof fn lemma_modules_push(ls: Seq<Seq<char>>, x: Seq<char>)
    ensures
        modules_in(ls.push(x)) == (match module_of_line(x) {
            Some(m) => modules_in(ls).insert(m),
            None => modules_in(ls),
        }),
{
    let l2 = ls.push(x);
    let rhs = match module_of_line(x) {
        Some(m) => modules_in(ls).insert(m),
        None => modules_in(ls),
    };
    assert forall|m: Seq<char>| modules_in(l2).contains(m) <==> rhs.contains(m) by {
        if modules_in(l2).contains(m) {
            let k = choose|k: int| 0 <= k < l2.len() && module_of_line(#[trigger] l2[k]) == Some(m);
            if k < ls.len() {
                assert(ls[k] == l2[k]);
                assert(modules_in(ls).contains(m));
            }
        }
        if modules_in(ls).contains(m) {
            let k = choose|k: int| 0 <= k < ls.len() && module_of_line(#[trigger] ls[k]) == Some(m);
            assert(l2[k] == ls[k]);
        }
        if module_of_line(x) == Some(m) {
            assert(l2[ls.len() as int] == x);
        }
    }
    assert(modules_in(l2) =~= rhs);
}

pub(crate) proof fn lemma_join_step(xs: Seq<Seq<char>>, sep: Seq<char>, k: int)
    requires 0 <= k < xs.len(),
    ensures
        join(xs.take(k + 1), sep) == if k == 0 { xs[0] } else { join(xs.take(k), sep) + sep + xs[k] },
{
    assert(xs.take(k + 1).drop_last() == xs.take(k));
    assert(xs.take(k + 1).last() == xs[k]);
    if k == 0 {
        assert(xs.take(1)[0] == xs[0]);
    }
}

fn push_range(out: &mut String, v: &Vec<char>, from: usize, to: usize)
    requires from <= to <= v@.len(),
    ensures final(out)@ == old(out)@ + v@.subrange(from as int, to as int),
{
    let mut i = from;
    while i < to
        invariant
            from <= i <= to <= v@.len(),
            out@ == old(out)@ + v@.subrange(from as int, i as int),
        decreases to - i,
    {
        push_char(out, v[i]);
        proof { assert(v@.subrange(from as int, i + 1) == v@.subrange(from as int, i as int).push(v@[i as int])); }
        i += 1;
    }
}

fn push_all(out: &mut String, v: &Vec<char>)
    ensures final(out)@ == old(out)@ + v@,
{
    push_range(out, v, 0, v.len());
    proof { assert(v@.subrange(0, v@.len() as int) == v@); }
}

/// The registry that `current` becomes once `module` is registered: the
/// modules declared between the markers, and `module`, in order, each
/// declared and collected by `all()`. `current` is the registry file, or
/// `None` when there is none yet. A module is registered once.
pub fn rendered_registry_update(current: Option<String>, module: &str) -> (r: Result<String, ManageError>)
    ensures
        ({
            let text = match current { Some(c) => c@, None => empty_registry() };
            match r {
                Ok(s) => registry_update(text, module@, Ok(s@)),
                Err(e) => registry_update(text, module@, Err(e)),
            }
        }),
{
    let text: Vec<char> = match current {
        Some(c) => chars_of(c.as_str()),
        None => {
            let mut s = owned("// che-orm: migrations begin");
            push_str(&mut s, "\n");
            push_str(&mut s, "// che-orm: migrations end");
            push_str(&mut s, "\n");
            chars_of(s.as_str())
        },
    };
    let ghost t = text@;
    let text_len = text.len();
    let b = chars_of("// che-orm: migrations begin");
    let e = chars_of("// che-orm: migrations end");
    let start = match find_seq_exec(&text, &b) {
        None => { return Err(ManageError::RegistryMissingBegin); },
        Some(i) => i,
    };
    let end = match find_seq_exec(&text, &e) {
        None => { return Err(ManageError::RegistryMissingEnd); },
        Some(i) => i,
    };
    if end < start {
        return Err(ManageError::RegistryMarkerOrder);
    }
    proof {
        lemma_find_seq(t, b@, 0);
        lemma_find_seq(t, e@, 0);
        lemma_markers_apart(t, start as int, end as int);
    }
    let prefix_end: usize = start + b.len();
    let tail: usize = end + e.len();
    let ghost region = t.subrange(prefix_end as int, end as int);
    let mut mods: Vec<Vec<char>> = Vec::new();
    let mut line: Vec<char> = Vec::new();
    let mut i: usize = prefix_end;
    proof {
        assert(region.take(0) == Seq::<char>::empty());
        assert(split_lines(Seq::<char>::empty()).drop_last() == Seq::<Seq<char>>::empty());
        assert(set_of(views(mods@)) =~= modules_in(Seq::<Seq<char>>::empty()));
    }
    while i < end
        invariant
            prefix_end <= i <= end <= t.len(),
            text@ == t,
            region == t.subrange(prefix_end as int, end as int),
            strictly_sorted(views(mods@)),
            set_of(views(mods@)) == modules_in(split_lines(region.take(i - prefix_end)).drop_last()),
            line@ == split_lines(region.take(i - prefix_end)).last(),
        decreases end - i,
    {
        let ghost j = i - prefix_end;
        let ghost p = split_lines(region.take(j));
        proof {
            lemma_split_nonempty(region.take(j));
            assert(region.take(j + 1).drop_last() == region.take(j));
            assert(region.take(j + 1).last() == text@[i as int]);
        }
        let c = text[i];
        if c == '\n' {
            proof {
                assert(split_lines(region.take(j + 1)) == p.push(Seq::<char>::empty()));
                assert(split_lines(region.take(j + 1)).drop_last() == p);
                assert(p == p.drop_last().push(p.last()));
                lemma_modules_push(p.drop_last(), p.last());
            }
            match module_of_line_exec(&line) {
                Some(m) => { insert_unique(&mut mods, m); },
                None => {},
            }
            line = Vec::new();
        } else {
            proof {
                assert(split_lines(region.take(j + 1)).drop_last() == p.drop_last());
            }
            line.push(c);
        }
        i += 1;
    }
    proof {
        let p = split_lines(region.take(end - prefix_end));
        assert(region.take(end - prefix_end) == region);
        lemma_split_nonempty(region);
        assert(p == p.drop_last().push(p.last()));
        lemma_modules_push(p.drop_last(), p.last());
    }
    match module_of_line_exec(&line) {
        Some(m) => { insert_unique(&mut mods, m); },
        None => {},
    }
    let mv = chars_of(module);
    let inserted = insert_unique(&mut mods, mv);
    if !inserted {
        return Err(ManageError::ModuleRegistered(owned(module)));
    }
    let ghost ms = views(mods@);
    let mut out = String::new();
    push_range(&mut out, &text, 0, prefix_end);
    push_str(&mut out, "\n");
    let ghost head = out@;
    let mut k: usize = 0;
    while k < mods.len()
        invariant
            k <= mods@.len(),
            ms == views(mods@),
            tail <= text@.len(),
            text_len == text@.len(),
            out@ == head + join(mod_lines(ms).take(k as int), "\n"@),
        decreases mods.len() - k,
    {
        proof { lemma_join_step(mod_lines(ms), "\n"@, k as int); }
        if k > 0 {
            push_str(&mut out, "\n");
        }
        push_str(&mut out, "pub mod ");
        push_all(&mut out, &mods[k]);
        push_str(&mut out, ";");
        k += 1;
    }
    proof { assert(mod_lines(ms).take(ms.len() as int) == mod_lines(ms)); }
    push_str(&mut out, "\npub fn all() -> Vec<che_orm::Migration> { vec![");
    let ghost head2 = out@;
    let mut k: usize = 0;
    while k < mods.len()
        invariant
            k <= mods@.len(),
            ms == views(mods@),
            tail <= text@.len(),
            text_len == text@.len(),
            out@ == head2 + join(mod_calls(ms).take(k as int), ", "@),
        decreases mods.len() - k,
    {
        proof { lemma_join_step(mod_calls(ms), ", "@, k as int); }
        if k > 0 {
            push_str(&mut out, ", ");
        }
        push_all(&mut out, &mods[k]);
        push_str(&mut out, "::migration()");
        k += 1;
    }
    proof { assert(mod_calls(ms).take(ms.len() as int) == mod_calls(ms)); }
    push_str(&mut out, "] }\n");
    push_str(&mut out, "// che-orm: migrations end");
    push_range(&mut out, &text, tail, text_len);
    proof {
        assert(t.subrange(0, prefix_end as int) == t.take(prefix_end as int));
        assert(t.subrange(end + e@.len(), t.len() as int) == t.skip(end + e@.len()));
    }
    Ok(out)
}

} // verus!
