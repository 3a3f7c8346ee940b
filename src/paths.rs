//! Path helpers: splitting, joining and normalising relative paths.
use vstd::prelude::*;

use crate::text::{push_char, same_text};

verus! {

/// The text of each component of a path, as std's `Path::components` gives
/// them: `/` for the root, `.` for a leading current directory, `..` for a
/// parent directory, and the names in between.
pub uninterp spec fn path_components(s: Seq<char>) -> Seq<Seq<char>>;

pub open spec fn texts(v: Seq<String>) -> Seq<Seq<char>> {
    v.map_values(|c: String| c@)
}

/// Relies on std's `Path::components`: the components of `path` in order,
/// each as the text it was written with.
#[verifier::external_body]
fn components(path: &str) -> (r: Vec<String>)
    ensures
        texts(r@) == path_components(path@),
{
    std::path::Path::new(path).components().map(
        |c| c.as_os_str().to_string_lossy().into_owned(),
    ).collect()
}

/// Splits `path` into its components.
pub fn split_path(path: &str) -> (r: Vec<String>)
    ensures
        texts(r@) == path_components(path@),
{
    components(path)
}

/// A path that starts at the root.
pub open spec fn is_absolute(s: Seq<char>) -> bool {
    s.len() > 0 && s[0] == '/'
}

/// The path after pushing `part` onto `buf`: an absolute part replaces
/// the path; otherwise a separator is added unless the path is empty or
/// already ends in one.
pub open spec fn pushed(buf: Seq<char>, part: Seq<char>) -> Seq<char> {
    if is_absolute(part) {
        part
    } else if buf.len() > 0 && buf.last() != '/' {
        buf.push('/') + part
    } else {
        buf + part
    }
}

/// The path made by pushing the first `n` parts, in order, onto an empty path.
pub open spec fn joined(parts: Seq<Seq<char>>, n: int) -> Seq<char>
    decreases n,
{
    if n <= 0 || n > parts.len() {
        Seq::empty()
    } else {
        pushed(joined(parts, n - 1), parts[n - 1])
    }
}

pub open spec fn join_all(parts: Seq<Seq<char>>) -> Seq<char> {
    joined(parts, parts.len() as int)
}

/// Appends every character of `s`.
fn append_chars(out: &mut String, s: &str)
    ensures
        final(out)@ == old(out)@ + s@,
{
    let n = s.unicode_len();
    let mut i: usize = 0;
    while i < n
        invariant
            n == s@.len(),
            i <= n,
            out@ == old(out)@ + s@.subrange(0, i as int),
        decreases n - i,
    {
        push_char(out, s.get_char(i));
        assert(s@.subrange(0, i as int + 1) =~= s@.subrange(0, i as int).push(s@[i as int]));
        i = i + 1;
    }
    assert(s@.subrange(0, n as int) =~= s@);
}

/// Pushes `part` onto the path `buf`.
fn push_part(buf: &mut String, part: &str)
    ensures
        final(buf)@ == pushed(old(buf)@, part@),
{
    let n = part.unicode_len();
    if n > 0 && part.get_char(0) == '/' {
        *buf = String::new();
        append_chars(buf, part);
        assert(buf@ =~= part@);
        return;
    }
    let m = buf.as_str().unicode_len();
    if m > 0 && buf.as_str().get_char(m - 1) != '/' {
        push_char(buf, '/');
    }
    append_chars(buf, part);
}

/// Joins `parts` into one path, each pushed onto the ones before it.
pub fn join_path(parts: Vec<String>) -> (r: String)
    ensures
        r@ == join_all(texts(parts@)),
{
    let mut out = String::new();
    let mut i: usize = 0;
    while i < parts.len()
        invariant
            i <= parts@.len(),
            out@ == joined(texts(parts@), i as int),
        decreases parts.len() - i,
    {
        push_part(&mut out, parts[i].as_str());
        i = i + 1;
    }
    out
}

/// `s` with every backslash read as a separator.
pub open spec fn unix_separators(s: Seq<char>) -> Seq<char> {
    s.map_values(|c: char| if c == '\\' { '/' } else { c })
}

pub open spec fn absolute_text() -> Seq<char> {
    "Absolute paths are not allowed"@
}

pub open spec fn escape_text() -> Seq<char> {
    "Path attempts to escape base directory"@
}

pub open spec fn unsupported_text() -> Seq<char> {
    "Unsupported path component"@
}

/// The names left after the first `n` components: `.` is skipped, `..`
/// removes the name before it and fails where there is none, and a root
/// component is refused.
pub open spec fn normalized(comps: Seq<Seq<char>>, n: int) -> Result<Seq<Seq<char>>, Seq<char>>
    decreases n,
{
    if n <= 0 || n > comps.len() {
        Ok(Seq::empty())
    } else {
        match normalized(comps, n - 1) {
            Err(e) => Err(e),
            Ok(names) => {
                let c = comps[n - 1];
                if c == "."@ {
                    Ok(names)
                } else if c == ".."@ {
                    if names.len() == 0 {
                        Err(escape_text())
                    } else {
                        Ok(names.drop_last())
                    }
                } else if c == "/"@ {
                    Err(unsupported_text())
                } else {
                    Ok(names.push(c))
                }
            },
        }
    }
}

/// What `secure_path` gives for `s`: the relative path that `s` names, with
/// `.` and `..` resolved, or why it is refused.
pub open spec fn secured(s: Seq<char>) -> Result<Seq<char>, Seq<char>> {
    let u = unix_separators(s);
    if is_absolute(u) {
        Err(absolute_text())
    } else {
        match normalized(path_components(u), path_components(u).len() as int) {
            Ok(names) => Ok(join_all(names)),
            Err(e) => Err(e),
        }
    }
}

proof fn lemma_normalized_err(comps: Seq<Seq<char>>, i: int, n: int)
    requires
        0 <= i <= n <= comps.len(),
        normalized(comps, i) is Err,
    ensures
        normalized(comps, n) == normalized(comps, i),
    decreases n - i,
{
    if n > i {
        lemma_normalized_err(comps, i, n - 1);
    }
}

fn unix_path(path: &str) -> (r: String)
    ensures
        r@ == unix_separators(path@),
{
    let n = path.unicode_len();
    let mut out = String::new();
    let mut i: usize = 0;
    while i < n
        invariant
            n == path@.len(),
            i <= n,
            out@ == unix_separators(path@).subrange(0, i as int),
        decreases n - i,
    {
        let c = path.get_char(i);
        push_char(&mut out, if c == '\\' { '/' } else { c });
        assert(unix_separators(path@).subrange(0, i as int + 1) =~= unix_separators(path@).subrange(
            0,
            i as int,
        ).push(if c == '\\' { '/' } else { c }));
        i = i + 1;
    }
    assert(unix_separators(path@).subrange(0, n as int) =~= unix_separators(path@));
    out
}

/// Normalises a relative path and refuses absolute paths and paths that
/// climb above their starting directory. Backslashes count as separators.
pub fn secure_path(path: &str) -> (r: Result<String, String>)
    ensures
        match r {
            Ok(p) => secured(path@) == Ok::<Seq<char>, Seq<char>>(p@),
            Err(m) => secured(path@) == Err::<Seq<char>, Seq<char>>(m@),
        },
{
    let u = unix_path(path);
    let n = u.as_str().unicode_len();
    if n > 0 && u.as_str().get_char(0) == '/' {
        return Err(String::from_str("Absolute paths are not allowed"));
    }
    let comps = components(u.as_str());
    let ghost cs = texts(comps@);
    let mut names: Vec<String> = Vec::new();
    assert(texts(names@) =~= Seq::<Seq<char>>::empty());
    let mut i: usize = 0;
    while i < comps.len()
        invariant
            i <= comps@.len(),
            cs == texts(comps@),
            cs == path_components(u@),
            u@ == unix_separators(path@),
            !is_absolute(u@),
            normalized(cs, i as int) == Ok::<Seq<Seq<char>>, Seq<char>>(texts(names@)),
        decreases comps.len() - i,
    {
        let c = comps[i].as_str();
        assert(c@ == cs[i as int]);
        if same_text(c, ".") {
        } else if same_text(c, "..") {
            if names.len() == 0 {
                proof {
                    lemma_normalized_err(cs, i as int + 1, cs.len() as int);
                }
                return Err(String::from_str("Path attempts to escape base directory"));
            }
            let ghost before = names@;
            names.pop();
            assert(texts(names@) =~= texts(before).drop_last());
        } else if same_text(c, "/") {
            proof {
                lemma_normalized_err(cs, i as int + 1, cs.len() as int);
            }
            return Err(String::from_str("Unsupported path component"));
        } else {
            let ghost before = names@;
            names.push(comps[i].clone());
            assert(texts(names@) =~= texts(before).push(cs[i as int]));
        }
        i = i + 1;
    }
    Ok(join_path(names))
}

pub open spec fn validated(s: Seq<char>) -> Result<Seq<char>, Seq<char>> {
    if is_absolute(s) {
        Err("Absolute Pfade sind nicht erlaubt."@)
    } else if path_components(s).contains(".."@) {
        Err("Pfad darf keine '..' enthalten."@)
    } else {
        Ok(s)
    }
}

/// Accepts `path` unchanged if it is relative and has no `..` component.
pub fn validate_path(path: &str) -> (r: Result<String, String>)
    ensures
        match r {
            Ok(p) => validated(path@) == Ok::<Seq<char>, Seq<char>>(p@),
            Err(m) => validated(path@) == Err::<Seq<char>, Seq<char>>(m@),
        },
{
    let n = path.unicode_len();
    if n > 0 && path.get_char(0) == '/' {
        return Err(String::from_str("Absolute Pfade sind nicht erlaubt."));
    }
    let comps = components(path);
    let mut i: usize = 0;
    while i < comps.len()
        invariant
            i <= comps@.len(),
            texts(comps@) == path_components(path@),
            !is_absolute(path@),
            forall|k: int| 0 <= k < i ==> comps@[k]@ != ".."@,
        decreases comps.len() - i,
    {
        if same_text(comps[i].as_str(), "..") {
            assert(path_components(path@)[i as int] == ".."@);
            return Err(String::from_str("Pfad darf keine '..' enthalten."));
        }
        i = i + 1;
    }
    assert(!path_components(path@).contains(".."@));
    Ok(String::from_str(path))
}

/// The names left after the first `n` components when nothing is refused:
/// `.` is skipped, `..` removes the last name unless only the root or
/// nothing is left, and a root component starts the path afresh.
pub open spec fn cleaned(comps: Seq<Seq<char>>, n: int) -> Seq<Seq<char>>
    decreases n,
{
    if n <= 0 || n > comps.len() {
        Seq::empty()
    } else {
        let names = cleaned(comps, n - 1);
        let c = comps[n - 1];
        if c == "."@ {
            names
        } else if c == ".."@ {
            if names.len() > 0 && names.last() != "/"@ {
                names.drop_last()
            } else {
                names
            }
        } else if c == "/"@ {
            seq!["/"@]
        } else {
            names.push(c)
        }
    }
}

/// Resolves `.` and `..` in `path` by its text alone, without refusing
/// anything: a `..` at the start or right after the root is dropped.
pub fn clean_path(path: &str) -> (r: String)
    ensures
        r@ == join_all(cleaned(path_components(path@), path_components(path@).len() as int)),
{
    let comps = components(path);
    let ghost cs = texts(comps@);
    let mut names: Vec<String> = Vec::new();
    assert(texts(names@) =~= Seq::<Seq<char>>::empty());
    let mut i: usize = 0;
    while i < comps.len()
        invariant
            i <= comps@.len(),
            cs == texts(comps@),
            cs == path_components(path@),
            cleaned(cs, i as int) == texts(names@),
        decreases comps.len() - i,
    {
        let c = comps[i].as_str();
        assert(c@ == cs[i as int]);
        if same_text(c, ".") {
        } else if same_text(c, "..") {
            let k = names.len();
            if k > 0 && !same_text(names[k - 1].as_str(), "/") {
                let ghost before = names@;
                names.pop();
                assert(texts(names@) =~= texts(before).drop_last());
            }
        } else if same_text(c, "/") {
            names = Vec::new();
            names.push(String::from_str("/"));
            assert(texts(names@) =~= seq!["/"@]);
        } else {
            let ghost before = names@;
            names.push(comps[i].clone());
            assert(texts(names@) =~= texts(before).push(cs[i as int]));
        }
        i = i + 1;
    }
    join_path(names)
}

} // verus!
