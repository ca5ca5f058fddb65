//! Output paths: where a category's rows go, and the checks that keep every
//! such path inside the output directory.
use vstd::prelude::*;

use crate::record::RecordProcessingContext;

verus! {

pub open spec fn is_separator(c: char) -> bool {
    c == '/' || c == '\\'
}

/// At `i` the text holds a separator or the start of `..`.
pub open spec fn unsafe_at(s: Seq<char>, i: int) -> bool {
    is_separator(s[i]) || (i + 1 < s.len() && s[i] == '.' && s[i + 1] == '.')
}

/// A category that may not name a file: it holds `..`, `/` or `\`.
pub open spec fn is_unsafe_category(s: Seq<char>) -> bool {
    exists|i: int| 0 <= i < s.len() && #[trigger] unsafe_at(s, i)
}

/// At `i` the text holds a whole `..` component.
pub open spec fn parent_at(s: Seq<char>, i: int) -> bool {
    &&& i + 1 < s.len()
    &&& s[i] == '.'
    &&& s[i + 1] == '.'
    &&& (i == 0 || is_separator(s[i - 1]))
    &&& (i + 2 == s.len() || is_separator(s[i + 2]))
}

/// A relative path that leaves its base directory, read lexically: it
/// starts at the root or steps up with a `..` component.
pub open spec fn escapes(rel: Seq<char>) -> bool {
    ||| (rel.len() > 0 && is_separator(rel[0]))
    ||| exists|i: int| 0 <= i < rel.len() && #[trigger] parent_at(rel, i)
}

pub open spec fn csv_suffix() -> Seq<char> {
    seq!['.', 'c', 's', 'v']
}

/// The path of a category's file relative to the output directory.
pub open spec fn relative_path(category: Seq<char>, create_directory: bool, stem: Seq<char>) -> Seq<
    char,
> {
    if create_directory {
        category + seq!['/'] + stem + csv_suffix()
    } else {
        category + csv_suffix()
    }
}

/// `rel` placed under `dir`, with a `/` between them unless `dir` is empty
/// or already ends in one.
pub open spec fn join(dir: Seq<char>, rel: Seq<char>) -> Seq<char> {
    if dir.len() == 0 {
        rel
    } else if dir.last() == '/' {
        dir + rel
    } else {
        dir + seq!['/'] + rel
    }
}

/// Where a category's rows are written, and the directory to create first
/// when each category has a directory of its own.
pub struct CategoryPath {
    pub directory: Option<String>,
    pub file: String,
}

/// A category or a path that would leave the output directory.
#[derive(Debug)]
pub enum PathSafetyError {
    UnsafeCategory { category: String },
    Traversal { path: String },
}

fn has_unsafe_text(s: &str) -> (r: bool)
    ensures
        r == is_unsafe_category(s@),
{
    let n = s.unicode_len();
    let mut i: usize = 0;
    while i < n
        invariant
            n == s@.len(),
            i <= n,
            forall|k: int| 0 <= k < i ==> !unsafe_at(s@, k),
        decreases n - i,
    {
        let c = s.get_char(i);
        if c == '/' || c == '\\' {
            assert(unsafe_at(s@, i as int));
            return true;
        }
        if c == '.' && i + 1 < n && s.get_char(i + 1) == '.' {
            assert(unsafe_at(s@, i as int));
            return true;
        }
        i = i + 1;
    }
    false
}

fn has_parent_step(s: &str) -> (r: bool)
    ensures
        r == escapes(s@),
{
    let n = s.unicode_len();
    if n > 0 {
        let c = s.get_char(0);
        if c == '/' || c == '\\' {
            return true;
        }
    }
    let mut i: usize = 0;
    while i < n
        invariant
            n == s@.len(),
            i <= n,
            n > 0 ==> !is_separator(s@[0]),
            forall|k: int| 0 <= k < i ==> !parent_at(s@, k),
        decreases n - i,
    {
        if i + 1 < n && s.get_char(i) == '.' && s.get_char(i + 1) == '.' {
            let before = i == 0 || {
                let p = s.get_char(i - 1);
                p == '/' || p == '\\'
            };
            let after = i + 2 == n || {
                let q = s.get_char(i + 2);
                q == '/' || q == '\\'
            };
            if before && after {
                assert(parent_at(s@, i as int));
                return true;
            }
        }
        i = i + 1;
    }
    false
}

fn join_path(dir: &String, rel: &String) -> (r: String)
    ensures
        r@ == join(dir@, rel@),
{
    let n = dir.as_str().unicode_len();
    let mut r = dir.clone();
    if n > 0 {
        let last = dir.as_str().get_char(n - 1);
        if last != '/' {
            proof {
                reveal_strlit("/");
            }
            r.append("/");
        }
    }
    r.append(rel.as_str());
    r
}

/// The output path of a category. Fails when the category holds `..`, `/`
/// or `\`, or when the path relative to the output directory would leave
/// it.
pub fn create_category_path(category: &String, context: &RecordProcessingContext) -> (r: Result<
    CategoryPath,
    PathSafetyError,
>)
    ensures
        is_unsafe_category(category@) <==> r matches Err(PathSafetyError::UnsafeCategory { .. }),
        r matches Err(PathSafetyError::UnsafeCategory { category: c }) ==> c@ == category@,
        ({
            let rel = relative_path(category@, context.create_directory, context.file_name@);
            &&& r matches Err(PathSafetyError::Traversal { path }) ==> !is_unsafe_category(
                category@,
            ) && escapes(rel) && path@ == join(context.output_dir@, rel)
            &&& r is Ok <==> !is_unsafe_category(category@) && !escapes(rel)
            &&& r matches Ok(p) ==> {
                &&& p.file@ == join(context.output_dir@, rel)
                &&& (p.directory is Some <==> context.create_directory)
                &&& (p.directory matches Some(d) ==> d@ == join(context.output_dir@, category@))
            }
        }),
{
    if has_unsafe_text(category.as_str()) {
        return Err(PathSafetyError::UnsafeCategory { category: category.clone() });
    }
    proof {
        reveal_strlit("/");
        reveal_strlit(".csv");
    }
    let mut rel = category.clone();
    if context.create_directory {
        rel.append("/");
        rel.append(context.file_name.as_str());
    }
    rel.append(".csv");
    assert(rel@ =~= relative_path(category@, context.create_directory, context.file_name@));
    let file = join_path(&context.output_dir, &rel);
    if has_parent_step(rel.as_str()) {
        return Err(PathSafetyError::Traversal { path: file });
    }
    let directory = if context.create_directory {
        Some(join_path(&context.output_dir, category))
    } else {
        None
    };
    Ok(CategoryPath { directory, file })
}

/// Where the last component of a path starts: just after its last `/`.
pub open spec fn name_start(path: Seq<char>) -> int
    decreases path.len(),
{
    if path.len() == 0 {
        0
    } else if path.last() == '/' {
        path.len() as int
    } else {
        name_start(path.drop_last())
    }
}

/// The path without its trailing `/` separators and `.` components.
pub open spec fn trim_trailing(path: Seq<char>) -> Seq<char>
    decreases path.len(),
{
    if path.len() > 0 && path.last() == '/' {
        trim_trailing(path.drop_last())
    } else if path.len() >= 2 && path.last() == '.' && path[path.len() - 2] == '/' {
        trim_trailing(path.drop_last())
    } else {
        path
    }
}

/// The last component of a path, trailing separators and `.` components
/// skipped.
pub open spec fn file_name_of(path: Seq<char>) -> Seq<char> {
    let t = trim_trailing(path);
    t.subrange(name_start(t), t.len() as int)
}

/// The position of the last `.` of a name, or -1.
pub open spec fn last_dot(name: Seq<char>) -> int
    decreases name.len(),
{
    if name.len() == 0 {
        -1
    } else if name.last() == '.' {
        name.len() - 1
    } else {
        last_dot(name.drop_last())
    }
}

/// A file name without its extension: the part before its last `.`, or the
/// whole name where that `.` is its first character or it has none.
pub open spec fn stem_of(name: Seq<char>) -> Seq<char> {
    if last_dot(name) > 0 {
        name.subrange(0, last_dot(name))
    } else {
        name
    }
}

/// The path's last component names no file: it is empty (the path is
/// empty or the root), `.` or `..`.
pub open spec fn names_no_file(name: Seq<char>) -> bool {
    name.len() == 0 || name == seq!['.'] || name == seq!['.', '.']
}

proof fn lemma_last_dot_bounds(name: Seq<char>)
    ensures
        -1 <= last_dot(name) < name.len(),
    decreases name.len(),
{
    if name.len() > 0 {
        lemma_last_dot_bounds(name.drop_last());
    }
}

proof fn lemma_name_start_bounds(path: Seq<char>)
    ensures
        0 <= name_start(path) <= path.len(),
    decreases path.len(),
{
    if path.len() > 0 {
        lemma_name_start_bounds(path.drop_last());
    }
}

/// The stem of the file a path names: its last component, trailing
/// separators and `.` components skipped, without the extension. None where
/// that component is empty, `.` or `..`.
pub fn extract_file_name(path: &str) -> (r: Option<String>)
    ensures
        r is None <==> names_no_file(file_name_of(path@)),
        r matches Some(s) ==> s@ == stem_of(file_name_of(path@)),
{
    let n = path.unicode_len();
    let mut end: usize = n;
    assert(path@.subrange(0, n as int) =~= path@);
    while end > 0 && (path.get_char(end - 1) == '/' || (end >= 2 && path.get_char(end - 1) == '.'
        && path.get_char(end - 2) == '/'))
        invariant
            n == path@.len(),
            end <= n,
            trim_trailing(path@) == trim_trailing(path@.subrange(0, end as int)),
        decreases end,
    {
        assert(path@.subrange(0, end as int).drop_last() =~= path@.subrange(0, end - 1));
        end = end - 1;
    }
    assert(path@.subrange(0, n as int) =~= path@);
    let ghost t = path@.subrange(0, end as int);
    assert(trim_trailing(path@) == t);
    let mut start: usize = 0;
    let mut i: usize = 0;
    while i < end
        invariant
            n == path@.len(),
            end <= n,
            t == path@.subrange(0, end as int),
            i <= end,
            start as int == name_start(path@.subrange(0, i as int)),
        decreases end - i,
    {
        proof {
            let sub = path@.subrange(0, i + 1);
            assert(sub.drop_last() =~= path@.subrange(0, i as int));
        }
        if path.get_char(i) == '/' {
            start = i + 1;
        }
        i = i + 1;
    }
    assert(path@.subrange(0, end as int) =~= t);
    proof {
        lemma_name_start_bounds(t);
    }
    let name = path.substring_char(start, end);
    assert(name@ =~= file_name_of(path@));
    let m = name.unicode_len();
    let mut dot: usize = 0;
    let mut found = false;
    let mut j: usize = 0;
    while j < m
        invariant
            m == name@.len(),
            j <= m,
            found ==> dot as int == last_dot(name@.subrange(0, j as int)),
            !found ==> last_dot(name@.subrange(0, j as int)) == -1,
        decreases m - j,
    {
        proof {
            let sub = name@.subrange(0, j + 1);
            assert(sub.drop_last() =~= name@.subrange(0, j as int));
        }
        if name.get_char(j) == '.' {
            dot = j;
            found = true;
        }
        j = j + 1;
    }
    assert(name@.subrange(0, m as int) =~= name@);
    if m == 0 {
        return None;
    }
    if m <= 2 && name.get_char(0) == '.' && (m == 1 || name.get_char(1) == '.') {
        assert(names_no_file(name@)) by {
            if m == 1 {
                assert(name@ =~= seq!['.']);
            } else {
                assert(name@ =~= seq!['.', '.']);
            }
        }
        return None;
    }
    assert(!names_no_file(name@));
    proof {
        lemma_last_dot_bounds(name@);
    }
    if found && dot > 0 {
        Some(String::from_str(name.substring_char(0, dot)))
    } else {
        Some(String::from_str(name))
    }
}

} // verus!
