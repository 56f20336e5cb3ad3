//! Unix path handling: components, prefixes, module paths and ordering.
//!
//! A path is held as text; its components follow `std::path::Path::components`
//! on Unix: a leading `/` is the root, repeated separators and interior `.`
//! are dropped, a leading `.` stays as the current directory, `..` is the
//! parent directory and anything else is a normal component. Components are
//! represented by their text (`/`, `.`, `..` or the name), which identifies
//! their kind.

use vstd::prelude::*;

use crate::text::{
    append_chars, append_str, chars_equal, chars_of, copy_range, ends_with_chars, has_suffix, join,
    split, split_chars, strings_view, strip_trailing, views_of,
};

verus! {

/// Whether a component text is a normal (named) component.
pub open spec fn is_normal_component(part: Seq<char>) -> bool {
    part != "/"@ && part != "."@ && part != ".."@
}

/// The pieces that remain after dropping empty pieces and `.` pieces.
pub open spec fn meaningful_pieces(pieces: Seq<Seq<char>>) -> Seq<Seq<char>>
    decreases pieces.len(),
{
    if pieces.len() == 0 {
        Seq::<Seq<char>>::empty()
    } else {
        let kept = meaningful_pieces(pieces.drop_last());
        if pieces.last().len() == 0 || pieces.last() == "."@ {
            kept
        } else {
            kept.push(pieces.last())
        }
    }
}

/// The components of a path, each given by its text.
pub open spec fn path_components(path: Seq<char>) -> Seq<Seq<char>> {
    let pieces = split(path, '/');
    if path.len() > 0 && path[0] == '/' {
        seq!["/"@] + meaningful_pieces(pieces)
    } else if pieces[0] == "."@ {
        seq!["."@] + meaningful_pieces(pieces.drop_first())
    } else {
        meaningful_pieces(pieces)
    }
}

/// The normal components among `parts`, in order.
pub open spec fn normal_components(parts: Seq<Seq<char>>) -> Seq<Seq<char>>
    decreases parts.len(),
{
    if parts.len() == 0 {
        Seq::<Seq<char>>::empty()
    } else if is_normal_component(parts.last()) {
        normal_components(parts.drop_last()).push(parts.last())
    } else {
        normal_components(parts.drop_last())
    }
}

/// The components of `path` after those of `base`, when `base` is a component-wise
/// prefix of `path` (`Path::strip_prefix`), and all components of `path` otherwise.
pub open spec fn relative_components(path: Seq<char>, base: Seq<char>) -> Seq<Seq<char>> {
    let parts = path_components(path);
    let base_parts = path_components(base);
    if base_parts.len() <= parts.len() && parts.subrange(0, base_parts.len() as int) == base_parts {
        parts.subrange(base_parts.len() as int, parts.len() as int)
    } else {
        parts
    }
}

/// Splits a path into the texts of its components.
pub fn components_of(path: &[char]) -> (parts: Vec<Vec<char>>)
    ensures
        views_of(parts@) == path_components(path@),
{
    let pieces = split_chars(path, '/');
    let rooted = path.len() > 0 && path[0] == '/';
    let dot: Vec<char> = vec!['.'];
    assert(dot@ == "."@) by {
        reveal_strlit(".");
    }
    let leading_dot = !rooted && chars_equal(pieces[0].as_slice(), dot.as_slice());
    let mut parts: Vec<Vec<char>> = Vec::new();
    let mut first: usize = 0;
    if rooted {
        let root: Vec<char> = vec!['/'];
        assert(root@ == "/"@) by {
            reveal_strlit("/");
        }
        parts.push(root);
    } else if leading_dot {
        parts.push(dot.clone());
        first = 1;
    }
    let ghost head = views_of(parts@);
    let ghost source = views_of(pieces@).subrange(first as int, pieces@.len() as int);
    assert(views_of(pieces@).subrange(first as int, first as int) =~= Seq::<Seq<char>>::empty());
    assert(head + meaningful_pieces(Seq::<Seq<char>>::empty()) =~= views_of(parts@));
    let mut i: usize = first;
    while i < pieces.len()
        invariant
            first <= i <= pieces@.len(),
            pieces@.len() >= 1,
            dot@ == "."@,
            views_of(parts@) == head + meaningful_pieces(views_of(pieces@).subrange(first as int, i as int)),
        decreases pieces@.len() - i,
    {
        let ghost prefix = views_of(pieces@).subrange(first as int, i as int);
        assert(views_of(pieces@).subrange(first as int, i + 1).drop_last() =~= prefix);
        assert(views_of(pieces@)[i as int] == pieces@[i as int]@);
        if pieces[i].len() > 0 && !chars_equal(pieces[i].as_slice(), dot.as_slice()) {
            let ghost before = parts@;
            parts.push(pieces[i].clone());
            assert(views_of(parts@) =~= views_of(before).push(pieces@[i as int]@));
        }
        i = i + 1;
    }
    assert(views_of(pieces@).subrange(first as int, pieces@.len() as int) =~= if first == 0 {
        views_of(pieces@)
    } else {
        views_of(pieces@).drop_first()
    });
    assert(views_of(parts@) =~= path_components(path@));
    parts
}

} // verus!

verus! {

/// The segments of the dotted module path of a file: the normal components
/// relative to the project root, the trailing `.py` removed from the last one
/// and a final `__init__` dropped.
pub open spec fn module_segments(file_path: Seq<char>, project_root: Seq<char>) -> Seq<Seq<char>> {
    let segments = normal_components(relative_components(file_path, project_root));
    if segments.len() == 0 {
        segments
    } else {
        let last = strip_trailing(segments.last(), ".py"@);
        if last == "__init__"@ {
            segments.drop_last()
        } else {
            segments.update(segments.len() - 1, last)
        }
    }
}

/// The dotted module path of a file (`package.module`).
pub open spec fn dotted_module_name(file_path: Seq<char>, project_root: Seq<char>) -> Seq<char> {
    join(module_segments(file_path, project_root), "."@)
}

/// Whether a normal component of the path below the project root is an excluded name.
pub open spec fn excluded_path(entry_path: Seq<char>, project_root: Seq<char>, excluded: Seq<Seq<char>>) -> bool {
    let parts = normal_components(relative_components(entry_path, project_root));
    exists|i: int| 0 <= i < parts.len() && excluded.contains(#[trigger] parts[i])
}

/// A path is excluded as soon as any one of its normal components below the
/// project root, whatever its depth, is an excluded name.
pub proof fn lemma_excluded_component_anywhere(
    entry_path: Seq<char>,
    project_root: Seq<char>,
    excluded: Seq<Seq<char>>,
    i: int,
)
    requires
        0 <= i < normal_components(relative_components(entry_path, project_root)).len(),
        excluded.contains(normal_components(relative_components(entry_path, project_root))[i]),
    ensures
        excluded_path(entry_path, project_root, excluded),
{
}

/// Whether the file name of a path has the extension `py` (`Path::extension`):
/// the last component is a normal name that ends in `.py` after a non-empty stem.
pub open spec fn python_source_path(path: Seq<char>) -> bool {
    let parts = path_components(path);
    &&& parts.len() > 0
    &&& is_normal_component(parts.last())
    &&& has_suffix(parts.last(), ".py"@)
    &&& parts.last().len() > 3
}

/// Whether a component text is a normal component.
pub fn is_normal_component_exec(part: &[char]) -> (result: bool)
    ensures
        result == is_normal_component(part@),
{
    let root = chars_of("/");
    let current = chars_of(".");
    let parent = chars_of("..");
    !chars_equal(part, root.as_slice()) && !chars_equal(part, current.as_slice()) && !chars_equal(part, parent.as_slice())
}

/// The normal components among `parts`.
pub fn normal_components_of(parts: &Vec<Vec<char>>) -> (result: Vec<Vec<char>>)
    ensures
        views_of(result@) == normal_components(views_of(parts@)),
{
    let mut result: Vec<Vec<char>> = Vec::new();
    let mut i: usize = 0;
    assert(views_of(parts@).subrange(0, 0) =~= Seq::<Seq<char>>::empty());
    assert(views_of(result@) =~= Seq::<Seq<char>>::empty());
    while i < parts.len()
        invariant
            i <= parts@.len(),
            views_of(result@) == normal_components(views_of(parts@).subrange(0, i as int)),
        decreases parts@.len() - i,
    {
        assert(views_of(parts@).subrange(0, i + 1).drop_last() =~= views_of(parts@).subrange(0, i as int));
        assert(views_of(parts@)[i as int] == parts@[i as int]@);
        if is_normal_component_exec(parts[i].as_slice()) {
            let ghost before = result@;
            result.push(parts[i].clone());
            assert(views_of(result@) =~= views_of(before).push(parts@[i as int]@));
        }
        i = i + 1;
    }
    assert(views_of(parts@).subrange(0, parts@.len() as int) =~= views_of(parts@));
    result
}

/// The components of `path` below `base` (`Path::strip_prefix`, or the whole path).
pub fn relative_components_of(path: &[char], base: &[char]) -> (result: Vec<Vec<char>>)
    ensures
        views_of(result@) == relative_components(path@, base@),
{
    let parts = components_of(path);
    let base_parts = components_of(base);
    let ghost p = views_of(parts@);
    let ghost b = views_of(base_parts@);
    if base_parts.len() > parts.len() {
        return parts;
    }
    let mut i: usize = 0;
    while i < base_parts.len()
        invariant
            base_parts@.len() <= parts@.len(),
            i <= base_parts@.len(),
            p == views_of(parts@),
            b == views_of(base_parts@),
            p == path_components(path@),
            b == path_components(base@),
            forall|k: int| 0 <= k < i ==> p[k] == b[k],
        decreases base_parts@.len() - i,
    {
        assert(p[i as int] == parts@[i as int]@ && b[i as int] == base_parts@[i as int]@);
        if !chars_equal(parts[i].as_slice(), base_parts[i].as_slice()) {
            assert(p.subrange(0, b.len() as int)[i as int] != b[i as int]);
            assert(p.subrange(0, b.len() as int) != b);
            return parts;
        }
        i = i + 1;
    }
    assert(p.subrange(0, b.len() as int) =~= b);
    let mut rest: Vec<Vec<char>> = Vec::new();
    let mut j: usize = base_parts.len();
    while j < parts.len()
        invariant
            base_parts@.len() <= j <= parts@.len(),
            p == views_of(parts@),
            views_of(rest@) == p.subrange(base_parts@.len() as int, j as int),
        decreases parts@.len() - j,
    {
        let ghost before = rest@;
        rest.push(parts[j].clone());
        assert(views_of(rest@) =~= views_of(before).push(parts@[j as int]@));
        assert(p.subrange(base_parts@.len() as int, j + 1) =~= p.subrange(base_parts@.len() as int, j as int).push(p[j as int]));
        j = j + 1;
    }
    rest
}

/// `s` without the trailing repetitions of `suffix`.
pub fn strip_trailing_chars(s: &[char], suffix: &[char]) -> (result: Vec<char>)
    ensures
        result@ == strip_trailing(s@, suffix@),
{
    let mut end: usize = s.len();
    assert(s@.subrange(0, end as int) =~= s@);
    if suffix.len() == 0 {
        return copy_range(s, 0, end);
    }
    loop
        invariant
            end <= s@.len(),
            suffix@.len() > 0,
            strip_trailing(s@, suffix@) == strip_trailing(s@.subrange(0, end as int), suffix@),
        decreases end,
    {
        let current = copy_range(s, 0, end);
        if !ends_with_chars(current.as_slice(), suffix) {
            return current;
        }
        assert(current@.subrange(0, current@.len() - suffix@.len()) =~= s@.subrange(0, end - suffix@.len()));
        end = end - suffix.len();
    }
}

/// Joins pieces with `.` between them.
pub fn join_with_dots(pieces: &Vec<Vec<char>>) -> (result: String)
    ensures
        result@ == join(views_of(pieces@), "."@),
{
    let mut result = String::new();
    let mut i: usize = 0;
    let ghost all = views_of(pieces@);
    assert(all.subrange(0, 0) =~= Seq::<Seq<char>>::empty());
    while i < pieces.len()
        invariant
            i <= pieces@.len(),
            all == views_of(pieces@),
            result@ == join(all.subrange(0, i as int), "."@),
        decreases pieces@.len() - i,
    {
        assert(all.subrange(0, i + 1).drop_last() =~= all.subrange(0, i as int));
        assert(all[i as int] == pieces@[i as int]@);
        if i > 0 {
            append_str(&mut result, ".");
        } else {
            assert(result@ =~= Seq::<char>::empty());
        }
        append_chars(&mut result, pieces[i].as_slice());
        i = i + 1;
    }
    assert(all.subrange(0, pieces@.len() as int) =~= all);
    result
}

/// Computes the dotted module path of a file from its place below the project root.
pub fn compute_module_path(file_path: &str, project_root: &str) -> (dotted: String)
    ensures
        dotted@ == dotted_module_name(file_path@, project_root@),
{
    let relative = relative_components_of(chars_of(file_path).as_slice(), chars_of(project_root).as_slice());
    let mut segments = normal_components_of(&relative);
    let count = segments.len();
    if count > 0 {
        let ghost before = views_of(segments@);
        let last = strip_trailing_chars(segments[count - 1].as_slice(), chars_of(".py").as_slice());
        assert(before.last() == segments@[count - 1]@);
        if chars_equal(last.as_slice(), chars_of("__init__").as_slice()) {
            segments.pop();
            assert(views_of(segments@) =~= before.drop_last());
        } else {
            segments.set(count - 1, last);
            assert(views_of(segments@) =~= before.update(count - 1, strip_trailing(before.last(), ".py"@)));
        }
    }
    join_with_dots(&segments)
}

/// Whether a file lies in an excluded directory below the project root.
pub fn is_excluded_path(entry_path: &str, project_root: &str, excluded_directories: &[String]) -> (result: bool)
    ensures
        result == excluded_path(entry_path@, project_root@, strings_view(excluded_directories@)),
{
    let relative = relative_components_of(chars_of(entry_path).as_slice(), chars_of(project_root).as_slice());
    let parts = normal_components_of(&relative);
    let ghost excluded = strings_view(excluded_directories@);
    let ghost names = views_of(parts@);
    let mut i: usize = 0;
    while i < parts.len()
        invariant
            i <= parts@.len(),
            names == views_of(parts@),
            names == normal_components(relative_components(entry_path@, project_root@)),
            excluded == strings_view(excluded_directories@),
            excluded.len() == excluded_directories@.len(),
            forall|k: int| 0 <= k < i ==> !excluded.contains(#[trigger] names[k]),
        decreases parts@.len() - i,
    {
        assert(names[i as int] == parts@[i as int]@);
        let mut j: usize = 0;
        while j < excluded_directories.len()
            invariant
                j <= excluded_directories@.len(),
                i < parts@.len(),
                names == views_of(parts@),
                names == normal_components(relative_components(entry_path@, project_root@)),
                excluded == strings_view(excluded_directories@),
                excluded.len() == excluded_directories@.len(),
                forall|k: int| 0 <= k < j ==> excluded[k] != names[i as int],
            decreases excluded_directories@.len() - j,
        {
            assert(excluded[j as int] == excluded_directories@[j as int]@);
            if chars_equal(chars_of(excluded_directories[j].as_str()).as_slice(), parts[i].as_slice()) {
                assert(excluded.contains(names[i as int]));
                return true;
            }
            j = j + 1;
        }
        i = i + 1;
    }
    false
}

/// Whether the file name of a path has the extension `py`.
pub fn is_python_source_path(path: &str) -> (result: bool)
    ensures
        result == python_source_path(path@),
{
    let parts = components_of(chars_of(path).as_slice());
    let count = parts.len();
    if count == 0 {
        return false;
    }
    let last = &parts[count - 1];
    assert(views_of(parts@).last() == last@);
    is_normal_component_exec(last.as_slice()) && ends_with_chars(last.as_slice(), chars_of(".py").as_slice())
        && last.len() > 3
}

} // verus!
